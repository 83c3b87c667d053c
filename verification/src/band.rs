//! Age bands: raw ages are bucketed into a small closed set of band
//! floors so that many subscribers collapse into few polling groups.

use vstd::prelude::*;

verus! {

/// The minimum age accepted at registration; ages below it are rejected.
pub const MIN_AGE: u32 = 18;

/// The band floor for a raw age: 45 for ages of 45 and above, 18 for
/// ages in [18, 45), and 0 for ages below 18 (which registration rejects).
pub open spec fn spec_age_limit(age: u32) -> u32 {
    if age >= 45 {
        45
    } else if age >= 18 {
        18
    } else {
        0
    }
}

/// Maps a raw age to its age-band floor.
pub fn get_age_limit(age: u32) -> (band: u32)
    ensures
        band == spec_age_limit(age),
{
    if age >= 45 {
        45
    } else if age >= 18 {
        18
    } else {
        0
    }
}

} // verus!
