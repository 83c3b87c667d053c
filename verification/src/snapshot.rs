//! Availability snapshots: the point-in-time view of a location's
//! centers and sessions, and the group evaluator that decides whether a
//! snapshot holds any opportunity for a given age band.

use vstd::prelude::*;

verus! {

/// One session at a center: a date, a remaining-capacity count and a
/// minimum-age requirement.
pub struct Session {
    pub session_id: String,
    pub date: String,
    pub available_capacity: u32,
    pub min_age_limit: u32,
    pub vaccine: String,
    pub slots: Vec<String>,
}

/// One center in a snapshot, with its sessions.
pub struct Center {
    pub center_id: u64,
    pub name: String,
    pub state_name: String,
    pub district_name: String,
    pub block_name: String,
    pub pincode: u32,
    pub from: String,
    pub to: String,
    pub fee_type: String,
    pub sessions: Vec<Session>,
}

/// A location's availability snapshot: its current set of centers.
pub struct Centers {
    pub centers: Vec<Center>,
}

/// A session is an opportunity for a band iff the band's floor meets the
/// session's minimum age and some capacity remains.
pub open spec fn session_matches(s: Session, age_limit: u32) -> bool {
    s.min_age_limit <= age_limit && s.available_capacity > 0
}

/// A center is available to a band iff at least one of its sessions is
/// an opportunity for that band.
pub open spec fn center_available(c: Center, age_limit: u32) -> bool {
    exists|i: int| 0 <= i < c.sessions@.len() && session_matches(c.sessions@[i], age_limit)
}

/// How many centers of the sequence are available to the band.
pub open spec fn available_count(cs: Seq<Center>, age_limit: u32) -> nat
    decreases cs.len(),
{
    if cs.len() == 0 {
        0
    } else {
        available_count(cs.drop_last(), age_limit) + if center_available(cs.last(), age_limit) {
            1nat
        } else {
            0nat
        }
    }
}

/// The count never exceeds the number of centers.
pub proof fn lemma_available_count_le_len(cs: Seq<Center>, age_limit: u32)
    ensures
        available_count(cs, age_limit) <= cs.len(),
    decreases cs.len(),
{
    if cs.len() > 0 {
        lemma_available_count_le_len(cs.drop_last(), age_limit);
    }
}

/// Whether this center has any session open to the given age band.
pub fn center_has_slots(c: &Center, age_limit: u32) -> (r: bool)
    ensures
        r == center_available(*c, age_limit),
{
    let mut i: usize = 0;
    let mut found = false;
    while i < c.sessions.len()
        invariant
            i <= c.sessions@.len(),
            found == exists|k: int|
                0 <= k < i && session_matches(c.sessions@[k], age_limit),
        decreases c.sessions@.len() - i,
    {
        let s = &c.sessions[i];
        if s.min_age_limit <= age_limit && s.available_capacity > 0 {
            found = true;
        }
        i = i + 1;
    }
    found
}

/// Counts the centers of the snapshot with at least one session open to
/// the given age band; the group is eligible iff the count is positive.
pub fn count_available_centers(snapshot: &Centers, age_limit: u32) -> (count: usize)
    ensures
        count == available_count(snapshot.centers@, age_limit),
{
    proof {
        lemma_available_count_le_len(snapshot.centers@, age_limit);
    }
    let mut i: usize = 0;
    let mut count: usize = 0;
    while i < snapshot.centers.len()
        invariant
            i <= snapshot.centers@.len(),
            count == available_count(snapshot.centers@.subrange(0, i as int), age_limit),
            count <= i,
        decreases snapshot.centers@.len() - i,
    {
        proof {
            let pre = snapshot.centers@.subrange(0, i as int);
            let post = snapshot.centers@.subrange(0, i as int + 1);
            assert(post.drop_last() =~= pre);
            assert(post.last() == snapshot.centers@[i as int]);
        }
        if center_has_slots(&snapshot.centers[i], age_limit) {
            count = count + 1;
        }
        i = i + 1;
    }
    proof {
        assert(snapshot.centers@.subrange(0, snapshot.centers@.len() as int) =~= snapshot.centers@);
    }
    count
}

/// If every session of every center has no remaining capacity, no center
/// is available, whatever the age band.
pub proof fn lemma_no_capacity_means_no_availability(cs: Seq<Center>, age_limit: u32)
    requires
        forall|i: int, j: int|
            0 <= i < cs.len() && 0 <= j < cs[i].sessions@.len()
                ==> cs[i].sessions@[j].available_capacity == 0,
    ensures
        available_count(cs, age_limit) == 0,
    decreases cs.len(),
{
    if cs.len() > 0 {
        assert(forall|i: int, j: int|
            0 <= i < cs.drop_last().len() && 0 <= j < cs.drop_last()[i].sessions@.len()
                ==> cs.drop_last()[i].sessions@[j].available_capacity == 0);
        lemma_no_capacity_means_no_availability(cs.drop_last(), age_limit);
        assert(cs.last() == cs[cs.len() - 1]);
        assert(!center_available(cs.last(), age_limit));
    }
}

/// If some center holds a session whose minimum age the band meets and
/// whose capacity is positive, the snapshot is eligible for that band.
pub proof fn lemma_matching_session_means_available(cs: Seq<Center>, age_limit: u32, i: int, j: int)
    requires
        0 <= i < cs.len(),
        0 <= j < cs[i].sessions@.len(),
        cs[i].sessions@[j].min_age_limit <= age_limit,
        cs[i].sessions@[j].available_capacity > 0,
    ensures
        available_count(cs, age_limit) > 0,
    decreases cs.len(),
{
    assert(session_matches(cs[i].sessions@[j], age_limit));
    assert(center_available(cs[i], age_limit));
    if i == cs.len() - 1 {
        assert(cs.last() == cs[i]);
    } else {
        assert(cs.drop_last()[i] == cs[i]);
        lemma_matching_session_means_available(cs.drop_last(), age_limit, i, j);
    }
}

} // verus!
