//! Dates for the availability request: the source is queried by
//! location key and a date string in the form DD-MM-YYYY. The clock read
//! is trusted; the rendering is verified.

use crate::message::spec_decimal;
use crate::message::u64_to_string;
use chrono::Datelike;
use vstd::prelude::*;
use vstd::string::StringExecFns;

verus! {

/// A number rendered in decimal and padded with leading zeros to at
/// least the given width.
pub open spec fn spec_padded_decimal(n: nat, width: nat) -> Seq<char>
    decreases width,
{
    if spec_decimal(n).len() >= width {
        spec_decimal(n)
    } else {
        seq!['0'] + spec_padded_decimal(n, (width - 1) as nat)
    }
}

/// A calendar date rendered as DD-MM-YYYY: two-digit day and month,
/// year padded to at least four digits.
pub open spec fn spec_date_string(day: nat, month: nat, year: nat) -> Seq<char> {
    spec_padded_decimal(day, 2) + seq!['-'] + spec_padded_decimal(month, 2) + seq!['-']
        + spec_padded_decimal(year, 4)
}

/// Renders a number padded with leading zeros to at least `width`
/// digits.
fn padded_decimal(n: u64, width: usize) -> (s: String)
    ensures
        s@ == spec_padded_decimal(n as nat, width as nat),
    decreases width,
{
    let digits = u64_to_string(n);
    if digits.as_str().unicode_len() >= width {
        digits
    } else {
        let mut s = String::from_str("0");
        proof {
            reveal_strlit("0");
        }
        let rest = padded_decimal(n, width - 1);
        s.append(rest.as_str());
        proof {
            assert(s@ =~= seq!['0'] + spec_padded_decimal(n as nat, (width - 1) as nat));
        }
        s
    }
}

/// Renders a date as DD-MM-YYYY.
pub fn format_date(day: u32, month: u32, year: u32) -> (s: String)
    ensures
        s@ == spec_date_string(day as nat, month as nat, year as nat),
{
    let mut s = padded_decimal(day as u64, 2);
    s.append("-");
    let m = padded_decimal(month as u64, 2);
    s.append(m.as_str());
    s.append("-");
    let y = padded_decimal(year as u64, 4);
    s.append(y.as_str());
    proof {
        reveal_strlit("-");
        assert("-"@ =~= seq!['-']);
        assert(s@ =~= spec_date_string(day as nat, month as nat, year as nat));
    }
    s
}

/// Relies on chrono's `Local::now` and the `Datelike` accessors of the
/// resulting local date: `day` returns the day of month in 1..=31,
/// `month` the month number in 1..=12, and `year` the calendar year.
#[verifier::external_body]
fn current_local_date() -> (r: (u32, u32, i32))
    ensures
        1 <= r.0 <= 31,
        1 <= r.1 <= 12,
{
    let today = chrono::Local::now().date_naive();
    (today.day(), today.month(), today.year())
}

/// Today's date as DD-MM-YYYY, read from the local clock; nothing is
/// returned for a clock outside the years 0 to 9999.
pub fn todays_date_string() -> (r: Option<String>)
    ensures
        (match r {
            Some(s) => exists|day: nat, month: nat, year: nat|
                1 <= day <= 31 && 1 <= month <= 12 && year <= 9999 && s@ == spec_date_string(
                    day,
                    month,
                    year,
                ),
            None => true,
        }),
{
    let (day, month, year) = current_local_date();
    if 0 <= year && year <= 9999 {
        let s = format_date(day, month, year as u32);
        proof {
            assert(1 <= day as nat <= 31 && 1 <= month as nat <= 12 && (year as u32) as nat <= 9999
                && s@ == spec_date_string(day as nat, month as nat, (year as u32) as nat));
        }
        Some(s)
    } else {
        None
    }
}

} // verus!
