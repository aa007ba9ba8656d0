//! RFC 3339 timestamp handling: the parse itself is delegated to chrono; the
//! `D.M.YYYY` rendering of a parsed calendar date is verified here.

use vstd::prelude::*;

use crate::text::{dec_str_of, int_str_of, u32_to_dec, i32_to_dec};

use chrono::Datelike;

verus! {

/// The calendar date `(year, month, day)` that an RFC 3339 timestamp denotes,
/// or `None` where the text is not a valid RFC 3339 date-and-time. The result
/// depends on the characters alone.
pub uninterp spec fn rfc3339_date_of(s: Seq<char>) -> Option<(i32, u32, u32)>;

/// Relies on `chrono::DateTime::parse_from_rfc3339` and the `chrono::Datelike`
/// accessors `year`, `month` and `day`: parsing consults nothing but the text,
/// `month` ranges over 1..=12 and `day` over 1..=31.
#[verifier::external_body]
pub fn parse_rfc3339_date(s: &str) -> (r: Option<(i32, u32, u32)>)
    ensures
        r == rfc3339_date_of(s@),
        r matches Some(d) ==> 1 <= d.1 <= 12 && 1 <= d.2 <= 31,
{
    match chrono::DateTime::parse_from_rfc3339(s) {
        Ok(dt) => Some((dt.year(), dt.month(), dt.day())),
        Err(_) => None,
    }
}

/// `day.month.year`, each part in decimal without padding.
pub open spec fn date_str_of(year: i32, month: u32, day: u32) -> Seq<char> {
    dec_str_of(day as nat) + seq!['.'] + dec_str_of(month as nat) + seq!['.'] + int_str_of(
        year as int,
    )
}

/// Renders a calendar date as `day.month.year`.
pub fn format_date(year: i32, month: u32, day: u32) -> (r: String)
    ensures
        r@ == date_str_of(year, month, day),
{
    let mut s = u32_to_dec(day);
    s.append(".");
    let m = u32_to_dec(month);
    s.append(m.as_str());
    s.append(".");
    let y = i32_to_dec(year);
    s.append(y.as_str());
    proof {
        reveal_strlit(".");
        assert(s@ =~= date_str_of(year, month, day));
    }
    s
}

} // verus!
