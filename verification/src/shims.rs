//! The crate's boundary to outside code: timestamp parsing through chrono
//! and whitespace trimming through std. Each result is a function of the
//! text alone, so it is given a name that the callers' contracts speak of.

use vstd::prelude::*;

verus! {

/// The epoch-second timestamp that chrono parses from `s` under the fixed
/// `%Y-%m-%d %H:%M` pattern, or `None` where the text does not match it.
pub uninterp spec fn parse_ts(s: Seq<char>) -> Option<i64>;

/// The whitespace-trimmed form of `s`, as `str::trim` computes it.
pub uninterp spec fn trim_of(s: Seq<char>) -> Seq<char>;

/// The band every parsed timestamp lies in: chrono datetimes span years
/// of magnitude below 262144, so their epoch seconds stay within ±10^13.
/// Day-boundary arithmetic on such values cannot overflow `i64`.
pub open spec fn ts_in_range(t: i64) -> bool {
    -10_000_000_000_000 <= t <= 10_000_000_000_000
}

/// Relies on chrono's `NaiveDateTime::parse_from_str` with the fixed
/// `%Y-%m-%d %H:%M` pattern, followed by `.and_utc().timestamp()`. The
/// result depends on the text alone. A parsed datetime lies between
/// chrono's `NaiveDateTime::MIN` and `MAX` (years about -262143 to 262142),
/// so its epoch seconds lie well within ±10^13.
#[verifier::external_body]
pub(crate) fn parse_timestamp(s: &str) -> (r: Option<i64>)
    ensures
        r == parse_ts(s@),
        r matches Some(v) ==> ts_in_range(v),
{
    match chrono::NaiveDateTime::parse_from_str(s, "%Y-%m-%d %H:%M") {
        Ok(t) => Some(t.and_utc().timestamp()),
        Err(_) => None,
    }
}

/// Relies on `str::trim`: it removes leading and trailing whitespace, and
/// the result depends on the characters alone.
#[verifier::external_body]
pub(crate) fn trim_text(s: &str) -> (r: String)
    ensures
        r@ == trim_of(s@),
{
    s.trim().to_string()
}

} // verus!
