//! Last-played timestamps.
//!
//! Timestamps arrive as strings; chrono parses them, trying RFC 3339
//! first, then a fractional-second format, then a space-separated one.
//! The current time is an explicit Unix-seconds input, never read
//! ambiently, so that scoring is reproducible.  Days are carried in
//! milli-days (1000 = one day); a timestamp no format parses counts,
//! conservatively, as played half a day ago.

use vstd::prelude::*;

verus! {

/// What chrono parses from an RFC 3339 timestamp, as Unix seconds.
pub uninterp spec fn rfc3339_epoch_of(s: Seq<char>) -> Option<i64>;

/// Relies on chrono's DateTime::parse_from_rfc3339 and its timestamp
/// method: whether and to what instant a string parses depends on its
/// characters alone.
#[verifier::external_body]
fn parse_rfc3339_epoch(s: &str) -> (r: Option<i64>)
    ensures
        r == rfc3339_epoch_of(s@),
{
    match chrono::DateTime::parse_from_rfc3339(s) {
        Ok(dt) => Some(dt.timestamp()),
        Err(_) => None,
    }
}

/// What chrono parses from a timestamp under the given format string, as
/// Unix seconds.
pub uninterp spec fn formatted_epoch_of(s: Seq<char>, fmt: Seq<char>) -> Option<i64>;

/// Relies on chrono's DateTime::parse_from_str and its timestamp method:
/// whether and to what instant a string parses depends on the string and
/// the format alone.
#[verifier::external_body]
fn parse_formatted_epoch(s: &str, fmt: &str) -> (r: Option<i64>)
    ensures
        r == formatted_epoch_of(s@, fmt@),
{
    match chrono::DateTime::parse_from_str(s, fmt) {
        Ok(dt) => Some(dt.timestamp()),
        Err(_) => None,
    }
}

/// The instant a last-played string denotes: RFC 3339, else the
/// fractional-second fallback, else the space-separated fallback.
pub open spec fn played_epoch_of(s: Seq<char>) -> Option<i64> {
    if rfc3339_epoch_of(s) is Some {
        rfc3339_epoch_of(s)
    } else if formatted_epoch_of(s, "%Y-%m-%dT%H:%M:%S%.fZ"@) is Some {
        formatted_epoch_of(s, "%Y-%m-%dT%H:%M:%S%.fZ"@)
    } else if formatted_epoch_of(s, "%Y-%m-%d %H:%M:%S"@) is Some {
        formatted_epoch_of(s, "%Y-%m-%d %H:%M:%S"@)
    } else {
        None
    }
}

/// Milli-days between the parsed last-played instant and `now_epoch`,
/// never negative; an unparsable timestamp counts as half a day.
pub open spec fn days_since_played_spec(s: Seq<char>, now_epoch: i64) -> int {
    match played_epoch_of(s) {
        Some(t) => if now_epoch <= t {
            0
        } else {
            (now_epoch - t) * 1000 / 86400
        },
        None => 500,
    }
}

/// The largest value days_since_played can take: the full i64 span in
/// seconds, converted to milli-days.
pub proof fn lemma_days_since_played_range(s: Seq<char>, now_epoch: i64)
    ensures
        0 <= days_since_played_spec(s, now_epoch) < 0x8_0000_0000_0000_0000,
{
    match played_epoch_of(s) {
        Some(t) => {
            if now_epoch > t {
                let d = now_epoch - t;
                assert(d * 1000 / 86400 >= 0) by (nonlinear_arith)
                    requires
                        d >= 0,
                ;
                assert(d * 1000 / 86400 < 0x8_0000_0000_0000_0000) by (nonlinear_arith)
                    requires
                        0 <= d < 0x1_0000_0000_0000_0000,
                ;
            }
        },
        None => {},
    }
}

/// Milli-days since the track was last played, given the current time.
pub fn days_since_played_milli(played: &str, now_epoch: i64) -> (r: i64)
    ensures
        r == days_since_played_spec(played@, now_epoch),
        0 <= r,
{
    proof {
        lemma_days_since_played_range(played@, now_epoch);
    }
    let parsed = match parse_rfc3339_epoch(played) {
        Some(t) => Some(t),
        None => match parse_formatted_epoch(played, "%Y-%m-%dT%H:%M:%S%.fZ") {
            Some(t) => Some(t),
            None => parse_formatted_epoch(played, "%Y-%m-%d %H:%M:%S"),
        },
    };
    match parsed {
        Some(t) => {
            if now_epoch <= t {
                0
            } else {
                let diff: i128 = now_epoch as i128 - t as i128;
                let d: i128 = diff * 1000 / 86400;
                proof {
                    assert(diff * 1000 / 86400 >= 0) by (nonlinear_arith)
                        requires
                            diff >= 0,
                    ;
                    assert(diff * 1000 / 86400 < 0x8_0000_0000_0000_0000) by (nonlinear_arith)
                        requires
                            0 <= diff < 0x1_0000_0000_0000_0000,
                    ;
                }
                d as i64
            }
        },
        None => 500,
    }
}

} // verus!
