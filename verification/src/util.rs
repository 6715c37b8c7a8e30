//! Times, and settings of the build.

use vstd::prelude::*;

use crate::text;

verus! {

/// The milliseconds since the epoch, modulo 2^64.
pub open spec fn millis_of(secs: u64, nanos: u32) -> int {
    (secs * 1000 + nanos as int / 1_000_000) % 0x1_0000_0000_0000_0000
}

/// The milliseconds since the epoch, from a clock's seconds and nanoseconds.
pub fn unix_as_millis(secs: u64, nanos: u32) -> (r: u64)
    ensures
        r == millis_of(secs, nanos),
{
    ((secs as u128 * 1000 + (nanos / 1_000_000) as u128) % 0x1_0000_0000_0000_0000) as u64
}

/// A setting of the build, or its default where it is not set.
pub fn with_default(v: Option<&'static str>, default: &'static str) -> (r: &'static str)
    ensures
        r@ == match v {
            Some(v) => v@,
            None => default@,
        },
{
    match v {
        Some(v) => v,
        None => default,
    }
}

/// The truth value that a text denotes.
pub open spec fn bool_of(s: Seq<char>) -> Option<bool> {
    if s == "true"@ {
        Some(true)
    } else if s == "false"@ {
        Some(false)
    } else {
        None
    }
}

/// The truth value that a setting of the build denotes.
pub fn parse_bool(s: &str) -> (r: Option<bool>)
    ensures
        r == bool_of(s@),
{
    if text::same_text(s, "true") {
        Some(true)
    } else if text::same_text(s, "false") {
        Some(false)
    } else {
        None
    }
}

/// A second has a thousand milliseconds, and a millisecond a million nanoseconds.
pub proof fn milliseconds_of_a_time(secs: u64, millis: u32, nanos: u32)
    requires
        millis < 1000,
        nanos < 1_000_000,
        secs * 1000 + millis <= u64::MAX,
    ensures
        millis_of(secs, (millis * 1_000_000 + nanos) as u32) == secs * 1000 + millis,
{
}

/// Only the two words for them denote truth values.
pub proof fn words_for_truth_values(s: Seq<char>)
    ensures
        bool_of(s) == Some(true) <==> s == "true"@,
        bool_of(s) == Some(false) <==> s == "false"@,
{
    reveal_strlit("true");
    reveal_strlit("false");
    assert("true"@.len() == 4 && "false"@.len() == 5);
}

} // verus!
