//! Timestamps in bookmark files: decimal text, Unix seconds, Chrome's
//! microseconds since 1601, and the range of dates `chrono` represents.
use vstd::prelude::*;
use crate::sanitize::treatments::text::{digit_value, number_value, trim_ws_v, trim_whitespace};
use crate::text::chars_of;

verus! {

/// The first second `chrono::DateTime<Utc>` represents
/// (-262143-01-01T00:00:00Z, the start of chrono's `NaiveDate::MIN`).
pub const UTC_MIN_SECS: i64 = -8334601228800i64;

/// The last second `chrono::DateTime<Utc>` represents
/// (+262142-12-31T23:59:59Z, the end of chrono's `NaiveDate::MAX`).
pub const UTC_MAX_SECS: i64 = 8210266876799i64;

/// Microseconds between the Chrome epoch (1601-01-01) and the Unix epoch
/// (1970-01-01): 11 644 473 600 seconds.
pub const CHROME_EPOCH_DELTA_MICROS: i64 = 11644473600000000i64;

/// The integer that `s` writes as `i64::from_str` reads it: an optional `+`
/// or `-` and at least one ASCII digit, nothing else (range not checked).
pub open spec fn int_text_v(s: Seq<char>) -> Option<int> {
    if s.len() > 0 && s[0] == '-' {
        match number_value(s.drop_first(), 10) {
            Some(v) => Some(-(v as int)),
            None => None,
        }
    } else if s.len() > 0 && s[0] == '+' {
        match number_value(s.drop_first(), 10) {
            Some(v) => Some(v as int),
            None => None,
        }
    } else {
        match number_value(s, 10) {
            Some(v) => Some(v as int),
            None => None,
        }
    }
}

/// `i64::from_str`: the value when the text is an integer within range.
pub open spec fn i64_text_v(s: Seq<char>) -> Option<i64> {
    match int_text_v(s) {
        Some(v) => if i64::MIN <= v <= i64::MAX {
            Some(v as i64)
        } else {
            None
        },
        None => None,
    }
}

/// A count of seconds that `chrono` turns into a date.
pub open spec fn utc_secs_ok(secs: int) -> bool {
    UTC_MIN_SECS <= secs <= UTC_MAX_SECS
}

/// A Netscape `ADD_DATE` / `LAST_MODIFIED` value: Unix seconds written in
/// decimal (surrounding whitespace ignored), kept when `chrono` represents
/// that second.
pub open spec fn timestamp_v(s: Seq<char>) -> Option<i64> {
    match i64_text_v(trim_ws_v(s)) {
        Some(v) => if utc_secs_ok(v as int) {
            Some(v)
        } else {
            None
        },
        None => None,
    }
}

/// A Chrome timestamp (microseconds since 1601) as Unix seconds, rounded
/// down, when the shifted count fits in an `i64` and `chrono` represents it.
pub open spec fn chrome_secs_v(micros: i64) -> Option<i64> {
    let unix = micros - CHROME_EPOCH_DELTA_MICROS;
    if unix < i64::MIN {
        None
    } else if utc_secs_ok(unix / 1_000_000) {
        Some((unix / 1_000_000) as i64)
    } else {
        None
    }
}

proof fn lemma_number_grows(s: Seq<char>, k: int)
    requires
        0 < k <= s.len(),
        number_value(s, 10) is Some,
    ensures
        number_value(s.subrange(0, k), 10) is Some,
        number_value(s.subrange(0, k), 10)->0 <= number_value(s, 10)->0,
    decreases s.len(),
{
    if k < s.len() {
        assert(s.drop_last().subrange(0, k) =~= s.subrange(0, k));
        lemma_number_grows(s.drop_last(), k);
    } else {
        assert(s.subrange(0, k) =~= s);
    }
}

/// The value of the ASCII digits `cs[from..]`, or `None` when there is none,
/// a non-digit, or the value exceeds 2^63.
fn digits_value(cs: &Vec<char>, from: usize) -> (r: Option<u64>)
    requires
        from <= cs.len(),
    ensures
        match r {
            Some(v) => number_value(cs@.skip(from as int), 10) == Some(v as nat) && v <= 0x8000_0000_0000_0000u64,
            None => number_value(cs@.skip(from as int), 10) is None || number_value(cs@.skip(from as int), 10)->0
                > 0x8000_0000_0000_0000u64,
        },
{
    let ghost s = cs@.skip(from as int);
    if from == cs.len() {
        return None;
    }
    let mut acc: u64 = 0;
    let mut i: usize = from;
    while i < cs.len()
        invariant
            from < cs.len(),
            from <= i <= cs.len(),
            s == cs@.skip(from as int),
            i > from ==> number_value(s.subrange(0, i - from), 10) == Some(acc as nat),
            i == from ==> acc == 0,
            acc <= 0x8000_0000_0000_0000u64,
        decreases cs.len() - i,
    {
        let c = cs[i];
        if !('0' <= c && c <= '9') {
            proof {
                assert forall|k: int| i - from < k <= s.len() implies number_value(#[trigger] s.subrange(0, k), 10)
                    is None by {
                    lemma_digit_blocks(s, (i - from) as int, k);
                }
                assert(s.subrange(0, s.len() as int) =~= s);
            }
            return None;
        }
        let d = (c as u32 - '0' as u32) as u64;
        proof {
            let t = s.subrange(0, i + 1 - from);
            assert(t.drop_last() =~= s.subrange(0, i - from));
            assert(t.last() == c);
            assert(digit_value(c, 10) == Some(d as nat));
            assert(number_value(t, 10) == Some(acc as nat * 10 + d as nat));
        }
        if acc > 0x0CCC_CCCC_CCCC_CCCCu64 || acc * 10 + d > 0x8000_0000_0000_0000u64 {
            proof {
                let big = number_value(s.subrange(0, i + 1 - from), 10);
                assert(big->0 > 0x8000_0000_0000_0000u64) by (nonlinear_arith)
                    requires
                        big == Some(acc as nat * 10 + d as nat),
                        acc > 0x0CCC_CCCC_CCCC_CCCCu64 || acc * 10 + d > 0x8000_0000_0000_0000u64,
                ;
                if number_value(s, 10) is Some {
                    lemma_number_grows(s, i + 1 - from);
                }
            }
            return None;
        }
        acc = acc * 10 + d;
        i += 1;
    }
    proof {
        assert(s.subrange(0, i - from) =~= s);
    }
    Some(acc)
}

proof fn lemma_digit_blocks(s: Seq<char>, bad: int, k: int)
    requires
        0 <= bad < k <= s.len(),
        !('0' <= s[bad] && s[bad] <= '9'),
    ensures
        number_value(s.subrange(0, k), 10) is None,
    decreases k,
{
    let t = s.subrange(0, k);
    if k - 1 == bad {
        assert(t.last() == s[bad]);
    } else {
        assert(t.drop_last() =~= s.subrange(0, k - 1));
        lemma_digit_blocks(s, bad, k - 1);
    }
}

/// `i64::from_str` on `s`.
pub fn parse_i64(s: &str) -> (r: Option<i64>)
    ensures
        r == i64_text_v(s@),
{
    let cs = chars_of(s);
    if cs.len() > 0 && (cs[0] == '-' || cs[0] == '+') {
        let neg = cs[0] == '-';
        proof {
            assert(cs@.skip(1) =~= s@.drop_first());
        }
        match digits_value(&cs, 1) {
            Some(v) => if neg {
                if v == 0x8000_0000_0000_0000u64 {
                    Some(i64::MIN)
                } else {
                    Some(-(v as i64))
                }
            } else if v <= 0x7FFF_FFFF_FFFF_FFFFu64 {
                Some(v as i64)
            } else {
                None
            },
            None => None,
        }
    } else {
        proof {
            assert(cs@.skip(0) =~= s@);
        }
        match digits_value(&cs, 0) {
            Some(v) => if v <= 0x7FFF_FFFF_FFFF_FFFFu64 {
                Some(v as i64)
            } else {
                None
            },
            None => None,
        }
    }
}

/// Calls `chrono::DateTime::<Utc>::from_timestamp_secs` and reads the
/// date's `timestamp()` back.  Claims what chrono's source shows: a date
/// exists exactly for the seconds from `UTC_MIN_SECS` to `UTC_MAX_SECS`
/// (its `NaiveDate` spans the years -262143 to 262142), and its timestamp is
/// the count it was made from.
#[verifier::external_body]
fn utc_from_secs(secs: i64) -> (r: Option<i64>)
    ensures
        r == (if utc_secs_ok(secs as int) {
            Some(secs)
        } else {
            None
        }),
{
    match chrono::DateTime::from_timestamp_secs(secs) {
        Some(d) => Some(d.timestamp()),
        None => None,
    }
}

/// Calls `chrono::DateTime::<Utc>::from_timestamp_micros` and reads the
/// date's `timestamp()` (whole seconds, rounded down) back.  Claims what
/// chrono's source shows: the seconds are `micros.div_euclid(1_000_000)`,
/// and a date exists exactly when they lie between `UTC_MIN_SECS` and
/// `UTC_MAX_SECS`.
#[verifier::external_body]
fn utc_secs_from_micros(micros: i64) -> (r: Option<i64>)
    ensures
        r == (if utc_secs_ok(micros as int / 1_000_000) {
            Some((micros as int / 1_000_000) as i64)
        } else {
            None
        }),
{
    match chrono::DateTime::from_timestamp_micros(micros) {
        Some(d) => Some(d.timestamp()),
        None => None,
    }
}

/// Parse a Netscape `ADD_DATE` / `LAST_MODIFIED` value (Unix seconds).
/// `None` for text that is not an integer and for seconds out of range.
pub fn parse_timestamp(s: &str) -> (r: Option<i64>)
    ensures
        r == timestamp_v(s@),
{
    let t = trim_whitespace(s);
    match parse_i64(t.as_str()) {
        Some(v) => utc_from_secs(v),
        None => None,
    }
}

/// Convert a Chrome-epoch microsecond count to Unix seconds; `None` when
/// the shift underflows or the date is out of range.
pub fn chrome_time_to_utc(chrome_micros: i64) -> (r: Option<i64>)
    ensures
        r == chrome_secs_v(chrome_micros),
{
    match chrome_micros.checked_sub(CHROME_EPOCH_DELTA_MICROS) {
        Some(unix) => utc_secs_from_micros(unix),
        None => None,
    }
}

} // verus!
