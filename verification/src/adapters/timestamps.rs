//! Reading timestamps from data files: RFC 3339 text, or whole seconds
//! since the Unix epoch. An instant is whole seconds since the epoch (UTC)
//! and the nanoseconds past that second, over the range of dates `chrono`
//! represents.
use vstd::prelude::*;

use crate::text::chars_of;

use chrono::TimeZone;

verus! {

/// Why a timestamp cannot be read.
#[derive(Clone, Copy, Debug, PartialEq, Eq, Structural)]
pub enum TimestampError {
    /// Neither RFC 3339 nor whole epoch seconds.
    Unparseable,
    /// Whole epoch seconds outside the dates `chrono` represents.
    OutOfRange,
}

/// A UTC instant: whole seconds since the Unix epoch and the nanoseconds
/// past that second (at or above one second only inside a leap second).
#[derive(Clone, Copy, Debug, PartialEq, Eq, Structural)]
pub struct UtcInstant {
    pub seconds: i64,
    pub nanos: u32,
}

/// Epoch seconds of the first instant `chrono` represents,
/// -262143-01-01T00:00:00Z.
pub const MIN_EPOCH_SECONDS: i64 = -8_334_601_228_800i64;

/// Epoch seconds of the last whole second `chrono` represents,
/// +262142-12-31T23:59:59Z.
pub const MAX_EPOCH_SECONDS: i64 = 8_210_266_876_799i64;

/// What `chrono` reads from RFC 3339 text: `None` when the text is not
/// RFC 3339, otherwise the instant's epoch seconds and sub-second
/// nanoseconds.
pub uninterp spec fn rfc3339_instant(text: Seq<char>) -> Option<(i64, u32)>;

/// `chrono::DateTime::parse_from_rfc3339`, then `DateTime::timestamp` and
/// `DateTime::timestamp_subsec_nanos` on the parsed value. Claimed: the
/// result is the named reading of the text.
#[verifier::external_body]
fn parse_rfc3339(text: &str) -> (reading: Option<(i64, u32)>)
    ensures
        reading == rfc3339_instant(text@),
{
    match chrono::DateTime::parse_from_rfc3339(text) {
        Ok(instant) => Some((instant.timestamp(), instant.timestamp_subsec_nanos())),
        Err(_) => None,
    }
}

/// `chrono::Utc.timestamp_opt(seconds, 0).single()`, told apart as present
/// or not. Claimed, from `DateTime::from_timestamp` in chrono's source: it
/// is present exactly for the seconds of the dates `chrono` represents.
#[verifier::external_body]
fn utc_accepts_epoch_seconds(seconds: i64) -> (accepted: bool)
    ensures
        accepted == (MIN_EPOCH_SECONDS <= seconds <= MAX_EPOCH_SECONDS),
{
    chrono::Utc.timestamp_opt(seconds, 0).single().is_some()
}

pub open spec fn is_ascii_digit(c: char) -> bool {
    48 <= (c as u32) <= 57
}

pub open spec fn all_digits(text: Seq<char>) -> bool {
    forall|i: int| 0 <= i < text.len() ==> is_ascii_digit(#[trigger] text[i])
}

/// The number a string of decimal digits denotes.
pub open spec fn digits_value(digits: Seq<char>) -> int
    decreases digits.len(),
{
    if digits.len() == 0 {
        0
    } else {
        digits_value(digits.drop_last()) * 10 + ((digits.last() as u32) - 48)
    }
}

/// The sign and digits of a decimal integer: an optional leading `+` or
/// `-`, then the rest.
pub open spec fn sign_and_digits(text: Seq<char>) -> (bool, Seq<char>) {
    if text.len() > 0 && text[0] == '-' {
        (true, text.drop_first())
    } else if text.len() > 0 && text[0] == '+' {
        (false, text.drop_first())
    } else {
        (false, text)
    }
}

/// The `i64` a decimal integer denotes, as `str::parse::<i64>` reads it:
/// an optional sign, at least one ASCII digit, nothing else, and a value
/// within range.
pub open spec fn decimal_i64(text: Seq<char>) -> Option<i64> {
    let (negative, digits) = sign_and_digits(text);
    if digits.len() == 0 || !all_digits(digits) {
        None
    } else {
        let value = if negative {
            -digits_value(digits)
        } else {
            digits_value(digits)
        };
        if i64::MIN <= value <= i64::MAX {
            Some(value as i64)
        } else {
            None
        }
    }
}

proof fn lemma_digits_grow(digits: Seq<char>, k: int)
    requires
        all_digits(digits),
        0 <= k <= digits.len(),
    ensures
        0 <= digits_value(digits.subrange(0, k)) <= digits_value(digits),
    decreases digits.len() - k,
{
    if k < digits.len() {
        lemma_digits_grow(digits, k + 1);
        let longer = digits.subrange(0, k + 1);
        assert(longer.drop_last() =~= digits.subrange(0, k));
        assert(is_ascii_digit(digits[k]));
    } else {
        assert(digits.subrange(0, k) =~= digits);
        lemma_digits_nonnegative(digits);
    }
}

proof fn lemma_digits_nonnegative(digits: Seq<char>)
    requires
        all_digits(digits),
    ensures
        digits_value(digits) >= 0,
    decreases digits.len(),
{
    if digits.len() > 0 {
        let prefix = digits.drop_last();
        assert(all_digits(prefix)) by {
            assert forall|i: int| 0 <= i < prefix.len() implies is_ascii_digit(#[trigger] prefix[i]) by {
                assert(prefix[i] == digits[i]);
            }
        }
        lemma_digits_nonnegative(prefix);
        assert(is_ascii_digit(digits[digits.len() - 1]));
    }
}

/// Read a decimal `i64` as `str::parse::<i64>` does.
pub fn parse_decimal_i64(text: &str) -> (value: Option<i64>)
    ensures
        value == decimal_i64(text@),
{
    let chars = chars_of(text);
    let n = chars.len();
    let mut start: usize = 0;
    let mut negative = false;
    if n > 0 && chars[0] == '-' {
        negative = true;
        start = 1;
    } else if n > 0 && chars[0] == '+' {
        start = 1;
    }
    let ghost digits = sign_and_digits(text@).1;
    assert(digits =~= chars@.subrange(start as int, n as int));
    if start == n {
        return None;
    }
    let bound: i128 = 9_223_372_036_854_775_808;
    let mut acc: i128 = 0;
    let mut k: usize = start;
    while k < n
        invariant
            start <= k <= n,
            start < n,
            n == chars@.len(),
            chars@ == text@,
            bound == 9_223_372_036_854_775_808i128,
            digits == sign_and_digits(text@).1,
            negative == sign_and_digits(text@).0,
            digits == chars@.subrange(start as int, n as int),
            all_digits(digits.subrange(0, k - start)),
            acc == digits_value(digits.subrange(0, k - start)),
            0 <= acc <= bound,
        decreases n - k,
    {
        let c = chars[k];
        assert(digits[k - start] == c);
        let u = c as u32;
        if u < 48 || u > 57 {
            assert(!is_ascii_digit(digits[k - start]));
            assert(!all_digits(digits));
            return None;
        }
        let ghost next = digits.subrange(0, k - start + 1);
        proof {
            assert(next.drop_last() =~= digits.subrange(0, k - start));
            assert(next.last() == c);
            assert forall|i: int| 0 <= i < next.len() implies is_ascii_digit(#[trigger] next[i]) by {
                if i < next.len() - 1 {
                    assert(next[i] == digits.subrange(0, k - start)[i]);
                }
            }
            assert(acc * 10 <= bound * 10) by (nonlinear_arith)
                requires
                    0 <= acc <= bound,
            ;
        }
        acc = acc * 10 + (u - 48) as i128;
        assert(acc == digits_value(next));
        if acc > bound {
            proof {
                if all_digits(digits) {
                    lemma_digits_grow(digits, k - start + 1);
                }
            }
            return None;
        }
        k = k + 1;
    }
    assert(digits.subrange(0, n - start) =~= digits);
    if negative {
        Some((0 - acc) as i64)
    } else if acc <= 9_223_372_036_854_775_807 {
        Some(acc as i64)
    } else {
        None
    }
}

/// The instant a timestamp field denotes, given what the RFC 3339 reader
/// made of it (`None`: not RFC 3339): that instant when it read as RFC 3339,
/// otherwise whole seconds since the epoch, within `chrono`'s dates.
pub open spec fn instant_of(text: Seq<char>, rfc3339: Option<(i64, u32)>) -> Result<
    UtcInstant,
    TimestampError,
> {
    match rfc3339 {
        Some((seconds, nanos)) => Ok(UtcInstant { seconds, nanos }),
        None => match decimal_i64(text) {
            Some(seconds) => if MIN_EPOCH_SECONDS <= seconds <= MAX_EPOCH_SECONDS {
                Ok(UtcInstant { seconds, nanos: 0 })
            } else {
                Err(TimestampError::OutOfRange)
            },
            None => Err(TimestampError::Unparseable),
        },
    }
}

/// The instant a timestamp field denotes: RFC 3339 text when it reads as
/// such, otherwise whole seconds since the epoch.
pub open spec fn timestamp_reading(text: Seq<char>) -> Result<UtcInstant, TimestampError> {
    instant_of(text, rfc3339_instant(text))
}

/// Finish reading a timestamp field once its RFC 3339 reading is known:
/// fall back to decimal epoch seconds when it is not RFC 3339.
pub fn instant_from_reading(raw: &str, rfc3339: Option<(i64, u32)>) -> (instant: Result<
    UtcInstant,
    TimestampError,
>)
    ensures
        instant == instant_of(raw@, rfc3339),
{
    match rfc3339 {
        Some((seconds, nanos)) => Ok(UtcInstant { seconds, nanos }),
        None => match parse_decimal_i64(raw) {
            Some(seconds) => if utc_accepts_epoch_seconds(seconds) {
                Ok(UtcInstant { seconds, nanos: 0 })
            } else {
                Err(TimestampError::OutOfRange)
            },
            None => Err(TimestampError::Unparseable),
        },
    }
}

/// Read a timestamp field: RFC 3339 first, then epoch seconds.
pub fn parse_timestamp(raw: &str) -> (instant: Result<UtcInstant, TimestampError>)
    ensures
        instant == timestamp_reading(raw@),
{
    let reading = parse_rfc3339(raw);
    instant_from_reading(raw, reading)
}

} // verus!
