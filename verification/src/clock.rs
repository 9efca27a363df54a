//! The server clock and the timestamp keys derived from it: a form
//! record whose key is absent gets the current local time, written as
//! the fourteen digits of `YYYYMMDDHHMMSS`.

use crate::text::{dec_digit, dec_digit_exec, is_dec_digit, push_char};
use vstd::prelude::*;

verus! {

/// One reading of the local clock, split into its calendar fields.
pub struct Timestamp {
    pub year: i32,
    pub month: u32,
    pub day: u32,
    pub hour: u32,
    pub minute: u32,
    pub second: u32,
}

/// The field ranges the clock guarantees.
pub open spec fn timestamp_wf(t: Timestamp) -> bool {
    &&& 1 <= t.month <= 12
    &&& 1 <= t.day <= 31
    &&& t.hour <= 23
    &&& t.minute <= 59
    &&& t.second <= 59
}

/// Relies on chrono's Local::now and its Datelike/Timelike
/// accessors, which document month in 1..=12, day in 1..=31, hour at
/// most 23, and minute and second at most 59.
#[verifier::external_body]
pub fn clock_now() -> (t: Timestamp)
    ensures
        timestamp_wf(t),
{
    let now = chrono::Local::now();
    Timestamp {
        year: chrono::Datelike::year(&now),
        month: chrono::Datelike::month(&now),
        day: chrono::Datelike::day(&now),
        hour: chrono::Timelike::hour(&now),
        minute: chrono::Timelike::minute(&now),
        second: chrono::Timelike::second(&now),
    }
}

/// Two decimal digits, low-order part of the value.
pub open spec fn pad2(n: int) -> Seq<char> {
    seq![dec_digit(n / 10 % 10), dec_digit(n % 10)]
}

/// Four decimal digits, low-order part of the value.
pub open spec fn pad4(n: int) -> Seq<char> {
    seq![dec_digit(n / 1000 % 10), dec_digit(n / 100 % 10), dec_digit(n / 10 % 10), dec_digit(
        n % 10,
    )]
}

/// The year written into a key: the clock's year held to four
/// digits. A year outside 0..=9999 cannot come from a sane clock; it
/// is pinned to the nearest representable one rather than widening
/// the key.
pub open spec fn clamp_year(y: int) -> int {
    if y < 0 {
        0
    } else if y > 9999 {
        9999
    } else {
        y
    }
}

/// The fourteen characters of a timestamp key.
pub open spec fn stamp_chars(t: Timestamp) -> Seq<char> {
    pad4(clamp_year(t.year as int)) + pad2(t.month as int) + pad2(t.day as int) + pad2(
        t.hour as int,
    ) + pad2(t.minute as int) + pad2(t.second as int)
}

pub proof fn lemma_stamp_digits(t: Timestamp)
    ensures
        stamp_chars(t).len() == 14,
        forall|i: int| 0 <= i < 14 ==> is_dec_digit(#[trigger] stamp_chars(t)[i]),
{
    let s = stamp_chars(t);
    assert forall|i: int| 0 <= i < 14 implies is_dec_digit(#[trigger] s[i]) by {
        crate::text::lemma_dec_digit_is_digit(clamp_year(t.year as int) / 1000 % 10);
        crate::text::lemma_dec_digit_is_digit(clamp_year(t.year as int) / 100 % 10);
        crate::text::lemma_dec_digit_is_digit(clamp_year(t.year as int) / 10 % 10);
        crate::text::lemma_dec_digit_is_digit(clamp_year(t.year as int) % 10);
        crate::text::lemma_dec_digit_is_digit(t.month as int / 10 % 10);
        crate::text::lemma_dec_digit_is_digit(t.month as int % 10);
        crate::text::lemma_dec_digit_is_digit(t.day as int / 10 % 10);
        crate::text::lemma_dec_digit_is_digit(t.day as int % 10);
        crate::text::lemma_dec_digit_is_digit(t.hour as int / 10 % 10);
        crate::text::lemma_dec_digit_is_digit(t.hour as int % 10);
        crate::text::lemma_dec_digit_is_digit(t.minute as int / 10 % 10);
        crate::text::lemma_dec_digit_is_digit(t.minute as int % 10);
        crate::text::lemma_dec_digit_is_digit(t.second as int / 10 % 10);
        crate::text::lemma_dec_digit_is_digit(t.second as int % 10);
    }
}

/// Appends the two digits of `pad2`.
fn pad2_into(out: &mut String, n: u32)
    ensures
        final(out)@ == old(out)@ + pad2(n as int),
{
    push_char(out, dec_digit_exec(n / 10 % 10));
    push_char(out, dec_digit_exec(n % 10));
    proof {
        assert(final(out)@ =~= old(out)@ + pad2(n as int));
    }
}

/// Writes a clock reading as its fourteen-digit key.
pub fn format_stamp(t: &Timestamp) -> (r: String)
    ensures
        r@ == stamp_chars(*t),
{
    let mut out = String::new();
    let y: u32 = if t.year < 0 {
        0
    } else if t.year > 9999 {
        9999
    } else {
        t.year as u32
    };
    proof {
        assert(y as int == clamp_year(t.year as int));
    }
    push_char(&mut out, dec_digit_exec(y / 1000 % 10));
    push_char(&mut out, dec_digit_exec(y / 100 % 10));
    push_char(&mut out, dec_digit_exec(y / 10 % 10));
    push_char(&mut out, dec_digit_exec(y % 10));
    proof {
        assert(out@ =~= pad4(y as int));
    }
    pad2_into(&mut out, t.month);
    pad2_into(&mut out, t.day);
    pad2_into(&mut out, t.hour);
    pad2_into(&mut out, t.minute);
    pad2_into(&mut out, t.second);
    proof {
        assert(out@ =~= stamp_chars(*t));
    }
    out
}

} // verus!
