//! Wall-clock timestamps as plain calendar fields, and their rendering in
//! the `YYYY-MM-DD HH:MM:SS.mmm` form that every log line carries.

use vstd::prelude::*;

use crate::dec_digit;
use crate::digit_char;
use crate::push_char;
use chrono::Datelike;
use chrono::Timelike;

verus! {

/// A wall-clock instant, held as plain calendar fields.
#[derive(Clone, Copy, Debug)]
pub struct Timestamp {
    pub year: u16,
    pub month: u8,
    pub day: u8,
    pub hour: u8,
    pub minute: u8,
    pub second: u8,
    pub millis: u16,
}

/// Relies on chrono's `Local::now` and its `Datelike`/`Timelike` accessors:
/// the month is 1..=12, the day 1..=31, the hour 0..=23, the minute 0..=59,
/// the second 0..=59, and the millisecond part 0..=1999 (a value above 999
/// stands for a leap second).
#[verifier::external_body]
fn clock_now() -> (r: (i32, u8, u8, u8, u8, u8, u16))
    ensures
        1 <= r.1 <= 12,
        1 <= r.2 <= 31,
        r.3 <= 23,
        r.4 <= 59,
        r.5 <= 59,
        r.6 <= 1999,
{
    let t = chrono::Local::now();
    (
        t.year(),
        t.month() as u8,
        t.day() as u8,
        t.hour() as u8,
        t.minute() as u8,
        t.second() as u8,
        t.timestamp_subsec_millis() as u16,
    )
}

impl Timestamp {
    /// Field ranges of a rendered timestamp: a calendar date and a time of
    /// day, with the year capped at four digits.
    pub open spec fn wf(self) -> bool {
        &&& self.year <= 9999
        &&& 1 <= self.month <= 12
        &&& 1 <= self.day <= 31
        &&& self.hour <= 23
        &&& self.minute <= 59
        &&& self.second <= 59
        &&& self.millis <= 999
    }

    /// Reads the local clock. Years outside the four-digit range and the
    /// leap-second millisecond overflow are clamped, so the result always
    /// renders in the fixed 23-character form.
    pub fn now() -> (t: Timestamp)
        ensures
            t.wf(),
    {
        let (y, mo, d, h, mi, s, ms) = clock_now();
        let year: u16 = if y < 0 {
            0
        } else if y > 9999 {
            9999
        } else {
            y as u16
        };
        let millis: u16 = if ms > 999 {
            999
        } else {
            ms
        };
        Timestamp { year, month: mo, day: d, hour: h, minute: mi, second: s, millis }
    }
}

/// The two decimal digits of `n`, zero padded.
pub open spec fn two_digits(n: nat) -> Seq<char> {
    seq![dec_digit(n / 10 % 10), dec_digit(n % 10)]
}

/// The three decimal digits of `n`, zero padded.
pub open spec fn three_digits(n: nat) -> Seq<char> {
    seq![dec_digit(n / 100 % 10), dec_digit(n / 10 % 10), dec_digit(n % 10)]
}

/// The four decimal digits of `n`, zero padded.
pub open spec fn four_digits(n: nat) -> Seq<char> {
    seq![dec_digit(n / 1000 % 10), dec_digit(n / 100 % 10), dec_digit(n / 10 % 10), dec_digit(
        n % 10,
    )]
}

/// The 23 characters `YYYY-MM-DD HH:MM:SS.mmm` of a timestamp.
pub open spec fn timestamp_chars(t: Timestamp) -> Seq<char> {
    four_digits(t.year as nat) + seq!['-'] + two_digits(t.month as nat) + seq!['-'] + two_digits(
        t.day as nat,
    ) + seq![' '] + two_digits(t.hour as nat) + seq![':'] + two_digits(t.minute as nat) + seq![':']
        + two_digits(t.second as nat) + seq!['.'] + three_digits(t.millis as nat)
}

fn push_two_digits(out: &mut String, n: u8)
    requires
        n <= 99,
    ensures
        final(out)@ == old(out)@ + two_digits(n as nat),
{
    push_char(out, digit_char(n / 10));
    push_char(out, digit_char(n % 10));
    proof {
        assert(out@ =~= old(out)@ + two_digits(n as nat));
    }
}

fn push_three_digits(out: &mut String, n: u16)
    requires
        n <= 999,
    ensures
        final(out)@ == old(out)@ + three_digits(n as nat),
{
    push_char(out, digit_char((n / 100) as u8));
    push_char(out, digit_char((n / 10 % 10) as u8));
    push_char(out, digit_char((n % 10) as u8));
    proof {
        assert(out@ =~= old(out)@ + three_digits(n as nat));
    }
}

fn push_four_digits(out: &mut String, n: u16)
    requires
        n <= 9999,
    ensures
        final(out)@ == old(out)@ + four_digits(n as nat),
{
    push_char(out, digit_char((n / 1000) as u8));
    push_char(out, digit_char((n / 100 % 10) as u8));
    push_char(out, digit_char((n / 10 % 10) as u8));
    push_char(out, digit_char((n % 10) as u8));
    proof {
        assert(out@ =~= old(out)@ + four_digits(n as nat));
    }
}

/// Renders a timestamp as its fixed 23-character form.
pub fn format_timestamp(t: &Timestamp) -> (r: String)
    requires
        t.wf(),
    ensures
        r@ == timestamp_chars(*t),
{
    let mut out = String::new();
    push_four_digits(&mut out, t.year);
    push_char(&mut out, '-');
    push_two_digits(&mut out, t.month);
    push_char(&mut out, '-');
    push_two_digits(&mut out, t.day);
    push_char(&mut out, ' ');
    push_two_digits(&mut out, t.hour);
    push_char(&mut out, ':');
    push_two_digits(&mut out, t.minute);
    push_char(&mut out, ':');
    push_two_digits(&mut out, t.second);
    push_char(&mut out, '.');
    push_three_digits(&mut out, t.millis);
    proof {
        assert(out@ =~= timestamp_chars(*t));
    }
    out
}

/// Every character of a rendered timestamp is pinned: digits in the digit
/// positions and the fixed separators between them.
pub proof fn lemma_timestamp_shape(t: Timestamp)
    requires
        t.wf(),
    ensures
        timestamp_chars(t).len() == 23,
        forall|k: int|
            0 <= k < 23 && k != 4 && k != 7 && k != 10 && k != 13 && k != 16 && k != 19
                ==> crate::is_dec_digit(#[trigger] timestamp_chars(t)[k]),
        timestamp_chars(t)[4] == '-',
        timestamp_chars(t)[7] == '-',
        timestamp_chars(t)[10] == ' ',
        timestamp_chars(t)[13] == ':',
        timestamp_chars(t)[16] == ':',
        timestamp_chars(t)[19] == '.',
{
    assert forall|k: int|
        0 <= k < 23 && k != 4 && k != 7 && k != 10 && k != 13 && k != 16 && k != 19 implies
        crate::is_dec_digit(#[trigger] timestamp_chars(t)[k]) by {
        assert(crate::is_dec_digit(timestamp_chars(t)[k]));
    }
}

} // verus!
