//! Time of day with microsecond resolution, and its packed `HHMMSSuu` text.

use vstd::prelude::*;
use chrono::Duration;
use chrono::NaiveTime;
use chrono::Timelike;
use crate::ascii::{
    all_digits, decimal_value, is_ascii_bytes, is_digit, padded_text, parse_decimal, pow10,
    push_padded, utf8_text,
};

verus! {

/// A time of day without a date, to the microsecond.
#[derive(Clone, Copy, Debug, PartialEq, Eq, Structural)]
pub struct TimeOfDay {
    pub hour: u32,
    pub minute: u32,
    pub second: u32,
    pub micro: u32,
}

impl TimeOfDay {
    /// Every field is within its range on a 24-hour clock.
    pub open spec fn wf(self) -> bool {
        &&& self.hour < 24
        &&& self.minute < 60
        &&& self.second < 60
        &&& self.micro < 1_000_000
    }

    /// Microseconds since midnight.
    pub open spec fn micros_spec(self) -> nat {
        ((self.hour as nat * 60 + self.minute as nat) * 60 + self.second as nat) * 1_000_000
            + self.micro as nat
    }

    /// Microseconds since midnight; this orders times of day.
    pub fn micros_of_day(&self) -> (r: u64)
        requires
            self.wf(),
        ensures
            r == self.micros_spec(),
    {
        ((self.hour as u64 * 60 + self.minute as u64) * 60 + self.second as u64) * 1_000_000
            + self.micro as u64
    }

    /// The text `HH:MM:SS.ffffff`.
    pub open spec fn text(self) -> Seq<u8> {
        padded_text(self.hour as nat, 2) + seq![58u8] + padded_text(self.minute as nat, 2)
            + seq![58u8] + padded_text(self.second as nat, 2) + seq![46u8]
            + padded_text(self.micro as nat, 6)
    }

    /// Appends the text `HH:MM:SS.ffffff`.
    pub fn push_text(&self, out: &mut Vec<u8>)
        ensures
            final(out)@ == old(out)@ + self.text(),
    {
        push_padded(out, self.hour as u64, 2);
        out.push(58);
        push_padded(out, self.minute as u64, 2);
        out.push(58);
        push_padded(out, self.second as u64, 2);
        out.push(46);
        push_padded(out, self.micro as u64, 6);
        assert(final(out)@ =~= old(out)@ + self.text());
    }
}

/// The two-digit number at `start` in `t`.
pub open spec fn pair_at(t: Seq<u8>, start: int) -> nat {
    decimal_value(t.subrange(start, start + 2))
}

/// The two-digit number at `start` in the character string `t`.
pub open spec fn char_pair_at(t: Seq<char>, start: int) -> int {
    (t[start] as int - 48) * 10 + (t[start + 1] as int - 48)
}

/// What parsing six ASCII digits with the pattern `%H%M%S` yields as hour,
/// minute, second and nanosecond: a second of 60 is a leap second, kept as
/// second 59 with one extra second in the nanosecond field.
pub open spec fn hhmmss_result(d: Seq<char>) -> Option<(u32, u32, u32, u32)> {
    let h = char_pair_at(d, 0);
    let m = char_pair_at(d, 2);
    let s = char_pair_at(d, 4);
    if h < 24 && m < 60 && s < 60 {
        Some((h as u32, m as u32, s as u32, 0u32))
    } else if h < 24 && m < 60 && s == 60 {
        Some((h as u32, m as u32, 59u32, 1_000_000_000u32))
    } else {
        None
    }
}

/// Relies on chrono's `NaiveTime::parse_from_str` with the pattern `%H%M%S`.
/// On six ASCII digits it reads two digits each for hour, minute and second,
/// accepts hours 0 to 23, minutes 0 to 59 and seconds 0 to 60, and turns a
/// second of 60 into second 59 plus a nanosecond field of 1_000_000_000.
#[verifier::external_body]
fn parse_hhmmss(text: &str) -> (r: Option<(u32, u32, u32, u32)>)
    requires
        text@.len() == 6,
        forall|i: int| 0 <= i < 6 ==> '0' <= #[trigger] text@[i] <= '9',
    ensures
        r == hhmmss_result(text@),
{
    match NaiveTime::parse_from_str(text, "%H%M%S") {
        Ok(t) => Some((t.hour(), t.minute(), t.second(), t.nanosecond())),
        Err(_) => None,
    }
}

/// Relies on chrono's `NaiveTime::from_hms_opt`, `Duration::microseconds` and
/// `NaiveTime + Duration`: adding less than one second to a time of day whose
/// nanosecond field is zero leaves hour, minute and second alone and sets the
/// nanosecond field to the microseconds added times 1000.
#[verifier::external_body]
fn add_micros(hour: u32, minute: u32, second: u32, micros: i64) -> (r: Option<(u32, u32, u32, u32)>)
    requires
        hour < 24,
        minute < 60,
        second < 60,
        0 <= micros < 1_000_000,
    ensures
        r == Some((hour, minute, second, (micros * 1000) as u32)),
{
    let t = NaiveTime::from_hms_opt(hour, minute, second)?;
    let t = t + Duration::microseconds(micros);
    Some((t.hour(), t.minute(), t.second(), t.nanosecond()))
}

/// `t` is eight ASCII digits `HHMMSSuu` naming a valid time of day.
pub open spec fn time_text_valid(t: Seq<u8>) -> bool {
    &&& t.len() == 8
    &&& all_digits(t)
    &&& pair_at(t, 0) < 24
    &&& pair_at(t, 2) < 60
    &&& pair_at(t, 4) < 60
}

/// The time of day that `HHMMSSuu` names: `uu` counts units of ten
/// milliseconds past the second.
pub open spec fn time_of_text(t: Seq<u8>) -> TimeOfDay {
    TimeOfDay {
        hour: pair_at(t, 0) as u32,
        minute: pair_at(t, 2) as u32,
        second: pair_at(t, 4) as u32,
        micro: (pair_at(t, 6) * 10_000) as u32,
    }
}

proof fn lemma_pair_value(t: Seq<u8>, c: Seq<char>, start: int)
    requires
        0 <= start,
        start + 2 <= c.len() <= t.len(),
        all_digits(t),
        forall|i: int| 0 <= i < c.len() ==> c[i] == (t[i] as char),
    ensures
        char_pair_at(c, start) == pair_at(t, start),
{
    let f = t.subrange(start, start + 2);
    let g = f.drop_last();
    assert(g.drop_last() =~= Seq::<u8>::empty());
    assert(g.last() == t[start]);
    assert(f.last() == t[start + 1]);
    assert(is_digit(t[start]) && is_digit(t[start + 1]));
    assert(decimal_value(g.drop_last()) == 0);
    assert(decimal_value(g) == (t[start] - 48) as nat);
    assert(decimal_value(f) == decimal_value(g) * 10 + (t[start + 1] - 48) as nat);
    assert(c[start] == (t[start] as char));
    assert(c[start + 1] == (t[start + 1] as char));
    assert((t[start] as char) as int == t[start] as int);
    assert((t[start + 1] as char) as int == t[start + 1] as int);
}

/// Decodes the packed accept time `HHMMSSuu`: `None` unless it is eight
/// digits naming an hour below 24, a minute below 60 and a second below 60.
pub fn parse_time(text: &[u8]) -> (r: Option<TimeOfDay>)
    requires
        text@.len() == 8,
    ensures
        r == if time_text_valid(text@) {
            Some(time_of_text(text@))
        } else {
            None::<TimeOfDay>
        },
        r matches Some(t) ==> t.wf(),
{
    let ghost t = text@;
    let hhmmss = vstd::slice::slice_subrange(text, 0, 6);
    let mut k: usize = 0;
    while k < 8
        invariant
            t == text@,
            t.len() == 8,
            k <= 8,
            forall|i: int| 0 <= i < k ==> is_digit(#[trigger] t[i]),
        decreases 8 - k,
    {
        if text[k] < 48 || text[k] > 57 {
            assert(!is_digit(t[k as int]));
            return None;
        }
        k += 1;
    }
    assert(all_digits(t));
    assert(all_digits(t.subrange(6, 8))) by {
        assert forall|i: int| 0 <= i < 2 implies is_digit(#[trigger] t.subrange(6, 8)[i]) by {
            assert(t.subrange(6, 8)[i] == t[6 + i]);
        }
    }
    let fraction = match parse_decimal(text, 6, 2) {
        Some(v) => v,
        None => return None,
    };
    assert(pow10(2) == 100) by {
        reveal_with_fuel(pow10, 3);
    }
    assert(fraction == pair_at(t, 6));
    assert(is_ascii_bytes(hhmmss@));
    let hhmmss_text = match utf8_text(hhmmss) {
        Some(s) => s,
        None => return None,
    };
    let ghost c = hhmmss_text@;
    proof {
        assert forall|i: int| 0 <= i < 6 implies '0' <= #[trigger] c[i] <= '9' by {
            assert(c[i] == (hhmmss@[i] as char));
        }
        lemma_pair_value(t, c, 0);
        lemma_pair_value(t, c, 2);
        lemma_pair_value(t, c, 4);
    }
    match parse_hhmmss(hhmmss_text) {
        Some((hour, minute, second, nano)) => {
            if nano != 0 {
                return None;
            }
            match add_micros(hour, minute, second, fraction as i64 * 10_000) {
                Some((hour, minute, second, nano)) => {
                    Some(TimeOfDay { hour, minute, second, micro: nano / 1000 })
                },
                None => None,
            }
        },
        None => None,
    }
}

} // verus!
