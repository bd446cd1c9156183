//! Times of day in stored records: `HH:MM`, and nothing else.

use vstd::prelude::*;

use crate::clock::Time;
use crate::clock::format_time;
use crate::clock::time_text;
use crate::text::digit;
use crate::text::digit_value;
use crate::text::digit_at;
use crate::text::is_digit;
use crate::text::lemma_digit;
use crate::text::lemma_digit_of_value;

verus! {

/// The time that a text `HH:MM` names; none for any other text.
pub open spec fn time_from_text(s: Seq<char>) -> Option<Time> {
    if s.len() == 5 && is_digit(s[0]) && is_digit(s[1]) && s[2] == ':' && is_digit(s[3])
        && is_digit(s[4]) {
        let h = digit_value(s[0]) * 10 + digit_value(s[1]);
        let m = digit_value(s[3]) * 10 + digit_value(s[4]);
        if h < 24 && m < 60 {
            Some(Time { hour: h as u32, minute: m as u32 })
        } else {
            None
        }
    } else {
        None
    }
}

/// A time written as `HH:MM` reads back as itself.
pub proof fn lemma_time_round_trip(t: Time)
    requires
        t.wf(),
    ensures
        time_from_text(time_text(t)) == Some(t),
{
    lemma_digit(t.hour as nat / 10);
    lemma_digit(t.hour as nat % 10);
    lemma_digit(t.minute as nat / 10);
    lemma_digit(t.minute as nat % 10);
    let s = time_text(t);
    assert(s[0] == digit(t.hour as nat / 10));
    assert(s[1] == digit(t.hour as nat % 10));
    assert(s[2] == ':');
    assert(s[3] == digit(t.minute as nat / 10));
    assert(s[4] == digit(t.minute as nat % 10));
}

/// A text that reads as a time is that time written as `HH:MM`.
pub proof fn lemma_time_text_canonical(s: Seq<char>)
    requires
        time_from_text(s) is Some,
    ensures
        time_text(time_from_text(s)->0) == s,
{
    let t = time_from_text(s)->0;
    lemma_digit_of_value(s[0]);
    lemma_digit_of_value(s[1]);
    lemma_digit_of_value(s[3]);
    lemma_digit_of_value(s[4]);
    assert(t.hour as nat / 10 == digit_value(s[0]));
    assert(t.hour as nat % 10 == digit_value(s[1]));
    assert(t.minute as nat / 10 == digit_value(s[3]));
    assert(t.minute as nat % 10 == digit_value(s[4]));
    assert(time_text(t) =~= s);
}

/// A time of day as it is stored: `HH:MM`.
pub fn serialize(t: &Time) -> (r: String)
    requires
        t.wf(),
    ensures
        r@ == time_text(*t),
{
    format_time(t)
}

/// The time that a stored text `HH:MM` names; none for any other text.
pub fn deserialize(s: &str) -> (r: Option<Time>)
    ensures
        r == time_from_text(s@),
{
    if s.unicode_len() != 5 || s.get_char(2) != ':' {
        return None;
    }
    let h1 = digit_at(s, 0);
    let h2 = digit_at(s, 1);
    let m1 = digit_at(s, 3);
    let m2 = digit_at(s, 4);
    match (h1, h2, m1, m2) {
        (Some(a), Some(b), Some(c), Some(d)) => {
            let h = a * 10 + b;
            let m = c * 10 + d;
            if h < 24 && m < 60 {
                Some(Time { hour: h, minute: m })
            } else {
                None
            }
        },
        _ => None,
    }
}

} // verus!
