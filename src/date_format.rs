//! Calendar dates in stored records: `YYYY-MM-DD`, and nothing else.

use vstd::prelude::*;

use crate::clock::Date;
use crate::clock::MAX_YEAR;
use crate::clock::MIN_YEAR;
use crate::clock::date_text;
use crate::clock::format_date;
use crate::clock::four_digits;
use crate::clock::push_year;
use crate::clock::valid_ymd;
use crate::clock::year_text;
use crate::clock::ymd_exists;
use crate::text::all_digits;
use crate::text::decimal;
use crate::text::digit;
use crate::text::digit_value;
use crate::text::digits_value;
use crate::text::digit_at;
use crate::text::is_digit;
use crate::text::lemma_decimal_value;
use crate::text::lemma_digit;
use crate::text::lemma_digit_of_value;
use crate::text::lemma_two_digits_value;
use crate::text::same_text;
use crate::text::two_digits;

verus! {

/// The value of a text of digits with an optional leading sign.
pub open spec fn signed_value(s: Seq<char>) -> Option<int> {
    if s.len() > 1 && (s[0] == '+' || s[0] == '-') && all_digits(s.drop_first()) {
        Some(
            if s[0] == '-' {
                -digits_value(s.drop_first())
            } else {
                digits_value(s.drop_first())
            },
        )
    } else if s.len() > 0 && all_digits(s) {
        Some(digits_value(s))
    } else {
        None
    }
}

/// The year that a text names, where it is written exactly as `year_text` writes it.
pub open spec fn year_from_text(s: Seq<char>) -> Option<int> {
    match signed_value(s) {
        Some(y) => if year_text(y) == s {
            Some(y)
        } else {
            None
        },
        None => None,
    }
}

/// The date that a text `YYYY-MM-DD` names; none for any other text or a date that
/// does not exist.
pub open spec fn date_from_text(s: Seq<char>) -> Option<Date> {
    let n = s.len();
    if n >= 10 && s[n - 6] == '-' && s[n - 3] == '-' && is_digit(s[n - 5]) && is_digit(s[n - 4])
        && is_digit(s[n - 2]) && is_digit(s[n - 1]) {
        let m = digit_value(s[n - 5]) * 10 + digit_value(s[n - 4]);
        let d = digit_value(s[n - 2]) * 10 + digit_value(s[n - 1]);
        match year_from_text(s.take(n - 6)) {
            Some(y) => if valid_ymd(y, m, d) {
                Some(Date { year: y as i32, month: m as u32, day: d as u32 })
            } else {
                None
            },
            None => None,
        }
    } else {
        None
    }
}

proof fn lemma_digits_value_append2(a: Seq<char>, b: Seq<char>)
    requires
        b.len() == 2,
    ensures
        digits_value(a + b) == digits_value(a) * 100 + digits_value(b),
{
    let ab = a + b;
    assert(ab.drop_last() =~= a + seq![b[0]]);
    assert((a + seq![b[0]]).drop_last() =~= a);
    assert(b.drop_last() =~= seq![b[0]]);
    assert(b.drop_last().drop_last() =~= Seq::<char>::empty());
    assert(digits_value(Seq::<char>::empty()) == 0);
    assert(digits_value(seq![b[0]]) == digit_value(b[0]));
    assert(digits_value(b) == digit_value(b[0]) * 10 + digit_value(b[1]));
    assert(digits_value(a + seq![b[0]]) == digits_value(a) * 10 + digit_value(b[0]));
    assert(digits_value(ab) == digits_value(a + seq![b[0]]) * 10 + digit_value(b[1]));
}

proof fn lemma_decimal_len(n: nat)
    ensures
        decimal(n).len() >= 1,
        n >= 10000 ==> decimal(n).len() >= 5,
    decreases n,
{
    if n >= 10 {
        lemma_decimal_len(n / 10);
        if n >= 10000 {
            lemma_decimal_len3(n / 10);
        }
    }
}

proof fn lemma_decimal_len3(n: nat)
    requires
        n >= 1000,
    ensures
        decimal(n).len() >= 4,
    decreases n,
{
    let a = n / 10;
    let b = a / 10;
    let c = b / 10;
    assert(decimal(n).len() == decimal(a).len() + 1);
    assert(decimal(a).len() == decimal(b).len() + 1);
    assert(decimal(b).len() == decimal(c).len() + 1);
    lemma_decimal_len(c);
}

proof fn lemma_four_digits_value(n: nat)
    requires
        n < 10000,
    ensures
        all_digits(four_digits(n)),
        digits_value(four_digits(n)) == n,
        four_digits(n).len() == 4,
{
    lemma_two_digits_value(n / 100);
    lemma_two_digits_value(n % 100);
    lemma_digits_value_append2(two_digits(n / 100), two_digits(n % 100));
    let f = four_digits(n);
    assert forall|i: int| 0 <= i < 4 implies is_digit(#[trigger] f[i]) by {
        if i < 2 {
            assert(f[i] == two_digits(n / 100)[i]);
        } else {
            assert(f[i] == two_digits(n % 100)[i - 2]);
        }
    }
}

/// A year written by `year_text` reads back as itself.
pub proof fn lemma_year_round_trip(y: int)
    ensures
        year_from_text(year_text(y)) == Some(y),
{
    let s = year_text(y);
    if 0 <= y <= 9999 {
        lemma_four_digits_value(y as nat);
        assert(is_digit(s[0]));
    } else if y > 9999 {
        lemma_decimal_value(y as nat);
        assert(s.drop_first() =~= decimal(y as nat));
    } else if -y <= 9999 {
        lemma_four_digits_value((-y) as nat);
        assert(s.drop_first() =~= four_digits((-y) as nat));
    } else {
        lemma_decimal_value((-y) as nat);
        assert(s.drop_first() =~= decimal((-y) as nat));
    }
}

/// A date written as `YYYY-MM-DD` reads back as itself.
pub proof fn lemma_date_round_trip(d: Date)
    requires
        d.wf(),
    ensures
        date_from_text(date_text(d)) == Some(d),
{
    let s = date_text(d);
    let yt = year_text(d.year as int);
    lemma_year_round_trip(d.year as int);
    lemma_two_digits_value(d.month as nat);
    lemma_two_digits_value(d.day as nat);
    lemma_digit(d.month as nat / 10);
    lemma_digit(d.month as nat % 10);
    lemma_digit(d.day as nat / 10);
    lemma_digit(d.day as nat % 10);
    assert(yt.len() >= 4) by {
        if 0 <= d.year <= 9999 {
            lemma_four_digits_value(d.year as nat);
        } else if d.year > 9999 {
            lemma_decimal_len(d.year as nat);
        } else if -d.year <= 9999 {
            lemma_four_digits_value((-d.year) as nat);
        } else {
            lemma_decimal_len((-d.year) as nat);
        }
    }
    let n = s.len();
    assert(n == yt.len() + 6);
    assert(s.take(n - 6) =~= yt);
    assert(s[n - 6] == '-');
    assert(s[n - 5] == digit(d.month as nat / 10));
    assert(s[n - 4] == digit(d.month as nat % 10));
    assert(s[n - 3] == '-');
    assert(s[n - 2] == digit(d.day as nat / 10));
    assert(s[n - 1] == digit(d.day as nat % 10));
}

/// A text that reads as a date is that date written as `YYYY-MM-DD`.
pub proof fn lemma_date_text_canonical(s: Seq<char>)
    requires
        date_from_text(s) is Some,
    ensures
        date_text(date_from_text(s)->0) == s,
{
    let d = date_from_text(s)->0;
    let n = s.len();
    lemma_digit_of_value(s[n - 5]);
    lemma_digit_of_value(s[n - 4]);
    lemma_digit_of_value(s[n - 2]);
    lemma_digit_of_value(s[n - 1]);
    assert(d.month as nat / 10 == digit_value(s[n - 5]));
    assert(d.month as nat % 10 == digit_value(s[n - 4]));
    assert(d.day as nat / 10 == digit_value(s[n - 2]));
    assert(d.day as nat % 10 == digit_value(s[n - 1]));
    assert(year_text(d.year as int) == s.take(n - 6));
    assert(date_text(d) =~= s);
}

/// A date as it is stored: `YYYY-MM-DD`.
pub fn serialize(d: &Date) -> (r: String)
    requires
        d.wf(),
    ensures
        r@ == date_text(*d),
{
    format_date(d)
}

proof fn lemma_digits_value_nonneg(s: Seq<char>)
    requires
        all_digits(s),
    ensures
        digits_value(s) >= 0,
    decreases s.len(),
{
    if s.len() > 0 {
        lemma_digits_value_nonneg(s.drop_last());
    }
}

proof fn lemma_digits_value_prefix(s: Seq<char>, k: int)
    requires
        all_digits(s),
        0 <= k <= s.len(),
    ensures
        digits_value(s.take(k)) <= digits_value(s),
    decreases s.len(),
{
    if k < s.len() {
        lemma_digits_value_prefix(s.drop_last(), k);
        lemma_digits_value_nonneg(s.drop_last());
        assert(s.drop_last().take(k) =~= s.take(k));
    } else {
        assert(s.take(k) =~= s);
    }
}

/// The year that a text names, where it lies in the calendar's range.
fn parse_year(s: &str) -> (r: Option<i32>)
    ensures
        r matches Some(y) ==> year_from_text(s@) == Some(y as int),
        r is None ==> (year_from_text(s@) matches Some(y) ==> !(MIN_YEAR <= y <= MAX_YEAR)),
{
    let len = s.unicode_len();
    if len == 0 {
        return None;
    }
    let first = s.get_char(0);
    let neg = first == '-';
    let start: usize = if first == '+' || first == '-' {
        1
    } else {
        0
    };
    if start == len {
        return None;
    }
    let ghost body = s@.subrange(start as int, len as int);
    let mut v: u64 = 0;
    let mut i: usize = start;
    assert(s@.subrange(start as int, start as int) =~= Seq::<char>::empty());
    while i < len
        invariant
            start <= i <= len,
            len == s@.len(),
            body == s@.subrange(start as int, len as int),
            v as int == digits_value(s@.subrange(start as int, i as int)),
            all_digits(s@.subrange(start as int, i as int)),
            v <= 1_000_000,
            start <= 1,
            first == s@[0],
            start == 1 <==> (first == '+' || first == '-'),
            neg <==> first == '-',
        decreases len - i,
    {
        let c = digit_at(s, i);
        proof {
            let p = s@.subrange(start as int, i + 1);
            assert(p.drop_last() =~= s@.subrange(start as int, i as int));
            assert(p.last() == s@[i as int]);
            assert(body.take(i + 1 - start) =~= p);
            if c is None {
                assert(!all_digits(body));
                if start == 0 {
                    assert(!all_digits(s@));
                } else {
                    assert(s@.drop_first() =~= body);
                    assert(!all_digits(s@)) by {
                        assert(!is_digit(s@[0]));
                    }
                }
            }
        }
        match c {
            Some(dv) => {
                v = v * 10 + dv as u64;
                assert(all_digits(s@.subrange(start as int, i + 1)));
                if v > 1_000_000 {
                    proof {
                        let p = s@.subrange(start as int, i + 1);
                        assert(body.take(i + 1 - start) =~= p);
                        if all_digits(body) {
                            lemma_digits_value_prefix(body, i + 1 - start);
                            assert(digits_value(body) > 1_000_000);
                        }
                        if start == 0 {
                            assert(body =~= s@);
                        } else {
                            assert(s@.drop_first() =~= body);
                            if all_digits(s@) {
                                assert(is_digit(s@[0]));
                            }
                        }
                    }
                    return None;
                }
            },
            None => {
                return None;
            },
        }
        i = i + 1;
    }
    proof {
        if start == 1 {
            assert(s@.drop_first() =~= body);
        } else {
            assert(body =~= s@);
        }
    }
    let y: i32 = if neg {
        -(v as i32)
    } else {
        v as i32
    };
    proof {
        if start == 0 {
            assert(!(s@[0] == '+' || s@[0] == '-'));
        }
    }
    assert(signed_value(s@) == Some(y as int));
    let mut text = String::new();
    push_year(&mut text, y);
    if same_text(text.as_str(), s) {
        Some(y)
    } else {
        None
    }
}

/// The date that a stored text `YYYY-MM-DD` names; none for any other text or a date
/// that does not exist.
pub fn deserialize(s: &str) -> (r: Option<Date>)
    ensures
        r == date_from_text(s@),
{
    let n = s.unicode_len();
    if n < 10 {
        return None;
    }
    if s.get_char(n - 6) != '-' || s.get_char(n - 3) != '-' {
        return None;
    }
    let (m1, m2, d1, d2) = match (
        digit_at(s, n - 5),
        digit_at(s, n - 4),
        digit_at(s, n - 2),
        digit_at(s, n - 1),
    ) {
        (Some(a), Some(b), Some(c), Some(d)) => (a, b, c, d),
        _ => {
            return None;
        },
    };
    let m = m1 * 10 + m2;
    let d = d1 * 10 + d2;
    let yp = s.substring_char(0, n - 6);
    assert(yp@ =~= s@.take(n - 6));
    let y = match parse_year(yp) {
        Some(y) => y,
        None => {
            return None;
        },
    };
    if ymd_exists(y, m, d) {
        Some(Date { year: y, month: m, day: d })
    } else {
        None
    }
}

} // verus!
