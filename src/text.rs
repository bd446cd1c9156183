//! Building text: decimal numbers, zero padding and column padding.

use vstd::prelude::*;

verus! {

/// The ten decimal digits, in order.
pub open spec fn digit_chars() -> Seq<char> {
    seq!['0', '1', '2', '3', '4', '5', '6', '7', '8', '9']
}

/// The character of one decimal digit.
pub open spec fn digit(d: nat) -> char
    recommends
        d < 10,
{
    digit_chars()[d as int]
}

/// The decimal text of a natural number, without leading zeros.
pub open spec fn decimal(n: nat) -> Seq<char>
    decreases n,
{
    if n < 10 {
        seq![digit(n)]
    } else {
        decimal(n / 10).push(digit(n % 10))
    }
}

/// A number below one hundred as exactly two digits.
pub open spec fn two_digits(n: nat) -> Seq<char> {
    seq![digit(n / 10), digit(n % 10)]
}

/// `n` spaces.
pub open spec fn spaces(n: nat) -> Seq<char>
    decreases n,
{
    if n == 0 {
        Seq::empty()
    } else {
        spaces((n - 1) as nat).push(' ')
    }
}

/// `s` followed by spaces up to `width` characters; unchanged when already as wide.
pub open spec fn pad_right(s: Seq<char>, width: nat) -> Seq<char> {
    if s.len() >= width {
        s
    } else {
        s + spaces((width - s.len()) as nat)
    }
}

/// `n` dashes.
pub open spec fn dashes(n: nat) -> Seq<char>
    decreases n,
{
    if n == 0 {
        Seq::empty()
    } else {
        dashes((n - 1) as nat).push('-')
    }
}

/// Whether two texts are equal.
pub fn same_text(a: &str, b: &str) -> (r: bool)
    ensures
        r == (a@ == b@),
{
    let la = a.unicode_len();
    let lb = b.unicode_len();
    if la != lb {
        return false;
    }
    let mut i: usize = 0;
    while i < la
        invariant
            la == a@.len(),
            lb == b@.len(),
            la == lb,
            i <= la,
            a@.take(i as int) == b@.take(i as int),
        decreases la - i,
    {
        if a.get_char(i) != b.get_char(i) {
            return false;
        }
        assert(a@.take(i + 1) =~= a@.take(i as int).push(a@[i as int]));
        assert(b@.take(i + 1) =~= b@.take(i as int).push(b@[i as int]));
        i = i + 1;
    }
    assert(a@.take(i as int) =~= a@);
    assert(b@.take(i as int) =~= b@);
    true
}

/// Whether a character is a decimal digit.
pub open spec fn is_digit(c: char) -> bool {
    '0' <= c <= '9'
}

/// The value of a decimal digit.
pub open spec fn digit_value(c: char) -> int {
    c as int - '0' as int
}

/// The value of a text of decimal digits; 0 for the empty text.
pub open spec fn digits_value(s: Seq<char>) -> int
    decreases s.len(),
{
    if s.len() == 0 {
        0
    } else {
        digits_value(s.drop_last()) * 10 + digit_value(s.last())
    }
}

/// Every character is a decimal digit.
pub open spec fn all_digits(s: Seq<char>) -> bool {
    forall|i: int| 0 <= i < s.len() ==> is_digit(#[trigger] s[i])
}

pub proof fn lemma_digit(n: nat)
    requires
        n < 10,
    ensures
        is_digit(digit(n)),
        digit_value(digit(n)) == n,
{
    if n == 0 {
    } else if n == 1 {
    } else if n == 2 {
    } else if n == 3 {
    } else if n == 4 {
    } else if n == 5 {
    } else if n == 6 {
    } else if n == 7 {
    } else if n == 8 {
    } else {
    }
}

/// The value of the digit at position `i`; none where that character is no digit.
pub fn digit_at(s: &str, i: usize) -> (r: Option<u32>)
    requires
        i < s@.len(),
    ensures
        is_digit(s@[i as int]) ==> r == Some(digit_value(s@[i as int]) as u32),
        !is_digit(s@[i as int]) ==> r is None,
{
    let c = s.get_char(i);
    if '0' <= c && c <= '9' {
        Some((c as u32) - ('0' as u32))
    } else {
        None
    }
}

/// A digit's value written back as that digit.
pub proof fn lemma_digit_of_value(c: char)
    requires
        is_digit(c),
    ensures
        0 <= digit_value(c) < 10,
        digit(digit_value(c) as nat) == c,
{
    let v = digit_value(c);
    if v == 0 {
        assert(c == '0');
    } else if v == 1 {
        assert(c == '1');
    } else if v == 2 {
        assert(c == '2');
    } else if v == 3 {
        assert(c == '3');
    } else if v == 4 {
        assert(c == '4');
    } else if v == 5 {
        assert(c == '5');
    } else if v == 6 {
        assert(c == '6');
    } else if v == 7 {
        assert(c == '7');
    } else if v == 8 {
        assert(c == '8');
    } else {
        assert(c == '9');
    }
}

/// The digits of a number read back as that number.
pub proof fn lemma_decimal_value(n: nat)
    ensures
        all_digits(decimal(n)),
        digits_value(decimal(n)) == n,
        decimal(n).len() >= 1,
    decreases n,
{
    lemma_digit(n % 10);
    if n >= 10 {
        lemma_decimal_value(n / 10);
        let d = decimal(n);
        assert(d.drop_last() == decimal(n / 10));
        assert(d.last() == digit(n % 10));
        assert(digits_value(d) == digits_value(d.drop_last()) * 10 + digit_value(d.last()));
        assert((n / 10) * 10 + n % 10 == n);
        assert forall|i: int| 0 <= i < d.len() implies is_digit(#[trigger] d[i]) by {
            if i < d.len() - 1 {
                assert(d[i] == decimal(n / 10)[i]);
            }
        }
    } else {
        assert(seq![digit(n)].drop_last() =~= Seq::<char>::empty());
        assert(digits_value(Seq::<char>::empty()) == 0);
        assert(n % 10 == n);
    }
}

/// Two digits read back as their number.
pub proof fn lemma_two_digits_value(n: nat)
    requires
        n < 100,
    ensures
        all_digits(two_digits(n)),
        digits_value(two_digits(n)) == n,
        two_digits(n).len() == 2,
{
    lemma_digit(n / 10);
    lemma_digit(n % 10);
    let t = two_digits(n);
    assert(t.drop_last() =~= seq![digit(n / 10)]);
    assert(t.drop_last().drop_last() =~= Seq::<char>::empty());
    assert(digits_value(Seq::<char>::empty()) == 0);
    assert(digits_value(t.drop_last()) == n / 10);
    assert((n / 10) * 10 + n % 10 == n);
}

/// Appends one decimal digit.
pub fn push_digit(s: &mut String, d: u64)
    requires
        d < 10,
    ensures
        final(s)@ == old(s)@.push(digit(d as nat)),
{
    let all = "0123456789";
    proof {
        reveal_strlit("0123456789");
    }
    let one = all.substring_char(d as usize, (d + 1) as usize);
    assert(one@ =~= seq![digit(d as nat)]);
    s.append(one);
}

/// Appends the decimal text of `n`.
pub fn push_decimal(s: &mut String, n: u64)
    ensures
        final(s)@ == old(s)@ + decimal(n as nat),
    decreases n,
{
    if n < 10 {
        push_digit(s, n);
        assert(final(s)@ =~= old(s)@ + decimal(n as nat));
    } else {
        push_decimal(s, n / 10);
        push_digit(s, n % 10);
        assert(final(s)@ =~= old(s)@ + decimal(n as nat));
    }
}

/// Appends a number below one hundred as two digits.
pub fn push_two_digits(s: &mut String, n: u64)
    requires
        n < 100,
    ensures
        final(s)@ == old(s)@ + two_digits(n as nat),
{
    push_digit(s, n / 10);
    push_digit(s, n % 10);
    assert(final(s)@ =~= old(s)@ + two_digits(n as nat));
}

/// Appends `n` copies of a one-character string.
fn push_repeated(s: &mut String, unit: &str, n: usize, Ghost(c): Ghost<char>)
    requires
        unit@ == seq![c],
    ensures
        final(s)@ == old(s)@ + Seq::new(n as nat, |i: int| c),
{
    let mut i: usize = 0;
    while i < n
        invariant
            i <= n,
            unit@ == seq![c],
            s@ == old(s)@ + Seq::new(i as nat, |k: int| c),
        decreases n - i,
    {
        s.append(unit);
        i = i + 1;
        assert(s@ =~= old(s)@ + Seq::new(i as nat, |k: int| c));
    }
}

proof fn lemma_spaces(n: nat)
    ensures
        spaces(n) == Seq::new(n, |i: int| ' '),
    decreases n,
{
    if n > 0 {
        lemma_spaces((n - 1) as nat);
    }
    assert(spaces(n) =~= Seq::new(n, |i: int| ' '));
}

proof fn lemma_dashes(n: nat)
    ensures
        dashes(n) == Seq::new(n, |i: int| '-'),
    decreases n,
{
    if n > 0 {
        lemma_dashes((n - 1) as nat);
    }
    assert(dashes(n) =~= Seq::new(n, |i: int| '-'));
}

/// Appends `n` spaces.
pub fn push_spaces(s: &mut String, n: usize)
    ensures
        final(s)@ == old(s)@ + spaces(n as nat),
{
    proof {
        reveal_strlit(" ");
        lemma_spaces(n as nat);
        assert(" "@ =~= seq![' ']);
    }
    push_repeated(s, " ", n, Ghost(' '));
}

/// Appends `n` dashes.
pub fn push_dashes(s: &mut String, n: usize)
    ensures
        final(s)@ == old(s)@ + dashes(n as nat),
{
    proof {
        reveal_strlit("-");
        lemma_dashes(n as nat);
        assert("-"@ =~= seq!['-']);
    }
    push_repeated(s, "-", n, Ghost('-'));
}

/// Appends `t` padded with spaces to `width` characters.
pub fn push_padded(s: &mut String, t: &str, width: usize)
    ensures
        final(s)@ == old(s)@ + pad_right(t@, width as nat),
{
    let len = t.unicode_len();
    s.append(t);
    if len < width {
        push_spaces(s, width - len);
        assert(final(s)@ =~= old(s)@ + pad_right(t@, width as nat));
    } else {
        assert(final(s)@ =~= old(s)@ + pad_right(t@, width as nat));
    }
}

} // verus!
