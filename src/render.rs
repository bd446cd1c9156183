//! Rendering durations and the summary table.

use vstd::prelude::*;

use crate::day::break_name;
use crate::day::break_project;
use crate::report::ProjectTime;
use crate::report::entries_view;
use crate::report::all_minutes;
use crate::report::minutes_of;
use crate::report::lemma_minutes_of_last;
use crate::report::entry_view;
use crate::report::abs_sum;
use crate::report::magnitude;
use crate::report::lemma_abs_sum_bounds_entry;
use crate::report::lemma_abs_sum_concat;
use crate::report::lemma_abs_sum_nonneg;
use crate::text::dashes;
use crate::text::decimal;
use crate::text::pad_right;
use crate::text::push_dashes;
use crate::text::push_decimal;
use crate::text::push_padded;
use crate::text::push_two_digits;
use crate::text::two_digits;

verus! {

/// The largest number of minutes, either way, that a report renders.
pub const MAX_REPORT_MINUTES: i64 = 1_440_000_000_000_000;

/// Minutes as hundredths of an hour, rounded to the nearest. A tie cannot occur: a
/// whole number of minutes is never an odd number of half hundredths of an hour.
pub open spec fn rounded_cents(a: nat) -> nat {
    (5 * a + 1) / 3
}

/// Minutes as decimal hours with two places.
pub open spec fn decimal_hours(a: nat) -> Seq<char> {
    decimal(rounded_cents(a) / 100) + seq!['.'] + two_digits(rounded_cents(a) % 100)
}

/// An integer in decimal, with a minus sign when negative.
pub open spec fn signed_text(i: int) -> Seq<char> {
    if i < 0 {
        seq!['-'] + decimal((-i) as nat)
    } else {
        decimal(i as nat)
    }
}

/// A duration of `m` minutes as decimal hours, then whole hours and the minutes left:
/// 75 minutes read `1.25h (1h 15m)`. Hours count toward zero, and the minutes left
/// have the sign of `m`.
#[verifier::opaque]
pub open spec fn duration_text(m: int) -> Seq<char> {
    let a: nat = if m < 0 { (-m) as nat } else { m as nat };
    let hours: int = if m < 0 { -(a / 60) } else { (a / 60) as int };
    let rest: int = if m < 0 { -(a % 60) } else { (a % 60) as int };
    (if m < 0 { seq!['-'] } else { Seq::empty() }) + decimal_hours(a) + "h ("@ + signed_text(hours)
        + "h "@ + signed_text(rest) + "m)"@
}

/// Appends an integer in decimal, with a minus sign when negative.
fn push_signed(s: &mut String, i: i64)
    requires
        -MAX_REPORT_MINUTES <= i <= MAX_REPORT_MINUTES,
    ensures
        final(s)@ == old(s)@ + signed_text(i as int),
{
    if i < 0 {
        s.append("-");
        proof {
            reveal_strlit("-");
        }
        push_decimal(s, (-i) as u64);
        assert(final(s)@ =~= old(s)@ + signed_text(i as int));
    } else {
        push_decimal(s, i as u64);
    }
}

/// Appends a duration of `m` minutes, as `duration_text` says.
pub fn push_duration(s: &mut String, m: i64)
    requires
        -MAX_REPORT_MINUTES <= m <= MAX_REPORT_MINUTES,
    ensures
        final(s)@ == old(s)@ + duration_text(m as int),
{
    let a: u64 = if m < 0 { (-m) as u64 } else { m as u64 };
    let neg = m < 0;
    if neg {
        s.append("-");
    }
    let ghost s1 = s@;
    let cents = (5 * a + 1) / 3;
    push_decimal(s, cents / 100);
    s.append(".");
    push_two_digits(s, cents % 100);
    s.append("h (");
    let hours: i64 = if neg { -((a / 60) as i64) } else { (a / 60) as i64 };
    let minutes: i64 = if neg { -((a % 60) as i64) } else { (a % 60) as i64 };
    push_signed(s, hours);
    s.append("h ");
    push_signed(s, minutes);
    s.append("m)");
    proof {
        reveal_strlit("-");
        reveal_strlit(".");
        reveal(duration_text);
        assert(final(s)@ =~= old(s)@ + duration_text(m as int));
    }
}

/// A duration of `m` minutes, as `duration_text` says.
pub fn format_duration(m: i64) -> (r: String)
    requires
        -MAX_REPORT_MINUTES <= m <= MAX_REPORT_MINUTES,
    ensures
        r@ == duration_text(m as int),
{
    let mut s = String::new();
    push_duration(&mut s, m);
    assert(s@ =~= duration_text(m as int));
    s
}

/// The minutes of the entries named `"break"`, summed.
pub open spec fn break_minutes(e: Seq<(Seq<char>, int)>) -> int
    decreases e.len(),
{
    if e.len() == 0 {
        0
    } else {
        break_minutes(e.drop_last()) + (if e.last().0 == break_name() { e.last().1 } else { 0 })
    }
}

/// The minutes of the other entries, summed.
pub open spec fn work_minutes(e: Seq<(Seq<char>, int)>) -> int
    decreases e.len(),
{
    if e.len() == 0 {
        0
    } else {
        work_minutes(e.drop_last()) + (if e.last().0 == break_name() { 0 } else { e.last().1 })
    }
}

/// The breaks of the summary are the minutes of the entry `"break"`, zero where there
/// is none; the total is the minutes of all entries; the time without breaks is the
/// total less the breaks.
pub proof fn lemma_summary_sums(e: Seq<(Seq<char>, int)>)
    ensures
        break_minutes(e) == minutes_of(e, break_name()),
        work_minutes(e) + break_minutes(e) == all_minutes(e),
    decreases e.len(),
{
    if e.len() == 0 {
        assert(minutes_of(e, break_name()) == 0);
        assert(all_minutes(e) == 0);
    } else {
        lemma_summary_sums(e.drop_last());
        lemma_minutes_of_last(e, break_name());
    }
}

/// The names of the rows of the summary table: the entries other than `"break"`, in
/// their order, then `"break"`.
pub open spec fn work_names(e: Seq<(Seq<char>, int)>) -> Seq<Seq<char>>
    decreases e.len(),
{
    if e.len() == 0 {
        Seq::empty()
    } else if e.last().0 == break_name() {
        work_names(e.drop_last())
    } else {
        work_names(e.drop_last()).push(e.last().0)
    }
}

/// The durations of the rows named by `work_names`.
pub open spec fn work_texts(e: Seq<(Seq<char>, int)>) -> Seq<Seq<char>>
    decreases e.len(),
{
    if e.len() == 0 {
        Seq::empty()
    } else if e.last().0 == break_name() {
        work_texts(e.drop_last())
    } else {
        work_texts(e.drop_last()).push(duration_text(e.last().1))
    }
}

pub open spec fn summary_names(e: Seq<(Seq<char>, int)>) -> Seq<Seq<char>> {
    work_names(e).push(break_name())
}

pub open spec fn summary_texts(e: Seq<(Seq<char>, int)>) -> Seq<Seq<char>> {
    work_texts(e).push(duration_text(break_minutes(e)))
}

/// The widest of `w` and the lengths of the texts.
pub open spec fn widest(s: Seq<Seq<char>>, w: nat) -> nat
    decreases s.len(),
{
    if s.len() == 0 {
        w
    } else {
        let before = widest(s.drop_last(), w);
        if s.last().len() > before {
            s.last().len()
        } else {
            before
        }
    }
}

/// A row of a table of two columns.
pub open spec fn line2(a: Seq<char>, b: Seq<char>, wa: nat, wb: nat) -> Seq<char> {
    "| "@ + pad_right(a, wa) + " | "@ + pad_right(b, wb) + " |"@
}

/// The first `n` rows, each on a line of its own.
pub open spec fn lines2(names: Seq<Seq<char>>, texts: Seq<Seq<char>>, n: nat, wa: nat, wb: nat) -> Seq<
    char,
>
    decreases n,
{
    if n == 0 {
        Seq::empty()
    } else {
        lines2(names, texts, (n - 1) as nat, wa, wb) + "\n"@ + line2(
            names[n - 1],
            texts[n - 1],
            wa,
            wb,
        )
    }
}

/// The summary table: a header, a rule, one row per project in the entries' order, and
/// last the breaks. Each column is as wide as its widest cell or header.
pub open spec fn summary_table(e: Seq<(Seq<char>, int)>) -> Seq<char> {
    table2(summary_names(e), summary_texts(e))
}

/// A table of projects and times with the given rows.
#[verifier::opaque]
pub open spec fn table2(names: Seq<Seq<char>>, texts: Seq<Seq<char>>) -> Seq<char> {
    let wa = widest(names, "project"@.len());
    let wb = widest(texts, "time"@.len());
    line2("project"@, "time"@, wa, wb) + "\n|-"@ + dashes(wa) + "-|-"@ + dashes(wb) + "-|"@
        + lines2(names, texts, names.len(), wa, wb)
}

/// The summary: total time, time without breaks, and the table.
pub open spec fn summary_text(e: Seq<(Seq<char>, int)>) -> Seq<char> {
    "## summary\n\n- total amount of work: "@ + duration_text(
        work_minutes(e) + break_minutes(e),
    ) + "\n- without breaks: "@ + duration_text(work_minutes(e)) + "\n\n"@ + summary_table(e)
}

/// Appends a row of a table of two columns.
pub fn push_line2(s: &mut String, a: &str, b: &str, wa: usize, wb: usize)
    ensures
        final(s)@ == old(s)@ + line2(a@, b@, wa as nat, wb as nat),
{
    s.append("| ");
    push_padded(s, a, wa);
    s.append(" | ");
    push_padded(s, b, wb);
    s.append(" |");
    assert(final(s)@ =~= old(s)@ + line2(a@, b@, wa as nat, wb as nat));
}

/// The widest of `w` and the texts' lengths.
pub fn widest_of(s: &Vec<String>, w: usize) -> (r: usize)
    ensures
        r == widest(s@.map_values(|t: String| t@), w as nat),
{
    let ghost v = s@.map_values(|t: String| t@);
    let mut r = w;
    let mut i: usize = 0;
    while i < s.len()
        invariant
            i <= s@.len(),
            v == s@.map_values(|t: String| t@),
            r == widest(v.take(i as int), w as nat),
        decreases s@.len() - i,
    {
        let len = s[i].as_str().unicode_len();
        proof {
            assert(v.take(i + 1).drop_last() =~= v.take(i as int));
            assert(v.take(i + 1).last() == s@[i as int]@);
        }
        if len > r {
            r = len;
        }
        i = i + 1;
    }
    assert(v.take(i as int) =~= v);
    r
}

/// The texts that the strings hold.
pub open spec fn texts_view(s: Seq<String>) -> Seq<Seq<char>> {
    s.map_values(|t: String| t@)
}

/// Appends the rows, each on a line of its own.
fn push_lines2(s: &mut String, names: &Vec<String>, texts: &Vec<String>, wa: usize, wb: usize)
    requires
        names@.len() == texts@.len(),
    ensures
        final(s)@ == old(s)@ + lines2(
            texts_view(names@),
            texts_view(texts@),
            names@.len(),
            wa as nat,
            wb as nat,
        ),
{
    let ghost nv = texts_view(names@);
    let ghost tv = texts_view(texts@);
    let mut i: usize = 0;
    assert(old(s)@ =~= old(s)@ + lines2(nv, tv, 0, wa as nat, wb as nat));
    while i < names.len()
        invariant
            i <= names@.len(),
            names@.len() == texts@.len(),
            nv == texts_view(names@),
            tv == texts_view(texts@),
            s@ == old(s)@ + lines2(nv, tv, i as nat, wa as nat, wb as nat),
        decreases names@.len() - i,
    {
        let ghost before = s@;
        s.append("\n");
        push_line2(s, names[i].as_str(), texts[i].as_str(), wa, wb);
        proof {
            assert(nv[i as int] == names@[i as int]@);
            assert(tv[i as int] == texts@[i as int]@);
        }
        i = i + 1;
        assert(s@ =~= old(s)@ + lines2(nv, tv, i as nat, wa as nat, wb as nat));
    }
}

proof fn lemma_abs_sum_take(e: Seq<(Seq<char>, int)>, i: int)
    requires
        0 <= i <= e.len(),
    ensures
        abs_sum(e.take(i)) <= abs_sum(e),
{
    lemma_abs_sum_concat(e.take(i), e.skip(i));
    lemma_abs_sum_nonneg(e.skip(i));
    assert(e.take(i) + e.skip(i) =~= e);
}

/// Appends the table of projects and times with the given rows.
fn push_table2(s: &mut String, names: &Vec<String>, texts: &Vec<String>)
    requires
        names@.len() == texts@.len(),
    ensures
        final(s)@ == old(s)@ + table2(texts_view(names@), texts_view(texts@)),
{
    let wa = widest_of(names, "project".unicode_len());
    let wb = widest_of(texts, "time".unicode_len());
    push_line2(s, "project", "time", wa, wb);
    s.append("\n|-");
    push_dashes(s, wa);
    s.append("-|-");
    push_dashes(s, wb);
    s.append("-|");
    push_lines2(s, names, texts, wa, wb);
    reveal(table2);
    assert(final(s)@ =~= old(s)@ + table2(texts_view(names@), texts_view(texts@)));
}

proof fn lemma_work_rows_len(e: Seq<(Seq<char>, int)>)
    ensures
        work_names(e).len() == work_texts(e).len(),
    decreases e.len(),
{
    if e.len() > 0 {
        lemma_work_rows_len(e.drop_last());
    }
}

/// The sums and the rows of the summary of the given minutes per project.
fn summary_rows(entries: &Vec<ProjectTime>) -> (r: (i64, i64, Vec<String>, Vec<String>))
    requires
        abs_sum(entries_view(entries@)) <= MAX_REPORT_MINUTES,
    ensures
        r.0 == work_minutes(entries_view(entries@)),
        r.1 == break_minutes(entries_view(entries@)),
        magnitude(r.0 as int) + magnitude(r.1 as int) <= MAX_REPORT_MINUTES,
        texts_view(r.2@) == summary_names(entries_view(entries@)),
        texts_view(r.3@) == summary_texts(entries_view(entries@)),
        r.2@.len() == r.3@.len(),
{
    let ghost ev = entries_view(entries@);
    let mut work: i64 = 0;
    let mut brk: i64 = 0;
    let mut names: Vec<String> = Vec::new();
    let mut texts: Vec<String> = Vec::new();
    let breaks = break_project();
    let mut i: usize = 0;
    assert(ev.take(0) =~= Seq::<(Seq<char>, int)>::empty());
    while i < entries.len()
        invariant
            i <= entries@.len(),
            ev == entries_view(entries@),
            abs_sum(ev) <= MAX_REPORT_MINUTES,
            breaks@ == break_name(),
            work == work_minutes(ev.take(i as int)),
            brk == break_minutes(ev.take(i as int)),
            magnitude(work as int) + magnitude(brk as int) <= abs_sum(ev.take(i as int)),
            texts_view(names@) == work_names(ev.take(i as int)),
            texts_view(texts@) == work_texts(ev.take(i as int)),
        decreases entries@.len() - i,
    {
        let e = &entries[i];
        proof {
            let t = ev.take(i + 1);
            assert(t.drop_last() =~= ev.take(i as int));
            assert(t.last() == ev[i as int]);
            assert(ev[i as int] == entry_view(*e));
            lemma_abs_sum_take(ev, i + 1);
            lemma_abs_sum_bounds_entry(ev, i as int);
        }
        if e.project == breaks {
            brk = brk + e.minutes;
        } else {
            work = work + e.minutes;
            names.push(e.project.clone());
            texts.push(format_duration(e.minutes));
            proof {
                assert(texts_view(names@) =~= work_names(ev.take(i + 1)));
                assert(texts_view(texts@) =~= work_texts(ev.take(i + 1)));
            }
        }
        i = i + 1;
    }
    proof {
        assert(ev.take(i as int) =~= ev);
    }
    names.push(break_project());
    texts.push(format_duration(brk));
    proof {
        assert(texts_view(names@) =~= summary_names(ev));
        assert(texts_view(texts@) =~= summary_texts(ev));
        lemma_work_rows_len(ev);
    }
    (work, brk, names, texts)
}

/// The summary of the given minutes per project, as `summary_text` says.
pub fn project_summary(entries: &Vec<ProjectTime>) -> (r: String)
    requires
        abs_sum(entries_view(entries@)) <= MAX_REPORT_MINUTES,
    ensures
        r@ == summary_text(entries_view(entries@)),
{
    let ghost ev = entries_view(entries@);
    let (work, brk, names, texts) = summary_rows(entries);
    let mut s = String::new();
    s.append("## summary\n\n- total amount of work: ");
    push_duration(&mut s, work + brk);
    s.append("\n- without breaks: ");
    push_duration(&mut s, work);
    s.append("\n\n");
    push_table2(&mut s, &names, &texts);
    assert(s@ =~= summary_text(ev));
    s
}

} // verus!