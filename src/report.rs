//! Reports: time per project summed over days, and the tables that show it.

use vstd::prelude::*;

use crate::day::Chunk;
use crate::day::Day;
use crate::day::chunks_wf;
use crate::order::lex_lt;
use crate::order::name_before;
use crate::order::sort_by_end;
use crate::order::sort_chunks;
use crate::order::lemma_sort_by_end;
use crate::order::lemma_sort_keeps_wf;
use crate::order::ends_distinct;
use crate::order::lemma_sort_order_independent;

verus! {

/// The most chunks, over all days of one report, whose minutes are summed; it keeps
/// every sum within a signed 64-bit integer.
pub const MAX_REPORT_CHUNKS: u64 = 1_000_000_000_000;

/// The time spent on one project, in minutes.
#[derive(Debug)]
pub struct ProjectTime {
    pub project: String,
    pub minutes: i64,
}

/// A project's name and minutes.
pub open spec fn entry_view(e: ProjectTime) -> (Seq<char>, int) {
    (e.project@, e.minutes as int)
}

pub open spec fn entries_view(s: Seq<ProjectTime>) -> Seq<(Seq<char>, int)> {
    s.map_values(|e: ProjectTime| entry_view(e))
}

/// Adds `m` minutes for project `p` to a list kept in name order: to its entry where
/// there is one, else as a new entry before the first name that sorts after `p`.
pub open spec fn add_time(e: Seq<(Seq<char>, int)>, p: Seq<char>, m: int) -> Seq<(Seq<char>, int)>
    decreases e.len(),
{
    if e.len() == 0 {
        seq![(p, m)]
    } else if e[0].0 == p {
        e.update(0, (p, e[0].1 + m))
    } else if lex_lt(p, e[0].0) {
        seq![(p, m)] + e
    } else {
        seq![e[0]] + add_time(e.drop_first(), p, m)
    }
}

/// Adds each chunk's span: from the end of the one before (`prev` for the first) to
/// its own end.
pub open spec fn add_chunks(e: Seq<(Seq<char>, int)>, prev: int, s: Seq<Chunk>) -> Seq<
    (Seq<char>, int),
>
    decreases s.len(),
{
    if s.len() == 0 {
        e
    } else {
        add_chunks(
            add_time(e, s[0].project@, s[0].end_time.minutes() - prev),
            s[0].end_time.minutes(),
            s.drop_first(),
        )
    }
}

/// Adds the spans of each day, its chunks taken in order of end time from its check-in.
pub open spec fn add_days(e: Seq<(Seq<char>, int)>, days: Seq<Day>) -> Seq<(Seq<char>, int)>
    decreases days.len(),
{
    if days.len() == 0 {
        e
    } else {
        add_days(
            add_chunks(e, days[0].check_in_time.minutes(), sort_by_end(days[0].chunks@)),
            days.drop_first(),
        )
    }
}

/// The minutes per project over the given days, in name order.
pub open spec fn project_times(days: Seq<Day>) -> Seq<(Seq<char>, int)> {
    add_days(Seq::empty(), days)
}

/// The number of chunks over all the days.
pub open spec fn chunk_total(days: Seq<Day>) -> nat
    decreases days.len(),
{
    if days.len() == 0 {
        0
    } else {
        days[0].chunks@.len() + chunk_total(days.drop_first())
    }
}

/// Every day is well formed.
pub open spec fn days_wf(days: Seq<Day>) -> bool {
    forall|i: int| 0 <= i < days.len() ==> (#[trigger] days[i]).wf()
}

/// The magnitude of a number of minutes.
pub open spec fn magnitude(m: int) -> int {
    if m < 0 {
        -m
    } else {
        m
    }
}

/// The sum of the magnitudes of all entries' minutes.
pub open spec fn abs_sum(e: Seq<(Seq<char>, int)>) -> int
    decreases e.len(),
{
    if e.len() == 0 {
        0
    } else {
        abs_sum(e.drop_last()) + magnitude(e.last().1)
    }
}

pub proof fn lemma_abs_sum_concat(a: Seq<(Seq<char>, int)>, b: Seq<(Seq<char>, int)>)
    ensures
        abs_sum(a + b) == abs_sum(a) + abs_sum(b),
    decreases b.len(),
{
    if b.len() == 0 {
        assert(a + b =~= a);
    } else {
        lemma_abs_sum_concat(a, b.drop_last());
        assert((a + b).drop_last() =~= a + b.drop_last());
    }
}

pub proof fn lemma_abs_sum_bounds_entry(e: Seq<(Seq<char>, int)>, k: int)
    requires
        0 <= k < e.len(),
    ensures
        magnitude(e[k].1) <= abs_sum(e),
        0 <= abs_sum(e),
    decreases e.len(),
{
    if k < e.len() - 1 {
        lemma_abs_sum_bounds_entry(e.drop_last(), k);
    } else {
        lemma_abs_sum_nonneg(e.drop_last());
    }
}

pub proof fn lemma_abs_sum_nonneg(e: Seq<(Seq<char>, int)>)
    ensures
        0 <= abs_sum(e),
    decreases e.len(),
{
    if e.len() > 0 {
        lemma_abs_sum_nonneg(e.drop_last());
    }
}

proof fn lemma_abs_sum_cons(x: (Seq<char>, int), e: Seq<(Seq<char>, int)>)
    ensures
        abs_sum(seq![x] + e) == magnitude(x.1) + abs_sum(e),
{
    lemma_abs_sum_concat(seq![x], e);
    assert(seq![x].drop_last() =~= Seq::<(Seq<char>, int)>::empty());
    assert(abs_sum(Seq::<(Seq<char>, int)>::empty()) == 0);
    assert(abs_sum(seq![x]) == magnitude(x.1));
}

proof fn lemma_add_time_abs_sum(e: Seq<(Seq<char>, int)>, p: Seq<char>, m: int)
    ensures
        abs_sum(add_time(e, p, m)) <= abs_sum(e) + magnitude(m),
    decreases e.len(),
{
    if e.len() == 0 {
        lemma_abs_sum_cons((p, m), e);
        assert(seq![(p, m)] + e =~= seq![(p, m)]);
    } else {
        assert(e =~= seq![e[0]] + e.drop_first());
        lemma_abs_sum_cons(e[0], e.drop_first());
        if e[0].0 == p {
            assert(e.update(0, (p, e[0].1 + m)) =~= seq![(p, e[0].1 + m)] + e.drop_first());
            lemma_abs_sum_cons((p, e[0].1 + m), e.drop_first());
        } else if lex_lt(p, e[0].0) {
            lemma_abs_sum_cons((p, m), e);
        } else {
            lemma_add_time_abs_sum(e.drop_first(), p, m);
            lemma_abs_sum_cons(e[0], add_time(e.drop_first(), p, m));
        }
    }
}

/// Adds `m` minutes for `project`, as `add_time` says.
fn add_project_time(entries: &mut Vec<ProjectTime>, project: &String, m: i64, Ghost(b): Ghost<int>)
    requires
        abs_sum(entries_view(old(entries)@)) <= b,
        -1440 <= m <= 1440,
        0 <= b,
        b + 1440 <= i64::MAX,
    ensures
        entries_view(final(entries)@) == add_time(entries_view(old(entries)@), project@, m as int),
{
    let ghost ev = entries_view(entries@);
    let mut i: usize = 0;
    assert(ev.skip(0) =~= ev);
    assert(ev.take(0) =~= Seq::<(Seq<char>, int)>::empty());
    while i < entries.len() && !(entries[i].project == *project) && !name_before(
        project.as_str(),
        entries[i].project.as_str(),
    )
        invariant
            i <= entries@.len(),
            ev == entries_view(entries@),
            ev.len() == entries@.len(),
            add_time(ev, project@, m as int) == ev.take(i as int) + add_time(
                ev.skip(i as int),
                project@,
                m as int,
            ),
        decreases entries@.len() - i,
    {
        proof {
            let t = ev.skip(i as int);
            assert(t[0] == ev[i as int]);
            assert(t.drop_first() =~= ev.skip(i + 1));
            assert(ev.take(i as int) + (seq![t[0]] + add_time(t.drop_first(), project@, m as int))
                =~= ev.take(i + 1) + add_time(ev.skip(i + 1), project@, m as int));
        }
        i = i + 1;
    }
    let ghost t = ev.skip(i as int);
    if i == entries.len() {
        entries.push(ProjectTime { project: project.clone(), minutes: m });
        proof {
            assert(t =~= Seq::<(Seq<char>, int)>::empty());
            assert(entries_view(entries@) =~= add_time(ev, project@, m as int));
        }
    } else if entries[i].project == *project {
        proof {
            assert(t[0] == ev[i as int]);
            lemma_abs_sum_bounds_entry(ev, i as int);
        }
        let mut e = entries.remove(i);
        e.minutes = e.minutes + m;
        entries.insert(i, e);
        proof {
            assert(entries_view(entries@) =~= add_time(ev, project@, m as int));
        }
    } else {
        entries.insert(i, ProjectTime { project: project.clone(), minutes: m });
        proof {
            assert(t[0] == ev[i as int]);
            assert(entries_view(entries@) =~= add_time(ev, project@, m as int));
        }
    }
}

/// A copy of the chunks.
pub fn copy_chunks(chunks: &Vec<Chunk>) -> (r: Vec<Chunk>)
    ensures
        r@ == chunks@,
{
    let mut r: Vec<Chunk> = Vec::new();
    let mut i: usize = 0;
    while i < chunks.len()
        invariant
            i <= chunks@.len(),
            r@ == chunks@.take(i as int),
        decreases chunks@.len() - i,
    {
        r.push(chunks[i].duplicate());
        i = i + 1;
        assert(r@ =~= chunks@.take(i as int));
    }
    assert(chunks@.take(i as int) =~= chunks@);
    r
}

proof fn lemma_add_days_order_independent(e: Seq<(Seq<char>, int)>, a: Seq<Day>, b: Seq<Day>)
    requires
        a.len() == b.len(),
        forall|i: int|
            0 <= i < a.len() ==> (#[trigger] a[i]).check_in_time == b[i].check_in_time
                && a[i].chunks@.to_multiset() == b[i].chunks@.to_multiset() && ends_distinct(
                a[i].chunks@,
            ),
    ensures
        add_days(e, a) == add_days(e, b),
    decreases a.len(),
{
    if a.len() > 0 {
        assert(a[0].check_in_time == b[0].check_in_time);
        lemma_sort_order_independent(a[0].chunks@, b[0].chunks@);
        let e2 = add_chunks(e, a[0].check_in_time.minutes(), sort_by_end(a[0].chunks@));
        assert forall|i: int| 0 <= i < a.drop_first().len() implies (#[trigger] a.drop_first()[i]).check_in_time
            == b.drop_first()[i].check_in_time && a.drop_first()[i].chunks@.to_multiset()
            == b.drop_first()[i].chunks@.to_multiset() && ends_distinct(
            a.drop_first()[i].chunks@,
        ) by {
            assert(a.drop_first()[i] == a[i + 1]);
            assert(b.drop_first()[i] == b[i + 1]);
        }
        lemma_add_days_order_independent(e2, a.drop_first(), b.drop_first());
    }
}

/// The minutes per project do not depend on the order in which each day's chunks were
/// added: days with the same check-ins and the same chunks give the same minutes, where
/// no two different chunks of a day end at the same time.
pub proof fn lemma_aggregation_order_independent(a: Seq<Day>, b: Seq<Day>)
    requires
        a.len() == b.len(),
        forall|i: int|
            0 <= i < a.len() ==> (#[trigger] a[i]).check_in_time == b[i].check_in_time
                && a[i].chunks@.to_multiset() == b[i].chunks@.to_multiset() && ends_distinct(
                a[i].chunks@,
            ),
    ensures
        project_times(a) == project_times(b),
{
    lemma_add_days_order_independent(Seq::empty(), a, b);
}

/// The minutes that the entries hold for the name `q`.
pub open spec fn minutes_of(e: Seq<(Seq<char>, int)>, q: Seq<char>) -> int
    decreases e.len(),
{
    if e.len() == 0 {
        0
    } else {
        (if e[0].0 == q { e[0].1 } else { 0 }) + minutes_of(e.drop_first(), q)
    }
}

/// The span of chunk `i` of `s`: from the end of chunk `i - 1`, or from `check_in` for
/// the first chunk, to its own end.
pub open spec fn span(check_in: int, s: Seq<Chunk>, i: int) -> int {
    s[i].end_time.minutes() - (if i == 0 { check_in } else { s[i - 1].end_time.minutes() })
}

/// The sum of the spans of the chunks of project `q` from chunk `i` on.
pub open spec fn project_spans(check_in: int, s: Seq<Chunk>, q: Seq<char>, i: int) -> int
    decreases s.len() - i,
{
    if i < 0 || i >= s.len() {
        0
    } else {
        (if s[i].project@ == q { span(check_in, s, i) } else { 0 }) + project_spans(
            check_in,
            s,
            q,
            i + 1,
        )
    }
}

/// The minutes spent on project `q` over the days: for each day, the sum of the spans
/// of its chunks of `q`, its chunks taken in order of end time.
pub open spec fn project_minutes(days: Seq<Day>, q: Seq<char>) -> int
    decreases days.len(),
{
    if days.len() == 0 {
        0
    } else {
        project_spans(days[0].check_in_time.minutes(), sort_by_end(days[0].chunks@), q, 0)
            + project_minutes(days.drop_first(), q)
    }
}

proof fn lemma_add_time_minutes(e: Seq<(Seq<char>, int)>, p: Seq<char>, m: int, q: Seq<char>)
    ensures
        minutes_of(add_time(e, p, m), q) == minutes_of(e, q) + (if p == q { m } else { 0 }),
    decreases e.len(),
{
    if e.len() == 0 {
        assert(seq![(p, m)].drop_first() =~= Seq::<(Seq<char>, int)>::empty());
        assert(minutes_of(Seq::<(Seq<char>, int)>::empty(), q) == 0);
    } else if e[0].0 == p {
        let u = e.update(0, (p, e[0].1 + m));
        assert(u.drop_first() =~= e.drop_first());
        assert(u[0] == (p, e[0].1 + m));
    } else if lex_lt(p, e[0].0) {
        let u = seq![(p, m)] + e;
        assert(u.drop_first() =~= e);
        assert(u[0] == (p, m));
    } else {
        lemma_add_time_minutes(e.drop_first(), p, m, q);
        assert((seq![e[0]] + add_time(e.drop_first(), p, m))[0] == e[0]);
        assert((seq![e[0]] + add_time(e.drop_first(), p, m)).drop_first() =~= add_time(
            e.drop_first(),
            p,
            m,
        ));
    }
}

proof fn lemma_add_chunks_minutes(
    e: Seq<(Seq<char>, int)>,
    check_in: int,
    s: Seq<Chunk>,
    i: int,
    q: Seq<char>,
)
    requires
        0 <= i <= s.len(),
    ensures
        minutes_of(
            add_chunks(
                e,
                if i == 0 { check_in } else { s[i - 1].end_time.minutes() },
                s.skip(i),
            ),
            q,
        ) == minutes_of(e, q) + project_spans(check_in, s, q, i),
    decreases s.len() - i,
{
    let prev = if i == 0 { check_in } else { s[i - 1].end_time.minutes() };
    if i < s.len() {
        let t = s.skip(i);
        assert(t[0] == s[i]);
        assert(t.drop_first() =~= s.skip(i + 1));
        let m = s[i].end_time.minutes() - prev;
        lemma_add_time_minutes(e, s[i].project@, m, q);
        lemma_add_chunks_minutes(add_time(e, s[i].project@, m), check_in, s, i + 1, q);
    } else {
        assert(s.skip(i) =~= Seq::<Chunk>::empty());
    }
}

proof fn lemma_add_days_minutes(e: Seq<(Seq<char>, int)>, days: Seq<Day>, q: Seq<char>)
    ensures
        minutes_of(add_days(e, days), q) == minutes_of(e, q) + project_minutes(days, q),
    decreases days.len(),
{
    if days.len() > 0 {
        let s = sort_by_end(days[0].chunks@);
        let ci = days[0].check_in_time.minutes();
        assert(s.skip(0) =~= s);
        lemma_add_chunks_minutes(e, ci, s, 0, q);
        lemma_add_days_minutes(add_chunks(e, ci, s), days.drop_first(), q);
    }
}

/// The minutes that the aggregation gives a project are the sum, over the days, of the
/// spans of that project's chunks in order of end time: each from the end of the chunk
/// before it, or from the check-in for a day's first chunk.
pub proof fn lemma_project_times_closed_form(days: Seq<Day>, q: Seq<char>)
    ensures
        minutes_of(project_times(days), q) == project_minutes(days, q),
{
    lemma_add_days_minutes(Seq::empty(), days, q);
}

/// The minutes of all entries.
pub open spec fn all_minutes(e: Seq<(Seq<char>, int)>) -> int
    decreases e.len(),
{
    if e.len() == 0 {
        0
    } else {
        e[0].1 + all_minutes(e.drop_first())
    }
}

/// The sum of the spans of all chunks from chunk `i` on.
pub open spec fn all_spans(check_in: int, s: Seq<Chunk>, i: int) -> int
    decreases s.len() - i,
{
    if i < 0 || i >= s.len() {
        0
    } else {
        span(check_in, s, i) + all_spans(check_in, s, i + 1)
    }
}

/// The minutes of all chunks over the days, each day's chunks in order of end time.
pub open spec fn total_minutes(days: Seq<Day>) -> int
    decreases days.len(),
{
    if days.len() == 0 {
        0
    } else {
        all_spans(days[0].check_in_time.minutes(), sort_by_end(days[0].chunks@), 0)
            + total_minutes(days.drop_first())
    }
}

proof fn lemma_add_time_all(e: Seq<(Seq<char>, int)>, p: Seq<char>, m: int)
    ensures
        all_minutes(add_time(e, p, m)) == all_minutes(e) + m,
    decreases e.len(),
{
    if e.len() == 0 {
        assert(seq![(p, m)].drop_first() =~= Seq::<(Seq<char>, int)>::empty());
        assert(all_minutes(Seq::<(Seq<char>, int)>::empty()) == 0);
    } else if e[0].0 == p {
        let u = e.update(0, (p, e[0].1 + m));
        assert(u.drop_first() =~= e.drop_first());
        assert(u[0] == (p, e[0].1 + m));
    } else if lex_lt(p, e[0].0) {
        let u = seq![(p, m)] + e;
        assert(u.drop_first() =~= e);
        assert(u[0] == (p, m));
    } else {
        lemma_add_time_all(e.drop_first(), p, m);
        let u = seq![e[0]] + add_time(e.drop_first(), p, m);
        assert(u[0] == e[0]);
        assert(u.drop_first() =~= add_time(e.drop_first(), p, m));
    }
}

proof fn lemma_add_chunks_all(e: Seq<(Seq<char>, int)>, check_in: int, s: Seq<Chunk>, i: int)
    requires
        0 <= i <= s.len(),
    ensures
        all_minutes(
            add_chunks(
                e,
                if i == 0 { check_in } else { s[i - 1].end_time.minutes() },
                s.skip(i),
            ),
        ) == all_minutes(e) + all_spans(check_in, s, i),
    decreases s.len() - i,
{
    let prev = if i == 0 { check_in } else { s[i - 1].end_time.minutes() };
    if i < s.len() {
        let t = s.skip(i);
        assert(t[0] == s[i]);
        assert(t.drop_first() =~= s.skip(i + 1));
        let m = s[i].end_time.minutes() - prev;
        lemma_add_time_all(e, s[i].project@, m);
        lemma_add_chunks_all(add_time(e, s[i].project@, m), check_in, s, i + 1);
    } else {
        assert(s.skip(i) =~= Seq::<Chunk>::empty());
    }
}

proof fn lemma_add_days_all(e: Seq<(Seq<char>, int)>, days: Seq<Day>)
    ensures
        all_minutes(add_days(e, days)) == all_minutes(e) + total_minutes(days),
    decreases days.len(),
{
    if days.len() > 0 {
        let s = sort_by_end(days[0].chunks@);
        let ci = days[0].check_in_time.minutes();
        assert(s.skip(0) =~= s);
        lemma_add_chunks_all(e, ci, s, 0);
        lemma_add_days_all(add_chunks(e, ci, s), days.drop_first());
    }
}

/// The minutes of all projects together, breaks included, are the sum over the days of
/// the spans of all chunks in order of end time.
pub proof fn lemma_project_times_total(days: Seq<Day>)
    ensures
        all_minutes(project_times(days)) == total_minutes(days),
{
    lemma_add_days_all(Seq::empty(), days);
}

/// Summing from the back gives the same minutes for a name as summing from the front.
pub proof fn lemma_minutes_of_last(e: Seq<(Seq<char>, int)>, q: Seq<char>)
    requires
        e.len() > 0,
    ensures
        minutes_of(e, q) == minutes_of(e.drop_last(), q) + (if e.last().0 == q {
            e.last().1
        } else {
            0
        }),
        all_minutes(e) == all_minutes(e.drop_last()) + e.last().1,
    decreases e.len(),
{
    if e.len() == 1 {
        assert(e.drop_first() =~= Seq::<(Seq<char>, int)>::empty());
        assert(e.drop_last() =~= Seq::<(Seq<char>, int)>::empty());
    } else {
        lemma_minutes_of_last(e.drop_first(), q);
        assert(e.drop_first().drop_last() =~= e.drop_last().drop_first());
        assert(e.drop_last()[0] == e[0]);
        assert(e.drop_first().last() == e.last());
    }
}

proof fn lemma_chunk_total_skip(days: Seq<Day>, d: int)
    requires
        0 <= d < days.len(),
    ensures
        chunk_total(days.skip(d)) == days[d].chunks@.len() + chunk_total(days.skip(d + 1)),
{
    assert(days.skip(d).drop_first() =~= days.skip(d + 1));
}

/// The minutes spent on each project over the given days, in name order.
///
/// Each day's chunks are taken in order of end time; each adds the minutes from the end
/// of the chunk before it (the check-in for the first) to its own end, to its project.
pub fn aggregate(days: &Vec<Day>) -> (r: Vec<ProjectTime>)
    requires
        days_wf(days@),
        chunk_total(days@) <= MAX_REPORT_CHUNKS,
    ensures
        entries_view(r@) == project_times(days@),
        abs_sum(project_times(days@)) <= 1440 * chunk_total(days@),
{
    let mut cur: Vec<ProjectTime> = Vec::new();
    let mut d: usize = 0;
    let ghost mut done: int = 0;
    assert(days@.skip(0) =~= days@);
    assert(entries_view(cur@) =~= Seq::<(Seq<char>, int)>::empty());
    while d < days.len()
        invariant
            d <= days@.len(),
            days_wf(days@),
            chunk_total(days@) <= MAX_REPORT_CHUNKS,
            project_times(days@) == add_days(entries_view(cur@), days@.skip(d as int)),
            0 <= done,
            done + chunk_total(days@.skip(d as int)) == chunk_total(days@),
            abs_sum(entries_view(cur@)) <= 1440 * done,
        decreases days@.len() - d,
    {
        let day = &days[d];
        assert(day.wf());
        proof {
            lemma_chunk_total_skip(days@, d as int);
            assert(days@.skip(d as int).drop_first() =~= days@.skip(d + 1));
            lemma_sort_by_end(day.chunks@);
            lemma_abs_sum_nonneg(entries_view(cur@));
        }
        let sorted = sort_chunks(copy_chunks(&day.chunks));
        let ghost s = sorted@;
        proof {
            lemma_sort_keeps_wf(day.chunks@);
        }
        let mut prev: i64 = day.check_in_time.minutes_since_midnight() as i64;
        let mut k: usize = 0;
        assert(s.skip(0) =~= s);
        while k < sorted.len()
            invariant
                k <= s.len(),
                s == sorted@,
                chunks_wf(s),
                s.len() == day.chunks@.len(),
                0 <= prev < 1440,
                project_times(days@) == add_days(
                    add_chunks(entries_view(cur@), prev as int, s.skip(k as int)),
                    days@.skip(d + 1),
                ),
                0 <= done,
                done + s.len() - k + chunk_total(days@.skip(d + 1)) == chunk_total(days@),
                chunk_total(days@) <= MAX_REPORT_CHUNKS,
                abs_sum(entries_view(cur@)) <= 1440 * done,
            decreases s.len() - k,
        {
            let c = &sorted[k];
            assert(s[k as int].end_time.wf());
            let end = c.end_time.minutes_since_midnight() as i64;
            proof {
                lemma_add_time_abs_sum(entries_view(cur@), c.project@, end - prev);
                assert(s.skip(k as int)[0] == s[k as int]);
                assert(s.skip(k as int).drop_first() =~= s.skip(k + 1));
            }
            add_project_time(&mut cur, &c.project, end - prev, Ghost(1440 * done));
            proof {
                done = done + 1;
                assert(1440 * done == 1440 * (done - 1) + 1440);
            }
            prev = end;
            k = k + 1;
        }
        d = d + 1;
    }
    proof {
        assert(days@.skip(d as int) =~= Seq::<Day>::empty());
    }
    cur
}

} // verus!
