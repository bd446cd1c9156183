//! The reports of a day, a week and a month, and the dates that they cover.

use vstd::prelude::*;

use crate::clock::Date;
use crate::clock::date_text;
use crate::clock::day_after;
use crate::clock::days_later;
use crate::clock::days_in_month;
use crate::clock::iso_week_number;
use crate::clock::iso_week_of;
use crate::clock::month_text;
use crate::clock::next_day;
use crate::clock::push_date;
use crate::clock::push_month;
use crate::clock::week_start;
use crate::clock::week_start_of;
use crate::clock::ymd;
use crate::clock::ymd_exists;
use crate::day::Day;
use crate::details::detail_table;
use crate::details::detail_text;
use crate::order::lemma_sort_keeps_wf;
use crate::order::sort_by_end;
use crate::order::sort_chunks;
use crate::order::ends_distinct;
use crate::order::lemma_sort_order_independent;
use crate::report::lemma_aggregation_order_independent;
use crate::render::project_summary;
use crate::render::summary_text;
use crate::report::MAX_REPORT_CHUNKS;
use crate::report::aggregate;
use crate::report::chunk_total;
use crate::report::copy_chunks;
use crate::report::days_wf;
use crate::report::project_times;
use crate::report::add_days;
use crate::render::work_minutes;
use crate::render::work_names;
use crate::render::break_minutes;
use crate::render::summary_names;
use crate::render::summary_texts;
use crate::render::duration_text;
use crate::day::break_name;
use crate::text::decimal;
use crate::text::push_decimal;

verus! {

/// The report of one day: its date, the summary and the detail table.
pub open spec fn day_report(day: Day) -> Seq<char> {
    "# Log for: "@ + date_text(day.date) + "\n\n"@ + summary_text(project_times(seq![day]))
        + "\n\n"@ + detail_text(day.check_in_time, sort_by_end(day.chunks@))
}

/// The report of a week: the number of the anchor's ISO week and the summary of the
/// days given.
pub open spec fn week_report(anchor: Date, days: Seq<Day>) -> Seq<char> {
    numbered_week_report(iso_week_of(ymd(anchor)) as nat, days)
}

/// The report of a month: the anchor's year and month and the summary of the days given.
pub open spec fn month_report(anchor: Date, days: Seq<Day>) -> Seq<char> {
    "# Log for month: "@ + month_text(anchor) + "\n\n"@ + summary_text(project_times(days))
}

/// The report of a day does not depend on the order in which its chunks were added,
/// where no two different chunks end at the same time.
pub proof fn lemma_day_report_order_independent(d1: Day, d2: Day)
    requires
        d1.date == d2.date,
        d1.check_in_time == d2.check_in_time,
        d1.chunks@.to_multiset() == d2.chunks@.to_multiset(),
        ends_distinct(d1.chunks@),
    ensures
        day_report(d1) == day_report(d2),
{
    lemma_sort_order_independent(d1.chunks@, d2.chunks@);
    let a = seq![d1];
    let b = seq![d2];
    assert forall|i: int| 0 <= i < a.len() implies (#[trigger] a[i]).check_in_time
        == b[i].check_in_time && a[i].chunks@.to_multiset() == b[i].chunks@.to_multiset()
        && ends_distinct(a[i].chunks@) by {
        assert(a[i] == d1);
        assert(b[i] == d2);
    }
    lemma_aggregation_order_independent(a, b);
}

proof fn lemma_one_day_total(day: Day)
    ensures
        chunk_total(seq![day]) == day.chunks@.len(),
{
    assert(seq![day].drop_first() =~= Seq::<Day>::empty());
    assert(chunk_total(Seq::<Day>::empty()) == 0);
}

/// The report of one day, as `day_report` says.
pub fn format_day(day: Day) -> (r: String)
    requires
        day.wf(),
        day.chunks@.len() <= MAX_REPORT_CHUNKS,
    ensures
        r@ == day_report(day),
{
    let ghost d0 = day;
    proof {
        lemma_sort_keeps_wf(day.chunks@);
        lemma_one_day_total(day);
    }
    let sorted = sort_chunks(copy_chunks(&day.chunks));
    let date = day.date;
    let check_in = day.check_in_time;
    let mut days: Vec<Day> = Vec::new();
    days.push(day);
    assert(days@ =~= seq![d0]);
    let entries = aggregate(&days);
    let mut s = String::new();
    s.append("# Log for: ");
    push_date(&mut s, &date);
    s.append("\n\n");
    let summary = project_summary(&entries);
    s.append(summary.as_str());
    s.append("\n\n");
    let details = detail_table(&check_in, &sorted);
    s.append(details.as_str());
    assert(s@ =~= day_report(d0));
    s
}

/// The report of week number `week` over the days given.
pub open spec fn numbered_week_report(week: nat, days: Seq<Day>) -> Seq<char> {
    "# Log for week: "@ + decimal(week) + "\n\n"@ + summary_text(project_times(days))
}

/// The report of week number `week` over the days given, as `numbered_week_report` says.
pub fn format_week_number(week: u32, days: &Vec<Day>) -> (r: String)
    requires
        days_wf(days@),
        chunk_total(days@) <= MAX_REPORT_CHUNKS,
    ensures
        r@ == numbered_week_report(week as nat, days@),
{
    let entries = aggregate(days);
    let mut s = String::new();
    s.append("# Log for week: ");
    push_decimal(&mut s, week as u64);
    s.append("\n\n");
    let summary = project_summary(&entries);
    s.append(summary.as_str());
    assert(s@ =~= numbered_week_report(week as nat, days@));
    s
}

/// The report of the week of `anchor` over the days given, as `week_report` says.
pub fn format_week(anchor: &Date, days: &Vec<Day>) -> (r: String)
    requires
        anchor.wf(),
        days_wf(days@),
        chunk_total(days@) <= MAX_REPORT_CHUNKS,
    ensures
        r@ == week_report(*anchor, days@),
{
    let week = match iso_week_number(anchor) {
        Some(w) => w,
        None => 0,
    };
    format_week_number(week, days)
}

/// The report of the month of `anchor` over the days given, as `month_report` says.
pub fn format_month(anchor: &Date, days: &Vec<Day>) -> (r: String)
    requires
        anchor.wf(),
        days_wf(days@),
        chunk_total(days@) <= MAX_REPORT_CHUNKS,
    ensures
        r@ == month_report(*anchor, days@),
{
    let entries = aggregate(days);
    let mut s = String::new();
    s.append("# Log for month: ");
    push_month(&mut s, anchor);
    s.append("\n\n");
    let summary = project_summary(&entries);
    s.append(summary.as_str());
    assert(s@ =~= month_report(*anchor, days@));
    s
}

proof fn lemma_no_chunks_no_times(e: Seq<(Seq<char>, int)>, days: Seq<Day>)
    requires
        forall|i: int| 0 <= i < days.len() ==> (#[trigger] days[i]).chunks@.len() == 0,
    ensures
        add_days(e, days) == e,
    decreases days.len(),
{
    if days.len() > 0 {
        assert(days[0].chunks@.len() == 0);
        assert(sort_by_end(days[0].chunks@) == days[0].chunks@);
        assert forall|i: int| 0 <= i < days.drop_first().len() implies (
        #[trigger] days.drop_first()[i]).chunks@.len() == 0 by {
            assert(days.drop_first()[i] == days[i + 1]);
        }
        lemma_no_chunks_no_times(e, days.drop_first());
    }
}

/// A summary over no chunks at all (no days, or days without chunks) is well formed and
/// empty: total and time without breaks are zero, and the only row is a zero `"break"`.
pub proof fn lemma_empty_summary(days: Seq<Day>)
    requires
        forall|i: int| 0 <= i < days.len() ==> (#[trigger] days[i]).chunks@.len() == 0,
    ensures
        project_times(days) == Seq::<(Seq<char>, int)>::empty(),
        work_minutes(project_times(days)) == 0,
        break_minutes(project_times(days)) == 0,
        summary_names(project_times(days)) == seq![break_name()],
        summary_texts(project_times(days)) == seq![duration_text(0)],
{
    lemma_no_chunks_no_times(Seq::empty(), days);
    let e = Seq::<(Seq<char>, int)>::empty();
    assert(work_names(e) == Seq::<Seq<char>>::empty());
    assert(summary_names(e) =~= seq![break_name()]);
    assert(summary_texts(e) =~= seq![duration_text(0)]);
}

/// Every date of the month of `date`, from the first on.
pub fn get_days_of_month(date: &Date) -> (r: Vec<Date>)
    requires
        date.wf(),
    ensures
        r@.len() == days_in_month(date.year as int, date.month as int),
        forall|k: int|
            0 <= k < r@.len() ==> #[trigger] r@[k] == (Date {
                year: date.year,
                month: date.month,
                day: (k + 1) as u32,
            }),
{
    let mut out: Vec<Date> = Vec::new();
    let mut d: u32 = 1;
    let ghost dim = days_in_month(date.year as int, date.month as int);
    while d <= 31
        invariant
            1 <= d <= 32,
            date.wf(),
            dim == days_in_month(date.year as int, date.month as int),
            28 <= dim <= 31,
            out@.len() == (if d - 1 < dim { d - 1 } else { dim }),
            forall|k: int|
                0 <= k < out@.len() ==> #[trigger] out@[k] == (Date {
                    year: date.year,
                    month: date.month,
                    day: (k + 1) as u32,
                }),
        decreases 32 - d,
    {
        if ymd_exists(date.year, date.month, d) {
            out.push(Date { year: date.year, month: date.month, day: d });
        }
        d = d + 1;
    }
    out
}

/// Up to seven days from `first` on, each the day after the one before; fewer where
/// the calendar ends first, none without a first day.
pub fn days_from(first: Option<Date>) -> (r: Vec<Date>)
    requires
        first matches Some(f) ==> f.wf(),
    ensures
        r@.len() <= 7,
        r@.len() == 0 <==> first is None,
        r@.len() > 0 ==> first == Some(r@[0]),
        forall|k: int| 0 <= k < r@.len() - 1 ==> day_after(#[trigger] r@[k]) == Some(r@[k + 1]),
        0 < r@.len() < 7 ==> day_after(r@.last()) is None,
        forall|k: int| 0 <= k < r@.len() ==> (#[trigger] r@[k]).wf(),
        first matches Some(f) ==> forall|k: nat| k < r@.len() ==> #[trigger] days_later(f, k) == Some(r@[k as int]),
        first matches Some(f) ==> days_later(f, r@.len()) is None || r@.len() == 7,
{
    let mut out: Vec<Date> = Vec::new();
    let mut cur = first;
    let mut i: usize = 0;
    while i < 7 && cur.is_some()
        invariant
            i <= 7,
            out@.len() == i,
            i == 0 ==> cur == first,
            i > 0 ==> first == Some(out@[0]),
            i > 0 ==> cur == day_after(out@.last()),
            cur matches Some(c) ==> c.wf(),
            forall|k: int| 0 <= k < out@.len() - 1 ==> day_after(#[trigger] out@[k]) == Some(
                out@[k + 1],
            ),
            forall|k: int| 0 <= k < out@.len() ==> (#[trigger] out@[k]).wf(),
            first matches Some(f) ==> forall|k: nat| k < out@.len() ==> #[trigger] days_later(f, k) == Some(out@[k as int]),
            first matches Some(f) ==> cur == days_later(f, i as nat),
        decreases 7 - i,
    {
        if let Some(d) = cur {
            out.push(d);
            cur = next_day(&d);
            proof {
                if first is Some {
                    let f = first->0;
                    assert(days_later(f, (i + 1) as nat) == day_after(d));
                }
            }
        }
        i = i + 1;
    }
    out
}

proof fn lemma_days_later_stays_none(d: Date, j: nat, k: nat)
    requires
        days_later(d, j) is None,
        j <= k,
    ensures
        days_later(d, k) is None,
    decreases k - j,
{
    if j < k {
        lemma_days_later_stays_none(d, j, (k - 1) as nat);
    }
}

/// The seven days from Monday to Sunday of the week of `anchor`, each the day after
/// the one before; fewer where the calendar ends before the week does.
pub fn week_dates(anchor: &Date) -> (r: Vec<Date>)
    requires
        anchor.wf(),
    ensures
        r@.len() <= 7,
        r@.len() == 0 <==> week_start_of(ymd(*anchor)) is None,
        r@.len() > 0 ==> week_start_of(ymd(*anchor)) == Some(ymd(r@[0])),
        forall|k: int| 0 <= k < r@.len() - 1 ==> day_after(#[trigger] r@[k]) == Some(r@[k + 1]),
        0 < r@.len() < 7 ==> day_after(r@.last()) is None,
        forall|k: int| 0 <= k < r@.len() ==> (#[trigger] r@[k]).wf(),
        r@.len() > 0 ==> r@.contains(*anchor),
{
    let first = week_start(anchor);
    let r = days_from(first);
    proof {
        if r@.len() > 0 {
            let f = first->0;
            let k = choose|k: nat| k < 7 && #[trigger] days_later(f, k) == Some(*anchor);
            if k >= r@.len() {
                lemma_days_later_stays_none(f, r@.len(), k);
            }
            assert(days_later(f, k) == Some(r@[k as int]));
        }
    }
    r
}

} // verus!
