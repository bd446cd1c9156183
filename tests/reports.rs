use chron::clock::Date;
use chron::clock::Time;
use chron::day::Chunk;
use chron::day::Day;
use chron::render::format_duration;
use chron::report::aggregate;
use chron::reporting::format_day;
use chron::reporting::format_month;
use chron::reporting::format_week;
use chron::reporting::get_days_of_month;
use chron::reporting::week_dates;

fn time(hour: u32, minute: u32) -> Time {
    Time { hour, minute }
}

fn chunk(project: &str, description: Option<&str>, end: Time) -> Chunk {
    Chunk {
        project: project.to_string(),
        description: description.map(|d| d.to_string()),
        end_time: end,
    }
}

fn sample_day() -> Day {
    Day {
        date: Date { year: 2023, month: 11, day: 17 },
        check_in_time: time(8, 6),
        chunks: vec![
            chunk("kyoshi", Some("answer messages from colleagues"), time(8, 45)),
            chunk("break", Some("coffee break"), time(9, 15)),
            chunk("kyoshi", Some("develop feature #123"), time(11, 23)),
            chunk("kyoshi", None, time(11, 55)),
            chunk("break", Some("lunch break"), time(12, 43)),
            chunk("lake laogai", Some("answer emails"), time(13, 00)),
            chunk("korra", Some("daily scrum"), time(9, 00)),
            chunk("korra", Some("refinement meeting"), time(14, 00)),
            chunk("kyoshi", Some("develop feature #123"), time(16, 34)),
        ],
    }
}

const SAMPLE_REPORT: &str = "\
# Log for: 2023-11-17

## summary

- total amount of work: 8.47h (8h 28m)
- without breaks: 7.42h (7h 25m)

| project     | time           |
|-------------|----------------|
| korra       | 1.25h (1h 15m) |
| kyoshi      | 5.88h (5h 53m) |
| lake laogai | 0.28h (0h 17m) |
| break       | 1.05h (1h 3m)  |

## details

| time    | project     | description                     |
|---------|-------------|---------------------------------|
| 08:06   | check-in    |                                 |
| - 08:45 | kyoshi      | answer messages from colleagues |
| - 09:00 | korra       | daily scrum                     |
| - 09:15 | break       | coffee break                    |
| - 11:23 | kyoshi      | develop feature #123            |
| - 11:55 | kyoshi      |                                 |
| - 12:43 | break       | lunch break                     |
| - 13:00 | lake laogai | answer emails                   |
| - 14:00 | korra       | refinement meeting              |
| - 16:34 | kyoshi      | develop feature #123            |";

#[test]
fn logging_test_format_day() {
    assert_eq!(SAMPLE_REPORT, format_day(sample_day()));
}

#[test]
fn reporting_test_format_day() {
    assert_eq!(SAMPLE_REPORT, format_day(sample_day()));
}

#[test]
fn test_get_days_of_month() {
    // January
    let result = get_days_of_month(&Date { year: 2021, month: 1, day: 23 });
    assert_eq!(result.len(), 31);
    assert_eq!(result[0], Date { year: 2021, month: 1, day: 1 });
    assert_eq!(result[30], Date { year: 2021, month: 1, day: 31 });

    // February
    let result = get_days_of_month(&Date { year: 2021, month: 2, day: 23 });
    assert_eq!(result.len(), 28);
    assert_eq!(result[0], Date { year: 2021, month: 2, day: 1 });
    assert_eq!(result[27], Date { year: 2021, month: 2, day: 28 });

    // February leap year
    let result = get_days_of_month(&Date { year: 2020, month: 2, day: 23 });
    assert_eq!(result.len(), 29);
    assert_eq!(result[0], Date { year: 2020, month: 2, day: 1 });
    assert_eq!(result[28], Date { year: 2020, month: 2, day: 29 });

    // March
    let result = get_days_of_month(&Date { year: 2021, month: 3, day: 23 });
    assert_eq!(result.len(), 31);
    assert_eq!(result[0], Date { year: 2021, month: 3, day: 1 });
    assert_eq!(result[30], Date { year: 2021, month: 3, day: 31 });

    // April
    let result = get_days_of_month(&Date { year: 2021, month: 4, day: 23 });
    assert_eq!(result.len(), 30);
    assert_eq!(result[0], Date { year: 2021, month: 4, day: 1 });
    assert_eq!(result[29], Date { year: 2021, month: 4, day: 30 });
}

#[test]
fn durations_render_decimal_and_whole_hours() {
    assert_eq!(format_duration(75), "1.25h (1h 15m)");
    assert_eq!(format_duration(0), "0.00h (0h 0m)");
    assert_eq!(format_duration(1), "0.02h (0h 1m)");
    assert_eq!(format_duration(2), "0.03h (0h 2m)");
    assert_eq!(format_duration(167), "2.78h (2h 47m)");
    assert_eq!(format_duration(197), "3.28h (3h 17m)");
    assert_eq!(format_duration(30), "0.50h (0h 30m)");
    assert_eq!(format_duration(6000), "100.00h (100h 0m)");
    assert_eq!(format_duration(-90), "-1.50h (-1h -30m)");
    assert_eq!(format_duration(-30), "-0.50h (0h -30m)");
}

#[test]
fn end_to_end_day_totals() {
    let day = Day {
        date: Date { year: 2023, month: 11, day: 17 },
        check_in_time: time(8, 6),
        chunks: vec![
            chunk("kyoshi", Some("answer messages"), time(8, 45)),
            chunk("break", Some("coffee break"), time(9, 15)),
            chunk("kyoshi", None, time(11, 23)),
        ],
    };
    let entries = aggregate(&vec![day]);
    assert_eq!(entries.len(), 2);
    assert_eq!(entries[0].project, "break");
    assert_eq!(entries[0].minutes, 30);
    assert_eq!(entries[1].project, "kyoshi");
    assert_eq!(entries[1].minutes, 167);
    let report = chron::render::project_summary(&entries);
    assert!(report.contains("- total amount of work: 3.28h (3h 17m)"));
    assert!(report.contains("- without breaks: 2.78h (2h 47m)"));
    assert!(report.contains("| kyoshi  | 2.78h (2h 47m) |"));
    assert!(report.contains("| break   | 0.50h (0h 30m) |"));
}

#[test]
fn empty_week_and_month_reports() {
    let anchor = Date { year: 2023, month: 11, day: 17 };
    let empty_summary = "## summary

- total amount of work: 0.00h (0h 0m)
- without breaks: 0.00h (0h 0m)

| project | time          |
|---------|---------------|
| break   | 0.00h (0h 0m) |";
    assert_eq!(
        format_week(&anchor, &vec![]),
        format!("# Log for week: 46\n\n{empty_summary}")
    );
    assert_eq!(
        format_month(&anchor, &vec![]),
        format!("# Log for month: 2023-11\n\n{empty_summary}")
    );
    let checked_in_only = Day { date: anchor, check_in_time: time(8, 0), chunks: vec![] };
    assert_eq!(
        format_week(&anchor, &vec![checked_in_only]),
        format!("# Log for week: 46\n\n{empty_summary}")
    );
}

#[test]
fn week_report_sums_over_days() {
    let anchor = Date { year: 2023, month: 11, day: 15 };
    let monday = Day {
        date: Date { year: 2023, month: 11, day: 13 },
        check_in_time: time(9, 0),
        chunks: vec![chunk("korra", None, time(10, 30))],
    };
    let friday = Day {
        date: Date { year: 2023, month: 11, day: 17 },
        check_in_time: time(8, 0),
        chunks: vec![chunk("korra", None, time(8, 45)), chunk("break", None, time(9, 0))],
    };
    let report = format_week(&anchor, &vec![monday, friday]);
    assert!(report.starts_with("# Log for week: 46\n\n## summary\n\n"));
    assert!(report.contains("- total amount of work: 2.50h (2h 30m)"));
    assert!(report.contains("- without breaks: 2.25h (2h 15m)"));
    assert!(report.contains("| korra   | 2.25h (2h 15m) |"));
}

#[test]
fn week_dates_run_monday_to_sunday() {
    let dates = week_dates(&Date { year: 2023, month: 11, day: 17 });
    assert_eq!(dates.len(), 7);
    assert_eq!(dates[0], Date { year: 2023, month: 11, day: 13 });
    assert_eq!(dates[6], Date { year: 2023, month: 11, day: 19 });

    let dates = week_dates(&Date { year: 2021, month: 1, day: 1 });
    assert_eq!(dates[0], Date { year: 2020, month: 12, day: 28 });
    assert_eq!(dates[3], Date { year: 2020, month: 12, day: 31 });
    assert_eq!(dates[4], Date { year: 2021, month: 1, day: 1 });
    assert_eq!(dates[6], Date { year: 2021, month: 1, day: 3 });
}

#[test]
fn week_number_of_year_boundary() {
    let anchor = Date { year: 2021, month: 1, day: 1 };
    assert!(format_week(&anchor, &vec![]).starts_with("# Log for week: 53\n"));
}

#[test]
fn retro_tracked_chunk_sorts_into_place() {
    let day = Day {
        date: Date { year: 2023, month: 11, day: 17 },
        check_in_time: time(8, 0),
        chunks: vec![chunk("kyoshi", None, time(12, 0)), chunk("korra", Some("scrum"), time(9, 0))],
    };
    let report = format_day(day);
    let korra = report.find("| - 09:00 | korra").unwrap();
    let kyoshi = report.find("| - 12:00 | kyoshi").unwrap();
    assert!(korra < kyoshi);
    assert!(report.contains("| korra   | 1.00h (1h 0m) |"));
    assert!(report.contains("| kyoshi  | 3.00h (3h 0m) |"));
}

#[test]
fn aggregation_ignores_insertion_order() {
    let make = |order: &[usize]| {
        let all = [
            chunk("kyoshi", None, time(9, 0)),
            chunk("korra", None, time(10, 15)),
            chunk("break", None, time(10, 45)),
            chunk("kyoshi", None, time(12, 0)),
        ];
        Day {
            date: Date { year: 2023, month: 11, day: 17 },
            check_in_time: time(8, 30),
            chunks: order
                .iter()
                .map(|&i| Chunk {
                    project: all[i].project.clone(),
                    description: None,
                    end_time: all[i].end_time,
                })
                .collect(),
        }
    };
    let a = aggregate(&vec![make(&[0, 1, 2, 3])]);
    let b = aggregate(&vec![make(&[3, 1, 0, 2])]);
    let view = |v: &Vec<chron::report::ProjectTime>| {
        v.iter().map(|e| (e.project.clone(), e.minutes)).collect::<Vec<_>>()
    };
    assert_eq!(view(&a), view(&b));
    assert_eq!(
        view(&a),
        vec![
            ("break".to_string(), 30),
            ("korra".to_string(), 75),
            ("kyoshi".to_string(), 105)
        ]
    );
}

#[test]
fn days_from_a_first_day() {
    let dates = chron::reporting::days_from(Some(Date { year: 2024, month: 2, day: 27 }));
    assert_eq!(
        dates,
        vec![
            Date { year: 2024, month: 2, day: 27 },
            Date { year: 2024, month: 2, day: 28 },
            Date { year: 2024, month: 2, day: 29 },
            Date { year: 2024, month: 3, day: 1 },
            Date { year: 2024, month: 3, day: 2 },
            Date { year: 2024, month: 3, day: 3 },
            Date { year: 2024, month: 3, day: 4 },
        ]
    );
    assert!(chron::reporting::days_from(None).is_empty());
    let dates = chron::reporting::days_from(Some(Date { year: 2023, month: 12, day: 30 }));
    assert_eq!(dates[2], Date { year: 2024, month: 1, day: 1 });
}

#[test]
fn numbered_week_report_heading() {
    let text = chron::reporting::format_week_number(7, &vec![]);
    assert!(text.starts_with("# Log for week: 7\n\n## summary\n"));
}

#[test]
fn week_dates_hold_the_anchor() {
    for day in 1..=30 {
        let anchor = Date { year: 2023, month: 11, day };
        let dates = week_dates(&anchor);
        assert_eq!(dates.len(), 7);
        assert!(dates.contains(&anchor));
    }
}
