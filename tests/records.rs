use chron::clock::Date;
use chron::clock::Time;
use chron::commands::CommandExecutionError;
use chron::date_format;
use chron::day::Chunk;
use chron::day::Day;
use chron::record::decode_day;
use chron::record::encode_day;
use chron::record::ChunkRecord;
use chron::record::DayRecord;
use chron::time_format;

#[test]
fn times_are_stored_as_hh_mm() {
    assert_eq!(time_format::serialize(&Time { hour: 8, minute: 6 }), "08:06");
    assert_eq!(time_format::serialize(&Time { hour: 23, minute: 59 }), "23:59");
    assert_eq!(time_format::deserialize("08:06"), Some(Time { hour: 8, minute: 6 }));
    assert_eq!(time_format::deserialize("00:00"), Some(Time { hour: 0, minute: 0 }));
    assert_eq!(time_format::deserialize("8:06"), None);
    assert_eq!(time_format::deserialize("24:00"), None);
    assert_eq!(time_format::deserialize("12:60"), None);
    assert_eq!(time_format::deserialize("12-30"), None);
    assert_eq!(time_format::deserialize(""), None);
}

#[test]
fn dates_are_stored_as_yyyy_mm_dd() {
    let d = Date { year: 2023, month: 11, day: 17 };
    assert_eq!(date_format::serialize(&d), "2023-11-17");
    assert_eq!(date_format::deserialize("2023-11-17"), Some(d));
    assert_eq!(date_format::serialize(&Date { year: 7, month: 1, day: 2 }), "0007-01-02");
    assert_eq!(date_format::serialize(&Date { year: 12345, month: 1, day: 2 }), "+12345-01-02");
    assert_eq!(date_format::serialize(&Date { year: -44, month: 3, day: 15 }), "-0044-03-15");
    assert_eq!(
        date_format::deserialize("+12345-01-02"),
        Some(Date { year: 12345, month: 1, day: 2 })
    );
    assert_eq!(
        date_format::deserialize("-0044-03-15"),
        Some(Date { year: -44, month: 3, day: 15 })
    );
    assert_eq!(date_format::deserialize("2023-02-29"), None);
    assert_eq!(date_format::deserialize("2024-02-29"), Some(Date { year: 2024, month: 2, day: 29 }));
    assert_eq!(date_format::deserialize("23-11-17"), None);
    assert_eq!(date_format::deserialize("02023-11-17"), None);
    assert_eq!(date_format::deserialize("2023-13-01"), None);
    assert_eq!(date_format::deserialize("2023/11/17"), None);
}

fn sample() -> Day {
    Day {
        date: Date { year: 2023, month: 11, day: 17 },
        check_in_time: Time { hour: 8, minute: 6 },
        chunks: vec![
            Chunk {
                project: "kyoshi".to_string(),
                description: Some("answer messages".to_string()),
                end_time: Time { hour: 8, minute: 45 },
            },
            Chunk { project: "break".to_string(), description: None, end_time: Time { hour: 9, minute: 15 } },
            Chunk {
                project: "korra".to_string(),
                description: Some(String::new()),
                end_time: Time { hour: 9, minute: 0 },
            },
        ],
    }
}

#[test]
fn a_day_reads_back_as_stored() {
    let day = sample();
    let rec = encode_day(&day);
    assert_eq!(rec.date, "2023-11-17");
    assert_eq!(rec.check_in_time, "08:06");
    assert_eq!(rec.chunks[0].end_time, "08:45");
    assert_eq!(rec.chunks[2].description.as_deref(), Some(""));
    let back = decode_day(rec).unwrap();
    assert_eq!(back.date, day.date);
    assert_eq!(back.check_in_time, day.check_in_time);
    assert_eq!(back.chunks.len(), day.chunks.len());
    for (a, b) in back.chunks.iter().zip(day.chunks.iter()) {
        assert_eq!(a.project, b.project);
        assert_eq!(a.description, b.description);
        assert_eq!(a.end_time, b.end_time);
    }

    let empty = Day::new(Date { year: 2024, month: 2, day: 29 }, Time { hour: 0, minute: 0 });
    let back = decode_day(encode_day(&empty)).unwrap();
    assert_eq!(back.date, empty.date);
    assert!(back.chunks.is_empty());
}

#[test]
fn malformed_records_are_refused() {
    let rec = DayRecord {
        date: "2023-11-17".to_string(),
        check_in_time: "8:06".to_string(),
        chunks: vec![],
    };
    assert!(matches!(decode_day(rec), Err(CommandExecutionError::InvalidJsonFormat(_))));
    let rec = DayRecord {
        date: "17.11.2023".to_string(),
        check_in_time: "08:06".to_string(),
        chunks: vec![],
    };
    assert!(matches!(decode_day(rec), Err(CommandExecutionError::InvalidJsonFormat(_))));
    let rec = DayRecord {
        date: "2023-11-17".to_string(),
        check_in_time: "08:06".to_string(),
        chunks: vec![ChunkRecord {
            project: "kyoshi".to_string(),
            description: None,
            end_time: "9 o'clock".to_string(),
        }],
    };
    assert!(matches!(decode_day(rec), Err(CommandExecutionError::InvalidJsonFormat(_))));
}
