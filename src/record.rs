//! The stored form of a day: its date and times as text, the rest as it is.

use vstd::prelude::*;

use crate::clock::date_text;
use crate::clock::time_text;
use crate::commands::CommandExecutionError;
use crate::date_format;
use crate::date_format::date_from_text;
use crate::date_format::lemma_date_round_trip;
use crate::day::Chunk;
use crate::day::Day;
use crate::time_format;
use crate::time_format::lemma_time_round_trip;
use crate::time_format::time_from_text;

verus! {

/// A stored chunk: its end time as `HH:MM`.
#[derive(Debug)]
pub struct ChunkRecord {
    pub project: String,
    pub description: Option<String>,
    pub end_time: String,
}

/// A stored day: its date as `YYYY-MM-DD` and its check-in time as `HH:MM`.
#[derive(Debug)]
pub struct DayRecord {
    pub date: String,
    pub check_in_time: String,
    pub chunks: Vec<ChunkRecord>,
}

/// `rec` is the stored form of `c`.
pub open spec fn chunk_encodes(rec: ChunkRecord, c: Chunk) -> bool {
    &&& rec.project == c.project
    &&& rec.description == c.description
    &&& rec.end_time@ == time_text(c.end_time)
}

/// `rec` is the stored form of `day`.
pub open spec fn encodes(rec: DayRecord, day: Day) -> bool {
    &&& rec.date@ == date_text(day.date)
    &&& rec.check_in_time@ == time_text(day.check_in_time)
    &&& rec.chunks@.len() == day.chunks@.len()
    &&& forall|i: int|
        0 <= i < rec.chunks@.len() ==> chunk_encodes(#[trigger] rec.chunks@[i], day.chunks@[i])
}

/// Every text of `rec` is in its stored shape.
pub open spec fn readable(rec: DayRecord) -> bool {
    &&& date_from_text(rec.date@) is Some
    &&& time_from_text(rec.check_in_time@) is Some
    &&& forall|i: int|
        0 <= i < rec.chunks@.len() ==> time_from_text((#[trigger] rec.chunks@[i]).end_time@) is Some
}

/// `c` is what the stored chunk `rec` reads as.
pub open spec fn chunk_decodes(rec: ChunkRecord, c: Chunk) -> bool {
    &&& c.project == rec.project
    &&& c.description == rec.description
    &&& time_from_text(rec.end_time@) == Some(c.end_time)
}

/// `day` is what the stored day `rec` reads as.
pub open spec fn decodes(rec: DayRecord, day: Day) -> bool {
    &&& date_from_text(rec.date@) == Some(day.date)
    &&& time_from_text(rec.check_in_time@) == Some(day.check_in_time)
    &&& day.chunks@.len() == rec.chunks@.len()
    &&& forall|i: int|
        0 <= i < rec.chunks@.len() ==> chunk_decodes(#[trigger] rec.chunks@[i], day.chunks@[i])
}

/// The stored form of a day.
pub fn encode_day(day: &Day) -> (r: DayRecord)
    requires
        day.wf(),
    ensures
        encodes(r, *day),
{
    let mut chunks: Vec<ChunkRecord> = Vec::new();
    let mut i: usize = 0;
    while i < day.chunks.len()
        invariant
            i <= day.chunks@.len(),
            day.wf(),
            chunks@.len() == i,
            forall|k: int|
                0 <= k < i ==> chunk_encodes(#[trigger] chunks@[k], day.chunks@[k]),
        decreases day.chunks@.len() - i,
    {
        let c = day.chunks[i].duplicate();
        assert(day.chunks@[i as int].end_time.wf());
        let end_time = time_format::serialize(&c.end_time);
        chunks.push(ChunkRecord { project: c.project, description: c.description, end_time });
        i = i + 1;
    }
    DayRecord {
        date: date_format::serialize(&day.date),
        check_in_time: time_format::serialize(&day.check_in_time),
        chunks,
    }
}

/// The day that a stored day reads as; an error where a date or time is not in its
/// stored shape.
pub fn decode_day(rec: DayRecord) -> (r: Result<Day, CommandExecutionError>)
    ensures
        r is Ok <==> readable(rec),
        r matches Ok(d) ==> decodes(rec, d) && d.wf(),
        r is Err ==> r matches Err(CommandExecutionError::InvalidJsonFormat(_)),
{
    let ghost orig = rec;
    let DayRecord { date: date_text_in, check_in_time: time_text_in, chunks: mut rest } = rec;
    let date = match date_format::deserialize(date_text_in.as_str()) {
        Some(d) => d,
        None => {
            return Err(CommandExecutionError::InvalidJsonFormat(String::from_str("invalid date")));
        },
    };
    let check_in_time = match time_format::deserialize(time_text_in.as_str()) {
        Some(t) => t,
        None => {
            return Err(
                CommandExecutionError::InvalidJsonFormat(String::from_str("invalid check-in time")),
            );
        },
    };
    let n = rest.len();
    let mut chunks: Vec<Chunk> = Vec::new();
    let ghost all = rest@;
    let mut i: usize = 0;
    while rest.len() > 0
        invariant
            all == orig.chunks@,
            orig == rec,
            n == all.len(),
            i + rest@.len() == all.len(),
            rest@ == all.skip(i as int),
            chunks@.len() == i,
            forall|k: int| 0 <= k < i ==> chunk_decodes(#[trigger] all[k], chunks@[k]),
            forall|k: int| 0 <= k < i ==> time_from_text((#[trigger] all[k]).end_time@) is Some,
        decreases rest@.len(),
    {
        let c = rest.remove(0);
        assert(c == all[i as int]);
        let end_time = match time_format::deserialize(c.end_time.as_str()) {
            Some(t) => t,
            None => {
                assert(time_from_text(orig.chunks@[i as int].end_time@) is None);
                assert(!readable(orig));
                return Err(
                    CommandExecutionError::InvalidJsonFormat(String::from_str("invalid end time")),
                );
            },
        };
        chunks.push(Chunk { project: c.project, description: c.description, end_time });
        i = i + 1;
    }
    let day = Day { date, check_in_time, chunks };
    proof {
        crate::date_format::lemma_date_text_canonical(orig.date@);
        assert forall|k: int| 0 <= k < day.chunks@.len() implies (#[trigger] day.chunks@[k]).end_time.wf() by {
            assert(chunk_decodes(all[k], day.chunks@[k]));
        }
    }
    Ok(day)
}

/// Storing a day and reading it back gives the same day, field for field: for any day,
/// with or without chunks, and with descriptions present, absent or empty.
pub proof fn lemma_day_round_trip(day: Day, rec: DayRecord, back: Day)
    requires
        day.wf(),
        encodes(rec, day),
        decodes(rec, back),
    ensures
        readable(rec),
        back.date == day.date,
        back.check_in_time == day.check_in_time,
        back.chunks@ == day.chunks@,
{
    lemma_date_round_trip(day.date);
    lemma_time_round_trip(day.check_in_time);
    assert forall|i: int| 0 <= i < rec.chunks@.len() implies time_from_text(
        (#[trigger] rec.chunks@[i]).end_time@,
    ) == Some(day.chunks@[i].end_time) by {
        assert(chunk_encodes(rec.chunks@[i], day.chunks@[i]));
        lemma_time_round_trip(day.chunks@[i].end_time);
    }
    assert forall|i: int| 0 <= i < rec.chunks@.len() implies back.chunks@[i] == day.chunks@[i] by {
        assert(chunk_encodes(rec.chunks@[i], day.chunks@[i]));
        assert(chunk_decodes(rec.chunks@[i], back.chunks@[i]));
    }
    assert(back.chunks@ =~= day.chunks@);
}

} // verus!
