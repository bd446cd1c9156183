//! Days, the chunks of time tracked in them, and the rules for adding a chunk.

use vstd::prelude::*;

use crate::clock::Date;
use crate::clock::Time;

verus! {

/// The project name that stands for a break; it is valid without being registered.
pub open spec fn break_name() -> Seq<char> {
    seq!['b', 'r', 'e', 'a', 'k']
}

/// The text `"break"`.
pub fn break_project() -> (r: String)
    ensures
        r@ == break_name(),
{
    proof {
        reveal_strlit("break");
    }
    let r = String::from_str("break");
    assert(r@ =~= break_name());
    r
}

/// A span of time spent on a project, or on a break, that ends at `end_time`.
/// It starts where the chunk before it ends, or at the check-in.
#[derive(Debug)]
pub struct Chunk {
    pub project: String,
    pub description: Option<String>,
    pub end_time: Time,
}

impl Chunk {
    /// A copy of the chunk.
    pub fn duplicate(&self) -> (r: Chunk)
        ensures
            r == *self,
    {
        let description = match &self.description {
            Some(d) => Some(d.clone()),
            None => None,
        };
        Chunk { project: self.project.clone(), description, end_time: self.end_time }
    }
}

/// The activity of one calendar day: when work started, and the chunks tracked since,
/// in the order in which they were added.
#[derive(Debug)]
pub struct Day {
    pub date: Date,
    pub check_in_time: Time,
    pub chunks: Vec<Chunk>,
}

/// Every chunk ends at a time of day.
pub open spec fn chunks_wf(s: Seq<Chunk>) -> bool {
    forall|i: int| 0 <= i < s.len() ==> (#[trigger] s[i]).end_time.wf()
}

impl Day {
    pub open spec fn wf(&self) -> bool {
        &&& self.date.wf()
        &&& self.check_in_time.wf()
        &&& chunks_wf(self.chunks@)
    }

    /// A day that starts with a check-in and has no chunks yet.
    pub fn new(date: Date, check_in_time: Time) -> (r: Day)
        ensures
            r.date == date,
            r.check_in_time == check_in_time,
            r.chunks@.len() == 0,
    {
        Day { date, check_in_time, chunks: Vec::new() }
    }
}

} // verus!
