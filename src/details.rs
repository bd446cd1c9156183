//! The detail table of a day: the check-in, then every chunk in order of end time.

use vstd::prelude::*;

use crate::clock::Time;
use crate::clock::push_time;
use crate::clock::time_text;
use crate::day::Chunk;
use crate::day::chunks_wf;
use crate::render::texts_view;
use crate::render::widest;
use crate::render::widest_of;
use crate::text::dashes;
use crate::text::pad_right;
use crate::text::push_dashes;
use crate::text::push_padded;

verus! {

/// The width of the time column: `- HH:MM`.
pub const TIME_WIDTH: usize = 7;

/// A chunk's description, empty where it has none.
pub open spec fn description_text(d: Option<String>) -> Seq<char> {
    match d {
        Some(t) => t@,
        None => Seq::empty(),
    }
}

/// A row of a table of three columns.
pub open spec fn line3(t: Seq<char>, p: Seq<char>, d: Seq<char>, wp: nat, wd: nat) -> Seq<char> {
    "| "@ + pad_right(t, TIME_WIDTH as nat) + " | "@ + pad_right(p, wp) + " | "@ + pad_right(d, wd)
        + " |"@
}

/// The projects of the chunks.
pub open spec fn projects_of(s: Seq<Chunk>) -> Seq<Seq<char>> {
    s.map_values(|c: Chunk| c.project@)
}

/// The descriptions of the chunks.
pub open spec fn descriptions_of(s: Seq<Chunk>) -> Seq<Seq<char>> {
    s.map_values(|c: Chunk| description_text(c.description))
}

/// The rows of the first `n` chunks, each on a line of its own.
pub open spec fn chunk_lines(s: Seq<Chunk>, n: nat, wp: nat, wd: nat) -> Seq<char>
    decreases n,
{
    if n == 0 {
        Seq::empty()
    } else {
        let c = s[n - 1];
        chunk_lines(s, (n - 1) as nat, wp, wd) + "\n"@ + line3(
            "- "@ + time_text(c.end_time),
            c.project@,
            description_text(c.description),
            wp,
            wd,
        )
    }
}

/// The detail table of chunks `s` after a check-in at `check_in`: a header, a rule, the
/// check-in row and a row per chunk, in the order of `s`. The project and description
/// columns are as wide as their widest cell or header.
#[verifier::opaque]
pub open spec fn detail_text(check_in: Time, s: Seq<Chunk>) -> Seq<char> {
    let wp = widest(projects_of(s), "check-in"@.len());
    let wd = widest(descriptions_of(s), "description"@.len());
    "## details\n\n"@ + line3("time"@, "project"@, "description"@, wp, wd) + "\n|---------|-"@
        + dashes(wp) + "-|-"@ + dashes(wd) + "-|\n"@ + line3(
        time_text(check_in),
        "check-in"@,
        Seq::empty(),
        wp,
        wd,
    ) + chunk_lines(s, s.len(), wp, wd)
}

/// Appends a row of a table of three columns.
fn push_line3(s: &mut String, t: &str, p: &str, d: &str, wp: usize, wd: usize)
    ensures
        final(s)@ == old(s)@ + line3(t@, p@, d@, wp as nat, wd as nat),
{
    s.append("| ");
    push_padded(s, t, TIME_WIDTH);
    s.append(" | ");
    push_padded(s, p, wp);
    s.append(" | ");
    push_padded(s, d, wd);
    s.append(" |");
    assert(final(s)@ =~= old(s)@ + line3(t@, p@, d@, wp as nat, wd as nat));
}

/// One column of the chunks' cells: their descriptions (empty where there is none)
/// where `descriptions`, else their projects.
fn column(chunks: &Vec<Chunk>, descriptions: bool) -> (r: Vec<String>)
    ensures
        texts_view(r@) == (if descriptions {
            descriptions_of(chunks@)
        } else {
            projects_of(chunks@)
        }),
{
    let ghost v = if descriptions {
        descriptions_of(chunks@)
    } else {
        projects_of(chunks@)
    };
    let mut r: Vec<String> = Vec::new();
    let mut i: usize = 0;
    while i < chunks.len()
        invariant
            i <= chunks@.len(),
            v == (if descriptions {
                descriptions_of(chunks@)
            } else {
                projects_of(chunks@)
            }),
            texts_view(r@) == v.take(i as int),
        decreases chunks@.len() - i,
    {
        let cell = if descriptions {
            match &chunks[i].description {
                Some(d) => d.clone(),
                None => {
                    let e = String::new();
                    assert(e@ =~= Seq::<char>::empty());
                    e
                },
            }
        } else {
            chunks[i].project.clone()
        };
        assert(cell@ == v[i as int]);
        let ghost before = r@;
        let ghost cv = cell@;
        r.push(cell);
        assert(texts_view(r@) =~= texts_view(before).push(cv));
        assert(v.take(i + 1) =~= v.take(i as int).push(v[i as int]));
        i = i + 1;
    }
    assert(v.take(i as int) =~= v);
    r
}

/// Appends the rows of the chunks.
fn push_chunk_lines(s: &mut String, chunks: &Vec<Chunk>, wp: usize, wd: usize)
    requires
        chunks_wf(chunks@),
    ensures
        final(s)@ == old(s)@ + chunk_lines(chunks@, chunks@.len(), wp as nat, wd as nat),
{
    let mut i: usize = 0;
    assert(old(s)@ =~= old(s)@ + chunk_lines(chunks@, 0, wp as nat, wd as nat));
    while i < chunks.len()
        invariant
            i <= chunks@.len(),
            chunks_wf(chunks@),
            s@ == old(s)@ + chunk_lines(chunks@, i as nat, wp as nat, wd as nat),
        decreases chunks@.len() - i,
    {
        let c = &chunks[i];
        assert(chunks@[i as int].end_time.wf());
        let mut t = String::new();
        t.append("- ");
        push_time(&mut t, &c.end_time);
        s.append("\n");
        let empty = String::new();
        let d = match &c.description {
            Some(d) => d,
            None => &empty,
        };
        push_line3(s, t.as_str(), c.project.as_str(), d.as_str(), wp, wd);
        i = i + 1;
        assert(s@ =~= old(s)@ + chunk_lines(chunks@, i as nat, wp as nat, wd as nat));
    }
}

/// The detail table of the chunks after a check-in, as `detail_text` says.
pub fn detail_table(check_in: &Time, chunks: &Vec<Chunk>) -> (r: String)
    requires
        check_in.wf(),
        chunks_wf(chunks@),
    ensures
        r@ == detail_text(*check_in, chunks@),
{
    let wp = widest_of(&column(chunks, false), "check-in".unicode_len());
    let wd = widest_of(&column(chunks, true), "description".unicode_len());
    let mut s = String::new();
    s.append("## details\n\n");
    push_line3(&mut s, "time", "project", "description", wp, wd);
    s.append("\n|---------|-");
    push_dashes(&mut s, wp);
    s.append("-|-");
    push_dashes(&mut s, wd);
    s.append("-|\n");
    let mut t = String::new();
    push_time(&mut t, check_in);
    push_line3(&mut s, t.as_str(), "check-in", "", wp, wd);
    push_chunk_lines(&mut s, chunks, wp, wd);
    proof {
        reveal(detail_text);
        assert(""@ =~= Seq::<char>::empty()) by {
            reveal_strlit("");
        }
    }
    assert(s@ =~= detail_text(*check_in, chunks@));
    s
}

} // verus!
