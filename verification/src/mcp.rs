//! What the MCP server's tools (`search_notes`, `read_note`, `append_note`)
//! answer, and the same plain-text answers of `pen` and `pen search`.
use vstd::prelude::*;

use crate::date::{chrono_ymd, parse_ymd, ymd_text, Date};
use crate::notes::{AppendOutcome, NotesError};
use crate::notes::search::SearchHit;
use crate::text::{decimal, decimal_spec, join_spec, push_str};

verus! {

broadcast use vstd::string::group_string_axioms;

/// The MCP server: where the notes are and the merge window for appends.
pub struct PenMcp {
    pub notes_dir: String,
    pub merge_window_minutes: u32,
}

impl PenMcp {
    /// A server for the notes under `notes_dir`.
    pub fn new(notes_dir: String, merge_window_minutes: u32) -> (s: PenMcp)
        ensures
            s.notes_dir == notes_dir,
            s.merge_window_minutes == merge_window_minutes,
    {
        PenMcp { notes_dir, merge_window_minutes }
    }
}

/// A tool's answer: its text and whether it reports a failure.
#[derive(Debug)]
pub struct ToolReply {
    pub text: String,
    pub is_error: bool,
}

/// One search hit as a line: `<path>:<line number>: <line>`.
pub open spec fn hit_line_spec(h: SearchHit) -> Seq<char> {
    h.path@ + ":"@ + decimal_spec(h.line_number as nat) + ": "@ + h.line@
}

/// The hits one per line, or `no matches` when there are none.
pub open spec fn hits_text_spec(hits: Seq<SearchHit>) -> Seq<char> {
    if hits.len() == 0 {
        "no matches"@
    } else {
        join_spec(hits.map_values(|h: SearchHit| hit_line_spec(h)), "\n"@)
    }
}

fn hit_line(h: &SearchHit) -> (r: String)
    ensures
        r@ == hit_line_spec(*h),
{
    let mut r = h.path.clone();
    push_str(&mut r, ":");
    let n = decimal(h.line_number as u64);
    push_str(&mut r, n.as_str());
    push_str(&mut r, ": ");
    push_str(&mut r, h.line.as_str());
    r
}

/// The hits as `pen search` prints them and `search_notes` answers them.
pub fn hits_text(hits: &Vec<SearchHit>) -> (r: String)
    ensures
        r@ == hits_text_spec(hits@),
{
    if hits.len() == 0 {
        return "no matches".to_string();
    }
    let mut r = String::new();
    let mut i: usize = 0;
    while i < hits.len()
        invariant
            0 <= i <= hits@.len(),
            hits@.len() > 0,
            r@ == (if i == 0 {
                Seq::<char>::empty()
            } else {
                join_spec(hits@.take(i as int).map_values(|h: SearchHit| hit_line_spec(h)), "\n"@)
            }),
        decreases hits@.len() - i,
    {
        let line = hit_line(&hits[i]);
        if i > 0 {
            push_str(&mut r, "\n");
        }
        push_str(&mut r, line.as_str());
        proof {
            let prev = hits@.take(i as int).map_values(|h: SearchHit| hit_line_spec(h));
            let next = hits@.take(i + 1).map_values(|h: SearchHit| hit_line_spec(h));
            assert(next == prev.push(hit_line_spec(hits@[i as int])));
            if i > 0 {
                assert(next.drop_last() == prev);
            } else {
                assert(next.drop_last() =~= Seq::<Seq<char>>::empty());
            }
        }
        i += 1;
    }
    assert(hits@.take(hits@.len() as int) == hits@);
    r
}

/// `search_notes`: the hits, or the error's text as a failure.
pub fn search_notes_reply(result: &Result<Vec<SearchHit>, NotesError>) -> (r: ToolReply)
    ensures
        match result {
            Ok(hits) => !r.is_error && r.text@ == hits_text_spec(hits@),
            Err(e) => r.is_error && r.text@ == e.message_spec(),
        },
{
    match result {
        Ok(hits) => ToolReply { text: hits_text(hits), is_error: false },
        Err(e) => ToolReply { text: e.message(), is_error: true },
    }
}

/// The refusal of a `read_note` date that is not `YYYY-MM-DD`.
pub open spec fn bad_date_text() -> Seq<char> {
    "date must be formatted as YYYY-MM-DD"@
}

/// The date parameter of `read_note`, read as `chrono` reads `%Y-%m-%d`;
/// anything else is refused as an invalid parameter.
pub fn read_note_date(date: &str) -> (r: Result<Date, String>)
    ensures
        match chrono_ymd(date@) {
            Some(d) => r == Ok::<Date, String>(d),
            None => r matches Err(e) && e@ == bad_date_text(),
        },
        r matches Ok(d) ==> d.wf(),
{
    match parse_ymd(date) {
        Some(d) => Ok(d),
        None => Err("date must be formatted as YYYY-MM-DD".to_string()),
    }
}

/// `read_note`: the note's text, or a failure naming the date when there is
/// no note that day.
pub fn read_note_reply(date: Date, content: Option<String>) -> (r: ToolReply)
    requires
        date.wf(),
    ensures
        match content {
            Some(c) => !r.is_error && r.text == c,
            None => r.is_error && r.text@ == "no note found for "@ + ymd_text(date),
        },
{
    match content {
        Some(c) => ToolReply { text: c, is_error: false },
        None => {
            let mut t = "no note found for ".to_string();
            let d = date.to_ymd();
            push_str(&mut t, d.as_str());
            ToolReply { text: t, is_error: true }
        },
    }
}

/// The answer to an append: the note's path and whether the text joined
/// the last heading.
pub open spec fn appended_text_spec(path: Seq<char>, merged: bool) -> Seq<char> {
    path + " ("@ + (if merged {
        "merged"@
    } else {
        "new heading"@
    }) + ")"@
}

/// `<path> (merged)` or `<path> (new heading)`, as `pen <text>` prints it
/// and `append_note` answers it.
pub fn appended_text(path: &str, merged: bool) -> (r: String)
    ensures
        r@ == appended_text_spec(path@, merged),
{
    let mut r = path.to_string();
    push_str(&mut r, " (");
    if merged {
        push_str(&mut r, "merged");
    } else {
        push_str(&mut r, "new heading");
    }
    push_str(&mut r, ")");
    r
}

/// `append_note`: where the text went, or the error's text as a failure.
pub fn append_note_reply(result: &Result<AppendOutcome, NotesError>) -> (r: ToolReply)
    ensures
        match result {
            Ok(outcome) => !r.is_error && r.text@ == appended_text_spec(outcome.path@, outcome.merged),
            Err(e) => r.is_error && r.text@ == e.message_spec(),
        },
{
    match result {
        Ok(outcome) => ToolReply {
            text: appended_text(outcome.path.as_str(), outcome.merged),
            is_error: false,
        },
        Err(e) => ToolReply { text: e.message(), is_error: true },
    }
}

} // verus!
