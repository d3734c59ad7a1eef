//! Daily notes: where a day's note lives, time headings, and what an append
//! adds to today's note.
pub mod carry_over;
pub mod context;
pub mod editor;
pub mod search;

use chrono::Timelike;
use vstd::prelude::*;

pub use context::ContextOutput;
pub use search::{search, SearchHit};

use crate::notes::carry_over::{carried_block, carried_block_spec, carry_over_items_spec};
use crate::date::{ymd_text, year_text, Date};
use crate::text::{
    lemma_decimal_digits, lemma_lines_concat, lemma_lines_of_one_line, zeros, decimal_spec, chars_of, decimal_padded, lines_of, lines_spec, push_char, push_str, starts_with, strip_prefix, trim,
    trim_spec, views, zero_padded, lemma_trim_ends, lemma_trim_keeps_trimmed, skip_ws_from,
};

verus! {

broadcast use vstd::string::group_string_axioms;

/// A wall-clock instant: a date and a time of day.
#[derive(Debug, Clone, Copy, PartialEq, Eq, Structural)]
pub struct Clock {
    pub date: Date,
    pub hour: u32,
    pub minute: u32,
    pub second: u32,
    pub nanosecond: u32,
}

impl Clock {
    pub open spec fn wf(self) -> bool {
        &&& self.date.wf()
        &&& self.hour < 24
        &&& self.minute < 60
        &&& self.second < 60
        &&& self.nanosecond < 1_000_000_000
    }
}

/// Why an append or a search could not be done.
#[derive(Debug)]
pub enum NotesError {
    /// The text to append is empty or only whitespace.
    EmptyText,
    /// The search pattern is not a valid regular expression.
    InvalidPattern { pattern: String, message: String },
    /// A note file could not be read or written (`message` says why).
    Io { path: String, message: String },
    /// The editor could not be started.
    EditorLaunch { command: String, message: String },
    /// The editor ended with a failure status.
    EditorExit { command: String, status: String },
}

impl NotesError {
    /// The text that describes the error to the user.
    pub open spec fn message_spec(&self) -> Seq<char> {
        match self {
            NotesError::EmptyText => "text to append must not be empty"@,
            NotesError::InvalidPattern { pattern, message } => "invalid search pattern `"@ + pattern@ + "`: "@
                + message@,
            NotesError::Io { path, message } => "failed to access note file at "@ + path@ + ": "@ + message@,
            NotesError::EditorLaunch { command, message } => "failed to launch editor `"@ + command@ + "`: "@
                + message@,
            NotesError::EditorExit { command, status } => "editor `"@ + command@
                + "` exited with a non-zero status: "@ + status@,
        }
    }

    /// The text that describes the error to the user.
    pub fn message(&self) -> (r: String)
        ensures
            r@ == self.message_spec(),
    {
        match self {
            NotesError::EmptyText => "text to append must not be empty".to_string(),
            NotesError::InvalidPattern { pattern, message } => {
                let mut r = "invalid search pattern `".to_string();
                push_str(&mut r, pattern.as_str());
                push_str(&mut r, "`: ");
                push_str(&mut r, message.as_str());
                r
            },
            NotesError::Io { path, message } => {
                let mut r = "failed to access note file at ".to_string();
                push_str(&mut r, path.as_str());
                push_str(&mut r, ": ");
                push_str(&mut r, message.as_str());
                r
            },
            NotesError::EditorLaunch { command, message } => {
                let mut r = "failed to launch editor `".to_string();
                push_str(&mut r, command.as_str());
                push_str(&mut r, "`: ");
                push_str(&mut r, message.as_str());
                r
            },
            NotesError::EditorExit { command, status } => {
                let mut r = "editor `".to_string();
                push_str(&mut r, command.as_str());
                push_str(&mut r, "` exited with a non-zero status: ");
                push_str(&mut r, status.as_str());
                r
            },
        }
    }
}

/// `base` joined with a relative path the way `Path::join` does it: no
/// separator added after an empty base or one that already ends in `/`.
pub open spec fn join_path(base: Seq<char>, rel: Seq<char>) -> Seq<char> {
    if base.len() == 0 {
        rel
    } else if base.last() == '/' {
        base + rel
    } else {
        base + seq!['/'] + rel
    }
}

/// Where the note of `date` lives: `<notes_dir>/YYYY/MM/YYYY-MM-DD.md`.
pub open spec fn note_path_spec(notes_dir: Seq<char>, date: Date) -> Seq<char> {
    join_path(
        join_path(join_path(notes_dir, year_text(date.year as int)), zero_padded(date.month as nat, 2)),
        ymd_text(date) + ".md"@,
    )
}

fn join_path_exec(base: String, rel: &str) -> (r: String)
    ensures
        r@ == join_path(base@, rel@),
{
    let cs = chars_of(base.as_str());
    if cs.len() == 0 {
        return rel.to_string();
    }
    let mut r = base;
    if cs[cs.len() - 1] != '/' {
        push_char(&mut r, '/');
    }
    push_str(&mut r, rel);
    r
}

/// The path of the note of `date` under `notes_dir`.
pub fn note_path(notes_dir: &str, date: Date) -> (p: String)
    requires
        date.wf(),
    ensures
        p@ == note_path_spec(notes_dir@, date),
{
    let mut file = date.to_ymd();
    push_str(&mut file, ".md");
    let year_part = crate::date::year_string(date.year);
    let month_part = decimal_padded(date.month as u64, 2);
    let p = join_path_exec(notes_dir.to_string(), year_part.as_str());
    let p = join_path_exec(p, month_part.as_str());
    join_path_exec(p, file.as_str())
}

/// What `chrono::NaiveTime::parse_from_str(s, "%H:%M")` reads from `s`, as
/// hour and minute.
pub uninterp spec fn chrono_hm(s: Seq<char>) -> Option<(u32, u32)>;

/// `chrono::NaiveTime::parse_from_str(s, "%H:%M")`.
///
/// Claims only that a parsed time has an hour below 24 and a minute below
/// 60 (a `NaiveTime` holds nothing else); which texts parse is left to the
/// name.
#[verifier::external_body]
fn parse_hm(s: &str) -> (r: Option<(u32, u32)>)
    ensures
        r == chrono_hm(s@),
        r matches Some((h, m)) ==> h < 24 && m < 60,
{
    match chrono::NaiveTime::parse_from_str(s, "%H:%M") {
        Ok(t) => Some((t.hour(), t.minute())),
        Err(_) => None,
    }
}

/// A `## HH:MM` time heading: its `HH:MM` text and the time it reads as.
pub open spec fn heading_of(line: Seq<char>) -> Option<(Seq<char>, (u32, u32))> {
    if "## "@.is_prefix_of(line) {
        match chrono_hm(line.skip(3)) {
            Some(t) => Some((line.skip(3), t)),
            None => None,
        }
    } else {
        None
    }
}

/// The last time heading among the first `n` lines.
pub open spec fn last_heading_in(lines: Seq<Seq<char>>, n: int) -> Option<(Seq<char>, (u32, u32))>
    decreases n,
{
    if n <= 0 || n > lines.len() {
        None
    } else {
        match heading_of(lines[n - 1]) {
            Some(h) => Some(h),
            None => last_heading_in(lines, n - 1),
        }
    }
}

/// The last time heading of a note.
pub open spec fn last_heading_spec(contents: Seq<char>) -> Option<(Seq<char>, (u32, u32))> {
    last_heading_in(lines_spec(contents), lines_spec(contents).len() as int)
}

/// Finds the last `## HH:MM` heading, searching from the end of the note.
fn last_heading(contents: &str) -> (r: Option<(String, (u32, u32))>)
    ensures
        match r {
            Some((text, t)) => last_heading_spec(contents@) == Some((text@, t)),
            None => last_heading_spec(contents@) is None,
        },
{
    let lines = lines_of(contents);
    let ghost lv = views(lines@);
    let mut n = lines.len();
    while n > 0
        invariant
            n <= lines.len(),
            lv == views(lines@),
            lv == lines_spec(contents@),
            last_heading_in(lv, n as int) == last_heading_in(lv, lv.len() as int),
        decreases n,
    {
        let line = &lines[n - 1];
        assert(lv[n - 1] == line@);
        proof {
            reveal_strlit("## ");
        }
        match strip_prefix(line.as_str(), "## ") {
            Some(rest) => {
                match parse_hm(rest.as_str()) {
                    Some(t) => {
                        return Some((rest, t));
                    },
                    None => {},
                }
            },
            None => {},
        }
        n -= 1;
    }
    None
}

/// Seconds since midnight of a time of day.
pub open spec fn seconds_of(h: int, m: int, s: int) -> int {
    h * 3600 + m * 60 + s
}

/// Whether an append at `now` continues the heading written at `h:m`: the
/// time since it is not negative and at most `window` minutes.
pub open spec fn within_window(h: u32, m: u32, window: u32, now: Clock) -> bool {
    let diff = seconds_of(now.hour as int, now.minute as int, now.second as int) - seconds_of(
        h as int,
        m as int,
        0,
    );
    &&& diff >= 0
    &&& (diff < window * 60 || (diff == window * 60 && now.nanosecond == 0))
}

/// The heading an append at `now` continues, if it is within the window.
pub open spec fn merge_target_spec(contents: Seq<char>, window: u32, now: Clock) -> Option<Seq<char>> {
    match last_heading_spec(contents) {
        Some((text, (h, m))) => if within_window(h, m, window, now) {
            Some(text)
        } else {
            None
        },
        None => None,
    }
}

/// The heading an append made now would go under, when the last heading of
/// the note is at most `merge_window_minutes` old. Shared by appending and
/// by opening today's note in an editor.
fn merge_target(contents: &str, merge_window_minutes: u32, now: Clock) -> (r: Option<String>)
    requires
        now.wf(),
    ensures
        match r {
            Some(h) => merge_target_spec(contents@, merge_window_minutes, now) == Some(h@),
            None => merge_target_spec(contents@, merge_window_minutes, now) is None,
        },
{
    match last_heading(contents) {
        Some((heading, (h, m))) => {
            let now_secs: i64 = now.hour as i64 * 3600 + now.minute as i64 * 60 + now.second as i64;
            let then_secs: i64 = h as i64 * 3600 + m as i64 * 60;
            let diff: i64 = now_secs - then_secs;
            let window: i64 = merge_window_minutes as i64 * 60;
            if diff >= 0 && (diff < window || (diff == window && now.nanosecond == 0)) {
                Some(heading)
            } else {
                None
            }
        },
        None => None,
    }
}

/// `HH:MM` of a clock.
pub open spec fn hm_text(now: Clock) -> Seq<char> {
    zero_padded(now.hour as nat, 2) + seq![':'] + zero_padded(now.minute as nat, 2)
}

fn hm_string(now: Clock) -> (s: String)
    ensures
        s@ == hm_text(now),
{
    let mut s = decimal_padded(now.hour as u64, 2);
    push_char(&mut s, ':');
    let m = decimal_padded(now.minute as u64, 2);
    push_str(&mut s, m.as_str());
    s
}

/// A new time heading line to put at the end of `contents`, with the blank
/// line that separates it from what is there.
pub open spec fn new_heading_line_spec(contents: Seq<char>, now: Clock) -> Seq<char> {
    (if contents.len() == 0 {
        Seq::<char>::empty()
    } else {
        seq!['\n']
    }) + "## "@ + hm_text(now) + seq!['\n']
}

fn new_heading_line(contents: &str, now: Clock) -> (s: String)
    ensures
        s@ == new_heading_line_spec(contents@, now),
{
    let mut s = String::new();
    if !contents.is_empty() {
        push_char(&mut s, '\n');
    }
    push_str(&mut s, "## ");
    let hm = hm_string(now);
    push_str(&mut s, hm.as_str());
    push_char(&mut s, '\n');
    s
}

proof fn lemma_last_heading_prefix(l: Seq<Seq<char>>, t: Seq<Seq<char>>, n: int)
    requires
        0 <= n <= l.len(),
    ensures
        last_heading_in(l + t, n) == last_heading_in(l, n),
    decreases n,
{
    if n > 0 {
        assert((l + t)[n - 1] == l[n - 1]);
        lemma_last_heading_prefix(l, t, n - 1);
    }
}

proof fn lemma_last_heading_skips(s: Seq<Seq<char>>, k: int, n: int)
    requires
        0 <= k <= n <= s.len(),
        forall|i: int| k <= i < n ==> heading_of(#[trigger] s[i]) is None,
    ensures
        last_heading_in(s, n) == last_heading_in(s, k),
    decreases n - k,
{
    if n > k {
        lemma_last_heading_skips(s, k, n - 1);
    }
}

proof fn lemma_heading_line_shape(now: Clock)
    ensures
        forall|i: int| 0 <= i < ("## "@ + hm_text(now)).len() ==> #[trigger] ("## "@ + hm_text(now))[i] != '\n',
        ("## "@ + hm_text(now)).last() != '\r',
        "## "@.is_prefix_of("## "@ + hm_text(now)),
        ("## "@ + hm_text(now)).skip(3) == hm_text(now),
{
    reveal_strlit("## ");
    let h = zero_padded(now.hour as nat, 2);
    let m = zero_padded(now.minute as nat, 2);
    lemma_decimal_digits(now.hour as nat);
    lemma_decimal_digits(now.minute as nat);
    let line = "## "@ + hm_text(now);
    assert(hm_text(now) == h + seq![':'] + m);
    assert forall|i: int| 0 <= i < h.len() implies '0' <= #[trigger] h[i] <= '9' by {
        let z = zeros(2 - decimal_spec(now.hour as nat).len());
        if i >= z.len() {
            assert(h[i] == decimal_spec(now.hour as nat)[i - z.len()]);
        }
    }
    assert forall|i: int| 0 <= i < m.len() implies '0' <= #[trigger] m[i] <= '9' by {
        let z = zeros(2 - decimal_spec(now.minute as nat).len());
        if i >= z.len() {
            assert(m[i] == decimal_spec(now.minute as nat)[i - z.len()]);
        }
    }
    assert(m.len() > 0);
    assert(line.last() == m.last());
    assert forall|i: int| 0 <= i < line.len() implies #[trigger] line[i] != '\n' by {
        if i >= 3 {
            let j = i - 3;
            if j < h.len() {
                assert(line[i] == h[j]);
            } else if j > h.len() {
                assert(line[i] == m[j - h.len() - 1]);
            }
        }
    }
    assert(line.subrange(0, 3) =~= "## "@);
    assert(line.skip(3) =~= hm_text(now));
}

/// Consecutive appends share a heading: in a note that an append has just
/// given a new time heading written at `now1` (the note before it, any
/// carried-over block, the heading line, then the text), a later append at
/// `now2` goes under that heading exactly when `now2` is within the merge
/// window of it. This holds when no line of the appended text reads as a
/// time heading itself, and when the heading written reads back as the
/// time it was written at.
pub proof fn lemma_next_append_joins_the_new_heading(
    contents: Seq<char>,
    previous: Option<(Date, Seq<char>)>,
    text: Seq<char>,
    window: u32,
    now1: Clock,
    now2: Clock,
)
    requires
        forall|i: int|
            0 <= i < lines_spec(trim_spec(text) + "\n"@).len() ==> heading_of(
                #[trigger] lines_spec(trim_spec(text) + "\n"@)[i],
            ) is None,
    ensures
        chrono_hm(hm_text(now1)) == Some((now1.hour, now1.minute)) ==> merge_target_spec(
            contents + carried_for(contents, previous) + new_heading_line_spec(contents, now1) + trim_spec(text)
                + "\n"@,
            window,
            now2,
        ) == (if within_window(now1.hour, now1.minute, window, now2) {
            Some(hm_text(now1))
        } else {
            None
        }),
{
    reveal_strlit("\n");
    reveal_strlit("\n\n");
    reveal_strlit("## ");
    let t = trim_spec(text);
    let h = "## "@ + hm_text(now1);
    let carried = carried_for(contents, previous);
    let a = if contents.len() == 0 {
        carried
    } else {
        contents + seq!['\n']
    };
    let c1 = contents + carried + new_heading_line_spec(contents, now1) + t + "\n"@;
    let hl = h + seq!['\n'];
    let tl = t + seq!['\n'];
    assert("\n"@ =~= seq!['\n']);
    if contents.len() == 0 {
        assert(c1 =~= a + hl + tl);
        if carried.len() > 0 {
            assert(a.last() == '\n');
        }
    } else {
        assert(carried =~= Seq::<char>::empty());
        assert(c1 =~= a + hl + tl);
    }
    lemma_heading_line_shape(now1);
    lemma_lines_of_one_line(h);
    lemma_lines_concat(hl, tl);
    assert(a + hl + tl =~= a + (hl + tl));
    lemma_lines_concat(a, hl + tl);
    let la = lines_spec(a);
    let tls = lines_spec(tl);
    let l = la.push(h);
    assert(lines_spec(c1) =~= l + tls);
    let n = (l + tls).len() as int;
    assert forall|i: int| l.len() <= i < n implies heading_of(#[trigger] (l + tls)[i]) is None by {
        assert((l + tls)[i] == tls[i - l.len()]);
    }
    lemma_last_heading_skips(l + tls, l.len() as int, n);
    lemma_last_heading_prefix(l, tls, l.len() as int);
    assert(l[l.len() - 1] == h);
}

/// Whether writing something now needs a new time heading, and if so the
/// heading line (with its separating newline). `None` when the last heading
/// is within the merge window.
pub open spec fn pending_heading_spec(contents: Seq<char>, window: u32, now: Clock) -> Option<Seq<char>> {
    match merge_target_spec(contents, window, now) {
        Some(_) => None,
        None => Some(new_heading_line_spec(contents, now)),
    }
}

/// The heading line that something written now needs, or `None` when it
/// continues the last heading.
pub fn pending_heading(contents: &str, merge_window_minutes: u32, now: Clock) -> (r: Option<String>)
    requires
        now.wf(),
    ensures
        match r {
            Some(h) => pending_heading_spec(contents@, merge_window_minutes, now) == Some(h@),
            None => pending_heading_spec(contents@, merge_window_minutes, now) is None,
        },
{
    match merge_target(contents, merge_window_minutes, now) {
        Some(_) => None,
        None => Some(new_heading_line(contents, now)),
    }
}

/// The text as an unchecked checklist item: trimmed, and prefixed with
/// `- [ ] ` unless it is empty or already starts with `- [`.
pub open spec fn as_todo_spec(text: Seq<char>) -> Seq<char> {
    let t = trim_spec(text);
    if t.len() == 0 || "- ["@.is_prefix_of(t) {
        t
    } else {
        "- [ ] "@ + t
    }
}

/// Formats `text` as an unchecked checklist item for `-t`/`--todo`. Text that
/// already starts with `- [` (a hand-written `- [ ]` or `- [x]`) is not

/// Formatting as a checklist item twice is the same as once: the item
/// already starts with `- [`, so it is left as it is.
pub proof fn lemma_as_todo_is_idempotent(text: Seq<char>)
    ensures
        as_todo_spec(as_todo_spec(text)) == as_todo_spec(text),
{
    let t = trim_spec(text);
    lemma_trim_ends(text);
    if t.len() == 0 {
        assert(trim_spec(t) == t) by {
            assert(skip_ws_from(t, 0) == 0);
        }
    } else if "- ["@.is_prefix_of(t) {
        lemma_trim_keeps_trimmed(t);
    } else {
        let r = "- [ ] "@ + t;
        reveal_strlit("- [ ] ");
        reveal_strlit("- [");
        assert(r[0] == '-');
        assert(r.last() == t.last());
        lemma_trim_keeps_trimmed(r);
        assert("- ["@.is_prefix_of(r)) by {
            assert(r.subrange(0, 3) =~= "- ["@);
        }
    }
}

/// prefixed twice; empty text stays empty (appending rejects it).
pub fn as_todo(text: &str) -> (r: String)
    ensures
        r@ == as_todo_spec(text@),
{
    let trimmed = trim(text);
    if chars_of(trimmed.as_str()).len() == 0 || starts_with(trimmed.as_str(), "- [") {
        trimmed
    } else {
        let mut s = "- [ ] ".to_string();
        push_str(&mut s, trimmed.as_str());
        s
    }
}

/// What one append writes to today's note.
#[derive(Debug)]
pub struct AppendPlan {
    /// The text to add at the end of the note.
    pub to_append: String,
    /// The heading (`HH:MM`) the text is under.
    pub heading: String,
    /// Whether it continues an existing heading.
    pub merged: bool,
}

/// Where an append went: the note's path, the heading (`HH:MM`) the text
/// is under, and whether it continued an existing heading.
#[derive(Debug)]
pub struct AppendOutcome {
    pub path: String,
    pub heading: String,
    pub merged: bool,
}

/// Whether opening or appending to a note with these contents carries over
/// unfinished items: only when today's note is being started.
pub fn carry_over_needed(contents: &str) -> (r: bool)
    ensures
        r == (contents@.len() == 0),
{
    contents.is_empty()
}

/// The carried-over block put before a new heading, from the most recent
/// earlier note (date and text) when today's note is being started.
pub open spec fn carried_for(contents: Seq<char>, previous: Option<(Date, Seq<char>)>) -> Seq<char> {
    if contents.len() != 0 {
        Seq::empty()
    } else {
        match previous {
            Some((d, text)) => carried_block_spec(carry_over_items_spec(d, text)),
            None => Seq::empty(),
        }
    }
}

/// What appending `text` to today's note (`contents`) at `now` writes.
///
/// Text that is empty after trimming is refused. Within the merge window the
/// text goes under the last heading after a blank line; otherwise it starts a
/// new heading, after any unfinished items carried over from `previous` (the
/// most recent earlier note) when the note is new.
pub fn plan_append(
    text: &str,
    contents: &str,
    merge_window_minutes: u32,
    now: Clock,
    previous: Option<(Date, &str)>,
) -> (r: Result<AppendPlan, NotesError>)
    requires
        now.wf(),
        previous matches Some((d, _)) ==> d.wf(),
    ensures
        trim_spec(text@).len() == 0 <==> r is Err,
        r matches Err(e) ==> e is EmptyText,
        r matches Ok(plan) ==> ({
            let t = trim_spec(text@);
            let prev = match previous {
                Some((d, p)) => Some((d, p@)),
                None => None,
            };
            match merge_target_spec(contents@, merge_window_minutes, now) {
                Some(h) => plan.to_append@ == seq!['\n'] + t + seq!['\n'] && plan.heading@ == h && plan.merged,
                None => plan.to_append@ == carried_for(contents@, prev) + new_heading_line_spec(contents@, now)
                    + t + seq!['\n'] && plan.heading@ == hm_text(now) && !plan.merged,
            }
        }),
{
    let t = trim(text);
    if chars_of(t.as_str()).len() == 0 {
        return Err(NotesError::EmptyText);
    }
    match merge_target(contents, merge_window_minutes, now) {
        Some(heading) => {
            let mut s = String::new();
            push_char(&mut s, '\n');
            push_str(&mut s, t.as_str());
            push_char(&mut s, '\n');
            Ok(AppendPlan { to_append: s, heading, merged: true })
        },
        None => {
            let line = new_heading_line(contents, now);
            let mut s = if contents.is_empty() {
                match previous {
                    Some((d, p)) => {
                        let items = carry_over::carry_over_from(d, p);
                        carried_block(&items)
                    },
                    None => String::new(),
                }
            } else {
                String::new()
            };
            push_str(&mut s, line.as_str());
            push_str(&mut s, t.as_str());
            push_char(&mut s, '\n');
            Ok(AppendPlan { to_append: s, heading: hm_string(now), merged: false })
        },
    }
}

} // verus!
