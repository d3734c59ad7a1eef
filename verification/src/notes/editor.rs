//! Opening a day's note in an editor: which editor runs and how, what is put
//! into today's note before it opens, and what is undone when nothing was
//! written.
use vstd::prelude::*;

use crate::date::Date;
use crate::notes::{carried_for, pending_heading, pending_heading_spec, Clock};
use crate::notes::carry_over::{carried_block, carry_over_from};
use crate::text::{push_str, trim, trim_spec};

verus! {

broadcast use vstd::string::group_string_axioms;

/// The editor command: `raw` without surrounding whitespace, or `vi` when
/// there is none or it is blank.
pub open spec fn editor_or_default_spec(raw: Option<Seq<char>>) -> Seq<char> {
    match raw {
        Some(e) => if trim_spec(e).len() > 0 {
            trim_spec(e)
        } else {
            "vi"@
        },
        None => "vi"@,
    }
}

/// The editor command: `raw` trimmed, or `vi` when it is missing or blank.
pub fn editor_or_default(raw: Option<&str>) -> (r: String)
    ensures
        r@ == editor_or_default_spec(match raw {
            Some(e) => Some(e@),
            None => None,
        }),
{
    match raw {
        Some(e) => {
            let t = trim(e);
            if t.as_str().is_empty() {
                "vi".to_string()
            } else {
                t
            }
        },
        None => "vi".to_string(),
    }
}

/// Which editor runs: the configured one unless it is the empty string, else
/// the value of `$EDITOR`; then as `editor_or_default_spec` says.
pub open spec fn chosen_editor_spec(configured: Seq<char>, env_editor: Option<Seq<char>>) -> Seq<char> {
    editor_or_default_spec(if configured.len() > 0 {
        Some(configured)
    } else {
        env_editor
    })
}

/// The editor to run, from the configured `editor` and the value of
/// `$EDITOR` (if it is set).
pub fn choose_editor(configured: &str, env_editor: Option<&str>) -> (r: String)
    ensures
        r@ == chosen_editor_spec(configured@, match env_editor {
            Some(e) => Some(e@),
            None => None,
        }),
{
    if configured.is_empty() {
        editor_or_default(env_editor)
    } else {
        editor_or_default(Some(configured))
    }
}

/// The arguments of `sh` that open `path` in `editor`, the way git runs
/// its editor: `sh -c '<editor> "$@"' <editor> <path>`. The shell reads the
/// editor as the user would write it (arguments, quoted paths with spaces);
/// the note's path goes through `$@` and is never read by the shell.
pub fn editor_command_args(editor: &str, path: &str) -> (args: Vec<String>)
    ensures
        args@.len() == 4,
        args@[0]@ == "-c"@,
        args@[1]@ == editor@ + " \"$@\""@,
        args@[2]@ == editor@,
        args@[3]@ == path@,
{
    let mut script = editor.to_string();
    push_str(&mut script, " \"$@\"");
    let mut args: Vec<String> = Vec::new();
    args.push("-c".to_string());
    args.push(script);
    args.push(editor.to_string());
    args.push(path.to_string());
    args
}

/// What was put into today's note before the editor opened it.
#[derive(Debug)]
pub struct EditorSeed {
    /// The text added at the end of the note.
    pub addition: String,
    /// The whole note after the addition.
    pub seeded: String,
    /// Whether the note was empty (or missing) before.
    pub original_was_empty: bool,
}

/// The view of an earlier note handed in as `(date, text)`.
pub open spec fn previous_view(previous: Option<(Date, &str)>) -> Option<(Date, Seq<char>)> {
    match previous {
        Some((d, p)) => Some((d, p@)),
        None => None,
    }
}

/// What opening the note of `date` at `now` first adds to it (`original` is
/// its text, `previous` the most recent earlier note).
///
/// Only today's note gets anything, and only when a new heading is due: the
/// unfinished items carried over (for a new note) and the heading line.
/// Another day's note is opened as it is, since the time of writing there is
/// not known.
pub fn plan_editor_seed(
    date: Date,
    now: Clock,
    original: &str,
    merge_window_minutes: u32,
    previous: Option<(Date, &str)>,
) -> (r: Option<EditorSeed>)
    requires
        now.wf(),
        previous matches Some((d, _)) ==> d.wf(),
    ensures
        r is Some <==> (date == now.date && pending_heading_spec(original@, merge_window_minutes, now) is Some),
        r matches Some(seed) ==> {
            &&& seed.addition@ == carried_for(original@, previous_view(previous))
                + pending_heading_spec(original@, merge_window_minutes, now)->0
            &&& seed.seeded@ == original@ + seed.addition@
            &&& seed.original_was_empty == (original@.len() == 0)
        },
{
    if date != now.date {
        return None;
    }
    match pending_heading(original, merge_window_minutes, now) {
        None => None,
        Some(heading_line) => {
            let mut addition = if original.is_empty() {
                match previous {
                    Some((d, p)) => {
                        let items = carry_over_from(d, p);
                        carried_block(&items)
                    },
                    None => String::new(),
                }
            } else {
                String::new()
            };
            push_str(&mut addition, heading_line.as_str());
            let mut seeded = original.to_string();
            push_str(&mut seeded, addition.as_str());
            Some(EditorSeed { addition, seeded, original_was_empty: original.is_empty() })
        },
    }
}

/// What to do with today's note once the editor has closed.
#[derive(Debug, Clone, Copy, PartialEq, Eq, Structural)]
pub enum Rollback {
    /// Something was written (or the note is gone): leave it.
    Keep,
    /// Nothing was written to a note that did not exist: delete it.
    RemoveNote,
    /// Nothing was written to an existing note: cut it back to its
    /// original length, which takes off exactly what was added.
    RestoreOriginal,
}

/// What to do once the editor closed: undo the seed when the note is
/// exactly as seeded (`after` is its text, `None` when it is not valid
/// UTF-8), so that no note holding only a heading stays behind.
pub open spec fn rollback_spec(seeded: Seq<char>, original_was_empty: bool, after: Option<Seq<char>>) -> Rollback {
    match after {
        Some(a) => if a == seeded {
            if original_was_empty {
                Rollback::RemoveNote
            } else {
                Rollback::RestoreOriginal
            }
        } else {
            Rollback::Keep
        },
        None => Rollback::Keep,
    }
}

/// Undoing the seed when the editor left the note exactly as seeded. The
/// decision looks at the note alone, so it holds whatever the editor's exit
/// status was, or if it could not be started at all.
pub fn rollback_after_editor(seed: &EditorSeed, after: Option<&String>) -> (r: Rollback)
    ensures
        r == rollback_spec(seed.seeded@, seed.original_was_empty, match after {
            Some(a) => Some(a@),
            None => None,
        }),
{
    match after {
        Some(a) => {
            if *a == seed.seeded {
                if seed.original_was_empty {
                    Rollback::RemoveNote
                } else {
                    Rollback::RestoreOriginal
                }
            } else {
                Rollback::Keep
            }
        },
        None => Rollback::Keep,
    }
}

/// The note after a rollback: `None` when it is deleted, else its text
/// (`RestoreOriginal` cuts it to `original_len` characters).
pub open spec fn after_rollback(r: Rollback, after: Seq<char>, original_len: nat) -> Option<Seq<char>> {
    match r {
        Rollback::Keep => Some(after),
        Rollback::RemoveNote => None,
        Rollback::RestoreOriginal => Some(after.take(original_len as int)),
    }
}

/// Opening today's note and closing the editor without writing leaves
/// things as they were: a note that did not exist is gone again, and an
/// existing note has its original text.
pub proof fn lemma_untouched_note_is_restored(original: Seq<char>, addition: Seq<char>)
    ensures
        ({
            let seeded = original + addition;
            after_rollback(
                rollback_spec(seeded, original.len() == 0, Some(seeded)),
                seeded,
                original.len(),
            ) == if original.len() == 0 {
                None
            } else {
                Some(original)
            }
        }),
{
    assert((original + addition).take(original.len() as int) =~= original);
}

} // verus!
