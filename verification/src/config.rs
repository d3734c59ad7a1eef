//! The settings: where notes live, how appends merge, which editor opens a
//! note and which keys do what in `pen cal`.
use vstd::prelude::*;

use crate::action::{self, Mode};
use crate::assoc;
use crate::notes::join_path;
use crate::text::{join, join_spec, lines_of, lines_spec, push_str, starts_with, views};

verus! {

broadcast use vstd::string::group_string_axioms;

/// Action name to key specs, for one `[keys.<mode>]` table. A name that is
/// set twice keeps its first place and its last value.
#[derive(Debug, Clone)]
pub struct Bindings {
    entries: Vec<(String, Vec<String>)>,
}

impl Bindings {
    /// The table as (action name, key specs) pairs, in order.
    pub closed spec fn pairs(&self) -> Seq<(Seq<char>, Seq<Seq<char>>)> {
        self.entries@.map_values(|e: (String, Vec<String>)| (e.0@, views(e.1@)))
    }

    /// The key specs set for `name`.
    pub open spec fn specs_for(&self, name: Seq<char>) -> Option<Seq<Seq<char>>> {
        assoc::lookup(self.pairs(), name)
    }

    /// An empty table.
    pub fn new() -> (b: Bindings)
        ensures
            b.pairs() == Seq::<(Seq<char>, Seq<Seq<char>>)>::empty(),
    {
        let b = Bindings { entries: Vec::new() };
        assert(b.pairs() =~= Seq::<(Seq<char>, Seq<Seq<char>>)>::empty());
        b
    }

    fn index_of(&self, name: &str) -> (i: usize)
        ensures
            i as int == assoc::find(self.pairs(), name@),
            i <= self.entries@.len(),
    {
        let n = name.to_string();
        let ghost pv = self.pairs();
        let mut i: usize = 0;
        while i < self.entries.len()
            invariant
                i <= self.entries.len(),
                pv == self.pairs(),
                n@ == name@,
                forall|j: int| 0 <= j < i ==> pv[j].0 != name@,
            decreases self.entries.len() - i,
        {
            assert(pv[i as int].0 == self.entries@[i as int].0@);
            if self.entries[i].0 == n {
                proof {
                    assoc::lemma_find_characterized(pv, name@, i as int);
                }
                return i;
            }
            i += 1;
        }
        proof {
            assoc::lemma_find_characterized(pv, name@, pv.len() as int);
        }
        i
    }

    /// The key specs set for `name`, if any.
    pub fn get(&self, name: &str) -> (r: Option<&Vec<String>>)
        ensures
            match r {
                Some(v) => self.specs_for(name@) == Some(views(v@)),
                None => self.specs_for(name@) is None,
            },
    {
        let i = self.index_of(name);
        if i < self.entries.len() {
            Some(&self.entries[i].1)
        } else {
            None
        }
    }

    /// Sets the key specs for `name`, replacing what it had.
    pub fn insert(&mut self, name: String, keys: Vec<String>)
        ensures
            final(self).pairs() == assoc::assign(old(self).pairs(), name@, views(keys@)),
    {
        let i = self.index_of(name.as_str());
        let ghost old_pairs = self.pairs();
        let ghost entry = (name@, views(keys@));
        if i < self.entries.len() {
            self.entries.set(i, (name, keys));
            assert(self.pairs() =~= old_pairs.update(i as int, entry));
        } else {
            self.entries.push((name, keys));
            assert(self.pairs() =~= old_pairs.push(entry));
        }
    }

    /// The pairs, in order.
    pub fn entries(&self) -> (r: &Vec<(String, Vec<String>)>)
        ensures
            r@.map_values(|e: (String, Vec<String>)| (e.0@, views(e.1@))) == self.pairs(),
    {
        &self.entries
    }
}

/// Key specs for each screen of `pen cal`.
#[derive(Debug, Clone)]
pub struct KeysConfig {
    pub calendar: Bindings,
    pub search_input: Bindings,
    pub search_results: Bindings,
}

/// The built-in key table of the calendar.
pub fn default_calendar_keys() -> (b: Bindings)
    ensures
        b.pairs() == action::default_pairs(Mode::Calendar),
{
    action::default_bindings(Mode::Calendar)
}

/// The built-in key table while typing a search query.
pub fn default_search_input_keys() -> (b: Bindings)
    ensures
        b.pairs() == action::default_pairs(Mode::SearchInput),
{
    action::default_bindings(Mode::SearchInput)
}

/// The built-in key table while browsing search results.
pub fn default_search_results_keys() -> (b: Bindings)
    ensures
        b.pairs() == action::default_pairs(Mode::SearchResults),
{
    action::default_bindings(Mode::SearchResults)
}

impl KeysConfig {
    /// The built-in key tables of every screen.
    pub fn default() -> (k: KeysConfig)
        ensures
            k.calendar.pairs() == action::default_pairs(Mode::Calendar),
            k.search_input.pairs() == action::default_pairs(Mode::SearchInput),
            k.search_results.pairs() == action::default_pairs(Mode::SearchResults),
    {
        KeysConfig {
            calendar: default_calendar_keys(),
            search_input: default_search_input_keys(),
            search_results: default_search_results_keys(),
        }
    }
}

/// Name of the directory under the config base directory.
pub const APP_DIR_NAME: &'static str = "pen";

/// Name of the config file.
pub const CONFIG_FILE_NAME: &'static str = "config.toml";

/// Default merge window: appends within this many minutes share a heading.
pub const DEFAULT_MERGE_WINDOW_MINUTES: u32 = 30;

/// The settings in effect.
#[derive(Debug)]
pub struct Config {
    /// Where daily notes are written.
    pub notes_dir: String,
    /// Appends within this many minutes of the last heading go under it.
    pub merge_window_minutes: u32,
    /// Command (with arguments) that opens a note; empty means unset, which
    /// falls back to `$EDITOR` and then `vi` when a note is opened.
    pub editor: String,
    pub keys: KeysConfig,
}

/// A text naming another user's home (`~user...`): a `~` followed by
/// something other than a path separator. Such a text is never expanded.
pub open spec fn names_other_user(s: Seq<char>) -> bool {
    s.len() > 1 && s[0] == '~' && s[1] != '/' && s[1] != '\\'
}

/// `shellexpand::tilde`.
///
/// Claims what the crate's code does with its input: a text that does not
/// start with `~`, or names another user's home, comes back as it is;
/// otherwise it comes back as it is (no home directory) or as some home
/// directory followed by everything after the `~`. Which home directory is
/// left unsaid: it comes from the environment.
#[verifier::external_body]
fn expand_tilde(s: &str) -> (r: String)
    ensures
        !(s@.len() > 0 && s@[0] == '~') ==> r@ == s@,
        names_other_user(s@) ==> r@ == s@,
        r@ == s@ || (s@.len() > 0 && s@[0] == '~' && r@.len() >= s@.len() - 1 && r@.skip(
            r@.len() - (s@.len() - 1),
        ) == s@.drop_first()),
{
    shellexpand::tilde(s).into_owned()
}

/// A configured path with a leading `~` expanded to the home directory, as
/// config values are read: a text that does not start with `~`, or that
/// names another user's home (`~user/...`), is kept; one that is `~` or
/// starts with `~/` is kept (no home directory known) or becomes a home
/// directory followed by what came after the `~`.
pub fn expanded_path(raw: &str) -> (r: String)
    ensures
        !(raw@.len() > 0 && raw@[0] == '~') ==> r@ == raw@,
        names_other_user(raw@) ==> r@ == raw@,
        r@ == raw@ || (raw@.len() > 0 && raw@[0] == '~' && r@.len() >= raw@.len() - 1 && r@.skip(
            r@.len() - (raw@.len() - 1),
        ) == raw@.drop_first()),
{
    expand_tilde(raw)
}

/// The built-in merge window, in minutes.
pub fn default_merge_window_minutes() -> (m: u32)
    ensures
        m == DEFAULT_MERGE_WINDOW_MINUTES,
{
    DEFAULT_MERGE_WINDOW_MINUTES
}

impl Config {
    /// The built-in settings: notes under `~/notes` (with `~` expanded), a
    /// 30-minute merge window, no configured editor, and the built-in keys.
    pub fn default() -> (c: Config)
        ensures
            c.notes_dir@ == "~/notes"@ || c.notes_dir@.skip(c.notes_dir@.len() - 6) == "/notes"@,
            c.merge_window_minutes == DEFAULT_MERGE_WINDOW_MINUTES,
            c.editor@ == Seq::<char>::empty(),
            c.keys.calendar.pairs() == action::default_pairs(Mode::Calendar),
            c.keys.search_input.pairs() == action::default_pairs(Mode::SearchInput),
            c.keys.search_results.pairs() == action::default_pairs(Mode::SearchResults),
    {
        proof {
            reveal_strlit("~/notes");
            reveal_strlit("/notes");
        }
        let notes_dir = expand_tilde("~/notes");
        assert("~/notes"@.drop_first() =~= "/notes"@);
        Config {
            notes_dir,
            merge_window_minutes: default_merge_window_minutes(),
            editor: String::new(),
            keys: KeysConfig::default(),
        }
    }
}

/// The app's directory under the config base directory (`~/.config` or
/// `$XDG_CONFIG_HOME`).
pub fn app_config_dir(base: &str) -> (r: String)
    ensures
        r@ == join_path(base@, "pen"@),
{
    let mut r = base.to_string();
    let cs = crate::text::chars_of(base);
    if cs.len() == 0 {
        return APP_DIR_NAME.to_string();
    }
    if cs[cs.len() - 1] != '/' {
        crate::text::push_char(&mut r, '/');
    }
    push_str(&mut r, APP_DIR_NAME);
    r
}

/// The config file under the config base directory.
pub fn config_file_path(base: &str) -> (r: String)
    ensures
        r@ == join_path(join_path(base@, "pen"@), "config.toml"@),
{
    let dir = app_config_dir(base);
    let mut r = dir.clone();
    let cs = crate::text::chars_of(dir.as_str());
    if cs.len() == 0 {
        return CONFIG_FILE_NAME.to_string();
    }
    if cs[cs.len() - 1] != '/' {
        crate::text::push_char(&mut r, '/');
    }
    push_str(&mut r, CONFIG_FILE_NAME);
    r
}

/// One key of a TOML document: the path of table keys leading to it, and
/// whether its value is a table.
pub struct KeyPath {
    pub keys: Vec<String>,
    pub is_table: bool,
}

pub open spec fn path_view(p: KeyPath) -> Seq<Seq<char>> {
    views(p.keys@)
}

/// The document has a key at `path`.
pub open spec fn has_path(doc: Seq<KeyPath>, path: Seq<Seq<char>>) -> bool {
    exists|i: int| 0 <= i < doc.len() && path_view(doc[i]) == path
}

/// The document has a table at `path` (the root is always one).
pub open spec fn has_table(doc: Seq<KeyPath>, path: Seq<Seq<char>>) -> bool {
    path.len() == 0 || exists|i: int| 0 <= i < doc.len() && path_view(doc[i]) == path && doc[i].is_table
}

/// A key of the config file is unknown when the built-in config has no such
/// key although it has every table around it; keys inside an unknown table
/// are not reported again.
pub open spec fn is_unknown(known: Seq<KeyPath>, path: Seq<Seq<char>>) -> bool {
    &&& !has_path(known, path)
    &&& forall|k: int| 0 <= k < path.len() ==> #[trigger] has_table(known, path.take(k))
}

/// A key path with whether its value is a table.
pub open spec fn key_pairs(ps: Seq<KeyPath>) -> Seq<(Seq<Seq<char>>, bool)> {
    ps.map_values(|p: KeyPath| (path_view(p), p.is_table))
}

/// The dotted names (`keys.calendar.nxet_day`) of the unknown keys among
/// `raw`, in its order.
pub open spec fn unknown_keys_spec(raw: Seq<(Seq<Seq<char>>, bool)>, known: Seq<KeyPath>) -> Seq<Seq<char>> {
    raw.filter(|p: (Seq<Seq<char>>, bool)| is_unknown(known, p.0)).map_values(
        |p: (Seq<Seq<char>>, bool)| join_spec(p.0, "."@),
    )
}

fn same_path(a: &Vec<String>, b: &Vec<String>, n: usize) -> (r: bool)
    requires
        n <= a@.len(),
    ensures
        r == (views(b@) == views(a@).take(n as int)),
{
    if b.len() != n {
        assert(views(b@).len() != views(a@).take(n as int).len());
        return false;
    }
    let mut i: usize = 0;
    while i < n
        invariant
            i <= n,
            n <= a@.len(),
            b@.len() == n,
            forall|j: int| 0 <= j < i ==> a@[j]@ == b@[j]@,
        decreases n - i,
    {
        if a[i] != b[i] {
            assert(views(b@)[i as int] != views(a@).take(n as int)[i as int]);
            return false;
        }
        i += 1;
    }
    assert(views(b@) =~= views(a@).take(n as int));
    true
}

/// Whether `known` has a key (a table, if asked) at the first `n` keys of `path`.
fn known_at(known: &Vec<KeyPath>, path: &Vec<String>, n: usize, table: bool) -> (r: bool)
    requires
        n <= path@.len(),
    ensures
        r == (if table {
            exists|i: int| 0 <= i < known@.len() && path_view(known@[i]) == views(path@).take(n as int) && known@[i].is_table
        } else {
            exists|i: int| 0 <= i < known@.len() && path_view(known@[i]) == views(path@).take(n as int)
        }),
{
    let mut i: usize = 0;
    while i < known.len()
        invariant
            i <= known@.len(),
            n <= path@.len(),
            forall|j: int| 0 <= j < i ==> !(path_view(known@[j]) == views(path@).take(n as int) && (!table || known@[j].is_table)),
        decreases known@.len() - i,
    {
        if same_path(path, &known[i].keys, n) && (!table || known[i].is_table) {
            return true;
        }
        i += 1;
    }
    false
}

/// The dotted names of the keys in a config file (`raw`) that the built-in
/// config (`known`) does not have. A typo'd key only earns a warning; it
/// never stops `pen`.
pub fn unknown_config_keys(raw: &Vec<KeyPath>, known: &Vec<KeyPath>) -> (r: Vec<String>)
    ensures
        views(r@) == unknown_keys_spec(key_pairs(raw@), known@),
{
    let ghost keep = |p: (Seq<Seq<char>>, bool)| is_unknown(known@, p.0);
    let ghost name = |p: (Seq<Seq<char>>, bool)| join_spec(p.0, "."@);
    let ghost kp = key_pairs(raw@);
    let mut r: Vec<String> = Vec::new();
    let mut i: usize = 0;
    while i < raw.len()
        invariant
            i <= raw@.len(),
            kp == key_pairs(raw@),
            keep == (|p: (Seq<Seq<char>>, bool)| is_unknown(known@, p.0)),
            name == (|p: (Seq<Seq<char>>, bool)| join_spec(p.0, "."@)),
            views(r@) == kp.take(i as int).filter(keep).map_values(name),
        decreases raw@.len() - i,
    {
        let path = &raw[i].keys;
        let ghost pv = views(path@);
        assert(pv == path_view(raw@[i as int]));
        assert(kp[i as int] == (pv, raw@[i as int].is_table));
        let mut unknown = !known_at(known, path, path.len(), false);
        assert(views(path@).take(path@.len() as int) == pv);
        let mut k: usize = 0;
        while unknown && k < path.len()
            invariant
                k <= path@.len(),
                pv == views(path@),
                unknown ==> forall|j: int| 0 <= j < k ==> #[trigger] has_table(known@, pv.take(j)),
                unknown ==> !has_path(known@, pv),
                !unknown ==> !is_unknown(known@, pv),
            decreases path@.len() - k,
        {
            if k > 0 && !known_at(known, path, k, true) {
                unknown = false;
                assert(!has_table(known@, pv.take(k as int)));
            }
            assert(k == 0 ==> pv.take(0).len() == 0);
            k += 1;
        }
        assert(unknown == keep(kp[i as int]));
        reveal_with_fuel(Seq::<_>::filter, 1);
        assert(kp.take(i + 1).drop_last() == kp.take(i as int));
        assert(kp.take(i + 1).last() == kp[i as int]);
        if unknown {
            let dotted = join(path, ".");
            let ghost before = views(r@);
            r.push(dotted);
            assert(views(r@) =~= before.push(name(kp[i as int])));
            assert(kp.take(i + 1).filter(keep) == kp.take(i as int).filter(keep).push(kp[i as int]));
        }
        i += 1;
    }
    assert(kp.take(raw@.len() as int) == kp);
    r
}

/// What a TOML document holds, as keys: `None` when the text is not a
/// TOML document, else every key with the path of table keys leading to it
/// and whether its value is a table, depth first, each table's keys in the
/// order the parsed table holds them.
pub uninterp spec fn toml_key_paths(text: Seq<char>) -> Option<Seq<(Seq<Seq<char>>, bool)>>;

/// `text.parse::<toml::Table>()`, with the parsed document's keys listed.
///
/// Claims that the outcome is the name's for the text: the keys of the
/// parsed tables, each with its path, depth first (a key's table comes
/// before what is inside it), or an error when the text does not parse.
/// Nothing is claimed of the error's text, which is the parser's message.
#[verifier::external_body]
fn parse_key_paths(text: &str) -> (r: Result<Vec<KeyPath>, String>)
    ensures
        match r {
            Ok(v) => toml_key_paths(text@) == Some(key_pairs(v@)),
            Err(_) => toml_key_paths(text@) is None,
        },
{
    let table: toml::Table = text.parse().map_err(|e: toml::de::Error| e.to_string())?;
    let (mut out, mut stack) = (Vec::new(), vec![(Vec::new(), table.iter())]);
    while let Some((prefix, entries)) = stack.last_mut() {
        let Some((key, value)) = entries.next() else {
            stack.pop();
            continue;
        };
        let keys: Vec<String> = [prefix.clone(), vec![key.clone()]].concat();
        out.push(KeyPath { keys: keys.clone(), is_table: value.is_table() });
        if let Some(inner) = value.as_table() {
            stack.push((keys, inner.iter()));
        }
    }
    Ok(out)
}

/// The keys of a TOML document (see `toml_key_paths`), or the parser's
/// message when the text is not TOML.
pub fn key_paths_in(text: &str) -> (r: Result<Vec<KeyPath>, String>)
    ensures
        match r {
            Ok(v) => toml_key_paths(text@) == Some(key_pairs(v@)),
            Err(_) => toml_key_paths(text@) is None,
        },
{
    parse_key_paths(text)
}

/// The dotted names of the keys of a config file's text that the built-in
/// config (`known`) does not have, or the parser's message when the text is
/// not TOML. A typo'd key only earns a warning; it never stops `pen`.
pub fn unknown_keys_in(text: &str, known: &Vec<KeyPath>) -> (r: Result<Vec<String>, String>)
    ensures
        toml_key_paths(text@) is None <==> r is Err,
        r matches Ok(v) ==> views(v@) == unknown_keys_spec(toml_key_paths(text@)->0, known@),
{
    match parse_key_paths(text) {
        Ok(raw) => Ok(unknown_config_keys(&raw, known)),
        Err(e) => Err(e),
    }
}

/// The opening comment of a config file written by `pen config init`.
pub const HEADER_COMMENT: &'static str = "# Humboldti Note config file — entirely optional. Every value below is
# already the built-in default; delete anything you don't want to change.
# Missing keys (including whole [keys.*] tables) just fall back silently.
#
# Precedence: --dir flag > PEN_* env vars > this file > built-in defaults.
# `pen config check` prints what's actually in effect right now.
";

pub const NOTES_DIR_COMMENT: &'static str = "# Where daily notes are written. `~` is expanded. Overridable with
# --dir or the PEN_DIR environment variable.
";

pub const MERGE_WINDOW_COMMENT: &'static str = "# Consecutive appends within this many minutes share one time heading
# instead of starting a new one.
";

pub const EDITOR_COMMENT: &'static str = "# Command (with any arguments) used to open a note, e.g. \"nvim\" or
# \"code --wait\". Empty (the default) falls back to $EDITOR, then \"vi\".
# GUI editors need their own \"wait for the window to close\" flag (like
# code's --wait) or pen will think you're done editing immediately.
# Overridable with the PEN_EDITOR environment variable.
";

pub const KEYS_HEADER_COMMENT: &'static str = "# Keybindings for `pen cal`. Each key below the section header is the name
# of an action this version of Humboldti Note recognizes; the value is the
# list of key specs bound to it. Deleting an action's line just resets that
# one action to its built-in default.
#
# A key spec is a single character (\"h\"), a named key (\"enter\", \"esc\",
# \"left\", \"right\", \"up\", \"down\", \"tab\", \"backspace\", \"delete\", \"home\",
# \"end\", \"pageup\", \"pagedown\", \"space\"), optionally prefixed with
# modifiers (\"ctrl-a\", \"ctrl-shift-tab\"). Vim notation (\"<C-a>\") isn't
# supported.
#
# A typo'd action name is ignored with a warning. An unparseable key spec,
# or two actions in the same table claiming the same key, fails to start
# `pen cal`.
";

pub const SEARCH_INPUT_COMMENT: &'static str = "# While typing a search query. Any key not listed here is typed into
# the query as-is.
";

pub const SEARCH_RESULTS_COMMENT: &'static str = "# While browsing search results.\n";

/// The comment put above a line of the serialized default config.
pub open spec fn comment_for(line: Seq<char>) -> Seq<char> {
    if "notes_dir"@.is_prefix_of(line) {
        NOTES_DIR_COMMENT@
    } else if "merge_window_minutes"@.is_prefix_of(line) {
        MERGE_WINDOW_COMMENT@
    } else if "editor"@.is_prefix_of(line) {
        EDITOR_COMMENT@
    } else if line == "[keys.calendar]"@ {
        KEYS_HEADER_COMMENT@
    } else if line == "[keys.search_input]"@ {
        SEARCH_INPUT_COMMENT@
    } else if line == "[keys.search_results]"@ {
        SEARCH_RESULTS_COMMENT@
    } else {
        Seq::empty()
    }
}

/// The default config as `pen config init` writes it: the header comment, a
/// blank line, then every line of the serialized defaults with its comment
/// above it. Only comments are added, so the file still reads back as the
/// defaults.
pub open spec fn annotated_spec(toml: Seq<char>) -> Seq<char> {
    HEADER_COMMENT@ + "\n"@ + lines_spec(toml).map_values(|l: Seq<char>| comment_for(l) + l + "\n"@).flatten()
}

fn is_line(line: &String, lit: &str) -> (r: bool)
    ensures
        r == (line@ == lit@),
{
    *line == lit.to_string()
}

/// Adds the explanatory comments to the serialized default config.
pub fn annotate_default_config(toml: &str) -> (out: String)
    ensures
        out@ == annotated_spec(toml@),
{
    let mut out = HEADER_COMMENT.to_string();
    push_str(&mut out, "\n");
    let lines = lines_of(toml);
    let ghost lv = views(lines@);
    let ghost f = |l: Seq<char>| comment_for(l) + l + "\n"@;
    let ghost start = out@;
    let mut i: usize = 0;
    while i < lines.len()
        invariant
            i <= lines@.len(),
            lv == views(lines@),
            lv == lines_spec(toml@),
            f == (|l: Seq<char>| comment_for(l) + l + "\n"@),
            start == HEADER_COMMENT@ + "\n"@,
            out@ == start + lv.take(i as int).map_values(f).flatten(),
        decreases lines@.len() - i,
    {
        let line = &lines[i];
        assert(lv[i as int] == line@);
        let comment: &str = if starts_with(line.as_str(), "notes_dir") {
            NOTES_DIR_COMMENT
        } else if starts_with(line.as_str(), "merge_window_minutes") {
            MERGE_WINDOW_COMMENT
        } else if starts_with(line.as_str(), "editor") {
            EDITOR_COMMENT
        } else if is_line(line, "[keys.calendar]") {
            KEYS_HEADER_COMMENT
        } else if is_line(line, "[keys.search_input]") {
            SEARCH_INPUT_COMMENT
        } else if is_line(line, "[keys.search_results]") {
            SEARCH_RESULTS_COMMENT
        } else {
            ""
        };
        proof {
            reveal_strlit("");
        }
        assert(comment@ == comment_for(line@));
        let ghost before = out@;
        push_str(&mut out, comment);
        push_str(&mut out, line.as_str());
        push_str(&mut out, "\n");
        proof {
            let m = lv.take(i as int).map_values(f);
            assert(lv.take(i + 1).map_values(f) == m.push(f(lv[i as int])));
            m.lemma_flatten_push(f(lv[i as int]));
        }
        i += 1;
    }
    assert(lv.take(lines@.len() as int) == lv);
    out
}

} // verus!
