//! What a key press means on each screen of `pen cal`, and the key map built
//! from the configured key specs.
use vstd::prelude::*;

use crate::assoc;
use crate::config::Bindings;
use crate::keys::{self, Key, KeyCode, KeyEvent, KeyModifiers, KeyParseError, KeyParseFault};
use crate::text::{join, join_spec, push_str, split_on, split_spec, views, lemma_views_push};

verus! {

broadcast use vstd::string::group_string_axioms;

/// The screen a key press arrives on.
#[derive(Debug, Clone, Copy, PartialEq, Eq, Structural)]
pub enum Mode {
    Calendar,
    /// Typing a search query: unbound character keys are text.
    SearchInput,
    /// Choosing among search results.
    SearchResults,
}

/// What the user asked for, named by intent (the config file refers to
/// these by name, so the names stay when the keys change).
#[derive(Debug, Clone, Copy, PartialEq, Eq, Structural)]
pub enum Action {
    PrevDay,
    NextDay,
    PrevWeek,
    NextWeek,
    PrevMonth,
    NextMonth,
    PrevYear,
    NextYear,
    Open,
    Quit,
    EnterSearch,
    InputChar(char),
    Backspace,
    Confirm,
    Cancel,
    NextResult,
    PrevResult,
}

/// One configurable action: its name in the config file, the action, and
/// its built-in key specs.
pub type ActionDefault = (Seq<char>, Action, Seq<Seq<char>>);

/// The configurable actions of a screen with their built-in keys. Typing a
/// character into the search query is the fallback for unbound keys, not an
/// action of its own.
pub open spec fn action_table(mode: Mode) -> Seq<ActionDefault> {
    match mode {
        Mode::Calendar => seq![
            ("prev_day"@, Action::PrevDay, seq!["h"@, "left"@]),
            ("next_day"@, Action::NextDay, seq!["l"@, "right"@]),
            ("prev_week"@, Action::PrevWeek, seq!["k"@, "up"@]),
            ("next_week"@, Action::NextWeek, seq!["j"@, "down"@]),
            ("prev_month"@, Action::PrevMonth, seq!["["@]),
            ("next_month"@, Action::NextMonth, seq!["]"@]),
            ("prev_year"@, Action::PrevYear, seq!["{"@]),
            ("next_year"@, Action::NextYear, seq!["}"@]),
            ("open"@, Action::Open, seq!["enter"@]),
            ("quit"@, Action::Quit, seq!["q"@, "esc"@]),
            ("enter_search"@, Action::EnterSearch, seq!["/"@]),
        ],
        Mode::SearchInput => seq![
            ("confirm"@, Action::Confirm, seq!["enter"@]),
            ("cancel"@, Action::Cancel, seq!["esc"@]),
            ("backspace"@, Action::Backspace, seq!["backspace"@]),
        ],
        Mode::SearchResults => seq![
            ("next_result"@, Action::NextResult, seq!["j"@, "down"@]),
            ("prev_result"@, Action::PrevResult, seq!["k"@, "up"@]),
            ("confirm"@, Action::Confirm, seq!["enter"@]),
            ("cancel"@, Action::Cancel, seq!["q"@, "esc"@]),
        ],
    }
}

/// A table of action names and key specs filled in the order given.
pub open spec fn table_pairs(t: Seq<ActionDefault>) -> Seq<(Seq<char>, Seq<Seq<char>>)>
    decreases t.len(),
{
    if t.len() == 0 {
        Seq::empty()
    } else {
        assoc::assign(table_pairs(t.drop_last()), t.last().0, t.last().2)
    }
}

/// The built-in key table of a screen.
pub open spec fn default_pairs(mode: Mode) -> Seq<(Seq<char>, Seq<Seq<char>>)> {
    table_pairs(action_table(mode))
}

/// One row of the action table as the code holds it.
pub struct ActionRow {
    pub name: &'static str,
    pub action: Action,
    pub keys: Vec<&'static str>,
}

pub open spec fn row_view(r: ActionRow) -> ActionDefault {
    (r.name@, r.action, r.keys@.map_values(|k: &'static str| k@))
}

pub open spec fn rows_view(rows: Seq<ActionRow>) -> Seq<ActionDefault> {
    rows.map_values(|r: ActionRow| row_view(r))
}

fn row1(name: &'static str, action: Action, k1: &'static str) -> (r: ActionRow)
    ensures
        row_view(r) == (name@, action, seq![k1@]),
{
    let r = ActionRow { name, action, keys: vec![k1] };
    assert(r.keys@.map_values(|k: &'static str| k@) =~= seq![k1@]);
    r
}

fn row2(name: &'static str, action: Action, k1: &'static str, k2: &'static str) -> (r: ActionRow)
    ensures
        row_view(r) == (name@, action, seq![k1@, k2@]),
{
    let r = ActionRow { name, action, keys: vec![k1, k2] };
    assert(r.keys@.map_values(|k: &'static str| k@) =~= seq![k1@, k2@]);
    r
}

/// The action table of a screen.
pub fn actions_for_mode(mode: Mode) -> (rows: Vec<ActionRow>)
    ensures
        rows_view(rows@) == action_table(mode),
{
    match mode {
        Mode::Calendar => {
            let rows = vec![
                row2("prev_day", Action::PrevDay, "h", "left"),
                row2("next_day", Action::NextDay, "l", "right"),
                row2("prev_week", Action::PrevWeek, "k", "up"),
                row2("next_week", Action::NextWeek, "j", "down"),
                row1("prev_month", Action::PrevMonth, "["),
                row1("next_month", Action::NextMonth, "]"),
                row1("prev_year", Action::PrevYear, "{"),
                row1("next_year", Action::NextYear, "}"),
                row1("open", Action::Open, "enter"),
                row2("quit", Action::Quit, "q", "esc"),
                row1("enter_search", Action::EnterSearch, "/"),
            ];
            assert(rows_view(rows@) =~= action_table(mode));
            rows
        },
        Mode::SearchInput => {
            let rows = vec![
                row1("confirm", Action::Confirm, "enter"),
                row1("cancel", Action::Cancel, "esc"),
                row1("backspace", Action::Backspace, "backspace"),
            ];
            assert(rows_view(rows@) =~= action_table(mode));
            rows
        },
        Mode::SearchResults => {
            let rows = vec![
                row2("next_result", Action::NextResult, "j", "down"),
                row2("prev_result", Action::PrevResult, "k", "up"),
                row1("confirm", Action::Confirm, "enter"),
                row2("cancel", Action::Cancel, "q", "esc"),
            ];
            assert(rows_view(rows@) =~= action_table(mode));
            rows
        },
    }
}

fn strings_of(keys: &Vec<&'static str>) -> (r: Vec<String>)
    ensures
        views(r@) == keys@.map_values(|k: &'static str| k@),
{
    let mut r: Vec<String> = Vec::new();
    let mut i: usize = 0;
    while i < keys.len()
        invariant
            i <= keys.len(),
            views(r@) == keys@.map_values(|k: &'static str| k@).take(i as int),
        decreases keys.len() - i,
    {
        let s = keys[i].to_string();
        proof {
            lemma_views_push(r@, s);
        }
        r.push(s);
        assert(keys@.map_values(|k: &'static str| k@).take(i + 1)
            == keys@.map_values(|k: &'static str| k@).take(i as int).push(keys@[i as int]@));
        i += 1;
    }
    assert(keys@.map_values(|k: &'static str| k@).take(keys.len() as int)
        == keys@.map_values(|k: &'static str| k@));
    r
}

/// The built-in key table of a screen, as the config defaults use it.
pub fn default_bindings(mode: Mode) -> (b: Bindings)
    ensures
        b.pairs() == default_pairs(mode),
{
    let rows = actions_for_mode(mode);
    let ghost tv = rows_view(rows@);
    let mut b = Bindings::new();
    let mut i: usize = 0;
    while i < rows.len()
        invariant
            i <= rows.len(),
            tv == rows_view(rows@),
            tv == action_table(mode),
            b.pairs() == table_pairs(tv.take(i as int)),
        decreases rows.len() - i,
    {
        let name = rows[i].name.to_string();
        let keys = strings_of(&rows[i].keys);
        assert(tv.take(i + 1).drop_last() == tv.take(i as int));
        assert(tv.take(i + 1).last() == row_view(rows@[i as int]));
        b.insert(name, keys);
        i += 1;
    }
    assert(tv.take(rows.len() as int) == tv);
    b
}

/// Why the configured keys of a screen could not be used.
#[derive(Debug)]
pub enum KeyMapError {
    /// A key spec that does not parse.
    InvalidKey { mode: String, action: String, key: String, source: KeyParseError },
    /// A key spec naming ctrl-c, which always quits.
    Reserved { mode: String, action: String, key: String },
    /// One key claimed by two actions of the same screen.
    Conflict { mode: String, key: String, first: String, second: String },
}

/// `KeyMapError` with its texts as character sequences.
pub enum KeyMapFault {
    InvalidKey { mode: Seq<char>, action: Seq<char>, key: Seq<char>, source: KeyParseFault },
    Reserved { mode: Seq<char>, action: Seq<char>, key: Seq<char> },
    Conflict { mode: Seq<char>, key: Seq<char>, first: Seq<char>, second: Seq<char> },
}

impl View for KeyMapError {
    type V = KeyMapFault;

    open spec fn view(&self) -> KeyMapFault {
        match self {
            KeyMapError::InvalidKey { mode, action, key, source } => KeyMapFault::InvalidKey {
                mode: mode@,
                action: action@,
                key: key@,
                source: source@,
            },
            KeyMapError::Reserved { mode, action, key } => KeyMapFault::Reserved {
                mode: mode@,
                action: action@,
                key: key@,
            },
            KeyMapError::Conflict { mode, key, first, second } => KeyMapFault::Conflict {
                mode: mode@,
                key: key@,
                first: first@,
                second: second@,
            },
        }
    }
}

impl KeyMapFault {
    /// The text that describes the error to the user.
    pub open spec fn message(self) -> Seq<char> {
        match self {
            KeyMapFault::InvalidKey { mode, action, key, source } => "invalid key `"@ + key + "` bound to `"@
                + action + "` in [keys."@ + mode + "]: "@ + source.message(),
            KeyMapFault::Reserved { mode, action, key } => "key `"@ + key + "` bound to `"@ + action
                + "` in [keys."@ + mode + "] is reserved: ctrl-c always quits"@,
            KeyMapFault::Conflict { mode, key, first, second } => "key `"@ + key + "` in [keys."@ + mode
                + "] is bound to both `"@ + first + "` and `"@ + second + "`"@,
        }
    }
}

impl KeyMapError {
    /// The text that describes the error to the user.
    pub fn message(&self) -> (r: String)
        ensures
            r@ == self@.message(),
    {
        match self {
            KeyMapError::InvalidKey { mode, action, key, source } => {
                let mut r = "invalid key `".to_string();
                push_str(&mut r, key.as_str());
                push_str(&mut r, "` bound to `");
                push_str(&mut r, action.as_str());
                push_str(&mut r, "` in [keys.");
                push_str(&mut r, mode.as_str());
                push_str(&mut r, "]: ");
                let m = source.message();
                push_str(&mut r, m.as_str());
                r
            },
            KeyMapError::Reserved { mode, action, key } => {
                let mut r = "key `".to_string();
                push_str(&mut r, key.as_str());
                push_str(&mut r, "` bound to `");
                push_str(&mut r, action.as_str());
                push_str(&mut r, "` in [keys.");
                push_str(&mut r, mode.as_str());
                push_str(&mut r, "] is reserved: ctrl-c always quits");
                r
            },
            KeyMapError::Conflict { mode, key, first, second } => {
                let mut r = "key `".to_string();
                push_str(&mut r, key.as_str());
                push_str(&mut r, "` in [keys.");
                push_str(&mut r, mode.as_str());
                push_str(&mut r, "] is bound to both `");
                push_str(&mut r, first.as_str());
                push_str(&mut r, "` and `");
                push_str(&mut r, second.as_str());
                push_str(&mut r, "`");
                r
            },
        }
    }
}

/// Ctrl-C: always quits and cannot be bound, so that there is a way out on
/// every screen even in raw mode.
pub open spec fn quit_key() -> Key {
    Key { code: KeyCode::Char('c'), modifiers: KeyModifiers { control: true, ..KeyModifiers::spec_none() } }
}

fn make_quit_key() -> (k: Key)
    ensures
        k == quit_key(),
{
    Key {
        code: KeyCode::Char('c'),
        modifiers: KeyModifiers { shift: false, control: true, alt: false, super_key: false, hyper: false, meta: false },
    }
}

/// The bindings of one screen while they are being read: key to action, key
/// to the name of the action that claimed it, and the first spec written for
/// each action (shown in the key help).
pub struct BindState {
    pub keys: Seq<(Key, Action)>,
    pub owners: Seq<(Key, Seq<char>)>,
    pub first: Seq<(Action, Seq<char>)>,
}

pub open spec fn empty_bind_state() -> BindState {
    BindState { keys: seq![], owners: seq![], first: seq![] }
}

/// Reading one key spec bound to action `name`.
pub open spec fn bind_step(
    st: BindState,
    mode: Seq<char>,
    name: Seq<char>,
    action: Action,
    spec: Seq<char>,
) -> Result<BindState, KeyMapFault> {
    match keys::parse_spec(spec) {
        Err(e) => Err(KeyMapFault::InvalidKey { mode, action: name, key: spec, source: e }),
        Ok(k) => if k == quit_key() {
            Err(KeyMapFault::Reserved { mode, action: name, key: spec })
        } else {
            match assoc::lookup(st.owners, k) {
                Some(owner) if owner != name => Err(
                    KeyMapFault::Conflict { mode, key: spec, first: owner, second: name },
                ),
                _ => Ok(
                    BindState {
                        keys: assoc::assign(st.keys, k, action),
                        owners: assoc::assign(st.owners, k, name),
                        first: assoc::assign_if_absent(st.first, action, spec),
                    },
                ),
            }
        },
    }
}

/// Reading the specs of one action from index `j` on.
pub open spec fn bind_specs(
    st: Result<BindState, KeyMapFault>,
    mode: Seq<char>,
    name: Seq<char>,
    action: Action,
    specs: Seq<Seq<char>>,
    j: int,
) -> Result<BindState, KeyMapFault>
    decreases specs.len() - j,
{
    match st {
        Err(e) => Err(e),
        Ok(s) => if j < 0 || j >= specs.len() {
            Ok(s)
        } else {
            bind_specs(bind_step(s, mode, name, action, specs[j]), mode, name, action, specs, j + 1)
        },
    }
}

/// Reading the configured specs of every action of the table from row `t`
/// on. Names the table does not know are not read here (they are reported
/// as unknown config keys instead).
pub open spec fn bind_table(
    st: Result<BindState, KeyMapFault>,
    mode: Seq<char>,
    table: Seq<ActionDefault>,
    configured: Seq<(Seq<char>, Seq<Seq<char>>)>,
    t: int,
) -> Result<BindState, KeyMapFault>
    decreases table.len() - t,
{
    if t < 0 || t >= table.len() {
        st
    } else {
        match assoc::lookup(configured, table[t].0) {
            None => bind_table(st, mode, table, configured, t + 1),
            Some(specs) => bind_table(
                bind_specs(st, mode, table[t].0, table[t].1, specs, 0),
                mode,
                table,
                configured,
                t + 1,
            ),
        }
    }
}

/// The bindings of a screen read from its configured key specs.
pub open spec fn bind_mode(
    mode_name: Seq<char>,
    mode: Mode,
    configured: Seq<(Seq<char>, Seq<Seq<char>>)>,
) -> Result<BindState, KeyMapFault> {
    bind_table(Ok(empty_bind_state()), mode_name, action_table(mode), configured, 0)
}

proof fn lemma_bind_table_err(
    e: KeyMapFault,
    mode: Seq<char>,
    table: Seq<ActionDefault>,
    configured: Seq<(Seq<char>, Seq<Seq<char>>)>,
    t: int,
)
    ensures
        bind_table(Err(e), mode, table, configured, t) == Err::<BindState, KeyMapFault>(e),
    decreases table.len() - t,
{
    if 0 <= t < table.len() {
        lemma_bind_table_err(e, mode, table, configured, t + 1);
    }
}

/// The action of the row named `name` in a table.
pub open spec fn named_action(table: Seq<ActionDefault>, name: Seq<char>) -> Option<Action> {
    assoc::lookup(table.map_values(|r: ActionDefault| (r.0, r.1)), name)
}

proof fn lemma_action_names_distinct(mode: Mode)
    ensures
        forall|a: int, b: int|
            0 <= a < b < action_table(mode).len() ==> #[trigger] action_table(mode)[a].0
                != #[trigger] action_table(mode)[b].0,
{
    reveal_strlit("prev_day");
    reveal_strlit("next_day");
    reveal_strlit("prev_week");
    reveal_strlit("next_week");
    reveal_strlit("prev_month");
    reveal_strlit("next_month");
    reveal_strlit("prev_year");
    reveal_strlit("next_year");
    reveal_strlit("open");
    reveal_strlit("quit");
    reveal_strlit("enter_search");
    reveal_strlit("confirm");
    reveal_strlit("cancel");
    reveal_strlit("backspace");
    reveal_strlit("next_result");
    reveal_strlit("prev_result");
    let t = action_table(mode);
    assert forall|a: int, b: int| 0 <= a < b < t.len() implies #[trigger] t[a].0 != #[trigger] t[b].0 by {
        if t[a].0 == t[b].0 {
            assert(t[a].0.len() == t[b].0.len());
            assert(t[a].0[0] == t[b].0[0]);
            assert(t[a].0.len() > 5 ==> t[a].0[5] == t[b].0[5]);
        }
    }
}

/// Each row's name names that row's action.
proof fn lemma_named_action_of_row(mode: Mode, t: int)
    requires
        0 <= t < action_table(mode).len(),
    ensures
        named_action(action_table(mode), action_table(mode)[t].0) == Some(action_table(mode)[t].1),
{
    let table = action_table(mode);
    let pairs = table.map_values(|r: ActionDefault| (r.0, r.1));
    lemma_action_names_distinct(mode);
    assert forall|j: int| 0 <= j < t implies pairs[j].0 != table[t].0 by {
        assert(table[j].0 != table[t].0);
    }
    assoc::lemma_find_characterized(pairs, table[t].0, t);
}

/// What every partial reading of a screen's keys keeps: a key owned by an
/// action name is bound to the action of that name, and ctrl-c is unbound.
spec fn bind_inv(st: BindState, table: Seq<ActionDefault>) -> bool {
    &&& forall|k: Key| #[trigger] assoc::lookup(st.owners, k) is Some ==> assoc::lookup(st.keys, k)
        == named_action(table, assoc::lookup(st.owners, k)->0)
    &&& assoc::lookup(st.keys, quit_key()) is None
}

/// `a` keeps every owner that `b` has.
spec fn keeps_owners(b: BindState, a: BindState) -> bool {
    forall|k: Key| #[trigger] assoc::lookup(b.owners, k) is Some ==> assoc::lookup(a.owners, k)
        == assoc::lookup(b.owners, k)
}

proof fn lemma_bind_step_inv(
    st: BindState,
    mode: Seq<char>,
    name: Seq<char>,
    action: Action,
    spec: Seq<char>,
    table: Seq<ActionDefault>,
)
    requires
        bind_inv(st, table),
        named_action(table, name) == Some(action),
        bind_step(st, mode, name, action, spec) is Ok,
    ensures
        bind_inv(bind_step(st, mode, name, action, spec)->Ok_0, table),
        keeps_owners(st, bind_step(st, mode, name, action, spec)->Ok_0),
        assoc::lookup(bind_step(st, mode, name, action, spec)->Ok_0.owners, keys::parse_spec(spec)->Ok_0)
            == Some(name),
{
    let k = keys::parse_spec(spec)->Ok_0;
    let st2 = bind_step(st, mode, name, action, spec)->Ok_0;
    assert(k != quit_key());
    assert(st2.keys == assoc::assign(st.keys, k, action));
    assert(st2.owners == assoc::assign(st.owners, k, name));
    assoc::lemma_lookup_assign(st.owners, k, name, k);
    assoc::lemma_lookup_assign(st.keys, k, action, quit_key());
    assert forall|k2: Key| #[trigger] assoc::lookup(st2.owners, k2) is Some implies assoc::lookup(st2.keys, k2)
        == named_action(table, assoc::lookup(st2.owners, k2)->0) by {
        assoc::lemma_lookup_assign(st.owners, k, name, k2);
        assoc::lemma_lookup_assign(st.keys, k, action, k2);
    }
    assert forall|k2: Key| #[trigger] assoc::lookup(st.owners, k2) is Some implies assoc::lookup(st2.owners, k2)
        == assoc::lookup(st.owners, k2) by {
        assoc::lemma_lookup_assign(st.owners, k, name, k2);
    }
}

proof fn lemma_bind_specs_inv(
    st: BindState,
    mode: Seq<char>,
    name: Seq<char>,
    action: Action,
    specs: Seq<Seq<char>>,
    j: int,
    table: Seq<ActionDefault>,
)
    requires
        0 <= j,
        bind_inv(st, table),
        named_action(table, name) == Some(action),
        bind_specs(Ok(st), mode, name, action, specs, j) is Ok,
    ensures
        bind_inv(bind_specs(Ok(st), mode, name, action, specs, j)->Ok_0, table),
        keeps_owners(st, bind_specs(Ok(st), mode, name, action, specs, j)->Ok_0),
        forall|i: int|
            j <= i < specs.len() && keys::parse_spec(#[trigger] specs[i]) is Ok ==> assoc::lookup(
                bind_specs(Ok(st), mode, name, action, specs, j)->Ok_0.owners,
                keys::parse_spec(specs[i])->Ok_0,
            ) == Some(name),
    decreases specs.len() - j,
{
    if j < specs.len() {
        let r = bind_step(st, mode, name, action, specs[j]);
        if r is Err {
            assert(bind_specs(r, mode, name, action, specs, j + 1) == r);
        }
        let st1 = r->Ok_0;
        lemma_bind_step_inv(st, mode, name, action, specs[j], table);
        lemma_bind_specs_inv(st1, mode, name, action, specs, j + 1, table);
        let fin = bind_specs(Ok(st1), mode, name, action, specs, j + 1)->Ok_0;
        assert(bind_specs(Ok(st), mode, name, action, specs, j) == bind_specs(Ok(st1), mode, name, action, specs, j + 1));
        assert forall|k: Key| #[trigger] assoc::lookup(st.owners, k) is Some implies assoc::lookup(fin.owners, k)
            == assoc::lookup(st.owners, k) by {
            assert(assoc::lookup(st1.owners, k) == assoc::lookup(st.owners, k));
        }
        assert forall|i: int| j <= i < specs.len() && keys::parse_spec(#[trigger] specs[i]) is Ok implies assoc::lookup(
            fin.owners,
            keys::parse_spec(specs[i])->Ok_0,
        ) == Some(name) by {
            if i == j {
                assert(assoc::lookup(st1.owners, keys::parse_spec(specs[i])->Ok_0) is Some);
            }
        }
    }
}

proof fn lemma_bind_table_inv(
    st: BindState,
    mode_name: Seq<char>,
    mode: Mode,
    configured: Seq<(Seq<char>, Seq<Seq<char>>)>,
    t: int,
)
    requires
        0 <= t,
        bind_inv(st, action_table(mode)),
        bind_table(Ok(st), mode_name, action_table(mode), configured, t) is Ok,
    ensures
        bind_inv(bind_table(Ok(st), mode_name, action_table(mode), configured, t)->Ok_0, action_table(mode)),
        keeps_owners(st, bind_table(Ok(st), mode_name, action_table(mode), configured, t)->Ok_0),
    decreases action_table(mode).len() - t,
{
    let table = action_table(mode);
    if t < table.len() {
        match assoc::lookup(configured, table[t].0) {
            None => {
                lemma_bind_table_inv(st, mode_name, mode, configured, t + 1);
            },
            Some(specs) => {
                let r = bind_specs(Ok(st), mode_name, table[t].0, table[t].1, specs, 0);
                if r is Err {
                    lemma_bind_table_err(r->Err_0, mode_name, table, configured, t + 1);
                }
                lemma_named_action_of_row(mode, t);
                lemma_bind_specs_inv(st, mode_name, table[t].0, table[t].1, specs, 0, table);
                let st1 = r->Ok_0;
                lemma_bind_table_inv(st1, mode_name, mode, configured, t + 1);
                let fin = bind_table(Ok(st1), mode_name, table, configured, t + 1)->Ok_0;
                assert forall|k: Key| #[trigger] assoc::lookup(st.owners, k) is Some implies assoc::lookup(
                    fin.owners,
                    k,
                ) == assoc::lookup(st.owners, k) by {
                    assert(assoc::lookup(st1.owners, k) == assoc::lookup(st.owners, k));
                }
            },
        }
    }
}

proof fn lemma_bind_table_binds(
    st: BindState,
    mode_name: Seq<char>,
    mode: Mode,
    configured: Seq<(Seq<char>, Seq<Seq<char>>)>,
    t: int,
    u: int,
    i: int,
)
    requires
        0 <= t <= u < action_table(mode).len(),
        bind_inv(st, action_table(mode)),
        bind_table(Ok(st), mode_name, action_table(mode), configured, t) is Ok,
        assoc::lookup(configured, action_table(mode)[u].0) matches Some(specs) && 0 <= i < specs.len()
            && keys::parse_spec(specs[i]) is Ok,
    ensures
        assoc::lookup(
            bind_table(Ok(st), mode_name, action_table(mode), configured, t)->Ok_0.owners,
            keys::parse_spec(assoc::lookup(configured, action_table(mode)[u].0)->0[i])->Ok_0,
        ) == Some(action_table(mode)[u].0),
    decreases u - t,
{
    let table = action_table(mode);
    let k = keys::parse_spec(assoc::lookup(configured, table[u].0)->0[i])->Ok_0;
    match assoc::lookup(configured, table[t].0) {
        None => {
            assert(t != u);
            lemma_bind_table_binds(st, mode_name, mode, configured, t + 1, u, i);
        },
        Some(specs) => {
            let r = bind_specs(Ok(st), mode_name, table[t].0, table[t].1, specs, 0);
            if r is Err {
                lemma_bind_table_err(r->Err_0, mode_name, table, configured, t + 1);
            }
            lemma_named_action_of_row(mode, t);
            lemma_bind_specs_inv(st, mode_name, table[t].0, table[t].1, specs, 0, table);
            let st1 = r->Ok_0;
            if t == u {
                assert(keys::parse_spec(specs[i]) is Ok);
                assert(assoc::lookup(st1.owners, k) == Some(table[u].0));
                lemma_bind_table_inv(st1, mode_name, mode, configured, t + 1);
            } else {
                lemma_bind_table_binds(st1, mode_name, mode, configured, t + 1, u, i);
            }
        },
    }
}

/// A key written in the config for an action of a screen binds that action
/// there: once the screen's keys are read without error, the key's entry
/// is the action, and ctrl-c has none.
pub proof fn lemma_configured_key_binds_its_action(
    mode_name: Seq<char>,
    mode: Mode,
    configured: Seq<(Seq<char>, Seq<Seq<char>>)>,
    u: int,
    i: int,
)
    requires
        bind_mode(mode_name, mode, configured) is Ok,
        0 <= u < action_table(mode).len(),
        assoc::lookup(configured, action_table(mode)[u].0) matches Some(specs) && 0 <= i < specs.len()
            && keys::parse_spec(specs[i]) is Ok,
    ensures
        assoc::lookup(
            bind_mode(mode_name, mode, configured)->Ok_0.keys,
            keys::parse_spec(assoc::lookup(configured, action_table(mode)[u].0)->0[i])->Ok_0,
        ) == Some(action_table(mode)[u].1),
        assoc::lookup(bind_mode(mode_name, mode, configured)->Ok_0.keys, quit_key()) is None,
{
    let st = empty_bind_state();
    let k = keys::parse_spec(assoc::lookup(configured, action_table(mode)[u].0)->0[i])->Ok_0;
    assert(bind_inv(st, action_table(mode)));
    lemma_bind_table_inv(st, mode_name, mode, configured, 0);
    lemma_bind_table_binds(st, mode_name, mode, configured, 0, u, i);
    lemma_named_action_of_row(mode, u);
    let fin = bind_mode(mode_name, mode, configured)->Ok_0;
    assert(assoc::lookup(fin.owners, k) is Some);
}

/// The key table of one screen.
pub struct ModeMap {
    keys: Vec<(Key, Action)>,
    first_key: Vec<(Action, String)>,
}

impl ModeMap {
    pub closed spec fn key_pairs(&self) -> Seq<(Key, Action)> {
        self.keys@
    }

    pub closed spec fn first_pairs(&self) -> Seq<(Action, Seq<char>)> {
        self.first_key@.map_values(|e: (Action, String)| (e.0, e.1@))
    }
}

/// The key tables of all screens.
pub struct KeyMap {
    calendar: ModeMap,
    search_input: ModeMap,
    search_results: ModeMap,
}

impl KeyMap {
    pub closed spec fn mode_map(&self, mode: Mode) -> ModeMap {
        match mode {
            Mode::Calendar => self.calendar,
            Mode::SearchInput => self.search_input,
            Mode::SearchResults => self.search_results,
        }
    }

    /// Key to action on a screen.
    pub open spec fn table(&self, mode: Mode) -> Seq<(Key, Action)> {
        self.mode_map(mode).key_pairs()
    }

    /// The first key spec written for each action on a screen.
    pub open spec fn first_keys(&self, mode: Mode) -> Seq<(Action, Seq<char>)> {
        self.mode_map(mode).first_pairs()
    }
}

fn find_key(l: &Vec<(Key, Action)>, k: Key) -> (i: usize)
    ensures
        i as int == assoc::find(l@, k),
        i <= l@.len(),
{
    let mut i: usize = 0;
    while i < l.len()
        invariant
            i <= l.len(),
            forall|j: int| 0 <= j < i ==> l@[j].0 != k,
        decreases l.len() - i,
    {
        if l[i].0 == k {
            proof {
                assoc::lemma_find_characterized(l@, k, i as int);
            }
            return i;
        }
        i += 1;
    }
    proof {
        assoc::lemma_find_characterized(l@, k, l@.len() as int);
    }
    i
}

pub open spec fn owner_view(l: Seq<(Key, String)>) -> Seq<(Key, Seq<char>)> {
    l.map_values(|e: (Key, String)| (e.0, e.1@))
}

pub open spec fn first_view(l: Seq<(Action, String)>) -> Seq<(Action, Seq<char>)> {
    l.map_values(|e: (Action, String)| (e.0, e.1@))
}

fn find_owner(l: &Vec<(Key, String)>, k: Key) -> (i: usize)
    ensures
        i as int == assoc::find(owner_view(l@), k),
        i <= l@.len(),
{
    let ghost v = owner_view(l@);
    let mut i: usize = 0;
    while i < l.len()
        invariant
            i <= l.len(),
            v == owner_view(l@),
            forall|j: int| 0 <= j < i ==> v[j].0 != k,
        decreases l.len() - i,
    {
        assert(v[i as int].0 == l@[i as int].0);
        if l[i].0 == k {
            proof {
                assoc::lemma_find_characterized(v, k, i as int);
            }
            return i;
        }
        i += 1;
    }
    proof {
        assoc::lemma_find_characterized(v, k, v.len() as int);
    }
    i
}

fn find_action(l: &Vec<(Action, String)>, a: Action) -> (i: usize)
    ensures
        i as int == assoc::find(first_view(l@), a),
        i <= l@.len(),
{
    let ghost v = first_view(l@);
    let mut i: usize = 0;
    while i < l.len()
        invariant
            i <= l.len(),
            v == first_view(l@),
            forall|j: int| 0 <= j < i ==> v[j].0 != a,
        decreases l.len() - i,
    {
        assert(v[i as int].0 == l@[i as int].0);
        if l[i].0 == a {
            proof {
                assoc::lemma_find_characterized(v, a, i as int);
            }
            return i;
        }
        i += 1;
    }
    proof {
        assoc::lemma_find_characterized(v, a, v.len() as int);
    }
    i
}

/// Reads the configured keys of one screen. Action names the screen does
/// not know are skipped; a spec that does not parse, a spec naming ctrl-c,
/// and a key claimed by two actions are errors.
fn build_mode_map(mode: &str, lookup_mode: Mode, configured: &Bindings) -> (r: Result<ModeMap, KeyMapError>)
    ensures
        match r {
            Ok(mm) => bind_mode(mode@, lookup_mode, configured.pairs()) == Ok::<BindState, KeyMapFault>(
                BindState {
                    keys: mm.key_pairs(),
                    owners: bind_mode(mode@, lookup_mode, configured.pairs())->Ok_0.owners,
                    first: mm.first_pairs(),
                },
            ),
            Err(e) => bind_mode(mode@, lookup_mode, configured.pairs()) == Err::<BindState, KeyMapFault>(e@),
        },
{
    let rows = actions_for_mode(lookup_mode);
    let ghost table = rows_view(rows@);
    let ghost cfg = configured.pairs();
    let mut keys_map: Vec<(Key, Action)> = Vec::new();
    let mut owners: Vec<(Key, String)> = Vec::new();
    let mut first_key: Vec<(Action, String)> = Vec::new();
    let quit = make_quit_key();
    let mut t: usize = 0;
    assert(owner_view(owners@) =~= Seq::<(Key, Seq<char>)>::empty());
    assert(first_view(first_key@) =~= Seq::<(Action, Seq<char>)>::empty());
    while t < rows.len()
        invariant
            t <= rows.len(),
            table == rows_view(rows@),
            table == action_table(lookup_mode),
            cfg == configured.pairs(),
            quit == quit_key(),
            bind_table(
                Ok(BindState { keys: keys_map@, owners: owner_view(owners@), first: first_view(first_key@) }),
                mode@,
                table,
                cfg,
                t as int,
            ) == bind_mode(mode@, lookup_mode, cfg),
        decreases rows.len() - t,
    {
        let name: &'static str = rows[t].name;
        let action = rows[t].action;
        assert(table[t as int].0 == name@ && table[t as int].1 == action);
        match configured.get(name) {
            None => {},
            Some(specs) => {
                let ghost sv = views(specs@);
                let mut j: usize = 0;
                while j < specs.len()
                    invariant
                        j <= specs.len(),
                        sv == views(specs@),
                        cfg == configured.pairs(),
                        table == action_table(lookup_mode),
                        quit == quit_key(),
                        assoc::lookup(cfg, name@) == Some(sv),
                        table[t as int].0 == name@ && table[t as int].1 == action,
                        0 <= t < table.len(),
                        bind_table(
                            bind_specs(
                                Ok(BindState { keys: keys_map@, owners: owner_view(owners@), first: first_view(first_key@) }),
                                mode@,
                                name@,
                                action,
                                sv,
                                j as int,
                            ),
                            mode@,
                            table,
                            cfg,
                            t + 1,
                        ) == bind_mode(mode@, lookup_mode, cfg),
                    decreases specs.len() - j,
                {
                    let spec = &specs[j];
                    assert(sv[j as int] == spec@);
                    let ghost st = BindState { keys: keys_map@, owners: owner_view(owners@), first: first_view(first_key@) };
                    let key = match keys::parse(spec.as_str()) {
                        Ok(k) => k,
                        Err(source) => {
                            let e = KeyMapError::InvalidKey {
                                mode: mode.to_string(),
                                action: name.to_string(),
                                key: spec.clone(),
                                source,
                            };
                            proof {
                                assert(bind_step(st, mode@, name@, action, spec@) == Err::<BindState, KeyMapFault>(e@));
                                assert(bind_specs(Err(e@), mode@, name@, action, sv, j + 1) == Err::<BindState, KeyMapFault>(e@));
                                assert(bind_specs(Ok(st), mode@, name@, action, sv, j as int) == Err::<BindState, KeyMapFault>(e@));
                                lemma_bind_table_err(e@, mode@, table, cfg, t + 1);
                            }
                            return Err(e);
                        },
                    };
                    if key == quit {
                        let e = KeyMapError::Reserved {
                            mode: mode.to_string(),
                            action: name.to_string(),
                            key: spec.clone(),
                        };
                        proof {
                            assert(bind_step(st, mode@, name@, action, spec@) == Err::<BindState, KeyMapFault>(e@));
                            assert(bind_specs(Err(e@), mode@, name@, action, sv, j + 1) == Err::<BindState, KeyMapFault>(e@));
                            assert(bind_specs(Ok(st), mode@, name@, action, sv, j as int) == Err::<BindState, KeyMapFault>(e@));
                            lemma_bind_table_err(e@, mode@, table, cfg, t + 1);
                        }
                        return Err(e);
                    }
                    let oi = find_owner(&owners, key);
                    let name_s = name.to_string();
                    if oi < owners.len() {
                        assert(owner_view(owners@)[oi as int].1 == owners@[oi as int].1@);
                        if owners[oi].1 != name_s {
                            let e = KeyMapError::Conflict {
                                mode: mode.to_string(),
                                key: spec.clone(),
                                first: owners[oi].1.clone(),
                                second: name_s,
                            };
                            proof {
                                assert(assoc::lookup(st.owners, key) == Some(owners@[oi as int].1@));
                                assert(bind_step(st, mode@, name@, action, spec@) == Err::<BindState, KeyMapFault>(e@));
                                assert(bind_specs(Err(e@), mode@, name@, action, sv, j + 1) == Err::<BindState, KeyMapFault>(e@));
                                assert(bind_specs(Ok(st), mode@, name@, action, sv, j as int) == Err::<BindState, KeyMapFault>(e@));
                                lemma_bind_table_err(e@, mode@, table, cfg, t + 1);
                            }
                            return Err(e);
                        }
                    }
                    // Claim the key for this action.
                    let ghost ov = owner_view(owners@);
                    if oi < owners.len() {
                        owners.set(oi, (key, name_s));
                        assert(owner_view(owners@) =~= ov.update(oi as int, (key, name@)));
                    } else {
                        owners.push((key, name_s));
                        assert(owner_view(owners@) =~= ov.push((key, name@)));
                    }
                    let ki = find_key(&keys_map, key);
                    if ki < keys_map.len() {
                        keys_map.set(ki, (key, action));
                    } else {
                        keys_map.push((key, action));
                    }
                    let ghost fv = first_view(first_key@);
                    let fi = find_action(&first_key, action);
                    if fi >= first_key.len() {
                        first_key.push((action, spec.clone()));
                        assert(first_view(first_key@) =~= fv.push((action, spec@)));
                    }
                    proof {
                        assoc::lemma_find_from_range(fv, action, 0);
                        assert(first_view(first_key@) == assoc::assign_if_absent(fv, action, spec@));
                        assert(bind_step(st, mode@, name@, action, spec@) == Ok::<BindState, KeyMapFault>(
                            BindState { keys: keys_map@, owners: owner_view(owners@), first: first_view(first_key@) },
                        ));
                    }
                    j += 1;
                }
            },
        }
        t += 1;
    }
    Ok(ModeMap { keys: keys_map, first_key })
}

impl KeyMap {
    /// Builds the key tables of all screens from the configured key specs.
    pub fn from_config(cfg: &crate::config::KeysConfig) -> (r: Result<KeyMap, KeyMapError>)
        ensures
            match r {
                Ok(km) => {
                    &&& bind_mode("calendar"@, Mode::Calendar, cfg.calendar.pairs()) matches Ok(s)
                        && s.keys == km.table(Mode::Calendar) && s.first == km.first_keys(Mode::Calendar)
                    &&& bind_mode("search_input"@, Mode::SearchInput, cfg.search_input.pairs()) matches Ok(s)
                        && s.keys == km.table(Mode::SearchInput) && s.first == km.first_keys(Mode::SearchInput)
                    &&& bind_mode("search_results"@, Mode::SearchResults, cfg.search_results.pairs()) matches Ok(s)
                        && s.keys == km.table(Mode::SearchResults) && s.first == km.first_keys(Mode::SearchResults)
                },
                Err(e) => {
                    ||| bind_mode("calendar"@, Mode::Calendar, cfg.calendar.pairs()) == Err::<BindState, KeyMapFault>(e@)
                    ||| (bind_mode("calendar"@, Mode::Calendar, cfg.calendar.pairs()) is Ok
                        && bind_mode("search_input"@, Mode::SearchInput, cfg.search_input.pairs())
                        == Err::<BindState, KeyMapFault>(e@))
                    ||| (bind_mode("calendar"@, Mode::Calendar, cfg.calendar.pairs()) is Ok
                        && bind_mode("search_input"@, Mode::SearchInput, cfg.search_input.pairs()) is Ok
                        && bind_mode("search_results"@, Mode::SearchResults, cfg.search_results.pairs())
                        == Err::<BindState, KeyMapFault>(e@))
                },
            },
    {
        let calendar = build_mode_map("calendar", Mode::Calendar, &cfg.calendar)?;
        let search_input = build_mode_map("search_input", Mode::SearchInput, &cfg.search_input)?;
        let search_results = build_mode_map("search_results", Mode::SearchResults, &cfg.search_results)?;
        Ok(KeyMap { calendar, search_input, search_results })
    }
}

impl KeyMap {
    fn map_for(&self, mode: Mode) -> (m: &ModeMap)
        ensures
            *m == self.mode_map(mode),
    {
        match mode {
            Mode::Calendar => &self.calendar,
            Mode::SearchInput => &self.search_input,
            Mode::SearchResults => &self.search_results,
        }
    }
}

/// What a key press means: ctrl-c quits everywhere; a bound key does what it
/// is bound to; on the search-input screen an unbound character typed with
/// at most shift held is text; anything else means nothing.
pub open spec fn resolve_spec(keymap: KeyMap, key: KeyEvent, mode: Mode) -> Option<Action> {
    let n = keys::normalize_spec(key.code, key.modifiers);
    if n == quit_key() {
        Some(Action::Quit)
    } else {
        match assoc::lookup(keymap.table(mode), n) {
            Some(a) => Some(a),
            None => match mode {
                Mode::SearchInput => match key.code {
                    KeyCode::Char(c) => if key.modifiers.only_shift() {
                        Some(Action::InputChar(c))
                    } else {
                        None
                    },
                    _ => None,
                },
                _ => None,
            },
        }
    }
}

/// What `key` means on the screen `mode`. This is the one place that looks
/// at raw keys; everything after it works with actions.
pub fn resolve(keymap: &KeyMap, key: KeyEvent, mode: Mode) -> (r: Option<Action>)
    ensures
        r == resolve_spec(*keymap, key, mode),
{
    let normalized = keys::normalize(key.code, key.modifiers);
    if normalized == make_quit_key() {
        return Some(Action::Quit);
    }
    let table = &keymap.map_for(mode).keys;
    let i = find_key(table, normalized);
    if i < table.len() {
        return Some(table[i].1);
    }
    match mode {
        Mode::SearchInput => match key.code {
            KeyCode::Char(c) => {
                if !key.modifiers.control && !key.modifiers.alt && !key.modifiers.super_key
                    && !key.modifiers.hyper && !key.modifiers.meta {
                    Some(Action::InputChar(c))
                } else {
                    None
                }
            },
            _ => None,
        },
        Mode::Calendar | Mode::SearchResults => None,
    }
}

/// Ctrl-C quits on every screen, whatever the configuration.
pub proof fn lemma_ctrl_c_quits_on_every_screen(keymap: KeyMap, mode: Mode)
    ensures
        resolve_spec(
            keymap,
            KeyEvent { code: KeyCode::Char('c'), modifiers: quit_key().modifiers },
            mode,
        ) == Some(Action::Quit),
{
}

/// Ctrl-C cannot be bound: a screen whose keys read without error has no
/// configured spec that means ctrl-c.
pub proof fn lemma_ctrl_c_cannot_be_bound(
    mode_name: Seq<char>,
    mode: Mode,
    configured: Seq<(Seq<char>, Seq<Seq<char>>)>,
    u: int,
    i: int,
)
    requires
        bind_mode(mode_name, mode, configured) is Ok,
        0 <= u < action_table(mode).len(),
        assoc::lookup(configured, action_table(mode)[u].0) matches Some(specs) && 0 <= i < specs.len()
            && keys::parse_spec(specs[i]) is Ok,
    ensures
        keys::parse_spec(assoc::lookup(configured, action_table(mode)[u].0)->0[i])->Ok_0 != quit_key(),
{
    lemma_configured_key_binds_its_action(mode_name, mode, configured, u, i);
}

/// One key, one action: a screen whose keys read without error never has
/// the same key configured for two of its actions.
pub proof fn lemma_no_key_serves_two_actions(
    mode_name: Seq<char>,
    mode: Mode,
    configured: Seq<(Seq<char>, Seq<Seq<char>>)>,
    u: int,
    i: int,
    v: int,
    j: int,
)
    requires
        bind_mode(mode_name, mode, configured) is Ok,
        0 <= u < action_table(mode).len(),
        0 <= v < action_table(mode).len(),
        u != v,
        assoc::lookup(configured, action_table(mode)[u].0) matches Some(specs) && 0 <= i < specs.len()
            && keys::parse_spec(specs[i]) is Ok,
        assoc::lookup(configured, action_table(mode)[v].0) matches Some(specs) && 0 <= j < specs.len()
            && keys::parse_spec(specs[j]) is Ok,
    ensures
        keys::parse_spec(assoc::lookup(configured, action_table(mode)[u].0)->0[i])->Ok_0 != keys::parse_spec(
            assoc::lookup(configured, action_table(mode)[v].0)->0[j],
        )->Ok_0,
{
    let st = empty_bind_state();
    assert(bind_inv(st, action_table(mode)));
    lemma_bind_table_binds(st, mode_name, mode, configured, 0, u, i);
    lemma_bind_table_binds(st, mode_name, mode, configured, 0, v, j);
    lemma_action_names_distinct(mode);
    if u < v {
        assert(action_table(mode)[u].0 != action_table(mode)[v].0);
    } else {
        assert(action_table(mode)[v].0 != action_table(mode)[u].0);
    }
}

/// With a key map read from the config (`KeyMap::from_config` gives a
/// screen's table as read from its configured specs), pressing a key that
/// the config writes for an action of that screen performs the action.
pub proof fn lemma_configured_key_resolves(
    keymap: KeyMap,
    mode_name: Seq<char>,
    mode: Mode,
    configured: Seq<(Seq<char>, Seq<Seq<char>>)>,
    u: int,
    i: int,
)
    requires
        bind_mode(mode_name, mode, configured) matches Ok(s) && s.keys == keymap.table(mode),
        0 <= u < action_table(mode).len(),
        assoc::lookup(configured, action_table(mode)[u].0) matches Some(specs) && 0 <= i < specs.len()
            && keys::parse_spec(specs[i]) is Ok,
    ensures
        ({
            let k = keys::parse_spec(assoc::lookup(configured, action_table(mode)[u].0)->0[i])->Ok_0;
            resolve_spec(keymap, KeyEvent { code: k.code, modifiers: k.modifiers }, mode) == Some(
                action_table(mode)[u].1,
            )
        }),
{
    lemma_configured_key_binds_its_action(mode_name, mode, configured, u, i);
    let k = keys::parse_spec(assoc::lookup(configured, action_table(mode)[u].0)->0[i])->Ok_0;
    assert(keys::normalize_spec(k.code, k.modifiers) == k);
}

/// How a key spec is shown in the key help: every `-`-separated part longer
/// than one character gets an uppercase first letter (`Enter`, `Ctrl-a`); a
/// single character stays as written, since `G` and `g` are different keys.
pub open spec fn display_part(p: Seq<char>) -> Seq<char> {
    if p.len() >= 2 {
        keys::upper_mapping(p[0]) + p.drop_first()
    } else {
        p
    }
}

pub open spec fn display_key_spec(spec: Seq<char>) -> Seq<char> {
    join_spec(split_spec(spec, '-').map_values(|p: Seq<char>| display_part(p)), "-"@)
}

/// A key spec as shown in the key help.
pub fn display_key(spec: &str) -> (r: String)
    ensures
        r@ == display_key_spec(spec@),
{
    let parts = split_on(spec, '-');
    let ghost pv = views(parts@);
    let mut shown: Vec<String> = Vec::new();
    let mut i: usize = 0;
    while i < parts.len()
        invariant
            i <= parts.len(),
            pv == views(parts@),
            views(shown@) == pv.take(i as int).map_values(|p: Seq<char>| display_part(p)),
        decreases parts.len() - i,
    {
        let cs = crate::text::chars_of(parts[i].as_str());
        assert(cs@ == pv[i as int]);
        let part = if cs.len() >= 2 {
            let up = keys::uppercase(cs[0]);
            let mut p = crate::text::string_of(up.as_slice());
            let rest = crate::text::string_of_range(cs.as_slice(), 1, cs.len());
            push_str(&mut p, rest.as_str());
            assert(cs@.subrange(1, cs@.len() as int) == cs@.drop_first());
            p
        } else {
            parts[i].clone()
        };
        proof {
            lemma_views_push(shown@, part);
            assert(pv.take(i + 1).map_values(|p: Seq<char>| display_part(p))
                == pv.take(i as int).map_values(|p: Seq<char>| display_part(p)).push(display_part(pv[i as int])));
        }
        shown.push(part);
        i += 1;
    }
    assert(pv.take(parts.len() as int) == pv);
    join(&shown, "-")
}

/// The key help of a screen: labels and the actions whose keys they show,
/// paired actions (previous/next) sharing one item.
pub open spec fn help_table(mode: Mode) -> Seq<(Seq<char>, Seq<Action>)> {
    match mode {
        Mode::Calendar => seq![
            ("day"@, seq![Action::PrevDay, Action::NextDay]),
            ("week"@, seq![Action::PrevWeek, Action::NextWeek]),
            ("month"@, seq![Action::PrevMonth, Action::NextMonth]),
            ("year"@, seq![Action::PrevYear, Action::NextYear]),
            ("search"@, seq![Action::EnterSearch]),
            ("open"@, seq![Action::Open]),
            ("quit"@, seq![Action::Quit]),
        ],
        Mode::SearchInput => seq![("search"@, seq![Action::Confirm]), ("cancel"@, seq![Action::Cancel])],
        Mode::SearchResults => seq![
            ("move"@, seq![Action::NextResult, Action::PrevResult]),
            ("open"@, seq![Action::Confirm]),
            ("back"@, seq![Action::Cancel]),
        ],
    }
}

/// The shown keys of the actions of one help item: each action's first key,
/// skipping actions without keys.
pub open spec fn help_keys(first: Seq<(Action, Seq<char>)>, actions: Seq<Action>) -> Seq<Seq<char>>
    decreases actions.len(),
{
    if actions.len() == 0 {
        Seq::empty()
    } else {
        let rest = help_keys(first, actions.drop_last());
        match assoc::lookup(first, actions.last()) {
            Some(spec) => rest.push(display_key_spec(spec)),
            None => rest,
        }
    }
}

/// The help items (`"h l: day"`) of a help table; an item whose actions
/// have no keys at all is left out.
pub open spec fn help_spec(first: Seq<(Action, Seq<char>)>, table: Seq<(Seq<char>, Seq<Action>)>) -> Seq<Seq<char>>
    decreases table.len(),
{
    if table.len() == 0 {
        Seq::empty()
    } else {
        let rest = help_spec(first, table.drop_last());
        let ks = help_keys(first, table.last().1);
        if ks.len() > 0 {
            rest.push(join_spec(ks, " "@) + ": "@ + table.last().0)
        } else {
            rest
        }
    }
}

fn help_row1(label: &'static str, a: Action) -> (r: (&'static str, Vec<Action>))
    ensures
        r.0@ == label@,
        r.1@ == seq![a],
{
    let v = vec![a];
    assert(v@ =~= seq![a]);
    (label, v)
}

fn help_row2(label: &'static str, a: Action, b: Action) -> (r: (&'static str, Vec<Action>))
    ensures
        r.0@ == label@,
        r.1@ == seq![a, b],
{
    let v = vec![a, b];
    assert(v@ =~= seq![a, b]);
    (label, v)
}

pub open spec fn help_rows_view(rows: Seq<(&'static str, Vec<Action>)>) -> Seq<(Seq<char>, Seq<Action>)> {
    rows.map_values(|r: (&'static str, Vec<Action>)| (r.0@, r.1@))
}

/// The items of a screen's key help: a label and the actions whose keys it
/// lists.
pub fn help_for_mode(mode: Mode) -> (rows: Vec<(&'static str, Vec<Action>)>)
    ensures
        help_rows_view(rows@) == help_table(mode),
{
    match mode {
        Mode::Calendar => {
            let rows = vec![
                help_row2("day", Action::PrevDay, Action::NextDay),
                help_row2("week", Action::PrevWeek, Action::NextWeek),
                help_row2("month", Action::PrevMonth, Action::NextMonth),
                help_row2("year", Action::PrevYear, Action::NextYear),
                help_row1("search", Action::EnterSearch),
                help_row1("open", Action::Open),
                help_row1("quit", Action::Quit),
            ];
            assert(help_rows_view(rows@) =~= help_table(mode));
            rows
        },
        Mode::SearchInput => {
            let rows = vec![help_row1("search", Action::Confirm), help_row1("cancel", Action::Cancel)];
            assert(help_rows_view(rows@) =~= help_table(mode));
            rows
        },
        Mode::SearchResults => {
            let rows = vec![
                help_row2("move", Action::NextResult, Action::PrevResult),
                help_row1("open", Action::Confirm),
                help_row1("back", Action::Cancel),
            ];
            assert(help_rows_view(rows@) =~= help_table(mode));
            rows
        },
    }
}

impl KeyMap {
    /// The key help of a screen (`"h l: day"`, ...), built from the actual
    /// bindings: each action shows the first key written for it, and an item
    /// none of whose actions has a key is left out.
    pub fn help_items(&self, mode: Mode) -> (r: Vec<String>)
        ensures
            views(r@) == help_spec(self.first_keys(mode), help_table(mode)),
    {
        let first = &self.map_for(mode).first_key;
        let ghost fv = first_view(first@);
        assert(fv == self.first_keys(mode));
        let rows = help_for_mode(mode);
        let ghost tv = help_rows_view(rows@);
        let mut items: Vec<String> = Vec::new();
        let mut t: usize = 0;
        while t < rows.len()
            invariant
                t <= rows.len(),
                tv == help_rows_view(rows@),
                fv == first_view(first@),
                views(items@) == help_spec(fv, tv.take(t as int)),
            decreases rows.len() - t,
        {
            let actions = &rows[t].1;
            let mut shown: Vec<String> = Vec::new();
            let mut k: usize = 0;
            while k < actions.len()
                invariant
                    k <= actions.len(),
                    fv == first_view(first@),
                    views(shown@) == help_keys(fv, actions@.take(k as int)),
                decreases actions.len() - k,
            {
                let fi = find_action(first, actions[k]);
                assert(actions@.take(k + 1).drop_last() == actions@.take(k as int));
                assert(actions@.take(k + 1).last() == actions@[k as int]);
                if fi < first.len() {
                    assert(fv[fi as int].1 == first@[fi as int].1@);
                    let d = display_key(first[fi].1.as_str());
                    proof {
                        lemma_views_push(shown@, d);
                    }
                    shown.push(d);
                }
                k += 1;
            }
            assert(actions@.take(actions.len() as int) == actions@);
            assert(tv.take(t + 1).drop_last() == tv.take(t as int));
            assert(tv.take(t + 1).last() == tv[t as int]);
            assert(tv[t as int].1 == actions@ && tv[t as int].0 == rows@[t as int].0@);
            if shown.len() > 0 {
                let mut item = join(&shown, " ");
                push_str(&mut item, ": ");
                push_str(&mut item, rows[t].0);
                proof {
                    lemma_views_push(items@, item);
                }
                items.push(item);
            }
            t += 1;
        }
        assert(tv.take(rows.len() as int) == tv);
        items
    }
}

} // verus!
