//! Key specs as written in the config file (`h`, `ctrl-a`, `enter`, ...) and
//! the keys they stand for.
use vstd::prelude::*;

use crate::text::{chars_of, push_char, push_str, split_on, split_spec, string_of, views, lemma_views_push};

verus! {

broadcast use vstd::string::group_string_axioms;

/// A key on the keyboard. Keys that no spec can name are all `Other`.
#[derive(Debug, Clone, Copy, PartialEq, Eq, Structural)]
pub enum KeyCode {
    Char(char),
    Left,
    Right,
    Up,
    Down,
    Enter,
    Esc,
    Tab,
    Backspace,
    Delete,
    Home,
    End,
    PageUp,
    PageDown,
    Other,
}

/// Modifier keys held with a key.
#[derive(Debug, Clone, Copy, PartialEq, Eq, Structural)]
pub struct KeyModifiers {
    pub shift: bool,
    pub control: bool,
    pub alt: bool,
    pub super_key: bool,
    pub hyper: bool,
    pub meta: bool,
}

impl KeyModifiers {
    /// No modifier held.
    pub fn none() -> (m: KeyModifiers)
        ensures
            m == KeyModifiers::spec_none(),
    {
        KeyModifiers { shift: false, control: false, alt: false, super_key: false, hyper: false, meta: false }
    }

    pub open spec fn spec_none() -> KeyModifiers {
        KeyModifiers { shift: false, control: false, alt: false, super_key: false, hyper: false, meta: false }
    }

    /// True when nothing but (possibly) shift is held.
    pub open spec fn only_shift(self) -> bool {
        !self.control && !self.alt && !self.super_key && !self.hyper && !self.meta
    }
}

/// A key together with its modifiers.
#[derive(Debug, Clone, Copy, PartialEq, Eq, Structural)]
pub struct Key {
    pub code: KeyCode,
    pub modifiers: KeyModifiers,
}

/// A key press as the terminal reports it.
#[derive(Debug, Clone, Copy, PartialEq, Eq, Structural)]
pub struct KeyEvent {
    pub code: KeyCode,
    pub modifiers: KeyModifiers,
}

/// Why a key spec could not be read.
#[derive(Debug)]
pub enum KeyParseError {
    Empty,
    UnknownModifier(String),
    UnknownKey(String),
}

/// `KeyParseError` with its texts as character sequences.
pub enum KeyParseFault {
    Empty,
    UnknownModifier(Seq<char>),
    UnknownKey(Seq<char>),
}

impl View for KeyParseError {
    type V = KeyParseFault;

    open spec fn view(&self) -> KeyParseFault {
        match self {
            KeyParseError::Empty => KeyParseFault::Empty,
            KeyParseError::UnknownModifier(m) => KeyParseFault::UnknownModifier(m@),
            KeyParseError::UnknownKey(k) => KeyParseFault::UnknownKey(k@),
        }
    }
}

impl KeyParseFault {
    /// The text that describes the error to the user.
    pub open spec fn message(self) -> Seq<char> {
        match self {
            KeyParseFault::Empty => "key spec is empty"@,
            KeyParseFault::UnknownModifier(m) => "unknown modifier `"@ + m + "`, expected `ctrl`, `alt`, or `shift`"@,
            KeyParseFault::UnknownKey(k) => "unknown key name `"@ + k + "`"@,
        }
    }
}

impl KeyParseError {
    /// The text that describes the error to the user.
    pub fn message(&self) -> (r: String)
        ensures
            r@ == self@.message(),
    {
        match self {
            KeyParseError::Empty => "key spec is empty".to_string(),
            KeyParseError::UnknownModifier(m) => {
                let mut r = "unknown modifier `".to_string();
                push_str(&mut r, m.as_str());
                push_str(&mut r, "`, expected `ctrl`, `alt`, or `shift`");
                r
            },
            KeyParseError::UnknownKey(k) => {
                let mut r = "unknown key name `".to_string();
                push_str(&mut r, k.as_str());
                push_str(&mut r, "`");
                r
            },
        }
    }
}

/// The uppercase mapping of a character, as `char::to_uppercase` yields it.
pub uninterp spec fn uppercase_of(c: char) -> Seq<char>;

/// The uppercase of an ASCII character: `a` to `z` become `A` to `Z`, every
/// other ASCII character stays as it is.
pub open spec fn ascii_upper(c: char) -> char {
    if 'a' <= c <= 'z' {
        ((c as u32) - 32) as char
    } else {
        c
    }
}

/// The uppercase mapping of a character: for ASCII the one character
/// `ascii_upper` gives, otherwise `uppercase_of`.
pub open spec fn upper_mapping(c: char) -> Seq<char> {
    if (c as u32) < 0x80 {
        seq![ascii_upper(c)]
    } else {
        uppercase_of(c)
    }
}

/// `char::to_uppercase`, collected.
///
/// Claims that the mapping is one or more characters, as std documents
/// ("yields the uppercase mapping of this char as one or more chars"), and
/// that for ASCII it is the single character std's ASCII case mapping gives
/// (`a`-`z` to `A`-`Z`, anything else unchanged, as it has no other
/// uppercase). Which characters the mapping of other characters is, is left
/// to the name.
#[verifier::external_body]
pub(crate) fn uppercase(c: char) -> (r: Vec<char>)
    ensures
        r@ == uppercase_of(c),
        r@.len() >= 1,
        (c as u32) < 0x80 ==> r@ == seq![ascii_upper(c)],
{
    c.to_uppercase().collect()
}

/// The key a name stands for: a named key, or any single character.
pub open spec fn named_key_spec(name: Seq<char>) -> Option<KeyCode> {
    if name == "left"@ {
        Some(KeyCode::Left)
    } else if name == "right"@ {
        Some(KeyCode::Right)
    } else if name == "up"@ {
        Some(KeyCode::Up)
    } else if name == "down"@ {
        Some(KeyCode::Down)
    } else if name == "enter"@ {
        Some(KeyCode::Enter)
    } else if name == "esc"@ {
        Some(KeyCode::Esc)
    } else if name == "tab"@ {
        Some(KeyCode::Tab)
    } else if name == "backspace"@ {
        Some(KeyCode::Backspace)
    } else if name == "delete"@ {
        Some(KeyCode::Delete)
    } else if name == "home"@ {
        Some(KeyCode::Home)
    } else if name == "end"@ {
        Some(KeyCode::End)
    } else if name == "pageup"@ {
        Some(KeyCode::PageUp)
    } else if name == "pagedown"@ {
        Some(KeyCode::PageDown)
    } else if name == "space"@ {
        Some(KeyCode::Char(' '))
    } else if name.len() == 1 {
        Some(KeyCode::Char(name[0]))
    } else {
        None
    }
}

/// Shift on a character key is folded into the character itself (a shifted
/// `g` is `G`), so that `G` and `shift-g` name the same key. A character whose
/// uppercase is more than one character stays as it is.
pub open spec fn normalize_spec(code: KeyCode, modifiers: KeyModifiers) -> Key {
    match code {
        KeyCode::Char(c) => if modifiers.shift {
            let up = upper_mapping(c);
            let c2 = if up.len() == 1 {
                up[0]
            } else {
                c
            };
            Key { code: KeyCode::Char(c2), modifiers: KeyModifiers { shift: false, ..modifiers } }
        } else {
            Key { code, modifiers }
        },
        _ => Key { code, modifiers },
    }
}

/// The modifiers named by `parts[0..n]`, or the first part that names none.
pub open spec fn modifiers_spec(parts: Seq<Seq<char>>, n: int) -> Result<KeyModifiers, Seq<char>>
    decreases n,
{
    if n <= 0 {
        Ok(KeyModifiers::spec_none())
    } else {
        match modifiers_spec(parts, n - 1) {
            Err(bad) => Err(bad),
            Ok(m) => {
                let p = parts[n - 1];
                if p == "ctrl"@ {
                    Ok(KeyModifiers { control: true, ..m })
                } else if p == "alt"@ {
                    Ok(KeyModifiers { alt: true, ..m })
                } else if p == "shift"@ {
                    Ok(KeyModifiers { shift: true, ..m })
                } else {
                    Err(p)
                }
            },
        }
    }
}

/// What a key spec means: modifiers joined to a key name with `-`.
pub open spec fn parse_spec(spec: Seq<char>) -> Result<Key, KeyParseFault> {
    if spec.len() == 0 {
        Err(KeyParseFault::Empty)
    } else {
        let parts = split_spec(spec, '-');
        let base = parts.last();
        match modifiers_spec(parts, parts.len() - 1) {
            Err(bad) => Err(KeyParseFault::UnknownModifier(bad)),
            Ok(m) => if base.len() == 0 {
                Err(KeyParseFault::UnknownKey(spec))
            } else {
                match named_key_spec(base) {
                    None => Err(KeyParseFault::UnknownKey(base)),
                    Some(code) => Ok(normalize_spec(code, m)),
                }
            },
        }
    }
}

/// Whether `s` holds exactly the characters of `lit`.
fn is_text(s: &Vec<char>, lit: &str) -> (r: bool)
    ensures
        r == (s@ == lit@),
{
    let l = chars_of(lit);
    if s.len() != l.len() {
        return false;
    }
    let mut i: usize = 0;
    while i < s.len()
        invariant
            i <= s.len(),
            s.len() == l.len(),
            l@ == lit@,
            forall|j: int| 0 <= j < i ==> s@[j] == l@[j],
        decreases s.len() - i,
    {
        if s[i] != l[i] {
            return false;
        }
        i += 1;
    }
    assert(s@ == l@);
    true
}

fn named_key(name: &Vec<char>) -> (r: Option<KeyCode>)
    ensures
        r == named_key_spec(name@),
{
    if is_text(name, "left") {
        Some(KeyCode::Left)
    } else if is_text(name, "right") {
        Some(KeyCode::Right)
    } else if is_text(name, "up") {
        Some(KeyCode::Up)
    } else if is_text(name, "down") {
        Some(KeyCode::Down)
    } else if is_text(name, "enter") {
        Some(KeyCode::Enter)
    } else if is_text(name, "esc") {
        Some(KeyCode::Esc)
    } else if is_text(name, "tab") {
        Some(KeyCode::Tab)
    } else if is_text(name, "backspace") {
        Some(KeyCode::Backspace)
    } else if is_text(name, "delete") {
        Some(KeyCode::Delete)
    } else if is_text(name, "home") {
        Some(KeyCode::Home)
    } else if is_text(name, "end") {
        Some(KeyCode::End)
    } else if is_text(name, "pageup") {
        Some(KeyCode::PageUp)
    } else if is_text(name, "pagedown") {
        Some(KeyCode::PageDown)
    } else if is_text(name, "space") {
        Some(KeyCode::Char(' '))
    } else if name.len() == 1 {
        Some(KeyCode::Char(name[0]))
    } else {
        None
    }
}

/// Folds shift on a character key into the character (see `normalize_spec`).
/// Both the keys read from the config and the keys pressed go through this,
/// so that `G`, `shift-g` and a shifted `g` all meet.
pub fn normalize(code: KeyCode, modifiers: KeyModifiers) -> (k: Key)
    ensures
        k == normalize_spec(code, modifiers),
{
    match code {
        KeyCode::Char(c) => {
            if modifiers.shift {
                let up = uppercase(c);
                let c2 = if up.len() == 1 {
                    up[0]
                } else {
                    c
                };
                Key { code: KeyCode::Char(c2), modifiers: KeyModifiers { shift: false, ..modifiers } }
            } else {
                Key { code, modifiers }
            }
        },
        _ => Key { code, modifiers },
    }
}

/// Reads a key spec: lowercase, kebab-case modifiers (`ctrl`, `alt`,
/// `shift`) followed by a key name or a single character. Vim notation such as
/// `<C-a>` is not accepted.
pub fn parse(spec: &str) -> (r: Result<Key, KeyParseError>)
    ensures
        match r {
            Ok(k) => parse_spec(spec@) == Ok::<Key, KeyParseFault>(k),
            Err(e) => parse_spec(spec@) == Err::<Key, KeyParseFault>(e@),
        },
{
    let cs = chars_of(spec);
    if cs.len() == 0 {
        return Err(KeyParseError::Empty);
    }
    let parts = split_on(spec, '-');
    let ghost pv = views(parts@);
    proof {
        crate::text::lemma_split_nonempty(spec@, '-');
    }
    let n = parts.len() - 1;
    let mut m = KeyModifiers::none();
    let mut i: usize = 0;
    while i < n
        invariant
            i <= n,
            n + 1 == parts.len(),
            pv == views(parts@),
            pv == split_spec(spec@, '-'),
            modifiers_spec(pv, i as int) == Ok::<KeyModifiers, Seq<char>>(m),
        decreases n - i,
    {
        let p = chars_of(parts[i].as_str());
        assert(p@ == pv[i as int]);
        if is_text(&p, "ctrl") {
            m = KeyModifiers { control: true, ..m };
        } else if is_text(&p, "alt") {
            m = KeyModifiers { alt: true, ..m };
        } else if is_text(&p, "shift") {
            m = KeyModifiers { shift: true, ..m };
        } else {
            proof {
                lemma_modifiers_error_sticks(pv, i as int + 1, n as int);
            }
            return Err(KeyParseError::UnknownModifier(parts[i].clone()));
        }
        i += 1;
    }
    let base = chars_of(parts[n].as_str());
    assert(base@ == pv.last());
    if base.len() == 0 {
        return Err(KeyParseError::UnknownKey(spec.to_string()));
    }
    match named_key(&base) {
        None => Err(KeyParseError::UnknownKey(parts[n].clone())),
        Some(code) => Ok(normalize(code, m)),
    }
}

/// Whether `word` is among the first `n` parts.
pub open spec fn among(parts: Seq<Seq<char>>, n: int, word: Seq<char>) -> bool {
    exists|i: int| 0 <= i < n && #[trigger] parts[i] == word
}

proof fn lemma_modifier_flags(parts: Seq<Seq<char>>, n: int)
    requires
        0 <= n <= parts.len(),
    ensures
        modifiers_spec(parts, n) matches Ok(m) ==> {
            &&& m.control == among(parts, n, "ctrl"@)
            &&& m.alt == among(parts, n, "alt"@)
            &&& m.shift == among(parts, n, "shift"@)
            &&& !m.super_key && !m.hyper && !m.meta
            &&& forall|i: int| 0 <= i < n ==> #[trigger] parts[i] == "ctrl"@ || parts[i] == "alt"@ || parts[i] == "shift"@
        },
    decreases n,
{
    if n > 0 {
        lemma_modifier_flags(parts, n - 1);
        if let Ok(m) = modifiers_spec(parts, n) {
            let p = parts[n - 1];
            if let Ok(m0) = modifiers_spec(parts, n - 1) {
                assert forall|w: Seq<char>| #[trigger] among(parts, n, w) == (among(parts, n - 1, w) || p == w) by {
                    if among(parts, n, w) && !(p == w) {
                        let i = choose|i: int| 0 <= i < n && #[trigger] parts[i] == w;
                        assert(i < n - 1);
                    }
                    if p == w {
                        assert(parts[n - 1] == w);
                    }
                }
                reveal_strlit("ctrl");
                reveal_strlit("alt");
                reveal_strlit("shift");
                assert("ctrl"@ != "alt"@ && "ctrl"@ != "shift"@ && "alt"@ != "shift"@) by {
                    assert("ctrl"@.len() != "alt"@.len());
                    assert("ctrl"@[0] != "shift"@[0]);
                    assert("alt"@[0] != "shift"@[0]);
                }
            }
        }
    }
}

/// Each modifier word sets exactly its own flag: `ctrl` control, `alt` alt,
/// `shift` shift (folded into the character itself on a character key), and
/// no key spec sets any other modifier. Every part before the key is one of
/// those words.
pub proof fn lemma_modifier_words_set_their_own_flags(spec: Seq<char>)
    ensures
        parse_spec(spec) matches Ok(key) ==> {
            let parts = split_spec(spec, '-');
            let n = parts.len() - 1;
            &&& key.modifiers.control == among(parts, n, "ctrl"@)
            &&& key.modifiers.alt == among(parts, n, "alt"@)
            &&& key.modifiers.shift == (among(parts, n, "shift"@) && !(key.code is Char))
            &&& !key.modifiers.super_key && !key.modifiers.hyper && !key.modifiers.meta
            &&& forall|i: int| 0 <= i < n ==> #[trigger] parts[i] == "ctrl"@ || parts[i] == "alt"@ || parts[i] == "shift"@
        },
{
    if spec.len() > 0 {
        let parts = split_spec(spec, '-');
        crate::text::lemma_split_nonempty(spec, '-');
        lemma_modifier_flags(parts, parts.len() - 1);
    }
}

proof fn lemma_modifiers_error_sticks(parts: Seq<Seq<char>>, i: int, n: int)
    requires
        1 <= i <= n,
        modifiers_spec(parts, i) is Err,
    ensures
        modifiers_spec(parts, n) == modifiers_spec(parts, i),
    decreases n - i,
{
    if i < n {
        lemma_modifiers_error_sticks(parts, i, n - 1);
    }
}

} // verus!
