//! Character-level helpers on strings: conversions between `str`, `String`
//! and `Vec<char>`, splitting, trimming and decimal numbers.
use vstd::prelude::*;
use vstd::std_specs::iter::IteratorSpec;
use vstd::string::*;

verus! {

broadcast use vstd::string::group_string_axioms;

/// `String::push`.
///
/// Claims that the string afterwards is the old one with `c` at the end.
#[verifier::external_body]
pub(crate) fn push_char(s: &mut String, c: char)
    ensures
        final(s)@ == old(s)@.push(c),
{
    s.push(c);
}

/// Appends all of `t` to `s`.
pub fn push_str(s: &mut String, t: &str)
    ensures
        final(s)@ == old(s)@ + t@,
{
    s.append(t);
}

/// Removes the last character of `s`, if there is one (as `String::pop`).
pub fn pop_char(s: &mut String)
    ensures
        final(s)@ == (if old(s)@.len() == 0 {
            old(s)@
        } else {
            old(s)@.drop_last()
        }),
{
    let v = chars_of(s.as_str());
    if v.len() > 0 {
        *s = string_of_range(v.as_slice(), 0, v.len() - 1);
    }
}

/// The characters of `s`, in order.
pub fn chars_of(s: &str) -> (v: Vec<char>)
    ensures
        v@ == s@,
{
    let mut v: Vec<char> = Vec::new();
    for c in iter: s.chars()
        invariant
            v@ == iter.seq().take(iter.index() as int),
    {
        v.push(c);
    }
    v
}

/// A string holding exactly the characters of `v`.
pub fn string_of(v: &[char]) -> (s: String)
    ensures
        s@ == v@,
{
    let mut s = String::new();
    let mut i: usize = 0;
    while i < v.len()
        invariant
            i <= v.len(),
            s@ == v@.take(i as int),
        decreases v.len() - i,
    {
        push_char(&mut s, v[i]);
        assert(v@.take(i + 1) == v@.take(i as int).push(v@[i as int]));
        i += 1;
    }
    assert(v@.take(v.len() as int) == v@);
    s
}

/// The pieces of `s` between occurrences of `sep`, as `str::split` yields
/// them: an empty text is one empty piece, and a trailing separator leaves an
/// empty last piece.
pub open spec fn split_spec(s: Seq<char>, sep: char) -> Seq<Seq<char>>
    decreases s.len(),
{
    if s.len() == 0 {
        seq![Seq::empty()]
    } else {
        let rest = split_spec(s.drop_last(), sep);
        if s.last() == sep {
            rest.push(Seq::empty())
        } else {
            rest.update(rest.len() - 1, rest.last().push(s.last()))
        }
    }
}

pub proof fn lemma_split_nonempty(s: Seq<char>, sep: char)
    ensures
        split_spec(s, sep).len() >= 1,
    decreases s.len(),
{
    if s.len() > 0 {
        lemma_split_nonempty(s.drop_last(), sep);
    }
}

/// `s` split at every `sep`.
pub fn split_on(s: &str, sep: char) -> (pieces: Vec<String>)
    ensures
        pieces@.map_values(|p: String| p@) == split_spec(s@, sep),
{
    let cs = chars_of(s);
    let mut pieces: Vec<String> = Vec::new();
    let mut cur = String::new();
    let mut i: usize = 0;
    while i < cs.len()
        invariant
            i <= cs.len(),
            cs@ == s@,
            split_spec(cs@.take(i as int), sep) == pieces@.map_values(|p: String| p@).push(cur@),
        decreases cs.len() - i,
    {
        let c = cs[i];
        let ghost before = pieces@.map_values(|p: String| p@);
        assert(cs@.take(i + 1).drop_last() == cs@.take(i as int));
        proof {
            lemma_split_nonempty(cs@.take(i as int), sep);
        }
        if c == sep {
            let done = cur;
            pieces.push(done);
            cur = String::new();
            assert(pieces@.map_values(|p: String| p@) == before.push(done@));
        } else {
            push_char(&mut cur, c);
            assert(split_spec(cs@.take(i + 1), sep) == before.push(cur@));
        }
        i += 1;
    }
    assert(cs@.take(cs.len() as int) == cs@);
    pieces.push(cur);
    pieces
}

/// The texts of a list of strings.
pub open spec fn views(gs: Seq<String>) -> Seq<Seq<char>> {
    gs.map_values(|g: String| g@)
}

pub proof fn lemma_views_push(gs: Seq<String>, g: String)
    ensures
        views(gs.push(g)) == views(gs).push(g@),
{
    assert(views(gs.push(g)) =~= views(gs).push(g@));
}

/// The parts joined with `sep` between neighbours.
pub open spec fn join_spec(parts: Seq<Seq<char>>, sep: Seq<char>) -> Seq<char>
    decreases parts.len(),
{
    if parts.len() == 0 {
        Seq::empty()
    } else if parts.len() == 1 {
        parts[0]
    } else {
        join_spec(parts.drop_last(), sep) + sep + parts.last()
    }
}

/// `parts` joined with `sep`, as `[String]::join` does.
pub fn join(parts: &Vec<String>, sep: &str) -> (r: String)
    ensures
        r@ == join_spec(views(parts@), sep@),
{
    let ghost pv = views(parts@);
    let mut r = String::new();
    let mut i: usize = 0;
    while i < parts.len()
        invariant
            i <= parts.len(),
            pv == views(parts@),
            r@ == join_spec(pv.take(i as int), sep@),
        decreases parts.len() - i,
    {
        assert(pv.take(i + 1).drop_last() == pv.take(i as int));
        assert(pv[i as int] == parts@[i as int]@);
        if i > 0 {
            push_str(&mut r, sep);
        } else {
            assert(r@ == Seq::<char>::empty());
        }
        push_str(&mut r, parts[i].as_str());
        i += 1;
    }
    assert(pv.take(parts.len() as int) == pv);
    r
}

/// A string holding the characters `v[from..to]`.
pub fn string_of_range(v: &[char], from: usize, to: usize) -> (s: String)
    requires
        from <= to <= v@.len(),
    ensures
        s@ == v@.subrange(from as int, to as int),
{
    let mut s = String::new();
    let mut i: usize = from;
    while i < to
        invariant
            from <= i <= to,
            to <= v@.len(),
            s@ == v@.subrange(from as int, i as int),
        decreases to - i,
    {
        push_char(&mut s, v[i]);
        assert(v@.subrange(from as int, i + 1) == v@.subrange(from as int, i as int).push(v@[i as int]));
        i += 1;
    }
    s
}

/// The ASCII digit for `n < 10`.
pub open spec fn digit_char(n: int) -> char {
    (('0' as u8) + n) as char
}

/// `n` in decimal, without leading zeros.
pub open spec fn decimal_spec(n: nat) -> Seq<char>
    decreases n,
{
    if n < 10 {
        seq![digit_char(n as int)]
    } else {
        decimal_spec(n / 10).push(digit_char((n % 10) as int))
    }
}

/// A decimal numeral holds only the digits `0` to `9`.
pub proof fn lemma_decimal_digits(n: nat)
    ensures
        forall|i: int| 0 <= i < decimal_spec(n).len() ==> '0' <= #[trigger] decimal_spec(n)[i] <= '9',
    decreases n,
{
    if n >= 10 {
        lemma_decimal_digits(n / 10);
        let d = digit_char((n % 10) as int);
        assert('0' <= d <= '9');
        assert forall|i: int| 0 <= i < decimal_spec(n).len() implies '0' <= #[trigger] decimal_spec(n)[i] <= '9' by {
            if i < decimal_spec(n / 10).len() {
                assert(decimal_spec(n)[i] == decimal_spec(n / 10)[i]);
            }
        }
    } else {
        assert('0' <= digit_char(n as int) <= '9');
    }
}

/// `k` zeros.
pub open spec fn zeros(k: int) -> Seq<char> {
    Seq::new(if k > 0 { k as nat } else { 0 }, |i: int| '0')
}

/// `n` in decimal, padded with leading zeros to at least `w` digits.
pub open spec fn zero_padded(n: nat, w: int) -> Seq<char> {
    zeros(w - decimal_spec(n).len()) + decimal_spec(n)
}

fn digit(n: u64) -> (c: char)
    requires
        n < 10,
    ensures
        c == digit_char(n as int),
{
    let b: u8 = (n as u8) + 48u8;
    assert(b == ('0' as u8) + n);
    b as char
}

/// `n` in decimal.
pub fn decimal(n: u64) -> (s: String)
    ensures
        s@ == decimal_spec(n as nat),
    decreases n,
{
    if n < 10 {
        let mut s = String::new();
        push_char(&mut s, digit(n));
        s
    } else {
        let mut s = decimal(n / 10);
        push_char(&mut s, digit(n % 10));
        s
    }
}

/// `n` in decimal with leading zeros up to `w` digits.
pub fn decimal_padded(n: u64, w: usize) -> (s: String)
    ensures
        s@ == zero_padded(n as nat, w as int),
{
    let d = decimal(n);
    let len = chars_of(d.as_str()).len();
    let mut s = String::new();
    let mut k: usize = 0;
    let need: usize = if w > len { w - len } else { 0 };
    while k < need
        invariant
            k <= need,
            s@ == Seq::new(k as nat, |i: int| '0'),
        decreases need - k,
    {
        push_char(&mut s, '0');
        assert(Seq::new((k + 1) as nat, |i: int| '0') =~= Seq::new(k as nat, |i: int| '0').push('0'));
        k += 1;
    }
    assert(zeros(w - decimal_spec(n as nat).len()) =~= Seq::new(need as nat, |i: int| '0'));
    push_str(&mut s, d.as_str());
    s
}

/// Unicode `White_Space`, the characters `char::is_whitespace` accepts.
pub open spec fn is_ws(c: char) -> bool {
    let u = c as u32;
    ||| 0x09 <= u <= 0x0d
    ||| u == 0x20
    ||| u == 0x85
    ||| u == 0xa0
    ||| u == 0x1680
    ||| 0x2000 <= u <= 0x200a
    ||| u == 0x2028
    ||| u == 0x2029
    ||| u == 0x202f
    ||| u == 0x205f
    ||| u == 0x3000
}

/// `char::is_whitespace`.
pub fn is_whitespace(c: char) -> (r: bool)
    ensures
        r == is_ws(c),
{
    let u = c as u32;
    (0x09 <= u && u <= 0x0d) || u == 0x20 || u == 0x85 || u == 0xa0 || u == 0x1680 || (0x2000 <= u
        && u <= 0x200a) || u == 0x2028 || u == 0x2029 || u == 0x202f || u == 0x205f || u == 0x3000
}

/// Index of the first character at or after `i` that is not whitespace.
pub open spec fn skip_ws_from(s: Seq<char>, i: int) -> int
    decreases s.len() - i,
{
    if i < 0 || i >= s.len() {
        s.len() as int
    } else if is_ws(s[i]) {
        skip_ws_from(s, i + 1)
    } else {
        i
    }
}

/// One past the last character before `j` that is not whitespace.
pub open spec fn keep_to(s: Seq<char>, j: int) -> int
    decreases j,
{
    if j <= 0 || j > s.len() {
        if j > s.len() { s.len() as int } else { 0 }
    } else if is_ws(s[j - 1]) {
        keep_to(s, j - 1)
    } else {
        j
    }
}

/// `s` without leading whitespace (`str::trim_start`).
pub open spec fn trim_start_spec(s: Seq<char>) -> Seq<char> {
    s.skip(skip_ws_from(s, 0))
}

/// `s` without leading and trailing whitespace (`str::trim`).
pub open spec fn trim_spec(s: Seq<char>) -> Seq<char> {
    let a = skip_ws_from(s, 0);
    let b = keep_to(s, s.len() as int);
    if a < b {
        s.subrange(a, b)
    } else {
        Seq::empty()
    }
}

pub proof fn lemma_skip_ws_range(s: Seq<char>, i: int)
    requires
        0 <= i <= s.len(),
    ensures
        i <= skip_ws_from(s, i) <= s.len(),
    decreases s.len() - i,
{
    if i < s.len() && is_ws(s[i]) {
        lemma_skip_ws_range(s, i + 1);
    }
}

pub proof fn lemma_keep_to_range(s: Seq<char>, j: int)
    requires
        0 <= j <= s.len(),
    ensures
        0 <= keep_to(s, j) <= j,
    decreases j,
{
    if j > 0 && is_ws(s[j - 1]) {
        lemma_keep_to_range(s, j - 1);
    }
}

proof fn lemma_skip_ws_stops(s: Seq<char>, i: int)
    requires
        0 <= i <= s.len(),
    ensures
        skip_ws_from(s, i) < s.len() ==> !is_ws(s[skip_ws_from(s, i)]),
    decreases s.len() - i,
{
    if i < s.len() && is_ws(s[i]) {
        lemma_skip_ws_stops(s, i + 1);
    }
}

proof fn lemma_keep_to_stops(s: Seq<char>, j: int)
    requires
        0 <= j <= s.len(),
    ensures
        keep_to(s, j) > 0 ==> !is_ws(s[keep_to(s, j) - 1]),
    decreases j,
{
    if j > 0 && is_ws(s[j - 1]) {
        lemma_keep_to_stops(s, j - 1);
    }
}

/// A trimmed string is empty or starts and ends with a character that is
/// not whitespace.
pub proof fn lemma_trim_ends(s: Seq<char>)
    ensures
        trim_spec(s).len() > 0 ==> !is_ws(trim_spec(s)[0]) && !is_ws(trim_spec(s).last()),
{
    lemma_skip_ws_range(s, 0);
    lemma_keep_to_range(s, s.len() as int);
    lemma_skip_ws_stops(s, 0);
    lemma_keep_to_stops(s, s.len() as int);
}

/// Trimming a string that starts and ends with a character that is not
/// whitespace changes nothing.
pub proof fn lemma_trim_keeps_trimmed(s: Seq<char>)
    requires
        s.len() > 0,
        !is_ws(s[0]),
        !is_ws(s.last()),
    ensures
        trim_spec(s) == s,
{
    assert(skip_ws_from(s, 0) == 0);
    assert(keep_to(s, s.len() as int) == s.len());
    assert(s.subrange(0, s.len() as int) == s);
}

fn skip_ws(v: &Vec<char>) -> (i: usize)
    ensures
        i as int == skip_ws_from(v@, 0),
        i <= v@.len(),
{
    let mut i: usize = 0;
    while i < v.len() && is_whitespace(v[i])
        invariant
            i <= v.len(),
            skip_ws_from(v@, i as int) == skip_ws_from(v@, 0),
        decreases v.len() - i,
    {
        i += 1;
    }
    i
}

/// `s` without leading and trailing whitespace.
pub fn trim(s: &str) -> (r: String)
    ensures
        r@ == trim_spec(s@),
{
    let v = chars_of(s);
    let a = skip_ws(&v);
    let mut b: usize = v.len();
    while b > 0 && is_whitespace(v[b - 1])
        invariant
            b <= v.len(),
            keep_to(v@, b as int) == keep_to(v@, v@.len() as int),
        decreases b,
    {
        b -= 1;
    }
    if a < b {
        string_of_range(v.as_slice(), a, b)
    } else {
        String::new()
    }
}

/// `s` without leading whitespace.
pub fn trim_start(s: &str) -> (r: String)
    ensures
        r@ == trim_start_spec(s@),
{
    let v = chars_of(s);
    let a = skip_ws(&v);
    string_of_range(v.as_slice(), a, v.len())
}

/// Whether `s` begins with `prefix`.
pub fn starts_with(s: &str, prefix: &str) -> (r: bool)
    ensures
        r == prefix@.is_prefix_of(s@),
{
    let v = chars_of(s);
    let p = chars_of(prefix);
    if p.len() > v.len() {
        return false;
    }
    let mut i: usize = 0;
    while i < p.len()
        invariant
            i <= p.len(),
            p.len() <= v.len(),
            v@ == s@,
            p@ == prefix@,
            forall|j: int| 0 <= j < i ==> p@[j] == v@[j],
        decreases p.len() - i,
    {
        if p[i] != v[i] {
            return false;
        }
        i += 1;
    }
    true
}

/// `s` without `prefix`, if it begins with it.
pub fn strip_prefix(s: &str, prefix: &str) -> (r: Option<String>)
    ensures
        match r {
            Some(rest) => prefix@.is_prefix_of(s@) && rest@ == s@.skip(prefix@.len() as int),
            None => !prefix@.is_prefix_of(s@),
        },
{
    if starts_with(s, prefix) {
        let v = chars_of(s);
        let n = chars_of(prefix).len();
        Some(string_of_range(v.as_slice(), n, v.len()))
    } else {
        None
    }
}

/// Whether `s` ends with `suffix`.
pub open spec fn ends_with_spec(s: Seq<char>, suffix: Seq<char>) -> bool {
    suffix.len() <= s.len() && s.skip(s.len() - suffix.len()) == suffix
}

/// `s` without `suffix`, if it ends with it.
pub fn strip_suffix(s: &str, suffix: &str) -> (r: Option<String>)
    ensures
        match r {
            Some(rest) => ends_with_spec(s@, suffix@) && rest@ == s@.take(s@.len() - suffix@.len()),
            None => !ends_with_spec(s@, suffix@),
        },
{
    let v = chars_of(s);
    let p = chars_of(suffix);
    if p.len() > v.len() {
        return None;
    }
    let off = v.len() - p.len();
    let mut i: usize = 0;
    while i < p.len()
        invariant
            i <= p.len(),
            off + p.len() == v.len(),
            v@ == s@,
            p@ == suffix@,
            forall|j: int| 0 <= j < i ==> p@[j] == v@[off + j],
        decreases p.len() - i,
    {
        if p[i] != v[off + i] {
            assert(s@.skip(off as int)[i as int] != suffix@[i as int]);
            return None;
        }
        i += 1;
    }
    assert(s@.skip(off as int) =~= suffix@);
    Some(string_of_range(v.as_slice(), 0, off))
}

/// A line as `str::lines` yields it: a `\r` right before its `\n` is dropped.
pub open spec fn line_body(piece: Seq<char>) -> Seq<char> {
    if piece.len() > 0 && piece.last() == '\r' {
        piece.drop_last()
    } else {
        piece
    }
}

/// The lines of `s` as `str::lines` yields them: split at `\n`, a `\r`
/// before a `\n` dropped, and no empty last line after a final newline.
pub open spec fn lines_spec(s: Seq<char>) -> Seq<Seq<char>> {
    let pieces = split_spec(s, '\n');
    let n = pieces.len() - 1;
    let ended = pieces.take(n).map_values(|p: Seq<char>| line_body(p));
    if pieces[n].len() == 0 {
        ended
    } else {
        ended.push(pieces[n])
    }
}

/// Splitting text that ends with the separator, then more text: the pieces
/// of the first part (without its empty last piece), then those of the rest.
pub proof fn lemma_split_concat(a: Seq<char>, b: Seq<char>, sep: char)
    requires
        a.len() > 0,
        a.last() == sep,
    ensures
        split_spec(a + b, sep) == split_spec(a, sep).drop_last() + split_spec(b, sep),
    decreases b.len(),
{
    lemma_split_nonempty(a.drop_last(), sep);
    if b.len() == 0 {
        assert(a + b == a);
        assert(split_spec(a, sep) == split_spec(a.drop_last(), sep).push(Seq::empty()));
        assert(split_spec(a, sep).drop_last() + seq![Seq::<char>::empty()] =~= split_spec(a, sep));
    } else {
        lemma_split_concat(a, b.drop_last(), sep);
        lemma_split_nonempty(b.drop_last(), sep);
        assert((a + b).drop_last() == a + b.drop_last());
        let rest = split_spec(a + b.drop_last(), sep);
        let pa = split_spec(a, sep).drop_last();
        let pb = split_spec(b.drop_last(), sep);
        assert(rest == pa + pb);
        if b.last() == sep {
            assert(split_spec(a + b, sep) == rest.push(Seq::empty()));
            assert(split_spec(b, sep) == pb.push(Seq::empty()));
            assert((pa + pb).push(Seq::empty()) =~= pa + pb.push(Seq::empty()));
        } else {
            assert(split_spec(a + b, sep) == rest.update(rest.len() - 1, rest.last().push(b.last())));
            assert(split_spec(b, sep) == pb.update(pb.len() - 1, pb.last().push(b.last())));
            assert(rest.last() == pb.last());
            assert((pa + pb).update(rest.len() - 1, pb.last().push(b.last())) =~= pa + pb.update(
                pb.len() - 1,
                pb.last().push(b.last()),
            ));
        }
    }
}

/// The lines of text that is empty or ends with a newline, then more text,
/// are the lines of the first part, then those of the rest.
pub proof fn lemma_lines_concat(a: Seq<char>, b: Seq<char>)
    requires
        a.len() == 0 || a.last() == '\n',
    ensures
        lines_spec(a + b) == lines_spec(a) + lines_spec(b),
{
    if a.len() == 0 {
        assert(a + b == b);
        assert(split_spec(a, '\n') == seq![Seq::<char>::empty()]);
        assert(lines_spec(a) =~= Seq::<Seq<char>>::empty());
        assert(lines_spec(a) + lines_spec(b) =~= lines_spec(b));
    } else {
        lemma_split_concat(a, b, '\n');
        lemma_split_nonempty(a.drop_last(), '\n');
        lemma_split_nonempty(b, '\n');
        let pa = split_spec(a, '\n');
        let pb = split_spec(b, '\n');
        let p = split_spec(a + b, '\n');
        assert(pa == split_spec(a.drop_last(), '\n').push(Seq::empty()));
        assert(pa.last().len() == 0);
        let f = |q: Seq<char>| line_body(q);
        assert(lines_spec(a) == pa.take(pa.len() - 1).map_values(f));
        assert(p.take(p.len() - 1) =~= pa.drop_last() + pb.take(pb.len() - 1));
        assert(p.last() == pb.last());
        assert((pa.drop_last() + pb.take(pb.len() - 1)).map_values(f) =~= pa.drop_last().map_values(f)
            + pb.take(pb.len() - 1).map_values(f));
        assert(pa.take(pa.len() - 1) == pa.drop_last());
        if pb.last().len() == 0 {
            assert(lines_spec(a + b) =~= lines_spec(a) + lines_spec(b));
        } else {
            assert(lines_spec(a + b) =~= lines_spec(a) + lines_spec(b));
        }
    }
}

/// A single line ended by a newline.
pub proof fn lemma_lines_of_one_line(l: Seq<char>)
    requires
        forall|i: int| 0 <= i < l.len() ==> l[i] != '\n',
        l.len() == 0 || l.last() != '\r',
    ensures
        lines_spec(l + seq!['\n']) == seq![l],
{
    lemma_split_no_sep(l, '\n');
    let s = l + seq!['\n'];
    assert(s.drop_last() == l);
    assert(split_spec(s, '\n') == seq![l].push(Seq::<char>::empty()));
    assert(lines_spec(s) =~= seq![l]);
}

proof fn lemma_split_no_sep(l: Seq<char>, sep: char)
    requires
        forall|i: int| 0 <= i < l.len() ==> l[i] != sep,
    ensures
        split_spec(l, sep) == seq![l],
    decreases l.len(),
{
    if l.len() == 0 {
        assert(l =~= Seq::<char>::empty());
    } else {
        lemma_split_no_sep(l.drop_last(), sep);
        assert(l.last() != sep);
        assert(l.drop_last().push(l.last()) =~= l);
        assert(seq![l.drop_last()].update(0, l.drop_last().push(l.last())) =~= seq![l]);
    }
}

/// The lines of `s`.
pub fn lines_of(s: &str) -> (r: Vec<String>)
    ensures
        views(r@) == lines_spec(s@),
{
    let pieces = split_on(s, '\n');
    let ghost pv = views(pieces@);
    proof {
        lemma_split_nonempty(s@, '\n');
    }
    let n = pieces.len() - 1;
    let mut r: Vec<String> = Vec::new();
    let mut i: usize = 0;
    while i < n
        invariant
            i <= n,
            n + 1 == pieces.len(),
            pv == views(pieces@),
            views(r@) == pv.take(i as int).map_values(|p: Seq<char>| line_body(p)),
        decreases n - i,
    {
        let cs = chars_of(pieces[i].as_str());
        assert(cs@ == pv[i as int]);
        let line = if cs.len() > 0 && cs[cs.len() - 1] == '\r' {
            string_of_range(cs.as_slice(), 0, cs.len() - 1)
        } else {
            pieces[i].clone()
        };
        proof {
            lemma_views_push(r@, line);
            assert(pv.take(i + 1).map_values(|p: Seq<char>| line_body(p))
                == pv.take(i as int).map_values(|p: Seq<char>| line_body(p)).push(line_body(pv[i as int])));
        }
        r.push(line);
        i += 1;
    }
    assert(pv[n as int] == pieces@[n as int]@);
    if chars_of(pieces[n].as_str()).len() > 0 {
        let last = pieces[n].clone();
        proof {
            lemma_views_push(r@, last);
        }
        r.push(last);
    }
    r
}

pub open spec fn pow10(k: nat) -> nat
    decreases k,
{
    if k == 0 {
        1
    } else {
        10 * pow10((k - 1) as nat)
    }
}

/// A number below `10^k` has at most `k` digits.
pub proof fn lemma_decimal_upto(n: nat, k: nat)
    requires
        k >= 1,
        n < pow10(k),
    ensures
        decimal_spec(n).len() <= k,
    decreases k,
{
    if n >= 10 {
        assert(k >= 2) by {
            if k == 1 {
                assert(pow10(0) == 1);
            }
        }
        assert(pow10(k) == 10 * pow10((k - 1) as nat));
        assert(n / 10 < pow10((k - 1) as nat));
        lemma_decimal_upto(n / 10, (k - 1) as nat);
    }
}

} // verus!
