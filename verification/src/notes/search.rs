//! Full-text search over the notes: a case-insensitive regular expression
//! matched line by line, hits ordered newest day first.
use vstd::prelude::*;

use crate::date::{chrono_ymd, parse_ymd, Date};
use crate::notes::NotesError;
use crate::text::{chars_of, lines_of, lines_spec, string_of_range, views};

verus! {

broadcast use vstd::string::group_string_axioms;

#[verifier::external_type_specification]
#[verifier::external_body]
pub struct ExRegex(regex::Regex);

#[verifier::external_type_specification]
#[verifier::external_body]
pub struct ExRegexError(regex::Error);

/// Whether `regex` accepts `pattern` (built case-insensitive).
pub uninterp spec fn regex_compiles(pattern: Seq<char>) -> bool;

/// Whether the case-insensitive regular expression `pattern` matches
/// somewhere in `line`, as `regex::Regex::is_match` decides.
pub uninterp spec fn regex_matches(pattern: Seq<char>, line: Seq<char>) -> bool;

/// A compiled search pattern, with the text it was compiled from.
pub struct Matcher {
    pattern: String,
    regex: regex::Regex,
}

impl Matcher {
    /// The pattern text this matcher was compiled from.
    pub closed spec fn pattern(&self) -> Seq<char> {
        self.pattern@
    }
}

/// `regex::RegexBuilder::new(pattern).case_insensitive(true).build()`.
///
/// Claims that it succeeds exactly on the patterns the name accepts (a
/// function of the pattern alone: the builder's size limits are the
/// defaults), and that the matcher keeps the pattern's text beside the
/// compiled expression. What the pattern language is, is left to the names.
#[verifier::external_body]
fn compile(pattern: &str) -> (r: Result<Matcher, regex::Error>)
    ensures
        r is Ok <==> regex_compiles(pattern@),
        r matches Ok(m) ==> m.pattern() == pattern@,
{
    match regex::RegexBuilder::new(pattern).case_insensitive(true).build() {
        Ok(regex) => Ok(Matcher { pattern: pattern.to_string(), regex }),
        Err(e) => Err(e),
    }
}

/// `regex::Regex::is_match` on the matcher's compiled expression.
///
/// Claims that the answer is the name's for the matcher's pattern and the
/// line: a `Matcher` is only made by `compile`, from that pattern.
#[verifier::external_body]
fn is_match(m: &Matcher, line: &str) -> (r: bool)
    ensures
        r == regex_matches(m.pattern(), line@),
{
    m.regex.is_match(line)
}

/// `regex::Error`'s display text. Nothing is claimed of it.
#[verifier::external_body]
fn error_text(e: &regex::Error) -> String {
    e.to_string()
}

/// One matching line.
#[derive(Debug, Clone)]
pub struct SearchHit {
    pub path: String,
    pub date: Date,
    /// 1-based.
    pub line_number: usize,
    pub line: String,
}

/// A note to search: where it is, its day, and its text.
pub struct NoteText {
    pub path: String,
    pub date: Date,
    pub contents: String,
}

/// Compiles a search pattern, case-insensitive.
pub fn compile_pattern(pattern: &str) -> (r: Result<Matcher, NotesError>)
    ensures
        r is Ok <==> regex_compiles(pattern@),
        r matches Ok(m) ==> m.pattern() == pattern@,
        r matches Err(e) ==> (e matches NotesError::InvalidPattern { pattern: p, .. } && p@ == pattern@),
{
    match compile(pattern) {
        Ok(m) => Ok(m),
        Err(e) => Err(NotesError::InvalidPattern { pattern: pattern.to_string(), message: error_text(&e) }),
    }
}

/// The hits in one note: every line (numbered from 1) that the pattern matches.
pub open spec fn note_hits_spec(pattern: Seq<char>, path: Seq<char>, date: Date, contents: Seq<char>) -> Seq<
    (Seq<char>, Date, nat, Seq<char>),
> {
    let lines = lines_spec(contents);
    Seq::new(lines.len(), |i: int| (path, date, (i + 1) as nat, lines[i])).filter(
        |h: (Seq<char>, Date, nat, Seq<char>)| regex_matches(pattern, h.3),
    )
}

pub open spec fn hit_view(h: SearchHit) -> (Seq<char>, Date, nat, Seq<char>) {
    (h.path@, h.date, h.line_number as nat, h.line@)
}

pub open spec fn hits_view(hs: Seq<SearchHit>) -> Seq<(Seq<char>, Date, nat, Seq<char>)> {
    hs.map_values(|h: SearchHit| hit_view(h))
}

/// The lines of one note that `m` matches, as hits.
pub fn note_hits(m: &Matcher, path: &str, date: Date, contents: &str) -> (hits: Vec<SearchHit>)
    ensures
        hits_view(hits@) == note_hits_spec(m.pattern(), path@, date, contents@),
{
    let lines = lines_of(contents);
    let ghost lv = views(lines@);
    let ghost all = Seq::new(lv.len(), |i: int| (path@, date, (i + 1) as nat, lv[i]));
    let ghost keep = |h: (Seq<char>, Date, nat, Seq<char>)| regex_matches(m.pattern(), h.3);
    let mut hits: Vec<SearchHit> = Vec::new();
    let mut i: usize = 0;
    while i < lines.len()
        invariant
            i <= lines.len(),
            lv == views(lines@),
            lv == lines_spec(contents@),
            all == Seq::new(lv.len(), |i: int| (path@, date, (i + 1) as nat, lv[i])),
            keep == (|h: (Seq<char>, Date, nat, Seq<char>)| regex_matches(m.pattern(), h.3)),
            hits_view(hits@) == all.take(i as int).filter(keep),
        decreases lines.len() - i,
    {
        let line = &lines[i];
        assert(lv[i as int] == line@);
        assert(all.take(i + 1).drop_last() == all.take(i as int));
        assert(all.take(i + 1).last() == all[i as int]);
        reveal_with_fuel(Seq::<_>::filter, 1);
        let ghost before = hits_view(hits@);
        if is_match(m, line.as_str()) {
            let h = SearchHit { path: path.to_string(), date, line_number: i + 1, line: line.clone() };
            hits.push(h);
            assert(hits_view(hits@) =~= before.push(hit_view(h)));
        }
        i += 1;
    }
    assert(all.take(lines.len() as int) == all);
    hits
}

/// The order of hits: the newer day first, and within one day the earlier
/// line first.
pub open spec fn goes_before(a: (Date, nat), b: (Date, nat)) -> bool {
    b.0.before(a.0) || (a.0 == b.0 && a.1 < b.1)
}

pub open spec fn key_of(h: (Seq<char>, Date, nat, Seq<char>)) -> (Date, nat) {
    (h.1, h.2)
}

/// Where a hit goes among sorted ones: before the first that it goes before,
/// so that hits with equal keys keep their order.
pub open spec fn insert_pos_from(s: Seq<(Seq<char>, Date, nat, Seq<char>)>, x: (Seq<char>, Date, nat, Seq<char>), j: int) -> int
    decreases s.len() - j,
{
    if j < 0 || j >= s.len() {
        s.len() as int
    } else if goes_before(key_of(x), key_of(s[j])) {
        j
    } else {
        insert_pos_from(s, x, j + 1)
    }
}

/// Hits in search order; hits with equal keys keep their order (a stable sort).
pub open spec fn sorted_hits(s: Seq<(Seq<char>, Date, nat, Seq<char>)>) -> Seq<(Seq<char>, Date, nat, Seq<char>)>
    decreases s.len(),
{
    if s.len() == 0 {
        s
    } else {
        let r = sorted_hits(s.drop_last());
        r.insert(insert_pos_from(r, s.last(), 0), s.last())
    }
}

/// No hit goes before one that precedes it.
pub open spec fn in_search_order(s: Seq<(Seq<char>, Date, nat, Seq<char>)>) -> bool {
    forall|i: int, j: int| 0 <= i < j < s.len() ==> !goes_before(key_of(s[j]), key_of(s[i]))
}

proof fn lemma_insert_pos_range(s: Seq<(Seq<char>, Date, nat, Seq<char>)>, x: (Seq<char>, Date, nat, Seq<char>), j: int)
    requires
        0 <= j <= s.len(),
    ensures
        j <= insert_pos_from(s, x, j) <= s.len(),
        forall|k: int| j <= k < insert_pos_from(s, x, j) ==> !goes_before(key_of(x), key_of(#[trigger] s[k])),
        insert_pos_from(s, x, j) < s.len() ==> goes_before(key_of(x), key_of(s[insert_pos_from(s, x, j)])),
    decreases s.len() - j,
{
    if j < s.len() && !goes_before(key_of(x), key_of(s[j])) {
        lemma_insert_pos_range(s, x, j + 1);
    }
}

proof fn lemma_order_facts(a: (Date, nat), b: (Date, nat), c: (Date, nat))
    ensures
        !goes_before(a, a),
        goes_before(a, b) && goes_before(b, c) ==> goes_before(a, c),
        !goes_before(a, b) && !goes_before(b, a) ==> a == b,
        !goes_before(a, b) ==> (goes_before(b, a) || a == b),
        goes_before(a, b) && !goes_before(c, b) ==> goes_before(a, c) || !goes_before(c, a),
{
}

/// Sorting puts hits in search order and keeps every hit: the result is a
/// rearrangement of the input with no hit going before one that precedes it.
pub proof fn lemma_sorted_hits_ordered(s: Seq<(Seq<char>, Date, nat, Seq<char>)>)
    ensures
        in_search_order(sorted_hits(s)),
        sorted_hits(s).to_multiset() == s.to_multiset(),
        sorted_hits(s).len() == s.len(),
    decreases s.len(),
{
    broadcast use vstd::seq_lib::group_to_multiset_ensures;

    if s.len() > 0 {
        let r = sorted_hits(s.drop_last());
        lemma_sorted_hits_ordered(s.drop_last());
        let x = s.last();
        let p = insert_pos_from(r, x, 0);
        lemma_insert_pos_range(r, x, 0);
        let t = r.insert(p, x);
        assert(t == sorted_hits(s));
        assert forall|i: int, j: int| 0 <= i < j < t.len() implies !goes_before(key_of(t[j]), key_of(t[i])) by {
            let ki = key_of(t[i]);
            let kj = key_of(t[j]);
            if i < p && j < p {
                assert(t[i] == r[i] && t[j] == r[j]);
            } else if i < p && j == p {
                assert(t[i] == r[i] && t[j] == x);
                assert(!goes_before(key_of(x), key_of(r[i])));
            } else if i < p && j > p {
                assert(t[i] == r[i] && t[j] == r[j - 1]);
            } else if i == p {
                assert(t[i] == x && t[j] == r[j - 1]);
                assert(goes_before(key_of(x), key_of(r[p])));
                lemma_order_facts(key_of(x), key_of(r[p]), key_of(r[j - 1]));
                if j - 1 > p {
                    assert(!goes_before(key_of(r[j - 1]), key_of(r[p])));
                }
                lemma_order_facts(key_of(r[j - 1]), key_of(r[p]), key_of(x));
                lemma_order_facts(key_of(r[j - 1]), key_of(x), key_of(r[p]));
            } else {
                assert(t[i] == r[i - 1] && t[j] == r[j - 1]);
            }
        }
        assert(s == s.drop_last().push(x));
        vstd::seq_lib::lemma_seq_union_to_multiset_commutative(s.drop_last(), seq![x]);
    }
}

/// Hits come newest day first: of two hits, the one whose day is later in
/// the calendar (by year, then month, then day) comes first, and hits of
/// one day come by line number. Sorting keeps every hit.
pub proof fn lemma_hits_newest_day_first(s: Seq<(Seq<char>, Date, nat, Seq<char>)>)
    ensures
        sorted_hits(s).to_multiset() == s.to_multiset(),
        forall|i: int, j: int|
            0 <= i < sorted_hits(s).len() && 0 <= j < sorted_hits(s).len() && ({
                let a = #[trigger] sorted_hits(s)[i].1;
                let b = #[trigger] sorted_hits(s)[j].1;
                ||| b.year < a.year
                ||| (b.year == a.year && b.month < a.month)
                ||| (b.year == a.year && b.month == a.month && b.day < a.day)
            }) ==> i < j,
        forall|i: int, j: int|
            0 <= i < sorted_hits(s).len() && 0 <= j < sorted_hits(s).len() && #[trigger] sorted_hits(s)[i].1
                == #[trigger] sorted_hits(s)[j].1 && sorted_hits(s)[i].2 < sorted_hits(s)[j].2 ==> i < j,
{
    lemma_sorted_hits_ordered(s);
    let t = sorted_hits(s);
    assert forall|i: int, j: int|
        0 <= i < t.len() && 0 <= j < t.len() && ({
            let a = #[trigger] t[i].1;
            let b = #[trigger] t[j].1;
            ||| b.year < a.year
            ||| (b.year == a.year && b.month < a.month)
            ||| (b.year == a.year && b.month == a.month && b.day < a.day)
        }) implies i < j by {
        if j < i {
            assert(!goes_before(key_of(t[i]), key_of(t[j])));
        } else if i == j {
        }
    }
    assert forall|i: int, j: int|
        0 <= i < t.len() && 0 <= j < t.len() && #[trigger] t[i].1 == #[trigger] t[j].1 && t[i].2 < t[j].2 implies i < j by {
        if j < i {
            assert(!goes_before(key_of(t[i]), key_of(t[j])));
        }
    }
}

fn key_before(a: &SearchHit, b: &SearchHit) -> (r: bool)
    ensures
        r == goes_before(key_of(hit_view(*a)), key_of(hit_view(*b))),
{
    b.date.is_before(&a.date) || (a.date == b.date && a.line_number < b.line_number)
}

/// Orders hits newest day first, then by line; equal keys keep their order.
pub fn sort_hits(hits: Vec<SearchHit>) -> (r: Vec<SearchHit>)
    ensures
        hits_view(r@) == sorted_hits(hits_view(hits@)),
{
    let ghost input = hits_view(hits@);
    let mut rev: Vec<SearchHit> = Vec::new();
    let mut src = hits;
    while src.len() > 0
        invariant
            hits_view(src@) + hits_view(rev@).reverse() == input,
        decreases src.len(),
    {
        let ghost s0 = hits_view(src@);
        let ghost r0 = hits_view(rev@);
        let h = src.pop().unwrap();
        rev.push(h);
        assert(hits_view(rev@) =~= r0.push(hit_view(h)));
        assert(hits_view(src@) =~= s0.drop_last());
        assert(hits_view(rev@).reverse() =~= seq![hit_view(h)] + r0.reverse());
        assert(s0 =~= s0.drop_last().push(hit_view(h)));
        assert(hits_view(src@) + hits_view(rev@).reverse() =~= s0 + r0.reverse());
    }
    assert(hits_view(rev@).reverse() =~= input);
    let mut out: Vec<SearchHit> = Vec::new();
    let mut n: usize = 0;
    let total = rev.len();
    assert(input.len() == total);
    while rev.len() > 0
        invariant
            input.len() <= usize::MAX,
            n + rev@.len() == input.len(),
            hits_view(rev@).reverse() == input.skip(n as int),
            hits_view(out@) == sorted_hits(input.take(n as int)),
        decreases rev.len(),
    {
        let ghost rv = hits_view(rev@);
        let h = rev.pop().unwrap();
        assert(rv.reverse()[0] == hit_view(h));
        assert(hits_view(rev@).reverse() =~= input.skip(n + 1)) by {
            assert(hits_view(rev@) =~= rv.drop_last());
            assert(rv.drop_last().reverse() =~= rv.reverse().drop_first());
            assert(input.skip(n as int).drop_first() =~= input.skip(n + 1));
        }
        let ghost o = hits_view(out@);
        let mut j: usize = 0;
        while j < out.len() && !key_before(&h, &out[j])
            invariant
                j <= out@.len(),
                o == hits_view(out@),
                insert_pos_from(o, hit_view(h), j as int) == insert_pos_from(o, hit_view(h), 0),
            decreases out@.len() - j,
        {
            j += 1;
        }
        out.insert(j, h);
        assert(input.take(n + 1).drop_last() == input.take(n as int));
        assert(input.take(n + 1).last() == hit_view(h)) by {
            assert(input.skip(n as int)[0] == input[n as int]);
        }
        assert(hits_view(out@) =~= o.insert(j as int, hit_view(h)));
        n += 1;
    }
    assert(input.take(n as int) == input);
    out
}

/// Searches the notes with a compiled pattern: every matching line of every
/// note, in search order.
pub fn search_with(m: &Matcher, notes: &Vec<NoteText>) -> (hits: Vec<SearchHit>)
    ensures
        hits_view(hits@) == sorted_hits(
            notes@.map_values(|n: NoteText| note_hits_spec(m.pattern(), n.path@, n.date, n.contents@)).flatten(),
        ),
{
    let ghost per = notes@.map_values(|n: NoteText| note_hits_spec(m.pattern(), n.path@, n.date, n.contents@));
    let mut all: Vec<SearchHit> = Vec::new();
    let mut i: usize = 0;
    while i < notes.len()
        invariant
            i <= notes@.len(),
            per == notes@.map_values(|n: NoteText| note_hits_spec(m.pattern(), n.path@, n.date, n.contents@)),
            hits_view(all@) == per.take(i as int).flatten(),
        decreases notes@.len() - i,
    {
        let mut found = note_hits(m, notes[i].path.as_str(), notes[i].date, notes[i].contents.as_str());
        let ghost before = hits_view(all@);
        let ghost fv = hits_view(found@);
        all.append(&mut found);
        assert(hits_view(all@) =~= before + fv);
        assert(per.take(i + 1) == per.take(i as int).push(per[i as int]));
        proof {
            per.take(i as int).lemma_flatten_push(per[i as int]);
        }
        i += 1;
    }
    assert(per.take(notes@.len() as int) == per);
    sort_hits(all)
}

/// Searches the notes: the pattern is a case-insensitive regular expression
/// matched line by line; hits are ordered newest day first, then by line.
pub fn search(pattern: &str, notes: &Vec<NoteText>) -> (r: Result<Vec<SearchHit>, NotesError>)
    ensures
        r is Ok <==> regex_compiles(pattern@),
        r matches Ok(hits) ==> hits_view(hits@) == sorted_hits(
            notes@.map_values(|n: NoteText| note_hits_spec(pattern@, n.path@, n.date, n.contents@)).flatten(),
        ),
        r matches Err(e) ==> (e matches NotesError::InvalidPattern { pattern: p, .. } && p@ == pattern@),
{
    let m = compile_pattern(pattern)?;
    Ok(search_with(&m, notes))
}

/// The stem of a file name as `Path::file_stem` gives it: the name before its
/// last `.`, or the whole name when it has no `.` past its first character.
pub open spec fn last_dot_before(name: Seq<char>, j: int) -> int
    decreases j,
{
    if j <= 0 || j > name.len() {
        -1
    } else if name[j - 1] == '.' {
        j - 1
    } else {
        last_dot_before(name, j - 1)
    }
}

pub open spec fn file_stem_spec(name: Seq<char>) -> Seq<char> {
    let d = last_dot_before(name, name.len() as int);
    if d <= 0 {
        name
    } else {
        name.take(d)
    }
}

/// The day of a note file: its name must be `YYYY-MM-DD` plus an extension
/// (or no extension); anything else (attachments and the like) is no note.
pub open spec fn note_date_spec(file_name: Seq<char>) -> Option<Date> {
    chrono_ymd(file_stem_spec(file_name))
}

/// The day a note file is for, from its file name.
pub fn note_date_from_file_name(file_name: &str) -> (r: Option<Date>)
    ensures
        r == note_date_spec(file_name@),
        r matches Some(d) ==> d.wf(),
{
    let cs = chars_of(file_name);
    let mut j = cs.len();
    while j > 0 && cs[j - 1] != '.'
        invariant
            j <= cs@.len(),
            cs@ == file_name@,
            last_dot_before(cs@, j as int) == last_dot_before(cs@, cs@.len() as int),
        decreases j,
    {
        j -= 1;
    }
    let stem = if j <= 1 {
        file_name.to_string()
    } else {
        string_of_range(cs.as_slice(), 0, j - 1)
    };
    parse_ymd(stem.as_str())
}

} // verus!
