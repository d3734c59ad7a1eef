//! Display width of text in terminal columns, and fitting text into a
//! number of columns without ever splitting a grapheme cluster.
use unicode_segmentation::UnicodeSegmentation;
use unicode_width::UnicodeWidthChar;
use vstd::prelude::*;

use crate::text::{views, lemma_views_push, chars_of, lemma_split_nonempty, push_char, push_str, split_on, split_spec};

verus! {

broadcast use vstd::string::group_string_axioms;

/// The extended grapheme clusters that `unicode_segmentation` splits a text into.
pub uninterp spec fn grapheme_clusters(s: Seq<char>) -> Seq<Seq<char>>;

/// The column width that `unicode_width` gives a single character in a CJK
/// context (`None` for control characters).
pub uninterp spec fn cjk_char_width(c: char) -> Option<usize>;

/// `UnicodeSegmentation::graphemes(s, true)`, collected.
///
/// Claims that the result is the crate's extended clusters of `s`, that they
/// are non-empty, and that together they are `s` again: the iterator hands out
/// consecutive slices `s[start..next]` with `next > start` until the end.
/// Where exactly a boundary falls is left to the name.
#[verifier::external_body]
fn clusters_of(s: &str) -> (r: Vec<String>)
    ensures
        r@.map_values(|g: String| g@) == grapheme_clusters(s@),
        r@.map_values(|g: String| g@).flatten() == s@,
        forall|i: int| 0 <= i < r@.len() ==> #[trigger] r@[i]@.len() > 0,
{
    s.graphemes(true).map(String::from).collect()
}

/// `UnicodeWidthChar::width_cjk`.
///
/// Claims what the crate's code decides before it consults its tables:
/// printable ASCII is one column, C0/C1 control characters have no width,
/// and everything from U+00A0 on has a width of at most three columns (the
/// tables hold two-bit entries, and only one special case reaches three).
#[verifier::external_body]
fn char_width_cjk(c: char) -> (r: Option<usize>)
    ensures
        r == cjk_char_width(c),
        0x20 <= (c as u32) < 0x7f ==> r == Some(1usize),
        (c as u32) < 0x20 || (0x7f <= (c as u32) < 0xa0) ==> r is None,
        (c as u32) >= 0xa0 ==> (r is Some && r->0 <= 3),
{
    c.width_cjk()
}

/// The one-character ellipsis `…` that marks truncated text.
pub open spec fn ellipsis() -> Seq<char> {
    seq!['\u{2026}']
}

/// Columns of one character: its CJK width, control characters counting zero.
pub open spec fn char_cols(c: char) -> nat {
    match cjk_char_width(c) {
        Some(w) => w as nat,
        None => 0,
    }
}

/// The widest character of a cluster.
pub open spec fn max_char_cols(g: Seq<char>) -> nat
    decreases g.len(),
{
    if g.len() == 0 {
        0
    } else {
        let rest = max_char_cols(g.drop_last());
        let w = char_cols(g.last());
        if w > rest {
            w
        } else {
            rest
        }
    }
}

/// Width of one grapheme cluster: the widest of its characters (a combining
/// sequence or ZWJ emoji is drawn as one glyph), except that the ellipsis this
/// crate draws itself always counts as one column.
pub open spec fn cluster_width(g: Seq<char>) -> nat {
    if g == ellipsis() {
        1
    } else {
        max_char_cols(g)
    }
}

/// Summed width of a run of clusters.
pub open spec fn clusters_width(gs: Seq<Seq<char>>) -> nat
    decreases gs.len(),
{
    if gs.len() == 0 {
        0
    } else {
        clusters_width(gs.drop_last()) + cluster_width(gs.last())
    }
}

/// Display width of a text in terminal columns.
pub open spec fn display_width(s: Seq<char>) -> nat {
    clusters_width(grapheme_clusters(s))
}

/// Texts short enough that summing their widths cannot overflow `usize`
/// (no cluster is wider than three columns).
pub open spec fn width_fits(s: Seq<char>) -> bool {
    3 * (s.len() + 1) <= usize::MAX
}

/// Number of leading clusters, counted from `i`, that fit in `budget` columns:
/// the first `k >= i` whose next cluster would overflow, or all of them.
pub open spec fn fit_from(gs: Seq<Seq<char>>, budget: int, i: int) -> int
    decreases gs.len() - i,
{
    if i < 0 || i >= gs.len() {
        gs.len() as int
    } else if clusters_width(gs.take(i + 1)) > budget {
        i
    } else {
        fit_from(gs, budget, i + 1)
    }
}

/// How many leading clusters fit in `budget` columns.
pub open spec fn fit_count(gs: Seq<Seq<char>>, budget: int) -> int {
    fit_from(gs, budget, 0)
}

/// `s` cut to at most `max` columns with an ellipsis, as `truncate` returns it.
pub open spec fn truncated(s: Seq<char>, max: nat) -> Seq<char> {
    let gs = grapheme_clusters(s);
    if display_width(s) <= max {
        s
    } else if max == 0 {
        Seq::empty()
    } else {
        gs.take(fit_count(gs, max - 1)).flatten() + ellipsis()
    }
}

/// `n` spaces.
pub open spec fn spaces(n: nat) -> Seq<char> {
    Seq::new(n, |i: int| ' ')
}

/// `s` brought to `target` columns, as `pad` returns it.
pub open spec fn padded(s: Seq<char>, target: nat) -> Seq<char> {
    let base = if display_width(s) > target {
        truncated(s, target)
    } else {
        s
    };
    if display_width(base) < target {
        base + spaces((target - display_width(base)) as nat)
    } else {
        base
    }
}

/// Greedy line filling over clusters from index `i` on: `done` holds the
/// finished runs, `cur` the run being filled and `running` its width. A new
/// run starts when a cluster would overflow a run that is not empty.
pub open spec fn wrap_runs_from(
    gs: Seq<Seq<char>>,
    max: nat,
    i: int,
    done: Seq<Seq<Seq<char>>>,
    cur: Seq<Seq<char>>,
    running: nat,
) -> Seq<Seq<Seq<char>>>
    decreases gs.len() - i,
{
    if i < 0 || i >= gs.len() {
        done.push(cur)
    } else {
        let w = cluster_width(gs[i]);
        if running > 0 && running + w > max {
            wrap_runs_from(gs, max, i + 1, done.push(cur), seq![gs[i]], w)
        } else {
            wrap_runs_from(gs, max, i + 1, done, cur.push(gs[i]), running + w)
        }
    }
}

/// The runs of clusters that one line is broken into.
pub open spec fn wrap_runs(gs: Seq<Seq<char>>, max: nat) -> Seq<Seq<Seq<char>>> {
    wrap_runs_from(gs, max, 0, seq![], seq![], 0)
}

/// One line broken into pieces of at most `max` columns.
pub open spec fn wrap_line(line: Seq<char>, max: nat) -> Seq<Seq<char>> {
    wrap_runs(grapheme_clusters(line), max).map_values(|r: Seq<Seq<char>>| r.flatten())
}

/// The newline-separated lines of `s` (as `str::split('\n')` gives them).
pub open spec fn lines_of(s: Seq<char>) -> Seq<Seq<char>> {
    crate::text::split_spec(s, '\n')
}

/// Every line of `s` broken into pieces, one after the other.
pub open spec fn wrapped(s: Seq<char>, max: nat) -> Seq<Seq<char>> {
    lines_of(s).map_values(|line: Seq<char>| wrap_line(line, max)).flatten()
}


/// A line broken into pieces that, one after the other, are the line
/// again; an empty line gives one empty piece, any other line only
/// non-empty pieces.
pub open spec fn wraps_losslessly(line: Seq<char>, pieces: Seq<Seq<char>>) -> bool {
    &&& pieces.flatten() == line
    &&& line.len() == 0 ==> pieces == seq![Seq::<char>::empty()]
    &&& line.len() > 0 ==> pieces.len() >= 1 && forall|i: int| 0 <= i < pieces.len() ==> #[trigger] pieces[i].len() > 0
}

/// `s` without its newlines.
pub open spec fn without_newlines(s: Seq<char>) -> Seq<char> {
    s.filter(|c: char| c != '\n')
}

proof fn lemma_runs_nonempty(
    gs: Seq<Seq<char>>,
    max: nat,
    i: int,
    done: Seq<Seq<Seq<char>>>,
    cur: Seq<Seq<char>>,
    running: nat,
)
    requires
        0 <= i <= gs.len(),
        forall|k: int| 0 <= k < gs.len() ==> #[trigger] gs[k].len() > 0,
        forall|k: int| 0 <= k < done.len() ==> (#[trigger] done[k]).flatten().len() > 0,
        running == clusters_width(cur),
        cur.len() > 0 ==> cur.flatten().len() > 0,
        i > 0 ==> cur.len() > 0,
    ensures
        gs.len() > 0 ==> forall|k: int|
            0 <= k < wrap_runs_from(gs, max, i, done, cur, running).len() ==> (
            #[trigger] wrap_runs_from(gs, max, i, done, cur, running)[k]).flatten().len() > 0,
        gs.len() == 0 ==> wrap_runs_from(gs, max, i, done, cur, running) == done.push(cur),
    decreases gs.len() - i,
{
    if i == gs.len() {
        assert(wrap_runs_from(gs, max, i, done, cur, running) == done.push(cur));
        assert forall|k: int| 0 <= k < done.push(cur).len() && gs.len() > 0 implies (#[trigger] done.push(
            cur,
        )[k]).flatten().len() > 0 by {
            if k < done.len() {
                assert(done.push(cur)[k] == done[k]);
            }
        }
    } else {
        let g = gs[i];
        let w = cluster_width(g);
        if cur.len() == 0 {
            assert(cur =~= Seq::<Seq<char>>::empty());
            assert(running == 0);
        }
        if running > 0 && running + w > max {
            let nd = done.push(cur);
            let nc: Seq<Seq<char>> = seq![g];
            nc.lemma_flatten_singleton();
            assert(nc.drop_last() == Seq::<Seq<char>>::empty());
            assert(clusters_width(Seq::<Seq<char>>::empty()) == 0);
            assert(nc.last() == g);
            assert forall|k: int| 0 <= k < nd.len() implies (#[trigger] nd[k]).flatten().len() > 0 by {
                if k < done.len() {
                    assert(nd[k] == done[k]);
                }
            }
            assert(wrap_runs_from(gs, max, i, done, cur, running) == wrap_runs_from(gs, max, i + 1, nd, nc, w));
            lemma_runs_nonempty(gs, max, i + 1, nd, nc, w);
        } else {
            let nc = cur.push(g);
            cur.lemma_flatten_push(g);
            assert(nc.drop_last() == cur);
            assert(nc.last() == g);
            assert(wrap_runs_from(gs, max, i, done, cur, running) == wrap_runs_from(
                gs,
                max,
                i + 1,
                done,
                nc,
                running + w,
            ));
            lemma_runs_nonempty(gs, max, i + 1, done, nc, running + w);
        }
    }
}

proof fn lemma_flatten_of_flattened(runs: Seq<Seq<Seq<char>>>)
    ensures
        runs.map_values(|r: Seq<Seq<char>>| r.flatten()).flatten() == runs.flatten().flatten(),
    decreases runs.len(),
{
    if runs.len() > 0 {
        let rest = runs.drop_last();
        let x = runs.last();
        lemma_flatten_of_flattened(rest);
        assert(runs == rest.push(x));
        assert(runs.map_values(|r: Seq<Seq<char>>| r.flatten()) == rest.map_values(
            |r: Seq<Seq<char>>| r.flatten(),
        ).push(x.flatten()));
        rest.map_values(|r: Seq<Seq<char>>| r.flatten()).lemma_flatten_push(x.flatten());
        rest.lemma_flatten_push(x);
        vstd::seq_lib::lemma_flatten_concat(rest.flatten(), x);
    }
}

/// Breaking every line into pieces that are the line again leaves, all
/// pieces joined, the lines joined.
proof fn lemma_flatten_of_wrapped(ls: Seq<Seq<char>>, max: nat)
    requires
        forall|k: int| 0 <= k < ls.len() ==> wraps_losslessly(#[trigger] ls[k], wrap_line(ls[k], max)),
    ensures
        ls.map_values(|line: Seq<char>| wrap_line(line, max)).flatten().flatten() == ls.flatten(),
    decreases ls.len(),
{
    if ls.len() > 0 {
        let rest = ls.drop_last();
        let x = ls.last();
        let f = |line: Seq<char>| wrap_line(line, max);
        assert forall|k: int| 0 <= k < rest.len() implies wraps_losslessly(#[trigger] rest[k], wrap_line(rest[k], max)) by {
            assert(rest[k] == ls[k]);
        }
        lemma_flatten_of_wrapped(rest, max);
        assert(ls == rest.push(x));
        assert(ls.map_values(f) == rest.map_values(f).push(f(x)));
        rest.map_values(f).lemma_flatten_push(f(x));
        vstd::seq_lib::lemma_flatten_concat(rest.map_values(f).flatten(), f(x));
        rest.lemma_flatten_push(x);
        assert(wraps_losslessly(ls[ls.len() - 1], wrap_line(ls[ls.len() - 1], max)));
    }
}

/// Joining the pieces between the separators gives the text without them.
proof fn lemma_split_flatten(s: Seq<char>, sep: char)
    ensures
        crate::text::split_spec(s, sep).flatten() == s.filter(|c: char| c != sep),
    decreases s.len(),
{
    reveal_with_fuel(Seq::<_>::filter, 1);
    if s.len() == 0 {
        assert(crate::text::split_spec(s, sep) == seq![Seq::<char>::empty()]);
        seq![Seq::<char>::empty()].lemma_flatten_singleton();
    } else {
        let rest = crate::text::split_spec(s.drop_last(), sep);
        lemma_split_flatten(s.drop_last(), sep);
        lemma_split_nonempty(s.drop_last(), sep);
        if s.last() == sep {
            rest.lemma_flatten_push(Seq::<char>::empty());
            assert(rest.flatten() + Seq::<char>::empty() == rest.flatten());
        } else {
            let front = rest.drop_last();
            let l = rest.last();
            assert(rest == front.push(l));
            assert(rest.update(rest.len() - 1, l.push(s.last())) == front.push(l.push(s.last())));
            front.lemma_flatten_push(l);
            front.lemma_flatten_push(l.push(s.last()));
            assert(front.flatten() + l.push(s.last()) == (front.flatten() + l).push(s.last()));
        }
    }
}

proof fn lemma_count_le_flatten_len(gv: Seq<Seq<char>>)
    requires
        forall|i: int| 0 <= i < gv.len() ==> #[trigger] gv[i].len() > 0,
    ensures
        gv.len() <= gv.flatten().len(),
    decreases gv.len(),
{
    if gv.len() > 0 {
        assert forall|i: int| 0 <= i < gv.drop_first().len() implies #[trigger] gv.drop_first()[i].len() > 0 by {
            assert(gv.drop_first()[i] == gv[i + 1]);
        }
        lemma_count_le_flatten_len(gv.drop_first());
    }
}

proof fn lemma_take_flatten_len(gv: Seq<Seq<char>>, k: int)
    requires
        0 <= k <= gv.len(),
    ensures
        gv.take(k).flatten().len() <= gv.flatten().len(),
{
    vstd::seq_lib::lemma_flatten_concat(gv.take(k), gv.skip(k));
    assert(gv.take(k) + gv.skip(k) == gv);
}


proof fn lemma_fit_from_range(gs: Seq<Seq<char>>, budget: int, i: int)
    requires
        0 <= i <= gs.len(),
    ensures
        i <= fit_from(gs, budget, i) <= gs.len(),
    decreases gs.len() - i,
{
    if i < gs.len() && clusters_width(gs.take(i + 1)) <= budget {
        lemma_fit_from_range(gs, budget, i + 1);
    }
}

/// Width of one grapheme cluster.
pub fn grapheme_width(g: &str) -> (w: usize)
    ensures
        w == cluster_width(g@),
        w <= 3,
{
    let cs = chars_of(g);
    if cs.len() == 1 && cs[0] == '\u{2026}' {
        assert(cs@ == ellipsis());
        return 1;
    }
    assert(cs@ != ellipsis()) by {
        if cs@ == ellipsis() {
            assert(cs@.len() == 1 && cs@[0] == '\u{2026}');
        }
    }
    let mut m: usize = 0;
    let mut i: usize = 0;
    while i < cs.len()
        invariant
            i <= cs.len(),
            m == max_char_cols(cs@.take(i as int)),
            m <= 3,
        decreases cs.len() - i,
    {
        let w = match char_width_cjk(cs[i]) {
            Some(w) => w,
            None => 0,
        };
        assert(cs@.take(i + 1).drop_last() == cs@.take(i as int));
        assert(cs@.take(i + 1).last() == cs@[i as int]);
        if w > m {
            m = w;
        }
        i += 1;
    }
    assert(cs@.take(cs.len() as int) == cs@);
    m
}

/// Display width of `s` in terminal columns: the sum of its clusters' widths.
pub fn width(s: &str) -> (w: usize)
    requires
        width_fits(s@),
    ensures
        w == display_width(s@),
{
    let gs = clusters_of(s);
    let ghost gv = views(gs@);
    proof {
        assert forall|i: int| 0 <= i < gv.len() implies #[trigger] gv[i].len() > 0 by {
            assert(gv[i] == gs@[i]@);
        }
        lemma_count_le_flatten_len(gv);
    }
    let mut total: usize = 0;
    let mut i: usize = 0;
    while i < gs.len()
        invariant
            i <= gs.len(),
            gv == views(gs@),
            gv.len() <= s@.len(),
            width_fits(s@),
            total == clusters_width(gv.take(i as int)),
            total <= 3 * i,
        decreases gs.len() - i,
    {
        let w = grapheme_width(gs[i].as_str());
        assert(gv.take(i + 1).drop_last() == gv.take(i as int));
        assert(gv[i as int] == gs@[i as int]@);
        total = total + w;
        i += 1;
    }
    assert(gv.take(gv.len() as int) == gv);
    total
}

/// Cuts `s` to at most `max` columns, ending it with `…` when anything was cut.
/// Never splits a grapheme cluster.
pub fn truncate(s: &str, max: usize) -> (r: String)
    requires
        width_fits(s@),
    ensures
        r@ == truncated(s@, max as nat),
        r@.len() <= s@.len() + 1,
{
    if width(s) <= max {
        return s.to_string();
    }
    if max == 0 {
        return String::new();
    }
    let budget = max - 1;
    let gs = clusters_of(s);
    let ghost gv = views(gs@);
    let mut result = String::new();
    let mut running: usize = 0;
    let mut i: usize = 0;
    while i < gs.len()
        invariant_except_break
            i <= gs.len(),
            gv == views(gs@),
            running == clusters_width(gv.take(i as int)),
            running <= budget,
            fit_from(gv, budget as int, i as int) == fit_count(gv, budget as int),
            result@ == gv.take(i as int).flatten(),
        ensures
            result@ == gv.take(fit_count(gv, budget as int)).flatten(),
        decreases gs.len() - i,
    {
        let w = grapheme_width(gs[i].as_str());
        assert(gv.take(i + 1).drop_last() == gv.take(i as int));
        assert(gv[i as int] == gs@[i as int]@);
        if w > budget - running {
            break;
        }
        assert(gv.take(i + 1) == gv.take(i as int).push(gv[i as int]));
        proof {
            gv.take(i as int).lemma_flatten_push(gv[i as int]);
        }
        push_str(&mut result, gs[i].as_str());
        running = running + w;
        i += 1;
    }
    proof {
        lemma_fit_from_range(gv, budget as int, 0);
        lemma_take_flatten_len(gv, fit_count(gv, budget as int));
    }
    push_char(&mut result, '\u{2026}');
    result
}

/// Pads `s` with spaces to exactly `target` columns, truncating it first when
/// it is wider.
pub fn pad(s: &str, target: usize) -> (r: String)
    requires
        3 * (s@.len() + 2) <= usize::MAX,
    ensures
        r@ == padded(s@, target as nat),
        r@.len() <= s@.len() + 1 + target,
{
    let mut base = if width(s) > target {
        let t = truncate(s, target);
        proof {
            let gv = grapheme_clusters(s@);
            if target > 0 {
                lemma_fit_from_range(gv, target - 1, 0);
                lemma_take_flatten_len(gv, fit_count(gv, target - 1));
            }
        }
        t
    } else {
        s.to_string()
    };
    let ghost b0 = base@;
    let w = width(base.as_str());
    if w < target {
        let n = target - w;
        let mut k: usize = 0;
        while k < n
            invariant
                k <= n,
                base@ == b0 + spaces(k as nat),
            decreases n - k,
        {
            push_char(&mut base, ' ');
            assert(spaces((k + 1) as nat) == spaces(k as nat).push(' '));
            k += 1;
        }
    }
    base
}

/// Breaks one line (no newlines in it) into pieces of at most `max` columns.
fn wrap_one_line(line: &str, max: usize) -> (out: Vec<String>)
    requires
        width_fits(line@),
    ensures
        views(out@) == wrap_line(line@, max as nat),
        wraps_losslessly(line@, wrap_line(line@, max as nat)),
{
    let gs = clusters_of(line);
    let ghost gv = views(gs@);
    proof {
        assert forall|i: int| 0 <= i < gv.len() implies #[trigger] gv[i].len() > 0 by {
            assert(gv[i] == gs@[i]@);
        }
        lemma_count_le_flatten_len(gv);
    }
    let mut out: Vec<String> = Vec::new();
    let mut cur = String::new();
    let mut running: usize = 0;
    let ghost mut done: Seq<Seq<Seq<char>>> = seq![];
    let ghost mut cur_run: Seq<Seq<char>> = seq![];
    let mut i: usize = 0;
    while i < gs.len()
        invariant
            i <= gs.len(),
            gv == views(gs@),
            gv.len() <= line@.len(),
            width_fits(line@),
            wrap_runs_from(gv, max as nat, i as int, done, cur_run, running as nat) == wrap_runs(gv, max as nat),
            views(out@) == done.map_values(|r: Seq<Seq<char>>| r.flatten()),
            cur@ == cur_run.flatten(),
            running == clusters_width(cur_run),
            running <= 3 * i,
        decreases gs.len() - i,
    {
        let w = grapheme_width(gs[i].as_str());
        let ghost g = gv[i as int];
        assert(g == gs@[i as int]@);
        if running > 0 && running + w > max {
            let finished = cur;
            proof {
                lemma_views_push(out@, finished);
                assert(done.push(cur_run).map_values(|r: Seq<Seq<char>>| r.flatten())
                    == done.map_values(|r: Seq<Seq<char>>| r.flatten()).push(cur_run.flatten()));
            }
            out.push(finished);
            cur = gs[i].clone();
            proof {
                done = done.push(cur_run);
                cur_run = seq![g];
                assert(cur_run.drop_last() == Seq::<Seq<char>>::empty());
                cur_run.lemma_flatten_singleton();
                assert(cur_run.last() == g);
                assert(clusters_width(Seq::<Seq<char>>::empty()) == 0);
                assert(clusters_width(cur_run) == w);
            }
            running = w;
        } else {
            push_str(&mut cur, gs[i].as_str());
            proof {
                assert(cur_run.push(g).drop_last() == cur_run);
                cur_run.lemma_flatten_push(g);
                assert(cur_run.push(g).last() == g);
                assert(clusters_width(cur_run.push(g)) == running + w);
                cur_run = cur_run.push(g);
            }
            running = running + w;
        }
        i += 1;
    }
    proof {
        lemma_views_push(out@, cur);
        assert(done.push(cur_run).map_values(|r: Seq<Seq<char>>| r.flatten())
            == done.map_values(|r: Seq<Seq<char>>| r.flatten()).push(cur_run.flatten()));
        let runs = wrap_runs(gv, max as nat);
        let pieces = wrap_line(line@, max as nat);
        assert(gv == grapheme_clusters(line@));
        lemma_wrap_is_lossless_and_fits(gv, max as nat);
        lemma_flatten_of_flattened(runs);
        let e: Seq<Seq<Seq<char>>> = seq![];
        let c: Seq<Seq<char>> = seq![];
        assert(clusters_width(c) == 0);
        assert forall|k: int| 0 <= k < gv.len() implies #[trigger] gv[k].len() > 0 by {
            assert(gv[k] == gs@[k]@);
        }
        lemma_runs_nonempty(gv, max as nat, 0, e, c, 0);
        if gv.len() == 0 {
            assert(runs == seq![c]);
            c.lemma_flatten_one_element();
            assert(c.flatten() =~= Seq::<char>::empty());
            assert(pieces =~= seq![Seq::<char>::empty()]);
        } else {
            assert forall|i: int| 0 <= i < pieces.len() implies #[trigger] pieces[i].len() > 0 by {
                assert(pieces[i] == runs[i].flatten());
            }
        }
    }
    out.push(cur);
    out
}

proof fn lemma_split_pieces_short(s: Seq<char>, sep: char, j: int)
    requires
        0 <= j < split_spec(s, sep).len(),
    ensures
        split_spec(s, sep)[j].len() <= s.len(),
    decreases s.len(),
{
    if s.len() > 0 {
        let rest = split_spec(s.drop_last(), sep);
        lemma_split_nonempty(s.drop_last(), sep);
        if j < rest.len() {
            lemma_split_pieces_short(s.drop_last(), sep, j);
        }
    }
}

/// Breaks `s` into display lines of at most `max` columns: every newline
/// starts a new line, and a line wider than `max` is broken between clusters.
/// A single cluster wider than `max` gets a line of its own.
pub fn wrap(s: &str, max: usize) -> (lines: Vec<String>)
    requires
        width_fits(s@),
    ensures
        views(lines@) == wrapped(s@, max as nat),
        forall|k: int|
            0 <= k < lines_of(s@).len() ==> wraps_losslessly(
                #[trigger] lines_of(s@)[k],
                wrap_line(lines_of(s@)[k], max as nat),
            ),
        views(lines@).flatten() == without_newlines(s@),
        forall|k: int, i: int| 0 <= k < lines@.len() && 0 <= i < lines@[k]@.len() ==> #[trigger] lines@[k]@[i] != '\n',
        lines@.len() >= lines_of(s@).len(),
{
    let parts = split_on(s, '\n');
    let ghost pv = views(parts@);
    let mut lines: Vec<String> = Vec::new();
    let mut j: usize = 0;
    while j < parts.len()
        invariant
            j <= parts.len(),
            pv == views(parts@),
            pv == lines_of(s@),
            width_fits(s@),
            views(lines@) == pv.take(j as int).map_values(|line: Seq<char>| wrap_line(line, max as nat)).flatten(),
            forall|k: int| 0 <= k < j ==> wraps_losslessly(#[trigger] pv[k], wrap_line(pv[k], max as nat)),
            lines@.len() >= j,
        decreases parts.len() - j,
    {
        proof {
            assert(pv[j as int] == parts@[j as int]@);
            lemma_split_pieces_short(s@, '\n', j as int);
        }
        let pieces = wrap_one_line(parts[j].as_str(), max);
        let ghost before = views(lines@);
        let mut k: usize = 0;
        while k < pieces.len()
            invariant
                k <= pieces.len(),
                views(lines@) == before + views(pieces@).take(k as int),
            decreases pieces.len() - k,
        {
            let piece = pieces[k].clone();
            proof {
                lemma_views_push(lines@, piece);
            }
            lines.push(piece);
            assert(views(pieces@).take(k + 1) == views(pieces@).take(k as int).push(pieces@[k as int]@));
            k += 1;
        }
        proof {
            assert(views(pieces@).take(pieces.len() as int) == views(pieces@));
            let f = |line: Seq<char>| wrap_line(line, max as nat);
            assert(pv.take(j + 1).map_values(f) == pv.take(j as int).map_values(f).push(f(pv[j as int])));
            pv.take(j as int).map_values(f).lemma_flatten_push(f(pv[j as int]));
        }
        j += 1;
    }
    assert(pv.take(parts.len() as int) == pv);
    proof {
        lemma_flatten_of_wrapped(pv, max as nat);
        lemma_split_flatten(s@, '\n');
        s@.filter_lemma(|c: char| c != '\n');
        lemma_flatten_avoids(views(lines@), '\n');
        assert forall|k: int, i: int| 0 <= k < lines@.len() && 0 <= i < lines@[k]@.len() implies #[trigger] lines@[k]@[i] != '\n' by {
            assert(views(lines@)[k] == lines@[k]@);
        }
    }
    lines
}

/// A character that occurs nowhere in the concatenation of some sequences
/// occurs in none of them.
proof fn lemma_flatten_avoids(x: Seq<Seq<char>>, c: char)
    requires
        forall|i: int| 0 <= i < x.flatten().len() ==> #[trigger] x.flatten()[i] != c,
    ensures
        forall|k: int, j: int| 0 <= k < x.len() && 0 <= j < x[k].len() ==> #[trigger] x[k][j] != c,
    decreases x.len(),
{
    if x.len() > 0 {
        let f = x.flatten();
        let rest = x.drop_first();
        assert(f == x.first() + rest.flatten());
        assert forall|i: int| 0 <= i < rest.flatten().len() implies #[trigger] rest.flatten()[i] != c by {
            assert(f[x.first().len() + i] == rest.flatten()[i]);
        }
        lemma_flatten_avoids(rest, c);
        assert forall|k: int, j: int| 0 <= k < x.len() && 0 <= j < x[k].len() implies #[trigger] x[k][j] != c by {
            if k == 0 {
                assert(f[j] == x[0][j]);
            } else {
                assert(x[k] == rest[k - 1]);
            }
        }
    }
}

/// A run of clusters fits in `max` columns, or everything before its last
/// cluster takes no room (a cluster wider than the whole line, possibly after
/// zero-width ones).
pub open spec fn run_fits(r: Seq<Seq<char>>, max: nat) -> bool {
    clusters_width(r) <= max || clusters_width(r.drop_last()) == 0
}

proof fn lemma_fit_from_prefix(gs: Seq<Seq<char>>, budget: int, i: int)
    requires
        0 <= i <= gs.len(),
        clusters_width(gs.take(i)) <= budget,
    ensures
        clusters_width(gs.take(fit_from(gs, budget, i))) <= budget,
        fit_from(gs, budget, i) < gs.len() ==> clusters_width(gs.take(fit_from(gs, budget, i) + 1)) > budget,
    decreases gs.len() - i,
{
    if i < gs.len() && clusters_width(gs.take(i + 1)) <= budget {
        lemma_fit_from_prefix(gs, budget, i + 1);
    } else if i == gs.len() {
        assert(gs.take(i) == gs.take(gs.len() as int));
    }
}

/// When text is cut, the clusters kept fit in the columns left beside the
/// ellipsis, and keeping one more cluster would not have fit.
pub proof fn lemma_truncate_keeps_the_longest_fitting_prefix(s: Seq<char>, max: nat)
    requires
        display_width(s) > max,
        max > 0,
    ensures
        ({
            let gs = grapheme_clusters(s);
            let k = fit_count(gs, max - 1);
            &&& 0 <= k <= gs.len()
            &&& truncated(s, max) == gs.take(k).flatten() + ellipsis()
            &&& clusters_width(gs.take(k)) + cluster_width(ellipsis()) <= max
            &&& k < gs.len() ==> clusters_width(gs.take(k + 1)) + cluster_width(ellipsis()) > max
        }),
{
    let gs = grapheme_clusters(s);
    assert(gs.take(0) == Seq::<Seq<char>>::empty());
    assert(clusters_width(Seq::<Seq<char>>::empty()) == 0);
    lemma_fit_from_range(gs, max - 1, 0);
    lemma_fit_from_prefix(gs, max - 1, 0);
}

proof fn lemma_wrap_runs_from_sound(
    gs: Seq<Seq<char>>,
    max: nat,
    i: int,
    done: Seq<Seq<Seq<char>>>,
    cur: Seq<Seq<char>>,
    running: nat,
)
    requires
        0 <= i <= gs.len(),
        done.flatten() + cur == gs.take(i),
        forall|k: int| 0 <= k < done.len() ==> run_fits(#[trigger] done[k], max),
        running == clusters_width(cur),
        run_fits(cur, max),
    ensures
        wrap_runs_from(gs, max, i, done, cur, running).flatten() == gs,
        forall|k: int|
            0 <= k < wrap_runs_from(gs, max, i, done, cur, running).len() ==> run_fits(
                #[trigger] wrap_runs_from(gs, max, i, done, cur, running)[k],
                max,
            ),
    decreases gs.len() - i,
{
    if i == gs.len() {
        done.lemma_flatten_push(cur);
        assert(gs.take(i) == gs);
        assert forall|k: int| 0 <= k < done.push(cur).len() implies run_fits(#[trigger] done.push(cur)[k], max) by {
            if k < done.len() {
                assert(done.push(cur)[k] == done[k]);
            }
        }
    } else {
        let g = gs[i];
        let w = cluster_width(g);
        assert(gs.take(i + 1) == gs.take(i).push(g));
        if running > 0 && running + w > max {
            let nd = done.push(cur);
            let nc: Seq<Seq<char>> = seq![g];
            done.lemma_flatten_push(cur);
            assert(nc.drop_last() == Seq::<Seq<char>>::empty());
            assert(clusters_width(Seq::<Seq<char>>::empty()) == 0);
            assert(nc.last() == g);
            assert(nd.flatten() + nc == gs.take(i + 1));
            assert forall|k: int| 0 <= k < nd.len() implies run_fits(#[trigger] nd[k], max) by {
                if k < done.len() {
                    assert(nd[k] == done[k]);
                }
            }
            lemma_wrap_runs_from_sound(gs, max, i + 1, nd, nc, w);
        } else {
            let nc = cur.push(g);
            assert(nc.drop_last() == cur);
            assert(nc.last() == g);
            assert(done.flatten() + nc == gs.take(i + 1));
            lemma_wrap_runs_from_sound(gs, max, i + 1, done, nc, running + w);
        }
    }
}

/// Wrapping loses nothing and every piece fits: the runs of clusters one line
/// is broken into are, one after the other, exactly the line's clusters, and
/// each run fits in `max` columns unless a single cluster is wider than that.
pub proof fn lemma_wrap_is_lossless_and_fits(gs: Seq<Seq<char>>, max: nat)
    ensures
        wrap_runs(gs, max).flatten() == gs,
        forall|k: int| 0 <= k < wrap_runs(gs, max).len() ==> run_fits(#[trigger] wrap_runs(gs, max)[k], max),
{
    let e: Seq<Seq<Seq<char>>> = seq![];
    let c: Seq<Seq<char>> = seq![];
    assert(e.flatten() + c == gs.take(0));
    assert(clusters_width(c) == 0);
    lemma_wrap_runs_from_sound(gs, max, 0, e, c, 0);
}

} // verus!
