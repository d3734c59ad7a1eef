//! Carrying unfinished checklist items over into a new day's note.
use vstd::prelude::*;

use crate::date::{backward, chrono_ymd, parse_ymd, ymd_text, Date};
use crate::text::{
    is_ws, keep_to, lemma_keep_to_range, lemma_skip_ws_range, skip_ws_from, ends_with_spec, join, join_spec, lines_of, lines_spec, push_str, starts_with, strip_prefix, strip_suffix,
    trim, trim_spec, trim_start, trim_start_spec, views, lemma_views_push,
};

verus! {

broadcast use vstd::string::group_string_axioms;

/// How many days back to look for an earlier note. The search stops at the
/// first day with a note; the limit only guards against endless lookups.
pub const CARRY_OVER_LOOKBACK_DAYS: u32 = 365;

/// The date in a `<!-- carried over from YYYY-MM-DD -->` line.
pub open spec fn parse_comment_spec(line: Seq<char>) -> Option<Date> {
    let t = trim_spec(line);
    let pre = "<!-- carried over from "@;
    let post = " -->"@;
    if pre.is_prefix_of(t) {
        let rest = t.skip(pre.len() as int);
        if ends_with_spec(rest, post) {
            chrono_ymd(rest.take(rest.len() - post.len()))
        } else {
            None
        }
    } else {
        None
    }
}

/// An unfinished checklist item: `- [ ]` after any indentation.
pub open spec fn is_open_item(line: Seq<char>) -> bool {
    "- [ ]"@.is_prefix_of(trim_start_spec(line))
}

/// The comment line that tells which day items were first written on.
pub open spec fn carried_comment(origin: Date) -> Seq<char> {
    "<!-- carried over from "@ + ymd_text(origin) + " -->"@
}

/// Reading the first `n` lines of the note of `cursor`: the day the items
/// being read were first written on, and the unfinished items grouped by
/// that day. A carried-over comment names the day of the items after it; a
/// time heading starts what was written on `cursor` itself.
pub open spec fn carry_fold(cursor: Date, lines: Seq<Seq<char>>, n: int) -> (Date, Seq<(Date, Seq<Seq<char>>)>)
    decreases n,
{
    if n <= 0 || n > lines.len() {
        (cursor, Seq::empty())
    } else {
        let (origin, groups) = carry_fold(cursor, lines, n - 1);
        let line = lines[n - 1];
        match parse_comment_spec(line) {
            Some(p) => (p, groups),
            None => if "## "@.is_prefix_of(line) {
                (cursor, groups)
            } else if is_open_item(line) {
                if groups.len() > 0 && groups.last().0 == origin {
                    (origin, groups.update(groups.len() - 1, (origin, groups.last().1.push(line))))
                } else {
                    (origin, groups.push((origin, seq![line])))
                }
            } else {
                (origin, groups)
            },
        }
    }
}

/// The carried lines of some groups: each group's comment, then its items.
pub open spec fn group_lines(groups: Seq<(Date, Seq<Seq<char>>)>) -> Seq<Seq<char>>
    decreases groups.len(),
{
    if groups.len() == 0 {
        Seq::empty()
    } else {
        group_lines(groups.drop_last()) + seq![carried_comment(groups.last().0)] + groups.last().1
    }
}

/// The lines to carry over from the note of `cursor`.
pub open spec fn carry_over_items_spec(cursor: Date, contents: Seq<char>) -> Seq<Seq<char>> {
    let lines = lines_spec(contents);
    group_lines(carry_fold(cursor, lines, lines.len() as int).1)
}

/// The unfinished-item test as a predicate on lines.
pub open spec fn open_item_pred() -> spec_fn(Seq<char>) -> bool {
    |l: Seq<char>| is_open_item(l)
}

/// The items of some groups, without their comments.
pub open spec fn items_of(groups: Seq<(Date, Seq<Seq<char>>)>) -> Seq<Seq<char>>
    decreases groups.len(),
{
    if groups.len() == 0 {
        Seq::empty()
    } else {
        items_of(groups.drop_last()) + groups.last().1
    }
}

/// Every item of every group is an unfinished item.
spec fn all_open(groups: Seq<(Date, Seq<Seq<char>>)>) -> bool {
    forall|g: int, i: int|
        0 <= g < groups.len() && 0 <= i < groups[g].1.len() ==> is_open_item(#[trigger] groups[g].1[i])
}

proof fn lemma_prefix_index(p: Seq<char>, s: Seq<char>, i: int)
    requires
        p.is_prefix_of(s),
        0 <= i < p.len(),
    ensures
        s[i] == p[i],
{
    assert(s.subrange(0, p.len() as int)[i] == s[i]);
}

proof fn lemma_comment_is_no_item(line: Seq<char>)
    requires
        parse_comment_spec(line) is Some,
    ensures
        !is_open_item(line),
{
    reveal_strlit("<!-- carried over from ");
    reveal_strlit("- [ ]");
    let a = skip_ws_from(line, 0);
    let b = keep_to(line, line.len() as int);
    lemma_skip_ws_range(line, 0);
    lemma_keep_to_range(line, line.len() as int);
    let t = trim_spec(line);
    lemma_prefix_index("<!-- carried over from "@, t, 0);
    assert(a < b);
    assert(t[0] == line[a]);
    if is_open_item(line) {
        lemma_prefix_index("- [ ]"@, trim_start_spec(line), 0);
        assert(trim_start_spec(line)[0] == line[a]);
    }
}

proof fn lemma_not_ws_first(line: Seq<char>)
    requires
        line.len() > 0,
        !is_ws(line[0]),
    ensures
        trim_start_spec(line) == line,
{
    assert(skip_ws_from(line, 0) == 0);
    assert(line.skip(0) == line);
}

proof fn lemma_heading_is_no_item(line: Seq<char>)
    requires
        "## "@.is_prefix_of(line),
    ensures
        !is_open_item(line),
{
    reveal_strlit("## ");
    reveal_strlit("- [ ]");
    lemma_prefix_index("## "@, line, 0);
    lemma_not_ws_first(line);
    if is_open_item(line) {
        lemma_prefix_index("- [ ]"@, trim_start_spec(line), 0);
    }
}

proof fn lemma_carried_comment_is_no_item(d: Date)
    ensures
        !is_open_item(carried_comment(d)),
{
    reveal_strlit("<!-- carried over from ");
    reveal_strlit("- [ ]");
    let c = carried_comment(d);
    assert(c[0] == '<');
    lemma_not_ws_first(c);
    if is_open_item(c) {
        lemma_prefix_index("- [ ]"@, trim_start_spec(c), 0);
    }
}

proof fn lemma_fold_items(cursor: Date, lines: Seq<Seq<char>>, n: int)
    requires
        0 <= n <= lines.len(),
    ensures
        items_of(carry_fold(cursor, lines, n).1) == lines.take(n).filter(open_item_pred()),
        all_open(carry_fold(cursor, lines, n).1),
    decreases n,
{
    if n > 0 {
        lemma_fold_items(cursor, lines, n - 1);
        let (origin, groups) = carry_fold(cursor, lines, n - 1);
        let line = lines[n - 1];
        assert(lines.take(n) == lines.take(n - 1).push(line));
        lines.take(n - 1).lemma_filter_push(line, open_item_pred());
        match parse_comment_spec(line) {
            Some(p) => {
                lemma_comment_is_no_item(line);
            },
            None => {
                if "## "@.is_prefix_of(line) {
                    lemma_heading_is_no_item(line);
                } else if is_open_item(line) {
                    let out = carry_fold(cursor, lines, n).1;
                    if groups.len() > 0 && groups.last().0 == origin {
                        let last = groups.last();
                        assert(out == groups.update(groups.len() - 1, (origin, last.1.push(line))));
                        assert(out.drop_last() == groups.drop_last());
                        assert(items_of(groups) == items_of(groups.drop_last()) + last.1);
                        assert(items_of(out) == items_of(groups.drop_last()) + last.1.push(line));
                        assert(items_of(out) =~= items_of(groups).push(line));
                        assert forall|g: int, i: int| 0 <= g < out.len() && 0 <= i < out[g].1.len() implies is_open_item(
                            #[trigger] out[g].1[i],
                        ) by {
                            if g < out.len() - 1 {
                                assert(out[g] == groups[g]);
                            } else if i < last.1.len() {
                                assert(out[g].1[i] == groups[g].1[i]);
                            }
                        }
                    } else {
                        assert(out == groups.push((origin, seq![line])));
                        assert(out.drop_last() == groups);
                        assert(items_of(out) =~= items_of(groups).push(line));
                        assert forall|g: int, i: int| 0 <= g < out.len() && 0 <= i < out[g].1.len() implies is_open_item(
                            #[trigger] out[g].1[i],
                        ) by {
                            if g < out.len() - 1 {
                                assert(out[g] == groups[g]);
                            }
                        }
                    }
                }
            },
        }
    }
}

proof fn lemma_all_open_filter(items: Seq<Seq<char>>)
    requires
        forall|i: int| 0 <= i < items.len() ==> is_open_item(#[trigger] items[i]),
    ensures
        items.filter(open_item_pred()) == items,
    decreases items.len(),
{
    if items.len() > 0 {
        lemma_all_open_filter(items.drop_last());
        items.drop_last().lemma_filter_push(items.last(), open_item_pred());
        assert(items.drop_last().push(items.last()) == items);
    }
}

proof fn lemma_group_lines_filter(groups: Seq<(Date, Seq<Seq<char>>)>)
    requires
        all_open(groups),
    ensures
        group_lines(groups).filter(open_item_pred()) == items_of(groups),
        forall|i: int|
            0 <= i < group_lines(groups).len() && !is_open_item(#[trigger] group_lines(groups)[i]) ==> exists|
                d: Date,
            | group_lines(groups)[i] == carried_comment(d),
    decreases groups.len(),
{
    if groups.len() > 0 {
        let rest = groups.drop_last();
        let last = groups.last();
        assert(all_open(rest)) by {
            assert forall|g: int, i: int| 0 <= g < rest.len() && 0 <= i < rest[g].1.len() implies is_open_item(
                #[trigger] rest[g].1[i],
            ) by {
                assert(rest[g] == groups[g]);
            }
        }
        lemma_group_lines_filter(rest);
        let head = group_lines(rest) + seq![carried_comment(last.0)];
        assert(group_lines(groups) == head + last.1);
        Seq::filter_distributes_over_add(head, last.1, open_item_pred());
        Seq::filter_distributes_over_add(group_lines(rest), seq![carried_comment(last.0)], open_item_pred());
        lemma_carried_comment_is_no_item(last.0);
        Seq::<Seq<char>>::empty().lemma_filter_push(carried_comment(last.0), open_item_pred());
        assert(seq![carried_comment(last.0)] == Seq::<Seq<char>>::empty().push(carried_comment(last.0)));
        assert(Seq::<Seq<char>>::empty().filter(open_item_pred()) == Seq::<Seq<char>>::empty());
        assert forall|i: int| 0 <= i < last.1.len() implies is_open_item(#[trigger] last.1[i]) by {
            assert(groups[groups.len() - 1].1[i] == last.1[i]);
        }
        lemma_all_open_filter(last.1);
        assert(group_lines(rest).filter(open_item_pred()) + Seq::<Seq<char>>::empty() == items_of(rest));
        let out = group_lines(groups);
        assert forall|i: int| 0 <= i < out.len() && !is_open_item(#[trigger] out[i]) implies exists|d: Date|
            out[i] == carried_comment(d) by {
            let k = group_lines(rest).len();
            if i < k {
                assert(out[i] == group_lines(rest)[i]);
            } else if i == k {
                assert(out[i] == carried_comment(last.0));
            } else {
                assert(out[i] == last.1[i - k - 1]);
            }
        }
    }
}

/// Nothing gets lost and nothing finished is carried: the unfinished
/// `- [ ]` items among the carried lines are exactly those of the note, in
/// order, and every other carried line is a comment naming the day its
/// items were first written.
pub proof fn lemma_carry_over_keeps_exactly_the_open_items(cursor: Date, contents: Seq<char>)
    ensures
        carry_over_items_spec(cursor, contents).filter(open_item_pred()) == lines_spec(contents).filter(
            open_item_pred(),
        ),
        forall|i: int|
            0 <= i < carry_over_items_spec(cursor, contents).len() && !is_open_item(
                #[trigger] carry_over_items_spec(cursor, contents)[i],
            ) ==> exists|d: Date| carry_over_items_spec(cursor, contents)[i] == carried_comment(d),
{
    let lines = lines_spec(contents);
    lemma_fold_items(cursor, lines, lines.len() as int);
    assert(lines.take(lines.len() as int) == lines);
    lemma_group_lines_filter(carry_fold(cursor, lines, lines.len() as int).1);
}

/// A line that decides which day the items after it were written on: a
/// carried-over comment or a time heading.
pub open spec fn is_marker(line: Seq<char>) -> bool {
    parse_comment_spec(line) is Some || "## "@.is_prefix_of(line)
}

/// The day an item at line `i` of the note of `cursor` was first written on:
/// the date of the nearest carried-over comment above it, unless a time
/// heading comes between them (or there is no such comment), in which case
/// it was written on `cursor` itself.
pub open spec fn item_origin(cursor: Date, lines: Seq<Seq<char>>, i: int) -> Date
    decreases i,
{
    if i <= 0 || i > lines.len() {
        cursor
    } else if is_marker(lines[i - 1]) {
        match parse_comment_spec(lines[i - 1]) {
            Some(d) => d,
            None => cursor,
        }
    } else {
        item_origin(cursor, lines, i - 1)
    }
}

/// The days of the unfinished items among the first `n` lines, in order.
pub open spec fn item_dates(cursor: Date, lines: Seq<Seq<char>>, n: int) -> Seq<Date>
    decreases n,
{
    if n <= 0 || n > lines.len() {
        Seq::empty()
    } else if is_open_item(lines[n - 1]) {
        item_dates(cursor, lines, n - 1).push(item_origin(cursor, lines, n - 1))
    } else {
        item_dates(cursor, lines, n - 1)
    }
}

/// The day of every item of some groups, in order.
pub open spec fn group_dates(groups: Seq<(Date, Seq<Seq<char>>)>) -> Seq<Date>
    decreases groups.len(),
{
    if groups.len() == 0 {
        Seq::empty()
    } else {
        group_dates(groups.drop_last()) + Seq::new(groups.last().1.len(), |k: int| groups.last().0)
    }
}

/// Groups that each hold at least one item, no two neighbours of one day.
pub open spec fn groups_well_formed(groups: Seq<(Date, Seq<Seq<char>>)>) -> bool {
    &&& forall|g: int| 0 <= g < groups.len() ==> (#[trigger] groups[g]).1.len() > 0
    &&& forall|g: int| 0 < g < groups.len() ==> (#[trigger] groups[g]).0 != groups[g - 1].0
}

proof fn lemma_fold_origins(cursor: Date, lines: Seq<Seq<char>>, n: int)
    requires
        0 <= n <= lines.len(),
    ensures
        carry_fold(cursor, lines, n).0 == item_origin(cursor, lines, n),
        group_dates(carry_fold(cursor, lines, n).1) == item_dates(cursor, lines, n),
        groups_well_formed(carry_fold(cursor, lines, n).1),
    decreases n,
{
    if n > 0 {
        lemma_fold_origins(cursor, lines, n - 1);
        let (origin, groups) = carry_fold(cursor, lines, n - 1);
        let line = lines[n - 1];
        match parse_comment_spec(line) {
            Some(p) => {
                lemma_comment_is_no_item(line);
            },
            None => {
                if "## "@.is_prefix_of(line) {
                    lemma_heading_is_no_item(line);
                } else if is_open_item(line) {
                    let out = carry_fold(cursor, lines, n).1;
                    if groups.len() > 0 && groups.last().0 == origin {
                        let last = groups.last();
                        assert(out == groups.update(groups.len() - 1, (origin, last.1.push(line))));
                        assert(out.drop_last() == groups.drop_last());
                        assert(Seq::new(last.1.len() + 1, |k: int| origin) =~= Seq::new(last.1.len(), |k: int| last.0).push(origin));
                        assert(group_dates(out) =~= group_dates(groups).push(origin));
                        assert forall|g: int| 0 < g < out.len() implies (#[trigger] out[g]).0 != out[g - 1].0 by {
                            assert(out[g].0 == groups[g].0);
                            assert(out[g - 1].0 == groups[g - 1].0);
                        }
                        assert forall|g: int| 0 <= g < out.len() implies (#[trigger] out[g]).1.len() > 0 by {
                            if g < out.len() - 1 {
                                assert(out[g] == groups[g]);
                            }
                        }
                    } else {
                        assert(out == groups.push((origin, seq![line])));
                        assert(out.drop_last() == groups);
                        assert(Seq::new(1, |k: int| origin) =~= seq![origin]);
                        assert(group_dates(out) =~= group_dates(groups).push(origin));
                        assert forall|g: int| 0 < g < out.len() implies (#[trigger] out[g]).0 != out[g - 1].0 by {
                            if g < out.len() - 1 {
                                assert(out[g] == groups[g]);
                            }
                            assert(out[g - 1] == groups[g - 1]);
                        }
                        assert forall|g: int| 0 <= g < out.len() implies (#[trigger] out[g]).1.len() > 0 by {
                            if g < out.len() - 1 {
                                assert(out[g] == groups[g]);
                            }
                        }
                    }
                }
            },
        }
    }
}

/// Each carried item keeps the day it was first written on: the carried
/// lines are runs of items, each run under a comment naming its day, the
/// runs holding exactly the unfinished items of the note in order, and the
/// day of every item is that of the nearest carried-over comment above it
/// in the note, or the note's own day when a time heading (or nothing)
/// comes between. Every run holds at least one item, and neighbouring runs
/// are of different days.
pub proof fn lemma_carried_items_keep_their_day(cursor: Date, contents: Seq<char>)
    ensures
        exists|groups: Seq<(Date, Seq<Seq<char>>)>|
            {
                &&& carry_over_items_spec(cursor, contents) == #[trigger] group_lines(groups)
                &&& items_of(groups) == lines_spec(contents).filter(open_item_pred())
                &&& group_dates(groups) == item_dates(cursor, lines_spec(contents), lines_spec(contents).len() as int)
                &&& groups_well_formed(groups)
            },
{
    let lines = lines_spec(contents);
    let groups = carry_fold(cursor, lines, lines.len() as int).1;
    lemma_fold_items(cursor, lines, lines.len() as int);
    lemma_fold_origins(cursor, lines, lines.len() as int);
    assert(lines.take(lines.len() as int) == lines);
    assert(carry_over_items_spec(cursor, contents) == group_lines(groups));
}

/// The block put at the top of a new note: the carried lines and a blank
/// line, or nothing.
pub open spec fn carried_block_spec(items: Seq<Seq<char>>) -> Seq<char> {
    if items.len() == 0 {
        Seq::empty()
    } else {
        join_spec(items, "\n"@) + "\n\n"@
    }
}

/// Reads the date out of a carried-over comment.
fn parse_carried_over_comment(line: &str) -> (r: Option<Date>)
    ensures
        r == parse_comment_spec(line@),
        r matches Some(d) ==> d.wf(),
{
    let t = trim(line);
    proof {
        reveal_strlit("<!-- carried over from ");
    }
    let rest = match strip_prefix(t.as_str(), "<!-- carried over from ") {
        Some(r) => r,
        None => return None,
    };
    let date_str = match strip_suffix(rest.as_str(), " -->") {
        Some(d) => d,
        None => return None,
    };
    parse_ymd(date_str.as_str())
}

pub open spec fn groups_view(g: Seq<(Date, Vec<String>)>) -> Seq<(Date, Seq<Seq<char>>)> {
    g.map_values(|e: (Date, Vec<String>)| (e.0, views(e.1@)))
}

/// The unfinished items of the note of `cursor`, each run preceded by a
/// comment naming the day its items were first written. Items that were
/// already carried keep their original day.
pub fn carry_over_from(cursor: Date, contents: &str) -> (items: Vec<String>)
    requires
        cursor.wf(),
    ensures
        views(items@) == carry_over_items_spec(cursor, contents@),
{
    let lines = lines_of(contents);
    let ghost lv = views(lines@);
    let mut origin = cursor;
    let mut groups: Vec<(Date, Vec<String>)> = Vec::new();
    let mut i: usize = 0;
    while i < lines.len()
        invariant
            i <= lines.len(),
            lv == views(lines@),
            lv == lines_spec(contents@),
            cursor.wf(),
            origin.wf(),
            forall|k: int| 0 <= k < groups@.len() ==> (#[trigger] groups@[k]).0.wf(),
            carry_fold(cursor, lv, i as int) == (origin, groups_view(groups@)),
        decreases lines.len() - i,
    {
        let line = &lines[i];
        assert(lv[i as int] == line@);
        let ghost gv = groups_view(groups@);
        if let Some(p) = parse_carried_over_comment(line.as_str()) {
            origin = p;
        } else if starts_with(line.as_str(), "## ") {
            origin = cursor;
        } else {
            let ts = trim_start(line.as_str());
            if starts_with(ts.as_str(), "- [ ]") {
                let n = groups.len();
                if n > 0 && groups[n - 1].0 == origin {
                    let mut last = groups.pop().unwrap();
                    let ghost before = views(last.1@);
                    last.1.push(line.clone());
                    assert(views(last.1@) =~= before.push(line@));
                    groups.push(last);
                    assert(groups_view(groups@) =~= gv.update(gv.len() - 1, (origin, gv.last().1.push(line@))));
                } else {
                    let v = vec![line.clone()];
                    assert(views(v@) =~= seq![line@]);
                    groups.push((origin, v));
                    assert(groups_view(groups@) =~= gv.push((origin, seq![line@])));
                }
            }
        }
        proof {
            reveal_strlit("## ");
            reveal_strlit("- [ ]");
        }
        i += 1;
    }
    let mut items: Vec<String> = Vec::new();
    let ghost gfin = groups_view(groups@);
    let mut g: usize = 0;
    while g < groups.len()
        invariant
            g <= groups.len(),
            gfin == groups_view(groups@),
            forall|k: int| 0 <= k < groups@.len() ==> (#[trigger] groups@[k]).0.wf(),
            views(items@) == group_lines(gfin.take(g as int)),
        decreases groups.len() - g,
    {
        assert(groups@[g as int].0.wf());
        let mut comment = "<!-- carried over from ".to_string();
        let ymd = groups[g].0.to_ymd();
        push_str(&mut comment, ymd.as_str());
        push_str(&mut comment, " -->");
        proof {
            lemma_views_push(items@, comment);
        }
        items.push(comment);
        let ghost mid = views(items@);
        let mut k: usize = 0;
        while k < groups[g].1.len()
            invariant
                g < groups.len(),
                k <= groups@[g as int].1@.len(),
                views(items@) == mid + views(groups@[g as int].1@).take(k as int),
            decreases groups@[g as int].1@.len() - k,
        {
            let item = groups[g].1[k].clone();
            proof {
                lemma_views_push(items@, item);
                assert(views(groups@[g as int].1@).take(k + 1) == views(groups@[g as int].1@).take(k as int).push(item@));
            }
            items.push(item);
            k += 1;
        }
        proof {
            assert(views(groups@[g as int].1@).take(k as int) == views(groups@[g as int].1@));
            assert(gfin.take(g + 1).drop_last() == gfin.take(g as int));
            assert(gfin.take(g + 1).last() == gfin[g as int]);
        }
        g += 1;
    }
    assert(gfin.take(groups.len() as int) == gfin);
    items
}

/// The block put at the top of a new note for these carried lines.
pub fn carried_block(items: &Vec<String>) -> (s: String)
    ensures
        s@ == carried_block_spec(views(items@)),
{
    if items.len() == 0 {
        String::new()
    } else {
        let mut s = join(items, "\n");
        push_str(&mut s, "\n\n");
        s
    }
}

/// The earlier days to look at for unfinished items, nearest first: up to a
/// year back, stopping at the earliest date.
pub fn carry_over_candidates(date: Date) -> (days: Vec<Date>)
    requires
        date.wf(),
    ensures
        days@.len() <= CARRY_OVER_LOOKBACK_DAYS,
        forall|i: int| 0 <= i < days@.len() ==> Some(#[trigger] days@[i]) == backward(date, (i + 1) as nat),
        forall|i: int| 0 <= i < days@.len() ==> (#[trigger] days@[i]).wf(),
        days@.len() < CARRY_OVER_LOOKBACK_DAYS ==> backward(date, (days@.len() + 1) as nat) is None,
{
    let mut days: Vec<Date> = Vec::new();
    let mut cursor = date;
    let mut n: u32 = 0;
    while n < CARRY_OVER_LOOKBACK_DAYS
        invariant
            n <= CARRY_OVER_LOOKBACK_DAYS,
            days@.len() == n,
            cursor.wf(),
            backward(date, n as nat) == Some(cursor),
            forall|i: int| 0 <= i < days@.len() ==> Some(#[trigger] days@[i]) == backward(date, (i + 1) as nat),
            forall|i: int| 0 <= i < days@.len() ==> (#[trigger] days@[i]).wf(),
        decreases CARRY_OVER_LOOKBACK_DAYS - n,
    {
        match cursor.pred_opt() {
            Some(p) => {
                days.push(p);
                cursor = p;
            },
            None => {
                return days;
            },
        }
        n += 1;
    }
    days
}

} // verus!
