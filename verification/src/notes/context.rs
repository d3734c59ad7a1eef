//! `pen context`: recent notes gathered newest first into a rough token
//! budget, whole days at a time.
use vstd::prelude::*;

use crate::date::{backward, ymd_text, Date};
use crate::text::{chars_of, decimal, decimal_spec, join, join_spec, push_str, views, lemma_views_push};

verus! {

broadcast use vstd::string::group_string_axioms;

/// How many days `pen context` (and the MCP `recent_notes`) looks back by default.
pub const CONTEXT_DEFAULT_DAYS: u32 = 7;

/// The default token budget of `pen context`.
pub const CONTEXT_DEFAULT_MAX_TOKENS: usize = 4000;

/// At most this many days (about a century) are looked at, however far back
/// asked for.
pub const MAX_CONTEXT_DAYS: u32 = 36600;

/// A rough, low-side token estimate for mixed Japanese and English text:
/// half a token per character, rounded up.
pub open spec fn estimate_spec(s: Seq<char>) -> nat {
    ((s.len() + 1) / 2) as nat
}

/// Estimated tokens of a text.
pub fn estimate_tokens(s: &str) -> (t: usize)
    ensures
        t == estimate_spec(s@),
{
    let n = chars_of(s).len();
    n / 2 + n % 2
}

/// The days to look at, newest first: `today` and the days before it, as
/// many as asked for (at least one, at most `MAX_CONTEXT_DAYS`), stopping
/// at the earliest date.
pub open spec fn days_wanted(since_days: u32) -> nat {
    if since_days < 1 {
        1
    } else if since_days > MAX_CONTEXT_DAYS {
        MAX_CONTEXT_DAYS as nat
    } else {
        since_days as nat
    }
}

/// The days `pen context` looks at, newest first.
pub fn context_dates(since_days: u32, today: Date) -> (days: Vec<Date>)
    requires
        today.wf(),
    ensures
        days@.len() <= days_wanted(since_days),
        days@.len() >= 1,
        forall|i: int| 0 <= i < days@.len() ==> Some(#[trigger] days@[i]) == backward(today, i as nat),
        forall|i: int| 0 <= i < days@.len() ==> (#[trigger] days@[i]).wf(),
        days@.len() < days_wanted(since_days) ==> backward(today, days@.len() as nat) is None,
{
    let want: u32 = if since_days < 1 {
        1
    } else if since_days > MAX_CONTEXT_DAYS {
        MAX_CONTEXT_DAYS
    } else {
        since_days
    };
    let mut days: Vec<Date> = Vec::new();
    let mut cursor = today;
    days.push(cursor);
    let mut n: u32 = 1;
    while n < want
        invariant
            1 <= n <= want,
            want == days_wanted(since_days),
            days@.len() == n,
            cursor.wf(),
            Some(cursor) == backward(today, (n - 1) as nat),
            forall|i: int| 0 <= i < days@.len() ==> Some(#[trigger] days@[i]) == backward(today, i as nat),
            forall|i: int| 0 <= i < days@.len() ==> (#[trigger] days@[i]).wf(),
        decreases want - n,
    {
        match cursor.pred_opt() {
            Some(p) => {
                days.push(p);
                cursor = p;
            },
            None => {
                return days;
            },
        }
        n += 1;
    }
    days
}

/// What has been gathered: the days taken (newest first), their estimated
/// tokens, and whether gathering has stopped.
pub type Gathered = (Seq<(Date, Seq<char>)>, nat, bool);

/// Offering the note of one more (older) day. The first day is always
/// taken; a later day is taken only if it fits the budget; once the total
/// is over the budget nothing more is taken.
pub open spec fn gather_step(g: Gathered, date: Date, contents: Seq<char>, max_tokens: nat) -> Gathered {
    let t = estimate_spec(contents);
    if g.0.len() > 0 && g.1 + t > max_tokens {
        (g.0, g.1, true)
    } else {
        let total = g.1 + t;
        (g.0.push((date, contents)), total, total > max_tokens)
    }
}

/// Offering the notes of several days in turn, as long as gathering goes on.
pub open spec fn gather(offers: Seq<(Date, Seq<char>)>, max_tokens: nat) -> Gathered
    decreases offers.len(),
{
    if offers.len() == 0 {
        (Seq::empty(), 0, false)
    } else {
        let g = gather(offers.drop_last(), max_tokens);
        if g.2 {
            g
        } else {
            gather_step(g, offers.last().0, offers.last().1, max_tokens)
        }
    }
}

/// Sum of the estimated tokens of some days.
pub open spec fn tokens_of(days: Seq<(Date, Seq<char>)>) -> nat
    decreases days.len(),
{
    if days.len() == 0 {
        0
    } else {
        tokens_of(days.drop_last()) + estimate_spec(days.last().1)
    }
}

/// The budget rules of `pen context`: whole days are taken in the order
/// offered, never part of one; the tokens counted are those of the days
/// taken; more than one day is taken only within the budget; and the first
/// day offered is always taken, even when it alone is over the budget.
pub proof fn lemma_gather_keeps_whole_days_within_budget(offers: Seq<(Date, Seq<char>)>, max_tokens: nat)
    ensures
        gather(offers, max_tokens).0.is_prefix_of(offers),
        gather(offers, max_tokens).1 == tokens_of(gather(offers, max_tokens).0),
        gather(offers, max_tokens).0.len() >= 2 ==> gather(offers, max_tokens).1 <= max_tokens,
        offers.len() > 0 ==> gather(offers, max_tokens).0.len() >= 1,
        !gather(offers, max_tokens).2 ==> gather(offers, max_tokens).0 == offers,
    decreases offers.len(),
{
    if offers.len() > 0 {
        let rest = offers.drop_last();
        lemma_gather_keeps_whole_days_within_budget(rest, max_tokens);
        let g = gather(rest, max_tokens);
        if !g.2 {
            let e = offers.last();
            assert(g.0 == rest);
            let t = estimate_spec(e.1);
            if !(g.0.len() > 0 && g.1 + t > max_tokens) {
                let taken = g.0.push(e);
                assert(taken.drop_last() == g.0);
                assert(taken == offers);
            }
        } else {
            assert(g.0.is_prefix_of(offers)) by {
                assert forall|i: int| 0 <= i < g.0.len() implies g.0[i] == offers[i] by {
                    assert(g.0[i] == rest[i]);
                }
            }
        }
    }
}

/// Gathering takes every day that fits: when a day offered is left out,
/// either the days taken are already over the budget (the first day, taken
/// whatever its size, or the last one taken pushed the total over), or
/// adding the first day left out would go over it. And gathering stops only
/// for one of those reasons.
pub proof fn lemma_gather_refuses_only_what_overflows(offers: Seq<(Date, Seq<char>)>, max_tokens: nat)
    ensures
        gather(offers, max_tokens).0.len() < offers.len() ==> ({
            let taken = gather(offers, max_tokens).0;
            ||| tokens_of(taken) > max_tokens
            ||| tokens_of(taken) + estimate_spec(offers[taken.len() as int].1) > max_tokens
        }),
        gather(offers, max_tokens).2 ==> ({
            let taken = gather(offers, max_tokens).0;
            ||| tokens_of(taken) > max_tokens
            ||| (taken.len() < offers.len() && tokens_of(taken) + estimate_spec(offers[taken.len() as int].1)
                > max_tokens)
        }),
    decreases offers.len(),
{
    lemma_gather_keeps_whole_days_within_budget(offers, max_tokens);
    if offers.len() > 0 {
        let rest = offers.drop_last();
        lemma_gather_refuses_only_what_overflows(rest, max_tokens);
        lemma_gather_keeps_whole_days_within_budget(rest, max_tokens);
        let g = gather(rest, max_tokens);
        if g.2 {
            if g.0.len() < rest.len() {
                assert(offers[g.0.len() as int] == rest[g.0.len() as int]);
            }
        } else {
            assert(g.0 == rest);
            let e = offers.last();
            let t = estimate_spec(e.1);
            if !(g.0.len() > 0 && g.1 + t > max_tokens) {
                let taken = g.0.push(e);
                assert(taken.drop_last() == g.0);
            }
        }
    }
}

/// One offer on its own: a day that fits within the budget beside the days
/// taken is taken, and gathering goes on unless the total now exceeds it.
pub proof fn lemma_offer_takes_a_day_that_fits(g: Gathered, date: Date, contents: Seq<char>, max_tokens: nat)
    requires
        g.1 + estimate_spec(contents) <= max_tokens,
    ensures
        gather_step(g, date, contents, max_tokens).0 == g.0.push((date, contents)),
        gather_step(g, date, contents, max_tokens).1 == g.1 + estimate_spec(contents),
        !gather_step(g, date, contents, max_tokens).2,
{
}

/// Gathers recent notes into the token budget, one day at a time.
pub struct ContextCollector {
    collected: Vec<(Date, String)>,
    total_tokens: usize,
    max_tokens: usize,
    done: bool,
}

pub open spec fn days_view(days: Seq<(Date, String)>) -> Seq<(Date, Seq<char>)> {
    days.map_values(|e: (Date, String)| (e.0, e.1@))
}

impl ContextCollector {
    /// What has been gathered so far.
    pub closed spec fn gathered(&self) -> Gathered {
        (days_view(self.collected@), self.total_tokens as nat, self.done)
    }

    pub closed spec fn budget(&self) -> nat {
        self.max_tokens as nat
    }

    /// Nothing gathered yet, with a budget of `max_tokens`.
    pub fn new(max_tokens: usize) -> (c: ContextCollector)
        ensures
            c.gathered() == gather(Seq::empty(), max_tokens as nat),
            c.budget() == max_tokens,
    {
        let c = ContextCollector { collected: Vec::new(), total_tokens: 0, max_tokens, done: false };
        assert(days_view(c.collected@) =~= Seq::<(Date, Seq<char>)>::empty());
        c
    }

    /// The estimated tokens gathered so far.
    pub fn total_tokens(&self) -> (t: usize)
        ensures
            t == self.gathered().1,
    {
        self.total_tokens
    }

    /// Offers the note of the next (older) day; returns whether to go on.
    pub fn offer(&mut self, date: Date, contents: String) -> (go_on: bool)
        requires
            !old(self).gathered().2,
            old(self).gathered().1 + estimate_spec(contents@) <= usize::MAX,
        ensures
            final(self).gathered() == gather_step(old(self).gathered(), date, contents@, old(self).budget()),
            final(self).budget() == old(self).budget(),
            go_on == !final(self).gathered().2,
    {
        let tokens = estimate_tokens(contents.as_str());
        if self.collected.len() > 0 && self.total_tokens + tokens > self.max_tokens {
            self.done = true;
            return false;
        }
        let ghost before = days_view(self.collected@);
        self.collected.push((date, contents));
        assert(days_view(self.collected@) =~= before.push((date, contents@)));
        self.total_tokens = self.total_tokens + tokens;
        if self.total_tokens > self.max_tokens {
            self.done = true;
            return false;
        }
        true
    }

    /// The days gathered, oldest first, with their estimated tokens.
    pub fn finish(self) -> (out: ContextOutput)
        ensures
            days_view(out.days@) == self.gathered().0.reverse(),
            out.estimated_tokens == self.gathered().1,
    {
        let mut days: Vec<(Date, String)> = Vec::new();
        let mut i: usize = self.collected.len();
        let ghost src = days_view(self.collected@);
        let mut collected = self.collected;
        assert(days_view(collected@) == src.take(i as int));
        while i > 0
            invariant
                i == collected@.len(),
                i <= src.len(),
                days_view(collected@) == src.take(i as int),
                days_view(days@) == src.skip(i as int).reverse(),
            decreases i,
        {
            let ghost old_c = collected@;
            let e = collected.pop().unwrap();
            assert(old_c == collected@.push(e));
            assert(days_view(old_c)[i - 1] == src.take(i as int)[i - 1]);
            assert(days_view(collected@) =~= src.take(i - 1));
            let ghost before = days_view(days@);
            days.push(e);
            assert(days_view(days@) =~= before.push((e.0, e.1@)));
            assert(src.skip(i - 1).reverse() =~= src.skip(i as int).reverse().push(src[i - 1]));
            i -= 1;
        }
        assert(src.skip(0) == src);
        ContextOutput { days, estimated_tokens: self.total_tokens }
    }
}

/// Notes gathered for `pen context`, oldest first.
#[derive(Debug)]
pub struct ContextOutput {
    pub days: Vec<(Date, String)>,
    pub estimated_tokens: usize,
}

/// One day as it appears in the markdown: a `# YYYY-MM-DD` heading line,
/// then the note.
pub open spec fn day_section(d: Date, content: Seq<char>) -> Seq<char> {
    "# "@ + ymd_text(d) + "\n"@ + content
}

pub open spec fn markdown_spec(days: Seq<(Date, Seq<char>)>, estimated: nat, max_tokens: nat) -> Seq<char> {
    if days.len() == 0 {
        "no notes in range"@
    } else {
        join_spec(
            days.map_values(|e: (Date, Seq<char>)| day_section(e.0, e.1)).push(
                "<!-- estimated tokens: "@ + decimal_spec(estimated) + " / budget: "@ + decimal_spec(max_tokens)
                    + " -->"@,
            ),
            "\n"@,
        )
    }
}

impl ContextOutput {
    /// The gathered notes as markdown to hand to an LLM: each day under a
    /// `# YYYY-MM-DD` heading, and a closing comment with the estimated tokens
    /// and the budget.
    pub fn to_markdown(&self, max_tokens: usize) -> (s: String)
        requires
            forall|i: int| 0 <= i < self.days@.len() ==> (#[trigger] self.days@[i]).0.wf(),
        ensures
            s@ == markdown_spec(days_view(self.days@), self.estimated_tokens as nat, max_tokens as nat),
    {
        if self.days.len() == 0 {
            return "no notes in range".to_string();
        }
        let ghost dv = days_view(self.days@);
        let mut sections: Vec<String> = Vec::new();
        let mut i: usize = 0;
        while i < self.days.len()
            invariant
                i <= self.days@.len(),
                dv == days_view(self.days@),
                forall|k: int| 0 <= k < self.days@.len() ==> (#[trigger] self.days@[k]).0.wf(),
                views(sections@) == dv.take(i as int).map_values(|e: (Date, Seq<char>)| day_section(e.0, e.1)),
            decreases self.days@.len() - i,
        {
            assert(self.days@[i as int].0.wf());
            assert(dv[i as int] == (self.days@[i as int].0, self.days@[i as int].1@));
            let mut sec = "# ".to_string();
            let ymd = self.days[i].0.to_ymd();
            push_str(&mut sec, ymd.as_str());
            push_str(&mut sec, "\n");
            push_str(&mut sec, self.days[i].1.as_str());
            proof {
                reveal_strlit("\n");
                lemma_views_push(sections@, sec);
                assert(dv.take(i + 1).map_values(|e: (Date, Seq<char>)| day_section(e.0, e.1))
                    == dv.take(i as int).map_values(|e: (Date, Seq<char>)| day_section(e.0, e.1)).push(
                    day_section(dv[i as int].0, dv[i as int].1)));
            }
            sections.push(sec);
            i += 1;
        }
        assert(dv.take(self.days@.len() as int) == dv);
        let mut tail = "<!-- estimated tokens: ".to_string();
        let est = decimal(self.estimated_tokens as u64);
        push_str(&mut tail, est.as_str());
        push_str(&mut tail, " / budget: ");
        let mx = decimal(max_tokens as u64);
        push_str(&mut tail, mx.as_str());
        push_str(&mut tail, " -->");
        proof {
            lemma_views_push(sections@, tail);
            reveal_strlit("\n");
        }
        sections.push(tail);
        join(&sections, "\n")
    }
}

} // verus!
