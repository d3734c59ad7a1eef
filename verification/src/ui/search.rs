//! The search screens of `pen cal`: the query being typed, the results and
//! the selection, and the text shown for them.
use vstd::prelude::*;

use crate::date::ymd_text;
use crate::notes::search::SearchHit;
use crate::text::{decimal, decimal_spec, push_str};
use crate::width::{self, padded, truncated, display_width, width_fits};

verus! {

broadcast use vstd::string::group_string_axioms;

/// The search screens' state.
pub struct SearchState {
    pub query: String,
    pub results: Vec<SearchHit>,
    pub selected: usize,
    /// First result shown; kept so that the list moves as little as possible.
    pub offset: usize,
    pub error: Option<String>,
}

impl SearchState {
    /// An empty query with no results.
    pub fn new() -> (s: SearchState)
        ensures
            s.query@ == Seq::<char>::empty(),
            s.results@.len() == 0,
            s.selected == 0,
            s.offset == 0,
            s.error is None,
    {
        SearchState { query: String::new(), results: Vec::new(), selected: 0, offset: 0, error: None }
    }

    /// Selects the next result, staying on the last one.
    pub fn select_next(&mut self)
        requires
            old(self).results@.len() == 0 || old(self).selected < usize::MAX,
        ensures
            final(self).selected == (if old(self).results@.len() == 0 {
                old(self).selected as int
            } else if old(self).selected + 1 < old(self).results@.len() {
                old(self).selected + 1
            } else {
                old(self).results@.len() - 1
            }),
            final(self).results == old(self).results,
            final(self).query == old(self).query,
            final(self).offset == old(self).offset,
            final(self).error == old(self).error,
    {
        if self.results.len() == 0 {
            return;
        }
        let next = self.selected + 1;
        let last = self.results.len() - 1;
        self.selected = if next < last {
            next
        } else {
            last
        };
    }

    /// Selects the previous result, staying on the first one.
    pub fn select_prev(&mut self)
        ensures
            final(self).selected == (if old(self).selected == 0 {
                0
            } else {
                old(self).selected - 1
            }),
            final(self).results == old(self).results,
            final(self).query == old(self).query,
            final(self).offset == old(self).offset,
            final(self).error == old(self).error,
    {
        self.selected = self.selected.saturating_sub(1);
    }

    /// The selected result, if there is one.
    pub fn selected_hit(&self) -> (r: Option<&SearchHit>)
        ensures
            match r {
                Some(h) => self.selected < self.results@.len() && *h == self.results@[self.selected as int],
                None => self.selected >= self.results@.len(),
            },
    {
        if self.selected < self.results.len() {
            Some(&self.results[self.selected])
        } else {
            None
        }
    }
}

impl Default for SearchState {
    fn default() -> (s: SearchState)
        ensures
            s.query@ == Seq::<char>::empty(),
            s.results@.len() == 0,
            s.selected == 0,
            s.offset == 0,
            s.error is None,
    {
        SearchState::new()
    }
}

/// Where the visible part of the result list starts: the previous start
/// when the selection is still visible from it, otherwise just far enough to
/// show it, and never so far that the space below the last result stays
/// empty. With no room to draw, the start does not change.
pub open spec fn scroll_spec(offset: int, selected: int, height: int, len: int) -> int {
    if height == 0 {
        offset
    } else {
        let o = if selected < offset {
            selected
        } else if selected >= offset + height {
            selected + 1 - height
        } else {
            offset
        };
        let cap = if len > height {
            len - height
        } else {
            0
        };
        if o < cap {
            o
        } else {
            cap
        }
    }
}

/// The first result to show in a list `height` rows high.
pub fn scroll_offset(offset: usize, selected: usize, height: usize, len: usize) -> (r: usize)
    requires
        height > 0 && selected >= offset ==> offset + height <= usize::MAX,
        height > 0 && selected >= offset + height ==> selected < usize::MAX,
    ensures
        r == scroll_spec(offset as int, selected as int, height as int, len as int),
        height > 0 && selected < len ==> r <= selected < r + height,
{
    if height == 0 {
        return offset;
    }
    let o = if selected < offset {
        selected
    } else if selected >= offset + height {
        selected + 1 - height
    } else {
        offset
    };
    let cap = len.saturating_sub(height);
    if o < cap {
        o
    } else {
        cap
    }
}

/// A title cut to fit on a box's top border, inside its corners.
pub fn bordered_title(title: &str, outer_width: u16) -> (r: String)
    requires
        width_fits(title@),
    ensures
        r@ == truncated(title@, if outer_width >= 2 {
            (outer_width - 2) as nat
        } else {
            0
        }),
{
    width::truncate(title, outer_width.saturating_sub(2) as usize)
}

/// The query line: `/` followed by the query.
pub fn input_line(query: &str) -> (r: String)
    ensures
        r@ == seq!['/'] + query@,
{
    let mut r = String::new();
    crate::text::push_char(&mut r, '/');
    push_str(&mut r, query);
    r
}

/// The title of the query box.
pub fn input_title(help: &str) -> (r: String)
    ensures
        r@ == "Search ("@ + help@ + ")"@,
{
    let mut r = "Search (".to_string();
    push_str(&mut r, help);
    push_str(&mut r, ")");
    r
}

/// The title of the result list.
pub fn results_title(query: &str, count: usize, help: &str) -> (r: String)
    ensures
        r@ == "Search results for \""@ + query@ + "\" ("@ + decimal_spec(count as nat) + ") — "@ + help@,
{
    let mut r = "Search results for \"".to_string();
    push_str(&mut r, query);
    push_str(&mut r, "\" (");
    let n = decimal(count as u64);
    push_str(&mut r, n.as_str());
    push_str(&mut r, ") — ");
    push_str(&mut r, help);
    r
}

/// The text shown for an empty result list.
pub fn no_matches() -> (r: &'static str)
    ensures
        r@ == "no matches"@,
{
    "no matches"
}

/// The label of a result: its day and line number.
pub open spec fn hit_label(hit: SearchHit) -> Seq<char> {
    ymd_text(hit.date) + " L"@ + decimal_spec(hit.line_number as nat)
}

/// One row of the result list: the label padded to 20 columns, then the
/// matching line cut to the columns that are left.
pub open spec fn result_row(hit: SearchHit, inner_width: nat) -> Seq<char> {
    let prefix = padded(hit_label(hit), 20);
    let left = if inner_width >= display_width(prefix) {
        (inner_width - display_width(prefix)) as nat
    } else {
        0
    };
    prefix + truncated(hit.line@, left)
}

/// The row of the result list for `hit` in a list `inner_width` columns wide.
/// The matching line is shown as it is: tabs are not expanded.
pub fn result_line(hit: &SearchHit, inner_width: usize) -> (r: String)
    requires
        hit.date.wf(),
        width_fits(hit.line@),
    ensures
        r@ == result_row(*hit, inner_width as nat),
{
    let mut label = hit.date.to_ymd();
    push_str(&mut label, " L");
    let n = decimal(hit.line_number as u64);
    push_str(&mut label, n.as_str());
    proof {
        reveal_with_fuel(crate::text::pow10, 21);
        crate::text::lemma_decimal_upto(hit.line_number as nat, 20);
        crate::text::lemma_decimal_upto(hit.date.month as nat, 2);
        crate::text::lemma_decimal_upto(hit.date.day as nat, 2);
        lemma_year_text_len(hit.date.year as int);
        reveal_strlit(" L");
        assert(crate::text::zero_padded(hit.date.month as nat, 2).len() == 2);
        assert(crate::text::zero_padded(hit.date.day as nat, 2).len() == 2);
        assert(ymd_text(hit.date).len() <= 14);
        assert(label@.len() <= 36);
    }
    let prefix = width::pad(label.as_str(), 20);
    let used = width::width(prefix.as_str());
    let left = inner_width.saturating_sub(used);
    let content = width::truncate(hit.line.as_str(), left);
    let mut r = prefix;
    push_str(&mut r, content.as_str());
    r
}

proof fn lemma_year_text_len(y: int)
    requires
        crate::date::MIN_YEAR <= y <= crate::date::MAX_YEAR,
    ensures
        crate::date::year_text(y).len() <= 8,
{
    let a = if y >= 0 { y } else { -y };
    reveal_with_fuel(crate::text::pow10, 7);
    crate::text::lemma_decimal_upto(a as nat, 6);
}

} // verus!
