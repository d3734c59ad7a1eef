//! The screens of `pen cal` and how a resolved key moves between them. The
//! program around it draws, reads keys, runs searches and editors; here is
//! what each action decides.
use vstd::prelude::*;

use crate::action::{Action, Mode};
use crate::ui::calendar::{apply_request, apply_selected, can_apply, keeps_in_range, CalendarRequest, CalendarState};
use crate::date::Date;
use crate::notes::NotesError;
use crate::notes::search::SearchHit;
use crate::ui::search::SearchState;
use crate::text::{pop_char, push_char};

verus! {

broadcast use vstd::string::group_string_axioms;

/// Which screen is shown.
#[derive(Debug, Clone, Copy, PartialEq, Eq, Structural)]
pub enum Screen {
    Calendar,
    SearchInput,
    SearchResults,
}

/// The key mode that a screen reads keys in.
pub open spec fn mode_of(screen: Screen) -> Mode {
    match screen {
        Screen::Calendar => Mode::Calendar,
        Screen::SearchInput => Mode::SearchInput,
        Screen::SearchResults => Mode::SearchResults,
    }
}

impl Screen {
    /// The key mode this screen reads keys in.
    pub fn mode(&self) -> (m: Mode)
        ensures
            m == mode_of(*self),
    {
        match self {
            Screen::Calendar => Mode::Calendar,
            Screen::SearchInput => Mode::SearchInput,
            Screen::SearchResults => Mode::SearchResults,
        }
    }
}

/// What the program around the screens does after an action.
#[derive(Debug, Clone, Copy, PartialEq, Eq, Structural)]
pub enum CalEffect {
    /// Nothing beyond drawing again.
    Stay,
    /// Open the note of this date in the editor, then come back.
    OpenNote(Date),
    /// Search the notes for the query; hand the outcome to `search_finished`.
    RunSearch,
    /// Leave `pen cal`.
    Quit,
}

/// The state of `pen cal`: the screen shown, the calendar and the search.
pub struct CalApp {
    pub screen: Screen,
    pub calendar: CalendarState,
    pub search: SearchState,
}

/// The dates of the hits are dates of the calendar.
pub open spec fn hits_dated(hits: Seq<SearchHit>) -> bool {
    forall|i: int| 0 <= i < hits.len() ==> (#[trigger] hits[i]).date.wf()
}

/// Whether every hit is dated with a date of the calendar.
pub fn all_hits_dated(hits: &Vec<SearchHit>) -> (r: bool)
    ensures
        r == hits_dated(hits@),
{
    let mut i: usize = 0;
    while i < hits.len()
        invariant
            i <= hits@.len(),
            forall|k: int| 0 <= k < i ==> (#[trigger] hits@[k]).date.wf(),
        decreases hits@.len() - i,
    {
        if !hits[i].date.is_valid() {
            return false;
        }
        i += 1;
    }
    true
}

impl CalApp {
    /// What every state reached from `new` satisfies.
    pub open spec fn wf(&self) -> bool {
        &&& self.calendar.selected.wf()
        &&& hits_dated(self.search.results@)
        &&& (self.search.selected < self.search.results@.len() || self.search.selected == 0)
    }

    /// The calendar on `today`, with an empty search.
    pub fn new(today: Date) -> (app: CalApp)
        requires
            today.wf(),
        ensures
            app.wf(),
            app.screen == Screen::Calendar,
            app.calendar.selected == today,
            app.search.query@.len() == 0,
            app.search.results@.len() == 0,
            app.search.selected == 0,
            app.search.error is None,
    {
        CalApp { screen: Screen::Calendar, calendar: CalendarState::new(today), search: SearchState::new() }
    }

    /// Whether `action` can be applied: on the calendar, moving the
    /// selection must stay inside the calendar range.
    pub open spec fn accepts(&self, action: Action) -> bool {
        self.screen == Screen::Calendar ==> can_apply(self.calendar.selected, action)
    }

    /// Whether `action` can be applied now (see `accepts`).
    pub fn can_step(&self, action: Action) -> (r: bool)
        requires
            self.calendar.selected.wf(),
        ensures
            r == self.accepts(action),
    {
        match self.screen {
            Screen::Calendar => keeps_in_range(self.calendar.selected, action),
            _ => true,
        }
    }

    /// Applies an action resolved in the current screen's mode.
    ///
    /// On the calendar it moves the selection, opens the selected day's
    /// note, starts a new search or quits. While typing a query, characters
    /// and backspace edit it, Enter asks for the search and Esc goes back.
    /// Among the results, the selection moves, Enter goes back to the
    /// calendar on the chosen hit's day and opens that note, and Esc goes
    /// back. Quitting (ctrl-c, which resolves to it on every screen) leaves
    /// `pen cal` from any screen. Anything else changes nothing.
    pub fn step(&mut self, action: Action) -> (effect: CalEffect)
        requires
            old(self).wf(),
            old(self).accepts(action),
        ensures
            final(self).wf(),
            match old(self).screen {
                Screen::Calendar => {
                    &&& final(self).calendar.selected == apply_selected(old(self).calendar.selected, action)
                    &&& match apply_request(old(self).calendar.selected, action) {
                        Some(CalendarRequest::Open(d)) => effect == CalEffect::OpenNote(d)
                            && final(self).screen == Screen::Calendar && final(self).search == old(self).search,
                        Some(CalendarRequest::Search) => effect == CalEffect::Stay
                            && final(self).screen == Screen::SearchInput
                            && final(self).search.query@.len() == 0
                            && final(self).search.results@.len() == 0
                            && final(self).search.selected == 0
                            && final(self).search.offset == 0
                            && final(self).search.error is None,
                        Some(CalendarRequest::Quit) => effect == CalEffect::Quit
                            && final(self).screen == Screen::Calendar && final(self).search == old(self).search,
                        None => effect == CalEffect::Stay
                            && final(self).screen == Screen::Calendar && final(self).search == old(self).search,
                    }
                },
                Screen::SearchInput => {
                    &&& final(self).calendar == old(self).calendar
                    &&& final(self).search.results == old(self).search.results
                    &&& final(self).search.selected == old(self).search.selected
                    &&& final(self).search.error == old(self).search.error
                    &&& match action {
                        Action::InputChar(c) => effect == CalEffect::Stay
                            && final(self).screen == Screen::SearchInput
                            && final(self).search.query@ == old(self).search.query@.push(c),
                        Action::Backspace => effect == CalEffect::Stay
                            && final(self).screen == Screen::SearchInput
                            && final(self).search.query@ == (if old(self).search.query@.len() == 0 {
                                old(self).search.query@
                            } else {
                                old(self).search.query@.drop_last()
                            }),
                        Action::Confirm => effect == CalEffect::RunSearch
                            && final(self).screen == Screen::SearchInput
                            && final(self).search.query@ == old(self).search.query@,
                        Action::Cancel => effect == CalEffect::Stay
                            && final(self).screen == Screen::Calendar
                            && final(self).search.query@ == old(self).search.query@,
                        Action::Quit => effect == CalEffect::Quit
                            && final(self).screen == Screen::SearchInput
                            && final(self).search.query@ == old(self).search.query@,
                        _ => effect == CalEffect::Stay
                            && final(self).screen == Screen::SearchInput
                            && final(self).search.query@ == old(self).search.query@,
                    }
                },
                Screen::SearchResults => {
                    &&& final(self).search.results == old(self).search.results
                    &&& final(self).search.query == old(self).search.query
                    &&& final(self).search.error == old(self).search.error
                    &&& match action {
                        Action::NextResult => effect == CalEffect::Stay
                            && final(self).screen == Screen::SearchResults
                            && final(self).calendar == old(self).calendar
                            && final(self).search.selected == (if old(self).search.results@.len() == 0 {
                                old(self).search.selected as int
                            } else if old(self).search.selected + 1 < old(self).search.results@.len() {
                                old(self).search.selected + 1
                            } else {
                                old(self).search.results@.len() - 1
                            }),
                        Action::PrevResult => effect == CalEffect::Stay
                            && final(self).screen == Screen::SearchResults
                            && final(self).calendar == old(self).calendar
                            && final(self).search.selected == (if old(self).search.selected == 0 {
                                0
                            } else {
                                old(self).search.selected - 1
                            }),
                        Action::Confirm => {
                            &&& final(self).screen == Screen::Calendar
                            &&& final(self).search.selected == old(self).search.selected
                            &&& if old(self).search.selected < old(self).search.results@.len() {
                                let d = old(self).search.results@[old(self).search.selected as int].date;
                                effect == CalEffect::OpenNote(d) && final(self).calendar.selected == d
                            } else {
                                effect == CalEffect::Stay && final(self).calendar == old(self).calendar
                            }
                        },
                        Action::Cancel => effect == CalEffect::Stay
                            && final(self).screen == Screen::Calendar
                            && final(self).calendar == old(self).calendar
                            && final(self).search.selected == old(self).search.selected,
                        Action::Quit => effect == CalEffect::Quit
                            && final(self).screen == Screen::SearchResults
                            && final(self).calendar == old(self).calendar
                            && final(self).search.selected == old(self).search.selected,
                        _ => effect == CalEffect::Stay
                            && final(self).screen == Screen::SearchResults
                            && final(self).calendar == old(self).calendar
                            && final(self).search.selected == old(self).search.selected,
                    }
                },
            },
    {
        match self.screen {
            Screen::Calendar => match self.calendar.apply(action) {
                Some(CalendarRequest::Open(d)) => CalEffect::OpenNote(d),
                Some(CalendarRequest::Search) => {
                    self.search = SearchState::new();
                    self.screen = Screen::SearchInput;
                    CalEffect::Stay
                },
                Some(CalendarRequest::Quit) => CalEffect::Quit,
                None => CalEffect::Stay,
            },
            Screen::SearchInput => match action {
                Action::InputChar(c) => {
                    push_char(&mut self.search.query, c);
                    CalEffect::Stay
                },
                Action::Backspace => {
                    pop_char(&mut self.search.query);
                    CalEffect::Stay
                },
                Action::Confirm => CalEffect::RunSearch,
                Action::Cancel => {
                    self.screen = Screen::Calendar;
                    CalEffect::Stay
                },
                Action::Quit => CalEffect::Quit,
                _ => CalEffect::Stay,
            },
            Screen::SearchResults => match action {
                Action::NextResult => {
                    let count = self.search.results.len();
                    assert(count == 0 || self.search.selected < usize::MAX);
                    self.search.select_next();
                    CalEffect::Stay
                },
                Action::PrevResult => {
                    self.search.select_prev();
                    CalEffect::Stay
                },
                Action::Confirm => {
                    self.screen = Screen::Calendar;
                    if self.search.selected < self.search.results.len() {
                        let d = self.search.results[self.search.selected].date;
                        self.calendar.selected = d;
                        CalEffect::OpenNote(d)
                    } else {
                        CalEffect::Stay
                    }
                },
                Action::Cancel => {
                    self.screen = Screen::Calendar;
                    CalEffect::Stay
                },
                Action::Quit => CalEffect::Quit,
                _ => CalEffect::Stay,
            },
        }
    }

    /// Takes the outcome of the search asked for by `RunSearch`: the hits
    /// are shown with the first selected, or the error is shown under the
    /// query, which can then be corrected.
    pub fn search_finished(&mut self, result: Result<Vec<SearchHit>, NotesError>)
        requires
            old(self).wf(),
            result matches Ok(hits) ==> hits_dated(hits@),
        ensures
            final(self).wf(),
            final(self).calendar == old(self).calendar,
            final(self).search.query == old(self).search.query,
            final(self).search.offset == old(self).search.offset,
            match result {
                Ok(hits) => {
                    &&& final(self).search.results@ == hits@
                    &&& final(self).search.selected == 0
                    &&& final(self).search.error is None
                    &&& final(self).screen == Screen::SearchResults
                },
                Err(e) => {
                    &&& final(self).search.results == old(self).search.results
                    &&& final(self).search.selected == old(self).search.selected
                    &&& final(self).search.error matches Some(m) && m@ == e.message_spec()
                    &&& final(self).screen == old(self).screen
                },
            },
    {
        match result {
            Ok(hits) => {
                self.search.results = hits;
                self.search.selected = 0;
                self.search.error = None;
                self.screen = Screen::SearchResults;
            },
            Err(e) => {
                self.search.error = Some(e.message());
            },
        }
    }
}

} // verus!
