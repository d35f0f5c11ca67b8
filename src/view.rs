//! Navigation state machine of the two-tab summary browser.

use crate::calendar::{date_text_of, in_calendar_range};
use crate::daily::DailySummary;
use crate::text::{daily_detail, daily_detail_text, daily_label, weekly_detail, weekly_detail_text, weekly_label, weekly_label_text};
use crate::weekly::WeeklySummary;
use vstd::prelude::*;
use vstd::string::StringExecFns;

verus! {

/// Which summary sequence is on display.
#[derive(Clone, Copy, Debug, PartialEq, Eq, Structural)]
pub enum Tab {
    Daily,
    Weekly,
}

/// A discrete navigation command, as delivered by the input backend.
#[derive(Clone, Copy, Debug, PartialEq, Eq, Structural)]
pub enum Command {
    SelectDailyTab,
    SelectWeeklyTab,
    MoveUp,
    MoveDown,
    Quit,
    Ignored,
}

/// The tab on display and the selected row within it.
#[derive(Clone, Copy, Debug, PartialEq, Eq, Structural)]
pub struct ViewState {
    pub selected_tab: Tab,
    pub selected_index: usize,
}

/// Number of rows of the tab on display.
pub open spec fn active_count(tab: Tab, daily_count: nat, weekly_count: nat) -> nat {
    match tab {
        Tab::Daily => daily_count,
        Tab::Weekly => weekly_count,
    }
}

/// The last valid index of a sequence of `count` rows, or 0 when it is empty.
pub open spec fn last_index(count: nat) -> nat {
    if count == 0 {
        0
    } else {
        (count - 1) as nat
    }
}

impl ViewState {
    /// The selection is a valid row of the active tab, or 0 when that tab is empty.
    pub open spec fn wf(self, daily_count: nat, weekly_count: nat) -> bool {
        self.selected_index <= last_index(active_count(self.selected_tab, daily_count, weekly_count))
    }

    /// What `apply` makes of a state; `None` is the end of the session.
    pub open spec fn next(self, cmd: Command, daily_count: nat, weekly_count: nat) -> Option<ViewState> {
        match cmd {
            Command::SelectDailyTab => Some(ViewState { selected_tab: Tab::Daily, selected_index: 0 }),
            Command::SelectWeeklyTab => Some(ViewState { selected_tab: Tab::Weekly, selected_index: 0 }),
            Command::MoveUp => Some(ViewState {
                selected_tab: self.selected_tab,
                selected_index: if self.selected_index > 0 { (self.selected_index - 1) as usize } else { 0 },
            }),
            Command::MoveDown => {
                let last = last_index(active_count(self.selected_tab, daily_count, weekly_count));
                Some(ViewState {
                    selected_tab: self.selected_tab,
                    selected_index: if self.selected_index < last {
                        (self.selected_index + 1) as usize
                    } else {
                        self.selected_index
                    },
                })
            },
            Command::Quit => None,
            Command::Ignored => Some(self),
        }
    }

    /// The state at the start of a session: daily tab, first row.
    pub fn new() -> (r: ViewState)
        ensures
            r.selected_tab == Tab::Daily,
            r.selected_index == 0,
    {
        ViewState { selected_tab: Tab::Daily, selected_index: 0 }
    }

    /// Applies one command, given the number of daily and weekly rows.
    /// Returns `None` on `Quit`, and the next state otherwise.
    pub fn apply(&self, cmd: Command, daily_count: usize, weekly_count: usize) -> (r: Option<ViewState>)
        ensures
            r == self.next(cmd, daily_count as nat, weekly_count as nat),
            self.wf(daily_count as nat, weekly_count as nat) && r is Some ==> r->0.wf(
                daily_count as nat,
                weekly_count as nat,
            ),
    {
        match cmd {
            Command::SelectDailyTab => Some(ViewState { selected_tab: Tab::Daily, selected_index: 0 }),
            Command::SelectWeeklyTab => Some(ViewState { selected_tab: Tab::Weekly, selected_index: 0 }),
            Command::MoveUp => {
                let idx = if self.selected_index > 0 { self.selected_index - 1 } else { 0 };
                Some(ViewState { selected_tab: self.selected_tab, selected_index: idx })
            },
            Command::MoveDown => {
                let count = match self.selected_tab {
                    Tab::Daily => daily_count,
                    Tab::Weekly => weekly_count,
                };
                let last = if count > 0 { count - 1 } else { 0 };
                let idx = if self.selected_index < last { self.selected_index + 1 } else { self.selected_index };
                Some(ViewState { selected_tab: self.selected_tab, selected_index: idx })
            },
            Command::Quit => None,
            Command::Ignored => Some(*self),
        }
    }
}

/// Moving up or down while the active tab has no rows keeps the selection at 0.
pub proof fn lemma_move_on_empty_stays_at_zero(s: ViewState, cmd: Command, daily_count: nat, weekly_count: nat)
    requires
        s.wf(daily_count, weekly_count),
        active_count(s.selected_tab, daily_count, weekly_count) == 0,
        cmd == Command::MoveUp || cmd == Command::MoveDown,
    ensures
        s.next(cmd, daily_count, weekly_count) is Some,
        s.next(cmd, daily_count, weekly_count)->0.selected_index == 0,
        s.next(cmd, daily_count, weekly_count)->0.wf(daily_count, weekly_count),
{
}

/// Selecting a tab always puts the selection on the first row.
pub proof fn lemma_tab_switch_resets_selection(s: ViewState, cmd: Command, daily_count: nat, weekly_count: nat)
    requires
        cmd == Command::SelectDailyTab || cmd == Command::SelectWeeklyTab,
    ensures
        s.next(cmd, daily_count, weekly_count) is Some,
        s.next(cmd, daily_count, weekly_count)->0.selected_index == 0,
        s.next(cmd, daily_count, weekly_count)->0.selected_tab == (if cmd == Command::SelectDailyTab {
            Tab::Daily
        } else {
            Tab::Weekly
        }),
{
}

/// Every command keeps a well-formed state well-formed.
pub proof fn lemma_next_preserves_wf(s: ViewState, cmd: Command, daily_count: nat, weekly_count: nat)
    requires
        s.wf(daily_count, weekly_count),
    ensures
        s.next(cmd, daily_count, weekly_count) is Some ==> s.next(cmd, daily_count, weekly_count)->0.wf(
            daily_count,
            weekly_count,
        ),
{
}

/// One row of the entry list.
#[derive(Clone, Debug)]
pub struct Row {
    pub is_selected: bool,
    pub label: String,
}

/// The detail text shown when the active tab has no rows.
pub open spec fn placeholder_text() -> Seq<char> {
    "No data available"@
}

/// What the view shows of `s`: for the active tab, one row per summary,
/// marked where it is the selected one, and the detail text of the selected
/// summary, or the placeholder where there is none.
pub open spec fn projection(
    s: ViewState,
    daily: Seq<DailySummary>,
    weekly: Seq<WeeklySummary>,
    rows: Seq<Row>,
    detail: Seq<char>,
) -> bool {
    match s.selected_tab {
        Tab::Daily => {
            &&& rows.len() == daily.len()
            &&& forall|i: int|
                0 <= i < rows.len() ==> (#[trigger] rows[i]).is_selected == (i == s.selected_index) && rows[i].label@
                    == date_text_of(daily[i].date as int)
            &&& detail == if s.selected_index < daily.len() {
                daily_detail_text(daily[s.selected_index as int])
            } else {
                placeholder_text()
            }
        },
        Tab::Weekly => {
            &&& rows.len() == weekly.len()
            &&& forall|i: int|
                0 <= i < rows.len() ==> (#[trigger] rows[i]).is_selected == (i == s.selected_index) && rows[i].label@
                    == weekly_label_text(weekly[i])
            &&& detail == if s.selected_index < weekly.len() {
                weekly_detail_text(weekly[s.selected_index as int])
            } else {
                placeholder_text()
            }
        },
    }
}

/// Projects the state and the summaries onto list rows and detail text.
pub fn project(s: &ViewState, daily: &Vec<DailySummary>, weekly: &Vec<WeeklySummary>) -> (r: (Vec<Row>, String))
    requires
        forall|i: int| 0 <= i < daily@.len() ==> (#[trigger] daily@[i]).printable(),
        forall|i: int| 0 <= i < weekly@.len() ==> in_calendar_range((#[trigger] weekly@[i]).first_day as int),
    ensures
        projection(*s, daily@, weekly@, r.0@, r.1@),
{
    let mut rows: Vec<Row> = Vec::new();
    match s.selected_tab {
        Tab::Daily => {
            let n = daily.len();
            for i in 0..n
                invariant
                    n == daily.len(),
                    forall|j: int| 0 <= j < daily@.len() ==> (#[trigger] daily@[j]).printable(),
                    rows@.len() == i,
                    forall|j: int|
                        0 <= j < i ==> (#[trigger] rows@[j]).is_selected == (j == s.selected_index) && rows@[j].label@
                            == date_text_of(daily@[j].date as int),
            {
                assert(daily@[i as int].printable());
                let label = daily_label(&daily[i]);
                rows.push(Row { is_selected: i == s.selected_index, label });
            }
            let detail = if s.selected_index < n {
                assert(daily@[s.selected_index as int].printable());
                daily_detail(&daily[s.selected_index])
            } else {
                String::from_str("No data available")
            };
            (rows, detail)
        },
        Tab::Weekly => {
            let n = weekly.len();
            for i in 0..n
                invariant
                    n == weekly.len(),
                    forall|j: int| 0 <= j < weekly@.len() ==> in_calendar_range((#[trigger] weekly@[j]).first_day as int),
                    rows@.len() == i,
                    forall|j: int|
                        0 <= j < i ==> (#[trigger] rows@[j]).is_selected == (j == s.selected_index) && rows@[j].label@
                            == weekly_label_text(weekly@[j]),
            {
                assert(in_calendar_range(weekly@[i as int].first_day as int));
                let label = weekly_label(&weekly[i]);
                rows.push(Row { is_selected: i == s.selected_index, label });
            }
            let detail = if s.selected_index < n {
                assert(in_calendar_range(weekly@[s.selected_index as int].first_day as int));
                weekly_detail(&weekly[s.selected_index])
            } else {
                String::from_str("No data available")
            };
            (rows, detail)
        },
    }
}

} // verus!
