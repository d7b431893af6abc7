//! What the live dashboard of a run shows, and what its keys do.
use std::collections::VecDeque;
use vstd::prelude::*;

use crate::report::IntervalStats;
use crate::text::{decimal, push_decimal};

verus! {

/// How many intervals the dashboard remembers.
pub const HISTORY: usize = 120;

/// How many intervals the dashboard lists.
pub const LISTED: usize = 20;

/// What a key asks for.
#[derive(Debug, Clone, Copy, PartialEq, Eq, Structural)]
pub enum KeyAction {
    /// Leave the dashboard.
    Quit,
    /// Write the latest interval to a file.
    Export,
    /// Nothing more than to draw the dashboard again.
    Redraw,
}

/// The live dashboard.
pub struct Dashboard {
    paused: bool,
    status: String,
    intervals: VecDeque<IntervalStats>,
    latest: IntervalStats,
}

/// What the live dashboard shows.
#[verifier::ext_equal]
pub struct DashboardView {
    pub paused: bool,
    pub status: Seq<char>,
    /// The intervals that it remembers, oldest first.
    pub intervals: Seq<IntervalStats>,
    pub latest: IntervalStats,
}

impl View for Dashboard {
    type V = DashboardView;

    closed spec fn view(&self) -> DashboardView {
        DashboardView {
            paused: self.paused,
            status: self.status@,
            intervals: self.intervals@,
            latest: self.latest,
        }
    }
}

/// The last of some intervals, as many as the dashboard remembers.
pub open spec fn remembered(intervals: Seq<IntervalStats>) -> Seq<IntervalStats> {
    if intervals.len() > HISTORY {
        intervals.skip(intervals.len() - HISTORY)
    } else {
        intervals
    }
}

impl DashboardView {
    /// That no more intervals are remembered than there is room for.
    pub open spec fn wf(self) -> bool {
        self.intervals.len() <= HISTORY
    }

    /// What is shown after one more interval. While the dashboard is paused, that passes it by.
    pub open spec fn after_update(self, update: IntervalStats) -> DashboardView {
        if self.paused {
            self
        } else {
            DashboardView {
                intervals: remembered(self.intervals.push(update)),
                latest: update,
                ..self
            }
        }
    }

    /// What is shown after these intervals.
    pub open spec fn after_updates(self, updates: Seq<IntervalStats>) -> DashboardView
        decreases updates.len(),
    {
        if updates.len() == 0 {
            self
        } else {
            self.after_updates(updates.drop_last()).after_update(updates.last())
        }
    }

    /// What is shown after a key: `p` pauses the dashboard, and lets it go on again.
    pub open spec fn after_key(self, key: char) -> DashboardView {
        if key == 'p' {
            DashboardView {
                paused: !self.paused,
                status: if self.paused {
                    "running"@
                } else {
                    "paused"@
                },
                ..self
            }
        } else {
            self
        }
    }
}

/// The dashboard remembers the last intervals that came, in the order in which they came.
pub proof fn law_history_keeps_order(start: DashboardView, updates: Seq<IntervalStats>)
    requires
        start.wf(),
        !start.paused,
    ensures
        start.after_updates(updates).intervals == remembered(start.intervals + updates),
        start.after_updates(updates).wf(),
        !start.after_updates(updates).paused,
        updates.len() > 0 ==> start.after_updates(updates).latest == updates.last(),
    decreases updates.len(),
{
    if updates.len() == 0 {
        assert(start.intervals + updates =~= start.intervals);
    } else {
        law_history_keeps_order(start, updates.drop_last());
        let before = start.intervals + updates.drop_last();
        assert(start.intervals + updates =~= before.push(updates.last()));
        assert(remembered(remembered(before).push(updates.last())) =~= remembered(
            before.push(updates.last()),
        ));
    }
}

/// A second `p` undoes the first, but for what passed by in between.
pub proof fn law_pausing_twice_goes_on(d: DashboardView)
    ensures
        d.after_key('p').after_key('p').paused == d.paused,
        d.after_key('p').after_key('p').intervals == d.intervals,
        d.after_key('p').after_key('p').latest == d.latest,
{
}

/// The dashboard remembers the last hundred and twenty intervals that came, and the very last one
/// is the latest. While it is paused, what comes passes it by.
pub proof fn law_last_intervals_are_remembered(
    start: DashboardView,
    updates: Seq<IntervalStats>,
    i: int,
)
    requires
        start.intervals.len() <= 120,
    ensures
        ({
            let now = start.after_updates(updates);
            let all = start.intervals + updates;
            &&& start.paused ==> now == start
            &&& !start.paused ==> {
                &&& now.intervals.len() == if all.len() < 120 {
                    all.len()
                } else {
                    120
                }
                &&& 0 <= i < now.intervals.len() ==> now.intervals[now.intervals.len() - 1 - i]
                    == all[all.len() - 1 - i]
                &&& updates.len() > 0 ==> now.latest == updates.last()
                &&& !now.paused && now.status == start.status
            }
        }),
    decreases updates.len(),
{
    if !start.paused {
        law_history_keeps_order(start, updates);
    }
    if updates.len() > 0 {
        law_last_intervals_are_remembered(start, updates.drop_last(), i);
    }
}

/// The intervals that are listed: the last of those remembered, newest first.
pub open spec fn listed(intervals: Seq<IntervalStats>) -> Seq<IntervalStats> {
    let n = if intervals.len() < LISTED {
        intervals.len()
    } else {
        LISTED as nat
    };
    Seq::new(n, |i: int| intervals[intervals.len() - 1 - i])
}

/// At most twenty intervals are listed. The newest one comes first, and behind each comes the one
/// that came before it.
pub proof fn law_newest_are_listed_first(intervals: Seq<IntervalStats>, i: int)
    ensures
        intervals.len() >= 20 ==> listed(intervals).len() == 20,
        intervals.len() < 20 ==> listed(intervals).len() == intervals.len(),
        intervals.len() > 0 ==> listed(intervals)[0] == intervals.last(),
        0 <= i < listed(intervals).len() ==> listed(intervals)[i] == intervals.reverse()[i],
{
}

/// What a key asks for.
pub open spec fn action_of(key: char) -> KeyAction {
    if key == 'q' {
        KeyAction::Quit
    } else if key == 'e' {
        KeyAction::Export
    } else {
        KeyAction::Redraw
    }
}

/// `q` leaves the dashboard and `e` exports, and neither changes what is shown. `p` pauses it or
/// lets it go on, and says so. No other key does anything.
pub proof fn law_keys_do_what_they_say(d: DashboardView, key: char)
    ensures
        action_of(key) == KeyAction::Quit <==> key == 'q',
        action_of(key) == KeyAction::Export <==> key == 'e',
        d.after_key(key).paused == (d.paused != (key == 'p')),
        key != 'p' ==> d.after_key(key) == d,
        key == 'p' && d.paused ==> d.after_key(key).status == "running"@,
        key == 'p' && !d.paused ==> d.after_key(key).status == "paused"@,
        d.after_key(key).intervals == d.intervals,
        d.after_key(key).latest == d.latest,
{
}

impl Dashboard {
    /// A dashboard that shows nothing yet.
    pub fn new() -> (r: Dashboard)
        ensures
            r@.wf(),
            r@ == (DashboardView {
                paused: false,
                status: "running"@,
                intervals: Seq::empty(),
                latest: IntervalStats::nothing(),
            }),
    {
        Dashboard {
            paused: false,
            status: "running".to_string(),
            intervals: VecDeque::new(),
            latest: IntervalStats::default(),
        }
    }

    /// Takes a key.
    pub fn on_key(&mut self, key: char) -> (r: KeyAction)
        ensures
            final(self)@ == old(self)@.after_key(key),
            r == if key == 'q' {
                KeyAction::Quit
            } else if key == 'e' {
                KeyAction::Export
            } else {
                KeyAction::Redraw
            },
            r == action_of(key),
    {
        if key == 'q' {
            KeyAction::Quit
        } else if key == 'p' {
            self.paused = !self.paused;
            self.status = if self.paused {
                "paused".to_string()
            } else {
                "running".to_string()
            };
            KeyAction::Redraw
        } else if key == 'e' {
            KeyAction::Export
        } else {
            KeyAction::Redraw
        }
    }

    /// Whether waiting intervals are to be fetched when the clock ticks.
    pub fn takes_updates(&self) -> (r: bool)
        ensures
            r == !self@.paused,
    {
        !self.paused
    }

    /// Takes one more interval.
    pub fn on_update(&mut self, update: IntervalStats)
        requires
            old(self)@.wf(),
        ensures
            final(self)@.wf(),
            final(self)@ == old(self)@.after_update(update),
    {
        if self.paused {
            return;
        }
        self.latest = update;
        self.intervals.push_back(update);
        if self.intervals.len() > HISTORY {
            self.intervals.pop_front();
        }
        assert(self@.intervals =~= remembered(old(self)@.intervals.push(update)));
    }

    /// Notes whether the latest interval could be written to a file.
    pub fn on_export(&mut self, path: &str, written: bool)
        ensures
            final(self)@ == (DashboardView {
                status: if written {
                    "snapshot exported: "@ + path@
                } else {
                    "snapshot export failed"@
                },
                ..old(self)@
            }),
    {
        if written {
            let mut text: String = "snapshot exported: ".to_string();
            text.append(path);
            self.status = text;
        } else {
            self.status = "snapshot export failed".to_string();
        }
    }

    /// The latest interval.
    pub fn latest(&self) -> (r: IntervalStats)
        ensures
            r == self@.latest,
    {
        self.latest
    }

    /// The intervals to list, newest first.
    pub fn recent(&self) -> (r: Vec<IntervalStats>)
        ensures
            r@.len() == if self@.intervals.len() < LISTED {
                self@.intervals.len()
            } else {
                LISTED as nat
            },
            forall|i: int|
                0 <= i < r@.len() ==> #[trigger] r@[i] == self@.intervals[self@.intervals.len() - 1
                    - i],
            r@ == listed(self@.intervals),
    {
        let mut r: Vec<IntervalStats> = Vec::new();
        let n: usize = self.intervals.len();
        let mut i: usize = 0;
        while i < n && i < LISTED
            invariant
                i <= n,
                i <= LISTED,
                n == self.intervals@.len(),
                r@.len() == i,
                forall|k: int|
                    0 <= k < r@.len() ==> #[trigger] r@[k] == self.intervals@[n - 1 - k],
            decreases n - i,
        {
            r.push(self.intervals[n - 1 - i]);
            i = i + 1;
        }
        r
    }

    /// The title of the dashboard.
    pub fn title(&self) -> (r: &'static str)
        ensures
            r@ == if self@.paused {
                "ipfusch live dashboard [paused]"@
            } else {
                "ipfusch live dashboard"@
            },
    {
        if self.paused {
            "ipfusch live dashboard [paused]"
        } else {
            "ipfusch live dashboard"
        }
    }

    /// The last line of the dashboard: its keys and its status.
    pub fn footer(&self) -> (r: String)
        ensures
            r@ == "keys: q quit | p pause | e export snapshot    status: "@ + self@.status,
    {
        let mut text: String = "keys: q quit | p pause | e export snapshot    status: ".to_string();
        text.append(self.status.as_str());
        text
    }
}

/// The name of the file that the latest interval is written to, so many seconds after 1970.
pub fn snapshot_path(unix_secs: u64) -> (r: String)
    ensures
        r@ == "ipfusch-snapshot-"@ + decimal(unix_secs as nat) + ".json"@,
{
    let mut text: String = "ipfusch-snapshot-".to_string();
    push_decimal(&mut text, unix_secs);
    text.append(".json");
    text
}

} // verus!
