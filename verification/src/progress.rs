//! How far a run has come, for a bar that shows it.
use vstd::prelude::*;

use crate::config::{duration_text, format_duration, humantime_text, RunConfig};
use crate::figures::{millis, whole_ms};
use crate::text::{decimal, push_decimal};

verus! {

/// How long a run takes, in milliseconds.
#[derive(Debug, Clone, Copy, PartialEq, Eq, Structural)]
pub struct Progress {
    pub warmup_ms: u64,
    pub measured_ms: u64,
    pub total_ms: u64,
}

/// The lesser of two numbers.
pub open spec fn least(a: u64, b: u64) -> u64 {
    if a < b {
        a
    } else {
        b
    }
}

/// The sum of two numbers, as far as 64 bits hold it.
pub open spec fn sum_at_most_max(a: u64, b: u64) -> u64 {
    if a + b > u64::MAX {
        u64::MAX
    } else {
        (a + b) as u64
    }
}

/// How long a run takes: its warm-up and its measurement, and at least a millisecond.
pub open spec fn progress_of(cfg: RunConfig) -> Progress {
    let warmup_ms = whole_ms(cfg.warmup_ns);
    let measured_ms = whole_ms(cfg.duration_ns);
    let total = sum_at_most_max(warmup_ms, measured_ms);
    Progress {
        warmup_ms,
        measured_ms,
        total_ms: if total < 1 {
            1
        } else {
            total
        },
    }
}

impl Progress {
    /// That the run takes its time.
    pub open spec fn wf(self) -> bool {
        self.total_ms >= 1 && self.total_ms >= sum_at_most_max(self.warmup_ms, self.measured_ms)
    }

    /// How long a run takes.
    pub fn new(cfg: &RunConfig) -> (r: Progress)
        ensures
            r == progress_of(*cfg),
            r.wf(),
    {
        let measured_ms: u64 = millis(cfg.duration_ns);
        let warmup_ms: u64 = millis(cfg.warmup_ns);
        let total: u64 = warmup_ms.saturating_add(measured_ms);
        Progress {
            warmup_ms,
            measured_ms,
            total_ms: if total < 1 {
                1
            } else {
                total
            },
        }
    }

    /// How far the bar is once so much time has passed.
    pub open spec fn after_time(self, elapsed_ms: u64) -> u64 {
        least(elapsed_ms, self.total_ms)
    }

    /// How far the bar is once so much time has passed.
    pub fn position_at(&self, elapsed_ms: u64) -> (r: u64)
        ensures
            r == least(elapsed_ms, self.total_ms),
            r == self.after_time(elapsed_ms),
    {
        if elapsed_ms < self.total_ms {
            elapsed_ms
        } else {
            self.total_ms
        }
    }

    /// What the bar says while the run warms up: how long it still does.
    pub fn warmup_message(&self, elapsed_ms: u64) -> (r: Option<String>)
        ensures
            match r {
                None => elapsed_ms >= self.warmup_ms,
                Some(m) => elapsed_ms < self.warmup_ms && m@ == "warming up... "@ + decimal(
                    (self.warmup_ms - elapsed_ms) as nat,
                ) + "ms"@,
            },
    {
        if elapsed_ms >= self.warmup_ms {
            return None;
        }
        let mut text: String = "warming up... ".to_string();
        push_decimal(&mut text, self.warmup_ms - elapsed_ms);
        text.append("ms");
        Some(text)
    }

    /// How far the bar is once an interval has ended so long after the warm-up.
    pub open spec fn after_interval(self, end_ms: u64) -> u64 {
        least(sum_at_most_max(self.warmup_ms, least(end_ms, self.measured_ms)), self.total_ms)
    }

    /// How far the bar is once an interval has ended so long after the warm-up.
    pub fn position_after(&self, end_ms: u64) -> (r: u64)
        ensures
            r == self.after_interval(end_ms),
    {
        let measured: u64 = if end_ms < self.measured_ms {
            end_ms
        } else {
            self.measured_ms
        };
        let progress: u64 = self.warmup_ms.saturating_add(measured);
        if progress < self.total_ms {
            progress
        } else {
            self.total_ms
        }
    }
}

/// The bar does not go back from one interval to a later one, does not pass its end, and is there
/// when the measurement is over.
pub proof fn law_bar_moves_on(cfg: RunConfig, end_ms: u64, later_ms: u64)
    requires
        end_ms <= later_ms,
    ensures
        ({
            let p = progress_of(cfg);
            &&& p.after_interval(end_ms) <= p.after_interval(later_ms) <= p.total_ms
            &&& later_ms >= p.measured_ms && p.warmup_ms + p.measured_ms >= 1
                ==> p.after_interval(later_ms) == p.total_ms
        }),
{
}

/// The bar is as long as the warm-up and the measurement together, in full milliseconds, and shows
/// the time that has passed: of the warm-up all, and of the measurement what is over. It stops at
/// its end.
pub proof fn law_bar_shows_the_time(cfg: RunConfig, end_ms: u64, elapsed_ms: u64)
    requires
        cfg.warmup_ns / 1_000_000 + cfg.duration_ns / 1_000_000 <= u64::MAX,
    ensures
        ({
            let p = progress_of(cfg);
            let warmup = cfg.warmup_ns / 1_000_000;
            let measured = cfg.duration_ns / 1_000_000;
            &&& p.warmup_ms == warmup
            &&& p.measured_ms == measured
            &&& warmup + measured > 0 ==> p.total_ms == warmup + measured
            &&& warmup + measured == 0 ==> p.total_ms == 1
            &&& end_ms <= measured ==> p.after_interval(end_ms) == warmup + end_ms
            &&& end_ms > measured ==> p.after_interval(end_ms) == warmup + measured
            &&& elapsed_ms <= p.total_ms ==> p.after_time(elapsed_ms) == elapsed_ms
            &&& elapsed_ms > p.total_ms ==> p.after_time(elapsed_ms) == p.total_ms
        }),
{
}

/// What is said of a run when it starts.
pub open spec fn opening_of(cfg: RunConfig) -> Seq<char> {
    "running "@ + decimal(cfg.streams as nat) + " stream(s) over "@ + cfg.transport.name()
        + " for "@ + duration_text(cfg.duration_ns) + " (+ "@ + duration_text(cfg.warmup_ns)
        + " warmup)"@
}

/// What is said of a run when it starts tells its streams, its transport and how long it takes.
pub proof fn law_opening_tells_the_run(cfg: RunConfig, secs: u64, warmup_secs: u64)
    requires
        cfg.duration_ns == secs * 1_000_000_000,
        cfg.warmup_ns == warmup_secs * 1_000_000_000,
    ensures
        opening_of(cfg) == "running "@ + decimal(cfg.streams as nat) + " stream(s) over "@
            + cfg.transport.name() + " for "@ + humantime_text(secs, 0) + " (+ "@ + humantime_text(
            warmup_secs,
            0,
        ) + " warmup)"@,
{
}

/// What is said of a run when it starts.
pub fn opening_line(cfg: &RunConfig) -> (r: String)
    requires
        cfg.duration_ns / 1_000_000_000 <= u64::MAX,
        cfg.warmup_ns / 1_000_000_000 <= u64::MAX,
    ensures
        r@ == opening_of(*cfg),
{
    let mut text: String = "running ".to_string();
    push_decimal(&mut text, cfg.streams as u64);
    text.append(" stream(s) over ");
    text.append(cfg.transport.to_string().as_str());
    text.append(" for ");
    text.append(format_duration(cfg.duration_ns).as_str());
    text.append(" (+ ");
    text.append(format_duration(cfg.warmup_ns).as_str());
    text.append(" warmup)");
    text
}

} // verus!
