//! The life cycle of the collection loop, and the state that the loop works
//! on: the aggregator with its store.

use crate::aggregate::{cycle_series, rebuilt};
use crate::cycle::{counters_hold, gauges_reflect};
use crate::metrics::{fresh_families, Metrics};
use crate::model::{snapshot_of, FamilyView, SeriesView};
use crate::sample::RawSample;
use crate::store::{MetricStore, SnapshotEntry, StoreError};
use vstd::prelude::*;

verus! {

/// The seconds between two cycles, unless another interval is asked for.
pub const DEFAULT_INTERVAL_SECS: u64 = 5;

/// Where the collection loop stands.
#[derive(Clone, Copy, Debug, PartialEq, Eq, Structural)]
pub enum SchedulerState {
    /// Never started.
    Idle,
    /// The loop runs.
    Running,
    /// A stop was asked for; the loop has not seen it yet.
    Stopping,
    /// The loop has ended.
    Stopped,
}

/// A misuse of the scheduler.
#[derive(Clone, Copy, Debug, PartialEq, Eq, Structural)]
pub enum SchedulerError {
    /// The loop was started while it runs.
    AlreadyRunning,
    /// A step of the loop was asked for while no loop runs.
    NotRunning,
}

/// What the loop found on its stop channel at the top of an iteration.
#[derive(Clone, Copy, Debug, PartialEq, Eq, Structural)]
pub enum StopSignal {
    /// Nothing was sent.
    Empty,
    /// A stop was sent.
    Received,
    /// The sending side is gone.
    Closed,
    /// Messages were missed.
    Lagged,
}

/// What the loop does next.
#[derive(Clone, Copy, Debug, PartialEq, Eq, Structural)]
pub enum LoopStep {
    /// Take a reading, fold it in, sleep for so many seconds, come back.
    Collect { sleep_secs: u64 },
    /// Leave the loop.
    Exit,
}

/// A loop exists: it runs, or it has yet to see that it was asked to stop.
pub open spec fn is_live(state: SchedulerState) -> bool {
    state == SchedulerState::Running || state == SchedulerState::Stopping
}

/// The loop can go from `before` to `after` in one step: it is started from
/// rest, asked to stop while it runs, and stopped when it sees that or its
/// stop channel says so.
pub open spec fn may_follow(before: SchedulerState, after: SchedulerState) -> bool {
    ||| after == before
    ||| !is_live(before) && after == SchedulerState::Running
    ||| before == SchedulerState::Running && after == SchedulerState::Stopping
    ||| is_live(before) && after == SchedulerState::Stopped
}

/// The state after a stop was asked for.
pub open spec fn after_stop(state: SchedulerState) -> SchedulerState {
    if state == SchedulerState::Running {
        SchedulerState::Stopping
    } else {
        state
    }
}

/// The loop leaves at the top of this iteration.
pub open spec fn leaves(state: SchedulerState, signal: StopSignal) -> bool {
    state == SchedulerState::Stopping || signal == StopSignal::Received || signal
        == StopSignal::Closed
}

/// The aggregator and the state of the loop that feeds it.
pub struct AppState {
    metrics: Metrics,
    state: SchedulerState,
    interval_secs: u64,
}

impl AppState {
    /// The families of the store.
    pub closed spec fn store(&self) -> Seq<FamilyView> {
        self.metrics@
    }

    /// The place of the first family of the catalog in the store.
    pub closed spec fn base(&self) -> int {
        self.metrics.base()
    }

    /// Where the loop stands.
    pub closed spec fn scheduler(&self) -> SchedulerState {
        self.state
    }

    /// The seconds between two cycles.
    pub closed spec fn interval(&self) -> u64 {
        self.interval_secs
    }

    /// The aggregator is well formed. This holds of every value that `new`
    /// or `with_interval` has made, and every method keeps it.
    pub closed spec fn wf(&self) -> bool {
        self.metrics.wf()
    }

    /// A fresh store with the families of the catalog, no loop, and the
    /// default interval.
    pub fn new() -> (r: Result<AppState, StoreError>)
        ensures
            r matches Ok(app) && app.wf() && app.store() == fresh_families() && app.base() == 0
                && app.scheduler() == SchedulerState::Idle && app.interval()
                == DEFAULT_INTERVAL_SECS,
    {
        AppState::with_interval(DEFAULT_INTERVAL_SECS)
    }

    /// A fresh store with the families of the catalog, no loop, and
    /// `interval_secs` seconds between two cycles.
    pub fn with_interval(interval_secs: u64) -> (r: Result<AppState, StoreError>)
        ensures
            r matches Ok(app) && app.wf() && app.store() == fresh_families() && app.base() == 0
                && app.scheduler() == SchedulerState::Idle && app.interval() == interval_secs,
    {
        let registry = MetricStore::new();
        match Metrics::new(registry) {
            Ok(metrics) => {
                assert(metrics@ =~= fresh_families());
                Ok(AppState { metrics, state: SchedulerState::Idle, interval_secs })
            },
            Err(e) => Err(e),
        }
    }

    /// Where the loop stands.
    pub fn state(&self) -> (r: SchedulerState)
        ensures
            r == self.scheduler(),
    {
        self.state
    }

    /// The seconds between two cycles.
    pub fn interval_secs(&self) -> (r: u64)
        ensures
            r == self.interval(),
    {
        self.interval_secs
    }

    /// The aggregator.
    pub fn metrics(&self) -> (r: &Metrics)
        ensures
            r@ == self.store(),
            r.base() == self.base(),
            r.wf() == self.wf(),
    {
        &self.metrics
    }

    /// Every series of the store, family after family.
    pub fn snapshot(&self) -> (r: Vec<SnapshotEntry>)
        ensures
            r.deep_view() == snapshot_of(self.store()),
    {
        self.metrics.snapshot()
    }

    /// Starts the loop. This fails while a loop exists; after a loop has
    /// ended, a new one can be started.
    pub fn start_background_metrics_collection(&mut self) -> (r: Result<(), SchedulerError>)
        requires
            old(self).wf(),
        ensures
            final(self).wf(),
            final(self).store() == old(self).store(),
            final(self).base() == old(self).base(),
            final(self).interval() == old(self).interval(),
            may_follow(old(self).scheduler(), final(self).scheduler()),
            match r {
                Ok(_) => !is_live(old(self).scheduler()) && final(self).scheduler()
                    == SchedulerState::Running,
                Err(e) => e == SchedulerError::AlreadyRunning && is_live(old(self).scheduler())
                    && final(self).scheduler() == old(self).scheduler(),
            },
    {
        match self.state {
            SchedulerState::Running | SchedulerState::Stopping => Err(
                SchedulerError::AlreadyRunning,
            ),
            SchedulerState::Idle | SchedulerState::Stopped => {
                self.state = SchedulerState::Running;
                Ok(())
            },
        }
    }

    /// Asks the loop to stop. The loop sees it at the top of its next
    /// iteration. Without a running loop nothing changes.
    pub fn stop_background_metrics_collection(&mut self)
        requires
            old(self).wf(),
        ensures
            final(self).wf(),
            final(self).store() == old(self).store(),
            final(self).base() == old(self).base(),
            final(self).interval() == old(self).interval(),
            may_follow(old(self).scheduler(), final(self).scheduler()),
            final(self).scheduler() == after_stop(old(self).scheduler()),
    {
        match self.state {
            SchedulerState::Running => {
                self.state = SchedulerState::Stopping;
            },
            _ => {},
        }
    }

    /// The decision at the top of an iteration. The loop leaves, and is
    /// stopped, where a stop was asked for or the stop channel says so; else
    /// it goes on to collect. The store is not touched.
    pub fn next_step(&mut self, signal: StopSignal) -> (r: Result<LoopStep, SchedulerError>)
        requires
            old(self).wf(),
        ensures
            final(self).wf(),
            final(self).store() == old(self).store(),
            final(self).base() == old(self).base(),
            final(self).interval() == old(self).interval(),
            may_follow(old(self).scheduler(), final(self).scheduler()),
            match r {
                Ok(LoopStep::Exit) => is_live(old(self).scheduler()) && leaves(
                    old(self).scheduler(),
                    signal,
                ) && final(self).scheduler() == SchedulerState::Stopped,
                Ok(LoopStep::Collect { sleep_secs }) => is_live(old(self).scheduler()) && !leaves(
                    old(self).scheduler(),
                    signal,
                ) && final(self).scheduler() == SchedulerState::Running && sleep_secs
                    == old(self).interval(),
                Err(e) => e == SchedulerError::NotRunning && !is_live(old(self).scheduler())
                    && final(self).scheduler() == old(self).scheduler(),
            },
    {
        match self.state {
            SchedulerState::Idle | SchedulerState::Stopped => Err(SchedulerError::NotRunning),
            SchedulerState::Stopping => {
                self.state = SchedulerState::Stopped;
                Ok(LoopStep::Exit)
            },
            SchedulerState::Running => match signal {
                StopSignal::Received | StopSignal::Closed => {
                    self.state = SchedulerState::Stopped;
                    Ok(LoopStep::Exit)
                },
                StopSignal::Empty | StopSignal::Lagged => Ok(
                    LoopStep::Collect { sleep_secs: self.interval_secs },
                ),
            },
        }
    }

    /// One cycle of the loop: the system reading is folded in, then the
    /// readings of the network interfaces. A part of the reading that could
    /// not be read is left out for this cycle. Without a loop nothing is
    /// folded in.
    pub fn collect(&mut self, sample: &RawSample) -> (r: Result<(), SchedulerError>)
        requires
            old(self).wf(),
        ensures
            final(self).wf(),
            final(self).base() == old(self).base(),
            final(self).interval() == old(self).interval(),
            may_follow(old(self).scheduler(), final(self).scheduler()),
            final(self).scheduler() == old(self).scheduler(),
            counters_hold(old(self).store(), final(self).store(), final(self).base()),
            r is Ok ==> (sample@.system matches Some(system) ==> gauges_reflect(
                final(self).store(),
                final(self).base(),
                system.processes,
            )),
            match r {
                Ok(_) => is_live(old(self).scheduler()) && final(self).store() == rebuilt(
                    old(self).store(),
                    old(self).base(),
                    |k: int, before: Seq<SeriesView>| cycle_series(k, before, sample@),
                ),
                Err(e) => e == SchedulerError::NotRunning && !is_live(old(self).scheduler())
                    && final(self).store() == old(self).store(),
            },
    {
        match self.state {
            SchedulerState::Idle | SchedulerState::Stopped => {
                return Err(SchedulerError::NotRunning);
            },
            _ => {},
        }
        match &sample.system {
            Some(system) => {
                self.metrics.update_system_metrics(system);
            },
            None => {},
        }
        match &sample.interfaces {
            Some(interfaces) => {
                self.metrics.update_interfaces(interfaces);
            },
            None => {},
        }
        assert(self.metrics@ =~= rebuilt(
            old(self).store(),
            old(self).base(),
            |k: int, before: Seq<SeriesView>| cycle_series(k, before, sample@),
        ));
        Ok(())
    }
}

} // verus!
