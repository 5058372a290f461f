//! The tick scheduler: one probe, update and render per period, until told
//! to stop. The host program sleeps and probes; this decides.
use vstd::prelude::*;
use crate::summary::{summary_of, ApplicationBlock};
use crate::tracker::{tracked_after, Sample, TrackedState};

verus! {

/// Where the scheduler stands in its cycle.
#[derive(PartialEq, Eq, Structural, Clone, Copy, Debug)]
pub enum Phase {
    /// Between ticks.
    Idle,
    /// A tick's probe, update and render are under way.
    Sampling,
}

/// The mathematical value of a `TickScheduler`.
pub struct SchedulerView {
    pub period: u64,
    pub phase: Phase,
    pub stop_requested: bool,
}

/// Drives the sample, aggregate and render cycle at a fixed period.
pub struct TickScheduler {
    period: u64,
    phase: Phase,
    stop_requested: bool,
}

impl View for TickScheduler {
    type V = SchedulerView;

    closed spec fn view(&self) -> SchedulerView {
        SchedulerView { period: self.period, phase: self.phase, stop_requested: self.stop_requested }
    }
}

/// The sample of one tick: present when the probe resolved both the window
/// title and the application name, absent on any probe failure.
pub fn sample_of(window_title: Option<String>, application_name: Option<String>) -> (r: Option<Sample>)
    ensures
        r is Some <==> (window_title is Some && application_name is Some),
        r is Some ==> r->0.window_title == window_title->0 && r->0.application_name
            == application_name->0,
{
    match (window_title, application_name) {
        (Some(window_title), Some(application_name)) => Some(Sample { application_name, window_title }),
        _ => None,
    }
}

impl TickScheduler {
    /// A scheduler for ticks of `period` seconds, idle, with no stop asked.
    pub fn new(period: u64) -> (r: TickScheduler)
        requires
            period > 0,
        ensures
            r@ == (SchedulerView { period, phase: Phase::Idle, stop_requested: false }),
    {
        TickScheduler { period, phase: Phase::Idle, stop_requested: false }
    }

    /// The seconds between ticks.
    pub fn period(&self) -> (r: u64)
        ensures
            r == self@.period,
    {
        self.period
    }

    /// The current phase.
    pub fn phase(&self) -> (r: Phase)
        ensures
            r == self@.phase,
    {
        self.phase
    }

    /// Asks the scheduler to start no further tick.
    pub fn request_stop(&mut self)
        ensures
            final(self)@ == (SchedulerView { stop_requested: true, ..old(self)@ }),
    {
        self.stop_requested = true;
    }

    /// Starts a tick unless a stop was asked; `true` when the tick starts.
    pub fn begin_tick(&mut self) -> (r: bool)
        requires
            old(self)@.phase == Phase::Idle,
        ensures
            r == !old(self)@.stop_requested,
            final(self)@ == (SchedulerView {
                phase: if r { Phase::Sampling } else { Phase::Idle },
                ..old(self)@
            }),
    {
        if self.stop_requested {
            false
        } else {
            self.phase = Phase::Sampling;
            true
        }
    }

    /// Finishes a tick: attributes the sample (if any) to `state`, returns
    /// the summary of the new state, and goes back to idle. The caller then
    /// waits one period.
    pub fn complete_tick(&mut self, state: &mut TrackedState, sample: Option<Sample>) -> (r: Vec<
        ApplicationBlock,
    >)
        requires
            old(self)@.phase == Phase::Sampling,
            old(state).wf(),
        ensures
            final(self)@ == (SchedulerView { phase: Phase::Idle, ..old(self)@ }),
            final(state).wf(),
            match sample {
                None => *final(state) == *old(state),
                Some(s) => final(state)@ == tracked_after(
                    old(state)@,
                    s.application_name@,
                    s.window_title@,
                    old(self)@.period,
                ),
            },
            r@.map_values(|b: ApplicationBlock| b@) == summary_of(final(state)@),
    {
        state.update(sample, self.period);
        let blocks = state.render();
        self.phase = Phase::Idle;
        blocks
    }
}

} // verus!
