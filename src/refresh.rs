//! The refresh cadence: a state machine that drives one refresh of the panel
//! step by step and decides between a full and a partial refresh.
//!
//! The caller performs each controller step and reports whether it succeeded;
//! the scheduler names the next step, or none when the refresh is over.
use vstd::prelude::*;

verus! {

/// A full refresh is due once this many partial refreshes have been made.
pub const REFRESH_THRESHOLD: u8 = 5;

/// Counter value of a fresh scheduler: above the threshold, so that the first
/// refresh is a full one.
pub const INITIAL_REFRESH_COUNT: u8 = 10;

/// One operation of the display controller within a refresh.
#[derive(Clone, Copy, PartialEq, Eq, Debug, Structural)]
pub enum ControllerStep {
    HardwareInit,
    WriteFrame,
    FullRefresh,
    PartialRefresh,
    DeepSleep,
}

/// Whether a refresh with the counter at `count` is a full one.
pub open spec fn wants_full(count: u8, force_full: bool) -> bool {
    count >= REFRESH_THRESHOLD || force_full
}

/// The panel update chosen once the frame has been written.
pub open spec fn update_step(count: u8, force_full: bool) -> ControllerStep {
    if wants_full(count, force_full) {
        ControllerStep::FullRefresh
    } else {
        ControllerStep::PartialRefresh
    }
}

/// The step that follows `step` when `step` succeeded.
pub open spec fn step_after(step: ControllerStep, count: u8, force_full: bool) -> Option<
    ControllerStep,
> {
    match step {
        ControllerStep::HardwareInit => Some(ControllerStep::WriteFrame),
        ControllerStep::WriteFrame => Some(update_step(count, force_full)),
        ControllerStep::FullRefresh => Some(ControllerStep::DeepSleep),
        ControllerStep::PartialRefresh => Some(ControllerStep::DeepSleep),
        ControllerStep::DeepSleep => None,
    }
}

/// The counter once `step` has succeeded.
pub open spec fn count_after_step(step: ControllerStep, count: u8) -> u8 {
    match step {
        ControllerStep::FullRefresh => 0,
        ControllerStep::PartialRefresh => (count + 1) as u8,
        _ => count,
    }
}

/// The counter after a refresh whose steps all succeeded.
pub open spec fn count_after_refresh(count: u8, force_full: bool) -> u8 {
    count_after_step(update_step(count, force_full), count)
}

/// The counter after `n` successful unforced refreshes of a fresh scheduler.
pub open spec fn count_after_refreshes(n: nat) -> u8
    decreases n,
{
    if n == 0 {
        INITIAL_REFRESH_COUNT
    } else {
        count_after_refresh(count_after_refreshes((n - 1) as nat), false)
    }
}

/// Counter and progress of the refresh cycle.
pub struct RefreshScheduler {
    refresh_count: u8,
    pending: Option<ControllerStep>,
    force_full: bool,
}

impl RefreshScheduler {
    /// Partial refreshes made since the last full one.
    pub closed spec fn count(&self) -> u8 {
        self.refresh_count
    }

    /// The step the caller is performing, if a refresh is under way.
    pub closed spec fn pending(&self) -> Option<ControllerStep> {
        self.pending
    }

    /// Whether the refresh under way was asked to be a full one.
    pub closed spec fn forced(&self) -> bool {
        self.force_full
    }

    pub open spec fn wf(&self) -> bool {
        &&& self.count() <= INITIAL_REFRESH_COUNT
        &&& self.pending() == Some(ControllerStep::PartialRefresh) ==> self.count()
            < REFRESH_THRESHOLD
    }

    pub fn new() -> (s: Self)
        ensures
            s.wf(),
            s.count() == INITIAL_REFRESH_COUNT,
            s.pending() is None,
    {
        RefreshScheduler { refresh_count: INITIAL_REFRESH_COUNT, pending: None, force_full: false }
    }

    pub fn refresh_count(&self) -> (r: u8)
        ensures
            r == self.count(),
    {
        self.refresh_count
    }

    pub fn pending_step(&self) -> (r: Option<ControllerStep>)
        ensures
            r == self.pending(),
    {
        self.pending
    }

    /// Starts a refresh, abandoning any refresh under way; the first step is
    /// always the hardware initialisation.
    pub fn begin(&mut self, force_full: bool) -> (r: ControllerStep)
        requires
            old(self).wf(),
        ensures
            final(self).wf(),
            r == ControllerStep::HardwareInit,
            final(self).pending() == Some(ControllerStep::HardwareInit),
            final(self).forced() == force_full,
            final(self).count() == old(self).count(),
    {
        self.pending = Some(ControllerStep::HardwareInit);
        self.force_full = force_full;
        ControllerStep::HardwareInit
    }

    /// Records the outcome of the pending step and returns the next one. A
    /// failure ends the refresh at once: no further step is issued and the
    /// counter keeps its value.
    pub fn finish(&mut self, succeeded: bool) -> (r: Option<ControllerStep>)
        requires
            old(self).wf(),
        ensures
            final(self).wf(),
            final(self).pending() == r,
            final(self).forced() == old(self).forced(),
            !succeeded ==> r is None && final(self).count() == old(self).count(),
            old(self).pending() is None ==> r is None && final(self).count() == old(self).count(),
            succeeded && old(self).pending() is Some ==> {
                let step = old(self).pending()->Some_0;
                &&& r == step_after(step, old(self).count(), old(self).forced())
                &&& final(self).count() == count_after_step(step, old(self).count())
            },
    {
        let step = match self.pending {
            None => {
                return None;
            },
            Some(step) => step,
        };
        if !succeeded {
            self.pending = None;
            return None;
        }
        let next = match step {
            ControllerStep::HardwareInit => Some(ControllerStep::WriteFrame),
            ControllerStep::WriteFrame => {
                if self.refresh_count >= REFRESH_THRESHOLD || self.force_full {
                    Some(ControllerStep::FullRefresh)
                } else {
                    Some(ControllerStep::PartialRefresh)
                }
            },
            ControllerStep::FullRefresh => {
                self.refresh_count = 0;
                Some(ControllerStep::DeepSleep)
            },
            ControllerStep::PartialRefresh => {
                self.refresh_count = self.refresh_count + 1;
                Some(ControllerStep::DeepSleep)
            },
            ControllerStep::DeepSleep => None,
        };
        self.pending = next;
        next
    }
}

/// A successful refresh runs the controller through initialisation, writing the
/// frame, one panel update and deep sleep; the update is a full refresh exactly
/// when the counter has reached the threshold or a full refresh was asked for.
pub proof fn lemma_refresh_sequence(count: u8, force_full: bool)
    ensures
        step_after(ControllerStep::HardwareInit, count, force_full) == Some(
            ControllerStep::WriteFrame,
        ),
        step_after(ControllerStep::WriteFrame, count, force_full) == Some(
            update_step(count, force_full),
        ),
        step_after(update_step(count, force_full), count, force_full) == Some(
            ControllerStep::DeepSleep,
        ),
        step_after(ControllerStep::DeepSleep, count, force_full) is None,
        (update_step(count, force_full) == ControllerStep::FullRefresh) == (count
            >= REFRESH_THRESHOLD || force_full),
{
}

/// A forced refresh is always a full one and resets the counter, whatever its
/// value.
pub proof fn lemma_forced_refresh_is_full(count: u8)
    ensures
        update_step(count, true) == ControllerStep::FullRefresh,
        count_after_refresh(count, true) == 0,
{
}

/// Starting fresh, unforced refreshes go full, then partial while the counter
/// is below the threshold, then full again: refresh number `n + 1` is full
/// exactly when `n` is a multiple of one more than the threshold, and
/// afterwards the counter is `n` modulo that period.
pub proof fn lemma_refresh_cadence(n: nat)
    ensures
        (update_step(count_after_refreshes(n), false) == ControllerStep::FullRefresh) == (n
            % 6 == 0),
        count_after_refreshes(n + 1) == n % 6,
    decreases n,
{
    let c = count_after_refreshes(n);
    assert(count_after_refreshes(n + 1) == count_after_refresh(c, false));
    if n > 0 {
        lemma_refresh_cadence((n - 1) as nat);
        assert(c == (n - 1) % 6);
        if (n - 1) % 6 == 5 {
            assert(n % 6 == 0);
        } else {
            assert(n % 6 == (n - 1) % 6 + 1);
        }
    } else {
        assert(c == INITIAL_REFRESH_COUNT);
    }
}

} // verus!
