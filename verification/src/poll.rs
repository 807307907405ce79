use vstd::prelude::*;

verus! {

use vstd::arithmetic::div_mod::{lemma_div_is_ordered, lemma_fundamental_div_mod_converse};

/// Progress fractions are carried as parts per million of completion.
pub const PROGRESS_SCALE: u64 = 1000000;

/// The phase a remote task reports.
#[derive(Debug, Clone, Copy, PartialEq, Eq, Structural)]
pub enum Phase {
    /// Accepted but not yet running.
    Created,
    /// Being computed.
    Running,
    /// Complete: polling stops.
    Finished,
    /// Reported failed by the remote side.
    Failed,
    /// Cancelled on the remote side.
    Aborted,
    /// Timed out on the remote side.
    Timeout,
    /// Any phase this pipeline does not know by name.
    Other,
}

/// What one status observation asks the caller to do.
pub struct PollStep {
    /// How far to advance the visible progress indicator.
    pub indicator_increment: u64,
    /// Whether the task is complete and the polling loop must end.
    pub done: bool,
}

/// The polling state machine. It watches the remote task's progress
/// fraction and turns each change into an advance of a visible
/// indicator whose full length is the number of chunks. Only the
/// `Finished` phase ends the loop; failure-like phases are reported to
/// the caller through the observed phase, not here.
pub struct Poller {
    /// Number of chunks: the length of the visible indicator.
    pub total_units: u64,
    /// The progress fraction most recently observed, in parts per
    /// million.
    pub last_progress: u64,
}

/// The indicator advance for a move from fraction `last` to fraction
/// `new` (both in parts per million) on an indicator of `total` units:
/// `round(delta * total)` with rounding half away from zero for a
/// growing fraction, and no advance for an unchanged or shrinking one.
pub open spec fn increment_for(last: u64, new: u64, total: u64) -> nat {
    if new <= last {
        0
    } else {
        (((new - last) * total + (PROGRESS_SCALE as int) / 2) / (PROGRESS_SCALE as int)) as nat
    }
}

impl Poller {
    /// A progress fraction never exceeds one million parts per million.
    pub open spec fn wf(self) -> bool {
        self.last_progress <= PROGRESS_SCALE
    }

    /// A poller for a task of `total_units` chunks, before the first
    /// status observation.
    pub fn new(total_units: u64) -> (p: Poller)
        ensures
            p.wf(),
            p.total_units == total_units,
            p.last_progress == 0,
    {
        Poller { total_units, last_progress: 0 }
    }

    /// Feeds one status observation to the state machine.
    ///
    /// The returned step advances the indicator by the rounded share of
    /// the progress made since the last change, and ends the loop
    /// exactly on the `Finished` phase.
    pub fn observe(&mut self, progress: u64, phase: Phase) -> (step: PollStep)
        requires
            old(self).wf(),
            progress <= PROGRESS_SCALE,
        ensures
            final (self).wf(),
            final (self).total_units == old(self).total_units,
            final (self).last_progress == progress,
            step.done == (phase == Phase::Finished),
            step.indicator_increment == increment_for(
                old(self).last_progress,
                progress,
                old(self).total_units,
            ),
            step.indicator_increment <= old(self).total_units,
    {
        let inc: u64 = if progress > self.last_progress {
            let delta = (progress - self.last_progress) as u128;
            let total = self.total_units as u128;
            let scale = PROGRESS_SCALE as u128;
            proof {
                assert(delta * total <= 1000000u128 * 0xffffffffffffffffu128) by (nonlinear_arith)
                    requires
                        delta <= 1000000u128,
                        total <= 0xffffffffffffffffu128,
                ;
            }
            let num = delta * total + scale / 2;
            let q = num / scale;
            proof {
                assert(delta * total <= scale * total) by (nonlinear_arith)
                    requires
                        delta <= scale,
                        total >= 0,
                ;
                lemma_div_is_ordered(
                    delta as int * total as int + scale as int / 2,
                    scale as int * total as int + scale as int / 2,
                    scale as int,
                );
                lemma_fundamental_div_mod_converse(
                    scale as int * total as int + scale as int / 2,
                    scale as int,
                    total as int,
                    scale as int / 2,
                );
                assert(q <= total);
            }
            q as u64
        } else {
            0
        };
        self.last_progress = progress;
        PollStep { indicator_increment: inc, done: phase == Phase::Finished }
    }
}

} // verus!
