//! What the watchers measure, and what they tell the daemon.
use crate::binary64::Binary64;
use crate::data::{Amount, MemoryUsage, NetworkUsage, StorageUnit};
use crate::disk::DiskTable;
use crate::notification::EwwNotification;
use std::time::Duration;
use vstd::prelude::*;

verus! {

/// A window that got the focus.
#[derive(Debug)]
pub struct WindowEvent {
    pub window_class: String,
}

/// What a watcher tells the daemon.
pub enum Update {
    Network(String, NetworkUsage),
    Disk(DiskTable),
    Memory(MemoryUsage),
    Cpu(Binary64),
    Notification(EwwNotification),
    ActiveWindow(WindowEvent),
}

/// Measures how full the disks are.
pub struct DiskWatcher {
    pub period: Duration,
}

impl DiskWatcher {
    pub fn new(period: Duration) -> (watcher: Self)
        ensures
            watcher.period == period,
    {
        DiskWatcher { period }
    }

    /// How much of a disk is used, and its size.
    pub fn measure(&self, total: u64, available: u64) -> (amounts: (Amount, Amount))
        requires
            available <= total,
        ensures
            amounts.0.suits((total - available) as u64, StorageUnit::Petabyte),
            amounts.1.suits(total, StorageUnit::Petabyte),
    {
        (
            Amount::of(total - available, StorageUnit::Petabyte),
            Amount::of(total, StorageUnit::Petabyte),
        )
    }
}

/// Measures how full the memory is.
pub struct MemoryWatcher {
    pub period: Duration,
}

impl MemoryWatcher {
    pub fn new(period: Duration) -> (watcher: Self)
        ensures
            watcher.period == period,
    {
        MemoryWatcher { period }
    }

    /// How much of the memory is used, and its size: in megabytes at most.
    pub fn measure(&self, used: u64, total: u64) -> (amounts: (Amount, Amount))
        ensures
            amounts.0.suits(used, StorageUnit::Megabyte),
            amounts.1.suits(total, StorageUnit::Megabyte),
    {
        (Amount::of(used, StorageUnit::Megabyte), Amount::of(total, StorageUnit::Megabyte))
    }
}

/// The nanoseconds that a duration lasts, as `Duration::as_nanos` gives them.
pub uninterp spec fn nanoseconds(duration: Duration) -> u128;

/// `Duration::as_nanos`: all the nanoseconds of a duration. It depends on the duration alone.
#[verifier::external_body]
fn as_nanos(duration: Duration) -> (nanos: u128)
    ensures
        nanos == nanoseconds(duration),
{
    duration.as_nanos()
}

/// Measures how busy the processors are.
pub struct CpuWatcher {
    pub period: Duration,
}

/// What the processor watcher does in one step.
#[derive(Copy, Clone, PartialEq, Eq, Structural, Debug)]
pub enum CpuStep {
    /// Read the processors anew.
    Refresh,
    /// Wait until the period is over.
    Wait,
    /// Tell the daemon what was read.
    Send,
}

/// How far the processor watcher is.
#[derive(Copy, Clone, PartialEq, Eq, Structural, Debug)]
pub enum CpuStage {
    /// Nothing was read yet.
    Started,
    /// The period runs.
    Idle,
    /// The period is over.
    Woken,
    /// The processors were read since.
    Fresh,
}

impl CpuStage {
    /// What is done at a stage.
    pub open spec fn does(self) -> CpuStep {
        match self {
            CpuStage::Started => CpuStep::Refresh,
            CpuStage::Idle => CpuStep::Wait,
            CpuStage::Woken => CpuStep::Refresh,
            CpuStage::Fresh => CpuStep::Send,
        }
    }

    /// The stage after it.
    pub open spec fn then_comes(self) -> CpuStage {
        match self {
            CpuStage::Started => CpuStage::Idle,
            CpuStage::Idle => CpuStage::Woken,
            CpuStage::Woken => CpuStage::Fresh,
            CpuStage::Fresh => CpuStage::Idle,
        }
    }

    /// The stage after a number of steps.
    pub open spec fn after(steps: nat) -> CpuStage
        decreases steps,
    {
        if steps == 0 {
            CpuStage::Started
        } else {
            CpuStage::after((steps - 1) as nat).then_comes()
        }
    }

    /// How often a step is done among the first ones.
    pub open spec fn times_done(step: CpuStep, steps: nat) -> nat
        decreases steps,
    {
        if steps == 0 {
            0
        } else {
            CpuStage::times_done(step, (steps - 1) as nat) + if CpuStage::after(
                (steps - 1) as nat,
            ).does() == step {
                1nat
            } else {
                0nat
            }
        }
    }

    /// Goes on to the next stage, and tells what is to be done before.
    pub fn advance(self) -> (next: (CpuStep, CpuStage))
        ensures
            next.0 == self.does(),
            next.1 == self.then_comes(),
    {
        match self {
            CpuStage::Started => (CpuStep::Refresh, CpuStage::Idle),
            CpuStage::Idle => (CpuStep::Wait, CpuStage::Woken),
            CpuStage::Woken => (CpuStep::Refresh, CpuStage::Fresh),
            CpuStage::Fresh => (CpuStep::Send, CpuStage::Idle),
        }
    }
}

impl CpuWatcher {
    pub fn new(period: Duration) -> (watcher: Self)
        ensures
            watcher.period == period,
    {
        CpuWatcher { period }
    }

    /// The time from one reading to the next, which is no shorter than `minimum`.
    pub fn interval(&self, minimum: Duration) -> (period: Duration)
        ensures
            period == if nanoseconds(self.period) < nanoseconds(minimum) {
                minimum
            } else {
                self.period
            },
            nanoseconds(period) >= nanoseconds(minimum),
    {
        if as_nanos(self.period) < as_nanos(minimum) {
            minimum
        } else {
            self.period
        }
    }
}

/// Whenever the daemon is to be told, the processors were read at least twice before. After the
/// first reading there is one for each time that the daemon is told.
pub proof fn law_refreshed_before_sending(steps: nat)
    ensures
        CpuStage::after(steps).does() == CpuStep::Send ==> {
            &&& CpuStage::times_done(CpuStep::Refresh, steps) >= 2
            &&& CpuStage::times_done(CpuStep::Refresh, steps) == CpuStage::times_done(
                CpuStep::Send,
                steps,
            ) + 2
        },
{
    lemma_refreshes_lead(steps);
}

/// Each time the daemon is told, the processors were read in the step before, after the period.
pub proof fn law_sends_what_is_fresh(steps: nat)
    requires
        CpuStage::after(steps).does() == CpuStep::Send,
    ensures
        steps >= 2,
        CpuStage::after((steps - 1) as nat).does() == CpuStep::Refresh,
        CpuStage::after((steps - 2) as nat).does() == CpuStep::Wait,
{
    reveal_with_fuel(CpuStage::after, 3);
}

proof fn lemma_refreshes_lead(steps: nat)
    ensures
        CpuStage::times_done(CpuStep::Refresh, steps) == CpuStage::times_done(CpuStep::Send, steps)
            + match CpuStage::after(steps) {
            CpuStage::Started => 0nat,
            CpuStage::Idle => 1nat,
            CpuStage::Woken => 1nat,
            CpuStage::Fresh => 2nat,
        },
    decreases steps,
{
    if steps > 0 {
        lemma_refreshes_lead((steps - 1) as nat);
    }
}

/// The watcher reads the processors first. Then it waits, reads them and tells the daemon, over and
/// over in this order.
pub proof fn law_steps_take_turns(steps: nat)
    ensures
        steps == 0 ==> CpuStage::after(steps).does() == CpuStep::Refresh,
        steps > 0 && steps % 3 == 1 ==> CpuStage::after(steps).does() == CpuStep::Wait,
        steps > 0 && steps % 3 == 2 ==> CpuStage::after(steps).does() == CpuStep::Refresh,
        steps > 0 && steps % 3 == 0 ==> CpuStage::after(steps).does() == CpuStep::Send,
    decreases steps,
{
    if steps <= 3 {
        reveal_with_fuel(CpuStage::after, 5);
    } else {
        law_steps_take_turns((steps - 3) as nat);
        lemma_stage_repeats((steps - 3) as nat);
    }
}

proof fn lemma_stage_repeats(steps: nat)
    requires
        steps > 0,
    ensures
        CpuStage::after(steps + 3) == CpuStage::after(steps),
    decreases steps,
{
    reveal_with_fuel(CpuStage::after, 5);
    if steps > 1 {
        lemma_stage_repeats((steps - 1) as nat);
    }
}

} // verus!
