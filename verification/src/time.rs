//! The tick counter, and waiting on it.

use vstd::prelude::*;

verus! {

/// Counts the ticks of the timer interrupt since boot. The count never goes
/// down and is never reset.
#[derive(Clone, Copy, Debug)]
pub struct TickCounter {
    count: u64,
}

impl TickCounter {
    /// The number of ticks counted.
    pub closed spec fn view(&self) -> u64 {
        self.count
    }

    /// A counter at zero, as at boot.
    pub fn new() -> (r: TickCounter)
        ensures
            r@ == 0,
    {
        TickCounter { count: 0 }
    }

    /// The number of ticks counted.
    pub fn ticks(&self) -> (r: u64)
        ensures
            r == self@,
    {
        self.count
    }
}

/// What to do while a sleep lasts.
#[derive(Clone, Copy, PartialEq, Eq, Structural, Debug)]
pub enum SleepStep {
    /// The sleep is over.
    Wake,
    /// Halt the processor until the next interrupt, then ask again.
    Halt,
}

/// A sleep that lasts until the tick counter has gone past `target`.
#[derive(Clone, Copy, PartialEq, Eq, Structural, Debug)]
pub struct Sleep {
    pub target: u64,
}

/// Counts one tick. Called by the timer interrupt and by nothing else.
pub fn tick(counter: &mut TickCounter)
    requires
        old(counter)@ < u64::MAX,
    ensures
        final(counter)@ == old(counter)@ + 1,
{
    counter.count = counter.count + 1;
}

/// A sleep of `ticks` ticks that starts now: it lasts until the counter has
/// gone past its present value by more than `ticks`.
pub fn hard_sleep(ticks: u64, counter: &TickCounter) -> (sleep: Sleep)
    requires
        ticks + counter@ <= u64::MAX,
    ensures
        sleep.target == ticks + counter@,
{
    Sleep { target: ticks + counter.count }
}

impl Sleep {
    /// What a sleeper does at the counter's present value: it wakes once the
    /// counter is past the target, and halts until the next interrupt
    /// before.
    pub fn poll(&self, counter: &TickCounter) -> (step: SleepStep)
        ensures
            step == (if self.target < counter@ {
                SleepStep::Wake
            } else {
                SleepStep::Halt
            }),
    {
        if self.target < counter.count {
            SleepStep::Wake
        } else {
            SleepStep::Halt
        }
    }
}

/// A sleep that does not wait.
pub fn soft_sleep(ticks: usize) {
}

} // verus!
