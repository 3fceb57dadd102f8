//! The watch over a search: when to print statistics, when to ask for the
//! latest block, and when to call the search off.
use vstd::prelude::*;

use crate::chain;

verus! {

/// Milliseconds between two looks at the flags.
pub const TICK_MILLIS: u64 = 500;

/// Milliseconds between two lines of statistics.
pub const STATS_MILLIS: u64 = 2_000;

/// Milliseconds between two questions for the latest block.
pub const POLL_MILLIS: u64 = 15_000;

/// What a watch over a search of one epoch remembers.
#[derive(Clone, Copy, Debug, PartialEq, Eq, Structural)]
pub struct Watchdog {
    pub target_epoch: u64,
    pub last_attempts: u64,
}

/// What is to be done after a look at the flags and the clock.
#[derive(Clone, Copy, Debug, PartialEq, Eq, Structural)]
pub enum Tick {
    /// The search is over: stop watching.
    Leave,
    /// A shutdown was asked for: call the search off and stop watching.
    CallOff,
    /// Go on: print statistics with this many new attempts, if any are given,
    /// and then ask for the latest block, if so told.
    Watch { stats: Option<u64>, poll: bool },
}

/// What the latest block means for a search.
#[derive(Clone, Copy, Debug, PartialEq, Eq, Structural)]
pub enum Poll {
    /// There was no answer: go on.
    Failed,
    /// The epoch still lasts: go on.
    SameEpoch,
    /// Another epoch has begun: call the search off and stop watching.
    NewEpoch(u64),
}

/// How much a counter has grown, or 0 where it has shrunk.
pub open spec fn growth(last: u64, now: u64) -> nat {
    if now >= last {
        (now - last) as nat
    } else {
        0
    }
}

impl Watchdog {
    pub fn new(target_epoch: u64) -> (r: Watchdog)
        ensures
            r == (Watchdog { target_epoch, last_attempts: 0 }),
    {
        Watchdog { target_epoch, last_attempts: 0 }
    }

    /// Takes in the two flags, the milliseconds since the last statistics and
    /// since the last question for a block, and the attempts so far.
    pub fn tick(
        &mut self,
        stop: bool,
        shutdown: bool,
        since_stats: u64,
        since_poll: u64,
        attempts: u64,
    ) -> (r: Tick)
        ensures
            stop ==> r == Tick::Leave,
            !stop && shutdown ==> r == Tick::CallOff,
            !stop && !shutdown ==> {
                &&& r matches Tick::Watch { stats, poll }
                &&& poll == (since_poll >= POLL_MILLIS)
                &&& stats is Some == (since_stats >= STATS_MILLIS)
                &&& stats matches Some(new) ==> new == growth(old(self).last_attempts, attempts)
                &&& stats matches Some(new) ==> (old(self).last_attempts <= attempts ==> old(
                    self,
                ).last_attempts + new == attempts)
            },
            *final(self) == if r matches Tick::Watch { stats: Some(_), .. } {
                Watchdog { last_attempts: attempts, ..*old(self) }
            } else {
                *old(self)
            },
    {
        if stop {
            return Tick::Leave;
        }
        if shutdown {
            return Tick::CallOff;
        }
        let mut stats: Option<u64> = None;
        if since_stats >= STATS_MILLIS {
            stats = Some(attempts.saturating_sub(self.last_attempts));
            self.last_attempts = attempts;
        }
        Tick::Watch { stats, poll: since_poll >= POLL_MILLIS }
    }

    /// Takes in the number of the latest block.
    pub fn on_poll(&self, block: Option<u64>) -> (r: Poll)
        ensures
            r == match block {
                None => Poll::Failed,
                Some(b) => if b / chain::EPOCH_BLOCKS == self.target_epoch {
                    Poll::SameEpoch
                } else {
                    Poll::NewEpoch(b / chain::EPOCH_BLOCKS)
                },
            },
    {
        match block {
            None => Poll::Failed,
            Some(b) => {
                let epoch: u64 = chain::epoch_of(b);
                if epoch == self.target_epoch {
                    Poll::SameEpoch
                } else {
                    Poll::NewEpoch(epoch)
                }
            },
        }
    }
}

/// The growth from one reading of a counter to the next, summed up, where the
/// counter starts from 0.
pub open spec fn total_growth(readings: Seq<u64>) -> nat
    decreases readings.len(),
{
    if readings.len() == 0 {
        0
    } else if readings.len() == 1 {
        growth(0, readings[0])
    } else {
        total_growth(readings.drop_last()) + growth(
            readings[readings.len() - 2],
            readings.last(),
        )
    }
}

/// The statistics leave no attempt out and count none twice: over a counter
/// that never shrinks they add up to its last reading.
pub proof fn law_statistics_add_up(readings: Seq<u64>)
    requires
        readings.len() > 0,
        forall|i: int, j: int| 0 <= i <= j < readings.len() ==> readings[i] <= readings[j],
    ensures
        total_growth(readings) == readings.last(),
    decreases readings.len(),
{
    if readings.len() > 1 {
        law_statistics_add_up(readings.drop_last());
    }
}

/// What a counter has grown by leads from the last reading to this one, and a
/// counter that has shrunk has not grown.
pub proof fn law_growth(last: u64, now: u64)
    ensures
        last <= now ==> last + growth(last, now) == now,
        now < last ==> growth(last, now) == 0,
{
}

/// There are two looks at the flags in a second, statistics every two seconds,
/// and a question for the latest block every fifteen.
pub proof fn law_intervals(seconds: nat)
    ensures
        2 * seconds * TICK_MILLIS == seconds * 1000,
        seconds * STATS_MILLIS == 2 * seconds * 1000,
        seconds * POLL_MILLIS == 15 * seconds * 1000,
{
}

} // verus!
