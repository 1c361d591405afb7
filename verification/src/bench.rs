//! The IPC latency benchmark.
//!
//! The trap handler reads two counters when a `Call` comes in and again when
//! the matching `Reply` has been dispatched. The first round trip is a warm-up
//! and is not timed; after [`BENCH_ROUND_TRIPS`] more the summary is reported,
//! once. A round trip can get lost, so the programs make a few more than
//! needed, and those are ignored.

use crate::trap::Syscall;
use vstd::prelude::*;

verus! {

/// How many round trips are timed.
pub const BENCH_ROUND_TRIPS: u32 = 2000;

/// A reading of the two counters.
#[derive(Clone, Copy, PartialEq, Eq, Structural, Debug)]
pub struct Counters {
    pub cycle: u64,
    pub instret: u64,
}

/// The sum and the extremes of what was measured.
#[derive(Clone, Copy, PartialEq, Eq, Structural, Debug)]
pub struct Tally {
    pub sum: u128,
    pub min: u64,
    pub max: u64,
}

/// The smallest, the mean and the largest of what was measured.
#[derive(Clone, Copy, PartialEq, Eq, Structural, Debug)]
pub struct Summary {
    pub min: u64,
    pub avg: u64,
    pub max: u64,
}

/// What there is to say on the console after a trap.
#[derive(Clone, Copy, PartialEq, Eq, Structural, Debug)]
pub enum Narration {
    /// The client called with this payload.
    Called { payload: u64 },
    /// A receiver now has this payload.
    Received { payload: u64 },
    /// The warm-up round trip is over.
    WarmedUp { reply: u64, resumed_with: u64 },
    /// All timed round trips are over.
    Done { cycles: Summary, instret: Summary },
}

/// The state of the benchmark between traps.
#[derive(Clone, Copy, PartialEq, Eq, Structural, Debug)]
pub struct Bench {
    /// The counters at the latest `Call`.
    pub call_start: Counters,
    /// Round trips finished, the warm-up one too.
    pub completed: u32,
    /// The summary has been reported.
    pub done: bool,
    pub cycles: Tally,
    pub instret: Tally,
}

/// Nothing measured yet.
pub open spec fn empty_tally() -> Tally {
    Tally { sum: 0, min: u64::MAX, max: 0 }
}

/// The tally with one more measurement.
pub open spec fn tally_with(tally: Tally, sample: u64) -> Tally {
    Tally {
        sum: (tally.sum + sample) as u128,
        min: if sample < tally.min {
            sample
        } else {
            tally.min
        },
        max: if sample > tally.max {
            sample
        } else {
            tally.max
        },
    }
}

/// The time from one reading of a counter to a later one. A counter may wrap
/// around once in between.
pub open spec fn elapsed(start: u64, end: u64) -> u64 {
    if end >= start {
        (end - start) as u64
    } else {
        (end - start + 0x1_0000_0000_0000_0000) as u64
    }
}

/// The summary of a full benchmark.
pub open spec fn summary_of(tally: Tally) -> Summary {
    Summary {
        min: tally.min,
        avg: (tally.sum / (BENCH_ROUND_TRIPS as u128)) as u64,
        max: tally.max,
    }
}

/// Before the first trap.
pub open spec fn bench_start() -> Bench {
    Bench {
        call_start: Counters { cycle: 0, instret: 0 },
        completed: 0,
        done: false,
        cycles: empty_tally(),
        instret: empty_tally(),
    }
}

/// The benchmark when a trap comes in: a `Call` starts the clock.
pub open spec fn entered(bench: Bench, syscall: Syscall, now: Counters) -> Bench {
    if syscall == Syscall::Call {
        Bench { call_start: now, ..bench }
    } else {
        bench
    }
}

/// The benchmark with one more round trip finished at `now`.
pub open spec fn round_trip_finished(bench: Bench, now: Counters) -> Bench {
    let timed = bench.completed > 0;
    Bench {
        call_start: bench.call_start,
        completed: (bench.completed + 1) as u32,
        done: bench.completed == BENCH_ROUND_TRIPS,
        cycles: if timed {
            tally_with(bench.cycles, elapsed(bench.call_start.cycle, now.cycle))
        } else {
            bench.cycles
        },
        instret: if timed {
            tally_with(bench.instret, elapsed(bench.call_start.instret, now.instret))
        } else {
            bench.instret
        },
    }
}

/// The benchmark when a trap has been dispatched: a `Reply` finishes a round
/// trip, unless the benchmark is over.
pub open spec fn dispatched(bench: Bench, syscall: Syscall, now: Counters) -> Bench {
    if syscall == Syscall::Reply && !bench.done {
        round_trip_finished(bench, now)
    } else {
        bench
    }
}

/// What to say when a trap has been dispatched that came in with payload
/// `incoming` and left with payload `outgoing`.
pub open spec fn narrated(
    bench: Bench,
    syscall: Syscall,
    incoming: u64,
    outgoing: u64,
    now: Counters,
) -> Option<Narration> {
    let after = dispatched(bench, syscall, now);
    match syscall {
        Syscall::Call => if bench.completed == 0 {
            Some(Narration::Called { payload: incoming })
        } else {
            None
        },
        Syscall::Recv => if bench.completed == 0 {
            Some(Narration::Received { payload: outgoing })
        } else {
            None
        },
        Syscall::Reply => if bench.done {
            None
        } else if bench.completed == 0 {
            Some(Narration::WarmedUp { reply: incoming, resumed_with: outgoing })
        } else if after.done {
            Some(
                Narration::Done {
                    cycles: summary_of(after.cycles),
                    instret: summary_of(after.instret),
                },
            )
        } else {
            None
        },
        _ => None,
    }
}

impl Tally {
    fn record(&mut self, sample: u64)
        requires
            old(self).sum + sample <= u128::MAX,
        ensures
            *final(self) == tally_with(*old(self), sample),
    {
        self.sum = self.sum + sample as u128;
        if sample < self.min {
            self.min = sample;
        }
        if sample > self.max {
            self.max = sample;
        }
    }

    /// The summary, once all round trips have been timed.
    fn summary(&self) -> (summary: Summary)
        requires
            self.sum <= BENCH_ROUND_TRIPS * u64::MAX,
        ensures
            summary == summary_of(*self),
    {
        let n: u128 = BENCH_ROUND_TRIPS as u128;
        Summary { min: self.min, avg: (self.sum / n) as u64, max: self.max }
    }
}

impl Bench {
    /// How many round trips have been timed.
    pub open spec fn timed(&self) -> int {
        if self.completed == 0 {
            0
        } else {
            self.completed - 1
        }
    }

    /// The state is one that a run of the benchmark can be in.
    pub open spec fn wf(&self) -> bool {
        &&& self.completed <= BENCH_ROUND_TRIPS + 1
        &&& self.done <==> self.completed == BENCH_ROUND_TRIPS + 1
        &&& self.cycles.sum <= self.timed() * u64::MAX
        &&& self.instret.sum <= self.timed() * u64::MAX
    }

    /// A benchmark that has not begun.
    pub fn new() -> (bench: Bench)
        ensures
            bench == bench_start(),
            bench.wf(),
    {
        Bench {
            call_start: Counters { cycle: 0, instret: 0 },
            completed: 0,
            done: false,
            cycles: Tally { sum: 0, min: u64::MAX, max: 0 },
            instret: Tally { sum: 0, min: u64::MAX, max: 0 },
        }
    }

    /// A trap came in at `now`.
    pub fn trap_entered(&mut self, syscall: Syscall, now: Counters)
        requires
            old(self).wf(),
        ensures
            final(self).wf(),
            *final(self) == entered(*old(self), syscall, now),
    {
        if syscall == Syscall::Call {
            self.call_start = now;
        }
    }

    /// A trap that came in with payload `incoming` was dispatched at `now`,
    /// and the thread that runs next has payload `outgoing`.
    pub fn trap_dispatched(
        &mut self,
        syscall: Syscall,
        incoming: u64,
        outgoing: u64,
        now: Counters,
    ) -> (narration: Option<Narration>)
        requires
            old(self).wf(),
        ensures
            final(self).wf(),
            *final(self) == dispatched(*old(self), syscall, now),
            narration == narrated(*old(self), syscall, incoming, outgoing, now),
    {
        let warming_up: bool = self.completed == 0;
        match syscall {
            Syscall::Call => {
                if warming_up {
                    Some(Narration::Called { payload: incoming })
                } else {
                    None
                }
            },
            Syscall::Recv => {
                if warming_up {
                    Some(Narration::Received { payload: outgoing })
                } else {
                    None
                }
            },
            Syscall::Reply => {
                if self.done {
                    return None;
                }
                if !warming_up {
                    self.cycles.record(now.cycle.wrapping_sub(self.call_start.cycle));
                    self.instret.record(now.instret.wrapping_sub(self.call_start.instret));
                }
                self.completed = self.completed + 1;
                if warming_up {
                    return Some(
                        Narration::WarmedUp { reply: incoming, resumed_with: outgoing },
                    );
                }
                if self.completed == BENCH_ROUND_TRIPS + 1 {
                    self.done = true;
                    return Some(
                        Narration::Done {
                            cycles: self.cycles.summary(),
                            instret: self.instret.summary(),
                        },
                    );
                }
                None
            },
            _ => None,
        }
    }
}

} // verus!
