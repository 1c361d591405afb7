//! What the benchmark reports, over a whole run.

use crate::bench::{
    bench_start, dispatched, elapsed, empty_tally, entered, narrated, summary_of, tally_with, Bench,
    Counters, Narration, Summary, Tally, BENCH_ROUND_TRIPS,
};
use crate::trap::Syscall;
use vstd::prelude::*;

verus! {

/// One trap, as the benchmark sees it.
pub struct Trap {
    pub syscall: Syscall,
    pub entered_at: Counters,
    pub incoming: u64,
    pub outgoing: u64,
    pub dispatched_at: Counters,
}

/// The benchmark between a trap's coming in and its dispatch.
pub open spec fn bench_within(traps: Seq<Trap>, i: int) -> Bench {
    entered(bench_after(traps, i), traps[i].syscall, traps[i].entered_at)
}

/// The benchmark after the first `n` traps of a run.
pub open spec fn bench_after(traps: Seq<Trap>, n: int) -> Bench
    decreases n,
{
    if n <= 0 {
        bench_start()
    } else {
        let trap = traps[n - 1];
        dispatched(
            entered(bench_after(traps, n - 1), trap.syscall, trap.entered_at),
            trap.syscall,
            trap.dispatched_at,
        )
    }
}

/// What is said after trap `i` of a run.
pub open spec fn narration_at(traps: Seq<Trap>, i: int) -> Option<Narration> {
    let trap = traps[i];
    narrated(bench_within(traps, i), trap.syscall, trap.incoming, trap.outgoing, trap.dispatched_at)
}

/// What is said is the summary.
pub open spec fn reports_summary(narration: Option<Narration>) -> bool {
    narration is Some && narration->0 is Done
}

/// How many of the first `n` traps are a `Reply`.
pub open spec fn replies(traps: Seq<Trap>, n: int) -> int
    decreases n,
{
    if n <= 0 {
        0
    } else {
        replies(traps, n - 1) + (if traps[n - 1].syscall == Syscall::Reply {
            1int
        } else {
            0
        })
    }
}

/// The counters at the latest `Call` among the first `n` traps.
pub open spec fn latest_call(traps: Seq<Trap>, n: int) -> Counters
    decreases n,
{
    if n <= 0 {
        Counters { cycle: 0, instret: 0 }
    } else if traps[n - 1].syscall == Syscall::Call {
        traps[n - 1].entered_at
    } else {
        latest_call(traps, n - 1)
    }
}

/// Trap `i` finishes a timed round trip: it is a `Reply`, not the first, and
/// not past the last that counts.
pub open spec fn finishes_timed(traps: Seq<Trap>, i: int) -> bool {
    traps[i].syscall == Syscall::Reply && 1 <= replies(traps, i) <= 2000
}

/// The time from one reading of a 64-bit counter to the next, around the end of
/// the counter if need be.
pub open spec fn ticks(start: u64, end: u64) -> u64 {
    ((end - start) % 0x1_0000_0000_0000_0000) as u64
}

/// The measurements of the `cycle` counter in the first `n` traps.
pub open spec fn cycle_samples(traps: Seq<Trap>, n: int) -> Seq<u64>
    decreases n,
{
    if n <= 0 {
        Seq::empty()
    } else if finishes_timed(traps, n - 1) {
        cycle_samples(traps, n - 1).push(
            ticks(latest_call(traps, n - 1).cycle, traps[n - 1].dispatched_at.cycle),
        )
    } else {
        cycle_samples(traps, n - 1)
    }
}

/// The measurements of the `instret` counter in the first `n` traps.
pub open spec fn instret_samples(traps: Seq<Trap>, n: int) -> Seq<u64>
    decreases n,
{
    if n <= 0 {
        Seq::empty()
    } else if finishes_timed(traps, n - 1) {
        instret_samples(traps, n - 1).push(
            ticks(latest_call(traps, n - 1).instret, traps[n - 1].dispatched_at.instret),
        )
    } else {
        instret_samples(traps, n - 1)
    }
}

/// The sum of measurements.
pub open spec fn total(samples: Seq<u64>) -> int
    decreases samples.len(),
{
    if samples.len() == 0 {
        0
    } else {
        total(samples.drop_last()) + samples.last()
    }
}

/// The tally is that of these measurements: their sum, and bounds that, where
/// there are any, are measurements themselves.
pub open spec fn tallies(tally: Tally, samples: Seq<u64>) -> bool {
    &&& tally.sum == total(samples)
    &&& forall|i: int| 0 <= i < samples.len() ==> tally.min <= #[trigger] samples[i] <= tally.max
    &&& samples.len() > 0 ==> samples.contains(tally.min) && samples.contains(tally.max)
    &&& samples.len() == 0 ==> tally == empty_tally()
}

proof fn lemma_total_bound(samples: Seq<u64>)
    ensures
        0 <= total(samples) <= samples.len() * u64::MAX,
    decreases samples.len(),
{
    if samples.len() > 0 {
        lemma_total_bound(samples.drop_last());
    }
}

/// One more measurement.
proof fn lemma_tally_with(tally: Tally, samples: Seq<u64>, sample: u64)
    requires
        tallies(tally, samples),
        samples.len() < BENCH_ROUND_TRIPS,
    ensures
        tallies(tally_with(tally, sample), samples.push(sample)),
{
    let more = samples.push(sample);
    let after = tally_with(tally, sample);
    lemma_total_bound(samples);
    assert(more.drop_last() =~= samples);
    assert(more[samples.len() as int] == sample);
    if samples.len() > 0 {
        let lo = choose|i: int| 0 <= i < samples.len() && samples[i] == tally.min;
        let hi = choose|i: int| 0 <= i < samples.len() && samples[i] == tally.max;
        assert(more[lo] == tally.min);
        assert(more[hi] == tally.max);
    }
    assert forall|i: int| 0 <= i < more.len() implies after.min <= #[trigger] more[i]
        <= after.max by {
        if i < samples.len() {
            assert(more[i] == samples[i]);
        }
    }
}

proof fn lemma_ticks(start: u64, end: u64)
    ensures
        elapsed(start, end) == ticks(start, end),
{
}

/// The state of the benchmark at any time of any run.
proof fn lemma_bench(traps: Seq<Trap>, n: int)
    requires
        0 <= n <= traps.len(),
    ensures
        ({
            let bench = bench_after(traps, n);
            let count = replies(traps, n);
            &&& bench.wf()
            &&& bench.call_start == latest_call(traps, n)
            &&& bench.completed == (if count <= BENCH_ROUND_TRIPS {
                count
            } else {
                BENCH_ROUND_TRIPS + 1
            })
            &&& 0 <= count
            &&& tallies(bench.cycles, cycle_samples(traps, n))
            &&& tallies(bench.instret, instret_samples(traps, n))
            &&& cycle_samples(traps, n).len() == bench.timed()
            &&& instret_samples(traps, n).len() == bench.timed()
        }),
    decreases n,
{
    if n > 0 {
        lemma_bench(traps, n - 1);
        let before = bench_after(traps, n - 1);
        let trap = traps[n - 1];
        if finishes_timed(traps, n - 1) {
            let start = latest_call(traps, n - 1);
            lemma_ticks(start.cycle, trap.dispatched_at.cycle);
            lemma_ticks(start.instret, trap.dispatched_at.instret);
            lemma_tally_with(
                before.cycles,
                cycle_samples(traps, n - 1),
                elapsed(start.cycle, trap.dispatched_at.cycle),
            );
            lemma_tally_with(
                before.instret,
                instret_samples(traps, n - 1),
                elapsed(start.instret, trap.dispatched_at.instret),
            );
            lemma_total_bound(cycle_samples(traps, n));
            lemma_total_bound(instret_samples(traps, n));
        }
    }
}

/// However many traps a run has, the benchmark counts round trips up to the
/// warm-up one and those to be timed, and no further; it is done exactly from
/// then on.
pub proof fn law_counts_up_to_the_target(traps: Seq<Trap>)
    ensures
        ({
            let bench = bench_after(traps, traps.len() as int);
            let count = replies(traps, traps.len() as int);
            &&& bench.wf()
            &&& bench.completed == (if count <= BENCH_ROUND_TRIPS {
                count
            } else {
                BENCH_ROUND_TRIPS + 1
            })
            &&& bench.done <==> count > BENCH_ROUND_TRIPS
        }),
{
    lemma_bench(traps, traps.len() as int);
}

/// The summary is reported exactly once in a run: after the `Reply` that ends
/// the last timed round trip. Later ones are ignored.
pub proof fn law_summary_is_reported_once(traps: Seq<Trap>, i: int)
    requires
        0 <= i < traps.len(),
    ensures
        reports_summary(narration_at(traps, i)) <==> traps[i].syscall == Syscall::Reply && replies(
            traps,
            i,
        ) == BENCH_ROUND_TRIPS,
{
    lemma_bench(traps, i);
}

/// What is reported is the summary of what was measured: the timed round
/// trips, each from its `Call` to its `Reply`, without the warm-up.
pub proof fn law_summary_is_of_the_timed_round_trips(traps: Seq<Trap>, i: int)
    requires
        0 <= i < traps.len(),
        traps[i].syscall == Syscall::Reply,
        replies(traps, i) == BENCH_ROUND_TRIPS,
    ensures
        ({
            let after = bench_after(traps, i + 1);
            &&& narration_at(traps, i) == Some(
                Narration::Done {
                    cycles: summary_of(after.cycles),
                    instret: summary_of(after.instret),
                },
            )
            &&& tallies(after.cycles, cycle_samples(traps, i + 1))
            &&& tallies(after.instret, instret_samples(traps, i + 1))
            &&& cycle_samples(traps, i + 1).len() == BENCH_ROUND_TRIPS
            &&& instret_samples(traps, i + 1).len() == BENCH_ROUND_TRIPS
        }),
{
    lemma_bench(traps, i);
    lemma_bench(traps, i + 1);
}

proof fn lemma_total_between(samples: Seq<u64>, min: int, max: int)
    requires
        forall|i: int| 0 <= i < samples.len() ==> min <= #[trigger] samples[i] <= max,
    ensures
        samples.len() * min <= total(samples) <= samples.len() * max,
    decreases samples.len(),
{
    if samples.len() > 0 {
        let less = samples.drop_last();
        assert forall|i: int| 0 <= i < less.len() implies min <= #[trigger] less[i] <= max by {
            assert(less[i] == samples[i]);
        }
        lemma_total_between(less, min, max);
        assert(min <= samples[samples.len() - 1] <= max);
        assert(samples.len() * min == less.len() * min + min && samples.len() * max == less.len()
            * max + max) by (nonlinear_arith)
            requires
                samples.len() == less.len() + 1,
        ;
    }
}

/// The reported mean lies between the reported extremes.
pub proof fn law_mean_lies_between_the_extremes(tally: Tally, samples: Seq<u64>)
    requires
        samples.len() == BENCH_ROUND_TRIPS,
        tallies(tally, samples),
    ensures
        summary_of(tally).min <= summary_of(tally).avg <= summary_of(tally).max,
        summary_of(tally).avg == total(samples) / 2000,
{
    lemma_total_between(samples, tally.min as int, tally.max as int);
}

/// After the summary nothing changes any more, whatever traps come.
pub proof fn law_done_is_final(bench: Bench, trap: Trap)
    requires
        bench.wf(),
        bench.done,
    ensures
        ({
            let within = entered(bench, trap.syscall, trap.entered_at);
            let after = dispatched(within, trap.syscall, trap.dispatched_at);
            &&& after.done
            &&& after.completed == bench.completed
            &&& after.cycles == bench.cycles
            &&& after.instret == bench.instret
            &&& narrated(
                within,
                trap.syscall,
                trap.incoming,
                trap.outgoing,
                trap.dispatched_at,
            ) is None
        }),
{
}

/// The summary is that of these 2000 measurements: the smallest of them, the
/// largest, and the whole part of their mean.
pub open spec fn summarises(summary: Summary, samples: Seq<u64>) -> bool {
    &&& samples.len() == 2000
    &&& samples.contains(summary.min)
    &&& samples.contains(summary.max)
    &&& forall|i: int|
        0 <= i < samples.len() ==> summary.min <= #[trigger] samples[i] <= summary.max
    &&& summary.avg == total(samples) / 2000
}

/// Each trap is told of exactly as it should be, in every run. Up to the first
/// `Reply` each of the three system calls is told of, with the payload that came
/// in or went out; after it only the `Reply` that ends the last timed round trip
/// is, with the summaries of both counters over the timed round trips, each from
/// its `Call` to its `Reply`.
pub proof fn law_traps_are_told_of(traps: Seq<Trap>, i: int)
    requires
        0 <= i < traps.len(),
    ensures
        ({
            let trap = traps[i];
            let said = narration_at(traps, i);
            let count = replies(traps, i);
            &&& count == 0 ==> match trap.syscall {
                Syscall::Call => said == Some(Narration::Called { payload: trap.incoming }),
                Syscall::Recv => said == Some(Narration::Received { payload: trap.outgoing }),
                Syscall::Reply => said == Some(
                    Narration::WarmedUp { reply: trap.incoming, resumed_with: trap.outgoing },
                ),
                _ => said is None,
            }
            &&& count > 0 && !(trap.syscall == Syscall::Reply && count == 2000) ==> said is None
            &&& trap.syscall == Syscall::Reply && count == 2000 ==> (said matches Some(
                Narration::Done { cycles, instret },
            ) && summarises(cycles, cycle_samples(traps, i + 1)) && summarises(
                instret,
                instret_samples(traps, i + 1),
            ))
        }),
{
    lemma_bench(traps, i);
    lemma_bench(traps, i + 1);
    if traps[i].syscall == Syscall::Reply && replies(traps, i) == 2000 {
        let after = bench_after(traps, i + 1);
        law_summary_is_of_the_timed_round_trips(traps, i);
        law_mean_lies_between_the_extremes(after.cycles, cycle_samples(traps, i + 1));
        law_mean_lies_between_the_extremes(after.instret, instret_samples(traps, i + 1));
    }
}

/// The benchmark is told of each trap twice, and a run begins with a benchmark
/// that has measured nothing: what is told of a run is what `bench_after` and
/// `narration_at` say.
pub proof fn law_run_begins_with_a_new_benchmark(traps: Seq<Trap>, bench: Bench)
    requires
        call_ensures(Bench::new, (), bench),
    ensures
        bench_after(traps, 0) == bench,
        bench.completed == 0,
        !bench.done,
        bench.cycles == (Tally { sum: 0, min: 0xFFFF_FFFF_FFFF_FFFF, max: 0 }),
        bench.instret == bench.cycles,
{
}

} // verus!
