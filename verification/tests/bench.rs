use lantern_boot::bench::{Bench, Counters, Narration, Summary, BENCH_ROUND_TRIPS};
use lantern_boot::trap::Syscall;

fn at(n: u64) -> Counters {
    Counters { cycle: n, instret: n + 1000 }
}

/// One round trip: a call at `start`, its reply dispatched at `end`.
fn round_trip(bench: &mut Bench, start: Counters, end: Counters) -> Option<Narration> {
    bench.trap_entered(Syscall::Call, start);
    bench.trap_dispatched(Syscall::Call, 21, 0, start);
    bench.trap_entered(Syscall::Recv, start);
    bench.trap_dispatched(Syscall::Recv, 0, 21, start);
    bench.trap_entered(Syscall::Reply, start);
    bench.trap_dispatched(Syscall::Reply, 42, 42, end)
}

#[test]
fn the_warm_up_is_narrated() {
    let mut bench = Bench::new();
    bench.trap_entered(Syscall::Call, at(5));
    assert_eq!(
        bench.trap_dispatched(Syscall::Call, 21, 0, at(6)),
        Some(Narration::Called { payload: 21 })
    );
    bench.trap_entered(Syscall::Recv, at(7));
    assert_eq!(
        bench.trap_dispatched(Syscall::Recv, 0, 21, at(8)),
        Some(Narration::Received { payload: 21 })
    );
    bench.trap_entered(Syscall::Reply, at(9));
    assert_eq!(
        bench.trap_dispatched(Syscall::Reply, 42, 43, at(10)),
        Some(Narration::WarmedUp { reply: 42, resumed_with: 43 })
    );
    assert_eq!(bench.completed, 1);
    assert_eq!(bench.cycles.sum, 0);
    bench.trap_entered(Syscall::Call, at(11));
    assert_eq!(bench.trap_dispatched(Syscall::Call, 21, 0, at(12)), None);
    assert_eq!(bench.trap_dispatched(Syscall::Recv, 0, 21, at(13)), None);
    assert_eq!(bench.trap_dispatched(Syscall::Signal, 1, 1, at(14)), None);
    assert_eq!(bench.trap_dispatched(Syscall::Other, 1, 1, at(14)), None);
}

#[test]
fn the_summary_is_of_the_timed_round_trips() {
    let mut bench = Bench::new();
    // The warm-up takes long and does not count.
    round_trip(&mut bench, at(0), at(1_000_000));
    for i in 0..(BENCH_ROUND_TRIPS as u64) {
        let said = round_trip(
            &mut bench,
            at(10 * i),
            Counters { cycle: 10 * i + 100 + i, instret: 10 * i + 1000 + 7 },
        );
        if i + 1 < BENCH_ROUND_TRIPS as u64 {
            assert_eq!(said, None);
        } else {
            assert_eq!(
                said,
                Some(Narration::Done {
                    cycles: Summary { min: 100, avg: 1099, max: 2099 },
                    instret: Summary { min: 7, avg: 7, max: 7 },
                })
            );
        }
    }
    assert!(bench.done);
    assert_eq!(bench.completed, 2001);
}

#[test]
fn the_summary_is_reported_once() {
    let mut bench = Bench::new();
    let mut reports = 0;
    for i in 0..2009 {
        if let Some(Narration::Done { .. }) = round_trip(&mut bench, at(i), at(i + 3)) {
            assert_eq!(i, 2000);
            reports += 1;
        }
    }
    assert_eq!(reports, 1);
    let before = bench;
    assert_eq!(round_trip(&mut bench, at(0), at(9)), None);
    assert_eq!(bench.cycles, before.cycles);
    assert_eq!(bench.instret, before.instret);
    assert_eq!(bench.completed, 2001);
}

#[test]
fn lost_round_trips_only_delay_the_summary() {
    let mut bench = Bench::new();
    let mut reported_at = None;
    for i in 0..2009u64 {
        if (1..9).contains(&i) {
            // The call is made, but no reply comes.
            bench.trap_entered(Syscall::Call, at(i));
            bench.trap_dispatched(Syscall::Call, 21, 0, at(i));
            continue;
        }
        if let Some(Narration::Done { .. }) = round_trip(&mut bench, at(i), at(i + 1)) {
            reported_at = Some(i);
        }
    }
    assert_eq!(reported_at, Some(2008));
}

#[test]
fn counters_may_wrap() {
    let mut bench = Bench::new();
    round_trip(&mut bench, at(0), at(0));
    round_trip(
        &mut bench,
        Counters { cycle: u64::MAX - 1, instret: u64::MAX },
        Counters { cycle: 3, instret: u64::MAX },
    );
    assert_eq!((bench.cycles.min, bench.cycles.max, bench.cycles.sum), (5, 5, 5));
    assert_eq!((bench.instret.min, bench.instret.max, bench.instret.sum), (0, 0, 0));
}

#[test]
fn the_largest_times_do_not_overflow() {
    let mut bench = Bench::new();
    round_trip(&mut bench, at(0), at(0));
    let mut last = None;
    for _ in 0..2000 {
        last = round_trip(
            &mut bench,
            Counters { cycle: 1, instret: 0 },
            Counters { cycle: 0, instret: u64::MAX },
        );
    }
    let largest = Summary { min: u64::MAX, avg: u64::MAX, max: u64::MAX };
    assert_eq!(last, Some(Narration::Done { cycles: largest, instret: largest }));
}
