use jitter_sampler::{busy_loop, capture_jitter, Jitter, ProgramArgs, Sampler};

fn args(duration_seconds: i64, report_interval_millis: i64) -> ProgramArgs {
    let mut a = ProgramArgs::default();
    a.duration_seconds = duration_seconds;
    a.report_interval_millis = report_interval_millis;
    a.local_hostname = "host1".to_string();
    a
}

/// Drives a sampler from a scripted clock, as the program drives it from a real one.
fn run(a: &ProgramArgs, mut clock: impl FnMut() -> i64) -> Sampler {
    let mut s = Sampler::new(a, clock());
    while !s.is_done() {
        let now = clock();
        if s.poll(now) {
            let again = clock();
            s.resync(again);
        }
    }
    s
}

fn stepping(start: i64, step: i64) -> impl FnMut() -> i64 {
    let mut t = start - step;
    move || {
        t += step;
        t
    }
}

#[test]
fn default_args() {
    let a = ProgramArgs::default();
    assert_eq!(a.duration_seconds, 0);
    assert!(a.lapic_enabled);
    assert!(!a.mlock_enabled);
    assert!(a.cpus.is_empty());
    assert!(!a.is_valid());
}

#[test]
fn sample_count_truncates() {
    assert_eq!(args(1, 100).sample_count(), 10);
    assert_eq!(args(1, 300).sample_count(), 3);
    assert_eq!(args(10, 1000).sample_count(), 10);
}

#[test]
fn validity() {
    assert!(args(1, 100).is_valid());
    assert!(args(0, 100).is_valid());
    assert!(!args(-1, 100).is_valid());
    assert!(!args(1, 0).is_valid());
    assert!(!args(i64::MAX, 100).is_valid());
}

#[test]
fn full_run_fills_every_window() {
    let a = args(1, 100);
    let start = 1_000_000;
    let s = run(&a, stepping(start, 7_000_000));
    let published = s.published();
    assert_eq!(published.len(), a.sample_count());
    let ms = [105, 203, 301, 406, 504, 602, 707, 805, 903, 1001];
    for (k, j) in published.iter().enumerate() {
        assert_eq!(j.ts, start + ms[k] * 1_000_000);
        assert_eq!(j.latency, 7_000_000);
        assert_ne!(j.ts, 0);
    }
}

#[test]
fn timestamps_never_decrease() {
    let a = args(2, 50);
    let s = run(&a, stepping(123, 3_333_333));
    let published = s.published();
    assert!(!published.is_empty());
    for w in published.windows(2) {
        assert!(w[0].ts <= w[1].ts);
    }
}

#[test]
fn worst_latency_covers_every_delay() {
    // deltas of 1 ms with one spike of 37 ms in the second window
    let a = args(1, 100);
    let mut t: i64 = 0;
    let mut n: i64 = 0;
    let clock = move || {
        n += 1;
        t += if n == 150 { 37_000_000 } else { 1_000_000 };
        t
    };
    let s = run(&a, clock);
    let published = s.published();
    assert!(published.len() >= 2);
    assert_eq!(published[0].latency, 1_000_000);
    assert_eq!(published[1].latency, 37_000_000);
    for j in published.iter().skip(2) {
        assert_eq!(j.latency, 1_000_000);
    }
}

#[test]
fn partial_last_window_is_dropped() {
    let a = args(1, 300);
    let s = run(&a, stepping(10, 1_000_000));
    let published = s.published();
    assert!(published.len() <= 3);
    assert_eq!(s.results.len(), 3);
    for j in published.iter() {
        assert!(j.ts <= 10 + 1_000_000_000 + 1_000_000);
    }
}

#[test]
fn unreached_slots_stay_zero() {
    let a = args(1, 100);
    let mut s = Sampler::new(&a, 5);
    assert!(!s.poll(50_000_005));
    assert!(s.poll(100_000_006));
    s.resync(100_000_007);
    assert_eq!(s.count, 1);
    assert_eq!(s.results[0], Jitter { ts: 100_000_006, latency: 50_000_001 });
    assert_eq!(s.results[1], Jitter { ts: 0, latency: 0 });
    assert_eq!(s.published(), vec![Jitter { ts: 100_000_006, latency: 50_000_001 }]);
    assert_eq!(s.previous, 100_000_007);
}

#[test]
fn window_boundary_moves_by_one_interval() {
    let a = args(1, 100);
    let mut s = Sampler::new(&a, 0);
    assert_eq!(s.next_report, 100_000_000);
    assert!(s.poll(250_000_000));
    assert_eq!(s.next_report, 200_000_000);
    assert!(s.poll(250_000_001));
    assert_eq!(s.next_report, 300_000_000);
    assert_eq!(s.count, 2);
    assert_eq!(s.results[1], Jitter { ts: 250_000_001, latency: 1 });
}

#[test]
fn reading_on_the_boundary_does_not_close() {
    let a = args(1, 100);
    let mut s = Sampler::new(&a, 0);
    assert!(!s.poll(100_000_000));
    assert!(s.poll(100_000_001));
}

#[test]
fn done_at_deadline() {
    let a = args(1, 100);
    let mut s = Sampler::new(&a, 0);
    assert!(!s.is_done());
    s.poll(999_999_999);
    assert!(!s.is_done());
    s.poll(1_000_000_000);
    assert!(s.is_done());
}

#[test]
fn trace_run_matches_live_driver() {
    let a = args(1, 100);
    let trace: Vec<i64> = (0..200i64).map(|n| 1_000_000 + n * 7_000_000).collect();
    let s = busy_loop(&a, &trace);
    let live = run(&a, stepping(1_000_000, 7_000_000));
    assert_eq!(s.published(), live.published());
    assert_eq!(s.count, 10);
    assert!(s.is_done());
}

#[test]
fn trace_shorter_than_run_stops_early() {
    let a = args(1, 100);
    let trace = vec![0, 50_000_000, 100_000_001, 100_000_002, 150_000_000];
    let s = busy_loop(&a, &trace);
    assert!(!s.is_done());
    assert_eq!(s.published(), vec![Jitter { ts: 100_000_001, latency: 50_000_001 }]);
    assert_eq!(s.previous, 150_000_000);
}

#[test]
fn reading_exactly_at_deadline_leaves_last_window_open() {
    let a = args(1, 100);
    let mut trace = vec![0i64];
    for k in 1..10i64 {
        trace.push(k * 100_000_000 + 50_000_000);
        trace.push(k * 100_000_000 + 50_000_001);
    }
    trace.push(1_000_000_000);
    let s = busy_loop(&a, &trace);
    assert!(s.is_done());
    assert_eq!(s.count, 9);
    assert_eq!(s.results[9], Jitter { ts: 0, latency: 0 });
}

fn thirty_ms_trace(late_from: i64) -> Vec<i64> {
    (0..60i64)
        .map(|k| 1 + 30_000_000 * k + if k >= late_from { 5_000_000 } else { 0 })
        .collect()
}

#[test]
fn fixed_trace_closes_on_interval_boundaries() {
    let a = args(1, 100);
    let s = busy_loop(&a, &thirty_ms_trace(1000));
    let ts: Vec<i64> = s.published().iter().map(|j| j.ts).collect();
    assert_eq!(
        ts,
        vec![
            120000001, 210000001, 330000001, 420000001, 510000001, 630000001, 720000001,
            810000001, 930000001, 1020000001
        ]
    );
    assert!(s.published().iter().all(|j| j.latency == 30_000_000));
    assert!(s.is_done());
}

#[test]
fn late_step_counts_in_its_window() {
    let a = args(1, 100);
    let s = busy_loop(&a, &thirty_ms_trace(6));
    let lat: Vec<i64> = s.published().iter().map(|j| j.latency).collect();
    let mut expected = vec![30_000_000i64; 10];
    expected[1] = 35_000_000;
    assert_eq!(lat, expected);
    assert_eq!(s.published()[1].ts, 215000001);
}

#[test]
fn delay_before_resync_counts_in_no_window() {
    let a = args(1, 100);
    let s = busy_loop(&a, &thirty_ms_trace(5));
    let p = s.published();
    assert_eq!(p.len(), 10);
    assert!(p.iter().all(|j| j.latency == 30_000_000));
    assert_eq!(p[0].ts, 120000001);
    assert_eq!(p[1].ts, 215000001);
}

#[test]
fn fixed_trace_published_body() {
    let a = args(1, 100);
    let s = busy_loop(&a, &thirty_ms_trace(1000));
    let bodies = capture_jitter(2, &a, &s);
    assert_eq!(bodies.len(), 1);
    let text = String::from_utf8(bodies[0].clone()).unwrap();
    assert_eq!(text.lines().count(), 10);
    assert!(text.starts_with("jitter,host=host1,cpu=2 jitter=30000000 120000001\n"));
    assert!(text.ends_with("jitter,host=host1,cpu=2 jitter=30000000 1020000001\n"));
}

#[test]
fn zero_duration_run_records_nothing() {
    let a = args(0, 100);
    assert_eq!(a.sample_count(), 0);
    let s = busy_loop(&a, &vec![5, 6, 7]);
    assert!(s.is_done());
    assert_eq!(s.count, 0);
    assert_eq!(capture_jitter(0, &a, &s), vec![Vec::<u8>::new()]);
}
