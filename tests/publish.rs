use jitter_sampler::{
    capture_jitter, publish_results, write_url, Jitter, ProgramArgs, Sampler,
    BATCH_PUBLISH_THRESHOLD_BYTES,
};

fn args(host: &str) -> ProgramArgs {
    let mut a = ProgramArgs::default();
    a.duration_seconds = 1;
    a.report_interval_millis = 100;
    a.local_hostname = host.to_string();
    a.influx_url = "http://metrics.example:8086".to_string();
    a.influx_db = "latency".to_string();
    a
}

#[test]
fn threshold_is_768_kib() {
    assert_eq!(BATCH_PUBLISH_THRESHOLD_BYTES, 768 * 1024);
}

#[test]
fn one_record_format() {
    let r = publish_results(&args("h1"), 3, vec![Jitter { ts: 1700000000123456789, latency: 2500 }]);
    assert_eq!(r, vec![b"jitter,host=h1,cpu=3 jitter=2500 1700000000123456789\n".to_vec()]);
}

#[test]
fn negative_and_extreme_values() {
    let r = publish_results(&args("box"), 0, vec![Jitter { ts: -42, latency: i64::MIN }]);
    let expected = format!("jitter,host=box,cpu=0 jitter={} -42\n", i64::MIN);
    assert_eq!(r, vec![expected.into_bytes()]);
}

#[test]
fn records_concatenate_in_order() {
    let r = publish_results(
        &args("h"),
        12,
        vec![Jitter { ts: 10, latency: 1 }, Jitter { ts: 20, latency: 0 }],
    );
    assert_eq!(r.len(), 1);
    assert_eq!(
        String::from_utf8(r[0].clone()).unwrap(),
        "jitter,host=h,cpu=12 jitter=1 10\njitter,host=h,cpu=12 jitter=0 20\n"
    );
}

#[test]
fn zero_samples_send_one_empty_batch() {
    let r = publish_results(&args("h1"), 1, Vec::new());
    assert_eq!(r, vec![Vec::<u8>::new()]);
}

#[test]
fn large_runs_are_split_at_threshold() {
    let samples: Vec<Jitter> = (0..40_000i64)
        .map(|i| Jitter { ts: 1_700_000_000_000_000_000 + i, latency: 1000 + i })
        .collect();
    let a = args("node-07");
    let r = publish_results(&a, 5, samples.clone());
    assert!(r.len() > 1);
    for b in &r[..r.len() - 1] {
        assert!(b.len() >= BATCH_PUBLISH_THRESHOLD_BYTES);
    }
    assert!(r[r.len() - 1].len() < BATCH_PUBLISH_THRESHOLD_BYTES);
    let mut all = String::new();
    for s in &samples {
        all.push_str(&format!("jitter,host=node-07,cpu=5 jitter={} {}\n", s.latency, s.ts));
    }
    assert_eq!(r.concat(), all.into_bytes());
}

#[test]
fn url_for_batches() {
    assert_eq!(write_url(&args("h")), "http://metrics.example:8086/write?db=latency");
}

#[test]
fn capture_publishes_only_reached_windows() {
    let a = args("h2");
    let mut s = Sampler::new(&a, 0);
    assert!(s.poll(100_000_010));
    s.resync(100_000_020);
    let r = capture_jitter(7, &a, &s);
    assert_eq!(r, vec![b"jitter,host=h2,cpu=7 jitter=100000010 100000010\n".to_vec()]);
}
