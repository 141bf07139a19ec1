use dnstest::engine::concurrency_level;
use dnstest::engine::sample_of_outcome;
use dnstest::engine::WorkQueue;
use dnstest::engine::FAILURE_SENTINEL;

#[test]
fn concurrency_level_is_min_of_ten_and_queries() {
    assert_eq!(concurrency_level(1), 1);
    assert_eq!(concurrency_level(5), 5);
    assert_eq!(concurrency_level(9), 9);
    assert_eq!(concurrency_level(10), 10);
    assert_eq!(concurrency_level(11), 10);
    assert_eq!(concurrency_level(100), 10);
    assert_eq!(concurrency_level(u64::MAX), 10);
}

#[test]
fn concurrency_level_stays_between_one_and_ten() {
    for queries in 1..=50u64 {
        let w = concurrency_level(queries);
        assert!(1 <= w && w <= 10, "W out of range for queries={queries}");
    }
}

#[test]
fn concurrency_level_of_zero_queries_is_zero() {
    assert_eq!(concurrency_level(0), 0);
}

#[test]
fn successful_lookup_keeps_its_elapsed_time() {
    assert_eq!(sample_of_outcome(Some(7)), 7);
    assert_eq!(sample_of_outcome(Some(0)), 0);
    assert_eq!(sample_of_outcome(Some(123_456)), 123_456);
}

#[test]
fn failed_lookup_becomes_the_sentinel() {
    assert_eq!(sample_of_outcome(None), FAILURE_SENTINEL);
    assert_eq!(FAILURE_SENTINEL, u64::MAX);
}

#[test]
fn work_queue_pops_until_drained() {
    let domains = vec![
        "a.example".to_string(),
        "b.example".to_string(),
        "c.example".to_string(),
    ];
    let mut q = WorkQueue::new(domains);
    assert_eq!(q.len(), 3);
    assert_eq!(q.pop().as_deref(), Some("c.example"));
    assert_eq!(q.pop().as_deref(), Some("b.example"));
    assert_eq!(q.len(), 1);
    assert_eq!(q.pop().as_deref(), Some("a.example"));
    assert_eq!(q.pop(), None);
    assert_eq!(q.pop(), None);
    assert_eq!(q.len(), 0);
}

#[test]
fn empty_work_queue_pops_nothing() {
    let mut q = WorkQueue::new(Vec::new());
    assert_eq!(q.len(), 0);
    assert_eq!(q.pop(), None);
}

#[test]
fn a_drained_queue_yields_query_count_samples_per_domain() {
    // A single sequential worker: pop each domain, record `queries` samples
    // for it, then aggregate — the shape of one server's run.
    let queries = 3u64;
    let domains = vec!["a.example".to_string(), "b.example".to_string()];
    let mut q = WorkQueue::new(domains.clone());
    let mut samples: Vec<u64> = Vec::new();
    let mut lookups = 0u64;
    while let Some(_host) = q.pop() {
        for _ in 0..queries {
            lookups += 1;
            // Every second lookup fails.
            let outcome = if lookups % 2 == 0 { None } else { Some(10 * lookups) };
            samples.push(sample_of_outcome(outcome));
        }
    }
    assert_eq!(lookups, queries * domains.len() as u64);
    assert_eq!(samples.len(), 6);
    let dns = dnstest::DNS { name: "S".to_string(), ips: vec!["10.0.0.1:53".to_string()] };
    let r = dnstest::stats::aggregate(&dns, &samples);
    assert_eq!(r.min, 10);
    assert_eq!(r.max, FAILURE_SENTINEL);
    assert_eq!(r.avg.den, 6);
}
