use dnstest::engine::FAILURE_SENTINEL;
use dnstest::stats::aggregate;
use dnstest::stats::mean_le;
use dnstest::stats::Mean;
use dnstest::table::format_mean;
use dnstest::DNS;

fn server(name: &str, ips: &[&str]) -> DNS {
    DNS { name: name.to_string(), ips: ips.iter().map(|s| s.to_string()).collect() }
}

fn mean_of(whole: u64) -> Mean {
    Mean { whole, num: 0, den: 1 }
}

#[test]
fn three_successful_lookups_aggregate_exactly() {
    let dns = server("A", &["10.0.0.1:53"]);
    let samples = vec![100u64, 200, 300];
    let r = aggregate(&dns, &samples);
    assert_eq!(r.dns.name, "A");
    assert_eq!(r.min, 100);
    assert_eq!(r.max, 300);
    assert_eq!(r.avg, Mean { whole: 200, num: 0, den: 3 });
    assert_eq!(format_mean(&r.avg), "200.00");
}

#[test]
fn sentinel_failure_is_included_and_dominates_max() {
    // Policy: failures enter the statistics as the sentinel value, so with
    // one failure and one success at 50 the maximum IS the sentinel. A
    // silent change of that policy must trip this test.
    let dns = server("B", &["10.0.0.2:53"]);
    let samples = vec![FAILURE_SENTINEL, 50];
    let r = aggregate(&dns, &samples);
    assert_eq!(r.min, 50);
    assert_eq!(r.max, FAILURE_SENTINEL);
    // The exact mean of {2^64 - 1, 50} is (2^64 + 49) / 2.
    assert_eq!(r.avg, Mean { whole: 9_223_372_036_854_775_832, num: 1, den: 2 });
}

#[test]
fn excluding_the_sentinel_instead_would_leave_the_success() {
    // The other reading of the policy question: statistics over the
    // successful samples only. The aggregator itself does not filter; this
    // pins what a filtering caller would get.
    let dns = server("B", &["10.0.0.2:53"]);
    let successes: Vec<u64> = vec![FAILURE_SENTINEL, 50]
        .into_iter()
        .filter(|s| *s != FAILURE_SENTINEL)
        .collect();
    let r = aggregate(&dns, &successes);
    assert_eq!(r.min, 50);
    assert_eq!(r.max, 50);
    assert_eq!(r.avg, Mean { whole: 50, num: 0, den: 1 });
}

#[test]
fn empty_sample_collection_aggregates_to_zero() {
    let dns = server("C", &["10.0.0.3:53"]);
    let samples: Vec<u64> = Vec::new();
    let r = aggregate(&dns, &samples);
    assert_eq!(r.min, 0);
    assert_eq!(r.max, 0);
    assert_eq!(r.avg, Mean { whole: 0, num: 0, den: 1 });
    assert_eq!(format_mean(&r.avg), "0.00");
}

#[test]
fn min_is_at_most_mean_is_at_most_max() {
    let dns = server("D", &["10.0.0.4:53"]);
    for samples in [
        vec![100u64, 200, 300],
        vec![42],
        vec![7, 7, 7],
        vec![1, u64::MAX],
        vec![FAILURE_SENTINEL, 50],
        vec![0, 1, 2, 3, 4, 5],
    ] {
        let r = aggregate(&dns, &samples);
        assert!(mean_le(&mean_of(r.min), &r.avg), "min > mean for {samples:?}");
        assert!(mean_le(&r.avg, &mean_of(r.max)), "mean > max for {samples:?}");
    }
}

#[test]
fn single_sample_is_its_own_statistics() {
    let dns = server("E", &["10.0.0.5:53"]);
    let r = aggregate(&dns, &vec![42u64]);
    assert_eq!(r.min, 42);
    assert_eq!(r.max, 42);
    assert_eq!(r.avg, Mean { whole: 42, num: 0, den: 1 });
}

#[test]
fn mean_comparison_orders_by_value() {
    let a = Mean { whole: 1, num: 1, den: 3 }; // 1.333...
    let b = Mean { whole: 1, num: 1, den: 2 }; // 1.5
    let c = Mean { whole: 2, num: 0, den: 1 }; // 2
    assert!(mean_le(&a, &b));
    assert!(!mean_le(&b, &a));
    assert!(mean_le(&b, &c));
    assert!(mean_le(&a, &c));
    assert!(mean_le(&a, &a));
    // Equal values with different denominators.
    let half = Mean { whole: 0, num: 1, den: 2 };
    let two_quarters = Mean { whole: 0, num: 2, den: 4 };
    assert!(mean_le(&half, &two_quarters));
    assert!(mean_le(&two_quarters, &half));
}
