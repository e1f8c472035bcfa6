use fwconsole_core::poller::FetchError;
use fwconsole_core::traffic::{Metric, TrafficCache, TrafficError, TrafficSample};

fn sample(iface: &str, ts: u64, bytes: u64, packets: u64) -> TrafficSample {
    TrafficSample {
        interface: iface.to_string(),
        timestamp: ts,
        bytes_in: bytes,
        bytes_out: 0,
        packets_in: packets,
        packets_out: 0,
    }
}

#[test]
fn top_by_bytes_picks_busiest() {
    let mut cache = TrafficCache::new(10, 1000);
    cache.update(&sample("eth0", 1, 100, 9));
    cache.update(&sample("eth1", 1, 500, 1));
    assert_eq!(cache.get_top(1, Metric::Bytes), vec!["eth1".to_string()]);
    assert_eq!(cache.get_top(5, Metric::Bytes), vec!["eth1".to_string(), "eth0".to_string()]);
    assert_eq!(cache.get_top(5, Metric::Packets), vec!["eth0".to_string(), "eth1".to_string()]);
    assert_eq!(cache.get_top(0, Metric::Bytes), Vec::<String>::new());
}

#[test]
fn top_ties_break_by_name() {
    let mut cache = TrafficCache::new(10, 1000);
    cache.update(&sample("wan", 1, 300, 0));
    cache.update(&sample("lan", 1, 300, 0));
    cache.update(&sample("lan0", 1, 300, 0));
    cache.update(&sample("dmz", 1, 50, 0));
    assert_eq!(
        cache.get_top(3, Metric::Bytes),
        vec!["lan".to_string(), "lan0".to_string(), "wan".to_string()]
    );
}

#[test]
fn top_uses_latest_sample_and_both_directions() {
    let mut cache = TrafficCache::new(10, 1000);
    cache.update(&sample("a", 1, 1000, 0));
    cache.update(&sample("a", 2, 10, 0));
    let mut b = sample("b", 2, 10, 0);
    b.bytes_out = 5;
    cache.update(&b);
    assert_eq!(cache.get_top(1, Metric::Bytes), vec!["b".to_string()]);
}

#[test]
fn top_handles_counters_near_the_limit() {
    let mut cache = TrafficCache::new(10, 1000);
    let mut big = sample("big", 1, u64::MAX, 0);
    big.bytes_out = u64::MAX;
    cache.update(&big);
    cache.update(&sample("small", 1, u64::MAX, 0));
    assert_eq!(cache.get_top(1, Metric::Bytes), vec!["big".to_string()]);
}

#[test]
fn window_drops_oldest() {
    let mut cache = TrafficCache::new(3, 1000);
    for ts in 1..=5u64 {
        cache.update(&sample("eth0", ts, ts * 10, ts));
        assert!(cache.sample_count(&"eth0".to_string()) <= 3);
    }
    let all = cache.get_series(&"eth0".to_string(), 0, u64::MAX);
    let stamps: Vec<u64> = all.iter().map(|s| s.timestamp).collect();
    assert_eq!(stamps, vec![3, 4, 5]);
}

#[test]
fn current_sample_or_no_data() {
    let mut cache = TrafficCache::new(3, 1000);
    assert_eq!(cache.get_current(&"eth0".to_string()).map(|s| s.timestamp), Err(TrafficError::NoData));
    cache.update(&sample("eth0", 7, 1, 1));
    cache.update(&sample("eth0", 8, 2, 2));
    let cur = cache.get_current(&"eth0".to_string()).unwrap();
    assert_eq!(cur.timestamp, 8);
    assert_eq!(cur.bytes_in, 2);
    assert!(cache.get_current(&"eth1".to_string()).is_err());
}

#[test]
fn series_stays_inside_window() {
    let mut cache = TrafficCache::new(10, 1000);
    for ts in [5u64, 10, 15, 20, 25] {
        cache.update(&sample("eth0", ts, 1, 1));
    }
    let s = cache.get_series(&"eth0".to_string(), 10, 20);
    let stamps: Vec<u64> = s.iter().map(|x| x.timestamp).collect();
    assert_eq!(stamps, vec![10, 15, 20]);
    assert!(cache.get_series(&"eth0".to_string(), 30, 40).is_empty());
    assert!(cache.get_series(&"eth9".to_string(), 0, 100).is_empty());
}

#[test]
fn ticks_merge_only_while_running() {
    let mut cache = TrafficCache::new(4, 1000);
    let ticket = cache.start_polling(1000);
    assert!(cache.apply_tick(ticket, Ok(vec![sample("eth0", 1, 1, 1), sample("eth1", 1, 2, 2)])));
    assert!(cache.apply_tick(ticket, Err(FetchError::Network)));
    assert_eq!(cache.last_poll_error(), Some(FetchError::Network));
    cache.stop_polling();
    assert!(!cache.is_polling());
    assert!(!cache.apply_tick(ticket, Ok(vec![sample("eth0", 2, 1, 1)])));
    assert_eq!(cache.sample_count(&"eth0".to_string()), 1);
    assert_eq!(cache.last_poll_error(), Some(FetchError::Network));
    cache.clear_cache();
    assert_eq!(cache.sample_count(&"eth1".to_string()), 0);
    assert_eq!(cache.last_poll_error(), None);
}
