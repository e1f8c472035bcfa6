use fwconsole_core::logs::{LogCache, LogEntry, LogFilter};
use fwconsole_core::poller::FetchError;

fn entry(ts: u64, iface: &str, action: &str, msg: &str) -> LogEntry {
    LogEntry {
        timestamp: ts,
        source: "10.0.0.1".to_string(),
        destination: "10.0.0.2".to_string(),
        interface: iface.to_string(),
        action: action.to_string(),
        protocol: "tcp".to_string(),
        message: msg.to_string(),
    }
}

fn stamps(entries: &[LogEntry]) -> Vec<u64> {
    entries.iter().map(|e| e.timestamp).collect()
}

#[test]
fn capacity_two_evicts_oldest() {
    let mut cache = LogCache::new(2, 1000);
    let a = entry(1, "lan", "pass", "A");
    let b = entry(2, "lan", "pass", "B");
    let c = entry(3, "lan", "pass", "C");
    cache.merge(&vec![a, b]);
    cache.merge(&vec![c]);
    let held = cache.entries();
    assert_eq!(stamps(&held), vec![2, 3]);
    assert_eq!(held[0].message, "B");
    assert_eq!(held[1].message, "C");
}

#[test]
fn merging_twice_inserts_once() {
    let mut cache = LogCache::new(10, 1000);
    let batch = vec![entry(1, "lan", "pass", "x"), entry(2, "wan", "block", "y"), entry(1, "lan", "pass", "x")];
    cache.merge(&batch);
    assert_eq!(cache.len(), 2);
    cache.merge(&batch);
    assert_eq!(cache.len(), 2);
    assert_eq!(stamps(&cache.entries()), vec![1, 2]);
}

#[test]
fn size_never_exceeds_capacity() {
    let mut cache = LogCache::new(3, 1000);
    for round in 0..5u64 {
        let batch: Vec<LogEntry> = (0..4u64).map(|k| entry(round * 10 + k, "lan", "pass", "m")).collect();
        cache.merge(&batch);
        assert!(cache.len() <= 3);
    }
    assert_eq!(stamps(&cache.entries()), vec![41, 42, 43]);
}

#[test]
fn zero_capacity_holds_nothing() {
    let mut cache = LogCache::new(0, 1000);
    cache.merge(&vec![entry(1, "lan", "pass", "m")]);
    assert_eq!(cache.len(), 0);
}

#[test]
fn query_filters_and_pages() {
    let mut cache = LogCache::new(100, 1000);
    let batch = vec![
        entry(1, "lan", "pass", "dns query"),
        entry(2, "wan", "block", "port scan"),
        entry(3, "lan", "block", "dns reply"),
        entry(4, "lan", "pass", "http"),
        entry(5, "opt1", "pass", "dns again"),
    ];
    cache.merge(&batch);
    let mut f = LogFilter::accept_all();
    let all = cache.get_logs(&f, 0, 10);
    assert_eq!(all.total, 5);
    assert_eq!(stamps(&all.entries), vec![1, 2, 3, 4, 5]);

    f.interfaces = vec!["lan".to_string()];
    let page0 = cache.get_logs(&f, 0, 2);
    assert_eq!(page0.total, 3);
    assert_eq!(stamps(&page0.entries), vec![1, 3]);
    let page1 = cache.get_logs(&f, 1, 2);
    assert_eq!(stamps(&page1.entries), vec![4]);
    let page2 = cache.get_logs(&f, 2, 2);
    assert_eq!(page2.entries.len(), 0);
    assert_eq!(page2.total, 3);

    let mut g = LogFilter::accept_all();
    g.search = "dns".to_string();
    g.actions = vec!["pass".to_string()];
    let r = cache.get_logs(&g, 0, 10);
    assert_eq!(stamps(&r.entries), vec![1, 5]);

    let mut h = LogFilter::accept_all();
    h.since = Some(2);
    h.until = Some(4);
    assert_eq!(stamps(&cache.get_logs(&h, 0, 10).entries), vec![2, 3, 4]);

    let huge = cache.get_logs(&LogFilter::accept_all(), usize::MAX, usize::MAX);
    assert_eq!(huge.entries.len(), 0);
    assert_eq!(huge.total, 5);
}

#[test]
fn search_matches_source_and_destination() {
    let mut cache = LogCache::new(10, 1000);
    cache.merge(&vec![entry(1, "lan", "pass", "m")]);
    let mut f = LogFilter::accept_all();
    f.search = "0.0.2".to_string();
    assert_eq!(cache.get_logs(&f, 0, 10).total, 1);
    f.search = "192.168".to_string();
    assert_eq!(cache.get_logs(&f, 0, 10).total, 0);
}

#[test]
fn no_merge_after_stop() {
    let mut cache = LogCache::new(10, 1000);
    let ticket = cache.start_polling(500);
    assert!(cache.is_polling());
    assert!(cache.apply_tick(ticket, Ok(vec![entry(1, "lan", "pass", "a")])));
    cache.stop_polling();
    assert!(!cache.apply_tick(ticket, Ok(vec![entry(2, "lan", "pass", "late")])));
    assert!(!cache.apply_tick(ticket, Err(FetchError::Network)));
    assert_eq!(stamps(&cache.entries()), vec![1]);
    assert_eq!(cache.last_poll_error(), None);
}

#[test]
fn restart_ignores_previous_run() {
    let mut cache = LogCache::new(10, 1000);
    let first = cache.start_polling(500);
    let second = cache.start_polling(250);
    assert_ne!(first, second);
    assert!(!cache.apply_tick(first, Ok(vec![entry(1, "lan", "pass", "old")])));
    assert!(cache.apply_tick(second, Ok(vec![entry(2, "lan", "pass", "new")])));
    assert_eq!(stamps(&cache.entries()), vec![2]);
}

#[test]
fn fetch_errors_are_recorded_then_cleared() {
    let mut cache = LogCache::new(10, 1000);
    let ticket = cache.start_polling(500);
    assert!(cache.apply_tick(ticket, Err(FetchError::Auth)));
    assert_eq!(cache.last_poll_error(), Some(FetchError::Auth));
    assert!(cache.is_polling());
    assert!(cache.apply_tick(ticket, Err(FetchError::Parse)));
    assert_eq!(cache.last_poll_error(), Some(FetchError::Parse));
    assert!(cache.apply_tick(ticket, Ok(vec![entry(1, "lan", "pass", "a")])));
    assert_eq!(cache.last_poll_error(), None);
}

#[test]
fn clear_keeps_poller_running() {
    let mut cache = LogCache::new(10, 1000);
    let ticket = cache.start_polling(500);
    cache.apply_tick(ticket, Err(FetchError::Network));
    cache.merge(&vec![entry(1, "lan", "pass", "a")]);
    cache.clear_cache();
    assert_eq!(cache.len(), 0);
    assert_eq!(cache.last_poll_error(), None);
    assert!(cache.is_current(ticket));
}

#[test]
fn filters_are_replaced() {
    let mut cache = LogCache::new(10, 1000);
    let mut f = LogFilter::accept_all();
    f.actions = vec!["block".to_string()];
    cache.update_filters(f);
    assert_eq!(cache.filters().actions, vec!["block".to_string()]);
    let e = entry(1, "lan", "block", "x");
    assert!(cache.filters().matches(&e));
    assert!(!cache.filters().matches(&entry(1, "lan", "pass", "x")));
}
