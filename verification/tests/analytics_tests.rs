use blockchain_intelligence::analytics::{
    analytics_worker_step, AnalyticsError, AnalyticsState, WorkerAction, WorkerEvent, ROLLING_WINDOW_SECONDS,
    WHALE_THRESHOLD,
};
use blockchain_intelligence::transaction::Transaction;

fn tx(hash: &str, amount: &str, timestamp: i64) -> Transaction {
    Transaction::new(String::from(hash), String::from("a"), Some(String::from("b")), String::from(amount), timestamp)
}

fn largest_hash(state: &AnalyticsState) -> Option<String> {
    state.snapshot().largest_transaction.map(|t| t.hash)
}

#[test]
fn default_is_empty() {
    let s = AnalyticsState::default().snapshot();
    assert_eq!(s.total_transaction, 0);
    assert_eq!(s.total_volume, 0);
    assert!(s.largest_transaction.is_none());
    assert_eq!(s.whale_transaction, 0);
    assert_eq!(s.rolling_transaction_count, 0);
    assert_eq!(s.rolling_volume, 0);
}

#[test]
fn totals_accumulate() {
    let mut st = AnalyticsState::default();
    assert_eq!(st.process_transaction(&tx("t1", "12", 100)), Ok(()));
    assert_eq!(st.process_transaction(&tx("t2", "30", 101)), Ok(()));
    let s = st.snapshot();
    assert_eq!(s.total_transaction, 2);
    assert_eq!(s.total_volume, 42);
    assert_eq!(s.rolling_transaction_count, 2);
    assert_eq!(s.rolling_volume, 42);
}

#[test]
fn whale_threshold_is_strict() {
    assert_eq!(WHALE_THRESHOLD, 10_000);
    let mut st = AnalyticsState::default();
    st.process_transaction(&tx("t1", "10000", 0)).unwrap();
    assert_eq!(st.snapshot().whale_transaction, 0);
    st.process_transaction(&tx("t2", "10001", 0)).unwrap();
    assert_eq!(st.snapshot().whale_transaction, 1);
}

#[test]
fn largest_keeps_first_of_equal_amounts() {
    let mut st = AnalyticsState::default();
    st.process_transaction(&tx("t1", "5", 0)).unwrap();
    assert_eq!(largest_hash(&st), Some(String::from("t1")));
    st.process_transaction(&tx("t2", "5", 0)).unwrap();
    assert_eq!(largest_hash(&st), Some(String::from("t1")));
    st.process_transaction(&tx("t3", "6", 0)).unwrap();
    assert_eq!(largest_hash(&st), Some(String::from("t3")));
    st.process_transaction(&tx("t4", "1", 0)).unwrap();
    assert_eq!(largest_hash(&st), Some(String::from("t3")));
}

#[test]
fn invalid_amount_is_refused_without_change() {
    let mut st = AnalyticsState::default();
    st.process_transaction(&tx("t1", "3", 0)).unwrap();
    assert_eq!(st.process_transaction(&tx("bad", "1.5", 0)), Err(AnalyticsError::InvalidAmount));
    let s = st.snapshot();
    assert_eq!(s.total_transaction, 1);
    assert_eq!(s.total_volume, 3);
    assert_eq!(s.rolling_transaction_count, 1);
}

#[test]
fn volume_overflow_is_refused_without_change() {
    let mut st = AnalyticsState::default();
    let max = u128::MAX.to_string();
    st.process_transaction(&tx("t1", &max, 0)).unwrap();
    assert_eq!(st.process_transaction(&tx("t2", "1", 0)), Err(AnalyticsError::Overflow));
    let s = st.snapshot();
    assert_eq!(s.total_transaction, 1);
    assert_eq!(s.total_volume, u128::MAX);
    assert_eq!(st.process_transaction(&tx("t3", "0", 0)), Ok(()));
    assert_eq!(st.snapshot().total_transaction, 2);
}

#[test]
fn window_keeps_exactly_sixty_seconds() {
    assert_eq!(ROLLING_WINDOW_SECONDS, 60);
    let mut st = AnalyticsState::default();
    st.process_transaction(&tx("t1", "1", 1000)).unwrap();
    st.process_transaction(&tx("t2", "2", 1060)).unwrap();
    let s = st.snapshot();
    assert_eq!(s.rolling_transaction_count, 2);
    assert_eq!(s.rolling_volume, 3);
    st.process_transaction(&tx("t3", "4", 1061)).unwrap();
    let s = st.snapshot();
    assert_eq!(s.rolling_transaction_count, 2);
    assert_eq!(s.rolling_volume, 6);
    assert_eq!(s.total_transaction, 3);
    assert_eq!(s.total_volume, 7);
}

#[test]
fn eviction_stops_at_first_recent_entry() {
    let mut st = AnalyticsState::default();
    st.process_transaction(&tx("t1", "1", 2000)).unwrap();
    st.process_transaction(&tx("t2", "2", 0)).unwrap();
    st.process_transaction(&tx("t3", "4", 2001)).unwrap();
    let s = st.snapshot();
    assert_eq!(s.rolling_transaction_count, 3);
    assert_eq!(s.rolling_volume, 7);
    st.evict_old_transaction(2061);
    let s = st.snapshot();
    assert_eq!(s.rolling_transaction_count, 1);
    assert_eq!(s.rolling_volume, 4);
}

#[test]
fn evict_old_transaction_empties_stale_window() {
    let mut st = AnalyticsState::default();
    st.process_transaction(&tx("t1", "1", 0)).unwrap();
    st.process_transaction(&tx("t2", "2", 10)).unwrap();
    st.evict_old_transaction(10);
    assert_eq!(st.snapshot().rolling_transaction_count, 2);
    st.evict_old_transaction(71);
    assert_eq!(st.snapshot().rolling_transaction_count, 0);
    assert_eq!(st.snapshot().rolling_volume, 0);
    st.evict_old_transaction(71);
    assert_eq!(st.snapshot().rolling_transaction_count, 0);
    assert_eq!(st.snapshot().total_transaction, 2);
}

#[test]
fn eviction_handles_extreme_timestamps() {
    let mut st = AnalyticsState::default();
    st.process_transaction(&tx("t1", "1", i64::MIN)).unwrap();
    st.process_transaction(&tx("t2", "1", i64::MAX)).unwrap();
    let s = st.snapshot();
    assert_eq!(s.rolling_transaction_count, 1);
    assert_eq!(s.rolling_volume, 1);
}

#[test]
fn processed_transaction_stays_in_window() {
    let mut st = AnalyticsState::default();
    st.process_transaction(&tx("t1", "8", 5000)).unwrap();
    st.process_transaction(&tx("t2", "9", 0)).unwrap();
    let s = st.snapshot();
    assert_eq!(s.rolling_transaction_count, 2);
    assert_eq!(s.rolling_volume, 17);
}

#[test]
fn worker_step_follows_events() {
    let mut st = AnalyticsState::default();
    assert_eq!(analytics_worker_step(&mut st, WorkerEvent::Received(tx("t1", "3", 0))), WorkerAction::Processed);
    assert_eq!(
        analytics_worker_step(&mut st, WorkerEvent::Received(tx("t2", "x", 0))),
        WorkerAction::Refused(AnalyticsError::InvalidAmount)
    );
    assert_eq!(analytics_worker_step(&mut st, WorkerEvent::Lagged(4)), WorkerAction::Lagged(4));
    assert_eq!(analytics_worker_step(&mut st, WorkerEvent::Closed), WorkerAction::Stop);
    assert_eq!(st.snapshot().total_transaction, 1);
}

#[test]
fn window_with_ordered_timestamps_is_last_sixty_seconds() {
    let mut st = AnalyticsState::default();
    let stamps = [0i64, 10, 30, 65, 80, 100, 125];
    for (i, ts) in stamps.iter().enumerate() {
        st.process_transaction(&tx(&format!("t{}", i), &(i + 1).to_string(), *ts)).unwrap();
        let latest = *ts;
        let within: Vec<usize> = (0..=i).filter(|&j| latest - stamps[j] <= 60).collect();
        let s = st.snapshot();
        assert_eq!(s.rolling_transaction_count, within.len());
        assert_eq!(s.rolling_volume, within.iter().map(|&j| (j + 1) as u128).sum::<u128>());
    }
}

#[test]
fn worker_takes_each_transaction_once_in_order() {
    let mut st = AnalyticsState::default();
    let events = vec![
        WorkerEvent::Received(tx("a", "5", 0)),
        WorkerEvent::Lagged(2),
        WorkerEvent::Received(tx("b", "9", 1)),
        WorkerEvent::Lagged(1),
        WorkerEvent::Received(tx("c", "9", 2)),
        WorkerEvent::Closed,
    ];
    let mut direct = AnalyticsState::default();
    for e in events {
        if let WorkerEvent::Received(t) = &e {
            direct.process_transaction(t).unwrap();
        }
        analytics_worker_step(&mut st, e);
    }
    let (x, y) = (st.snapshot(), direct.snapshot());
    assert_eq!(x.total_transaction, 3);
    assert_eq!(x.total_transaction, y.total_transaction);
    assert_eq!(x.total_volume, y.total_volume);
    assert_eq!(x.rolling_volume, y.rolling_volume);
    assert_eq!(x.largest_transaction.map(|t| t.hash), Some(String::from("b")));
}

#[test]
fn largest_is_first_of_maximal_amount() {
    let mut st = AnalyticsState::default();
    for (h, a) in [("a", "3"), ("b", "7"), ("c", "2"), ("d", "7"), ("e", "7")] {
        st.process_transaction(&tx(h, a, 0)).unwrap();
    }
    assert_eq!(largest_hash(&st), Some(String::from("b")));
}

#[test]
fn worker_refusals_change_nothing() {
    let mut st = AnalyticsState::default();
    let max = u128::MAX.to_string();
    analytics_worker_step(&mut st, WorkerEvent::Received(tx("a", &max, 0)));
    assert_eq!(
        analytics_worker_step(&mut st, WorkerEvent::Received(tx("b", "1", 0))),
        WorkerAction::Refused(AnalyticsError::Overflow)
    );
    assert_eq!(analytics_worker_step(&mut st, WorkerEvent::Received(tx("c", "0", 0))), WorkerAction::Processed);
    let s = st.snapshot();
    assert_eq!(s.total_transaction, 2);
    assert_eq!(s.total_volume, u128::MAX);
}
