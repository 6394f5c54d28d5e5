use blockchain_intelligence::analytics::AnalyticsState;
use blockchain_intelligence::generator::{timestamp_from_millis, Generator};
use blockchain_intelligence::simulation::{Generator as SimulatedGenerator, Transaction as SimulatedTransaction};

#[test]
fn generated_transactions_are_numbered() {
    let mut g = Generator::new();
    let t1 = g.generate_at(100);
    let t2 = g.generate_at(200);
    assert_eq!(t1.hash, "tx_001");
    assert_eq!(t1.from, "wallet_a");
    assert_eq!(t1.to.as_deref(), Some("wallet_b"));
    assert_eq!(t1.amount_wei, "1");
    assert_eq!(t1.timestamp, 100);
    assert_eq!(t2.hash, "tx_002");
    assert_eq!(t2.amount_wei, "2");
    assert_eq!(t2.timestamp, 200);
}

#[test]
fn generated_numbers_past_three_digits() {
    let mut g = Generator::new();
    let mut last = g.generate_at(0);
    for _ in 1..1000 {
        last = g.generate_at(0);
    }
    assert_eq!(last.hash, "tx_1000");
    assert_eq!(last.amount_wei, "1000");
}

#[test]
fn generate_stamps_current_time() {
    let mut g = Generator::new();
    let t = g.generate().unwrap();
    assert_eq!(t.hash, "tx_001");
    assert_eq!(g.produced(), 1);
    assert!(t.timestamp > 1_600_000_000_000);
}

#[test]
fn generated_transactions_feed_analytics() {
    let mut g = Generator::new();
    let mut st = AnalyticsState::default();
    for _ in 0..4 {
        let t = g.generate_at(0);
        st.process_transaction(&t).unwrap();
    }
    let s = st.snapshot();
    assert_eq!(s.total_transaction, 4);
    assert_eq!(s.total_volume, 10);
    assert_eq!(s.largest_transaction.map(|t| t.hash), Some(String::from("tx_004")));
}

#[test]
fn clock_readings_to_timestamps() {
    assert_eq!(timestamp_from_millis(1_700_000_000_123), 1_700_000_000_123);
    assert_eq!(timestamp_from_millis(0), 0);
    assert_eq!(timestamp_from_millis(u64::MAX as u128), -1);
    assert_eq!(timestamp_from_millis(1u128 << 64), 0);
}

#[test]
fn simulated_generator_and_summary() {
    let mut g = SimulatedGenerator::new();
    let t1 = g.generate();
    assert_eq!(t1.summary(), "Transaction tx_001: wallet_a sent 1 ETH to wallet_b");
    let t2 = g.generate();
    assert_eq!(t2.amount, 2);
    assert_eq!(t2.summary(), "Transaction tx_002: wallet_a sent 2 ETH to wallet_b");
}

#[test]
fn simulated_transaction_new() {
    let t = SimulatedTransaction::new(String::from("h"), String::from("f"), String::from("t"), 7);
    assert_eq!(t.hash, "h");
    assert_eq!(t.to, "t");
    assert_eq!(t.summary(), "Transaction h: f sent 7 ETH to t");
}

#[test]
fn generators_report_their_count() {
    let mut g = Generator::new();
    assert_eq!(g.produced(), 0);
    g.generate_at(0);
    g.generate_at(0);
    assert_eq!(g.produced(), 2);
    let mut s = SimulatedGenerator::new();
    s.generate();
    assert_eq!(s.produced(), 1);
}

#[test]
fn equal_counts_give_equal_transactions() {
    let mut a = Generator::new();
    let mut b = Generator::new();
    for _ in 0..5 {
        let x = a.generate_at(7);
        let y = b.generate_at(7);
        assert_eq!(x.hash, y.hash);
        assert_eq!(x.from, y.from);
        assert_eq!(x.to, y.to);
        assert_eq!(x.amount_wei, y.amount_wei);
        assert_eq!(x.timestamp, y.timestamp);
    }
    let mut c = SimulatedGenerator::new();
    let mut d = SimulatedGenerator::new();
    let first = c.generate();
    assert_eq!(first.hash, "tx_001");
    assert_eq!(first.amount, 1);
    assert_eq!(d.generate().summary(), first.summary());
}

#[test]
fn hashes_differ_between_calls() {
    let mut g = Generator::new();
    let mut seen = std::collections::HashSet::new();
    for _ in 0..1200 {
        assert!(seen.insert(g.generate_at(0).hash));
    }
}
