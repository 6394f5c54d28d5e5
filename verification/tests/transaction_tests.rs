use blockchain_intelligence::transaction::Transaction;

fn sample(to: Option<&str>, amount: &str, timestamp: i64) -> Transaction {
    Transaction::new(
        String::from("0xabc"),
        String::from("0xfrom"),
        to.map(String::from),
        String::from(amount),
        timestamp,
    )
}

#[test]
fn new_keeps_fields() {
    let tx = sample(Some("0xto"), "1000", 1_700_000_000);
    assert_eq!(tx.hash, "0xabc");
    assert_eq!(tx.from, "0xfrom");
    assert_eq!(tx.to.as_deref(), Some("0xto"));
    assert_eq!(tx.amount_wei, "1000");
    assert_eq!(tx.timestamp, 1_700_000_000);
}

#[test]
fn summary_with_recipient() {
    let tx = sample(Some("0xto"), "1000", 1_700_000_000);
    assert_eq!(tx.summary(), "Transaction 0xabc: 0xfrom sent 1000 ETH to Some(\"0xto\") on 1700000000");
}

#[test]
fn summary_without_recipient() {
    let tx = sample(None, "0", -3);
    assert_eq!(tx.summary(), "Transaction 0xabc: 0xfrom sent 0 ETH to None on -3");
}

#[test]
fn summary_escapes_recipient_as_debug_does() {
    let tx = sample(Some("a\"b\\c\n"), "5", 0);
    let expected = format!("Transaction 0xabc: 0xfrom sent 5 ETH to {:?} on 0", Some("a\"b\\c\n".to_string()));
    assert_eq!(tx.summary(), expected);
}

#[test]
fn amount_parses_wei_text() {
    assert_eq!(sample(None, "250", 0).amount(), Some(250));
    assert_eq!(sample(None, "0x10", 0).amount(), None);
    assert_eq!(sample(None, "", 0).amount(), None);
}

#[test]
fn clone_copies_every_field() {
    let tx = sample(Some("0xto"), "77", 9);
    let c = tx.clone();
    assert_eq!(c.hash, tx.hash);
    assert_eq!(c.from, tx.from);
    assert_eq!(c.to, tx.to);
    assert_eq!(c.amount_wei, tx.amount_wei);
    assert_eq!(c.timestamp, tx.timestamp);
}
