//! Synthetic transactions for exercising the ingestion pipeline.

use vstd::prelude::*;
use std::time::{Duration, SystemTime, UNIX_EPOCH};
use crate::text::{decimal_value, is_decimal_text, lemma_decimal_roundtrip, lemma_padded3_value, lemma_parse_decimal, decimal, padded3, push_decimal, push_padded3, zero_padded};
use crate::transaction::{option_view, Transaction};

verus! {

/// The hash of the `n`-th synthetic transaction: `tx_` and `n` zero-padded to
/// three digits.
pub open spec fn synthetic_hash(n: nat) -> Seq<char> {
    "tx_"@ + padded3(n)
}

/// `tx_` followed by `n` zero-padded to three digits.
pub fn synthetic_hash_text(n: u64) -> (r: String)
    ensures
        r@ == synthetic_hash(n as nat),
{
    let mut s = String::from_str("tx_");
    push_padded3(&mut s, n);
    s
}

/// `std::time::SystemTime`, carried through unopened.
#[verifier::external_type_specification]
#[verifier::external_body]
pub struct ExSystemTime(SystemTime);

/// `SystemTime::now()`. Trusted: the call returns; nothing is stated of the
/// reading, which is the time.
#[verifier::external_body]
fn system_time_now() -> SystemTime {
    SystemTime::now()
}

/// `t.duration_since(UNIX_EPOCH)`: the time elapsed since the Unix epoch,
/// or `None` when `t` is before the epoch (the call's error). Trusted: the
/// call returns; nothing is stated of the duration, which depends on `t`, a
/// time that the library does not look into.
#[verifier::external_body]
fn duration_since_epoch(t: SystemTime) -> Option<Duration> {
    match t.duration_since(UNIX_EPOCH) {
        Ok(elapsed) => Some(elapsed),
        Err(_) => None,
    }
}

/// `Duration::as_millis`. Trusted: the call returns; nothing is stated of the
/// value, since the library does not look into durations.
#[verifier::external_body]
fn duration_millis(d: Duration) -> u128 {
    d.as_millis()
}

/// The timestamp written for a reading of `ms` milliseconds since the epoch:
/// `ms as i64`.
pub fn timestamp_from_millis(ms: u128) -> (r: i64)
    ensures
        r == ms as i64,
{
    ms as i64
}

/// The fields of the synthetic transaction numbered `n`, stamped with
/// `timestamp`: hash `tx_` and `n` zero-padded to three digits, sent from
/// `wallet_a` to `wallet_b` for an amount of `n` wei.
pub open spec fn is_synthetic(t: Transaction, n: nat, timestamp: i64) -> bool {
    &&& t.hash@ == synthetic_hash(n)
    &&& t.from@ == "wallet_a"@
    &&& (t.to matches Some(to) && to@ == "wallet_b"@)
    &&& t.amount_wei@ == decimal(n)
    &&& t.timestamp == timestamp
}

/// Produces numbered synthetic transactions.
pub struct Generator {
    counter: u64,
}

impl Generator {
    /// How many transactions this generator has produced.
    pub closed spec fn count(&self) -> nat {
        self.counter as nat
    }

    /// How many transactions this generator has produced.
    pub fn produced(&self) -> (r: u64)
        ensures
            r as nat == self.count(),
    {
        self.counter
    }

    /// A generator that has produced nothing yet.
    pub fn new() -> (r: Self)
        ensures
            r.count() == 0,
    {
        Self { counter: 0 }
    }

    /// The next synthetic transaction, stamped with `timestamp`: the
    /// generator's count goes up by one, and the transaction with number `n`
    /// is `tx_` and `n` zero-padded to three digits, sent from `wallet_a` to
    /// `wallet_b` for an amount of `n`.
    pub fn generate_at(&mut self, timestamp: i64) -> (t: Transaction)
        requires
            old(self).count() < u64::MAX,
        ensures
            final(self).count() == old(self).count() + 1,
            is_synthetic(t, final(self).count(), timestamp),
            t.from@ == "wallet_a"@,
            t.to matches Some(to) && to@ == "wallet_b"@,
            t.amount_spec() == Some(final(self).count() as u128),
            t.timestamp == timestamp,
    {
        self.counter = self.counter + 1;
        let hash = synthetic_hash_text(self.counter);
        let mut amount_wei = String::new();
        push_decimal(&mut amount_wei, self.counter);
        assert(amount_wei@ =~= decimal(self.counter as nat));
        proof {
            lemma_parse_decimal(self.counter as u128);
        }
        Transaction::new(
            hash,
            String::from_str("wallet_a"),
            Some(String::from_str("wallet_b")),
            amount_wei,
            timestamp,
        )
    }

    /// The next synthetic transaction (see `generate_at`), stamped with the
    /// current time in milliseconds since the Unix epoch, converted with
    /// `as i64`. When the clock reads before the epoch no transaction is made
    /// and the count stays as it was.
    pub fn generate(&mut self) -> (r: Option<Transaction>)
        requires
            old(self).count() < u64::MAX,
        ensures
            match r {
                Some(t) => {
                    &&& final(self).count() == old(self).count() + 1
                    &&& is_synthetic(t, final(self).count(), t.timestamp)
                    &&& t.amount_spec() == Some(final(self).count() as u128)
                },
                None => final(self).count() == old(self).count(),
            },
    {
        match duration_since_epoch(system_time_now()) {
            Some(elapsed) => {
                let timestamp = timestamp_from_millis(duration_millis(elapsed));
                Some(self.generate_at(timestamp))
            },
            None => None,
        }
    }
}

/// The first transaction of a new generator is `tx_001`, for an amount of 1.
pub proof fn lemma_first_synthetic(t: Transaction, timestamp: i64)
    requires
        is_synthetic(t, 1, timestamp),
    ensures
        t.hash@ == "tx_001"@,
        t.amount_wei@ == "1"@,
{
    reveal_strlit("tx_001");
    reveal_strlit("tx_");
    reveal_strlit("1");
    assert(decimal(1) =~= seq!['1']);
    assert(zero_padded(seq!['1'], 3) == zero_padded(seq!['0', '1'], 3)) by {
        assert(seq!['0'] + seq!['1'] =~= seq!['0', '1']);
    }
    assert(zero_padded(seq!['0', '1'], 3) == zero_padded(seq!['0', '0', '1'], 3)) by {
        assert(seq!['0'] + seq!['0', '1'] =~= seq!['0', '0', '1']);
    }
    assert(t.hash@ =~= "tx_001"@);
}

/// What a generator produces is determined by how many it produced before:
/// two transactions with the same number and timestamp agree in every field,
/// so two generators with equal counts yield equal transactions.
pub proof fn lemma_synthetic_determined(t1: Transaction, t2: Transaction, n: nat, timestamp: i64)
    requires
        is_synthetic(t1, n, timestamp),
        is_synthetic(t2, n, timestamp),
    ensures
        t1.hash@ == t2.hash@,
        t1.from@ == t2.from@,
        option_view(t1.to) == option_view(t2.to),
        t1.amount_wei@ == t2.amount_wei@,
        t1.timestamp == t2.timestamp,
{
}

/// Different numbers give different synthetic hashes, so different calls
/// of a generator give different hashes (the thousandth is `tx_1000`).
pub proof fn lemma_synthetic_hash_injective(n: nat, m: nat)
    requires
        synthetic_hash(n) == synthetic_hash(m),
    ensures
        n == m,
{
    reveal_strlit("tx_");
    assert(synthetic_hash(n).skip(3) =~= padded3(n));
    assert(synthetic_hash(m).skip(3) =~= padded3(m));
    lemma_padded3_value(n);
    lemma_padded3_value(m);
}

/// Every synthetic transaction, whatever its number, is sent from
/// `wallet_a` to `wallet_b` with the given timestamp; its hash is `tx_`
/// followed by digits that read back as its number, and its amount text reads
/// back as its number.
pub proof fn lemma_synthetic_parties(t: Transaction, n: nat, timestamp: i64)
    requires
        is_synthetic(t, n, timestamp),
    ensures
        t.from@ == "wallet_a"@,
        t.to matches Some(to) && to@ == "wallet_b"@,
        t.timestamp == timestamp,
        t.hash@.take(3) == "tx_"@,
        decimal_value(t.hash@.skip(3)) == n,
        is_decimal_text(t.amount_wei@),
        decimal_value(t.amount_wei@) == n,
{
    reveal_strlit("tx_");
    assert(t.hash@.take(3) =~= "tx_"@);
    assert(t.hash@.skip(3) =~= padded3(n));
    lemma_padded3_value(n);
    lemma_decimal_roundtrip(n);
}

} // verus!
