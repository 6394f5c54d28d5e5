//! The self-contained simulation of the pipeline: a generator of numbered
//! transactions and the summary line that the consumer prints for each.

use vstd::prelude::*;
use crate::generator::{synthetic_hash, synthetic_hash_text};
use crate::text::{decimal, decimal_value, is_decimal_text, lemma_decimal_roundtrip, lemma_padded3_value, padded3, push_decimal, zero_padded};

verus! {

/// A simulated transaction.
pub struct Transaction {
    pub hash: String,
    pub from: String,
    pub to: String,
    pub amount: u64,
}

/// `Transaction {hash}: {from} sent {amount} ETH to {to}`.
pub open spec fn simulated_summary(hash: Seq<char>, from: Seq<char>, to: Seq<char>, amount: u64) -> Seq<char> {
    "Transaction "@ + hash + ": "@ + from + " sent "@ + decimal(amount as nat) + " ETH to "@ + to
}

impl Transaction {
    /// Builds a simulated transaction from its parts.
    pub fn new(hash: String, from: String, to: String, amount: u64) -> (r: Self)
        ensures
            r.hash == hash,
            r.from == from,
            r.to == to,
            r.amount == amount,
    {
        Self { hash, from, to, amount }
    }

    /// The summary line of the transaction, which the consumer prints.
    pub fn summary(&self) -> (r: String)
        ensures
            r@ == simulated_summary(self.hash@, self.from@, self.to@, self.amount),
    {
        let mut s = String::from_str("Transaction ");
        s.append(self.hash.as_str());
        s.append(": ");
        s.append(self.from.as_str());
        s.append(" sent ");
        push_decimal(&mut s, self.amount);
        s.append(" ETH to ");
        s.append(self.to.as_str());
        assert(s@ =~= simulated_summary(self.hash@, self.from@, self.to@, self.amount));
        s
    }
}

/// The fields of the simulated transaction numbered `n`: hash `tx_` and `n`
/// zero-padded to three digits, sent from `wallet_a` to `wallet_b` for an
/// amount of `n`.
pub open spec fn is_simulated(t: Transaction, n: nat) -> bool {
    &&& t.hash@ == synthetic_hash(n)
    &&& t.from@ == "wallet_a"@
    &&& t.to@ == "wallet_b"@
    &&& t.amount as nat == n
}

/// The first transaction of a new simulated generator is `tx_001`, for an
/// amount of 1.
pub proof fn lemma_first_simulated(t: Transaction)
    requires
        is_simulated(t, 1),
    ensures
        t.hash@ == "tx_001"@,
        t.amount == 1,
{
    reveal_strlit("tx_001");
    reveal_strlit("tx_");
    assert(decimal(1) =~= seq!['1']);
    assert(zero_padded(seq!['1'], 3) == zero_padded(seq!['0', '1'], 3)) by {
        assert(seq!['0'] + seq!['1'] =~= seq!['0', '1']);
    }
    assert(zero_padded(seq!['0', '1'], 3) == zero_padded(seq!['0', '0', '1'], 3)) by {
        assert(seq!['0'] + seq!['0', '1'] =~= seq!['0', '0', '1']);
    }
    assert(t.hash@ =~= "tx_001"@);
}

/// What a simulated generator produces is determined by how many it produced
/// before: two generators with equal counts yield equal transactions.
pub proof fn lemma_simulated_determined(t1: Transaction, t2: Transaction, n: nat)
    requires
        is_simulated(t1, n),
        is_simulated(t2, n),
    ensures
        t1.hash@ == t2.hash@,
        t1.from@ == t2.from@,
        t1.to@ == t2.to@,
        t1.amount == t2.amount,
{
}

/// Two generators from `new` yield equal sequences: when each sequence holds
/// the transactions numbered 1, 2, ... in turn, they agree element by element.
pub proof fn lemma_simulated_sequences_equal(s1: Seq<Transaction>, s2: Seq<Transaction>)
    requires
        s1.len() == s2.len(),
        forall|i: int| 0 <= i < s1.len() ==> is_simulated(#[trigger] s1[i], (i + 1) as nat),
        forall|i: int| 0 <= i < s2.len() ==> is_simulated(#[trigger] s2[i], (i + 1) as nat),
    ensures
        forall|i: int| 0 <= i < s1.len() ==> {
            &&& (#[trigger] s1[i]).hash@ == s2[i].hash@
            &&& s1[i].from@ == s2[i].from@
            &&& s1[i].to@ == s2[i].to@
            &&& s1[i].amount == s2[i].amount
        },
{
    assert forall|i: int| 0 <= i < s1.len() implies {
        &&& (#[trigger] s1[i]).hash@ == s2[i].hash@
        &&& s1[i].from@ == s2[i].from@
        &&& s1[i].to@ == s2[i].to@
        &&& s1[i].amount == s2[i].amount
    } by {
        lemma_simulated_determined(s1[i], s2[i], (i + 1) as nat);
    }
}

/// The summary line carries the amount in its place: the text between
/// ` sent ` and ` ETH to ` is decimal digits that read back as the amount, and
/// hash, sender and recipient stand unchanged around it.
pub proof fn lemma_simulated_summary_amount(hash: Seq<char>, from: Seq<char>, to: Seq<char>, amount: u64)
    ensures
        exists|d: Seq<char>| {
            &&& simulated_summary(hash, from, to, amount) == "Transaction "@ + hash + ": "@ + from + " sent "@ + d
                + " ETH to "@ + to
            &&& is_decimal_text(d)
            &&& decimal_value(d) == amount
        },
{
    lemma_decimal_roundtrip(amount as nat);
    let d = decimal(amount as nat);
    assert(simulated_summary(hash, from, to, amount) == "Transaction "@ + hash + ": "@ + from + " sent "@ + d
        + " ETH to "@ + to);
}

/// Every simulated transaction, whatever its number, is sent from `wallet_a`
/// to `wallet_b`; its hash is `tx_` followed by digits that read back as its
/// number, and its amount is its number.
pub proof fn lemma_simulated_parties(t: Transaction, n: nat)
    requires
        is_simulated(t, n),
    ensures
        t.from@ == "wallet_a"@,
        t.to@ == "wallet_b"@,
        t.hash@.take(3) == "tx_"@,
        decimal_value(t.hash@.skip(3)) == n,
        t.amount as nat == n,
{
    reveal_strlit("tx_");
    assert(t.hash@.take(3) =~= "tx_"@);
    assert(t.hash@.skip(3) =~= padded3(n));
    lemma_padded3_value(n);
}

/// Produces numbered simulated transactions.
pub struct Generator {
    counter: u64,
}

impl Generator {
    /// How many transactions this generator has produced.
    pub closed spec fn count(&self) -> nat {
        self.counter as nat
    }

    /// How many transactions this generator has produced.
    pub fn produced(&self) -> (r: u64)
        ensures
            r as nat == self.count(),
    {
        self.counter
    }

    /// A generator that has produced nothing yet.
    pub fn new() -> (r: Self)
        ensures
            r.count() == 0,
    {
        Self { counter: 0 }
    }

    /// The next simulated transaction: the count goes up by one, and the
    /// transaction with number `n` is `tx_` and `n` zero-padded to three
    /// digits, sent from `wallet_a` to `wallet_b` for an amount of `n`.
    pub fn generate(&mut self) -> (t: Transaction)
        requires
            old(self).count() < u64::MAX,
        ensures
            final(self).count() == old(self).count() + 1,
            is_simulated(t, final(self).count()),
    {
        self.counter = self.counter + 1;
        Transaction::new(
            synthetic_hash_text(self.counter),
            String::from_str("wallet_a"),
            String::from_str("wallet_b"),
            self.counter,
        )
    }
}

} // verus!
