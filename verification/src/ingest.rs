//! The decisions of the ingestion service: normalizing chain transactions and
//! what follows the storing of each one.

use vstd::prelude::*;
use crate::transaction::Transaction;

verus! {

/// The normalized record of a chain transaction, from the texts of its hash,
/// sender, optional recipient and value in wei, and its block's timestamp
/// (converted with `as i64`).
pub fn normalize_transaction(
    hash: String,
    from: String,
    to: Option<String>,
    value_wei: String,
    block_timestamp: u64,
) -> (r: Transaction)
    ensures
        r.hash == hash,
        r.from == from,
        r.to == to,
        r.amount_wei == value_wei,
        r.timestamp == block_timestamp as i64,
{
    Transaction::new(hash, from, to, value_wei, block_timestamp as i64)
}

/// What the ingestion consumer does with a transaction once storing it was
/// attempted.
#[derive(Clone, Copy, Debug, PartialEq, Eq, Structural)]
pub enum ConsumerAction {
    /// Storing failed: report it and move on to the next transaction.
    Skip,
    /// Stored: count it, publish it to subscribers and to the stream.
    Publish,
}

/// A transaction is published only once it is stored.
pub fn after_insert(stored: bool) -> (r: ConsumerAction)
    ensures
        r == (if stored { ConsumerAction::Publish } else { ConsumerAction::Skip }),
{
    if stored {
        ConsumerAction::Publish
    } else {
        ConsumerAction::Skip
    }
}

/// A transaction of a block as the chain client renders it: the debug texts
/// of its hash, sender and optional recipient, and the decimal text of its
/// value in wei.
pub struct ChainTransaction {
    pub hash: String,
    pub from: String,
    pub to: Option<String>,
    pub value_wei: String,
}

/// Whether `out` holds the normalized records of `txs`, in order, each
/// stamped with `block_timestamp` (converted with `as i64`).
pub open spec fn normalized_from(out: Seq<Transaction>, txs: Seq<ChainTransaction>, block_timestamp: u64) -> bool {
    &&& out.len() == txs.len()
    &&& forall|i: int| 0 <= i < txs.len() ==> {
        &&& (#[trigger] out[i]).hash == txs[i].hash
        &&& out[i].from == txs[i].from
        &&& out[i].to == txs[i].to
        &&& out[i].amount_wei == txs[i].value_wei
        &&& out[i].timestamp == block_timestamp as i64
    }
}

/// The normalized records of a block's transactions, in block order, each
/// stamped with the block's timestamp.
pub fn normalize_block(block_timestamp: u64, txs: &Vec<ChainTransaction>) -> (r: Vec<Transaction>)
    ensures
        normalized_from(r@, txs@, block_timestamp),
        r.len() == txs.len(),
{
    let mut out: Vec<Transaction> = Vec::new();
    let mut i: usize = 0;
    while i < txs.len()
        invariant
            i <= txs.len(),
            out.len() == i,
            forall|j: int| 0 <= j < i ==> {
                &&& (#[trigger] out[j]).hash == txs[j].hash
                &&& out[j].from == txs[j].from
                &&& out[j].to == txs[j].to
                &&& out[j].amount_wei == txs[j].value_wei
                &&& out[j].timestamp == block_timestamp as i64
            },
        decreases txs.len() - i,
    {
        let c = &txs[i];
        let to = match &c.to {
            Some(t) => Some(t.clone()),
            None => None,
        };
        let t = normalize_transaction(c.hash.clone(), c.from.clone(), to, c.value_wei.clone(), block_timestamp);
        out.push(t);
        i = i + 1;
    }
    out
}

/// What the chain client returned when asked for a block with its
/// transactions.
pub enum FetchedBlock {
    /// No block with that number.
    Missing,
    /// The block, but with transaction hashes only.
    HashesOnly,
    /// The block with its full transactions.
    Full(Vec<ChainTransaction>),
}

/// What ingestion does with a fetched block.
pub enum BlockOutcome {
    /// No block: nothing to do.
    NotFound,
    /// Report that the block does not contain full transactions.
    NoFullTransactions,
    /// Send on these normalized transactions, in order.
    Transactions(Vec<Transaction>),
}

/// A missing block is skipped, a block without full transactions is
/// reported, and a full block's transactions are normalized with the block's
/// timestamp.
pub fn block_transactions(block_timestamp: u64, fetched: &FetchedBlock) -> (r: BlockOutcome)
    ensures
        match fetched {
            FetchedBlock::Missing => r is NotFound,
            FetchedBlock::HashesOnly => r is NoFullTransactions,
            FetchedBlock::Full(txs) => r matches BlockOutcome::Transactions(out) && normalized_from(out@, txs@, block_timestamp),
        },
{
    match fetched {
        FetchedBlock::Missing => BlockOutcome::NotFound,
        FetchedBlock::HashesOnly => BlockOutcome::NoFullTransactions,
        FetchedBlock::Full(txs) => BlockOutcome::Transactions(normalize_block(block_timestamp, txs)),
    }
}

/// Normalization makes exactly one record per chain transaction, in block
/// order: as many records as transactions, the `i`-th carrying the `i`-th
/// transaction's hash, sender, recipient and value text, stamped with the
/// block's timestamp.
pub proof fn lemma_one_record_per_transaction(out: Seq<Transaction>, txs: Seq<ChainTransaction>, block_timestamp: u64)
    requires
        normalized_from(out, txs, block_timestamp),
    ensures
        out.len() == txs.len(),
        forall|i: int| 0 <= i < txs.len() ==> {
            &&& (#[trigger] out[i]).hash == txs[i].hash
            &&& out[i].from == txs[i].from
            &&& out[i].to == txs[i].to
            &&& out[i].amount_wei == txs[i].value_wei
            &&& out[i].timestamp == block_timestamp as i64
        },
{
}

} // verus!
