//! Live analytics over the transaction stream: running totals, the largest
//! transaction, whale transactions and a rolling time window.

use vstd::prelude::*;
use std::collections::VecDeque;
use crate::transaction::Transaction;

verus! {

/// Width of the rolling window, in seconds.
pub const ROLLING_WINDOW_SECONDS: i64 = 60;

/// A transaction whose amount is above this is a whale transaction.
pub const WHALE_THRESHOLD: u128 = 10_000;

/// What the rolling window keeps of a transaction.
#[derive(Clone, Copy, Debug, PartialEq, Eq, Structural)]
pub struct RollingTransaction {
    pub timestamp: i64,
    pub amount: u128,
}

/// Why a transaction was not taken into the analytics.
#[derive(Clone, Copy, Debug, PartialEq, Eq, Structural)]
pub enum AnalyticsError {
    /// The transaction's amount is not decimal text of a 128-bit value.
    InvalidAmount,
    /// A counter or a sum would leave its integer type.
    Overflow,
}

/// The amount of a transaction as a number (zero where its text is not a
/// valid amount; the analytics takes in only transactions whose text is).
pub open spec fn amount_of(tx: Transaction) -> nat {
    match tx.amount_spec() {
        Some(a) => a as nat,
        None => 0,
    }
}

/// The rolling-window entry of a transaction.
pub open spec fn entry_of(tx: Transaction) -> RollingTransaction {
    RollingTransaction { timestamp: tx.timestamp, amount: amount_of(tx) as u128 }
}

/// The rolling-window entries of a sequence of transactions, in order.
pub open spec fn entries(txs: Seq<Transaction>) -> Seq<RollingTransaction> {
    txs.map_values(|tx: Transaction| entry_of(tx))
}

/// The sum of the amounts of `w`.
pub open spec fn amounts_sum(w: Seq<RollingTransaction>) -> nat
    decreases w.len(),
{
    if w.len() == 0 {
        0
    } else {
        amounts_sum(w.drop_last()) + w.last().amount as nat
    }
}

/// How many entries of `w` have an amount above the whale threshold.
pub open spec fn whale_count(w: Seq<RollingTransaction>) -> nat
    decreases w.len(),
{
    if w.len() == 0 {
        0
    } else {
        whale_count(w.drop_last()) + if w.last().amount > WHALE_THRESHOLD { 1nat } else { 0nat }
    }
}

/// The largest transaction of `txs`: the first one whose amount is the
/// maximum (a later one replaces it only with a strictly larger amount).
pub open spec fn largest_of(txs: Seq<Transaction>) -> Option<Transaction>
    decreases txs.len(),
{
    if txs.len() == 0 {
        None
    } else {
        let prev = largest_of(txs.drop_last());
        match prev {
            Some(c) => if amount_of(c) >= amount_of(txs.last()) {
                prev
            } else {
                Some(txs.last())
            },
            None => Some(txs.last()),
        }
    }
}

/// Whether `entry` is older than the rolling window at time `now`.
pub open spec fn expired(entry: RollingTransaction, now: i64) -> bool {
    now - entry.timestamp > ROLLING_WINDOW_SECONDS
}

/// The window `w` after eviction at time `now`: entries are dropped from the
/// front for as long as the front one is expired.
pub open spec fn evict(w: Seq<RollingTransaction>, now: i64) -> Seq<RollingTransaction>
    decreases w.len(),
{
    if w.len() > 0 && expired(w[0], now) {
        evict(w.drop_first(), now)
    } else {
        w
    }
}

/// The abstract state of the analytics: every transaction taken in, in
/// order, and the current rolling window.
pub struct AnalyticsView {
    pub processed: Seq<Transaction>,
    pub window: Seq<RollingTransaction>,
}

impl AnalyticsView {
    pub open spec fn total_transaction(self) -> nat {
        self.processed.len()
    }

    pub open spec fn total_volume(self) -> nat {
        amounts_sum(entries(self.processed))
    }

    pub open spec fn whale_transaction(self) -> nat {
        whale_count(entries(self.processed))
    }

    pub open spec fn largest_transaction(self) -> Option<Transaction> {
        largest_of(self.processed)
    }

    pub open spec fn rolling_transaction_count(self) -> nat {
        self.window.len()
    }

    pub open spec fn rolling_volume(self) -> nat {
        amounts_sum(self.window)
    }

    /// Whether taking in a transaction of amount `amount` would overflow a
    /// counter or a sum.
    pub open spec fn overflows_with(self, amount: nat) -> bool {
        ||| self.total_transaction() >= u64::MAX
        ||| self.total_volume() + amount > u128::MAX
        ||| self.rolling_transaction_count() >= usize::MAX
    }

    /// The state after taking in `tx`.
    pub open spec fn after(self, tx: Transaction) -> AnalyticsView {
        AnalyticsView {
            processed: self.processed.push(tx),
            window: evict(self.window.push(entry_of(tx)), tx.timestamp),
        }
    }

    /// Whether this state is the one reached from the empty state by taking in
    /// exactly `processed`, in order (no eviction at other times).
    pub open spec fn from_history(self) -> bool {
        self == after_all(empty_view(), self.processed)
    }

    /// Every state the analytics can reach: all amounts taken in are valid,
    /// and the window is the latest entries taken in, in order.
    pub open spec fn valid(self) -> bool {
        &&& forall|i: int| 0 <= i < self.processed.len() ==> (#[trigger] self.processed[i]).amount_spec() is Some
        &&& exists|k: int| 0 <= k <= self.processed.len() && self.window == entries(self.processed).skip(k)
    }
}

/// A point-in-time copy of the analytics counters.
pub struct AnalyticsSnapshot {
    pub total_transaction: u64,
    pub total_volume: u128,
    pub largest_transaction: Option<Transaction>,
    pub whale_transaction: u64,
    pub rolling_transaction_count: usize,
    pub rolling_volume: u128,
}

/// Running analytics over the transactions taken in.
pub struct AnalyticsState {
    total_transaction: u64,
    total_volume: u128,
    largest_transaction: Option<Transaction>,
    whale_transaction: u64,
    recent_transactions: VecDeque<RollingTransaction>,
    rolling_transaction_count: usize,
    rolling_volume: u128,
    processed: Ghost<Seq<Transaction>>,
    window_start: Ghost<int>,
}

impl View for AnalyticsState {
    type V = AnalyticsView;

    closed spec fn view(&self) -> AnalyticsView {
        AnalyticsView { processed: self.processed@, window: self.recent_transactions@ }
    }
}

proof fn lemma_sum_drop_first(w: Seq<RollingTransaction>)
    requires
        w.len() > 0,
    ensures
        amounts_sum(w) == w[0].amount + amounts_sum(w.drop_first()),
    decreases w.len(),
{
    if w.len() > 1 {
        lemma_sum_drop_first(w.drop_last());
        assert(w.drop_last().drop_first() =~= w.drop_first().drop_last());
    } else {
        assert(w.drop_first() =~= Seq::<RollingTransaction>::empty());
        assert(w.drop_last() =~= Seq::<RollingTransaction>::empty());
    }
}

proof fn lemma_sum_skip_le(w: Seq<RollingTransaction>, k: int)
    requires
        0 <= k <= w.len(),
    ensures
        amounts_sum(w.skip(k)) <= amounts_sum(w),
    decreases k,
{
    if k == 0 {
        assert(w.skip(0) =~= w);
    } else {
        lemma_sum_skip_le(w, k - 1);
        lemma_sum_drop_first(w.skip(k - 1));
        assert(w.skip(k - 1).drop_first() =~= w.skip(k));
    }
}

proof fn lemma_whale_count_le_len(w: Seq<RollingTransaction>)
    ensures
        whale_count(w) <= w.len(),
    decreases w.len(),
{
    if w.len() > 0 {
        lemma_whale_count_le_len(w.drop_last());
    }
}

proof fn lemma_entries_push(txs: Seq<Transaction>, tx: Transaction)
    ensures
        entries(txs.push(tx)) == entries(txs).push(entry_of(tx)),
        entries(txs).len() == txs.len(),
{
    assert(entries(txs.push(tx)) =~= entries(txs).push(entry_of(tx)));
}

impl AnalyticsState {
    /// The internal consistency of the counters with the abstract state.
    pub closed spec fn wf(&self) -> bool {
        let p = self.processed@;
        let w = self.recent_transactions@;
        &&& forall|i: int| 0 <= i < p.len() ==> (#[trigger] p[i]).amount_spec() is Some
        &&& 0 <= self.window_start@ <= p.len()
        &&& w == entries(p).skip(self.window_start@)
        &&& self.total_transaction as nat == p.len()
        &&& self.total_volume as nat == amounts_sum(entries(p))
        &&& self.whale_transaction as nat == whale_count(entries(p))
        &&& self.largest_transaction == largest_of(p)
        &&& self.rolling_transaction_count as nat == w.len()
        &&& self.rolling_volume as nat == amounts_sum(w)
    }

    /// Every well-formed state is a valid abstract state.
    pub proof fn lemma_wf_valid(&self)
        requires
            self.wf(),
        ensures
            self@.valid(),
    {
        assert(0 <= self.window_start@ <= self@.processed.len());
    }

    /// Drops entries from the front of the rolling window for as long as the
    /// front one is more than `ROLLING_WINDOW_SECONDS` older than
    /// `current_timestamp`, keeping the rolling count and volume in step.
    pub fn evict_old_transaction(&mut self, current_timestamp: i64)
        requires
            old(self).wf(),
        ensures
            final(self).wf(),
            final(self)@.processed == old(self)@.processed,
            final(self)@.window == evict(old(self)@.window, current_timestamp),
    {
        loop
            invariant
                self.wf(),
                self@.processed == old(self)@.processed,
                evict(self@.window, current_timestamp) == evict(old(self)@.window, current_timestamp),
            ensures
                self.wf(),
                self@.processed == old(self)@.processed,
                self@.window == evict(old(self)@.window, current_timestamp),
            decreases self.recent_transactions@.len(),
        {
            if self.recent_transactions.len() == 0 {
                break;
            }
            let front: RollingTransaction = self.recent_transactions[0];
            let age: i128 = current_timestamp as i128 - front.timestamp as i128;
            if age <= ROLLING_WINDOW_SECONDS as i128 {
                break;
            }
            let ghost w = self.recent_transactions@;
            let ghost p = self.processed@;
            let popped = self.recent_transactions.pop_front();
            proof {
                lemma_sum_drop_first(w);
                assert(entries(p).skip(self.window_start@ + 1) =~= w.drop_first());
                assert(self.recent_transactions@ =~= w.drop_first());
            }
            match popped {
                Some(expired_entry) => {
                    self.rolling_transaction_count = self.rolling_transaction_count - 1;
                    self.rolling_volume = self.rolling_volume - expired_entry.amount;
                },
                None => {},
            }
            proof {
                self.window_start@ = self.window_start@ + 1;
            }
        }
    }

    /// Takes a transaction into the analytics: counts it, adds its amount to
    /// the total volume, counts it as a whale transaction when its amount is
    /// above `WHALE_THRESHOLD`, makes it the largest transaction unless the
    /// current largest has an amount at least as large, appends it to the
    /// rolling window and evicts what the window no longer covers at the
    /// transaction's timestamp.
    ///
    /// A transaction whose amount is not valid decimal text, or one that would
    /// overflow a counter, is refused and the state is left unchanged.
    pub fn process_transaction(&mut self, tx: &Transaction) -> (r: Result<(), AnalyticsError>)
        requires
            old(self).wf(),
        ensures
            final(self).wf(),
            match r {
                Ok(()) => {
                    &&& tx.amount_spec() is Some
                    &&& !old(self)@.overflows_with(amount_of(*tx))
                    &&& final(self)@ == old(self)@.after(*tx)
                    &&& final(self)@.window.len() > 0
                    &&& final(self)@.window.last() == entry_of(*tx)
                },
                Err(AnalyticsError::InvalidAmount) => {
                    &&& tx.amount_spec() is None
                    &&& final(self)@ == old(self)@
                },
                Err(AnalyticsError::Overflow) => {
                    &&& tx.amount_spec() is Some
                    &&& old(self)@.overflows_with(amount_of(*tx))
                    &&& final(self)@ == old(self)@
                },
            },
            old(self)@.from_history() ==> final(self)@.from_history(),
    {
        let amount = match tx.amount() {
            Some(a) => a,
            None => {
                return Err(AnalyticsError::InvalidAmount);
            },
        };
        let ghost p = self.processed@;
        let ghost w = self.recent_transactions@;
        proof {
            lemma_whale_count_le_len(entries(p));
            lemma_sum_skip_le(entries(p), self.window_start@);
            assert(entries(p).len() == p.len());
        }
        if self.total_transaction == u64::MAX || amount > u128::MAX - self.total_volume
            || self.rolling_transaction_count == usize::MAX {
            return Err(AnalyticsError::Overflow);
        }
        let entry = RollingTransaction { timestamp: tx.timestamp, amount };
        proof {
            lemma_entries_push(p, *tx);
            assert(entry == entry_of(*tx));
            let np = p.push(*tx);
            assert(np.drop_last() =~= p);
            assert(entries(np).drop_last() =~= entries(p));
            assert(entries(np).skip(self.window_start@) =~= w.push(entry));
        }

        self.total_transaction = self.total_transaction + 1;
        self.total_volume = self.total_volume + amount;
        if amount > WHALE_THRESHOLD {
            self.whale_transaction = self.whale_transaction + 1;
        }
        let replace = match &self.largest_transaction {
            Some(current) => {
                proof {
                    assert(exists|i: int| 0 <= i < p.len() && p[i] == *current) by {
                        lemma_largest_is_member(p);
                    }
                    let i = choose|i: int| 0 <= i < p.len() && p[i] == *current;
                    assert(p[i].amount_spec() is Some);
                }
                match current.amount() {
                    Some(current_amount) => current_amount < amount,
                    None => true,
                }
            },
            None => true,
        };
        if replace {
            self.largest_transaction = Some(tx.clone());
        }
        self.recent_transactions.push_back(entry);
        self.rolling_transaction_count = self.rolling_transaction_count + 1;
        self.rolling_volume = self.rolling_volume + amount;
        proof {
            self.processed@ = p.push(*tx);
            assert(self.processed@.drop_last() =~= p);
            assert(self.processed@.last() == *tx);
            assert(entries(self.processed@).last() == entry);
            assert(w.push(entry).drop_last() =~= w);
            assert forall|i: int| 0 <= i < self.processed@.len() implies (#[trigger] self.processed@[i]).amount_spec() is Some by {
                if i < p.len() {
                    assert(self.processed@[i] == p[i]);
                }
            }
        }
        self.evict_old_transaction(tx.timestamp);
        proof {
            lemma_processed_in_window(old(self)@, *tx);
            let q = old(self)@.processed.push(*tx);
            assert(q.drop_last() =~= old(self)@.processed);
            assert(after_all(empty_view(), q) == after_all(empty_view(), old(self)@.processed).after(*tx));
        }
        Ok(())
    }

    /// A copy of the counters and of the largest transaction.
    pub fn snapshot(&self) -> (r: AnalyticsSnapshot)
        requires
            self.wf(),
        ensures
            r.total_transaction as nat == self@.total_transaction(),
            r.total_volume as nat == self@.total_volume(),
            r.largest_transaction == self@.largest_transaction(),
            r.whale_transaction as nat == self@.whale_transaction(),
            r.rolling_transaction_count as nat == self@.rolling_transaction_count(),
            r.rolling_volume as nat == self@.rolling_volume(),
    {
        let largest_transaction = match &self.largest_transaction {
            Some(t) => Some(t.clone()),
            None => None,
        };
        AnalyticsSnapshot {
            total_transaction: self.total_transaction,
            total_volume: self.total_volume,
            largest_transaction,
            whale_transaction: self.whale_transaction,
            rolling_transaction_count: self.rolling_transaction_count,
            rolling_volume: self.rolling_volume,
        }
    }
}

impl Default for AnalyticsState {
    /// The empty analytics: nothing taken in, an empty window.
    fn default() -> (r: Self)
        ensures
            r.wf(),
            r@.processed == Seq::<Transaction>::empty(),
            r@.window == Seq::<RollingTransaction>::empty(),
            r@.from_history(),
    {
        let r = AnalyticsState {
            total_transaction: 0,
            total_volume: 0,
            largest_transaction: None,
            whale_transaction: 0,
            recent_transactions: VecDeque::new(),
            rolling_transaction_count: 0,
            rolling_volume: 0,
            processed: Ghost(Seq::empty()),
            window_start: Ghost(0),
        };
        assert(entries(Seq::<Transaction>::empty()).skip(0) =~= Seq::<RollingTransaction>::empty());
        assert(r@ == empty_view());
        r
    }
}

/// The largest transaction of a non-empty sequence is one of its
/// transactions.
pub proof fn lemma_largest_is_member(txs: Seq<Transaction>)
    ensures
        txs.len() == 0 <==> largest_of(txs) is None,
        largest_of(txs) matches Some(l) ==> exists|i: int| 0 <= i < txs.len() && txs[i] == l,
    decreases txs.len(),
{
    if txs.len() > 0 {
        let prev = txs.drop_last();
        lemma_largest_is_member(prev);
        match largest_of(prev) {
            Some(c) => {
                let i = choose|i: int| 0 <= i < prev.len() && prev[i] == c;
                assert(txs[i] == c);
            },
            None => {},
        }
        assert(txs[txs.len() - 1] == txs.last());
    }
}


/// Taking in a transaction counts it once, adds its amount to the total
/// volume, counts it as a whale exactly when its amount is above the
/// threshold, and makes it the largest transaction exactly when no earlier one
/// has an amount at least as large.
pub proof fn lemma_after_counters(v: AnalyticsView, tx: Transaction)
    ensures
        v.after(tx).total_transaction() == v.total_transaction() + 1,
        v.after(tx).total_volume() == v.total_volume() + amount_of(tx),
        v.after(tx).whale_transaction() == v.whale_transaction()
            + if amount_of(tx) > WHALE_THRESHOLD { 1nat } else { 0nat },
        v.after(tx).largest_transaction() == match v.largest_transaction() {
            Some(c) => if amount_of(c) >= amount_of(tx) { Some(c) } else { Some(tx) },
            None => Some(tx),
        },
{
    let np = v.processed.push(tx);
    lemma_entries_push(v.processed, tx);
    assert(np.drop_last() =~= v.processed);
    assert(entries(np).drop_last() =~= entries(v.processed));
    assert(entries(np).last() == entry_of(tx));
    assert(np.last() == tx);
}

/// The largest transaction's amount is at least that of every transaction
/// taken in.
pub proof fn lemma_largest_is_max(txs: Seq<Transaction>)
    ensures
        largest_of(txs) matches Some(l) ==> forall|i: int| 0 <= i < txs.len() ==> amount_of(#[trigger] txs[i]) <= amount_of(l),
    decreases txs.len(),
{
    if txs.len() > 0 {
        let prev = txs.drop_last();
        lemma_largest_is_max(prev);
        lemma_largest_is_member(prev);
        assert forall|i: int| 0 <= i < txs.len() implies amount_of(#[trigger] txs[i]) <= amount_of(largest_of(txs)->0) by {
            if i < prev.len() {
                assert(txs[i] == prev[i]);
            }
        }
    }
}

/// Eviction removes entries from the front only, and afterwards the front
/// entry, if any, is not expired.
pub proof fn lemma_evict_suffix(w: Seq<RollingTransaction>, now: i64)
    ensures
        exists|k: int| 0 <= k <= w.len() && evict(w, now) == w.skip(k),
        evict(w, now).len() > 0 ==> !expired(evict(w, now)[0], now),
    decreases w.len(),
{
    if w.len() > 0 && expired(w[0], now) {
        lemma_evict_suffix(w.drop_first(), now);
        let k = choose|k: int| 0 <= k <= w.drop_first().len() && evict(w.drop_first(), now) == w.drop_first().skip(k);
        assert(w.drop_first().skip(k) =~= w.skip(k + 1));
    } else {
        assert(w.skip(0) =~= w);
    }
}

/// Evicting twice at the same time evicts nothing more than evicting once.
pub proof fn lemma_evict_idempotent(w: Seq<RollingTransaction>, now: i64)
    ensures
        evict(evict(w, now), now) == evict(w, now),
    decreases w.len(),
{
    if w.len() > 0 && expired(w[0], now) {
        lemma_evict_idempotent(w.drop_first(), now);
    }
}

/// An entry that is not expired, appended to the window, survives the
/// eviction: the evicted window is the eviction of the old window with the
/// entry appended.
pub proof fn lemma_evict_push_fresh(w: Seq<RollingTransaction>, e: RollingTransaction, now: i64)
    requires
        !expired(e, now),
    ensures
        evict(w.push(e), now) == evict(w, now).push(e),
    decreases w.len(),
{
    if w.len() > 0 {
        assert(w.push(e)[0] == w[0]);
        if expired(w[0], now) {
            assert(w.push(e).drop_first() =~= w.drop_first().push(e));
            lemma_evict_push_fresh(w.drop_first(), e, now);
        }
    } else {
        assert(w.push(e) =~= seq![e]);
        assert(seq![e][0] == e);
    }
}

/// A transaction just taken in is the newest entry of the rolling window.
pub proof fn lemma_processed_in_window(v: AnalyticsView, tx: Transaction)
    ensures
        v.after(tx).window.len() > 0,
        v.after(tx).window.last() == entry_of(tx),
{
    lemma_evict_push_fresh(v.window, entry_of(tx), tx.timestamp);
}

/// What the analytics worker receives from the transaction stream.
pub enum WorkerEvent {
    /// A transaction arrived.
    Received(Transaction),
    /// The worker fell behind and this many transactions were skipped.
    Lagged(u64),
    /// The stream has closed.
    Closed,
}

/// What the analytics worker does after an event.
#[derive(Clone, Copy, Debug, PartialEq, Eq, Structural)]
pub enum WorkerAction {
    /// The transaction was taken in; report the new totals and go on.
    Processed,
    /// The transaction was refused for this reason; go on.
    Refused(AnalyticsError),
    /// Report that this many transactions were skipped, and go on.
    Lagged(u64),
    /// Report that the worker stops, and stop.
    Stop,
}

/// One step of the analytics worker: a received transaction is taken into
/// `state`; a lag is reported and the worker goes on; a closed stream stops it.
pub fn analytics_worker_step(state: &mut AnalyticsState, event: WorkerEvent) -> (r: WorkerAction)
    requires
        old(state).wf(),
    ensures
        final(state).wf(),
        final(state)@ == worker_step_view(old(state)@, event),
        match event {
            WorkerEvent::Received(tx) => {
                &&& (r == WorkerAction::Processed) == (tx.amount_spec() is Some
                    && !old(state)@.overflows_with(amount_of(tx)))
                &&& r == WorkerAction::Processed ==> final(state)@ == old(state)@.after(tx)
                &&& r != WorkerAction::Processed ==> final(state)@ == old(state)@
                &&& r == WorkerAction::Refused(AnalyticsError::InvalidAmount) <==> tx.amount_spec() is None
                &&& (r is Processed || r is Refused)
            },
            WorkerEvent::Lagged(n) => r == WorkerAction::Lagged(n) && final(state)@ == old(state)@,
            WorkerEvent::Closed => r == WorkerAction::Stop && final(state)@ == old(state)@,
        },
{
    match event {
        WorkerEvent::Received(tx) => match state.process_transaction(&tx) {
            Ok(()) => WorkerAction::Processed,
            Err(e) => WorkerAction::Refused(e),
        },
        WorkerEvent::Lagged(n) => WorkerAction::Lagged(n),
        WorkerEvent::Closed => WorkerAction::Stop,
    }
}

/// In every valid state the rolling window holds no more transactions, and
/// no more volume, than were taken in overall.
pub proof fn lemma_window_within_totals(v: AnalyticsView)
    requires
        v.valid(),
    ensures
        v.rolling_transaction_count() <= v.total_transaction(),
        v.rolling_volume() <= v.total_volume(),
{
    let k = choose|k: int| 0 <= k <= v.processed.len() && v.window == entries(v.processed).skip(k);
    lemma_sum_skip_le(entries(v.processed), k);
}

/// The abstract state before any transaction: nothing taken in, an empty
/// window.
pub open spec fn empty_view() -> AnalyticsView {
    AnalyticsView { processed: Seq::empty(), window: Seq::empty() }
}

/// The state reached from `v` by taking in each of `txs`, in order.
pub open spec fn after_all(v: AnalyticsView, txs: Seq<Transaction>) -> AnalyticsView
    decreases txs.len(),
{
    if txs.len() == 0 {
        v
    } else {
        after_all(v, txs.drop_last()).after(txs.last())
    }
}

/// The entries of `w` that are not expired at time `now`, in order.
pub open spec fn recent_at(w: Seq<RollingTransaction>, now: i64) -> Seq<RollingTransaction>
    decreases w.len(),
{
    if w.len() == 0 {
        w
    } else {
        let rest = recent_at(w.drop_last(), now);
        if expired(w.last(), now) {
            rest
        } else {
            rest.push(w.last())
        }
    }
}

/// Whether the timestamps of `w` never decrease.
pub open spec fn sorted_by_time(w: Seq<RollingTransaction>) -> bool {
    forall|i: int, j: int| 0 <= i <= j < w.len() ==> w[i].timestamp <= w[j].timestamp
}

/// Whether the timestamps of `txs` never decrease.
pub open spec fn nondecreasing_timestamps(txs: Seq<Transaction>) -> bool {
    forall|i: int, j: int| 0 <= i <= j < txs.len() ==> txs[i].timestamp <= txs[j].timestamp
}

proof fn lemma_recent_all_fresh(w: Seq<RollingTransaction>, now: i64)
    requires
        forall|i: int| 0 <= i < w.len() ==> !expired(#[trigger] w[i], now),
    ensures
        recent_at(w, now) == w,
    decreases w.len(),
{
    if w.len() > 0 {
        lemma_recent_all_fresh(w.drop_last(), now);
        assert(w.drop_last().push(w.last()) =~= w);
        assert(!expired(w[w.len() - 1], now));
    }
}

proof fn lemma_recent_skips_expired_front(x: RollingTransaction, rest: Seq<RollingTransaction>, now: i64)
    requires
        expired(x, now),
    ensures
        recent_at(seq![x] + rest, now) == recent_at(rest, now),
    decreases rest.len(),
{
    let w = seq![x] + rest;
    if rest.len() == 0 {
        assert(w =~= seq![x]);
        assert(w.drop_last() =~= Seq::<RollingTransaction>::empty());
        assert(rest =~= Seq::<RollingTransaction>::empty());
        assert(w.last() == x);
        assert(recent_at(Seq::<RollingTransaction>::empty(), now) == Seq::<RollingTransaction>::empty());
        assert(recent_at(w, now) == recent_at(w.drop_last(), now));
    } else {
        lemma_recent_skips_expired_front(x, rest.drop_last(), now);
        assert(w.drop_last() =~= seq![x] + rest.drop_last());
        assert(w.last() == rest.last());
        let d = recent_at(rest.drop_last(), now);
        assert(recent_at(w.drop_last(), now) == d);
        assert(recent_at(w, now) == if expired(w.last(), now) { d } else { d.push(w.last()) });
        assert(recent_at(rest, now) == if expired(rest.last(), now) { d } else { d.push(rest.last()) });
    }
}

proof fn lemma_evict_sorted(w: Seq<RollingTransaction>, now: i64)
    requires
        sorted_by_time(w),
    ensures
        evict(w, now) == recent_at(w, now),
    decreases w.len(),
{
    if w.len() > 0 {
        if expired(w[0], now) {
            let rest = w.drop_first();
            assert(sorted_by_time(rest)) by {
                assert forall|i: int, j: int| 0 <= i <= j < rest.len() implies rest[i].timestamp <= rest[j].timestamp by {
                    assert(rest[i] == w[i + 1] && rest[j] == w[j + 1]);
                }
            }
            lemma_evict_sorted(rest, now);
            assert(seq![w[0]] + rest =~= w);
            lemma_recent_skips_expired_front(w[0], rest, now);
        } else {
            assert forall|i: int| 0 <= i < w.len() implies !expired(#[trigger] w[i], now) by {
                assert(w[0].timestamp <= w[i].timestamp);
            }
            lemma_recent_all_fresh(w, now);
        }
    }
}

proof fn lemma_recent_twice(w: Seq<RollingTransaction>, a: i64, b: i64)
    requires
        a <= b,
    ensures
        recent_at(recent_at(w, a), b) == recent_at(w, b),
    decreases w.len(),
{
    if w.len() > 0 {
        let l = w.last();
        lemma_recent_twice(w.drop_last(), a, b);
        let r = recent_at(w.drop_last(), a);
        if !expired(l, a) {
            assert(r.push(l).drop_last() =~= r);
            assert(r.push(l).last() == l);
        }
    }
}

proof fn lemma_recent_bounded(w: Seq<RollingTransaction>, now: i64, m: i64)
    requires
        forall|i: int| 0 <= i < w.len() ==> (#[trigger] w[i]).timestamp <= m,
    ensures
        forall|i: int| 0 <= i < recent_at(w, now).len() ==> (#[trigger] recent_at(w, now)[i]).timestamp <= m,
    decreases w.len(),
{
    if w.len() > 0 {
        let p = w.drop_last();
        assert forall|i: int| 0 <= i < p.len() implies (#[trigger] p[i]).timestamp <= m by {
            assert(p[i] == w[i]);
        }
        lemma_recent_bounded(p, now, m);
        assert(w[w.len() - 1] == w.last());
        let r = recent_at(p, now);
        let l = w.last();
        if !expired(l, now) {
            assert forall|i: int| 0 <= i < r.push(l).len() implies (#[trigger] r.push(l)[i]).timestamp <= m by {
                if i < r.len() {
                    assert(r.push(l)[i] == r[i]);
                }
            }
        }
    }
}

proof fn lemma_recent_sorted(w: Seq<RollingTransaction>, now: i64)
    requires
        sorted_by_time(w),
    ensures
        sorted_by_time(recent_at(w, now)),
    decreases w.len(),
{
    if w.len() > 0 {
        let p = w.drop_last();
        let l = w.last();
        assert(sorted_by_time(p)) by {
            assert forall|i: int, j: int| 0 <= i <= j < p.len() implies p[i].timestamp <= p[j].timestamp by {
                assert(p[i] == w[i] && p[j] == w[j]);
            }
        }
        lemma_recent_sorted(p, now);
        assert forall|i: int| 0 <= i < p.len() implies (#[trigger] p[i]).timestamp <= l.timestamp by {
            assert(p[i] == w[i]);
            assert(w[w.len() - 1] == l);
        }
        lemma_recent_bounded(p, now, l.timestamp);
        let r = recent_at(p, now);
        if !expired(l, now) {
            assert forall|i: int, j: int| 0 <= i <= j < r.push(l).len() implies r.push(l)[i].timestamp <= r.push(l)[j].timestamp by {
                if j == r.len() {
                    if i < r.len() {
                        assert(r[i] == r.push(l)[i]);
                    }
                } else {
                    assert(r[i] == r.push(l)[i] && r[j] == r.push(l)[j]);
                }
            }
        }
    }
}

/// With timestamps that never decrease, the rolling window after taking in
/// `txs` from the empty state is exactly the entries of those transactions
/// within `ROLLING_WINDOW_SECONDS` of the latest one, in the order taken in.
pub proof fn lemma_window_is_recent(txs: Seq<Transaction>)
    requires
        txs.len() > 0,
        nondecreasing_timestamps(txs),
    ensures
        after_all(empty_view(), txs).window == recent_at(entries(txs), txs.last().timestamp),
    decreases txs.len(),
{
    let p = txs.drop_last();
    let t = txs.last();
    let e = entry_of(t);
    let now = t.timestamp;
    lemma_entries_push(p, t);
    assert(p.push(t) =~= txs);
    assert(entries(txs).drop_last() =~= entries(p));
    assert(entries(txs).last() == e);
    let v = after_all(empty_view(), p);
    lemma_evict_push_fresh(v.window, e, now);
    if p.len() == 0 {
        assert(v.window =~= Seq::<RollingTransaction>::empty());
        assert(entries(p) =~= Seq::<RollingTransaction>::empty());
    } else {
        assert(nondecreasing_timestamps(p)) by {
            assert forall|i: int, j: int| 0 <= i <= j < p.len() implies p[i].timestamp <= p[j].timestamp by {
                assert(p[i] == txs[i] && p[j] == txs[j]);
            }
        }
        lemma_window_is_recent(p);
        let before = p.last().timestamp;
        assert(before <= now) by {
            assert(p.last() == txs[txs.len() - 2]);
            assert(t == txs[txs.len() - 1]);
        }
        assert(sorted_by_time(entries(p))) by {
            assert forall|i: int, j: int| 0 <= i <= j < entries(p).len() implies entries(p)[i].timestamp <= entries(p)[j].timestamp by {
                assert(p[i] == txs[i] && p[j] == txs[j]);
            }
        }
        lemma_recent_sorted(entries(p), before);
        lemma_evict_sorted(v.window, now);
        lemma_recent_twice(entries(p), before, now);
        assert(evict(v.window, now) == recent_at(entries(p), now));
    }
    assert(!expired(e, now));
    assert(after_all(empty_view(), txs) == v.after(t));
    assert(after_all(empty_view(), txs).window == evict(v.window, now).push(e));
    assert(recent_at(entries(txs), now) == recent_at(entries(p), now).push(e));
}

/// What one step of the analytics worker makes of the state (see
/// `analytics_worker_step`).
pub open spec fn worker_step_view(v: AnalyticsView, event: WorkerEvent) -> AnalyticsView {
    match event {
        WorkerEvent::Received(tx) => if tx.amount_spec() is Some && !v.overflows_with(amount_of(tx)) {
            v.after(tx)
        } else {
            v
        },
        _ => v,
    }
}

/// The state the worker reaches from `v` after the steps for `events`, in order.
pub open spec fn worker_run(v: AnalyticsView, events: Seq<WorkerEvent>) -> AnalyticsView
    decreases events.len(),
{
    if events.len() == 0 {
        v
    } else {
        worker_step_view(worker_run(v, events.drop_last()), events.last())
    }
}

/// The transactions received among `events`, in order.
pub open spec fn received(events: Seq<WorkerEvent>) -> Seq<Transaction>
    decreases events.len(),
{
    if events.len() == 0 {
        Seq::empty()
    } else {
        let rest = received(events.drop_last());
        match events.last() {
            WorkerEvent::Received(tx) => rest.push(tx),
            _ => rest,
        }
    }
}

proof fn lemma_received_len(events: Seq<WorkerEvent>)
    ensures
        received(events).len() <= events.len(),
    decreases events.len(),
{
    if events.len() > 0 {
        lemma_received_len(events.drop_last());
    }
}

proof fn lemma_evict_len(w: Seq<RollingTransaction>, now: i64)
    ensures
        evict(w, now).len() <= w.len(),
    decreases w.len(),
{
    if w.len() > 0 && expired(w[0], now) {
        lemma_evict_len(w.drop_first(), now);
    }
}

proof fn lemma_after_all_bounds(v: AnalyticsView, txs: Seq<Transaction>)
    ensures
        after_all(v, txs).total_transaction() == v.total_transaction() + txs.len(),
        after_all(v, txs).total_volume() == v.total_volume() + amounts_sum(entries(txs)),
        after_all(v, txs).window.len() <= v.window.len() + txs.len(),
    decreases txs.len(),
{
    if txs.len() > 0 {
        let p = txs.drop_last();
        lemma_after_all_bounds(v, p);
        let w = after_all(v, p);
        lemma_after_counters(w, txs.last());
        lemma_evict_len(w.window.push(entry_of(txs.last())), txs.last().timestamp);
        lemma_entries_push(p, txs.last());
        assert(p.push(txs.last()) =~= txs);
        assert(entries(txs).drop_last() =~= entries(p));
    }
}

/// A worker fed transactions with valid amounts, and lags, takes in every
/// transaction exactly once, in the order received, and lags change nothing;
/// this holds while no counter overflows and a closed stream, which ends the
/// worker, comes last if at all.
pub proof fn lemma_worker_run(v: AnalyticsView, events: Seq<WorkerEvent>)
    requires
        forall|i: int| 0 <= i < events.len() - 1 ==> !(#[trigger] events[i] is Closed),
        forall|i: int| 0 <= i < received(events).len() ==> (#[trigger] received(events)[i]).amount_spec() is Some,
        v.total_transaction() + events.len() < u64::MAX,
        v.window.len() + events.len() < usize::MAX,
        v.total_volume() + amounts_sum(entries(received(events))) <= u128::MAX,
    ensures
        worker_run(v, events) == after_all(v, received(events)),
    decreases events.len(),
{
    if events.len() > 0 {
        let p = events.drop_last();
        let rp = received(p);
        assert forall|i: int| 0 <= i < rp.len() implies (#[trigger] rp[i]).amount_spec() is Some by {
            match events.last() {
                WorkerEvent::Received(tx) => assert(received(events)[i] == rp[i]),
                _ => {},
            }
        }
        assert forall|i: int| 0 <= i < p.len() - 1 implies !(#[trigger] p[i] is Closed) by {
            assert(p[i] == events[i]);
        }
        match events.last() {
            WorkerEvent::Received(tx) => {
                lemma_entries_push(rp, tx);
                assert(received(events) == rp.push(tx));
                assert(entries(rp.push(tx)).drop_last() =~= entries(rp));
                assert(amounts_sum(entries(received(events))) == amounts_sum(entries(rp)) + amount_of(tx));
                assert(received(events)[rp.len() as int] == tx);
            },
            _ => {},
        }
        lemma_worker_run(v, p);
        lemma_received_len(p);
        lemma_after_all_bounds(v, rp);
        match events.last() {
            WorkerEvent::Received(tx) => {
                assert(rp.push(tx).drop_last() =~= rp);
            },
            _ => {},
        }
    }
}

/// The largest transaction is the first one of maximal amount: `None` when
/// nothing was taken in, else `txs[k]` for the least index `k` whose amount
/// is at least every amount taken in.
pub proof fn lemma_largest_first_max(txs: Seq<Transaction>)
    ensures
        txs.len() == 0 ==> largest_of(txs) is None,
        txs.len() > 0 ==> exists|k: int| {
            &&& 0 <= k < txs.len()
            &&& largest_of(txs) == Some(txs[k])
            &&& forall|i: int| 0 <= i < txs.len() ==> amount_of(#[trigger] txs[i]) <= amount_of(txs[k])
            &&& forall|i: int| 0 <= i < k ==> amount_of(#[trigger] txs[i]) < amount_of(txs[k])
        },
    decreases txs.len(),
{
    if txs.len() > 0 {
        let p = txs.drop_last();
        let last = txs.last();
        lemma_largest_first_max(p);
        assert(txs[txs.len() - 1] == last);
        if p.len() == 0 {
            assert(txs.len() == 1);
            assert(largest_of(txs) == Some(txs[0]));
        } else {
            let k = choose|k: int| {
                &&& 0 <= k < p.len()
                &&& largest_of(p) == Some(p[k])
                &&& forall|i: int| 0 <= i < p.len() ==> amount_of(#[trigger] p[i]) <= amount_of(p[k])
                &&& forall|i: int| 0 <= i < k ==> amount_of(#[trigger] p[i]) < amount_of(p[k])
            };
            assert(p[k] == txs[k]);
            if amount_of(p[k]) >= amount_of(last) {
                assert forall|i: int| 0 <= i < txs.len() implies amount_of(#[trigger] txs[i]) <= amount_of(txs[k]) by {
                    if i < p.len() {
                        assert(txs[i] == p[i]);
                    }
                }
                assert forall|i: int| 0 <= i < k implies amount_of(#[trigger] txs[i]) < amount_of(txs[k]) by {
                    assert(txs[i] == p[i]);
                }
            } else {
                let n = txs.len() - 1;
                assert forall|i: int| 0 <= i < txs.len() implies amount_of(#[trigger] txs[i]) <= amount_of(txs[n]) by {
                    if i < p.len() {
                        assert(txs[i] == p[i]);
                    }
                }
                assert forall|i: int| 0 <= i < n implies amount_of(#[trigger] txs[i]) < amount_of(txs[n]) by {
                    assert(txs[i] == p[i]);
                }
            }
        }
    }
}

/// The transactions that the worker takes in when it runs from `v` over
/// `events`: each received transaction that the step from the state reached
/// so far accepts, in order.
pub open spec fn worker_accepted(v: AnalyticsView, events: Seq<WorkerEvent>) -> Seq<Transaction>
    decreases events.len(),
{
    if events.len() == 0 {
        Seq::empty()
    } else {
        let rest = worker_accepted(v, events.drop_last());
        let u = worker_run(v, events.drop_last());
        match events.last() {
            WorkerEvent::Received(tx) => if tx.amount_spec() is Some && !u.overflows_with(amount_of(tx)) {
                rest.push(tx)
            } else {
                rest
            },
            _ => rest,
        }
    }
}

/// For every sequence of events, the worker's state is the one reached from
/// where it started by taking in the transactions it accepted, each exactly
/// once and in the order received; refused transactions and lags change
/// nothing.
pub proof fn lemma_worker_run_any(v: AnalyticsView, events: Seq<WorkerEvent>)
    ensures
        worker_run(v, events) == after_all(v, worker_accepted(v, events)),
    decreases events.len(),
{
    if events.len() > 0 {
        let p = events.drop_last();
        lemma_worker_run_any(v, p);
        let rest = worker_accepted(v, p);
        match events.last() {
            WorkerEvent::Received(tx) => {
                assert(rest.push(tx).drop_last() =~= rest);
                assert(rest.push(tx).last() == tx);
            },
            _ => {},
        }
    }
}

/// For a state reached from the empty one by taking in transactions (with no
/// other eviction) whose timestamps never decrease, the rolling window is
/// exactly the entries of those within `ROLLING_WINDOW_SECONDS` of the latest,
/// in order.
pub proof fn lemma_history_window(v: AnalyticsView)
    requires
        v.from_history(),
        v.processed.len() > 0,
        nondecreasing_timestamps(v.processed),
    ensures
        v.window == recent_at(entries(v.processed), v.processed.last().timestamp),
{
    lemma_window_is_recent(v.processed);
}

/// An entry is expired exactly when it is more than sixty seconds older than
/// the current time, whatever the size of the timestamps.
pub proof fn lemma_expired_exact(entry: RollingTransaction, now: i64)
    ensures
        expired(entry, now) <==> now as int - entry.timestamp as int > 60,
{
}

/// How many of `txs` have a timestamp within sixty seconds of `now`.
pub open spec fn count_within_minute(txs: Seq<Transaction>, now: i64) -> nat
    decreases txs.len(),
{
    if txs.len() == 0 {
        0
    } else {
        count_within_minute(txs.drop_last(), now) + if now as int - txs.last().timestamp as int <= 60 {
            1nat
        } else {
            0nat
        }
    }
}

proof fn lemma_recent_members(w: Seq<RollingTransaction>, now: i64)
    ensures
        forall|i: int| 0 <= i < recent_at(w, now).len() ==> {
            &&& now as int - (#[trigger] recent_at(w, now)[i]).timestamp as int <= 60
            &&& w.contains(recent_at(w, now)[i])
        },
        forall|j: int| 0 <= j < w.len() && now as int - (#[trigger] w[j]).timestamp as int <= 60 ==> recent_at(w, now).contains(w[j]),
    decreases w.len(),
{
    if w.len() > 0 {
        let p = w.drop_last();
        let l = w.last();
        let r = recent_at(p, now);
        lemma_recent_members(p, now);
        assert(w[w.len() - 1] == l);
        assert forall|i: int| 0 <= i < recent_at(w, now).len() implies {
            &&& now as int - (#[trigger] recent_at(w, now)[i]).timestamp as int <= 60
            &&& w.contains(recent_at(w, now)[i])
        } by {
            if !expired(l, now) && i == r.len() {
                assert(recent_at(w, now)[i] == l);
            } else {
                assert(recent_at(w, now)[i] == r[i]);
                let k = choose|k: int| 0 <= k < p.len() && p[k] == r[i];
                assert(w[k] == p[k]);
            }
        }
        assert forall|j: int| 0 <= j < w.len() && now as int - (#[trigger] w[j]).timestamp as int <= 60 implies recent_at(w, now).contains(w[j]) by {
            if j == w.len() - 1 {
                assert(recent_at(w, now)[r.len() as int] == l);
            } else {
                assert(w[j] == p[j]);
                let k = choose|k: int| 0 <= k < r.len() && r[k] == p[j];
                if !expired(l, now) {
                    assert(recent_at(w, now)[k] == r[k]);
                }
            }
        }
    }
}

proof fn lemma_recent_count(txs: Seq<Transaction>, now: i64)
    ensures
        recent_at(entries(txs), now).len() == count_within_minute(txs, now),
    decreases txs.len(),
{
    if txs.len() > 0 {
        let p = txs.drop_last();
        lemma_recent_count(p, now);
        lemma_entries_push(p, txs.last());
        assert(p.push(txs.last()) =~= txs);
        assert(entries(txs).drop_last() =~= entries(p));
        assert(entries(txs).last() == entry_of(txs.last()));
    }
}

/// After taking in transactions with timestamps that never decrease, the
/// rolling window holds exactly the last minute: as many entries as there are
/// transactions within sixty seconds of the latest one, each of them within
/// sixty seconds of it, and the entry of every such transaction.
pub proof fn lemma_window_is_last_minute(v: AnalyticsView)
    requires
        v.from_history(),
        v.processed.len() > 0,
        nondecreasing_timestamps(v.processed),
    ensures
        v.window.len() == count_within_minute(v.processed, v.processed.last().timestamp),
        forall|i: int| 0 <= i < v.window.len() ==>
            v.processed.last().timestamp as int - (#[trigger] v.window[i]).timestamp as int <= 60,
        forall|j: int| 0 <= j < v.processed.len()
            && v.processed.last().timestamp as int - (#[trigger] v.processed[j]).timestamp as int <= 60
            ==> v.window.contains(entry_of(v.processed[j])),
{
    let now = v.processed.last().timestamp;
    lemma_window_is_recent(v.processed);
    lemma_recent_count(v.processed, now);
    let es = entries(v.processed);
    lemma_recent_members(es, now);
    assert(es.len() == v.processed.len());
    assert forall|j: int| 0 <= j < v.processed.len()
        && now as int - (#[trigger] v.processed[j]).timestamp as int <= 60 implies v.window.contains(entry_of(v.processed[j])) by {
        assert(es[j] == entry_of(v.processed[j]));
    }
}

/// Evicting a window ordered by time at `now` keeps exactly the entries at
/// most sixty seconds older than `now`, in order: every kept entry is, and
/// every such entry is kept.
pub proof fn lemma_evict_keeps_last_minute(w: Seq<RollingTransaction>, now: i64)
    requires
        sorted_by_time(w),
    ensures
        forall|i: int| 0 <= i < evict(w, now).len() ==> now as int - (#[trigger] evict(w, now)[i]).timestamp as int <= 60,
        forall|j: int| 0 <= j < w.len() && now as int - (#[trigger] w[j]).timestamp as int <= 60 ==> evict(w, now).contains(w[j]),
        forall|j: int| 0 <= j < w.len() && now as int - (#[trigger] w[j]).timestamp as int > 60 ==> !evict(w, now).contains(w[j]),
{
    lemma_evict_sorted(w, now);
    lemma_recent_members(w, now);
    assert forall|j: int| 0 <= j < w.len() && now as int - (#[trigger] w[j]).timestamp as int > 60 implies !evict(w, now).contains(w[j]) by {
        if evict(w, now).contains(w[j]) {
            let k = choose|k: int| 0 <= k < evict(w, now).len() && evict(w, now)[k] == w[j];
            assert(now as int - evict(w, now)[k].timestamp as int <= 60);
        }
    }
}

} // verus!
