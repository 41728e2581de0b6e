//! What a built block holds.
use crate::building::consistency::{check_included, consistent, first_fault, lemma_consistent_means, lemma_faultless, ConsistencyError};
use crate::clock::{in_supported_years, Span, Timestamp};
use crate::primitives::{Address, BundleErr, ExecutionError, ExecutionResult, OrderErr, OrderKind};
use crate::uint::U256;
use vstd::prelude::*;

verus! {

/// How many of the included orders are of a kind.
pub open spec fn orders_of_kind(included: Seq<ExecutionResult>, kind: OrderKind) -> nat
    decreases included.len(),
{
    if included.len() == 0 {
        0
    } else {
        orders_of_kind(included.drop_last(), kind) + (if included.last().order.kind == kind {
            1nat
        } else {
            0nat
        })
    }
}

/// How many transactions were executed for preconfirmed orders.
pub open spec fn preconf_txs(included: Seq<ExecutionResult>) -> nat
    decreases included.len(),
{
    if included.len() == 0 {
        0
    } else {
        preconf_txs(included.drop_last()) + (if included.last().order.preconf {
            included.last().txs@.len()
        } else {
            0
        })
    }
}

/// An order that is added is counted once, under its own kind, and its transactions are counted
/// exactly if it is preconfirmed.
pub proof fn lemma_added_order_is_counted(
    included: Seq<ExecutionResult>,
    added: ExecutionResult,
    kind: OrderKind,
)
    ensures
        orders_of_kind(included.push(added), kind) == orders_of_kind(included, kind) + (
        if added.order.kind == kind {
            1nat
        } else {
            0nat
        }),
        preconf_txs(included.push(added)) == preconf_txs(included) + (if added.order.preconf {
            added.txs@.len()
        } else {
            0
        }),
{
    assert(included.push(added).drop_last() =~= included);
}

/// As many orders are of a kind as a selection of that kind leaves.
pub proof fn lemma_orders_are_counted(
    included: Seq<ExecutionResult>,
    kind: OrderKind,
    selects: spec_fn(ExecutionResult) -> bool,
)
    requires
        forall|result: ExecutionResult| #[trigger]
            selects(result) <==> result.order.kind == kind,
    ensures
        orders_of_kind(included, kind) == included.filter(selects).len(),
    decreases included.len(),
{
    reveal(Seq::filter);
    if included.len() > 0 {
        lemma_orders_are_counted(included.drop_last(), kind, selects);
    }
}

/// A block without orders has none of any kind, and no transactions.
pub proof fn lemma_nothing_is_counted(kind: OrderKind)
    ensures
        orders_of_kind(Seq::empty(), kind) == 0,
        preconf_txs(Seq::empty()) == 0,
{
}

/// Data about a built block: which orders were included, and where the value came from.
#[derive(Debug, Clone, PartialEq, Eq)]
pub struct BuiltBlockTrace {
    pub included_orders: Vec<ExecutionResult>,
    /// How much is bid (paid to the validator).
    pub bid_value: U256,
    /// True block value (the change of the coinbase balance) without the cost of the payout to
    /// the validator.
    pub true_bid_value: U256,
    /// Some bundle failed for want of a signer.
    pub got_no_signer_error: bool,
    pub orders_closed_at: Timestamp,
    pub orders_sealed_at: Timestamp,
    pub fill_time: Span,
    pub finalize_time: Span,
    pub preconf_tx_count: i32,
}

impl Default for BuiltBlockTrace {
    fn default() -> (trace: Self)
        ensures
            trace.is_empty(),
            trace.included_orders@.len() == 0,
            trace.bid_value@ == 0,
            trace.true_bid_value@ == 0,
            !trace.got_no_signer_error,
            trace.fill_time.seconds == 0 && trace.fill_time.nanoseconds == 0,
            trace.finalize_time.seconds == 0 && trace.finalize_time.nanoseconds == 0,
            trace.preconf_tx_count == 0,
            trace.counts_preconf_txs(),
            call_ensures(Timestamp::now_utc, (), trace.orders_closed_at),
            call_ensures(Timestamp::now_utc, (), trace.orders_sealed_at),
            in_supported_years(trace.orders_closed_at@),
            in_supported_years(trace.orders_sealed_at@),
    {
        Self::new()
    }
}

impl BuiltBlockTrace {
    /// Nothing is included yet, and nothing is bid or spent.
    pub open spec fn is_empty(self) -> bool {
        &&& self.included_orders@.len() == 0
        &&& self.bid_value@ == 0
        &&& self.true_bid_value@ == 0
        &&& !self.got_no_signer_error
        &&& self.fill_time.wf() && self.fill_time.nanos() == 0
        &&& self.finalize_time.wf() && self.finalize_time.nanos() == 0
        &&& self.preconf_tx_count == 0
    }

    /// The count of preconfirmed transactions is that of the included orders.
    pub open spec fn counts_preconf_txs(self) -> bool {
        self.preconf_tx_count == preconf_txs(self.included_orders@)
    }

    /// The trace of a block that nothing is included in yet. Both timestamps are those of the
    /// call.
    pub fn new() -> (trace: Self)
        ensures
            trace.is_empty(),
            trace.included_orders@.len() == 0,
            trace.bid_value@ == 0,
            trace.true_bid_value@ == 0,
            !trace.got_no_signer_error,
            trace.fill_time.seconds == 0 && trace.fill_time.nanoseconds == 0,
            trace.finalize_time.seconds == 0 && trace.finalize_time.nanoseconds == 0,
            trace.preconf_tx_count == 0,
            trace.counts_preconf_txs(),
            call_ensures(Timestamp::now_utc, (), trace.orders_closed_at),
            call_ensures(Timestamp::now_utc, (), trace.orders_sealed_at),
            in_supported_years(trace.orders_closed_at@),
            in_supported_years(trace.orders_sealed_at@),
    {
        Self::new_at(Timestamp::now_utc(), Timestamp::now_utc())
    }

    /// The trace of a block that nothing is included in yet, with the given timestamps.
    pub fn new_at(orders_closed_at: Timestamp, orders_sealed_at: Timestamp) -> (trace: Self)
        ensures
            trace.is_empty(),
            trace.included_orders@.len() == 0,
            trace.bid_value@ == 0,
            trace.true_bid_value@ == 0,
            !trace.got_no_signer_error,
            trace.fill_time.seconds == 0 && trace.fill_time.nanoseconds == 0,
            trace.finalize_time.seconds == 0 && trace.finalize_time.nanoseconds == 0,
            trace.preconf_tx_count == 0,
            trace.counts_preconf_txs(),
            trace.orders_closed_at == orders_closed_at,
            trace.orders_sealed_at == orders_sealed_at,
    {
        BuiltBlockTrace {
            included_orders: Vec::new(),
            bid_value: U256::from_u128(0),
            true_bid_value: U256::from_u128(0),
            got_no_signer_error: false,
            orders_closed_at,
            orders_sealed_at,
            fill_time: Span::zero(),
            finalize_time: Span::zero(),
            preconf_tx_count: 0,
        }
    }

    /// To be called after the block is sealed: the orders were closed at the given time, and
    /// are sealed now.
    pub fn update_orders_timestamps_after_block_sealed(&mut self, orders_closed_at: Timestamp)
        ensures
            *final(self) == (BuiltBlockTrace {
                orders_closed_at,
                orders_sealed_at: final(self).orders_sealed_at,
                ..*old(self)
            }),
            call_ensures(Timestamp::now_utc, (), final(self).orders_sealed_at),
            in_supported_years(final(self).orders_sealed_at@),
            old(self).counts_preconf_txs() ==> final(self).counts_preconf_txs(),
    {
        self.set_orders_timestamps(orders_closed_at, Timestamp::now_utc());
    }

    /// Sets when the orders were closed and when they were sealed.
    pub fn set_orders_timestamps(
        &mut self,
        orders_closed_at: Timestamp,
        orders_sealed_at: Timestamp,
    )
        ensures
            *final(self) == (BuiltBlockTrace {
                orders_closed_at,
                orders_sealed_at,
                ..*old(self)
            }),
            old(self).counts_preconf_txs() ==> final(self).counts_preconf_txs(),
    {
        self.orders_closed_at = orders_closed_at;
        self.orders_sealed_at = orders_sealed_at;
    }

    /// To be called after an order was committed. The transactions of a preconfirmed order are
    /// counted; the count must have room for them.
    pub fn add_included_order(&mut self, execution_result: ExecutionResult)
        requires
            execution_result.order.preconf ==> i32::MIN <= old(self).preconf_tx_count
                + execution_result.txs@.len() as i32 <= i32::MAX,
        ensures
            final(self).included_orders@ == old(self).included_orders@.push(execution_result),
            final(self).preconf_tx_count == old(self).preconf_tx_count + (
            if execution_result.order.preconf {
                execution_result.txs@.len() as i32
            } else {
                0i32
            }),
            *final(self) == (BuiltBlockTrace {
                included_orders: final(self).included_orders,
                preconf_tx_count: final(self).preconf_tx_count,
                ..*old(self)
            }),
            old(self).counts_preconf_txs() && (execution_result.order.preconf
                ==> execution_result.txs@.len() <= i32::MAX) ==> final(self).counts_preconf_txs(),
    {
        if execution_result.order.preconf {
            let preconf_tx_len: i32 = #[verifier::truncate] (execution_result.txs.len() as i32);
            self.preconf_tx_count = self.preconf_tx_count + preconf_tx_len;
        }
        self.included_orders.push(execution_result);
        assert(self.included_orders@.drop_last() =~= old(self).included_orders@);
    }

    /// To be called after an order could not be committed.
    pub fn modify_payment_when_no_signer_error(&mut self, err: &ExecutionError)
        ensures
            *final(self) == (BuiltBlockTrace {
                got_no_signer_error: old(self).got_no_signer_error || *err
                    == ExecutionError::OrderError(OrderErr::Bundle(BundleErr::NoSigner)),
                ..*old(self)
            }),
            old(self).counts_preconf_txs() ==> final(self).counts_preconf_txs(),
    {
        if let ExecutionError::OrderError(OrderErr::Bundle(BundleErr::NoSigner)) = err {
            self.got_no_signer_error = true;
        }
    }

    /// The number of included transactions, bundles and share bundles.
    pub fn used_order_count(&self) -> (count: (usize, usize, usize))
        ensures
            count.0 == orders_of_kind(self.included_orders@, OrderKind::Tx),
            count.1 == orders_of_kind(self.included_orders@, OrderKind::Bundle),
            count.2 == orders_of_kind(self.included_orders@, OrderKind::ShareBundle),
            count.0 + count.1 + count.2 == self.included_orders@.len(),
            count.0 == self.included_orders@.filter(
                |result: ExecutionResult| result.order.kind == OrderKind::Tx,
            ).len(),
            count.1 == self.included_orders@.filter(
                |result: ExecutionResult| result.order.kind == OrderKind::Bundle,
            ).len(),
            count.2 == self.included_orders@.filter(
                |result: ExecutionResult| result.order.kind == OrderKind::ShareBundle,
            ).len(),
    {
        let mut count: (usize, usize, usize) = (0, 0, 0);
        let mut n: usize = 0;
        let ghost included = self.included_orders@;
        while n < self.included_orders.len()
            invariant
                n <= included.len(),
                included == self.included_orders@,
                count.0 == orders_of_kind(included.take(n as int), OrderKind::Tx),
                count.1 == orders_of_kind(included.take(n as int), OrderKind::Bundle),
                count.2 == orders_of_kind(included.take(n as int), OrderKind::ShareBundle),
                count.0 + count.1 + count.2 == n,
            decreases included.len() - n,
        {
            assert(included.take(n + 1).drop_last() =~= included.take(n as int));
            count = match self.included_orders[n].order.kind {
                OrderKind::Tx => (count.0 + 1, count.1, count.2),
                OrderKind::Bundle => (count.0, count.1 + 1, count.2),
                OrderKind::ShareBundle => (count.0, count.1, count.2 + 1),
            };
            n += 1;
        }
        proof {
            assert(included.take(n as int) =~= included);
            lemma_orders_are_counted(
                included,
                OrderKind::Tx,
                |result: ExecutionResult| result.order.kind == OrderKind::Tx,
            );
            lemma_orders_are_counted(
                included,
                OrderKind::Bundle,
                |result: ExecutionResult| result.order.kind == OrderKind::Bundle,
            );
            lemma_orders_are_counted(
                included,
                OrderKind::ShareBundle,
                |result: ExecutionResult| result.order.kind == OrderKind::ShareBundle,
            );
        }
        count
    }

    /// Checks that the block keeps the promises made to its orders: one order at most per
    /// replacement key, a receipt for each transaction, nothing from or to a blocked address,
    /// no revert where none is allowed. Where it does not, says which promise the first faulty
    /// order breaks.
    pub fn verify_bundle_consistency(
        &self,
        blocklist: &ahash::HashSet<Address>,
    ) -> (verified: Result<(), ConsistencyError>)
        ensures
            verified is Ok <==> consistent(self.included_orders@, blocklist@),
            verified == (match first_fault(
                self.included_orders@,
                self.included_orders@.len(),
                blocklist@,
            ) {
                None => Ok(()),
                Some(fault) => Err(fault),
            }),
            verified is Ok ==> forall|i: int, j: int|
                #![trigger self.included_orders@[i].txs@[j]]
                0 <= i < self.included_orders@.len() && 0 <= j < self.included_orders@[i].txs@.len()
                    ==> !blocklist@.contains(self.included_orders@[i].txs@[j].signer) && (
                self.included_orders@[i].txs@[j].to is Some ==> !blocklist@.contains(
                    self.included_orders@[i].txs@[j].to->0,
                )),
            verified is Ok ==> forall|i: int|
                0 <= i < self.included_orders@.len() ==> (
                #[trigger] self.included_orders@[i]).txs@.len()
                    == self.included_orders@[i].receipts@.len(),
            verified is Ok ==> forall|i: int, j: int, l: int|
                #![trigger self.included_orders@[i].txs@[j], self.included_orders@[i].order.txs@[l]]
                0 <= i < self.included_orders@.len() && 0 <= j < self.included_orders@[i].txs@.len()
                    && 0 <= l < self.included_orders@[i].order.txs@.len()
                    && self.included_orders@[i].order.txs@[l].hash
                    == self.included_orders@[i].txs@[j].hash && (forall|m: int|
                    l < m < self.included_orders@[i].order.txs@.len() ==> (
                    #[trigger] self.included_orders@[i].order.txs@[m]).hash
                        != self.included_orders@[i].txs@[j].hash)
                    ==> self.included_orders@[i].receipts@[j].success
                    || self.included_orders@[i].order.txs@[l].can_revert,
            verified is Ok ==> forall|i: int, a: int, k: int, b: int|
                #![trigger self.included_orders@[i].order.original_orders@[a], self.included_orders@[k].order.original_orders@[b]]
                0 <= i < self.included_orders@.len() && 0 <= a
                    < self.included_orders@[i].order.original_orders@.len() && 0 <= k
                    < self.included_orders@.len() && 0 <= b
                    < self.included_orders@[k].order.original_orders@.len()
                    && self.included_orders@[i].order.original_orders@[a] is Some
                    && self.included_orders@[i].order.original_orders@[a]
                    == self.included_orders@[k].order.original_orders@[b] ==> i == k && a == b,
    {
        proof {
            lemma_faultless(self.included_orders@, self.included_orders@.len(), blocklist@);
            assert(self.included_orders@.take(self.included_orders@.len() as int)
                =~= self.included_orders@);
            lemma_consistent_means(self.included_orders@, blocklist@);
        }
        check_included(&self.included_orders, blocklist)
    }
}

} // verus!
