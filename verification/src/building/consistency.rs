//! The promises that a built block makes to its orders, and the check that it keeps them.
use crate::building::tables::{is_listed, key_is_used, key_item, lemma_key_item_injective, list_tx, listed_tx, mark_key_used, no_keys, no_txs, to_key_item, KeyItem};
use crate::primitives::{Address, ExecutionResult, ListedTx, OrderReplacementKey, B256};
use vstd::prelude::*;
use vstd::string::*;

verus! {

/// The promise that a built block breaks.
#[derive(Debug, Clone, Copy, PartialEq, Eq)]
pub enum ConsistencyError {
    /// More than one order is included with the same replacement key.
    DuplicateReplacementKey(OrderReplacementKey),
    /// An included order has a different number of transactions and receipts.
    ReceiptCountMismatch,
    /// An included order has a transaction from or to a blocked address.
    BlockedAddress,
    /// A transaction reverted although its order does not allow that.
    UnexpectedRevert,
}

impl ConsistencyError {
    /// The text that [`ConsistencyError::display`] gives.
    pub open spec fn text(self) -> Seq<char> {
        match self {
            ConsistencyError::DuplicateReplacementKey(key) =>
                "More than one order is included with the same replacement data: "@ + key.text(),
            ConsistencyError::ReceiptCountMismatch =>
                "Included order had different number of txs and receipts"@,
            ConsistencyError::BlockedAddress => "Included order had tx from or to blocked address"@,
            ConsistencyError::UnexpectedRevert => "Bundle tx reverted that is not revertable"@,
        }
    }

    /// The error in words.
    pub fn display(&self) -> (text: String)
        ensures
            text@ == self.text(),
            *self matches ConsistencyError::DuplicateReplacementKey(key) ==> text@
                == "More than one order is included with the same replacement data: "@
                + key.text(),
            *self is ReceiptCountMismatch ==> text@
                == "Included order had different number of txs and receipts"@,
            *self is BlockedAddress ==> text@
                == "Included order had tx from or to blocked address"@,
            *self is UnexpectedRevert ==> text@ == "Bundle tx reverted that is not revertable"@,
    {
        match self {
            ConsistencyError::DuplicateReplacementKey(key) => {
                "More than one order is included with the same replacement data: ".to_owned()
                    .concat(key.display().as_str())
            },
            ConsistencyError::ReceiptCountMismatch =>
                "Included order had different number of txs and receipts".to_owned(),
            ConsistencyError::BlockedAddress =>
                "Included order had tx from or to blocked address".to_owned(),
            ConsistencyError::UnexpectedRevert =>
                "Bundle tx reverted that is not revertable".to_owned(),
        }
    }
}

/// The keys among `keys` that are there, in order.
pub open spec fn present_keys(keys: Seq<Option<OrderReplacementKey>>) -> Seq<OrderReplacementKey>
    decreases keys.len(),
{
    if keys.len() == 0 {
        Seq::empty()
    } else {
        match keys.last() {
            Some(key) => present_keys(keys.drop_last()).push(key),
            None => present_keys(keys.drop_last()),
        }
    }
}

/// The replacement keys of all included orders, in the order of inclusion.
pub open spec fn block_keys(included: Seq<ExecutionResult>) -> Seq<OrderReplacementKey>
    decreases included.len(),
{
    if included.len() == 0 {
        Seq::empty()
    } else {
        block_keys(included.drop_last()) + present_keys(included.last().order.original_orders@)
    }
}

/// The first key that occurs a second time, if any does.
pub open spec fn repeated_key(keys: Seq<OrderReplacementKey>) -> Option<OrderReplacementKey>
    decreases keys.len(),
{
    if keys.len() == 0 {
        None
    } else if repeated_key(keys.drop_last()) is Some {
        repeated_key(keys.drop_last())
    } else if keys.drop_last().contains(keys.last()) {
        Some(keys.last())
    } else {
        None
    }
}

/// Whether a transaction was executed from or to an address of the blocklist.
pub open spec fn touches_blocked(result: ExecutionResult, blocklist: Set<Address>) -> bool {
    exists|j: int|
        0 <= j < result.txs@.len() && {
            ||| blocklist.contains((#[trigger] result.txs@[j]).signer)
            ||| result.txs@[j].to is Some && blocklist.contains(result.txs@[j].to->0)
        }
}

/// Whether an order lists a transaction, and if so, whether its last listing lets it revert.
pub open spec fn last_listing(txs: Seq<ListedTx>, hash: B256) -> Option<bool>
    decreases txs.len(),
{
    if txs.len() == 0 {
        None
    } else if txs.last().hash == hash {
        Some(txs.last().can_revert)
    } else {
        last_listing(txs.drop_last(), hash)
    }
}

/// Whether a transaction failed that the order lists as one that must not revert.
pub open spec fn reverted_unexpectedly(result: ExecutionResult) -> bool {
    exists|j: int|
        0 <= j < result.txs@.len() && !result.receipts@[j].success && last_listing(
            result.order.txs@,
            (#[trigger] result.txs@[j]).hash,
        ) == Some(false)
}

/// What is wrong with the included order at `i`, given those before it.
pub open spec fn fault_at(
    included: Seq<ExecutionResult>,
    i: int,
    blocklist: Set<Address>,
) -> Option<ConsistencyError> {
    let key = repeated_key(block_keys(included.take(i + 1)));
    if key is Some {
        Some(ConsistencyError::DuplicateReplacementKey(key->0))
    } else if included[i].txs@.len() != included[i].receipts@.len() {
        Some(ConsistencyError::ReceiptCountMismatch)
    } else if touches_blocked(included[i], blocklist) {
        Some(ConsistencyError::BlockedAddress)
    } else if reverted_unexpectedly(included[i]) {
        Some(ConsistencyError::UnexpectedRevert)
    } else {
        None
    }
}

/// What is wrong with the first faulty order among the first `n`, if any is faulty.
pub open spec fn first_fault(
    included: Seq<ExecutionResult>,
    n: nat,
    blocklist: Set<Address>,
) -> Option<ConsistencyError>
    decreases n,
{
    if n == 0 {
        None
    } else if first_fault(included, (n - 1) as nat, blocklist) is Some {
        first_fault(included, (n - 1) as nat, blocklist)
    } else {
        fault_at(included, n - 1, blocklist)
    }
}

/// A block keeps its promises: no replacement key is used twice, every transaction has its
/// receipt, no address of the blocklist is touched, and nothing reverted that must not.
pub open spec fn consistent(included: Seq<ExecutionResult>, blocklist: Set<Address>) -> bool {
    &&& block_keys(included).no_duplicates()
    &&& forall|i: int|
        #![trigger included[i]]
        0 <= i < included.len() ==> {
            &&& included[i].txs@.len() == included[i].receipts@.len()
            &&& !touches_blocked(included[i], blocklist)
            &&& !reverted_unexpectedly(included[i])
        }
}

/// The keys of two lists are those of the first and then those of the second.
proof fn lemma_present_keys_concat(
    a: Seq<Option<OrderReplacementKey>>,
    b: Seq<Option<OrderReplacementKey>>,
)
    ensures
        present_keys(a + b) == present_keys(a) + present_keys(b),
    decreases b.len(),
{
    if b.len() == 0 {
        assert(a + b =~= a);
    } else {
        lemma_present_keys_concat(a, b.drop_last());
        assert((a + b).drop_last() =~= a + b.drop_last());
        assert((a + b).last() == b.last());
    }
}

/// A repetition stays the first one, whatever keys follow.
proof fn lemma_repetition_stays(a: Seq<OrderReplacementKey>, b: Seq<OrderReplacementKey>)
    requires
        repeated_key(a) is Some,
    ensures
        repeated_key(a + b) == repeated_key(a),
    decreases b.len(),
{
    if b.len() == 0 {
        assert(a + b =~= a);
    } else {
        lemma_repetition_stays(a, b.drop_last());
        assert((a + b).drop_last() =~= a + b.drop_last());
    }
}

/// Nothing is repeated exactly if the keys are pairwise distinct.
proof fn lemma_no_repetition(keys: Seq<OrderReplacementKey>)
    ensures
        repeated_key(keys) is None <==> keys.no_duplicates(),
    decreases keys.len(),
{
    if keys.len() > 0 {
        let init = keys.drop_last();
        lemma_no_repetition(init);
        if keys.no_duplicates() {
            assert(init.no_duplicates());
            assert(!init.contains(keys.last()));
        } else if init.no_duplicates() && !init.contains(keys.last()) {
            assert forall|i: int, j: int|
                0 <= i < keys.len() && 0 <= j < keys.len() && i != j implies keys[i] != keys[j] by {
                if i < init.len() {
                    assert(init[i] == keys[i]);
                }
                if j < init.len() {
                    assert(init[j] == keys[j]);
                }
            }
        }
    }
}

/// The table holds the items of exactly these keys.
spec fn holds_keys(used: Set<KeyItem>, keys: Seq<OrderReplacementKey>) -> bool {
    forall|key: OrderReplacementKey| #[trigger]
        used.contains(key_item(key)) <==> keys.contains(key)
}

/// Adds the keys of an order to the table of used keys, up to the first that is in it already.
fn use_keys(
    used: &mut ahash::HashSet<KeyItem>,
    orders: &Vec<Option<OrderReplacementKey>>,
    Ghost(before): Ghost<Seq<OrderReplacementKey>>,
) -> (repeated: Option<OrderReplacementKey>)
    requires
        holds_keys(old(used)@, before),
        repeated_key(before) is None,
    ensures
        repeated == repeated_key(before + present_keys(orders@)),
        repeated is None ==> holds_keys(final(used)@, before + present_keys(orders@)),
{
    let mut n: usize = 0;
    assert(before + present_keys(orders@.take(0)) =~= before);
    while n < orders.len()
        invariant
            n <= orders.len(),
            holds_keys(used@, before + present_keys(orders@.take(n as int))),
            repeated_key(before + present_keys(orders@.take(n as int))) is None,
        decreases orders.len() - n,
    {
        let ghost keys = before + present_keys(orders@.take(n as int));
        let ghost next = before + present_keys(orders@.take(n + 1));
        assert(orders@.take(n + 1).drop_last() =~= orders@.take(n as int));
        if let Some(key) = &orders[n] {
            let item = to_key_item(key);
            assert(next =~= keys.push(*key));
            assert(next.drop_last() =~= keys);
            if key_is_used(used, &item) {
                proof {
                    let rest = orders@.skip(n + 1);
                    assert(orders@ =~= orders@.take(n + 1) + rest);
                    lemma_present_keys_concat(orders@.take(n + 1), rest);
                    lemma_repetition_stays(next, present_keys(rest));
                    assert(before + present_keys(orders@) =~= next + present_keys(rest));
                }
                return Some(*key);
            }
            let ghost held = used@;
            mark_key_used(used, item);
            assert forall|k: OrderReplacementKey| #[trigger]
                used@.contains(key_item(k)) <==> next.contains(k) by {
                if key_item(k) == key_item(*key) {
                    lemma_key_item_injective(k, *key);
                    assert(next[next.len() - 1] == k);
                }
                assert(held.contains(key_item(k)) <==> keys.contains(k));
                if keys.contains(k) {
                    let i = choose|i: int| 0 <= i < keys.len() && keys[i] == k;
                    assert(next[i] == k);
                }
                if next.contains(k) && k != *key {
                    let i = choose|i: int| 0 <= i < next.len() && next[i] == k;
                    assert(keys[i] == k);
                }
            }
        } else {
            assert(next =~= keys);
        }
        n += 1;
    }
    assert(orders@.take(n as int) =~= orders@);
    None
}

/// Whether a transaction was executed from or to an address of the blocklist.
fn has_blocked_tx(result: &ExecutionResult, blocklist: &ahash::HashSet<Address>) -> (blocked: bool)
    ensures
        blocked == touches_blocked(*result, blocklist@),
{
    let mut j: usize = 0;
    while j < result.txs.len()
        invariant
            j <= result.txs.len(),
            forall|k: int|
                0 <= k < j ==> {
                    &&& !blocklist@.contains((#[trigger] result.txs@[k]).signer)
                    &&& !(result.txs@[k].to is Some && blocklist@.contains(result.txs@[k].to->0))
                },
        decreases result.txs.len() - j,
    {
        let tx = &result.txs[j];
        if is_listed(blocklist, &tx.signer) {
            assert(blocklist@.contains(result.txs@[j as int].signer));
            return true;
        }
        if let Some(to) = &tx.to {
            if is_listed(blocklist, to) {
                assert(blocklist@.contains(result.txs@[j as int].to->0));
                return true;
            }
        }
        j += 1;
    }
    false
}

/// For each transaction that an order lists, whether its last listing lets it revert.
fn listed_txs(txs: &Vec<ListedTx>) -> (table: ahash::HashMap<B256, bool>)
    ensures
        forall|hash: B256| #[trigger]
            table@.contains_key(hash) <==> last_listing(txs@, hash) is Some,
        forall|hash: B256| #[trigger]
            table@.contains_key(hash) ==> last_listing(txs@, hash) == Some(table@[hash]),
{
    let mut table = no_txs();
    let mut n: usize = 0;
    while n < txs.len()
        invariant
            n <= txs.len(),
            forall|hash: B256| #[trigger]
                table@.contains_key(hash) <==> last_listing(txs@.take(n as int), hash) is Some,
            forall|hash: B256| #[trigger]
                table@.contains_key(hash) ==> last_listing(txs@.take(n as int), hash) == Some(
                    table@[hash],
                ),
        decreases txs.len() - n,
    {
        assert(txs@.take(n + 1).drop_last() =~= txs@.take(n as int));
        list_tx(&mut table, txs[n].hash, txs[n].can_revert);
        n += 1;
    }
    assert(txs@.take(n as int) =~= txs@);
    table
}

/// Whether a transaction failed that the order lists as one that must not revert.
fn has_unexpected_revert(result: &ExecutionResult) -> (reverted: bool)
    requires
        result.txs@.len() == result.receipts@.len(),
    ensures
        reverted == reverted_unexpectedly(*result),
{
    let table = listed_txs(&result.order.txs);
    let mut j: usize = 0;
    while j < result.txs.len()
        invariant
            j <= result.txs.len(),
            result.txs@.len() == result.receipts@.len(),
            forall|hash: B256| #[trigger]
                table@.contains_key(hash) <==> last_listing(result.order.txs@, hash) is Some,
            forall|hash: B256| #[trigger]
                table@.contains_key(hash) ==> last_listing(result.order.txs@, hash) == Some(
                    table@[hash],
                ),
            forall|k: int|
                0 <= k < j ==> (result.receipts@[k].success || last_listing(
                    result.order.txs@,
                    (#[trigger] result.txs@[k]).hash,
                ) != Some(false)),
        decreases result.txs.len() - j,
    {
        let hash = result.txs[j].hash;
        let success = result.receipts[j].success;
        assert(result.txs@[j as int].hash == hash);
        if let Some(can_revert) = listed_tx(&table, &hash) {
            if !success && !can_revert {
                return true;
            }
        }
        j += 1;
    }
    false
}

/// The first fault among the first orders is the first fault of all.
proof fn lemma_first_fault(
    included: Seq<ExecutionResult>,
    i: nat,
    n: nat,
    blocklist: Set<Address>,
)
    requires
        i < n,
        first_fault(included, i, blocklist) is None,
        fault_at(included, i as int, blocklist) is Some,
    ensures
        first_fault(included, n, blocklist) == fault_at(included, i as int, blocklist),
    decreases n,
{
    if n > i + 1 {
        lemma_first_fault(included, i, (n - 1) as nat, blocklist);
    }
}

/// Checks the included orders, in the order of inclusion, and says what is wrong with the
/// first that breaks a promise.
pub(crate) fn check_included(
    included: &Vec<ExecutionResult>,
    blocklist: &ahash::HashSet<Address>,
) -> (checked: Result<(), ConsistencyError>)
    ensures
        checked == (match first_fault(included@, included@.len(), blocklist@) {
            None => Ok(()),
            Some(fault) => Err(fault),
        }),
{
    let mut used = no_keys();
    let mut i: usize = 0;
    assert(included@.take(0) =~= Seq::empty());
    while i < included.len()
        invariant
            i <= included.len(),
            first_fault(included@, i as nat, blocklist@) is None,
            repeated_key(block_keys(included@.take(i as int))) is None,
            holds_keys(used@, block_keys(included@.take(i as int))),
        decreases included.len() - i,
    {
        let result = &included[i];
        assert(included@.take(i + 1).drop_last() =~= included@.take(i as int));
        if let Some(key) = use_keys(
            &mut used,
            &result.order.original_orders,
            Ghost(block_keys(included@.take(i as int))),
        ) {
            proof {
                lemma_first_fault(included@, i as nat, included@.len(), blocklist@);
            }
            return Err(ConsistencyError::DuplicateReplacementKey(key));
        }
        if result.txs.len() != result.receipts.len() {
            proof {
                lemma_first_fault(included@, i as nat, included@.len(), blocklist@);
            }
            return Err(ConsistencyError::ReceiptCountMismatch);
        }
        if has_blocked_tx(result, blocklist) {
            proof {
                lemma_first_fault(included@, i as nat, included@.len(), blocklist@);
            }
            return Err(ConsistencyError::BlockedAddress);
        }
        if has_unexpected_revert(result) {
            proof {
                lemma_first_fault(included@, i as nat, included@.len(), blocklist@);
            }
            return Err(ConsistencyError::UnexpectedRevert);
        }
        i += 1;
    }
    Ok(())
}

/// The included orders are consistent exactly if none of them is faulty.
pub(crate) proof fn lemma_faultless(included: Seq<ExecutionResult>, n: nat, blocklist: Set<Address>)
    requires
        n <= included.len(),
    ensures
        first_fault(included, n, blocklist) is None <==> consistent(
            included.take(n as int),
            blocklist,
        ),
    decreases n,
{
    let head = included.take(n as int);
    if n == 0 {
        assert(block_keys(head) =~= Seq::empty());
    } else {
        let init = included.take(n - 1);
        lemma_faultless(included, (n - 1) as nat, blocklist);
        assert(head.drop_last() =~= init);
        lemma_no_repetition(block_keys(head));
        assert(head.last() == included[n - 1]);
        if consistent(head, blocklist) {
            assert(head =~= init.push(head.last()));
            lemma_consistent_before(init, head.last(), blocklist);
            assert(head[n - 1] == included[n - 1]);
        } else if consistent(init, blocklist) && block_keys(head).no_duplicates() {
            assert(exists|i: int|
                #![trigger head[i]]
                0 <= i < head.len() && !({
                    &&& head[i].txs@.len() == head[i].receipts@.len()
                    &&& !touches_blocked(head[i], blocklist)
                    &&& !reverted_unexpectedly(head[i])
                }));
            let i = choose|i: int|
                #![trigger head[i]]
                0 <= i < head.len() && !({
                    &&& head[i].txs@.len() == head[i].receipts@.len()
                    &&& !touches_blocked(head[i], blocklist)
                    &&& !reverted_unexpectedly(head[i])
                });
            if i < n - 1 {
                assert(init[i] == head[i]);
            }
        }
    }
}

/// A block that is consistent with an order more was consistent without it.
pub proof fn lemma_consistent_before(
    included: Seq<ExecutionResult>,
    added: ExecutionResult,
    blocklist: Set<Address>,
)
    requires
        consistent(included.push(added), blocklist),
    ensures
        consistent(included, blocklist),
{
    let more = included.push(added);
    assert(more.drop_last() =~= included);
    let keys = block_keys(included);
    let more_keys = block_keys(more);
    assert forall|i: int, j: int| 0 <= i < keys.len() && 0 <= j < keys.len() && i != j implies keys[i]
        != keys[j] by {
        assert(keys[i] == more_keys[i] && keys[j] == more_keys[j]);
    }
    assert forall|i: int| #![trigger included[i]] 0 <= i < included.len() implies {
        &&& included[i].txs@.len() == included[i].receipts@.len()
        &&& !touches_blocked(included[i], blocklist)
        &&& !reverted_unexpectedly(included[i])
    } by {
        assert(more[i] == included[i]);
    }
}

/// An order keeps a block consistent exactly if it has its receipts, touches no address of the
/// blocklist, does not revert where it must not, and has no key twice or in common with the
/// orders before it.
pub proof fn lemma_consistent_with_added(
    included: Seq<ExecutionResult>,
    added: ExecutionResult,
    blocklist: Set<Address>,
)
    requires
        consistent(included, blocklist),
    ensures
        consistent(included.push(added), blocklist) <==> {
            let keys = present_keys(added.order.original_orders@);
            &&& keys.no_duplicates()
            &&& forall|key: OrderReplacementKey| #[trigger]
                keys.contains(key) ==> !block_keys(included).contains(key)
            &&& added.txs@.len() == added.receipts@.len()
            &&& !touches_blocked(added, blocklist)
            &&& !reverted_unexpectedly(added)
        },
{
    let more = included.push(added);
    let before = block_keys(included);
    let keys = present_keys(added.order.original_orders@);
    assert(more.drop_last() =~= included);
    assert(block_keys(more) == before + keys);
    assert(more[included.len() as int] == added);
    assert forall|i: int| 0 <= i < included.len() implies #[trigger] more[i] == included[i] by {
    }
    if (before + keys).no_duplicates() {
        assert forall|i: int, j: int| 0 <= i < keys.len() && 0 <= j < keys.len() && i
            != j implies keys[i] != keys[j] by {
            assert((before + keys)[before.len() + i] == keys[i]);
            assert((before + keys)[before.len() + j] == keys[j]);
        }
        assert forall|key: OrderReplacementKey| #[trigger]
            keys.contains(key) implies !before.contains(key) by {
            let b = choose|b: int| 0 <= b < keys.len() && keys[b] == key;
            assert((before + keys)[before.len() + b] == key);
            if before.contains(key) {
                let a = choose|a: int| 0 <= a < before.len() && before[a] == key;
                assert((before + keys)[a] == key);
            }
        }
    }
    if keys.no_duplicates() && (forall|key: OrderReplacementKey| #[trigger]
        keys.contains(key) ==> !before.contains(key)) {
        assert forall|i: int, j: int|
            0 <= i < (before + keys).len() && 0 <= j < (before + keys).len() && i != j implies (
        before + keys)[i] != (before + keys)[j] by {
            if i < before.len() && j >= before.len() {
                assert(keys.contains(keys[j - before.len()]));
            }
            if j < before.len() && i >= before.len() {
                assert(keys.contains(keys[i - before.len()]));
            }
        }
    }
}

/// A block that is consistent with a blocklist is so with every part of it.
pub proof fn lemma_consistent_with_fewer_blocked(
    included: Seq<ExecutionResult>,
    blocklist: Set<Address>,
    fewer: Set<Address>,
)
    requires
        consistent(included, blocklist),
        fewer.subset_of(blocklist),
    ensures
        consistent(included, fewer),
{
    assert forall|i: int| #![trigger included[i]] 0 <= i < included.len() implies !touches_blocked(
        included[i],
        fewer,
    ) by {
        assert(!touches_blocked(included[i], blocklist));
        if touches_blocked(included[i], fewer) {
            let txs = included[i].txs@;
            let j = choose|j: int|
                0 <= j < txs.len() && {
                    ||| fewer.contains((#[trigger] txs[j]).signer)
                    ||| txs[j].to is Some && fewer.contains(txs[j].to->0)
                };
            assert(blocklist.contains(txs[j].signer) || txs[j].to is Some && blocklist.contains(
                txs[j].to->0,
            ));
        }
    }
}

/// In a consistent block no two places in the list of replacement keys hold the same key, so
/// at most one of the orders that replace each other is included.
pub proof fn lemma_one_order_per_replacement_key(
    included: Seq<ExecutionResult>,
    blocklist: Set<Address>,
    i: int,
    j: int,
    key: OrderReplacementKey,
)
    requires
        consistent(included, blocklist),
        0 <= i < included.len(),
        0 <= j < included.len(),
        present_keys(included[i].order.original_orders@).contains(key),
        present_keys(included[j].order.original_orders@).contains(key),
    ensures
        i == j,
    decreases included.len(),
{
    let init = included.drop_last();
    let last_keys = present_keys(included.last().order.original_orders@);
    assert(included =~= init.push(included.last()));
    lemma_consistent_before(init, included.last(), blocklist);
    if i < init.len() && j < init.len() {
        assert(init[i] == included[i] && init[j] == included[j]);
        lemma_one_order_per_replacement_key(init, blocklist, i, j, key);
    } else if i != j {
        let low = if i < j {
            i
        } else {
            j
        };
        assert(init[low] == included[low]);
        lemma_keys_are_in_block(init, low, key);
        let a = choose|a: int| 0 <= a < block_keys(init).len() && block_keys(init)[a] == key;
        let b = choose|b: int| 0 <= b < last_keys.len() && last_keys[b] == key;
        let keys = block_keys(included);
        assert(keys[a] == key);
        assert(keys[block_keys(init).len() + b] == key);
    }
}

/// The keys of an included order are among those of the block.
proof fn lemma_keys_are_in_block(included: Seq<ExecutionResult>, i: int, key: OrderReplacementKey)
    requires
        0 <= i < included.len(),
        present_keys(included[i].order.original_orders@).contains(key),
    ensures
        block_keys(included).contains(key),
    decreases included.len(),
{
    let init = included.drop_last();
    let keys = block_keys(included);
    if i < init.len() {
        assert(init[i] == included[i]);
        lemma_keys_are_in_block(init, i, key);
        let a = choose|a: int| 0 <= a < block_keys(init).len() && block_keys(init)[a] == key;
        assert(keys[a] == key);
    } else {
        let own = present_keys(included[i].order.original_orders@);
        let b = choose|b: int| 0 <= b < own.len() && own[b] == key;
        assert(keys[block_keys(init).len() + b] == key);
    }
}

/// Where in the list of a block's keys the key of one original order stands.
spec fn key_index(included: Seq<ExecutionResult>, i: int, a: int) -> int {
    (block_keys(included.take(i)).len() + present_keys(
        included[i].order.original_orders@.take(a),
    ).len()) as int
}

/// The keys of two lists of orders are those of the first and then those of the second.
proof fn lemma_block_keys_concat(a: Seq<ExecutionResult>, b: Seq<ExecutionResult>)
    ensures
        block_keys(a + b) == block_keys(a) + block_keys(b),
    decreases b.len(),
{
    if b.len() == 0 {
        assert(a + b =~= a);
        assert(block_keys(a) + block_keys(b) =~= block_keys(a));
    } else {
        lemma_block_keys_concat(a, b.drop_last());
        assert((a + b).drop_last() =~= a + b.drop_last());
        assert((a + b).last() == b.last());
        assert(block_keys(a + b) =~= block_keys(a) + block_keys(b));
    }
}

/// A key that is there stands in the list of the present ones, after those before it.
proof fn lemma_present_key(keys: Seq<Option<OrderReplacementKey>>, a: int)
    requires
        0 <= a < keys.len(),
        keys[a] is Some,
    ensures
        present_keys(keys.take(a)).len() < present_keys(keys.take(a + 1)).len()
            <= present_keys(keys).len(),
        present_keys(keys)[present_keys(keys.take(a)).len() as int] == keys[a]->0,
{
    let head = keys.take(a + 1);
    assert(head.drop_last() =~= keys.take(a));
    assert(keys =~= head + keys.skip(a + 1));
    lemma_present_keys_concat(head, keys.skip(a + 1));
}

/// No fewer keys are there in more of a list.
proof fn lemma_present_keys_grow(keys: Seq<Option<OrderReplacementKey>>, a: int, b: int)
    requires
        0 <= a <= b <= keys.len(),
    ensures
        present_keys(keys.take(a)).len() <= present_keys(keys.take(b)).len(),
{
    assert(keys.take(b) =~= keys.take(a) + keys.subrange(a, b));
    lemma_present_keys_concat(keys.take(a), keys.subrange(a, b));
}

/// The key of an original order stands in the block's list, before those of later ones.
proof fn lemma_key_index(included: Seq<ExecutionResult>, i: int, a: int)
    requires
        0 <= i < included.len(),
        0 <= a < included[i].order.original_orders@.len(),
        included[i].order.original_orders@[a] is Some,
    ensures
        0 <= key_index(included, i, a) < block_keys(included.take(i + 1)).len()
            <= block_keys(included).len(),
        block_keys(included)[key_index(included, i, a)]
            == included[i].order.original_orders@[a]->0,
{
    let keys = included[i].order.original_orders@;
    let head = included.take(i + 1);
    lemma_present_key(keys, a);
    assert(head.drop_last() =~= included.take(i));
    assert(head.last() == included[i]);
    assert(block_keys(head) == block_keys(included.take(i)) + present_keys(keys));
    assert(included =~= head + included.skip(i + 1));
    lemma_block_keys_concat(head, included.skip(i + 1));
}

/// Different places among the original orders have different places in the block's list, in the
/// same sequence.
proof fn lemma_key_index_grows(included: Seq<ExecutionResult>, i: int, a: int, k: int, b: int)
    requires
        0 <= i < included.len(),
        0 <= a < included[i].order.original_orders@.len(),
        included[i].order.original_orders@[a] is Some,
        0 <= k < included.len(),
        0 <= b < included[k].order.original_orders@.len(),
        i < k || (i == k && a < b),
    ensures
        key_index(included, i, a) < key_index(included, k, b),
{
    let keys = included[i].order.original_orders@;
    lemma_present_key(keys, a);
    if i == k {
        lemma_present_keys_grow(keys, a + 1, b);
    } else {
        lemma_key_index(included, i, a);
        assert(included.take(k) =~= included.take(i + 1) + included.subrange(i + 1, k));
        lemma_block_keys_concat(included.take(i + 1), included.subrange(i + 1, k));
    }
}

/// Every present key is that of some place in the list.
proof fn lemma_present_key_place(keys: Seq<Option<OrderReplacementKey>>, f: int) -> (a: int)
    requires
        0 <= f < present_keys(keys).len(),
    ensures
        0 <= a < keys.len(),
        keys[a] is Some,
        present_keys(keys.take(a)).len() == f,
    decreases keys.len(),
{
    let init = keys.drop_last();
    if f < present_keys(init).len() {
        let a = lemma_present_key_place(init, f);
        assert(init.take(a) =~= keys.take(a));
        a
    } else {
        assert(keys.take(keys.len() - 1) =~= init);
        keys.len() - 1
    }
}

/// Every key of a block is that of some original order.
proof fn lemma_key_place(included: Seq<ExecutionResult>, f: int) -> (place: (int, int))
    requires
        0 <= f < block_keys(included).len(),
    ensures
        0 <= place.0 < included.len(),
        0 <= place.1 < included[place.0].order.original_orders@.len(),
        included[place.0].order.original_orders@[place.1] == Some(block_keys(included)[f]),
        key_index(included, place.0, place.1) == f,
    decreases included.len(),
{
    let init = included.drop_last();
    let last = included.len() - 1;
    let keys = included.last().order.original_orders@;
    if f < block_keys(init).len() {
        let place = lemma_key_place(init, f);
        assert(init.take(place.0) =~= included.take(place.0));
        assert(init[place.0] == included[place.0]);
        lemma_key_index(included, place.0, place.1);
        place
    } else {
        let a = lemma_present_key_place(keys, f - block_keys(init).len());
        assert(included.take(last) =~= init);
        lemma_key_index(included, last, a);
        (last, a)
    }
}

/// In a consistent block, and in no other: each transaction has its receipt; no transaction is
/// from or to a blocked address; none failed whose last listing in its order forbids it; and no
/// two original orders, of the same or of different included ones, have the same key.
pub proof fn lemma_consistent_means(included: Seq<ExecutionResult>, blocklist: Set<Address>)
    ensures
        consistent(included, blocklist) <==> {
            &&& forall|i: int|
                0 <= i < included.len() ==> (#[trigger] included[i]).txs@.len()
                    == included[i].receipts@.len()
            &&& forall|i: int, j: int|
                #![trigger included[i].txs@[j]]
                0 <= i < included.len() && 0 <= j < included[i].txs@.len()
                    ==> !blocklist.contains(included[i].txs@[j].signer) && (
                included[i].txs@[j].to is Some ==> !blocklist.contains(
                    included[i].txs@[j].to->0,
                ))
            &&& forall|i: int, j: int, l: int|
                #![trigger included[i].txs@[j], included[i].order.txs@[l]]
                0 <= i < included.len() && 0 <= j < included[i].txs@.len() && 0 <= l
                    < included[i].order.txs@.len() && included[i].order.txs@[l].hash
                    == included[i].txs@[j].hash && (forall|m: int|
                    l < m < included[i].order.txs@.len() ==> (
                    #[trigger] included[i].order.txs@[m]).hash != included[i].txs@[j].hash)
                    ==> included[i].receipts@[j].success || included[i].order.txs@[l].can_revert
            &&& forall|i: int, a: int, k: int, b: int|
                #![trigger included[i].order.original_orders@[a], included[k].order.original_orders@[b]]
                0 <= i < included.len() && 0 <= a < included[i].order.original_orders@.len() && 0
                    <= k < included.len() && 0 <= b < included[k].order.original_orders@.len()
                    && included[i].order.original_orders@[a] is Some
                    && included[i].order.original_orders@[a]
                    == included[k].order.original_orders@[b] ==> i == k && a == b
        },
{
    lemma_distinct_keys_means(included);
    if consistent(included, blocklist) {
        assert forall|i: int, j: int|
            #![trigger included[i].txs@[j]]
            0 <= i < included.len() && 0 <= j < included[i].txs@.len() implies !blocklist.contains(
            included[i].txs@[j].signer,
        ) && (included[i].txs@[j].to is Some ==> !blocklist.contains(included[i].txs@[j].to->0)) by {
            assert(!touches_blocked(included[i], blocklist));
        }
        assert forall|i: int, j: int, l: int|
            #![trigger included[i].txs@[j], included[i].order.txs@[l]]
            0 <= i < included.len() && 0 <= j < included[i].txs@.len() && 0 <= l
                < included[i].order.txs@.len() && included[i].order.txs@[l].hash
                == included[i].txs@[j].hash && (forall|m: int|
                l < m < included[i].order.txs@.len() ==> (#[trigger] included[i].order.txs@[m]).hash
                    != included[i].txs@[j].hash) implies included[i].receipts@[j].success
            || included[i].order.txs@[l].can_revert by {
            assert(!reverted_unexpectedly(included[i]));
            lemma_last_listing_counts(included[i].order.txs@, l);
        }
    }
    if forall|i: int, j: int|
        #![trigger included[i].txs@[j]]
        0 <= i < included.len() && 0 <= j < included[i].txs@.len() ==> !blocklist.contains(
            included[i].txs@[j].signer,
        ) && (included[i].txs@[j].to is Some ==> !blocklist.contains(included[i].txs@[j].to->0)) {
        assert forall|i: int| 0 <= i < included.len() implies !touches_blocked(
            #[trigger] included[i],
            blocklist,
        ) by {}
    }
    if forall|i: int, j: int, l: int|
        #![trigger included[i].txs@[j], included[i].order.txs@[l]]
        0 <= i < included.len() && 0 <= j < included[i].txs@.len() && 0 <= l
            < included[i].order.txs@.len() && included[i].order.txs@[l].hash
            == included[i].txs@[j].hash && (forall|m: int|
            l < m < included[i].order.txs@.len() ==> (#[trigger] included[i].order.txs@[m]).hash
                != included[i].txs@[j].hash) ==> included[i].receipts@[j].success
            || included[i].order.txs@[l].can_revert {
        assert forall|i: int| 0 <= i < included.len() implies !reverted_unexpectedly(
            #[trigger] included[i],
        ) by {
            if reverted_unexpectedly(included[i]) {
                let result = included[i];
                let j = choose|j: int|
                    0 <= j < result.txs@.len() && !result.receipts@[j].success && last_listing(
                        result.order.txs@,
                        (#[trigger] result.txs@[j]).hash,
                    ) == Some(false);
                let l = lemma_listing_place(result.order.txs@, result.txs@[j].hash);
                assert(included[i].txs@[j].hash == included[i].order.txs@[l].hash);
            }
        }
    }
}

/// The keys of a block are pairwise distinct exactly if no two original orders have the same.
proof fn lemma_distinct_keys_means(included: Seq<ExecutionResult>)
    ensures
        block_keys(included).no_duplicates() <==> forall|i: int, a: int, k: int, b: int|
            #![trigger included[i].order.original_orders@[a], included[k].order.original_orders@[b]]
            0 <= i < included.len() && 0 <= a < included[i].order.original_orders@.len() && 0 <= k
                < included.len() && 0 <= b < included[k].order.original_orders@.len()
                && included[i].order.original_orders@[a] is Some
                && included[i].order.original_orders@[a] == included[k].order.original_orders@[b]
                ==> i == k && a == b,
{
    let keys = block_keys(included);
    if keys.no_duplicates() {
        assert forall|i: int, a: int, k: int, b: int|
            #![trigger included[i].order.original_orders@[a], included[k].order.original_orders@[b]]
            0 <= i < included.len() && 0 <= a < included[i].order.original_orders@.len() && 0 <= k
                < included.len() && 0 <= b < included[k].order.original_orders@.len()
                && included[i].order.original_orders@[a] is Some
                && included[i].order.original_orders@[a]
                == included[k].order.original_orders@[b] implies i == k && a == b by {
            lemma_key_index(included, i, a);
            lemma_key_index(included, k, b);
            if i < k || (i == k && a < b) {
                lemma_key_index_grows(included, i, a, k, b);
            } else if k < i || b < a {
                lemma_key_index_grows(included, k, b, i, a);
            }
        }
    }
    if forall|i: int, a: int, k: int, b: int|
        #![trigger included[i].order.original_orders@[a], included[k].order.original_orders@[b]]
        0 <= i < included.len() && 0 <= a < included[i].order.original_orders@.len() && 0 <= k
            < included.len() && 0 <= b < included[k].order.original_orders@.len()
            && included[i].order.original_orders@[a] is Some
            && included[i].order.original_orders@[a] == included[k].order.original_orders@[b]
            ==> i == k && a == b {
        assert forall|f: int, g: int| 0 <= f < keys.len() && 0 <= g < keys.len() && f != g implies keys[f]
            != keys[g] by {
            let p = lemma_key_place(included, f);
            let q = lemma_key_place(included, g);
            if keys[f] == keys[g] {
                assert(included[p.0].order.original_orders@[p.1]
                    == included[q.0].order.original_orders@[q.1]);
            }
        }
    }
}

/// Whatever an order listed before, the listing of a transaction that no other follows decides
/// whether it may revert.
pub proof fn lemma_last_listing_counts(txs: Seq<ListedTx>, l: int)
    requires
        0 <= l < txs.len(),
        forall|m: int| l < m < txs.len() ==> (#[trigger] txs[m]).hash != txs[l].hash,
    ensures
        last_listing(txs, txs[l].hash) == Some(txs[l].can_revert),
    decreases txs.len(),
{
    let init = txs.drop_last();
    if l < init.len() {
        assert(txs[txs.len() - 1].hash != txs[l].hash);
        assert(forall|m: int| l < m < init.len() ==> (#[trigger] init[m]).hash == txs[m].hash);
        lemma_last_listing_counts(init, l);
    }
}

/// Of a transaction that an order does not list, nothing is known.
pub proof fn lemma_unlisted_is_unknown(txs: Seq<ListedTx>, hash: B256)
    requires
        forall|m: int| 0 <= m < txs.len() ==> (#[trigger] txs[m]).hash != hash,
    ensures
        last_listing(txs, hash) is None,
    decreases txs.len(),
{
    if txs.len() > 0 {
        let init = txs.drop_last();
        assert(txs[txs.len() - 1].hash != hash);
        assert(forall|m: int| 0 <= m < init.len() ==> (#[trigger] init[m]).hash == txs[m].hash);
        lemma_unlisted_is_unknown(init, hash);
    }
}

/// Where a listed transaction is listed last.
proof fn lemma_listing_place(txs: Seq<ListedTx>, hash: B256) -> (l: int)
    requires
        last_listing(txs, hash) is Some,
    ensures
        0 <= l < txs.len(),
        txs[l].hash == hash,
        last_listing(txs, hash) == Some(txs[l].can_revert),
        forall|m: int| l < m < txs.len() ==> (#[trigger] txs[m]).hash != hash,
    decreases txs.len(),
{
    let init = txs.drop_last();
    if txs.last().hash == hash {
        txs.len() - 1
    } else {
        let l = lemma_listing_place(init, hash);
        assert forall|m: int| l < m < txs.len() implies (#[trigger] txs[m]).hash != hash by {
            if m < init.len() {
                assert(init[m] == txs[m]);
            }
        }
        l
    }
}

/// A faulty order is found, and the orders after it do not matter: an order decides where those
/// before it are consistent. A key that two original orders share, up to this one, comes first;
/// then a missing receipt; then a blocked address; then a revert.
pub proof fn lemma_first_faulty_order_decides(
    included: Seq<ExecutionResult>,
    i: int,
    blocklist: Set<Address>,
)
    requires
        0 <= i < included.len(),
        consistent(included.take(i), blocklist),
    ensures
        ({
            let verdict = first_fault(included, included.len(), blocklist);
            let order = included[i];
            let repeats = exists|k: int, a: int, b: int|
                #![trigger included[k].order.original_orders@[a], order.order.original_orders@[b]]
                0 <= k <= i && 0 <= a < included[k].order.original_orders@.len() && 0 <= b
                    < order.order.original_orders@.len() && (k < i || a < b)
                    && included[k].order.original_orders@[a] is Some
                    && included[k].order.original_orders@[a] == order.order.original_orders@[b];
            let blocked = exists|j: int|
                0 <= j < order.txs@.len() && (blocklist.contains(
                    (#[trigger] order.txs@[j]).signer,
                ) || (order.txs@[j].to is Some && blocklist.contains(order.txs@[j].to->0)));
            let reverted = exists|j: int, l: int|
                #![trigger order.txs@[j], order.order.txs@[l]]
                0 <= j < order.txs@.len() && 0 <= l < order.order.txs@.len()
                    && !order.receipts@[j].success && order.order.txs@[l].hash
                    == order.txs@[j].hash && !order.order.txs@[l].can_revert && forall|m: int|
                    l < m < order.order.txs@.len() ==> (#[trigger] order.order.txs@[m]).hash
                        != order.txs@[j].hash;
            if repeats {
                verdict is Some && verdict->0 is DuplicateReplacementKey
            } else if order.txs@.len() != order.receipts@.len() {
                verdict == Some(ConsistencyError::ReceiptCountMismatch)
            } else if blocked {
                verdict == Some(ConsistencyError::BlockedAddress)
            } else if reverted {
                verdict == Some(ConsistencyError::UnexpectedRevert)
            } else {
                consistent(included.take(i + 1), blocklist)
            }
        }),
{
    let order = included[i];
    let head = included.take(i + 1);
    let before = included.take(i);
    lemma_faultless(included, i as nat, blocklist);
    lemma_faultless(included, (i + 1) as nat, blocklist);
    lemma_no_repetition(block_keys(head));
    lemma_distinct_keys_means(head);
    lemma_distinct_keys_means(before);
    let repeats = exists|k: int, a: int, b: int|
        #![trigger included[k].order.original_orders@[a], order.order.original_orders@[b]]
        0 <= k <= i && 0 <= a < included[k].order.original_orders@.len() && 0 <= b
            < order.order.original_orders@.len() && (k < i || a < b)
            && included[k].order.original_orders@[a] is Some
            && included[k].order.original_orders@[a] == order.order.original_orders@[b];
    if repeats {
        let (k, a, b) = choose|k: int, a: int, b: int|
            #![trigger included[k].order.original_orders@[a], order.order.original_orders@[b]]
            0 <= k <= i && 0 <= a < included[k].order.original_orders@.len() && 0 <= b
                < order.order.original_orders@.len() && (k < i || a < b)
                && included[k].order.original_orders@[a] is Some
                && included[k].order.original_orders@[a] == order.order.original_orders@[b];
        assert(head[k].order.original_orders@[a] == head[i].order.original_orders@[b]);
        assert(repeated_key(block_keys(head)) is Some);
    } else {
        assert forall|p: int, a: int, q: int, b: int|
            #![trigger head[p].order.original_orders@[a], head[q].order.original_orders@[b]]
            0 <= p < head.len() && 0 <= a < head[p].order.original_orders@.len() && 0 <= q
                < head.len() && 0 <= b < head[q].order.original_orders@.len()
                && head[p].order.original_orders@[a] is Some
                && head[p].order.original_orders@[a]
                == head[q].order.original_orders@[b] implies p == q && a == b by {
            assert(head[p] == included[p] && head[q] == included[q]);
            if p < i && q < i {
                assert(before[p] == included[p] && before[q] == included[q]);
                assert(before[p].order.original_orders@[a] == before[q].order.original_orders@[b]);
            } else if q == i {
                assert(included[p].order.original_orders@[a] == order.order.original_orders@[b]);
                assert(included[q].order.original_orders@[b] == order.order.original_orders@[a] || p
                    != i);
            } else {
                assert(included[q].order.original_orders@[b] == order.order.original_orders@[a]);
            }
        }
        assert(repeated_key(block_keys(head)) is None);
    }
    assert(touches_blocked(order, blocklist) <==> exists|j: int|
        0 <= j < order.txs@.len() && (blocklist.contains((#[trigger] order.txs@[j]).signer) || (
        order.txs@[j].to is Some && blocklist.contains(order.txs@[j].to->0))));
    if reverted_unexpectedly(order) {
        let j = choose|j: int|
            0 <= j < order.txs@.len() && !order.receipts@[j].success && last_listing(
                order.order.txs@,
                (#[trigger] order.txs@[j]).hash,
            ) == Some(false);
        let l = lemma_listing_place(order.order.txs@, order.txs@[j].hash);
        assert(order.order.txs@[l].hash == order.txs@[j].hash);
    }
    if exists|j: int, l: int|
        #![trigger order.txs@[j], order.order.txs@[l]]
        0 <= j < order.txs@.len() && 0 <= l < order.order.txs@.len()
            && !order.receipts@[j].success && order.order.txs@[l].hash == order.txs@[j].hash
            && !order.order.txs@[l].can_revert && forall|m: int|
            l < m < order.order.txs@.len() ==> (#[trigger] order.order.txs@[m]).hash
                != order.txs@[j].hash {
        let (j, l) = choose|j: int, l: int|
            #![trigger order.txs@[j], order.order.txs@[l]]
            0 <= j < order.txs@.len() && 0 <= l < order.order.txs@.len()
                && !order.receipts@[j].success && order.order.txs@[l].hash == order.txs@[j].hash
                && !order.order.txs@[l].can_revert && forall|m: int|
                l < m < order.order.txs@.len() ==> (#[trigger] order.order.txs@[m]).hash
                    != order.txs@[j].hash;
        lemma_last_listing_counts(order.order.txs@, l);
        assert(last_listing(order.order.txs@, order.txs@[j].hash) == Some(false));
    }
    if fault_at(included, i, blocklist) is Some {
        lemma_first_fault(included, i as nat, included.len(), blocklist);
    } else {
        assert(first_fault(included, (i + 1) as nat, blocklist) is None);
    }
}

/// The key that is reported is that of an original order, and an original order before it has
/// the same; up to there no other key is shared.
pub proof fn lemma_reported_key_is_the_first_shared(
    included: Seq<ExecutionResult>,
    key: OrderReplacementKey,
    blocklist: Set<Address>,
)
    requires
        first_fault(included, included.len(), blocklist) == Some(
            ConsistencyError::DuplicateReplacementKey(key),
        ),
    ensures
        exists|i: int, a: int, k: int, b: int|
            #![trigger included[i].order.original_orders@[a], included[k].order.original_orders@[b]]
            {
                &&& 0 <= i <= k < included.len()
                &&& 0 <= a < included[i].order.original_orders@.len()
                &&& 0 <= b < included[k].order.original_orders@.len()
                &&& i < k || a < b
                &&& included[i].order.original_orders@[a] == Some(key)
                &&& included[k].order.original_orders@[b] == Some(key)
                &&& forall|p: int, c: int, q: int, d: int|
                    #![trigger included[p].order.original_orders@[c], included[q].order.original_orders@[d]]
                    0 <= p <= q <= k && 0 <= c < included[p].order.original_orders@.len() && 0 <= d
                        < included[q].order.original_orders@.len() && (p < q || c < d) && (q < k
                        || d < b) && included[p].order.original_orders@[c] is Some
                        ==> included[p].order.original_orders@[c]
                        != included[q].order.original_orders@[d]
            },
{
    let n = lemma_fault_place(included, included.len(), blocklist);
    let head = included.take(n + 1);
    let keys = block_keys(included);
    assert(included =~= head + included.skip(n + 1));
    lemma_block_keys_concat(head, included.skip(n + 1));
    lemma_repetition_stays(block_keys(head), block_keys(included.skip(n + 1)));
    assert(repeated_key(keys) == Some(key));
    let (f, g) = lemma_repetition_place(keys);
    let (i, a) = lemma_key_place(included, f);
    let (k, b) = lemma_key_place(included, g);
    lemma_key_index(included, i, a);
    lemma_key_index(included, k, b);
    if k < i || (k == i && b <= a) {
        if k < i || b < a {
            lemma_key_index_grows(included, k, b, i, a);
        }
        assert(false);
    }
    assert forall|p: int, c: int, q: int, d: int|
        #![trigger included[p].order.original_orders@[c], included[q].order.original_orders@[d]]
        0 <= p <= q <= k && 0 <= c < included[p].order.original_orders@.len() && 0 <= d
            < included[q].order.original_orders@.len() && (p < q || c < d) && (q < k || d < b)
            && included[p].order.original_orders@[c] is Some implies included[p].order.original_orders@[c]
        != included[q].order.original_orders@[d] by {
        if included[p].order.original_orders@[c] == included[q].order.original_orders@[d] {
            lemma_key_index(included, p, c);
            lemma_key_index(included, q, d);
            lemma_key_index_grows(included, p, c, q, d);
            lemma_key_index_grows(included, q, d, k, b);
            let x = key_index(included, p, c);
            let y = key_index(included, q, d);
            assert(keys.take(g)[x] == keys[x] && keys.take(g)[y] == keys[y]);
        }
    }
    assert(included[i].order.original_orders@[a] == included[k].order.original_orders@[b]);
}

/// Where the first repetition is.
proof fn lemma_repetition_place(keys: Seq<OrderReplacementKey>) -> (place: (int, int))
    requires
        repeated_key(keys) is Some,
    ensures
        0 <= place.0 < place.1 < keys.len(),
        keys[place.0] == repeated_key(keys)->0,
        keys[place.1] == repeated_key(keys)->0,
        keys.take(place.1).no_duplicates(),
    decreases keys.len(),
{
    let init = keys.drop_last();
    if repeated_key(init) is Some {
        let place = lemma_repetition_place(init);
        assert(init.take(place.1) =~= keys.take(place.1));
        place
    } else {
        lemma_no_repetition(init);
        let f = choose|f: int| 0 <= f < init.len() && init[f] == keys.last();
        assert(keys.take(keys.len() - 1) =~= init);
        (f, keys.len() - 1)
    }
}

/// Which order the first fault is that of.
proof fn lemma_fault_place(included: Seq<ExecutionResult>, n: nat, blocklist: Set<Address>) -> (i:
    int)
    requires
        first_fault(included, n, blocklist) is Some,
        n <= included.len(),
    ensures
        0 <= i < n,
        fault_at(included, i, blocklist) == first_fault(included, n, blocklist),
        first_fault(included, i as nat, blocklist) is None,
    decreases n,
{
    if first_fault(included, (n - 1) as nat, blocklist) is Some {
        lemma_fault_place(included, (n - 1) as nat, blocklist)
    } else {
        n - 1
    }
}

/// A transaction from or to a blocked address, at whatever place in whatever included order,
/// makes a block inconsistent.
pub proof fn lemma_blocked_tx_is_found(
    included: Seq<ExecutionResult>,
    i: int,
    j: int,
    blocklist: Set<Address>,
)
    requires
        0 <= i < included.len(),
        0 <= j < included[i].txs@.len(),
        blocklist.contains(included[i].txs@[j].signer) || (included[i].txs@[j].to is Some
            && blocklist.contains(included[i].txs@[j].to->0)),
    ensures
        touches_blocked(included[i], blocklist),
        !consistent(included, blocklist),
        first_fault(included, included.len(), blocklist) is Some,
{
    lemma_consistent_means(included, blocklist);
    lemma_faultless(included, included.len(), blocklist);
    assert(included.take(included.len() as int) =~= included);
}

} // verus!
