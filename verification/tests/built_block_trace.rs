use rbuilder::building::built_block_trace::BuiltBlockTrace;
use rbuilder::building::consistency::ConsistencyError;
use rbuilder::clock::{Span, Timestamp};
use rbuilder::primitives::{
    Address, BundleErr, BundleReplacementKey, ExecutedTx, ExecutionError, ExecutionResult, ListedTx,
    Order, OrderErr, OrderKind, OrderReplacementKey, Receipt, B256,
};
use rbuilder::uint::U256;

fn at(nanos: i128) -> Timestamp {
    Timestamp::from_unix_timestamp_nanos(nanos).unwrap()
}

fn hash(n: u8) -> B256 {
    [n; 32]
}

fn address(n: u8) -> Address {
    [n; 20]
}

fn bundle_key(uuid: u128, signer: u8) -> OrderReplacementKey {
    OrderReplacementKey::Bundle(BundleReplacementKey::new(uuid, address(signer)))
}

fn share_key(uuid: u128, signer: u8) -> OrderReplacementKey {
    OrderReplacementKey::ShareBundle(BundleReplacementKey::new(uuid, address(signer)))
}

fn executed(n: u8) -> ExecutedTx {
    ExecutedTx { hash: hash(n), signer: address(n), to: Some(address(n + 100)) }
}

fn result(kind: OrderKind, preconf: bool, n: u8) -> ExecutionResult {
    ExecutionResult {
        order: Order {
            kind,
            preconf,
            original_orders: vec![None],
            txs: vec![ListedTx { hash: hash(n), can_revert: false }],
        },
        txs: vec![executed(n)],
        receipts: vec![Receipt { success: true }],
    }
}

fn keyed(n: u8, keys: Vec<Option<OrderReplacementKey>>) -> ExecutionResult {
    let mut r = result(OrderKind::Bundle, false, n);
    r.order.original_orders = keys;
    r
}

fn trace_of(results: Vec<ExecutionResult>) -> BuiltBlockTrace {
    let mut trace = BuiltBlockTrace::new();
    for r in results {
        trace.add_included_order(r);
    }
    trace
}

fn blocklist(addresses: &[u8]) -> ahash::HashSet<Address> {
    addresses.iter().map(|n| address(*n)).collect()
}

#[test]
fn new_trace_is_empty() {
    let before = time::OffsetDateTime::now_utc().unix_timestamp_nanos();
    let trace = BuiltBlockTrace::new();
    let after = time::OffsetDateTime::now_utc().unix_timestamp_nanos();
    assert!(trace.included_orders.is_empty());
    assert_eq!(trace.bid_value, U256 { limbs: [0, 0, 0, 0] });
    assert_eq!(trace.true_bid_value, U256 { limbs: [0, 0, 0, 0] });
    assert!(!trace.got_no_signer_error);
    assert_eq!(trace.fill_time, Span { seconds: 0, nanoseconds: 0 });
    assert_eq!(trace.finalize_time, Span { seconds: 0, nanoseconds: 0 });
    assert_eq!(trace.preconf_tx_count, 0);
    let closed = trace.orders_closed_at.unix_timestamp_nanos();
    let sealed = trace.orders_sealed_at.unix_timestamp_nanos();
    assert!(before <= closed && closed <= sealed && sealed <= after);
    assert!(BuiltBlockTrace::default().included_orders.is_empty());
}

#[test]
fn sealing_sets_both_timestamps() {
    let mut trace = BuiltBlockTrace::new_at(at(1), at(2));
    assert_eq!(trace.orders_closed_at, at(1));
    assert_eq!(trace.orders_sealed_at, at(2));
    let before = time::OffsetDateTime::now_utc().unix_timestamp_nanos();
    trace.update_orders_timestamps_after_block_sealed(at(77));
    let after = time::OffsetDateTime::now_utc().unix_timestamp_nanos();
    assert_eq!(trace.orders_closed_at, at(77));
    let sealed = trace.orders_sealed_at.unix_timestamp_nanos();
    assert!(before <= sealed && sealed <= after);
    trace.set_orders_timestamps(at(5), at(6));
    assert_eq!(trace.orders_closed_at, at(5));
    assert_eq!(trace.orders_sealed_at, at(6));
}

#[test]
fn preconfirmed_transactions_are_counted() {
    let mut two = result(OrderKind::Bundle, true, 2);
    two.txs = vec![executed(2), executed(3)];
    two.receipts = vec![Receipt { success: true }, Receipt { success: true }];
    let trace = trace_of(vec![
        result(OrderKind::Tx, false, 1),
        two,
        result(OrderKind::Bundle, true, 4),
    ]);
    assert_eq!(trace.preconf_tx_count, 3);
    assert_eq!(trace.included_orders.len(), 3);
    assert_eq!(trace.included_orders[1].txs.len(), 2);
}

#[test]
fn orders_are_counted_by_kind() {
    let trace = trace_of(vec![
        result(OrderKind::Tx, false, 1),
        result(OrderKind::ShareBundle, false, 2),
        result(OrderKind::Bundle, false, 3),
        result(OrderKind::Tx, false, 4),
        result(OrderKind::Tx, false, 5),
        result(OrderKind::Bundle, false, 6),
    ]);
    assert_eq!(trace.used_order_count(), (3, 2, 1));
    assert_eq!(BuiltBlockTrace::new().used_order_count(), (0, 0, 0));
}

#[test]
fn only_a_missing_signer_is_noted() {
    let mut trace = BuiltBlockTrace::new();
    trace.modify_payment_when_no_signer_error(&ExecutionError::Other);
    trace.modify_payment_when_no_signer_error(&ExecutionError::OrderError(OrderErr::Other));
    trace.modify_payment_when_no_signer_error(&ExecutionError::OrderError(OrderErr::Bundle(
        BundleErr::Other,
    )));
    assert!(!trace.got_no_signer_error);
    trace.modify_payment_when_no_signer_error(&ExecutionError::OrderError(OrderErr::Bundle(
        BundleErr::NoSigner,
    )));
    assert!(trace.got_no_signer_error);
    trace.modify_payment_when_no_signer_error(&ExecutionError::Other);
    assert!(trace.got_no_signer_error);
}

#[test]
fn sound_block_is_consistent() {
    let trace = trace_of(vec![
        keyed(1, vec![Some(bundle_key(1, 9)), None]),
        keyed(2, vec![Some(bundle_key(2, 9))]),
        keyed(3, vec![Some(bundle_key(1, 8)), Some(share_key(1, 9))]),
        result(OrderKind::Tx, false, 4),
    ]);
    assert_eq!(trace.verify_bundle_consistency(&blocklist(&[50])), Ok(()));
    assert_eq!(BuiltBlockTrace::new().verify_bundle_consistency(&blocklist(&[1])), Ok(()));
}

#[test]
fn key_used_by_two_orders_is_found() {
    let trace = trace_of(vec![
        keyed(1, vec![Some(bundle_key(1, 9))]),
        keyed(2, vec![Some(bundle_key(2, 9)), Some(bundle_key(1, 9))]),
    ]);
    assert_eq!(
        trace.verify_bundle_consistency(&blocklist(&[])),
        Err(ConsistencyError::DuplicateReplacementKey(bundle_key(1, 9)))
    );
}

#[test]
fn key_used_twice_by_one_order_is_found() {
    let trace = trace_of(vec![keyed(
        1,
        vec![Some(share_key(3, 1)), Some(share_key(4, 1)), Some(share_key(4, 1)), Some(share_key(3, 1))],
    )]);
    assert_eq!(
        trace.verify_bundle_consistency(&blocklist(&[])),
        Err(ConsistencyError::DuplicateReplacementKey(share_key(4, 1)))
    );
}

#[test]
fn missing_receipt_is_found() {
    let mut r = result(OrderKind::Tx, false, 1);
    r.receipts = vec![];
    assert_eq!(
        trace_of(vec![r]).verify_bundle_consistency(&blocklist(&[1])),
        Err(ConsistencyError::ReceiptCountMismatch)
    );
}

#[test]
fn blocked_sender_and_callee_are_found() {
    let trace = trace_of(vec![result(OrderKind::Tx, false, 1), result(OrderKind::Tx, false, 2)]);
    assert_eq!(
        trace.verify_bundle_consistency(&blocklist(&[2])),
        Err(ConsistencyError::BlockedAddress)
    );
    assert_eq!(
        trace.verify_bundle_consistency(&blocklist(&[101])),
        Err(ConsistencyError::BlockedAddress)
    );
    assert_eq!(trace.verify_bundle_consistency(&blocklist(&[3, 103])), Ok(()));
    let mut creation = result(OrderKind::Tx, false, 7);
    creation.txs[0].to = None;
    assert_eq!(trace_of(vec![creation]).verify_bundle_consistency(&blocklist(&[107])), Ok(()));
}

#[test]
fn revert_is_found_where_it_is_not_allowed() {
    let mut r = result(OrderKind::Bundle, false, 1);
    r.receipts = vec![Receipt { success: false }];
    assert_eq!(
        trace_of(vec![r.clone()]).verify_bundle_consistency(&blocklist(&[])),
        Err(ConsistencyError::UnexpectedRevert)
    );
    r.order.txs = vec![ListedTx { hash: hash(1), can_revert: true }];
    assert_eq!(trace_of(vec![r.clone()]).verify_bundle_consistency(&blocklist(&[])), Ok(()));
    r.order.txs = vec![ListedTx { hash: hash(2), can_revert: false }];
    assert_eq!(trace_of(vec![r]).verify_bundle_consistency(&blocklist(&[])), Ok(()));
}

#[test]
fn last_listing_of_a_transaction_counts() {
    let mut r = result(OrderKind::Bundle, false, 1);
    r.receipts = vec![Receipt { success: false }];
    let strict = ListedTx { hash: hash(1), can_revert: false };
    let lax = ListedTx { hash: hash(1), can_revert: true };
    r.order.txs = vec![strict, lax];
    assert_eq!(trace_of(vec![r.clone()]).verify_bundle_consistency(&blocklist(&[])), Ok(()));
    r.order.txs = vec![lax, strict];
    assert_eq!(
        trace_of(vec![r]).verify_bundle_consistency(&blocklist(&[])),
        Err(ConsistencyError::UnexpectedRevert)
    );
}

#[test]
fn first_faulty_order_decides() {
    let mut reverted = keyed(1, vec![Some(bundle_key(1, 1))]);
    reverted.receipts = vec![Receipt { success: false }];
    let mut unmatched = keyed(2, vec![Some(bundle_key(1, 1))]);
    unmatched.receipts = vec![];
    assert_eq!(
        trace_of(vec![reverted.clone(), unmatched.clone()])
            .verify_bundle_consistency(&blocklist(&[])),
        Err(ConsistencyError::UnexpectedRevert)
    );
    assert_eq!(
        trace_of(vec![reverted.clone()]).verify_bundle_consistency(&blocklist(&[1])),
        Err(ConsistencyError::BlockedAddress)
    );
    reverted.receipts = vec![Receipt { success: true }];
    assert_eq!(
        trace_of(vec![reverted, unmatched]).verify_bundle_consistency(&blocklist(&[])),
        Err(ConsistencyError::DuplicateReplacementKey(bundle_key(1, 1)))
    );
}

#[test]
fn consistency_holds_for_prefixes_and_smaller_blocklists() {
    let results = vec![
        keyed(1, vec![Some(bundle_key(1, 9))]),
        keyed(2, vec![Some(bundle_key(2, 9))]),
        keyed(3, vec![None]),
    ];
    let list = blocklist(&[60, 61]);
    for n in 0..=results.len() {
        let trace = trace_of(results[..n].to_vec());
        assert_eq!(trace.verify_bundle_consistency(&list), Ok(()));
        assert_eq!(trace.verify_bundle_consistency(&blocklist(&[61])), Ok(()));
        assert_eq!(trace.verify_bundle_consistency(&blocklist(&[])), Ok(()));
    }
}

#[test]
fn every_fault_in_words() {
    assert_eq!(
        ConsistencyError::DuplicateReplacementKey(OrderReplacementKey::Bundle(
            BundleReplacementKey::new(0xa1a2a3a4b1b2c1c2d1d2d3d4d5d6d7d8, address(0x0f))
        ))
        .display(),
        "More than one order is included with the same replacement data: \
         Bundle(BundleReplacementKey { uuid: a1a2a3a4-b1b2-c1c2-d1d2-d3d4d5d6d7d8, \
         signer: 0x0f0f0f0f0f0f0f0f0f0f0f0f0f0f0f0f0f0f0f0f })"
    );
    assert_eq!(
        share_key(1, 0xab).display(),
        "ShareBundle(BundleReplacementKey { uuid: 00000000-0000-0000-0000-000000000001, \
         signer: 0xabababababababababababababababababababab })"
    );
    assert_eq!(
        ConsistencyError::ReceiptCountMismatch.display(),
        "Included order had different number of txs and receipts"
    );
    assert_eq!(
        ConsistencyError::BlockedAddress.display(),
        "Included order had tx from or to blocked address"
    );
    assert_eq!(
        ConsistencyError::UnexpectedRevert.display(),
        "Bundle tx reverted that is not revertable"
    );
}

#[test]
fn added_order_is_counted_once() {
    let mut trace = trace_of(vec![result(OrderKind::Tx, false, 1)]);
    trace.add_included_order(result(OrderKind::Bundle, true, 2));
    assert_eq!(trace.used_order_count(), (1, 1, 0));
    assert_eq!(trace.preconf_tx_count, 1);
    trace.set_orders_timestamps(at(5), at(6));
    trace.modify_payment_when_no_signer_error(&ExecutionError::Other);
    assert_eq!(trace.used_order_count(), (1, 1, 0));
    assert_eq!(trace.preconf_tx_count, 1);
}
