use rbuilder::preconf::bundle::{
    all_signers_known, assemble_order, eth_to_wei, generate_order_from_preconf, string_to_uuid,
    try_generate_order_from_preconf, uuid_or_error, BundleReplacementData, BundleTx, DecodedTx,
    EthPrice, PreconfBundle, PreconfTx,
};
use rbuilder::preconf::error::PreconfError;
use rbuilder::primitives::BundleReplacementKey;
use rbuilder::uint::U256;

const UUID_TEXT: &str = "a1a2a3a4-b1b2-c1c2-d1d2-d3d4d5d6d7d8";
const UUID: u128 = 0xa1a2a3a4b1b2c1c2d1d2d3d4d5d6d7d8;

fn tx(text: &str, can_revert: bool) -> PreconfTx {
    PreconfTx { tx: text.to_string(), can_revert }
}

fn decoded(n: u8, signer: Option<u8>, has_blobs: bool) -> Option<DecodedTx> {
    Some(DecodedTx { hash: [n; 32], signer: signer.map(|s| [s; 20]), has_blobs })
}

fn bundle(uuid: &str, flags: &[bool], price: EthPrice) -> PreconfBundle {
    PreconfBundle {
        txs: flags.iter().map(|can_revert| tx("0x", *can_revert)).collect(),
        uuid: uuid.to_string(),
        average_bid_price: price,
    }
}

fn conversion_error(error: PreconfError) -> String {
    match error {
        PreconfError::PreconfConvertError(reason) => reason,
        other => panic!("{:?}", other),
    }
}

#[test]
fn uuids_are_read_in_every_spelling() {
    assert_eq!(string_to_uuid(&UUID_TEXT.to_string()).unwrap(), UUID);
    assert_eq!(string_to_uuid(&"A1A2A3A4B1B2C1C2D1D2D3D4D5D6D7D8".to_string()).unwrap(), UUID);
    assert_eq!(string_to_uuid(&format!("urn:uuid:{}", UUID_TEXT)).unwrap(), UUID);
}

#[test]
fn unreadable_uuid_is_named_in_the_error() {
    let reason = conversion_error(string_to_uuid(&"not a uuid".to_string()).unwrap_err());
    assert_eq!(reason, "Failed to parse UUIDv4 from received uuid str=not a uuid");
    let reason = conversion_error(uuid_or_error(None, &"x".to_string()).unwrap_err());
    assert_eq!(reason, "Failed to parse UUIDv4 from received uuid str=x");
    assert_eq!(uuid_or_error(Some(3), &"x".to_string()).unwrap(), 3);
}

#[test]
fn prices_in_wei() {
    assert_eq!(eth_to_wei(EthPrice::Wei(0)).unwrap(), U256 { limbs: [0, 0, 0, 0] });
    assert_eq!(
        eth_to_wei(EthPrice::Wei(u128::MAX)).unwrap(),
        U256 { limbs: [u64::MAX, u64::MAX, 0, 0] }
    );
    assert_eq!(
        conversion_error(eth_to_wei(EthPrice::Negative).unwrap_err()),
        "ETH price cannot be negative"
    );
}

#[test]
fn decoded_bytes_are_those_of_the_text() {
    assert_eq!(tx("0x02", false).tx_bytes(), vec![0x30, 0x78, 0x30, 0x32]);
    assert_eq!(tx("", false).tx_bytes(), Vec::<u8>::new());
    assert_eq!(tx("\u{e9}", false).tx_bytes(), vec![0xc3, 0xa9]);
}

#[test]
fn order_has_the_decoded_transactions() {
    let bundle = bundle(UUID_TEXT, &[false, true, true, true, false], EthPrice::Wei(5));
    let decoded = vec![
        decoded(1, Some(11), false),
        None,
        decoded(3, Some(13), true),
        decoded(4, Some(14), false),
        None,
    ];
    let order = assemble_order(100, 200, &bundle, &decoded, UUID, 7).unwrap();
    assert_eq!(order.block, 100);
    assert_eq!(order.min_timestamp, Some(200));
    assert_eq!(order.max_timestamp, None);
    assert_eq!(
        order.txs,
        vec![
            BundleTx { position: 0, hash: [1; 32], signer: [11; 20] },
            BundleTx { position: 3, hash: [4; 32], signer: [14; 20] },
        ]
    );
    assert_eq!(order.reverting_tx_hashes, vec![[3; 32], [4; 32]]);
    assert_eq!(order.hash, [0; 32]);
    assert_eq!(order.uuid, 7);
    assert_eq!(
        order.replacement_data,
        Some(BundleReplacementData {
            key: BundleReplacementKey { uuid: UUID, signer: [14; 20] },
            sequence_number: 0,
        })
    );
    assert_eq!(order.signer, Some([14; 20]));
    assert_eq!(order.metadata.avg_bid_price, Some(U256 { limbs: [5, 0, 0, 0] }));
}

#[test]
fn signer_is_that_of_the_last_decoded_transaction_even_with_blobs() {
    let bundle = bundle(UUID_TEXT, &[false, false], EthPrice::Wei(1));
    let decoded = vec![decoded(1, Some(1), false), decoded(2, Some(2), true)];
    let order = assemble_order(1, 1, &bundle, &decoded, 9, 10).unwrap();
    assert_eq!(order.signer, Some([2; 20]));
    assert_eq!(order.txs.len(), 1);
}

#[test]
fn negative_price_makes_no_order() {
    let bundle = bundle(UUID_TEXT, &[false], EthPrice::Negative);
    let decoded = vec![decoded(1, Some(1), false)];
    let reason = "Cannot generate order from bundle: \
                  Preconf order conversion error: ETH price cannot be negative";
    let error = assemble_order(1, 1, &bundle, &decoded, UUID, 1).unwrap_err();
    assert_eq!(conversion_error(error), reason);
    let error = generate_order_from_preconf(1, 1, &bundle, &decoded).unwrap_err();
    assert_eq!(conversion_error(error), reason);
}

#[test]
fn generated_orders_have_random_uuids() {
    let bundle = bundle(UUID_TEXT, &[true], EthPrice::Wei(3));
    let decoded = vec![decoded(1, Some(1), false)];
    let a = generate_order_from_preconf(4, 5, &bundle, &decoded).unwrap();
    let b = generate_order_from_preconf(4, 5, &bundle, &decoded).unwrap();
    for order in [&a, &b] {
        assert_eq!((order.uuid >> 76) & 0xf, 4);
        assert_eq!((order.uuid >> 62) & 0x3, 2);
        assert_eq!(order.replacement_data.unwrap().key.uuid, UUID);
        assert_eq!(order.reverting_tx_hashes, vec![[1; 32]]);
    }
    assert_ne!(a.uuid, b.uuid);
    assert_eq!(a.replacement_data.unwrap().key, b.replacement_data.unwrap().key);
}

#[test]
fn unknown_signers_make_nothing() {
    let good = bundle(UUID_TEXT, &[false, false], EthPrice::Wei(3));
    let unreadable = bundle("?", &[false, false], EthPrice::Wei(3));
    for unknown in [
        vec![None, None],
        vec![decoded(1, None, false), decoded(2, Some(2), false)],
        vec![decoded(1, Some(1), false), decoded(2, None, true)],
    ] {
        assert!(!all_signers_known(&unknown));
        assert!(try_generate_order_from_preconf(1, 1, &good, &unknown).is_none());
        let error = try_generate_order_from_preconf(1, 1, &unreadable, &unknown).unwrap();
        assert_eq!(
            conversion_error(error.unwrap_err()),
            "Failed to parse UUIDv4 from received uuid str=?"
        );
    }
    let known = vec![None, decoded(2, Some(2), false)];
    assert!(all_signers_known(&known));
    assert!(try_generate_order_from_preconf(1, 1, &good, &known).unwrap().is_ok());
}
