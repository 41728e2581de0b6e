//! Orders made of preconfirmed bundles.
use crate::preconf::error::PreconfError;
use crate::primitives::{Address, BundleReplacementKey, B256};
use crate::uint::U256;
use vstd::prelude::*;
use vstd::string::*;
use vstd::utf8::encode_utf8;

verus! {

/// `uuid::Error`: says that a text is no UUID. Nothing is claimed of it.
#[verifier::external_type_specification]
#[verifier::external_body]
pub struct ExUuidError(uuid::Error);

/// The UUID that a text spells, if it spells one, as the uuid crate reads it.
pub uninterp spec fn parsed_uuid(text: Seq<char>) -> Option<u128>;

/// `Uuid::from_str` of the uuid crate: the UUID that the text spells, as a number.
#[verifier::external_body]
fn parse_uuid(text: &str) -> (parsed: Result<u128, uuid::Error>)
    ensures
        (match parsed {
            Ok(uuid) => parsed_uuid(text@) == Some(uuid),
            Err(_) => parsed_uuid(text@) is None,
        }),
{
    <uuid::Uuid as std::str::FromStr>::from_str(text).map(|uuid| uuid.as_u128())
}

/// Whether a number is a random UUID: version 4, of the RFC's variant.
pub open spec fn is_random_uuid(uuid: u128) -> bool {
    &&& (uuid >> 76) & 0xf == 4
    &&& (uuid >> 62) & 0x3 == 2
}

/// `Uuid::new_v4` of the uuid crate: a random UUID. Chance decides which; its version and its
/// variant are all that is claimed. It panics if the system has no randomness to give.
#[verifier::external_body]
fn new_random_uuid() -> (uuid: u128)
    ensures
        is_random_uuid(uuid),
{
    uuid::Uuid::new_v4().as_u128()
}

/// A new random UUID.
pub fn random_uuid() -> (uuid: u128)
    ensures
        is_random_uuid(uuid),
{
    new_random_uuid()
}

/// A transaction of a preconfirmed bundle.
#[derive(Debug, Clone)]
pub struct PreconfTx {
    pub tx: String,
    pub can_revert: bool,
}

impl PreconfTx {
    /// The bytes that are decoded to get the transaction: those of the text.
    pub fn tx_bytes(&self) -> (bytes: Vec<u8>)
        ensures
            bytes@ == encode_utf8(self.tx@),
    {
        self.tx.as_str().as_bytes_vec()
    }
}

/// A price in ether, as far as it can be expressed in wei.
#[derive(Debug, Clone, Copy, PartialEq, Eq)]
pub enum EthPrice {
    /// Less than nothing.
    Negative,
    /// So many wei.
    Wei(u128),
}

/// A bundle that was preconfirmed.
#[derive(Debug, Clone)]
pub struct PreconfBundle {
    pub txs: Vec<PreconfTx>,
    pub uuid: String,
    pub average_bid_price: EthPrice,
}

/// A transaction that was decoded of the text in a bundle.
#[derive(Debug, Clone, Copy, PartialEq, Eq)]
pub struct DecodedTx {
    pub hash: B256,
    /// Who signed it, where the signature tells.
    pub signer: Option<Address>,
    /// Whether it carries blobs, which a preconfirmed bundle has no room for.
    pub has_blobs: bool,
}

/// A transaction of an order.
#[derive(Debug, Clone, Copy, PartialEq, Eq)]
pub struct BundleTx {
    /// Where in the preconfirmed bundle it stands.
    pub position: usize,
    pub hash: B256,
    pub signer: Address,
}

/// Which earlier orders an order replaces.
#[derive(Debug, Clone, Copy, PartialEq, Eq)]
pub struct BundleReplacementData {
    pub key: BundleReplacementKey,
    pub sequence_number: u64,
}

/// What is known of an order besides what it asks for.
#[derive(Debug, Clone, Copy, PartialEq, Eq)]
pub struct Metadata {
    pub avg_bid_price: Option<U256>,
}

/// An order to include transactions in a block.
#[derive(Debug, Clone, PartialEq, Eq)]
pub struct Bundle {
    pub block: u64,
    pub min_timestamp: Option<u64>,
    pub max_timestamp: Option<u64>,
    pub txs: Vec<BundleTx>,
    pub reverting_tx_hashes: Vec<B256>,
    pub hash: B256,
    pub uuid: u128,
    pub replacement_data: Option<BundleReplacementData>,
    pub signer: Option<Address>,
    pub metadata: Metadata,
}

/// The transactions of an order: those of the bundle that were decoded and carry no blobs.
pub open spec fn order_txs(decoded: Seq<Option<DecodedTx>>) -> Seq<BundleTx>
    decreases decoded.len(),
{
    if decoded.len() == 0 {
        Seq::empty()
    } else {
        let before = order_txs(decoded.drop_last());
        match decoded.last() {
            Some(tx) => if tx.has_blobs {
                before
            } else {
                before.push(
                    BundleTx {
                        position: (decoded.len() - 1) as usize,
                        hash: tx.hash,
                        signer: tx.signer->0,
                    },
                )
            },
            None => before,
        }
    }
}

/// The hashes of the decoded transactions that may revert.
pub open spec fn reverting_hashes(txs: Seq<PreconfTx>, decoded: Seq<Option<DecodedTx>>) -> Seq<B256>
    decreases decoded.len(),
{
    if decoded.len() == 0 {
        Seq::empty()
    } else {
        let before = reverting_hashes(txs.drop_last(), decoded.drop_last());
        match decoded.last() {
            Some(tx) => if txs.last().can_revert {
                before.push(tx.hash)
            } else {
                before
            },
            None => before,
        }
    }
}

/// The signer of the last transaction that was decoded.
pub open spec fn last_signer(decoded: Seq<Option<DecodedTx>>) -> Option<Address>
    decreases decoded.len(),
{
    if decoded.len() == 0 {
        None
    } else {
        match decoded.last() {
            Some(tx) => tx.signer,
            None => last_signer(decoded.drop_last()),
        }
    }
}

/// Some transaction was decoded, and of each that was, the signer is known.
pub open spec fn signers_known(decoded: Seq<Option<DecodedTx>>) -> bool {
    &&& exists|i: int| 0 <= i < decoded.len() && (#[trigger] decoded[i]) is Some
    &&& forall|i: int|
        0 <= i < decoded.len() && (#[trigger] decoded[i]) is Some ==> decoded[i]->0.signer is Some
}

/// `order` is the one that a bundle makes: it is for the block, from the timestamp on, has the
/// decoded transactions, and replaces what the same signer sent under the bundle's uuid.
pub open spec fn is_order_of(
    order: Bundle,
    block: u64,
    timestamp: u64,
    bundle: PreconfBundle,
    decoded: Seq<Option<DecodedTx>>,
    bundle_uuid: u128,
) -> bool {
    let signer = last_signer(decoded)->0;
    &&& order.block == block
    &&& order.min_timestamp == Some(timestamp)
    &&& order.max_timestamp is None
    &&& order.txs@ == order_txs(decoded)
    &&& order.reverting_tx_hashes@ == reverting_hashes(bundle.txs@, decoded)
    &&& forall|i: int| 0 <= i < 32 ==> order.hash[i] == 0
    &&& order.replacement_data == Some(
        BundleReplacementData {
            key: BundleReplacementKey { uuid: bundle_uuid, signer },
            sequence_number: 0,
        },
    )
    &&& order.signer == Some(signer)
    &&& bundle.average_bid_price is Wei
    &&& order.metadata.avg_bid_price is Some
    &&& order.metadata.avg_bid_price->0@ == bundle.average_bid_price->Wei_0
}

/// The text of the error that a bundle with a negative price makes.
pub open spec fn negative_price_text() -> Seq<char> {
    "Cannot generate order from bundle: "@ + ("Preconf order conversion error: "@
        + "ETH price cannot be negative"@)
}

/// The error is a failed conversion with this text.
pub open spec fn is_conversion_error(error: PreconfError, text: Seq<char>) -> bool {
    error matches PreconfError::PreconfConvertError(reason) && reason@ == text
}

/// The text of the error that a bundle without a readable uuid makes.
pub open spec fn invalid_uuid_text(uuid: Seq<char>) -> Seq<char> {
    "Failed to parse UUIDv4 from received uuid str="@ + uuid
}

/// What a bundle makes: an order with a new random uuid, or the error that says why it makes none.
pub open spec fn is_outcome_of(
    outcome: Result<Bundle, PreconfError>,
    block: u64,
    timestamp: u64,
    bundle: PreconfBundle,
    decoded: Seq<Option<DecodedTx>>,
) -> bool {
    match parsed_uuid(bundle.uuid@) {
        None => outcome is Err && is_conversion_error(
            outcome->Err_0,
            invalid_uuid_text(bundle.uuid@),
        ),
        Some(bundle_uuid) => match bundle.average_bid_price {
            EthPrice::Negative => outcome is Err && is_conversion_error(
                outcome->Err_0,
                negative_price_text(),
            ),
            EthPrice::Wei(_) => {
                &&& outcome is Ok
                &&& call_ensures(random_uuid, (), outcome->Ok_0.uuid)
                &&& is_random_uuid(outcome->Ok_0.uuid)
                &&& is_order_of(
                    outcome->Ok_0,
                    block,
                    timestamp,
                    bundle,
                    decoded,
                    bundle_uuid,
                )
            },
        },
    }
}

/// Reads the uuid of a bundle.
pub fn string_to_uuid(uuid_str: &String) -> (uuid: Result<u128, PreconfError>)
    ensures
        (match parsed_uuid(uuid_str@) {
            Some(parsed) => uuid == Ok::<u128, PreconfError>(parsed),
            None => uuid is Err && is_conversion_error(uuid->Err_0, invalid_uuid_text(uuid_str@)),
        }),
        (match uuid {
            Ok(value) => parsed_uuid(uuid_str@) == Some(value),
            Err(error) => parsed_uuid(uuid_str@) is None && error is PreconfConvertError
                && error->PreconfConvertError_0@
                == "Failed to parse UUIDv4 from received uuid str="@ + uuid_str@,
        }),
{
    match parse_uuid(uuid_str.as_str()) {
        Ok(parsed) => uuid_or_error(Some(parsed), uuid_str),
        Err(_) => uuid_or_error(None, uuid_str),
    }
}

/// The uuid that was read, or the error that names the text where none was.
pub fn uuid_or_error(parsed: Option<u128>, uuid_str: &String) -> (uuid: Result<u128, PreconfError>)
    ensures
        (match parsed {
            Some(value) => uuid == Ok::<u128, PreconfError>(value),
            None => uuid is Err && is_conversion_error(uuid->Err_0, invalid_uuid_text(uuid_str@)),
        }),
        (match uuid {
            Ok(value) => parsed == Some(value),
            Err(error) => parsed is None && error is PreconfConvertError
                && error->PreconfConvertError_0@
                == "Failed to parse UUIDv4 from received uuid str="@ + uuid_str@,
        }),
{
    match parsed {
        Some(uuid) => Ok(uuid),
        None => {
            let err_msg = "Failed to parse UUIDv4 from received uuid str=".to_owned().concat(
                uuid_str.as_str(),
            );
            Err(PreconfError::PreconfConvertError(err_msg))
        },
    }
}

/// A price in wei; there is none for a negative price.
pub fn eth_to_wei(price_eth: EthPrice) -> (wei: Result<U256, PreconfError>)
    ensures
        (match price_eth {
            EthPrice::Wei(value) => wei is Ok && wei->Ok_0@ == value,
            EthPrice::Negative => wei is Err && is_conversion_error(
                wei->Err_0,
                "ETH price cannot be negative"@,
            ),
        }),
        (match wei {
            Ok(value) => price_eth is Wei && value@ == price_eth->Wei_0,
            Err(error) => price_eth is Negative && error is PreconfConvertError
                && error->PreconfConvertError_0@ == "ETH price cannot be negative"@,
        }),
{
    match price_eth {
        EthPrice::Negative => Err(
            PreconfError::PreconfConvertError("ETH price cannot be negative".to_owned()),
        ),
        EthPrice::Wei(value) => Ok(U256::from_u128(value)),
    }
}

/// Where the signers are known, the last one is.
proof fn lemma_last_signer_known(decoded: Seq<Option<DecodedTx>>)
    requires
        signers_known(decoded),
    ensures
        last_signer(decoded) is Some,
    decreases decoded.len(),
{
    let init = decoded.drop_last();
    if decoded.last() is Some {
        assert(decoded[decoded.len() - 1].unwrap().signer is Some);
    } else {
        let i = choose|i: int| 0 <= i < decoded.len() && (#[trigger] decoded[i]) is Some;
        assert(init[i] == decoded[i]);
        assert forall|j: int| 0 <= j < init.len() && (#[trigger] init[j]) is Some implies init[j]->0.signer is Some by {
            assert(init[j] == decoded[j]);
        }
        lemma_last_signer_known(init);
    }
}

/// Whether some transaction was decoded, and of each that was, the signer is known.
pub fn all_signers_known(decoded: &Vec<Option<DecodedTx>>) -> (known: bool)
    ensures
        known == signers_known(decoded@),
        known <==> (exists|i: int| 0 <= i < decoded@.len() && (#[trigger] decoded@[i]) is Some)
            && (forall|i: int|
            0 <= i < decoded@.len() && (#[trigger] decoded@[i]) is Some
                ==> decoded@[i]->0.signer is Some),
{
    let mut any = false;
    let mut n: usize = 0;
    while n < decoded.len()
        invariant
            n <= decoded.len(),
            any <==> exists|i: int| 0 <= i < n && (#[trigger] decoded@[i]) is Some,
            forall|i: int|
                0 <= i < n && (#[trigger] decoded@[i]) is Some ==> decoded@[i]->0.signer is Some,
        decreases decoded.len() - n,
    {
        if let Some(tx) = &decoded[n] {
            assert(decoded@[n as int] is Some);
            if tx.signer.is_none() {
                assert(decoded@[n as int]->0.signer is None);
                return false;
            }
            any = true;
        }
        n += 1;
    }
    any
}

/// The order that a bundle makes, under the given uuids, of the transactions that were decoded;
/// an error if its price is negative.
pub fn assemble_order(
    block: u64,
    timestamp: u64,
    bundle: &PreconfBundle,
    decoded: &Vec<Option<DecodedTx>>,
    bundle_uuid: u128,
    order_uuid: u128,
) -> (outcome: Result<Bundle, PreconfError>)
    requires
        decoded@.len() == bundle.txs@.len(),
        signers_known(decoded@),
    ensures
        (match bundle.average_bid_price {
            EthPrice::Negative => outcome is Err && is_conversion_error(
                outcome->Err_0,
                negative_price_text(),
            ),
            EthPrice::Wei(_) => outcome is Ok && outcome->Ok_0.uuid == order_uuid && is_order_of(
                outcome->Ok_0,
                block,
                timestamp,
                *bundle,
                decoded@,
                bundle_uuid,
            ),
        }),
        outcome matches Ok(order) ==> {
            &&& order.block == block
            &&& order.min_timestamp == Some(timestamp)
            &&& order.max_timestamp is None
            &&& forall|i: int| 0 <= i < 32 ==> order.hash[i] == 0
            &&& order.reverting_tx_hashes@ == reverting_hashes(bundle.txs@, decoded@)
            &&& order.uuid == order_uuid
            &&& order.replacement_data is Some
            &&& order.replacement_data->0.key.uuid == bundle_uuid
            &&& order.replacement_data->0.sequence_number == 0
            &&& order.signer == Some(order.replacement_data->0.key.signer)
            &&& bundle.average_bid_price is Wei
            &&& order.metadata.avg_bid_price is Some
            &&& order.metadata.avg_bid_price->0@ == bundle.average_bid_price->Wei_0
        },
        outcome matches Ok(order) ==> forall|i: int|
            0 <= i < decoded@.len() && (#[trigger] decoded@[i]) is Some && (forall|k: int|
                i < k < decoded@.len() ==> (#[trigger] decoded@[k]) is None) ==> order.signer
                == decoded@[i]->0.signer,
        outcome matches Ok(order) ==> forall|i: int|
            0 <= i < order.txs@.len() ==> {
                let tx = #[trigger] order.txs@[i];
                let source = decoded@[tx.position as int];
                &&& tx.position < decoded@.len()
                &&& source is Some && !source->0.has_blobs
                &&& tx.hash == source->0.hash && source->0.signer == Some(tx.signer)
            },
        outcome matches Ok(order) ==> forall|i: int, k: int|
            0 <= i < k < order.txs@.len() ==> (#[trigger] order.txs@[i]).position < (
            #[trigger] order.txs@[k]).position,
        outcome matches Ok(order) ==> forall|n: int|
            0 <= n < decoded@.len() && (#[trigger] decoded@[n]) is Some
                && !decoded@[n]->0.has_blobs ==> exists|i: int|
                0 <= i < order.txs@.len() && (#[trigger] order.txs@[i]).position == n,
        outcome matches Err(error) ==> bundle.average_bid_price is Negative
            && error is PreconfConvertError && error->PreconfConvertError_0@
            == "Cannot generate order from bundle: "@ + ("Preconf order conversion error: "@
            + "ETH price cannot be negative"@),
{
    let mut reverting_tx_hashes: Vec<B256> = Vec::new();
    let mut signer: Option<Address> = None;
    let mut txs: Vec<BundleTx> = Vec::new();
    let mut n: usize = 0;
    while n < decoded.len()
        invariant
            n <= decoded.len(),
            decoded@.len() == bundle.txs@.len(),
            signers_known(decoded@),
            txs@ == order_txs(decoded@.take(n as int)),
            reverting_tx_hashes@ == reverting_hashes(
                bundle.txs@.take(n as int),
                decoded@.take(n as int),
            ),
            signer == last_signer(decoded@.take(n as int)),
        decreases decoded.len() - n,
    {
        proof {
            assert(decoded@.take(n + 1).drop_last() =~= decoded@.take(n as int));
            assert(bundle.txs@.take(n + 1).drop_last() =~= bundle.txs@.take(n as int));
            assert(bundle.txs@.take(n + 1).last() == bundle.txs@[n as int]);
            assert(decoded@.take(n + 1).last() == decoded@[n as int]);
        }
        if let Some(tx) = &decoded[n] {
            if bundle.txs[n].can_revert {
                reverting_tx_hashes.push(tx.hash);
            }
            signer = tx.signer;
            if !tx.has_blobs {
                if let Some(tx_signer) = tx.signer {
                    txs.push(BundleTx { position: n, hash: tx.hash, signer: tx_signer });
                }
            }
        }
        n += 1;
    }
    proof {
        assert(decoded@.take(n as int) =~= decoded@);
        assert(bundle.txs@.take(n as int) =~= bundle.txs@);
        lemma_last_signer_known(decoded@);
        lemma_signer_is_the_last(decoded@);
        lemma_order_txs_by_place(decoded@);
    }
    let replacement_data = BundleReplacementData {
        key: BundleReplacementKey::new(bundle_uuid, signer.unwrap()),
        sequence_number: 0,
    };
    match eth_to_wei(bundle.average_bid_price) {
        Ok(average_bid_price) => Ok(
            Bundle {
                block,
                min_timestamp: Some(timestamp),
                max_timestamp: None,
                txs,
                reverting_tx_hashes,
                hash: [0u8; 32],
                uuid: order_uuid,
                replacement_data: Some(replacement_data),
                signer,
                metadata: Metadata { avg_bid_price: Some(average_bid_price) },
            },
        ),
        Err(e) => {
            let err_msg = "Cannot generate order from bundle: ".to_owned().concat(
                e.display().as_str(),
            );
            Err(PreconfError::PreconfConvertError(err_msg))
        },
    }
}

/// The order that a preconfirmed bundle makes of the transactions that were decoded. There is
/// none if the bundle's uuid cannot be read or its price is negative.
///
/// Where the uuid can be read, some transaction must have been decoded, and of each that was,
/// the signer must be known.
pub fn generate_order_from_preconf(
    block: u64,
    timestamp: u64,
    bundle: &PreconfBundle,
    decoded: &Vec<Option<DecodedTx>>,
) -> (outcome: Result<Bundle, PreconfError>)
    requires
        decoded@.len() == bundle.txs@.len(),
        parsed_uuid(bundle.uuid@) is Some ==> signers_known(decoded@),
    ensures
        is_outcome_of(outcome, block, timestamp, *bundle, decoded@),
        outcome is Ok <==> parsed_uuid(bundle.uuid@) is Some && bundle.average_bid_price is Wei,
        outcome matches Ok(order) ==> order.block == block && order.min_timestamp == Some(timestamp)
            && order.replacement_data is Some && parsed_uuid(bundle.uuid@) == Some(
            order.replacement_data->0.key.uuid,
        ),
{
    match string_to_uuid(&bundle.uuid) {
        Ok(bundle_uuid) => assemble_order(
            block,
            timestamp,
            bundle,
            decoded,
            bundle_uuid,
            random_uuid(),
        ),
        Err(e) => Err(e),
    }
}

/// The order that a preconfirmed bundle makes, as [`generate_order_from_preconf`] does, or
/// none where the uuid can be read and the signers are not known.
pub fn try_generate_order_from_preconf(
    block: u64,
    timestamp: u64,
    bundle: &PreconfBundle,
    decoded: &Vec<Option<DecodedTx>>,
) -> (outcome: Option<Result<Bundle, PreconfError>>)
    requires
        decoded@.len() == bundle.txs@.len(),
    ensures
        outcome is None <==> parsed_uuid(bundle.uuid@) is Some && !signers_known(decoded@),
        outcome is Some ==> is_outcome_of(outcome->0, block, timestamp, *bundle, decoded@),
        outcome is None <==> parsed_uuid(bundle.uuid@) is Some && !((exists|i: int|
            0 <= i < decoded@.len() && (#[trigger] decoded@[i]) is Some) && (forall|i: int|
            0 <= i < decoded@.len() && (#[trigger] decoded@[i]) is Some
                ==> decoded@[i]->0.signer is Some)),
        outcome matches Some(Ok(order)) ==> order.block == block && order.min_timestamp == Some(
            timestamp,
        ) && order.replacement_data is Some && parsed_uuid(bundle.uuid@) == Some(
            order.replacement_data->0.key.uuid,
        ),
{
    if string_to_uuid(&bundle.uuid).is_ok() && !all_signers_known(decoded) {
        return None;
    }
    Some(generate_order_from_preconf(block, timestamp, bundle, decoded))
}

/// The transactions of an order keep the sequence of the bundle, and each of them is one that
/// was decoded there and carries no blobs.
pub proof fn lemma_order_txs_are_decoded(decoded: Seq<Option<DecodedTx>>, i: int)
    requires
        decoded.len() <= usize::MAX,
        0 <= i < order_txs(decoded).len(),
    ensures
        ({
            let tx = order_txs(decoded)[i];
            let source = decoded[tx.position as int];
            &&& tx.position < decoded.len()
            &&& source is Some
            &&& !source->0.has_blobs
            &&& tx.hash == source->0.hash
            &&& tx.signer == source->0.signer->0
            &&& i > 0 ==> order_txs(decoded)[i - 1].position < tx.position
        }),
    decreases decoded.len(),
{
    let init = decoded.drop_last();
    let before = order_txs(init);
    if i < before.len() {
        lemma_order_txs_are_decoded(init, i);
        assert(init[before[i].position as int] == decoded[before[i].position as int]);
    } else if i > 0 {
        lemma_order_txs_are_decoded(init, i - 1);
    }
}

/// Every decoded transaction without blobs is in the order.
pub proof fn lemma_decoded_txs_are_ordered(decoded: Seq<Option<DecodedTx>>, position: int)
    requires
        decoded.len() <= usize::MAX,
        0 <= position < decoded.len(),
        decoded[position] is Some,
        !decoded[position]->0.has_blobs,
    ensures
        exists|i: int|
            0 <= i < order_txs(decoded).len() && (#[trigger] order_txs(decoded)[i]).position
                == position,
    decreases decoded.len(),
{
    let init = decoded.drop_last();
    let txs = order_txs(decoded);
    let before = order_txs(init);
    if position < init.len() {
        assert(init[position] == decoded[position]);
        lemma_decoded_txs_are_ordered(init, position);
        let i = choose|i: int|
            0 <= i < before.len() && (#[trigger] before[i]).position == position;
        assert(txs[i].position == position);
    } else {
        assert(txs[txs.len() - 1].position == position);
    }
}

/// A hash is one that may revert exactly if some decoded transaction of the bundle has it and
/// may revert.
pub proof fn lemma_reverting_hashes_may_revert(
    txs: Seq<PreconfTx>,
    decoded: Seq<Option<DecodedTx>>,
    hash: B256,
)
    requires
        txs.len() == decoded.len(),
    ensures
        reverting_hashes(txs, decoded).contains(hash) <==> exists|i: int|
            0 <= i < decoded.len() && (#[trigger] decoded[i]) is Some && decoded[i]->0.hash == hash
                && txs[i].can_revert,
    decreases decoded.len(),
{
    if decoded.len() > 0 {
        let init = decoded.drop_last();
        let init_txs = txs.drop_last();
        let hashes = reverting_hashes(txs, decoded);
        let before = reverting_hashes(init_txs, init);
        let last = decoded.len() - 1;
        lemma_reverting_hashes_may_revert(init_txs, init, hash);
        if hashes.contains(hash) {
            if before.contains(hash) {
                let i = choose|i: int|
                    0 <= i < init.len() && (#[trigger] init[i]) is Some && init[i]->0.hash == hash
                        && init_txs[i].can_revert;
                assert(decoded[i] == init[i] && txs[i] == init_txs[i]);
            } else {
                assert(hashes == before.push(decoded.last()->0.hash));
                assert(decoded[last]->0.hash == hash && txs[last].can_revert);
            }
        }
        if exists|i: int|
            0 <= i < decoded.len() && (#[trigger] decoded[i]) is Some && decoded[i]->0.hash == hash
                && txs[i].can_revert {
            let i = choose|i: int|
                0 <= i < decoded.len() && (#[trigger] decoded[i]) is Some && decoded[i]->0.hash
                    == hash && txs[i].can_revert;
            if i < last {
                assert(init[i] == decoded[i] && init_txs[i] == txs[i]);
                let k = choose|k: int| 0 <= k < before.len() && before[k] == hash;
                assert(hashes[k] == hash);
            } else {
                assert(hashes[hashes.len() - 1] == hash);
            }
        }
    }
}

/// Two orders of bundles with the same uuid, last signed by the same signer, replace each
/// other: they have the same replacement key.
pub proof fn lemma_same_uuid_and_signer_replace(
    first: Bundle,
    first_block: u64,
    first_timestamp: u64,
    first_bundle: PreconfBundle,
    first_decoded: Seq<Option<DecodedTx>>,
    second: Bundle,
    second_block: u64,
    second_timestamp: u64,
    second_bundle: PreconfBundle,
    second_decoded: Seq<Option<DecodedTx>>,
    uuid: u128,
)
    requires
        is_order_of(first, first_block, first_timestamp, first_bundle, first_decoded, uuid),
        is_order_of(second, second_block, second_timestamp, second_bundle, second_decoded, uuid),
        last_signer(first_decoded) == last_signer(second_decoded),
    ensures
        first.replacement_data is Some,
        second.replacement_data is Some,
        first.replacement_data->0.key == second.replacement_data->0.key,
{
}

/// The signer of an order is that of the decoded transaction after which no other was decoded,
/// whatever came before it.
pub proof fn lemma_last_decoded_signs(decoded: Seq<Option<DecodedTx>>, i: int)
    requires
        0 <= i < decoded.len(),
        decoded[i] is Some,
        forall|k: int| i < k < decoded.len() ==> (#[trigger] decoded[k]) is None,
    ensures
        last_signer(decoded) == decoded[i]->0.signer,
    decreases decoded.len(),
{
    let init = decoded.drop_last();
    if i < init.len() {
        assert(decoded[decoded.len() - 1] is None);
        assert forall|k: int| i < k < init.len() implies (#[trigger] init[k]) is None by {
            assert(init[k] == decoded[k]);
        }
        lemma_last_decoded_signs(init, i);
    }
}

proof fn lemma_signer_is_the_last(decoded: Seq<Option<DecodedTx>>)
    ensures
        forall|i: int|
            0 <= i < decoded.len() && (#[trigger] decoded[i]) is Some && (forall|k: int|
                i < k < decoded.len() ==> (#[trigger] decoded[k]) is None) ==> last_signer(decoded)
                == decoded[i]->0.signer,
{
    assert forall|i: int|
        0 <= i < decoded.len() && (#[trigger] decoded[i]) is Some && (forall|k: int|
            i < k < decoded.len() ==> (#[trigger] decoded[k]) is None) implies last_signer(decoded)
        == decoded[i]->0.signer by {
        lemma_last_decoded_signs(decoded, i);
    }
}

proof fn lemma_order_txs_by_place(decoded: Seq<Option<DecodedTx>>)
    requires
        decoded.len() <= usize::MAX,
        signers_known(decoded),
    ensures
        forall|i: int|
            0 <= i < order_txs(decoded).len() ==> {
                let tx = #[trigger] order_txs(decoded)[i];
                let source = decoded[tx.position as int];
                &&& tx.position < decoded.len()
                &&& source is Some && !source->0.has_blobs
                &&& tx.hash == source->0.hash && source->0.signer == Some(tx.signer)
            },
        forall|i: int, k: int|
            0 <= i < k < order_txs(decoded).len() ==> (#[trigger] order_txs(decoded)[i]).position
                < (#[trigger] order_txs(decoded)[k]).position,
        forall|n: int|
            0 <= n < decoded.len() && (#[trigger] decoded[n]) is Some && !decoded[n]->0.has_blobs
                ==> exists|i: int|
                0 <= i < order_txs(decoded).len() && (#[trigger] order_txs(decoded)[i]).position
                    == n,
{
    let txs = order_txs(decoded);
    assert forall|i: int| 0 <= i < txs.len() implies {
        let tx = #[trigger] txs[i];
        let source = decoded[tx.position as int];
        &&& tx.position < decoded.len()
        &&& source is Some && !source->0.has_blobs
        &&& tx.hash == source->0.hash && source->0.signer == Some(tx.signer)
    } by {
        lemma_order_txs_are_decoded(decoded, i);
    }
    assert forall|i: int, k: int| 0 <= i < k < txs.len() implies (#[trigger] txs[i]).position < (
    #[trigger] txs[k]).position by {
        lemma_order_positions_grow(decoded, i, k);
    }
    assert forall|n: int|
        0 <= n < decoded.len() && (#[trigger] decoded[n]) is Some
            && !decoded[n]->0.has_blobs implies exists|i: int|
        0 <= i < txs.len() && (#[trigger] txs[i]).position == n by {
        lemma_decoded_txs_are_ordered(decoded, n);
    }
}

proof fn lemma_order_positions_grow(decoded: Seq<Option<DecodedTx>>, i: int, k: int)
    requires
        decoded.len() <= usize::MAX,
        0 <= i < k < order_txs(decoded).len(),
    ensures
        order_txs(decoded)[i].position < order_txs(decoded)[k].position,
    decreases k,
{
    lemma_order_txs_are_decoded(decoded, k);
    if i < k - 1 {
        lemma_order_positions_grow(decoded, i, k - 1);
    }
}

/// The signers are known exactly if there is a decoded transaction, and none without a signer.
pub proof fn lemma_signers_known_means(decoded: Seq<Option<DecodedTx>>)
    ensures
        signers_known(decoded) <==> (exists|i: int|
            0 <= i < decoded.len() && (#[trigger] decoded[i]) is Some) && (forall|i: int|
            0 <= i < decoded.len() && (#[trigger] decoded[i]) is Some
                ==> decoded[i]->0.signer is Some),
{
}

/// A transaction more adds its hash to those that may revert, at the end, exactly if it was
/// decoded and may revert.
pub proof fn lemma_reverting_hash_is_added(
    txs: Seq<PreconfTx>,
    decoded: Seq<Option<DecodedTx>>,
    tx: PreconfTx,
    result: Option<DecodedTx>,
)
    ensures
        reverting_hashes(Seq::empty(), Seq::empty()) == Seq::<B256>::empty(),
        reverting_hashes(txs.push(tx), decoded.push(result)) == (if result is Some
            && tx.can_revert {
            reverting_hashes(txs, decoded).push(result->0.hash)
        } else {
            reverting_hashes(txs, decoded)
        }),
{
    assert(txs.push(tx).drop_last() =~= txs);
    assert(decoded.push(result).drop_last() =~= decoded);
}

/// The order that a bundle makes is for the block and from the timestamp that were asked for,
/// has the decoded transactions and the hashes that may revert, is signed as the last decoded
/// transaction is, replaces what this signer sent under the bundle's uuid, and says what was bid.
pub proof fn lemma_order_means(
    order: Bundle,
    block: u64,
    timestamp: u64,
    bundle: PreconfBundle,
    decoded: Seq<Option<DecodedTx>>,
    bundle_uuid: u128,
    i: int,
)
    requires
        is_order_of(order, block, timestamp, bundle, decoded, bundle_uuid),
        0 <= i < decoded.len() <= usize::MAX,
        decoded[i] is Some,
        decoded[i]->0.signer is Some,
        forall|k: int| i < k < decoded.len() ==> (#[trigger] decoded[k]) is None,
    ensures
        order.block == block,
        order.min_timestamp == Some(timestamp),
        order.max_timestamp is None,
        order.txs@ == order_txs(decoded),
        order.reverting_tx_hashes@ == reverting_hashes(bundle.txs@, decoded),
        forall|n: int| 0 <= n < 32 ==> order.hash[n] == 0,
        order.signer == decoded[i]->0.signer,
        order.replacement_data is Some,
        order.replacement_data->0.sequence_number == 0,
        order.replacement_data->0.key.uuid == bundle_uuid,
        Some(order.replacement_data->0.key.signer) == decoded[i]->0.signer,
        bundle.average_bid_price is Wei,
        order.metadata.avg_bid_price is Some,
        order.metadata.avg_bid_price->0@ == bundle.average_bid_price->Wei_0,
{
    lemma_last_decoded_signs(decoded, i);
}

/// What a bundle makes: without a readable uuid an error that names the text; with a negative
/// price an error that says so; else an order with a new random uuid, under the bundle's own.
pub proof fn lemma_outcome_means(
    outcome: Result<Bundle, PreconfError>,
    block: u64,
    timestamp: u64,
    bundle: PreconfBundle,
    decoded: Seq<Option<DecodedTx>>,
)
    requires
        is_outcome_of(outcome, block, timestamp, bundle, decoded),
    ensures
        parsed_uuid(bundle.uuid@) is None ==> (outcome matches Err(
            PreconfError::PreconfConvertError(reason),
        ) && reason@ == "Failed to parse UUIDv4 from received uuid str="@ + bundle.uuid@),
        parsed_uuid(bundle.uuid@) is Some && bundle.average_bid_price is Negative ==> (
        outcome matches Err(PreconfError::PreconfConvertError(reason)) && reason@
            == "Cannot generate order from bundle: "@ + ("Preconf order conversion error: "@
            + "ETH price cannot be negative"@)),
        parsed_uuid(bundle.uuid@) is Some && bundle.average_bid_price is Wei ==> (
        outcome matches Ok(order) && order.block == block && order.min_timestamp == Some(timestamp)
            && order.max_timestamp is None && call_ensures(random_uuid, (), order.uuid)
            && is_random_uuid(order.uuid) && order.replacement_data is Some
            && parsed_uuid(bundle.uuid@) == Some(order.replacement_data->0.key.uuid)
            && is_order_of(
            order,
            block,
            timestamp,
            bundle,
            decoded,
            parsed_uuid(bundle.uuid@)->0,
        )),
{
}

} // verus!
