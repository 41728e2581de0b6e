use rbuilder::preconf::api::{
    ApiData, ApiReply, ApiResponse, FetchEnd, MarketExpiry, PreconfApiClient, PreconfBundles,
    PreconfMarket, PreconfMarkets,
};
use rbuilder::preconf::bundle::{DecodedTx, EthPrice, PreconfBundle, PreconfTx};
use rbuilder::preconf::client::PreconfClient;

const UUID_TEXT: &str = "a1a2a3a4-b1b2-c1c2-d1d2-d3d4d5d6d7d8";
const MARKETS_URL: &str = "http://host/base/api/p/inclusion_preconf/markets";

fn client() -> PreconfApiClient {
    PreconfClient::from_parsed(None, Some("http://host/base/".to_string())).api.unwrap()
}

fn markets(success: bool, markets: &[(u64, u64)]) -> ApiReply {
    let markets = markets
        .iter()
        .map(|(slot, trx_submit_time)| PreconfMarket {
            slot: *slot,
            trx_submit_time: *trx_submit_time,
        })
        .collect();
    ApiReply::Response(ApiResponse {
        success,
        data: ApiData::PreconfMarkets(PreconfMarkets { markets }),
    })
}

fn bundles(success: bool, bundles: Vec<PreconfBundle>) -> ApiReply {
    ApiReply::Response(ApiResponse {
        success,
        data: ApiData::PreconfBundles(PreconfBundles { bundles }),
    })
}

fn known(client: &mut PreconfApiClient, slot: u64) -> Option<i128> {
    match client.get_inclusion_preconf_market_expiry(slot) {
        MarketExpiry::Known(deadline) => Some(deadline.unix_timestamp_nanos()),
        MarketExpiry::Ask(url) => {
            assert_eq!(url, MARKETS_URL);
            None
        }
    }
}

fn told(client: &mut PreconfApiClient, slot: u64, reply: &ApiReply) -> Option<i128> {
    client.market_expiry_from_reply(slot, reply).map(|t| t.unix_timestamp_nanos())
}

fn bundle(uuid: &str, txs: usize) -> PreconfBundle {
    PreconfBundle {
        txs: vec![PreconfTx { tx: "0x".to_string(), can_revert: false }; txs],
        uuid: uuid.to_string(),
        average_bid_price: EthPrice::Wei(1),
    }
}

fn decoded(txs: usize) -> Vec<Option<DecodedTx>> {
    vec![Some(DecodedTx { hash: [1; 32], signer: Some([2; 20]), has_blobs: false }); txs]
}

#[test]
fn deadline_is_asked_for_once() {
    let mut client = client();
    assert!(!client.knows_markets());
    assert_eq!(known(&mut client, 5), None);
    assert_eq!(told(&mut client, 5, &markets(true, &[(5, 500), (6, 600)])), Some(500));
    assert!(client.knows_markets());
    assert_eq!(known(&mut client, 5), Some(500));
    assert_eq!(known(&mut client, 6), Some(600));
    assert_eq!(known(&mut client, 5), None);
}

#[test]
fn slot_zero_can_be_asked_for_while_nothing_is_known() {
    let mut client = client();
    assert_eq!(known(&mut client, 0), None);
}

#[test]
fn earlier_slots_are_forgotten_from_one_on() {
    let mut client = client();
    let all = markets(true, &[(0, 1), (1, 10), (2, 20), (3, 30), (9, 90)]);
    assert_eq!(told(&mut client, 3, &all), Some(30));
    client.clean_market_info(3);
    assert_eq!(client.get_inclusion_preconf_market_info(7, &markets(true, &[(2, 21)])), None);
    assert_eq!(known(&mut client, 2), Some(21));
    client.clean_market_info(9);
    client.clean_market_info(9);
    assert_eq!(known(&mut client, 9), Some(90));
    assert_eq!(known(&mut client, 3), None);
    client.clean_market_info(u64::from(u8::MAX));
    assert!(client.knows_markets());
}

#[test]
fn known_deadline_does_not_change() {
    let mut client = client();
    assert_eq!(told(&mut client, 5, &markets(true, &[(5, 500)])), Some(500));
    assert_eq!(told(&mut client, 5, &markets(true, &[(5, 501)])), Some(501));
    assert_eq!(known(&mut client, 5), Some(500));
}

#[test]
fn first_market_is_remembered_and_last_is_told() {
    let mut client = client();
    let twice = markets(true, &[(5, 500), (4, 400), (5, 555)]);
    assert_eq!(told(&mut client, 5, &twice), Some(555));
    assert_eq!(known(&mut client, 5), Some(500));
}

#[test]
fn latest_deadline_is_a_date() {
    let mut client = client();
    assert_eq!(told(&mut client, 1, &markets(true, &[(1, u64::MAX)])), Some(u64::MAX as i128));
    assert_eq!(known(&mut client, 1), Some(u64::MAX as i128));
}

#[test]
fn replies_without_markets_tell_nothing() {
    let mut client = client();
    for reply in [
        ApiReply::RequestFailed,
        ApiReply::InvalidBody,
        markets(false, &[(5, 500)]),
        bundles(true, vec![bundle(UUID_TEXT, 1)]),
        markets(true, &[]),
        markets(true, &[(6, 600)]),
    ] {
        assert_eq!(told(&mut client, 5, &reply), None);
        assert_eq!(client.get_inclusion_preconf_market_info(5, &reply), None);
        assert_eq!(known(&mut client, 5), None);
    }
    assert_eq!(known(&mut client, 6), Some(600));
}

#[test]
fn bundles_are_listed_by_slot() {
    let client = client();
    assert_eq!(client.preconf_bundles_url(0), "http://host/base/api/p/bundles?slot=0");
    assert_eq!(client.preconf_bundles_url(1), "http://host/base/api/p/bundles?slot=1");
    assert_eq!(client.preconf_bundles_url(10), "http://host/base/api/p/bundles?slot=10");
    assert_eq!(
        client.preconf_bundles_url(u64::MAX),
        "http://host/base/api/p/bundles?slot=18446744073709551615"
    );
}

#[test]
fn every_bundle_makes_an_order_or_an_error() {
    let client = client();
    let mut negative = bundle(UUID_TEXT, 1);
    negative.average_bid_price = EthPrice::Negative;
    let reply = bundles(true, vec![bundle(UUID_TEXT, 2), bundle("?", 1), negative, bundle(UUID_TEXT, 1)]);
    let decoded = vec![decoded(2), vec![None], decoded(1), decoded(1)];
    let fetched = client.fetch_inclusion_preconfs(8, 9, &reply, &decoded);
    assert_eq!(fetched.end, FetchEnd::Complete);
    assert_eq!(fetched.outcomes.len(), 4);
    let order = fetched.outcomes[0].as_ref().unwrap();
    assert_eq!((order.block, order.min_timestamp, order.txs.len()), (8, Some(9), 2));
    assert_eq!(
        fetched.outcomes[1].as_ref().unwrap_err().display(),
        "Preconf order conversion error: Failed to parse UUIDv4 from received uuid str=?"
    );
    assert!(fetched.outcomes[2].is_err());
    assert!(fetched.outcomes[3].is_ok());
}

#[test]
fn empty_bundle_ends_the_fetch() {
    let client = client();
    let reply = bundles(true, vec![bundle(UUID_TEXT, 1), bundle(UUID_TEXT, 0), bundle(UUID_TEXT, 1)]);
    let fetched =
        client.fetch_inclusion_preconfs(1, 1, &reply, &vec![decoded(1), decoded(0), decoded(1)]);
    assert_eq!(fetched.end, FetchEnd::EmptyBundle);
    assert_eq!(fetched.outcomes.len(), 1);
}

#[test]
fn unknown_signer_ends_the_fetch() {
    let client = client();
    let reply = bundles(true, vec![bundle(UUID_TEXT, 1), bundle(UUID_TEXT, 1)]);
    let fetched = client.fetch_inclusion_preconfs(1, 1, &reply, &vec![decoded(1), vec![None]]);
    assert_eq!(fetched.end, FetchEnd::UnknownSigner);
    assert_eq!(fetched.outcomes.len(), 1);
}

#[test]
fn replies_without_bundles_make_nothing() {
    let client = client();
    for reply in [
        ApiReply::RequestFailed,
        ApiReply::InvalidBody,
        markets(true, &[(5, 500)]),
        bundles(false, vec![bundle(UUID_TEXT, 1)]),
        bundles(true, vec![]),
    ] {
        let fetched = client.fetch_inclusion_preconfs(1, 1, &reply, &vec![]);
        assert_eq!(fetched.end, FetchEnd::Complete);
        assert!(fetched.outcomes.is_empty());
    }
}
