use rbuilder::clock::{Span, Timestamp};
use rbuilder::live_builder::preconf_fetcher::{
    fetch_preconf_orders, get_preconf_client, handover_step, on_preconf_info,
    try_get_preconf_client, FetchDecision, HandoverAction, HandoverEvent, LookupAction,
    NoServerUrl, PRECONF_CAPACITY, PRECONF_INFO_CAPACITY, PRECONF_TIMEOUT_MILLIS,
};
use rbuilder::preconf::client::PreconfClient;
use rbuilder::preconf::config::{BaseConfig, PreconfConfig};
use rbuilder::preconf::info::PreconfInfo;

fn some(text: &str) -> Option<String> {
    Some(text.to_string())
}

fn at(nanos: i128) -> Timestamp {
    Timestamp::from_unix_timestamp_nanos(nanos).unwrap()
}

const INFO: PreconfInfo = PreconfInfo { block_number: 10, slot: 20, timestamp: Some(30) };

#[test]
fn configuration_is_taken_over() {
    let base = BaseConfig { preconf_api_url: some("a"), preconf_ws_url: None };
    let config = PreconfConfig::from_config(&base);
    assert_eq!(config.preconf_api_url, some("a"));
    assert_eq!(config.preconf_ws_url, None);
    let config = PreconfConfig::new(None, some("w"));
    assert_eq!(config.preconf_api_url, None);
    assert_eq!(config.preconf_ws_url, some("w"));
}

#[test]
fn websocket_is_used_where_the_server_takes_the_connection() {
    for status in [200, 204, 299] {
        let client = PreconfClient::new(some("ws://host"), some("http://host:80/x y"), status);
        assert_eq!(client.ws.as_ref().unwrap().ws_url(), "ws://host/");
        assert_eq!(
            client.api.as_ref().unwrap().preconf_bundles_url(7),
            "http://host/x%20yapi/p/bundles?slot=7"
        );
        assert!(!client.get_fallback_enabled());
    }
}

#[test]
fn fallback_is_enabled_without_a_websocket() {
    for status in [100, 101, 199, 300, 404] {
        let client = PreconfClient::new(some("ws://host"), None, status);
        assert!(client.ws.is_none());
        assert!(client.api.is_none());
        assert!(client.get_fallback_enabled());
    }
    let client = PreconfClient::new(None, some("http://host"), 200);
    assert!(client.ws.is_none());
    assert!(client.api.is_some());
    assert!(client.get_fallback_enabled());
}

#[test]
fn fallback_can_be_switched() {
    let mut client = PreconfClient::from_parsed(some("ws://host/"), some("http://host/"));
    assert!(!client.get_fallback_enabled());
    client.set_fallback_enabled(true);
    assert!(client.get_fallback_enabled());
    client.set_fallback_enabled(false);
    assert!(!client.get_fallback_enabled());
    assert!(client.ws.is_some() && client.api.is_some());
}

#[test]
fn unreadable_addresses_make_no_client() {
    assert!(PreconfClient::try_new(some("no url"), None, 200).is_none());
    assert!(PreconfClient::try_new(None, some("no url"), 200).is_none());
    assert!(PreconfClient::try_new(some("no url"), None, 404).is_some());
    assert!(PreconfClient::try_new(some("ws://h"), some("http://h"), 200).is_some());
}

#[test]
fn client_needs_an_address() {
    let nothing = PreconfConfig::new(None, None);
    let error = get_preconf_client(nothing.clone(), 0).unwrap_err();
    assert_eq!(error, NoServerUrl);
    assert_eq!(
        error.display(),
        "kindly include preconf_api_url or preconf_ws_url in the configuration"
    );
    assert!(try_get_preconf_client(nothing, 0).unwrap().is_err());
    let api_only = PreconfConfig::new(some("http://host"), None);
    assert!(get_preconf_client(api_only.clone(), 0).unwrap().api.is_some());
    assert!(try_get_preconf_client(api_only, 0).unwrap().unwrap().get_fallback_enabled());
    let unreadable = PreconfConfig::new(some("?"), some("ws://host"));
    assert!(try_get_preconf_client(unreadable, 200).is_none());
    let both = PreconfConfig::new(some("http://host"), some("ws://host"));
    assert!(try_get_preconf_client(both, 200).unwrap().unwrap().ws.is_some());
}

#[test]
fn slots_are_looked_up_through_the_fallback_only() {
    let with_ws = PreconfClient::from_parsed(some("ws://host/"), some("http://host/"));
    let with_api = PreconfClient::from_parsed(None, some("http://host/"));
    let with_none = PreconfClient::from_parsed(None, None);
    assert_eq!(on_preconf_info(&with_api, Some(INFO)), LookupAction::Fetch(INFO));
    assert_eq!(on_preconf_info(&with_ws, Some(INFO)), LookupAction::Wait);
    assert_eq!(on_preconf_info(&with_none, Some(INFO)), LookupAction::Wait);
    assert_eq!(on_preconf_info(&with_api, None), LookupAction::Wait);
}

#[test]
fn orders_are_fetched_when_the_market_is_closed() {
    assert_eq!(fetch_preconf_orders(&INFO, None, &at(0)), FetchDecision::Skip);
    assert_eq!(
        fetch_preconf_orders(&INFO, Some(at(2_000_000_005)), &at(5)),
        FetchDecision::Fetch {
            time_left: Some(Span { seconds: 2, nanoseconds: 0 }),
            slot: 20,
            block: 10,
            timestamp: 30,
        }
    );
    assert_eq!(
        fetch_preconf_orders(&INFO, Some(at(5)), &at(5)),
        FetchDecision::Fetch { time_left: None, slot: 20, block: 10, timestamp: 30 }
    );
    let no_timestamp = PreconfInfo { timestamp: None, ..INFO };
    assert_eq!(fetch_preconf_orders(&no_timestamp, None, &at(0)), FetchDecision::Skip);
}

#[test]
fn orders_are_handed_over_until_one_is_not_taken() {
    let step = |event: HandoverEvent<&'static str>| handover_step(event);
    assert_eq!(step(HandoverEvent::Received("a")), HandoverAction::Send("a"));
    assert_eq!(step(HandoverEvent::NothingReceived), HandoverAction::Receive);
    assert_eq!(step(HandoverEvent::Sent), HandoverAction::Receive);
    assert_eq!(step(HandoverEvent::TimedOut), HandoverAction::Cancel);
    assert_eq!(step(HandoverEvent::Closed), HandoverAction::Cancel);
    assert_eq!((PRECONF_CAPACITY, PRECONF_INFO_CAPACITY, PRECONF_TIMEOUT_MILLIS), (30_000, 1, 50));
}

#[test]
fn orders_are_handed_over_in_the_sequence_in_which_they_came() {
    let mut input = vec![1, 2, 3, 4].into_iter();
    let mut action = HandoverAction::Receive;
    let mut taken = vec![];
    loop {
        let event = match action {
            HandoverAction::Receive => match input.next() {
                Some(order) => HandoverEvent::Received(order),
                None => HandoverEvent::NothingReceived,
            },
            HandoverAction::Send(4) => HandoverEvent::TimedOut,
            HandoverAction::Send(order) => {
                taken.push(order);
                HandoverEvent::Sent
            }
            HandoverAction::Cancel => break,
        };
        action = handover_step(event);
    }
    assert_eq!(taken, vec![1, 2, 3]);
}
