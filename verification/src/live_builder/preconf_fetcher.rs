//! The jobs that fetch preconfirmed orders and hand them to the order pool.
use crate::clock::{Span, Timestamp};
use crate::preconf::client::{connected, is_client_for, parsed_url, readable, PreconfClient};
use crate::preconf::config::PreconfConfig;
use crate::preconf::info::PreconfInfo;
use vstd::prelude::*;
use vstd::string::*;

verus! {

/// How many preconfirmed orders can wait for the order pool.
pub const PRECONF_CAPACITY: usize = 30_000;

/// How many slots can wait to be looked up.
pub const PRECONF_INFO_CAPACITY: usize = 1;

/// How long the order pool has to take an order, in milliseconds.
pub const PRECONF_TIMEOUT_MILLIS: u64 = 50;

/// No address of the preconfirmation server is configured.
#[derive(Debug, Clone, Copy, PartialEq, Eq)]
pub struct NoServerUrl;

impl NoServerUrl {
    /// The error in words.
    pub fn display(&self) -> (text: String)
        ensures
            text@
                == "kindly include preconf_api_url or preconf_ws_url in the configuration"@,
    {
        "kindly include preconf_api_url or preconf_ws_url in the configuration".to_owned()
    }
}

/// Whether the configuration names the server.
pub open spec fn has_url(config: PreconfConfig) -> bool {
    config.preconf_ws_url is Some || config.preconf_api_url is Some
}

/// Every address of the configuration that is used can be read.
pub open spec fn has_readable_urls(config: PreconfConfig, ws_status: u16) -> bool {
    &&& connected(config.preconf_ws_url, ws_status) ==> readable(config.preconf_ws_url)
    &&& readable(config.preconf_api_url)
}

/// The clients for the configured server; an error exactly if no address is configured.
/// `ws_status` is the status code with which the server answered the websocket connection.
///
/// Addresses that are used must be readable.
pub fn get_preconf_client(config: PreconfConfig, ws_status: u16) -> (client: Result<
    PreconfClient,
    NoServerUrl,
>)
    requires
        has_readable_urls(config, ws_status),
    ensures
        client is Ok <==> has_url(config),
        client is Ok ==> is_client_for(
            client->Ok_0,
            config.preconf_ws_url,
            config.preconf_api_url,
            ws_status,
        ),
        client is Err <==> config.preconf_ws_url is None && config.preconf_api_url is None,
        client matches Ok(made) ==> {
            &&& made.ws is Some <==> config.preconf_ws_url is Some && 200 <= ws_status < 300
            &&& made.ws is Some ==> parsed_url(config.preconf_ws_url->0@) == Some(
                made.ws->0.url(),
            )
            &&& made.api is Some <==> config.preconf_api_url is Some
            &&& made.api is Some ==> parsed_url(config.preconf_api_url->0@) == Some(
                made.api->0.url(),
            )
            &&& made.fallback_enabled == (made.ws is None)
        },
{
    if config.preconf_ws_url.is_none() && config.preconf_api_url.is_none() {
        return Err(NoServerUrl);
    }
    Ok(PreconfClient::new(config.preconf_ws_url, config.preconf_api_url, ws_status))
}

/// The clients for the configured server, as [`get_preconf_client`] gives them, or none if an
/// address that is used cannot be read.
pub fn try_get_preconf_client(config: PreconfConfig, ws_status: u16) -> (client: Option<
    Result<PreconfClient, NoServerUrl>,
>)
    ensures
        client is Some <==> has_readable_urls(config, ws_status),
        client is Some ==> {
            &&& client->0 is Ok <==> has_url(config)
            &&& client->0 is Ok ==> is_client_for(
                client->0->Ok_0,
                config.preconf_ws_url,
                config.preconf_api_url,
                ws_status,
            )
        },
        client is Some <==> (config.preconf_ws_url is Some && 200 <= ws_status < 300
            ==> parsed_url(config.preconf_ws_url->0@) is Some) && (config.preconf_api_url is Some
            ==> parsed_url(config.preconf_api_url->0@) is Some),
        client is Some ==> (client->0 is Err <==> config.preconf_ws_url is None
            && config.preconf_api_url is None),
        client matches Some(Ok(made)) ==> {
            &&& made.ws is Some <==> config.preconf_ws_url is Some && 200 <= ws_status < 300
            &&& made.ws is Some ==> parsed_url(config.preconf_ws_url->0@) == Some(
                made.ws->0.url(),
            )
            &&& made.api is Some <==> config.preconf_api_url is Some
            &&& made.api is Some ==> parsed_url(config.preconf_api_url->0@) == Some(
                made.api->0.url(),
            )
            &&& made.fallback_enabled == (made.ws is None)
        },
{
    let ws_url = config.preconf_ws_url.clone();
    let api_url = config.preconf_api_url.clone();
    match PreconfClient::try_new(ws_url, api_url, ws_status) {
        Some(_) => Some(get_preconf_client(config, ws_status)),
        None => None,
    }
}

/// What the job that looks up slots does next.
#[derive(Debug, Clone, Copy, PartialEq, Eq)]
pub enum LookupAction {
    /// Fetch the orders of this slot, then wait for the next slot.
    Fetch(PreconfInfo),
    /// Wait for the next slot.
    Wait,
}

/// What to do when a slot is to be looked up, or the wait for one ended without: the orders
/// are fetched exactly if the HTTP interface is to be used and there is a client for it.
pub fn on_preconf_info(client: &PreconfClient, info: Option<PreconfInfo>) -> (action: LookupAction)
    ensures
        action == (match info {
            Some(info) => if client.fallback_enabled && client.api is Some {
                LookupAction::Fetch(info)
            } else {
                LookupAction::Wait
            },
            None => LookupAction::Wait,
        }),
{
    match info {
        Some(info) => {
            if client.get_fallback_enabled() && client.api.is_some() {
                LookupAction::Fetch(info)
            } else {
                LookupAction::Wait
            }
        },
        None => LookupAction::Wait,
    }
}

/// What to do about the orders of a slot.
#[derive(Debug, Clone, Copy, PartialEq, Eq)]
pub enum FetchDecision {
    /// There is no market for the slot.
    Skip,
    /// Let the time pass that is left, if any is, then fetch the orders.
    Fetch { time_left: Option<Span>, slot: u64, block: u64, timestamp: u64 },
}

/// Decides about the orders of a slot whose market closes at `market_expiry`. They are fetched
/// when the market is closed. A slot that has a market must come with its timestamp.
pub fn fetch_preconf_orders(
    info: &PreconfInfo,
    market_expiry: Option<Timestamp>,
    now: &Timestamp,
) -> (decision: FetchDecision)
    requires
        market_expiry is Some ==> info.timestamp is Some,
    ensures
        (match (market_expiry, decision) {
            (None, FetchDecision::Skip) => true,
            (Some(expiry), FetchDecision::Fetch { time_left, slot, block, timestamp }) => {
                &&& slot == info.slot
                &&& block == info.block_number
                &&& Some(timestamp) == info.timestamp
                &&& time_left is Some <==> now@ < expiry@
                &&& time_left is Some ==> time_left->0.wf() && now@ + time_left->0.nanos()
                    == expiry@
                &&& time_left is Some ==> time_left->0.nanoseconds < 1_000_000_000 && now@
                    + 1_000_000_000 * time_left->0.seconds + time_left->0.nanoseconds == expiry@
            },
            _ => false,
        }),
{
    match market_expiry {
        Some(expiry) => FetchDecision::Fetch {
            time_left: expiry.time_left(now),
            slot: info.slot,
            block: info.block_number,
            timestamp: info.timestamp.unwrap(),
        },
        None => FetchDecision::Skip,
    }
}

/// What happened to the job that hands orders to the order pool.
#[derive(Debug, Clone, PartialEq, Eq)]
pub enum HandoverEvent<T> {
    /// An order came.
    Received(T),
    /// The wait for an order ended without one.
    NothingReceived,
    /// The order pool took the order.
    Sent,
    /// The order pool did not take the order in time.
    TimedOut,
    /// The order pool takes no more orders.
    Closed,
}

/// What the job that hands orders to the order pool does next.
#[derive(Debug, Clone, PartialEq, Eq)]
pub enum HandoverAction<T> {
    /// Wait for an order.
    Receive,
    /// Send this order.
    Send(T),
    /// Stop, and cancel the builder.
    Cancel,
}

/// What to do about an event: every order that comes is sent, and the first that the order
/// pool does not take ends the job and the builder.
pub open spec fn handover_action<T>(event: HandoverEvent<T>) -> HandoverAction<T> {
    match event {
        HandoverEvent::Received(order) => HandoverAction::Send(order),
        HandoverEvent::NothingReceived | HandoverEvent::Sent => HandoverAction::Receive,
        HandoverEvent::TimedOut | HandoverEvent::Closed => HandoverAction::Cancel,
    }
}

/// One step of the job that hands orders to the order pool.
pub fn handover_step<T>(event: HandoverEvent<T>) -> (action: HandoverAction<T>)
    ensures
        action == handover_action(event),
        event matches HandoverEvent::Received(order) ==> action == HandoverAction::Send(order),
        action is Receive <==> event is NothingReceived || event is Sent,
        action is Cancel <==> event is TimedOut || event is Closed,
{
    match event {
        HandoverEvent::Received(order) => HandoverAction::Send(order),
        HandoverEvent::NothingReceived => HandoverAction::Receive,
        HandoverEvent::Sent => HandoverAction::Receive,
        HandoverEvent::TimedOut => HandoverAction::Cancel,
        HandoverEvent::Closed => HandoverAction::Cancel,
    }
}

/// The events that an action can have. A job that was cancelled has none.
pub open spec fn can_follow_handover<T>(action: HandoverAction<T>, event: HandoverEvent<T>) -> bool {
    match action {
        HandoverAction::Receive => event is Received || event is NothingReceived,
        HandoverAction::Send(_) => event is Sent || event is TimedOut || event is Closed,
        HandoverAction::Cancel => false,
    }
}

/// What the job does after these events; it starts by waiting for an order.
pub open spec fn handover_next<T>(events: Seq<HandoverEvent<T>>) -> HandoverAction<T> {
    if events.len() == 0 {
        HandoverAction::Receive
    } else {
        handover_action(events.last())
    }
}

/// Events that can happen to the job, one after the other.
pub open spec fn is_handover_run<T>(events: Seq<HandoverEvent<T>>) -> bool {
    forall|i: int|
        0 <= i < events.len() ==> #[trigger] can_follow_handover(
            handover_next(events.take(i)),
            events[i],
        )
}

/// The orders that came, in the sequence in which they came.
pub open spec fn handover_received<T>(events: Seq<HandoverEvent<T>>) -> Seq<T>
    decreases events.len(),
{
    if events.len() == 0 {
        Seq::empty()
    } else {
        let before = handover_received(events.drop_last());
        match events.last() {
            HandoverEvent::Received(order) => before.push(order),
            _ => before,
        }
    }
}

/// The orders that the order pool took, in the sequence in which it took them: those that the
/// job was sending when an order was taken.
pub open spec fn handover_taken<T>(events: Seq<HandoverEvent<T>>) -> Seq<T>
    decreases events.len(),
{
    if events.len() == 0 {
        Seq::empty()
    } else {
        let before = handover_taken(events.drop_last());
        match (events.last(), handover_next(events.drop_last())) {
            (HandoverEvent::Sent, HandoverAction::Send(order)) => before.push(order),
            _ => before,
        }
    }
}

/// The order that is being sent, or whose refusal cancelled the builder.
pub open spec fn handover_pending<T>(events: Seq<HandoverEvent<T>>) -> Seq<T> {
    match handover_next(events) {
        HandoverAction::Receive => Seq::empty(),
        HandoverAction::Send(order) => seq![order],
        HandoverAction::Cancel => match handover_next(events.drop_last()) {
            HandoverAction::Send(order) => seq![order],
            _ => Seq::empty(),
        },
    }
}

/// No order is lost, made up, doubled or overtaken: those that came are those that the order
/// pool took, in the same sequence, and then the one that is being sent or whose refusal
/// cancelled the builder.
pub proof fn lemma_every_order_is_handed_over<T>(events: Seq<HandoverEvent<T>>)
    requires
        is_handover_run(events),
    ensures
        handover_received(events) == handover_taken(events) + handover_pending(events),
        handover_pending(events).len() == (if handover_next(events) is Receive {
            0nat
        } else {
            1nat
        }),
    decreases events.len(),
{
    if events.len() > 0 {
        let init = events.drop_last();
        assert(events.take(events.len() - 1) =~= init);
        assert forall|i: int| 0 <= i < init.len() implies #[trigger] can_follow_handover(
            handover_next(init.take(i)),
            init[i],
        ) by {
            assert(init.take(i) =~= events.take(i));
            assert(can_follow_handover(handover_next(events.take(i)), events[i]));
        }
        lemma_every_order_is_handed_over(init);
        assert(can_follow_handover(handover_next(init), events[events.len() - 1])) by {
            assert(can_follow_handover(
                handover_next(events.take(events.len() - 1)),
                events[events.len() - 1],
            ));
        }
        assert(handover_received(events) =~= handover_taken(events) + handover_pending(events));
    }
}

/// An order that comes is the one that is sent next; an order is waited for again after one was
/// taken or none came; and the job ends exactly when one is not taken.
pub proof fn lemma_handover_action_means<T>(event: HandoverEvent<T>)
    ensures
        event matches HandoverEvent::Received(order) ==> handover_action(event)
            == HandoverAction::Send(order),
        handover_action(event) is Receive <==> event is NothingReceived || event is Sent,
        handover_action(event) is Cancel <==> event is TimedOut || event is Closed,
{
}

/// A step more: an order that comes is added to those received, and one that was being sent when
/// it was taken is added to those taken, both at the end.
pub proof fn lemma_handover_grows<T>(events: Seq<HandoverEvent<T>>, event: HandoverEvent<T>)
    ensures
        handover_received(Seq::<HandoverEvent<T>>::empty()) == Seq::<T>::empty(),
        handover_taken(Seq::<HandoverEvent<T>>::empty()) == Seq::<T>::empty(),
        handover_received(events.push(event)) == (match event {
            HandoverEvent::Received(order) => handover_received(events).push(order),
            _ => handover_received(events),
        }),
        event is Sent && handover_next(events) is Send ==> handover_taken(events.push(event))
            == handover_taken(events).push(handover_next(events)->Send_0),
        !(event is Sent) ==> handover_taken(events.push(event)) == handover_taken(events),
{
    assert(events.push(event).drop_last() =~= events);
}

} // verus!
