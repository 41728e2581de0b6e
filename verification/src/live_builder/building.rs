//! The jobs that build a block.
use crate::clock::{in_supported_years, Span, Timestamp, NANOS_PER_SECOND};
use crate::preconf::info::PreconfInfo;
use crate::uint::U256;
use vstd::prelude::*;

verus! {

/// How many simulated orders can wait for the slowest builder.
pub const BROADCAST_CAPACITY: usize = 10_000;

/// A slot, as the relays announce it.
#[derive(Debug, Clone, Copy)]
pub struct SlotData {
    pub slot: u64,
    pub block: u64,
    /// When the slot ends.
    pub timestamp: Timestamp,
}

/// What a block is built with, reduced to what starting its jobs reads of it.
#[derive(Debug, Clone, Copy)]
pub struct BlockContext {
    pub number: U256,
    /// How many nanoseconds after the slot's end (before it, if negative) to start, where that
    /// is set.
    pub slot_delta_to_start_block_build: Option<i128>,
}

impl BlockContext {
    /// The number of the block, if it is small enough.
    pub fn block_number(&self) -> (number: Option<u64>)
        ensures
            number is Some <==> self.number@ <= u64::MAX,
            number is Some ==> number->0 == self.number@,
    {
        self.number.to_u64()
    }
}

/// A point in time in whole seconds from the Unix epoch, rounded down. Where it is before the
/// epoch, the number wraps around.
pub open spec fn unix_seconds(timestamp: Timestamp) -> u64 {
    (timestamp@ / NANOS_PER_SECOND as int) as u64
}

fn to_unix_seconds(timestamp: &Timestamp) -> (seconds: u64)
    ensures
        seconds == unix_seconds(*timestamp),
        timestamp@ >= 0 ==> 1_000_000_000 * seconds <= timestamp@ < 1_000_000_000 * (seconds + 1),
{
    #[verifier::truncate]
    (timestamp.unix_timestamp() as u64)
}

/// From the Unix epoch on, the whole seconds are exact.
pub proof fn lemma_unix_seconds_exact(timestamp: Timestamp)
    requires
        in_supported_years(timestamp@),
        timestamp@ >= 0,
    ensures
        unix_seconds(timestamp) == timestamp@ / NANOS_PER_SECOND as int,
{
}

/// Before the Unix epoch, the whole seconds wrap around: they and the count of seconds back to
/// the epoch make the whole range of 64 bits.
pub proof fn lemma_unix_seconds_wrap(timestamp: Timestamp)
    requires
        in_supported_years(timestamp@),
        timestamp@ < 0,
    ensures
        unix_seconds(timestamp) - 0x1_0000_0000_0000_0000 == timestamp@ / 1_000_000_000,
{
    let seconds = (timestamp@ / NANOS_PER_SECOND as int) as i64;
    assert(seconds < 0 ==> seconds as u64 == 0x1_0000_0000_0000_0000 + seconds) by (bit_vector);
}

/// What a bidder is asked to bid for.
#[derive(Debug, Clone, Copy, PartialEq, Eq)]
pub struct SlotBid {
    pub block: u64,
    pub slot: u64,
    pub slot_end_timestamp: u64,
}

/// What is started for a block: one job per builder, and word to the preconfirmation fetcher.
#[derive(Debug, Clone, Copy, PartialEq, Eq)]
pub struct BuildingJob {
    pub preconf_info: PreconfInfo,
    pub builder_jobs: usize,
}

/// The builders, and what they build with.
#[derive(Debug)]
pub struct BlockBuildingPool<
    ProviderFactory,
    Builder,
    SinkFactory,
    BiddingService,
    OrderPoolSubscriber,
    OrderSimulationPool,
> {
    pub provider_factory: ProviderFactory,
    pub builders: Vec<Builder>,
    pub sink_factory: SinkFactory,
    pub bidding_service: BiddingService,
    pub orderpool_subscriber: OrderPoolSubscriber,
    pub order_simulation_pool: OrderSimulationPool,
}

impl<
    ProviderFactory,
    Builder,
    SinkFactory,
    BiddingService,
    OrderPoolSubscriber,
    OrderSimulationPool,
> BlockBuildingPool<
    ProviderFactory,
    Builder,
    SinkFactory,
    BiddingService,
    OrderPoolSubscriber,
    OrderSimulationPool,
> {
    pub fn new(
        provider_factory: ProviderFactory,
        builders: Vec<Builder>,
        sink_factory: SinkFactory,
        bidding_service: BiddingService,
        orderpool_subscriber: OrderPoolSubscriber,
        order_simulation_pool: OrderSimulationPool,
    ) -> (pool: Self)
        ensures
            pool.provider_factory == provider_factory,
            pool.builders == builders,
            pool.sink_factory == sink_factory,
            pool.bidding_service == bidding_service,
            pool.orderpool_subscriber == orderpool_subscriber,
            pool.order_simulation_pool == order_simulation_pool,
    {
        BlockBuildingPool {
            provider_factory,
            builders,
            sink_factory,
            bidding_service,
            orderpool_subscriber,
            order_simulation_pool,
        }
    }

    /// What to start for a slot and the block to build in it: nothing if the provider could not
    /// be opened. The number of the block must have room in 64 bits.
    pub fn start_building_job(
        &self,
        ctx: &BlockContext,
        slot_data: &SlotData,
        provider_opened: bool,
    ) -> (job: Option<BuildingJob>)
        requires
            ctx.number@ <= u64::MAX,
        ensures
            job == (if provider_opened {
                Some(
                    BuildingJob {
                        preconf_info: PreconfInfo {
                            block_number: ctx.number@ as u64,
                            slot: slot_data.slot,
                            timestamp: Some(unix_seconds(slot_data.timestamp)),
                        },
                        builder_jobs: self.builders.len(),
                    },
                )
            } else {
                None
            }),
            job is Some <==> provider_opened,
            job is Some ==> {
                &&& job->0.preconf_info.block_number == ctx.number@
                &&& job->0.preconf_info.slot == slot_data.slot
                &&& job->0.preconf_info.timestamp is Some
                &&& slot_data.timestamp@ >= 0 ==> 1_000_000_000
                    * job->0.preconf_info.timestamp->0 <= slot_data.timestamp@ < 1_000_000_000 * (
                job->0.preconf_info.timestamp->0 + 1)
                &&& job->0.builder_jobs == self.builders@.len()
            },
    {
        if !provider_opened {
            return None;
        }
        Some(
            BuildingJob {
                preconf_info: PreconfInfo {
                    block_number: ctx.block_number().unwrap(),
                    slot: slot_data.slot,
                    timestamp: Some(to_unix_seconds(&slot_data.timestamp)),
                },
                builder_jobs: self.builders.len(),
            },
        )
    }
}

/// What the bidder of a slot is asked to bid for.
pub fn slot_bid(slot_data: &SlotData) -> (bid: SlotBid)
    ensures
        bid == (SlotBid {
            block: slot_data.block,
            slot: slot_data.slot,
            slot_end_timestamp: unix_seconds(slot_data.timestamp),
        }),
        bid.block == slot_data.block,
        bid.slot == slot_data.slot,
        slot_data.timestamp@ >= 0 ==> 1_000_000_000 * bid.slot_end_timestamp
            <= slot_data.timestamp@ < 1_000_000_000 * (bid.slot_end_timestamp + 1),
{
    SlotBid {
        block: slot_data.block,
        slot: slot_data.slot,
        slot_end_timestamp: to_unix_seconds(&slot_data.timestamp),
    }
}

/// How long to wait before the preconfirmation fetcher gets word of a slot: until the time set
/// for the start, or not at all, if that has passed or none is set. A time that is set must be
/// in the supported years.
pub fn time_to_preconf_info(
    ctx: &BlockContext,
    slot_end: &Timestamp,
    now: &Timestamp,
) -> (time_left: Option<Span>)
    requires
        ctx.slot_delta_to_start_block_build matches Some(delta) ==> in_supported_years(
            slot_end@ + delta,
        ),
    ensures
        (match ctx.slot_delta_to_start_block_build {
            Some(delta) => {
                &&& time_left is Some <==> now@ < slot_end@ + delta
                &&& time_left is Some ==> time_left->0.wf() && now@ + time_left->0.nanos()
                    == slot_end@ + delta
                &&& time_left is Some ==> time_left->0.nanoseconds < 1_000_000_000 && now@
                    + 1_000_000_000 * time_left->0.seconds + time_left->0.nanoseconds == slot_end@
                    + delta
            },
            None => time_left is None,
        }),
{
    match ctx.slot_delta_to_start_block_build {
        Some(delta) => slot_end.checked_add(delta).unwrap().time_left(now),
        None => None,
    }
}

/// What happened to the job that hands simulated orders to all builders.
#[derive(Debug, Clone, PartialEq, Eq)]
pub enum MultiplexEvent<T> {
    /// An order came.
    Received(T),
    /// No more orders will come.
    InputClosed,
    /// The order was sent.
    Sent,
    /// No builder listens any more.
    NoReceivers,
}

/// What the job that hands simulated orders to all builders does next.
#[derive(Debug, Clone, PartialEq, Eq)]
pub enum MultiplexAction<T> {
    /// Wait for an order.
    Receive,
    /// Send this order.
    Send(T),
    /// Stop.
    Stop,
}

/// What to do about an event: every order that comes is sent, until no more come or nobody
/// listens.
pub open spec fn multiplex_action<T>(event: MultiplexEvent<T>) -> MultiplexAction<T> {
    match event {
        MultiplexEvent::Received(order) => MultiplexAction::Send(order),
        MultiplexEvent::Sent => MultiplexAction::Receive,
        MultiplexEvent::InputClosed | MultiplexEvent::NoReceivers => MultiplexAction::Stop,
    }
}

/// One step of the job that hands simulated orders to all builders.
pub fn multiplex_step<T>(event: MultiplexEvent<T>) -> (action: MultiplexAction<T>)
    ensures
        action == multiplex_action(event),
        event matches MultiplexEvent::Received(order) ==> action == MultiplexAction::Send(order),
        action is Receive <==> event is Sent,
        action is Stop <==> event is InputClosed || event is NoReceivers,
{
    match event {
        MultiplexEvent::Received(order) => MultiplexAction::Send(order),
        MultiplexEvent::Sent => MultiplexAction::Receive,
        MultiplexEvent::InputClosed => MultiplexAction::Stop,
        MultiplexEvent::NoReceivers => MultiplexAction::Stop,
    }
}

/// The events that an action can have. A job that stopped has none.
pub open spec fn can_follow_multiplex<T>(
    action: MultiplexAction<T>,
    event: MultiplexEvent<T>,
) -> bool {
    match action {
        MultiplexAction::Receive => event is Received || event is InputClosed,
        MultiplexAction::Send(_) => event is Sent || event is NoReceivers,
        MultiplexAction::Stop => false,
    }
}

/// What the job does after these events; it starts by waiting for an order.
pub open spec fn multiplex_next<T>(events: Seq<MultiplexEvent<T>>) -> MultiplexAction<T> {
    if events.len() == 0 {
        MultiplexAction::Receive
    } else {
        multiplex_action(events.last())
    }
}

/// Events that can happen to the job, one after the other.
pub open spec fn is_multiplex_run<T>(events: Seq<MultiplexEvent<T>>) -> bool {
    forall|i: int|
        0 <= i < events.len() ==> #[trigger] can_follow_multiplex(
            multiplex_next(events.take(i)),
            events[i],
        )
}

/// The orders that came, in the sequence in which they came.
pub open spec fn multiplex_received<T>(events: Seq<MultiplexEvent<T>>) -> Seq<T>
    decreases events.len(),
{
    if events.len() == 0 {
        Seq::empty()
    } else {
        let before = multiplex_received(events.drop_last());
        match events.last() {
            MultiplexEvent::Received(order) => before.push(order),
            _ => before,
        }
    }
}

/// The orders that were sent, in the sequence in which they were.
pub open spec fn multiplex_sent<T>(events: Seq<MultiplexEvent<T>>) -> Seq<T>
    decreases events.len(),
{
    if events.len() == 0 {
        Seq::empty()
    } else {
        let before = multiplex_sent(events.drop_last());
        match (events.last(), multiplex_next(events.drop_last())) {
            (MultiplexEvent::Sent, MultiplexAction::Send(order)) => before.push(order),
            _ => before,
        }
    }
}

/// The order that is being sent, or found no receiver.
pub open spec fn multiplex_pending<T>(events: Seq<MultiplexEvent<T>>) -> Seq<T> {
    match multiplex_next(events) {
        MultiplexAction::Receive => Seq::empty(),
        MultiplexAction::Send(order) => seq![order],
        MultiplexAction::Stop => match multiplex_next(events.drop_last()) {
            MultiplexAction::Send(order) => seq![order],
            _ => Seq::empty(),
        },
    }
}

/// No order is lost, made up, doubled or overtaken: those that came are those that were sent, in
/// the same sequence, and then the one that is being sent or found no receiver. There is none
/// such while the job waits for an order, or after no more came.
pub proof fn lemma_every_order_is_multiplexed<T>(events: Seq<MultiplexEvent<T>>)
    requires
        is_multiplex_run(events),
    ensures
        multiplex_received(events) == multiplex_sent(events) + multiplex_pending(events),
        multiplex_pending(events).len() == (if multiplex_next(events) is Send || (events.len() > 0
            && events.last() is NoReceivers) {
            1nat
        } else {
            0nat
        }),
    decreases events.len(),
{
    if events.len() > 0 {
        let init = events.drop_last();
        assert(events.take(events.len() - 1) =~= init);
        assert forall|i: int| 0 <= i < init.len() implies #[trigger] can_follow_multiplex(
            multiplex_next(init.take(i)),
            init[i],
        ) by {
            assert(init.take(i) =~= events.take(i));
            assert(can_follow_multiplex(multiplex_next(events.take(i)), events[i]));
        }
        lemma_every_order_is_multiplexed(init);
        assert(can_follow_multiplex(multiplex_next(init), events[events.len() - 1])) by {
            assert(can_follow_multiplex(
                multiplex_next(events.take(events.len() - 1)),
                events[events.len() - 1],
            ));
        }
        assert(multiplex_received(events) =~= multiplex_sent(events) + multiplex_pending(events));
    }
}

/// An order that comes is the one that is sent next; another is waited for exactly after one was
/// sent; and the job ends exactly when no more come or nobody listens.
pub proof fn lemma_multiplex_action_means<T>(event: MultiplexEvent<T>)
    ensures
        event matches MultiplexEvent::Received(order) ==> multiplex_action(event)
            == MultiplexAction::Send(order),
        multiplex_action(event) is Receive <==> event is Sent,
        multiplex_action(event) is Stop <==> event is InputClosed || event is NoReceivers,
{
}

/// A step more: an order that comes is added to those received, and one that was being sent when
/// it was sent is added to those sent, both at the end.
pub proof fn lemma_multiplex_grows<T>(events: Seq<MultiplexEvent<T>>, event: MultiplexEvent<T>)
    ensures
        multiplex_received(Seq::<MultiplexEvent<T>>::empty()) == Seq::<T>::empty(),
        multiplex_sent(Seq::<MultiplexEvent<T>>::empty()) == Seq::<T>::empty(),
        multiplex_received(events.push(event)) == (match event {
            MultiplexEvent::Received(order) => multiplex_received(events).push(order),
            _ => multiplex_received(events),
        }),
        event is Sent && multiplex_next(events) is Send ==> multiplex_sent(events.push(event))
            == multiplex_sent(events).push(multiplex_next(events)->Send_0),
        !(event is Sent) ==> multiplex_sent(events.push(event)) == multiplex_sent(events),
{
    assert(events.push(event).drop_last() =~= events);
}

} // verus!
