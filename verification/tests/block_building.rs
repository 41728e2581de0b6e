use rbuilder::clock::{Span, Timestamp};
use rbuilder::live_builder::building::{
    multiplex_step, slot_bid, time_to_preconf_info, BlockBuildingPool, BlockContext,
    MultiplexAction, MultiplexEvent, SlotData, BROADCAST_CAPACITY,
};
use rbuilder::uint::U256;

fn at(nanos: i128) -> Timestamp {
    Timestamp::from_unix_timestamp_nanos(nanos).unwrap()
}

fn slot_data(nanos: i128) -> SlotData {
    SlotData { slot: 1, block: 2, timestamp: at(nanos) }
}

fn context(number: u64, delta: Option<i128>) -> BlockContext {
    BlockContext {
        number: U256 { limbs: [number, 0, 0, 0] },
        slot_delta_to_start_block_build: delta,
    }
}

#[test]
fn pool_holds_what_it_is_given() {
    let pool = BlockBuildingPool::new("provider", vec!["a", "b"], 'f', 1u8, 2u16, 3u32);
    assert_eq!(pool.provider_factory, "provider");
    assert_eq!(pool.builders, vec!["a", "b"]);
    assert_eq!(pool.sink_factory, 'f');
    assert_eq!(
        (pool.bidding_service, pool.orderpool_subscriber, pool.order_simulation_pool),
        (1, 2, 3)
    );
}

#[test]
fn one_job_per_builder_is_started() {
    let pool = BlockBuildingPool::new((), vec!["a", "b", "c"], (), (), (), ());
    let job = pool.start_building_job(&context(77, None), &slot_data(9_999_999_999), true).unwrap();
    assert_eq!(job.builder_jobs, 3);
    assert_eq!(job.preconf_info.block_number, 77);
    assert_eq!(job.preconf_info.slot, 1);
    assert_eq!(job.preconf_info.timestamp, Some(9));
    assert!(pool.start_building_job(&context(77, None), &slot_data(0), false).is_none());
}

#[test]
fn block_numbers_have_room_in_64_bits() {
    assert_eq!(context(u64::MAX, None).block_number(), Some(u64::MAX));
    let wide = BlockContext {
        number: U256 { limbs: [1, 1, 0, 0] },
        slot_delta_to_start_block_build: None,
    };
    assert_eq!(wide.block_number(), None);
}

#[test]
fn bidder_is_asked_for_the_slot() {
    let bid = slot_bid(&slot_data(5_000_000_001));
    assert_eq!((bid.block, bid.slot, bid.slot_end_timestamp), (2, 1, 5));
    assert_eq!(slot_bid(&slot_data(-1)).slot_end_timestamp, u64::MAX);
}

#[test]
fn word_of_the_slot_waits_for_the_time_set() {
    let end = at(10_000_000_000);
    assert_eq!(time_to_preconf_info(&context(1, None), &end, &at(0)), None);
    assert_eq!(
        time_to_preconf_info(&context(1, Some(-4_000_000_000)), &end, &at(1_000_000_000)),
        Some(Span { seconds: 5, nanoseconds: 0 })
    );
    assert_eq!(
        time_to_preconf_info(&context(1, Some(5)), &end, &at(10_000_000_004)),
        Some(Span { seconds: 0, nanoseconds: 1 })
    );
    assert_eq!(time_to_preconf_info(&context(1, Some(5)), &end, &at(10_000_000_005)), None);
}

#[test]
fn orders_are_sent_until_the_input_or_the_builders_end() {
    let step = |event: MultiplexEvent<&'static str>| multiplex_step(event);
    assert_eq!(step(MultiplexEvent::Received("a")), MultiplexAction::Send("a"));
    assert_eq!(step(MultiplexEvent::Sent), MultiplexAction::Receive);
    assert_eq!(step(MultiplexEvent::InputClosed), MultiplexAction::Stop);
    assert_eq!(step(MultiplexEvent::NoReceivers), MultiplexAction::Stop);
    assert_eq!(BROADCAST_CAPACITY, 10_000);
}

#[test]
fn orders_are_sent_in_the_sequence_in_which_they_came() {
    let mut input = vec![1, 2, 3].into_iter();
    let mut action = MultiplexAction::Receive;
    let mut sent = vec![];
    loop {
        let event = match action {
            MultiplexAction::Receive => match input.next() {
                Some(order) => MultiplexEvent::Received(order),
                None => MultiplexEvent::InputClosed,
            },
            MultiplexAction::Send(order) => {
                sent.push(order);
                MultiplexEvent::Sent
            }
            MultiplexAction::Stop => break,
        };
        action = multiplex_step(event);
    }
    assert_eq!(sent, vec![1, 2, 3]);
}
