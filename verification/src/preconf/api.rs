//! The client of the preconfirmation server's HTTP interface.
use crate::clock::{in_supported_years, Timestamp};
use crate::preconf::bundle::{is_order_of, is_outcome_of, lemma_outcome_means, parsed_uuid, signers_known, try_generate_order_from_preconf, Bundle, DecodedTx, PreconfBundle};
use crate::preconf::error::PreconfError;
use crate::text::{decimal, lemma_decimal_injective, push_decimal};
use std::collections::HashMap;
use vstd::prelude::*;
use vstd::string::*;

verus! {

/// A market on which inclusion in the block of a slot is sold.
#[derive(Debug, Clone, Copy, PartialEq, Eq)]
pub struct PreconfMarket {
    pub slot: u64,
    /// Until when transactions can be submitted, in nanoseconds from the Unix epoch.
    pub trx_submit_time: u64,
}

#[derive(Debug, Clone)]
pub struct PreconfMarkets {
    pub markets: Vec<PreconfMarket>,
}

#[derive(Debug, Clone)]
pub struct PreconfBundles {
    pub bundles: Vec<PreconfBundle>,
}

/// What a response of the server is about.
#[derive(Debug, Clone)]
pub enum ApiData {
    PreconfMarkets(PreconfMarkets),
    PreconfBundles(PreconfBundles),
}

/// A response of the server.
#[derive(Debug, Clone)]
pub struct ApiResponse {
    pub success: bool,
    pub data: ApiData,
}

impl ApiResponse {
    /// The response in words; its data is not shown.
    pub fn display(&self) -> (text: String)
        ensures
            text@ == "ApiResponse { success: "@ + (if self.success {
                "true"@
            } else {
                "false"@
            }) + " }"@,
    {
        let mut text = "ApiResponse { success: ".to_owned();
        if self.success {
            text.append("true");
        } else {
            text.append("false");
        }
        text.append(" }");
        text
    }
}

/// What became of a request to the server.
#[derive(Debug, Clone)]
pub enum ApiReply {
    /// There was no response.
    RequestFailed,
    /// There was a response that could not be read.
    InvalidBody,
    Response(ApiResponse),
}

impl ApiReply {
    /// The markets that a reply tells of; none unless it is a success and about markets.
    pub open spec fn markets(self) -> Seq<PreconfMarket> {
        match self {
            ApiReply::Response(response) => match response.data {
                ApiData::PreconfMarkets(data) => if response.success {
                    data.markets@
                } else {
                    Seq::empty()
                },
                _ => Seq::empty(),
            },
            _ => Seq::empty(),
        }
    }

    /// The bundles that a reply tells of; none unless it is a success and about bundles.
    pub open spec fn bundles(self) -> Seq<PreconfBundle> {
        match self {
            ApiReply::Response(response) => match response.data {
                ApiData::PreconfBundles(data) => if response.success {
                    data.bundles@
                } else {
                    Seq::empty()
                },
                _ => Seq::empty(),
            },
            _ => Seq::empty(),
        }
    }
}

/// The submission deadline in the first market of a slot.
pub open spec fn first_deadline(markets: Seq<PreconfMarket>, slot: u64) -> Option<u64>
    decreases markets.len(),
{
    if markets.len() == 0 {
        None
    } else if markets.first().slot == slot {
        Some(markets.first().trx_submit_time)
    } else {
        first_deadline(markets.drop_first(), slot)
    }
}

/// The submission deadline in the last market of a slot.
pub open spec fn last_deadline(markets: Seq<PreconfMarket>, slot: u64) -> Option<u64>
    decreases markets.len(),
{
    if markets.len() == 0 {
        None
    } else if markets.last().slot == slot {
        Some(markets.last().trx_submit_time)
    } else {
        last_deadline(markets.drop_last(), slot)
    }
}

/// The deadlines known after the server told of its markets: what was known stays, and of each
/// other slot the first market counts.
pub open spec fn remembered(known: Map<u64, u64>, markets: Seq<PreconfMarket>) -> Map<u64, u64> {
    Map::new(
        |slot: u64| known.contains_key(slot) || first_deadline(markets, slot) is Some,
        |slot: u64|
            if known.contains_key(slot) {
                known[slot]
            } else {
                first_deadline(markets, slot)->0
            },
    )
}

/// The deadlines kept when `slot` has come: those of the slots before it, from 1 on, are
/// forgotten.
pub open spec fn cleaned(known: Map<u64, u64>, slot: u64) -> Map<u64, u64> {
    Map::new(
        |s: u64| known.contains_key(s) && !(1 <= s < slot),
        |s: u64| known[s],
    )
}

/// The address of the list of markets.
pub open spec fn markets_url(api_url: Seq<char>) -> Seq<char> {
    api_url + "api/p/inclusion_preconf/markets"@
}

/// The address of the list of a slot's bundles.
pub open spec fn bundles_url(api_url: Seq<char>, slot: u64) -> Seq<char> {
    api_url + "api/p/bundles?slot="@ + decimal(slot as nat)
}

/// What is known of the deadline of a slot.
#[derive(Debug, Clone)]
pub enum MarketExpiry {
    /// The deadline.
    Known(Timestamp),
    /// The server has to be asked, at this address.
    Ask(String),
}

/// Why no more bundles were looked at.
#[derive(Debug, Clone, Copy, PartialEq, Eq)]
pub enum FetchEnd {
    /// There were no more.
    Complete,
    /// The next bundle is without transactions.
    EmptyBundle,
    /// The signers of the next bundle's transactions are not known.
    UnknownSigner,
}

/// What the bundles of a slot make.
#[derive(Debug, Clone)]
pub struct FetchedOrders {
    /// For each bundle that was looked at, in order, its order or why it makes none.
    pub outcomes: Vec<Result<Bundle, PreconfError>>,
    pub end: FetchEnd,
}

/// No order can be made of a bundle: its uuid can be read, and its signers are not known.
pub open spec fn lacks_signer(bundle: PreconfBundle, decoded: Seq<Option<DecodedTx>>) -> bool {
    parsed_uuid(bundle.uuid@) is Some && !signers_known(decoded)
}

/// A bundle has transactions and no want of signers, and this is what it makes.
pub open spec fn makes(
    bundle: PreconfBundle,
    decoded: Seq<Option<DecodedTx>>,
    block: u64,
    timestamp: u64,
    outcome: Result<Bundle, PreconfError>,
) -> bool {
    &&& bundle.txs@.len() > 0
    &&& !lacks_signer(bundle, decoded)
    &&& is_outcome_of(outcome, block, timestamp, bundle, decoded)
}

/// For each transaction of each bundle there is the result of decoding it.
pub open spec fn decodes(
    decoded: Seq<Vec<Option<DecodedTx>>>,
    bundles: Seq<PreconfBundle>,
) -> bool {
    &&& decoded.len() == bundles.len()
    &&& forall|i: int|
        #![trigger bundles[i]]
        0 <= i < bundles.len() ==> decoded[i]@.len() == bundles[i].txs@.len()
}

/// The client of the preconfirmation server's HTTP interface, with the deadlines that it has
/// been told of.
#[derive(Debug)]
pub struct PreconfApiClient {
    api_url: String,
    /// For a slot, until when transactions can be submitted.
    market_info: HashMap<u64, u64>,
}

impl PreconfApiClient {
    /// The address of the server.
    pub closed spec fn url(self) -> Seq<char> {
        self.api_url@
    }

    /// The deadlines that the client knows.
    pub closed spec fn known(self) -> Map<u64, u64> {
        self.market_info@
    }

    /// A client that knows of no market yet.
    pub(crate) fn new(api_url: String) -> (client: Self)
        ensures
            client.url() == api_url@,
            client.known() == Map::<u64, u64>::empty(),
    {
        PreconfApiClient { api_url, market_info: HashMap::new() }
    }

    /// Whether any deadline is known.
    pub fn knows_markets(&self) -> (any: bool)
        ensures
            any == (self.known() != Map::<u64, u64>::empty()),
    {
        let any = self.market_info.len() != 0;
        proof {
            if !any {
                assert(self.known() =~= Map::empty());
            } else {
                assert(Map::<u64, u64>::empty().dom().len() == 0);
            }
        }
        any
    }

    /// Forgets the deadlines of the slots before `slot`, from 1 on.
    pub fn clean_market_info(&mut self, slot: u64)
        requires
            old(self).known() != Map::<u64, u64>::empty() ==> slot >= 1,
        ensures
            final(self).known() == cleaned(old(self).known(), slot),
            final(self).url() == old(self).url(),
            forall|s: u64| #[trigger]
                final(self).known().contains_key(s) <==> old(self).known().contains_key(s) && (s
                    == 0 || s >= slot),
            forall|s: u64| #[trigger]
                final(self).known().contains_key(s) ==> final(self).known()[s]
                    == old(self).known()[s],
    {
        if !self.knows_markets() {
            assert(cleaned(self.known(), slot) =~= self.known());
            return;
        }
        let ghost known = self.known();
        let til: u64 = slot - 1;
        let mut key: u64 = 1;
        assert(cleaned(known, 1) =~= known);
        while key <= til
            invariant
                1 <= key <= slot,
                til == slot - 1,
                self.known() == cleaned(known, key),
                self.url() == old(self).url(),
            decreases slot - key,
        {
            self.market_info.remove(&key);
            key += 1;
            assert(self.known() =~= cleaned(known, key));
        }
    }

    /// The deadline of a slot, as far as it is known. The slots before it are forgotten.
    pub fn get_inclusion_preconf_market_expiry(&mut self, slot: u64) -> (expiry: MarketExpiry)
        requires
            old(self).known() != Map::<u64, u64>::empty() ==> slot >= 1,
        ensures
            final(self).known() == cleaned(old(self).known(), slot),
            final(self).url() == old(self).url(),
            (match expiry {
                MarketExpiry::Known(deadline) => old(self).known().contains_key(slot) && deadline@
                    == old(self).known()[slot],
                MarketExpiry::Ask(url) => !old(self).known().contains_key(slot) && url@
                    == markets_url(old(self).url()),
            }),
            expiry matches MarketExpiry::Ask(url) ==> url@ == old(self).url()
                + "api/p/inclusion_preconf/markets"@,
            forall|s: u64| #[trigger]
                final(self).known().contains_key(s) <==> old(self).known().contains_key(s) && (s
                    == 0 || s >= slot),
            forall|s: u64| #[trigger]
                final(self).known().contains_key(s) ==> final(self).known()[s]
                    == old(self).known()[s],
    {
        self.clean_market_info(slot);
        match self.market_info.get(&slot) {
            Some(deadline) => MarketExpiry::Known(deadline_time(*deadline)),
            None => MarketExpiry::Ask(
                self.api_url.clone().concat("api/p/inclusion_preconf/markets"),
            ),
        }
    }

    /// Remembers the markets that the server told of, and gives the deadline that it told of
    /// for the slot.
    pub fn get_inclusion_preconf_market_info(&mut self, slot: u64, reply: &ApiReply) -> (deadline:
        Option<u64>)
        ensures
            final(self).known() == remembered(old(self).known(), reply.markets()),
            final(self).url() == old(self).url(),
            deadline == last_deadline(reply.markets(), slot),
            forall|s: u64| #[trigger]
                old(self).known().contains_key(s) ==> final(self).known().contains_key(s)
                    && final(self).known()[s] == old(self).known()[s],
            (match *reply {
                ApiReply::Response(
                    ApiResponse { success: true, data: ApiData::PreconfMarkets(told) },
                ) => {
                    let markets = told.markets@;
                    &&& forall|i: int|
                        0 <= i < markets.len() ==> final(self).known().contains_key(
                            (#[trigger] markets[i]).slot,
                        )
                    &&& forall|i: int|
                        0 <= i < markets.len() && !old(self).known().contains_key(
                            (#[trigger] markets[i]).slot,
                        ) && (forall|k: int|
                            0 <= k < i ==> (#[trigger] markets[k]).slot != markets[i].slot)
                            ==> final(self).known()[markets[i].slot] == markets[i].trx_submit_time
                    &&& forall|s: u64| #[trigger]
                        final(self).known().contains_key(s) ==> old(self).known().contains_key(s)
                            || exists|i: int|
                            0 <= i < markets.len() && (#[trigger] markets[i]).slot == s
                    &&& forall|i: int|
                        0 <= i < markets.len() && (#[trigger] markets[i]).slot == slot && (
                        forall|k: int|
                            i < k < markets.len() ==> (#[trigger] markets[k]).slot != slot)
                            ==> deadline == Some(markets[i].trx_submit_time)
                    &&& (forall|i: int| 0 <= i < markets.len() ==> (#[trigger] markets[i]).slot
                        != slot) ==> deadline is None
                },
                _ => deadline is None && final(self).known() == old(self).known(),
            }),
    {
        proof {
            lemma_told_markets(self.known(), reply.markets(), slot);
        }
        let mut market_expiry: Option<u64> = None;
        assert(remembered(self.known(), Seq::empty()) =~= self.known());
        if let ApiReply::Response(resp) = reply {
            if !resp.success {
                return None;
            }
            if let ApiData::PreconfMarkets(response) = &resp.data {
                let ghost markets = response.markets@;
                let mut n: usize = 0;
                assert(markets.take(0) =~= Seq::empty());
                while n < response.markets.len()
                    invariant
                        n <= markets.len(),
                        markets == response.markets@,
                        self.known() == remembered(old(self).known(), markets.take(n as int)),
                        self.url() == old(self).url(),
                        market_expiry == last_deadline(markets.take(n as int), slot),
                    decreases markets.len() - n,
                {
                    let market_slot: u64 = response.markets[n].slot;
                    let submission_cutoff_time: u64 = response.markets[n].trx_submit_time;
                    if !self.market_info.contains_key(&market_slot) {
                        self.market_info.insert(market_slot, submission_cutoff_time);
                    }
                    if slot == market_slot {
                        market_expiry = Some(submission_cutoff_time);
                    }
                    proof {
                        let head = markets.take(n as int);
                        let more = markets.take(n + 1);
                        assert(more.drop_last() =~= head);
                        assert(more =~= head.push(markets[n as int]));
                        assert forall|s: u64| first_deadline(more, s) == (if first_deadline(
                            head,
                            s,
                        ) is Some {
                            first_deadline(head, s)
                        } else if markets[n as int].slot == s {
                            Some(markets[n as int].trx_submit_time)
                        } else {
                            None
                        }) by {
                            lemma_first_deadline_push(head, markets[n as int], s);
                        }
                        assert(self.known() =~= remembered(old(self).known(), more));
                    }
                    n += 1;
                }
                assert(markets.take(n as int) =~= markets);
            }
        }
        market_expiry
    }

    /// The deadline of a slot that the server told of, if it did. The markets that it told of
    /// are remembered.
    pub fn market_expiry_from_reply(&mut self, slot: u64, reply: &ApiReply) -> (expiry: Option<
        Timestamp,
    >)
        ensures
            final(self).known() == remembered(old(self).known(), reply.markets()),
            final(self).url() == old(self).url(),
            (match last_deadline(reply.markets(), slot) {
                Some(deadline) => expiry is Some && expiry->0@ == deadline,
                None => expiry is None,
            }),
            forall|s: u64| #[trigger]
                old(self).known().contains_key(s) ==> final(self).known().contains_key(s)
                    && final(self).known()[s] == old(self).known()[s],
            (match *reply {
                ApiReply::Response(
                    ApiResponse { success: true, data: ApiData::PreconfMarkets(told) },
                ) => {
                    let markets = told.markets@;
                    &&& forall|i: int|
                        0 <= i < markets.len() ==> final(self).known().contains_key(
                            (#[trigger] markets[i]).slot,
                        )
                    &&& forall|i: int|
                        0 <= i < markets.len() && !old(self).known().contains_key(
                            (#[trigger] markets[i]).slot,
                        ) && (forall|k: int|
                            0 <= k < i ==> (#[trigger] markets[k]).slot != markets[i].slot)
                            ==> final(self).known()[markets[i].slot] == markets[i].trx_submit_time
                    &&& forall|s: u64| #[trigger]
                        final(self).known().contains_key(s) ==> old(self).known().contains_key(s)
                            || exists|i: int|
                            0 <= i < markets.len() && (#[trigger] markets[i]).slot == s
                    &&& forall|i: int|
                        0 <= i < markets.len() && (#[trigger] markets[i]).slot == slot && (
                        forall|k: int|
                            i < k < markets.len() ==> (#[trigger] markets[k]).slot != slot)
                            ==> expiry is Some && expiry->0@ == markets[i].trx_submit_time
                    &&& (forall|i: int| 0 <= i < markets.len() ==> (#[trigger] markets[i]).slot
                        != slot) ==> expiry is None
                },
                _ => expiry is None && final(self).known() == old(self).known(),
            }),
    {
        match self.get_inclusion_preconf_market_info(slot, reply) {
            Some(deadline) => Some(deadline_time(deadline)),
            None => None,
        }
    }

    /// The address at which the server lists the bundles of a slot.
    pub fn preconf_bundles_url(&self, slot: u64) -> (url: String)
        ensures
            url@ == bundles_url(self.url(), slot),
            url@ == self.url() + "api/p/bundles?slot="@ + decimal(slot as nat),
    {
        let mut url = self.api_url.clone().concat("api/p/bundles?slot=");
        push_decimal(&mut url, slot);
        url
    }

    /// What the bundles that the server told of make, for a block and from a timestamp on. The
    /// bundles are looked at in order, up to the first without transactions, or with signers
    /// that are not known.
    pub fn fetch_inclusion_preconfs(
        &self,
        block: u64,
        timestamp: u64,
        reply: &ApiReply,
        decoded: &Vec<Vec<Option<DecodedTx>>>,
    ) -> (fetched: FetchedOrders)
        requires
            decodes(decoded@, reply.bundles()),
        ensures
            fetched.outcomes@.len() <= reply.bundles().len(),
            forall|i: int|
                0 <= i < fetched.outcomes@.len() ==> #[trigger] makes(
                    reply.bundles()[i],
                    decoded@[i]@,
                    block,
                    timestamp,
                    fetched.outcomes@[i],
                ),
            ({
                let n = fetched.outcomes@.len();
                let bundles = reply.bundles();
                match fetched.end {
                    FetchEnd::Complete => n == bundles.len(),
                    FetchEnd::EmptyBundle => n < bundles.len() && bundles[n as int].txs@.len() == 0,
                    FetchEnd::UnknownSigner => n < bundles.len() && bundles[n as int].txs@.len() > 0
                        && lacks_signer(bundles[n as int], decoded@[n as int]@),
                }
            }),
            forall|i: int|
                0 <= i < fetched.outcomes@.len() ==> ((#[trigger] fetched.outcomes@[i]) matches Ok(
                    order,
                ) ==> order.block == block && order.min_timestamp == Some(timestamp)),
            (match *reply {
                ApiReply::Response(
                    ApiResponse { success: true, data: ApiData::PreconfBundles(told) },
                ) => {
                    let n = fetched.outcomes@.len() as int;
                    let bundles = told.bundles@;
                    &&& n <= bundles.len()
                    &&& forall|i: int| 0 <= i < n ==> (#[trigger] bundles[i]).txs@.len() > 0
                    &&& forall|i: int|
                        0 <= i < n ==> ((#[trigger] fetched.outcomes@[i]) is Ok <==> (parsed_uuid(
                            bundles[i].uuid@,
                        ) is Some && bundles[i].average_bid_price is Wei))
                    &&& n < bundles.len() && bundles[n].txs@.len() == 0 <==> fetched.end
                        is EmptyBundle
                    &&& n == bundles.len() <==> fetched.end is Complete
                },
                _ => fetched.outcomes@.len() == 0 && fetched.end is Complete,
            }),
    {
        let mut outcomes: Vec<Result<Bundle, PreconfError>> = Vec::new();
        if let ApiReply::Response(resp) = reply {
            if !resp.success {
                return FetchedOrders { outcomes, end: FetchEnd::Complete };
            }
            if let ApiData::PreconfBundles(response) = &resp.data {
                let ghost bundles = response.bundles@;
                let mut n: usize = 0;
                while n < response.bundles.len()
                    invariant
                        n <= bundles.len(),
                        bundles == response.bundles@,
                        bundles == reply.bundles(),
                        decodes(decoded@, bundles),
                        outcomes@.len() == n,
                        forall|i: int| 0 <= i < n ==> (#[trigger] bundles[i]).txs@.len() > 0,
                        forall|i: int|
                            0 <= i < n ==> ((#[trigger] outcomes@[i]) matches Ok(order)
                                ==> order.block == block && order.min_timestamp == Some(timestamp)),
                        forall|i: int|
                            0 <= i < n ==> ((#[trigger] outcomes@[i]) is Ok <==> (parsed_uuid(
                                bundles[i].uuid@,
                            ) is Some && bundles[i].average_bid_price is Wei)),
                        forall|i: int|
                            0 <= i < n ==> #[trigger] makes(
                                bundles[i],
                                decoded@[i]@,
                                block,
                                timestamp,
                                outcomes@[i],
                            ),
                    decreases bundles.len() - n,
                {
                    let bundle = &response.bundles[n];
                    assert(bundles[n as int] == *bundle);
                    if bundle.txs.len() == 0 {
                        return FetchedOrders { outcomes, end: FetchEnd::EmptyBundle };
                    }
                    match try_generate_order_from_preconf(block, timestamp, bundle, &decoded[n]) {
                        Some(outcome) => {
                            proof {
                                lemma_outcome_means(
                                    outcome,
                                    block,
                                    timestamp,
                                    *bundle,
                                    decoded@[n as int]@,
                                );
                            }
                            outcomes.push(outcome);
                        },
                        None => {
                            return FetchedOrders { outcomes, end: FetchEnd::UnknownSigner };
                        },
                    }
                    n += 1;
                }
            }
        }
        FetchedOrders { outcomes, end: FetchEnd::Complete }
    }
}

/// A deadline as a point in time. Every one of them is in the supported years.
fn deadline_time(nanos: u64) -> (time: Timestamp)
    ensures
        time@ == nanos,
{
    assert(in_supported_years(nanos as int));
    Timestamp::from_unix_timestamp_nanos(nanos as i128).unwrap()
}

/// A market more is the first of its slot only if there was none before.
proof fn lemma_first_deadline_push(markets: Seq<PreconfMarket>, market: PreconfMarket, slot: u64)
    ensures
        first_deadline(markets.push(market), slot) == (if first_deadline(markets, slot) is Some {
            first_deadline(markets, slot)
        } else if market.slot == slot {
            Some(market.trx_submit_time)
        } else {
            None
        }),
    decreases markets.len(),
{
    let more = markets.push(market);
    if markets.len() == 0 {
        assert(more.first() == market);
        assert(first_deadline(more.drop_first(), slot) is None);
    } else {
        assert(more.first() == markets.first());
        assert(more.drop_first() =~= markets.drop_first().push(market));
        lemma_first_deadline_push(markets.drop_first(), market, slot);
    }
}

/// Where the markets of a slot agree on the deadline, the first and the last give it.
proof fn lemma_agreeing_deadlines(markets: Seq<PreconfMarket>, slot: u64)
    requires
        forall|i: int, j: int|
            0 <= i < markets.len() && 0 <= j < markets.len() && (#[trigger] markets[i]).slot == slot
                && (#[trigger] markets[j]).slot == slot ==> markets[i].trx_submit_time
                == markets[j].trx_submit_time,
    ensures
        first_deadline(markets, slot) == last_deadline(markets, slot),
    decreases markets.len(),
{
    if markets.len() > 0 {
        let init = markets.drop_last();
        assert(markets =~= init.push(markets.last()));
        lemma_first_deadline_push(init, markets.last(), slot);
        assert forall|i: int, j: int|
            0 <= i < init.len() && 0 <= j < init.len() && (#[trigger] init[i]).slot == slot && (
            #[trigger] init[j]).slot == slot implies init[i].trx_submit_time
            == init[j].trx_submit_time by {
            assert(init[i] == markets[i] && init[j] == markets[j]);
        }
        lemma_agreeing_deadlines(init, slot);
        if first_deadline(init, slot) is Some && markets.last().slot == slot {
            lemma_first_deadline_is_told(init, slot);
            let i = choose|i: int|
                0 <= i < init.len() && (#[trigger] init[i]).slot == slot && init[i].trx_submit_time
                    == first_deadline(init, slot)->0;
            assert(markets[i] == init[i]);
            assert(markets[markets.len() - 1].slot == slot);
        }
    }
}

/// A deadline is that of one of the slot's markets.
proof fn lemma_first_deadline_is_told(markets: Seq<PreconfMarket>, slot: u64)
    requires
        first_deadline(markets, slot) is Some,
    ensures
        exists|i: int|
            0 <= i < markets.len() && (#[trigger] markets[i]).slot == slot
                && markets[i].trx_submit_time == first_deadline(markets, slot)->0,
    decreases markets.len(),
{
    if markets.first().slot == slot {
        assert(markets[0].slot == slot);
    } else {
        let rest = markets.drop_first();
        lemma_first_deadline_is_told(rest, slot);
        let i = choose|i: int|
            0 <= i < rest.len() && (#[trigger] rest[i]).slot == slot && rest[i].trx_submit_time
                == first_deadline(rest, slot)->0;
        assert(markets[i + 1] == rest[i]);
    }
}

/// The deadline that the server told of is the one that is found known when the slot is asked
/// for again, and where it told of none, none is: provided that the slot was not known before
/// and that its markets agree on the deadline.
pub proof fn lemma_told_deadline_is_known(
    known: Map<u64, u64>,
    markets: Seq<PreconfMarket>,
    slot: u64,
)
    requires
        !known.contains_key(slot),
        forall|i: int, j: int|
            0 <= i < markets.len() && 0 <= j < markets.len() && (#[trigger] markets[i]).slot == slot
                && (#[trigger] markets[j]).slot == slot ==> markets[i].trx_submit_time
                == markets[j].trx_submit_time,
    ensures
        ({
            let later = cleaned(remembered(known, markets), slot);
            match last_deadline(markets, slot) {
                Some(deadline) => later.contains_key(slot) && later[slot] == deadline,
                None => !later.contains_key(slot),
            }
        }),
{
    lemma_agreeing_deadlines(markets, slot);
}

/// A deadline that is known never changes, whatever the server tells.
pub proof fn lemma_known_deadline_stays(
    known: Map<u64, u64>,
    markets: Seq<PreconfMarket>,
    slot: u64,
)
    requires
        known.contains_key(slot),
    ensures
        remembered(known, markets).contains_key(slot),
        remembered(known, markets)[slot] == known[slot],
{
}

/// Being told the same markets again adds nothing.
pub proof fn lemma_remembering_twice(known: Map<u64, u64>, markets: Seq<PreconfMarket>)
    ensures
        remembered(remembered(known, markets), markets) == remembered(known, markets),
{
    assert(remembered(remembered(known, markets), markets) =~= remembered(known, markets));
}

/// Forgetting the slots before one and then those before another is forgetting those before
/// the later of the two. The deadline of the slot itself and those of later ones are kept.
pub proof fn lemma_cleaning_twice(known: Map<u64, u64>, a: u64, b: u64)
    ensures
        cleaned(cleaned(known, a), b) == cleaned(
            known,
            if a <= b {
                b
            } else {
                a
            },
        ),
        forall|slot: u64|
            slot >= a ==> (known.contains_key(slot) <==> #[trigger] cleaned(known, a).contains_key(
                slot,
            )),
{
    assert(cleaned(cleaned(known, a), b) =~= cleaned(
        known,
        if a <= b {
            b
        } else {
            a
        },
    ));
}

/// The bundles of different slots are listed at different addresses.
pub proof fn lemma_bundles_url_injective(api_url: Seq<char>, a: u64, b: u64)
    requires
        bundles_url(api_url, a) == bundles_url(api_url, b),
    ensures
        a == b,
{
    let prefix = api_url + "api/p/bundles?slot="@;
    let m = decimal(a as nat);
    let n = decimal(b as nat);
    assert((prefix + m).skip(prefix.len() as int) =~= m);
    assert((prefix + n).skip(prefix.len() as int) =~= n);
    lemma_decimal_injective(a as nat, b as nat);
}

/// A successful reply about markets tells of all of its markets, and one about bundles of all of
/// its bundles; no other reply tells of any.
pub proof fn lemma_reply_tells_all(reply: ApiReply)
    ensures
        (match reply {
            ApiReply::Response(
                ApiResponse { success: true, data: ApiData::PreconfMarkets(told) },
            ) => reply.markets() == told.markets@ && reply.bundles().len() == 0,
            ApiReply::Response(
                ApiResponse { success: true, data: ApiData::PreconfBundles(told) },
            ) => reply.bundles() == told.bundles@ && reply.markets().len() == 0,
            _ => reply.markets().len() == 0 && reply.bundles().len() == 0,
        }),
{
}

/// The deadline that is told is that of the slot's market after which no other follows.
pub proof fn lemma_last_market_tells(markets: Seq<PreconfMarket>, i: int)
    requires
        0 <= i < markets.len(),
        forall|k: int| i < k < markets.len() ==> (#[trigger] markets[k]).slot != markets[i].slot,
    ensures
        last_deadline(markets, markets[i].slot) == Some(markets[i].trx_submit_time),
    decreases markets.len(),
{
    let init = markets.drop_last();
    if i < init.len() {
        assert(markets[markets.len() - 1].slot != markets[i].slot);
        assert(forall|k: int| i < k < init.len() ==> (#[trigger] init[k]).slot == markets[k].slot);
        lemma_last_market_tells(init, i);
    }
}

/// The deadline that is remembered is that of the slot's market before which there is no other.
pub proof fn lemma_first_market_is_remembered(
    known: Map<u64, u64>,
    markets: Seq<PreconfMarket>,
    i: int,
)
    requires
        0 <= i < markets.len(),
        !known.contains_key(markets[i].slot),
        forall|k: int| 0 <= k < i ==> (#[trigger] markets[k]).slot != markets[i].slot,
    ensures
        remembered(known, markets).contains_key(markets[i].slot),
        remembered(known, markets)[markets[i].slot] == markets[i].trx_submit_time,
{
    lemma_first_market(markets, i);
}

proof fn lemma_first_market(markets: Seq<PreconfMarket>, i: int)
    requires
        0 <= i < markets.len(),
        forall|k: int| 0 <= k < i ==> (#[trigger] markets[k]).slot != markets[i].slot,
    ensures
        first_deadline(markets, markets[i].slot) == Some(markets[i].trx_submit_time),
    decreases markets.len(),
{
    if i > 0 {
        let rest = markets.drop_first();
        assert(markets[0].slot != markets[i].slot);
        assert forall|k: int| 0 <= k < i - 1 implies (#[trigger] rest[k]).slot
            != rest[i - 1].slot by {
            assert(rest[k] == markets[k + 1]);
        }
        lemma_first_market(rest, i - 1);
    }
}

/// Some market is told of for every slot of the list.
proof fn lemma_market_has_first(markets: Seq<PreconfMarket>, i: int)
    requires
        0 <= i < markets.len(),
    ensures
        first_deadline(markets, markets[i].slot) is Some,
    decreases markets.len(),
{
    if i > 0 && markets[0].slot != markets[i].slot {
        assert(markets.drop_first()[i - 1] == markets[i]);
        lemma_market_has_first(markets.drop_first(), i - 1);
    }
}

/// A slot without a market has no deadline, neither told nor remembered.
pub proof fn lemma_no_market_no_deadline(markets: Seq<PreconfMarket>, slot: u64)
    requires
        forall|i: int| 0 <= i < markets.len() ==> (#[trigger] markets[i]).slot != slot,
    ensures
        last_deadline(markets, slot) is None,
        forall|known: Map<u64, u64>|
            !known.contains_key(slot) ==> !#[trigger] remembered(known, markets).contains_key(slot),
{
    if first_deadline(markets, slot) is Some {
        lemma_first_deadline_is_told(markets, slot);
    }
    lemma_no_last(markets, slot);
}

proof fn lemma_no_last(markets: Seq<PreconfMarket>, slot: u64)
    requires
        forall|i: int| 0 <= i < markets.len() ==> (#[trigger] markets[i]).slot != slot,
    ensures
        last_deadline(markets, slot) is None,
    decreases markets.len(),
{
    if markets.len() > 0 {
        let init = markets.drop_last();
        assert(markets[markets.len() - 1].slot != slot);
        assert(forall|k: int| 0 <= k < init.len() ==> (#[trigger] init[k]).slot == markets[k].slot);
        lemma_no_last(init, slot);
    }
}

proof fn lemma_told_markets(known: Map<u64, u64>, markets: Seq<PreconfMarket>, slot: u64)
    ensures
        ({
            let later = remembered(known, markets);
            &&& forall|s: u64| #[trigger]
                known.contains_key(s) ==> later.contains_key(s) && later[s] == known[s]
            &&& forall|i: int|
                0 <= i < markets.len() ==> later.contains_key((#[trigger] markets[i]).slot)
            &&& forall|i: int|
                0 <= i < markets.len() && !known.contains_key((#[trigger] markets[i]).slot) && (
                forall|k: int| 0 <= k < i ==> (#[trigger] markets[k]).slot != markets[i].slot)
                    ==> later[markets[i].slot] == markets[i].trx_submit_time
            &&& forall|s: u64| #[trigger]
                later.contains_key(s) ==> known.contains_key(s) || exists|i: int|
                    0 <= i < markets.len() && (#[trigger] markets[i]).slot == s
            &&& forall|i: int|
                0 <= i < markets.len() && (#[trigger] markets[i]).slot == slot && (forall|k: int|
                    i < k < markets.len() ==> (#[trigger] markets[k]).slot != slot)
                    ==> last_deadline(markets, slot) == Some(markets[i].trx_submit_time)
            &&& (forall|i: int| 0 <= i < markets.len() ==> (#[trigger] markets[i]).slot != slot)
                ==> last_deadline(markets, slot) is None
            &&& markets.len() == 0 ==> later == known
        }),
{
    let later = remembered(known, markets);
    assert forall|i: int| 0 <= i < markets.len() implies later.contains_key(
        (#[trigger] markets[i]).slot,
    ) by {
        lemma_market_has_first(markets, i);
    }
    assert forall|i: int|
        0 <= i < markets.len() && !known.contains_key((#[trigger] markets[i]).slot) && (forall|k: int|
            0 <= k < i ==> (#[trigger] markets[k]).slot
                != markets[i].slot) implies later[markets[i].slot] == markets[i].trx_submit_time by {
        lemma_first_market(markets, i);
    }
    assert forall|s: u64| #[trigger] later.contains_key(s) implies known.contains_key(s)
        || exists|i: int| 0 <= i < markets.len() && (#[trigger] markets[i]).slot == s by {
        if !known.contains_key(s) {
            lemma_first_deadline_is_told(markets, s);
        }
    }
    assert forall|i: int|
        0 <= i < markets.len() && (#[trigger] markets[i]).slot == slot && (forall|k: int|
            i < k < markets.len() ==> (#[trigger] markets[k]).slot != slot) implies last_deadline(
        markets,
        slot,
    ) == Some(markets[i].trx_submit_time) by {
        lemma_last_market_tells(markets, i);
    }
    if forall|i: int| 0 <= i < markets.len() ==> (#[trigger] markets[i]).slot != slot {
        lemma_no_last(markets, slot);
    }
    if markets.len() == 0 {
        assert(later =~= known);
    }
}

/// A deadline is kept exactly if it is that of slot 0, of the slot that has come, or of a later
/// one; it does not change.
pub proof fn lemma_cleaned_means(known: Map<u64, u64>, slot: u64, s: u64)
    ensures
        cleaned(known, slot).contains_key(s) <==> known.contains_key(s) && (s == 0 || s >= slot),
        cleaned(known, slot).contains_key(s) ==> cleaned(known, slot)[s] == known[s],
{
}

/// What a bundle makes for a block and from a timestamp on: the bundle has transactions; without
/// a readable uuid it makes an error that names the text, and with a negative price one that
/// says so; else the signers are known, and it makes an order for this block and from this
/// timestamp on, under its own uuid.
pub proof fn lemma_makes_means(
    bundle: PreconfBundle,
    decoded: Seq<Option<DecodedTx>>,
    block: u64,
    timestamp: u64,
    outcome: Result<Bundle, PreconfError>,
)
    requires
        makes(bundle, decoded, block, timestamp, outcome),
    ensures
        bundle.txs@.len() > 0,
        parsed_uuid(bundle.uuid@) is Some ==> (exists|i: int|
            0 <= i < decoded.len() && (#[trigger] decoded[i]) is Some) && (forall|i: int|
            0 <= i < decoded.len() && (#[trigger] decoded[i]) is Some
                ==> decoded[i]->0.signer is Some),
        outcome is Ok <==> parsed_uuid(bundle.uuid@) is Some && bundle.average_bid_price is Wei,
        outcome matches Ok(order) ==> order.block == block && order.min_timestamp == Some(timestamp)
            && order.max_timestamp is None && order.replacement_data is Some && parsed_uuid(
            bundle.uuid@,
        ) == Some(order.replacement_data->0.key.uuid) && is_order_of(
            order,
            block,
            timestamp,
            bundle,
            decoded,
            order.replacement_data->0.key.uuid,
        ),
        parsed_uuid(bundle.uuid@) is None ==> (outcome matches Err(
            PreconfError::PreconfConvertError(reason),
        ) && reason@ == "Failed to parse UUIDv4 from received uuid str="@ + bundle.uuid@),
        parsed_uuid(bundle.uuid@) is Some && bundle.average_bid_price is Negative ==> (
        outcome matches Err(PreconfError::PreconfConvertError(reason)) && reason@
            == "Cannot generate order from bundle: "@ + ("Preconf order conversion error: "@
            + "ETH price cannot be negative"@)),
{
    lemma_outcome_means(outcome, block, timestamp, bundle, decoded);
}

/// A bundle lacks a signer exactly if its uuid can be read and either nothing of it was decoded
/// or some decoded transaction has no signer. Decoding results fit bundles exactly if there is
/// one for each transaction.
pub proof fn lemma_fetch_terms_mean(
    bundles: Seq<PreconfBundle>,
    decoded: Seq<Vec<Option<DecodedTx>>>,
    i: int,
)
    requires
        decoded.len() == bundles.len(),
        0 <= i < bundles.len(),
    ensures
        lacks_signer(bundles[i], decoded[i]@) <==> parsed_uuid(bundles[i].uuid@) is Some && ((
        forall|n: int| 0 <= n < decoded[i]@.len() ==> (#[trigger] decoded[i]@[n]) is None) || (
        exists|n: int|
            0 <= n < decoded[i]@.len() && (#[trigger] decoded[i]@[n]) is Some
                && decoded[i]@[n]->0.signer is None)),
        decodes(decoded, bundles) <==> forall|k: int|
            0 <= k < bundles.len() ==> decoded[k]@.len() == (#[trigger] bundles[k]).txs@.len(),
{
}

} // verus!
