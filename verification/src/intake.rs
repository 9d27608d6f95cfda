//! Observer intake: turning decoded block frames into typed domain events,
//! and the reconnecting feed state machine.
//!
//! The caller owns the streaming connection; it decodes each inbound frame
//! and reports it (or the transport signal) to [`step`], performing the
//! returned actions.  Every block frame is classified here: each embedded
//! transaction is republished, and each begin/end-block lifecycle event is
//! matched against the fixed event-type vocabulary, its required attributes
//! are read from the key/value attribute list, and the corresponding typed
//! event is produced.  An event missing a required attribute, or carrying an
//! unparseable quantity, yields nothing and is never fatal.

use vstd::prelude::*;
use crate::coins::{
    coin_views, parse_amount, parse_coins, spec_amount, spec_parse_coins, spec_u64, parse_u64,
    CoinView,
};
use crate::messages::{
    Event, MessageBlockEventCommission, MessageBlockEventExchangeRate, MessageBlockEventLiveness,
    MessageBlockEventReward, MessageTX,
};
use crate::text::str_eq;
use crate::types::{NewBlock, NewBlockAttributes, NewBlockEvent, TXandResult};

verus! {

/// Value of the last attribute named `key`, as the original attribute map
/// (later duplicates overwrite earlier ones) would hold it.
pub open spec fn spec_get_kv(attrs: Seq<NewBlockAttributes>, key: Seq<char>) -> Option<Seq<char>>
    decreases attrs.len(),
{
    if attrs.len() == 0 {
        None
    } else if attrs.last().key@ == key {
        match attrs.last().value {
            Some(v) => Some(v@),
            None => None,
        }
    } else {
        spec_get_kv(attrs.drop_last(), key)
    }
}

/// Look up a required attribute: the value of the last attribute named
/// `key`, or `None` when it is absent or carries no value.
pub fn get_required_kv(attributes: &Vec<NewBlockAttributes>, key: &str) -> (r: Option<String>)
    ensures
        match r {
            Some(v) => spec_get_kv(attributes@, key@) == Some(v@),
            None => spec_get_kv(attributes@, key@) is None,
        },
{
    let mut i: usize = attributes.len();
    proof {
        assert(attributes@.take(i as int) =~= attributes@);
    }
    while i > 0
        invariant
            i <= attributes@.len(),
            spec_get_kv(attributes@, key@) == spec_get_kv(attributes@.take(i as int), key@),
        decreases i,
    {
        i = i - 1;
        proof {
            assert(attributes@.take(i as int + 1).drop_last() =~= attributes@.take(i as int));
            assert(attributes@.take(i as int + 1).last() == attributes@[i as int]);
        }
        if str_eq(attributes[i].key.as_str(), key) {
            match &attributes[i].value {
                Some(v) => {
                    return Some(v.clone());
                },
                None => {
                    return None;
                },
            }
        }
    }
    assert(attributes@.take(0).len() == 0);
    None
}

/// The missed-block count read from an optional attribute: a missing or
/// unparseable value counts as zero.
pub open spec fn spec_missed(o: Option<Seq<char>>) -> u64 {
    match o {
        None => 0,
        Some(s) => match spec_u64(s) {
            Some(v) => v,
            None => 0,
        },
    }
}

/// The event `e` is the reward message with these fields.
pub open spec fn reward_out(
    height: u64,
    is_begin: bool,
    is_proposer: bool,
    validator: Seq<char>,
    coins: Seq<CoinView>,
    e: Event,
) -> bool {
    e matches Event::BlockEventReward(m) && m.height == height && m.is_begin == is_begin
        && m.is_proposer == is_proposer && m.validator@ == validator && coin_views(m.amount@)
        == coins
}

/// The event `e` is the commission message with these fields.
pub open spec fn commission_out(
    height: u64,
    is_begin: bool,
    validator: Seq<char>,
    coins: Seq<CoinView>,
    e: Event,
) -> bool {
    e matches Event::BlockEventCommission(m) && m.height == height && m.is_begin == is_begin
        && m.validator@ == validator && coin_views(m.amount@) == coins
}

/// The event `e` is the liveness message with these fields.
pub open spec fn liveness_out(
    height: u64,
    is_begin: bool,
    address: Seq<char>,
    missed: u64,
    e: Event,
) -> bool {
    e matches Event::BlockEventLiveness(m) && m.height == height && m.is_begin == is_begin
        && m.tendermint_address@ == address && m.missed == missed
}

/// The event `e` is the exchange-rate message with these fields.
pub open spec fn exchange_rate_out(height: u64, denom: Seq<char>, rate: u64, e: Event) -> bool {
    e matches Event::BlockEventExchangeRate(m) && m.height == height && m.denom@ == denom
        && m.exchange_rate == rate
}

/// What classifying one lifecycle event must produce: the typed event of
/// its vocabulary entry with the required attributes extracted, or nothing
/// when an attribute is missing or malformed, or for the event types that
/// are only observed.
pub open spec fn spec_event_output(
    height: u64,
    is_begin: bool,
    ev: NewBlockEvent,
    out: Option<Event>,
) -> bool {
    let attrs = ev.attributes@;
    let s = ev.s_type@;
    if s == "rewards"@ || s == "proposer_reward"@ {
        let is_proposer = (s == "proposer_reward"@);
        match spec_get_kv(attrs, "validator"@) {
            None => out is None,
            Some(v) => match spec_get_kv(attrs, "amount"@) {
                None => out matches Some(e) && reward_out(
                    height,
                    is_begin,
                    is_proposer,
                    v,
                    Seq::empty(),
                    e,
                ),
                Some(a) => match spec_parse_coins(a) {
                    Some(coins) => out matches Some(e) && reward_out(
                        height,
                        is_begin,
                        is_proposer,
                        v,
                        coins,
                        e,
                    ),
                    None => out is None,
                },
            },
        }
    } else if s == "commission"@ {
        match spec_get_kv(attrs, "validator"@) {
            None => out is None,
            Some(v) => match spec_get_kv(attrs, "amount"@) {
                None => out matches Some(e) && commission_out(height, is_begin, v, Seq::empty(), e),
                Some(a) => match spec_parse_coins(a) {
                    Some(coins) => out matches Some(e) && commission_out(
                        height,
                        is_begin,
                        v,
                        coins,
                        e,
                    ),
                    None => out is None,
                },
            },
        }
    } else if s == "liveness"@ {
        match spec_get_kv(attrs, "address"@) {
            None => out is None,
            Some(addr) => out matches Some(e) && liveness_out(
                height,
                is_begin,
                addr,
                spec_missed(spec_get_kv(attrs, "missed_blocks"@)),
                e,
            ),
        }
    } else if s == "exchange_rate_update"@ {
        match spec_get_kv(attrs, "denom"@) {
            None => out is None,
            Some(d) => match spec_get_kv(attrs, "exchange_rate"@) {
                None => out is None,
                Some(x) => match spec_amount(x) {
                    Some(r) => out matches Some(e) && exchange_rate_out(height, d, r, e),
                    None => out is None,
                },
            },
        }
    } else {
        // transfer, message, mint, complete_unbonding, complete_redelegation
        // and the unknown catch-all are observed and logged, not republished
        out is None
    }
}

/// Classify one lifecycle event into its typed domain event, if any.
pub fn process_event(height: u64, is_begin: bool, ev: &NewBlockEvent) -> (out: Option<Event>)
    ensures
        spec_event_output(height, is_begin, *ev, out),
{
    let is_rewards = str_eq(ev.s_type.as_str(), "rewards");
    let is_proposer = str_eq(ev.s_type.as_str(), "proposer_reward");
    if is_rewards || is_proposer {
        match get_required_kv(&ev.attributes, "validator") {
            None => None,
            Some(validator) => match get_required_kv(&ev.attributes, "amount") {
                None => {
                    let amount: Vec<crate::coins::Coin> = Vec::new();
                    proof {
                        assert(coin_views(amount@) =~= Seq::<CoinView>::empty());
                    }
                    Some(
                        Event::BlockEventReward(
                            MessageBlockEventReward {
                                height,
                                is_begin,
                                is_proposer,
                                validator,
                                amount,
                            },
                        ),
                    )
                },
                Some(a) => match parse_coins(a.as_str()) {
                    Ok(amount) => Some(
                        Event::BlockEventReward(
                            MessageBlockEventReward {
                                height,
                                is_begin,
                                is_proposer,
                                validator,
                                amount,
                            },
                        ),
                    ),
                    Err(_) => None,
                },
            },
        }
    } else if str_eq(ev.s_type.as_str(), "commission") {
        match get_required_kv(&ev.attributes, "validator") {
            None => None,
            Some(validator) => match get_required_kv(&ev.attributes, "amount") {
                None => {
                    let amount: Vec<crate::coins::Coin> = Vec::new();
                    proof {
                        assert(coin_views(amount@) =~= Seq::<CoinView>::empty());
                    }
                    Some(
                        Event::BlockEventCommission(
                            MessageBlockEventCommission { height, is_begin, validator, amount },
                        ),
                    )
                },
                Some(a) => match parse_coins(a.as_str()) {
                    Ok(amount) => Some(
                        Event::BlockEventCommission(
                            MessageBlockEventCommission { height, is_begin, validator, amount },
                        ),
                    ),
                    Err(_) => None,
                },
            },
        }
    } else if str_eq(ev.s_type.as_str(), "liveness") {
        match get_required_kv(&ev.attributes, "address") {
            None => None,
            Some(tendermint_address) => {
                let missed: u64 = match get_required_kv(&ev.attributes, "missed_blocks") {
                    None => 0,
                    Some(mb) => match parse_u64(mb.as_str()) {
                        Some(v) => v,
                        None => 0,
                    },
                };
                Some(
                    Event::BlockEventLiveness(
                        MessageBlockEventLiveness {
                            height,
                            is_begin,
                            tendermint_address,
                            missed,
                        },
                    ),
                )
            },
        }
    } else if str_eq(ev.s_type.as_str(), "exchange_rate_update") {
        match get_required_kv(&ev.attributes, "denom") {
            None => None,
            Some(denom) => match get_required_kv(&ev.attributes, "exchange_rate") {
                None => None,
                Some(x) => match parse_amount(x.as_str()) {
                    Some(exchange_rate) => Some(
                        Event::BlockEventExchangeRate(
                            MessageBlockEventExchangeRate { height, denom, exchange_rate },
                        ),
                    ),
                    None => None,
                },
            },
        }
    } else {
        None
    }
}

/// The transaction events of a block, one per transaction, in order.
pub open spec fn tx_events(txs: Seq<TXandResult>) -> Seq<Event> {
    Seq::new(txs.len(), |k: int| Event::Tx(MessageTX { tx: txs[k] }))
}

/// The transactions of a block frame.
pub open spec fn block_txs(block: NewBlock) -> Seq<TXandResult> {
    match block.data.txs {
        Some(t) => t@,
        None => Seq::empty(),
    }
}

/// The end-block lifecycle events of a frame.
pub open spec fn block_end_events(block: NewBlock) -> Seq<NewBlockEvent> {
    match block.data.result_end_block.events {
        Some(e) => e@,
        None => Seq::empty(),
    }
}

/// `r` holds exactly the classified outputs of `evs`, in order: one output
/// per producing event, none repeated, none invented.
pub open spec fn events_post(height: u64, is_begin: bool, evs: Seq<NewBlockEvent>, r: Seq<Event>) -> bool
    decreases evs.len(),
{
    if evs.len() == 0 {
        r.len() == 0
    } else {
        ||| (spec_event_output(height, is_begin, evs[0], None) && events_post(
            height,
            is_begin,
            evs.skip(1),
            r,
        ))
        ||| (r.len() >= 1 && spec_event_output(height, is_begin, evs[0], Some(r[0]))
            && events_post(height, is_begin, evs.skip(1), r.skip(1)))
    }
}

/// `r` holds exactly the domain events of one block frame: one `Tx` event
/// per transaction, then the classified begin-block events, then the
/// classified end-block events.
pub open spec fn process_block_post(block: NewBlock, r: Seq<Event>) -> bool {
    let ntx = block_txs(block).len() as int;
    &&& r.len() >= ntx
    &&& r.take(ntx) == tx_events(block_txs(block))
    &&& exists|m: int|
        #![auto]
        ntx <= m <= r.len() && events_post(
            block.data.height,
            true,
            block.data.result_begin_block.events@,
            r.subrange(ntx, m),
        ) && events_post(block.data.height, false, block_end_events(block), r.subrange(m, r.len() as int))
}

proof fn lemma_events_post_snoc_none(
    height: u64,
    is_begin: bool,
    evs: Seq<NewBlockEvent>,
    r: Seq<Event>,
    ev: NewBlockEvent,
)
    requires
        events_post(height, is_begin, evs, r),
        spec_event_output(height, is_begin, ev, None),
    ensures
        events_post(height, is_begin, evs.push(ev), r),
    decreases evs.len(),
{
    reveal_with_fuel(events_post, 3);
    if evs.len() == 0 {
        assert(evs.push(ev)[0] == ev);
        assert(evs.push(ev).skip(1) =~= Seq::<NewBlockEvent>::empty());
    } else {
        assert(evs.push(ev)[0] == evs[0]);
        assert(evs.push(ev).skip(1) =~= evs.skip(1).push(ev));
        if spec_event_output(height, is_begin, evs[0], None) && events_post(
            height,
            is_begin,
            evs.skip(1),
            r,
        ) {
            lemma_events_post_snoc_none(height, is_begin, evs.skip(1), r, ev);
        } else {
            lemma_events_post_snoc_none(height, is_begin, evs.skip(1), r.skip(1), ev);
        }
    }
}

proof fn lemma_events_post_snoc_some(
    height: u64,
    is_begin: bool,
    evs: Seq<NewBlockEvent>,
    r: Seq<Event>,
    ev: NewBlockEvent,
    e: Event,
)
    requires
        events_post(height, is_begin, evs, r),
        spec_event_output(height, is_begin, ev, Some(e)),
    ensures
        events_post(height, is_begin, evs.push(ev), r.push(e)),
    decreases evs.len(),
{
    reveal_with_fuel(events_post, 3);
    if evs.len() == 0 {
        assert(evs.push(ev)[0] == ev);
        assert(evs.push(ev).skip(1) =~= Seq::<NewBlockEvent>::empty());
        assert(r.push(e)[0] == e);
        assert(r.push(e).skip(1) =~= Seq::<Event>::empty());
    } else {
        assert(evs.push(ev)[0] == evs[0]);
        assert(evs.push(ev).skip(1) =~= evs.skip(1).push(ev));
        if spec_event_output(height, is_begin, evs[0], None) && events_post(
            height,
            is_begin,
            evs.skip(1),
            r,
        ) {
            lemma_events_post_snoc_some(height, is_begin, evs.skip(1), r, ev, e);
        } else {
            lemma_events_post_snoc_some(height, is_begin, evs.skip(1), r.skip(1), ev, e);
            assert(r.push(e)[0] == r[0]);
            assert(r.push(e).skip(1) =~= r.skip(1).push(e));
        }
    }
}

/// Turn one decoded block frame into its domain events: each transaction as
/// a `Tx` event, then every classified begin-block and end-block lifecycle
/// event.  Validator-set updates are observed only.
pub fn process_block_emit(block: NewBlock) -> (r: Vec<Event>)
    ensures
        process_block_post(block, r@),
{
    let ghost b = block;
    let height = block.data.height;
    let mut out: Vec<Event> = Vec::new();
    let NewBlock { chain_id: _, s_type: _, data } = block;
    let begin_events = data.result_begin_block.events;
    let end_events_v: Vec<NewBlockEvent> = match data.result_end_block.events {
        Some(e) => e,
        None => Vec::new(),
    };
    let mut txs_v: Vec<TXandResult> = match data.txs {
        Some(t) => t,
        None => Vec::new(),
    };
    let ghost txs0 = txs_v@;
    let ntx_count: usize = txs_v.len();
    let ghost ntx = ntx_count as int;
    proof {
        assert(txs0 == block_txs(b));
        assert(end_events_v@ == block_end_events(b));
        assert(begin_events@ == b.data.result_begin_block.events@);
        assert(height == b.data.height);
        assert(txs0.skip(0) =~= txs0);
        assert(out@ =~= tx_events(txs0).take(0));
    }
    let mut i: usize = 0;
    while txs_v.len() > 0
        invariant
            0 <= ntx == txs0.len(),
            ntx <= usize::MAX,
            i + txs_v@.len() == ntx,
            txs_v@ == txs0.skip(i as int),
            out@ == tx_events(txs0).take(i as int),
        decreases txs_v@.len(),
    {
        let tx = txs_v.remove(0);
        proof {
            assert(tx == txs0[i as int]);
            assert(txs0.skip(i as int).remove(0) =~= txs0.skip(i as int + 1));
        }
        out.push(Event::Tx(MessageTX { tx }));
        proof {
            assert(out@ =~= tx_events(txs0).take(i as int + 1));
        }
        i = i + 1;
    }
    proof {
        assert(out@ =~= tx_events(txs0));
        assert(out@.take(ntx) =~= tx_events(txs0));
    }
    let mut j: usize = 0;
    while j < begin_events.len()
        invariant
            0 <= ntx == txs0.len(),
            j <= begin_events@.len(),
            out@.len() >= ntx,
            out@.take(ntx) == tx_events(txs0),
            events_post(height, true, begin_events@.take(j as int), out@.subrange(ntx, out@.len() as int)),
        decreases begin_events@.len() - j,
    {
        let ghost out_mid = out@.subrange(ntx, out@.len() as int);
        proof {
            assert(begin_events@.take(j as int + 1) =~= begin_events@.take(j as int).push(
                begin_events@[j as int],
            ));
        }
        match process_event(height, true, &begin_events[j]) {
            None => {
                proof {
                    lemma_events_post_snoc_none(
                        height,
                        true,
                        begin_events@.take(j as int),
                        out_mid,
                        begin_events@[j as int],
                    );
                }
            },
            Some(e) => {
                let ghost ev = e;
                out.push(e);
                proof {
                    lemma_events_post_snoc_some(
                        height,
                        true,
                        begin_events@.take(j as int),
                        out_mid,
                        begin_events@[j as int],
                        ev,
                    );
                    assert(out@.subrange(ntx, out@.len() as int) =~= out_mid.push(ev));
                    assert(out@.take(ntx) =~= tx_events(txs0));
                }
            },
        }
        j = j + 1;
    }
    let ghost m = out@.len() as int;
    let ghost mid = out@.subrange(ntx, m);
    proof {
        assert(begin_events@.take(begin_events@.len() as int) =~= begin_events@);
    }
    let mut k: usize = 0;
    while k < end_events_v.len()
        invariant
            0 <= ntx == txs0.len(),
            k <= end_events_v@.len(),
            out@.len() >= m >= ntx,
            out@.take(ntx) == tx_events(txs0),
            out@.subrange(ntx, m) == mid,
            events_post(height, true, begin_events@, mid),
            events_post(height, false, end_events_v@.take(k as int), out@.subrange(m, out@.len() as int)),
        decreases end_events_v@.len() - k,
    {
        let ghost out_tail = out@.subrange(m, out@.len() as int);
        let ghost out_mid0 = out@.subrange(ntx, m);
        proof {
            assert(end_events_v@.take(k as int + 1) =~= end_events_v@.take(k as int).push(
                end_events_v@[k as int],
            ));
        }
        match process_event(height, false, &end_events_v[k]) {
            None => {
                proof {
                    lemma_events_post_snoc_none(
                        height,
                        false,
                        end_events_v@.take(k as int),
                        out_tail,
                        end_events_v@[k as int],
                    );
                }
            },
            Some(e) => {
                let ghost ev = e;
                out.push(e);
                proof {
                    lemma_events_post_snoc_some(
                        height,
                        false,
                        end_events_v@.take(k as int),
                        out_tail,
                        end_events_v@[k as int],
                        ev,
                    );
                    assert(out@.subrange(m, out@.len() as int) =~= out_tail.push(ev));
                    assert(out@.take(ntx) =~= tx_events(txs0));
                    assert(out@.subrange(ntx, m) =~= out_mid0);
                }
            },
        }
        k = k + 1;
    }
    proof {
        assert(end_events_v@.take(end_events_v@.len() as int) =~= end_events_v@);
        assert(process_block_post(b, out@)) by {
            assert(ntx <= m <= out@.len());
            assert(events_post(
                b.data.height,
                true,
                b.data.result_begin_block.events@,
                out@.subrange(ntx, m),
            ));
            assert(events_post(
                b.data.height,
                false,
                block_end_events(b),
                out@.subrange(m, out@.len() as int),
            ));
        }
    }
    out
}

/// The connection lifecycle of the intake: open the feed, stream frames,
/// and after any failure sleep one fixed backoff interval before retrying,
/// forever.
#[derive(Clone, Copy, PartialEq, Eq, Structural, Debug)]
pub enum IntakeState {
    Connecting,
    Streaming,
    Backoff,
}

/// What the connection owner reports to the state machine.
#[derive(Debug)]
pub enum IntakeInput {
    /// The feed opened.
    ConnectOk,
    /// The feed could not be opened.
    ConnectFailed,
    /// A text frame that decoded into a new block.
    Frame(NewBlock),
    /// A text frame that failed to decode: logged and skipped.
    MalformedFrame,
    /// A binary frame: ignored.
    Binary,
    /// A protocol ping: answered immediately.
    Ping,
    /// A protocol pong: ignored.
    Pong,
    /// The peer closed the connection.
    Close,
    /// A transport error, including a failed send.
    TransportError,
    /// The stream ended.
    StreamEnded,
    /// The backoff interval elapsed.
    BackoffElapsed,
}

/// What the connection owner must do after a step.
#[derive(Clone, Copy, PartialEq, Eq, Structural, Debug)]
pub enum IntakeAction {
    /// Send the one-time subscribe control message.
    SendSubscribe,
    /// Answer a ping with a pong.
    SendPong,
    /// Sleep the fixed backoff interval, then report `BackoffElapsed`.
    SleepBackoff,
}

/// The outcome of one step: the next state, the actions to perform, and the
/// domain events to publish.
pub struct IntakeStep {
    pub state: IntakeState,
    pub actions: Vec<IntakeAction>,
    pub events: Vec<Event>,
}

/// The state reached after one input.
pub open spec fn spec_transition(s: IntakeState, input: IntakeInput) -> IntakeState {
    match s {
        IntakeState::Connecting => match input {
            IntakeInput::ConnectOk => IntakeState::Streaming,
            IntakeInput::ConnectFailed => IntakeState::Backoff,
            _ => IntakeState::Connecting,
        },
        IntakeState::Streaming => match input {
            IntakeInput::Close => IntakeState::Backoff,
            IntakeInput::TransportError => IntakeState::Backoff,
            IntakeInput::StreamEnded => IntakeState::Backoff,
            _ => IntakeState::Streaming,
        },
        IntakeState::Backoff => match input {
            IntakeInput::BackoffElapsed => IntakeState::Connecting,
            _ => IntakeState::Backoff,
        },
    }
}

/// The actions owed after one input.
pub open spec fn spec_step_actions(s: IntakeState, input: IntakeInput) -> Seq<IntakeAction> {
    match s {
        IntakeState::Connecting => match input {
            IntakeInput::ConnectOk => seq![IntakeAction::SendSubscribe],
            IntakeInput::ConnectFailed => seq![IntakeAction::SleepBackoff],
            _ => Seq::empty(),
        },
        IntakeState::Streaming => match input {
            IntakeInput::Ping => seq![IntakeAction::SendPong],
            IntakeInput::Close => seq![IntakeAction::SleepBackoff],
            IntakeInput::TransportError => seq![IntakeAction::SleepBackoff],
            IntakeInput::StreamEnded => seq![IntakeAction::SleepBackoff],
            _ => Seq::empty(),
        },
        IntakeState::Backoff => Seq::empty(),
    }
}

/// Advance the intake by one input.
///
/// The next state and actions follow [`spec_transition`] and
/// [`spec_step_actions`]; a block frame received while streaming publishes
/// exactly its domain events (see [`process_block_post`]), and nothing else
/// ever publishes.
pub fn step(state: IntakeState, input: IntakeInput) -> (r: IntakeStep)
    ensures
        r.state == spec_transition(state, input),
        r.actions@ == spec_step_actions(state, input),
        state is Streaming ==> (input matches IntakeInput::Frame(b) ==> process_block_post(
            b,
            r.events@,
        )),
        !(state is Streaming && input is Frame) ==> r.events@.len() == 0,
{
    let no_events: Vec<Event> = Vec::new();
    match state {
        IntakeState::Connecting => {
            let mut actions: Vec<IntakeAction> = Vec::new();
            match input {
                IntakeInput::ConnectOk => {
                    actions.push(IntakeAction::SendSubscribe);
                    proof {
                        assert(actions@ =~= seq![IntakeAction::SendSubscribe]);
                    }
                    IntakeStep { state: IntakeState::Streaming, actions, events: no_events }
                },
                IntakeInput::ConnectFailed => {
                    actions.push(IntakeAction::SleepBackoff);
                    proof {
                        assert(actions@ =~= seq![IntakeAction::SleepBackoff]);
                    }
                    IntakeStep { state: IntakeState::Backoff, actions, events: no_events }
                },
                _ => IntakeStep { state: IntakeState::Connecting, actions, events: no_events },
            }
        },
        IntakeState::Streaming => {
            let mut actions: Vec<IntakeAction> = Vec::new();
            match input {
                IntakeInput::Frame(b) => {
                    let events = process_block_emit(b);
                    IntakeStep { state: IntakeState::Streaming, actions, events }
                },
                IntakeInput::Ping => {
                    actions.push(IntakeAction::SendPong);
                    proof {
                        assert(actions@ =~= seq![IntakeAction::SendPong]);
                    }
                    IntakeStep { state: IntakeState::Streaming, actions, events: no_events }
                },
                IntakeInput::Close => {
                    actions.push(IntakeAction::SleepBackoff);
                    proof {
                        assert(actions@ =~= seq![IntakeAction::SleepBackoff]);
                    }
                    IntakeStep { state: IntakeState::Backoff, actions, events: no_events }
                },
                IntakeInput::TransportError => {
                    actions.push(IntakeAction::SleepBackoff);
                    proof {
                        assert(actions@ =~= seq![IntakeAction::SleepBackoff]);
                    }
                    IntakeStep { state: IntakeState::Backoff, actions, events: no_events }
                },
                IntakeInput::StreamEnded => {
                    actions.push(IntakeAction::SleepBackoff);
                    proof {
                        assert(actions@ =~= seq![IntakeAction::SleepBackoff]);
                    }
                    IntakeStep { state: IntakeState::Backoff, actions, events: no_events }
                },
                _ => IntakeStep { state: IntakeState::Streaming, actions, events: no_events },
            }
        },
        IntakeState::Backoff => {
            let actions: Vec<IntakeAction> = Vec::new();
            match input {
                IntakeInput::BackoffElapsed => IntakeStep {
                    state: IntakeState::Connecting,
                    actions,
                    events: no_events,
                },
                _ => IntakeStep { state: IntakeState::Backoff, actions, events: no_events },
            }
        },
    }
}

/// Reconnect policy: a disconnect while streaming enters `Backoff` and owes
/// one backoff sleep; when the interval elapses the intake re-enters
/// `Connecting`, and the next successful connect resumes `Streaming`, so
/// frames publish again after one backoff interval.  Each frame's events
/// are produced once, by the frame's own step alone.
pub proof fn lemma_reconnect_cycle(disconnect: IntakeInput)
    requires
        disconnect is Close || disconnect is TransportError || disconnect is StreamEnded,
    ensures
        spec_transition(IntakeState::Streaming, disconnect) == IntakeState::Backoff,
        spec_step_actions(IntakeState::Streaming, disconnect) == seq![IntakeAction::SleepBackoff],
        spec_transition(IntakeState::Backoff, IntakeInput::BackoffElapsed)
            == IntakeState::Connecting,
        spec_transition(IntakeState::Connecting, IntakeInput::ConnectOk) == IntakeState::Streaming,
{
}

} // verus!
