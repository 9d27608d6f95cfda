//! The typed domain events flowing through the event bus.

use vstd::prelude::*;
use crate::coins::Coin;
use crate::types::{TXandResult, TendermintValidatorInfo, ValidatorInfo};

verus! {

/// A transaction extracted from a block.
#[derive(Debug)]
pub struct MessageTX {
    pub tx: TXandResult,
}

/// A rewards or proposer-reward lifecycle event.
#[derive(Debug)]
pub struct MessageBlockEventReward {
    pub height: u64,
    pub is_begin: bool,
    pub is_proposer: bool,
    pub validator: String,
    pub amount: Vec<Coin>,
}

/// A commission lifecycle event.
#[derive(Debug)]
pub struct MessageBlockEventCommission {
    pub height: u64,
    pub is_begin: bool,
    pub validator: String,
    pub amount: Vec<Coin>,
}

/// A liveness lifecycle event: a consensus address missed blocks.
#[derive(Debug)]
pub struct MessageBlockEventLiveness {
    pub height: u64,
    pub is_begin: bool,
    pub tendermint_address: String,
    pub missed: u64,
}

/// An exchange-rate update for one denomination, in millionths of the
/// native unit.
#[derive(Debug)]
pub struct MessageBlockEventExchangeRate {
    pub height: u64,
    pub denom: String,
    pub exchange_rate: u64,
}

/// A validator's vote drifted too far from the cross-validator average.
/// Amounts are in millionths.
#[derive(Debug)]
pub struct MessagePriceDrift {
    pub height: u64,
    pub operator_address: String,
    pub denom: String,
    pub average: u64,
    pub weighted_average: u64,
    pub submitted: u64,
    pub txhash: String,
}

/// A validator abstained (submitted a negligible amount) for one
/// denomination.
#[derive(Debug)]
pub struct MessagePriceAbstain {
    pub height: u64,
    pub operator_address: String,
    pub denom: String,
    pub txhash: String,
}

/// The staked-token total of a validator after a refresh.
#[derive(Debug)]
pub struct MessageValidatorStakedTotal {
    pub height: u64,
    pub operator_address: String,
    pub tokens: u64,
}

/// A change in a validator's staked tokens.
#[derive(Debug)]
pub struct MessageValidatorStakedDelta {
    pub height: u64,
    pub operator_address: String,
    pub token_delta: i64,
}

/// A refreshed validator descriptor from the registry.
#[derive(Debug)]
pub struct MessageValidator {
    pub height: u64,
    pub operator_address: String,
    pub validator: ValidatorInfo,
    pub tendermint: Option<TendermintValidatorInfo>,
}

/// Severity and routing class of a validator event.
#[derive(Clone, Copy, PartialEq, Eq, Structural, Debug)]
pub enum ValidatorEventType {
    TRACE,
    DEBUG,
    INFO,
    WARN,
    ERROR,
    CRITICAL,
    ANNOUNCE,
    PRIVATE,
}

/// An alert about one validator.
#[derive(Debug)]
pub struct MessageValidatorEvent {
    pub height: u64,
    pub operator_address: String,
    pub moniker: Option<String>,
    pub event_type: ValidatorEventType,
    pub message: String,
    pub hash: Option<String>,
}

/// A summary message addressed to the notification channel.
#[derive(Debug)]
pub struct MessageSendMessageEvent {
    pub height: u64,
    pub event_type: ValidatorEventType,
    pub message: String,
    pub hash: Option<String>,
}

/// The stop broadcast sent on shutdown.
#[derive(Debug)]
pub struct MessageStop {}

/// The periodic tick; times are epoch seconds.
#[derive(Debug)]
pub struct MessageTick {
    pub duration_secs: u64,
    pub now: u64,
}

/// Every event the bus can carry.
#[derive(Debug)]
pub enum Event {
    Tx(MessageTX),
    BlockEventReward(MessageBlockEventReward),
    BlockEventCommission(MessageBlockEventCommission),
    BlockEventLiveness(MessageBlockEventLiveness),
    BlockEventExchangeRate(MessageBlockEventExchangeRate),
    PriceDrift(MessagePriceDrift),
    PriceAbstain(MessagePriceAbstain),
    ValidatorStakedTotal(MessageValidatorStakedTotal),
    ValidatorStakedDelta(MessageValidatorStakedDelta),
    ValidatorRefreshed(MessageValidator),
    ValidatorAlert(MessageValidatorEvent),
    SendMessage(MessageSendMessageEvent),
    Stop(MessageStop),
    Tick(MessageTick),
}

/// The exact type of an event, the key the bus dispatches on.
#[derive(Clone, Copy, PartialEq, Eq, Structural, Debug)]
pub enum EventKind {
    Tx,
    BlockEventReward,
    BlockEventCommission,
    BlockEventLiveness,
    BlockEventExchangeRate,
    PriceDrift,
    PriceAbstain,
    ValidatorStakedTotal,
    ValidatorStakedDelta,
    ValidatorRefreshed,
    ValidatorAlert,
    SendMessage,
    Stop,
    Tick,
}

impl Event {
    /// The kind of this event.
    pub open spec fn spec_kind(&self) -> EventKind {
        match self {
            Event::Tx(_) => EventKind::Tx,
            Event::BlockEventReward(_) => EventKind::BlockEventReward,
            Event::BlockEventCommission(_) => EventKind::BlockEventCommission,
            Event::BlockEventLiveness(_) => EventKind::BlockEventLiveness,
            Event::BlockEventExchangeRate(_) => EventKind::BlockEventExchangeRate,
            Event::PriceDrift(_) => EventKind::PriceDrift,
            Event::PriceAbstain(_) => EventKind::PriceAbstain,
            Event::ValidatorStakedTotal(_) => EventKind::ValidatorStakedTotal,
            Event::ValidatorStakedDelta(_) => EventKind::ValidatorStakedDelta,
            Event::ValidatorRefreshed(_) => EventKind::ValidatorRefreshed,
            Event::ValidatorAlert(_) => EventKind::ValidatorAlert,
            Event::SendMessage(_) => EventKind::SendMessage,
            Event::Stop(_) => EventKind::Stop,
            Event::Tick(_) => EventKind::Tick,
        }
    }

    /// The kind of this event.
    #[verifier::when_used_as_spec(spec_kind)]
    pub fn kind(&self) -> (k: EventKind)
        ensures
            k == self.spec_kind(),
    {
        match self {
            Event::Tx(_) => EventKind::Tx,
            Event::BlockEventReward(_) => EventKind::BlockEventReward,
            Event::BlockEventCommission(_) => EventKind::BlockEventCommission,
            Event::BlockEventLiveness(_) => EventKind::BlockEventLiveness,
            Event::BlockEventExchangeRate(_) => EventKind::BlockEventExchangeRate,
            Event::PriceDrift(_) => EventKind::PriceDrift,
            Event::PriceAbstain(_) => EventKind::PriceAbstain,
            Event::ValidatorStakedTotal(_) => EventKind::ValidatorStakedTotal,
            Event::ValidatorStakedDelta(_) => EventKind::ValidatorStakedDelta,
            Event::ValidatorRefreshed(_) => EventKind::ValidatorRefreshed,
            Event::ValidatorAlert(_) => EventKind::ValidatorAlert,
            Event::SendMessage(_) => EventKind::SendMessage,
            Event::Stop(_) => EventKind::Stop,
            Event::Tick(_) => EventKind::Tick,
        }
    }
}

} // verus!
