//! The decoded shape of one "new block" frame from the upstream feed, and
//! the validator descriptors fetched from the registry.
//!
//! The transport (socket handling, JSON and base64 decoding) lives outside
//! the library; these types carry the decoded plain values the logic reads.

use vstd::prelude::*;
use crate::coins::Coin;

verus! {

/// One frame announcing a new block.
#[derive(Debug)]
pub struct NewBlock {
    pub chain_id: String,
    pub s_type: String,
    pub data: NewBlockData,
}

/// The payload of a new-block frame.
#[derive(Debug)]
pub struct NewBlockData {
    /// Height from the block header.
    pub height: u64,
    pub result_begin_block: NewBlockBeginBlock,
    pub result_end_block: NewBlockEndBlock,
    pub txs: Option<Vec<TXandResult>>,
}

/// One transaction with its result metadata.
#[derive(Debug)]
pub struct TXandResult {
    pub height: u64,
    pub txhash: String,
    pub raw_log: String,
    pub gas_wanted: u64,
    pub gas_used: u64,
    pub tx: TxOuter,
}

/// The typed transaction envelope.
#[derive(Debug)]
pub struct TxOuter {
    pub s_type: String,
    pub value: BlockTransaction,
}

/// The body of a transaction envelope.
#[derive(Debug)]
pub struct BlockTransaction {
    pub msg: Vec<BlockMsg>,
    pub fee: Fee,
    pub signatures: Vec<TransactionSignature>,
    pub memo: String,
}

/// One message inside a transaction body: a type tag and its decoded value.
#[derive(Debug)]
pub struct BlockMsg {
    pub s_type: String,
    pub value: MsgValue,
}

/// The decoded value of a transaction message.  Only the aggregate
/// exchange-rate vote is read by the monitor; every other message, and a
/// vote whose payload failed to decode, is carried opaquely.
#[derive(Debug)]
pub enum MsgValue {
    /// An oracle aggregate exchange-rate vote.
    ExchangeRateVote(VoteMsg),
    /// Any other (or undecodable) message value.
    Opaque,
}

/// The payload of an aggregate exchange-rate vote.
#[derive(Debug)]
pub struct VoteMsg {
    /// Quantity string listing one price per denomination.
    pub exchange_rates: String,
    pub feeder: String,
    pub salt: String,
    pub validator: String,
}

/// The fee of a transaction.
#[derive(Debug)]
pub struct Fee {
    pub amount: Vec<Coin>,
    pub gas: u64,
}

/// One signature on a transaction.
#[derive(Debug)]
pub struct TransactionSignature {
    pub pub_key: TransactionSignaturePubKey,
    pub signature: String,
}

/// The public key attached to a transaction signature.
#[derive(Debug)]
pub struct TransactionSignaturePubKey {
    pub s_type: String,
    pub value: String,
}

/// The begin-block lifecycle events of a block.
#[derive(Debug)]
pub struct NewBlockBeginBlock {
    pub events: Vec<NewBlockEvent>,
}

/// One lifecycle event: a type tag and a key/value attribute list.
#[derive(Debug)]
pub struct NewBlockEvent {
    pub s_type: String,
    pub attributes: Vec<NewBlockAttributes>,
}

/// One event attribute; values are already transport-decoded.
#[derive(Debug)]
pub struct NewBlockAttributes {
    pub key: String,
    pub value: Option<String>,
}

/// The end-block lifecycle events and validator-set updates of a block.
#[derive(Debug)]
pub struct NewBlockEndBlock {
    pub validator_updates: Vec<NewBlockValidatorUpdate>,
    pub events: Option<Vec<NewBlockEvent>>,
}

/// A consensus public key.
#[derive(Debug)]
pub struct PubKey {
    pub s_type: String,
    pub data: String,
}

/// One entry of the end-block validator-set update.
#[derive(Debug)]
pub struct NewBlockValidatorUpdate {
    pub pub_key: PubKey,
    pub power: u64,
}

/// A validator descriptor from the staking registry.
#[derive(Debug)]
pub struct ValidatorInfo {
    pub operator_address: String,
    pub consensus_pubkey: String,
    pub moniker: String,
    /// Staked tokens, in whole tokens.
    pub tokens: u64,
}

impl Clone for ValidatorInfo {
    /// A clone carries the same descriptor.
    fn clone(&self) -> (r: Self)
        ensures
            r == *self,
    {
        ValidatorInfo {
            operator_address: self.operator_address.clone(),
            consensus_pubkey: self.consensus_pubkey.clone(),
            moniker: self.moniker.clone(),
            tokens: self.tokens,
        }
    }
}

/// A validator from the consensus (tendermint) validator set.
#[derive(Debug)]
pub struct TendermintValidatorInfo {
    pub address: String,
    pub pub_key: String,
}

impl Clone for TendermintValidatorInfo {
    /// A clone carries the same descriptor.
    fn clone(&self) -> (r: Self)
        ensures
            r == *self,
    {
        TendermintValidatorInfo { address: self.address.clone(), pub_key: self.pub_key.clone() }
    }
}

} // verus!
