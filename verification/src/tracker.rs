//! The validator state tracker.
//!
//! One health record per validator operator identity, built from a one-time
//! merge of the staking registry and the consensus validator set (matched by
//! consensus public key) and updated in place on every refresh, price-alert,
//! liveness and reward event.  Records are never deleted.  Reward rates are
//! accumulated per tick interval and rolled into a cumulative bucket on an
//! hour boundary, when over- and under-performers relative to the
//! cross-validator mean are reported.

use vstd::prelude::*;
use vstd::string::StringExecFns;
use crate::coins::Coin;
use crate::keymap::{
    find_key, key_idx, keys_unique, lemma_key_idx_props, map_has, map_val, upsert, upserted,
};
use crate::messages::{
    MessageSendMessageEvent, MessageTick,
    Event, MessageBlockEventExchangeRate, MessageBlockEventLiveness, MessageBlockEventReward,
    MessagePriceAbstain, MessagePriceDrift, MessageValidator, MessageValidatorEvent,
    MessageValidatorStakedTotal, ValidatorEventType,
};
use crate::text::{dec_str, u64_to_string};
use crate::types::{TendermintValidatorInfo, ValidatorInfo};

verus! {

/// Every 10th abstention raises an informational alert.
pub const ABSTAIN_ALERT_EVERY: u64 = 10;

/// One validator's health record.
#[derive(Debug)]
pub struct ValidatorDetails {
    /// The raw on-chain validator descriptor.
    pub validator: ValidatorInfo,
    /// Linked consensus (tendermint) address, when the consensus public key
    /// matched.
    pub tendermint_account: Option<String>,
    /// Wall time first seen, in epoch seconds.
    pub first_seen_date: u64,
    /// Wall time last updated, in epoch seconds.
    pub last_updated_date: u64,
    pub first_seen_block: u64,
    pub last_updated_block: u64,
    pub abstains: u64,
    pub drifts: u64,
}

/// The merged registry: records plus the lookup indices.
pub struct MergedValidatorLists {
    /// Operator address to record.
    pub validator_details: Vec<(String, ValidatorDetails)>,
    /// Moniker to operator address.
    pub monikers: Vec<(String, String)>,
    /// Consensus public key to operator address.
    pub cons_pub: Vec<(String, String)>,
    /// Consensus (tendermint) account to operator address.
    pub cons: Vec<(String, String)>,
}

/// The validator state-tracking actor.
pub struct ValidatorActor {
    pub last_height: u64,
    /// Last tick time, in epoch seconds.
    pub last_tick: Option<u64>,
    /// Operator address to health record.
    pub validators: Vec<(String, ValidatorDetails)>,
    /// Moniker to operator address.
    pub moniker: Vec<(String, String)>,
    /// Consensus public key to operator address.
    pub cons_pub: Vec<(String, String)>,
    /// Consensus (tendermint) account to operator address.
    pub cons: Vec<(String, String)>,
    /// Operator address to reward accumulated this tick interval, in
    /// millionths of the native unit.
    pub rewards: Vec<(String, u64)>,
    /// Operator address to reward accumulated this hour bucket.
    pub rewards_cumulative: Vec<(String, u64)>,
    /// Denomination to native exchange rate, in millionths.
    pub rates: Vec<(String, u64)>,
}

impl ValidatorActor {
    /// Every map of the tracker keeps its keys unique.
    pub open spec fn wf(&self) -> bool {
        &&& keys_unique(self.validators@)
        &&& keys_unique(self.moniker@)
        &&& keys_unique(self.cons_pub@)
        &&& keys_unique(self.cons@)
        &&& keys_unique(self.rewards@)
        &&& keys_unique(self.rewards_cumulative@)
        &&& keys_unique(self.rates@)
    }
}

/// The consensus-pubkey index after the first `i` registry entries.
pub open spec fn cons_pub_upto(l: Seq<ValidatorInfo>, i: int) -> Seq<(String, String)>
    decreases i,
{
    if i <= 0 {
        Seq::empty()
    } else {
        upserted(cons_pub_upto(l, i - 1), l[i - 1].consensus_pubkey, l[i - 1].operator_address)
    }
}

/// The pubkey-to-consensus-address index after the first `i` consensus-set
/// entries.
pub open spec fn tm_addr_upto(l: Seq<TendermintValidatorInfo>, i: int) -> Seq<(String, String)>
    decreases i,
{
    if i <= 0 {
        Seq::empty()
    } else {
        upserted(tm_addr_upto(l, i - 1), l[i - 1].pub_key, l[i - 1].address)
    }
}

/// The consensus-account index after the first `i` consensus-set entries:
/// only keys matching some registry pubkey are linked.
pub open spec fn cons_upto(
    l: Seq<TendermintValidatorInfo>,
    i: int,
    cons_pub: Seq<(String, String)>,
) -> Seq<(String, String)>
    decreases i,
{
    if i <= 0 {
        Seq::empty()
    } else {
        let m = cons_upto(l, i - 1, cons_pub);
        if map_has(cons_pub, l[i - 1].pub_key@) {
            upserted(m, l[i - 1].address, map_val(cons_pub, l[i - 1].pub_key@))
        } else {
            m
        }
    }
}

/// A fresh record for a registry entry: linked to its consensus address
/// when the public key matches, seen now.
pub open spec fn fresh_details(
    v: ValidatorInfo,
    tm_addr: Seq<(String, String)>,
    height: u64,
    now: u64,
) -> ValidatorDetails {
    ValidatorDetails {
        validator: v,
        tendermint_account: if map_has(tm_addr, v.consensus_pubkey@) {
            Some(map_val(tm_addr, v.consensus_pubkey@))
        } else {
            None
        },
        first_seen_date: now,
        last_updated_date: now,
        first_seen_block: height,
        last_updated_block: height,
        abstains: 0,
        drifts: 0,
    }
}

/// The record map after the first `i` registry entries.
pub open spec fn validators_upto(
    l: Seq<ValidatorInfo>,
    i: int,
    tm_addr: Seq<(String, String)>,
    height: u64,
    now: u64,
) -> Seq<(String, ValidatorDetails)>
    decreases i,
{
    if i <= 0 {
        Seq::empty()
    } else {
        upserted(
            validators_upto(l, i - 1, tm_addr, height, now),
            l[i - 1].operator_address,
            fresh_details(l[i - 1], tm_addr, height, now),
        )
    }
}

/// The moniker index after the first `i` registry entries.
pub open spec fn monikers_upto(l: Seq<ValidatorInfo>, i: int) -> Seq<(String, String)>
    decreases i,
{
    if i <= 0 {
        Seq::empty()
    } else {
        upserted(monikers_upto(l, i - 1), l[i - 1].moniker, l[i - 1].operator_address)
    }
}

/// One staked-total event per registry entry, in order.
pub open spec fn staked_total_events(l: Seq<ValidatorInfo>, height: u64) -> Seq<Event> {
    Seq::new(
        l.len(),
        |k: int|
            Event::ValidatorStakedTotal(
                MessageValidatorStakedTotal {
                    height,
                    operator_address: l[k].operator_address,
                    tokens: l[k].tokens,
                },
            ),
    )
}

/// Merge the staking registry and the consensus validator set into the
/// tracker's maps, matching by consensus public key; a validator absent
/// from the consensus set is kept with no consensus linkage.  Also returns
/// one staked-total event per registry entry.
pub fn from_validator_list(
    height: u64,
    now: u64,
    validator_list: Vec<ValidatorInfo>,
    tendermint_list: Vec<TendermintValidatorInfo>,
) -> (r: (MergedValidatorLists, Vec<Event>))
    ensures
        r.0.validator_details@ == validators_upto(
            validator_list@,
            validator_list@.len() as int,
            tm_addr_upto(tendermint_list@, tendermint_list@.len() as int),
            height,
            now,
        ),
        r.0.monikers@ == monikers_upto(validator_list@, validator_list@.len() as int),
        r.0.cons_pub@ == cons_pub_upto(validator_list@, validator_list@.len() as int),
        r.0.cons@ == cons_upto(
            tendermint_list@,
            tendermint_list@.len() as int,
            cons_pub_upto(validator_list@, validator_list@.len() as int),
        ),
        r.1@ == staked_total_events(validator_list@, height),
        keys_unique(r.0.validator_details@),
        keys_unique(r.0.monikers@),
        keys_unique(r.0.cons_pub@),
        keys_unique(r.0.cons@),
{
    let ghost vl = validator_list@;
    let ghost tl = tendermint_list@;
    let mut cons_pub: Vec<(String, String)> = Vec::new();
    let mut i: usize = 0;
    while i < validator_list.len()
        invariant
            i <= vl.len(),
            vl == validator_list@,
            cons_pub@ == cons_pub_upto(vl, i as int),
            keys_unique(cons_pub@),
        decreases vl.len() - i,
    {
        upsert(
            &mut cons_pub,
            validator_list[i].consensus_pubkey.clone(),
            validator_list[i].operator_address.clone(),
        );
        i = i + 1;
    }
    let mut tm_addr: Vec<(String, String)> = Vec::new();
    let mut j: usize = 0;
    while j < tendermint_list.len()
        invariant
            j <= tl.len(),
            tl == tendermint_list@,
            tm_addr@ == tm_addr_upto(tl, j as int),
            keys_unique(tm_addr@),
        decreases tl.len() - j,
    {
        upsert(
            &mut tm_addr,
            tendermint_list[j].pub_key.clone(),
            tendermint_list[j].address.clone(),
        );
        j = j + 1;
    }
    let ghost cpv = cons_pub@;
    let mut cons: Vec<(String, String)> = Vec::new();
    let mut j2: usize = 0;
    while j2 < tendermint_list.len()
        invariant
            j2 <= tl.len(),
            tl == tendermint_list@,
            cpv == cons_pub@,
            cons_pub@.len() >= 0,
            cons@ == cons_upto(tl, j2 as int, cpv),
            keys_unique(cons@),
            keys_unique(cons_pub@),
        decreases tl.len() - j2,
    {
        match find_key(&cons_pub, tendermint_list[j2].pub_key.as_str()) {
            Some(k) => {
                proof {
                    lemma_key_idx_props(cpv, tl[j2 as int].pub_key@);
                }
                upsert(&mut cons, tendermint_list[j2].address.clone(), cons_pub[k].1.clone());
            },
            None => {
                proof {
                    assert(!map_has(cpv, tl[j2 as int].pub_key@));
                }
            },
        }
        j2 = j2 + 1;
    }
    let ghost tmv = tm_addr@;
    let mut validators: Vec<(String, ValidatorDetails)> = Vec::new();
    let mut monikers: Vec<(String, String)> = Vec::new();
    let mut events: Vec<Event> = Vec::new();
    let mut i2: usize = 0;
    while i2 < validator_list.len()
        invariant
            i2 <= vl.len(),
            vl == validator_list@,
            tmv == tm_addr@,
            validators@ == validators_upto(vl, i2 as int, tmv, height, now),
            monikers@ == monikers_upto(vl, i2 as int),
            events@ == staked_total_events(vl, height).take(i2 as int),
            keys_unique(validators@),
            keys_unique(monikers@),
            keys_unique(tm_addr@),
        decreases vl.len() - i2,
    {
        let v = &validator_list[i2];
        let tendermint_account: Option<String> = match find_key(&tm_addr, v.consensus_pubkey.as_str(
        )) {
            Some(k) => {
                proof {
                    lemma_key_idx_props(tmv, vl[i2 as int].consensus_pubkey@);
                }
                Some(tm_addr[k].1.clone())
            },
            None => None,
        };
        let details = ValidatorDetails {
            validator: v.clone(),
            tendermint_account,
            first_seen_date: now,
            last_updated_date: now,
            first_seen_block: height,
            last_updated_block: height,
            abstains: 0,
            drifts: 0,
        };
        proof {
            assert(details == fresh_details(vl[i2 as int], tmv, height, now));
        }
        upsert(&mut validators, v.operator_address.clone(), details);
        upsert(&mut monikers, v.moniker.clone(), v.operator_address.clone());
        let ghost prev = events@;
        events.push(
            Event::ValidatorStakedTotal(
                MessageValidatorStakedTotal {
                    height,
                    operator_address: v.operator_address.clone(),
                    tokens: v.tokens,
                },
            ),
        );
        proof {
            assert(events@ =~= staked_total_events(vl, height).take(i2 as int + 1));
        }
        i2 = i2 + 1;
    }
    proof {
        assert(staked_total_events(vl, height).take(vl.len() as int) =~= staked_total_events(
            vl,
            height,
        ));
    }
    (MergedValidatorLists { validator_details: validators, monikers, cons_pub, cons }, events)
}

/// Build the tracker from the one-time merge of the two validator sources.
pub fn create(
    height: u64,
    now: u64,
    validator_list: Vec<ValidatorInfo>,
    tendermint_list: Vec<TendermintValidatorInfo>,
) -> (r: (ValidatorActor, Vec<Event>))
    ensures
        r.0.wf(),
        r.0.last_height == 0,
        r.0.last_tick is None,
        r.0.validators@ == validators_upto(
            validator_list@,
            validator_list@.len() as int,
            tm_addr_upto(tendermint_list@, tendermint_list@.len() as int),
            height,
            now,
        ),
        r.0.cons@ == cons_upto(
            tendermint_list@,
            tendermint_list@.len() as int,
            cons_pub_upto(validator_list@, validator_list@.len() as int),
        ),
        r.0.rewards@.len() == 0,
        r.0.rewards_cumulative@.len() == 0,
        r.0.rates@.len() == 0,
        r.1@ == staked_total_events(validator_list@, height),
{
    let (merged, events) = from_validator_list(height, now, validator_list, tendermint_list);
    (
        ValidatorActor {
            last_height: 0,
            last_tick: None,
            validators: merged.validator_details,
            moniker: merged.monikers,
            cons_pub: merged.cons_pub,
            cons: merged.cons,
            rewards: Vec::new(),
            rewards_cumulative: Vec::new(),
            rates: Vec::new(),
        },
        events,
    )
}

/// A record after a refresh: the descriptor, consensus link and update
/// stamps are superseded; `first_seen_block`, `first_seen_date` and the
/// counters are preserved.
pub open spec fn refreshed_details(
    old: ValidatorDetails,
    validator: ValidatorInfo,
    tendermint: Option<TendermintValidatorInfo>,
    height: u64,
    now: u64,
) -> ValidatorDetails {
    ValidatorDetails {
        validator,
        tendermint_account: match tendermint {
            Some(t) => Some(t.address),
            None => None,
        },
        first_seen_date: old.first_seen_date,
        last_updated_date: now,
        first_seen_block: old.first_seen_block,
        last_updated_block: height,
        abstains: old.abstains,
        drifts: old.drifts,
    }
}

/// A record created by a refresh of an unseen operator.
pub open spec fn created_details(
    validator: ValidatorInfo,
    tendermint: Option<TendermintValidatorInfo>,
    height: u64,
    now: u64,
) -> ValidatorDetails {
    ValidatorDetails {
        validator,
        tendermint_account: match tendermint {
            Some(t) => Some(t.address),
            None => None,
        },
        first_seen_date: now,
        last_updated_date: now,
        first_seen_block: height,
        last_updated_block: height,
        abstains: 0,
        drifts: 0,
    }
}

impl ValidatorActor {
    /// Handle a validator refresh: upsert the operator's record (created if
    /// unseen, else superseding the mutable fields while preserving the
    /// first-seen stamps), and publish the staked-token total.
    pub fn handle_validator(&mut self, msg: MessageValidator, now: u64) -> (r: Vec<Event>)
        requires
            old(self).wf(),
        ensures
            final(self).wf(),
            final(self).last_height == msg.height,
            final(self).validators@ == upserted(
                old(self).validators@,
                msg.operator_address,
                if map_has(old(self).validators@, msg.operator_address@) {
                    refreshed_details(
                        map_val(old(self).validators@, msg.operator_address@),
                        msg.validator,
                        msg.tendermint,
                        msg.height,
                        now,
                    )
                } else {
                    created_details(msg.validator, msg.tendermint, msg.height, now)
                },
            ),
            final(self).moniker@ == old(self).moniker@,
            final(self).cons_pub@ == old(self).cons_pub@,
            final(self).cons@ == old(self).cons@,
            final(self).rewards@ == old(self).rewards@,
            final(self).rewards_cumulative@ == old(self).rewards_cumulative@,
            final(self).rates@ == old(self).rates@,
            final(self).last_tick == old(self).last_tick,
            r@.len() == 1,
            r@[0] == Event::ValidatorStakedTotal(
                MessageValidatorStakedTotal {
                    height: msg.height,
                    operator_address: msg.operator_address,
                    tokens: msg.validator.tokens,
                },
            ),
    {
        let height = msg.height;
        self.last_height = height;
        let ghost m0 = self.validators@;
        let tendermint_account: Option<String> = match &msg.tendermint {
            Some(t) => Some(t.address.clone()),
            None => None,
        };
        let details = match find_key(&self.validators, msg.operator_address.as_str()) {
            Some(i) => {
                proof {
                    lemma_key_idx_props(m0, msg.operator_address@);
                }
                let old_details = &self.validators[i].1;
                ValidatorDetails {
                    validator: msg.validator.clone(),
                    tendermint_account,
                    first_seen_date: old_details.first_seen_date,
                    last_updated_date: now,
                    first_seen_block: old_details.first_seen_block,
                    last_updated_block: height,
                    abstains: old_details.abstains,
                    drifts: old_details.drifts,
                }
            },
            None => ValidatorDetails {
                validator: msg.validator.clone(),
                tendermint_account,
                first_seen_date: now,
                last_updated_date: now,
                first_seen_block: height,
                last_updated_block: height,
                abstains: 0,
                drifts: 0,
            },
        };
        let staked = Event::ValidatorStakedTotal(
            MessageValidatorStakedTotal {
                height,
                operator_address: msg.operator_address.clone(),
                tokens: msg.validator.tokens,
            },
        );
        upsert(&mut self.validators, msg.operator_address, details);
        let mut r: Vec<Event> = Vec::new();
        r.push(staked);
        r
    }
}

/// Two refreshes of one operator never create two records: the second
/// upsert leaves the record count unchanged and strictly supersedes the
/// first record's mutable fields, while `first_seen_block` and
/// `first_seen_date` are those of the existing record.
pub proof fn lemma_validator_upsert_once(
    m: Seq<(String, ValidatorDetails)>,
    key1: String,
    v1: ValidatorDetails,
    key2: String,
    validator: ValidatorInfo,
    tendermint: Option<TendermintValidatorInfo>,
    height: u64,
    now: u64,
)
    requires
        keys_unique(m),
        key2@ == key1@,
    ensures
        ({
            let m1 = upserted(m, key1, v1);
            let v2 = refreshed_details(map_val(m1, key2@), validator, tendermint, height, now);
            let m2 = upserted(m1, key2, v2);
            &&& map_has(m1, key2@)
            &&& m2.len() == m1.len()
            &&& map_val(m2, key2@) == v2
            &&& v2.first_seen_block == map_val(m1, key2@).first_seen_block
            &&& v2.first_seen_date == map_val(m1, key2@).first_seen_date
            &&& v2.validator == validator
            &&& v2.last_updated_block == height
        }),
{
    crate::keymap::lemma_upserted_unique(m, key1, v1);
    let m1 = upserted(m, key1, v1);
    lemma_key_idx_props(m, key1@);
    if map_has(m, key1@) {
        let i = key_idx(m, key1@);
        crate::keymap::lemma_key_idx_found(m1, key1@, i);
    } else {
        crate::keymap::lemma_key_idx_found(m1, key1@, m.len() as int);
    }
    let v2 = refreshed_details(map_val(m1, key2@), validator, tendermint, height, now);
    lemma_key_idx_props(m1, key2@);
    let m2 = upserted(m1, key2, v2);
    crate::keymap::lemma_key_idx_found(m2, key2@, key_idx(m1, key2@));
}

/// Saturating addition into a 64-bit counter.
pub open spec fn sat64(v: int) -> u64 {
    if v > u64::MAX {
        u64::MAX
    } else if v < 0 {
        0
    } else {
        v as u64
    }
}

impl ValidatorActor {
    /// Handle a price abstention: the operator's abstain counter rises by
    /// one, and every `ABSTAIN_ALERT_EVERY`-th abstention raises an
    /// informational alert; an unknown operator is dropped.
    pub fn handle_price_abstain(&mut self, msg: &MessagePriceAbstain, now: u64) -> (r: Vec<Event>)
        requires
            old(self).wf(),
        ensures
            final(self).wf(),
            final(self).moniker@ == old(self).moniker@,
            final(self).cons_pub@ == old(self).cons_pub@,
            final(self).cons@ == old(self).cons@,
            final(self).rewards@ == old(self).rewards@,
            final(self).rewards_cumulative@ == old(self).rewards_cumulative@,
            final(self).rates@ == old(self).rates@,
            final(self).last_tick == old(self).last_tick,
            if map_has(old(self).validators@, msg.operator_address@) {
                let v = map_val(old(self).validators@, msg.operator_address@);
                let bumped = sat64(v.abstains + 1);
                &&& final(self).last_height == msg.height
                &&& final(self).validators@ == old(self).validators@.update(
                    key_idx(old(self).validators@, msg.operator_address@),
                    (
                        old(self).validators@[key_idx(
                            old(self).validators@,
                            msg.operator_address@,
                        )].0,
                        ValidatorDetails {
                            abstains: bumped,
                            last_updated_date: now,
                            last_updated_block: msg.height,
                            ..v
                        },
                    ),
                )
                &&& if bumped % ABSTAIN_ALERT_EVERY == 0 {
                    r@.len() == 1 && (r@[0] matches Event::ValidatorAlert(a) && ({
                        &&& a.height == msg.height
                        &&& a.operator_address@ == msg.operator_address@
                        &&& a.moniker matches Some(mo) && mo@ == v.validator.moniker@
                        &&& a.event_type == ValidatorEventType::INFO
                        &&& a.hash matches Some(h) && h@ == msg.txhash@
                        &&& a.message@ == "abstained from voting for denominations:"@ + msg.denom@
                            + " Abstains:"@ + dec_str(bumped as int)
                    }))
                } else {
                    r@.len() == 0
                }
            } else {
                &&& final(self).last_height == msg.height
                &&& final(self).validators@ == old(self).validators@
                &&& r@.len() == 0
            },
    {
        let height = msg.height;
        self.last_height = height;
        let ghost m0 = self.validators@;
        let mut r: Vec<Event> = Vec::new();
        match find_key(&self.validators, msg.operator_address.as_str()) {
            None => r,
            Some(i) => {
                proof {
                    lemma_key_idx_props(m0, msg.operator_address@);
                }
                let bumped: u64 = if self.validators[i].1.abstains < u64::MAX {
                    self.validators[i].1.abstains + 1
                } else {
                    u64::MAX
                };
                let moniker = self.validators[i].1.validator.moniker.clone();
                let entry = &mut self.validators[i];
                entry.1.abstains = bumped;
                entry.1.last_updated_date = now;
                entry.1.last_updated_block = height;
                proof {
                    assert forall|a: int, b: int|
                        0 <= a < b < self.validators@.len() implies (
                    #[trigger] self.validators@[a]).0@ != (#[trigger] self.validators@[b]).0@ by {
                        assert(m0[a].0@ != m0[b].0@);
                    }
                }
                if bumped % ABSTAIN_ALERT_EVERY == 0 {
                    let message = String::from_str("abstained from voting for denominations:")
                        .concat(msg.denom.as_str()).concat(" Abstains:").concat(
                        u64_to_string(bumped).as_str(),
                    );
                    r.push(
                        Event::ValidatorAlert(
                            MessageValidatorEvent {
                                height,
                                operator_address: msg.operator_address.clone(),
                                moniker: Some(moniker),
                                event_type: ValidatorEventType::INFO,
                                message,
                                hash: Some(msg.txhash.clone()),
                            },
                        ),
                    );
                }
                r
            },
        }
    }

    /// Handle a price drift: the operator's drift counter rises by one and
    /// a warning alert always follows; an unknown operator is dropped.
    pub fn handle_price_drift(&mut self, msg: &MessagePriceDrift, now: u64) -> (r: Vec<Event>)
        requires
            old(self).wf(),
        ensures
            final(self).wf(),
            final(self).moniker@ == old(self).moniker@,
            final(self).cons_pub@ == old(self).cons_pub@,
            final(self).cons@ == old(self).cons@,
            final(self).rewards@ == old(self).rewards@,
            final(self).rewards_cumulative@ == old(self).rewards_cumulative@,
            final(self).rates@ == old(self).rates@,
            final(self).last_tick == old(self).last_tick,
            final(self).last_height == msg.height,
            if map_has(old(self).validators@, msg.operator_address@) {
                let v = map_val(old(self).validators@, msg.operator_address@);
                let bumped = sat64(v.drifts + 1);
                &&& final(self).validators@ == old(self).validators@.update(
                    key_idx(old(self).validators@, msg.operator_address@),
                    (
                        old(self).validators@[key_idx(
                            old(self).validators@,
                            msg.operator_address@,
                        )].0,
                        ValidatorDetails {
                            drifts: bumped,
                            last_updated_date: now,
                            last_updated_block: msg.height,
                            ..v
                        },
                    ),
                )
                &&& r@.len() == 1
                &&& (r@[0] matches Event::ValidatorAlert(a) && ({
                    &&& a.height == msg.height
                    &&& a.operator_address@ == msg.operator_address@
                    &&& a.moniker matches Some(mo) && mo@ == v.validator.moniker@
                    &&& a.event_type == ValidatorEventType::WARN
                    &&& a.hash matches Some(h) && h@ == msg.txhash@
                    &&& a.message@ == msg.denom@ + " price drift submitted "@ + dec_str(
                        msg.submitted as int,
                    ) + " too far away from Average:"@ + dec_str(msg.average as int)
                        + "/ Weighted:"@ + dec_str(msg.weighted_average as int) + " Drifts:"@
                        + dec_str(bumped as int)
                }))
            } else {
                final(self).validators@ == old(self).validators@ && r@.len() == 0
            },
    {
        let height = msg.height;
        self.last_height = height;
        let ghost m0 = self.validators@;
        let mut r: Vec<Event> = Vec::new();
        match find_key(&self.validators, msg.operator_address.as_str()) {
            None => r,
            Some(i) => {
                proof {
                    lemma_key_idx_props(m0, msg.operator_address@);
                }
                let bumped: u64 = if self.validators[i].1.drifts < u64::MAX {
                    self.validators[i].1.drifts + 1
                } else {
                    u64::MAX
                };
                let moniker = self.validators[i].1.validator.moniker.clone();
                let entry = &mut self.validators[i];
                entry.1.drifts = bumped;
                entry.1.last_updated_date = now;
                entry.1.last_updated_block = height;
                proof {
                    assert forall|a: int, b: int|
                        0 <= a < b < self.validators@.len() implies (
                    #[trigger] self.validators@[a]).0@ != (#[trigger] self.validators@[b]).0@ by {
                        assert(m0[a].0@ != m0[b].0@);
                    }
                }
                let message = msg.denom.clone().concat(" price drift submitted ").concat(
                    u64_to_string(msg.submitted).as_str(),
                ).concat(" too far away from Average:").concat(
                    u64_to_string(msg.average).as_str(),
                ).concat("/ Weighted:").concat(u64_to_string(msg.weighted_average).as_str()).concat(
                    " Drifts:",
                ).concat(u64_to_string(bumped).as_str());
                r.push(
                    Event::ValidatorAlert(
                        MessageValidatorEvent {
                            height,
                            operator_address: msg.operator_address.clone(),
                            moniker: Some(moniker),
                            event_type: ValidatorEventType::WARN,
                            message,
                            hash: Some(msg.txhash.clone()),
                        },
                    ),
                );
                r
            },
        }
    }

    /// Handle a liveness event: resolve the consensus address to an
    /// operator and raise a warning alert with the missed-block count; an
    /// unresolvable address is dropped.
    pub fn handle_liveness(&mut self, msg: &MessageBlockEventLiveness) -> (r: Vec<Event>)
        requires
            old(self).wf(),
        ensures
            final(self).wf(),
            final(self).validators@ == old(self).validators@,
            final(self).moniker@ == old(self).moniker@,
            final(self).cons_pub@ == old(self).cons_pub@,
            final(self).cons@ == old(self).cons@,
            final(self).rewards@ == old(self).rewards@,
            final(self).rewards_cumulative@ == old(self).rewards_cumulative@,
            final(self).rates@ == old(self).rates@,
            final(self).last_tick == old(self).last_tick,
            final(self).last_height == msg.height,
            ({
                let resolvable = map_has(old(self).cons@, msg.tendermint_address@) && map_has(
                    old(self).validators@,
                    map_val(old(self).cons@, msg.tendermint_address@)@,
                );
                if resolvable {
                    let op = map_val(old(self).cons@, msg.tendermint_address@);
                    let v = map_val(old(self).validators@, op@);
                    r@.len() == 1 && (r@[0] matches Event::ValidatorAlert(a) && ({
                        &&& a.height == msg.height
                        &&& a.operator_address@ == op@
                        &&& a.moniker matches Some(mo) && mo@ == v.validator.moniker@
                        &&& a.event_type == ValidatorEventType::WARN
                        &&& a.hash is None
                        &&& a.message@ == "Liveness check failed missed: "@ + dec_str(
                            msg.missed as int,
                        )
                    }))
                } else {
                    r@.len() == 0
                }
            }),
    {
        let height = msg.height;
        self.last_height = height;
        let ghost c0 = self.cons@;
        let ghost m0 = self.validators@;
        let mut r: Vec<Event> = Vec::new();
        match find_key(&self.cons, msg.tendermint_address.as_str()) {
            None => r,
            Some(ci) => {
                proof {
                    lemma_key_idx_props(c0, msg.tendermint_address@);
                }
                let operator = self.cons[ci].1.clone();
                match find_key(&self.validators, operator.as_str()) {
                    None => {
                        proof {
                            lemma_key_idx_props(m0, operator@);
                        }
                        r
                    },
                    Some(vi) => {
                        proof {
                            lemma_key_idx_props(m0, operator@);
                        }
                        let message = String::from_str("Liveness check failed missed: ").concat(
                            u64_to_string(msg.missed).as_str(),
                        );
                        r.push(
                            Event::ValidatorAlert(
                                MessageValidatorEvent {
                                    height,
                                    operator_address: operator.clone(),
                                    moniker: Some(self.validators[vi].1.validator.moniker.clone()),
                                    event_type: ValidatorEventType::WARN,
                                    message,
                                    hash: None,
                                },
                            ),
                        );
                        r
                    },
                }
            },
        }
    }

    /// Handle an exchange-rate update: remember the denomination's latest
    /// rate.
    pub fn handle_exchange_rate(&mut self, msg: &MessageBlockEventExchangeRate)
        requires
            old(self).wf(),
        ensures
            final(self).wf(),
            final(self).rates@ == upserted(old(self).rates@, msg.denom, msg.exchange_rate),
            final(self).validators@ == old(self).validators@,
            final(self).moniker@ == old(self).moniker@,
            final(self).cons_pub@ == old(self).cons_pub@,
            final(self).cons@ == old(self).cons@,
            final(self).rewards@ == old(self).rewards@,
            final(self).rewards_cumulative@ == old(self).rewards_cumulative@,
            final(self).last_tick == old(self).last_tick,
            final(self).last_height == msg.height,
    {
        self.last_height = msg.height;
        upsert(&mut self.rates, msg.denom.clone(), msg.exchange_rate);
    }
}

/// The native-unit value of one reward coin, in millionths: native coins
/// count as they are; others are converted by the latest known exchange
/// rate, and are skipped while no positive rate is known.
pub open spec fn coin_native_value(c: Coin, rates: Seq<(String, u64)>) -> int {
    if c.denom@ == "uluna"@ {
        c.amount as int
    } else if map_has(rates, c.denom@) && map_val(rates, c.denom@) > 0 {
        ((c.amount as int) * (crate::coins::AMOUNT_SCALE as int)) / (map_val(rates, c.denom@) as int)
    } else {
        0
    }
}

/// The native-unit value of the first `j` coins of a reward.
pub open spec fn reward_value_upto(amount: Seq<Coin>, j: int, rates: Seq<(String, u64)>) -> int
    decreases j,
{
    if j <= 0 {
        0
    } else {
        reward_value_upto(amount, j - 1, rates) + coin_native_value(amount[j - 1], rates)
    }
}

impl ValidatorActor {
    /// Handle a reward event: convert the reward coins to the native unit
    /// by the latest known exchange rates and accumulate them into the
    /// operator's interval total (saturating at the counter's limit).
    pub fn handle_reward(&mut self, msg: &MessageBlockEventReward) -> (u: ())
        requires
            old(self).wf(),
        ensures
            final(self).wf(),
            final(self).validators@ == old(self).validators@,
            final(self).moniker@ == old(self).moniker@,
            final(self).cons_pub@ == old(self).cons_pub@,
            final(self).cons@ == old(self).cons@,
            final(self).rewards_cumulative@ == old(self).rewards_cumulative@,
            final(self).rates@ == old(self).rates@,
            final(self).last_tick == old(self).last_tick,
            final(self).last_height == msg.height,
            final(self).rewards@ == upserted(
                old(self).rewards@,
                msg.validator,
                sat64(
                    (if map_has(old(self).rewards@, msg.validator@) {
                        map_val(old(self).rewards@, msg.validator@) as int
                    } else {
                        0
                    }) + reward_value_upto(msg.amount@, msg.amount@.len() as int, old(self).rates@),
                ),
            ),
    {
        let ghost rates0 = self.rates@;
        let ghost amt = msg.amount@;
        let mut acc: u128 = 0;
        let mut j: usize = 0;
        while j < msg.amount.len()
            invariant
                self == old(self),
                self.wf(),
                rates0 == self.rates@,
                amt == msg.amount@,
                j <= amt.len(),
                reward_value_upto(amt, j as int, rates0) <= u64::MAX ==> acc == reward_value_upto(
                    amt,
                    j as int,
                    rates0,
                ),
                reward_value_upto(amt, j as int, rates0) > u64::MAX ==> acc > u64::MAX,
                acc <= (u64::MAX as u128) * 2000000,
                reward_value_upto(amt, j as int, rates0) >= 0,
            decreases amt.len() - j,
        {
            let c = &msg.amount[j];
            let converted: u128 = if crate::text::string_is(&c.denom, "uluna") {
                c.amount as u128
            } else {
                match find_key(&self.rates, c.denom.as_str()) {
                    Some(k) => {
                        proof {
                            lemma_key_idx_props(rates0, amt[j as int].denom@);
                        }
                        let rate = self.rates[k].1;
                        if rate > 0 {
                            ((c.amount as u128) * (crate::coins::AMOUNT_SCALE as u128)) / (
                            rate as u128)
                        } else {
                            0
                        }
                    },
                    None => 0,
                }
            };
            proof {
                assert(converted == coin_native_value(amt[j as int], rates0));
                assert(converted <= (u64::MAX as u128) * 1000000) by (nonlinear_arith)
                    requires
                        converted == coin_native_value(amt[j as int], rates0),
                        coin_native_value(amt[j as int], rates0) >= 0,
                        amt[j as int].amount <= u64::MAX,
                        crate::coins::AMOUNT_SCALE == 1000000,
                ;
            }
            if acc <= u64::MAX as u128 {
                acc = acc + converted;
            }
            j = j + 1;
        }
        self.last_height = msg.height;
        let total = if acc > u64::MAX as u128 {
            u64::MAX
        } else {
            acc as u64
        };
        let ghost add = reward_value_upto(amt, amt.len() as int, rates0);
        let prev: u64 = match find_key(&self.rewards, msg.validator.as_str()) {
            Some(k) => {
                proof {
                    lemma_key_idx_props(self.rewards@, msg.validator@);
                }
                self.rewards[k].1
            },
            None => 0,
        };
        let summed: u64 = if prev > u64::MAX - total {
            u64::MAX
        } else {
            prev + total
        };
        proof {
            assert(summed == sat64(
                (if map_has(old(self).rewards@, msg.validator@) {
                    map_val(old(self).rewards@, msg.validator@) as int
                } else {
                    0
                }) + add,
            ));
        }
        upsert(&mut self.rewards, msg.validator.clone(), summed);
    }
}


/// Hour of day of an epoch-seconds time.
pub open spec fn hour_of(t: u64) -> int {
    ((t / 3600) % 24) as int
}

/// The cumulative bucket after folding in the first `i` interval entries.
pub open spec fn merged_upto(
    cum: Seq<(String, u64)>,
    rw: Seq<(String, u64)>,
    i: int,
) -> Seq<(String, u64)>
    decreases i,
{
    if i <= 0 {
        cum
    } else {
        let m = merged_upto(cum, rw, i - 1);
        upserted(
            m,
            rw[i - 1].0,
            sat64(
                (if map_has(m, rw[i - 1].0@) {
                    map_val(m, rw[i - 1].0@) as int
                } else {
                    0
                }) + rw[i - 1].1,
            ),
        )
    }
}

/// A validator's daily reward rate: accumulated reward over staked tokens,
/// scaled to a day.
pub open spec fn daily_rate(amount: u64, tokens: u64) -> u64 {
    sat64((if tokens > 0 {
        (amount as int) / (tokens as int)
    } else {
        0
    }) * 24)
}

/// The hourly roll line for one validator.
pub open spec fn roll_line(moniker: Seq<char>, amount: u64, tokens: u64, rate: u64) -> Seq<char> {
    moniker + " - Generated Rewards of "@ + dec_str(amount as int) + " uluna over "@ + dec_str(
        tokens as int,
    ) + " tokens - Daily Rate "@ + dec_str(rate as int)
}

/// The event is the roll alert owed to one cumulative entry.
pub open spec fn roll_alert(e: Event, op: String, v: ValidatorDetails, amount: u64, height: u64) -> bool {
    e matches Event::ValidatorAlert(a) && ({
        &&& a.height == height
        &&& a.operator_address == op
        &&& a.moniker matches Some(m) && m@ == v.validator.moniker@
        &&& a.event_type == ValidatorEventType::INFO
        &&& a.hash is None
        &&& a.message@ == roll_line(
            v.validator.moniker@,
            amount,
            v.validator.tokens,
            daily_rate(amount, v.validator.tokens),
        )
    })
}

/// `r` holds exactly the roll alerts of the first `i` cumulative entries:
/// one per entry with a known record, in order.
pub open spec fn roll_events_upto(
    cum: Seq<(String, u64)>,
    vals: Seq<(String, ValidatorDetails)>,
    height: u64,
    i: int,
    r: Seq<Event>,
) -> bool
    decreases i,
{
    if i <= 0 {
        r.len() == 0
    } else if map_has(vals, cum[i - 1].0@) {
        r.len() >= 1 && roll_alert(
            r.last(),
            cum[i - 1].0,
            map_val(vals, cum[i - 1].0@),
            cum[i - 1].1,
            height,
        ) && roll_events_upto(cum, vals, height, i - 1, r.drop_last())
    } else {
        roll_events_upto(cum, vals, height, i - 1, r)
    }
}

/// The daily rates of the first `i` cumulative entries with known records.
pub open spec fn rates_upto(
    cum: Seq<(String, u64)>,
    vals: Seq<(String, ValidatorDetails)>,
    i: int,
) -> Seq<u64>
    decreases i,
{
    if i <= 0 {
        Seq::empty()
    } else if map_has(vals, cum[i - 1].0@) {
        rates_upto(cum, vals, i - 1).push(
            daily_rate(cum[i - 1].1, map_val(vals, cum[i - 1].0@).validator.tokens),
        )
    } else {
        rates_upto(cum, vals, i - 1)
    }
}

/// Sum of a rate list.
pub open spec fn rates_sum(s: Seq<u64>) -> int
    decreases s.len(),
{
    if s.len() == 0 {
        0
    } else {
        rates_sum(s.drop_last()) + s.last()
    }
}

/// How many rates lie strictly above `bound`.
pub open spec fn over_cnt(s: Seq<u64>, bound: int) -> int
    decreases s.len(),
{
    if s.len() == 0 {
        0
    } else {
        over_cnt(s.drop_last(), bound) + (if s.last() > bound {
            1int
        } else {
            0int
        })
    }
}

/// How many rates lie strictly below `bound`.
pub open spec fn under_cnt(s: Seq<u64>, bound: int) -> int
    decreases s.len(),
{
    if s.len() == 0 {
        0
    } else {
        under_cnt(s.drop_last(), bound) + (if (s.last() as int) < bound {
            1int
        } else {
            0int
        })
    }
}

/// The summary line announced after an hourly roll.
pub open spec fn announce_line(avg: u64, over: int, under: int) -> Seq<char> {
    "Average Rate = "@ + dec_str(avg as int) + " #over allowance of 5% = "@ + dec_str(over)
        + " #below allowance of 5% "@ + dec_str(under)
}

/// The events after the roll alerts: nothing when no validator had a rate;
/// otherwise the exact summary announcement, then one private message for
/// the over-performers if any, then one for the under-performers if any.
pub open spec fn summary_post(tail: Seq<Event>, rates: Seq<u64>, height: u64) -> bool {
    if rates.len() == 0 {
        tail.len() == 0
    } else {
        let avg = rates_sum(rates) / (rates.len() as int);
        let slip = (avg * 50_000) / 1_000_000;
        let over = over_cnt(rates, avg + slip);
        let under = under_cnt(rates, avg - slip);
        &&& tail.len() == 1 + (if over > 0 {
            1int
        } else {
            0int
        }) + (if under > 0 {
            1int
        } else {
            0int
        })
        &&& (tail[0] matches Event::SendMessage(m) && ({
            &&& m.height == height
            &&& m.event_type == ValidatorEventType::ANNOUNCE
            &&& m.hash is None
            &&& m.message@ == announce_line(avg as u64, over, under)
        }))
        &&& forall|t: int|
            1 <= t < tail.len() ==> ((#[trigger] tail[t]) matches Event::SendMessage(m) && ({
                &&& m.event_type == ValidatorEventType::PRIVATE
                &&& m.height == height
                &&& m.hash is None
            }))
    }
}

proof fn lemma_rates_bounds(s: Seq<u64>)
    ensures
        0 <= rates_sum(s) <= s.len() * (u64::MAX as int),
    decreases s.len(),
{
    if s.len() > 0 {
        lemma_rates_bounds(s.drop_last());
        assert((s.len() - 1) * (u64::MAX as int) + u64::MAX == s.len() * (u64::MAX as int))
            by (nonlinear_arith);
    }
}

/// A nonempty rate list's average fits in the counter type.
proof fn lemma_rates_avg_fits(s: Seq<u64>)
    requires
        s.len() > 0,
    ensures
        0 <= rates_sum(s) / (s.len() as int) <= u64::MAX,
{
    lemma_rates_bounds(s);
    vstd::arithmetic::div_mod::lemma_div_is_ordered(
        rates_sum(s),
        s.len() * (u64::MAX as int),
        s.len() as int,
    );
    vstd::arithmetic::div_mod::lemma_div_multiples_vanish(u64::MAX as int, s.len() as int);
    assert(s.len() * (u64::MAX as int) == (u64::MAX as int) * (s.len() as int))
        by (nonlinear_arith);
    assert(rates_sum(s) / (s.len() as int) >= 0) by (nonlinear_arith)
        requires
            rates_sum(s) >= 0,
            s.len() > 0,
    ;
}

/// Copy an amount map.
fn clone_amounts(v: &Vec<(String, u64)>) -> (r: Vec<(String, u64)>)
    ensures
        r@ == v@,
{
    let mut out: Vec<(String, u64)> = Vec::new();
    let mut i: usize = 0;
    while i < v.len()
        invariant
            i <= v@.len(),
            out@ == v@.take(i as int),
        decreases v@.len() - i,
    {
        out.push((v[i].0.clone(), v[i].1));
        proof {
            assert(out@ =~= v@.take(i as int + 1));
        }
        i = i + 1;
    }
    proof {
        assert(v@.take(v@.len() as int) =~= v@);
    }
    out
}

/// Order a scored list by rate, highest first.  Used only to lay out the
/// performer texts.
fn sort_by_rate_desc(v: Vec<(String, u64)>) -> (r: Vec<(String, u64)>)
    ensures
        r@.len() == v@.len(),
{
    let mut v = v;
    let total = v.len();
    let mut out: Vec<(String, u64)> = Vec::new();
    while v.len() > 0
        invariant
            out@.len() + v@.len() == total,
        decreases v@.len(),
    {
        let mut best: usize = 0;
        let mut k: usize = 1;
        while k < v.len()
            invariant
                v@.len() > 0,
                best < v@.len(),
                k <= v@.len(),
            decreases v@.len() - k,
        {
            if v[k].1 > v[best].1 {
                best = k;
            }
            k = k + 1;
        }
        let e = v.remove(best);
        out.push(e);
    }
    out
}

impl ValidatorActor {
    /// Handle the periodic tick.
    ///
    /// On an hour boundary the interval totals roll into the cumulative
    /// bucket: each known validator's daily rate is computed and reported
    /// as an informational alert, the cross-validator average with the
    /// counts of over- and under-performers (mean plus or minus five
    /// percent) is announced, and the top and bottom performer lists go to
    /// the private channel.  Otherwise the interval totals are folded into
    /// the bucket.  Either way the interval accumulator resets.
    #[verifier::rlimit(100)]
    pub fn handle_tick(&mut self, msg: &MessageTick) -> (r: Vec<Event>)
        requires
            old(self).wf(),
        ensures
            final(self).wf(),
            final(self).validators@ == old(self).validators@,
            final(self).moniker@ == old(self).moniker@,
            final(self).cons_pub@ == old(self).cons_pub@,
            final(self).cons@ == old(self).cons@,
            final(self).rates@ == old(self).rates@,
            final(self).last_height == old(self).last_height,
            final(self).last_tick == Some(msg.now),
            final(self).rewards@.len() == 0,
            ({
                let rolled = old(self).last_tick matches Some(last) && hour_of(msg.now) != hour_of(
                    last,
                );
                if rolled {
                    let cum = old(self).rewards_cumulative@;
                    let vals = old(self).validators@;
                    let rates = rates_upto(cum, vals, cum.len() as int);
                    &&& final(self).rewards_cumulative@ == old(self).rewards@
                    &&& exists|k: int|
                        #![auto]
                        0 <= k <= r@.len() && roll_events_upto(
                            cum,
                            vals,
                            old(self).last_height,
                            cum.len() as int,
                            r@.take(k),
                        ) && summary_post(r@.skip(k), rates, old(self).last_height)
                } else {
                    &&& r@.len() == 0
                    &&& if old(self).last_tick is Some {
                        final(self).rewards_cumulative@ == merged_upto(
                            old(self).rewards_cumulative@,
                            old(self).rewards@,
                            old(self).rewards@.len() as int,
                        )
                    } else {
                        final(self).rewards_cumulative@ == old(self).rewards@
                    }
                }
            }),
    {
        let height = self.last_height;
        let rolled = match self.last_tick {
            Some(last) => {
                let h_now = (msg.now / 3600) % 24;
                let h_last = (last / 3600) % 24;
                h_now != h_last
            },
            None => false,
        };
        let mut out: Vec<Event> = Vec::new();
        if rolled {
            let ghost cum = self.rewards_cumulative@;
            let ghost vals = self.validators@;
            let mut scored: Vec<(String, u64)> = Vec::new();
            let mut rates: Vec<u64> = Vec::new();
            let mut i: usize = 0;
            proof {
                assert(rates_upto(cum, vals, 0) =~= Seq::<u64>::empty());
            }
            while i < self.rewards_cumulative.len()
                invariant
                    self == old(self),
                    self.wf(),
                    cum == self.rewards_cumulative@,
                    vals == self.validators@,
                    height == self.last_height,
                    i <= cum.len(),
                    roll_events_upto(cum, vals, height, i as int, out@),
                    rates@ == rates_upto(cum, vals, i as int),
                    scored@.len() == rates@.len(),
                decreases cum.len() - i,
            {
                let ghost prev_out = out@;
                let ghost prev_rates = rates@;
                let key = &self.rewards_cumulative[i].0;
                let amount = self.rewards_cumulative[i].1;
                match find_key(&self.validators, key.as_str()) {
                    None => {
                        proof {
                            lemma_key_idx_props(vals, cum[i as int].0@);
                            assert(!map_has(vals, cum[i as int].0@));
                            assert(roll_events_upto(cum, vals, height, i as int + 1, out@));
                            assert(rates@ =~= rates_upto(cum, vals, i as int + 1));
                        }
                    },
                    Some(vi) => {
                        proof {
                            lemma_key_idx_props(vals, cum[i as int].0@);
                        }
                        let details = &self.validators[vi].1;
                        let tokens = details.validator.tokens;
                        let rate0: u64 = if tokens > 0 {
                            amount / tokens
                        } else {
                            0
                        };
                        let daily128: u128 = (rate0 as u128) * 24;
                        let daily: u64 = if daily128 > u64::MAX as u128 {
                            u64::MAX
                        } else {
                            daily128 as u64
                        };
                        proof {
                            assert(daily == daily_rate(amount, tokens));
                        }
                        let line = details.validator.moniker.clone().concat(
                            " - Generated Rewards of ",
                        ).concat(u64_to_string(amount).as_str()).concat(" uluna over ").concat(
                            u64_to_string(tokens).as_str(),
                        ).concat(" tokens - Daily Rate ").concat(u64_to_string(daily).as_str());
                        let alert = Event::ValidatorAlert(
                            MessageValidatorEvent {
                                height,
                                operator_address: self.rewards_cumulative[i].0.clone(),
                                moniker: Some(details.validator.moniker.clone()),
                                event_type: ValidatorEventType::INFO,
                                message: line.clone(),
                                hash: None,
                            },
                        );
                        proof {
                            assert(roll_alert(
                                alert,
                                cum[i as int].0,
                                map_val(vals, cum[i as int].0@),
                                amount,
                                height,
                            ));
                        }
                        out.push(alert);
                        rates.push(daily);
                        scored.push((line, daily));
                        proof {
                            assert(out@.last() == alert);
                            assert(out@.drop_last() =~= prev_out);
                            assert(roll_events_upto(cum, vals, height, i as int + 1, out@));
                            assert(rates@ =~= rates_upto(cum, vals, i as int + 1));
                        }
                    },
                }
                i = i + 1;
            }
            let ghost k = out@.len() as int;
            let ghost alerts = out@;
            let ghost all_rates = rates_upto(cum, vals, cum.len() as int);
            proof {
                assert(out@.take(k) =~= out@);
            }
            if rates.len() > 0 {
                let mut sum: u128 = 0;
                let mut t: usize = 0;
                while t < rates.len()
                    invariant
                        t <= rates@.len(),
                        sum == rates_sum(rates@.take(t as int)),
                        sum <= (t as int) * (u64::MAX as int),
                    decreases rates@.len() - t,
                {
                    proof {
                        assert(rates@.take(t as int + 1).drop_last() =~= rates@.take(t as int));
                        assert(rates@.take(t as int + 1).last() == rates@[t as int]);
                        assert((t as int) * (u64::MAX as int) + u64::MAX == (t as int + 1) * (
                        u64::MAX as int)) by (nonlinear_arith);
                    }
                    sum = sum + rates[t] as u128;
                    t = t + 1;
                }
                proof {
                    assert(rates@.take(rates@.len() as int) =~= rates@);
                    lemma_rates_avg_fits(rates@);
                }
                let cnt = rates.len();
                let avg128: u128 = sum / (cnt as u128);
                let avg: u64 = avg128 as u64;
                let slip128: u128 = (avg128 * 50_000) / 1_000_000;
                proof {
                    assert(avg128 == rates_sum(rates@) / (rates@.len() as int));
                    assert(slip128 == ((avg as int) * 50_000) / 1_000_000);
                }
                let mut over: u64 = 0;
                let mut under: u64 = 0;
                let mut t2: usize = 0;
                while t2 < rates.len()
                    invariant
                        t2 <= rates@.len(),
                        avg128 <= u64::MAX as u128,
                        slip128 <= (u64::MAX as u128) * 50_000,
                        over == over_cnt(rates@.take(t2 as int), avg128 as int + slip128 as int),
                        under == under_cnt(rates@.take(t2 as int), avg128 as int - slip128 as int),
                        over <= t2,
                        under <= t2,
                    decreases rates@.len() - t2,
                {
                    proof {
                        assert(rates@.take(t2 as int + 1).drop_last() =~= rates@.take(t2 as int));
                        assert(rates@.take(t2 as int + 1).last() == rates@[t2 as int]);
                    }
                    if (rates[t2] as u128) > avg128 + slip128 {
                        over = over + 1;
                    }
                    if (rates[t2] as u128) + slip128 < avg128 {
                        under = under + 1;
                    }
                    t2 = t2 + 1;
                }
                proof {
                    assert(rates@.take(rates@.len() as int) =~= rates@);
                }
                let message = String::from_str("Average Rate = ").concat(
                    u64_to_string(avg).as_str(),
                ).concat(" #over allowance of 5% = ").concat(u64_to_string(over).as_str()).concat(
                    " #below allowance of 5% ",
                ).concat(u64_to_string(under).as_str());
                out.push(
                    Event::SendMessage(
                        MessageSendMessageEvent {
                            height,
                            event_type: ValidatorEventType::ANNOUNCE,
                            message,
                            hash: None,
                        },
                    ),
                );
                if over > 0 {
                    let sorted = sort_by_rate_desc(clone_amounts(&scored));
                    let mut text = String::from_str("Top ").concat(
                        u64_to_string(over).as_str(),
                    ).concat(" - Average: ").concat(u64_to_string(avg).as_str()).concat("\n");
                    let mut p: usize = 0;
                    while p < sorted.len() && p < 5
                        invariant
                            p <= sorted@.len(),
                        decreases sorted@.len() - p,
                    {
                        text = text.concat(sorted[p].0.as_str()).concat("\n");
                        p = p + 1;
                    }
                    out.push(
                        Event::SendMessage(
                            MessageSendMessageEvent {
                                height,
                                event_type: ValidatorEventType::PRIVATE,
                                message: text,
                                hash: None,
                            },
                        ),
                    );
                }
                if under > 0 {
                    let sorted = sort_by_rate_desc(clone_amounts(&scored));
                    let mut text = String::from_str("Bottom ").concat(
                        u64_to_string(under).as_str(),
                    ).concat(" - Average: ").concat(u64_to_string(avg).as_str()).concat("\n");
                    let mut p: usize = sorted.len();
                    let mut shown: usize = 0;
                    while p > 0 && shown < 10
                        invariant
                            p <= sorted@.len(),
                        decreases p,
                    {
                        p = p - 1;
                        text = text.concat(sorted[p].0.as_str()).concat("\n");
                        shown = shown + 1;
                    }
                    out.push(
                        Event::SendMessage(
                            MessageSendMessageEvent {
                                height,
                                event_type: ValidatorEventType::PRIVATE,
                                message: text,
                                hash: None,
                            },
                        ),
                    );
                }
                proof {
                    assert(summary_post(out@.skip(k), all_rates, height)) by {
                        assert(all_rates == rates@);
                        assert(out@.take(k) =~= out@.subrange(0, k));
                        assert(out@.skip(k).len() == out@.len() - k);
                        assert forall|t3: int|
                            1 <= t3 < out@.skip(k).len() implies ((#[trigger] out@.skip(
                            k,
                        )[t3]) matches Event::SendMessage(m) && ({
                            &&& m.event_type == ValidatorEventType::PRIVATE
                            &&& m.height == height
                            &&& m.hash is None
                        })) by {}
                    }
                }
            } else {
                proof {
                    assert(out@.skip(k).len() == 0);
                    assert(summary_post(out@.skip(k), all_rates, height)) by {
                        assert(all_rates == rates@);
                    }
                }
            }
            proof {
                assert(out@.take(k) =~= alerts);
                assert(roll_events_upto(cum, vals, height, cum.len() as int, out@.take(k)));
            }
            self.rewards_cumulative = clone_amounts(&self.rewards);
        } else {
            if self.last_tick.is_some() {
                let ghost cum0 = self.rewards_cumulative@;
                let ghost rw = self.rewards@;
                let mut i: usize = 0;
                while i < self.rewards.len()
                    invariant
                        keys_unique(self.rewards_cumulative@),
                        self.validators@ == old(self).validators@,
                        self.moniker@ == old(self).moniker@,
                        self.cons_pub@ == old(self).cons_pub@,
                        self.cons@ == old(self).cons@,
                        self.rates@ == old(self).rates@,
                        self.rewards@ == old(self).rewards@,
                        self.last_height == old(self).last_height,
                        self.last_tick == old(self).last_tick,
                        keys_unique(self.validators@),
                        keys_unique(self.moniker@),
                        keys_unique(self.cons_pub@),
                        keys_unique(self.cons@),
                        keys_unique(self.rewards@),
                        keys_unique(self.rates@),
                        rw == self.rewards@,
                        i <= rw.len(),
                        self.rewards_cumulative@ == merged_upto(cum0, rw, i as int),
                    decreases rw.len() - i,
                {
                    let key = self.rewards[i].0.clone();
                    let amount = self.rewards[i].1;
                    let prev: u64 = match find_key(&self.rewards_cumulative, key.as_str()) {
                        Some(ci) => {
                            proof {
                                lemma_key_idx_props(self.rewards_cumulative@, rw[i as int].0@);
                            }
                            self.rewards_cumulative[ci].1
                        },
                        None => 0,
                    };
                    let summed: u64 = if prev > u64::MAX - amount {
                        u64::MAX
                    } else {
                        prev + amount
                    };
                    upsert(&mut self.rewards_cumulative, key, summed);
                    proof {
                        assert(self.rewards_cumulative@ == merged_upto(cum0, rw, i as int + 1));
                    }
                    i = i + 1;
                }
            } else {
                self.rewards_cumulative = clone_amounts(&self.rewards);
            }
        }
        self.rewards = Vec::new();
        self.last_tick = Some(msg.now);
        out
    }
}

} // verus!
