use constellation::coins::Coin;
use constellation::messages::{
    Event, MessageBlockEventExchangeRate, MessageBlockEventLiveness, MessageBlockEventReward,
    MessagePriceAbstain, MessagePriceDrift, MessageValidator, ValidatorEventType,
};
use constellation::tracker::{create, ValidatorActor};
use constellation::types::{TendermintValidatorInfo, ValidatorInfo};

fn vinfo(op: &str, pubkey: &str, moniker: &str, tokens: u64) -> ValidatorInfo {
    ValidatorInfo {
        operator_address: String::from(op),
        consensus_pubkey: String::from(pubkey),
        moniker: String::from(moniker),
        tokens,
    }
}

fn actor() -> ValidatorActor {
    let validators = vec![vinfo("valoper1", "pk1", "one", 1000), vinfo("valoper2", "pk2", "two", 500)];
    let tendermint = vec![TendermintValidatorInfo {
        address: String::from("cons1"),
        pub_key: String::from("pk1"),
    }];
    let (actor, events) = create(10, 1000, validators, tendermint);
    assert_eq!(events.len(), 2);
    actor
}

#[test]
fn merge_links_consensus_addresses_by_pubkey() {
    let a = actor();
    assert_eq!(a.validators.len(), 2);
    let one = &a.validators[0].1;
    assert_eq!(one.tendermint_account.as_deref(), Some("cons1"));
    // present in staking but absent from the consensus set: kept, unlinked
    let two = &a.validators[1].1;
    assert!(two.tendermint_account.is_none());
    assert_eq!(a.cons.len(), 1);
    assert_eq!(a.cons[0].0, "cons1");
    assert_eq!(a.cons[0].1, "valoper1");
}

#[test]
fn upsert_never_duplicates_and_preserves_first_seen() {
    let mut a = actor();
    let refreshed = MessageValidator {
        height: 20,
        operator_address: String::from("valoper1"),
        validator: vinfo("valoper1", "pk1", "one-renamed", 2000),
        tendermint: None,
    };
    let events = a.handle_validator(refreshed, 2000);
    assert_eq!(events.len(), 1);
    let again = MessageValidator {
        height: 30,
        operator_address: String::from("valoper1"),
        validator: vinfo("valoper1", "pk1", "one-again", 3000),
        tendermint: None,
    };
    a.handle_validator(again, 3000);
    assert_eq!(a.validators.len(), 2);
    let rec = &a.validators[0].1;
    assert_eq!(rec.validator.moniker, "one-again");
    assert_eq!(rec.validator.tokens, 3000);
    assert_eq!(rec.first_seen_block, 10);
    assert_eq!(rec.first_seen_date, 1000);
    assert_eq!(rec.last_updated_block, 30);
}

#[test]
fn tenth_abstention_raises_info_alert() {
    let mut a = actor();
    let mut alerts = 0;
    for i in 0..10 {
        let msg = MessagePriceAbstain {
            height: 100 + i,
            operator_address: String::from("valoper1"),
            denom: String::from("uusd"),
            txhash: String::from("h"),
        };
        alerts += a.handle_price_abstain(&msg, 5000).len();
    }
    assert_eq!(alerts, 1);
    assert_eq!(a.validators[0].1.abstains, 10);
}

#[test]
fn drift_always_raises_warning_alert() {
    let mut a = actor();
    let msg = MessagePriceDrift {
        height: 100,
        operator_address: String::from("valoper2"),
        denom: String::from("uusd"),
        average: 101_000_000,
        weighted_average: 101_000_000,
        submitted: 90_000_000,
        txhash: String::from("h2"),
    };
    let events = a.handle_price_drift(&msg, 5000);
    assert_eq!(events.len(), 1);
    match &events[0] {
        Event::ValidatorAlert(al) => {
            assert_eq!(al.operator_address, "valoper2");
            assert!(matches!(al.event_type, ValidatorEventType::WARN));
        }
        other => panic!("expected an alert, got {:?}", other),
    }
    assert_eq!(a.validators[1].1.drifts, 1);
}

#[test]
fn unknown_operator_is_dropped() {
    let mut a = actor();
    let msg = MessagePriceDrift {
        height: 100,
        operator_address: String::from("valoperX"),
        denom: String::from("uusd"),
        average: 1,
        weighted_average: 1,
        submitted: 2,
        txhash: String::from("h"),
    };
    assert!(a.handle_price_drift(&msg, 5000).is_empty());
}

#[test]
fn liveness_resolves_consensus_address() {
    let mut a = actor();
    let msg = MessageBlockEventLiveness {
        height: 50,
        is_begin: true,
        tendermint_address: String::from("cons1"),
        missed: 7,
    };
    let events = a.handle_liveness(&msg);
    assert_eq!(events.len(), 1);
    match &events[0] {
        Event::ValidatorAlert(al) => {
            assert_eq!(al.operator_address, "valoper1");
            assert_eq!(al.message, "Liveness check failed missed: 7");
        }
        other => panic!("expected an alert, got {:?}", other),
    }
    let unresolved = MessageBlockEventLiveness {
        height: 51,
        is_begin: true,
        tendermint_address: String::from("consX"),
        missed: 1,
    };
    assert!(a.handle_liveness(&unresolved).is_empty());
}

#[test]
fn rewards_convert_through_latest_exchange_rate() {
    let mut a = actor();
    a.handle_exchange_rate(&MessageBlockEventExchangeRate {
        height: 60,
        denom: String::from("uusd"),
        exchange_rate: 2_000_000,
    });
    let msg = MessageBlockEventReward {
        height: 61,
        is_begin: true,
        is_proposer: false,
        validator: String::from("valoper1"),
        amount: vec![
            Coin { denom: String::from("uluna"), amount: 5_000_000 },
            Coin { denom: String::from("uusd"), amount: 4_000_000 },
            Coin { denom: String::from("ukrw"), amount: 9_000_000 },
        ],
    };
    a.handle_reward(&msg);
    // 5 uluna + 4 uusd at rate 2.0 = 5 + 2 native units; the unknown ukrw
    // rate is skipped
    assert_eq!(a.rewards.len(), 1);
    assert_eq!(a.rewards[0].0, "valoper1");
    assert_eq!(a.rewards[0].1, 7_000_000);
}
