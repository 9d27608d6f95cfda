use constellation::coins::Coin;
use constellation::messages::{Event, MessageTX};
use constellation::oracle::{OracleActor, OracleParams, VoteEntry};
use constellation::types::{
    BlockMsg, BlockTransaction, Fee, MsgValue, TXandResult, TxOuter, VoteMsg,
};

fn params(vote_period: u64, reward_band: u64, epsilon: u64) -> OracleParams {
    OracleParams {
        vote_period,
        vote_threshold: 500_000,
        reward_band,
        reward_distribution_window: 0,
        slash_fraction: 0,
        slash_window: 0,
        min_valid_per_window: 0,
        epsilon,
    }
}

fn vote_tx(height: u64, hash: &str, validator: &str, rates: &str) -> MessageTX {
    MessageTX {
        tx: TXandResult {
            height,
            txhash: String::from(hash),
            raw_log: String::new(),
            gas_wanted: 0,
            gas_used: 0,
            tx: TxOuter {
                s_type: String::from("core/StdTx"),
                value: BlockTransaction {
                    msg: vec![BlockMsg {
                        s_type: String::from("oracle/MsgAggregateExchangeRateVote"),
                        value: MsgValue::ExchangeRateVote(VoteMsg {
                            exchange_rates: String::from(rates),
                            feeder: String::from("feeder"),
                            salt: String::from("00"),
                            validator: String::from(validator),
                        }),
                    }],
                    fee: Fee { amount: vec![], gas: 0 },
                    signatures: vec![],
                    memo: String::new(),
                },
            },
        },
    }
}

fn empty_tx(height: u64) -> MessageTX {
    MessageTX {
        tx: TXandResult {
            height,
            txhash: String::from("boundary"),
            raw_log: String::new(),
            gas_wanted: 0,
            gas_used: 0,
            tx: TxOuter {
                s_type: String::from("core/StdTx"),
                value: BlockTransaction {
                    msg: vec![],
                    fee: Fee { amount: vec![], gas: 0 },
                    signatures: vec![],
                    memo: String::new(),
                },
            },
        },
    }
}

#[test]
fn period_example_average_and_abstain() {
    // vote period 5, reward band 0.01, epsilon 0.001 (all in millionths)
    let mut oracle = OracleActor::create(params(5, 10_000, 1_000));
    assert!(oracle.handle(&vote_tx(1, "a", "val1", "100uusd")).is_empty());
    assert!(oracle.handle(&vote_tx(2, "b", "val2", "102uusd")).is_empty());
    assert!(oracle.handle(&vote_tx(3, "c", "val3", "0.0001uusd")).is_empty());
    let events = oracle.handle(&empty_tx(5));
    // average uusd = (100 + 102) / 2 = 101; threshold = 1.01: neither 100
    // nor 102 drifts; the third validator abstains for uusd.
    assert_eq!(events.len(), 1);
    match &events[0] {
        Event::PriceAbstain(a) => {
            assert_eq!(a.operator_address, "val3");
            assert_eq!(a.denom, "uusd");
            assert_eq!(a.height, 5);
            assert_eq!(a.txhash, "c");
        }
        other => panic!("expected an abstain event, got {:?}", other),
    }
    // the window was reset and the period advanced
    assert_eq!(oracle.validator_vote_prices.len(), 0);
    assert_eq!(oracle.last_avg_at_height, 5);
}

#[test]
fn narrow_band_reports_drift_once_per_validator() {
    // band 0.0001: threshold 101 * 0.0001 = 0.0101 -> both submissions drift
    let mut oracle = OracleActor::create(params(5, 100, 1_000));
    oracle.handle(&vote_tx(1, "a", "val1", "100uusd"));
    oracle.handle(&vote_tx(2, "b", "val2", "102uusd"));
    let events = oracle.handle(&empty_tx(5));
    let drifts: Vec<_> = events
        .iter()
        .filter_map(|e| match e {
            Event::PriceDrift(d) => Some(d),
            _ => None,
        })
        .collect();
    assert_eq!(drifts.len(), 2);
    for d in &drifts {
        assert_eq!(d.average, 101_000_000);
        assert_eq!(d.denom, "uusd");
    }
    assert_eq!(
        drifts.iter().filter(|d| d.operator_address == "val1").count(),
        1
    );
    assert_eq!(
        drifts.iter().filter(|d| d.operator_address == "val2").count(),
        1
    );
}

#[test]
fn later_vote_overwrites_earlier_vote() {
    let mut oracle = OracleActor::create(params(10, 10_000, 1_000));
    oracle.handle(&vote_tx(1, "a", "val1", "100uusd"));
    oracle.handle(&vote_tx(2, "b", "val1", "200uusd"));
    assert_eq!(oracle.validator_vote_prices.len(), 1);
    assert_eq!(oracle.validator_vote_prices[0].coins[0].amount, 200_000_000);
}

#[test]
fn averages_ignore_order() {
    let w1 = vec![
        VoteEntry {
            operator: String::from("a"),
            coins: vec![Coin { denom: String::from("uusd"), amount: 100_000_000 }],
            txhash: String::from("t1"),
        },
        VoteEntry {
            operator: String::from("b"),
            coins: vec![Coin { denom: String::from("uusd"), amount: 102_000_000 }],
            txhash: String::from("t2"),
        },
    ];
    let o1 = OracleActor {
        validator_vote_prices: w1,
        ..OracleActor::create(params(5, 10_000, 1_000))
    };
    let e1 = o1.do_price_averages(5);
    assert!(e1.is_empty());
}
