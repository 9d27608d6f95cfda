use constellation::bus::EventBus;
use constellation::intake::{
    get_required_kv, process_block_emit, process_event, step, IntakeAction, IntakeInput,
    IntakeState,
};
use constellation::messages::{Event, EventKind, MessageStop};
use constellation::types::{
    NewBlock, NewBlockAttributes, NewBlockBeginBlock, NewBlockData, NewBlockEndBlock,
    NewBlockEvent,
};

fn attr(key: &str, value: Option<&str>) -> NewBlockAttributes {
    NewBlockAttributes { key: String::from(key), value: value.map(String::from) }
}

#[test]
fn required_kv_takes_last_value() {
    let attrs = vec![
        attr("validator", Some("v1")),
        attr("amount", Some("2uluna")),
        attr("validator", Some("v2")),
    ];
    assert_eq!(get_required_kv(&attrs, "validator"), Some(String::from("v2")));
    assert_eq!(get_required_kv(&attrs, "amount"), Some(String::from("2uluna")));
    assert_eq!(get_required_kv(&attrs, "missing"), None);
}

#[test]
fn classifies_reward_event() {
    let ev = NewBlockEvent {
        s_type: String::from("rewards"),
        attributes: vec![attr("validator", Some("valoper1")), attr("amount", Some("2uluna"))],
    };
    match process_event(7, true, &ev) {
        Some(Event::BlockEventReward(m)) => {
            assert_eq!(m.height, 7);
            assert!(m.is_begin);
            assert!(!m.is_proposer);
            assert_eq!(m.validator, "valoper1");
            assert_eq!(m.amount.len(), 1);
            assert_eq!(m.amount[0].amount, 2_000_000);
        }
        other => panic!("expected a reward event, got {:?}", other),
    }
}

#[test]
fn missing_required_attribute_drops_event() {
    let ev = NewBlockEvent {
        s_type: String::from("rewards"),
        attributes: vec![attr("amount", Some("2uluna"))],
    };
    assert!(process_event(7, true, &ev).is_none());
}

#[test]
fn unknown_event_type_is_not_republished() {
    let ev = NewBlockEvent { s_type: String::from("wormhole"), attributes: vec![] };
    assert!(process_event(7, false, &ev).is_none());
}

#[test]
fn liveness_event_defaults_missed_to_zero() {
    let ev = NewBlockEvent {
        s_type: String::from("liveness"),
        attributes: vec![attr("address", Some("cons1"))],
    };
    match process_event(9, true, &ev) {
        Some(Event::BlockEventLiveness(m)) => {
            assert_eq!(m.tendermint_address, "cons1");
            assert_eq!(m.missed, 0);
        }
        other => panic!("expected a liveness event, got {:?}", other),
    }
}

#[test]
fn exchange_rate_event_parses_rate() {
    let ev = NewBlockEvent {
        s_type: String::from("exchange_rate_update"),
        attributes: vec![attr("denom", Some("uusd")), attr("exchange_rate", Some("34.75"))],
    };
    match process_event(9, false, &ev) {
        Some(Event::BlockEventExchangeRate(m)) => {
            assert_eq!(m.denom, "uusd");
            assert_eq!(m.exchange_rate, 34_750_000);
        }
        other => panic!("expected an exchange-rate event, got {:?}", other),
    }
}

fn block_with_one_reward(height: u64) -> NewBlock {
    NewBlock {
        chain_id: String::from("columbus-4"),
        s_type: String::from("new_block"),
        data: NewBlockData {
            height,
            result_begin_block: NewBlockBeginBlock {
                events: vec![NewBlockEvent {
                    s_type: String::from("rewards"),
                    attributes: vec![
                        attr("validator", Some("valoper1")),
                        attr("amount", Some("3uluna")),
                    ],
                }],
            },
            result_end_block: NewBlockEndBlock { validator_updates: vec![], events: None },
            txs: None,
        },
    }
}

#[test]
fn block_emits_each_event_once() {
    let events = process_block_emit(block_with_one_reward(11));
    assert_eq!(events.len(), 1);
    match &events[0] {
        Event::BlockEventReward(m) => assert_eq!(m.height, 11),
        other => panic!("unexpected event {:?}", other),
    }
}

#[test]
fn reconnect_cycle_resumes_streaming() {
    // a disconnect enters backoff, one interval later it reconnects, and
    // the next successful connect resumes streaming
    let s1 = step(IntakeState::Streaming, IntakeInput::TransportError);
    assert_eq!(s1.state, IntakeState::Backoff);
    assert_eq!(s1.actions, vec![IntakeAction::SleepBackoff]);
    assert!(s1.events.is_empty());
    let s2 = step(s1.state, IntakeInput::BackoffElapsed);
    assert_eq!(s2.state, IntakeState::Connecting);
    let s3 = step(s2.state, IntakeInput::ConnectOk);
    assert_eq!(s3.state, IntakeState::Streaming);
    assert_eq!(s3.actions, vec![IntakeAction::SendSubscribe]);
    let s4 = step(s3.state, IntakeInput::Frame(block_with_one_reward(12)));
    assert_eq!(s4.state, IntakeState::Streaming);
    assert_eq!(s4.events.len(), 1);
}

#[test]
fn ping_is_answered_immediately() {
    let s = step(IntakeState::Streaming, IntakeInput::Ping);
    assert_eq!(s.state, IntakeState::Streaming);
    assert_eq!(s.actions, vec![IntakeAction::SendPong]);
}

#[test]
fn bus_delivers_subscribed_kinds_in_order_exactly_once() {
    let mut bus = EventBus::new();
    let sub = bus.subscribe(vec![EventKind::Stop]);
    bus.publish(Event::Stop(MessageStop {}));
    bus.publish(Event::Tick(constellation::messages::MessageTick {
        duration_secs: 60,
        now: 0,
    }));
    bus.publish(Event::Stop(MessageStop {}));
    let first = bus.poll(sub).expect("first stop");
    assert!(matches!(bus.event_at(first), Event::Stop(_)));
    let second = bus.poll(sub).expect("second stop");
    assert!(second > first);
    assert!(matches!(bus.event_at(second), Event::Stop(_)));
    assert!(bus.poll(sub).is_none());
}

#[test]
fn late_subscriber_sees_no_replay() {
    let mut bus = EventBus::new();
    bus.publish(Event::Stop(MessageStop {}));
    let sub = bus.subscribe(vec![EventKind::Stop]);
    assert!(bus.poll(sub).is_none());
}
