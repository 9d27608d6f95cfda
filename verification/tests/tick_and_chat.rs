use constellation::coins::Coin;
use constellation::discord::{DiscordAction, DiscordValidatorActor, GuildChannel};
use constellation::enrich::{asn_details_hostname, asn_query_hostname, split_string, trim};
use constellation::messages::{
    Event, MessageBlockEventReward, MessageTick, MessageValidator, MessageValidatorEvent,
    ValidatorEventType,
};
use constellation::peers::{run_task, PeerInfo};
use constellation::tracker::create;
use constellation::types::{TendermintValidatorInfo, ValidatorInfo};

fn vinfo(op: &str, pubkey: &str, moniker: &str, tokens: u64) -> ValidatorInfo {
    ValidatorInfo {
        operator_address: String::from(op),
        consensus_pubkey: String::from(pubkey),
        moniker: String::from(moniker),
        tokens,
    }
}

#[test]
fn hourly_roll_reports_rates_and_summary() {
    let validators = vec![vinfo("valoper1", "pk1", "one", 10)];
    let (mut a, _) = create(10, 0, validators, vec![]);
    // accumulate 240 native units for valoper1
    a.handle_reward(&MessageBlockEventReward {
        height: 11,
        is_begin: true,
        is_proposer: false,
        validator: String::from("valoper1"),
        amount: vec![Coin { denom: String::from("uluna"), amount: 240 }],
    });
    // first tick only seeds the cumulative bucket
    let r1 = a.handle_tick(&MessageTick { duration_secs: 300, now: 1000 });
    assert!(r1.is_empty());
    assert_eq!(a.rewards_cumulative.len(), 1);
    assert_eq!(a.rewards_cumulative[0].1, 240);
    assert!(a.rewards.is_empty());
    // an hour boundary rolls the bucket: rate = 240 / 10 * 24 = 576
    let r2 = a.handle_tick(&MessageTick { duration_secs: 300, now: 1000 + 3600 });
    // one roll alert plus the announcement (single validator: no over/under)
    assert_eq!(r2.len(), 2);
    match &r2[0] {
        Event::ValidatorAlert(al) => {
            assert_eq!(al.operator_address, "valoper1");
            assert!(matches!(al.event_type, ValidatorEventType::INFO));
            assert!(al.message.contains("576"));
        }
        other => panic!("expected an alert, got {:?}", other),
    }
    match &r2[1] {
        Event::SendMessage(m) => {
            assert!(matches!(m.event_type, ValidatorEventType::ANNOUNCE));
            assert_eq!(m.message, "Average Rate = 576 #over allowance of 5% = 0 #below allowance of 5% 0");
        }
        other => panic!("expected the announcement, got {:?}", other),
    }
}

#[test]
fn chat_actor_requests_channel_and_sends_alerts() {
    let mut d = DiscordValidatorActor::create(String::from("api-token"), String::from("wss://gw"), 3);
    d.guild_id = Some(42);
    let refresh = MessageValidator {
        height: 5,
        operator_address: String::from("valoper1"),
        validator: vinfo("valoper1", "pk1", "One & Only", 10),
        tendermint: None,
    };
    let actions = d.handle_validator(&refresh, String::from("one-and-only"));
    assert_eq!(actions.len(), 1);
    match &actions[0] {
        DiscordAction::CreateChannel { guild_id, name, topic } => {
            assert_eq!(*guild_id, 42);
            assert_eq!(name, "one-and-only");
            assert_eq!(topic, "valoper1");
        }
        other => panic!("expected a channel request, got {:?}", other),
    }
    // once the channel is known, alerts go to it; warnings also announce
    d.validator_discord_map.push((String::from("valoper1"), 777));
    d.announcement_channel = Some(GuildChannel { guild_id: 42, channel_id: 900 });
    let alert = MessageValidatorEvent {
        height: 6,
        operator_address: String::from("valoper1"),
        moniker: Some(String::from("One & Only")),
        event_type: ValidatorEventType::WARN,
        message: String::from("missed blocks"),
        hash: None,
    };
    let sends = d.handle_validator_event(&alert);
    assert_eq!(sends.len(), 2);
    match &sends[1] {
        DiscordAction::SendMessage { channel_id, message, .. } => {
            assert_eq!(*channel_id, 777);
            assert_eq!(message, "Height:6 missed blocks");
        }
        other => panic!("expected a send, got {:?}", other),
    }
    match &sends[0] {
        DiscordAction::SendMessage { channel_id, message, .. } => {
            assert_eq!(*channel_id, 900);
            assert_eq!(message, "WARN @6 One & Only missed blocks");
        }
        other => panic!("expected the announcement, got {:?}", other),
    }
    // an unknown operator's alert is dropped
    let stray = MessageValidatorEvent {
        height: 7,
        operator_address: String::from("valoperX"),
        moniker: None,
        event_type: ValidatorEventType::INFO,
        message: String::from("hello"),
        hash: None,
    };
    assert!(d.handle_validator_event(&stray).is_empty());
}

fn peer(id: &str, listen: &str, rpc: &str) -> PeerInfo {
    PeerInfo {
        id: String::from(id),
        listen_addr: String::from(listen),
        rpc_address: String::from(rpc),
    }
}

#[test]
fn peer_scan_keeps_public_addresses() {
    let peers = vec![
        peer("a", "tcp://1.2.3.4:26656", "tcp://127.0.0.1:26657"),
        peer("b", "tcp://10.0.0.5:26656", "tcp://5.6.7.8:26657"),
        peer("c", "tcp://192.168.1.2:26656", "tcp://172.16.0.1:26657"),
    ];
    let (open_rpc, open_peers) = run_task(&peers);
    assert_eq!(open_rpc, vec![String::from("tcp://5.6.7.8:26657")]);
    assert_eq!(open_peers, vec![String::from("a@1.2.3.4:26656")]);
}

#[test]
fn asn_lookup_names_reverse_the_octets() {
    let h = asn_query_hostname("1.2.3.4").unwrap();
    assert_eq!(h, "4.3.2.1.origin.asn.cymru.com.");
    assert!(asn_query_hostname("1.2.3").is_err());
    assert_eq!(asn_details_hostname("64500"), "as64500.asn.cymru.com.");
}

#[test]
fn answer_records_split_and_trim() {
    let fields = split_string("64500 | 1.2.3.0/24 | DE | ripencc | desc", '|');
    assert_eq!(fields.len(), 5);
    assert_eq!(trim(fields[0].as_str()), "64500");
    assert_eq!(trim(fields[2].as_str()), "DE");
    assert_eq!(trim("  spaced  "), "spaced");
    assert_eq!(trim(""), "");
}
