use constellation::coins::{parse_amount, parse_coins, parse_u64};
use constellation::text::{str_eq, u64_to_string, Text};
use constellation::errors::ConstellationBGPError;

#[test]
fn parses_single_coin() {
    let coins = parse_coins("100uusd").unwrap();
    assert_eq!(coins.len(), 1);
    assert_eq!(coins[0].denom, "uusd");
    assert_eq!(coins[0].amount, 100_000_000);
}

#[test]
fn parses_coin_list_with_fractions() {
    let coins = parse_coins("34.75uusd,0.5ukrw,7uluna").unwrap();
    assert_eq!(coins.len(), 3);
    assert_eq!(coins[0].denom, "uusd");
    assert_eq!(coins[0].amount, 34_750_000);
    assert_eq!(coins[1].denom, "ukrw");
    assert_eq!(coins[1].amount, 500_000);
    assert_eq!(coins[2].denom, "uluna");
    assert_eq!(coins[2].amount, 7_000_000);
}

#[test]
fn truncates_fraction_beyond_six_digits() {
    let coins = parse_coins("34.750000000000000000uusd").unwrap();
    assert_eq!(coins[0].amount, 34_750_000);
}

#[test]
fn parses_tiny_amount() {
    let coins = parse_coins("0.0001uusd").unwrap();
    assert_eq!(coins[0].amount, 100);
}

#[test]
fn empty_string_is_no_coins() {
    assert!(parse_coins("").unwrap().is_empty());
}

#[test]
fn rejects_malformed_coins() {
    assert!(parse_coins("uusd").is_err());
    assert!(parse_coins("100").is_err());
    assert!(parse_coins("100uusd,").is_err());
    assert!(parse_coins("100.uusd").is_err());
    assert!(parse_coins("100uUsd").is_err());
    assert!(parse_coins(",").is_err());
}

#[test]
fn parses_bare_amounts() {
    assert_eq!(parse_amount("34.75"), Some(34_750_000));
    assert_eq!(parse_amount("2"), Some(2_000_000));
    assert_eq!(parse_amount("abc"), None);
    assert_eq!(parse_amount("1.2.3"), None);
}

#[test]
fn parses_integers() {
    assert_eq!(parse_u64("123"), Some(123));
    assert_eq!(parse_u64(""), None);
    assert_eq!(parse_u64("12a"), None);
}

#[test]
fn renders_decimal() {
    assert_eq!(u64_to_string(0), "0");
    assert_eq!(u64_to_string(12345), "12345");
    assert_eq!(u64_to_string(1_000_000), "1000000");
}

#[test]
fn compares_strings() {
    assert!(str_eq("uusd", "uusd"));
    assert!(!str_eq("uusd", "uluna"));
    assert!(!str_eq("uusd", "uus"));
}

#[test]
fn text_round_trips_bytes() {
    let t = Text::from_str("node-1");
    let u = Text::from_str("node-1");
    assert!(t.eq_text(&u));
    assert!(!t.eq_text(&Text::from_str("node-2")));
}

#[test]
fn error_text_names_the_ip() {
    let e = ConstellationBGPError::BadIp(String::from("1.2.3.4"));
    assert_eq!(e.text(), "Bad IP ? 1.2.3.4");
}
