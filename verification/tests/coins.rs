use fee_events::coin::format_coin;
use fee_events::coin::format_coin_list;
use fee_events::coin::parse_coin;
use fee_events::coin::parse_coin_list;
use fee_events::coin::CoinError;
use fee_events::coin::RawCoin;
use fee_events::identifier::ChannelId;
use fee_events::identifier::IdentifierError;
use fee_events::identifier::PortId;

fn coin(amount: u64, denom: &str) -> RawCoin {
    RawCoin { denom: denom.to_string(), amount }
}

#[test]
fn coin_formats_amount_then_denom() {
    assert_eq!(format_coin(&coin(100, "atom")), "100atom");
    assert_eq!(format_coin(&coin(0, "ibc/27394FB092D2EC")), "0ibc/27394FB092D2EC");
}

#[test]
fn coin_parses_back() {
    assert_eq!(parse_coin("100atom"), Ok(coin(100, "atom")));
    assert_eq!(parse_coin("5stake-x_2"), Ok(coin(5, "stake-x_2")));
    assert_eq!(parse_coin("atom"), Err(CoinError::MissingAmount));
    assert_eq!(parse_coin(""), Err(CoinError::MissingAmount));
    assert_eq!(parse_coin("100"), Err(CoinError::MissingDenom));
    assert_eq!(parse_coin("1007atom"), Ok(coin(1007, "atom")));
}

#[test]
fn coin_denom_must_start_with_letter() {
    assert_eq!(parse_coin("100_atom"), Err(CoinError::InvalidDenom));
    assert_eq!(parse_coin("100 atom"), Err(CoinError::InvalidDenom));
}

#[test]
fn coin_list_round_trip() {
    let coins = vec![coin(100, "atom"), coin(50, "uosmo"), coin(1, "ibc/AB:CD.E_F-G")];
    let s = format_coin_list(&coins);
    assert_eq!(s, "100atom,50uosmo,1ibc/AB:CD.E_F-G");
    assert_eq!(parse_coin_list(&s), Ok(coins));
}

#[test]
fn empty_coin_list_is_empty_string() {
    assert_eq!(format_coin_list(&vec![]), "");
    assert_eq!(parse_coin_list(""), Ok(vec![]));
}

#[test]
fn trailing_comma_is_a_bad_coin() {
    assert_eq!(parse_coin_list("100atom,"), Err(CoinError::MissingAmount));
}

#[test]
fn identifiers_validate_their_grammar() {
    assert!(PortId::parse("transfer").is_ok());
    assert_eq!(PortId::parse("transfer").unwrap().as_str(), "transfer");
    assert_eq!(PortId::parse("x"), Err(IdentifierError::InvalidLength));
    assert_eq!(
        PortId::parse(&"p".repeat(129)),
        Err(IdentifierError::InvalidLength)
    );
    assert_eq!(PortId::parse("ab/cd"), Err(IdentifierError::InvalidCharacter));
    assert!(ChannelId::parse("channel-0").is_ok());
    assert_eq!(ChannelId::parse("channel"), Err(IdentifierError::InvalidLength));
    assert_eq!(
        ChannelId::parse(&"c".repeat(65)),
        Err(IdentifierError::InvalidLength)
    );
    assert_eq!(
        ChannelId::parse("channel 0"),
        Err(IdentifierError::InvalidCharacter)
    );
}
