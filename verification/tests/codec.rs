use fee_events::coin::CoinError;
use fee_events::coin::RawCoin;
use fee_events::decimal::format_u64;
use fee_events::decimal::parse_u64;
use fee_events::decimal::NumberError;
use fee_events::errors::Error;
use fee_events::events::IncentivizedPacket;
use fee_events::events::Sequence;
use fee_events::from_wire;
use fee_events::identifier::ChannelId;
use fee_events::identifier::IdentifierError;
use fee_events::identifier::PortId;
use fee_events::to_wire;
use fee_events::wire::Tag;

fn coin(amount: u64, denom: &str) -> RawCoin {
    RawCoin { denom: denom.to_string(), amount }
}

fn sample_packet() -> IncentivizedPacket {
    IncentivizedPacket {
        port_id: PortId::parse("transfer").unwrap(),
        channel_id: ChannelId::parse("channel-0").unwrap(),
        sequence: Sequence(5),
        total_recv_fee: vec![coin(100, "atom")],
        total_ack_fee: vec![coin(50, "uosmo")],
        total_timeout_fee: vec![],
    }
}

fn sample_tags() -> Vec<Tag> {
    to_wire(sample_packet()).attributes
}

#[test]
fn round_trip_simple() {
    let packet = sample_packet();
    let event = to_wire(packet.clone());
    let decoded = from_wire(&event.attributes).unwrap();
    assert_eq!(decoded, packet);
}

#[test]
fn round_trip_largest_sequence() {
    let mut packet = sample_packet();
    packet.sequence = Sequence(u64::MAX);
    let event = to_wire(packet.clone());
    assert_eq!(event.attributes[2].value, "18446744073709551615");
    let decoded = from_wire(&event.attributes).unwrap();
    assert_eq!(decoded, packet);
}

#[test]
fn encoded_event_shape() {
    let event = to_wire(sample_packet());
    assert_eq!(event.event_type, "incentivized_ibc_packet");
    let keys: Vec<&str> = event.attributes.iter().map(|t| t.key.as_str()).collect();
    assert_eq!(
        keys,
        vec!["port_id", "channel_id", "packet_sequence", "recv_fee", "ack_fee", "timeout_fee"]
    );
    assert_eq!(event.attributes[0].value, "transfer");
    assert_eq!(event.attributes[1].value, "channel-0");
    assert_eq!(event.attributes[2].value, "5");
    assert_eq!(event.attributes[3].value, "100atom");
    assert_eq!(event.attributes[4].value, "50uosmo");
    assert_eq!(event.attributes[5].value, "");
}

#[test]
fn empty_fee_lists_encode_as_empty_strings() {
    let mut packet = sample_packet();
    packet.total_recv_fee = vec![];
    packet.total_ack_fee = vec![];
    packet.total_timeout_fee = vec![];
    let event = to_wire(packet.clone());
    assert_eq!(event.attributes[3].value, "");
    assert_eq!(event.attributes[4].value, "");
    assert_eq!(event.attributes[5].value, "");
    let decoded = from_wire(&event.attributes).unwrap();
    assert_eq!(decoded.total_recv_fee, vec![]);
    assert_eq!(decoded.total_ack_fee, vec![]);
    assert_eq!(decoded.total_timeout_fee, vec![]);
}

#[test]
fn multi_coin_fee_list() {
    let mut packet = sample_packet();
    packet.total_recv_fee = vec![coin(100, "atom"), coin(50, "uosmo")];
    let event = to_wire(packet.clone());
    assert_eq!(event.attributes[3].value, "100atom,50uosmo");
    let decoded = from_wire(&event.attributes).unwrap();
    assert_eq!(decoded.total_recv_fee, vec![coin(100, "atom"), coin(50, "uosmo")]);
}

#[test]
fn missing_each_key_is_reported_by_name() {
    let keys = ["port_id", "channel_id", "packet_sequence", "recv_fee", "ack_fee", "timeout_fee"];
    for missing in keys {
        let tags: Vec<Tag> =
            sample_tags().into_iter().filter(|t| t.key != missing).collect();
        let err = from_wire(&tags).unwrap_err();
        assert_eq!(err, Error::MissingAttribute { key: missing.to_string() });
    }
}

#[test]
fn decode_is_order_independent() {
    let mut tags = sample_tags();
    tags.reverse();
    let decoded = from_wire(&tags).unwrap();
    assert_eq!(decoded, sample_packet());
    tags.swap(1, 4);
    let decoded = from_wire(&tags).unwrap();
    assert_eq!(decoded, sample_packet());
}

#[test]
fn malformed_sequence_is_invalid_sequence() {
    let mut tags = sample_tags();
    tags[2] = Tag::new("packet_sequence", "abc");
    let err = from_wire(&tags).unwrap_err();
    assert_eq!(err, Error::InvalidSequence { cause: NumberError::InvalidDigit });
}

#[test]
fn empty_sequence_is_invalid_sequence() {
    let mut tags = sample_tags();
    tags[2] = Tag::new("packet_sequence", "");
    let err = from_wire(&tags).unwrap_err();
    assert_eq!(err, Error::InvalidSequence { cause: NumberError::Empty });
}

#[test]
fn oversized_sequence_is_invalid_sequence() {
    let mut tags = sample_tags();
    tags[2] = Tag::new("packet_sequence", "18446744073709551616");
    let err = from_wire(&tags).unwrap_err();
    assert_eq!(err, Error::InvalidSequence { cause: NumberError::Overflow });
}

#[test]
fn unknown_extra_attributes_are_ignored() {
    let mut tags = sample_tags();
    tags.insert(0, Tag::new("msg_index", "0"));
    tags.insert(4, Tag::new("fee", "77stake"));
    tags.push(Tag::new("signer", "cosmos1abcdef"));
    let decoded = from_wire(&tags).unwrap();
    assert_eq!(decoded, sample_packet());
}

#[test]
fn duplicate_key_first_match_wins() {
    let mut tags = sample_tags();
    tags.push(Tag::new("packet_sequence", "999"));
    let decoded = from_wire(&tags).unwrap();
    assert_eq!(decoded.sequence, Sequence(5));
}

#[test]
fn bad_port_identifier_character() {
    let mut tags = sample_tags();
    tags[0] = Tag::new("port_id", "tra nsfer");
    let err = from_wire(&tags).unwrap_err();
    assert_eq!(
        err,
        Error::InvalidIdentifier {
            key: "port_id".to_string(),
            cause: IdentifierError::InvalidCharacter,
        }
    );
}

#[test]
fn bad_port_identifier_length() {
    let mut tags = sample_tags();
    tags[0] = Tag::new("port_id", "p");
    let err = from_wire(&tags).unwrap_err();
    assert_eq!(
        err,
        Error::InvalidIdentifier {
            key: "port_id".to_string(),
            cause: IdentifierError::InvalidLength,
        }
    );
}

#[test]
fn bad_channel_identifier_length() {
    let mut tags = sample_tags();
    tags[1] = Tag::new("channel_id", "chan");
    let err = from_wire(&tags).unwrap_err();
    assert_eq!(
        err,
        Error::InvalidIdentifier {
            key: "channel_id".to_string(),
            cause: IdentifierError::InvalidLength,
        }
    );
}

#[test]
fn port_error_precedes_missing_channel() {
    // Keys are checked in their fixed order, value parse included, so a bad
    // port identifier is reported before a missing channel key.
    let tags = vec![
        Tag::new("port_id", "!"),
        Tag::new("packet_sequence", "1"),
        Tag::new("recv_fee", ""),
        Tag::new("ack_fee", ""),
        Tag::new("timeout_fee", ""),
    ];
    let err = from_wire(&tags).unwrap_err();
    assert_eq!(
        err,
        Error::InvalidIdentifier {
            key: "port_id".to_string(),
            cause: IdentifierError::InvalidLength,
        }
    );
}

#[test]
fn coin_list_without_amount() {
    let mut tags = sample_tags();
    tags[3] = Tag::new("recv_fee", "atom");
    let err = from_wire(&tags).unwrap_err();
    assert_eq!(
        err,
        Error::InvalidCoinList { key: "recv_fee".to_string(), cause: CoinError::MissingAmount }
    );
}

#[test]
fn coin_list_without_denom() {
    let mut tags = sample_tags();
    tags[4] = Tag::new("ack_fee", "100");
    let err = from_wire(&tags).unwrap_err();
    assert_eq!(
        err,
        Error::InvalidCoinList { key: "ack_fee".to_string(), cause: CoinError::MissingDenom }
    );
}

#[test]
fn coin_list_with_oversized_amount() {
    let mut tags = sample_tags();
    tags[5] = Tag::new("timeout_fee", "18446744073709551616atom");
    let err = from_wire(&tags).unwrap_err();
    assert_eq!(
        err,
        Error::InvalidCoinList {
            key: "timeout_fee".to_string(),
            cause: CoinError::AmountOverflow,
        }
    );
}

#[test]
fn coin_list_with_bad_denom() {
    let mut tags = sample_tags();
    tags[3] = Tag::new("recv_fee", "100at~om");
    let err = from_wire(&tags).unwrap_err();
    assert_eq!(
        err,
        Error::InvalidCoinList { key: "recv_fee".to_string(), cause: CoinError::InvalidDenom }
    );
}

#[test]
fn coin_list_with_empty_part() {
    let mut tags = sample_tags();
    tags[3] = Tag::new("recv_fee", "100atom,,50uosmo");
    let err = from_wire(&tags).unwrap_err();
    assert_eq!(
        err,
        Error::InvalidCoinList { key: "recv_fee".to_string(), cause: CoinError::MissingAmount }
    );
}

#[test]
fn coin_amount_leading_zeros_decode() {
    let mut tags = sample_tags();
    tags[3] = Tag::new("recv_fee", "007atom");
    let decoded = from_wire(&tags).unwrap();
    assert_eq!(decoded.total_recv_fee, vec![coin(7, "atom")]);
}

#[test]
fn decimal_format_and_parse() {
    assert_eq!(format_u64(0), "0");
    assert_eq!(format_u64(10), "10");
    assert_eq!(format_u64(18446744073709551615), "18446744073709551615");
    assert_eq!(parse_u64("0"), Ok(0));
    assert_eq!(parse_u64("18446744073709551615"), Ok(18446744073709551615));
    assert_eq!(parse_u64("18446744073709551616"), Err(NumberError::Overflow));
    assert_eq!(parse_u64(""), Err(NumberError::Empty));
    assert_eq!(parse_u64("12c"), Err(NumberError::InvalidDigit));
}

#[test]
fn error_key_names_offending_attribute() {
    let mut tags = sample_tags();
    tags[2] = Tag::new("packet_sequence", "abc");
    let err = from_wire(&tags).unwrap_err();
    assert_eq!(err.key(), "packet_sequence");
    let tags: Vec<Tag> = sample_tags().into_iter().filter(|t| t.key != "ack_fee").collect();
    let err = from_wire(&tags).unwrap_err();
    assert_eq!(err.key(), "ack_fee");
}
