//! The incentivized-packet fee event and its codec.
//!
//! `to_wire` renders an [`IncentivizedPacket`] into a wire event: the
//! canonical type name and six attributes, keyed `port_id`, `channel_id`,
//! `packet_sequence`, `recv_fee`, `ack_fee` and `timeout_fee`, in that
//! order. `from_wire` reads an attribute list back, looking each key up by
//! a first-match scan and parsing its value with the field's own grammar,
//! and fails on the first missing key or malformed value. The proof
//! functions at the end state the codec's laws: decoding inverts encoding,
//! a missing key is reported by name, decoding does not depend on attribute
//! order, and unrecognized attributes are ignored.

use vstd::prelude::*;

use crate::coin::coin_list_str;
use crate::coin::coin_valid;
use crate::coin::coins_view;
use crate::coin::format_coin_list;
use crate::coin::lemma_coin_list_round_trip;
use crate::coin::parse_coin_list;
use crate::coin::parse_coin_list_spec;
use crate::coin::CoinView;
use crate::coin::RawCoin;
use crate::decimal::dec_rep;
use crate::decimal::format_u64;
use crate::decimal::lemma_dec_rep_digits;
use crate::decimal::lemma_dec_rep_val;
use crate::decimal::parse_u64;
use crate::decimal::parse_u64_spec;
use crate::errors::Error;
use crate::errors::ErrorView;
use crate::identifier::identifier_error;
use crate::identifier::valid_channel_id;
use crate::identifier::valid_port_id;
use crate::identifier::ChannelId;
use crate::identifier::PortId;
use crate::wire::find_spec;
use crate::wire::find_value;
use crate::wire::lemma_find_contains;
use crate::wire::lemma_find_unambiguous;
use crate::wire::tags_view;
use crate::wire::Tag;
use crate::wire::TagView;
use crate::wire::WireEvent;

verus! {

/// A packet's position in its channel's order.
#[derive(Clone, Copy, Debug, PartialEq, Eq, Structural)]
pub struct Sequence(pub u64);

impl View for Sequence {
    type V = u64;

    open spec fn view(&self) -> u64 {
        self.0
    }
}

/// The cumulative fees promised for one packet's lifecycle on a channel:
/// one fee list for each relay step that can earn a fee.
#[derive(Debug, Clone, PartialEq, Eq)]
pub struct IncentivizedPacket {
    pub port_id: PortId,
    pub channel_id: ChannelId,
    pub sequence: Sequence,
    pub total_recv_fee: Vec<RawCoin>,
    pub total_ack_fee: Vec<RawCoin>,
    pub total_timeout_fee: Vec<RawCoin>,
}

/// The mathematical content of an [`IncentivizedPacket`].
pub ghost struct PacketView {
    pub port_id: Seq<char>,
    pub channel_id: Seq<char>,
    pub sequence: u64,
    pub total_recv_fee: Seq<CoinView>,
    pub total_ack_fee: Seq<CoinView>,
    pub total_timeout_fee: Seq<CoinView>,
}

impl View for IncentivizedPacket {
    type V = PacketView;

    open spec fn view(&self) -> PacketView {
        PacketView {
            port_id: self.port_id@,
            channel_id: self.channel_id@,
            sequence: self.sequence@,
            total_recv_fee: coins_view(self.total_recv_fee@),
            total_ack_fee: coins_view(self.total_ack_fee@),
            total_timeout_fee: coins_view(self.total_timeout_fee@),
        }
    }
}

/// Every coin of the list has a well-formed denomination.
pub open spec fn fee_list_valid(coins: Seq<CoinView>) -> bool {
    forall|i: int| 0 <= i < coins.len() ==> coin_valid(#[trigger] coins[i])
}

/// A well-formed packet: identifiers and denominations obey their grammars.
/// Every packet built from parsed parts satisfies this.
pub open spec fn packet_valid(m: PacketView) -> bool {
    &&& valid_port_id(m.port_id)
    &&& valid_channel_id(m.channel_id)
    &&& fee_list_valid(m.total_recv_fee)
    &&& fee_list_valid(m.total_ack_fee)
    &&& fee_list_valid(m.total_timeout_fee)
}

/// The canonical type name of incentivized-packet events.
pub open spec fn event_type_name() -> Seq<char> {
    "incentivized_ibc_packet"@
}

/// The six attribute keys, in the order the encoder emits them.
pub open spec fn required_keys() -> Seq<Seq<char>> {
    seq![
        "port_id"@,
        "channel_id"@,
        "packet_sequence"@,
        "recv_fee"@,
        "ack_fee"@,
        "timeout_fee"@,
    ]
}

/// Whether `key` is one of the six the decoder reads.
pub open spec fn is_required_key(key: Seq<char>) -> bool {
    exists|k: int| 0 <= k < 6 && required_keys()[k] == key
}

/// The attribute list the encoder emits for a packet.
pub open spec fn encode_spec(m: PacketView) -> Seq<TagView> {
    seq![
        TagView { key: "port_id"@, value: m.port_id },
        TagView { key: "channel_id"@, value: m.channel_id },
        TagView { key: "packet_sequence"@, value: dec_rep(m.sequence as nat) },
        TagView { key: "recv_fee"@, value: coin_list_str(m.total_recv_fee) },
        TagView { key: "ack_fee"@, value: coin_list_str(m.total_ack_fee) },
        TagView { key: "timeout_fee"@, value: coin_list_str(m.total_timeout_fee) },
    ]
}

/// What the decoder returns for any attribute list: each required key in
/// turn is looked up (first match wins) and its value parsed; the first
/// missing key or malformed value is the result.
pub open spec fn decode_spec(attrs: Seq<TagView>) -> Result<PacketView, ErrorView> {
    match find_spec(attrs, "port_id"@) {
        None => Err(ErrorView::MissingAttribute { key: "port_id"@ }),
        Some(port_s) => if !valid_port_id(port_s) {
            Err(
                ErrorView::InvalidIdentifier {
                    key: "port_id"@,
                    cause: identifier_error(port_s, 2, 128),
                },
            )
        } else {
            match find_spec(attrs, "channel_id"@) {
                None => Err(ErrorView::MissingAttribute { key: "channel_id"@ }),
                Some(chan_s) => if !valid_channel_id(chan_s) {
                    Err(
                        ErrorView::InvalidIdentifier {
                            key: "channel_id"@,
                            cause: identifier_error(chan_s, 8, 64),
                        },
                    )
                } else {
                    match find_spec(attrs, "packet_sequence"@) {
                        None => Err(ErrorView::MissingAttribute { key: "packet_sequence"@ }),
                        Some(seq_s) => match parse_u64_spec(seq_s) {
                            Err(c) => Err(ErrorView::InvalidSequence { cause: c }),
                            Ok(n) => match find_spec(attrs, "recv_fee"@) {
                                None => Err(ErrorView::MissingAttribute { key: "recv_fee"@ }),
                                Some(recv_s) => match parse_coin_list_spec(recv_s) {
                                    Err(c) => Err(
                                        ErrorView::InvalidCoinList { key: "recv_fee"@, cause: c },
                                    ),
                                    Ok(recv) => match find_spec(attrs, "ack_fee"@) {
                                        None => Err(
                                            ErrorView::MissingAttribute { key: "ack_fee"@ },
                                        ),
                                        Some(ack_s) => match parse_coin_list_spec(ack_s) {
                                            Err(c) => Err(
                                                ErrorView::InvalidCoinList {
                                                    key: "ack_fee"@,
                                                    cause: c,
                                                },
                                            ),
                                            Ok(ack) => match find_spec(attrs, "timeout_fee"@) {
                                                None => Err(
                                                    ErrorView::MissingAttribute {
                                                        key: "timeout_fee"@,
                                                    },
                                                ),
                                                Some(to_s) => match parse_coin_list_spec(to_s) {
                                                    Err(c) => Err(
                                                        ErrorView::InvalidCoinList {
                                                            key: "timeout_fee"@,
                                                            cause: c,
                                                        },
                                                    ),
                                                    Ok(timeout) => Ok(
                                                        PacketView {
                                                            port_id: port_s,
                                                            channel_id: chan_s,
                                                            sequence: n,
                                                            total_recv_fee: recv,
                                                            total_ack_fee: ack,
                                                            total_timeout_fee: timeout,
                                                        },
                                                    ),
                                                },
                                            },
                                        },
                                    },
                                },
                            },
                        },
                    }
                },
            }
        },
    }
}

/// Render a packet as a wire event: the canonical type name and the six
/// attributes in their fixed order. Encoding never fails.
pub fn to_wire(packet: IncentivizedPacket) -> (r: WireEvent)
    ensures
        r.event_type@ == event_type_name(),
        tags_view(r.attributes@) == encode_spec(packet@),
{
    let mut attributes: Vec<Tag> = Vec::new();
    attributes.push(Tag::new("port_id", packet.port_id.as_str()));
    attributes.push(Tag::new("channel_id", packet.channel_id.as_str()));
    let seq_str = format_u64(packet.sequence.0);
    attributes.push(Tag::new("packet_sequence", seq_str.as_str()));
    let recv_str = format_coin_list(&packet.total_recv_fee);
    attributes.push(Tag::new("recv_fee", recv_str.as_str()));
    let ack_str = format_coin_list(&packet.total_ack_fee);
    attributes.push(Tag::new("ack_fee", ack_str.as_str()));
    let timeout_str = format_coin_list(&packet.total_timeout_fee);
    attributes.push(Tag::new("timeout_fee", timeout_str.as_str()));
    proof {
        assert(tags_view(attributes@) =~= encode_spec(packet@));
    }
    let event_type = "incentivized_ibc_packet".to_owned();
    WireEvent { event_type, attributes }
}

/// Decode an attribute list into a packet, or report the first missing key
/// or malformed value; extra attributes and duplicate keys are ignored.
pub fn from_wire(entries: &Vec<Tag>) -> (r: Result<IncentivizedPacket, Error>)
    ensures
        r is Ok ==> decode_spec(tags_view(entries@)) == Ok::<PacketView, ErrorView>(r->Ok_0@),
        r is Err ==> decode_spec(tags_view(entries@)) == Err::<PacketView, ErrorView>(r->Err_0@),
{
    let port_s = match find_value("port_id", entries) {
        Ok(s) => s,
        Err(e) => {
            return Err(e);
        },
    };
    let port_id = match PortId::parse(port_s.as_str()) {
        Ok(p) => p,
        Err(cause) => {
            return Err(Error::InvalidIdentifier { key: "port_id".to_owned(), cause });
        },
    };
    let chan_s = match find_value("channel_id", entries) {
        Ok(s) => s,
        Err(e) => {
            return Err(e);
        },
    };
    let channel_id = match ChannelId::parse(chan_s.as_str()) {
        Ok(c) => c,
        Err(cause) => {
            return Err(Error::InvalidIdentifier { key: "channel_id".to_owned(), cause });
        },
    };
    let seq_s = match find_value("packet_sequence", entries) {
        Ok(s) => s,
        Err(e) => {
            return Err(e);
        },
    };
    let sequence = match parse_u64(seq_s.as_str()) {
        Ok(n) => Sequence(n),
        Err(cause) => {
            return Err(Error::InvalidSequence { cause });
        },
    };
    let recv_s = match find_value("recv_fee", entries) {
        Ok(s) => s,
        Err(e) => {
            return Err(e);
        },
    };
    let total_recv_fee = match parse_coin_list(recv_s.as_str()) {
        Ok(coins) => coins,
        Err(cause) => {
            return Err(Error::InvalidCoinList { key: "recv_fee".to_owned(), cause });
        },
    };
    let ack_s = match find_value("ack_fee", entries) {
        Ok(s) => s,
        Err(e) => {
            return Err(e);
        },
    };
    let total_ack_fee = match parse_coin_list(ack_s.as_str()) {
        Ok(coins) => coins,
        Err(cause) => {
            return Err(Error::InvalidCoinList { key: "ack_fee".to_owned(), cause });
        },
    };
    let timeout_s = match find_value("timeout_fee", entries) {
        Ok(s) => s,
        Err(e) => {
            return Err(e);
        },
    };
    let total_timeout_fee = match parse_coin_list(timeout_s.as_str()) {
        Ok(coins) => coins,
        Err(cause) => {
            return Err(Error::InvalidCoinList { key: "timeout_fee".to_owned(), cause });
        },
    };
    Ok(
        IncentivizedPacket {
            port_id,
            channel_id,
            sequence,
            total_recv_fee,
            total_ack_fee,
            total_timeout_fee,
        },
    )
}

/// The six keys are pairwise distinct.
proof fn lemma_keys_distinct()
    ensures
        "port_id"@ != "channel_id"@,
        "port_id"@ != "packet_sequence"@,
        "port_id"@ != "recv_fee"@,
        "port_id"@ != "ack_fee"@,
        "port_id"@ != "timeout_fee"@,
        "channel_id"@ != "packet_sequence"@,
        "channel_id"@ != "recv_fee"@,
        "channel_id"@ != "ack_fee"@,
        "channel_id"@ != "timeout_fee"@,
        "packet_sequence"@ != "recv_fee"@,
        "packet_sequence"@ != "ack_fee"@,
        "packet_sequence"@ != "timeout_fee"@,
        "recv_fee"@ != "ack_fee"@,
        "recv_fee"@ != "timeout_fee"@,
        "ack_fee"@ != "timeout_fee"@,
{
    reveal_strlit("port_id");
    reveal_strlit("channel_id");
    reveal_strlit("packet_sequence");
    reveal_strlit("recv_fee");
    reveal_strlit("ack_fee");
    reveal_strlit("timeout_fee");
    assert("port_id"@.len() == 7);
    assert("channel_id"@.len() == 10);
    assert("packet_sequence"@.len() == 15);
    assert("recv_fee"@.len() == 8);
    assert("ack_fee"@.len() == 7);
    assert("timeout_fee"@.len() == 11);
    assert("port_id"@[0] == 'p');
    assert("ack_fee"@[0] == 'a');
}

/// Lookup finds the entry at `i` when no earlier entry carries the key.
proof fn lemma_find_at(attrs: Seq<TagView>, key: Seq<char>, i: int)
    requires
        0 <= i < attrs.len(),
        attrs[i].key == key,
        forall|j: int| 0 <= j < i ==> (#[trigger] attrs[j]).key != key,
    ensures
        find_spec(attrs, key) == Some(attrs[i].value),
    decreases i,
{
    if i > 0 {
        assert forall|j: int| 0 <= j < i - 1 implies (#[trigger] attrs.drop_first()[j]).key
            != key by {
            assert(attrs.drop_first()[j] == attrs[j + 1]);
        }
        assert(attrs.drop_first()[i - 1] == attrs[i]);
        lemma_find_at(attrs.drop_first(), key, i - 1);
    }
}

/// Looking any of the six keys up in an encoded packet yields the value the
/// encoder put there.
proof fn lemma_find_encoded(m: PacketView)
    ensures
        find_spec(encode_spec(m), "port_id"@) == Some(m.port_id),
        find_spec(encode_spec(m), "channel_id"@) == Some(m.channel_id),
        find_spec(encode_spec(m), "packet_sequence"@) == Some(dec_rep(m.sequence as nat)),
        find_spec(encode_spec(m), "recv_fee"@) == Some(coin_list_str(m.total_recv_fee)),
        find_spec(encode_spec(m), "ack_fee"@) == Some(coin_list_str(m.total_ack_fee)),
        find_spec(encode_spec(m), "timeout_fee"@) == Some(coin_list_str(m.total_timeout_fee)),
{
    lemma_keys_distinct();
    let attrs = encode_spec(m);
    lemma_find_at(attrs, "port_id"@, 0);
    lemma_find_at(attrs, "channel_id"@, 1);
    lemma_find_at(attrs, "packet_sequence"@, 2);
    lemma_find_at(attrs, "recv_fee"@, 3);
    lemma_find_at(attrs, "ack_fee"@, 4);
    lemma_find_at(attrs, "timeout_fee"@, 5);
}

/// Decoding inverts encoding: every well-formed packet comes back from its
/// own wire form unchanged.
pub proof fn lemma_round_trip(m: PacketView)
    requires
        packet_valid(m),
    ensures
        decode_spec(encode_spec(m)) == Ok::<PacketView, ErrorView>(m),
{
    lemma_find_encoded(m);
    lemma_dec_rep_digits(m.sequence as nat);
    lemma_dec_rep_val(m.sequence as nat);
    assert(parse_u64_spec(dec_rep(m.sequence as nat)) == Ok::<u64, crate::decimal::NumberError>(
        m.sequence,
    ));
    lemma_coin_list_round_trip(m.total_recv_fee);
    lemma_coin_list_round_trip(m.total_ack_fee);
    lemma_coin_list_round_trip(m.total_timeout_fee);
}

/// Whether the `j`-th decoding step accepts the value `v`.
pub open spec fn step_ok(j: int, v: Seq<char>) -> bool {
    if j == 0 {
        valid_port_id(v)
    } else if j == 1 {
        valid_channel_id(v)
    } else if j == 2 {
        parse_u64_spec(v) is Ok
    } else {
        parse_coin_list_spec(v) is Ok
    }
}

/// A missing required key is reported by exactly that key, whatever else
/// the list holds, as long as the keys checked before it are present and
/// their values parse.
pub proof fn lemma_missing_key_reported(attrs: Seq<TagView>, k: int)
    requires
        0 <= k < 6,
        find_spec(attrs, required_keys()[k]) is None,
        forall|j: int|
            0 <= j < k ==> find_spec(attrs, #[trigger] required_keys()[j]) is Some && step_ok(
                j,
                find_spec(attrs, required_keys()[j])->Some_0,
            ),
    ensures
        decode_spec(attrs) == Err::<PacketView, ErrorView>(
            ErrorView::MissingAttribute { key: required_keys()[k] },
        ),
{
    if k > 0 {
        assert(required_keys()[0] == "port_id"@);
    }
    if k > 1 {
        assert(required_keys()[1] == "channel_id"@);
    }
    if k > 2 {
        assert(required_keys()[2] == "packet_sequence"@);
    }
    if k > 3 {
        assert(required_keys()[3] == "recv_fee"@);
    }
    if k > 4 {
        assert(required_keys()[4] == "ack_fee"@);
    }
}

/// A present but non-numeric sequence value is reported as an invalid
/// sequence, carrying the number parser's cause, when the identifiers
/// before it are present and valid.
pub proof fn lemma_malformed_sequence_reported(attrs: Seq<TagView>)
    requires
        find_spec(attrs, "port_id"@) is Some,
        valid_port_id(find_spec(attrs, "port_id"@)->Some_0),
        find_spec(attrs, "channel_id"@) is Some,
        valid_channel_id(find_spec(attrs, "channel_id"@)->Some_0),
        find_spec(attrs, "packet_sequence"@) is Some,
        parse_u64_spec(find_spec(attrs, "packet_sequence"@)->Some_0) is Err,
    ensures
        decode_spec(attrs) == Err::<PacketView, ErrorView>(
            ErrorView::InvalidSequence {
                cause: parse_u64_spec(find_spec(attrs, "packet_sequence"@)->Some_0)->Err_0,
            },
        ),
{
}

/// All entries of `attrs` under `key` are one and the same tag.
pub open spec fn unambiguous_key(attrs: Seq<TagView>, key: Seq<char>) -> bool {
    forall|i: int, j: int|
        0 <= i < attrs.len() && 0 <= j < attrs.len() && (#[trigger] attrs[i]).key == key && (
        #[trigger] attrs[j]).key == key ==> attrs[i] == attrs[j]
}

/// Reordering a list does not change what lookup finds under a key that is
/// carried by at most one distinct entry.
proof fn lemma_find_permuted(a: Seq<TagView>, b: Seq<TagView>, key: Seq<char>)
    requires
        a.to_multiset() == b.to_multiset(),
        unambiguous_key(a, key),
    ensures
        find_spec(a, key) == find_spec(b, key),
{
    broadcast use vstd::seq_lib::group_to_multiset_ensures;

    lemma_find_contains(a, key);
    lemma_find_contains(b, key);
    match find_spec(a, key) {
        None => {
            if find_spec(b, key) is Some {
                let t = TagView { key, value: find_spec(b, key)->Some_0 };
                assert(b.contains(t));
                assert(b.to_multiset().count(t) > 0);
                assert(a.to_multiset().count(t) > 0);
                assert(a.contains(t));
                let i = choose|i: int| 0 <= i < a.len() && a[i] == t;
                assert(a[i].key == key);
            }
        },
        Some(v) => {
            let t = TagView { key, value: v };
            assert(a.contains(t));
            assert(a.to_multiset().count(t) > 0);
            assert(b.to_multiset().count(t) > 0);
            assert(b.contains(t));
            let ti = choose|i: int| 0 <= i < a.len() && a[i] == t;
            assert forall|i: int|
                0 <= i < b.len() && (#[trigger] b[i]).key == key implies b[i] == t by {
                assert(b.contains(b[i]));
                assert(b.to_multiset().count(b[i]) > 0);
                assert(a.to_multiset().count(b[i]) > 0);
                assert(a.contains(b[i]));
                let j = choose|j: int| 0 <= j < a.len() && a[j] == b[i];
                assert(a[j] == a[ti]);
            }
            lemma_find_unambiguous(b, key, t);
        },
    }
}

/// Decoding does not depend on the order of the attributes: two lists with
/// the same entries decode alike, as long as no required key is carried by
/// two different entries.
pub proof fn lemma_decode_order_independent(a: Seq<TagView>, b: Seq<TagView>)
    requires
        a.to_multiset() == b.to_multiset(),
        forall|k: int| 0 <= k < 6 ==> unambiguous_key(a, #[trigger] required_keys()[k]),
    ensures
        decode_spec(a) == decode_spec(b),
{
    assert(unambiguous_key(a, "port_id"@)) by {
        assert(required_keys()[0] == "port_id"@);
    }
    assert(unambiguous_key(a, "channel_id"@)) by {
        assert(required_keys()[1] == "channel_id"@);
    }
    assert(unambiguous_key(a, "packet_sequence"@)) by {
        assert(required_keys()[2] == "packet_sequence"@);
    }
    assert(unambiguous_key(a, "recv_fee"@)) by {
        assert(required_keys()[3] == "recv_fee"@);
    }
    assert(unambiguous_key(a, "ack_fee"@)) by {
        assert(required_keys()[4] == "ack_fee"@);
    }
    assert(unambiguous_key(a, "timeout_fee"@)) by {
        assert(required_keys()[5] == "timeout_fee"@);
    }
    lemma_find_permuted(a, b, "port_id"@);
    lemma_find_permuted(a, b, "channel_id"@);
    lemma_find_permuted(a, b, "packet_sequence"@);
    lemma_find_permuted(a, b, "recv_fee"@);
    lemma_find_permuted(a, b, "ack_fee"@);
    lemma_find_permuted(a, b, "timeout_fee"@);
}

/// Inserting an entry does not change what lookup finds under other keys.
proof fn lemma_find_insert(s: Seq<TagView>, e: TagView, at: int, key: Seq<char>)
    requires
        0 <= at <= s.len(),
        e.key != key,
    ensures
        find_spec(s.insert(at, e), key) == find_spec(s, key),
    decreases s.len(),
{
    let t = s.insert(at, e);
    if at == 0 {
        assert(t[0] == e);
        assert(t.drop_first() =~= s);
    } else {
        assert(t[0] == s[0]);
        assert(t.drop_first() =~= s.drop_first().insert(at - 1, e));
        lemma_find_insert(s.drop_first(), e, at - 1, key);
    }
}

/// An attribute under an unrecognized key changes nothing: the list with it
/// decodes exactly as the list without it, wherever it is inserted.
pub proof fn lemma_unrecognized_ignored(attrs: Seq<TagView>, extra: TagView, at: int)
    requires
        0 <= at <= attrs.len(),
        !is_required_key(extra.key),
    ensures
        decode_spec(attrs.insert(at, extra)) == decode_spec(attrs),
{
    assert(extra.key != "port_id"@) by {
        assert(required_keys()[0] == "port_id"@);
    }
    assert(extra.key != "channel_id"@) by {
        assert(required_keys()[1] == "channel_id"@);
    }
    assert(extra.key != "packet_sequence"@) by {
        assert(required_keys()[2] == "packet_sequence"@);
    }
    assert(extra.key != "recv_fee"@) by {
        assert(required_keys()[3] == "recv_fee"@);
    }
    assert(extra.key != "ack_fee"@) by {
        assert(required_keys()[4] == "ack_fee"@);
    }
    assert(extra.key != "timeout_fee"@) by {
        assert(required_keys()[5] == "timeout_fee"@);
    }
    lemma_find_insert(attrs, extra, at, "port_id"@);
    lemma_find_insert(attrs, extra, at, "channel_id"@);
    lemma_find_insert(attrs, extra, at, "packet_sequence"@);
    lemma_find_insert(attrs, extra, at, "recv_fee"@);
    lemma_find_insert(attrs, extra, at, "ack_fee"@);
    lemma_find_insert(attrs, extra, at, "timeout_fee"@);
}

} // verus!
