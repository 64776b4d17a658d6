//! Coins and comma-separated coin lists.
//!
//! A coin is an amount and a denomination; its wire form is the decimal
//! amount immediately followed by the denomination, as in `100atom`. A coin
//! list's wire form is the coins joined by commas, and the empty list is the
//! empty string. A denomination starts with an ASCII letter and continues
//! with letters, digits, `/`, `:`, `.`, `_` or `-`, so the amount ends at
//! the first non-digit and no denomination can hide a comma; the round-trip
//! lemmas at the end rest on exactly those two facts.

use vstd::prelude::*;

use crate::decimal::all_digits;
use crate::decimal::dec_rep;
use crate::decimal::dec_val;
use crate::decimal::format_u64;
use crate::decimal::is_digit;
use crate::decimal::lemma_dec_rep_digits;
use crate::decimal::lemma_dec_rep_val;
use crate::decimal::parse_u64;
use crate::decimal::parse_u64_spec;
use crate::text::comma_free;
use crate::text::comma_join;
use crate::text::join_with_commas;
use crate::text::lemma_split_join;
use crate::text::split_comma;
use crate::text::split_commas;
use crate::text::views_of;

verus! {

/// An amount of one denomination, the unit of a fee list.
#[derive(Debug, Clone, PartialEq, Eq)]
pub struct RawCoin {
    pub denom: String,
    pub amount: u64,
}

/// The mathematical content of a coin: its denomination's characters and
/// its amount.
pub ghost struct CoinView {
    pub denom: Seq<char>,
    pub amount: u64,
}

impl View for RawCoin {
    type V = CoinView;

    open spec fn view(&self) -> CoinView {
        CoinView { denom: self.denom@, amount: self.amount }
    }
}

/// An ASCII letter, the only way a denomination may start.
pub open spec fn is_denom_start(c: char) -> bool {
    (65 <= c as int <= 90) || (97 <= c as int <= 122)
}

/// A character a denomination may continue with.
pub open spec fn is_denom_char(c: char) -> bool {
    is_denom_start(c) || is_digit(c) || c == '/' || c == ':' || c == '.' || c == '_' || c == '-'
}

/// A well-formed denomination: a letter followed by denomination characters.
pub open spec fn valid_denom(s: Seq<char>) -> bool {
    s.len() >= 1 && is_denom_start(s[0]) && forall|i: int|
        1 <= i < s.len() ==> is_denom_char(#[trigger] s[i])
}

/// A coin whose denomination is well-formed; any amount is allowed.
pub open spec fn coin_valid(c: CoinView) -> bool {
    valid_denom(c.denom)
}

/// The wire form of one coin: decimal amount, then denomination.
pub open spec fn coin_str(c: CoinView) -> Seq<char> {
    dec_rep(c.amount as nat) + c.denom
}

/// The wire forms of a list of coins.
pub open spec fn coin_strs(coins: Seq<CoinView>) -> Seq<Seq<char>> {
    coins.map_values(|c: CoinView| coin_str(c))
}

/// The wire form of a coin list: the coins joined by commas, the empty
/// string for no coins.
pub open spec fn coin_list_str(coins: Seq<CoinView>) -> Seq<char> {
    comma_join(coin_strs(coins))
}

/// The views of a vector of coins.
pub open spec fn coins_view(coins: Seq<RawCoin>) -> Seq<CoinView> {
    coins.map_values(|c: RawCoin| c@)
}

/// How a string fails the coin grammar.
#[derive(Clone, Copy, Debug, PartialEq, Eq, Structural)]
pub enum CoinError {
    /// No leading decimal digit: the amount is absent.
    MissingAmount,
    /// Nothing follows the digits: the denomination is absent.
    MissingDenom,
    /// The amount does not fit in 64 bits.
    AmountOverflow,
    /// The denomination breaks its grammar.
    InvalidDenom,
}

/// Length of the prefix of `s` made of decimal digits.
pub open spec fn digit_prefix_len(s: Seq<char>) -> nat
    decreases s.len(),
{
    if s.len() == 0 || !is_digit(s[0]) {
        0
    } else {
        1 + digit_prefix_len(s.drop_first())
    }
}

/// `digit_prefix_len` returns the position of the first non-digit, or the
/// length when the whole string is digits.
proof fn lemma_digit_prefix(s: Seq<char>, k: int)
    requires
        0 <= k <= s.len(),
        forall|j: int| 0 <= j < k ==> is_digit(#[trigger] s[j]),
        k == s.len() || !is_digit(s[k]),
    ensures
        digit_prefix_len(s) == k,
    decreases k,
{
    if k > 0 {
        lemma_digit_prefix(s.drop_first(), k - 1);
    }
}

/// What parsing one coin returns for any input string: the digit prefix is
/// the amount, the rest the denomination, each error reported in this
/// order of checks.
pub open spec fn parse_coin_spec(s: Seq<char>) -> Result<CoinView, CoinError> {
    let k = digit_prefix_len(s) as int;
    if k == 0 {
        Err(CoinError::MissingAmount)
    } else if k >= s.len() {
        Err(CoinError::MissingDenom)
    } else if dec_val(s.subrange(0, k)) > u64::MAX {
        Err(CoinError::AmountOverflow)
    } else if !valid_denom(s.subrange(k, s.len() as int)) {
        Err(CoinError::InvalidDenom)
    } else {
        Ok(
            CoinView {
                denom: s.subrange(k, s.len() as int),
                amount: dec_val(s.subrange(0, k)) as u64,
            },
        )
    }
}

/// What parsing a whole coin list returns: empty input is the empty list,
/// anything else is split at commas and each part parsed as one coin,
/// stopping at the first bad part.
pub open spec fn parse_coin_list_spec(s: Seq<char>) -> Result<Seq<CoinView>, CoinError> {
    if s.len() == 0 {
        Ok(Seq::empty())
    } else {
        parse_parts(split_comma(s))
    }
}

/// Each part parsed as a coin, failing at the first bad part.
pub open spec fn parse_parts(parts: Seq<Seq<char>>) -> Result<Seq<CoinView>, CoinError>
    decreases parts.len(),
{
    if parts.len() == 0 {
        Ok(Seq::empty())
    } else {
        match parse_coin_spec(parts[0]) {
            Err(e) => Err(e),
            Ok(c) => match parse_parts(parts.drop_first()) {
                Err(e) => Err(e),
                Ok(rest) => Ok(seq![c] + rest),
            },
        }
    }
}

/// Whether the character at `k` is a decimal digit.
fn digit_at(s: &str, k: usize) -> (r: bool)
    requires
        k < s@.len(),
    ensures
        r == is_digit(s@[k as int]),
{
    let u = s.get_char(k) as u32;
    48 <= u && u <= 57
}

/// Whether `c` may continue a denomination.
fn denom_char(c: char) -> (r: bool)
    ensures
        r == is_denom_char(c),
{
    let u = c as u32;
    (65 <= u && u <= 90) || (97 <= u && u <= 122) || (48 <= u && u <= 57) || c == '/' || c == ':'
        || c == '.' || c == '_' || c == '-'
}

/// Render one coin: decimal amount, then denomination.
pub fn format_coin(c: &RawCoin) -> (r: String)
    ensures
        r@ == coin_str(c@),
{
    format_u64(c.amount).concat(c.denom.as_str())
}

/// Parse one coin from its wire form.
pub fn parse_coin(s: &str) -> (r: Result<RawCoin, CoinError>)
    ensures
        r is Ok ==> parse_coin_spec(s@) == Ok::<CoinView, CoinError>(r->Ok_0@),
        r is Err ==> parse_coin_spec(s@) == Err::<CoinView, CoinError>(r->Err_0),
{
    let len = s.unicode_len();
    let mut k: usize = 0;
    while k < len && digit_at(s, k)
        invariant
            0 <= k <= len,
            len == s@.len(),
            forall|j: int| 0 <= j < k ==> is_digit(#[trigger] s@[j]),
        decreases len - k,
    {
        k += 1;
    }
    assert(k == len || !is_digit(s@[k as int]));
    proof {
        lemma_digit_prefix(s@, k as int);
    }
    if k == 0 {
        return Err(CoinError::MissingAmount);
    }
    if k == len {
        return Err(CoinError::MissingDenom);
    }
    let amount_str = s.substring_char(0, k);
    let amount = match parse_u64(amount_str) {
        Ok(a) => a,
        Err(_) => {
            proof {
                assert(amount_str@ =~= s@.subrange(0, k as int));
                assert(all_digits(amount_str@));
                assert(parse_u64_spec(amount_str@) is Err);
                assert(dec_val(s@.subrange(0, k as int)) > u64::MAX);
            }
            return Err(CoinError::AmountOverflow);
        },
    };
    proof {
        assert(amount_str@ =~= s@.subrange(0, k as int));
        assert(amount == dec_val(s@.subrange(0, k as int)));
    }
    let denom_str = s.substring_char(k, len);
    proof {
        assert(denom_str@ =~= s@.subrange(k as int, len as int));
    }
    let dlen = len - k;
    let first = denom_str.get_char(0);
    let fu = first as u32;
    if !((65 <= fu && fu <= 90) || (97 <= fu && fu <= 122)) {
        return Err(CoinError::InvalidDenom);
    }
    let mut i: usize = 1;
    while i < dlen
        invariant
            1 <= i <= dlen,
            dlen == denom_str@.len(),
            len == s@.len(),
            0 < k < len,
            digit_prefix_len(s@) == k,
            dec_val(s@.subrange(0, k as int)) <= u64::MAX,
            denom_str@ == s@.subrange(k as int, len as int),
            forall|j: int| 1 <= j < i ==> is_denom_char(#[trigger] denom_str@[j]),
        decreases dlen - i,
    {
        if !denom_char(denom_str.get_char(i)) {
            assert(!valid_denom(s@.subrange(k as int, len as int)));
            return Err(CoinError::InvalidDenom);
        }
        i += 1;
    }
    assert(valid_denom(denom_str@));
    Ok(RawCoin { denom: denom_str.to_owned(), amount })
}

/// Render a coin list: the coins joined by commas, `""` for no coins.
pub fn format_coin_list(coins: &Vec<RawCoin>) -> (r: String)
    ensures
        r@ == coin_list_str(coins_view(coins@)),
{
    let mut parts: Vec<String> = Vec::new();
    let n = coins.len();
    let mut i: usize = 0;
    while i < n
        invariant
            0 <= i <= n,
            n == coins@.len(),
            views_of(parts@) =~= coin_strs(coins_view(coins@)).subrange(0, i as int),
        decreases n - i,
    {
        let p = format_coin(&coins[i]);
        proof {
            assert(coin_strs(coins_view(coins@))[i as int] == coin_str(coins@[i as int]@));
            assert(views_of(parts@.push(p)) =~= views_of(parts@).push(p@));
            assert(coin_strs(coins_view(coins@)).subrange(0, i + 1) =~= coin_strs(
                coins_view(coins@),
            ).subrange(0, i as int).push(coin_strs(coins_view(coins@))[i as int]));
        }
        parts.push(p);
        i += 1;
    }
    proof {
        assert(coin_strs(coins_view(coins@)).subrange(0, n as int) =~= coin_strs(
            coins_view(coins@),
        ));
    }
    join_with_commas(&parts)
}

/// Parse a coin list from its wire form: `""` is the empty list, anything
/// else is split at commas and each part must be a coin.
pub fn parse_coin_list(s: &str) -> (r: Result<Vec<RawCoin>, CoinError>)
    ensures
        r is Ok ==> parse_coin_list_spec(s@) == Ok::<Seq<CoinView>, CoinError>(
            coins_view(r->Ok_0@),
        ),
        r is Err ==> parse_coin_list_spec(s@) == Err::<Seq<CoinView>, CoinError>(r->Err_0),
{
    if s.is_empty() {
        let r: Vec<RawCoin> = Vec::new();
        proof {
            assert(coins_view(r@) =~= Seq::<CoinView>::empty());
        }
        return Ok(r);
    }
    let parts = split_commas(s);
    let ghost all: Seq<Seq<char>> = views_of(parts@);
    let n = parts.len();
    let mut coins: Vec<RawCoin> = Vec::new();
    proof {
        assert(all.skip(0) =~= all);
        assert(coins_view(coins@) =~= Seq::<CoinView>::empty());
        assert(parse_parts(all) is Ok ==> parse_parts(all) == Ok::<Seq<CoinView>, CoinError>(
            coins_view(coins@) + parse_parts(all)->Ok_0,
        ));
    }
    let mut i: usize = 0;
    while i < n
        invariant
            0 <= i <= n,
            n == parts@.len(),
            all == views_of(parts@),
            s@.len() > 0,
            all == split_comma(s@),
            parse_parts(all.skip(i as int)) is Ok ==> parse_parts(all) == Ok::<
                Seq<CoinView>,
                CoinError,
            >(coins_view(coins@) + parse_parts(all.skip(i as int))->Ok_0),
            parse_parts(all.skip(i as int)) is Err ==> parse_parts(all) == parse_parts(
                all.skip(i as int),
            ),
        decreases n - i,
    {
        proof {
            assert(all.skip(i as int).len() > 0);
            assert(all.skip(i as int)[0] == parts@[i as int]@);
            assert(all.skip(i as int).drop_first() =~= all.skip(i + 1));
        }
        match parse_coin(parts[i].as_str()) {
            Ok(c) => {
                proof {
                    assert(parse_parts(all.skip(i as int)) is Ok ==> coins_view(coins@.push(c))
                        + parse_parts(all.skip(i + 1))->Ok_0 =~= coins_view(coins@) + (seq![c@]
                        + parse_parts(all.skip(i + 1))->Ok_0));
                }
                coins.push(c);
            },
            Err(e) => {
                return Err(e);
            },
        }
        i += 1;
    }
    proof {
        assert(all.skip(n as int) =~= Seq::<Seq<char>>::empty());
        assert(coins_view(coins@) + parse_parts(all.skip(n as int))->Ok_0 =~= coins_view(coins@));
    }
    Ok(coins)
}

/// The empty fee list's wire form is the empty string, and the empty
/// string decodes back to the empty list.
pub proof fn lemma_empty_fee_list()
    ensures
        coin_list_str(Seq::<CoinView>::empty()) == Seq::<char>::empty(),
        parse_coin_list_spec(Seq::<char>::empty()) == Ok::<Seq<CoinView>, CoinError>(
            Seq::<CoinView>::empty(),
        ),
{
    assert(coin_strs(Seq::<CoinView>::empty()) =~= Seq::<Seq<char>>::empty());
}

/// A valid coin's wire form contains no comma.
pub proof fn lemma_coin_str_comma_free(c: CoinView)
    requires
        coin_valid(c),
    ensures
        comma_free(coin_str(c)),
        coin_str(c).len() >= 2,
{
    lemma_dec_rep_digits(c.amount as nat);
    assert forall|j: int| 0 <= j < coin_str(c).len() implies #[trigger] coin_str(c)[j] != ',' by {
        if j < dec_rep(c.amount as nat).len() {
            assert(is_digit(coin_str(c)[j]));
        } else {
            let dj = j - dec_rep(c.amount as nat).len();
            assert(coin_str(c)[j] == c.denom[dj]);
            if dj == 0 {
                assert(is_denom_start(c.denom[0]));
            } else {
                assert(is_denom_char(c.denom[dj]));
            }
        }
    }
}

/// Parsing one coin inverts rendering it.
pub proof fn lemma_coin_round_trip(c: CoinView)
    requires
        coin_valid(c),
    ensures
        parse_coin_spec(coin_str(c)) == Ok::<CoinView, CoinError>(c),
{
    let s = coin_str(c);
    let k = dec_rep(c.amount as nat).len() as int;
    lemma_dec_rep_digits(c.amount as nat);
    lemma_dec_rep_val(c.amount as nat);
    assert(forall|j: int| 0 <= j < k ==> is_digit(#[trigger] s[j]));
    assert(s[k] == c.denom[0]);
    assert(!is_digit(s[k]));
    lemma_digit_prefix(s, k);
    assert(s.subrange(0, k) =~= dec_rep(c.amount as nat));
    assert(s.subrange(k, s.len() as int) =~= c.denom);
}

/// Parsing inverts rendering, coin by coin, over the parts of a list.
proof fn lemma_parse_parts_map(coins: Seq<CoinView>)
    requires
        forall|i: int| 0 <= i < coins.len() ==> coin_valid(#[trigger] coins[i]),
    ensures
        parse_parts(coin_strs(coins)) == Ok::<Seq<CoinView>, CoinError>(coins),
    decreases coins.len(),
{
    if coins.len() == 0 {
        assert(coin_strs(coins) =~= Seq::<Seq<char>>::empty());
        assert(parse_parts(coin_strs(coins))->Ok_0 =~= coins);
    } else {
        lemma_coin_round_trip(coins[0]);
        assert(coin_strs(coins)[0] == coin_str(coins[0]));
        assert(coin_strs(coins).drop_first() =~= coin_strs(coins.drop_first()));
        lemma_parse_parts_map(coins.drop_first());
        assert(seq![coins[0]] + coins.drop_first() =~= coins);
    }
}

/// Parsing a coin list inverts rendering it, for coins with well-formed
/// denominations.
pub proof fn lemma_coin_list_round_trip(coins: Seq<CoinView>)
    requires
        forall|i: int| 0 <= i < coins.len() ==> coin_valid(#[trigger] coins[i]),
    ensures
        parse_coin_list_spec(coin_list_str(coins)) == Ok::<Seq<CoinView>, CoinError>(coins),
{
    if coins.len() == 0 {
        assert(coin_strs(coins) =~= Seq::<Seq<char>>::empty());
        assert(parse_coin_list_spec(coin_list_str(coins))->Ok_0 =~= coins);
    } else {
        let parts = coin_strs(coins);
        lemma_coin_str_comma_free(coins[0]);
        assert(coin_list_str(coins).len() > 0) by {
            if parts.len() == 1 {
                assert(comma_join(parts) == parts[0]);
            } else {
                assert(comma_join(parts) == parts[0] + seq![','] + comma_join(parts.drop_first()));
            }
            assert(parts[0] == coin_str(coins[0]));
        }
        assert forall|i: int| 0 <= i < parts.len() implies comma_free(#[trigger] parts[i]) by {
            lemma_coin_str_comma_free(coins[i]);
        }
        lemma_split_join(parts);
        lemma_parse_parts_map(coins);
    }
}

} // verus!
