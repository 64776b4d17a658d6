//! Port and channel identifiers.
//!
//! Both are strings over a restricted alphabet with per-kind length bounds:
//! a port identifier has 2 to 128 characters, a channel identifier 8 to 64.
//! Parsing validates the grammar and formatting returns the string itself,
//! so the two are inverses on valid identifiers by construction.

use vstd::prelude::*;

verus! {

/// Characters an identifier may contain: ASCII letters and digits plus
/// `.`, `_`, `+`, `-`, `#`, `[`, `]`, `<` and `>`.
pub open spec fn is_id_char(c: char) -> bool {
    (48 <= c as int <= 57) || (65 <= c as int <= 90) || (97 <= c as int <= 122) || c == '.' || c
        == '_' || c == '+' || c == '-' || c == '#' || c == '[' || c == ']' || c == '<' || c == '>'
}

/// A well-formed identifier of between `min` and `max` characters.
pub open spec fn valid_identifier(s: Seq<char>, min: int, max: int) -> bool {
    min <= s.len() <= max && forall|i: int| 0 <= i < s.len() ==> is_id_char(#[trigger] s[i])
}

pub open spec fn valid_port_id(s: Seq<char>) -> bool {
    valid_identifier(s, 2, 128)
}

pub open spec fn valid_channel_id(s: Seq<char>) -> bool {
    valid_identifier(s, 8, 64)
}

/// How a string fails the identifier grammar.
#[derive(Clone, Copy, Debug, PartialEq, Eq, Structural)]
pub enum IdentifierError {
    /// The length is outside the bounds for this kind of identifier.
    InvalidLength,
    /// A character is outside the identifier alphabet.
    InvalidCharacter,
}

/// The error a string earns against the bounds `min ..= max`; meaningful
/// only when `valid_identifier` is false.
pub open spec fn identifier_error(s: Seq<char>, min: int, max: int) -> IdentifierError {
    if !(min <= s.len() <= max) {
        IdentifierError::InvalidLength
    } else {
        IdentifierError::InvalidCharacter
    }
}

/// Whether `c` is in the identifier alphabet.
fn id_char(c: char) -> (r: bool)
    ensures
        r == is_id_char(c),
{
    let u = c as u32;
    (48 <= u && u <= 57) || (65 <= u && u <= 90) || (97 <= u && u <= 122) || c == '.' || c == '_'
        || c == '+' || c == '-' || c == '#' || c == '[' || c == ']' || c == '<' || c == '>'
}

/// Validate `s` against the identifier grammar with the given bounds:
/// the length is checked first, then each character.
fn check_identifier(s: &str, min: usize, max: usize) -> (r: Result<(), IdentifierError>)
    ensures
        r is Ok <==> valid_identifier(s@, min as int, max as int),
        r is Err ==> r->Err_0 == identifier_error(s@, min as int, max as int),
{
    let len = s.unicode_len();
    if len < min || len > max {
        return Err(IdentifierError::InvalidLength);
    }
    let mut i: usize = 0;
    while i < len
        invariant
            0 <= i <= len,
            len == s@.len(),
            min <= len <= max,
            forall|j: int| 0 <= j < i ==> is_id_char(#[trigger] s@[j]),
        decreases len - i,
    {
        if !id_char(s.get_char(i)) {
            return Err(IdentifierError::InvalidCharacter);
        }
        i += 1;
    }
    Ok(())
}

/// The application port a packet traversed, as a validated identifier.
#[derive(Debug, Clone, PartialEq, Eq)]
pub struct PortId {
    pub id: String,
}

impl View for PortId {
    type V = Seq<char>;

    open spec fn view(&self) -> Seq<char> {
        self.id@
    }
}

impl PortId {
    /// Parse a port identifier: 2 to 128 characters of the identifier
    /// alphabet, returned unchanged on success.
    pub fn parse(s: &str) -> (r: Result<PortId, IdentifierError>)
        ensures
            r is Ok <==> valid_port_id(s@),
            r is Ok ==> r->Ok_0@ == s@,
            r is Err ==> r->Err_0 == identifier_error(s@, 2, 128),
    {
        match check_identifier(s, 2, 128) {
            Ok(()) => Ok(PortId { id: s.to_owned() }),
            Err(e) => Err(e),
        }
    }

    /// The identifier's canonical string form: the string itself.
    pub fn as_str(&self) -> (r: &str)
        ensures
            r@ == self@,
    {
        self.id.as_str()
    }
}

/// The channel a packet traversed, as a validated identifier.
#[derive(Debug, Clone, PartialEq, Eq)]
pub struct ChannelId {
    pub id: String,
}

impl View for ChannelId {
    type V = Seq<char>;

    open spec fn view(&self) -> Seq<char> {
        self.id@
    }
}

impl ChannelId {
    /// Parse a channel identifier: 8 to 64 characters of the identifier
    /// alphabet, returned unchanged on success.
    pub fn parse(s: &str) -> (r: Result<ChannelId, IdentifierError>)
        ensures
            r is Ok <==> valid_channel_id(s@),
            r is Ok ==> r->Ok_0@ == s@,
            r is Err ==> r->Err_0 == identifier_error(s@, 8, 64),
    {
        match check_identifier(s, 8, 64) {
            Ok(()) => Ok(ChannelId { id: s.to_owned() }),
            Err(e) => Err(e),
        }
    }

    /// The identifier's canonical string form: the string itself.
    pub fn as_str(&self) -> (r: &str)
        ensures
            r@ == self@,
    {
        self.id.as_str()
    }
}

} // verus!
