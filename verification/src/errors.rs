//! Decoding failures.
//!
//! Decoding an attribute list can fail on the first missing key or the
//! first value that breaks its field's grammar; each failure names the
//! attribute key it arose from and carries the field parser's own cause.
//! Encoding cannot fail.

use vstd::prelude::*;

use crate::coin::CoinError;
use crate::decimal::NumberError;
use crate::identifier::IdentifierError;

verus! {

/// Why an attribute list failed to decode.
#[derive(Debug, Clone, PartialEq, Eq)]
pub enum Error {
    /// A required key was absent from the attribute list.
    MissingAttribute { key: String },
    /// A port or channel identifier failed its grammar.
    InvalidIdentifier { key: String, cause: IdentifierError },
    /// The sequence value was not a valid base-10 unsigned integer.
    InvalidSequence { cause: NumberError },
    /// A fee-list value failed the coin-list grammar.
    InvalidCoinList { key: String, cause: CoinError },
}

/// The mathematical content of an [`Error`], with keys as character
/// sequences.
pub ghost enum ErrorView {
    MissingAttribute { key: Seq<char> },
    InvalidIdentifier { key: Seq<char>, cause: IdentifierError },
    InvalidSequence { cause: NumberError },
    InvalidCoinList { key: Seq<char>, cause: CoinError },
}

impl View for Error {
    type V = ErrorView;

    open spec fn view(&self) -> ErrorView {
        match self {
            Error::MissingAttribute { key } => ErrorView::MissingAttribute { key: key@ },
            Error::InvalidIdentifier { key, cause } => ErrorView::InvalidIdentifier {
                key: key@,
                cause: *cause,
            },
            Error::InvalidSequence { cause } => ErrorView::InvalidSequence { cause: *cause },
            Error::InvalidCoinList { key, cause } => ErrorView::InvalidCoinList {
                key: key@,
                cause: *cause,
            },
        }
    }
}

impl Error {
    /// The attribute key the failure arose from; decoding checks keys in a
    /// fixed order, so this names the first offending attribute.
    pub fn key(&self) -> (r: &str)
        ensures
            match self@ {
                ErrorView::MissingAttribute { key } => r@ == key,
                ErrorView::InvalidIdentifier { key, .. } => r@ == key,
                ErrorView::InvalidSequence { .. } => r@ == "packet_sequence"@,
                ErrorView::InvalidCoinList { key, .. } => r@ == key,
            },
    {
        match self {
            Error::MissingAttribute { key } => key.as_str(),
            Error::InvalidIdentifier { key, .. } => key.as_str(),
            Error::InvalidSequence { .. } => "packet_sequence",
            Error::InvalidCoinList { key, .. } => key.as_str(),
        }
    }
}

} // verus!
