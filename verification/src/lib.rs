//! Codec between the incentivized-packet fee event and its wire form.
//!
//! The wire form of the event is a type name together with an ordered list
//! of key/value string attributes. `events::to_wire` renders a typed
//! [`events::IncentivizedPacket`] into that form, and `events::from_wire`
//! reconstructs the typed record from an attribute list, reporting the first
//! malformed or missing attribute as a typed error.

pub mod coin;
pub mod decimal;
pub mod errors;
pub mod events;
pub mod identifier;
pub mod text;
pub mod wire;

pub use events::from_wire;
pub use events::to_wire;
pub use events::IncentivizedPacket;
