//! Identifier types carried by every command and event.
//!
//! Each identifier is a plain numeric handle: the engine never inspects its
//! text form, it only compares identifiers for equality, so a number is the
//! whole of what the core needs of them.

use vstd::prelude::*;

verus! {

/// Identifier of the trader that owns an order.
#[derive(Clone, Copy, Debug, PartialEq, Eq, Structural)]
pub struct TraderId(pub u64);

/// Identifier of the execution client (venue connection) a command targets.
#[derive(Clone, Copy, Debug, PartialEq, Eq, Structural)]
pub struct ClientId(pub u64);

/// Identifier of the strategy that issued a command.
#[derive(Clone, Copy, Debug, PartialEq, Eq, Structural)]
pub struct StrategyId(pub u64);

/// Identifier of the instrument an order trades.
#[derive(Clone, Copy, Debug, PartialEq, Eq, Structural)]
pub struct InstrumentId(pub u64);

/// Client-assigned order identifier; unique per order within the engine.
#[derive(Clone, Copy, Debug, PartialEq, Eq, Structural)]
pub struct ClientOrderId(pub u64);

/// Venue-assigned order identifier; assigned at most once per order.
#[derive(Clone, Copy, Debug, PartialEq, Eq, Structural)]
pub struct VenueOrderId(pub u64);

/// Identifier of the execution algorithm handling an order, if any.
#[derive(Clone, Copy, Debug, PartialEq, Eq, Structural)]
pub struct ExecAlgorithmId(pub u64);

/// Identifier of the position an order contributes to, if any.
#[derive(Clone, Copy, Debug, PartialEq, Eq, Structural)]
pub struct PositionId(pub u64);

/// Unique identifier of a single command message.
#[derive(Clone, Copy, Debug, PartialEq, Eq, Structural)]
pub struct CommandId(pub u64);

} // verus!
