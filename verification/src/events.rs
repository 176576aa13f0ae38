//! Events: immutable facts produced by the engine or the simulated venue,
//! and the reasons for which a command or an order is rejected.

use vstd::prelude::*;
use crate::identifiers::{ClientOrderId, InstrumentId, StrategyId, TraderId, VenueOrderId};

verus! {

/// Why a command was rejected or an order refused.
#[derive(Clone, Copy, Debug, PartialEq, Eq, Structural)]
pub enum RejectReason {
    /// The command or venue event is not valid for the order's current state.
    InvalidStateTransition,
    /// The pre-trade risk check denied the command.
    RiskDenied,
    /// The command referenced an unknown order, instrument or venue.
    NotFound,
    /// The venue (or the simulator standing in for it) rejected the order.
    VenueRejected,
    /// The order would have crossed a resting order of the same strategy.
    SelfMatchPrevention,
}

/// What happened to an order.
#[derive(Clone, Copy, Debug, PartialEq, Eq, Structural)]
pub enum EventKind {
    /// The order was accepted locally and sent towards the venue.
    Submitted,
    /// The venue acknowledged the order and assigned its venue order id.
    Accepted { venue_order_id: VenueOrderId },
    /// The order was rejected; `reason` says by whom and why.
    Rejected { reason: RejectReason },
    /// The order's residual quantity was canceled.
    Canceled,
    /// The order's price or quantity was changed.
    Modified { quantity: u64, price: u64 },
    /// The order expired at the venue.
    Expired,
    /// `qty` units were filled at `price`.
    Filled { qty: u64, price: u64 },
}

/// The events one applied transition contributes: the emitted event if
/// there was one, nothing otherwise.
pub open spec fn emitted(r: Result<Option<OrderEvent>, RejectReason>) -> Seq<OrderEvent> {
    match r {
        Ok(Some(e)) => seq![e],
        _ => Seq::<OrderEvent>::empty(),
    }
}

/// An immutable fact about one order.
///
/// `seq` is the order's event sequence position: the events applied to one
/// order carry sequence numbers `0, 1, 2, ...` in emission order, strictly
/// increasing and gap-free.
#[derive(Clone, Copy, Debug, PartialEq, Eq, Structural)]
pub struct OrderEvent {
    pub trader_id: TraderId,
    pub strategy_id: StrategyId,
    pub instrument_id: InstrumentId,
    pub client_order_id: ClientOrderId,
    pub kind: EventKind,
    pub seq: u64,
    pub ts_event: u64,
}

} // verus!
