//! Commands: immutable intents issued by a strategy, consumed exactly once
//! by the execution engine.

use vstd::prelude::*;
use crate::identifiers::{
    ClientId, ClientOrderId, CommandId, ExecAlgorithmId, InstrumentId, PositionId, StrategyId,
    TraderId, VenueOrderId,
};
use crate::order::{OrderSide, OrderType};

verus! {

/// Intent to submit a new order to a venue.
///
/// `venue_order_id` is `None` until the venue assigns one; the embedded
/// order parameters (`side`, `order_type`, `quantity`, `price`) describe
/// the order to create.
#[derive(Clone, Copy, Debug, PartialEq, Eq, Structural)]
pub struct SubmitOrder {
    pub trader_id: TraderId,
    pub client_id: ClientId,
    pub strategy_id: StrategyId,
    pub instrument_id: InstrumentId,
    pub client_order_id: ClientOrderId,
    pub venue_order_id: Option<VenueOrderId>,
    pub exec_algorithm_id: Option<ExecAlgorithmId>,
    pub position_id: Option<PositionId>,
    pub side: OrderSide,
    pub order_type: OrderType,
    pub quantity: u64,
    pub price: u64,
    pub command_id: CommandId,
    pub ts_init: u64,
}

impl SubmitOrder {
    /// Creates a new [`SubmitOrder`] instance carrying exactly the given
    /// fields.
    pub fn new(
        trader_id: TraderId,
        client_id: ClientId,
        strategy_id: StrategyId,
        instrument_id: InstrumentId,
        client_order_id: ClientOrderId,
        venue_order_id: Option<VenueOrderId>,
        exec_algorithm_id: Option<ExecAlgorithmId>,
        position_id: Option<PositionId>,
        side: OrderSide,
        order_type: OrderType,
        quantity: u64,
        price: u64,
        command_id: CommandId,
        ts_init: u64,
    ) -> (c: SubmitOrder)
        ensures
            c == (SubmitOrder {
                trader_id,
                client_id,
                strategy_id,
                instrument_id,
                client_order_id,
                venue_order_id,
                exec_algorithm_id,
                position_id,
                side,
                order_type,
                quantity,
                price,
                command_id,
                ts_init,
            }),
    {
        SubmitOrder {
            trader_id,
            client_id,
            strategy_id,
            instrument_id,
            client_order_id,
            venue_order_id,
            exec_algorithm_id,
            position_id,
            side,
            order_type,
            quantity,
            price,
            command_id,
            ts_init,
        }
    }
}

/// Intent to change the quantity and price of a working order.
#[derive(Clone, Copy, Debug, PartialEq, Eq, Structural)]
pub struct ModifyOrder {
    pub trader_id: TraderId,
    pub strategy_id: StrategyId,
    pub instrument_id: InstrumentId,
    pub client_order_id: ClientOrderId,
    pub quantity: u64,
    pub price: u64,
    pub command_id: CommandId,
    pub ts_init: u64,
}

/// Intent to cancel the residual quantity of a working order.
#[derive(Clone, Copy, Debug, PartialEq, Eq, Structural)]
pub struct CancelOrder {
    pub trader_id: TraderId,
    pub strategy_id: StrategyId,
    pub instrument_id: InstrumentId,
    pub client_order_id: ClientOrderId,
    pub command_id: CommandId,
    pub ts_init: u64,
}

/// Intent to cancel every working order of a strategy on an instrument.
#[derive(Clone, Copy, Debug, PartialEq, Eq, Structural)]
pub struct CancelAllOrders {
    pub trader_id: TraderId,
    pub strategy_id: StrategyId,
    pub instrument_id: InstrumentId,
    pub command_id: CommandId,
    pub ts_init: u64,
}

/// The closed set of commands a strategy can issue.
#[derive(Clone, Copy, Debug, PartialEq, Eq, Structural)]
pub enum Command {
    Submit(SubmitOrder),
    Modify(ModifyOrder),
    Cancel(CancelOrder),
    CancelAll(CancelAllOrders),
}

/// Decision of the pre-trade risk check collaborator for one command.
///
/// The engine enforces the decision but does not compute it: risk rules
/// live outside the core.
#[derive(Clone, Copy, Debug, PartialEq, Eq, Structural)]
pub enum RiskDecision {
    Accept,
    Deny,
}

} // verus!
