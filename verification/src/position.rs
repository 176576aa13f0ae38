//! Positions: the per-instrument, per-strategy aggregate of fills.
//!
//! A position is mutated only by applying fill events — never directly by
//! commands. It tracks bought and sold quantity and the traded cost on
//! each side, which are the inputs to average entry price and PnL.

use vstd::prelude::*;
use crate::events::EventKind;
use crate::identifiers::{InstrumentId, StrategyId};
use crate::order::OrderSide;

verus! {

/// The fill aggregate for one instrument and strategy.
#[derive(Clone, Copy, Debug, PartialEq, Eq, Structural)]
pub struct Position {
    pub instrument_id: InstrumentId,
    pub strategy_id: StrategyId,
    pub bought_qty: u64,
    pub sold_qty: u64,
    pub buy_cost: u128,
    pub sell_cost: u128,
}

impl Position {
    /// Net quantity: bought minus sold.
    pub open spec fn net_qty(self) -> int {
        self.bought_qty - self.sold_qty
    }

    /// A flat position.
    pub fn new(instrument_id: InstrumentId, strategy_id: StrategyId) -> (p: Position)
        ensures
            p == (Position {
                instrument_id,
                strategy_id,
                bought_qty: 0u64,
                sold_qty: 0u64,
                buy_cost: 0u128,
                sell_cost: 0u128,
            }),
    {
        Position {
            instrument_id,
            strategy_id,
            bought_qty: 0,
            sold_qty: 0,
            buy_cost: 0,
            sell_cost: 0,
        }
    }

    /// Applies one fill of `qty` units at `price` on `side`: the side's
    /// quantity grows by `qty` and its cost by `qty * price`; the other
    /// side and the identifiers are untouched.
    pub fn apply_fill(&mut self, side: OrderSide, qty: u64, price: u64)
        requires
            side == OrderSide::Buy ==> old(self).bought_qty + qty <= u64::MAX && old(
                self,
            ).buy_cost + qty * price <= u128::MAX,
            side == OrderSide::Sell ==> old(self).sold_qty + qty <= u64::MAX && old(
                self,
            ).sell_cost + qty * price <= u128::MAX,
        ensures
            side == OrderSide::Buy ==> *final(self) == (Position {
                bought_qty: (old(self).bought_qty + qty) as u64,
                buy_cost: (old(self).buy_cost + qty * price) as u128,
                ..*old(self)
            }),
            side == OrderSide::Sell ==> *final(self) == (Position {
                sold_qty: (old(self).sold_qty + qty) as u64,
                sell_cost: (old(self).sell_cost + qty * price) as u128,
                ..*old(self)
            }),
    {
        proof {
            assert((qty as u128) * (price as u128) <= u128::MAX) by (nonlinear_arith)
                requires
                    qty <= u64::MAX,
                    price <= u64::MAX,
            ;
        }
        let cost: u128 = (qty as u128) * (price as u128);
        match side {
            OrderSide::Buy => {
                self.bought_qty = self.bought_qty + qty;
                self.buy_cost = self.buy_cost + cost;
            },
            OrderSide::Sell => {
                self.sold_qty = self.sold_qty + qty;
                self.sell_cost = self.sell_cost + cost;
            },
        }
    }

    /// Applies one `Filled` order event on `side`; other event kinds are
    /// not accepted — fills are the only thing that moves a position.
    pub fn apply_filled_event(&mut self, kind: EventKind, side: OrderSide)
        requires
            kind matches EventKind::Filled { qty, price } && (side == OrderSide::Buy ==> old(
                self,
            ).bought_qty + qty <= u64::MAX && old(self).buy_cost + qty * price <= u128::MAX) && (
            side == OrderSide::Sell ==> old(self).sold_qty + qty <= u64::MAX && old(
                self,
            ).sell_cost + qty * price <= u128::MAX),
        ensures
            ({
                let (q, p) = match kind {
                    EventKind::Filled { qty, price } => (qty, price),
                    _ => (0u64, 0u64),
                };
                &&& (side == OrderSide::Buy ==> *final(self) == (Position {
                    bought_qty: (old(self).bought_qty + q) as u64,
                    buy_cost: (old(self).buy_cost + q * p) as u128,
                    ..*old(self)
                }))
                &&& (side == OrderSide::Sell ==> *final(self) == (Position {
                    sold_qty: (old(self).sold_qty + q) as u64,
                    sell_cost: (old(self).sell_cost + q * p) as u128,
                    ..*old(self)
                }))
            }),
    {
        match kind {
            EventKind::Filled { qty, price } => self.apply_fill(side, qty, price),
            _ => {},
        }
    }
}

} // verus!
