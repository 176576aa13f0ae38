//! Execution core of an algorithmic trading platform.
//!
//! The crate tracks the lifecycle of trading orders through a pure, total
//! state machine ([`order`]), validates strategy commands ([`messages`])
//! against risk decisions and the state-machine rules ([`engine`]), and —
//! for backtesting — deterministically matches resting orders against
//! simulated market data with price-then-time priority ([`matching`]).
//! Events ([`events`]) are routed over a typed publish/subscribe bus
//! ([`bus`]) keyed per order, and fills aggregate into positions
//! ([`position`]). The backtest driver ([`backtest`]) advances a virtual
//! clock ([`clock`]) input by input; every step is pinned by its contract
//! to a pure function of state and input, so a replay of the same inputs
//! yields the same events, timestamps included.

pub mod backtest;
pub mod bus;
pub mod clock;
pub mod engine;
pub mod events;
pub mod identifiers;
pub mod matching;
pub mod messages;
pub mod order;
pub mod position;
