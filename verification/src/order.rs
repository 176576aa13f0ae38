//! The order entity and its lifecycle state machine.
//!
//! The state machine is a pure, total function: for every (state, input)
//! pair it returns either the next state together with the event to emit,
//! or an explicit rejection. It never panics and it is the single place
//! where an order's state is allowed to advance.

use vstd::prelude::*;
use crate::identifiers::{
    ClientId, ClientOrderId, ExecAlgorithmId, InstrumentId, PositionId, StrategyId, TraderId,
    VenueOrderId,
};
use crate::events::{emitted, EventKind, OrderEvent, RejectReason};

verus! {

/// Side of an order: buy or sell.
#[derive(Clone, Copy, Debug, PartialEq, Eq, Structural)]
pub enum OrderSide {
    Buy,
    Sell,
}

/// Kind of an order: a limit order rests at its price, a market order
/// crosses against whatever liquidity the tick offers.
#[derive(Clone, Copy, Debug, PartialEq, Eq, Structural)]
pub enum OrderType {
    Limit,
    Market,
}

/// Lifecycle state of an order. `Initialized` is the initial state;
/// `Filled`, `Canceled`, `Rejected`, `Expired` and `Denied` are terminal.
#[derive(Clone, Copy, Debug, PartialEq, Eq, Structural)]
pub enum OrderState {
    Initialized,
    Submitted,
    Accepted,
    PartiallyFilled,
    Filled,
    PendingCancel,
    Canceled,
    PendingUpdate,
    Rejected,
    Expired,
    Denied,
}

/// Whether `s` is terminal: an order in a terminal state emits no further
/// events and admits no further transition.
pub open spec fn is_terminal(s: OrderState) -> bool {
    ||| s == OrderState::Filled
    ||| s == OrderState::Canceled
    ||| s == OrderState::Rejected
    ||| s == OrderState::Expired
    ||| s == OrderState::Denied
}

/// Executable twin of [`is_terminal`].
pub fn state_is_terminal(s: OrderState) -> (r: bool)
    ensures
        r == is_terminal(s),
{
    match s {
        OrderState::Filled => true,
        OrderState::Canceled => true,
        OrderState::Rejected => true,
        OrderState::Expired => true,
        OrderState::Denied => true,
        _ => false,
    }
}

/// Input to the state machine: a strategy command or a venue event
/// concerning one order.
#[derive(Clone, Copy, Debug, PartialEq, Eq, Structural)]
pub enum TransitionInput {
    /// Local acceptance of a `SubmitOrder` command.
    Submit,
    /// The pre-trade risk check denied the submission.
    Deny,
    /// The venue acknowledged the order.
    Accept { venue_order_id: VenueOrderId },
    /// The venue rejected the order; `reason` says why.
    VenueReject { reason: RejectReason },
    /// The venue filled `qty` units at `price`.
    Fill { qty: u64, price: u64 },
    /// A `CancelOrder` command.
    Cancel,
    /// The venue confirmed the cancelation of the residual quantity.
    CancelConfirm,
    /// A `ModifyOrder` command.
    Modify,
    /// The venue confirmed the modification to `quantity` at `price`.
    ModifyConfirm { quantity: u64, price: u64 },
    /// The order expired at the venue.
    Expire,
}

/// Outcome of a valid transition: the next state and the event to emit,
/// if the transition emits one.
#[derive(Clone, Copy, Debug, PartialEq, Eq, Structural)]
pub struct Transition {
    pub next: OrderState,
    pub event: Option<EventKind>,
}

/// The lifecycle state machine as a total function.
///
/// `filled` and `quantity` are the order's accumulated fill quantity and
/// its (current) total quantity; fills are valid only for `1 <= qty` and
/// `filled + qty <= quantity`, so the accumulated fill quantity can never
/// exceed the order quantity. A fill that reaches the full quantity goes
/// to `Filled`; a cancel request on an order already `PendingCancel` is an
/// idempotent no-op; every input to a terminal state is rejected with
/// `InvalidStateTransition`.
pub open spec fn transition_spec(
    state: OrderState,
    filled: u64,
    quantity: u64,
    input: TransitionInput,
) -> Result<Transition, RejectReason> {
    match state {
        OrderState::Initialized => match input {
            TransitionInput::Submit => Ok(Transition {
                next: OrderState::Submitted,
                event: Some(EventKind::Submitted),
            }),
            TransitionInput::Deny => Ok(Transition {
                next: OrderState::Denied,
                event: Some(EventKind::Rejected { reason: RejectReason::RiskDenied }),
            }),
            _ => Err(RejectReason::InvalidStateTransition),
        },
        OrderState::Submitted => match input {
            TransitionInput::Accept { venue_order_id } => Ok(Transition {
                next: OrderState::Accepted,
                event: Some(EventKind::Accepted { venue_order_id }),
            }),
            TransitionInput::VenueReject { reason } => Ok(Transition {
                next: OrderState::Rejected,
                event: Some(EventKind::Rejected { reason }),
            }),
            _ => Err(RejectReason::InvalidStateTransition),
        },
        OrderState::Accepted => open_order_input(state, filled, quantity, input),
        OrderState::PartiallyFilled => open_order_input(state, filled, quantity, input),
        OrderState::PendingCancel => match input {
            TransitionInput::Cancel => Ok(Transition { next: OrderState::PendingCancel, event: None }),
            TransitionInput::Fill { qty, price } => fill_input(state, filled, quantity, qty, price),
            TransitionInput::CancelConfirm => Ok(Transition {
                next: OrderState::Canceled,
                event: Some(EventKind::Canceled),
            }),
            _ => Err(RejectReason::InvalidStateTransition),
        },
        OrderState::PendingUpdate => match input {
            TransitionInput::ModifyConfirm { quantity: new_qty, price: new_price } => {
                if filled < new_qty {
                    Ok(Transition {
                        next: if filled > 0 {
                            OrderState::PartiallyFilled
                        } else {
                            OrderState::Accepted
                        },
                        event: Some(EventKind::Modified { quantity: new_qty, price: new_price }),
                    })
                } else {
                    Err(RejectReason::InvalidStateTransition)
                }
            },
            _ => Err(RejectReason::InvalidStateTransition),
        },
        _ => Err(RejectReason::InvalidStateTransition),
    }
}

/// Inputs valid for an open working order (`Accepted` or `PartiallyFilled`):
/// fills, cancel and modify requests, and expiry.
pub open spec fn open_order_input(
    state: OrderState,
    filled: u64,
    quantity: u64,
    input: TransitionInput,
) -> Result<Transition, RejectReason> {
    match input {
        TransitionInput::Fill { qty, price } => fill_input(state, filled, quantity, qty, price),
        TransitionInput::Cancel => Ok(Transition { next: OrderState::PendingCancel, event: None }),
        TransitionInput::Modify => Ok(Transition { next: OrderState::PendingUpdate, event: None }),
        TransitionInput::Expire => Ok(Transition {
            next: OrderState::Expired,
            event: Some(EventKind::Expired),
        }),
        _ => Err(RejectReason::InvalidStateTransition),
    }
}

/// A fill of `qty` units at `price`: valid only if it consumes at least one
/// unit and no more than the remaining quantity. Reaching the full order
/// quantity is terminal `Filled`; otherwise the order keeps working — an
/// order `PendingCancel` stays `PendingCancel` (a fill already in flight is
/// applied before the residual is canceled), the others go to
/// `PartiallyFilled`.
pub open spec fn fill_input(
    state: OrderState,
    filled: u64,
    quantity: u64,
    qty: u64,
    price: u64,
) -> Result<Transition, RejectReason> {
    if 1 <= qty && filled + qty <= quantity {
        Ok(Transition {
            next: if filled + qty == quantity {
                OrderState::Filled
            } else if state == OrderState::PendingCancel {
                OrderState::PendingCancel
            } else {
                OrderState::PartiallyFilled
            },
            event: Some(EventKind::Filled { qty, price }),
        })
    } else {
        Err(RejectReason::InvalidStateTransition)
    }
}

/// Executable state machine; returns exactly what [`transition_spec`] says.
pub fn transition(
    state: OrderState,
    filled: u64,
    quantity: u64,
    input: TransitionInput,
) -> (r: Result<Transition, RejectReason>)
    ensures
        r == transition_spec(state, filled, quantity, input),
{
    match state {
        OrderState::Initialized => match input {
            TransitionInput::Submit => Ok(Transition {
                next: OrderState::Submitted,
                event: Some(EventKind::Submitted),
            }),
            TransitionInput::Deny => Ok(Transition {
                next: OrderState::Denied,
                event: Some(EventKind::Rejected { reason: RejectReason::RiskDenied }),
            }),
            _ => Err(RejectReason::InvalidStateTransition),
        },
        OrderState::Submitted => match input {
            TransitionInput::Accept { venue_order_id } => Ok(Transition {
                next: OrderState::Accepted,
                event: Some(EventKind::Accepted { venue_order_id }),
            }),
            TransitionInput::VenueReject { reason } => Ok(Transition {
                next: OrderState::Rejected,
                event: Some(EventKind::Rejected { reason }),
            }),
            _ => Err(RejectReason::InvalidStateTransition),
        },
        OrderState::Accepted | OrderState::PartiallyFilled => match input {
            TransitionInput::Fill { qty, price } => fill_exec(state, filled, quantity, qty, price),
            TransitionInput::Cancel => Ok(Transition {
                next: OrderState::PendingCancel,
                event: None,
            }),
            TransitionInput::Modify => Ok(Transition {
                next: OrderState::PendingUpdate,
                event: None,
            }),
            TransitionInput::Expire => Ok(Transition {
                next: OrderState::Expired,
                event: Some(EventKind::Expired),
            }),
            _ => Err(RejectReason::InvalidStateTransition),
        },
        OrderState::PendingCancel => match input {
            TransitionInput::Cancel => Ok(Transition {
                next: OrderState::PendingCancel,
                event: None,
            }),
            TransitionInput::Fill { qty, price } => fill_exec(state, filled, quantity, qty, price),
            TransitionInput::CancelConfirm => Ok(Transition {
                next: OrderState::Canceled,
                event: Some(EventKind::Canceled),
            }),
            _ => Err(RejectReason::InvalidStateTransition),
        },
        OrderState::PendingUpdate => match input {
            TransitionInput::ModifyConfirm { quantity: new_qty, price: new_price } => {
                if filled < new_qty {
                    Ok(Transition {
                        next: if filled > 0 {
                            OrderState::PartiallyFilled
                        } else {
                            OrderState::Accepted
                        },
                        event: Some(EventKind::Modified { quantity: new_qty, price: new_price }),
                    })
                } else {
                    Err(RejectReason::InvalidStateTransition)
                }
            },
            _ => Err(RejectReason::InvalidStateTransition),
        },
        _ => Err(RejectReason::InvalidStateTransition),
    }
}

/// Executable twin of [`fill_input`].
fn fill_exec(state: OrderState, filled: u64, quantity: u64, qty: u64, price: u64) -> (r: Result<
    Transition,
    RejectReason,
>)
    ensures
        r == fill_input(state, filled, quantity, qty, price),
{
    if 1 <= qty && qty <= quantity && filled <= quantity - qty {
        Ok(Transition {
            next: if filled == quantity - qty {
                OrderState::Filled
            } else if state == OrderState::PendingCancel {
                OrderState::PendingCancel
            } else {
                OrderState::PartiallyFilled
            },
            event: Some(EventKind::Filled { qty, price }),
        })
    } else {
        Err(RejectReason::InvalidStateTransition)
    }
}

/// A trading order tracked through its lifecycle.
///
/// `filled_qty` is the sum of all fill quantities applied so far, and
/// `seq` is the sequence number the order's next event will carry, which
/// equals the number of events emitted for the order so far.
#[derive(Clone, Copy, Debug, PartialEq, Eq, Structural)]
pub struct Order {
    pub trader_id: TraderId,
    pub client_id: ClientId,
    pub strategy_id: StrategyId,
    pub instrument_id: InstrumentId,
    pub client_order_id: ClientOrderId,
    pub venue_order_id: Option<VenueOrderId>,
    pub exec_algorithm_id: Option<ExecAlgorithmId>,
    pub position_id: Option<PositionId>,
    pub side: OrderSide,
    pub order_type: OrderType,
    pub quantity: u64,
    pub price: u64,
    pub state: OrderState,
    pub filled_qty: u64,
    pub ts_init: u64,
    pub ts_last: u64,
    pub seq: u64,
}

impl Order {
    /// Well-formedness: quantity conservation and state/fill coherence.
    ///
    /// The accumulated fill quantity never exceeds the order quantity;
    /// reaching the full quantity is exactly the terminal `Filled` state;
    /// an order not yet acknowledged has no fills and no venue order id.
    pub open spec fn wf(self) -> bool {
        &&& self.filled_qty <= self.quantity
        &&& (self.state == OrderState::Filled ==> self.filled_qty == self.quantity
            && self.quantity > 0)
        &&& (self.state == OrderState::PartiallyFilled ==> 0 < self.filled_qty
            < self.quantity)
        &&& (self.quantity > 0 && self.filled_qty == self.quantity ==> self.state
            == OrderState::Filled)
        &&& (self.state == OrderState::Initialized || self.state == OrderState::Submitted
            ==> self.filled_qty == 0 && self.venue_order_id is None)
        &&& (self.state == OrderState::Accepted ==> self.filled_qty == 0)
        &&& (self.state == OrderState::Denied ==> self.filled_qty == 0)
    }

    /// A fresh order in state `Initialized`, before any event.
    pub fn init(
        trader_id: TraderId,
        client_id: ClientId,
        strategy_id: StrategyId,
        instrument_id: InstrumentId,
        client_order_id: ClientOrderId,
        exec_algorithm_id: Option<ExecAlgorithmId>,
        position_id: Option<PositionId>,
        side: OrderSide,
        order_type: OrderType,
        quantity: u64,
        price: u64,
        ts_init: u64,
    ) -> (o: Order)
        ensures
            o == (Order {
                trader_id,
                client_id,
                strategy_id,
                instrument_id,
                client_order_id,
                venue_order_id: None,
                exec_algorithm_id,
                position_id,
                side,
                order_type,
                quantity,
                price,
                state: OrderState::Initialized,
                filled_qty: 0u64,
                ts_init,
                ts_last: ts_init,
                seq: 0u64,
            }),
            o.wf(),
    {
        Order {
            trader_id,
            client_id,
            strategy_id,
            instrument_id,
            client_order_id,
            venue_order_id: None,
            exec_algorithm_id,
            position_id,
            side,
            order_type,
            quantity,
            price,
            state: OrderState::Initialized,
            filled_qty: 0,
            ts_init,
            ts_last: ts_init,
            seq: 0,
        }
    }

    /// What applying `input` at time `ts` does to an order: the updated
    /// order and either the emitted event (if the transition emits one) or
    /// the rejection. A rejected input leaves the order exactly as it was.
    ///
    /// An emitted event carries the order's current `seq`, which then
    /// advances by one; should `seq` ever exhaust its range the input is
    /// refused rather than let the sequence wrap, which would break the
    /// strict per-order event ordering.
    pub open spec fn apply_spec(self, input: TransitionInput, ts: u64) -> (Order, Result<
        Option<OrderEvent>,
        RejectReason,
    >) {
        match transition_spec(self.state, self.filled_qty, self.quantity, input) {
            Err(r) => (self, Err(r)),
            Ok(t) => {
                if t.event is Some && self.seq == u64::MAX {
                    (self, Err(RejectReason::InvalidStateTransition))
                } else {
                    let next = Order {
                        state: t.next,
                        filled_qty: match input {
                            TransitionInput::Fill { qty, .. } => (self.filled_qty + qty) as u64,
                            _ => self.filled_qty,
                        },
                        quantity: match input {
                            TransitionInput::ModifyConfirm { quantity, .. } => quantity,
                            _ => self.quantity,
                        },
                        price: match input {
                            TransitionInput::ModifyConfirm { price, .. } => price,
                            _ => self.price,
                        },
                        venue_order_id: match input {
                            TransitionInput::Accept { venue_order_id } => Some(venue_order_id),
                            _ => self.venue_order_id,
                        },
                        ts_last: ts,
                        seq: if t.event is Some {
                            (self.seq + 1) as u64
                        } else {
                            self.seq
                        },
                        ..self
                    };
                    let ev = match t.event {
                        Some(kind) => Some(OrderEvent {
                            trader_id: self.trader_id,
                            strategy_id: self.strategy_id,
                            instrument_id: self.instrument_id,
                            client_order_id: self.client_order_id,
                            kind,
                            seq: self.seq,
                            ts_event: ts,
                        }),
                        None => None,
                    };
                    (next, Ok(ev))
                }
            },
        }
    }

    /// Applies one command or venue event to the order.
    ///
    /// The outcome is exactly [`Order::apply_spec`]: on success the order
    /// advances to the next state and the emitted event (if any) carries
    /// the order's previous `seq`; on rejection the order is unchanged.
    /// Well-formedness is preserved, a venue order id once assigned is
    /// never changed, and the accumulated fill quantity never decreases.
    pub fn apply(&mut self, input: TransitionInput, ts: u64) -> (r: Result<
        Option<OrderEvent>,
        RejectReason,
    >)
        requires
            old(self).wf(),
        ensures
            (*final(self), r) == old(self).apply_spec(input, ts),
            final(self).wf(),
            old(self).venue_order_id is Some ==> final(self).venue_order_id == old(
                self,
            ).venue_order_id,
            old(self).filled_qty <= final(self).filled_qty,
            r is Err ==> *final(self) == *old(self),
            r matches Ok(Some(ev)) ==> ev.seq == old(self).seq && final(self).seq == old(
                self,
            ).seq + 1,
            r matches Ok(None) ==> final(self).seq == old(self).seq,
            is_terminal(old(self).state) ==> r is Err,
    {
        let t = match transition(self.state, self.filled_qty, self.quantity, input) {
            Err(r) => {
                return Err(r);
            },
            Ok(t) => t,
        };
        if t.event.is_some() && self.seq == u64::MAX {
            return Err(RejectReason::InvalidStateTransition);
        }
        match input {
            TransitionInput::Fill { qty, .. } => {
                self.filled_qty = self.filled_qty + qty;
            },
            TransitionInput::ModifyConfirm { quantity, price } => {
                self.quantity = quantity;
                self.price = price;
            },
            TransitionInput::Accept { venue_order_id } => {
                self.venue_order_id = Some(venue_order_id);
            },
            _ => {},
        }
        self.state = t.next;
        self.ts_last = ts;
        match t.event {
            Some(kind) => {
                let ev = OrderEvent {
                    trader_id: self.trader_id,
                    strategy_id: self.strategy_id,
                    instrument_id: self.instrument_id,
                    client_order_id: self.client_order_id,
                    kind,
                    seq: self.seq,
                    ts_event: ts,
                };
                self.seq = self.seq + 1;
                Ok(Some(ev))
            },
            None => Ok(None),
        }
    }
}

/// State-machine totality: a terminal state admits no transition at all,
/// and every rejected input leaves the state machine with an explicit
/// `InvalidStateTransition` answer — there is no undefined (state, input)
/// pair.
pub proof fn lemma_transition_total(
    state: OrderState,
    filled: u64,
    quantity: u64,
    input: TransitionInput,
)
    ensures
        is_terminal(state) ==> transition_spec(state, filled, quantity, input) == Err::<
            Transition,
            RejectReason,
        >(RejectReason::InvalidStateTransition),
        transition_spec(state, filled, quantity, input) is Err
            ==> transition_spec(state, filled, quantity, input) == Err::<
            Transition,
            RejectReason,
        >(RejectReason::InvalidStateTransition),
{
}

/// A whole chain of inputs applied in order, with every emitted event
/// collected in emission order.
pub open spec fn apply_all_spec(o: Order, inputs: Seq<(TransitionInput, u64)>) -> (Order, Seq<
    OrderEvent,
>)
    decreases inputs.len(),
{
    if inputs.len() == 0 {
        (o, Seq::<OrderEvent>::empty())
    } else {
        let a = o.apply_spec(inputs[0].0, inputs[0].1);
        let rest = apply_all_spec(a.0, inputs.drop_first());
        (rest.0, emitted(a.1) + rest.1)
    }
}

/// Total per-order event ordering: over any chain of applied inputs, the
/// order's events carry exactly the consecutive sequence numbers
/// `o.seq, o.seq + 1, ...` in emission order — strictly increasing with
/// no gaps — and the order's own `seq` advances in step with them.
pub proof fn lemma_event_sequence(o: Order, inputs: Seq<(TransitionInput, u64)>)
    ensures
        ({
            let r = apply_all_spec(o, inputs);
            &&& o.seq + r.1.len() == r.0.seq
            &&& forall|k: int| 0 <= k < r.1.len() ==> (#[trigger] r.1[k]).seq == o.seq + k
            &&& forall|k1: int, k2: int|
                0 <= k1 < k2 < r.1.len() ==> r.1[k1].seq < r.1[k2].seq
        }),
    decreases inputs.len(),
{
    if inputs.len() != 0 {
        let a = o.apply_spec(inputs[0].0, inputs[0].1);
        let rest = apply_all_spec(a.0, inputs.drop_first());
        let r = apply_all_spec(o, inputs);
        lemma_event_sequence(a.0, inputs.drop_first());
        assert(r.1 == emitted(a.1) + rest.1);
        match a.1 {
            Ok(Some(e)) => {
                assert(e.seq == o.seq && a.0.seq == o.seq + 1);
                assert((seq![e] + rest.1)[0] == e);
                assert forall|k: int| 0 <= k < r.1.len() implies (#[trigger] r.1[k]).seq == o.seq
                    + k by {
                    if k > 0 {
                        assert(r.1[k] == rest.1[k - 1]);
                    }
                }
            },
            _ => {
                assert(a.0.seq == o.seq);
                assert(emitted(a.1) =~= Seq::<OrderEvent>::empty());
                assert(r.1 =~= rest.1);
            },
        }
    }
}

/// Sum of the quantities of the `Filled` events in a sequence.
pub open spec fn sum_fill_event_qty(evs: Seq<OrderEvent>) -> int
    decreases evs.len(),
{
    if evs.len() == 0 {
        0
    } else {
        (match evs[0].kind {
            EventKind::Filled { qty, .. } => qty as int,
            _ => 0,
        }) + sum_fill_event_qty(evs.drop_first())
    }
}

/// One applied input preserves well-formedness, never decreases the
/// accumulated fill quantity, and keeps it within the order quantity.
pub proof fn lemma_apply_preserves_wf(o: Order, input: TransitionInput, ts: u64)
    requires
        o.wf(),
    ensures
        ({
            let a = o.apply_spec(input, ts);
            &&& a.0.wf()
            &&& o.filled_qty <= a.0.filled_qty
            &&& a.0.filled_qty <= a.0.quantity
        }),
{
}

/// Quantity conservation: over any chain of applied inputs, the
/// accumulated fill quantity is exactly the old accumulation plus the sum
/// of the emitted fill quantities, it never exceeds the order quantity,
/// and reaching the full quantity is exactly the terminal `Filled` state.
pub proof fn lemma_quantity_conservation(o: Order, inputs: Seq<(TransitionInput, u64)>)
    requires
        o.wf(),
    ensures
        ({
            let r = apply_all_spec(o, inputs);
            &&& r.0.wf()
            &&& r.0.filled_qty == o.filled_qty + sum_fill_event_qty(r.1)
            &&& r.0.filled_qty <= r.0.quantity
            &&& (r.0.quantity > 0 && r.0.filled_qty == r.0.quantity ==> r.0.state
                == OrderState::Filled)
            &&& (r.0.state == OrderState::Filled ==> r.0.filled_qty == r.0.quantity)
        }),
    decreases inputs.len(),
{
    if inputs.len() != 0 {
        let a = o.apply_spec(inputs[0].0, inputs[0].1);
        let rest = apply_all_spec(a.0, inputs.drop_first());
        let r = apply_all_spec(o, inputs);
        lemma_apply_preserves_wf(o, inputs[0].0, inputs[0].1);
        lemma_quantity_conservation(a.0, inputs.drop_first());
        match a.1 {
            Ok(Some(e)) => {
                assert((seq![e] + rest.1)[0] == e);
                assert((seq![e] + rest.1).drop_first() =~= rest.1);
                assert(sum_fill_event_qty(seq![e] + rest.1) == (match e.kind {
                    EventKind::Filled { qty, .. } => qty as int,
                    _ => 0,
                }) + sum_fill_event_qty(rest.1));
            },
            _ => {
                assert(emitted(a.1) =~= Seq::<OrderEvent>::empty());
                assert(r.1 =~= rest.1);
            },
        }
    }
}

/// Idempotent cancel at the entity level: applying a cancel to an order
/// already `PendingCancel` is accepted, emits nothing, and leaves state,
/// sequence, quantities and venue order id exactly as they were — so a
/// second cancel has the outcome of the first and no `Canceled` event is
/// ever duplicated.
pub proof fn lemma_cancel_idempotent_apply(o: Order, ts1: u64, ts2: u64)
    requires
        o.state == OrderState::PendingCancel,
    ensures
        ({
            let a = o.apply_spec(TransitionInput::Cancel, ts1);
            let b = a.0.apply_spec(TransitionInput::Cancel, ts2);
            &&& a.1 == Ok::<Option<OrderEvent>, RejectReason>(None)
            &&& b.1 == Ok::<Option<OrderEvent>, RejectReason>(None)
            &&& b.0.state == o.state
            &&& b.0.seq == o.seq
            &&& b.0.filled_qty == o.filled_qty
            &&& b.0.quantity == o.quantity
            &&& b.0.venue_order_id == o.venue_order_id
        }),
{
}

/// Idempotent cancel at the state-machine level: a cancel request against
/// an order already `PendingCancel` is accepted, changes nothing and emits
/// nothing, so issuing it any number of times has the effect of issuing it
/// once.
pub proof fn lemma_cancel_idempotent(filled: u64, quantity: u64)
    ensures
        transition_spec(OrderState::PendingCancel, filled, quantity, TransitionInput::Cancel)
            == Ok::<Transition, RejectReason>(Transition {
            next: OrderState::PendingCancel,
            event: None,
        }),
{
}

} // verus!
