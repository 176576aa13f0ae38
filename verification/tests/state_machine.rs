use execution_core::events::{EventKind, RejectReason};
use execution_core::order::{
    state_is_terminal, transition, Order, OrderSide, OrderState, OrderType, Transition,
    TransitionInput,
};
use execution_core::identifiers::{
    ClientId, ClientOrderId, InstrumentId, StrategyId, TraderId, VenueOrderId,
};

fn fresh_order(quantity: u64, price: u64) -> Order {
    Order::init(
        TraderId(1),
        ClientId(2),
        StrategyId(3),
        InstrumentId(4),
        ClientOrderId(5),
        None,
        None,
        OrderSide::Buy,
        OrderType::Limit,
        quantity,
        price,
        100,
    )
}

#[test]
fn submit_moves_initialized_to_submitted() {
    let r = transition(OrderState::Initialized, 0, 100, TransitionInput::Submit);
    assert_eq!(
        r,
        Ok(Transition { next: OrderState::Submitted, event: Some(EventKind::Submitted) })
    );
}

#[test]
fn accept_assigns_venue_order_id_once() {
    let mut o = fresh_order(100, 1000);
    o.apply(TransitionInput::Submit, 101).unwrap();
    let ev = o
        .apply(TransitionInput::Accept { venue_order_id: VenueOrderId(9) }, 102)
        .unwrap()
        .unwrap();
    assert_eq!(ev.kind, EventKind::Accepted { venue_order_id: VenueOrderId(9) });
    assert_eq!(o.venue_order_id, Some(VenueOrderId(9)));
    assert_eq!(o.state, OrderState::Accepted);
}

#[test]
fn every_terminal_state_rejects_every_input() {
    let terminals = [
        OrderState::Filled,
        OrderState::Canceled,
        OrderState::Rejected,
        OrderState::Expired,
        OrderState::Denied,
    ];
    let inputs = [
        TransitionInput::Submit,
        TransitionInput::Deny,
        TransitionInput::Accept { venue_order_id: VenueOrderId(1) },
        TransitionInput::VenueReject { reason: RejectReason::VenueRejected },
        TransitionInput::Fill { qty: 1, price: 1 },
        TransitionInput::Cancel,
        TransitionInput::CancelConfirm,
        TransitionInput::Modify,
        TransitionInput::ModifyConfirm { quantity: 5, price: 5 },
        TransitionInput::Expire,
    ];
    for s in terminals {
        assert!(state_is_terminal(s));
        for i in inputs {
            assert_eq!(transition(s, 1, 2, i), Err(RejectReason::InvalidStateTransition));
        }
    }
}

#[test]
fn totality_no_undefined_pair() {
    // Every (state, input) pair answers: either a transition or an explicit
    // rejection, never a panic.
    let states = [
        OrderState::Initialized,
        OrderState::Submitted,
        OrderState::Accepted,
        OrderState::PartiallyFilled,
        OrderState::Filled,
        OrderState::PendingCancel,
        OrderState::Canceled,
        OrderState::PendingUpdate,
        OrderState::Rejected,
        OrderState::Expired,
        OrderState::Denied,
    ];
    let inputs = [
        TransitionInput::Submit,
        TransitionInput::Deny,
        TransitionInput::Accept { venue_order_id: VenueOrderId(1) },
        TransitionInput::VenueReject { reason: RejectReason::VenueRejected },
        TransitionInput::Fill { qty: 1, price: 1 },
        TransitionInput::Cancel,
        TransitionInput::CancelConfirm,
        TransitionInput::Modify,
        TransitionInput::ModifyConfirm { quantity: 5, price: 5 },
        TransitionInput::Expire,
    ];
    for s in states {
        for i in inputs {
            match transition(s, 0, 10, i) {
                Ok(_) => {}
                Err(r) => assert_eq!(r, RejectReason::InvalidStateTransition),
            }
        }
    }
}

#[test]
fn fill_beyond_remaining_is_refused() {
    let r = transition(OrderState::Accepted, 60, 100, TransitionInput::Fill { qty: 41, price: 1 });
    assert_eq!(r, Err(RejectReason::InvalidStateTransition));
    let ok = transition(OrderState::Accepted, 60, 100, TransitionInput::Fill { qty: 40, price: 1 });
    assert_eq!(
        ok,
        Ok(Transition {
            next: OrderState::Filled,
            event: Some(EventKind::Filled { qty: 40, price: 1 })
        })
    );
}

#[test]
fn cancel_on_pending_cancel_is_idempotent_noop() {
    let r = transition(OrderState::PendingCancel, 0, 100, TransitionInput::Cancel);
    assert_eq!(r, Ok(Transition { next: OrderState::PendingCancel, event: None }));
    // applied twice on the entity: same outcome, no event either time
    let mut o = fresh_order(100, 1000);
    o.apply(TransitionInput::Submit, 101).unwrap();
    o.apply(TransitionInput::Accept { venue_order_id: VenueOrderId(9) }, 102).unwrap();
    assert_eq!(o.apply(TransitionInput::Cancel, 103), Ok(None));
    assert_eq!(o.state, OrderState::PendingCancel);
    let seq_before = o.seq;
    assert_eq!(o.apply(TransitionInput::Cancel, 104), Ok(None));
    assert_eq!(o.apply(TransitionInput::Cancel, 105), Ok(None));
    assert_eq!(o.state, OrderState::PendingCancel);
    assert_eq!(o.seq, seq_before);
}

#[test]
fn fill_in_flight_beats_cancel_then_residual_cancels() {
    // tie-break: a fill already in flight applies to an order pending
    // cancel; the residual is then canceled.
    let mut o = fresh_order(100, 1000);
    o.apply(TransitionInput::Submit, 101).unwrap();
    o.apply(TransitionInput::Accept { venue_order_id: VenueOrderId(9) }, 102).unwrap();
    o.apply(TransitionInput::Cancel, 103).unwrap();
    let ev = o.apply(TransitionInput::Fill { qty: 30, price: 1000 }, 103).unwrap().unwrap();
    assert_eq!(ev.kind, EventKind::Filled { qty: 30, price: 1000 });
    assert_eq!(o.state, OrderState::PendingCancel);
    assert_eq!(o.filled_qty, 30);
    let ev2 = o.apply(TransitionInput::CancelConfirm, 104).unwrap().unwrap();
    assert_eq!(ev2.kind, EventKind::Canceled);
    assert_eq!(o.state, OrderState::Canceled);
    assert_eq!(o.filled_qty, 30);
}

#[test]
fn event_sequence_numbers_are_gap_free() {
    let mut o = fresh_order(100, 1000);
    let e0 = o.apply(TransitionInput::Submit, 101).unwrap().unwrap();
    let e1 = o.apply(TransitionInput::Accept { venue_order_id: VenueOrderId(9) }, 102)
        .unwrap()
        .unwrap();
    let e2 = o.apply(TransitionInput::Fill { qty: 60, price: 1000 }, 103).unwrap().unwrap();
    let e3 = o.apply(TransitionInput::Fill { qty: 40, price: 1000 }, 104).unwrap().unwrap();
    assert_eq!((e0.seq, e1.seq, e2.seq, e3.seq), (0, 1, 2, 3));
    assert_eq!(o.seq, 4);
    assert_eq!(o.state, OrderState::Filled);
}

#[test]
fn full_fill_is_terminal_filled() {
    let mut o = fresh_order(50, 700);
    o.apply(TransitionInput::Submit, 1).unwrap();
    o.apply(TransitionInput::Accept { venue_order_id: VenueOrderId(1) }, 2).unwrap();
    o.apply(TransitionInput::Fill { qty: 50, price: 700 }, 3).unwrap();
    assert_eq!(o.state, OrderState::Filled);
    assert_eq!(o.filled_qty, o.quantity);
    // no further events accepted
    assert_eq!(
        o.apply(TransitionInput::Fill { qty: 1, price: 700 }, 4),
        Err(RejectReason::InvalidStateTransition)
    );
}

#[test]
fn modify_roundtrip_updates_quantity_and_price() {
    let mut o = fresh_order(100, 1000);
    o.apply(TransitionInput::Submit, 1).unwrap();
    o.apply(TransitionInput::Accept { venue_order_id: VenueOrderId(1) }, 2).unwrap();
    assert_eq!(o.apply(TransitionInput::Modify, 3), Ok(None));
    assert_eq!(o.state, OrderState::PendingUpdate);
    let ev = o
        .apply(TransitionInput::ModifyConfirm { quantity: 80, price: 990 }, 4)
        .unwrap()
        .unwrap();
    assert_eq!(ev.kind, EventKind::Modified { quantity: 80, price: 990 });
    assert_eq!(o.state, OrderState::Accepted);
    assert_eq!((o.quantity, o.price), (80, 990));
    // a confirmation at or below the accumulated fills is refused
    o.apply(TransitionInput::Fill { qty: 30, price: 990 }, 5).unwrap();
    assert_eq!(o.apply(TransitionInput::Modify, 6), Ok(None));
    assert_eq!(
        o.apply(TransitionInput::ModifyConfirm { quantity: 30, price: 990 }, 7),
        Err(RejectReason::InvalidStateTransition)
    );
}

#[test]
fn largest_quantity_order_fills_without_overflow() {
    let mut o = fresh_order(u64::MAX, 1);
    o.apply(TransitionInput::Submit, 1).unwrap();
    o.apply(TransitionInput::Accept { venue_order_id: VenueOrderId(1) }, 2).unwrap();
    o.apply(TransitionInput::Fill { qty: u64::MAX - 1, price: 1 }, 3).unwrap();
    assert_eq!(o.state, OrderState::PartiallyFilled);
    assert_eq!(o.filled_qty, u64::MAX - 1);
    o.apply(TransitionInput::Fill { qty: 1, price: 1 }, 4).unwrap();
    assert_eq!(o.state, OrderState::Filled);
    assert_eq!(o.filled_qty, u64::MAX);
}

#[test]
fn risk_denial_is_terminal_denied_with_one_rejection_event() {
    let mut o = fresh_order(100, 1000);
    let ev = o.apply(TransitionInput::Deny, 1).unwrap().unwrap();
    assert_eq!(ev.kind, EventKind::Rejected { reason: RejectReason::RiskDenied });
    assert_eq!(o.state, OrderState::Denied);
    assert_eq!(o.apply(TransitionInput::Submit, 2), Err(RejectReason::InvalidStateTransition));
}
