//! The execution engine: validates strategy commands against the risk
//! decision and the state machine, forwards accepted orders to the
//! exchange simulator, and applies every resulting event to its own order
//! table before handing the event out — so a caller always observes state
//! consistent with the table (read-after-write consistency).
//!
//! Every public operation is pinned to a pure function of the engine
//! state and its arguments; replaying the same commands and ticks from
//! the same configuration reproduces the same events.

use vstd::prelude::*;
use crate::identifiers::{ClientOrderId, VenueOrderId};
use crate::events::{emitted, EventKind, OrderEvent, RejectReason};
use crate::matching::{FillReport, MarketTick, MatchingEngine, SimView};
use crate::messages::{CancelAllOrders, CancelOrder, Command, ModifyOrder, RiskDecision, SubmitOrder};
use crate::order::{Order, OrderState, TransitionInput};

verus! {

/// Whether some order in the table carries `cid`.
pub open spec fn contains_order(orders: Seq<Order>, cid: ClientOrderId) -> bool {
    exists|i: int| 0 <= i < orders.len() && (#[trigger] orders[i]).client_order_id == cid
}

/// Index of the order carrying `cid`; under [`EngineView::wf`] at most
/// one does, so the chosen index is the only one.
pub open spec fn order_index(orders: Seq<Order>, cid: ClientOrderId) -> int {
    choose|i: int| 0 <= i < orders.len() && (#[trigger] orders[i]).client_order_id == cid
}

/// The order a `SubmitOrder` command creates, before any event.
pub open spec fn order_from_submit(cmd: SubmitOrder, now: u64) -> Order {
    Order {
        trader_id: cmd.trader_id,
        client_id: cmd.client_id,
        strategy_id: cmd.strategy_id,
        instrument_id: cmd.instrument_id,
        client_order_id: cmd.client_order_id,
        venue_order_id: None,
        exec_algorithm_id: cmd.exec_algorithm_id,
        position_id: cmd.position_id,
        side: cmd.side,
        order_type: cmd.order_type,
        quantity: cmd.quantity,
        price: cmd.price,
        state: OrderState::Initialized,
        filled_qty: 0u64,
        ts_init: now,
        ts_last: now,
        seq: 0u64,
    }
}

/// Ghost state of the execution engine: the order table, the simulator,
/// and the next venue order id to assign.
pub ghost struct EngineView {
    pub orders: Seq<Order>,
    pub sim: SimView,
    pub next_venue_id: u64,
}

impl EngineView {
    /// Every order in the table is well formed, past `Initialized`, and
    /// the only one carrying its client order id; the simulator is well
    /// formed.
    pub open spec fn wf(self) -> bool {
        &&& self.sim.wf()
        &&& forall|i: int|
            0 <= i < self.orders.len() ==> (#[trigger] self.orders[i]).wf() && self.orders[i].state
                != OrderState::Initialized
        &&& forall|i: int, j: int|
            0 <= i < self.orders.len() && 0 <= j < self.orders.len() && i != j ==> (
            #[trigger] self.orders[i]).client_order_id != (#[trigger] self.orders[j]).client_order_id
    }

    /// What submitting a new order does.
    ///
    /// A command whose client order id is already in the table is refused
    /// without any state change. Otherwise the order is created, and:
    /// a risk denial moves it to `Denied` with one rejection event and no
    /// venue contact; a venue-id exhaustion or a simulator refusal moves
    /// it through `Submitted` to `Rejected`; acceptance assigns the next
    /// venue order id, rests the order in the simulator and leaves it
    /// `Accepted`, with the `Submitted` event timestamped at `now` and
    /// the venue-side event at `now` plus the configured latency.
    pub open spec fn submit_spec(self, cmd: SubmitOrder, risk: RiskDecision, now: u64) -> (
        EngineView,
        Seq<OrderEvent>,
        Result<(), RejectReason>,
    ) {
        if contains_order(self.orders, cmd.client_order_id) {
            (self, Seq::<OrderEvent>::empty(), Err(RejectReason::InvalidStateTransition))
        } else {
            let o0 = order_from_submit(cmd, now);
            if risk == RiskDecision::Deny {
                let a = o0.apply_spec(TransitionInput::Deny, now);
                (
                    EngineView { orders: self.orders.push(a.0), ..self },
                    emitted(a.1),
                    Err(RejectReason::RiskDenied),
                )
            } else {
                let a = o0.apply_spec(TransitionInput::Submit, now);
                let vts = (now + self.sim.latency) as u64;
                if self.next_venue_id == u64::MAX {
                    let b = a.0.apply_spec(
                        TransitionInput::VenueReject { reason: RejectReason::VenueRejected },
                        vts,
                    );
                    (
                        EngineView { orders: self.orders.push(b.0), ..self },
                        emitted(a.1) + emitted(b.1),
                        Err(RejectReason::VenueRejected),
                    )
                } else {
                    let s = self.sim.add_order_spec(
                        cmd.client_order_id,
                        cmd.strategy_id,
                        cmd.side,
                        cmd.order_type,
                        cmd.price,
                        cmd.quantity,
                    );
                    match s.1 {
                        Err(reason) => {
                            let b = a.0.apply_spec(TransitionInput::VenueReject { reason }, vts);
                            (
                                EngineView { orders: self.orders.push(b.0), sim: s.0, ..self },
                                emitted(a.1) + emitted(b.1),
                                Err(reason),
                            )
                        },
                        Ok(_) => {
                            let vid = VenueOrderId(self.next_venue_id);
                            let b = a.0.apply_spec(
                                TransitionInput::Accept { venue_order_id: vid },
                                vts,
                            );
                            (
                                EngineView {
                                    orders: self.orders.push(b.0),
                                    sim: s.0,
                                    next_venue_id: (self.next_venue_id + 1) as u64,
                                },
                                emitted(a.1) + emitted(b.1),
                                Ok(()),
                            )
                        },
                    }
                }
            }
        }
    }

    /// What a cancel command does.
    ///
    /// An unknown client order id is refused with `NotFound` and no state
    /// change; a cancel invalid for the order's current state (a terminal
    /// state above all) is refused with the state machine's rejection and
    /// no state change. Otherwise the order passes through
    /// `PendingCancel`, its residual leaves the simulator's book, and the
    /// venue confirmation (at `now` plus latency) moves it to `Canceled`
    /// with one `Canceled` event.
    pub open spec fn cancel_spec(self, cmd: CancelOrder, now: u64) -> (
        EngineView,
        Seq<OrderEvent>,
        Result<(), RejectReason>,
    ) {
        if !contains_order(self.orders, cmd.client_order_id) {
            (self, Seq::<OrderEvent>::empty(), Err(RejectReason::NotFound))
        } else {
            let i = order_index(self.orders, cmd.client_order_id);
            let a = self.orders[i].apply_spec(TransitionInput::Cancel, now);
            match a.1 {
                Err(r) => (self, Seq::<OrderEvent>::empty(), Err(r)),
                Ok(_) => {
                    let sim2 = self.sim.remove_order_spec(cmd.client_order_id);
                    let vts = (now + self.sim.latency) as u64;
                    let b = a.0.apply_spec(TransitionInput::CancelConfirm, vts);
                    match b.1 {
                        Err(r) => (
                            EngineView { orders: self.orders.update(i, a.0), sim: sim2, ..self },
                            Seq::<OrderEvent>::empty(),
                            Err(r),
                        ),
                        Ok(_) => (
                            EngineView { orders: self.orders.update(i, b.0), sim: sim2, ..self },
                            emitted(b.1),
                            Ok(()),
                        ),
                    }
                },
            }
        }
    }

    /// What a modify command does.
    ///
    /// The command is refused — leaving engine and order unchanged — for
    /// an unknown client order id (`NotFound`), a risk denial
    /// (`RiskDenied`, the venue is never contacted), a new quantity not
    /// above the accumulated fill quantity (`InvalidStateTransition`), an
    /// exhausted event or submission sequence, a modification that would
    /// cross a resting order of the order's own strategy
    /// (`SelfMatchPrevention`), or a state that admits no modify.
    /// Otherwise the order passes through `PendingUpdate`, its residual
    /// re-rests at the new price with a fresh submission sequence (losing
    /// time priority), and the confirmation at `now` plus latency emits
    /// one `Modified` event.
    pub open spec fn modify_spec(self, cmd: ModifyOrder, risk: RiskDecision, now: u64) -> (
        EngineView,
        Seq<OrderEvent>,
        Result<(), RejectReason>,
    ) {
        if !contains_order(self.orders, cmd.client_order_id) {
            (self, Seq::<OrderEvent>::empty(), Err(RejectReason::NotFound))
        } else {
            let i = order_index(self.orders, cmd.client_order_id);
            let o = self.orders[i];
            if risk == RiskDecision::Deny {
                (self, Seq::<OrderEvent>::empty(), Err(RejectReason::RiskDenied))
            } else if cmd.quantity <= o.filled_qty || o.seq == u64::MAX {
                (self, Seq::<OrderEvent>::empty(), Err(RejectReason::InvalidStateTransition))
            } else if self.sim.next_submission_seq == u64::MAX {
                (self, Seq::<OrderEvent>::empty(), Err(RejectReason::VenueRejected))
            } else if !self.sim.allow_self_match && crate::matching::self_match_spec(
                if o.side == crate::order::OrderSide::Buy {
                    self.sim.asks
                } else {
                    self.sim.bids
                },
                o.side,
                o.order_type,
                cmd.price,
                o.strategy_id,
            ) {
                (self, Seq::<OrderEvent>::empty(), Err(RejectReason::SelfMatchPrevention))
            } else {
                let a = o.apply_spec(TransitionInput::Modify, now);
                match a.1 {
                    Err(r) => (self, Seq::<OrderEvent>::empty(), Err(r)),
                    Ok(_) => {
                        let sim2 = self.sim.remove_order_spec(cmd.client_order_id);
                        let s3 = sim2.add_order_spec(
                            cmd.client_order_id,
                            o.strategy_id,
                            o.side,
                            o.order_type,
                            cmd.price,
                            (cmd.quantity - o.filled_qty) as u64,
                        );
                        let vts = (now + self.sim.latency) as u64;
                        match s3.1 {
                            Err(r) => (
                                EngineView {
                                    orders: self.orders.update(i, a.0),
                                    sim: sim2,
                                    ..self
                                },
                                Seq::<OrderEvent>::empty(),
                                Err(r),
                            ),
                            Ok(_) => {
                                let b = a.0.apply_spec(
                                    TransitionInput::ModifyConfirm {
                                        quantity: cmd.quantity,
                                        price: cmd.price,
                                    },
                                    vts,
                                );
                                match b.1 {
                                    Err(r) => (
                                        EngineView {
                                            orders: self.orders.update(i, a.0),
                                            sim: s3.0,
                                            ..self
                                        },
                                        Seq::<OrderEvent>::empty(),
                                        Err(r),
                                    ),
                                    Ok(_) => (
                                        EngineView {
                                            orders: self.orders.update(i, b.0),
                                            sim: s3.0,
                                            ..self
                                        },
                                        emitted(b.1),
                                        Ok(()),
                                    ),
                                }
                            },
                        }
                    },
                }
            }
        }
    }

    /// What canceling the order at index `i` does, with no answer owed to
    /// anyone: an order whose state admits no cancel is left alone.
    pub open spec fn cancel_step_spec(self, i: int, now: u64) -> (EngineView, Seq<OrderEvent>) {
        let o = self.orders[i];
        let a = o.apply_spec(TransitionInput::Cancel, now);
        match a.1 {
            Err(_) => (self, Seq::<OrderEvent>::empty()),
            Ok(_) => {
                let sim2 = self.sim.remove_order_spec(o.client_order_id);
                let vts = (now + self.sim.latency) as u64;
                let b = a.0.apply_spec(TransitionInput::CancelConfirm, vts);
                match b.1 {
                    Err(_) => (
                        EngineView { orders: self.orders.update(i, a.0), sim: sim2, ..self },
                        Seq::<OrderEvent>::empty(),
                    ),
                    Ok(_) => (
                        EngineView { orders: self.orders.update(i, b.0), sim: sim2, ..self },
                        emitted(b.1),
                    ),
                }
            },
        }
    }

    /// Whether `o` is addressed by a cancel-all command.
    pub open spec fn cancel_all_matches(o: Order, cmd: CancelAllOrders) -> bool {
        o.trader_id == cmd.trader_id && o.strategy_id == cmd.strategy_id && o.instrument_id
            == cmd.instrument_id
    }

    /// Cancel-all walked from table index `i` with `n` indexes left.
    pub open spec fn cancel_all_from_spec(
        self,
        cmd: CancelAllOrders,
        now: u64,
        i: int,
        n: nat,
    ) -> (EngineView, Seq<OrderEvent>)
        decreases n,
    {
        if n == 0 {
            (self, Seq::<OrderEvent>::empty())
        } else {
            let step = if 0 <= i < self.orders.len() && Self::cancel_all_matches(
                self.orders[i],
                cmd,
            ) {
                self.cancel_step_spec(i, now)
            } else {
                (self, Seq::<OrderEvent>::empty())
            };
            let rest = step.0.cancel_all_from_spec(cmd, now, i + 1, (n - 1) as nat);
            (rest.0, step.1 + rest.1)
        }
    }

    /// What a cancel-all command does: every table order of the command's
    /// trader, strategy and instrument whose state admits a cancel is
    /// canceled, in table order; the others are left alone.
    pub open spec fn cancel_all_spec(self, cmd: CancelAllOrders, now: u64) -> (EngineView, Seq<
        OrderEvent,
    >) {
        self.cancel_all_from_spec(cmd, now, 0, self.orders.len())
    }

    /// What one fill report does to the order table: the fill is applied
    /// to the order it names, which emits its `Filled` event; a report
    /// naming no table order, or one the state machine refuses, changes
    /// nothing.
    pub open spec fn apply_one_fill_spec(orders: Seq<Order>, f: FillReport, ts: u64) -> (
        Seq<Order>,
        Seq<OrderEvent>,
    ) {
        if !contains_order(orders, f.client_order_id) {
            (orders, Seq::<OrderEvent>::empty())
        } else {
            let i = order_index(orders, f.client_order_id);
            let a = orders[i].apply_spec(
                TransitionInput::Fill { qty: f.qty, price: f.price },
                ts,
            );
            match a.1 {
                Err(_) => (orders, Seq::<OrderEvent>::empty()),
                Ok(_) => (orders.update(i, a.0), emitted(a.1)),
            }
        }
    }

    /// Fill reports applied in execution order.
    pub open spec fn apply_fills_spec(orders: Seq<Order>, fills: Seq<FillReport>, ts: u64) -> (
        Seq<Order>,
        Seq<OrderEvent>,
    )
        decreases fills.len(),
    {
        if fills.len() == 0 {
            (orders, Seq::<OrderEvent>::empty())
        } else {
            let a = Self::apply_one_fill_spec(orders, fills[0], ts);
            let b = Self::apply_fills_spec(a.0, fills.drop_first(), ts);
            (b.0, a.1 + b.1)
        }
    }

    /// What a command does: dispatch on its kind. The risk decision
    /// applies to submit and modify commands; a cancel is never
    /// risk-checked, and a cancel-all always succeeds, canceling what can
    /// be canceled.
    pub open spec fn execute_spec(self, cmd: Command, risk: RiskDecision, now: u64) -> (
        EngineView,
        Seq<OrderEvent>,
        Result<(), RejectReason>,
    ) {
        match cmd {
            Command::Submit(c) => self.submit_spec(c, risk, now),
            Command::Modify(c) => self.modify_spec(c, risk, now),
            Command::Cancel(c) => self.cancel_spec(c, now),
            Command::CancelAll(c) => {
                let a = self.cancel_all_spec(c, now);
                (a.0, a.1, Ok(()))
            },
        }
    }

    /// What one market-data tick does: the simulator matches it, and the
    /// resulting fills are applied to the order table in execution order,
    /// each emitting its `Filled` event at `now` plus latency.
    pub open spec fn on_tick_spec(self, tick: MarketTick, now: u64) -> (EngineView, Seq<
        OrderEvent,
    >) {
        let s = self.sim.process_tick_spec(tick);
        let vts = (now + self.sim.latency) as u64;
        let a = Self::apply_fills_spec(self.orders, s.1, vts);
        (EngineView { orders: a.0, sim: s.0, ..self }, a.1)
    }
}

/// When a submit succeeds, exactly: the client order id is new, the risk
/// check accepts, the venue id space is not exhausted, and the simulator
/// accepts (positive quantity, submission sequences left, id not already
/// resting, no prevented self match). A successful submit leaves the new
/// order `Accepted` with its venue order id assigned, and emits exactly
/// the `Submitted` and `Accepted` events.
pub proof fn lemma_submit_success(v: EngineView, cmd: SubmitOrder, risk: RiskDecision, now: u64)
    requires
        v.wf(),
    ensures
        ({
            let r = v.submit_spec(cmd, risk, now);
            &&& (r.2 is Ok <==> {
                &&& !contains_order(v.orders, cmd.client_order_id)
                &&& risk == RiskDecision::Accept
                &&& v.next_venue_id != u64::MAX
                &&& cmd.quantity != 0
                &&& v.sim.next_submission_seq != u64::MAX
                &&& !crate::matching::book_contains_cid(v.sim.bids, cmd.client_order_id)
                &&& !crate::matching::book_contains_cid(v.sim.asks, cmd.client_order_id)
                &&& (v.sim.allow_self_match || !crate::matching::self_match_spec(
                    if cmd.side == crate::order::OrderSide::Buy {
                        v.sim.asks
                    } else {
                        v.sim.bids
                    },
                    cmd.side,
                    cmd.order_type,
                    cmd.price,
                    cmd.strategy_id,
                ))
            })
            &&& (r.2 is Ok ==> {
                &&& r.1.len() == 2
                &&& r.1[0].kind == EventKind::Submitted
                &&& r.1[1].kind == (EventKind::Accepted {
                    venue_order_id: VenueOrderId(v.next_venue_id),
                })
                &&& r.0.orders.len() == v.orders.len() + 1
                &&& r.0.orders.last().state == OrderState::Accepted
                &&& r.0.orders.last().venue_order_id == Some(VenueOrderId(v.next_venue_id))
                &&& r.0.orders.last().client_order_id == cmd.client_order_id
            })
        }),
{
    let r = v.submit_spec(cmd, risk, now);
    if !contains_order(v.orders, cmd.client_order_id) && risk == RiskDecision::Accept
        && v.next_venue_id != u64::MAX {
        let o0 = order_from_submit(cmd, now);
        let a = o0.apply_spec(TransitionInput::Submit, now);
        let s = v.sim.add_order_spec(
            cmd.client_order_id,
            cmd.strategy_id,
            cmd.side,
            cmd.order_type,
            cmd.price,
            cmd.quantity,
        );
        if s.1 is Ok {
            let vts = (now + v.sim.latency) as u64;
            let vid = VenueOrderId(v.next_venue_id);
            let b = a.0.apply_spec(TransitionInput::Accept { venue_order_id: vid }, vts);
            assert(r.1 == emitted(a.1) + emitted(b.1));
            assert(r.1[0] == emitted(a.1)[0]);
            assert(r.1[1] == emitted(b.1)[0]);
        }
    }
}

/// When a cancel succeeds, exactly: the client order id is in the table,
/// its order's state admits a cancel (`Accepted`, `PartiallyFilled` or an
/// idempotent `PendingCancel`), and its event sequence is not exhausted.
/// A successful cancel leaves the order `Canceled` and emits exactly one
/// `Canceled` event.
pub proof fn lemma_cancel_success(v: EngineView, cmd: CancelOrder, now: u64)
    requires
        v.wf(),
    ensures
        ({
            let r = v.cancel_spec(cmd, now);
            &&& (r.2 is Ok <==> {
                &&& contains_order(v.orders, cmd.client_order_id)
                &&& {
                    let o = v.orders[order_index(v.orders, cmd.client_order_id)];
                    &&& (o.state == OrderState::Accepted || o.state == OrderState::PartiallyFilled
                        || o.state == OrderState::PendingCancel)
                    &&& o.seq != u64::MAX
                }
            })
            &&& (r.2 is Ok ==> {
                &&& r.1.len() == 1
                &&& r.1[0].kind == EventKind::Canceled
                &&& r.0.orders[order_index(v.orders, cmd.client_order_id)].state
                    == OrderState::Canceled
            })
        }),
{
}

/// Cancel-all changes neither the simulator's configuration nor its
/// latency.
pub proof fn lemma_cancel_all_latency(
    v: EngineView,
    cmd: CancelAllOrders,
    now: u64,
    i: int,
    n: nat,
)
    ensures
        v.cancel_all_from_spec(cmd, now, i, n).0.sim.latency == v.sim.latency,
        v.cancel_all_from_spec(cmd, now, i, n).0.sim.allow_self_match
            == v.sim.allow_self_match,
    decreases n,
{
    if n != 0 {
        let step = if 0 <= i < v.orders.len() && EngineView::cancel_all_matches(
            v.orders[i],
            cmd,
        ) {
            v.cancel_step_spec(i, now)
        } else {
            (v, Seq::<OrderEvent>::empty())
        };
        lemma_cancel_all_latency(step.0, cmd, now, i + 1, (n - 1) as nat);
    }
}

/// The execution engine wired to the backtest simulator.
pub struct ExecutionEngine {
    pub orders: Vec<Order>,
    pub sim: MatchingEngine,
    pub next_venue_id: u64,
}

impl View for ExecutionEngine {
    type V = EngineView;

    open spec fn view(&self) -> EngineView {
        EngineView { orders: self.orders@, sim: self.sim@, next_venue_id: self.next_venue_id }
    }
}

/// Index of the first (under [`EngineView::wf`] the only) table order
/// carrying `cid`.
fn find_order(orders: &Vec<Order>, cid: ClientOrderId) -> (r: Option<usize>)
    ensures
        match r {
            Some(k) => k < orders@.len() && orders@[k as int].client_order_id == cid,
            None => !contains_order(orders@, cid),
        },
{
    let mut k: usize = 0;
    loop
        invariant
            k <= orders@.len(),
            forall|i: int| 0 <= i < k ==> (#[trigger] orders@[i]).client_order_id != cid,
        decreases orders@.len() - k,
    {
        if k == orders.len() {
            return None;
        }
        if orders[k].client_order_id.0 == cid.0 {
            return Some(k);
        }
        k = k + 1;
    }
}

impl ExecutionEngine {
    /// An engine with an empty order table over a fresh simulator.
    pub fn new(allow_self_match: bool, latency: u64) -> (e: ExecutionEngine)
        ensures
            e@.wf(),
            e@.orders == Seq::<Order>::empty(),
            e@.sim == (SimView {
                bids: Seq::<crate::matching::RestingOrder>::empty(),
                asks: Seq::<crate::matching::RestingOrder>::empty(),
                allow_self_match,
                latency,
                next_submission_seq: 0u64,
            }),
            e@.next_venue_id == 0u64,
    {
        let e = ExecutionEngine {
            orders: Vec::new(),
            sim: MatchingEngine::new(allow_self_match, latency),
            next_venue_id: 0,
        };
        proof {
            assert(e@.orders =~= Seq::<Order>::empty());
        }
        e
    }

    /// Submits a new order, exactly as [`EngineView::submit_spec`] says;
    /// returns the emitted events in order and the command's outcome.
    pub fn submit(&mut self, cmd: SubmitOrder, risk: RiskDecision, now: u64) -> (out: (
        Vec<OrderEvent>,
        Result<(), RejectReason>,
    ))
        requires
            old(self)@.wf(),
            now + old(self)@.sim.latency <= u64::MAX,
        ensures
            final(self)@.wf(),
            (final(self)@, out.0@, out.1) == old(self)@.submit_spec(cmd, risk, now),
    {
        let ghost pre = self@;
        let mut events: Vec<OrderEvent> = Vec::new();
        proof {
            assert(events@ =~= Seq::<OrderEvent>::empty());
        }
        if find_order(&self.orders, cmd.client_order_id).is_some() {
            return (events, Err(RejectReason::InvalidStateTransition));
        }
        let mut order = Order::init(
            cmd.trader_id,
            cmd.client_id,
            cmd.strategy_id,
            cmd.instrument_id,
            cmd.client_order_id,
            cmd.exec_algorithm_id,
            cmd.position_id,
            cmd.side,
            cmd.order_type,
            cmd.quantity,
            cmd.price,
            now,
        );
        proof {
            assert(order == order_from_submit(cmd, now));
        }
        if matches!(risk, RiskDecision::Deny) {
            let r1 = order.apply(TransitionInput::Deny, now);
            match r1 {
                Ok(Some(ev)) => events.push(ev),
                _ => {},
            }
            self.orders.push(order);
            proof {
                assert(events@ =~= emitted(order_from_submit(cmd, now).apply_spec(
                    TransitionInput::Deny,
                    now,
                ).1));
                Self::lemma_push_wf(pre, self@, order);
            }
            return (events, Err(RejectReason::RiskDenied));
        }
        let r1 = order.apply(TransitionInput::Submit, now);
        match r1 {
            Ok(Some(ev)) => events.push(ev),
            _ => {},
        }
        let ghost a = order_from_submit(cmd, now).apply_spec(TransitionInput::Submit, now);
        let vts = now + self.sim.latency;
        if self.next_venue_id == u64::MAX {
            let r2 = order.apply(
                TransitionInput::VenueReject { reason: RejectReason::VenueRejected },
                vts,
            );
            match r2 {
                Ok(Some(ev)) => events.push(ev),
                _ => {},
            }
            self.orders.push(order);
            proof {
                assert(events@ =~= emitted(a.1) + emitted(a.0.apply_spec(
                    TransitionInput::VenueReject { reason: RejectReason::VenueRejected },
                    vts,
                ).1));
                Self::lemma_push_wf(pre, self@, order);
            }
            return (events, Err(RejectReason::VenueRejected));
        }
        let ar = self.sim.add_order(
            cmd.client_order_id,
            cmd.strategy_id,
            cmd.side,
            cmd.order_type,
            cmd.price,
            cmd.quantity,
        );
        match ar {
            Err(reason) => {
                let r2 = order.apply(TransitionInput::VenueReject { reason }, vts);
                match r2 {
                    Ok(Some(ev)) => events.push(ev),
                    _ => {},
                }
                self.orders.push(order);
                proof {
                    assert(events@ =~= emitted(a.1) + emitted(a.0.apply_spec(
                        TransitionInput::VenueReject { reason },
                        vts,
                    ).1));
                    Self::lemma_push_wf(pre, self@, order);
                }
                (events, Err(reason))
            },
            Ok(_) => {
                let vid = VenueOrderId(self.next_venue_id);
                self.next_venue_id = self.next_venue_id + 1;
                let r2 = order.apply(TransitionInput::Accept { venue_order_id: vid }, vts);
                match r2 {
                    Ok(Some(ev)) => events.push(ev),
                    _ => {},
                }
                self.orders.push(order);
                proof {
                    assert(events@ =~= emitted(a.1) + emitted(a.0.apply_spec(
                        TransitionInput::Accept { venue_order_id: vid },
                        vts,
                    ).1));
                    Self::lemma_push_wf(pre, self@, order);
                }
                (events, Ok(()))
            },
        }
    }

    /// The pushed order is well formed, past `Initialized`, and carries a
    /// client order id no table order carries: the table stays well
    /// formed.
    proof fn lemma_push_wf(pre: EngineView, post: EngineView, o: Order)
        requires
            pre.wf(),
            post.sim.wf(),
            post.orders == pre.orders.push(o),
            o.wf(),
            o.state != OrderState::Initialized,
            !contains_order(pre.orders, o.client_order_id),
        ensures
            post.wf(),
    {
        assert forall|i: int| 0 <= i < post.orders.len() implies (#[trigger] post.orders[i]).wf()
            && post.orders[i].state != OrderState::Initialized by {
            if i < pre.orders.len() {
                assert(post.orders[i] == pre.orders[i]);
            } else {
                assert(post.orders[i] == o);
            }
        }
        assert forall|i: int, j: int|
            0 <= i < post.orders.len() && 0 <= j < post.orders.len() && i != j implies (
        #[trigger] post.orders[i]).client_order_id != (#[trigger] post.orders[j]).client_order_id by {
            if i < pre.orders.len() && j < pre.orders.len() {
                assert(post.orders[i] == pre.orders[i] && post.orders[j] == pre.orders[j]);
            } else if i < pre.orders.len() {
                assert(post.orders[i] == pre.orders[i] && post.orders[j] == o);
            } else {
                assert(post.orders[i] == o && post.orders[j] == pre.orders[j]);
            }
        }
    }

    /// Cancels an order, exactly as [`EngineView::cancel_spec`] says.
    pub fn cancel(&mut self, cmd: CancelOrder, now: u64) -> (out: (
        Vec<OrderEvent>,
        Result<(), RejectReason>,
    ))
        requires
            old(self)@.wf(),
            now + old(self)@.sim.latency <= u64::MAX,
        ensures
            final(self)@.wf(),
            (final(self)@, out.0@, out.1) == old(self)@.cancel_spec(cmd, now),
    {
        let ghost pre = self@;
        let mut events: Vec<OrderEvent> = Vec::new();
        proof {
            assert(events@ =~= Seq::<OrderEvent>::empty());
        }
        let k: usize = match find_order(&self.orders, cmd.client_order_id) {
            None => {
                return (events, Err(RejectReason::NotFound));
            },
            Some(k) => k,
        };
        proof {
            assert(contains_order(pre.orders, cmd.client_order_id));
            let ci = order_index(pre.orders, cmd.client_order_id);
            assert(pre.orders[ci].client_order_id == cmd.client_order_id);
            assert(ci == k as int);
        }
        let mut order = self.orders[k];
        let r1 = order.apply(TransitionInput::Cancel, now);
        if let Err(r) = r1 {
            return (events, Err(r));
        }
        let vts = now + self.sim.latency;
        self.sim.remove_order(cmd.client_order_id);
        let r2 = order.apply(TransitionInput::CancelConfirm, vts);
        match r2 {
            Err(r) => {
                self.orders.set(k, order);
                proof {
                    Self::lemma_update_wf(pre, self@, k as int, order);
                }
                (events, Err(r))
            },
            Ok(opt) => {
                match opt {
                    Some(ev) => events.push(ev),
                    None => {},
                }
                self.orders.set(k, order);
                proof {
                    let a = pre.orders[k as int].apply_spec(TransitionInput::Cancel, now);
                    let b = a.0.apply_spec(TransitionInput::CancelConfirm, vts);
                    assert(events@ =~= emitted(b.1));
                    Self::lemma_update_wf(pre, self@, k as int, order);
                }
                (events, Ok(()))
            },
        }
    }

    /// The updated order is well formed, past `Initialized` and keeps its
    /// client order id: the table stays well formed.
    proof fn lemma_update_wf(pre: EngineView, post: EngineView, k: int, o: Order)
        requires
            pre.wf(),
            post.sim.wf(),
            0 <= k < pre.orders.len(),
            post.orders == pre.orders.update(k, o),
            o.wf(),
            o.state != OrderState::Initialized,
            o.client_order_id == pre.orders[k].client_order_id,
        ensures
            post.wf(),
    {
        assert forall|i: int| 0 <= i < post.orders.len() implies (#[trigger] post.orders[i]).wf()
            && post.orders[i].state != OrderState::Initialized by {
            if i != k {
                assert(post.orders[i] == pre.orders[i]);
            }
        }
        assert forall|i: int, j: int|
            0 <= i < post.orders.len() && 0 <= j < post.orders.len() && i != j implies (
        #[trigger] post.orders[i]).client_order_id != (#[trigger] post.orders[j]).client_order_id by {
            let oi = if i == k {
                pre.orders[k]
            } else {
                pre.orders[i]
            };
            let oj = if j == k {
                pre.orders[k]
            } else {
                pre.orders[j]
            };
            assert(post.orders[i].client_order_id == oi.client_order_id);
            assert(post.orders[j].client_order_id == oj.client_order_id);
        }
    }

    /// Modifies a working order, exactly as [`EngineView::modify_spec`]
    /// says.
    pub fn modify(&mut self, cmd: ModifyOrder, risk: RiskDecision, now: u64) -> (out: (
        Vec<OrderEvent>,
        Result<(), RejectReason>,
    ))
        requires
            old(self)@.wf(),
            now + old(self)@.sim.latency <= u64::MAX,
        ensures
            final(self)@.wf(),
            (final(self)@, out.0@, out.1) == old(self)@.modify_spec(cmd, risk, now),
    {
        let ghost pre = self@;
        let mut events: Vec<OrderEvent> = Vec::new();
        proof {
            assert(events@ =~= Seq::<OrderEvent>::empty());
        }
        let k: usize = match find_order(&self.orders, cmd.client_order_id) {
            None => {
                return (events, Err(RejectReason::NotFound));
            },
            Some(k) => k,
        };
        proof {
            let ci = order_index(pre.orders, cmd.client_order_id);
            assert(pre.orders[ci].client_order_id == cmd.client_order_id);
            assert(ci == k as int);
        }
        if matches!(risk, RiskDecision::Deny) {
            return (events, Err(RejectReason::RiskDenied));
        }
        let mut order = self.orders[k];
        if cmd.quantity <= order.filled_qty || order.seq == u64::MAX {
            return (events, Err(RejectReason::InvalidStateTransition));
        }
        if self.sim.next_submission_seq == u64::MAX {
            return (events, Err(RejectReason::VenueRejected));
        }
        if !self.sim.allow_self_match {
            if self.sim.would_self_match(order.side, order.order_type, cmd.price, order.strategy_id)
            {
                return (events, Err(RejectReason::SelfMatchPrevention));
            }
        }
        let r1 = order.apply(TransitionInput::Modify, now);
        if let Err(r) = r1 {
            return (events, Err(r));
        }
        self.sim.remove_order(cmd.client_order_id);
        let ar = self.sim.add_order(
            cmd.client_order_id,
            order.strategy_id,
            order.side,
            order.order_type,
            cmd.price,
            cmd.quantity - order.filled_qty,
        );
        let vts = now + self.sim.latency;
        let ghost mid = EngineView { orders: pre.orders, sim: self@.sim, ..pre };
        match ar {
            Err(r) => {
                self.orders.set(k, order);
                proof {
                    Self::lemma_update_wf(mid, self@, k as int, order);
                }
                (events, Err(r))
            },
            Ok(_) => {
                let r2 = order.apply(
                    TransitionInput::ModifyConfirm { quantity: cmd.quantity, price: cmd.price },
                    vts,
                );
                match r2 {
                    Err(r) => {
                        self.orders.set(k, order);
                        proof {
                            Self::lemma_update_wf(mid, self@, k as int, order);
                        }
                        (events, Err(r))
                    },
                    Ok(opt) => {
                        match opt {
                            Some(ev) => events.push(ev),
                            None => {},
                        }
                        self.orders.set(k, order);
                        proof {
                            let o = pre.orders[k as int];
                            let a = o.apply_spec(TransitionInput::Modify, now);
                            let b = a.0.apply_spec(
                                TransitionInput::ModifyConfirm {
                                    quantity: cmd.quantity,
                                    price: cmd.price,
                                },
                                vts,
                            );
                            assert(events@ =~= emitted(b.1));
                            Self::lemma_update_wf(mid, self@, k as int, order);
                        }
                        (events, Ok(()))
                    },
                }
            },
        }
    }

    /// Cancels every order of the command's trader, strategy and
    /// instrument whose state admits a cancel, exactly as
    /// [`EngineView::cancel_all_spec`] says; returns the emitted
    /// `Canceled` events in table order.
    pub fn cancel_all(&mut self, cmd: CancelAllOrders, now: u64) -> (events: Vec<OrderEvent>)
        requires
            old(self)@.wf(),
            now + old(self)@.sim.latency <= u64::MAX,
        ensures
            final(self)@.wf(),
            (final(self)@, events@) == old(self)@.cancel_all_spec(cmd, now),
    {
        let ghost pre = self@;
        let ghost target = pre.cancel_all_spec(cmd, now);
        let mut events: Vec<OrderEvent> = Vec::new();
        let total: usize = self.orders.len();
        proof {
            assert(events@ + target.1 =~= target.1);
        }
        let mut i: usize = 0;
        loop
            invariant
                self@.wf(),
                i <= total,
                total == self@.orders.len(),
                self@.sim.latency == pre.sim.latency,
                now + pre.sim.latency <= u64::MAX,
                target.0 == self@.cancel_all_from_spec(cmd, now, i as int, (total - i) as nat).0,
                target.1 == events@ + self@.cancel_all_from_spec(
                    cmd,
                    now,
                    i as int,
                    (total - i) as nat,
                ).1,
            ensures
                self@.wf(),
                i == total,
                target.0 == self@.cancel_all_from_spec(cmd, now, i as int, (total - i) as nat).0,
                target.1 == events@ + self@.cancel_all_from_spec(
                    cmd,
                    now,
                    i as int,
                    (total - i) as nat,
                ).1,
            decreases total - i,
        {
            if i == total {
                break;
            }
            let ghost stview = self@;
            let ghost rec = stview.cancel_all_from_spec(cmd, now, i as int, (total - i) as nat);
            let ghost step = if EngineView::cancel_all_matches(stview.orders[i as int], cmd) {
                stview.cancel_step_spec(i as int, now)
            } else {
                (stview, Seq::<OrderEvent>::empty())
            };
            let ghost evs_before = events@;
            let order_i = self.orders[i];
            let m = order_i.trader_id == cmd.trader_id && order_i.strategy_id == cmd.strategy_id
                && order_i.instrument_id == cmd.instrument_id;
            if m {
                let mut order = order_i;
                let r1 = order.apply(TransitionInput::Cancel, now);
                match r1 {
                    Err(_) => {},
                    Ok(_) => {
                        self.sim.remove_order(order_i.client_order_id);
                        let vts = now + self.sim.latency;
                        let ghost mid = EngineView { orders: stview.orders, sim: self@.sim, ..stview };
                        let r2 = order.apply(TransitionInput::CancelConfirm, vts);
                        match r2 {
                            Err(_) => {
                                self.orders.set(i, order);
                                proof {
                                    Self::lemma_update_wf(mid, self@, i as int, order);
                                }
                            },
                            Ok(opt) => {
                                match opt {
                                    Some(ev) => events.push(ev),
                                    None => {},
                                }
                                self.orders.set(i, order);
                                proof {
                                    Self::lemma_update_wf(mid, self@, i as int, order);
                                }
                            },
                        }
                    },
                }
            }
            proof {
                assert(self@ == step.0);
                assert(events@ =~= evs_before + step.1);
                assert(rec.0 == step.0.cancel_all_from_spec(
                    cmd,
                    now,
                    i as int + 1,
                    (total - i - 1) as nat,
                ).0);
                assert(rec.1 == step.1 + step.0.cancel_all_from_spec(
                    cmd,
                    now,
                    i as int + 1,
                    (total - i - 1) as nat,
                ).1);
                assert((evs_before + step.1) + step.0.cancel_all_from_spec(
                    cmd,
                    now,
                    i as int + 1,
                    (total - i - 1) as nat,
                ).1 =~= evs_before + (step.1 + step.0.cancel_all_from_spec(
                    cmd,
                    now,
                    i as int + 1,
                    (total - i - 1) as nat,
                ).1));
            }
            i = i + 1;
        }
        proof {
            assert(target.0 == self@);
            assert(target.1 =~= events@);
        }
        events
    }

    /// Executes one command, exactly as [`EngineView::execute_spec`]
    /// says; returns the emitted events in order and the command's
    /// outcome.
    pub fn execute(&mut self, cmd: Command, risk: RiskDecision, now: u64) -> (out: (
        Vec<OrderEvent>,
        Result<(), RejectReason>,
    ))
        requires
            old(self)@.wf(),
            now + old(self)@.sim.latency <= u64::MAX,
        ensures
            final(self)@.wf(),
            (final(self)@, out.0@, out.1) == old(self)@.execute_spec(cmd, risk, now),
    {
        match cmd {
            Command::Submit(c) => self.submit(c, risk, now),
            Command::Modify(c) => self.modify(c, risk, now),
            Command::Cancel(c) => self.cancel(c, now),
            Command::CancelAll(c) => {
                let events = self.cancel_all(c, now);
                (events, Ok(()))
            },
        }
    }

    /// Feeds one market-data tick through the simulator and applies the
    /// resulting fills to the order table, exactly as
    /// [`EngineView::on_tick_spec`] says; returns the emitted `Filled`
    /// events in execution order.
    pub fn on_tick(&mut self, tick: MarketTick, now: u64) -> (events: Vec<OrderEvent>)
        requires
            old(self)@.wf(),
            now + old(self)@.sim.latency <= u64::MAX,
        ensures
            final(self)@.wf(),
            (final(self)@, events@) == old(self)@.on_tick_spec(tick, now),
    {
        let ghost pre = self@;
        let vts = now + self.sim.latency;
        let fills = self.sim.process_tick(tick);
        let mut events: Vec<OrderEvent> = Vec::new();
        let ghost target = EngineView::apply_fills_spec(pre.orders, fills@, vts);
        proof {
            assert(fills@.skip(0) =~= fills@);
            assert(events@ + target.1 =~= target.1);
        }
        let mut k: usize = 0;
        loop
            invariant
                self@.sim.wf(),
                self@.sim == pre.sim.process_tick_spec(tick).0,
                self@.next_venue_id == pre.next_venue_id,
                k <= fills@.len(),
                forall|i: int|
                    0 <= i < self@.orders.len() ==> (#[trigger] self@.orders[i]).wf()
                        && self@.orders[i].state != OrderState::Initialized,
                forall|i: int, j: int|
                    0 <= i < self@.orders.len() && 0 <= j < self@.orders.len() && i != j ==> (
                    #[trigger] self@.orders[i]).client_order_id
                        != (#[trigger] self@.orders[j]).client_order_id,
                target.0 == EngineView::apply_fills_spec(self@.orders, fills@.skip(k as int), vts).0,
                target.1 == events@ + EngineView::apply_fills_spec(
                    self@.orders,
                    fills@.skip(k as int),
                    vts,
                ).1,
            ensures
                self@.sim.wf(),
                self@.sim == pre.sim.process_tick_spec(tick).0,
                self@.next_venue_id == pre.next_venue_id,
                k == fills@.len(),
                forall|i: int|
                    0 <= i < self@.orders.len() ==> (#[trigger] self@.orders[i]).wf()
                        && self@.orders[i].state != OrderState::Initialized,
                forall|i: int, j: int|
                    0 <= i < self@.orders.len() && 0 <= j < self@.orders.len() && i != j ==> (
                    #[trigger] self@.orders[i]).client_order_id
                        != (#[trigger] self@.orders[j]).client_order_id,
                target.0 == EngineView::apply_fills_spec(self@.orders, fills@.skip(k as int), vts).0,
                target.1 == events@ + EngineView::apply_fills_spec(
                    self@.orders,
                    fills@.skip(k as int),
                    vts,
                ).1,
            decreases fills@.len() - k,
        {
            if k == fills.len() {
                break;
            }
            let ghost orders_pre = self@.orders;
            let ghost rest = fills@.skip(k as int);
            let f = fills[k];
            proof {
                assert(rest[0] == f);
                assert(rest.drop_first() =~= fills@.skip(k as int + 1));
            }
            let ghost one = EngineView::apply_one_fill_spec(orders_pre, f, vts);
            match find_order(&self.orders, f.client_order_id) {
                None => {
                    proof {
                        assert(one == (orders_pre, Seq::<OrderEvent>::empty()));
                    }
                },
                Some(i) => {
                    proof {
                        let ci = order_index(orders_pre, f.client_order_id);
                        assert(orders_pre[ci].client_order_id == f.client_order_id);
                        assert(ci == i as int);
                    }
                    let mut order = self.orders[i];
                    let r = order.apply(TransitionInput::Fill { qty: f.qty, price: f.price }, vts);
                    match r {
                        Err(_) => {},
                        Ok(opt) => {
                            match opt {
                                Some(ev) => events.push(ev),
                                None => {},
                            }
                            self.orders.set(i, order);
                            proof {
                                assert(self@.orders == orders_pre.update(i as int, order));
                            }
                        },
                    }
                    proof {
                        assert forall|ii: int| 0 <= ii < self@.orders.len() implies (
                        #[trigger] self@.orders[ii]).wf() && self@.orders[ii].state
                            != OrderState::Initialized by {
                            if ii != i as int {
                                assert(self@.orders[ii] == orders_pre[ii]);
                            }
                        }
                        assert forall|ii: int, jj: int|
                            0 <= ii < self@.orders.len() && 0 <= jj < self@.orders.len() && ii
                                != jj implies (#[trigger] self@.orders[ii]).client_order_id != (
                        #[trigger] self@.orders[jj]).client_order_id by {
                            assert(self@.orders[ii].client_order_id
                                == orders_pre[ii].client_order_id);
                            assert(self@.orders[jj].client_order_id
                                == orders_pre[jj].client_order_id);
                        }
                    }
                },
            }
            proof {
                assert(self@.orders == one.0);
                assert(EngineView::apply_fills_spec(orders_pre, rest, vts).0
                    == EngineView::apply_fills_spec(self@.orders, rest.drop_first(), vts).0);
                assert(EngineView::apply_fills_spec(orders_pre, rest, vts).1 == one.1
                    + EngineView::apply_fills_spec(self@.orders, rest.drop_first(), vts).1);
                assert(events@ =~= events@.subrange(0, events@.len() - one.1.len() as int)
                    + one.1);
                assert((events@.subrange(0, events@.len() - one.1.len() as int) + one.1)
                    + EngineView::apply_fills_spec(self@.orders, rest.drop_first(), vts).1
                    =~= events@.subrange(0, events@.len() - one.1.len() as int) + (one.1
                    + EngineView::apply_fills_spec(self@.orders, rest.drop_first(), vts).1));
            }
            k = k + 1;
        }
        proof {
            assert(fills@.skip(k as int) =~= Seq::<FillReport>::empty());
            assert(EngineView::apply_fills_spec(self@.orders, fills@.skip(k as int), vts).0
                =~= self@.orders);
            assert(events@ + EngineView::apply_fills_spec(
                self@.orders,
                fills@.skip(k as int),
                vts,
            ).1 =~= events@);
        }
        events
    }
}

} // verus!
