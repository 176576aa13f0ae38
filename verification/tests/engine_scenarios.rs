use execution_core::backtest::{BacktestEngine, BacktestInput};
use execution_core::events::{EventKind, RejectReason};
use execution_core::identifiers::{
    ClientId, ClientOrderId, CommandId, InstrumentId, StrategyId, TraderId,
};
use execution_core::matching::MarketTick;
use execution_core::messages::{
    CancelAllOrders, CancelOrder, Command, ModifyOrder, RiskDecision, SubmitOrder,
};
use execution_core::order::{OrderSide, OrderState, OrderType};

fn submit_cmd(cid: u64, side: OrderSide, quantity: u64, price: u64, at: u64) -> SubmitOrder {
    SubmitOrder::new(
        TraderId(1),
        ClientId(1),
        StrategyId(1),
        InstrumentId(1),
        ClientOrderId(cid),
        None,
        None,
        None,
        side,
        OrderType::Limit,
        quantity,
        price,
        CommandId(cid),
        at,
    )
}

fn order_state(bt: &BacktestEngine, cid: u64) -> OrderState {
    for o in bt.engine.orders.iter() {
        if o.client_order_id == ClientOrderId(cid) {
            return o.state;
        }
    }
    panic!("order not found");
}

#[test]
fn scenario_partial_then_full_fill() {
    // submit 100 units at 10.00 (price in hundredths), then a tick for 60
    // units, then one for 40.
    let mut bt = BacktestEngine::new(false, 0, 0);
    let (evs, r) = bt.step(BacktestInput::Command {
        at: 10,
        cmd: Command::Submit(submit_cmd(7, OrderSide::Buy, 100, 1000, 10)),
        risk: RiskDecision::Accept,
    });
    assert!(r.is_ok());
    assert_eq!(evs.len(), 2);
    assert_eq!(evs[0].kind, EventKind::Submitted);
    assert!(matches!(evs[1].kind, EventKind::Accepted { .. }));
    assert_eq!(order_state(&bt, 7), OrderState::Accepted);

    let (evs, _) = bt.step(BacktestInput::Tick {
        at: 20,
        tick: MarketTick { side: OrderSide::Sell, price: 1000, qty: 60, ts: 20 },
    });
    assert_eq!(evs.len(), 1);
    assert_eq!(evs[0].kind, EventKind::Filled { qty: 60, price: 1000 });
    assert_eq!(order_state(&bt, 7), OrderState::PartiallyFilled);

    let (evs, _) = bt.step(BacktestInput::Tick {
        at: 30,
        tick: MarketTick { side: OrderSide::Sell, price: 1000, qty: 40, ts: 30 },
    });
    assert_eq!(evs.len(), 1);
    assert_eq!(evs[0].kind, EventKind::Filled { qty: 40, price: 1000 });
    assert_eq!(order_state(&bt, 7), OrderState::Filled);

    // no further events accepted for that order
    let (evs, r) = bt.step(BacktestInput::Command {
        at: 40,
        cmd: Command::Cancel(CancelOrder {
            trader_id: TraderId(1),
            strategy_id: StrategyId(1),
            instrument_id: InstrumentId(1),
            client_order_id: ClientOrderId(7),
            command_id: CommandId(99),
            ts_init: 40,
        }),
        risk: RiskDecision::Accept,
    });
    assert_eq!(r, Err(RejectReason::InvalidStateTransition));
    assert!(evs.is_empty());
}

#[test]
fn scenario_cancel_before_any_tick() {
    let mut bt = BacktestEngine::new(false, 0, 0);
    bt.step(BacktestInput::Command {
        at: 10,
        cmd: Command::Submit(submit_cmd(1, OrderSide::Buy, 100, 1000, 10)),
        risk: RiskDecision::Accept,
    });
    let (evs, r) = bt.step(BacktestInput::Command {
        at: 11,
        cmd: Command::Cancel(CancelOrder {
            trader_id: TraderId(1),
            strategy_id: StrategyId(1),
            instrument_id: InstrumentId(1),
            client_order_id: ClientOrderId(1),
            command_id: CommandId(2),
            ts_init: 11,
        }),
        risk: RiskDecision::Accept,
    });
    assert!(r.is_ok());
    assert_eq!(evs.len(), 1);
    assert_eq!(evs[0].kind, EventKind::Canceled);
    assert_eq!(order_state(&bt, 1), OrderState::Canceled);
    // zero fills: the book is empty, a later tick matches nothing
    let (evs, _) = bt.step(BacktestInput::Tick {
        at: 20,
        tick: MarketTick { side: OrderSide::Sell, price: 1000, qty: 100, ts: 20 },
    });
    assert!(evs.is_empty());
}

#[test]
fn scenario_risk_denied_never_reaches_the_venue() {
    let mut bt = BacktestEngine::new(false, 0, 0);
    let (evs, r) = bt.step(BacktestInput::Command {
        at: 10,
        cmd: Command::Submit(submit_cmd(1, OrderSide::Buy, 100, 1000, 10)),
        risk: RiskDecision::Deny,
    });
    assert_eq!(r, Err(RejectReason::RiskDenied));
    assert_eq!(evs.len(), 1);
    assert_eq!(evs[0].kind, EventKind::Rejected { reason: RejectReason::RiskDenied });
    assert_eq!(order_state(&bt, 1), OrderState::Denied);
    // no venue/simulator contact: nothing rests in the books
    assert!(bt.engine.sim.bids.is_empty());
    assert!(bt.engine.sim.asks.is_empty());
}

#[test]
fn backtest_replay_is_deterministic() {
    let inputs = vec![
        BacktestInput::Command {
            at: 10,
            cmd: Command::Submit(submit_cmd(1, OrderSide::Buy, 100, 1000, 10)),
            risk: RiskDecision::Accept,
        },
        BacktestInput::Command {
            at: 12,
            cmd: Command::Submit(submit_cmd(2, OrderSide::Buy, 50, 990, 12)),
            risk: RiskDecision::Accept,
        },
        BacktestInput::Tick {
            at: 20,
            tick: MarketTick { side: OrderSide::Sell, price: 990, qty: 120, ts: 20 },
        },
        BacktestInput::Command {
            at: 30,
            cmd: Command::CancelAll(CancelAllOrders {
                trader_id: TraderId(1),
                strategy_id: StrategyId(1),
                instrument_id: InstrumentId(1),
                command_id: CommandId(9),
                ts_init: 30,
            }),
            risk: RiskDecision::Accept,
        },
    ];
    let mut bt1 = BacktestEngine::new(false, 5, 0);
    let mut bt2 = BacktestEngine::new(false, 5, 0);
    let log1 = bt1.run(&inputs);
    let log2 = bt2.run(&inputs);
    assert_eq!(log1, log2);
    assert!(!log1.is_empty());
    // same timestamps, same order, byte for byte
    for (a, b) in log1.iter().zip(log2.iter()) {
        assert_eq!(a.ts_event, b.ts_event);
        assert_eq!(a.seq, b.seq);
        assert_eq!(a.kind, b.kind);
    }
}

#[test]
fn engine_cancel_twice_does_not_duplicate_canceled_event() {
    let mut bt = BacktestEngine::new(false, 0, 0);
    bt.step(BacktestInput::Command {
        at: 10,
        cmd: Command::Submit(submit_cmd(1, OrderSide::Buy, 100, 1000, 10)),
        risk: RiskDecision::Accept,
    });
    let cancel = CancelOrder {
        trader_id: TraderId(1),
        strategy_id: StrategyId(1),
        instrument_id: InstrumentId(1),
        client_order_id: ClientOrderId(1),
        command_id: CommandId(2),
        ts_init: 11,
    };
    let (evs1, r1) = bt.step(BacktestInput::Command {
        at: 11,
        cmd: Command::Cancel(cancel),
        risk: RiskDecision::Accept,
    });
    assert!(r1.is_ok());
    assert_eq!(evs1.iter().filter(|e| e.kind == EventKind::Canceled).count(), 1);
    let (evs2, r2) = bt.step(BacktestInput::Command {
        at: 12,
        cmd: Command::Cancel(cancel),
        risk: RiskDecision::Accept,
    });
    // the order is already canceled: explicit rejection, no second event
    assert_eq!(r2, Err(RejectReason::InvalidStateTransition));
    assert!(evs2.is_empty());
    assert_eq!(order_state(&bt, 1), OrderState::Canceled);
}

#[test]
fn unknown_order_is_not_found() {
    let mut bt = BacktestEngine::new(false, 0, 0);
    let (evs, r) = bt.step(BacktestInput::Command {
        at: 10,
        cmd: Command::Cancel(CancelOrder {
            trader_id: TraderId(1),
            strategy_id: StrategyId(1),
            instrument_id: InstrumentId(1),
            client_order_id: ClientOrderId(42),
            command_id: CommandId(1),
            ts_init: 10,
        }),
        risk: RiskDecision::Accept,
    });
    assert_eq!(r, Err(RejectReason::NotFound));
    assert!(evs.is_empty());
}

#[test]
fn zero_quantity_submit_is_rejected_by_the_venue() {
    let mut bt = BacktestEngine::new(false, 0, 0);
    let (evs, r) = bt.step(BacktestInput::Command {
        at: 10,
        cmd: Command::Submit(submit_cmd(1, OrderSide::Buy, 0, 1000, 10)),
        risk: RiskDecision::Accept,
    });
    assert_eq!(r, Err(RejectReason::VenueRejected));
    assert_eq!(evs.len(), 2);
    assert_eq!(evs[0].kind, EventKind::Submitted);
    assert_eq!(evs[1].kind, EventKind::Rejected { reason: RejectReason::VenueRejected });
    assert_eq!(order_state(&bt, 1), OrderState::Rejected);
}

#[test]
fn self_match_is_prevented_by_default() {
    let mut bt = BacktestEngine::new(false, 0, 0);
    let (_, r) = bt.step(BacktestInput::Command {
        at: 10,
        cmd: Command::Submit(submit_cmd(1, OrderSide::Sell, 10, 1000, 10)),
        risk: RiskDecision::Accept,
    });
    assert!(r.is_ok());
    // a buy from the same strategy crossing its own resting sell
    let (evs, r) = bt.step(BacktestInput::Command {
        at: 11,
        cmd: Command::Submit(submit_cmd(2, OrderSide::Buy, 10, 1000, 11)),
        risk: RiskDecision::Accept,
    });
    assert_eq!(r, Err(RejectReason::SelfMatchPrevention));
    assert_eq!(evs.len(), 2);
    assert_eq!(
        evs[1].kind,
        EventKind::Rejected { reason: RejectReason::SelfMatchPrevention }
    );
    assert_eq!(order_state(&bt, 2), OrderState::Rejected);
    // the earlier order still rests
    assert_eq!(bt.engine.sim.asks.len(), 1);
}

#[test]
fn self_match_allowed_when_configured() {
    let mut bt = BacktestEngine::new(true, 0, 0);
    bt.step(BacktestInput::Command {
        at: 10,
        cmd: Command::Submit(submit_cmd(1, OrderSide::Sell, 10, 1000, 10)),
        risk: RiskDecision::Accept,
    });
    let (_, r) = bt.step(BacktestInput::Command {
        at: 11,
        cmd: Command::Submit(submit_cmd(2, OrderSide::Buy, 10, 1000, 11)),
        risk: RiskDecision::Accept,
    });
    assert!(r.is_ok());
}

#[test]
fn modify_loses_time_priority_and_updates_book() {
    let mut bt = BacktestEngine::new(false, 0, 0);
    bt.step(BacktestInput::Command {
        at: 10,
        cmd: Command::Submit(submit_cmd(1, OrderSide::Buy, 100, 1000, 10)),
        risk: RiskDecision::Accept,
    });
    let (evs, r) = bt.step(BacktestInput::Command {
        at: 11,
        cmd: Command::Modify(ModifyOrder {
            trader_id: TraderId(1),
            strategy_id: StrategyId(1),
            instrument_id: InstrumentId(1),
            client_order_id: ClientOrderId(1),
            quantity: 80,
            price: 1010,
            command_id: CommandId(2),
            ts_init: 11,
        }),
        risk: RiskDecision::Accept,
    });
    assert!(r.is_ok());
    assert_eq!(evs.len(), 1);
    assert_eq!(evs[0].kind, EventKind::Modified { quantity: 80, price: 1010 });
    assert_eq!(bt.engine.sim.bids.len(), 1);
    assert_eq!(bt.engine.sim.bids[0].price, 1010);
    assert_eq!(bt.engine.sim.bids[0].remaining, 80);
}

#[test]
fn modify_risk_denied_changes_nothing() {
    let mut bt = BacktestEngine::new(false, 0, 0);
    bt.step(BacktestInput::Command {
        at: 10,
        cmd: Command::Submit(submit_cmd(1, OrderSide::Buy, 100, 1000, 10)),
        risk: RiskDecision::Accept,
    });
    let (evs, r) = bt.step(BacktestInput::Command {
        at: 11,
        cmd: Command::Modify(ModifyOrder {
            trader_id: TraderId(1),
            strategy_id: StrategyId(1),
            instrument_id: InstrumentId(1),
            client_order_id: ClientOrderId(1),
            quantity: 80,
            price: 1010,
            command_id: CommandId(2),
            ts_init: 11,
        }),
        risk: RiskDecision::Deny,
    });
    assert_eq!(r, Err(RejectReason::RiskDenied));
    assert!(evs.is_empty());
    assert_eq!(order_state(&bt, 1), OrderState::Accepted);
    assert_eq!(bt.engine.sim.bids[0].price, 1000);
}

#[test]
fn cancel_all_cancels_only_matching_open_orders() {
    let mut bt = BacktestEngine::new(false, 0, 0);
    bt.step(BacktestInput::Command {
        at: 10,
        cmd: Command::Submit(submit_cmd(1, OrderSide::Buy, 100, 1000, 10)),
        risk: RiskDecision::Accept,
    });
    bt.step(BacktestInput::Command {
        at: 11,
        cmd: Command::Submit(submit_cmd(2, OrderSide::Buy, 50, 990, 11)),
        risk: RiskDecision::Accept,
    });
    // an order of another strategy is untouched
    let mut other = submit_cmd(3, OrderSide::Buy, 10, 980, 12);
    other.strategy_id = StrategyId(2);
    bt.step(BacktestInput::Command { at: 12, cmd: Command::Submit(other), risk: RiskDecision::Accept });
    let (evs, r) = bt.step(BacktestInput::Command {
        at: 20,
        cmd: Command::CancelAll(CancelAllOrders {
            trader_id: TraderId(1),
            strategy_id: StrategyId(1),
            instrument_id: InstrumentId(1),
            command_id: CommandId(9),
            ts_init: 20,
        }),
        risk: RiskDecision::Accept,
    });
    assert!(r.is_ok());
    assert_eq!(evs.len(), 2);
    assert!(evs.iter().all(|e| e.kind == EventKind::Canceled));
    assert_eq!(order_state(&bt, 1), OrderState::Canceled);
    assert_eq!(order_state(&bt, 2), OrderState::Canceled);
    assert_eq!(order_state(&bt, 3), OrderState::Accepted);
    assert_eq!(bt.engine.sim.bids.len(), 1);
}

#[test]
fn latency_offsets_venue_side_timestamps() {
    let mut bt = BacktestEngine::new(false, 7, 0);
    let (evs, _) = bt.step(BacktestInput::Command {
        at: 100,
        cmd: Command::Submit(submit_cmd(1, OrderSide::Buy, 10, 1000, 100)),
        risk: RiskDecision::Accept,
    });
    // local submission at the virtual time, venue acknowledgment offset
    assert_eq!(evs[0].ts_event, 100);
    assert_eq!(evs[1].ts_event, 107);
    let (evs, _) = bt.step(BacktestInput::Tick {
        at: 200,
        tick: MarketTick { side: OrderSide::Sell, price: 1000, qty: 10, ts: 200 },
    });
    assert_eq!(evs[0].ts_event, 207);
}

#[test]
fn events_are_published_per_order_topic_in_order() {
    let mut bt = BacktestEngine::new(false, 0, 0);
    bt.step(BacktestInput::Command {
        at: 10,
        cmd: Command::Submit(submit_cmd(1, OrderSide::Buy, 100, 1000, 10)),
        risk: RiskDecision::Accept,
    });
    bt.step(BacktestInput::Tick {
        at: 20,
        tick: MarketTick { side: OrderSide::Sell, price: 1000, qty: 60, ts: 20 },
    });
    bt.step(BacktestInput::Tick {
        at: 30,
        tick: MarketTick { side: OrderSide::Sell, price: 1000, qty: 40, ts: 30 },
    });
    let msgs = bt.bus.messages_for(1);
    assert_eq!(msgs.len(), 4);
    let seqs: Vec<u64> = msgs.iter().map(|m| m.seq).collect();
    assert_eq!(seqs, vec![0, 1, 2, 3]);
    assert_eq!(msgs[2].kind, EventKind::Filled { qty: 60, price: 1000 });
    assert_eq!(msgs[3].kind, EventKind::Filled { qty: 40, price: 1000 });
}
