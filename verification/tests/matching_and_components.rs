use execution_core::bus::MessageBus;
use execution_core::clock::VirtualClock;
use execution_core::events::{EventKind, OrderEvent, RejectReason};
use execution_core::identifiers::{
    ClientId, ClientOrderId, CommandId, InstrumentId, PositionId, StrategyId, TraderId,
    VenueOrderId,
};
use execution_core::matching::{MarketTick, MatchingEngine};
use execution_core::messages::SubmitOrder;
use execution_core::order::{OrderSide, OrderType};
use execution_core::position::Position;

#[test]
fn better_price_matches_first() {
    let mut sim = MatchingEngine::new(true, 0);
    sim.add_order(ClientOrderId(1), StrategyId(1), OrderSide::Buy, OrderType::Limit, 990, 10)
        .unwrap();
    sim.add_order(ClientOrderId(2), StrategyId(1), OrderSide::Buy, OrderType::Limit, 1000, 10)
        .unwrap();
    // the 1000 bid is the better price and must fill first
    let fills = sim.process_tick(MarketTick { side: OrderSide::Sell, price: 990, qty: 15, ts: 1 });
    assert_eq!(fills.len(), 2);
    assert_eq!((fills[0].client_order_id, fills[0].qty), (ClientOrderId(2), 10));
    assert_eq!((fills[1].client_order_id, fills[1].qty), (ClientOrderId(1), 5));
    // the partially filled bid keeps its remainder resting
    assert_eq!(sim.bids.len(), 1);
    assert_eq!(sim.bids[0].remaining, 5);
}

#[test]
fn equal_price_matches_oldest_first() {
    let mut sim = MatchingEngine::new(true, 0);
    sim.add_order(ClientOrderId(1), StrategyId(1), OrderSide::Buy, OrderType::Limit, 1000, 10)
        .unwrap();
    sim.add_order(ClientOrderId(2), StrategyId(1), OrderSide::Buy, OrderType::Limit, 1000, 10)
        .unwrap();
    let fills = sim.process_tick(MarketTick { side: OrderSide::Sell, price: 1000, qty: 12, ts: 1 });
    assert_eq!(fills.len(), 2);
    // oldest (lower submission sequence) first
    assert_eq!((fills[0].client_order_id, fills[0].qty), (ClientOrderId(1), 10));
    assert_eq!((fills[1].client_order_id, fills[1].qty), (ClientOrderId(2), 2));
}

#[test]
fn non_crossing_orders_stay_resting() {
    let mut sim = MatchingEngine::new(true, 0);
    sim.add_order(ClientOrderId(1), StrategyId(1), OrderSide::Buy, OrderType::Limit, 980, 10)
        .unwrap();
    let fills = sim.process_tick(MarketTick { side: OrderSide::Sell, price: 990, qty: 10, ts: 1 });
    assert!(fills.is_empty());
    assert_eq!(sim.bids.len(), 1);
    assert_eq!(sim.bids[0].remaining, 10);
}

#[test]
fn market_order_ranks_before_any_limit() {
    let mut sim = MatchingEngine::new(true, 0);
    sim.add_order(ClientOrderId(1), StrategyId(1), OrderSide::Buy, OrderType::Limit, 1000, 10)
        .unwrap();
    sim.add_order(ClientOrderId(2), StrategyId(1), OrderSide::Buy, OrderType::Market, 0, 10)
        .unwrap();
    let fills = sim.process_tick(MarketTick { side: OrderSide::Sell, price: 1000, qty: 10, ts: 1 });
    assert_eq!(fills.len(), 1);
    assert_eq!(fills[0].client_order_id, ClientOrderId(2));
}

#[test]
fn tick_never_fills_more_than_it_offers() {
    let mut sim = MatchingEngine::new(true, 0);
    sim.add_order(ClientOrderId(1), StrategyId(1), OrderSide::Sell, OrderType::Limit, 500, 40)
        .unwrap();
    sim.add_order(ClientOrderId(2), StrategyId(2), OrderSide::Sell, OrderType::Limit, 510, 40)
        .unwrap();
    let fills = sim.process_tick(MarketTick { side: OrderSide::Buy, price: 520, qty: 50, ts: 1 });
    let total: u64 = fills.iter().map(|f| f.qty).sum();
    assert_eq!(total, 50);
}

#[test]
fn duplicate_resting_id_is_refused() {
    let mut sim = MatchingEngine::new(true, 0);
    sim.add_order(ClientOrderId(1), StrategyId(1), OrderSide::Buy, OrderType::Limit, 1000, 10)
        .unwrap();
    let r = sim.add_order(ClientOrderId(1), StrategyId(1), OrderSide::Buy, OrderType::Limit, 990, 5);
    assert_eq!(r, Err(RejectReason::VenueRejected));
}

#[test]
fn remove_order_is_idempotent() {
    let mut sim = MatchingEngine::new(true, 0);
    sim.add_order(ClientOrderId(1), StrategyId(1), OrderSide::Buy, OrderType::Limit, 1000, 10)
        .unwrap();
    assert!(sim.remove_order(ClientOrderId(1)));
    assert!(!sim.remove_order(ClientOrderId(1)));
    assert!(sim.bids.is_empty());
}

fn sample_event(cid: u64, seq: u64) -> OrderEvent {
    OrderEvent {
        trader_id: TraderId(1),
        strategy_id: StrategyId(1),
        instrument_id: InstrumentId(1),
        client_order_id: ClientOrderId(cid),
        kind: EventKind::Submitted,
        seq,
        ts_event: seq,
    }
}

#[test]
fn bus_preserves_per_topic_publish_order() {
    let mut bus = MessageBus::new();
    bus.publish(1, sample_event(1, 0));
    bus.publish(2, sample_event(2, 0));
    bus.publish(1, sample_event(1, 1));
    bus.publish(1, sample_event(1, 2));
    let msgs = bus.messages_for(1);
    assert_eq!(msgs.len(), 3);
    assert_eq!(msgs.iter().map(|m| m.seq).collect::<Vec<u64>>(), vec![0, 1, 2]);
    assert_eq!(bus.messages_for(2).len(), 1);
    assert!(bus.messages_for(3).is_empty());
}

#[test]
fn bus_unsubscribe_is_idempotent() {
    let mut bus = MessageBus::new();
    let h1 = bus.subscribe(1).unwrap();
    let h2 = bus.subscribe(1).unwrap();
    assert_ne!(h1, h2);
    bus.unsubscribe(1, h1);
    bus.unsubscribe(1, h1);
    bus.unsubscribe(7, h1);
    // the remaining subscription is untouched and the topic still works
    bus.publish(1, sample_event(1, 0));
    assert_eq!(bus.messages_for(1).len(), 1);
}

#[test]
fn virtual_clock_advances_monotonically() {
    let mut clock = VirtualClock::new(5);
    assert_eq!(clock.now(), 5);
    clock.advance_to(9);
    clock.advance_to(9);
    assert_eq!(clock.now(), 9);
}

#[test]
fn position_aggregates_fills_only() {
    let mut p = Position::new(InstrumentId(1), StrategyId(1));
    p.apply_fill(OrderSide::Buy, 100, 1000);
    p.apply_fill(OrderSide::Sell, 40, 1010);
    assert_eq!(p.bought_qty, 100);
    assert_eq!(p.sold_qty, 40);
    assert_eq!(p.buy_cost, 100 * 1000);
    assert_eq!(p.sell_cost, 40 * 1010);
    // a non-fill event kind changes nothing
    p.apply_filled_event(EventKind::Filled { qty: 10, price: 1000 }, OrderSide::Buy);
    assert_eq!(p.bought_qty, 110);
}

#[test]
fn submit_order_new_carries_every_field() {
    let c = SubmitOrder::new(
        TraderId(1),
        ClientId(2),
        StrategyId(3),
        InstrumentId(4),
        ClientOrderId(5),
        Some(VenueOrderId(6)),
        None,
        Some(PositionId(8)),
        OrderSide::Sell,
        OrderType::Market,
        100,
        1000,
        CommandId(9),
        11,
    );
    assert_eq!(c.trader_id, TraderId(1));
    assert_eq!(c.client_id, ClientId(2));
    assert_eq!(c.strategy_id, StrategyId(3));
    assert_eq!(c.instrument_id, InstrumentId(4));
    assert_eq!(c.client_order_id, ClientOrderId(5));
    assert_eq!(c.venue_order_id, Some(VenueOrderId(6)));
    assert_eq!(c.exec_algorithm_id, None);
    assert_eq!(c.position_id, Some(PositionId(8)));
    assert_eq!(c.side, OrderSide::Sell);
    assert_eq!(c.order_type, OrderType::Market);
    assert_eq!((c.quantity, c.price), (100, 1000));
    assert_eq!(c.command_id, CommandId(9));
    assert_eq!(c.ts_init, 11);
}
