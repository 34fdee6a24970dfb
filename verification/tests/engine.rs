use exchange_core::engine::Engine;
use exchange_core::orderbook::book::OrderBook;
use exchange_core::protocol::{
    CancelOrder, CancelReason, Event, Order, OrderCommand, OrderType, RejectReason, Side,
};

fn engine() -> Engine {
    let mut e = Engine::new();
    assert!(e.add_symbol(&"S".to_string()));
    e
}

fn limit(id: u64, user: u64, side: Side, qty: u64, px: u64) -> Order {
    Order::new(id, user, "S".to_string(), side, OrderType::Limit, qty, Some(px))
}

fn market(id: u64, user: u64, side: Side, qty: u64) -> Order {
    Order::new(id, user, "S".to_string(), side, OrderType::Market, qty, None)
}

fn assert_reject(events: &[Event], id: u64, user: u64, reason: RejectReason, message: &str) {
    assert_eq!(events.len(), 1);
    match &events[0] {
        Event::OrderReject(r) => {
            assert_eq!(r.order_id, id);
            assert_eq!(r.user_id, user);
            assert_eq!(r.reason, reason);
            assert_eq!(r.message, message);
        }
        other => panic!("expected a reject, got {:?}", other),
    }
}

#[test]
fn default_engine_has_no_symbols() {
    let mut e = Engine::default();
    assert_eq!(e.symbol_count(), 0);
    assert_reject(
        &e.handle_place_order_at(limit(1, 1, Side::Buy, 1, 1), 1),
        1,
        1,
        RejectReason::SymbolNotFound,
        "Symbol not found",
    );
}

#[test]
fn new_engine_has_no_symbols() {
    let mut e = Engine::new();
    assert_eq!(e.symbol_count(), 0);
    assert!(e.book(&"S".to_string()).is_none());
    assert!(e.add_symbol(&"S".to_string()));
    assert!(!e.add_symbol(&"S".to_string()));
    assert!(e.add_symbol(&"T".to_string()));
    assert_eq!(e.symbol_count(), 2);
    assert_eq!(e.book(&"T".to_string()).unwrap().get_symbol(), "T");
}

#[test]
fn scenario_resting_buy_then_full_fill() {
    let mut e = engine();
    let events = e.handle_place_order_at(limit(1, 1, Side::Buy, 10, 100), 5);
    assert_eq!(events.len(), 2);
    match &events[0] {
        Event::OrderAck(a) => {
            assert_eq!(a.order_id, 1);
            assert_eq!(a.user_id, 1);
            assert_eq!(a.symbol, "S");
        }
        other => panic!("expected an ack, got {:?}", other),
    }
    match &events[1] {
        Event::BookUpdate(u) => {
            assert_eq!(u.bids.len(), 1);
            assert_eq!(u.bids[0].price, 100);
            assert_eq!(u.bids[0].quantity, 10);
            assert!(u.asks.is_empty());
        }
        other => panic!("expected a book update, got {:?}", other),
    }
    {
        let book = e.book(&"S".to_string()).unwrap();
        assert_eq!(book.best_bid(), Some(100));
        assert_eq!(book.best_ask(), None);
        assert_eq!(book.level_orders(Side::Buy, 100), vec![1]);
    }

    let events = e.handle_place_order_at(limit(2, 2, Side::Sell, 10, 90), 6);
    assert_eq!(events.len(), 5);
    assert!(matches!(&events[0], Event::OrderAck(a) if a.order_id == 2));
    match &events[1] {
        Event::Trade(t) => {
            assert_eq!(t.trade_id, 0);
            assert_eq!(t.maker_order_id, 1);
            assert_eq!(t.taker_order_id, 2);
            assert_eq!(t.price, 100);
            assert_eq!(t.quantity, 10);
            assert_eq!(t.timestamp, 6);
        }
        other => panic!("expected a trade, got {:?}", other),
    }
    assert!(matches!(&events[2], Event::Fill(f) if f.order_id == 1 && f.remaining_quantity == 0));
    assert!(matches!(&events[3], Event::Fill(f) if f.order_id == 2 && f.remaining_quantity == 0));
    assert!(matches!(&events[4], Event::BookUpdate(u) if u.bids.is_empty() && u.last_price == Some(100)));
    let book = e.book(&"S".to_string()).unwrap();
    assert_eq!(book.len(), 0);
    assert_eq!(book.best_bid(), None);
}

#[test]
fn place_rejections_change_nothing() {
    let mut e = engine();
    e.handle_place_order_at(limit(1, 1, Side::Buy, 10, 100), 5);
    let unknown = Order::new(9, 3, "X".to_string(), Side::Buy, OrderType::Limit, 1, Some(1));
    assert_reject(
        &e.handle_place_order_at(unknown, 1),
        9,
        3,
        RejectReason::SymbolNotFound,
        "Symbol not found",
    );
    let unknown = Order::new(9, 3, "X".to_string(), Side::Buy, OrderType::Market, 1, None);
    assert_reject(
        &e.handle_place_order_at(unknown, 1),
        9,
        3,
        RejectReason::SymbolNotFound,
        "Symbol not found",
    );
    // what is wrong with the order itself is said before its symbol is looked up
    let unknown = Order::new(9, 3, "X".to_string(), Side::Buy, OrderType::Limit, 0, Some(1));
    assert_reject(
        &e.handle_place_order_at(unknown, 1),
        9,
        3,
        RejectReason::InvalidQuantity,
        "Quantity must be greater than 0",
    );
    let unknown = Order::new(9, 3, "X".to_string(), Side::Sell, OrderType::Market, 0, None);
    assert_reject(
        &e.handle_place_order_at(unknown, 1),
        9,
        3,
        RejectReason::InvalidQuantity,
        "Quantity must be greater than 0",
    );
    let unknown = Order::new(9, 3, "X".to_string(), Side::Buy, OrderType::Limit, 0, None);
    assert_reject(
        &e.handle_place_order_at(unknown, 1),
        9,
        3,
        RejectReason::InvalidQuantity,
        "Quantity must be greater than 0",
    );
    let unknown = Order::new(9, 3, "X".to_string(), Side::Buy, OrderType::Limit, 4, None);
    assert_reject(
        &e.handle_place_order_at(unknown, 1),
        9,
        3,
        RejectReason::InvalidPrice,
        "Price must be greater than 0",
    );
    let unknown = Order::new(9, 3, "X".to_string(), Side::Buy, OrderType::Limit, 4, Some(0));
    assert_reject(
        &e.handle_place_order_at(unknown, 1),
        9,
        3,
        RejectReason::InvalidPrice,
        "Price must be greater than 0",
    );
    // the quantity is looked at before anything else
    assert_reject(
        &e.handle_place_order_at(limit(1, 3, Side::Buy, 0, 0), 1),
        1,
        3,
        RejectReason::InvalidQuantity,
        "Quantity must be greater than 0",
    );
    assert_reject(
        &e.handle_place_order_at(limit(2, 3, Side::Buy, 0, 100), 1),
        2,
        3,
        RejectReason::InvalidQuantity,
        "Quantity must be greater than 0",
    );
    assert_reject(
        &e.handle_place_order_at(market(2, 3, Side::Buy, 0), 1),
        2,
        3,
        RejectReason::InvalidQuantity,
        "Quantity must be greater than 0",
    );
    assert_reject(
        &e.handle_place_order_at(limit(2, 3, Side::Buy, 5, 0), 1),
        2,
        3,
        RejectReason::InvalidPrice,
        "Price must be greater than 0",
    );
    let priceless = Order::new(2, 3, "S".to_string(), Side::Buy, OrderType::Limit, 5, None);
    assert_reject(
        &e.handle_place_order_at(priceless, 1),
        2,
        3,
        RejectReason::InvalidPrice,
        "Price must be greater than 0",
    );
    assert_reject(
        &e.handle_place_order_at(limit(1, 3, Side::Sell, 5, 100), 1),
        1,
        3,
        RejectReason::InvalidOrder,
        "Order id is already in the book",
    );
    let book = e.book(&"S".to_string()).unwrap();
    assert_eq!(book.len(), 1);
    assert_eq!(book.level_quantity(Side::Buy, 100), Some(10));
    assert_eq!(book.next_trade_id(), 0);
}

#[test]
fn market_order_ignores_a_price() {
    let mut e = engine();
    e.handle_place_order_at(limit(1, 1, Side::Sell, 10, 100), 5);
    let priced = Order::new(2, 2, "S".to_string(), Side::Buy, OrderType::Market, 4, Some(1));
    let events = e.handle_place_order_at(priced, 6);
    assert_eq!(events.len(), 5);
    assert!(matches!(&events[1], Event::Trade(t) if t.price == 100 && t.quantity == 4));
    assert!(matches!(&events[3], Event::Fill(f) if f.order_id == 2 && f.remaining_quantity == 0));
    let events = e.handle_place_order_at(market(3, 2, Side::Buy, 10), 7);
    assert_eq!(events.len(), 5);
    assert!(matches!(&events[3], Event::Fill(f) if f.order_id == 3 && f.remaining_quantity == 4));
    assert_eq!(e.book(&"S".to_string()).unwrap().len(), 0);
    let events = e.handle_place_order_at(market(4, 2, Side::Buy, 10), 8);
    assert_eq!(events.len(), 1);
    assert!(matches!(&events[0], Event::OrderAck(_)));
}

#[test]
fn cancel_scenarios() {
    let mut e = engine();
    e.handle_place_order_at(limit(1, 1, Side::Buy, 4, 50), 1);
    e.handle_place_order_at(limit(2, 2, Side::Buy, 6, 50), 2);
    e.handle_place_order_at(limit(3, 3, Side::Buy, 8, 49), 3);

    // someone else's order
    assert_reject(
        &e.handle_cancel_order(CancelOrder::new(2, 1, "S".to_string())),
        2,
        1,
        RejectReason::InvalidOrder,
        "Order not found",
    );
    // unknown symbol and unknown order
    assert_reject(
        &e.handle_cancel_order(CancelOrder::new(2, 2, "X".to_string())),
        2,
        2,
        RejectReason::InvalidOrder,
        "Order not found",
    );
    assert_reject(
        &e.handle_cancel_order(CancelOrder::new(7, 2, "S".to_string())),
        7,
        2,
        RejectReason::InvalidOrder,
        "Order not found",
    );
    assert_eq!(e.book(&"S".to_string()).unwrap().len(), 3);

    let events = e.handle_cancel_order(CancelOrder::new(2, 2, "S".to_string()));
    assert_eq!(events.len(), 2);
    match &events[0] {
        Event::OrderCancelled(c) => {
            assert_eq!(c.order_id, 2);
            assert_eq!(c.user_id, 2);
            assert_eq!(c.symbol, "S");
            assert_eq!(c.reason, CancelReason::UserRequested);
        }
        other => panic!("expected a cancellation, got {:?}", other),
    }
    assert!(matches!(&events[1], Event::BookUpdate(u) if u.bids[0].quantity == 4));
    {
        let book = e.book(&"S".to_string()).unwrap();
        assert_eq!(book.level_orders(Side::Buy, 50), vec![1]);
        assert_eq!(book.level_quantity(Side::Buy, 50), Some(4));
        assert_eq!(book.best_bid(), Some(50));
    }

    // cancelling again is refused and changes nothing
    assert_reject(
        &e.handle_cancel_order(CancelOrder::new(2, 2, "S".to_string())),
        2,
        2,
        RejectReason::InvalidOrder,
        "Order not found",
    );
    assert_eq!(e.book(&"S".to_string()).unwrap().len(), 2);

    // a cancel below the top emits no book update
    let events = e.handle_cancel_order(CancelOrder::new(3, 3, "S".to_string()));
    assert_eq!(events.len(), 1);

    // a filled order cannot be cancelled
    e.handle_place_order_at(limit(4, 4, Side::Sell, 4, 50), 4);
    assert_reject(
        &e.handle_cancel_order(CancelOrder::new(1, 1, "S".to_string())),
        1,
        1,
        RejectReason::InvalidOrder,
        "Order not found",
    );
}

#[test]
fn commands_are_dispatched() {
    let mut e = engine();
    let out = e.handle_command_at(OrderCommand::PlaceOrder(limit(1, 1, Side::Sell, 3, 20)), 1);
    assert_eq!(out.events.len(), 2);
    assert!(out.depth.is_none());
    let out = e.handle_command(OrderCommand::PlaceOrder(limit(2, 1, Side::Buy, 3, 10)));
    assert_eq!(out.events.len(), 2);
    let out = e.handle_command(OrderCommand::GetDepth { symbol: "S".to_string(), limit: 5 });
    assert!(out.events.is_empty());
    let depth = out.depth.unwrap();
    assert_eq!(depth.bids, vec![(10, 3)]);
    assert_eq!(depth.asks, vec![(20, 3)]);
    let out = e.handle_command(OrderCommand::GetDepth { symbol: "X".to_string(), limit: 5 });
    assert!(out.depth.is_none());
    let out = e.handle_command(OrderCommand::CancelOrder(CancelOrder::new(2, 1, "S".to_string())));
    assert_eq!(out.events.len(), 2);
    assert!(matches!(&out.events[0], Event::OrderCancelled(_)));
    assert_eq!(e.handle_get_depth(&"S".to_string(), 0).unwrap().asks.len(), 0);
}

#[test]
fn place_order_stamps_with_the_clock() {
    let mut e = engine();
    e.handle_place_order(limit(1, 1, Side::Sell, 3, 20));
    let events = e.handle_place_order(limit(2, 1, Side::Buy, 3, 20));
    match &events[1] {
        Event::Trade(t) => assert!(t.timestamp > 1_500_000_000_000),
        other => panic!("expected a trade, got {:?}", other),
    }
}

#[test]
fn books_are_independent() {
    let mut e = engine();
    e.add_symbol(&"T".to_string());
    e.handle_place_order_at(limit(1, 1, Side::Sell, 3, 20), 1);
    let other = Order::new(1, 1, "T".to_string(), Side::Buy, OrderType::Limit, 3, Some(20));
    let events = e.handle_place_order_at(other, 2);
    assert_eq!(events.len(), 2);
    assert_eq!(e.book(&"S".to_string()).unwrap().best_ask(), Some(20));
    assert_eq!(e.book(&"T".to_string()).unwrap().best_bid(), Some(20));
    assert_eq!(e.book(&"T".to_string()).unwrap().next_trade_id(), 0);
}

#[test]
fn the_book_never_rests_crossed() {
    let mut e = engine();
    let mut id = 0;
    let mut seed: u64 = 12345;
    for _ in 0..400 {
        seed = seed.wrapping_mul(6364136223846793005).wrapping_add(1442695040888963407);
        let side = if (seed >> 33) % 2 == 0 { Side::Buy } else { Side::Sell };
        let px = 90 + (seed >> 40) % 20;
        let qty = 1 + (seed >> 50) % 9;
        id += 1;
        let mut trade_ids = Vec::new();
        for ev in e.handle_place_order_at(limit(id, 1, side, qty, px), id as i64) {
            if let Event::Trade(t) = ev {
                trade_ids.push(t.trade_id);
            }
        }
        for w in trade_ids.windows(2) {
            assert_eq!(w[1], w[0] + 1);
        }
        let book = e.book(&"S".to_string()).unwrap();
        if let (Some(b), Some(a)) = (book.best_bid(), book.best_ask()) {
            assert!(b < a);
        }
    }
}

#[test]
fn exhausted_trade_ids_are_an_internal_error() {
    let mut e = Engine::new();
    assert!(e.add_book(OrderBook::starting_at("S", u64::MAX)));
    assert!(!e.add_book(OrderBook::new("S")));
    assert_eq!(e.symbol_count(), 1);
    let events = e.handle_place_order_at(limit(1, 1, Side::Sell, 3, 20), 1);
    assert_eq!(events.len(), 2);
    assert_reject(
        &e.handle_place_order_at(limit(2, 2, Side::Buy, 3, 20), 2),
        2,
        2,
        RejectReason::InternalError,
        "Trade ids are exhausted",
    );
    assert_eq!(e.book(&"S".to_string()).unwrap().len(), 1);
}
