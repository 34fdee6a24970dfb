use exchange_core::orderbook::book::{OrderBook, OrderEntry};
use exchange_core::orderbook::error::OrderBookError;
use exchange_core::orderbook::price_levels::PriceLevel;
use exchange_core::orderbook::types::CACHE_LIMIT;
use exchange_core::protocol::{OrderStatus, Side};
use std::collections::HashMap;

fn entry(id: u64, user: u64, side: Side, price: u64, qty: u64, ts: i64) -> OrderEntry {
    OrderEntry::with_timestamp(id, user, side, price, qty, ts)
}

#[test]
fn price_level_keeps_insertion_order_and_total() {
    let mut level = PriceLevel::new(100);
    assert!(level.is_empty());
    assert_eq!(level.front_order(), None);
    level.add_order(7, 10);
    level.add_order(3, 5);
    level.add_order(9, 1);
    assert_eq!(level.price(), 100);
    assert_eq!(level.order_ids(), vec![7, 3, 9]);
    assert_eq!(level.get_total_quantity(), 16);
    assert_eq!(level.front_order(), Some(7));
    level.remove_order(3, 5);
    assert_eq!(level.order_ids(), vec![7, 9]);
    assert_eq!(level.get_total_quantity(), 11);
    level.remove_order(42, 1);
    assert_eq!(level.order_ids(), vec![7, 9]);
    assert_eq!(level.get_total_quantity(), 11);
    level.reduce(4);
    assert_eq!(level.get_total_quantity(), 7);
    assert_eq!(level.len(), 2);
}

#[test]
fn price_level_total_exceeds_sixty_four_bits() {
    let mut level = PriceLevel::new(1);
    level.add_order(1, u64::MAX);
    level.add_order(2, u64::MAX);
    assert_eq!(level.get_total_quantity(), 2 * (u64::MAX as u128));
}

#[test]
fn order_entry_validation() {
    let ok = entry(1, 1, Side::Buy, 100, 10, 0);
    assert_eq!(ok.validate_order(), Ok(()));
    assert_eq!(ok.remaining_quantity, 10);
    let no_qty = entry(1, 1, Side::Buy, 100, 0, 0);
    assert_eq!(
        no_qty.validate_order(),
        Err(OrderBookError::InvalidOrder("Quantity must be greater than 0".to_string()))
    );
    let no_price = entry(1, 1, Side::Buy, 0, 10, 0);
    assert_eq!(
        no_price.validate_order(),
        Err(OrderBookError::InvalidOrder("Price must be greater than 0".to_string()))
    );
    let neither = entry(1, 1, Side::Buy, 0, 0, 0);
    assert_eq!(
        neither.validate_order(),
        Err(OrderBookError::InvalidOrder("Quantity must be greater than 0".to_string()))
    );
}

#[test]
fn order_entry_fill() {
    let mut e = entry(1, 1, Side::Sell, 100, 10, 5);
    assert_eq!(e.fill(4), Ok(()));
    assert_eq!(e.remaining_quantity, 6);
    assert_eq!(
        e.fill(7),
        Err(OrderBookError::InvalidOrder(
            "Quantity must be less than or equal to the remaining quantity".to_string()
        ))
    );
    assert_eq!(e.remaining_quantity, 6);
    assert_eq!(e.fill(6), Ok(()));
    assert_eq!(e.remaining_quantity, 0);
    assert_eq!(e.quantity, 10);
}

#[test]
fn order_entry_new_stamps_the_time() {
    let e = OrderEntry::new(5, 6, Side::Buy, 7, 8);
    assert_eq!(e.order_id, 5);
    assert_eq!(e.user_id, 6);
    assert_eq!(e.side, Side::Buy);
    assert_eq!(e.price, 7);
    assert_eq!(e.quantity, 8);
    assert_eq!(e.remaining_quantity, 8);
    assert!(e.timestamp > 1_500_000_000_000);
}

#[test]
fn empty_book() {
    let mut book = OrderBook::new("S");
    assert_eq!(book.get_symbol(), "S");
    assert_eq!(book.best_bid(), None);
    assert_eq!(book.best_ask(), None);
    assert_eq!(book.len(), 0);
    assert_eq!(book.next_trade_id(), 0);
    assert_eq!(book.last_price(), None);
    assert_eq!(book.get_next_matchable_order(Side::Buy), None);
    assert_eq!(book.get_next_matchable_order(Side::Sell), None);
    let depth = book.get_depth(10);
    assert!(depth.bids.is_empty());
    assert!(depth.asks.is_empty());
}

#[test]
fn resting_limit_buy_on_empty_book() {
    let mut book = OrderBook::new("S");
    let r = book.match_limit_order(entry(1, 1, Side::Buy, 100, 10, 1)).unwrap();
    assert!(r.trades.is_empty());
    assert!(r.fills.is_empty());
    assert!(r.rested);
    assert_eq!(r.remaining_quantity, 10);
    assert_eq!(r.status, OrderStatus::Pending);
    assert_eq!(book.best_bid(), Some(100));
    assert_eq!(book.best_ask(), None);
    assert_eq!(book.level_orders(Side::Buy, 100), vec![1]);
    assert_eq!(book.level_quantity(Side::Buy, 100), Some(10));
    assert_eq!(book.level_quantity(Side::Sell, 100), None);
    let update = r.book_update.unwrap();
    assert_eq!(update.symbol, "S");
    assert_eq!(update.bids.len(), 1);
    assert_eq!(update.bids[0].price, 100);
    assert_eq!(update.bids[0].quantity, 10);
    assert!(update.asks.is_empty());
    assert_eq!(update.last_price, None);
}

#[test]
fn full_fill_via_marketable_sell() {
    let mut book = OrderBook::new("S");
    book.match_limit_order(entry(1, 1, Side::Buy, 100, 10, 1)).unwrap();
    let r = book.match_limit_order(entry(2, 2, Side::Sell, 90, 10, 2)).unwrap();
    assert_eq!(r.trades.len(), 1);
    let t = &r.trades[0];
    assert_eq!(t.trade_id, 0);
    assert_eq!(t.maker_order_id, 1);
    assert_eq!(t.maker_user_id, 1);
    assert_eq!(t.taker_order_id, 2);
    assert_eq!(t.taker_user_id, 2);
    assert_eq!(t.price, 100);
    assert_eq!(t.quantity, 10);
    assert_eq!(t.symbol, "S");
    assert_eq!(t.timestamp, 2);
    assert_eq!(r.fills.len(), 2);
    assert_eq!(r.fills[0].order_id, 1);
    assert_eq!(r.fills[0].side, Side::Buy);
    assert_eq!(r.fills[0].remaining_quantity, 0);
    assert_eq!(r.fills[0].filled_price, 100);
    assert_eq!(r.fills[0].filled_quantity, 10);
    assert_eq!(r.fills[1].order_id, 2);
    assert_eq!(r.fills[1].side, Side::Sell);
    assert_eq!(r.fills[1].remaining_quantity, 0);
    assert_eq!(r.fills[1].filled_price, 100);
    assert_eq!(r.status, OrderStatus::Filled);
    assert!(!r.rested);
    assert_eq!(book.len(), 0);
    assert_eq!(book.best_bid(), None);
    assert_eq!(book.best_ask(), None);
    assert_eq!(book.last_price(), Some(100));
    assert_eq!(book.next_trade_id(), 1);
    let update = r.book_update.unwrap();
    assert!(update.bids.is_empty());
    assert!(update.asks.is_empty());
    assert_eq!(update.last_price, Some(100));
}

#[test]
fn partial_fill_and_residual_rest() {
    let mut book = OrderBook::new("S");
    book.match_limit_order(entry(1, 1, Side::Sell, 200, 5, 1)).unwrap();
    let r = book.match_limit_order(entry(2, 2, Side::Buy, 210, 8, 2)).unwrap();
    assert_eq!(r.trades.len(), 1);
    assert_eq!(r.trades[0].trade_id, 0);
    assert_eq!(r.trades[0].maker_order_id, 1);
    assert_eq!(r.trades[0].taker_order_id, 2);
    assert_eq!(r.trades[0].price, 200);
    assert_eq!(r.trades[0].quantity, 5);
    assert_eq!(r.fills.len(), 2);
    assert_eq!(r.fills[1].remaining_quantity, 3);
    assert_eq!(r.remaining_quantity, 3);
    assert_eq!(r.status, OrderStatus::PartiallyFilled);
    assert!(r.rested);
    let rest = *book.get_order(2).unwrap();
    assert_eq!(rest.price, 210);
    assert_eq!(rest.quantity, 8);
    assert_eq!(rest.remaining_quantity, 3);
    assert_eq!(book.best_bid(), Some(210));
    assert_eq!(book.best_ask(), None);
    assert_eq!(book.level_quantity(Side::Buy, 210), Some(3));
}

#[test]
fn price_time_priority_across_two_makers() {
    let mut book = OrderBook::new("S");
    book.match_limit_order(entry(1, 1, Side::Sell, 100, 5, 1)).unwrap();
    book.match_limit_order(entry(2, 2, Side::Sell, 100, 5, 2)).unwrap();
    let r = book.match_limit_order(entry(3, 3, Side::Buy, 100, 7, 3)).unwrap();
    assert_eq!(r.trades.len(), 2);
    assert_eq!(r.trades[0].maker_order_id, 1);
    assert_eq!(r.trades[0].quantity, 5);
    assert_eq!(r.trades[0].trade_id, 0);
    assert_eq!(r.trades[1].maker_order_id, 2);
    assert_eq!(r.trades[1].quantity, 2);
    assert_eq!(r.trades[1].trade_id, 1);
    assert_eq!(r.fills.len(), 4);
    assert_eq!(r.fills[2].order_id, 2);
    assert_eq!(r.fills[2].remaining_quantity, 3);
    assert_eq!(r.fills[3].order_id, 3);
    assert_eq!(r.fills[3].remaining_quantity, 0);
    assert_eq!(r.status, OrderStatus::Filled);
    assert!(!r.rested);
    assert_eq!(book.get_order(1), None);
    assert_eq!(book.get_order(2).unwrap().remaining_quantity, 3);
    assert_eq!(book.level_orders(Side::Sell, 100), vec![2]);
    assert_eq!(book.level_quantity(Side::Sell, 100), Some(3));
    assert_eq!(book.best_ask(), Some(100));
    assert_eq!(book.get_order(3), None);
}

#[test]
fn cancellation_of_a_resting_order() {
    let mut book = OrderBook::new("S");
    book.add_order(entry(1, 1, Side::Buy, 50, 4, 1)).unwrap();
    book.add_order(entry(2, 2, Side::Buy, 50, 6, 2)).unwrap();
    book.add_order(entry(3, 3, Side::Buy, 49, 8, 3)).unwrap();
    let removed = book.remove_order(2).unwrap().unwrap();
    assert_eq!(removed.order_id, 2);
    assert_eq!(removed.remaining_quantity, 6);
    assert_eq!(book.level_orders(Side::Buy, 50), vec![1]);
    assert_eq!(book.level_quantity(Side::Buy, 50), Some(4));
    assert_eq!(book.best_bid(), Some(50));
    assert_eq!(book.remove_order(2), Err(OrderBookError::OrderNotFound(2)));
    assert_eq!(book.len(), 2);
    book.remove_order(1).unwrap();
    assert_eq!(book.best_bid(), Some(49));
    assert_eq!(book.level_quantity(Side::Buy, 50), None);
    book.remove_order(3).unwrap();
    assert_eq!(book.best_bid(), None);
}

#[test]
fn add_order_rejections_leave_the_book_alone() {
    let mut book = OrderBook::new("S");
    book.add_order(entry(1, 1, Side::Sell, 50, 4, 1)).unwrap();
    assert_eq!(
        book.add_order(entry(2, 1, Side::Sell, 50, 0, 1)),
        Err(OrderBookError::InvalidOrder("Quantity must be greater than 0".to_string()))
    );
    assert_eq!(
        book.add_order(entry(2, 1, Side::Sell, 0, 5, 1)),
        Err(OrderBookError::InvalidOrder("Price must be greater than 0".to_string()))
    );
    assert_eq!(
        book.add_order(entry(1, 1, Side::Sell, 60, 5, 1)),
        Err(OrderBookError::InvalidOrder("Order id is already in the book".to_string()))
    );
    let mut spent = entry(2, 1, Side::Sell, 60, 5, 1);
    spent.remaining_quantity = 0;
    assert_eq!(
        book.add_order(spent),
        Err(OrderBookError::InvalidOrder(
            "Remaining quantity must be between 1 and the quantity".to_string()
        ))
    );
    let mut over = entry(2, 1, Side::Sell, 60, 5, 1);
    over.remaining_quantity = 6;
    assert_eq!(
        book.add_order(over),
        Err(OrderBookError::InvalidOrder(
            "Remaining quantity must be between 1 and the quantity".to_string()
        ))
    );
    assert_eq!(book.len(), 1);
    assert_eq!(book.best_ask(), Some(50));
    assert_eq!(book.level_quantity(Side::Sell, 50), Some(4));
}

#[test]
fn matching_rejections() {
    let mut book = OrderBook::new("S");
    book.match_limit_order(entry(1, 1, Side::Sell, 50, 4, 1)).unwrap();
    assert_eq!(
        book.match_limit_order(entry(2, 1, Side::Buy, 50, 0, 1)).unwrap_err(),
        OrderBookError::InvalidOrder("Quantity must be greater than 0".to_string())
    );
    assert_eq!(
        book.match_limit_order(entry(2, 1, Side::Buy, 0, 5, 1)).unwrap_err(),
        OrderBookError::InvalidOrder("Price must be greater than 0".to_string())
    );
    assert_eq!(
        book.match_limit_order(entry(1, 1, Side::Buy, 50, 5, 1)).unwrap_err(),
        OrderBookError::InvalidOrder("Order id is already in the book".to_string())
    );
    assert_eq!(
        book.match_market_order(entry(2, 1, Side::Buy, 0, 0, 1)).unwrap_err(),
        OrderBookError::InvalidOrder("Quantity must be greater than 0".to_string())
    );
    assert_eq!(
        book.match_market_order(entry(1, 1, Side::Buy, 0, 3, 1)).unwrap_err(),
        OrderBookError::InvalidOrder("Order id is already in the book".to_string())
    );
    assert_eq!(book.len(), 1);
    assert_eq!(book.level_quantity(Side::Sell, 50), Some(4));
    assert_eq!(book.next_trade_id(), 0);
}

#[test]
fn market_order_sweeps_levels_and_never_rests() {
    let mut book = OrderBook::new("S");
    book.match_limit_order(entry(1, 1, Side::Sell, 100, 5, 1)).unwrap();
    book.match_limit_order(entry(2, 2, Side::Sell, 105, 5, 2)).unwrap();
    book.match_limit_order(entry(3, 3, Side::Sell, 101, 5, 3)).unwrap();
    let r = book.match_market_order(entry(4, 4, Side::Buy, 0, 20, 4)).unwrap();
    assert_eq!(r.trades.len(), 3);
    assert_eq!(r.trades[0].maker_order_id, 1);
    assert_eq!(r.trades[0].price, 100);
    assert_eq!(r.trades[1].maker_order_id, 3);
    assert_eq!(r.trades[1].price, 101);
    assert_eq!(r.trades[2].maker_order_id, 2);
    assert_eq!(r.trades[2].price, 105);
    assert_eq!(r.trades[0].trade_id, 0);
    assert_eq!(r.trades[1].trade_id, 1);
    assert_eq!(r.trades[2].trade_id, 2);
    assert_eq!(r.remaining_quantity, 5);
    assert_eq!(r.fills[5].remaining_quantity, 5);
    assert_eq!(r.status, OrderStatus::PartiallyFilled);
    assert!(!r.rested);
    assert_eq!(book.len(), 0);
    assert_eq!(book.best_bid(), None);
    assert_eq!(book.get_order(4), None);
    assert_eq!(book.last_price(), Some(105));
}

#[test]
fn market_sell_hits_the_highest_bid_first() {
    let mut book = OrderBook::new("S");
    book.match_limit_order(entry(1, 1, Side::Buy, 99, 5, 1)).unwrap();
    book.match_limit_order(entry(2, 2, Side::Buy, 101, 5, 2)).unwrap();
    let r = book.match_market_order(entry(3, 3, Side::Sell, 0, 7, 3)).unwrap();
    assert_eq!(r.trades.len(), 2);
    assert_eq!(r.trades[0].maker_order_id, 2);
    assert_eq!(r.trades[0].price, 101);
    assert_eq!(r.trades[0].quantity, 5);
    assert_eq!(r.trades[1].maker_order_id, 1);
    assert_eq!(r.trades[1].price, 99);
    assert_eq!(r.trades[1].quantity, 2);
    assert_eq!(r.status, OrderStatus::Filled);
    assert_eq!(book.level_quantity(Side::Buy, 99), Some(3));
    assert_eq!(book.best_bid(), Some(99));
}

#[test]
fn market_order_on_empty_book_does_nothing() {
    let mut book = OrderBook::new("S");
    let r = book.match_market_order(entry(1, 1, Side::Buy, 0, 7, 3)).unwrap();
    assert!(r.trades.is_empty());
    assert!(r.fills.is_empty());
    assert_eq!(r.remaining_quantity, 7);
    assert!(!r.rested);
    assert!(r.book_update.is_none());
    assert_eq!(book.len(), 0);
}

#[test]
fn limit_order_stops_at_its_price() {
    let mut book = OrderBook::new("S");
    book.match_limit_order(entry(1, 1, Side::Sell, 100, 5, 1)).unwrap();
    book.match_limit_order(entry(2, 2, Side::Sell, 102, 5, 2)).unwrap();
    let r = book.match_limit_order(entry(3, 3, Side::Buy, 101, 8, 3)).unwrap();
    assert_eq!(r.trades.len(), 1);
    assert_eq!(r.trades[0].price, 100);
    assert_eq!(r.remaining_quantity, 3);
    assert!(r.rested);
    assert_eq!(book.best_bid(), Some(101));
    assert_eq!(book.best_ask(), Some(102));
    assert!(book.best_bid().unwrap() < book.best_ask().unwrap());
}

#[test]
fn no_book_update_when_the_top_stays() {
    let mut book = OrderBook::new("S");
    book.match_limit_order(entry(1, 1, Side::Buy, 100, 5, 1)).unwrap();
    let r = book.match_limit_order(entry(2, 2, Side::Buy, 99, 5, 2)).unwrap();
    assert!(r.book_update.is_none());
    let r = book.match_limit_order(entry(3, 3, Side::Buy, 100, 5, 3)).unwrap();
    let update = r.book_update.unwrap();
    assert_eq!(update.bids[0].price, 100);
    assert_eq!(update.bids[0].quantity, 10);
    assert_eq!(update.bids[1].price, 99);
    assert_eq!(update.bids[1].quantity, 5);
}

#[test]
fn update_order_quantity_partial_and_full() {
    let mut book = OrderBook::new("S");
    book.add_order(entry(1, 1, Side::Sell, 100, 10, 1)).unwrap();
    book.add_order(entry(2, 1, Side::Sell, 100, 10, 1)).unwrap();
    book.update_order_quantity(1, 4);
    assert_eq!(book.get_order(1).unwrap().remaining_quantity, 6);
    assert_eq!(book.level_quantity(Side::Sell, 100), Some(16));
    book.update_order_quantity(1, 7);
    assert_eq!(book.get_order(1).unwrap().remaining_quantity, 6);
    book.update_order_quantity(9, 1);
    assert_eq!(book.len(), 2);
    book.update_order_quantity(1, 6);
    assert_eq!(book.get_order(1), None);
    assert_eq!(book.level_orders(Side::Sell, 100), vec![2]);
    assert_eq!(book.level_quantity(Side::Sell, 100), Some(10));
    book.update_order_quantity(2, 10);
    assert_eq!(book.best_ask(), None);
    assert_eq!(book.len(), 0);
}

#[test]
fn depth_is_ordered_and_truncated() {
    let mut book = OrderBook::new("S");
    let mut id = 0;
    for p in [10u64, 12, 11, 9] {
        id += 1;
        book.add_order(entry(id, 1, Side::Buy, p, p, 1)).unwrap();
    }
    id += 1;
    book.add_order(entry(id, 1, Side::Buy, 12, 3, 1)).unwrap();
    for p in [20u64, 22, 21] {
        id += 1;
        book.add_order(entry(id, 1, Side::Sell, p, 1, 1)).unwrap();
    }
    let depth = book.get_depth(3);
    assert_eq!(depth.bids, vec![(12, 15), (11, 11), (10, 10)]);
    assert_eq!(depth.asks, vec![(20, 1), (21, 1), (22, 1)]);
    let depth = book.get_depth(0);
    assert!(depth.bids.is_empty());
    assert!(depth.asks.is_empty());
    let depth = book.get_depth(100);
    assert_eq!(depth.bids, vec![(12, 15), (11, 11), (10, 10), (9, 9)]);
    book.remove_order(1).unwrap();
    let depth = book.get_depth(2);
    assert_eq!(depth.bids, vec![(12, 15), (11, 11)]);
    let depth = book.get_depth(100);
    assert_eq!(depth.bids, vec![(12, 15), (11, 11), (9, 9)]);
}

#[test]
fn depth_never_exceeds_the_cache_limit() {
    let mut book = OrderBook::new("S");
    let n = CACHE_LIMIT as u64 + 10;
    for i in 0..n {
        book.add_order(entry(i, 1, Side::Sell, 1000 + i, 1, 1)).unwrap();
        book.add_order(entry(n + i, 1, Side::Buy, 999 - i, 1, 1)).unwrap();
    }
    let depth = book.get_depth(usize::MAX);
    assert_eq!(depth.asks.len(), CACHE_LIMIT);
    assert_eq!(depth.bids.len(), CACHE_LIMIT);
    assert_eq!(depth.asks[0], (1000, 1));
    assert_eq!(depth.asks[CACHE_LIMIT - 1], (1000 + CACHE_LIMIT as u64 - 1, 1));
    assert_eq!(depth.bids[0], (999, 1));
    assert_eq!(depth.bids[CACHE_LIMIT - 1], (999 - (CACHE_LIMIT as u64 - 1), 1));
}

#[test]
fn depth_reports_the_extreme_prices() {
    let mut book = OrderBook::new("S");
    book.add_order(entry(1, 1, Side::Sell, u64::MAX, 2, 1)).unwrap();
    book.add_order(entry(2, 1, Side::Buy, 1, 3, 1)).unwrap();
    let depth = book.get_depth(5);
    assert_eq!(depth.asks, vec![(u64::MAX, 2)]);
    assert_eq!(depth.bids, vec![(1, 3)]);
}

#[test]
fn depth_clamps_an_aggregate_beyond_sixty_four_bits() {
    let mut book = OrderBook::new("S");
    book.add_order(entry(1, 1, Side::Sell, 10, u64::MAX, 1)).unwrap();
    book.add_order(entry(2, 1, Side::Sell, 10, 5, 1)).unwrap();
    assert_eq!(book.level_quantity(Side::Sell, 10), Some(u64::MAX as u128 + 5));
    let depth = book.get_depth(5);
    assert_eq!(depth.asks, vec![(10, u64::MAX)]);
}

#[test]
fn trade_ids_grow_across_calls() {
    let mut book = OrderBook::new("S");
    let mut last = None;
    for i in 0..5u64 {
        book.match_limit_order(entry(2 * i, 1, Side::Sell, 100, 1, 1)).unwrap();
        let r = book.match_limit_order(entry(2 * i + 1, 2, Side::Buy, 100, 1, 1)).unwrap();
        assert_eq!(r.trades.len(), 1);
        let id = r.trades[0].trade_id;
        if let Some(prev) = last {
            assert!(id > prev);
        }
        assert_eq!(id, i);
        last = Some(id);
    }
    assert_eq!(book.generate_trade_id(), 5);
    assert_eq!(book.next_trade_id(), 6);
}

#[test]
fn next_matchable_order_is_the_oldest_at_the_best_price() {
    let mut book = OrderBook::new("S");
    book.add_order(entry(1, 1, Side::Sell, 101, 1, 1)).unwrap();
    book.add_order(entry(2, 1, Side::Sell, 100, 1, 2)).unwrap();
    book.add_order(entry(3, 1, Side::Sell, 100, 1, 3)).unwrap();
    book.add_order(entry(4, 1, Side::Buy, 90, 1, 4)).unwrap();
    book.add_order(entry(5, 1, Side::Buy, 95, 1, 5)).unwrap();
    assert_eq!(book.get_next_matchable_order(Side::Buy), Some(2));
    assert_eq!(book.get_next_matchable_order(Side::Sell), Some(5));
    assert_eq!(book.top_of_book(Side::Sell), Some((100, 2)));
    assert_eq!(book.top_of_book(Side::Buy), Some((95, 1)));
}

#[test]
fn accounts_stay_consistent_under_random_flow() {
    let mut book = OrderBook::new("S");
    let mut placed: HashMap<u64, u64> = HashMap::new();
    let mut filled: HashMap<u64, u64> = HashMap::new();
    let mut seed: u64 = 987654321;
    let mut next = || {
        seed = seed.wrapping_mul(6364136223846793005).wrapping_add(1442695040888963407);
        seed >> 33
    };
    let mut last_trade: Option<u64> = None;
    for id in 1..=600u64 {
        let side = if next() % 2 == 0 { Side::Buy } else { Side::Sell };
        let price = 95 + next() % 10;
        let qty = 1 + next() % 20;
        let roll = next() % 10;
        let result = if roll == 0 {
            book.match_market_order(entry(id, id % 7, side, 0, qty, id as i64)).unwrap()
        } else if roll == 1 && id > 10 {
            let victim = 1 + next() % (id - 1);
            let _ = book.remove_order(victim);
            continue;
        } else {
            book.match_limit_order(entry(id, id % 7, side, price, qty, id as i64)).unwrap()
        };
        placed.insert(id, qty);

        // every trade comes with the maker's fill and then the taker's
        assert_eq!(result.fills.len(), 2 * result.trades.len());
        let mut taken = 0;
        for (i, t) in result.trades.iter().enumerate() {
            let maker = &result.fills[2 * i];
            let taker = &result.fills[2 * i + 1];
            assert_eq!(maker.order_id, t.maker_order_id);
            assert_eq!(taker.order_id, t.taker_order_id);
            assert_eq!(taker.order_id, id);
            assert_eq!(maker.filled_quantity, t.quantity);
            assert_eq!(taker.filled_quantity, t.quantity);
            assert_eq!(maker.filled_price, t.price);
            assert_eq!(taker.filled_price, t.price);
            assert_ne!(maker.side, taker.side);
            if roll != 0 {
                match side {
                    Side::Buy => assert!(t.price <= price),
                    Side::Sell => assert!(t.price >= price),
                }
            }
            taken += t.quantity;
            assert_eq!(taker.remaining_quantity, qty - taken);
            *filled.entry(t.maker_order_id).or_insert(0) += t.quantity;
            *filled.entry(id).or_insert(0) += t.quantity;
            if let Some(prev) = last_trade {
                assert_eq!(t.trade_id, prev + 1);
            }
            last_trade = Some(t.trade_id);
        }
        assert_eq!(result.remaining_quantity, qty - taken);

        // nobody is filled beyond what they brought
        for (order, done) in &filled {
            assert!(done <= &placed[order]);
        }

        // every level accounts for what its orders have left, and the best
        // prices are the extremes and do not cross
        let depth = book.get_depth(CACHE_LIMIT);
        for (levels, side) in [(&depth.bids, Side::Buy), (&depth.asks, Side::Sell)] {
            for (price, quantity) in levels.iter() {
                let ids = book.level_orders(side, *price);
                assert!(!ids.is_empty());
                let mut sum: u128 = 0;
                for order in &ids {
                    let e = book.get_order(*order).unwrap();
                    assert_eq!(e.price, *price);
                    assert_eq!(e.side, side);
                    assert!(e.remaining_quantity > 0 && e.remaining_quantity <= e.quantity);
                    assert_eq!(
                        e.quantity - e.remaining_quantity,
                        filled.get(order).copied().unwrap_or(0)
                    );
                    sum += e.remaining_quantity as u128;
                }
                assert_eq!(book.level_quantity(side, *price), Some(sum));
                assert_eq!(*quantity as u128, sum);
            }
        }
        assert_eq!(book.best_bid(), depth.bids.first().map(|l| l.0));
        assert_eq!(book.best_ask(), depth.asks.first().map(|l| l.0));
        if let (Some(b), Some(a)) = (book.best_bid(), book.best_ask()) {
            assert!(b < a);
        }
        for w in depth.bids.windows(2) {
            assert!(w[0].0 > w[1].0);
        }
        for w in depth.asks.windows(2) {
            assert!(w[0].0 < w[1].0);
        }
    }
    assert!(last_trade.unwrap() > 100);
}

#[test]
fn trade_ids_run_out_at_the_end_of_their_range() {
    let mut book = OrderBook::starting_at("S", u64::MAX - 1);
    assert_eq!(book.next_trade_id(), u64::MAX - 1);
    book.match_limit_order(entry(1, 1, Side::Sell, 100, 1, 1)).unwrap();
    let r = book.match_limit_order(entry(2, 2, Side::Buy, 100, 1, 2)).unwrap();
    assert_eq!(r.trades[0].trade_id, u64::MAX - 1);
    assert_eq!(book.next_trade_id(), u64::MAX);
    // an empty book still takes an order in: nothing can trade
    book.match_limit_order(entry(3, 1, Side::Sell, 100, 5, 3)).unwrap();
    assert_eq!(
        book.match_limit_order(entry(4, 2, Side::Buy, 100, 1, 4)).unwrap_err(),
        OrderBookError::TradeIdsExhausted
    );
    assert_eq!(
        book.match_market_order(entry(4, 2, Side::Buy, 0, 1, 4)).unwrap_err(),
        OrderBookError::TradeIdsExhausted
    );
    assert_eq!(
        book.match_limit_order(entry(4, 2, Side::Sell, 200, 1, 4)).unwrap_err(),
        OrderBookError::TradeIdsExhausted
    );
    assert_eq!(book.len(), 1);
    assert_eq!(book.level_quantity(Side::Sell, 100), Some(5));
    assert_eq!(book.next_trade_id(), u64::MAX);
    assert_eq!(book.remove_order(3).unwrap().unwrap().order_id, 3);
}

#[test]
fn book_snapshot_and_small_accessors() {
    let mut book = OrderBook::new("S");
    assert!(book.has_symbol(&"S".to_string()));
    assert!(!book.has_symbol(&"T".to_string()));
    assert_eq!(book.symbol(), "S");
    book.add_order(entry(1, 1, Side::Buy, 10, 4, 1)).unwrap();
    book.add_order(entry(2, 1, Side::Sell, 12, 6, 1)).unwrap();
    book.update_depth_cache();
    book.update_depth_cache();
    book.record_last_price(11);
    assert_eq!(book.last_price(), Some(11));
    let update = book.book_update();
    assert_eq!(update.symbol, "S");
    assert_eq!(update.bids.len(), 1);
    assert_eq!((update.bids[0].price, update.bids[0].quantity), (10, 4));
    assert_eq!((update.asks[0].price, update.asks[0].quantity), (12, 6));
    assert_eq!(update.last_price, Some(11));
    // a change after the snapshot shows in the next one
    book.update_order_quantity(2, 1);
    let update = book.book_update();
    assert_eq!((update.asks[0].price, update.asks[0].quantity), (12, 5));
    assert_eq!(book.top_of_book(Side::Buy), Some((10, 4)));
    book.remove_order(1).unwrap();
    assert_eq!(book.top_of_book(Side::Buy), None);
    assert!(book.get_depth(5).bids.is_empty());
}

#[test]
fn add_order_refuses_an_unsound_order_at_a_crossing_price() {
    let mut book = OrderBook::new("S");
    book.add_order(entry(1, 1, Side::Buy, 100, 4, 1)).unwrap();
    assert_eq!(
        book.add_order(entry(2, 1, Side::Sell, 0, 5, 1)),
        Err(OrderBookError::InvalidOrder("Price must be greater than 0".to_string()))
    );
    assert_eq!(
        book.add_order(entry(2, 1, Side::Sell, 90, 0, 1)),
        Err(OrderBookError::InvalidOrder("Quantity must be greater than 0".to_string()))
    );
    assert_eq!(
        book.add_order(entry(1, 1, Side::Sell, 90, 3, 1)),
        Err(OrderBookError::InvalidOrder("Order id is already in the book".to_string()))
    );
    let mut spent = entry(2, 1, Side::Sell, 90, 5, 1);
    spent.remaining_quantity = 0;
    assert_eq!(
        book.add_order(spent),
        Err(OrderBookError::InvalidOrder(
            "Remaining quantity must be between 1 and the quantity".to_string()
        ))
    );
    assert_eq!(book.len(), 1);
    assert_eq!(book.best_bid(), Some(100));
    assert_eq!(book.best_ask(), None);
    assert_eq!(book.level_quantity(Side::Buy, 100), Some(4));
}
