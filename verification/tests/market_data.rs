use exchange_core::market_data::aggregator::{Aggregator, TickerState};
use exchange_core::market_data::pipeline::MarketDataPipeline;
use exchange_core::market_data::publisher::{copy_event, Handed, MemoryPublisher, Publisher};
use exchange_core::market_data::transformer::Transformer;
use exchange_core::market_data::types::{
    DepthEvent, Event as WSEvent, TickerEvent, TradeEvent, UserOrderUpdateEvent,
};
use exchange_core::protocol::{
    BookUpdate, CancelReason, Event, Fill, OrderAck, OrderCancelled, OrderReject, PriceLevel,
    RejectReason, Side, Trade,
};
use std::sync::{Arc, Mutex};

// Mock publisher for testing
#[derive(Clone)]
struct MockPublisher {
    published: Arc<Mutex<Vec<WSEvent>>>,
}

impl MockPublisher {
    fn new() -> Self {
        Self { published: Arc::new(Mutex::new(Vec::new())) }
    }

    fn get_published(&self) -> Vec<WSEvent> {
        self.published.lock().unwrap().clone()
    }

    fn count(&self) -> usize {
        self.published.lock().unwrap().len()
    }
}

impl Publisher for MockPublisher {
    fn published(&self) -> Handed {
        panic!("a record for proofs only")
    }

    fn publish(&mut self, event: &WSEvent) {
        self.published.lock().unwrap().push(event.clone());
    }

    fn publish_batch(&mut self, events: Vec<WSEvent>) {
        self.published.lock().unwrap().extend(events);
    }
}

fn sample_trade() -> Trade {
    Trade {
        trade_id: 1,
        maker_order_id: 10,
        maker_user_id: 100,
        taker_order_id: 20,
        taker_user_id: 200,
        symbol: "SOL_USDC".to_string(),
        quantity: 50,
        price: 50000,
        timestamp: 1234567890,
    }
}

fn ticker_in(events: &[WSEvent]) -> TickerEvent {
    events
        .iter()
        .find_map(|e| if let WSEvent::Ticker(t) = e { Some(t.clone()) } else { None })
        .unwrap()
}

// ========== Transformer Tests ==========

#[test]
fn test_transformer_trade_event() {
    let transformer = Transformer::new();
    let trade = Trade {
        trade_id: 1,
        maker_order_id: 10,
        maker_user_id: 100,
        taker_order_id: 20,
        taker_user_id: 200,
        symbol: "SOL_USDC".to_string(),
        quantity: 50,
        price: 50000,
        timestamp: 1234567890,
    };
    let event = Event::Trade(trade);

    let ws_event = transformer.transform(event);

    match ws_event {
        WSEvent::Trade(t) => {
            assert_eq!(t.trade_id, 1);
            assert_eq!(t.quantity, 50);
            assert_eq!(t.price, 50000);
            assert_eq!(t.symbol, "SOL_USDC");
            assert_eq!(t.timestamp, 1234567890);
        }
        _ => panic!("Expected Trade event, got {:?}", ws_event),
    }
}

#[test]
fn test_transformer_fill_event() {
    let transformer = Transformer::new();
    let fill = Fill {
        order_id: 1,
        user_id: 100,
        symbol: "SOL_USDC".to_string(),
        side: Side::Buy,
        filled_quantity: 25,
        filled_price: 50000,
        remaining_quantity: 25,
    };
    let event = Event::Fill(fill);

    let ws_event = transformer.transform(event);

    match ws_event {
        WSEvent::OrderUpdate(UserOrderUpdateEvent::Fill {
            order_id,
            user_id,
            symbol,
            filled_quantity,
            filled_price,
            remaining_quantity,
            ..
        }) => {
            assert_eq!(order_id, 1);
            assert_eq!(user_id, 100);
            assert_eq!(symbol, "SOL_USDC");
            assert_eq!(filled_quantity, 25);
            assert_eq!(filled_price, 50000);
            assert_eq!(remaining_quantity, 25);
        }
        _ => panic!("Expected Fill OrderUpdate event"),
    }
}

#[test]
fn test_transformer_order_ack() {
    let transformer = Transformer::new();
    let ack = OrderAck { order_id: 1, user_id: 100, symbol: "SOL_USDC".to_string() };
    let event = Event::OrderAck(ack);

    let ws_event = transformer.transform(event);

    match ws_event {
        WSEvent::OrderUpdate(UserOrderUpdateEvent::Ack { order_id, user_id, symbol, .. }) => {
            assert_eq!(order_id, 1);
            assert_eq!(user_id, 100);
            assert_eq!(symbol, "SOL_USDC");
        }
        _ => panic!("Expected Ack OrderUpdate event"),
    }
}

#[test]
fn test_transformer_order_reject() {
    let transformer = Transformer::new();
    let reject = OrderReject {
        order_id: 1,
        user_id: 100,
        reason: RejectReason::InvalidQuantity,
        message: "Quantity must be greater than 0".to_string(),
        symbol: "SOL_USDC".to_string(),
    };
    let event = Event::OrderReject(reject);

    let ws_event = transformer.transform(event);

    match ws_event {
        WSEvent::OrderUpdate(UserOrderUpdateEvent::Reject {
            order_id,
            user_id,
            symbol,
            reason,
            message,
            ..
        }) => {
            assert_eq!(order_id, 1);
            assert_eq!(user_id, 100);
            assert_eq!(symbol, "SOL_USDC");
            assert!(reason.contains("InvalidQuantity"));
            assert_eq!(message, "Quantity must be greater than 0");
        }
        _ => panic!("Expected Reject OrderUpdate event"),
    }
}

#[test]
fn test_transformer_order_cancelled() {
    let transformer = Transformer::new();
    let cancelled = OrderCancelled {
        order_id: 1,
        user_id: 100,
        symbol: "SOL_USDC".to_string(),
        reason: CancelReason::UserRequested,
    };
    let event = Event::OrderCancelled(cancelled);

    let ws_event = transformer.transform(event);

    match ws_event {
        WSEvent::OrderUpdate(UserOrderUpdateEvent::Cancelled {
            order_id, user_id, symbol, ..
        }) => {
            assert_eq!(order_id, 1);
            assert_eq!(user_id, 100);
            assert_eq!(symbol, "SOL_USDC");
        }
        _ => panic!("Expected Cancelled OrderUpdate event"),
    }
}

#[test]
fn test_transformer_book_update() {
    let transformer = Transformer::new();
    let book_update = BookUpdate {
        symbol: "SOL_USDC".to_string(),
        bids: vec![PriceLevel { price: 49900, quantity: 100 }],
        asks: vec![PriceLevel { price: 50100, quantity: 50 }],
        last_price: Some(50000),
    };
    let event = Event::BookUpdate(book_update);

    let ws_event = transformer.transform(event);

    match ws_event {
        WSEvent::Depth(depth) => {
            assert_eq!(depth.symbol, "SOL_USDC");
            assert_eq!(depth.bids.len(), 1);
            assert_eq!(depth.asks.len(), 1);
            assert_eq!(depth.bids[0].price, 49900);
            assert_eq!(depth.bids[0].quantity, 100);
            assert_eq!(depth.asks[0].price, 50100);
            assert_eq!(depth.asks[0].quantity, 50);
            assert_eq!(depth.last_price, Some(50000));
        }
        _ => panic!("Expected Depth event"),
    }
}

#[test]
fn test_transformer_all_event_types() {
    let transformer = Transformer::new();

    // Test all event types transform correctly
    let events = vec![
        Event::Trade(Trade {
            trade_id: 1,
            maker_order_id: 10,
            maker_user_id: 100,
            taker_order_id: 20,
            taker_user_id: 200,
            symbol: "SOL_USDC".to_string(),
            quantity: 50,
            price: 50000,
            timestamp: 1234567890,
        }),
        Event::Fill(Fill {
            order_id: 1,
            user_id: 100,
            symbol: "SOL_USDC".to_string(),
            side: Side::Buy,
            filled_quantity: 25,
            filled_price: 50000,
            remaining_quantity: 25,
        }),
        Event::OrderAck(OrderAck { order_id: 1, user_id: 100, symbol: "SOL_USDC".to_string() }),
    ];

    for event in events {
        let ws_event = transformer.transform(event);
        assert!(
            matches!(ws_event, WSEvent::Trade(_) | WSEvent::OrderUpdate(_)),
            "Event should transform to valid WS event"
        );
    }
}

#[test]
fn transform_at_stamps_every_event_but_a_trade() {
    let transformer = Transformer::new();
    let out = transformer.transform_at(Event::Trade(sample_trade()), 77);
    assert_eq!(
        out,
        WSEvent::Trade(TradeEvent {
            trade_id: 1,
            symbol: "SOL_USDC".to_string(),
            price: 50000,
            quantity: 50,
            timestamp: 1234567890,
        })
    );
    let out = transformer.transform_at(
        Event::BookUpdate(BookUpdate {
            symbol: "S".to_string(),
            bids: vec![PriceLevel { price: 9, quantity: 1 }],
            asks: vec![],
            last_price: None,
        }),
        77,
    );
    assert_eq!(
        out,
        WSEvent::Depth(DepthEvent {
            symbol: "S".to_string(),
            bids: vec![PriceLevel { price: 9, quantity: 1 }],
            asks: vec![],
            timestamp: 77,
            last_price: None,
        })
    );
    let out = transformer.transform_at(
        Event::Fill(Fill {
            order_id: 1,
            user_id: 2,
            symbol: "S".to_string(),
            side: Side::Sell,
            filled_quantity: 3,
            filled_price: 4,
            remaining_quantity: 5,
        }),
        78,
    );
    assert_eq!(
        out,
        WSEvent::OrderUpdate(UserOrderUpdateEvent::Fill {
            order_id: 1,
            user_id: 2,
            symbol: "S".to_string(),
            filled_quantity: 3,
            filled_price: 4,
            remaining_quantity: 5,
            timestamp: 78,
        })
    );
    let out = transformer.transform_at(
        Event::OrderAck(OrderAck { order_id: 1, user_id: 2, symbol: "S".to_string() }),
        79,
    );
    assert_eq!(
        out,
        WSEvent::OrderUpdate(UserOrderUpdateEvent::Ack {
            order_id: 1,
            user_id: 2,
            symbol: "S".to_string(),
            timestamp: 79,
        })
    );
    let out = transformer.transform_at(
        Event::OrderReject(OrderReject {
            order_id: 1,
            user_id: 2,
            reason: RejectReason::MarketClosed,
            message: "closed".to_string(),
            symbol: "S".to_string(),
        }),
        80,
    );
    assert_eq!(
        out,
        WSEvent::OrderUpdate(UserOrderUpdateEvent::Reject {
            order_id: 1,
            user_id: 2,
            symbol: "S".to_string(),
            reason: "MarketClosed".to_string(),
            message: "closed".to_string(),
            timestamp: 80,
        })
    );
    let out = transformer.transform_at(
        Event::OrderCancelled(OrderCancelled {
            order_id: 1,
            user_id: 2,
            symbol: "S".to_string(),
            reason: CancelReason::Expired,
        }),
        81,
    );
    assert_eq!(
        out,
        WSEvent::OrderUpdate(UserOrderUpdateEvent::Cancelled {
            order_id: 1,
            user_id: 2,
            symbol: "S".to_string(),
            timestamp: 81,
        })
    );
}

#[test]
fn transform_stamps_with_the_clock() {
    let transformer = Transformer::new();
    let out = transformer
        .transform(Event::OrderAck(OrderAck { order_id: 1, user_id: 2, symbol: "S".to_string() }));
    match out {
        WSEvent::OrderUpdate(UserOrderUpdateEvent::Ack { timestamp, .. }) => {
            assert!(timestamp > 1_500_000_000_000);
        }
        _ => panic!("Expected Ack"),
    }
}

// ========== Aggregator Tests ==========

#[test]
fn test_aggregator_trade_updates_ticker() {
    let mut aggregator = Aggregator::new();
    let symbol = "SOL_USDC".to_string();

    let trade = WSEvent::Trade(TradeEvent {
        trade_id: 1,
        symbol: symbol.clone(),
        price: 50000,
        quantity: 10,
        timestamp: 1000,
    });

    let result = aggregator.process(trade);
    assert_eq!(result.len(), 2); // Trade + Ticker

    let has_trade = result.iter().any(|e| matches!(e, WSEvent::Trade(_)));
    let has_ticker = result.iter().any(|e| matches!(e, WSEvent::Ticker(_)));

    assert!(has_trade, "Should output trade event");
    assert!(has_ticker, "Should output ticker event");
}

#[test]
fn test_aggregator_ticker_calculation() {
    let mut aggregator = Aggregator::new();
    let symbol = "SOL_USDC".to_string();

    // First trade sets open price
    let trade1 = WSEvent::Trade(TradeEvent {
        trade_id: 1,
        symbol: symbol.clone(),
        price: 50000,
        quantity: 10,
        timestamp: 1000,
    });
    let result1 = aggregator.process(trade1);
    let ticker1 = ticker_in(&result1);

    assert_eq!(ticker1.open, 50000);
    assert_eq!(ticker1.last_price, 50000);
    assert_eq!(ticker1.high, 50000);
    assert_eq!(ticker1.low, 50000);
    assert_eq!(ticker1.volume, 10);
    assert_eq!(ticker1.price_change, 0);
    assert_eq!(ticker1.price_change_bps.unwrap() as f64 / 100.0, 0.0);

    // Second trade with higher price
    let trade2 = WSEvent::Trade(TradeEvent {
        trade_id: 2,
        symbol: symbol.clone(),
        price: 51000,
        quantity: 20,
        timestamp: 2000,
    });
    let result2 = aggregator.process(trade2);
    let ticker2 = ticker_in(&result2);

    assert_eq!(ticker2.open, 50000);
    assert_eq!(ticker2.last_price, 51000);
    assert_eq!(ticker2.high, 51000);
    assert_eq!(ticker2.low, 50000);
    assert_eq!(ticker2.volume, 30);
    assert_eq!(ticker2.price_change, 1000);
    assert_eq!(ticker2.price_change_bps, Some(200));
    assert!((ticker2.price_change_bps.unwrap() as f64 / 100.0 - 2.0).abs() < 0.01); // 2% increase
}

#[test]
fn test_aggregator_ticker_high_low_tracking() {
    let mut aggregator = Aggregator::new();
    let symbol = "SOL_USDC".to_string();

    // Sequence of trades
    let trades = vec![
        (50000, 10), // Open
        (51000, 20), // High
        (49000, 15), // Low
        (50500, 25), // Middle
    ];

    for (price, qty) in trades {
        let trade = WSEvent::Trade(TradeEvent {
            trade_id: 1,
            symbol: symbol.clone(),
            price,
            quantity: qty,
            timestamp: 1000,
        });
        aggregator.process(trade);
    }

    // Get final ticker
    let final_trade = WSEvent::Trade(TradeEvent {
        trade_id: 5,
        symbol: symbol.clone(),
        price: 50500,
        quantity: 1,
        timestamp: 5000,
    });
    let result = aggregator.process(final_trade);
    let ticker = ticker_in(&result);

    println!("ticker: {:?}", ticker);
    assert_eq!(ticker.open, 50000);
    assert_eq!(ticker.high, 51000);
    assert_eq!(ticker.low, 49000);
    assert_eq!(ticker.last_price, 50500);
    assert_eq!(ticker.volume, 71); // Sum of all quantities
}

#[test]
fn test_aggregator_depth_throttling() {
    let mut aggregator = Aggregator::new();
    let symbol = "SOL_USDC".to_string();

    let depth1 = WSEvent::Depth(DepthEvent {
        symbol: symbol.clone(),
        bids: vec![],
        asks: vec![],
        timestamp: 1000,
        last_price: None,
    });

    let depth2 = WSEvent::Depth(DepthEvent {
        symbol: symbol.clone(),
        bids: vec![],
        asks: vec![],
        timestamp: 150, // Within 100ms throttle window
        last_price: None,
    });

    // First depth should pass through
    let result1 = aggregator.process(depth1);
    assert_eq!(result1.len(), 1);
    assert!(matches!(result1[0], WSEvent::Depth(_)));

    // Second depth should be throttled (within 100ms)
    let result2 = aggregator.process(depth2);
    assert_eq!(result2.len(), 0); // Throttled
}

#[test]
fn test_aggregator_depth_after_throttle_interval() {
    let mut aggregator = Aggregator::new();
    let symbol = "SOL_USDC".to_string();

    let depth1 = WSEvent::Depth(DepthEvent {
        symbol: symbol.clone(),
        bids: vec![],
        asks: vec![],
        timestamp: 1000,
        last_price: None,
    });

    // First depth
    aggregator.process(depth1);

    let depth2 = WSEvent::Depth(DepthEvent {
        symbol: symbol.clone(),
        bids: vec![PriceLevel { price: 50000, quantity: 100 }],
        asks: vec![],
        timestamp: 1200, // 200ms later (outside throttle window)
        last_price: None,
    });

    let _ = aggregator.process(depth2);
    let kept = aggregator.latest_depth("SOL_USDC").unwrap();
    assert_eq!(kept.bids, vec![PriceLevel { price: 50000, quantity: 100 }]);
    assert_eq!(kept.timestamp, 1200);
}

#[test]
fn test_aggregator_order_update_passes_through() {
    let mut aggregator = Aggregator::new();

    let order_update = WSEvent::OrderUpdate(UserOrderUpdateEvent::Ack {
        order_id: 1,
        user_id: 100,
        symbol: "SOL_USDC".to_string(),
        timestamp: 1000,
    });

    let result = aggregator.process(order_update);
    assert_eq!(result.len(), 1);
    assert!(matches!(result[0], WSEvent::OrderUpdate(_)));
}

#[test]
fn test_aggregator_multiple_symbols() {
    let mut aggregator = Aggregator::new();

    // Trade for SOL_USDC
    let trade1 = WSEvent::Trade(TradeEvent {
        trade_id: 1,
        symbol: "SOL_USDC".to_string(),
        price: 50000,
        quantity: 10,
        timestamp: 1000,
    });

    // Trade for BTC/USD
    let trade2 = WSEvent::Trade(TradeEvent {
        trade_id: 2,
        symbol: "BTC/USD".to_string(),
        price: 60000,
        quantity: 5,
        timestamp: 2000,
    });

    let result1 = aggregator.process(trade1);
    let result2 = aggregator.process(trade2);

    // Both should produce tickers
    assert!(result1.iter().any(|e| matches!(e, WSEvent::Ticker(_))));
    assert!(result2.iter().any(|e| matches!(e, WSEvent::Ticker(_))));

    // Tickers should be for different symbols
    let ticker1 = ticker_in(&result1);
    let ticker2 = ticker_in(&result2);

    assert_eq!(ticker1.symbol, "SOL_USDC");
    assert_eq!(ticker2.symbol, "BTC/USD");
    assert_eq!(ticker1.last_price, 50000);
    assert_eq!(ticker2.last_price, 60000);
}

#[test]
fn ticker_rollup_across_three_trades() {
    let mut aggregator = Aggregator::new();
    let mut last = Vec::new();
    for (i, (price, qty)) in [(100u64, 10u64), (110, 5), (90, 20)].iter().enumerate() {
        last = aggregator.process_at(
            WSEvent::Trade(TradeEvent {
                trade_id: i as u64,
                symbol: "S".to_string(),
                price: *price,
                quantity: *qty,
                timestamp: 10 + i as i64,
            }),
            500 + i as i64,
        );
    }
    assert_eq!(last.len(), 2);
    assert_eq!(
        last[0],
        WSEvent::Trade(TradeEvent {
            trade_id: 2,
            symbol: "S".to_string(),
            price: 90,
            quantity: 20,
            timestamp: 12,
        })
    );
    assert_eq!(
        last[1],
        WSEvent::Ticker(TickerEvent {
            symbol: "S".to_string(),
            last_price: 90,
            open: 100,
            high: 110,
            low: 90,
            volume: 35,
            price_change: -10,
            price_change_bps: Some(-1000),
            timestamp: 502,
        })
    );
    let percent = -1000f64 / 100.0;
    assert!((percent - -10.0).abs() < 1e-9);
    assert_eq!(
        aggregator.ticker_state("S"),
        Some(TickerState {
            last_price: Some(90),
            open_24h: Some(100),
            high_24h: 110,
            low_24h: 90,
            volume_24h: 35,
            last_trade_time: 12,
        })
    );
    assert_eq!(aggregator.ticker_state("T"), None);
}

#[test]
fn ticker_change_rounds_toward_zero_and_survives_extremes() {
    let mut aggregator = Aggregator::new();
    let trade = |price: u64, qty: u64| {
        WSEvent::Trade(TradeEvent {
            trade_id: 0,
            symbol: "S".to_string(),
            price,
            quantity: qty,
            timestamp: 0,
        })
    };
    aggregator.process_at(trade(3, u64::MAX), 0);
    let t = ticker_in(&aggregator.process_at(trade(2, 5), 1));
    assert_eq!(t.price_change, -1);
    assert_eq!(t.price_change_bps, Some(-3333));
    assert_eq!(t.volume, u64::MAX);
    let t = ticker_in(&aggregator.process_at(trade(4, 5), 1));
    assert_eq!(t.price_change_bps, Some(3333));
    let t = ticker_in(&aggregator.process_at(trade(u64::MAX, 0), 1));
    assert_eq!(t.price_change, u64::MAX as i128 - 3);
    assert_eq!(t.price_change_bps, Some((u64::MAX as i128 - 3) * 10000 / 3));
    assert_eq!(t.high, u64::MAX);
    assert_eq!(t.low, 2);

    let mut zero = Aggregator::new();
    let t = ticker_in(&zero.process_at(trade(0, 1), 1));
    assert_eq!(t.open, 0);
    assert_eq!(t.price_change_bps, None);
    let t = ticker_in(&zero.process_at(trade(u64::MAX, 1), 1));
    assert_eq!(t.price_change, u64::MAX as i128);
    assert_eq!(t.price_change_bps, None);
}

#[test]
fn ticker_state_starts_empty() {
    let s = TickerState::new();
    assert_eq!(s.last_price, None);
    assert_eq!(s.open_24h, None);
    assert_eq!(s.high_24h, 0);
    assert_eq!(s.low_24h, u64::MAX);
    assert_eq!(s.volume_24h, 0);
    assert_eq!(s.last_trade_time, 0);
    let s = s.after_trade(7, 2, 9);
    assert_eq!(
        s,
        TickerState {
            last_price: Some(7),
            open_24h: Some(7),
            high_24h: 7,
            low_24h: 7,
            volume_24h: 2,
            last_trade_time: 9,
        }
    );
}

#[test]
fn ticker_is_built_only_for_a_traded_symbol() {
    let mut aggregator = Aggregator::new();
    let t = TradeEvent {
        trade_id: 0,
        symbol: "S".to_string(),
        price: 5,
        quantity: 1,
        timestamp: 3,
    };
    assert_eq!(aggregator.build_ticker_event(&t), None);
    assert_eq!(aggregator.ticker_event_at(&t, 5), None);
    aggregator.update_ticker_from_trade(&t);
    let e = aggregator.ticker_event_at(&t, 5).unwrap();
    assert_eq!(e.last_price, 5);
    assert_eq!(e.timestamp, 5);
    let e = aggregator.build_ticker_event(&t).unwrap();
    assert_eq!(e.open, 5);
    assert!(e.timestamp > 1_500_000_000_000);
}

fn depth(symbol: &str, ts: i64) -> WSEvent {
    WSEvent::Depth(DepthEvent {
        symbol: symbol.to_string(),
        bids: vec![PriceLevel { price: ts as u64, quantity: 1 }],
        asks: vec![],
        timestamp: ts,
        last_price: None,
    })
}

#[test]
fn depth_is_spaced_by_the_interval() {
    let mut aggregator = Aggregator::new();
    assert_eq!(aggregator.process_at(depth("S", 1), 99).len(), 0);
    let out = aggregator.process_at(depth("S", 2), 100);
    assert_eq!(out, vec![depth("S", 2)]);
    assert_eq!(aggregator.process_at(depth("S", 3), 110).len(), 0);
    assert_eq!(aggregator.process_at(depth("S", 4), 199).len(), 0);
    assert_eq!(aggregator.latest_depth("S").unwrap().timestamp, 4);
    // another symbol has its own clock
    assert_eq!(aggregator.process_at(depth("T", 5), 150), vec![depth("T", 5)]);
    assert_eq!(aggregator.process_at(depth("S", 6), 200), vec![depth("S", 6)]);
    assert_eq!(aggregator.process_at(depth("S", 7), 299).len(), 0);
    assert_eq!(aggregator.latest_depth("U"), None);
}

#[test]
fn depth_interval_is_configurable_and_safe_at_the_extremes() {
    let mut aggregator = Aggregator::with_depth_interval(10);
    assert_eq!(aggregator.process_at(depth("S", 1), 10).len(), 1);
    assert_eq!(aggregator.process_at(depth("S", 2), 19).len(), 0);
    assert_eq!(aggregator.process_at(depth("S", 3), 20).len(), 1);
    let mut aggregator = Aggregator::with_depth_interval(i64::MAX);
    assert_eq!(aggregator.process_at(depth("S", 1), i64::MIN).len(), 0);
    assert_eq!(aggregator.process_at(depth("S", 1), i64::MAX).len(), 1);
    assert_eq!(aggregator.process_at(depth("S", 1), i64::MIN).len(), 0);
}

#[test]
fn ticker_events_pass_through() {
    let mut aggregator = Aggregator::new();
    let ticker = WSEvent::Ticker(TickerEvent {
        symbol: "S".to_string(),
        last_price: 1,
        open: 1,
        high: 1,
        low: 1,
        volume: 1,
        price_change: 0,
        price_change_bps: Some(0),
        timestamp: 1,
    });
    assert_eq!(aggregator.process_at(ticker.clone(), 5), vec![ticker]);
}

// ========== Pipeline Tests ==========

#[test]
fn pipeline_hands_every_event_to_every_publisher_in_order() {
    let mock1 = MockPublisher::new();
    let mock2 = MockPublisher::new();
    let publishers: Vec<Box<dyn Publisher>> =
        vec![Box::new(mock1.clone()), Box::new(mock2.clone())];
    let mut pipeline = MarketDataPipeline::new(publishers);
    assert_eq!(pipeline.publisher_count(), 2);

    let out = pipeline.process_at(Event::Trade(sample_trade()), 1000);
    assert_eq!(out.len(), 2);
    assert!(matches!(out[0], WSEvent::Trade(_)));
    assert!(matches!(out[1], WSEvent::Ticker(_)));
    let out2 = pipeline.process_at(
        Event::OrderAck(OrderAck { order_id: 1, user_id: 100, symbol: "SOL_USDC".to_string() }),
        1001,
    );
    assert_eq!(out2.len(), 1);
    let out3 = pipeline.process_at(
        Event::BookUpdate(BookUpdate {
            symbol: "SOL_USDC".to_string(),
            bids: vec![],
            asks: vec![],
            last_price: Some(50000),
        }),
        1002,
    );
    assert_eq!(out3.len(), 1);
    let out4 = pipeline.process_at(
        Event::BookUpdate(BookUpdate {
            symbol: "SOL_USDC".to_string(),
            bids: vec![],
            asks: vec![],
            last_price: Some(50001),
        }),
        1012,
    );
    assert_eq!(out4.len(), 0);

    let mut expected = out.clone();
    expected.extend(out2);
    expected.extend(out3);
    assert_eq!(mock1.get_published(), expected);
    assert_eq!(mock2.get_published(), expected);
    assert_eq!(mock1.count(), 4);
}

#[test]
fn pipeline_processes_with_the_clock() {
    let mock = MockPublisher::new();
    let publishers: Vec<Box<dyn Publisher>> = vec![Box::new(mock.clone())];
    let mut pipeline = MarketDataPipeline::new(publishers);
    for i in 1..=5u64 {
        let mut trade = sample_trade();
        trade.trade_id = i;
        trade.price = 50000 + i;
        pipeline.process(Event::Trade(trade));
    }
    let published = mock.get_published();
    assert_eq!(published.len(), 10);
    assert!(published.iter().any(|e| matches!(e, WSEvent::Trade(_))));
    let t = ticker_in(&published[8..]);
    assert_eq!(t.open, 50001);
    assert_eq!(t.last_price, 50005);
    assert_eq!(t.volume, 250);
}

#[test]
fn memory_publisher_keeps_what_it_is_handed() {
    let mut sink = MemoryPublisher::new();
    assert_eq!(sink.count(), 0);
    let a = depth("S", 1);
    let b = depth("S", 2);
    let c = depth("T", 3);
    sink.publish(&a);
    sink.publish_batch(vec![b.clone(), c.clone()]);
    assert_eq!(sink.count(), 3);
    assert_eq!(sink.events(), &vec![a.clone(), b.clone(), c.clone()]);
    assert_eq!(sink.drain(), vec![a.clone(), b, c]);
    assert_eq!(sink.count(), 0);
    assert_eq!(copy_event(&a), a);
}

// ========== Types Tests ==========

#[test]
fn test_event_is_public() {
    let trade = WSEvent::Trade(TradeEvent {
        trade_id: 1,
        symbol: "SOL_USDC".to_string(),
        price: 50000,
        quantity: 10,
        timestamp: 1000,
    });
    assert!(trade.is_public(), "Trade should be public");

    let depth = WSEvent::Depth(DepthEvent {
        symbol: "SOL_USDC".to_string(),
        bids: vec![],
        asks: vec![],
        timestamp: 1000,
        last_price: None,
    });
    assert!(depth.is_public(), "Depth should be public");

    let ticker = WSEvent::Ticker(TickerEvent {
        symbol: "SOL_USDC".to_string(),
        last_price: 50000,
        open: 50000,
        high: 51000,
        low: 49000,
        volume: 100,
        price_change: 0,
        price_change_bps: Some(0),
        timestamp: 1000,
    });
    assert!(ticker.is_public(), "Ticker should be public");

    let order_update = WSEvent::OrderUpdate(UserOrderUpdateEvent::Ack {
        order_id: 1,
        user_id: 100,
        symbol: "SOL_USDC".to_string(),
        timestamp: 1000,
    });
    assert!(!order_update.is_public(), "OrderUpdate should be private");
}

#[test]
fn test_event_user_id() {
    let trade = WSEvent::Trade(TradeEvent {
        trade_id: 1,
        symbol: "SOL_USDC".to_string(),
        price: 50000,
        quantity: 10,
        timestamp: 1000,
    });
    assert_eq!(trade.user_id(), None, "Trade should not have user_id");

    let fill = WSEvent::OrderUpdate(UserOrderUpdateEvent::Fill {
        order_id: 1,
        user_id: 100,
        symbol: "SOL_USDC".to_string(),
        filled_quantity: 10,
        filled_price: 50000,
        remaining_quantity: 0,
        timestamp: 1000,
    });
    assert_eq!(fill.user_id(), Some(100), "Fill should have user_id");

    let ack = WSEvent::OrderUpdate(UserOrderUpdateEvent::Ack {
        order_id: 1,
        user_id: 200,
        symbol: "SOL_USDC".to_string(),
        timestamp: 1000,
    });
    assert_eq!(ack.user_id(), Some(200), "Ack should have user_id");

    let reject = WSEvent::OrderUpdate(UserOrderUpdateEvent::Reject {
        order_id: 1,
        user_id: 300,
        symbol: "SOL_USDC".to_string(),
        reason: "Invalid".to_string(),
        message: "Test".to_string(),
        timestamp: 1000,
    });
    assert_eq!(reject.user_id(), Some(300), "Reject should have user_id");

    let cancelled = WSEvent::OrderUpdate(UserOrderUpdateEvent::Cancelled {
        order_id: 1,
        user_id: 400,
        symbol: "SOL_USDC".to_string(),
        timestamp: 1000,
    });
    assert_eq!(cancelled.user_id(), Some(400), "Cancelled should have user_id");
}

#[test]
fn test_pipeline_processes_trade_event() {
    let mock_pub = MockPublisher::new();
    let publishers: Vec<Box<dyn Publisher>> = vec![Box::new(mock_pub.clone())];
    let mut pipeline = MarketDataPipeline::new(publishers);

    // Send a trade event
    let trade = Trade {
        trade_id: 1,
        maker_order_id: 10,
        maker_user_id: 100,
        taker_order_id: 20,
        taker_user_id: 200,
        symbol: "SOL_USDC".to_string(),
        quantity: 50,
        price: 50000,
        timestamp: 1234567890,
    };
    pipeline.process(Event::Trade(trade));

    // Check that events were published
    let published = mock_pub.get_published();
    assert!(!published.is_empty(), "Should have published events");
    assert!(
        published.iter().any(|e| matches!(e, WSEvent::Trade(_))),
        "Should have published trade event"
    );
}

#[test]
fn test_pipeline_processes_multiple_events() {
    let mock_pub = MockPublisher::new();
    let publishers: Vec<Box<dyn Publisher>> = vec![Box::new(mock_pub.clone())];
    let mut pipeline = MarketDataPipeline::new(publishers);

    // Send multiple events
    for i in 1..=5 {
        let trade = Trade {
            trade_id: i,
            maker_order_id: 10,
            maker_user_id: 100,
            taker_order_id: 20,
            taker_user_id: 200,
            symbol: "SOL_USDC".to_string(),
            quantity: 50,
            price: 50000 + i,
            timestamp: 1234567890i64 + i as i64,
        };
        pipeline.process(Event::Trade(trade));
    }

    let published = mock_pub.get_published();
    assert!(published.len() >= 5, "Should have published multiple events");
}

#[test]
fn test_pipeline_multiple_publishers() {
    let mock_pub1 = MockPublisher::new();
    let mock_pub2 = MockPublisher::new();
    let publishers: Vec<Box<dyn Publisher>> =
        vec![Box::new(mock_pub1.clone()), Box::new(mock_pub2.clone())];
    let mut pipeline = MarketDataPipeline::new(publishers);

    let trade = Trade {
        trade_id: 1,
        maker_order_id: 10,
        maker_user_id: 100,
        taker_order_id: 20,
        taker_user_id: 200,
        symbol: "SOL_USDC".to_string(),
        quantity: 50,
        price: 50000,
        timestamp: 1234567890,
    };
    pipeline.process(Event::Trade(trade));

    // Both publishers should have received events
    assert!(mock_pub1.count() > 0, "Publisher 1 should have events");
    assert!(mock_pub2.count() > 0, "Publisher 2 should have events");
}

#[test]
fn test_pipeline_handles_all_event_types() {
    let mock_pub = MockPublisher::new();
    let publishers: Vec<Box<dyn Publisher>> = vec![Box::new(mock_pub.clone())];
    let mut pipeline = MarketDataPipeline::new(publishers);

    // Send all event types
    pipeline.process(Event::Trade(Trade {
        trade_id: 1,
        maker_order_id: 10,
        maker_user_id: 100,
        taker_order_id: 20,
        taker_user_id: 200,
        symbol: "SOL_USDC".to_string(),
        quantity: 50,
        price: 50000,
        timestamp: 1234567890,
    }));

    pipeline.process(Event::Fill(Fill {
        order_id: 1,
        user_id: 100,
        symbol: "SOL_USDC".to_string(),
        side: Side::Buy,
        filled_quantity: 25,
        filled_price: 50000,
        remaining_quantity: 25,
    }));

    pipeline.process(Event::OrderAck(OrderAck {
        order_id: 1,
        user_id: 100,
        symbol: "SOL_USDC".to_string(),
    }));

    pipeline.process(Event::BookUpdate(BookUpdate {
        symbol: "SOL_USDC".to_string(),
        bids: vec![],
        asks: vec![],
        last_price: Some(50000),
    }));

    let published = mock_pub.get_published();
    assert!(!published.is_empty(), "Should have published events");
    assert_eq!(published.len(), 5);
}
