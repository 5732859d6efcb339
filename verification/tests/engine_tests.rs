use portman_core::engine::{new_order_book, submit_order, EngineError, SubmitOutcome};
use portman_core::order::OrderStatus;
use portman_core::registry::Registry;
use portman_core::rpc::{
    Kind, NewOrderBookRequest, OrderInput, RpcResult, Side, Status, SubmitOrderRequest,
};

fn book_req(symbol: &str, pp: u32, qp: u32) -> NewOrderBookRequest {
    NewOrderBookRequest {
        symbol: String::from(symbol),
        price_precision: pp,
        quantity_precision: qp,
    }
}

fn order_req(symbol: &str, id: i64, side: Side, kind: Kind, price: &str, qty: &str) -> SubmitOrderRequest {
    SubmitOrderRequest {
        symbol: String::from(symbol),
        order: Some(OrderInput {
            id,
            side,
            kind,
            status: Status::Pending,
            price: String::from(price),
            quantity: String::from(qty),
        }),
    }
}

#[test]
fn create_then_insert_single_limit() {
    let mut registry = Registry::new();
    let created = new_order_book(&mut registry, &book_req("BTC/USD", 2, 2)).unwrap();
    assert!(matches!(created.result, RpcResult::Success));

    let req = order_req("BTC/USD", 1, Side::Buy, Kind::Limit, "20050.4", "1.004");
    let outcome = submit_order(&mut registry, &req).unwrap();
    assert!(matches!(outcome, SubmitOutcome::Rested));

    let book = &registry.books[0].book;
    assert_eq!(book.bids.len(), 1);
    assert_eq!(book.asks.len(), 0);
    let level = &book.bids[0];
    // price 20050.40 at scale 2, quantity 1.004 rounded half-even to 1.00
    assert_eq!(level.price, 2005040);
    assert_eq!(level.liquidity, 100);
    assert_eq!(level.orders.len(), 1);
    assert_eq!(level.orders[0].id, 1);
    assert_eq!(level.orders[0].quantity, 100);
    assert_eq!(level.orders[0].filled, 0);
    assert!(matches!(level.orders[0].status, OrderStatus::Pending));
}

#[test]
fn duplicate_create() {
    let mut registry = Registry::new();
    new_order_book(&mut registry, &book_req("BTC/USD", 2, 2)).unwrap();
    let second = new_order_book(&mut registry, &book_req("BTC/USD", 2, 2));
    assert!(matches!(second, Err(EngineError::AlreadyExists)));
    assert_eq!(registry.books.len(), 1);
}

#[test]
fn market_fully_matched_from_one_level() {
    let mut registry = Registry::new();
    new_order_book(&mut registry, &book_req("BTC/USD", 2, 2)).unwrap();
    submit_order(&mut registry, &order_req("BTC/USD", 1, Side::Sell, Kind::Limit, "100", "2"))
        .unwrap();
    submit_order(&mut registry, &order_req("BTC/USD", 2, Side::Sell, Kind::Limit, "100", "3"))
        .unwrap();
    // the opposite side holds 5.00 before the match
    assert_eq!(registry.books[0].book.asks[0].liquidity, 500);

    let outcome = submit_order(
        &mut registry,
        &order_req("BTC/USD", 9, Side::Buy, Kind::Market, "0", "4"),
    )
    .unwrap();
    let affected = match outcome {
        SubmitOutcome::Matched { affected, .. } => affected,
        _ => panic!("a market order must report its affected orders"),
    };

    assert_eq!(affected.len(), 2);
    // maker A is fully consumed first
    assert_eq!(affected[0].id, 1);
    assert!(matches!(affected[0].status, OrderStatus::Fulfilled));
    assert_eq!(affected[0].filled, 200);
    assert_eq!(affected[0].quantity, 200);
    // the taker is fully matched
    assert_eq!(affected[1].id, 9);
    assert!(matches!(affected[1].status, OrderStatus::Fulfilled));
    assert_eq!(affected[1].filled, 400);

    let book = &registry.books[0].book;
    assert_eq!(book.asks.len(), 1);
    let level = &book.asks[0];
    assert_eq!(level.price, 10000);
    assert_eq!(level.orders.len(), 1);
    assert_eq!(level.orders[0].id, 2);
    assert_eq!(level.orders[0].filled, 200);
    // conservation: 5.00 - 4.00 leaves 1.00
    assert_eq!(level.liquidity, 100);
}

#[test]
fn market_crossing_multiple_levels_with_partial_remainder() {
    let mut registry = Registry::new();
    new_order_book(&mut registry, &book_req("BTC/USD", 2, 2)).unwrap();
    submit_order(&mut registry, &order_req("BTC/USD", 1, Side::Sell, Kind::Limit, "100", "1"))
        .unwrap();
    submit_order(&mut registry, &order_req("BTC/USD", 2, Side::Sell, Kind::Limit, "101", "1"))
        .unwrap();

    let outcome = submit_order(
        &mut registry,
        &order_req("BTC/USD", 3, Side::Buy, Kind::Market, "0", "3"),
    )
    .unwrap();
    let affected = match outcome {
        SubmitOutcome::Matched { affected, .. } => affected,
        _ => panic!("a market order must report its affected orders"),
    };

    assert_eq!(affected.len(), 3);
    // price priority: the cheaper ask is consumed first
    assert_eq!(affected[0].id, 1);
    assert_eq!(affected[0].price, 10000);
    assert!(matches!(affected[0].status, OrderStatus::Fulfilled));
    assert_eq!(affected[1].id, 2);
    assert_eq!(affected[1].price, 10100);
    assert!(matches!(affected[1].status, OrderStatus::Fulfilled));
    // the unmatched remainder leaves the taker rejected with a partial fill
    assert_eq!(affected[2].id, 3);
    assert!(matches!(affected[2].status, OrderStatus::Rejected));
    assert_eq!(affected[2].filled, 200);
    assert_eq!(affected[2].quantity, 300);

    assert_eq!(registry.books[0].book.asks.len(), 0);
    // the consumed makers' quantities account for the whole fill here,
    // since the match ends exactly at an order boundary
    let maker_total: u64 = affected[..affected.len() - 1].iter().map(|o| o.quantity).sum();
    assert_eq!(maker_total, affected[2].filled);
}

#[test]
fn market_against_empty_side() {
    let mut registry = Registry::new();
    new_order_book(&mut registry, &book_req("BTC/USD", 2, 2)).unwrap();
    let outcome = submit_order(
        &mut registry,
        &order_req("BTC/USD", 7, Side::Buy, Kind::Market, "0", "1"),
    )
    .unwrap();
    let affected = match outcome {
        SubmitOutcome::Matched { affected, .. } => affected,
        _ => panic!("a market order must report its affected orders"),
    };
    assert_eq!(affected.len(), 1);
    assert_eq!(affected[0].id, 7);
    assert!(matches!(affected[0].status, OrderStatus::Rejected));
    assert_eq!(affected[0].filled, 0);
    let book = &registry.books[0].book;
    assert_eq!(book.bids.len(), 0);
    assert_eq!(book.asks.len(), 0);
}

#[test]
fn zero_quantity() {
    let mut registry = Registry::new();
    new_order_book(&mut registry, &book_req("BTC/USD", 2, 2)).unwrap();
    let r = submit_order(
        &mut registry,
        &order_req("BTC/USD", 1, Side::Sell, Kind::Limit, "100", "0"),
    );
    assert!(matches!(r, Err(EngineError::InvalidArgument)));
    let book = &registry.books[0].book;
    assert_eq!(book.bids.len(), 0);
    assert_eq!(book.asks.len(), 0);
}

#[test]
fn unknown_symbol() {
    let mut registry = Registry::new();
    new_order_book(&mut registry, &book_req("BTC/USD", 2, 2)).unwrap();
    let r = submit_order(
        &mut registry,
        &order_req("ETH/USD", 1, Side::Buy, Kind::Limit, "100", "1"),
    );
    assert!(matches!(r, Err(EngineError::NotFound)));
    assert_eq!(registry.books.len(), 1);
    assert_eq!(registry.books[0].book.bids.len(), 0);
}

#[test]
fn missing_order_is_invalid() {
    let mut registry = Registry::new();
    new_order_book(&mut registry, &book_req("BTC/USD", 2, 2)).unwrap();
    let req = SubmitOrderRequest { symbol: String::from("BTC/USD"), order: None };
    assert!(matches!(submit_order(&mut registry, &req), Err(EngineError::InvalidArgument)));
}

#[test]
fn unspecified_enums_are_invalid() {
    let mut registry = Registry::new();
    new_order_book(&mut registry, &book_req("BTC/USD", 2, 2)).unwrap();
    let r = submit_order(
        &mut registry,
        &order_req("BTC/USD", 1, Side::Unspecified, Kind::Limit, "100", "1"),
    );
    assert!(matches!(r, Err(EngineError::InvalidArgument)));
    let r = submit_order(
        &mut registry,
        &order_req("BTC/USD", 1, Side::Buy, Kind::Unspecified, "100", "1"),
    );
    assert!(matches!(r, Err(EngineError::InvalidArgument)));
    let mut req = order_req("BTC/USD", 1, Side::Buy, Kind::Limit, "100", "1");
    if let Some(o) = req.order.as_mut() {
        o.status = Status::Unspecified;
    }
    assert!(matches!(submit_order(&mut registry, &req), Err(EngineError::InvalidArgument)));
}

#[test]
fn undecodable_decimals_are_invalid() {
    let mut registry = Registry::new();
    new_order_book(&mut registry, &book_req("BTC/USD", 2, 2)).unwrap();
    for (price, qty) in [("abc", "1"), ("100", "abc"), ("", "1"), ("100", "-1"), ("100", "1e3")] {
        let r = submit_order(
            &mut registry,
            &order_req("BTC/USD", 1, Side::Buy, Kind::Limit, price, qty),
        );
        assert!(matches!(r, Err(EngineError::InvalidArgument)), "price {price:?} qty {qty:?}");
    }
    assert_eq!(registry.books[0].book.bids.len(), 0);
}

#[test]
fn empty_symbol_or_out_of_scale_precision_is_invalid() {
    let mut registry = Registry::new();
    assert_eq!(
        new_order_book(&mut registry, &book_req("", 2, 2)),
        Err(EngineError::InvalidArgument)
    );
    assert_eq!(
        new_order_book(&mut registry, &book_req("BTC/USD", 29, 2)),
        Err(EngineError::InvalidArgument)
    );
    assert_eq!(
        new_order_book(&mut registry, &book_req("BTC/USD", 2, 29)),
        Err(EngineError::InvalidArgument)
    );
    assert_eq!(registry.books.len(), 0);
}

#[test]
fn sell_market_hits_best_bid_first() {
    let mut registry = Registry::new();
    new_order_book(&mut registry, &book_req("BTC/USD", 2, 2)).unwrap();
    submit_order(&mut registry, &order_req("BTC/USD", 1, Side::Buy, Kind::Limit, "99", "1"))
        .unwrap();
    submit_order(&mut registry, &order_req("BTC/USD", 2, Side::Buy, Kind::Limit, "101", "1"))
        .unwrap();
    // bids are kept highest first
    let book = &registry.books[0].book;
    assert_eq!(book.bids[0].price, 10100);
    assert_eq!(book.bids[1].price, 9900);

    let outcome = submit_order(
        &mut registry,
        &order_req("BTC/USD", 3, Side::Sell, Kind::Market, "0", "1"),
    )
    .unwrap();
    let affected = match outcome {
        SubmitOutcome::Matched { affected, .. } => affected,
        _ => panic!("a market order must report its affected orders"),
    };
    // the highest bid is consumed, the lower one remains
    assert_eq!(affected[0].id, 2);
    assert_eq!(affected[0].price, 10100);
    let book = &registry.books[0].book;
    assert_eq!(book.bids.len(), 1);
    assert_eq!(book.bids[0].price, 9900);
}

#[test]
fn time_priority_within_level() {
    let mut registry = Registry::new();
    new_order_book(&mut registry, &book_req("BTC/USD", 2, 2)).unwrap();
    for id in 1..=3i64 {
        submit_order(
            &mut registry,
            &order_req("BTC/USD", id, Side::Sell, Kind::Limit, "100", "1"),
        )
        .unwrap();
    }
    let outcome = submit_order(
        &mut registry,
        &order_req("BTC/USD", 9, Side::Buy, Kind::Market, "0", "2"),
    )
    .unwrap();
    let affected = match outcome {
        SubmitOutcome::Matched { affected, .. } => affected,
        _ => panic!("a market order must report its affected orders"),
    };
    // earliest arrivals are consumed first, in arrival order
    assert_eq!(affected[0].id, 1);
    assert_eq!(affected[1].id, 2);
    let book = &registry.books[0].book;
    assert_eq!(book.asks[0].orders.len(), 1);
    assert_eq!(book.asks[0].orders[0].id, 3);
}

#[test]
fn conservation_across_levels() {
    let mut registry = Registry::new();
    new_order_book(&mut registry, &book_req("BTC/USD", 2, 2)).unwrap();
    submit_order(&mut registry, &order_req("BTC/USD", 1, Side::Sell, Kind::Limit, "100", "1.50"))
        .unwrap();
    submit_order(&mut registry, &order_req("BTC/USD", 2, Side::Sell, Kind::Limit, "101", "2.25"))
        .unwrap();
    let before: u128 = registry.books[0].book.asks.iter().map(|l| l.liquidity).sum();
    let outcome = submit_order(
        &mut registry,
        &order_req("BTC/USD", 3, Side::Buy, Kind::Market, "0", "2"),
    )
    .unwrap();
    let affected = match outcome {
        SubmitOutcome::Matched { affected, .. } => affected,
        _ => panic!("a market order must report its affected orders"),
    };
    let after: u128 = registry.books[0].book.asks.iter().map(|l| l.liquidity).sum();
    let taker = affected.last().unwrap();
    assert_eq!(before - after, taker.filled as u128);
    assert_eq!(taker.filled, 200);
}

#[test]
fn book_stays_uncrossed() {
    let mut registry = Registry::new();
    new_order_book(&mut registry, &book_req("BTC/USD", 2, 2)).unwrap();
    submit_order(&mut registry, &order_req("BTC/USD", 1, Side::Buy, Kind::Limit, "99", "1"))
        .unwrap();
    submit_order(&mut registry, &order_req("BTC/USD", 2, Side::Sell, Kind::Limit, "101", "1"))
        .unwrap();
    submit_order(&mut registry, &order_req("BTC/USD", 3, Side::Buy, Kind::Limit, "100", "2"))
        .unwrap();
    submit_order(&mut registry, &order_req("BTC/USD", 4, Side::Sell, Kind::Limit, "100.5", "2"))
        .unwrap();
    submit_order(&mut registry, &order_req("BTC/USD", 5, Side::Buy, Kind::Market, "0", "1"))
        .unwrap();
    let book = &registry.books[0].book;
    assert!(book.bids[0].price < book.asks[0].price);
    assert_eq!(book.bids[0].price, 10000);
    assert_eq!(book.asks[0].price, 10050);
}
