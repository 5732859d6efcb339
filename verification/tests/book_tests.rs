use portman_core::book::OrderBook;
use portman_core::level::PriceLevel;
use portman_core::order::{Order, OrderSide, OrderStatus, OrderType};
use portman_core::registry::Registry;

fn limit(id: i64, side: OrderSide, price: u64, qty: u64) -> Order {
    Order {
        id,
        side,
        otype: OrderType::Limit,
        status: OrderStatus::Pending,
        price,
        quantity: qty,
        filled: 0,
    }
}

fn market(id: i64, side: OrderSide, qty: u64) -> Order {
    Order {
        id,
        side,
        otype: OrderType::Market,
        status: OrderStatus::Pending,
        price: 0,
        quantity: qty,
        filled: 0,
    }
}

#[test]
fn limit_orders_group_by_price_in_order() {
    let mut book = OrderBook::new(2, 2);
    book.limit_order(limit(1, OrderSide::Sell, 10100, 100));
    book.limit_order(limit(2, OrderSide::Sell, 10000, 100));
    book.limit_order(limit(3, OrderSide::Sell, 10100, 50));
    // asks are kept lowest price first, arrivals queue up at their level
    assert_eq!(book.asks.len(), 2);
    assert_eq!(book.asks[0].price, 10000);
    assert_eq!(book.asks[1].price, 10100);
    assert_eq!(book.asks[1].orders.len(), 2);
    assert_eq!(book.asks[1].orders[0].id, 1);
    assert_eq!(book.asks[1].orders[1].id, 3);
    assert_eq!(book.asks[1].liquidity, 150);
}

#[test]
fn limit_orders_do_not_match() {
    let mut book = OrderBook::new(2, 2);
    book.limit_order(limit(1, OrderSide::Sell, 10000, 100));
    // an aggressive buy limit rests instead of crossing
    book.limit_order(limit(2, OrderSide::Buy, 10200, 100));
    assert_eq!(book.asks.len(), 1);
    assert_eq!(book.bids.len(), 1);
    assert_eq!(book.bids[0].orders[0].filled, 0);
}

#[test]
fn market_order_consumes_across_levels() {
    let mut book = OrderBook::new(2, 2);
    book.limit_order(limit(1, OrderSide::Sell, 10000, 100));
    book.limit_order(limit(2, OrderSide::Sell, 10100, 100));
    let affected = book.market_order(market(3, OrderSide::Buy, 150));
    assert_eq!(affected.len(), 2);
    assert_eq!(affected[0].id, 1);
    assert_eq!(affected[1].id, 3);
    assert_eq!(affected[1].filled, 150);
    assert!(matches!(affected[1].status, OrderStatus::Fulfilled));
    // the second level keeps a partially filled head
    assert_eq!(book.asks.len(), 1);
    assert_eq!(book.asks[0].price, 10100);
    assert_eq!(book.asks[0].orders[0].filled, 50);
    assert_eq!(book.asks[0].liquidity, 50);
}

#[test]
fn exact_match_removes_the_level() {
    let mut book = OrderBook::new(2, 2);
    book.limit_order(limit(1, OrderSide::Sell, 10000, 100));
    let affected = book.market_order(market(2, OrderSide::Buy, 100));
    assert_eq!(affected.len(), 2);
    assert!(matches!(affected[0].status, OrderStatus::Fulfilled));
    assert!(matches!(affected[1].status, OrderStatus::Fulfilled));
    assert_eq!(book.asks.len(), 0);
}

#[test]
fn price_level_tracks_liquidity_incrementally() {
    let mut level = PriceLevel::new(10000);
    level.push_back(limit(1, OrderSide::Sell, 10000, 100));
    level.push_back(limit(2, OrderSide::Sell, 10000, 50));
    assert_eq!(level.liquidity, 150);
    assert_eq!(level.peek_front().id, 1);
    let head = level.pop_front();
    assert_eq!(head.id, 1);
    assert_eq!(level.liquidity, 50);
    assert_eq!(level.orders.len(), 1);
}

#[test]
fn registry_lookup_finds_exact_symbols_only() {
    let mut registry = Registry::new();
    assert!(registry.create(String::from("BTC/USD"), 2, 2));
    assert!(registry.create(String::from("ETH/USD"), 3, 4));
    assert_eq!(registry.lookup(&String::from("BTC/USD")), Some(0));
    assert_eq!(registry.lookup(&String::from("ETH/USD")), Some(1));
    assert_eq!(registry.lookup(&String::from("btc/usd")), None);
    assert_eq!(registry.lookup(&String::from("BTC/USDT")), None);
    assert_eq!(registry.books[1].book.price_precision, 3);
    assert_eq!(registry.books[1].book.quantity_precision, 4);
}

#[test]
fn duplicate_create_leaves_the_registry_unchanged() {
    let mut registry = Registry::new();
    assert!(registry.create(String::from("BTC/USD"), 2, 2));
    assert!(!registry.create(String::from("BTC/USD"), 5, 5));
    assert_eq!(registry.books.len(), 1);
    assert_eq!(registry.books[0].book.price_precision, 2);
    assert_eq!(registry.books[0].book.quantity_precision, 2);
}
