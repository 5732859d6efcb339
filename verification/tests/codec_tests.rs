use portman_core::decimal::parse_units;
use portman_core::engine::{grpc_code, submit_order, new_order_book, EngineError, SubmitOutcome};
use portman_core::order::{Order, OrderSide, OrderStatus, OrderType};
use portman_core::publish::{encode_processed, status_label};
use portman_core::registry::Registry;
use portman_core::rpc::{Kind, NewOrderBookRequest, OrderInput, Side, Status, SubmitOrderRequest};
use portman_core::sink::{side_tag, trade_rows};

fn order(id: i64, side: OrderSide, status: OrderStatus, price: u64, qty: u64, filled: u64) -> Order {
    Order {
        id,
        side,
        otype: OrderType::Limit,
        status,
        price,
        quantity: qty,
        filled,
    }
}

#[test]
fn parse_units_scales_to_the_book_precision() {
    assert_eq!(parse_units("20050.4", 2), Some(2005040));
    assert_eq!(parse_units("1.004", 2), Some(100));
    assert_eq!(parse_units("1", 2), Some(100));
    assert_eq!(parse_units("0", 2), Some(0));
    assert_eq!(parse_units("0.25", 4), Some(2500));
    assert_eq!(parse_units("42", 0), Some(42));
}

#[test]
fn parse_units_rounds_half_to_even() {
    assert_eq!(parse_units("1.005", 2), Some(100));
    assert_eq!(parse_units("1.015", 2), Some(102));
    assert_eq!(parse_units("2.675", 2), Some(268));
    assert_eq!(parse_units("2.665", 2), Some(266));
}

#[test]
fn parse_units_rejects_bad_input() {
    assert_eq!(parse_units("", 2), None);
    assert_eq!(parse_units("abc", 2), None);
    assert_eq!(parse_units("-1", 2), None);
    assert_eq!(parse_units("1.2.3", 2), None);
    // beyond the unit type's capacity
    assert_eq!(parse_units("79228162514264337593543950335", 2), None);
}

#[test]
fn payload_encodes_ids_and_statuses() {
    let affected = vec![
        order(1, OrderSide::Sell, OrderStatus::Fulfilled, 10000, 200, 200),
        order(-5, OrderSide::Buy, OrderStatus::Rejected, 0, 300, 200),
    ];
    let payload = encode_processed(&affected);
    assert_eq!(
        payload,
        "[{\"id\":1,\"status\":\"FULFILLED\"},{\"id\":-5,\"status\":\"REJECTED\"}]"
    );
}

#[test]
fn payload_of_empty_batch_is_an_empty_list() {
    let affected: Vec<Order> = Vec::new();
    assert_eq!(encode_processed(&affected), "[]");
}

#[test]
fn status_labels() {
    assert_eq!(status_label(OrderStatus::Pending), "PENDING");
    assert_eq!(status_label(OrderStatus::Fulfilled), "FULFILLED");
    assert_eq!(status_label(OrderStatus::Cancelled), "CANCELLED");
    assert_eq!(status_label(OrderStatus::Rejected), "REJECTED");
}

#[test]
fn side_tags() {
    assert_eq!(side_tag(OrderSide::Buy), "buy");
    assert_eq!(side_tag(OrderSide::Sell), "sell");
}

#[test]
fn trade_rows_carry_one_row_per_affected_order() {
    let affected = vec![
        order(1, OrderSide::Sell, OrderStatus::Fulfilled, 10000, 200, 200),
        order(9, OrderSide::Buy, OrderStatus::Fulfilled, 0, 400, 400),
    ];
    let rows = trade_rows(&affected);
    assert_eq!(rows.len(), 2);
    assert_eq!(rows[0].executed_price, 10000);
    assert_eq!(rows[0].order.id, 1);
    assert_eq!(rows[1].executed_price, 0);
    assert_eq!(rows[1].order.id, 9);
}

#[test]
fn grpc_codes_follow_the_error_table() {
    assert_eq!(grpc_code(EngineError::InvalidArgument), 3);
    assert_eq!(grpc_code(EngineError::AlreadyExists), 6);
    // a missing book surfaces with the Internal code
    assert_eq!(grpc_code(EngineError::NotFound), 13);
    assert_eq!(grpc_code(EngineError::Internal), 13);
    assert_eq!(grpc_code(EngineError::Unavailable), 14);
}

#[test]
fn market_outcome_payload_matches_the_affected_orders() {
    let mut registry = Registry::new();
    new_order_book(
        &mut registry,
        &NewOrderBookRequest {
            symbol: String::from("BTC/USD"),
            price_precision: 2,
            quantity_precision: 2,
        },
    )
    .unwrap();
    let req = SubmitOrderRequest {
        symbol: String::from("BTC/USD"),
        order: Some(OrderInput {
            id: 7,
            side: Side::Buy,
            kind: Kind::Market,
            status: Status::Pending,
            price: String::from("0"),
            quantity: String::from("1"),
        }),
    };
    let outcome = submit_order(&mut registry, &req).unwrap();
    match outcome {
        SubmitOutcome::Matched { affected, rows, payload } => {
            assert_eq!(affected.len(), 1);
            assert_eq!(rows.len(), 1);
            assert_eq!(payload, "[{\"id\":7,\"status\":\"REJECTED\"}]");
        },
        _ => panic!("a market order must report its affected orders"),
    }
}

#[test]
fn wire_enum_decoding() {
    assert_eq!(Side::from_code(0), Side::Unspecified);
    assert_eq!(Side::from_code(1), Side::Buy);
    assert_eq!(Side::from_code(2), Side::Sell);
    assert_eq!(Side::from_code(99), Side::Unspecified);
    assert_eq!(Kind::from_code(1), Kind::Market);
    assert_eq!(Kind::from_code(2), Kind::Limit);
    assert_eq!(Kind::from_code(-1), Kind::Unspecified);
    assert_eq!(Status::from_code(1), Status::Pending);
    assert_eq!(Status::from_code(4), Status::Rejected);
    assert_eq!(Status::from_code(7), Status::Unspecified);
    assert_eq!(Side::Buy.concrete(), Some(OrderSide::Buy));
    assert_eq!(Side::Unspecified.concrete(), None);
    assert_eq!(Kind::Limit.concrete(), Some(OrderType::Limit));
}
