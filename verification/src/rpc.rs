//! The RPC boundary's data shapes. Each enumeration carries the sentinel
//! `Unspecified` used only on the wire; the engine only ever works with the
//! concrete internal variants, and rejects a request whose enumerations are
//! not concrete.

use vstd::prelude::*;

use crate::order::{OrderSide, OrderType};

verus! {

/// Wire-side order side: 0 unspecified, 1 buy, 2 sell.
#[derive(Clone, Copy, Debug, PartialEq, Eq, Structural)]
pub enum Side {
    Unspecified,
    Buy,
    Sell,
}

/// Wire-side order type: 0 unspecified, 1 market, 2 limit.
#[derive(Clone, Copy, Debug, PartialEq, Eq, Structural)]
pub enum Kind {
    Unspecified,
    Market,
    Limit,
}

/// Wire-side order status: 0 unspecified, then the four concrete states.
#[derive(Clone, Copy, Debug, PartialEq, Eq, Structural)]
pub enum Status {
    Unspecified,
    Pending,
    Fulfilled,
    Cancelled,
    Rejected,
}

/// The concrete side a wire value denotes, if any.
pub open spec fn spec_side_concrete(s: Side) -> Option<OrderSide> {
    match s {
        Side::Unspecified => None,
        Side::Buy => Some(OrderSide::Buy),
        Side::Sell => Some(OrderSide::Sell),
    }
}

/// The concrete order type a wire value denotes, if any.
pub open spec fn spec_kind_concrete(k: Kind) -> Option<OrderType> {
    match k {
        Kind::Unspecified => None,
        Kind::Market => Some(OrderType::Market),
        Kind::Limit => Some(OrderType::Limit),
    }
}

impl Side {
    /// Decodes the wire integer: 0 unspecified, 1 buy, 2 sell; any other
    /// value is treated as unspecified and rejected downstream.
    pub fn from_code(v: i32) -> (r: Side)
        ensures
            r == (if v == 1 {
                Side::Buy
            } else if v == 2 {
                Side::Sell
            } else {
                Side::Unspecified
            }),
    {
        match v {
            1 => Side::Buy,
            2 => Side::Sell,
            _ => Side::Unspecified,
        }
    }

    /// The concrete side, or `None` for the sentinel.
    pub fn concrete(self) -> (r: Option<OrderSide>)
        ensures
            r == spec_side_concrete(self),
    {
        match self {
            Side::Unspecified => None,
            Side::Buy => Some(OrderSide::Buy),
            Side::Sell => Some(OrderSide::Sell),
        }
    }
}

impl Kind {
    /// Decodes the wire integer: 0 unspecified, 1 market, 2 limit.
    pub fn from_code(v: i32) -> (r: Kind)
        ensures
            r == (if v == 1 {
                Kind::Market
            } else if v == 2 {
                Kind::Limit
            } else {
                Kind::Unspecified
            }),
    {
        match v {
            1 => Kind::Market,
            2 => Kind::Limit,
            _ => Kind::Unspecified,
        }
    }

    /// The concrete order type, or `None` for the sentinel.
    pub fn concrete(self) -> (r: Option<OrderType>)
        ensures
            r == spec_kind_concrete(self),
    {
        match self {
            Kind::Unspecified => None,
            Kind::Market => Some(OrderType::Market),
            Kind::Limit => Some(OrderType::Limit),
        }
    }
}

impl Status {
    /// Decodes the wire integer: 0 unspecified, then pending, fulfilled,
    /// cancelled, rejected.
    pub fn from_code(v: i32) -> (r: Status)
        ensures
            r == (if v == 1 {
                Status::Pending
            } else if v == 2 {
                Status::Fulfilled
            } else if v == 3 {
                Status::Cancelled
            } else if v == 4 {
                Status::Rejected
            } else {
                Status::Unspecified
            }),
    {
        match v {
            1 => Status::Pending,
            2 => Status::Fulfilled,
            3 => Status::Cancelled,
            4 => Status::Rejected,
            _ => Status::Unspecified,
        }
    }
}

/// An order as it arrives over the wire: enumerations still carrying their
/// sentinels, price and quantity as decimal strings.
pub struct OrderInput {
    pub id: i64,
    pub side: Side,
    pub kind: Kind,
    pub status: Status,
    pub price: String,
    pub quantity: String,
}

/// Request to create a fresh order book for a symbol.
pub struct NewOrderBookRequest {
    pub symbol: String,
    pub price_precision: u32,
    pub quantity_precision: u32,
}

/// Request to submit one order for a symbol.
pub struct SubmitOrderRequest {
    pub symbol: String,
    pub order: Option<OrderInput>,
}

/// Wire-side result: 0 unspecified, 1 success.
#[derive(Clone, Copy, Debug, PartialEq, Eq, Structural)]
pub enum RpcResult {
    Unspecified,
    Success,
}

/// Response to a `NewOrderBook` request.
#[derive(Clone, Copy, Debug, PartialEq, Eq, Structural)]
pub struct NewOrderBookResponse {
    pub result: RpcResult,
}

/// Response to a `SubmitOrder` request.
#[derive(Clone, Copy, Debug, PartialEq, Eq, Structural)]
pub struct SubmitOrderResponse {
    pub result: RpcResult,
}

} // verus!