//! Orders and their enumerations.
//!
//! Prices and quantities are held as scaled integer units: a book created with
//! price precision `p` keeps every price as an integer count of `10^-p`, and
//! likewise for quantities. The request layer rounds incoming decimal strings
//! to the book's precisions before an order enters the book, and the book
//! never re-rounds.

use vstd::prelude::*;

verus! {

/// Side of an order relative to the book: a Buy rests among the bids, a Sell
/// among the asks.
#[derive(Clone, Copy, Debug, PartialEq, Eq, Structural)]
pub enum OrderSide {
    Buy,
    Sell,
}

/// Whether an order takes liquidity (Market) or rests in the book (Limit).
#[derive(Clone, Copy, Debug, PartialEq, Eq, Structural)]
pub enum OrderType {
    Market,
    Limit,
}

/// Lifecycle state of an order. Resting orders are always `Pending`; a market
/// order leaves the engine as `Fulfilled` (fully matched) or `Rejected`
/// (unmatched remainder), and a consumed resting order leaves as `Fulfilled`.
#[derive(Clone, Copy, Debug, PartialEq, Eq, Structural)]
pub enum OrderStatus {
    Pending,
    Fulfilled,
    Cancelled,
    Rejected,
}

/// An order. `quantity` is the original quantity and `filled` the cumulative
/// filled amount, both in quantity units; `price` is in price units.
#[derive(Clone, Copy, Debug, PartialEq, Eq, Structural)]
pub struct Order {
    pub id: i64,
    pub side: OrderSide,
    pub otype: OrderType,
    pub status: OrderStatus,
    pub price: u64,
    pub quantity: u64,
    pub filled: u64,
}

impl Order {
    /// The unfilled quantity of this order.
    pub open spec fn remaining(self) -> int {
        self.quantity - self.filled
    }

    /// A well-formed order never records more filled than its quantity.
    pub open spec fn wf(self) -> bool {
        self.filled <= self.quantity
    }

    /// The record a fully consumed resting order leaves the engine as.
    pub open spec fn fulfilled(self) -> Order {
        Order { status: OrderStatus::Fulfilled, filled: self.quantity, ..self }
    }
}

} // verus!
