//! The trade sink's computable half: turning the affected orders of a
//! market execution into rows for the `trades` time-series table. The
//! timestamp and the conversion of units to the store's column types happen
//! at the ingestion edge, outside the engine.

use vstd::prelude::*;

use crate::order::{Order, OrderSide};

verus! {

/// The side tag a row carries: `"buy"` or `"sell"`.
pub open spec fn spec_side_tag(side: OrderSide) -> Seq<char> {
    match side {
        OrderSide::Buy => "buy"@,
        OrderSide::Sell => "sell"@,
    }
}

/// The tag the `trades` table stores for a side.
pub fn side_tag(side: OrderSide) -> (r: &'static str)
    ensures
        r@ == spec_side_tag(side),
{
    match side {
        OrderSide::Buy => "buy",
        OrderSide::Sell => "sell",
    }
}

/// One trade record headed for the `trades` table: the affected order and
/// the price its fills executed at — the resting order's own price, and the
/// taker's quoted price for the taker record.
pub struct Trade {
    pub executed_price: u64,
    pub order: Order,
}

/// One row per affected order, in execution order.
pub fn trade_rows(affected: &Vec<Order>) -> (rows: Vec<Trade>)
    ensures
        rows@.len() == affected@.len(),
        forall|i: int|
            0 <= i < rows@.len() ==> #[trigger] rows@[i] == (Trade {
                executed_price: affected@[i].price,
                order: affected@[i],
            }),
{
    let mut rows: Vec<Trade> = Vec::new();
    let mut i: usize = 0;
    while i < affected.len()
        invariant
            i <= affected@.len(),
            rows@.len() == i,
            forall|j: int|
                0 <= j < i ==> #[trigger] rows@[j] == (Trade {
                    executed_price: affected@[j].price,
                    order: affected@[j],
                }),
        decreases affected@.len() - i,
    {
        let order = affected[i];
        rows.push(Trade { executed_price: order.price, order });
        i += 1;
    }
    rows
}

} // verus!