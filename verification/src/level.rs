//! A price level: the FIFO queue of resting orders at one price, together
//! with the aggregate unfilled quantity (`liquidity`) kept incrementally.

use vstd::prelude::*;

use crate::order::{Order, OrderSide, OrderStatus, OrderType};

verus! {

/// Mathematical view of a price level.
pub struct LevelView {
    pub price: u64,
    pub liquidity: int,
    pub orders: Seq<Order>,
}

/// The unfilled quantity aggregated over a queue of orders.
pub open spec fn sum_remaining(s: Seq<Order>) -> int
    decreases s.len(),
{
    if s.len() == 0 {
        0
    } else {
        s[0].remaining() + sum_remaining(s.drop_first())
    }
}

/// One price point of an order book side: all resting orders at `price`, in
/// arrival order, plus their aggregate unfilled quantity.
pub struct PriceLevel {
    pub price: u64,
    pub liquidity: u128,
    pub orders: Vec<Order>,
}

impl View for PriceLevel {
    type V = LevelView;

    open spec fn view(&self) -> LevelView {
        LevelView { price: self.price, liquidity: self.liquidity as int, orders: self.orders@ }
    }
}

impl LevelView {
    /// Every order at the level rests at the level's price, on the given
    /// side, as a pending limit order with something left to fill, and
    /// `liquidity` is exactly the aggregate unfilled quantity, kept positive.
    pub open spec fn wf(self, side: OrderSide) -> bool {
        &&& self.liquidity == sum_remaining(self.orders)
        &&& self.liquidity > 0
        &&& forall|i: int|
            0 <= i < self.orders.len() ==> {
                &&& (#[trigger] self.orders[i]).price == self.price
                &&& self.orders[i].side == side
                &&& self.orders[i].otype == OrderType::Limit
                &&& self.orders[i].status == OrderStatus::Pending
                &&& self.orders[i].filled < self.orders[i].quantity
            }
    }
}

/// Appending an order adds its unfilled quantity to the aggregate.
pub proof fn lemma_sum_remaining_push(s: Seq<Order>, o: Order)
    ensures
        sum_remaining(s.push(o)) == sum_remaining(s) + o.remaining(),
    decreases s.len(),
{
    assert(s.push(o)[0] == if s.len() == 0 { o } else { s[0] });
    if s.len() == 0 {
        assert(s.push(o).drop_first() =~= Seq::<Order>::empty());
        assert(sum_remaining(Seq::<Order>::empty()) == 0);
    } else {
        assert(s.push(o).drop_first() =~= s.drop_first().push(o));
        lemma_sum_remaining_push(s.drop_first(), o);
        assert(sum_remaining(s) == s[0].remaining() + sum_remaining(s.drop_first()));
        assert(sum_remaining(s.push(o)) == s[0].remaining() + sum_remaining(
            s.drop_first().push(o),
        ));
    }
}

/// The aggregate unfilled quantity of a queue of well-formed orders is
/// bounded by the queue length times the largest single order.
pub proof fn lemma_sum_remaining_bound(s: Seq<Order>)
    requires
        forall|i: int| 0 <= i < s.len() ==> (#[trigger] s[i]).filled <= s[i].quantity,
    ensures
        0 <= sum_remaining(s) <= s.len() * (u64::MAX as int),
    decreases s.len(),
{
    if s.len() == 0 {
    } else {
        lemma_sum_remaining_bound(s.drop_first());
        assert(0 <= s[0].remaining() <= u64::MAX as int);
        assert((s.len() - 1) * (u64::MAX as int) + (u64::MAX as int) == s.len() * (
        u64::MAX as int)) by (nonlinear_arith);
    }
}

impl PriceLevel {
    /// A fresh, empty level at `price`. It only becomes well-formed once the
    /// first order is pushed, since well-formedness demands liquidity.
    pub fn new(price: u64) -> (r: PriceLevel)
        ensures
            r@.price == price,
            r@.liquidity == 0,
            r@.orders =~= Seq::<Order>::empty(),
    {
        PriceLevel { price, liquidity: 0, orders: Vec::new() }
    }

    /// Appends `order` to the FIFO and grows `liquidity` by its unfilled
    /// quantity, without recomputing the aggregate from the queue.
    pub fn push_back(&mut self, order: Order)
        requires
            old(self)@.liquidity == sum_remaining(old(self)@.orders),
            forall|i: int|
                0 <= i < old(self)@.orders.len() ==> (#[trigger] old(self)@.orders[i]).filled <= old(
                self,
                )@.orders[i].quantity,
            order.filled <= order.quantity,
        ensures
            final(self)@.price == old(self)@.price,
            final(self)@.orders == old(self)@.orders.push(order),
            final(self)@.liquidity == old(self)@.liquidity + order.remaining(),
    {
        let n: usize = self.orders.len();
        proof {
            lemma_sum_remaining_bound(self@.orders);
            lemma_sum_remaining_push(self@.orders, order);
            assert(n * (u64::MAX as int) + (u64::MAX as int) < u128::MAX as int)
                by (nonlinear_arith)
                requires
                    n <= usize::MAX,
            ;
        }
        let rem: u64 = order.quantity - order.filled;
        self.liquidity = self.liquidity + rem as u128;
        self.orders.push(order);
    }

    /// The time-priority head of the level.
    pub fn peek_front(&self) -> (r: &Order)
        requires
            self@.orders.len() > 0,
        ensures
            *r == self@.orders[0],
    {
        &self.orders[0]
    }

    /// Removes and returns the time-priority head, shrinking `liquidity` by
    /// the head's unfilled quantity.
    pub fn pop_front(&mut self) -> (r: Order)
        requires
            old(self)@.orders.len() > 0,
            old(self)@.liquidity == sum_remaining(old(self)@.orders),
            forall|i: int|
                0 <= i < old(self)@.orders.len() ==> (#[trigger] old(self)@.orders[i]).filled <= old(
                self,
                )@.orders[i].quantity,
        ensures
            r == old(self)@.orders[0],
            final(self)@.price == old(self)@.price,
            final(self)@.orders == old(self)@.orders.drop_first(),
            final(self)@.liquidity == old(self)@.liquidity - r.remaining(),
    {
        proof {
            lemma_sum_remaining_bound(self@.orders.drop_first());
            assert(self@.orders[0].remaining() <= self@.liquidity);
        }
        let head = self.orders.remove(0);
        let rem: u64 = head.quantity - head.filled;
        self.liquidity = self.liquidity - rem as u128;
        proof {
            assert(old(self)@.orders.remove(0) =~= old(self)@.orders.drop_first());
        }
        head
    }

    /// Emptiness is an O(1) test on the aggregate.
    pub fn is_exhausted(&self) -> (r: bool)
        requires
            self@.liquidity == sum_remaining(self@.orders),
            forall|i: int|
                0 <= i < self@.orders.len() ==> (#[trigger] self@.orders[i]).filled
                    < self@.orders[i].quantity,
        ensures
            r <==> self@.orders.len() == 0,
    {
        proof {
            if self@.orders.len() > 0 {
                lemma_sum_remaining_bound(self@.orders.drop_first());
                assert(self@.orders[0].remaining() > 0);
            }
        }
        self.liquidity == 0
    }
}

} // verus!
