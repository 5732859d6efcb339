//! The laws of the matching engine, proved against the book's mathematical
//! model: level-liquidity coherence, preservation of the uncrossed book,
//! terminal states of affected orders, fill accounting, time priority and
//! price priority, and conservation of liquidity.

use vstd::prelude::*;

use crate::book::{
    at_or_before, maker_on, match_level, match_side, resting_at, side_wf,
    spec_limit, spec_market, spec_market_taker, BookView,
};
use crate::level::{sum_remaining, LevelView};
use crate::order::{Order, OrderSide, OrderStatus};

verus! {

/// A book is uncrossed when the best bid is strictly below the best ask,
/// whenever both sides are non-empty.
pub open spec fn not_crossed(book: BookView) -> bool {
    book.bids.len() > 0 && book.asks.len() > 0 ==> book.bids[0].price < book.asks[0].price
}

/// An incoming limit order does not cross the opposite side's best price.
pub open spec fn does_not_cross(book: BookView, order: Order) -> bool {
    if order.side == OrderSide::Buy {
        book.asks.len() > 0 ==> order.price < book.asks[0].price
    } else {
        book.bids.len() > 0 ==> order.price > book.bids[0].price
    }
}

/// Every level of a well-formed book carries exactly the aggregate unfilled
/// quantity of its resting orders, and that aggregate is positive.
pub proof fn lemma_level_liquidity(book: BookView, level: LevelView)
    requires
        book.wf(),
        book.bids.contains(level) || book.asks.contains(level),
    ensures
        level.liquidity == sum_remaining(level.orders),
        level.liquidity > 0,
{
    if book.bids.contains(level) {
        let i = choose|i: int| 0 <= i < book.bids.len() && book.bids[i] == level;
        assert(book.bids[i].wf(OrderSide::Buy));
    } else {
        let i = choose|i: int| 0 <= i < book.asks.len() && book.asks[i] == level;
        assert(book.asks[i].wf(OrderSide::Sell));
    }
}

/// Resting a limit order that does not cross the spread leaves the book
/// uncrossed.
pub proof fn lemma_limit_preserves_uncrossed(book: BookView, order: Order)
    requires
        book.wf(),
        not_crossed(book),
        resting_at(order, order.price, order.side),
        does_not_cross(book, order),
    ensures
        not_crossed(spec_limit(book, order)),
{
    let after = spec_limit(book, order);
    if order.side == OrderSide::Buy {
        crate::book::lemma_spec_insert_wf(book.bids, order, OrderSide::Buy, true);
    } else {
        crate::book::lemma_spec_insert_wf(book.asks, order, OrderSide::Sell, false);
    }
}

/// A market order leaves the book uncrossed: it only consumes the opposite
/// side from its best price inward.
pub proof fn lemma_market_preserves_uncrossed(book: BookView, order: Order)
    requires
        book.wf(),
        not_crossed(book),
        order.quantity > 0,
    ensures
        not_crossed(spec_market(book, order).1),
{
    if order.side == OrderSide::Buy {
        crate::book::lemma_match_side_props(
            book.asks,
            order.quantity as int,
            OrderSide::Sell,
            false,
        );
    } else {
        crate::book::lemma_match_side_props(
            book.bids,
            order.quantity as int,
            OrderSide::Buy,
            true,
        );
    }
}

/// Every affected order leaves the engine in a terminal state: each consumed
/// maker is `Fulfilled` and fully filled; the taker comes last and is
/// `Fulfilled` exactly when fully filled, `Rejected` otherwise. (A rejected
/// taker is the one affected record whose `filled` stays below `quantity`.)
pub proof fn lemma_affected_terminal(book: BookView, order: Order)
    requires
        book.wf(),
        order.quantity > 0,
        order.filled == 0,
    ensures
        ({
            let a = spec_market(book, order).0;
            let opposite_side = if order.side == OrderSide::Buy {
                OrderSide::Sell
            } else {
                OrderSide::Buy
            };
            &&& a.len() >= 1
            &&& forall|i: int| 0 <= i < a.len() - 1 ==> maker_on(#[trigger] a[i], opposite_side)
            &&& forall|i: int|
                0 <= i < a.len() ==> ((#[trigger] a[i]).status == OrderStatus::Fulfilled
                    || a[i].status == OrderStatus::Rejected)
            &&& forall|i: int|
                0 <= i < a.len() && (#[trigger] a[i]).status == OrderStatus::Fulfilled ==> a[i].filled
                    == a[i].quantity
            &&& a.last().status == OrderStatus::Rejected ==> a.last().filled < a.last().quantity
        }),
{
    let opposite = if order.side == OrderSide::Buy {
        book.asks
    } else {
        book.bids
    };
    let opposite_side = if order.side == OrderSide::Buy {
        OrderSide::Sell
    } else {
        OrderSide::Buy
    };
    let descending = order.side != OrderSide::Buy;
    crate::book::lemma_match_side_props(opposite, order.quantity as int, opposite_side, descending);
    let m = match_side(opposite, order.quantity as int);
    let a = spec_market(book, order).0;
    assert(a.last() == spec_market_taker(order, order.quantity - m.2));
    assert(forall|i: int| 0 <= i < a.len() - 1 ==> #[trigger] a[i] == m.0[i]);
}

/// Conservation: a single market order removes from the opposite side's
/// total liquidity exactly what the taker reports as filled.
pub proof fn lemma_market_conservation(book: BookView, order: Order)
    requires
        book.wf(),
        order.quantity > 0,
        order.filled == 0,
    ensures
        ({
            let (a, after) = spec_market(book, order);
            let before_liq = if order.side == OrderSide::Buy {
                crate::book::total_liquidity(book.asks)
            } else {
                crate::book::total_liquidity(book.bids)
            };
            let after_liq = if order.side == OrderSide::Buy {
                crate::book::total_liquidity(after.asks)
            } else {
                crate::book::total_liquidity(after.bids)
            };
            before_liq - after_liq == a.last().filled
        }),
{
    let opposite = if order.side == OrderSide::Buy {
        book.asks
    } else {
        book.bids
    };
    let opposite_side = if order.side == OrderSide::Buy {
        OrderSide::Sell
    } else {
        OrderSide::Buy
    };
    let descending = order.side != OrderSide::Buy;
    crate::book::lemma_match_side_props(opposite, order.quantity as int, opposite_side, descending);
}

/// Price priority: a Buy market order consumes makers at ascending prices,
/// a Sell market order at descending prices, and never at a price served
/// after what remains on the opposite side.
pub proof fn lemma_price_priority(book: BookView, order: Order)
    requires
        book.wf(),
        order.quantity > 0,
        order.filled == 0,
    ensures
        ({
            let (a, after) = spec_market(book, order);
            let remaining = if order.side == OrderSide::Buy {
                after.asks
            } else {
                after.bids
            };
            &&& forall|i: int, j: int|
                0 <= i < j < a.len() - 1 && order.side == OrderSide::Buy ==> (#[trigger] a[i]).price
                    <= (#[trigger] a[j]).price
            &&& forall|i: int, j: int|
                0 <= i < j < a.len() - 1 && order.side == OrderSide::Sell ==> (#[trigger] a[i]).price
                    >= (#[trigger] a[j]).price
            &&& remaining.len() > 0 ==> forall|i: int|
                0 <= i < a.len() - 1 ==> at_or_before(
                    (#[trigger] a[i]).price,
                    remaining[0].price,
                    order.side != OrderSide::Buy,
                )
        }),
{
    let opposite = if order.side == OrderSide::Buy {
        book.asks
    } else {
        book.bids
    };
    let opposite_side = if order.side == OrderSide::Buy {
        OrderSide::Sell
    } else {
        OrderSide::Buy
    };
    let descending = order.side != OrderSide::Buy;
    crate::book::lemma_match_side_props(opposite, order.quantity as int, opposite_side, descending);
    let m = match_side(opposite, order.quantity as int);
    let a = spec_market(book, order).0;
    assert(forall|i: int| 0 <= i < a.len() - 1 ==> #[trigger] a[i] == m.0[i]);
}

/// Matching consumes each level's queue from the front: the consumed makers
/// are exactly a prefix of the queue in arrival order, and what rests is the
/// remaining suffix, the new head possibly partially filled.
pub proof fn lemma_match_level_structure(orders: Seq<Order>, rem: int, price: u64, side: OrderSide)
    requires
        rem >= 0,
        forall|i: int| 0 <= i < orders.len() ==> resting_at(#[trigger] orders[i], price, side),
    ensures
        ({
            let m = match_level(orders, rem);
            &&& m.0.len() + m.1.len() == orders.len()
            &&& forall|i: int|
                0 <= i < m.0.len() ==> #[trigger] m.0[i] == orders[i].fulfilled()
            &&& forall|i: int|
                1 <= i < m.1.len() ==> #[trigger] m.1[i] == orders[m.0.len() + i]
            &&& m.1.len() > 0 ==> {
                let head = orders[m.0.len() as int];
                let cur = m.1[0];
                cur.id == head.id && cur.price == head.price && cur.quantity == head.quantity
                    && cur.filled >= head.filled
            }
        }),
    decreases orders.len(),
{
    crate::book::lemma_match_level_props(orders, rem, price, side);
    let m = match_level(orders, rem);
    if rem <= 0 || orders.len() == 0 {
    } else {
        let head = orders[0];
        let hr = head.remaining();
        let tail = orders.drop_first();
        assert(forall|i: int| 0 <= i < tail.len() ==> #[trigger] tail[i] == orders[i + 1]);
        if rem >= hr {
            lemma_match_level_structure(tail, rem - hr, price, side);
            let r = match_level(tail, rem - hr);
            assert(forall|i: int| 1 <= i < m.0.len() ==> #[trigger] m.0[i] == r.0[i - 1]);
            assert(m.0[0] == head.fulfilled());
        } else {
            let upd = orders.update(0, crate::book::partial_fill(head, rem));
            assert(forall|i: int| 1 <= i < upd.len() ==> #[trigger] upd[i] == orders[i]);
        }
    }
}

/// Time priority: when a market order consumes an order, it has consumed
/// every order that arrived earlier at the same level, and the affected
/// records preserve arrival order.
pub proof fn lemma_time_priority(
    orders: Seq<Order>,
    rem: int,
    price: u64,
    side: OrderSide,
    i: int,
    j: int,
)
    requires
        rem >= 0,
        forall|k: int| 0 <= k < orders.len() ==> resting_at(#[trigger] orders[k], price, side),
        0 <= i < j < orders.len(),
        // the later order was fully consumed
        j < match_level(orders, rem).0.len(),
    ensures
        ({
            let m = match_level(orders, rem);
            &&& i < m.0.len()
            &&& m.0[i] == orders[i].fulfilled()
            &&& m.0[j] == orders[j].fulfilled()
        }),
{
    lemma_match_level_structure(orders, rem, price, side);
}

/// Resting a valid limit order keeps the whole book well formed.
pub proof fn lemma_limit_wf(book: BookView, order: Order)
    requires
        book.wf(),
        resting_at(order, order.price, order.side),
    ensures
        spec_limit(book, order).wf(),
{
    if order.side == OrderSide::Buy {
        crate::book::lemma_spec_insert_wf(book.bids, order, OrderSide::Buy, true);
    } else {
        crate::book::lemma_spec_insert_wf(book.asks, order, OrderSide::Sell, false);
    }
}

/// Executing a market order keeps the whole book well formed.
pub proof fn lemma_market_wf(book: BookView, order: Order)
    requires
        book.wf(),
        order.quantity > 0,
    ensures
        spec_market(book, order).1.wf(),
{
    if order.side == OrderSide::Buy {
        crate::book::lemma_match_side_props(
            book.asks,
            order.quantity as int,
            OrderSide::Sell,
            false,
        );
    } else {
        crate::book::lemma_match_side_props(
            book.bids,
            order.quantity as int,
            OrderSide::Buy,
            true,
        );
    }
}

/// One submission: a limit order to rest or a market order to match.
#[derive(Clone, Copy, Debug, PartialEq, Eq, Structural)]
pub enum Submission {
    Limit(Order),
    Market(Order),
}

/// The book a submission leaves behind.
pub open spec fn apply_submission(book: BookView, s: Submission) -> BookView {
    match s {
        Submission::Limit(o) => spec_limit(book, o),
        Submission::Market(o) => spec_market(book, o).1,
    }
}

/// The book after a whole sequence of submissions, in order.
pub open spec fn apply_all(book: BookView, ss: Seq<Submission>) -> BookView
    decreases ss.len(),
{
    if ss.len() == 0 {
        book
    } else {
        apply_all(apply_submission(book, ss[0]), ss.drop_first())
    }
}

/// Every submission in the sequence is an admissible engine order, and no
/// limit order crosses the book it meets.
pub open spec fn admissible_noncrossing(book: BookView, ss: Seq<Submission>) -> bool
    decreases ss.len(),
{
    if ss.len() == 0 {
        true
    } else {
        let ok = match ss[0] {
            Submission::Limit(o) => resting_at(o, o.price, o.side) && does_not_cross(book, o),
            Submission::Market(o) => o.quantity > 0 && o.filled == 0,
        };
        ok && admissible_noncrossing(apply_submission(book, ss[0]), ss.drop_first())
    }
}

/// After any sequence of submissions whose limit orders do not cross the
/// book they meet, the book stays well formed and uncrossed: the best bid
/// stays strictly below the best ask whenever both sides are non-empty.
pub proof fn lemma_uncrossed_after_any_sequence(book: BookView, ss: Seq<Submission>)
    requires
        book.wf(),
        not_crossed(book),
        admissible_noncrossing(book, ss),
    ensures
        apply_all(book, ss).wf(),
        not_crossed(apply_all(book, ss)),
    decreases ss.len(),
{
    if ss.len() > 0 {
        let next = apply_submission(book, ss[0]);
        match ss[0] {
            Submission::Limit(o) => {
                lemma_limit_wf(book, o);
                lemma_limit_preserves_uncrossed(book, o);
            },
            Submission::Market(o) => {
                lemma_market_wf(book, o);
                lemma_market_preserves_uncrossed(book, o);
            },
        }
        lemma_uncrossed_after_any_sequence(next, ss.drop_first());
    }
}

/// The total original quantity of a batch of orders.
pub open spec fn sum_quantity(s: Seq<Order>) -> int
    decreases s.len(),
{
    if s.len() == 0 {
        0
    } else {
        s[0].quantity + sum_quantity(s.drop_first())
    }
}

proof fn lemma_sum_quantity_concat(a: Seq<Order>, b: Seq<Order>)
    ensures
        sum_quantity(a + b) == sum_quantity(a) + sum_quantity(b),
    decreases a.len(),
{
    if a.len() == 0 {
        assert(a + b =~= b);
    } else {
        assert((a + b)[0] == a[0]);
        assert((a + b).drop_first() =~= a.drop_first() + b);
        lemma_sum_quantity_concat(a.drop_first(), b);
    }
}

/// Whether every order resting on the side is still unfilled.
pub open spec fn side_unfilled(levels: Seq<LevelView>) -> bool {
    forall|i: int, j: int|
        0 <= i < levels.len() && 0 <= j < (#[trigger] levels[i]).orders.len() ==> (
        #[trigger] levels[i].orders[j]).filled == 0
}

/// Fill accounting for one level of unfilled orders: the quantity consumed
/// is the total quantity of the fully consumed makers plus whatever was
/// partially filled into the new head.
proof fn lemma_match_level_accounting(orders: Seq<Order>, rem: int, price: u64, side: OrderSide)
    requires
        rem >= 0,
        forall|i: int| 0 <= i < orders.len() ==> resting_at(#[trigger] orders[i], price, side),
        forall|i: int| 0 <= i < orders.len() ==> (#[trigger] orders[i]).filled == 0,
    ensures
        ({
            let m = match_level(orders, rem);
            &&& rem - m.2 == sum_quantity(m.0) + (if m.1.len() > 0 {
                m.1[0].filled as int
            } else {
                0
            })
            &&& forall|i: int| 1 <= i < m.1.len() ==> (#[trigger] m.1[i]).filled == 0
        }),
    decreases orders.len(),
{
    crate::book::lemma_match_level_props(orders, rem, price, side);
    let m = match_level(orders, rem);
    if rem <= 0 || orders.len() == 0 {
    } else {
        let head = orders[0];
        let hr = head.remaining();
        let tail = orders.drop_first();
        assert(forall|i: int| 0 <= i < tail.len() ==> #[trigger] tail[i] == orders[i + 1]);
        if rem >= hr {
            lemma_match_level_accounting(tail, rem - hr, price, side);
            let r = match_level(tail, rem - hr);
            lemma_sum_quantity_concat(seq![head.fulfilled()], r.0);
            assert(sum_quantity(seq![head.fulfilled()]) == head.quantity) by {
                assert(seq![head.fulfilled()][0] == head.fulfilled());
                assert(seq![head.fulfilled()].drop_first() =~= Seq::<Order>::empty());
                assert(sum_quantity(Seq::<Order>::empty()) == 0);
            }
        } else {
            let upd = orders.update(0, crate::book::partial_fill(head, rem));
            assert(forall|i: int| 1 <= i < upd.len() ==> #[trigger] upd[i] == orders[i]);
            assert(sum_quantity(m.0) == 0);
        }
    }
}

/// Fill accounting for a whole side of unfilled orders.
proof fn lemma_match_side_accounting(
    levels: Seq<LevelView>,
    rem: int,
    side: OrderSide,
    descending: bool,
)
    requires
        rem >= 0,
        side_wf(levels, side, descending),
        side_unfilled(levels),
    ensures
        ({
            let m = match_side(levels, rem);
            &&& rem - m.2 == sum_quantity(m.0) + (if m.1.len() > 0 && m.1[0].orders.len() > 0 {
                m.1[0].orders[0].filled as int
            } else {
                0
            })
            &&& forall|i: int, j: int|
                0 <= i < m.1.len() && 0 <= j < (#[trigger] m.1[i]).orders.len() && !(i == 0 && j
                    == 0) ==> (#[trigger] m.1[i].orders[j]).filled == 0
        }),
    decreases levels.len(),
{
    crate::book::lemma_match_side_props(levels, rem, side, descending);
    let m = match_side(levels, rem);
    if rem <= 0 || levels.len() == 0 {
        if m.1.len() > 0 && m.1[0].orders.len() > 0 {
            assert(levels[0].orders[0].filled == 0);
        }
    } else {
        let l0 = levels[0];
        assert(l0.wf(side));
        assert(forall|j: int| 0 <= j < l0.orders.len() ==> (#[trigger] l0.orders[j]).filled == 0);
        crate::book::lemma_match_level_props(l0.orders, rem, l0.price, side);
        lemma_match_level_accounting(l0.orders, rem, l0.price, side);
        let r = match_level(l0.orders, rem);
        let tail = levels.drop_first();
        assert(forall|i: int| 0 <= i < tail.len() ==> #[trigger] tail[i] == levels[i + 1]);
        assert(side_wf(tail, side, descending));
        assert(side_unfilled(tail));
        if r.2 == 0 && r.1.len() > 0 {
            let out = m.1;
            assert(out[0].orders == r.1);
            assert(forall|i: int| 1 <= i < out.len() ==> #[trigger] out[i] == tail[i - 1]);
        } else {
            lemma_match_side_accounting(tail, r.2, side, descending);
            let rest = match_side(tail, r.2);
            lemma_sum_quantity_concat(r.0, rest.0);
            assert(r.1.len() == 0);
        }
    }
}

/// Fill accounting for a market order against a book of unfilled resting
/// orders: what the taker reports as filled is the total quantity of the
/// fulfilled makers in `affected`, plus whatever went into a maker left
/// partially filled at the front of the opposite side.
pub proof fn lemma_market_fill_accounting(book: BookView, order: Order)
    requires
        book.wf(),
        order.quantity > 0,
        order.filled == 0,
        side_unfilled(book.bids),
        side_unfilled(book.asks),
    ensures
        ({
            let (a, after) = spec_market(book, order);
            let remaining = if order.side == OrderSide::Buy {
                after.asks
            } else {
                after.bids
            };
            a.last().filled == sum_quantity(a.drop_last()) + (if remaining.len() > 0
                && remaining[0].orders.len() > 0 {
                remaining[0].orders[0].filled as int
            } else {
                0
            })
        }),
{
    let opposite = if order.side == OrderSide::Buy {
        book.asks
    } else {
        book.bids
    };
    let opposite_side = if order.side == OrderSide::Buy {
        OrderSide::Sell
    } else {
        OrderSide::Buy
    };
    let descending = order.side != OrderSide::Buy;
    crate::book::lemma_match_side_props(opposite, order.quantity as int, opposite_side, descending);
    lemma_match_side_accounting(opposite, order.quantity as int, opposite_side, descending);
    let m = match_side(opposite, order.quantity as int);
    let a = spec_market(book, order).0;
    assert(a.drop_last() =~= m.0);
}

/// The quantities of the fulfilled makers in `affected` add up to exactly
/// the taker's fill, for a market order against unfilled resting orders
/// whose match ends at an order boundary (no maker is left partially
/// filled).
pub proof fn lemma_market_maker_quantities(book: BookView, order: Order)
    requires
        book.wf(),
        order.quantity > 0,
        order.filled == 0,
        side_unfilled(book.bids),
        side_unfilled(book.asks),
        ({
            // the match ends at an order boundary
            let (a, after) = spec_market(book, order);
            let remaining = if order.side == OrderSide::Buy {
                after.asks
            } else {
                after.bids
            };
            remaining.len() > 0 && remaining[0].orders.len() > 0 ==> remaining[0].orders[0].filled
                == 0
        }),
    ensures
        ({
            let a = spec_market(book, order).0;
            sum_quantity(a.drop_last()) == a.last().filled
        }),
{
    lemma_market_fill_accounting(book, order);
}

} // verus!