//! The per-symbol matching engine: two price-ordered sides of resting limit
//! orders, a pure-insertion limit entry point, and a market entry point that
//! consumes the opposite side in price-time priority.
//!
//! The behaviour of both entry points is stated against a recursive
//! mathematical model (`spec_insert`, `match_level`, `match_side`) over the
//! views of the sides; the laws about matching are proved from that model.

use vstd::prelude::*;

use crate::level::{sum_remaining, LevelView, PriceLevel};
use crate::order::{Order, OrderSide, OrderStatus, OrderType};

verus! {

/// The largest decimal scale a book precision may carry.
pub const MAX_PRECISION: u32 = 28;

/// The views of a side's levels, best price first.
pub open spec fn level_views(s: Seq<PriceLevel>) -> Seq<LevelView> {
    s.map_values(|l: PriceLevel| l@)
}

/// Whether price `a` is served before price `b` on a side. Bids are kept in
/// descending order (highest first), asks in ascending order (lowest first).
pub open spec fn comes_before(a: u64, b: u64, descending: bool) -> bool {
    if descending {
        a > b
    } else {
        a < b
    }
}

/// A side is well formed when every level is, and the levels are strictly
/// ordered best price first.
pub open spec fn side_wf(levels: Seq<LevelView>, side: OrderSide, descending: bool) -> bool {
    &&& forall|i: int| 0 <= i < levels.len() ==> (#[trigger] levels[i]).wf(side)
    &&& forall|i: int, j: int|
        0 <= i < j < levels.len() ==> comes_before(
            (#[trigger] levels[i]).price,
            (#[trigger] levels[j]).price,
            descending,
        )
}

/// Total unfilled quantity resting on a side.
pub open spec fn total_liquidity(levels: Seq<LevelView>) -> int
    decreases levels.len(),
{
    if levels.len() == 0 {
        0
    } else {
        levels[0].liquidity + total_liquidity(levels.drop_first())
    }
}

/// A resting order after an incoming fill of `d` against it.
pub open spec fn partial_fill(o: Order, d: int) -> Order {
    Order { filled: (o.filled + d) as u64, ..o }
}

/// Matching an incoming quantity `rem` against one level's FIFO queue:
/// returns the fully consumed orders in their terminal records, the orders
/// still resting (the head possibly partially filled), and the quantity left.
pub open spec fn match_level(orders: Seq<Order>, rem: int) -> (Seq<Order>, Seq<Order>, int)
    decreases orders.len(),
{
    if rem <= 0 || orders.len() == 0 {
        (Seq::empty(), orders, rem)
    } else {
        let head = orders[0];
        let hr = head.remaining();
        if rem >= hr {
            let r = match_level(orders.drop_first(), rem - hr);
            (seq![head.fulfilled()] + r.0, r.1, r.2)
        } else {
            (Seq::empty(), orders.update(0, partial_fill(head, rem)), 0)
        }
    }
}

/// Matching an incoming quantity against a side, best level first: returns
/// the consumed orders in consumption order, the levels that remain (emptied
/// levels removed, the front level possibly trimmed), and the quantity left.
pub open spec fn match_side(levels: Seq<LevelView>, rem: int) -> (Seq<Order>, Seq<LevelView>, int)
    decreases levels.len(),
{
    if rem <= 0 || levels.len() == 0 {
        (Seq::empty(), levels, rem)
    } else {
        let l0 = levels[0];
        let r = match_level(l0.orders, rem);
        if r.2 == 0 && r.1.len() > 0 {
            let trimmed = LevelView {
                price: l0.price,
                liquidity: l0.liquidity - rem,
                orders: r.1,
            };
            (r.0, seq![trimmed] + levels.drop_first(), 0)
        } else {
            let rest = match_side(levels.drop_first(), r.2);
            (r.0 + rest.0, rest.1, rest.2)
        }
    }
}

/// Field constraints shared by every order resting at a level: it rests at
/// the level's price, on the side being matched, as a pending limit order
/// with something left to fill.
pub open spec fn resting_at(o: Order, price: u64, side: OrderSide) -> bool {
    &&& o.price == price
    &&& o.side == side
    &&& o.otype == OrderType::Limit
    &&& o.status == OrderStatus::Pending
    &&& o.filled < o.quantity
}

/// The terminal record of a fully consumed resting order.
pub open spec fn consumed_maker(o: Order, price: u64, side: OrderSide) -> bool {
    &&& o.price == price
    &&& o.side == side
    &&& o.otype == OrderType::Limit
    &&& o.status == OrderStatus::Fulfilled
    &&& o.filled == o.quantity
}

/// Core facts about matching one level: the leftover is between zero and the
/// incoming quantity and is positive only once the queue is empty; the
/// aggregate unfilled quantity drops by exactly the quantity consumed; the
/// consumed records are fulfilled makers in queue order; the orders still
/// resting satisfy the level constraints.
pub proof fn lemma_match_level_props(orders: Seq<Order>, rem: int, price: u64, side: OrderSide)
    requires
        rem >= 0,
        forall|i: int| 0 <= i < orders.len() ==> resting_at(#[trigger] orders[i], price, side),
    ensures
        ({
            let m = match_level(orders, rem);
            &&& 0 <= m.2 <= rem
            &&& m.2 > 0 ==> m.1.len() == 0
            &&& m.0.len() + m.1.len() == orders.len()
            &&& sum_remaining(m.1) == sum_remaining(orders) - (rem - m.2)
            &&& forall|i: int| 0 <= i < m.1.len() ==> resting_at(#[trigger] m.1[i], price, side)
            &&& forall|i: int| 0 <= i < m.0.len() ==> consumed_maker(#[trigger] m.0[i], price, side)
        }),
    decreases orders.len(),
{
    let m = match_level(orders, rem);
    if rem <= 0 || orders.len() == 0 {
    } else {
        let head = orders[0];
        let hr = head.remaining();
        assert(resting_at(orders[0], price, side));
        assert(hr > 0);
        if rem >= hr {
            let tail = orders.drop_first();
            assert(forall|i: int| 0 <= i < tail.len() ==> resting_at(#[trigger] tail[i], price, side))
                by {
                assert(forall|i: int|
                    0 <= i < tail.len() ==> #[trigger] tail[i] == orders[i + 1]);
            }
            lemma_match_level_props(tail, rem - hr, price, side);
            let r = match_level(tail, rem - hr);
            assert(sum_remaining(orders) == hr + sum_remaining(tail));
            assert(m.0 == seq![head.fulfilled()] + r.0);
            assert(consumed_maker(head.fulfilled(), price, side));
            assert(forall|i: int|
                0 <= i < m.0.len() ==> consumed_maker(#[trigger] m.0[i], price, side)) by {
                assert(m.0[0] == head.fulfilled());
                assert(forall|i: int| 1 <= i < m.0.len() ==> #[trigger] m.0[i] == r.0[i - 1]);
            }
        } else {
            let upd = orders.update(0, partial_fill(head, rem));
            assert(upd.drop_first() =~= orders.drop_first());
            assert(sum_remaining(upd) == upd[0].remaining() + sum_remaining(upd.drop_first()));
            assert(sum_remaining(orders) == hr + sum_remaining(orders.drop_first()));
            assert(upd[0] == partial_fill(head, rem));
            assert(upd[0].remaining() == hr - rem);
            assert(forall|i: int| 0 <= i < upd.len() ==> resting_at(#[trigger] upd[i], price, side))
                by {
                assert(forall|i: int| 1 <= i < upd.len() ==> #[trigger] upd[i] == orders[i]);
            }
        }
    }
}

/// `a` is served no later than `b` on a side ordered by `descending`.
pub open spec fn at_or_before(a: u64, b: u64, descending: bool) -> bool {
    a == b || comes_before(a, b, descending)
}

/// The terminal record of a consumed maker, at whatever price it rested.
pub open spec fn maker_on(o: Order, side: OrderSide) -> bool {
    &&& o.side == side
    &&& o.otype == OrderType::Limit
    &&& o.status == OrderStatus::Fulfilled
    &&& o.filled == o.quantity
}

/// A level's aggregate unfilled quantity is positive when any order rests
/// there with something left to fill.
proof fn lemma_sum_remaining_pos(orders: Seq<Order>, price: u64, side: OrderSide)
    requires
        orders.len() > 0,
        forall|i: int| 0 <= i < orders.len() ==> resting_at(#[trigger] orders[i], price, side),
    ensures
        sum_remaining(orders) > 0,
{
    assert(resting_at(orders[0], price, side));
    assert(forall|i: int|
        0 <= i < orders.drop_first().len() ==> (#[trigger] orders.drop_first()[i]).filled
            <= orders.drop_first()[i].quantity) by {
        assert(forall|i: int|
            0 <= i < orders.drop_first().len() ==> #[trigger] orders.drop_first()[i] == orders[i
                + 1]);
    }
    crate::level::lemma_sum_remaining_bound(orders.drop_first());
}

/// Core facts about matching a whole side: the leftover is between zero and
/// the incoming quantity and is positive only once the side is exhausted; the
/// side's total liquidity drops by exactly the quantity consumed; the side
/// stays well formed and its best price never improves; the consumed records
/// are fulfilled makers, emitted best price first starting at the original
/// best price, and all at prices served before what remains.
pub proof fn lemma_match_side_props(
    levels: Seq<LevelView>,
    rem: int,
    side: OrderSide,
    descending: bool,
)
    requires
        rem >= 0,
        side_wf(levels, side, descending),
    ensures
        ({
            let m = match_side(levels, rem);
            &&& 0 <= m.2 <= rem
            &&& m.2 > 0 ==> m.1.len() == 0
            &&& total_liquidity(m.1) == total_liquidity(levels) - (rem - m.2)
            &&& side_wf(m.1, side, descending)
            &&& forall|i: int| 0 <= i < m.0.len() ==> maker_on(#[trigger] m.0[i], side)
            &&& forall|i: int, j: int|
                0 <= i < j < m.0.len() ==> at_or_before(
                    (#[trigger] m.0[i]).price,
                    (#[trigger] m.0[j]).price,
                    descending,
                )
            &&& m.1.len() > 0 ==> forall|i: int|
                0 <= i < m.0.len() ==> at_or_before(
                    (#[trigger] m.0[i]).price,
                    m.1[0].price,
                    descending,
                )
            &&& levels.len() > 0 ==> forall|i: int|
                0 <= i < m.0.len() ==> at_or_before(
                    levels[0].price,
                    (#[trigger] m.0[i]).price,
                    descending,
                )
            &&& m.1.len() > 0 && levels.len() > 0 ==> at_or_before(
                levels[0].price,
                m.1[0].price,
                descending,
            )
        }),
    decreases levels.len(),
{
    let m = match_side(levels, rem);
    if rem <= 0 || levels.len() == 0 {
    } else {
        let l0 = levels[0];
        assert(l0.wf(side));
        lemma_match_level_props(l0.orders, rem, l0.price, side);
        let r = match_level(l0.orders, rem);
        let tail = levels.drop_first();
        assert(forall|i: int| 0 <= i < tail.len() ==> #[trigger] tail[i] == levels[i + 1]);
        assert(side_wf(tail, side, descending));
        if r.2 == 0 && r.1.len() > 0 {
            let trimmed = LevelView { price: l0.price, liquidity: l0.liquidity - rem, orders: r.1 };
            assert(trimmed.wf(side)) by {
                lemma_sum_remaining_pos(r.1, l0.price, side);
            }
            let out = seq![trimmed] + tail;
            assert(out[0] == trimmed);
            assert(forall|i: int| 1 <= i < out.len() ==> #[trigger] out[i] == tail[i - 1]);
            assert(side_wf(out, side, descending));
            assert(total_liquidity(out) == trimmed.liquidity + total_liquidity(out.drop_first()));
            assert(out.drop_first() =~= tail);
            assert(total_liquidity(levels) == l0.liquidity + total_liquidity(tail));
            assert(forall|i: int|
                0 <= i < r.0.len() ==> consumed_maker(#[trigger] r.0[i], l0.price, side));
        } else {
            let rest = match_side(tail, r.2);
            lemma_match_side_props(tail, r.2, side, descending);
            assert(total_liquidity(levels) == l0.liquidity + total_liquidity(tail));
            assert(l0.liquidity == sum_remaining(l0.orders));
            // the first level is fully consumed in this branch
            assert(r.1.len() == 0 ==> sum_remaining(r.1) == 0);
            assert(m.0 == r.0 + rest.0);
            assert(forall|i: int|
                0 <= i < r.0.len() ==> consumed_maker(#[trigger] r.0[i], l0.price, side));
            assert(forall|i: int|
                0 <= i < m.0.len() ==> #[trigger] m.0[i] == if i < r.0.len() {
                    r.0[i]
                } else {
                    rest.0[i - r.0.len()]
                });
            assert(tail.len() > 0 ==> comes_before(l0.price, tail[0].price, descending));
        }
    }
}

/// Consumes the head of `level`'s FIFO queue against an incoming quantity
/// until the quantity or the queue is exhausted, exactly as `match_level`
/// describes: fully consumed orders are popped and returned as fulfilled
/// records, and a final partial fill stays at the front of the queue.
fn consume_level(level: &mut PriceLevel, remaining: u64, Ghost(side): Ghost<OrderSide>) -> (r: (
    Vec<Order>,
    u64,
))
    requires
        old(level)@.liquidity == sum_remaining(old(level)@.orders),
        forall|i: int|
            0 <= i < old(level)@.orders.len() ==> resting_at(
                #[trigger] old(level)@.orders[i],
                old(level)@.price,
                side,
            ),
    ensures
        ({
            let m = match_level(old(level)@.orders, remaining as int);
            &&& r.0@ == m.0
            &&& final(level)@.orders == m.1
            &&& r.1 == m.2
            &&& final(level)@.price == old(level)@.price
            &&& final(level)@.liquidity == old(level)@.liquidity - (remaining - r.1)
            &&& final(level)@.liquidity == sum_remaining(final(level)@.orders)
            &&& forall|i: int|
                0 <= i < final(level)@.orders.len() ==> resting_at(
                    #[trigger] final(level)@.orders[i],
                    old(level)@.price,
                    side,
                )
        }),
{
    let mut affected: Vec<Order> = Vec::new();
    let mut rem: u64 = remaining;
    while rem > 0 && level.orders.len() > 0
        invariant
            rem <= remaining,
            level@.price == old(level)@.price,
            level@.liquidity == sum_remaining(level@.orders),
            level@.liquidity == old(level)@.liquidity - (remaining - rem),
            forall|i: int|
                0 <= i < level@.orders.len() ==> resting_at(
                    #[trigger] level@.orders[i],
                    old(level)@.price,
                    side,
                ),
            match_level(old(level)@.orders, remaining as int) == {
                let m = match_level(level@.orders, rem as int);
                (affected@ + m.0, m.1, m.2)
            },
        decreases level@.orders.len(), rem,
    {
        let head: Order = *level.peek_front();
        assert(resting_at(head, old(level)@.price, side));
        let head_rem: u64 = head.quantity - head.filled;
        let ghost cur = level@.orders;
        if rem >= head_rem {
            let mut done = level.pop_front();
            done.filled = done.quantity;
            done.status = OrderStatus::Fulfilled;
            assert(done == head.fulfilled());
            affected.push(done);
            rem = rem - head_rem;
            proof {
                let m = match_level(level@.orders, rem as int);
                assert(match_level(cur, (rem + head_rem) as int) == (
                    seq![head.fulfilled()] + m.0,
                    m.1,
                    m.2,
                ));
                assert(affected@ + m.0 =~= affected@.drop_last() + (seq![head.fulfilled()] + m.0));
            }
        } else {
            let updated = Order { filled: head.filled + rem, ..head };
            proof {
                assert(forall|i: int|
                    0 <= i < cur.drop_first().len() ==> (#[trigger] cur.drop_first()[i]).filled
                        <= cur.drop_first()[i].quantity) by {
                    assert(forall|i: int|
                        0 <= i < cur.drop_first().len() ==> #[trigger] cur.drop_first()[i] == cur[i
                            + 1]);
                }
                crate::level::lemma_sum_remaining_bound(cur.drop_first());
                assert(sum_remaining(cur) == head.remaining() + sum_remaining(cur.drop_first()));
            }
            level.orders[0] = updated;
            level.liquidity = level.liquidity - rem as u128;
            proof {
                assert(cur.update(0, updated).drop_first() =~= cur.drop_first());
                assert(sum_remaining(cur.update(0, updated)) == updated.remaining()
                    + sum_remaining(cur.drop_first()));
                assert(sum_remaining(cur) == head.remaining() + sum_remaining(cur.drop_first()));
                assert(updated == partial_fill(head, rem as int));
                let m = match_level(level@.orders, 0);
                assert(m.0 =~= Seq::<Order>::empty());
                assert(affected@ + m.0 =~= affected@);
                assert(forall|i: int|
                    1 <= i < cur.update(0, updated).len() ==> #[trigger] cur.update(0, updated)[i]
                        == cur[i]);
            }
            rem = 0;
        }
    }
    proof {
        let m = match_level(level@.orders, rem as int);
        assert(m.0 =~= Seq::<Order>::empty());
        assert(affected@ + m.0 =~= affected@);
    }
    (affected, rem)
}

/// Matches an incoming quantity against a side's levels, best price first,
/// exactly as `match_side` describes: each exhausted level is removed, and a
/// level only partially consumed keeps its place with its queue trimmed.
fn process_market_order(
    levels: &mut Vec<PriceLevel>,
    quantity: u64,
    Ghost(side): Ghost<OrderSide>,
    Ghost(descending): Ghost<bool>,
) -> (r: (Vec<Order>, u64))
    requires
        side_wf(level_views(old(levels)@), side, descending),
    ensures
        ({
            let m = match_side(level_views(old(levels)@), quantity as int);
            &&& r.0@ == m.0
            &&& level_views(final(levels)@) == m.1
            &&& r.1 == m.2
            &&& side_wf(level_views(final(levels)@), side, descending)
        }),
{
    let ghost orig = level_views(levels@);
    let mut affected: Vec<Order> = Vec::new();
    let mut rem: u64 = quantity;
    while rem > 0 && levels.len() > 0
        invariant
            rem <= quantity,
            side_wf(level_views(levels@), side, descending),
            match_side(orig, quantity as int) == {
                let m = match_side(level_views(levels@), rem as int);
                (affected@ + m.0, m.1, m.2)
            },
        ensures
            rem == 0 || levels@.len() == 0,
        decreases levels@.len(),
    {
        let ghost pre = level_views(levels@);
        let ghost rem0 = rem as int;
        let ghost entered = affected@;
        let mut level = levels.remove(0);
        assert(level@ == pre[0]);
        assert(level_views(levels@) =~= pre.drop_first()) by {
            assert(forall|i: int|
                0 <= i < levels@.len() ==> level_views(levels@)[i] == #[trigger] levels@[i]@);
        }
        assert(side_wf(pre.drop_first(), side, descending)) by {
            assert(forall|i: int|
                0 <= i < pre.drop_first().len() ==> #[trigger] pre.drop_first()[i] == pre[i + 1]);
        }
        assert(pre[0].wf(side));
        let (mut makers, left) = consume_level(&mut level, rem, Ghost(side));
        let ghost m_lvl = match_level(pre[0].orders, rem0);
        proof {
            lemma_match_level_props(pre[0].orders, rem0, pre[0].price, side);
        }
        affected.append(&mut makers);
        rem = left;
        if level.is_exhausted() {
            proof {
                // the level's whole queue was consumed, so matching moves on
                assert(m_lvl.1.len() == 0);
                let rest = match_side(pre.drop_first(), m_lvl.2);
                assert(match_side(pre, rem0) == (m_lvl.0 + rest.0, rest.1, rest.2));
                assert(entered + (m_lvl.0 + rest.0) =~= (entered + m_lvl.0) + rest.0);
            }
        } else {
            levels.insert(0, level);
            proof {
                // the incoming quantity ran out inside this level
                assert(m_lvl.2 == 0 && m_lvl.1.len() > 0);
                let trimmed = LevelView {
                    price: pre[0].price,
                    liquidity: pre[0].liquidity - rem0,
                    orders: m_lvl.1,
                };
                assert(level@ == trimmed);
                assert(level_views(levels@) =~= seq![trimmed] + pre.drop_first()) by {
                    assert(forall|i: int|
                        0 <= i < levels@.len() ==> level_views(levels@)[i] == #[trigger] levels@[i]@);
                }
                assert(match_side(pre, rem0) == (m_lvl.0, seq![trimmed] + pre.drop_first(), 0int));
                lemma_match_side_props(pre, rem0, side, descending);
                let m_now = match_side(level_views(levels@), 0);
                assert(m_now.0 =~= Seq::<Order>::empty());
                assert(entered + m_lvl.0 =~= (entered + m_lvl.0) + m_now.0);
            }
            break;
        }
    }
    proof {
        let m_now = match_side(level_views(levels@), rem as int);
        assert(m_now == (Seq::<Order>::empty(), level_views(levels@), rem as int));
        assert(affected@ + m_now.0 =~= affected@);
    }
    (affected, rem)
}

/// The level a first limit order at a new price opens.
pub open spec fn new_level_for(order: Order) -> LevelView {
    LevelView { price: order.price, liquidity: order.remaining(), orders: seq![order] }
}

/// Resting a limit order on its side: the order joins the back of the FIFO
/// queue of the level at its price, and a missing level is created in price
/// position. Nothing is matched.
pub open spec fn spec_insert(levels: Seq<LevelView>, order: Order, descending: bool) -> Seq<
    LevelView,
>
    decreases levels.len(),
{
    if levels.len() == 0 {
        seq![new_level_for(order)]
    } else if order.price == levels[0].price {
        let l0 = levels[0];
        seq![
            LevelView {
                price: l0.price,
                liquidity: l0.liquidity + order.remaining(),
                orders: l0.orders.push(order),
            },
        ] + levels.drop_first()
    } else if comes_before(order.price, levels[0].price, descending) {
        seq![new_level_for(order)] + levels
    } else {
        seq![levels[0]] + spec_insert(levels.drop_first(), order, descending)
    }
}

/// Resting an order keeps the side well formed, and the best price after the
/// insertion is the better of the old best price and the order's price.
pub proof fn lemma_spec_insert_wf(
    levels: Seq<LevelView>,
    order: Order,
    side: OrderSide,
    descending: bool,
)
    requires
        side_wf(levels, side, descending),
        resting_at(order, order.price, side),
    ensures
        ({
            let out = spec_insert(levels, order, descending);
            &&& side_wf(out, side, descending)
            &&& out.len() > 0
            &&& out[0].price == order.price || (levels.len() > 0 && out[0].price
                == levels[0].price)
            &&& levels.len() > 0 ==> at_or_before(out[0].price, levels[0].price, descending)
                || out[0].price == order.price
        }),
    decreases levels.len(),
{
    let out = spec_insert(levels, order, descending);
    if levels.len() == 0 {
        let nl = new_level_for(order);
        assert(sum_remaining(seq![order].drop_first()) == 0);
        assert(sum_remaining(seq![order]) == order.remaining());
        assert(nl.wf(side));
        assert(out[0] == nl);
    } else {
        let l0 = levels[0];
        let tail = levels.drop_first();
        assert(forall|i: int| 0 <= i < tail.len() ==> #[trigger] tail[i] == levels[i + 1]);
        assert(side_wf(tail, side, descending));
        assert(l0.wf(side));
        if order.price == l0.price {
            let nl = LevelView {
                price: l0.price,
                liquidity: l0.liquidity + order.remaining(),
                orders: l0.orders.push(order),
            };
            crate::level::lemma_sum_remaining_push(l0.orders, order);
            assert(forall|i: int|
                0 <= i < nl.orders.len() ==> resting_at(#[trigger] nl.orders[i], nl.price, side))
                by {
                assert(forall|i: int|
                    0 <= i < l0.orders.len() ==> #[trigger] nl.orders[i] == l0.orders[i]);
                assert(nl.orders[l0.orders.len() as int] == order);
            }
            assert(nl.wf(side));
            assert(out[0] == nl);
            assert(forall|i: int| 1 <= i < out.len() ==> #[trigger] out[i] == tail[i - 1]);
            assert(side_wf(out, side, descending));
        } else if comes_before(order.price, l0.price, descending) {
            let nl = new_level_for(order);
            assert(sum_remaining(seq![order].drop_first()) == 0);
            assert(nl.wf(side));
            assert(out[0] == nl);
            assert(forall|i: int| 1 <= i < out.len() ==> #[trigger] out[i] == levels[i - 1]);
            assert(side_wf(out, side, descending));
        } else {
            lemma_spec_insert_wf(tail, order, side, descending);
            let rest = spec_insert(tail, order, descending);
            assert(out[0] == l0);
            assert(forall|i: int| 1 <= i < out.len() ==> #[trigger] out[i] == rest[i - 1]);
            // every level of the new tail sits at an old tail price or at the
            // order's price, so the head still comes first
            assert(comes_before(l0.price, order.price, descending));
            lemma_spec_insert_prices(tail, order, descending);
            assert forall|m: int| 1 <= m < out.len() implies comes_before(
                l0.price,
                (#[trigger] out[m]).price,
                descending,
            ) by {
                assert(out[m] == rest[m - 1]);
                if rest[m - 1].price != order.price {
                    let k = choose|k: int|
                        0 <= k < tail.len() && rest[m - 1].price == (#[trigger] tail[k]).price;
                    assert(tail[k] == levels[k + 1]);
                    assert(comes_before(l0.price, levels[k + 1].price, descending));
                }
            }
            assert(side_wf(out, side, descending));
        }
    }
}

/// Every price after an insertion is an old price or the inserted one.
pub proof fn lemma_spec_insert_prices(levels: Seq<LevelView>, order: Order, descending: bool)
    ensures
        ({
            let out = spec_insert(levels, order, descending);
            forall|i: int|
                0 <= i < out.len() ==> (#[trigger] out[i].price == order.price || exists|j: int|
                    0 <= j < levels.len() && out[i].price == (#[trigger] levels[j]).price)
        }),
    decreases levels.len(),
{
    let out = spec_insert(levels, order, descending);
    if levels.len() == 0 {
    } else if order.price == levels[0].price {
        let tail = levels.drop_first();
        assert(forall|i: int| 1 <= i < out.len() ==> #[trigger] out[i] == tail[i - 1]);
        assert(forall|i: int| 0 <= i < tail.len() ==> #[trigger] tail[i] == levels[i + 1]);
        assert(out[0].price == levels[0].price);
    } else if comes_before(order.price, levels[0].price, descending) {
        assert(forall|i: int| 1 <= i < out.len() ==> #[trigger] out[i] == levels[i - 1]);
    } else {
        let tail = levels.drop_first();
        lemma_spec_insert_prices(tail, order, descending);
        let rest = spec_insert(tail, order, descending);
        assert(out[0] == levels[0]);
        assert(forall|i: int| 1 <= i < out.len() ==> #[trigger] out[i] == rest[i - 1]);
        assert(forall|i: int, j: int|
            0 <= i < rest.len() && 0 <= j < tail.len() && (#[trigger] rest[i]).price == (
            #[trigger] tail[j]).price ==> tail[j] == levels[j + 1]);
    }
}

/// Insertion looks past a prefix of levels that are all served before the
/// order's price.
proof fn lemma_spec_insert_skip(levels: Seq<LevelView>, order: Order, descending: bool, i: int)
    requires
        0 <= i <= levels.len(),
        forall|j: int|
            0 <= j < i ==> comes_before((#[trigger] levels[j]).price, order.price, descending),
    ensures
        spec_insert(levels, order, descending) == levels.take(i) + spec_insert(
            levels.skip(i),
            order,
            descending,
        ),
    decreases i,
{
    if i == 0 {
        assert(levels.skip(0) =~= levels);
        assert(levels.take(0) + spec_insert(levels, order, descending) =~= spec_insert(
            levels,
            order,
            descending,
        ));
    } else {
        assert(comes_before(levels[0].price, order.price, descending));
        assert(order.price != levels[0].price);
        assert(!comes_before(order.price, levels[0].price, descending));
        let tail = levels.drop_first();
        assert(forall|j: int| 0 <= j < i - 1 ==> #[trigger] tail[j] == levels[j + 1]);
        lemma_spec_insert_skip(tail, order, descending, i - 1);
        assert(tail.skip(i - 1) =~= levels.skip(i));
        assert(seq![levels[0]] + (tail.take(i - 1) + spec_insert(levels.skip(i), order, descending))
            =~= levels.take(i) + spec_insert(levels.skip(i), order, descending));
    }
}

/// Rests a limit order on a side exactly as `spec_insert` describes.
fn process_limit_order(
    levels: &mut Vec<PriceLevel>,
    order: Order,
    descending: bool,
    Ghost(side): Ghost<OrderSide>,
)
    requires
        side_wf(level_views(old(levels)@), side, descending),
        resting_at(order, order.price, side),
    ensures
        level_views(final(levels)@) == spec_insert(level_views(old(levels)@), order, descending),
        side_wf(level_views(final(levels)@), side, descending),
{
    let ghost orig = level_views(levels@);
    let mut i: usize = 0;
    loop
        invariant
            i <= levels@.len(),
            level_views(levels@) == orig,
            side_wf(orig, side, descending),
            forall|j: int| 0 <= j < i ==> comes_before((#[trigger] orig[j]).price, order.price, descending),
        ensures
            i <= levels@.len(),
            level_views(levels@) == orig,
            forall|j: int| 0 <= j < i ==> comes_before((#[trigger] orig[j]).price, order.price, descending),
            i < levels@.len() ==> !comes_before(orig[i as int].price, order.price, descending),
        decreases levels@.len() - i,
    {
        if i == levels.len() {
            break ;
        }
        let p: u64 = levels[i].price;
        assert(p == orig[i as int].price);
        let ahead: bool = if descending {
            p > order.price
        } else {
            p < order.price
        };
        if !ahead {
            break ;
        }
        i += 1;
    }
    proof {
        lemma_spec_insert_skip(orig, order, descending, i as int);
    }
    let ghost target = spec_insert(orig, order, descending);
    if i < levels.len() && levels[i].price == order.price {
        let ghost pre = levels@;
        let mut l = levels.remove(i);
        l.push_back(order);
        levels.insert(i, l);
        proof {
            let sk = orig.skip(i as int);
            assert(sk[0] == orig[i as int]);
            assert(order.price == sk[0].price);
            let nl = LevelView {
                price: sk[0].price,
                liquidity: sk[0].liquidity + order.remaining(),
                orders: sk[0].orders.push(order),
            };
            assert(spec_insert(sk, order, descending) == seq![nl] + sk.drop_first());
            assert(l@ == nl);
            assert(level_views(levels@) =~= orig.take(i as int) + (seq![nl] + sk.drop_first()))
                by {
                assert(forall|k: int|
                    0 <= k < levels@.len() ==> level_views(levels@)[k] == #[trigger] levels@[k]@);
                assert(forall|k: int|
                    0 <= k < pre.len() ==> #[trigger] pre[k]@ == orig[k]);
            }
            lemma_spec_insert_wf(orig, order, side, descending);
        }
    } else {
        let mut nl = PriceLevel::new(order.price);
        nl.push_back(order);
        levels.insert(i, nl);
        proof {
            let sk = orig.skip(i as int);
            assert(nl@.orders =~= seq![order]);
            assert(nl@ == new_level_for(order));
            if sk.len() == 0 {
                assert(spec_insert(sk, order, descending) == seq![new_level_for(order)]);
            } else {
                assert(sk[0] == orig[i as int]);
                assert(order.price != sk[0].price);
                assert(comes_before(order.price, sk[0].price, descending)) by {
                    assert(!comes_before(sk[0].price, order.price, descending));
                }
                assert(spec_insert(sk, order, descending) == seq![new_level_for(order)] + sk);
            }
            assert(level_views(levels@) =~= orig.take(i as int) + spec_insert(sk, order, descending))
                by {
                assert(forall|k: int|
                    0 <= k < levels@.len() ==> level_views(levels@)[k] == #[trigger] levels@[k]@);
            }
            lemma_spec_insert_wf(orig, order, side, descending);
        }
    }
}

/// A per-symbol order book: bids kept highest price first, asks lowest price
/// first, with the decimal scales every resting price and quantity carries.
pub struct OrderBook {
    pub bids: Vec<PriceLevel>,
    pub asks: Vec<PriceLevel>,
    pub price_precision: u32,
    pub quantity_precision: u32,
}

/// Mathematical view of an order book.
#[verifier::ext_equal]
pub struct BookView {
    pub bids: Seq<LevelView>,
    pub asks: Seq<LevelView>,
    pub price_precision: u32,
    pub quantity_precision: u32,
}

impl View for OrderBook {
    type V = BookView;

    open spec fn view(&self) -> BookView {
        BookView {
            bids: level_views(self.bids@),
            asks: level_views(self.asks@),
            price_precision: self.price_precision,
            quantity_precision: self.quantity_precision,
        }
    }
}

impl BookView {
    /// Both sides are well formed, best price first, and the precisions are
    /// within the supported scale range.
    pub open spec fn wf(self) -> bool {
        &&& side_wf(self.bids, OrderSide::Buy, true)
        &&& side_wf(self.asks, OrderSide::Sell, false)
        &&& self.price_precision <= MAX_PRECISION
        &&& self.quantity_precision <= MAX_PRECISION
    }
}

/// The book after a limit order rests on its own side.
pub open spec fn spec_limit(book: BookView, order: Order) -> BookView {
    if order.side == OrderSide::Buy {
        BookView { bids: spec_insert(book.bids, order, true), ..book }
    } else {
        BookView { asks: spec_insert(book.asks, order, false), ..book }
    }
}

/// The taker's terminal record after a market order that filled `filled`:
/// fully matched takers leave as `Fulfilled`, an unmatched remainder leaves
/// the taker `Rejected`.
pub open spec fn spec_market_taker(order: Order, filled: int) -> Order {
    Order {
        filled: filled as u64,
        status: if filled == order.quantity {
            OrderStatus::Fulfilled
        } else {
            OrderStatus::Rejected
        },
        ..order
    }
}

/// A market order's outcome: the affected orders (every fully consumed maker
/// in consumption order, then the taker in its terminal state) and the book
/// with the opposite side consumed.
pub open spec fn spec_market(book: BookView, order: Order) -> (Seq<Order>, BookView) {
    let opposite = if order.side == OrderSide::Buy {
        book.asks
    } else {
        book.bids
    };
    let m = match_side(opposite, order.quantity as int);
    let taker = spec_market_taker(order, order.quantity - m.2);
    let affected = m.0.push(taker);
    let after = if order.side == OrderSide::Buy {
        BookView { asks: m.1, ..book }
    } else {
        BookView { bids: m.1, ..book }
    };
    (affected, after)
}

impl Default for OrderBook {
    /// A book with two decimal places of price and quantity precision.
    fn default() -> (r: OrderBook)
        ensures
            r@.wf(),
            r@.bids.len() == 0,
            r@.asks.len() == 0,
            r@.price_precision == 2,
            r@.quantity_precision == 2,
    {
        OrderBook::new(2, 2)
    }
}

impl OrderBook {
    /// A fresh, empty book with the given price and quantity scales.
    pub fn new(price_precision: u32, quantity_precision: u32) -> (r: OrderBook)
        requires
            price_precision <= MAX_PRECISION,
            quantity_precision <= MAX_PRECISION,
        ensures
            r@ == (BookView {
                bids: Seq::<LevelView>::empty(),
                asks: Seq::<LevelView>::empty(),
                price_precision,
                quantity_precision,
            }),
            r@.wf(),
    {
        let book = OrderBook {
            bids: Vec::new(),
            asks: Vec::new(),
            price_precision,
            quantity_precision,
        };
        proof {
            assert(level_views(book.bids@) =~= Seq::<LevelView>::empty());
            assert(level_views(book.asks@) =~= Seq::<LevelView>::empty());
            assert(book@ =~= (BookView {
                bids: Seq::<LevelView>::empty(),
                asks: Seq::<LevelView>::empty(),
                price_precision,
                quantity_precision,
            }));
        }
        book
    }

    /// Rests a limit order at its quoted price level on its own side. The
    /// opposite side is never touched and nothing is matched.
    pub fn limit_order(&mut self, order: Order)
        requires
            old(self)@.wf(),
            order.otype == OrderType::Limit,
            order.status == OrderStatus::Pending,
            order.filled == 0,
            order.quantity > 0,
        ensures
            final(self)@ == spec_limit(old(self)@, order),
            final(self)@.wf(),
    {
        match order.side {
            OrderSide::Buy => {
                process_limit_order(&mut self.bids, order, true, Ghost(OrderSide::Buy));
                assert(self@ =~= spec_limit(old(self)@, order));
            },
            OrderSide::Sell => {
                process_limit_order(&mut self.asks, order, false, Ghost(OrderSide::Sell));
                assert(self@ =~= spec_limit(old(self)@, order));
            },
        }
    }

    /// Matches a market order against the opposite side in price-time
    /// priority until its quantity or the side is exhausted, and returns the
    /// affected orders: every fully consumed maker in consumption order,
    /// then the taker in its terminal state.
    pub fn market_order(&mut self, order: Order) -> (affected: Vec<Order>)
        requires
            old(self)@.wf(),
            order.otype == OrderType::Market,
            order.status == OrderStatus::Pending,
            order.filled == 0,
            order.quantity > 0,
        ensures
            affected@ == spec_market(old(self)@, order).0,
            final(self)@ == spec_market(old(self)@, order).1,
            final(self)@.wf(),
    {
        let (mut affected, rem) = match order.side {
            OrderSide::Buy => process_market_order(
                &mut self.asks,
                order.quantity,
                Ghost(OrderSide::Sell),
                Ghost(false),
            ),
            OrderSide::Sell => process_market_order(
                &mut self.bids,
                order.quantity,
                Ghost(OrderSide::Buy),
                Ghost(true),
            ),
        };
        proof {
            let opposite = if order.side == OrderSide::Buy {
                old(self)@.asks
            } else {
                old(self)@.bids
            };
            if order.side == OrderSide::Buy {
                lemma_match_side_props(opposite, order.quantity as int, OrderSide::Sell, false);
            } else {
                lemma_match_side_props(opposite, order.quantity as int, OrderSide::Buy, true);
            }
        }
        let taker = Order {
            filled: order.quantity - rem,
            status: if rem == 0 {
                OrderStatus::Fulfilled
            } else {
                OrderStatus::Rejected
            },
            ..order
        };
        proof {
            let opposite = if order.side == OrderSide::Buy {
                old(self)@.asks
            } else {
                old(self)@.bids
            };
            let m = match_side(opposite, order.quantity as int);
            assert(taker == spec_market_taker(order, order.quantity - m.2));
            assert(self@ =~= spec_market(old(self)@, order).1);
        }
        affected.push(taker);
        affected
    }
}

} // verus!
