//! The event publisher's computable half: the stable text encoding of the
//! processed-order notification. The payload is a list of objects with
//! exactly two fields, the order id and its status label, in the affected
//! order's execution order. Publishing the bytes and awaiting the bus's
//! acknowledgement happen outside the engine.

use vstd::prelude::*;
use vstd::string::StringExecFns;

use crate::order::{Order, OrderStatus};

verus! {

/// The character for a single decimal digit.
pub open spec fn spec_digit(n: nat) -> char {
    if n == 0 {
        '0'
    } else if n == 1 {
        '1'
    } else if n == 2 {
        '2'
    } else if n == 3 {
        '3'
    } else if n == 4 {
        '4'
    } else if n == 5 {
        '5'
    } else if n == 6 {
        '6'
    } else if n == 7 {
        '7'
    } else if n == 8 {
        '8'
    } else {
        '9'
    }
}

/// The decimal digits of `n`, most significant first, with no sign and no
/// leading zeros (a single `'0'` for zero).
pub open spec fn spec_digits(n: nat) -> Seq<char>
    decreases n,
{
    if n < 10 {
        seq![spec_digit(n)]
    } else {
        spec_digits(n / 10).push(spec_digit(n % 10))
    }
}

/// The decimal rendering of a signed id.
pub open spec fn spec_int_str(v: int) -> Seq<char> {
    if v < 0 {
        seq!['-'] + spec_digits((-v) as nat)
    } else {
        spec_digits(v as nat)
    }
}

/// The status label published for an order.
pub open spec fn spec_status_label(s: OrderStatus) -> Seq<char> {
    match s {
        OrderStatus::Pending => "PENDING"@,
        OrderStatus::Fulfilled => "FULFILLED"@,
        OrderStatus::Cancelled => "CANCELLED"@,
        OrderStatus::Rejected => "REJECTED"@,
    }
}

/// The object published for one affected order.
pub open spec fn spec_entry(o: Order) -> Seq<char> {
    "{\"id\":"@ + spec_int_str(o.id as int) + ",\"status\":\""@ + spec_status_label(o.status)
        + "\"}"@
}

/// The comma-joined objects of a batch.
pub open spec fn spec_entries(s: Seq<Order>) -> Seq<char>
    decreases s.len(),
{
    if s.len() == 0 {
        Seq::empty()
    } else if s.len() == 1 {
        spec_entry(s[0])
    } else {
        spec_entry(s[0]) + ","@ + spec_entries(s.drop_first())
    }
}

/// The full payload published for a batch of affected orders.
pub open spec fn spec_payload(s: Seq<Order>) -> Seq<char> {
    "["@ + spec_entries(s) + "]"@
}

/// Appending one more order to a batch appends one more object, with a
/// separating comma once the batch is non-empty.
proof fn lemma_entries_push(s: Seq<Order>, o: Order)
    ensures
        spec_entries(s.push(o)) == if s.len() == 0 {
            spec_entry(o)
        } else {
            spec_entries(s) + ","@ + spec_entry(o)
        },
    decreases s.len(),
{
    let sp = s.push(o);
    if s.len() == 0 {
        assert(sp.len() == 1);
        assert(sp[0] == o);
    } else {
        assert(sp[0] == s[0]);
        assert(sp.drop_first() =~= s.drop_first().push(o));
        lemma_entries_push(s.drop_first(), o);
        if s.len() == 1 {
            assert(spec_entries(s) == spec_entry(s[0]));
            assert(spec_entries(sp) == spec_entry(s[0]) + ","@ + spec_entry(o));
        } else {
            assert(spec_entries(sp) == spec_entry(s[0]) + ","@ + (spec_entries(s.drop_first())
                + ","@ + spec_entry(o)));
            assert(spec_entry(s[0]) + ","@ + (spec_entries(s.drop_first()) + ","@ + spec_entry(o))
                =~= (spec_entry(s[0]) + ","@ + spec_entries(s.drop_first())) + ","@ + spec_entry(
                o,
            ));
        }
    }
}

/// Appends the decimal digits of `n` to `out`.
fn push_digits(out: &mut String, n: u64)
    ensures
        final(out)@ == old(out)@ + spec_digits(n as nat),
    decreases n,
{
    if n >= 10 {
        push_digits(out, n / 10);
    }
    let d: u64 = n % 10;
    match d {
        0 => out.append("0"),
        1 => out.append("1"),
        2 => out.append("2"),
        3 => out.append("3"),
        4 => out.append("4"),
        5 => out.append("5"),
        6 => out.append("6"),
        7 => out.append("7"),
        8 => out.append("8"),
        _ => out.append("9"),
    }
    proof {
        reveal_strlit("0");
        reveal_strlit("1");
        reveal_strlit("2");
        reveal_strlit("3");
        reveal_strlit("4");
        reveal_strlit("5");
        reveal_strlit("6");
        reveal_strlit("7");
        reveal_strlit("8");
        reveal_strlit("9");
        if n >= 10 {
            assert((old(out)@ + spec_digits((n / 10) as nat)) + seq![spec_digit((n % 10) as nat)]
                =~= old(out)@ + spec_digits(n as nat));
        } else {
            assert(old(out)@ + seq![spec_digit(n as nat)] =~= old(out)@ + spec_digits(n as nat));
        }
    }
}

/// Appends the decimal rendering of a signed id to `out`.
fn push_id(out: &mut String, v: i64)
    ensures
        final(out)@ == old(out)@ + spec_int_str(v as int),
{
    if v < 0 {
        out.append("-");
        proof {
            reveal_strlit("-");
        }
        let wide: i128 = v as i128;
        let magnitude: u64 = (-wide) as u64;
        push_digits(out, magnitude);
        proof {
            assert((old(out)@ + "-"@) + spec_digits(magnitude as nat) =~= old(out)@ + spec_int_str(
                v as int,
            ));
        }
    } else {
        push_digits(out, v as u64);
    }
}

/// The status label published for an order.
pub fn status_label(s: OrderStatus) -> (r: &'static str)
    ensures
        r@ == spec_status_label(s),
{
    match s {
        OrderStatus::Pending => "PENDING",
        OrderStatus::Fulfilled => "FULFILLED",
        OrderStatus::Cancelled => "CANCELLED",
        OrderStatus::Rejected => "REJECTED",
    }
}

/// Encodes the processed-order notification for a batch of affected orders.
pub fn encode_processed(affected: &Vec<Order>) -> (payload: String)
    ensures
        payload@ == spec_payload(affected@),
{
    let mut out = String::new();
    out.append("[");
    let mut i: usize = 0;
    while i < affected.len()
        invariant
            i <= affected@.len(),
            out@ == "["@ + spec_entries(affected@.take(i as int)),
        decreases affected@.len() - i,
    {
        let ghost done = affected@.take(i as int);
        let ghost before = out@;
        if i > 0 {
            out.append(",");
        }
        out.append("{\"id\":");
        let order = affected[i];
        push_id(&mut out, order.id);
        out.append(",\"status\":\"");
        out.append(status_label(order.status));
        out.append("\"}");
        proof {
            reveal_strlit(",");
            lemma_entries_push(done, order);
            assert(affected@.take(i + 1) =~= done.push(order));
            if i == 0 {
                assert(done.len() == 0);
                assert(((((before + "{\"id\":"@) + spec_int_str(order.id as int))
                    + ",\"status\":\""@) + spec_status_label(order.status)) + "\"}"@ =~= "["@
                    + spec_entries(done.push(order)));
            } else {
                assert((((((before + ","@) + "{\"id\":"@) + spec_int_str(order.id as int))
                    + ",\"status\":\""@) + spec_status_label(order.status)) + "\"}"@ =~= "["@
                    + spec_entries(done.push(order)));
            }
        }
        i += 1;
    }
    out.append("]");
    proof {
        assert(affected@.take(affected@.len() as int) =~= affected@);
        assert(("["@ + spec_entries(affected@)) + "]"@ =~= spec_payload(affected@));
    }
    out
}

} // verus!