//! The request handler: validates RPC input, resolves the book, drives the
//! matching, and prepares what the persistence and publication sinks
//! consume. Validation short-circuits in a fixed order: shape of the order,
//! existence of the book, decodability of the decimals, then the zero
//! quantity check. Validation errors never mutate the registry.

use vstd::prelude::*;

use crate::book::{spec_limit, spec_market, BookView, MAX_PRECISION};
use crate::decimal::{parse_units, units_of};
use crate::level::LevelView;
use crate::order::{Order, OrderSide, OrderStatus, OrderType};
use crate::publish::{encode_processed, spec_payload};
use crate::registry::{has_symbol, BookEntry, Registry};
use crate::rpc::{
    spec_kind_concrete, spec_side_concrete, Kind, NewOrderBookRequest, NewOrderBookResponse,
    OrderInput, RpcResult, Side, Status, SubmitOrderRequest,
};
use crate::sink::{trade_rows, Trade};

verus! {

/// The error kinds surfaced to RPC callers. The engine itself reports the
/// first three; `Unavailable` (a sink missing at call time) and `Internal`
/// (a poisoned guard, or a flush or acknowledgement failure) arise in the
/// process around it, after the match has already committed.
#[derive(Clone, Copy, Debug, PartialEq, Eq, Structural)]
pub enum EngineError {
    InvalidArgument,
    NotFound,
    AlreadyExists,
    Unavailable,
    Internal,
}

/// The gRPC status code each error kind maps to. A missing book surfaces
/// with the Internal code, preserving the service's observed behaviour.
pub open spec fn spec_grpc_code(e: EngineError) -> u32 {
    match e {
        EngineError::InvalidArgument => 3,
        EngineError::NotFound => 13,
        EngineError::AlreadyExists => 6,
        EngineError::Unavailable => 14,
        EngineError::Internal => 13,
    }
}

/// Maps an engine error to the gRPC status code of the response.
pub fn grpc_code(e: EngineError) -> (r: u32)
    ensures
        r == spec_grpc_code(e),
{
    match e {
        EngineError::InvalidArgument => 3,
        EngineError::NotFound => 13,
        EngineError::AlreadyExists => 6,
        EngineError::Unavailable => 14,
        EngineError::Internal => 13,
    }
}

/// The position of the entry carrying `sym` (unique in a well-formed
/// registry).
pub open spec fn index_of_symbol(books: Seq<BookEntry>, sym: Seq<char>) -> int {
    choose|i: int| 0 <= i < books.len() && (#[trigger] books[i]).symbol@ == sym
}

/// Whether a wire order's enumerations are all concrete.
pub open spec fn shape_ok(o: OrderInput) -> bool {
    &&& o.side != Side::Unspecified
    &&& o.kind != Kind::Unspecified
    &&& o.status != Status::Unspecified
}

/// The internal order a decodable request denotes against a book's
/// precisions: units rounded to the book's scales, nothing filled yet, and
/// the pending status every order starts from.
pub open spec fn spec_taker(o: OrderInput, book: BookView) -> Order {
    Order {
        id: o.id,
        side: spec_side_concrete(o.side).unwrap(),
        otype: spec_kind_concrete(o.kind).unwrap(),
        status: OrderStatus::Pending,
        price: units_of(o.price@, book.price_precision).unwrap(),
        quantity: units_of(o.quantity@, book.quantity_precision).unwrap(),
        filled: 0,
    }
}

/// The registry is unchanged except that entry `i`'s book became `bk`.
pub open spec fn updated_book(
    old_books: Seq<BookEntry>,
    new_books: Seq<BookEntry>,
    i: int,
    bk: BookView,
) -> bool {
    &&& new_books.len() == old_books.len()
    &&& forall|j: int| 0 <= j < old_books.len() && j != i ==> new_books[j] == old_books[j]
    &&& new_books[i].symbol@ == old_books[i].symbol@
    &&& new_books[i].book@ == bk
}

/// What a successful submission hands back for the side-effect pipeline.
pub enum SubmitOutcome {
    /// A limit order rested in the book; nothing is persisted or published.
    Rested,
    /// A market order executed: the affected orders, their rows for the
    /// trade sink, and the payload for the event publisher.
    Matched { affected: Vec<Order>, rows: Vec<Trade>, payload: String },
}

/// Creates a fresh order book for a symbol: the symbol must be non-empty
/// and the precisions within the supported scale range, and a duplicate
/// create leaves the registry exactly as it was.
pub fn new_order_book(registry: &mut Registry, req: &NewOrderBookRequest) -> (r: Result<
    NewOrderBookResponse,
    EngineError,
>)
    requires
        old(registry).wf(),
    ensures
        final(registry).wf(),
        ({
            let books = old(registry).books@;
            if req.symbol@.len() == 0 || req.price_precision > MAX_PRECISION
                || req.quantity_precision > MAX_PRECISION {
                &&& r == Err::<NewOrderBookResponse, EngineError>(EngineError::InvalidArgument)
                &&& *final(registry) == *old(registry)
            } else if has_symbol(books, req.symbol@) {
                &&& r == Err::<NewOrderBookResponse, EngineError>(EngineError::AlreadyExists)
                &&& *final(registry) == *old(registry)
            } else {
                &&& r == Ok::<NewOrderBookResponse, EngineError>(NewOrderBookResponse {
                    result: RpcResult::Success,
                })
                &&& final(registry).books@.len() == books.len() + 1
                &&& forall|i: int|
                    0 <= i < books.len() ==> final(registry).books@[i] == books[i]
                &&& final(registry).books@.last().symbol@ == req.symbol@
                &&& final(registry).books@.last().book@ == (BookView {
                    bids: Seq::<LevelView>::empty(),
                    asks: Seq::<LevelView>::empty(),
                    price_precision: req.price_precision,
                    quantity_precision: req.quantity_precision,
                })
            }
        }),
{
    if req.symbol.as_str().is_empty() || req.price_precision > MAX_PRECISION
        || req.quantity_precision > MAX_PRECISION {
        return Err(EngineError::InvalidArgument);
    }
    let symbol = req.symbol.clone();
    let created = registry.create(symbol, req.price_precision, req.quantity_precision);
    if created {
        Ok(NewOrderBookResponse { result: RpcResult::Success })
    } else {
        Err(EngineError::AlreadyExists)
    }
}

/// Submits one order for a symbol. Market orders match against the book and
/// hand back the affected orders with the rows and payload for the sinks;
/// limit orders rest in the book with no side effects to emit.
pub fn submit_order(registry: &mut Registry, req: &SubmitOrderRequest) -> (r: Result<
    SubmitOutcome,
    EngineError,
>)
    requires
        old(registry).wf(),
    ensures
        final(registry).wf(),
        ({
            let books = old(registry).books@;
            let sym = req.symbol@;
            match req.order {
                None => r == Err::<SubmitOutcome, EngineError>(EngineError::InvalidArgument)
                    && *final(registry) == *old(registry),
                Some(o) => {
                    if !shape_ok(o) {
                        &&& r == Err::<SubmitOutcome, EngineError>(EngineError::InvalidArgument)
                        &&& *final(registry) == *old(registry)
                    } else if !has_symbol(books, sym) {
                        &&& r == Err::<SubmitOutcome, EngineError>(EngineError::NotFound)
                        &&& *final(registry) == *old(registry)
                    } else {
                        let i = index_of_symbol(books, sym);
                        let bk = books[i].book@;
                        let pu = units_of(o.price@, bk.price_precision);
                        let qu = units_of(o.quantity@, bk.quantity_precision);
                        if pu is None || qu is None || qu == Some(0u64) {
                            &&& r == Err::<SubmitOutcome, EngineError>(EngineError::InvalidArgument)
                            &&& *final(registry) == *old(registry)
                        } else {
                            let taker = spec_taker(o, bk);
                            if taker.otype == OrderType::Limit {
                                &&& r matches Ok(out) && out is Rested
                                &&& updated_book(
                                    books,
                                    final(registry).books@,
                                    i,
                                    spec_limit(bk, taker),
                                )
                            } else {
                                &&& r matches Ok(out) && (out matches SubmitOutcome::Matched {
                                    affected,
                                    rows,
                                    payload,
                                } && {
                                    &&& affected@ == spec_market(bk, taker).0
                                    &&& rows@.len() == affected@.len()
                                    &&& forall|k: int|
                                        0 <= k < rows@.len() ==> #[trigger] rows@[k] == (Trade {
                                            executed_price: affected@[k].price,
                                            order: affected@[k],
                                        })
                                    &&& payload@ == spec_payload(affected@)
                                })
                                &&& updated_book(
                                    books,
                                    final(registry).books@,
                                    i,
                                    spec_market(bk, taker).1,
                                )
                            }
                        }
                    }
                },
            }
        }),
{
    let order_input = match &req.order {
        None => {
            return Err(EngineError::InvalidArgument);
        },
        Some(o) => o,
    };
    let side = match order_input.side.concrete() {
        None => {
            return Err(EngineError::InvalidArgument);
        },
        Some(s) => s,
    };
    let kind = match order_input.kind.concrete() {
        None => {
            return Err(EngineError::InvalidArgument);
        },
        Some(k) => k,
    };
    match order_input.status {
        Status::Unspecified => {
            return Err(EngineError::InvalidArgument);
        },
        _ => {},
    }
    let idx = match registry.lookup(&req.symbol) {
        None => {
            return Err(EngineError::NotFound);
        },
        Some(i) => i,
    };
    proof {
        // symbols are unique, so the found entry is the entry of the symbol
        assert(registry.books@[idx as int].symbol@ == req.symbol@);
        assert(idx as int == index_of_symbol(registry.books@, req.symbol@));
    }
    let price_precision = registry.books[idx].book.price_precision;
    let quantity_precision = registry.books[idx].book.quantity_precision;
    let price = match parse_units(order_input.price.as_str(), price_precision) {
        None => {
            return Err(EngineError::InvalidArgument);
        },
        Some(u) => u,
    };
    let quantity = match parse_units(order_input.quantity.as_str(), quantity_precision) {
        None => {
            return Err(EngineError::InvalidArgument);
        },
        Some(u) => u,
    };
    if quantity == 0 {
        return Err(EngineError::InvalidArgument);
    }
    let taker = Order {
        id: order_input.id,
        side,
        otype: kind,
        status: OrderStatus::Pending,
        price,
        quantity,
        filled: 0,
    };
    match kind {
        OrderType::Limit => {
            registry.books[idx].book.limit_order(taker);
            Ok(SubmitOutcome::Rested)
        },
        OrderType::Market => {
            let affected = registry.books[idx].book.market_order(taker);
            let rows = trade_rows(&affected);
            let payload = encode_processed(&affected);
            Ok(SubmitOutcome::Matched { affected, rows, payload })
        },
    }
}

} // verus!