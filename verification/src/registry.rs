//! The book registry: a mapping from symbol to order book with byte-exact,
//! unique keys. Books are created once and never removed, so an entry's
//! position is a stable handle for the life of the registry.

use vstd::prelude::*;

use crate::book::{BookView, OrderBook, MAX_PRECISION};
use crate::level::LevelView;

verus! {

/// One registry entry: a symbol and the order book it owns.
pub struct BookEntry {
    pub symbol: String,
    pub book: OrderBook,
}

/// Whether some entry carries `symbol`.
pub open spec fn has_symbol(books: Seq<BookEntry>, symbol: Seq<char>) -> bool {
    exists|i: int| 0 <= i < books.len() && (#[trigger] books[i]).symbol@ == symbol
}

/// The registry of order books, keyed by symbol.
pub struct Registry {
    pub books: Vec<BookEntry>,
}

impl Registry {
    /// Symbols are unique and every book is well formed.
    pub open spec fn wf(self) -> bool {
        &&& forall|i: int, j: int|
            0 <= i < j < self.books@.len() ==> (#[trigger] self.books@[i]).symbol@ != (
            #[trigger] self.books@[j]).symbol@
        &&& forall|i: int| 0 <= i < self.books@.len() ==> (#[trigger] self.books@[i]).book@.wf()
    }

    /// An empty registry.
    pub fn new() -> (r: Registry)
        ensures
            r.wf(),
            r.books@.len() == 0,
    {
        Registry { books: Vec::new() }
    }

    /// The position of the entry for `symbol`, or `None` when no book was
    /// created for it. Keys are compared as byte-exact strings.
    pub fn lookup(&self, symbol: &String) -> (r: Option<usize>)
        ensures
            match r {
                Some(i) => i < self.books@.len() && self.books@[i as int].symbol@ == symbol@,
                None => !has_symbol(self.books@, symbol@),
            },
    {
        let mut i: usize = 0;
        while i < self.books.len()
            invariant
                i <= self.books@.len(),
                forall|j: int| 0 <= j < i ==> (#[trigger] self.books@[j]).symbol@ != symbol@,
            decreases self.books@.len() - i,
        {
            if self.books[i].symbol == *symbol {
                return Some(i);
            }
            i += 1;
        }
        None
    }

    /// Creates a fresh, empty book for `symbol`. On conflict the registry is
    /// left exactly as it was and nothing is created, so a repeated create
    /// is observed only as the `false` result.
    pub fn create(
        &mut self,
        symbol: String,
        price_precision: u32,
        quantity_precision: u32,
    ) -> (created: bool)
        requires
            old(self).wf(),
            price_precision <= MAX_PRECISION,
            quantity_precision <= MAX_PRECISION,
        ensures
            final(self).wf(),
            created <==> !has_symbol(old(self).books@, symbol@),
            !created ==> *final(self) == *old(self),
            created ==> {
                &&& final(self).books@.len() == old(self).books@.len() + 1
                &&& forall|i: int|
                    0 <= i < old(self).books@.len() ==> final(self).books@[i] == old(
                    self,
                    ).books@[i]
                &&& final(self).books@.last().symbol@ == symbol@
                &&& final(self).books@.last().book@ == (BookView {
                    bids: Seq::<LevelView>::empty(),
                    asks: Seq::<LevelView>::empty(),
                    price_precision,
                    quantity_precision,
                })
            },
    {
        let existing = self.lookup(&symbol);
        match existing {
            Some(_) => false,
            None => {
                let book = OrderBook::new(price_precision, quantity_precision);
                let entry = BookEntry { symbol, book };
                self.books.push(entry);
                true
            },
        }
    }
}

} // verus!