//! The Consolidated View: the best bid and best ask for one symbol across
//! all exchanges, computed from fresh books only, with per-exchange
//! attribution and the documented tie-breaks (larger quantity first, then
//! the more recently updated book; an earlier-scanned book wins a full tie).

use vstd::prelude::*;

use crate::types::PriceLevel;
use crate::types::Orderbook;
use crate::types::stored_level;
use crate::store::BookStore;
use crate::store::store_wf;
use crate::store::fresh_book;

verus! {

/// One side of a consolidated quote: the winning level, the exchange it
/// came from, and that book's timestamp.
#[derive(Clone, Copy, PartialEq, Eq, Structural, Debug)]
pub struct QuoteSide {
    pub exchange: u32,
    pub level: PriceLevel,
    pub book_timestamp: u64,
}

/// The consolidated top of book for one symbol at one instant. A side is
/// `None` when no fresh book for the symbol quotes it.
#[derive(Clone, Copy, PartialEq, Eq, Structural, Debug)]
pub struct ConsolidatedQuote {
    pub symbol: u32,
    pub best_bid: Option<QuoteSide>,
    pub best_ask: Option<QuoteSide>,
    pub computed_at: u64,
}

/// Book `i` can contribute a quote side for `symbol` at `now`: right
/// symbol, fresh, and quoting that side at all.
pub open spec fn eligible(
    books: Seq<Orderbook>,
    i: int,
    symbol: u32,
    now: u64,
    threshold_ms: u64,
    bid: bool,
) -> bool {
    &&& 0 <= i < books.len()
    &&& books[i].symbol == symbol
    &&& fresh_book(books[i], now, threshold_ms)
    &&& if bid {
        books[i].bids@.len() > 0
    } else {
        books[i].asks@.len() > 0
    }
}

/// The quote side contributed by book `i`.
pub open spec fn cand(books: Seq<Orderbook>, i: int, bid: bool) -> QuoteSide {
    QuoteSide {
        exchange: books[i].exchange,
        level: if bid {
            books[i].bids@[0]
        } else {
            books[i].asks@[0]
        },
        book_timestamp: books[i].timestamp,
    }
}

/// `a` is strictly preferred over `b`: better price first (higher bid,
/// lower ask), then larger quantity at the price, then the fresher book.
pub open spec fn preferred(a: QuoteSide, b: QuoteSide, bid: bool) -> bool {
    ||| (if bid {
        a.level.price > b.level.price
    } else {
        a.level.price < b.level.price
    })
    ||| (a.level.price == b.level.price && a.level.quantity > b.level.quantity)
    ||| (a.level.price == b.level.price && a.level.quantity == b.level.quantity
        && a.book_timestamp > b.book_timestamp)
}

/// Best quote side among the first `n` books; a later book displaces an
/// earlier winner only when strictly preferred.
pub open spec fn best_upto(
    books: Seq<Orderbook>,
    symbol: u32,
    now: u64,
    threshold_ms: u64,
    bid: bool,
    n: int,
) -> Option<QuoteSide>
    decreases n,
{
    if n <= 0 {
        None
    } else {
        let prev = best_upto(books, symbol, now, threshold_ms, bid, n - 1);
        if eligible(books, n - 1, symbol, now, threshold_ms, bid) {
            let c = cand(books, n - 1, bid);
            match prev {
                None => Some(c),
                Some(p) => if preferred(c, p, bid) {
                    Some(c)
                } else {
                    Some(p)
                },
            }
        } else {
            prev
        }
    }
}

/// Best quote side over the whole store.
pub open spec fn best_spec(
    books: Seq<Orderbook>,
    symbol: u32,
    now: u64,
    threshold_ms: u64,
    bid: bool,
) -> Option<QuoteSide> {
    best_upto(books, symbol, now, threshold_ms, bid, books.len() as int)
}

/// What the selection means: a winner comes from an eligible (hence fresh)
/// book, no eligible book is strictly preferred over it, and a `None`
/// answer means no book was eligible.
pub proof fn lemma_best_upto_props(
    books: Seq<Orderbook>,
    symbol: u32,
    now: u64,
    threshold_ms: u64,
    bid: bool,
    n: int,
)
    requires
        n <= books.len(),
    ensures
        match best_upto(books, symbol, now, threshold_ms, bid, n) {
            Some(c) => (exists|i: int|
                #[trigger] eligible(books, i, symbol, now, threshold_ms, bid) && i < n && c
                    == cand(books, i, bid)) && forall|j: int|
                #[trigger] eligible(books, j, symbol, now, threshold_ms, bid) && j < n
                    ==> !preferred(cand(books, j, bid), c, bid),
            None => forall|j: int|
                j < n ==> !(#[trigger] eligible(books, j, symbol, now, threshold_ms, bid)),
        },
    decreases n,
{
    if n > 0 {
        lemma_best_upto_props(books, symbol, now, threshold_ms, bid, n - 1);
    }
}

impl BookStore {
    /// The consolidated top of book for `symbol` at `now`: the maximum best
    /// bid and minimum best ask over all fresh books for the symbol, with
    /// the documented tie-breaks. Stale books never contribute.
    pub fn top_of_book(&self, symbol: u32, now: u64) -> (r: ConsolidatedQuote)
        requires
            store_wf(*self),
        ensures
            r.symbol == symbol,
            r.computed_at == now,
            r.best_bid == best_spec(self.books@, symbol, now, self.staleness_threshold_ms, true),
            r.best_ask == best_spec(self.books@, symbol, now, self.staleness_threshold_ms, false),
            match r.best_bid {
                Some(c) => (exists|i: int|
                    #[trigger] eligible(
                        self.books@,
                        i,
                        symbol,
                        now,
                        self.staleness_threshold_ms,
                        true,
                    ) && c == cand(self.books@, i, true)) && stored_level(c.level) && forall|j: int|
                    #[trigger] eligible(
                        self.books@,
                        j,
                        symbol,
                        now,
                        self.staleness_threshold_ms,
                        true,
                    ) ==> !preferred(cand(self.books@, j, true), c, true),
                None => forall|j: int|
                    !(#[trigger] eligible(
                        self.books@,
                        j,
                        symbol,
                        now,
                        self.staleness_threshold_ms,
                        true,
                    )),
            },
            match r.best_ask {
                Some(c) => (exists|i: int|
                    #[trigger] eligible(
                        self.books@,
                        i,
                        symbol,
                        now,
                        self.staleness_threshold_ms,
                        false,
                    ) && c == cand(self.books@, i, false)) && stored_level(c.level) && forall|
                    j: int,
                |
                    #[trigger] eligible(
                        self.books@,
                        j,
                        symbol,
                        now,
                        self.staleness_threshold_ms,
                        false,
                    ) ==> !preferred(cand(self.books@, j, false), c, false),
                None => forall|j: int|
                    !(#[trigger] eligible(
                        self.books@,
                        j,
                        symbol,
                        now,
                        self.staleness_threshold_ms,
                        false,
                    )),
            },
    {
        let best_bid = self.best_side(symbol, now, true);
        let best_ask = self.best_side(symbol, now, false);
        proof {
            lemma_best_upto_props(
                self.books@,
                symbol,
                now,
                self.staleness_threshold_ms,
                true,
                self.books@.len() as int,
            );
            lemma_best_upto_props(
                self.books@,
                symbol,
                now,
                self.staleness_threshold_ms,
                false,
                self.books@.len() as int,
            );
        }
        ConsolidatedQuote { symbol, best_bid, best_ask, computed_at: now }
    }

    /// Scan all books once for the best quote on one side.
    fn best_side(&self, symbol: u32, now: u64, bid: bool) -> (r: Option<QuoteSide>)
        requires
            store_wf(*self),
        ensures
            r == best_spec(self.books@, symbol, now, self.staleness_threshold_ms, bid),
    {
        let thr = self.staleness_threshold_ms;
        let mut best: Option<QuoteSide> = None;
        let mut i: usize = 0;
        while i < self.books.len()
            invariant
                store_wf(*self),
                0 <= i <= self.books@.len(),
                thr == self.staleness_threshold_ms,
                best == best_upto(self.books@, symbol, now, thr, bid, i as int),
            decreases self.books.len() - i,
        {
            let b = &self.books[i];
            let is_fresh = now <= b.timestamp || now - b.timestamp <= thr;
            let has_side = if bid {
                b.bids.len() > 0
            } else {
                b.asks.len() > 0
            };
            if b.symbol == symbol && is_fresh && has_side {
                let lv = if bid {
                    b.bids[0]
                } else {
                    b.asks[0]
                };
                let c = QuoteSide { exchange: b.exchange, level: lv, book_timestamp: b.timestamp };
                best = match best {
                    None => Some(c),
                    Some(p) => {
                        let better = if bid {
                            c.level.price > p.level.price
                        } else {
                            c.level.price < p.level.price
                        };
                        let tie = c.level.price == p.level.price;
                        if better || (tie && c.level.quantity > p.level.quantity) || (tie
                            && c.level.quantity == p.level.quantity && c.book_timestamp
                            > p.book_timestamp) {
                            Some(c)
                        } else {
                            Some(p)
                        }
                    },
                };
            }
            i += 1;
        }
        best
    }
}

} // verus!
