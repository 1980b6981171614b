//! The Book Store: exclusive owner of one [`Orderbook`] per
//! (exchange, symbol) key. It applies incremental updates and snapshots,
//! keeps every stored book well-formed, drops out-of-order records, rejects
//! crossed books, and answers staleness queries.

use vstd::prelude::*;

use crate::types::PriceLevel;
use crate::types::Side;
use crate::types::Orderbook;
use crate::types::side_wf;
use crate::types::stored_level;
use crate::types::wf_level;
use crate::types::book_wf;
use crate::types::price_before;
use crate::book::ApplyOutcome;
use crate::book::BookModel;
use crate::book::model;
use crate::book::step_book;
use crate::book::lemma_step_book_wf;
use crate::book::apply_update_book;

verus! {

/// A programming-contract violation handed to the store: such inputs are
/// refused fast, never stored.
#[derive(Clone, Copy, PartialEq, Eq, Structural, Debug)]
pub enum StoreError {
    /// An update level with zero or out-of-range price, or out-of-range
    /// quantity.
    InvalidLevel,
    /// A snapshot book that is unsorted, holds an invalid level, or is
    /// crossed.
    InvalidBook,
}

/// Owns the books; `staleness_threshold_ms` is the configured maximum age a
/// book may have and still feed the consolidated view.
pub struct BookStore {
    pub books: Vec<Orderbook>,
    pub staleness_threshold_ms: u64,
}

/// Index of the book with this key, or `-1` when the store has none.
pub open spec fn find_idx(books: Seq<Orderbook>, exchange: u32, symbol: u32) -> int
    decreases books.len(),
{
    if books.len() == 0 {
        -1
    } else if books[0].exchange == exchange && books[0].symbol == symbol {
        0
    } else {
        let r = find_idx(books.drop_first(), exchange, symbol);
        if r < 0 {
            -1
        } else {
            1 + r
        }
    }
}

/// Store invariant: every book well-formed, and no two books share a key.
pub open spec fn store_wf(st: BookStore) -> bool {
    &&& forall|i: int| 0 <= i < st.books@.len() ==> book_wf(#[trigger] st.books@[i])
    &&& forall|i: int, j: int|
        0 <= i < j < st.books@.len() ==> !((#[trigger] st.books@[i]).exchange
            == (#[trigger] st.books@[j]).exchange && st.books@[i].symbol == st.books@[j].symbol)
}

/// The model of a book that does not exist yet.
pub open spec fn empty_model(exchange: u32, symbol: u32) -> BookModel {
    BookModel {
        exchange,
        symbol,
        bids: Seq::<PriceLevel>::empty(),
        asks: Seq::<PriceLevel>::empty(),
        timestamp: 0,
    }
}

/// A book is fresh at `now` when its age does not exceed the threshold.
pub open spec fn fresh_book(b: Orderbook, now: u64, threshold_ms: u64) -> bool {
    b.timestamp + threshold_ms >= now
}

/// `find_idx` finds a key if and only if some book carries it, and then
/// points at that book.
pub proof fn lemma_find_idx(books: Seq<Orderbook>, exchange: u32, symbol: u32)
    ensures
        find_idx(books, exchange, symbol) >= 0 ==> {
            let i = find_idx(books, exchange, symbol);
            0 <= i < books.len() && books[i].exchange == exchange && books[i].symbol == symbol
        },
        find_idx(books, exchange, symbol) < 0 ==> forall|j: int|
            0 <= j < books.len() ==> !((#[trigger] books[j]).exchange == exchange
                && books[j].symbol == symbol),
    decreases books.len(),
{
    if books.len() > 0 {
        if books[0].exchange == exchange && books[0].symbol == symbol {
        } else {
            lemma_find_idx(books.drop_first(), exchange, symbol);
            let r = find_idx(books.drop_first(), exchange, symbol);
            if r >= 0 {
                assert(books.drop_first()[r] == books[r + 1]);
            } else {
                assert forall|j: int|
                    0 <= j < books.len() implies !((#[trigger] books[j]).exchange == exchange
                    && books[j].symbol == symbol) by {
                    if j > 0 {
                        assert(books.drop_first()[j - 1] == books[j]);
                    }
                }
            }
        }
    }
}

impl BookStore {
    /// A store with no books yet and the given staleness threshold.
    pub fn new(staleness_threshold_ms: u64) -> (r: BookStore)
        ensures
            store_wf(r),
            r.books@.len() == 0,
            r.staleness_threshold_ms == staleness_threshold_ms,
    {
        BookStore { books: Vec::new(), staleness_threshold_ms }
    }

    /// Position of the book for this key, if the store owns one.
    fn find(&self, exchange: u32, symbol: u32) -> (r: Option<usize>)
        ensures
            match r {
                Some(i) => 0 <= i < self.books@.len() && find_idx(self.books@, exchange, symbol)
                    == i as int,
                None => find_idx(self.books@, exchange, symbol) < 0,
            },
    {
        let mut i: usize = 0;
        while i < self.books.len()
            invariant
                0 <= i <= self.books@.len(),
                forall|j: int|
                    0 <= j < i ==> !((#[trigger] self.books@[j]).exchange == exchange
                        && self.books@[j].symbol == symbol),
            decreases self.books.len() - i,
        {
            if self.books[i].exchange == exchange && self.books[i].symbol == symbol {
                proof {
                    lemma_find_idx_from_scan(self.books@, exchange, symbol, i as int);
                }
                return Some(i);
            }
            i += 1;
        }
        proof {
            lemma_find_idx_none_from_scan(self.books@, exchange, symbol);
        }
        None
    }

    /// Apply one incremental price-level update to the book for this key,
    /// creating the book on first contact. Invalid levels are refused;
    /// out-of-order replays are dropped; updates that would cross the book
    /// are rejected; everything else is committed exactly as
    /// [`step_book`] says.
    pub fn apply_update(
        &mut self,
        exchange: u32,
        symbol: u32,
        side: Side,
        lv: PriceLevel,
    ) -> (r: Result<ApplyOutcome, StoreError>)
        requires
            store_wf(*old(self)),
        ensures
            store_wf(*final(self)),
            final(self).staleness_threshold_ms == old(self).staleness_threshold_ms,
            match r {
                Err(e) => *final(self) == *old(self) && e == StoreError::InvalidLevel
                    && !wf_level(lv),
                Ok(out) => wf_level(lv) && {
                    let i = find_idx(old(self).books@, exchange, symbol);
                    if i >= 0 {
                        &&& final(self).books@.len() == old(self).books@.len()
                        &&& forall|j: int|
                            0 <= j < old(self).books@.len() && j != i ==> final(self).books@[j]
                                == old(self).books@[j]
                        &&& model(final(self).books@[i]) == step_book(
                            model(old(self).books@[i]),
                            side,
                            lv,
                        ).0
                        &&& out == step_book(model(old(self).books@[i]), side, lv).1
                    } else {
                        &&& final(self).books@.len() == old(self).books@.len() + 1
                        &&& forall|j: int|
                            0 <= j < old(self).books@.len() ==> final(self).books@[j] == old(
                                self,
                            ).books@[j]
                        &&& model(final(self).books@[old(self).books@.len() as int]) == step_book(
                            empty_model(exchange, symbol),
                            side,
                            lv,
                        ).0
                        &&& out == step_book(empty_model(exchange, symbol), side, lv).1
                    }
                },
            },
    {
        if !(0 < lv.price && lv.price <= crate::types::PRICE_MAX && lv.quantity
            <= crate::types::QTY_MAX) {
            return Err(StoreError::InvalidLevel);
        }
        proof {
            lemma_find_idx(self.books@, exchange, symbol);
        }
        match self.find(exchange, symbol) {
            Some(i) => {
                let ghost books0 = self.books@;
                let mut bk = self.books.remove(i);
                let out = apply_update_book(&mut bk, side, lv);
                proof {
                    lemma_step_book_wf(model(books0[i as int]), side, lv);
                }
                self.books.insert(i, bk);
                proof {
                    assert(self.books@ =~= books0.update(i as int, bk));
                }
                Ok(out)
            },
            None => {
                let mut bk = Orderbook::empty(exchange, symbol);
                proof {
                    assert(model(bk) =~= empty_model(exchange, symbol));
                    lemma_step_book_wf(empty_model(exchange, symbol), side, lv);
                }
                let out = apply_update_book(&mut bk, side, lv);
                self.books.push(bk);
                Ok(out)
            },
        }
    }

    /// Replace the whole book for the snapshot's key atomically. A snapshot
    /// that breaks the book invariant is refused; one older than the stored
    /// book is dropped.
    pub fn apply_snapshot(&mut self, book: Orderbook) -> (r: Result<ApplyOutcome, StoreError>)
        requires
            store_wf(*old(self)),
        ensures
            store_wf(*final(self)),
            final(self).staleness_threshold_ms == old(self).staleness_threshold_ms,
            match r {
                Err(e) => *final(self) == *old(self) && e == StoreError::InvalidBook && !book_wf(
                    book,
                ),
                Ok(out) => book_wf(book) && {
                    let i = find_idx(old(self).books@, book.exchange, book.symbol);
                    if i >= 0 && book.timestamp < old(self).books@[i].timestamp {
                        &&& *final(self) == *old(self)
                        &&& out == ApplyOutcome::DroppedOutOfOrder
                    } else if i >= 0 {
                        &&& final(self).books@ =~= old(self).books@.update(i, book)
                        &&& out == ApplyOutcome::Applied
                    } else {
                        &&& final(self).books@ =~= old(self).books@.push(book)
                        &&& out == ApplyOutcome::Applied
                    }
                },
            },
    {
        if !check_book_wf(&book) {
            return Err(StoreError::InvalidBook);
        }
        proof {
            lemma_find_idx(self.books@, book.exchange, book.symbol);
        }
        match self.find(book.exchange, book.symbol) {
            Some(i) => {
                if book.timestamp < self.books[i].timestamp {
                    return Ok(ApplyOutcome::DroppedOutOfOrder);
                }
                let ghost books0 = self.books@;
                self.books.remove(i);
                self.books.insert(i, book);
                proof {
                    assert(self.books@ =~= books0.update(i as int, book));
                }
                Ok(ApplyOutcome::Applied)
            },
            None => {
                self.books.push(book);
                Ok(ApplyOutcome::Applied)
            },
        }
    }

    /// Read-only snapshot of the book for this key, if the store owns one.
    pub fn get(&self, exchange: u32, symbol: u32) -> (r: Option<Orderbook>)
        ensures
            match r {
                Some(b) => {
                    let i = find_idx(self.books@, exchange, symbol);
                    &&& i >= 0
                    &&& b.exchange == self.books@[i].exchange
                    &&& b.symbol == self.books@[i].symbol
                    &&& b.bids@ == self.books@[i].bids@
                    &&& b.asks@ == self.books@[i].asks@
                    &&& b.timestamp == self.books@[i].timestamp
                },
                None => find_idx(self.books@, exchange, symbol) < 0,
            },
    {
        match self.find(exchange, symbol) {
            Some(i) => Some(self.books[i].snapshot()),
            None => None,
        }
    }

    /// Whether the book for this key is too old at `now` to be trusted; a
    /// key with no book counts as stale.
    pub fn is_stale(&self, exchange: u32, symbol: u32, now: u64) -> (r: bool)
        ensures
            r == {
                let i = find_idx(self.books@, exchange, symbol);
                if i >= 0 {
                    !fresh_book(self.books@[i], now, self.staleness_threshold_ms)
                } else {
                    true
                }
            },
    {
        match self.find(exchange, symbol) {
            Some(i) => {
                let ts = self.books[i].timestamp;
                if ts >= now {
                    false
                } else {
                    now - ts > self.staleness_threshold_ms
                }
            },
            None => true,
        }
    }
}

/// A scan that found the key at `i`, with no earlier match, found
/// `find_idx`.
pub proof fn lemma_find_idx_from_scan(books: Seq<Orderbook>, exchange: u32, symbol: u32, i: int)
    requires
        0 <= i < books.len(),
        books[i].exchange == exchange && books[i].symbol == symbol,
        forall|j: int|
            0 <= j < i ==> !((#[trigger] books[j]).exchange == exchange && books[j].symbol
                == symbol),
    ensures
        find_idx(books, exchange, symbol) == i,
    decreases books.len(),
{
    if books[0].exchange == exchange && books[0].symbol == symbol {
        assert(i == 0);
    } else {
        assert(i > 0);
        assert forall|j: int|
            0 <= j < i - 1 implies !((#[trigger] books.drop_first()[j]).exchange == exchange
            && books.drop_first()[j].symbol == symbol) by {
            assert(books.drop_first()[j] == books[j + 1]);
        }
        assert(books.drop_first()[i - 1] == books[i]);
        lemma_find_idx_from_scan(books.drop_first(), exchange, symbol, i - 1);
    }
}

/// A scan that found no match found none.
pub proof fn lemma_find_idx_none_from_scan(books: Seq<Orderbook>, exchange: u32, symbol: u32)
    requires
        forall|j: int|
            0 <= j < books.len() ==> !((#[trigger] books[j]).exchange == exchange
                && books[j].symbol == symbol),
    ensures
        find_idx(books, exchange, symbol) < 0,
    decreases books.len(),
{
    if books.len() > 0 {
        assert forall|j: int|
            0 <= j < books.drop_first().len() implies !((#[trigger] books.drop_first()[j]).exchange
            == exchange && books.drop_first()[j].symbol == symbol) by {
            assert(books.drop_first()[j] == books[j + 1]);
        }
        lemma_find_idx_none_from_scan(books.drop_first(), exchange, symbol);
    }
}

/// Exec check of one side's well-formedness.
fn check_side_wf(s: &Vec<PriceLevel>, desc: bool) -> (r: bool)
    ensures
        r == side_wf(s@, desc),
{
    let mut i: usize = 0;
    while i < s.len()
        invariant
            0 <= i <= s.len(),
            forall|a: int, b: int|
                0 <= a < b < i ==> #[trigger] price_before(s@[a].price, s@[b].price, desc),
            forall|a: int| 0 <= a < i ==> stored_level(#[trigger] s@[a]),
        decreases s.len() - i,
    {
        let lv = s[i];
        let lv_ok = 0 < lv.price && lv.price <= crate::types::PRICE_MAX && 0 < lv.quantity
            && lv.quantity <= crate::types::QTY_MAX;
        let ord_ok = if i == 0 {
            true
        } else {
            crate::book::price_before_exec(s[i - 1].price, lv.price, desc)
        };
        if !(lv_ok && ord_ok) {
            proof {
                if !lv_ok {
                    assert(!stored_level(s@[i as int]));
                } else {
                    assert(!price_before(s@[i as int - 1].price, s@[i as int].price, desc));
                }
            }
            return false;
        }
        proof {
            assert forall|a: int, b: int|
                0 <= a < b < i + 1 implies #[trigger] price_before(
                s@[a].price,
                s@[b].price,
                desc,
            ) by {
                if b == i as int && a < b - 1 {
                    assert(price_before(s@[a].price, s@[b - 1].price, desc));
                    assert(price_before(s@[b - 1].price, s@[b].price, desc));
                }
            }
        }
        i += 1;
    }
    true
}

/// Exec check of the whole book invariant.
pub fn check_book_wf(b: &Orderbook) -> (r: bool)
    ensures
        r == book_wf(*b),
{
    if !check_side_wf(&b.bids, true) {
        return false;
    }
    if !check_side_wf(&b.asks, false) {
        return false;
    }
    if b.bids.len() > 0 && b.asks.len() > 0 && b.bids[0].price >= b.asks[0].price {
        return false;
    }
    true
}

} // verus!

verus! {

impl BookStore {
    /// Account a captured fill back into the stored book: the quantity the
    /// execution engine took at `price` is no longer available, so the
    /// consolidated view cannot count it twice. Returns whether a book for
    /// the key existed. The book timestamp does not move: this is the
    /// engine's accounting, not a feed record.
    pub fn consume_liquidity(
        &mut self,
        exchange: u32,
        symbol: u32,
        side: Side,
        price: u64,
        quantity: u64,
    ) -> (r: bool)
        requires
            store_wf(*old(self)),
        ensures
            store_wf(*final(self)),
            final(self).staleness_threshold_ms == old(self).staleness_threshold_ms,
            r == (find_idx(old(self).books@, exchange, symbol) >= 0),
            if r {
                let i = find_idx(old(self).books@, exchange, symbol);
                &&& final(self).books@.len() == old(self).books@.len()
                &&& forall|j: int|
                    0 <= j < old(self).books@.len() && j != i ==> final(self).books@[j] == old(
                        self,
                    ).books@[j]
                &&& model(final(self).books@[i]) == crate::book::consume_book_spec(
                    model(old(self).books@[i]),
                    side,
                    price,
                    quantity,
                )
            } else {
                *final(self) == *old(self)
            },
    {
        proof {
            lemma_find_idx(self.books@, exchange, symbol);
        }
        match self.find(exchange, symbol) {
            Some(i) => {
                let ghost books0 = self.books@;
                let mut bk = self.books.remove(i);
                proof {
                    crate::book::lemma_consume_book_wf(model(bk), side, price, quantity);
                }
                crate::book::consume_book(&mut bk, side, price, quantity);
                self.books.insert(i, bk);
                proof {
                    assert(self.books@ =~= books0.update(i as int, bk));
                }
                true
            },
            None => false,
        }
    }
}

} // verus!
