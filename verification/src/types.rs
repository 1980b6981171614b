//! Value types shared by the whole engine: fixed-point price levels, one-sided
//! order-book sequences and the two-sided `Orderbook`, with their
//! well-formedness invariants.

use vstd::prelude::*;

verus! {

/// Fixed-point scale: a price or quantity `v` stands for the decimal
/// `v / SCALE` (six decimal places).
pub const SCALE: u64 = 1_000_000;

/// Largest representable scaled price (one million whole units), chosen so
/// that `quantity * price` and `quantity * spread` always fit in `u128` and
/// their `/ SCALE` quotients fit in `u64`.
pub const PRICE_MAX: u64 = 1_000_000_000_000;

/// Largest representable scaled quantity; same bound as [`PRICE_MAX`].
pub const QTY_MAX: u64 = 1_000_000_000_000;

/// One price level of an order book: a scaled price, the scaled quantity
/// available at it, and the feed timestamp (milliseconds) of the record that
/// last set it. A level with `quantity == 0` in an update message means
/// removal of that price; a stored level always has `quantity > 0`.
#[derive(Clone, Copy, PartialEq, Eq, Structural, Debug)]
pub struct PriceLevel {
    pub price: u64,
    pub quantity: u64,
    pub timestamp: u64,
}

/// Which side of the book an update addresses.
#[derive(Clone, Copy, PartialEq, Eq, Structural, Debug)]
pub enum Side {
    Bid,
    Ask,
}

/// A two-sided order book for one (exchange, symbol) pair. Bids are kept
/// strictly descending by price, asks strictly ascending, the book is never
/// crossed, and `timestamp` is the largest feed timestamp applied so far.
#[derive(Debug)]
pub struct Orderbook {
    pub exchange: u32,
    pub symbol: u32,
    pub bids: Vec<PriceLevel>,
    pub asks: Vec<PriceLevel>,
    pub timestamp: u64,
}

/// A level acceptable in an update message: positive bounded price, bounded
/// quantity (zero meaning removal).
pub open spec fn wf_level(lv: PriceLevel) -> bool {
    0 < lv.price <= PRICE_MAX && lv.quantity <= QTY_MAX
}

/// A level as stored inside a book: additionally non-empty.
pub open spec fn stored_level(lv: PriceLevel) -> bool {
    wf_level(lv) && lv.quantity > 0
}

/// `a` comes strictly earlier than `b` on a side: higher first for bids
/// (`desc`), lower first for asks.
pub open spec fn price_before(a: u64, b: u64, desc: bool) -> bool {
    if desc {
        a > b
    } else {
        a < b
    }
}

/// Strict ordering of a side; strictness also rules out duplicate prices.
pub open spec fn side_sorted(s: Seq<PriceLevel>, desc: bool) -> bool {
    forall|i: int, j: int|
        0 <= i < j < s.len() ==> #[trigger] price_before(s[i].price, s[j].price, desc)
}

/// Well-formed side: strictly ordered, every stored level valid and non-empty.
pub open spec fn side_wf(s: Seq<PriceLevel>, desc: bool) -> bool {
    side_sorted(s, desc) && forall|i: int| 0 <= i < s.len() ==> stored_level(#[trigger] s[i])
}

/// The book is not crossed: whenever both sides are non-empty, the best bid
/// is strictly below the best ask.
pub open spec fn not_crossed(bids: Seq<PriceLevel>, asks: Seq<PriceLevel>) -> bool {
    bids.len() > 0 && asks.len() > 0 ==> bids[0].price < asks[0].price
}

/// Full order-book invariant.
pub open spec fn book_wf(b: Orderbook) -> bool {
    side_wf(b.bids@, true) && side_wf(b.asks@, false) && not_crossed(b.bids@, b.asks@)
}

impl Orderbook {
    /// An empty book for one (exchange, symbol) pair.
    pub fn empty(exchange: u32, symbol: u32) -> (r: Orderbook)
        ensures
            book_wf(r),
            r.exchange == exchange,
            r.symbol == symbol,
            r.bids@ =~= Seq::<PriceLevel>::empty(),
            r.asks@ =~= Seq::<PriceLevel>::empty(),
            r.timestamp == 0,
    {
        Orderbook { exchange, symbol, bids: Vec::new(), asks: Vec::new(), timestamp: 0 }
    }

    /// A deep, field-for-field copy: the read-only snapshot handed to the
    /// consolidated view and the detector.
    pub fn snapshot(&self) -> (r: Orderbook)
        ensures
            r.exchange == self.exchange,
            r.symbol == self.symbol,
            r.bids@ == self.bids@,
            r.asks@ == self.asks@,
            r.timestamp == self.timestamp,
    {
        Orderbook {
            exchange: self.exchange,
            symbol: self.symbol,
            bids: copy_levels(&self.bids),
            asks: copy_levels(&self.asks),
            timestamp: self.timestamp,
        }
    }
}

/// Element-wise copy of a side.
pub fn copy_levels(s: &Vec<PriceLevel>) -> (r: Vec<PriceLevel>)
    ensures
        r@ == s@,
{
    let mut r: Vec<PriceLevel> = Vec::new();
    let mut i: usize = 0;
    while i < s.len()
        invariant
            0 <= i <= s.len(),
            r@ =~= s@.subrange(0, i as int),
        decreases s.len() - i,
    {
        r.push(s[i]);
        i += 1;
    }
    proof {
        assert(r@ =~= s@);
    }
    r
}

} // verus!
