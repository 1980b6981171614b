//! The Arbitrage Detector: given the consolidated top of book, decide
//! whether a cross-exchange opportunity exists net of flat per-exchange fees
//! and the configured margin, compute its size and expected net profit
//! exactly, and rank opportunities best first.

use vstd::prelude::*;

use crate::types::SCALE;
use crate::types::QTY_MAX;
use crate::types::PRICE_MAX;
use crate::types::stored_level;
use crate::consolidated::ConsolidatedQuote;
use crate::consolidated::QuoteSide;
use crate::consolidated::best_spec;
use crate::types::Orderbook;
use crate::store::BookStore;
use crate::store::store_wf;

verus! {

/// Flat taker fee (scaled units) charged by one exchange per trade.
#[derive(Clone, Copy, PartialEq, Eq, Structural, Debug)]
pub struct ExchangeFee {
    pub exchange: u32,
    pub fee: u64,
}

/// Per-exchange flat fee schedule; an exchange without an entry trades
/// free of fees.
pub struct FeeSchedule {
    pub entries: Vec<ExchangeFee>,
}

/// Detector configuration: margin the spread must clear beyond the fees,
/// per-trade size cap, and the smallest net profit worth emitting.
pub struct DetectorConfig {
    pub min_profit_margin: u64,
    pub per_trade_quantity_cap: u64,
    pub min_profit_threshold: u64,
    pub fees: FeeSchedule,
}

/// A detected cross-exchange opportunity: buy `max_quantity` at
/// `buy_price` on `buy_exchange`, sell it at `sell_price` on
/// `sell_exchange`, for `expected_net_profit` after both fees. Never
/// mutated after creation.
#[derive(Clone, Copy, PartialEq, Eq, Structural, Debug)]
pub struct Opportunity {
    pub symbol: u32,
    pub buy_exchange: u32,
    pub sell_exchange: u32,
    pub buy_price: u64,
    pub sell_price: u64,
    pub max_quantity: u64,
    pub expected_net_profit: u128,
    pub detected_at: u64,
}

/// Fee of `exchange` under the schedule: first matching entry, else zero.
pub open spec fn fee_of(entries: Seq<ExchangeFee>, exchange: u32) -> u64
    decreases entries.len(),
{
    if entries.len() == 0 {
        0
    } else if entries[0].exchange == exchange {
        entries[0].fee
    } else {
        fee_of(entries.drop_first(), exchange)
    }
}

/// Both sides of the quote are present and hold stored (bounded, non-empty)
/// levels, as [`crate::store::BookStore::top_of_book`] guarantees.
pub open spec fn quote_wf(q: ConsolidatedQuote) -> bool {
    &&& q.best_bid matches Some(c) ==> stored_level(c.level)
    &&& q.best_ask matches Some(c) ==> stored_level(c.level)
}

/// The trade size of an opportunity: the smaller available quantity,
/// clamped by the per-trade cap.
pub open spec fn trade_qty(bb: QuoteSide, aa: QuoteSide, cap: u64) -> u64 {
    if bb.level.quantity <= aa.level.quantity {
        if bb.level.quantity <= cap {
            bb.level.quantity
        } else {
            cap
        }
    } else {
        if aa.level.quantity <= cap {
            aa.level.quantity
        } else {
            cap
        }
    }
}

/// Expected net profit (scaled units, mathematical integer): quantity times
/// spread, brought back to the fixed-point scale, minus both flat fees.
pub open spec fn net_profit(qty: u64, sell_price: u64, buy_price: u64, fees: int) -> int {
    qty * (sell_price - buy_price) / (SCALE as int) - fees
}

/// An opportunity exists on this quote: both sides quoted, by different
/// exchanges, spread above fees plus margin, and net profit both positive
/// and at or above the emission threshold.
pub open spec fn opp_exists(q: ConsolidatedQuote, cfg: DetectorConfig) -> bool {
    &&& q.best_bid is Some
    &&& q.best_ask is Some
    &&& {
        let bb = q.best_bid->Some_0;
        let aa = q.best_ask->Some_0;
        let fees = fee_of(cfg.fees.entries@, aa.exchange) + fee_of(cfg.fees.entries@, bb.exchange);
        let qty = trade_qty(bb, aa, cfg.per_trade_quantity_cap);
        &&& bb.exchange != aa.exchange
        &&& bb.level.price > aa.level.price
        &&& bb.level.price - aa.level.price > fees + cfg.min_profit_margin
        &&& net_profit(qty, bb.level.price, aa.level.price, fees) > 0
        &&& net_profit(qty, bb.level.price, aa.level.price, fees) >= cfg.min_profit_threshold
    }
}

/// The record emitted for a quote on which an opportunity exists.
pub open spec fn opp_spec(q: ConsolidatedQuote, cfg: DetectorConfig) -> Opportunity {
    let bb = q.best_bid->Some_0;
    let aa = q.best_ask->Some_0;
    let fees = fee_of(cfg.fees.entries@, aa.exchange) + fee_of(cfg.fees.entries@, bb.exchange);
    let qty = trade_qty(bb, aa, cfg.per_trade_quantity_cap);
    Opportunity {
        symbol: q.symbol,
        buy_exchange: aa.exchange,
        sell_exchange: bb.exchange,
        buy_price: aa.level.price,
        sell_price: bb.level.price,
        max_quantity: qty,
        expected_net_profit: net_profit(qty, bb.level.price, aa.level.price, fees) as u128,
        detected_at: q.computed_at,
    }
}

impl FeeSchedule {
    /// Look the flat fee of one exchange up.
    pub fn fee(&self, exchange: u32) -> (r: u64)
        ensures
            r == fee_of(self.entries@, exchange),
    {
        let mut i: usize = 0;
        proof {
            assert(self.entries@.subrange(0, self.entries@.len() as int) =~= self.entries@);
        }
        while i < self.entries.len()
            invariant
                0 <= i <= self.entries@.len(),
                fee_of(self.entries@, exchange) == fee_of(
                    self.entries@.subrange(i as int, self.entries@.len() as int),
                    exchange,
                ),
            decreases self.entries.len() - i,
        {
            let e = self.entries[i];
            proof {
                assert(self.entries@.subrange(i as int, self.entries@.len() as int)[0] == e);
                assert(self.entries@.subrange(i as int, self.entries@.len() as int).drop_first()
                    =~= self.entries@.subrange(i as int + 1, self.entries@.len() as int));
            }
            if e.exchange == exchange {
                return e.fee;
            }
            i += 1;
        }
        proof {
            assert(self.entries@.subrange(
                self.entries@.len() as int,
                self.entries@.len() as int,
            ).len() == 0);
        }
        0
    }
}

/// Decide whether this consolidated quote carries an arbitrage opportunity,
/// and emit the exact record if so. Emits nothing on a one-sided or
/// same-exchange quote, on a spread inside fees plus margin, or on a net
/// profit that is zero, negative, or below the threshold.
pub fn detect(q: &ConsolidatedQuote, cfg: &DetectorConfig) -> (r: Option<Opportunity>)
    requires
        quote_wf(*q),
    ensures
        r is Some <==> opp_exists(*q, *cfg),
        r matches Some(op) ==> op == opp_spec(*q, *cfg) && op.expected_net_profit > 0
            && op.buy_exchange != op.sell_exchange,
        r matches Some(op) ==> 0 < op.buy_price <= PRICE_MAX && 0 < op.sell_price <= PRICE_MAX
            && 0 < op.max_quantity <= QTY_MAX,
{
    let (bb, aa) = match (&q.best_bid, &q.best_ask) {
        (Some(b), Some(a)) => (*b, *a),
        _ => {
            return None;
        },
    };
    if bb.exchange == aa.exchange {
        return None;
    }
    if bb.level.price <= aa.level.price {
        return None;
    }
    let spread = bb.level.price - aa.level.price;
    let buy_fee = cfg.fees.fee(aa.exchange);
    let sell_fee = cfg.fees.fee(bb.exchange);
    let fees: u128 = buy_fee as u128 + sell_fee as u128;
    let margin: u128 = cfg.min_profit_margin as u128;
    if (spread as u128) <= fees + margin {
        return None;
    }
    let lesser = if bb.level.quantity <= aa.level.quantity {
        bb.level.quantity
    } else {
        aa.level.quantity
    };
    let qty = if lesser <= cfg.per_trade_quantity_cap {
        lesser
    } else {
        cfg.per_trade_quantity_cap
    };
    proof {
        assert(qty <= QTY_MAX && spread <= PRICE_MAX);
        assert((qty as int) * (spread as int) <= (QTY_MAX as int) * (PRICE_MAX as int))
            by (nonlinear_arith)
            requires
                qty <= QTY_MAX && spread <= PRICE_MAX,
        ;
    }
    let grossn: u128 = (qty as u128) * (spread as u128) / (SCALE as u128);
    if grossn <= fees {
        return None;
    }
    let net = grossn - fees;
    if net < cfg.min_profit_threshold as u128 {
        return None;
    }
    proof {
        assert(net == net_profit(qty, bb.level.price, aa.level.price, fees as int));
        assert(opp_exists(*q, *cfg));
        if qty == 0 {
            assert((qty as u128) * (spread as u128) == 0) by (nonlinear_arith)
                requires
                    qty == 0u64,
            ;
            assert(grossn == 0);
        }
        assert(qty > 0);
    }
    Some(
        Opportunity {
            symbol: q.symbol,
            buy_exchange: aa.exchange,
            sell_exchange: bb.exchange,
            buy_price: aa.level.price,
            sell_price: bb.level.price,
            max_quantity: qty,
            expected_net_profit: net,
            detected_at: q.computed_at,
        },
    )
}

} // verus!

verus! {

/// The consolidated quote that [`crate::store::BookStore::top_of_book`]
/// computes for one symbol, as a spec-level value.
pub open spec fn quote_spec(
    books: Seq<Orderbook>,
    symbol: u32,
    now: u64,
    threshold_ms: u64,
) -> ConsolidatedQuote {
    ConsolidatedQuote {
        symbol,
        best_bid: best_spec(books, symbol, now, threshold_ms, true),
        best_ask: best_spec(books, symbol, now, threshold_ms, false),
        computed_at: now,
    }
}

/// What one scan pass emits for one symbol.
pub open spec fn scan_opp(
    books: Seq<Orderbook>,
    symbol: u32,
    now: u64,
    threshold_ms: u64,
    cfg: DetectorConfig,
) -> Option<Opportunity> {
    if opp_exists(quote_spec(books, symbol, now, threshold_ms), cfg) {
        Some(opp_spec(quote_spec(books, symbol, now, threshold_ms), cfg))
    } else {
        None
    }
}

/// `a` may stand before `b` in a ranked list: larger profit first, ties by
/// earlier detection.
pub open spec fn rank_ok(a: Opportunity, b: Opportunity) -> bool {
    ||| a.expected_net_profit > b.expected_net_profit
    ||| (a.expected_net_profit == b.expected_net_profit && a.detected_at <= b.detected_at)
}

/// The list is ranked best first.
pub open spec fn ranked(s: Seq<Opportunity>) -> bool {
    forall|i: int, j: int| 0 <= i < j < s.len() ==> #[trigger] rank_ok(s[i], s[j])
}

/// Insert an opportunity into a ranked list, keeping it ranked; existing
/// entries all survive.
fn insert_ranked(v: &mut Vec<Opportunity>, op: Opportunity)
    requires
        ranked(old(v)@),
    ensures
        ranked(final(v)@),
        final(v)@.len() == old(v)@.len() + 1,
        final(v)@.contains(op),
        forall|x: Opportunity| old(v)@.contains(x) ==> final(v)@.contains(x),
        forall|j: int|
            0 <= j < final(v)@.len() ==> final(v)@[j] == op || old(v)@.contains(
                #[trigger] final(v)@[j],
            ),
{
    let ghost v0 = v@;
    let mut i: usize = 0;
    while i < v.len() && !(op.expected_net_profit > v[i].expected_net_profit
        || (op.expected_net_profit == v[i].expected_net_profit && op.detected_at
            < v[i].detected_at))
        invariant
            0 <= i <= v@.len(),
            v@ == v0,
            forall|j: int| 0 <= j < i ==> rank_ok(#[trigger] v@[j], op),
        decreases v.len() - i,
    {
        i += 1;
    }
    proof {
        if (i as int) < v0.len() {
            assert(rank_ok(op, v0[i as int]));
        }
    }
    v.insert(i, op);
    proof {
        let vn = v@;
        assert forall|a: int, b: int| 0 <= a < b < vn.len() implies #[trigger] rank_ok(
            vn[a],
            vn[b],
        ) by {
            let a0 = if a < i as int {
                a
            } else {
                a - 1
            };
            let b0 = if b < i as int {
                b
            } else {
                b - 1
            };
            if a == i as int {
                assert(vn[a] == op);
                assert(vn[b] == v0[b0]);
                assert(rank_ok(op, v0[i as int]));
                if b0 > i as int {
                    assert(rank_ok(v0[i as int], v0[b0]));
                }
            } else if b == i as int {
                assert(vn[a] == v0[a0]);
                assert(rank_ok(v0[a0], op));
            } else {
                assert(vn[a] == v0[a0]);
                assert(vn[b] == v0[b0]);
                if a0 < b0 {
                    assert(rank_ok(v0[a0], v0[b0]));
                } else {
                    assert(a0 == b0);
                }
            }
        }
        assert(vn[i as int] == op);
        assert(vn.contains(op));
        assert forall|x: Opportunity| v0.contains(x) implies vn.contains(x) by {
            let j = choose|j: int| 0 <= j < v0.len() && v0[j] == x;
            let jn = if j < i as int {
                j
            } else {
                j + 1
            };
            assert(vn[jn] == x);
        }
    }
}

/// Scan the given symbols against the store: for each, compute the
/// consolidated quote at `now` and test it for an opportunity; emit every
/// opportunity found, ranked by expected net profit descending, equal
/// profits by earlier detection time.
pub fn scan(store: &BookStore, symbols: &Vec<u32>, cfg: &DetectorConfig, now: u64) -> (r: Vec<
    Opportunity,
>)
    requires
        store_wf(*store),
    ensures
        ranked(r@),
        forall|k: int|
            0 <= k < symbols@.len() && (#[trigger] scan_opp(
                store.books@,
                symbols@[k],
                now,
                store.staleness_threshold_ms,
                *cfg,
            )) is Some ==> r@.contains(
                scan_opp(
                    store.books@,
                    symbols@[k],
                    now,
                    store.staleness_threshold_ms,
                    *cfg,
                )->Some_0,
            ),
        forall|j: int| #![trigger r@[j]]
            0 <= j < r@.len() ==> scan_opp(
                store.books@,
                r@[j].symbol,
                now,
                store.staleness_threshold_ms,
                *cfg,
            ) == Some(r@[j]) && symbols@.contains(r@[j].symbol),
{
    let ghost thr = store.staleness_threshold_ms;
    let mut r: Vec<Opportunity> = Vec::new();
    let mut i: usize = 0;
    while i < symbols.len()
        invariant
            store_wf(*store),
            thr == store.staleness_threshold_ms,
            0 <= i <= symbols@.len(),
            ranked(r@),
            forall|k: int|
                0 <= k < i && (#[trigger] scan_opp(store.books@, symbols@[k], now, thr, *cfg))
                    is Some ==> r@.contains(
                    scan_opp(store.books@, symbols@[k], now, thr, *cfg)->Some_0,
                ),
            forall|j: int| #![trigger r@[j]]
                0 <= j < r@.len() ==> scan_opp(store.books@, r@[j].symbol, now, thr, *cfg)
                    == Some(r@[j]) && symbols@.contains(r@[j].symbol),
        decreases symbols.len() - i,
    {
        let sym = symbols[i];
        let q = store.top_of_book(sym, now);
        proof {
            assert(q == quote_spec(store.books@, sym, now, thr));
        }
        let found = detect(&q, cfg);
        match found {
            Some(op) => {
                let ghost r0 = r@;
                insert_ranked(&mut r, op);
                proof {
                    assert(scan_opp(store.books@, sym, now, thr, *cfg) == Some(op));
                    assert(symbols@[i as int] == sym);
                    assert forall|j: int| #![trigger r@[j]] 0 <= j < r@.len() implies scan_opp(
                        store.books@,
                        r@[j].symbol,
                        now,
                        thr,
                        *cfg,
                    ) == Some(r@[j]) && symbols@.contains(r@[j].symbol) by {
                        if r@[j] == op {
                            assert(op.symbol == sym);
                        } else {
                            assert(r0.contains(r@[j]));
                            let j0 = choose|j0: int| 0 <= j0 < r0.len() && r0[j0] == r@[j];
                            assert(r0[j0] == r@[j]);
                        }
                    }
                }
            },
            None => {
                proof {
                    assert(scan_opp(store.books@, sym, now, thr, *cfg) is None);
                }
            },
        }
        i += 1;
    }
    r
}

} // verus!
