//! Applying one incremental update to one side of an order book: insertion
//! point computation, the insert/replace/remove step, out-of-order dropping,
//! and the crossed-book rejection, together with the proofs that every
//! update preserves the book invariant.

use vstd::prelude::*;
use vstd::pervasive::VecAdditionalExecFns;

use crate::types::PriceLevel;
use crate::types::Side;
use crate::types::Orderbook;
use crate::types::price_before;
use crate::types::side_sorted;
use crate::types::side_wf;
use crate::types::stored_level;
use crate::types::wf_level;
use crate::types::not_crossed;
use crate::types::book_wf;

verus! {

/// How the book store answered one update: applied, silently dropped as an
/// out-of-order replay, or rejected because it would cross the book.
#[derive(Clone, Copy, PartialEq, Eq, Structural, Debug)]
pub enum ApplyOutcome {
    Applied,
    DroppedOutOfOrder,
    RejectedCrossed,
}

/// Insertion point of price `p` in side `s`: the length of the prefix of
/// levels that come strictly before `p`.
pub open spec fn ip(s: Seq<PriceLevel>, p: u64, desc: bool) -> int
    decreases s.len(),
{
    if s.len() == 0 {
        0
    } else if price_before(s[0].price, p, desc) {
        1 + ip(s.drop_first(), p, desc)
    } else {
        0
    }
}

/// The side already stores a record at this price with a strictly newer
/// timestamp: the update is an out-of-order replay and must be dropped.
pub open spec fn newer_stored(s: Seq<PriceLevel>, lv: PriceLevel) -> bool {
    exists|i: int|
        0 <= i < s.len() && (#[trigger] s[i]).price == lv.price && s[i].timestamp > lv.timestamp
}

/// The new contents of a side after applying `lv` (assuming it is not an
/// out-of-order replay): replace or remove at a matching price, otherwise
/// insert at the sorted position; a removal of an absent price is a no-op.
pub open spec fn upsert_seq(s: Seq<PriceLevel>, lv: PriceLevel, desc: bool) -> Seq<PriceLevel> {
    let i = ip(s, lv.price, desc);
    if i < s.len() && s[i].price == lv.price {
        if s[i].timestamp > lv.timestamp {
            s
        } else if lv.quantity == 0 {
            s.remove(i)
        } else {
            s.update(i, lv)
        }
    } else {
        if lv.quantity == 0 {
            s
        } else {
            s.insert(i, lv)
        }
    }
}

/// The insertion point is a valid index bound; everything before it comes
/// strictly before `p`, and the level at it (if any) does not.
pub proof fn lemma_ip_props(s: Seq<PriceLevel>, p: u64, desc: bool)
    ensures
        0 <= ip(s, p, desc) <= s.len(),
        forall|j: int|
            0 <= j < ip(s, p, desc) ==> #[trigger] price_before(s[j].price, p, desc),
        ip(s, p, desc) < s.len() ==> !price_before(s[ip(s, p, desc)].price, p, desc),
    decreases s.len(),
{
    if s.len() == 0 {
    } else if price_before(s[0].price, p, desc) {
        lemma_ip_props(s.drop_first(), p, desc);
        let i = ip(s, p, desc);
        assert forall|j: int| 0 <= j < i implies #[trigger] price_before(s[j].price, p, desc) by {
            if j > 0 {
                assert(s.drop_first()[j - 1] == s[j]);
            }
        }
        if i < s.len() {
            assert(s.drop_first()[i - 1] == s[i]);
        }
    } else {
    }
}

/// A scan that stopped at `i` with everything before it strictly earlier
/// than `p`, and `s[i]` (if any) not earlier, found the insertion point.
pub proof fn lemma_ip_from_scan(s: Seq<PriceLevel>, p: u64, desc: bool, i: int)
    requires
        0 <= i <= s.len(),
        forall|j: int| 0 <= j < i ==> #[trigger] price_before(s[j].price, p, desc),
        i < s.len() ==> !price_before(s[i].price, p, desc),
    ensures
        ip(s, p, desc) == i,
{
    lemma_ip_props(s, p, desc);
    let k = ip(s, p, desc);
    if k < i {
        assert(price_before(s[k].price, p, desc));
    } else if k > i {
        assert(price_before(s[i].price, p, desc));
    }
}

/// On a sorted side, a level with price `p` can only sit at the insertion
/// point of `p`.
pub proof fn lemma_price_only_at_ip(s: Seq<PriceLevel>, p: u64, desc: bool, j: int)
    requires
        side_sorted(s, desc),
        0 <= j < s.len(),
        s[j].price == p,
    ensures
        ip(s, p, desc) == j,
{
    lemma_ip_props(s, p, desc);
    let i = ip(s, p, desc);
    if j < i {
        assert(price_before(s[j].price, p, desc));
    } else if j > i {
        assert(price_before(s[i].price, s[j].price, desc));
    }
}

/// On a sorted side, the out-of-order test reduces to one look at the
/// insertion point.
pub proof fn lemma_newer_stored_at_ip(s: Seq<PriceLevel>, lv: PriceLevel, desc: bool)
    requires
        side_sorted(s, desc),
    ensures
        newer_stored(s, lv) <==> {
            let i = ip(s, lv.price, desc);
            i < s.len() && s[i].price == lv.price && s[i].timestamp > lv.timestamp
        },
{
    let i = ip(s, lv.price, desc);
    lemma_ip_props(s, lv.price, desc);
    if newer_stored(s, lv) {
        let j = choose|j: int|
            0 <= j < s.len() && (#[trigger] s[j]).price == lv.price && s[j].timestamp
                > lv.timestamp;
        lemma_price_only_at_ip(s, lv.price, desc, j);
    }
}

/// Applying a valid update to a well-formed side leaves it well-formed.
pub proof fn lemma_upsert_wf(s: Seq<PriceLevel>, lv: PriceLevel, desc: bool)
    requires
        side_wf(s, desc),
        wf_level(lv),
    ensures
        side_wf(upsert_seq(s, lv, desc), desc),
    decreases s.len(),
{
    let i = ip(s, lv.price, desc);
    lemma_ip_props(s, lv.price, desc);
    let r = upsert_seq(s, lv, desc);
    if i < s.len() && s[i].price == lv.price {
        if s[i].timestamp > lv.timestamp {
        } else if lv.quantity == 0 {
            let t = s.remove(i);
            assert forall|a: int, b: int| 0 <= a < b < t.len() implies #[trigger] price_before(
                t[a].price,
                t[b].price,
                desc,
            ) by {
                let a0 = if a < i { a } else { a + 1 };
                let b0 = if b < i { b } else { b + 1 };
                assert(t[a] == s[a0]);
                assert(t[b] == s[b0]);
            }
            assert forall|a: int| 0 <= a < t.len() implies stored_level(#[trigger] t[a]) by {
                let a0 = if a < i { a } else { a + 1 };
                assert(t[a] == s[a0]);
            }
        } else {
            let t = s.update(i, lv);
            assert forall|a: int, b: int| 0 <= a < b < t.len() implies #[trigger] price_before(
                t[a].price,
                t[b].price,
                desc,
            ) by {
                assert(t[a].price == s[a].price);
                assert(t[b].price == s[b].price);
            }
        }
    } else {
        if lv.quantity == 0 {
        } else {
            let t = s.insert(i, lv);
            // everything from the insertion point on comes strictly after `p`
            assert forall|k: int| i <= k < s.len() implies price_before(
                lv.price,
                (#[trigger] s[k]).price,
                desc,
            ) by {
                assert(!price_before(s[i].price, lv.price, desc));
                assert(s[i].price != lv.price);
                if k > i {
                    assert(price_before(s[i].price, s[k].price, desc));
                }
            }
            assert forall|a: int, b: int| 0 <= a < b < t.len() implies #[trigger] price_before(
                t[a].price,
                t[b].price,
                desc,
            ) by {
                if a < i {
                    assert(t[a] == s[a]);
                }
                if a > i {
                    assert(t[a] == s[a - 1]);
                }
                if b < i {
                    assert(t[b] == s[b]);
                }
                if b > i {
                    assert(t[b] == s[b - 1]);
                }
            }
            assert forall|a: int| 0 <= a < t.len() implies stored_level(#[trigger] t[a]) by {
                if a < i {
                    assert(t[a] == s[a]);
                }
                if a > i {
                    assert(t[a] == s[a - 1]);
                }
            }
        }
    }
}

/// Exec comparison matching [`price_before`].
pub fn price_before_exec(a: u64, b: u64, desc: bool) -> (r: bool)
    ensures
        r == price_before(a, b, desc),
{
    if desc {
        a > b
    } else {
        a < b
    }
}

/// Apply one update to a copy of a side. Returns the new side contents and
/// whether the update was dropped as an out-of-order replay.
pub fn upsert_side(s: &Vec<PriceLevel>, lv: PriceLevel, desc: bool) -> (r: (
    Vec<PriceLevel>,
    bool,
))
    requires
        side_wf(s@, desc),
        wf_level(lv),
    ensures
        r.1 == newer_stored(s@, lv),
        r.0@ == if r.1 {
            s@
        } else {
            upsert_seq(s@, lv, desc)
        },
        r.1 ==> r.0@ == s@,
{
    let mut i: usize = 0;
    while i < s.len() && price_before_exec(s[i].price, lv.price, desc)
        invariant
            0 <= i <= s.len(),
            forall|j: int| 0 <= j < i ==> #[trigger] price_before(s@[j].price, lv.price, desc),
        decreases s.len() - i,
    {
        i += 1;
    }
    proof {
        lemma_ip_from_scan(s@, lv.price, desc, i as int);
        lemma_newer_stored_at_ip(s@, lv, desc);
    }
    let mut r = crate::types::copy_levels(s);
    if i < r.len() && r[i].price == lv.price {
        if r[i].timestamp > lv.timestamp {
            (r, true)
        } else if lv.quantity == 0 {
            r.remove(i);
            (r, false)
        } else {
            r.set(i, lv);
            (r, false)
        }
    } else {
        if lv.quantity != 0 {
            r.insert(i, lv);
        }
        (r, false)
    }
}

} // verus!

verus! {

/// Ghost-level image of an [`Orderbook`], used to state how one update step
/// transforms a book and to reason about sequences of steps.
#[verifier::ext_equal]
pub ghost struct BookModel {
    pub exchange: u32,
    pub symbol: u32,
    pub bids: Seq<PriceLevel>,
    pub asks: Seq<PriceLevel>,
    pub timestamp: u64,
}

/// The model of a concrete book.
pub open spec fn model(b: Orderbook) -> BookModel {
    BookModel {
        exchange: b.exchange,
        symbol: b.symbol,
        bids: b.bids@,
        asks: b.asks@,
        timestamp: b.timestamp,
    }
}

/// Book invariant at the model level.
pub open spec fn model_wf(m: BookModel) -> bool {
    side_wf(m.bids, true) && side_wf(m.asks, false) && not_crossed(m.bids, m.asks)
}

pub open spec fn max_u64(a: u64, b: u64) -> u64 {
    if a >= b {
        a
    } else {
        b
    }
}

/// One update step of the book store on one book: drop out-of-order replays,
/// reject steps that would cross the book, otherwise commit the new side and
/// advance the book timestamp.
pub open spec fn step_book(m: BookModel, side: Side, lv: PriceLevel) -> (BookModel, ApplyOutcome) {
    let desc = side == Side::Bid;
    let s = if desc {
        m.bids
    } else {
        m.asks
    };
    if newer_stored(s, lv) {
        (m, ApplyOutcome::DroppedOutOfOrder)
    } else {
        let ns = upsert_seq(s, lv, desc);
        let nb = if desc {
            ns
        } else {
            m.bids
        };
        let na = if desc {
            m.asks
        } else {
            ns
        };
        if !not_crossed(nb, na) {
            (m, ApplyOutcome::RejectedCrossed)
        } else {
            (
                BookModel {
                    exchange: m.exchange,
                    symbol: m.symbol,
                    bids: nb,
                    asks: na,
                    timestamp: max_u64(m.timestamp, lv.timestamp),
                },
                ApplyOutcome::Applied,
            )
        }
    }
}

/// A step preserves the book invariant, never moves the book timestamp
/// backwards, and leaves the key alone.
pub proof fn lemma_step_book_wf(m: BookModel, side: Side, lv: PriceLevel)
    requires
        model_wf(m),
        wf_level(lv),
    ensures
        model_wf(step_book(m, side, lv).0),
        step_book(m, side, lv).0.timestamp >= m.timestamp,
        step_book(m, side, lv).0.exchange == m.exchange,
        step_book(m, side, lv).0.symbol == m.symbol,
{
    let desc = side == Side::Bid;
    let s = if desc {
        m.bids
    } else {
        m.asks
    };
    lemma_upsert_wf(s, lv, desc);
}

/// Apply one incremental update to this book in place. Returns what the
/// update did; a dropped or rejected update leaves the book untouched.
pub fn apply_update_book(b: &mut Orderbook, side: Side, lv: PriceLevel) -> (r: ApplyOutcome)
    requires
        book_wf(*old(b)),
        wf_level(lv),
    ensures
        book_wf(*final(b)),
        model(*final(b)) == step_book(model(*old(b)), side, lv).0,
        r == step_book(model(*old(b)), side, lv).1,
{
    let ghost m0 = model(*old(b));
    proof {
        lemma_step_book_wf(m0, side, lv);
    }
    let desc = side == Side::Bid;
    let (ns, dropped) = if desc {
        upsert_side(&b.bids, lv, true)
    } else {
        upsert_side(&b.asks, lv, false)
    };
    if dropped {
        proof {
            assert(model(*b) =~= step_book(m0, side, lv).0);
        }
        return ApplyOutcome::DroppedOutOfOrder;
    }
    let crossed = if desc {
        ns.len() > 0 && b.asks.len() > 0 && ns[0].price >= b.asks[0].price
    } else {
        b.bids.len() > 0 && ns.len() > 0 && b.bids[0].price >= ns[0].price
    };
    if crossed {
        proof {
            assert(model(*b) =~= step_book(m0, side, lv).0);
        }
        return ApplyOutcome::RejectedCrossed;
    }
    if desc {
        b.bids = ns;
    } else {
        b.asks = ns;
    }
    if lv.timestamp > b.timestamp {
        b.timestamp = lv.timestamp;
    }
    proof {
        assert(model(*b) =~= step_book(m0, side, lv).0);
    }
    ApplyOutcome::Applied
}

} // verus!

verus! {

/// After a newer record for a price has been applied, any older record for
/// that price is recognized as out of order.
proof fn lemma_upsert_applied_newer(s: Seq<PriceLevel>, u1: PriceLevel, u2: PriceLevel, desc: bool)
    requires
        side_wf(s, desc),
        u1.price == u2.price,
        u1.timestamp < u2.timestamp,
        u2.quantity > 0,
        !newer_stored(s, u2),
    ensures
        newer_stored(upsert_seq(s, u2, desc), u1),
{
    let p = u2.price;
    let i = ip(s, p, desc);
    lemma_ip_props(s, p, desc);
    lemma_newer_stored_at_ip(s, u2, desc);
    let t = upsert_seq(s, u2, desc);
    if i < s.len() && s[i].price == p {
        assert(t == s.update(i, u2));
        assert(t[i] == u2);
    } else {
        assert(t == s.insert(i, u2));
        assert(t[i] == u2);
    }
}

/// The heart of the out-of-order story: once the older record `u1` has
/// been applied, applying the newer `u2` lands on the same side contents
/// as applying `u2` alone.
proof fn lemma_upsert_commute(s: Seq<PriceLevel>, u1: PriceLevel, u2: PriceLevel, desc: bool)
    requires
        side_wf(s, desc),
        wf_level(u1),
        wf_level(u2),
        u1.price == u2.price,
        u1.timestamp < u2.timestamp,
        u2.quantity > 0,
        !newer_stored(s, u1),
    ensures
        !newer_stored(s, u2),
        !newer_stored(upsert_seq(s, u1, desc), u2),
        upsert_seq(upsert_seq(s, u1, desc), u2, desc) == upsert_seq(s, u2, desc),
{
    let p = u1.price;
    let i = ip(s, p, desc);
    lemma_ip_props(s, p, desc);
    lemma_newer_stored_at_ip(s, u1, desc);
    lemma_newer_stored_at_ip(s, u2, desc);
    lemma_upsert_wf(s, u1, desc);
    let s1 = upsert_seq(s, u1, desc);
    if i < s.len() && s[i].price == p {
        assert(s[i].timestamp <= u1.timestamp);
        if u1.quantity == 0 {
            // u1 removed the level; u2 re-inserts at the same spot
            assert(s1 == s.remove(i));
            assert forall|j: int| 0 <= j < i implies #[trigger] price_before(
                s1[j].price,
                p,
                desc,
            ) by {
                assert(s1[j] == s[j]);
            }
            if i < s1.len() {
                assert(s1[i] == s[i + 1]);
                assert(price_before(s[i].price, s[i + 1].price, desc));
            }
            lemma_ip_from_scan(s1, p, desc, i);
            if i < s1.len() {
                assert(s1[i] == s[i + 1]);
                if s1[i].price == p {
                    lemma_price_only_at_ip(s, p, desc, i + 1);
                    assert(false);
                }
            }
            lemma_newer_stored_at_ip(s1, u2, desc);
            assert(upsert_seq(s1, u2, desc) == s1.insert(i, u2));
            assert(s.remove(i).insert(i, u2) =~= s.update(i, u2));
            assert(upsert_seq(s, u2, desc) == s.update(i, u2));
        } else {
            // u1 replaced the level; u2 replaces it again
            assert(s1 == s.update(i, u1));
            assert forall|j: int| 0 <= j < i implies #[trigger] price_before(
                s1[j].price,
                p,
                desc,
            ) by {
                assert(s1[j] == s[j]);
            }
            assert(s1[i] == u1);
            lemma_ip_from_scan(s1, p, desc, i);
            lemma_newer_stored_at_ip(s1, u2, desc);
            assert(upsert_seq(s1, u2, desc) == s1.update(i, u2));
            assert(s.update(i, u1).update(i, u2) =~= s.update(i, u2));
            assert(upsert_seq(s, u2, desc) == s.update(i, u2));
        }
    } else {
        if u1.quantity == 0 {
            // removal of an absent price: nothing happened
            assert(s1 == s);
        } else {
            // u1 inserted the level; u2 replaces it
            assert(s1 == s.insert(i, u1));
            assert forall|j: int| 0 <= j < i implies #[trigger] price_before(
                s1[j].price,
                p,
                desc,
            ) by {
                assert(s1[j] == s[j]);
            }
            assert(s1[i] == u1);
            lemma_ip_from_scan(s1, p, desc, i);
            lemma_newer_stored_at_ip(s1, u2, desc);
            assert(upsert_seq(s1, u2, desc) == s1.update(i, u2));
            assert(s.insert(i, u1).update(i, u2) =~= s.insert(i, u2));
            assert(upsert_seq(s, u2, desc) == s.insert(i, u2));
        }
    }
}

/// Timestamp-monotonicity law for one book: for two updates to the same
/// side and price with timestamps `t1 < t2`, the book ends in the same
/// state whichever arrives first, and (unless the newer update is rejected
/// as crossing) that state is exactly the one the newer update alone
/// produces. The older record is either applied and then superseded, or
/// dropped as an out-of-order replay — never the final word.
///
/// The newer update must carry a quantity: a removal leaves no stored
/// timestamp behind, so a late older record would be re-applied after it.
pub proof fn lemma_out_of_order_updates_commute(
    m: BookModel,
    side: Side,
    u1: PriceLevel,
    u2: PriceLevel,
)
    requires
        model_wf(m),
        wf_level(u1),
        wf_level(u2),
        u1.price == u2.price,
        u1.timestamp < u2.timestamp,
        u2.quantity > 0,
    ensures
        step_book(step_book(m, side, u1).0, side, u2).0 == step_book(
            step_book(m, side, u2).0,
            side,
            u1,
        ).0,
        step_book(m, side, u2).1 != ApplyOutcome::RejectedCrossed ==> step_book(
            step_book(m, side, u1).0,
            side,
            u2,
        ).0 == step_book(m, side, u2).0,
{
    let desc = side == Side::Bid;
    let s = if desc {
        m.bids
    } else {
        m.asks
    };
    lemma_newer_stored_at_ip(s, u1, desc);
    lemma_newer_stored_at_ip(s, u2, desc);
    lemma_ip_props(s, u1.price, desc);
    if newer_stored(s, u1) {
        // the older record is out of order against the book itself
        assert(step_book(m, side, u1).0 =~= m);
        if newer_stored(s, u2) {
            assert(step_book(m, side, u2).0 =~= m);
        } else {
            let ns2 = upsert_seq(s, u2, desc);
            let i = ip(s, u2.price, desc);
            assert(s[i].price == u2.price && s[i].timestamp > u1.timestamp);
            assert(s[i].timestamp <= u2.timestamp);
            lemma_upsert_applied_newer(s, u1, u2, desc);
            let b2 = step_book(m, side, u2).0;
            if step_book(m, side, u2).1 == ApplyOutcome::Applied {
                assert(if desc {
                    b2.bids
                } else {
                    b2.asks
                } == ns2);
                assert(newer_stored(ns2, u1));
                assert(step_book(b2, side, u1).0 =~= b2);
            } else {
                assert(b2 =~= m);
            }
        }
    } else {
        lemma_upsert_commute(s, u1, u2, desc);
        let ns1 = upsert_seq(s, u1, desc);
        let ns2 = upsert_seq(s, u2, desc);
        lemma_upsert_applied_newer(s, u1, u2, desc);
        let step1 = step_book(m, side, u1);
        let step2 = step_book(m, side, u2);
        if step1.1 == ApplyOutcome::RejectedCrossed {
            assert(step1.0 =~= m);
            if step2.1 == ApplyOutcome::RejectedCrossed {
                assert(step2.0 =~= m);
            } else {
                assert(step2.1 == ApplyOutcome::Applied);
                let b2 = step2.0;
                assert(if desc {
                    b2.bids
                } else {
                    b2.asks
                } == ns2);
                assert(newer_stored(ns2, u1));
                assert(step_book(b2, side, u1).0 =~= b2);
            }
        } else {
            assert(step1.1 == ApplyOutcome::Applied);
            let b1 = step1.0;
            assert(if desc {
                b1.bids
            } else {
                b1.asks
            } == ns1);
            // same candidate side either way, so the same crossing verdict
            assert(upsert_seq(ns1, u2, desc) == ns2);
            assert(!newer_stored(ns1, u2));
            if step2.1 == ApplyOutcome::RejectedCrossed {
                assert(step_book(b1, side, u2).1 == ApplyOutcome::RejectedCrossed);
                assert(step_book(b1, side, u2).0 =~= b1);
                assert(step2.0 =~= m);
                assert(step_book(m, side, u1).0 =~= b1);
            } else {
                assert(step2.1 == ApplyOutcome::Applied);
                let b2 = step2.0;
                assert(step_book(b1, side, u2).1 == ApplyOutcome::Applied);
                assert(step_book(b1, side, u2).0 =~= b2);
                assert(newer_stored(ns2, u1));
                assert(step_book(b2, side, u1).0 =~= b2);
            }
        }
    }
}

} // verus!

verus! {

/// The book after a whole sequence of update steps.
pub open spec fn step_book_seq(m: BookModel, updates: Seq<(Side, PriceLevel)>) -> BookModel
    decreases updates.len(),
{
    if updates.len() == 0 {
        m
    } else {
        step_book_seq(step_book(m, updates[0].0, updates[0].1).0, updates.drop_first())
    }
}

/// Book-invariant law: under any sequence of valid updates the book keeps
/// its invariant — bids strictly descending, asks strictly ascending, best
/// bid strictly below best ask — and its timestamp never decreases.
pub proof fn lemma_book_wf_under_all_updates(m: BookModel, updates: Seq<(Side, PriceLevel)>)
    requires
        model_wf(m),
        forall|i: int| 0 <= i < updates.len() ==> wf_level((#[trigger] updates[i]).1),
    ensures
        model_wf(step_book_seq(m, updates)),
        step_book_seq(m, updates).timestamp >= m.timestamp,
    decreases updates.len(),
{
    if updates.len() > 0 {
        lemma_step_book_wf(m, updates[0].0, updates[0].1);
        let m1 = step_book(m, updates[0].0, updates[0].1).0;
        assert forall|i: int|
            0 <= i < updates.drop_first().len() implies wf_level(
            (#[trigger] updates.drop_first()[i]).1,
        ) by {
            assert(updates.drop_first()[i] == updates[i + 1]);
        }
        lemma_book_wf_under_all_updates(m1, updates.drop_first());
    }
}

/// Out-of-order law: an update whose price already carries a strictly newer
/// stored timestamp is a no-op — the book is left exactly as it was.
pub proof fn lemma_out_of_order_is_noop(m: BookModel, side: Side, lv: PriceLevel)
    requires
        newer_stored(
            if side == Side::Bid {
                m.bids
            } else {
                m.asks
            },
            lv,
        ),
    ensures
        step_book(m, side, lv).0 == m,
        step_book(m, side, lv).1 == ApplyOutcome::DroppedOutOfOrder,
{
}

} // verus!

verus! {

/// The side after the execution engine reports `qty` captured at `price`:
/// the level shrinks by what was taken, disappearing when fully consumed.
/// A price the side does not quote is left alone.
pub open spec fn consume_seq(s: Seq<PriceLevel>, price: u64, qty: u64, desc: bool) -> Seq<
    PriceLevel,
> {
    let i = ip(s, price, desc);
    if i < s.len() && s[i].price == price {
        if qty >= s[i].quantity {
            s.remove(i)
        } else {
            s.update(
                i,
                PriceLevel {
                    price: s[i].price,
                    quantity: (s[i].quantity - qty) as u64,
                    timestamp: s[i].timestamp,
                },
            )
        }
    } else {
        s
    }
}

/// Consuming liquidity keeps the side well-formed.
pub proof fn lemma_consume_wf(s: Seq<PriceLevel>, price: u64, qty: u64, desc: bool)
    requires
        side_wf(s, desc),
    ensures
        side_wf(consume_seq(s, price, qty, desc), desc),
        consume_seq(s, price, qty, desc).len() > 0 && s.len() > 0 ==> !price_before(
            consume_seq(s, price, qty, desc)[0].price,
            s[0].price,
            desc,
        ),
{
    let i = ip(s, price, desc);
    lemma_ip_props(s, price, desc);
    let t = consume_seq(s, price, qty, desc);
    if i < s.len() && s[i].price == price {
        if qty >= s[i].quantity {
            assert forall|a: int, b: int| 0 <= a < b < t.len() implies #[trigger] price_before(
                t[a].price,
                t[b].price,
                desc,
            ) by {
                let a0 = if a < i {
                    a
                } else {
                    a + 1
                };
                let b0 = if b < i {
                    b
                } else {
                    b + 1
                };
                assert(t[a] == s[a0]);
                assert(t[b] == s[b0]);
            }
            assert forall|a: int| 0 <= a < t.len() implies stored_level(#[trigger] t[a]) by {
                let a0 = if a < i {
                    a
                } else {
                    a + 1
                };
                assert(t[a] == s[a0]);
            }
            if t.len() > 0 {
                if i == 0 {
                    assert(t[0] == s[1]);
                    assert(price_before(s[0].price, s[1].price, desc));
                } else {
                    assert(t[0] == s[0]);
                }
            }
        } else {
            assert forall|a: int, b: int| 0 <= a < b < t.len() implies #[trigger] price_before(
                t[a].price,
                t[b].price,
                desc,
            ) by {
                assert(t[a].price == s[a].price);
                assert(t[b].price == s[b].price);
            }
            assert(t[0].price == s[0].price);
        }
    }
}

/// The book after a captured-fill report against one side. The book
/// timestamp is untouched: consumption is the engine's accounting, not a
/// feed record.
pub open spec fn consume_book_spec(m: BookModel, side: Side, price: u64, qty: u64) -> BookModel {
    if side == Side::Bid {
        BookModel { bids: consume_seq(m.bids, price, qty, true), ..m }
    } else {
        BookModel { asks: consume_seq(m.asks, price, qty, false), ..m }
    }
}

/// Consuming liquidity keeps the whole book invariant: prices only leave
/// or keep their place, so order and the uncrossed spread survive.
pub proof fn lemma_consume_book_wf(m: BookModel, side: Side, price: u64, qty: u64)
    requires
        model_wf(m),
    ensures
        model_wf(consume_book_spec(m, side, price, qty)),
{
    if side == Side::Bid {
        lemma_consume_wf(m.bids, price, qty, true);
        let nb = consume_seq(m.bids, price, qty, true);
        if nb.len() > 0 && m.asks.len() > 0 {
            assert(!price_before(nb[0].price, m.bids[0].price, true));
        }
    } else {
        lemma_consume_wf(m.asks, price, qty, false);
        let na = consume_seq(m.asks, price, qty, false);
        if m.bids.len() > 0 && na.len() > 0 {
            assert(!price_before(na[0].price, m.asks[0].price, false));
        }
    }
}

/// Shrink one side of this book by a captured fill.
pub fn consume_book(b: &mut Orderbook, side: Side, price: u64, qty: u64)
    requires
        book_wf(*old(b)),
    ensures
        book_wf(*final(b)),
        model(*final(b)) == consume_book_spec(model(*old(b)), side, price, qty),
{
    let ghost m0 = model(*old(b));
    proof {
        lemma_consume_book_wf(m0, side, price, qty);
    }
    let desc = side == Side::Bid;
    let s: &Vec<PriceLevel> = if desc {
        &b.bids
    } else {
        &b.asks
    };
    let ghost sv = s@;
    let mut i: usize = 0;
    while i < s.len() && price_before_exec(s[i].price, price, desc)
        invariant
            0 <= i <= s.len(),
            s@ == sv,
            forall|j: int| 0 <= j < i ==> #[trigger] price_before(s@[j].price, price, desc),
        decreases s.len() - i,
    {
        i += 1;
    }
    proof {
        lemma_ip_from_scan(sv, price, desc, i as int);
    }
    let mut ns = crate::types::copy_levels(s);
    if i < ns.len() && ns[i].price == price {
        if qty >= ns[i].quantity {
            ns.remove(i);
        } else {
            let kept = PriceLevel {
                price: ns[i].price,
                quantity: ns[i].quantity - qty,
                timestamp: ns[i].timestamp,
            };
            ns.set(i, kept);
        }
    }
    if desc {
        b.bids = ns;
    } else {
        b.asks = ns;
    }
    proof {
        assert(model(*b) =~= consume_book_spec(m0, side, price, qty));
    }
}

} // verus!
