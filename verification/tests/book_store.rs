use crypto_arbitrage_core::book::ApplyOutcome;
use crypto_arbitrage_core::store::{BookStore, StoreError};
use crypto_arbitrage_core::types::{PriceLevel, Side};

fn lv(price: u64, quantity: u64, timestamp: u64) -> PriceLevel {
    PriceLevel { price, quantity, timestamp }
}

#[test]
fn bids_sorted_after_updates() {
    let mut st = BookStore::new(1_000);
    for (p, q) in [(101u64, 5u64), (99, 2), (103, 1), (100, 4), (102, 3)] {
        let r = st.apply_update(1, 7, Side::Bid, lv(p * 1_000_000, q * 1_000_000, 10));
        assert_eq!(r, Ok(ApplyOutcome::Applied));
    }
    for (p, q) in [(105u64, 5u64), (107, 2), (104, 1), (106, 4)] {
        let r = st.apply_update(1, 7, Side::Ask, lv(p * 1_000_000, q * 1_000_000, 10));
        assert_eq!(r, Ok(ApplyOutcome::Applied));
    }
    let b = st.get(1, 7).unwrap();
    for w in b.bids.windows(2) {
        assert!(w[0].price > w[1].price);
    }
    for w in b.asks.windows(2) {
        assert!(w[0].price < w[1].price);
    }
    assert!(b.bids[0].price < b.asks[0].price);
    assert_eq!(b.bids[0].price, 103_000_000);
    assert_eq!(b.asks[0].price, 104_000_000);
    assert_eq!(b.timestamp, 10);
}

#[test]
fn zero_quantity_removes_level() {
    let mut st = BookStore::new(1_000);
    st.apply_update(1, 7, Side::Bid, lv(101_000_000, 5_000_000, 10)).unwrap();
    st.apply_update(1, 7, Side::Bid, lv(100_000_000, 2_000_000, 10)).unwrap();
    let r = st.apply_update(1, 7, Side::Bid, lv(101_000_000, 0, 11));
    assert_eq!(r, Ok(ApplyOutcome::Applied));
    let b = st.get(1, 7).unwrap();
    assert_eq!(b.bids.len(), 1);
    assert_eq!(b.bids[0].price, 100_000_000);
}

#[test]
fn crossed_update_rejected() {
    let mut st = BookStore::new(1_000);
    st.apply_update(1, 7, Side::Ask, lv(100_000_000, 1_000_000, 10)).unwrap();
    // a bid at or above the best ask would cross the book
    let r = st.apply_update(1, 7, Side::Bid, lv(100_000_000, 1_000_000, 11));
    assert_eq!(r, Ok(ApplyOutcome::RejectedCrossed));
    let b = st.get(1, 7).unwrap();
    assert_eq!(b.bids.len(), 0);
    // the book timestamp did not move for a rejected update
    assert_eq!(b.timestamp, 10);
}

#[test]
fn out_of_order_update_dropped() {
    let mut st = BookStore::new(1_000);
    st.apply_update(1, 7, Side::Bid, lv(100_000_000, 5_000_000, 20)).unwrap();
    let r = st.apply_update(1, 7, Side::Bid, lv(100_000_000, 9_000_000, 15));
    assert_eq!(r, Ok(ApplyOutcome::DroppedOutOfOrder));
    let b = st.get(1, 7).unwrap();
    assert_eq!(b.bids[0].quantity, 5_000_000);
    assert_eq!(b.bids[0].timestamp, 20);
}

#[test]
fn out_of_order_arrival_converges() {
    let older = lv(100_000_000, 5_000_000, 15);
    let newer = lv(100_000_000, 9_000_000, 20);
    let mut in_order = BookStore::new(1_000);
    in_order.apply_update(1, 7, Side::Bid, older).unwrap();
    in_order.apply_update(1, 7, Side::Bid, newer).unwrap();
    let mut reversed = BookStore::new(1_000);
    reversed.apply_update(1, 7, Side::Bid, newer).unwrap();
    reversed.apply_update(1, 7, Side::Bid, older).unwrap();
    let a = in_order.get(1, 7).unwrap();
    let b = reversed.get(1, 7).unwrap();
    assert_eq!(a.bids, b.bids);
    assert_eq!(a.asks, b.asks);
    assert_eq!(a.timestamp, b.timestamp);
    assert_eq!(a.bids[0].quantity, 9_000_000);
    assert_eq!(a.bids[0].timestamp, 20);
}

#[test]
fn invalid_level_refused() {
    let mut st = BookStore::new(1_000);
    let r = st.apply_update(1, 7, Side::Bid, lv(0, 5_000_000, 10));
    assert_eq!(r, Err(StoreError::InvalidLevel));
    assert!(st.get(1, 7).is_none());
}

#[test]
fn snapshot_replaces_book() {
    let mut st = BookStore::new(1_000);
    st.apply_update(1, 7, Side::Bid, lv(90_000_000, 1_000_000, 5)).unwrap();
    let snap = crypto_arbitrage_core::Orderbook {
        exchange: 1,
        symbol: 7,
        bids: vec![lv(101_000_000, 2_000_000, 10), lv(100_000_000, 1_000_000, 10)],
        asks: vec![lv(102_000_000, 3_000_000, 10)],
        timestamp: 10,
    };
    assert_eq!(st.apply_snapshot(snap), Ok(ApplyOutcome::Applied));
    let b = st.get(1, 7).unwrap();
    assert_eq!(b.bids.len(), 2);
    assert_eq!(b.bids[0].price, 101_000_000);
    assert_eq!(b.asks[0].price, 102_000_000);
}

#[test]
fn older_snapshot_dropped() {
    let mut st = BookStore::new(1_000);
    st.apply_update(1, 7, Side::Bid, lv(100_000_000, 1_000_000, 20)).unwrap();
    let snap = crypto_arbitrage_core::Orderbook {
        exchange: 1,
        symbol: 7,
        bids: vec![lv(90_000_000, 2_000_000, 10)],
        asks: vec![],
        timestamp: 10,
    };
    assert_eq!(st.apply_snapshot(snap), Ok(ApplyOutcome::DroppedOutOfOrder));
    let b = st.get(1, 7).unwrap();
    assert_eq!(b.bids[0].price, 100_000_000);
}

#[test]
fn unsorted_snapshot_refused() {
    let mut st = BookStore::new(1_000);
    let snap = crypto_arbitrage_core::Orderbook {
        exchange: 1,
        symbol: 7,
        bids: vec![lv(100_000_000, 2_000_000, 10), lv(101_000_000, 1_000_000, 10)],
        asks: vec![],
        timestamp: 10,
    };
    assert_eq!(st.apply_snapshot(snap), Err(StoreError::InvalidBook));
}

#[test]
fn crossed_snapshot_refused() {
    let mut st = BookStore::new(1_000);
    let snap = crypto_arbitrage_core::Orderbook {
        exchange: 1,
        symbol: 7,
        bids: vec![lv(102_000_000, 2_000_000, 10)],
        asks: vec![lv(102_000_000, 1_000_000, 10)],
        timestamp: 10,
    };
    assert_eq!(st.apply_snapshot(snap), Err(StoreError::InvalidBook));
}

#[test]
fn is_stale_past_threshold() {
    let mut st = BookStore::new(1_000);
    st.apply_update(1, 7, Side::Bid, lv(100_000_000, 1_000_000, 5_000)).unwrap();
    assert!(!st.is_stale(1, 7, 5_500));
    assert!(!st.is_stale(1, 7, 6_000));
    assert!(st.is_stale(1, 7, 6_001));
    // a key without a book counts as stale
    assert!(st.is_stale(2, 7, 0));
}

#[test]
fn captured_fill_consumes_liquidity() {
    let mut st = BookStore::new(1_000);
    st.apply_update(1, 7, Side::Ask, lv(100_000_000, 3_000_000, 10)).unwrap();
    st.apply_update(1, 7, Side::Ask, lv(101_000_000, 4_000_000, 10)).unwrap();
    // the engine captured 1.0 of the 3.0 quoted at 100
    assert!(st.consume_liquidity(1, 7, Side::Ask, 100_000_000, 1_000_000));
    let b = st.get(1, 7).unwrap();
    assert_eq!(b.asks[0].quantity, 2_000_000);
    // taking the remainder removes the level entirely
    assert!(st.consume_liquidity(1, 7, Side::Ask, 100_000_000, 2_000_000));
    let b = st.get(1, 7).unwrap();
    assert_eq!(b.asks.len(), 1);
    assert_eq!(b.asks[0].price, 101_000_000);
    // a key without a book reports so
    assert!(!st.consume_liquidity(2, 7, Side::Ask, 100_000_000, 1_000_000));
    // the book timestamp is not a feed record and did not move
    assert_eq!(st.get(1, 7).unwrap().timestamp, 10);
}
