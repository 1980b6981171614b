use crypto_arbitrage_core::store::BookStore;
use crypto_arbitrage_core::types::{PriceLevel, Side};

fn lv(price: u64, quantity: u64, timestamp: u64) -> PriceLevel {
    PriceLevel { price, quantity, timestamp }
}

#[test]
fn top_of_book_picks_best_across_exchanges() {
    let mut st = BookStore::new(1_000);
    st.apply_update(1, 7, Side::Bid, lv(101_000_000, 5_000_000, 100)).unwrap();
    st.apply_update(1, 7, Side::Ask, lv(103_000_000, 5_000_000, 100)).unwrap();
    st.apply_update(2, 7, Side::Bid, lv(102_000_000, 4_000_000, 100)).unwrap();
    st.apply_update(2, 7, Side::Ask, lv(104_000_000, 4_000_000, 100)).unwrap();
    let q = st.top_of_book(7, 200);
    let bb = q.best_bid.unwrap();
    let aa = q.best_ask.unwrap();
    assert_eq!(bb.exchange, 2);
    assert_eq!(bb.level.price, 102_000_000);
    assert_eq!(aa.exchange, 1);
    assert_eq!(aa.level.price, 103_000_000);
    assert_eq!(q.symbol, 7);
    assert_eq!(q.computed_at, 200);
}

#[test]
fn stale_book_excluded() {
    let mut st = BookStore::new(1_000);
    st.apply_update(1, 7, Side::Bid, lv(105_000_000, 5_000_000, 4_800)).unwrap();
    st.apply_update(2, 7, Side::Bid, lv(102_000_000, 4_000_000, 4_900)).unwrap();
    // at now = 5_000 both books are fresh and the higher bid wins
    let q = st.top_of_book(7, 5_000);
    assert_eq!(q.best_bid.unwrap().exchange, 1);
    // at now = 5_900 exchange 1's book (timestamp 4_800) is over the
    // threshold: the lower bid from the still-fresh book wins
    let q = st.top_of_book(7, 5_900);
    let bb = q.best_bid.unwrap();
    assert_eq!(bb.exchange, 2);
    assert_eq!(bb.level.price, 102_000_000);
    // once every book is past the threshold, no quote at all
    let q = st.top_of_book(7, 7_000);
    assert!(q.best_bid.is_none());
}

#[test]
fn tie_break_quantity_then_recency() {
    let mut st = BookStore::new(10_000);
    st.apply_update(1, 7, Side::Bid, lv(100_000_000, 3_000_000, 100)).unwrap();
    st.apply_update(2, 7, Side::Bid, lv(100_000_000, 5_000_000, 100)).unwrap();
    let q = st.top_of_book(7, 200);
    // same price: the larger quantity wins
    assert_eq!(q.best_bid.unwrap().exchange, 2);

    let mut st = BookStore::new(10_000);
    st.apply_update(1, 7, Side::Bid, lv(100_000_000, 5_000_000, 100)).unwrap();
    st.apply_update(2, 7, Side::Bid, lv(100_000_000, 5_000_000, 150)).unwrap();
    let q = st.top_of_book(7, 200);
    // same price and quantity: the more recently updated book wins
    assert_eq!(q.best_bid.unwrap().exchange, 2);
}

#[test]
fn empty_store_quote_is_none() {
    let st = BookStore::new(1_000);
    let q = st.top_of_book(7, 0);
    assert!(q.best_bid.is_none());
    assert!(q.best_ask.is_none());
}

#[test]
fn other_symbols_do_not_contribute() {
    let mut st = BookStore::new(1_000);
    st.apply_update(1, 8, Side::Bid, lv(200_000_000, 5_000_000, 100)).unwrap();
    st.apply_update(1, 7, Side::Bid, lv(100_000_000, 5_000_000, 100)).unwrap();
    let q = st.top_of_book(7, 200);
    assert_eq!(q.best_bid.unwrap().level.price, 100_000_000);
}
