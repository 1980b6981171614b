use crypto_arbitrage_core::consolidated::{ConsolidatedQuote, QuoteSide};
use crypto_arbitrage_core::detector::{detect, scan, DetectorConfig, ExchangeFee, FeeSchedule};
use crypto_arbitrage_core::store::BookStore;
use crypto_arbitrage_core::types::{PriceLevel, Side};

fn lv(price: u64, quantity: u64, timestamp: u64) -> PriceLevel {
    PriceLevel { price, quantity, timestamp }
}

fn fees_half_each() -> FeeSchedule {
    FeeSchedule {
        entries: vec![
            ExchangeFee { exchange: 1, fee: 500_000 },
            ExchangeFee { exchange: 2, fee: 500_000 },
        ],
    }
}

fn cfg(min_margin: u64, cap: u64, threshold: u64) -> DetectorConfig {
    DetectorConfig {
        min_profit_margin: min_margin,
        per_trade_quantity_cap: cap,
        min_profit_threshold: threshold,
        fees: fees_half_each(),
    }
}

/// best_bid 102 on exchange 1 (qty 5), best_ask 100 on exchange 2 (qty 3),
/// fees 0.5 + 0.5, margin 0: quantity 3, net profit 3 * (102 - 100) - 1 = 5.
#[test]
fn textbook_opportunity_numbers() {
    let mut st = BookStore::new(10_000);
    st.apply_update(1, 7, Side::Bid, lv(102_000_000, 5_000_000, 100)).unwrap();
    st.apply_update(2, 7, Side::Ask, lv(100_000_000, 3_000_000, 100)).unwrap();
    let q = st.top_of_book(7, 200);
    let op = detect(&q, &cfg(0, 1_000_000_000, 0)).unwrap();
    assert_eq!(op.buy_exchange, 2);
    assert_eq!(op.sell_exchange, 1);
    assert_eq!(op.buy_price, 100_000_000);
    assert_eq!(op.sell_price, 102_000_000);
    assert_eq!(op.max_quantity, 3_000_000);
    assert_eq!(op.expected_net_profit, 5_000_000);
    assert_eq!(op.detected_at, 200);
    assert_eq!(op.symbol, 7);
}

#[test]
fn same_exchange_spread_not_arbitrage() {
    // a crossed quote sourced entirely from one exchange is a feed artifact,
    // not arbitrage: it must be filtered even though the spread looks rich
    let q = ConsolidatedQuote {
        symbol: 7,
        best_bid: Some(QuoteSide {
            exchange: 1,
            level: lv(102_000_000, 5_000_000, 100),
            book_timestamp: 100,
        }),
        best_ask: Some(QuoteSide {
            exchange: 1,
            level: lv(100_000_000, 3_000_000, 100),
            book_timestamp: 100,
        }),
        computed_at: 200,
    };
    assert!(detect(&q, &cfg(0, 1_000_000_000, 0)).is_none());
}

#[test]
fn spread_inside_fees_not_emitted() {
    let mut st = BookStore::new(10_000);
    // spread is 1.0 but fees add up to 1.0: not profitable
    st.apply_update(1, 7, Side::Bid, lv(101_000_000, 5_000_000, 100)).unwrap();
    st.apply_update(2, 7, Side::Ask, lv(100_000_000, 3_000_000, 100)).unwrap();
    let q = st.top_of_book(7, 200);
    assert!(detect(&q, &cfg(0, 1_000_000_000, 0)).is_none());
}

#[test]
fn margin_filters_thin_spread() {
    let mut st = BookStore::new(10_000);
    // spread 2.0, fees 1.0: profitable with margin 0, filtered with margin 1.0
    st.apply_update(1, 7, Side::Bid, lv(102_000_000, 5_000_000, 100)).unwrap();
    st.apply_update(2, 7, Side::Ask, lv(100_000_000, 3_000_000, 100)).unwrap();
    let q = st.top_of_book(7, 200);
    assert!(detect(&q, &cfg(0, 1_000_000_000, 0)).is_some());
    assert!(detect(&q, &cfg(1_000_000, 1_000_000_000, 0)).is_none());
}

#[test]
fn below_profit_threshold_discarded() {
    let mut st = BookStore::new(10_000);
    st.apply_update(1, 7, Side::Bid, lv(102_000_000, 5_000_000, 100)).unwrap();
    st.apply_update(2, 7, Side::Ask, lv(100_000_000, 3_000_000, 100)).unwrap();
    let q = st.top_of_book(7, 200);
    // the opportunity is worth exactly 5.0
    assert!(detect(&q, &cfg(0, 1_000_000_000, 5_000_000)).is_some());
    assert!(detect(&q, &cfg(0, 1_000_000_000, 5_000_001)).is_none());
}

#[test]
fn per_trade_quantity_cap_clamps_quantity() {
    let mut st = BookStore::new(10_000);
    st.apply_update(1, 7, Side::Bid, lv(102_000_000, 5_000_000, 100)).unwrap();
    st.apply_update(2, 7, Side::Ask, lv(100_000_000, 3_000_000, 100)).unwrap();
    let q = st.top_of_book(7, 200);
    let op = detect(&q, &cfg(0, 2_000_000, 0)).unwrap();
    assert_eq!(op.max_quantity, 2_000_000);
    // 2 * (102 - 100) - 1 = 3
    assert_eq!(op.expected_net_profit, 3_000_000);
}

#[test]
fn scan_ranks_by_profit_descending() {
    let mut st = BookStore::new(10_000);
    // symbol 7: spread 2.0, qty 3 -> profit 5.0
    st.apply_update(1, 7, Side::Bid, lv(102_000_000, 5_000_000, 100)).unwrap();
    st.apply_update(2, 7, Side::Ask, lv(100_000_000, 3_000_000, 100)).unwrap();
    // symbol 8: spread 4.0, qty 2 -> profit 2*4 - 1 = 7.0
    st.apply_update(1, 8, Side::Bid, lv(104_000_000, 2_000_000, 100)).unwrap();
    st.apply_update(2, 8, Side::Ask, lv(100_000_000, 6_000_000, 100)).unwrap();
    // symbol 9: no opportunity
    st.apply_update(1, 9, Side::Bid, lv(100_000_000, 2_000_000, 100)).unwrap();
    let symbols = vec![7, 8, 9];
    let ops = scan(&st, &symbols, &cfg(0, 1_000_000_000, 0), 200);
    assert_eq!(ops.len(), 2);
    assert_eq!(ops[0].symbol, 8);
    assert_eq!(ops[0].expected_net_profit, 7_000_000);
    assert_eq!(ops[1].symbol, 7);
    assert_eq!(ops[1].expected_net_profit, 5_000_000);
}

#[test]
fn fee_lookup_defaults_to_zero() {
    let fs = fees_half_each();
    assert_eq!(fs.fee(1), 500_000);
    assert_eq!(fs.fee(99), 0);
}
