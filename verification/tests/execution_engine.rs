use crypto_arbitrage_core::detector::Opportunity;
use crypto_arbitrage_core::execution::{
    ExchangeEvent, ExecConfig, ExecError, ExecutionEngine, Leg, LegAction, OrderState,
    RejectReason,
};

fn opp(symbol: u32) -> Opportunity {
    Opportunity {
        symbol,
        buy_exchange: 2,
        sell_exchange: 1,
        buy_price: 100_000_000,
        sell_price: 102_000_000,
        max_quantity: 3_000_000,
        expected_net_profit: 5_000_000,
        detected_at: 1_000,
    }
}

fn config(retry_budget: u64) -> ExecConfig {
    ExecConfig {
        order_retry_budget: retry_budget,
        order_timeout_ms: 1_000,
        max_order_quantity: 10_000_000,
        opportunity_ttl_ms: 10_000,
    }
}

// buy cost reserved on acceptance: 3 * 100 = 300.0 in scaled units
const RESERVE: u128 = 300_000_000;

#[test]
fn lifecycle_both_filled_settles_without_compensation() {
    let mut e = ExecutionEngine::new(config(0), 1_000_000_000);
    let idx = e.accept_opportunity(&opp(7), 1_100).unwrap();
    assert_eq!(idx, 0);
    assert_eq!(e.balance, 1_000_000_000 - RESERVE);
    assert_eq!(e.pairs[0].buy.state, OrderState::Created);
    e.dispatch(idx, 1_200).unwrap();
    assert_eq!(e.pairs[0].buy.state, OrderState::Submitted);
    assert_eq!(e.pairs[0].sell.state, OrderState::Submitted);
    let a = e
        .on_exchange_event(idx, Leg::Buy, ExchangeEvent::Fill { quantity: 3_000_000 }, 1_300)
        .unwrap();
    assert_eq!(a, LegAction::NoAction);
    e.on_exchange_event(idx, Leg::Sell, ExchangeEvent::Fill { quantity: 3_000_000 }, 1_350)
        .unwrap();
    assert_eq!(e.pairs[0].buy.state, OrderState::Filled);
    assert_eq!(e.pairs[0].sell.state, OrderState::Filled);
    let comp = e.try_settle(idx, 1_400).unwrap();
    assert!(comp.is_none());
    assert_eq!(e.pairs[0].buy.state, OrderState::Settled);
    assert_eq!(e.pairs[0].sell.state, OrderState::Settled);
    assert!(e.pairs[0].settled);
    // the whole reserve was spent on the full buy fill: nothing came back
    assert_eq!(e.balance, 1_000_000_000 - RESERVE);
}

#[test]
fn failed_sell_leg_triggers_compensation() {
    let mut e = ExecutionEngine::new(config(0), 1_000_000_000);
    let idx = e.accept_opportunity(&opp(7), 1_100).unwrap();
    e.dispatch(idx, 1_200).unwrap();
    e.on_exchange_event(idx, Leg::Buy, ExchangeEvent::Fill { quantity: 3_000_000 }, 1_300)
        .unwrap();
    // retry budget 0: the first rejection is terminal
    e.on_exchange_event(idx, Leg::Sell, ExchangeEvent::Reject, 1_350).unwrap();
    assert_eq!(e.pairs[0].sell.state, OrderState::Rejected);
    let comp = e.try_settle(idx, 1_400).unwrap().unwrap();
    // the compensating close-out sells the naked buy position where it sits
    assert_eq!(comp.quantity, 3_000_000);
    assert_eq!(comp.side, Leg::Sell);
    assert_eq!(comp.exchange, 2);
    assert!(e.pairs[0].settled);
    assert_eq!(e.pairs[0].compensation, Some(comp));
}

#[test]
fn failed_buy_leg_releases_reserve() {
    let mut e = ExecutionEngine::new(config(0), 1_000_000_000);
    let idx = e.accept_opportunity(&opp(7), 1_100).unwrap();
    assert_eq!(e.balance, 1_000_000_000 - RESERVE);
    e.dispatch(idx, 1_200).unwrap();
    e.on_exchange_event(idx, Leg::Buy, ExchangeEvent::Reject, 1_300).unwrap();
    e.on_exchange_event(idx, Leg::Sell, ExchangeEvent::CancelAck, 1_350).unwrap();
    let comp = e.try_settle(idx, 1_400).unwrap();
    // neither leg filled anything: no position, full refund
    assert!(comp.is_none());
    assert_eq!(e.balance, 1_000_000_000);
}

#[test]
fn second_opportunity_for_busy_symbol_rejected() {
    let mut e = ExecutionEngine::new(config(0), 1_000_000_000);
    e.accept_opportunity(&opp(7), 1_100).unwrap();
    let r = e.accept_opportunity(&opp(7), 1_200);
    assert_eq!(r, Err(RejectReason::SymbolBusy));
    // a different symbol is not blocked
    assert!(e.accept_opportunity(&opp(8), 1_200).is_ok());
}

#[test]
fn symbol_free_again_after_settlement() {
    let mut e = ExecutionEngine::new(config(0), 1_000_000_000);
    let idx = e.accept_opportunity(&opp(7), 1_100).unwrap();
    e.dispatch(idx, 1_200).unwrap();
    e.on_exchange_event(idx, Leg::Buy, ExchangeEvent::CancelAck, 1_300).unwrap();
    e.on_exchange_event(idx, Leg::Sell, ExchangeEvent::CancelAck, 1_300).unwrap();
    e.try_settle(idx, 1_400).unwrap();
    assert!(e.accept_opportunity(&opp(7), 1_500).is_ok());
}

#[test]
fn stale_opportunity_rejected() {
    let mut e = ExecutionEngine::new(config(0), 1_000_000_000);
    // detected at 1_000, ttl 10_000: dead past 11_000
    let r = e.accept_opportunity(&opp(7), 11_001);
    assert_eq!(r, Err(RejectReason::StaleOpportunity));
    assert!(e.accept_opportunity(&opp(7), 11_000).is_ok());
}

#[test]
fn quantity_over_cap_rejected() {
    let mut e = ExecutionEngine::new(
        ExecConfig {
            order_retry_budget: 0,
            order_timeout_ms: 1_000,
            max_order_quantity: 2_000_000,
            opportunity_ttl_ms: 10_000,
        },
        1_000_000_000,
    );
    let r = e.accept_opportunity(&opp(7), 1_100);
    assert_eq!(r, Err(RejectReason::QuantityOverCap));
}

#[test]
fn insufficient_balance_rejected() {
    let mut e = ExecutionEngine::new(config(0), RESERVE - 1);
    let r = e.accept_opportunity(&opp(7), 1_100);
    assert_eq!(r, Err(RejectReason::InsufficientBalance));
    let mut e = ExecutionEngine::new(config(0), RESERVE);
    assert!(e.accept_opportunity(&opp(7), 1_100).is_ok());
}

#[test]
fn reject_within_budget_asks_for_resubmit() {
    let mut e = ExecutionEngine::new(config(1), 1_000_000_000);
    let idx = e.accept_opportunity(&opp(7), 1_100).unwrap();
    e.dispatch(idx, 1_200).unwrap();
    let a = e.on_exchange_event(idx, Leg::Sell, ExchangeEvent::Reject, 1_300).unwrap();
    assert_eq!(a, LegAction::Resubmit);
    assert_eq!(e.pairs[0].sell.state, OrderState::Submitted);
    assert_eq!(e.pairs[0].sell.retries, 1);
    // the budget is now exhausted: the next rejection is terminal
    let a = e.on_exchange_event(idx, Leg::Sell, ExchangeEvent::Reject, 1_400).unwrap();
    assert_eq!(a, LegAction::NoAction);
    assert_eq!(e.pairs[0].sell.state, OrderState::Rejected);
}

#[test]
fn timeout_then_reconciled_fill() {
    let mut e = ExecutionEngine::new(config(0), 1_000_000_000);
    let idx = e.accept_opportunity(&opp(7), 1_100).unwrap();
    e.dispatch(idx, 1_200).unwrap();
    let a = e.on_exchange_event(idx, Leg::Buy, ExchangeEvent::Timeout, 1_300).unwrap();
    assert_eq!(a, LegAction::Reconcile);
    assert_eq!(e.pairs[0].buy.state, OrderState::ReconcilePending);
    e.on_exchange_event(
        idx,
        Leg::Buy,
        ExchangeEvent::ReconcileResolved { filled_quantity: 1_000_000 },
        1_400,
    )
    .unwrap();
    assert_eq!(e.pairs[0].buy.state, OrderState::PartiallyFilled);
    assert_eq!(e.pairs[0].buy.filled_quantity, 1_000_000);
}

#[test]
fn partial_fills_compensate_the_net_position() {
    let mut e = ExecutionEngine::new(config(0), 1_000_000_000);
    let idx = e.accept_opportunity(&opp(7), 1_100).unwrap();
    e.dispatch(idx, 1_200).unwrap();
    e.on_exchange_event(idx, Leg::Buy, ExchangeEvent::Fill { quantity: 3_000_000 }, 1_300)
        .unwrap();
    e.on_exchange_event(idx, Leg::Sell, ExchangeEvent::Fill { quantity: 1_000_000 }, 1_300)
        .unwrap();
    let comp = e.try_settle(idx, 1_400).unwrap().unwrap();
    assert_eq!(comp.quantity, 2_000_000);
    assert_eq!(comp.side, Leg::Sell);
}

#[test]
fn invalid_calls_are_refused() {
    let mut e = ExecutionEngine::new(config(0), 1_000_000_000);
    assert_eq!(e.dispatch(0, 1_000), Err(ExecError::NoSuchPair));
    let idx = e.accept_opportunity(&opp(7), 1_100).unwrap();
    // events are invalid before dispatch
    let r = e.on_exchange_event(idx, Leg::Buy, ExchangeEvent::Fill { quantity: 1 }, 1_150);
    assert_eq!(r, Err(ExecError::InvalidTransition));
    e.dispatch(idx, 1_200).unwrap();
    // dispatching twice is invalid
    assert_eq!(e.dispatch(idx, 1_250), Err(ExecError::InvalidTransition));
    // settlement needs both legs resolved
    assert_eq!(e.try_settle(idx, 1_300), Err(ExecError::LegsUnresolved));
    e.on_exchange_event(idx, Leg::Buy, ExchangeEvent::CancelAck, 1_350).unwrap();
    e.on_exchange_event(idx, Leg::Sell, ExchangeEvent::CancelAck, 1_350).unwrap();
    e.try_settle(idx, 1_400).unwrap();
    assert_eq!(e.try_settle(idx, 1_500), Err(ExecError::AlreadySettled));
    // a reconcile answer is only valid while reconciliation is pending
    let r = e.on_exchange_event(
        idx,
        Leg::Buy,
        ExchangeEvent::ReconcileResolved { filled_quantity: 0 },
        1_600,
    );
    assert_eq!(r, Err(ExecError::InvalidTransition));
}
