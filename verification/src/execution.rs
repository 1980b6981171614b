//! The Execution Engine: consumes opportunities after a risk check, drives
//! the per-order lifecycle state machine, coordinates the two legs of each
//! accepted opportunity, and guarantees that a filled leg whose sibling
//! ultimately fails triggers a compensating close-out order before the pair
//! settles. Balance reserved for a buy leg is conserved: it is either spent
//! on the fill or released at settlement.

use vstd::prelude::*;

use crate::types::SCALE;
use crate::types::QTY_MAX;
use crate::types::PRICE_MAX;
use crate::detector::Opportunity;

verus! {

/// Which leg of an opportunity an order executes.
#[derive(Clone, Copy, PartialEq, Eq, Structural, Debug)]
pub enum Leg {
    Buy,
    Sell,
}

/// Order lifecycle states. `Created` orders have not been dispatched;
/// `Submitted` ones await the exchange; `ReconcilePending` follows a
/// timeout and awaits a status poll; `Filled`, `PartiallyFilled`,
/// `Rejected` and `Cancelled` are the resolutions an exchange reports;
/// `Settled` closes both legs of a pair together.
#[derive(Clone, Copy, PartialEq, Eq, Structural, Debug)]
pub enum OrderState {
    Created,
    Submitted,
    ReconcilePending,
    Filled,
    PartiallyFilled,
    Rejected,
    Cancelled,
    Settled,
}

/// One leg order, owned by the engine for its whole lifecycle.
#[derive(Clone, Copy, PartialEq, Eq, Structural, Debug)]
pub struct Order {
    pub id: u64,
    pub symbol: u32,
    pub leg: Leg,
    pub exchange: u32,
    pub price: u64,
    pub quantity: u64,
    pub state: OrderState,
    pub submitted_at: u64,
    pub resolved_at: Option<u64>,
    pub retries: u64,
    pub filled_quantity: u64,
}

/// Why the engine refused an opportunity.
#[derive(Clone, Copy, PartialEq, Eq, Structural, Debug)]
pub enum RejectReason {
    StaleOpportunity,
    QuantityOverCap,
    SymbolBusy,
    InsufficientBalance,
}

/// A call on the engine that breaks its contract.
#[derive(Clone, Copy, PartialEq, Eq, Structural, Debug)]
pub enum ExecError {
    NoSuchPair,
    InvalidTransition,
    LegsUnresolved,
    AlreadySettled,
}

/// Asynchronous word from the exchange gateway about one order.
#[derive(Clone, Copy, PartialEq, Eq, Structural, Debug)]
pub enum ExchangeEvent {
    Fill { quantity: u64 },
    Reject,
    CancelAck,
    Timeout,
    ReconcileResolved { filled_quantity: u64 },
}

/// What the engine asks its caller to do next for one leg.
#[derive(Clone, Copy, PartialEq, Eq, Structural, Debug)]
pub enum LegAction {
    NoAction,
    Resubmit,
    Reconcile,
}

/// The close-out order issued when the two legs of a settled pair filled
/// unequal quantities: it unwinds the net position.
#[derive(Clone, Copy, PartialEq, Eq, Structural, Debug)]
pub struct CompensationOrder {
    pub exchange: u32,
    pub side: Leg,
    pub quantity: u64,
}

/// Both legs of one accepted opportunity, their reserved balance, and the
/// compensation record once settled.
#[derive(Clone, Copy, PartialEq, Eq, Structural, Debug)]
pub struct ExecPair {
    pub symbol: u32,
    pub buy: Order,
    pub sell: Order,
    pub reserved: u128,
    pub settled: bool,
    pub compensation: Option<CompensationOrder>,
}

/// Engine configuration.
#[derive(Clone, Copy, PartialEq, Eq, Structural, Debug)]
pub struct ExecConfig {
    pub order_retry_budget: u64,
    pub order_timeout_ms: u64,
    pub max_order_quantity: u64,
    pub opportunity_ttl_ms: u64,
}

/// The execution engine: available balance, the order pairs it owns, and
/// the id counter.
pub struct ExecutionEngine {
    pub config: ExecConfig,
    pub balance: u128,
    pub next_id: u64,
    pub pairs: Vec<ExecPair>,
}

/// The lifecycle diagram: which state changes one event may cause.
pub open spec fn transition_allowed(from: OrderState, to: OrderState) -> bool {
    ||| from == to
    ||| (from == OrderState::Created && to == OrderState::Submitted)
    ||| (from == OrderState::Submitted && (to == OrderState::Filled || to
        == OrderState::PartiallyFilled || to == OrderState::Rejected || to
        == OrderState::Cancelled || to == OrderState::ReconcilePending))
    ||| (from == OrderState::ReconcilePending && (to == OrderState::Filled || to
        == OrderState::PartiallyFilled || to == OrderState::Rejected || to
        == OrderState::Cancelled || to == OrderState::Submitted))
    ||| ((from == OrderState::Filled || from == OrderState::PartiallyFilled || from
        == OrderState::Rejected || from == OrderState::Cancelled) && to == OrderState::Settled)
}

/// The leg has a resolution from the exchange and can take part in
/// settlement.
pub open spec fn leg_resolved(st: OrderState) -> bool {
    st == OrderState::Filled || st == OrderState::PartiallyFilled || st == OrderState::Rejected
        || st == OrderState::Cancelled
}

/// One order's own invariant.
pub open spec fn order_wf(o: Order, retry_budget: u64) -> bool {
    &&& 0 < o.price <= PRICE_MAX
    &&& 0 < o.quantity <= QTY_MAX
    &&& o.filled_quantity <= o.quantity
    &&& o.retries <= retry_budget
    &&& (o.state == OrderState::Filled ==> o.filled_quantity == o.quantity)
    &&& ((o.state == OrderState::Created || o.state == OrderState::Submitted || o.state
        == OrderState::ReconcilePending || o.state == OrderState::Rejected || o.state
        == OrderState::Cancelled) ==> o.filled_quantity == 0)
}

/// What the compensation of a settled pair must be: nothing when the two
/// legs filled the same quantity, otherwise a close-out of the excess on
/// the side that over-filled.
pub open spec fn comp_spec(buy: Order, sell: Order) -> Option<CompensationOrder> {
    if buy.filled_quantity == sell.filled_quantity {
        None
    } else if buy.filled_quantity > sell.filled_quantity {
        Some(
            CompensationOrder {
                exchange: buy.exchange,
                side: Leg::Sell,
                quantity: (buy.filled_quantity - sell.filled_quantity) as u64,
            },
        )
    } else {
        Some(
            CompensationOrder {
                exchange: sell.exchange,
                side: Leg::Buy,
                quantity: (sell.filled_quantity - buy.filled_quantity) as u64,
            },
        )
    }
}

/// One pair's invariant, including the two-leg compensation guarantee: a
/// settled pair whose legs filled unequal quantities carries the
/// compensating close-out record.
pub open spec fn pair_wf(p: ExecPair, retry_budget: u64) -> bool {
    &&& p.buy.leg == Leg::Buy
    &&& p.sell.leg == Leg::Sell
    &&& p.buy.symbol == p.symbol
    &&& p.sell.symbol == p.symbol
    &&& order_wf(p.buy, retry_budget)
    &&& order_wf(p.sell, retry_budget)
    &&& p.reserved == (p.buy.quantity * p.buy.price) / (SCALE as int)
    &&& (p.settled ==> p.buy.state == OrderState::Settled && p.sell.state == OrderState::Settled)
    &&& (!p.settled ==> p.buy.state != OrderState::Settled && p.sell.state != OrderState::Settled)
    &&& (p.settled ==> p.compensation == comp_spec(p.buy, p.sell))
    &&& (!p.settled ==> p.compensation is None)
}

/// The reserve still tied up in one pair.
pub open spec fn pair_outstanding(p: ExecPair) -> int {
    if p.settled {
        0
    } else {
        p.reserved as int
    }
}

/// Balance reserved across all unsettled pairs.
pub open spec fn outstanding(ps: Seq<ExecPair>) -> int
    decreases ps.len(),
{
    if ps.len() == 0 {
        0
    } else {
        outstanding(ps.drop_last()) + pair_outstanding(ps.last())
    }
}

/// The whole engine's invariant: well-formed pairs, at most one unsettled
/// pair per symbol, and a bounded balance-plus-reserves total.
pub open spec fn engine_wf(e: ExecutionEngine) -> bool {
    &&& forall|i: int| 0 <= i < e.pairs@.len() ==> pair_wf(#[trigger] e.pairs@[i], e.config.order_retry_budget)
    &&& forall|i: int, j: int|
        0 <= i < j < e.pairs@.len() && (#[trigger] e.pairs@[i]).symbol
            == (#[trigger] e.pairs@[j]).symbol ==> e.pairs@[i].settled || e.pairs@[j].settled
    &&& e.balance + outstanding(e.pairs@) <= u128::MAX
    &&& e.next_id == 2 * e.pairs@.len()
}

pub proof fn lemma_outstanding_nonneg(ps: Seq<ExecPair>)
    ensures
        outstanding(ps) >= 0,
    decreases ps.len(),
{
    if ps.len() > 0 {
        lemma_outstanding_nonneg(ps.drop_last());
    }
}

pub proof fn lemma_outstanding_push(ps: Seq<ExecPair>, p: ExecPair)
    ensures
        outstanding(ps.push(p)) == outstanding(ps) + pair_outstanding(p),
{
    assert(ps.push(p).drop_last() =~= ps);
    assert(ps.push(p).last() == p);
}

pub proof fn lemma_outstanding_update(ps: Seq<ExecPair>, i: int, p: ExecPair)
    requires
        0 <= i < ps.len(),
    ensures
        outstanding(ps.update(i, p)) == outstanding(ps) - pair_outstanding(ps[i])
            + pair_outstanding(p),
    decreases ps.len(),
{
    let u = ps.update(i, p);
    if i == ps.len() - 1 {
        assert(u.drop_last() =~= ps.drop_last());
        assert(u.last() == p);
    } else {
        assert(u.drop_last() =~= ps.drop_last().update(i, p));
        assert(u.last() == ps.last());
        lemma_outstanding_update(ps.drop_last(), i, p);
    }
}

pub proof fn lemma_outstanding_elem(ps: Seq<ExecPair>, i: int)
    requires
        0 <= i < ps.len(),
        !ps[i].settled,
    ensures
        outstanding(ps) >= ps[i].reserved,
    decreases ps.len(),
{
    lemma_outstanding_nonneg(ps.drop_last());
    if i == ps.len() - 1 {
    } else {
        assert(ps.drop_last()[i] == ps[i]);
        lemma_outstanding_elem(ps.drop_last(), i);
    }
}

} // verus!

verus! {

/// Upper bound on how many pairs one engine may ever hold; keeps the order
/// id counter inside `u64`.
pub const PAIRS_MAX: u64 = 0x1000_0000_0000_0000;

/// An opportunity the engine can price: as the detector emits them.
pub open spec fn opp_wf(op: Opportunity) -> bool {
    &&& 0 < op.buy_price <= PRICE_MAX
    &&& 0 < op.sell_price <= PRICE_MAX
    &&& 0 < op.max_quantity <= QTY_MAX
}

/// The balance reserved when a pair is accepted: the cost of the buy leg.
pub open spec fn reserve_cost(op: Opportunity) -> int {
    op.max_quantity * op.buy_price / (SCALE as int)
}

/// Some pair for this symbol is still in flight.
pub open spec fn symbol_busy_spec(ps: Seq<ExecPair>, symbol: u32) -> bool {
    exists|i: int| 0 <= i < ps.len() && (#[trigger] ps[i]).symbol == symbol && !ps[i].settled
}

/// The risk check, with its reasons in priority order.
pub open spec fn risk_answer(e: ExecutionEngine, op: Opportunity, now: u64) -> Result<
    (),
    RejectReason,
> {
    if op.detected_at + e.config.opportunity_ttl_ms < now {
        Err(RejectReason::StaleOpportunity)
    } else if op.max_quantity > e.config.max_order_quantity {
        Err(RejectReason::QuantityOverCap)
    } else if symbol_busy_spec(e.pairs@, op.symbol) {
        Err(RejectReason::SymbolBusy)
    } else if e.balance < reserve_cost(op) {
        Err(RejectReason::InsufficientBalance)
    } else {
        Ok(())
    }
}

/// The pair an accepted opportunity becomes: both legs `Created`, sized by
/// the opportunity, the buy cost reserved.
pub open spec fn new_pair_spec(op: Opportunity, id0: u64) -> ExecPair {
    ExecPair {
        symbol: op.symbol,
        buy: Order {
            id: id0,
            symbol: op.symbol,
            leg: Leg::Buy,
            exchange: op.buy_exchange,
            price: op.buy_price,
            quantity: op.max_quantity,
            state: OrderState::Created,
            submitted_at: 0,
            resolved_at: None,
            retries: 0,
            filled_quantity: 0,
        },
        sell: Order {
            id: (id0 + 1) as u64,
            symbol: op.symbol,
            leg: Leg::Sell,
            exchange: op.sell_exchange,
            price: op.sell_price,
            quantity: op.max_quantity,
            state: OrderState::Created,
            submitted_at: 0,
            resolved_at: None,
            retries: 0,
            filled_quantity: 0,
        },
        reserved: reserve_cost(op) as u128,
        settled: false,
        compensation: None,
    }
}

/// The pair after dispatch: both legs `Submitted` at `now`.
pub open spec fn dispatched_pair_spec(p: ExecPair, now: u64) -> ExecPair {
    ExecPair {
        buy: Order { state: OrderState::Submitted, submitted_at: now, ..p.buy },
        sell: Order { state: OrderState::Submitted, submitted_at: now, ..p.sell },
        ..p
    }
}

impl ExecutionEngine {
    /// A fresh engine with the given configuration and starting balance.
    pub fn new(config: ExecConfig, initial_balance: u128) -> (r: ExecutionEngine)
        ensures
            engine_wf(r),
            r.config == config,
            r.balance == initial_balance,
            r.pairs@.len() == 0,
    {
        ExecutionEngine { config, balance: initial_balance, next_id: 0, pairs: Vec::new() }
    }

    /// Whether some pair for this symbol is still unsettled.
    pub fn symbol_busy(&self, symbol: u32) -> (r: bool)
        ensures
            r == symbol_busy_spec(self.pairs@, symbol),
    {
        let mut i: usize = 0;
        while i < self.pairs.len()
            invariant
                0 <= i <= self.pairs@.len(),
                forall|j: int|
                    0 <= j < i ==> !((#[trigger] self.pairs@[j]).symbol == symbol
                        && !self.pairs@[j].settled),
            decreases self.pairs.len() - i,
        {
            let p = self.pairs[i];
            if p.symbol == symbol && !p.settled {
                return true;
            }
            i += 1;
        }
        false
    }

    /// Risk-check an opportunity and, if it passes, create its two `Created`
    /// leg orders, reserving the buy cost from the balance. Exactly one
    /// unsettled pair may exist per symbol at any time.
    pub fn accept_opportunity(&mut self, op: &Opportunity, now: u64) -> (r: Result<
        usize,
        RejectReason,
    >)
        requires
            engine_wf(*old(self)),
            opp_wf(*op),
            old(self).pairs@.len() < PAIRS_MAX,
        ensures
            engine_wf(*final(self)),
            final(self).config == old(self).config,
            match r {
                Ok(i) => risk_answer(*old(self), *op, now) is Ok && i == old(self).pairs@.len()
                    && final(self).pairs@ == old(self).pairs@.push(
                    new_pair_spec(*op, old(self).next_id),
                ) && final(self).balance == old(self).balance - reserve_cost(*op),
                Err(reason) => *final(self) == *old(self) && risk_answer(*old(self), *op, now)
                    == Err::<(), RejectReason>(reason),
            },
    {
        let ttl = self.config.opportunity_ttl_ms;
        let stale = now > ttl && op.detected_at < now - ttl;
        if stale {
            return Err(RejectReason::StaleOpportunity);
        }
        if op.max_quantity > self.config.max_order_quantity {
            return Err(RejectReason::QuantityOverCap);
        }
        if self.symbol_busy(op.symbol) {
            return Err(RejectReason::SymbolBusy);
        }
        proof {
            assert((op.max_quantity as int) * (op.buy_price as int) <= (QTY_MAX as int) * (
            PRICE_MAX as int)) by (nonlinear_arith)
                requires
                    op.max_quantity <= QTY_MAX && op.buy_price <= PRICE_MAX,
            ;
        }
        let cost: u128 = (op.max_quantity as u128) * (op.buy_price as u128) / (SCALE as u128);
        if self.balance < cost {
            return Err(RejectReason::InsufficientBalance);
        }
        let ghost ps0 = self.pairs@;
        let id0 = self.next_id;
        let pair = ExecPair {
            symbol: op.symbol,
            buy: Order {
                id: id0,
                symbol: op.symbol,
                leg: Leg::Buy,
                exchange: op.buy_exchange,
                price: op.buy_price,
                quantity: op.max_quantity,
                state: OrderState::Created,
                submitted_at: 0,
                resolved_at: None,
                retries: 0,
                filled_quantity: 0,
            },
            sell: Order {
                id: id0 + 1,
                symbol: op.symbol,
                leg: Leg::Sell,
                exchange: op.sell_exchange,
                price: op.sell_price,
                quantity: op.max_quantity,
                state: OrderState::Created,
                submitted_at: 0,
                resolved_at: None,
                retries: 0,
                filled_quantity: 0,
            },
            reserved: cost,
            settled: false,
            compensation: None,
        };
        self.balance = self.balance - cost;
        let idx = self.pairs.len();
        self.pairs.push(pair);
        self.next_id = id0 + 2;
        proof {
            assert(pair == new_pair_spec(*op, id0));
            lemma_outstanding_push(ps0, pair);
            assert forall|i: int, j: int|
                0 <= i < j < self.pairs@.len() && (#[trigger] self.pairs@[i]).symbol
                    == (#[trigger] self.pairs@[j]).symbol implies self.pairs@[i].settled
                || self.pairs@[j].settled by {
                if j == ps0.len() as int {
                    assert(self.pairs@[i] == ps0[i]);
                    assert(!symbol_busy_spec(ps0, op.symbol));
                }
            }
        }
        Ok(idx)
    }

    /// Dispatch both legs of a freshly accepted pair to the exchanges:
    /// `Created -> Submitted`, concurrently, stamped with `now`.
    pub fn dispatch(&mut self, pair_idx: usize, now: u64) -> (r: Result<(), ExecError>)
        requires
            engine_wf(*old(self)),
        ensures
            engine_wf(*final(self)),
            final(self).config == old(self).config,
            match r {
                Ok(_) => pair_idx < old(self).pairs@.len() && old(
                    self,
                ).pairs@[pair_idx as int].buy.state == OrderState::Created && old(
                    self,
                ).pairs@[pair_idx as int].sell.state == OrderState::Created && final(self).pairs@
                    == old(self).pairs@.update(
                    pair_idx as int,
                    dispatched_pair_spec(old(self).pairs@[pair_idx as int], now),
                ) && final(self).balance == old(self).balance,
                Err(e) => *final(self) == *old(self) && ((e == ExecError::NoSuchPair && pair_idx
                    >= old(self).pairs@.len()) || (e == ExecError::InvalidTransition && pair_idx
                    < old(self).pairs@.len() && !(old(self).pairs@[pair_idx as int].buy.state
                    == OrderState::Created && old(self).pairs@[pair_idx as int].sell.state
                    == OrderState::Created))),
            },
    {
        if pair_idx >= self.pairs.len() {
            return Err(ExecError::NoSuchPair);
        }
        let p = self.pairs[pair_idx];
        if !(p.buy.state == OrderState::Created && p.sell.state == OrderState::Created) {
            return Err(ExecError::InvalidTransition);
        }
        let ghost ps0 = self.pairs@;
        let np = ExecPair {
            buy: Order { state: OrderState::Submitted, submitted_at: now, ..p.buy },
            sell: Order { state: OrderState::Submitted, submitted_at: now, ..p.sell },
            ..p
        };
        self.pairs.set(pair_idx, np);
        proof {
            lemma_outstanding_update(ps0, pair_idx as int, np);
        }
        Ok(())
    }
}

} // verus!

verus! {

/// The smaller of two quantities.
pub open spec fn min_u64(a: u64, b: u64) -> u64 {
    if a <= b {
        a
    } else {
        b
    }
}

/// The pure transition function of the order state machine: what one
/// exchange event does to one leg. `None` means the event is not valid in
/// the leg's current state (a programming-contract violation). A `Reject`
/// within the retry budget keeps the order in flight and asks the caller
/// to resubmit; beyond the budget it is terminal.
pub open spec fn step_order_spec(o: Order, ev: ExchangeEvent, budget: u64, now: u64) -> Option<
    (Order, LegAction),
> {
    if o.state == OrderState::Submitted {
        match ev {
            ExchangeEvent::Fill { quantity } => {
                let f = min_u64(quantity, o.quantity);
                Some(
                    (
                        Order {
                            state: if f == o.quantity {
                                OrderState::Filled
                            } else {
                                OrderState::PartiallyFilled
                            },
                            filled_quantity: f,
                            resolved_at: Some(now),
                            ..o
                        },
                        LegAction::NoAction,
                    ),
                )
            },
            ExchangeEvent::Reject => {
                if o.retries < budget {
                    Some((Order { retries: (o.retries + 1) as u64, ..o }, LegAction::Resubmit))
                } else {
                    Some(
                        (
                            Order { state: OrderState::Rejected, resolved_at: Some(now), ..o },
                            LegAction::NoAction,
                        ),
                    )
                }
            },
            ExchangeEvent::CancelAck => Some(
                (
                    Order { state: OrderState::Cancelled, resolved_at: Some(now), ..o },
                    LegAction::NoAction,
                ),
            ),
            ExchangeEvent::Timeout => Some(
                (Order { state: OrderState::ReconcilePending, ..o }, LegAction::Reconcile),
            ),
            ExchangeEvent::ReconcileResolved { .. } => None,
        }
    } else if o.state == OrderState::ReconcilePending {
        match ev {
            ExchangeEvent::Fill { quantity } => {
                let f = min_u64(quantity, o.quantity);
                Some(
                    (
                        Order {
                            state: if f == o.quantity {
                                OrderState::Filled
                            } else {
                                OrderState::PartiallyFilled
                            },
                            filled_quantity: f,
                            resolved_at: Some(now),
                            ..o
                        },
                        LegAction::NoAction,
                    ),
                )
            },
            ExchangeEvent::Reject => {
                if o.retries < budget {
                    Some(
                        (
                            Order {
                                state: OrderState::Submitted,
                                retries: (o.retries + 1) as u64,
                                ..o
                            },
                            LegAction::Resubmit,
                        ),
                    )
                } else {
                    Some(
                        (
                            Order { state: OrderState::Rejected, resolved_at: Some(now), ..o },
                            LegAction::NoAction,
                        ),
                    )
                }
            },
            ExchangeEvent::CancelAck => Some(
                (
                    Order { state: OrderState::Cancelled, resolved_at: Some(now), ..o },
                    LegAction::NoAction,
                ),
            ),
            ExchangeEvent::Timeout => Some((o, LegAction::Reconcile)),
            ExchangeEvent::ReconcileResolved { filled_quantity } => {
                if filled_quantity == 0 {
                    Some(
                        (
                            Order { state: OrderState::Cancelled, resolved_at: Some(now), ..o },
                            LegAction::NoAction,
                        ),
                    )
                } else {
                    let f = min_u64(filled_quantity, o.quantity);
                    Some(
                        (
                            Order {
                                state: if f == o.quantity {
                                    OrderState::Filled
                                } else {
                                    OrderState::PartiallyFilled
                                },
                                filled_quantity: f,
                                resolved_at: Some(now),
                                ..o
                            },
                            LegAction::NoAction,
                        ),
                    )
                }
            },
        }
    } else {
        None
    }
}

/// Every step the machine takes follows the lifecycle diagram, never
/// reaches `Settled` on its own, keeps the order's identity and size, and
/// preserves the order invariant.
pub proof fn lemma_step_order(o: Order, ev: ExchangeEvent, budget: u64, now: u64)
    requires
        order_wf(o, budget),
    ensures
        step_order_spec(o, ev, budget, now) matches Some(st) ==> {
            &&& transition_allowed(o.state, st.0.state)
            &&& st.0.state != OrderState::Settled
            &&& order_wf(st.0, budget)
            &&& st.0.id == o.id
            &&& st.0.symbol == o.symbol
            &&& st.0.leg == o.leg
            &&& st.0.exchange == o.exchange
            &&& st.0.price == o.price
            &&& st.0.quantity == o.quantity
        },
{
}

/// The leg order addressed by an event.
pub open spec fn leg_of(p: ExecPair, leg: Leg) -> Order {
    if leg == Leg::Buy {
        p.buy
    } else {
        p.sell
    }
}

/// The pair with one leg replaced.
pub open spec fn pair_with_leg(p: ExecPair, leg: Leg, o: Order) -> ExecPair {
    if leg == Leg::Buy {
        ExecPair { buy: o, ..p }
    } else {
        ExecPair { sell: o, ..p }
    }
}

/// The pair once settled: both legs `Settled`, the compensation recorded.
pub open spec fn settled_pair_spec(p: ExecPair) -> ExecPair {
    ExecPair {
        buy: Order { state: OrderState::Settled, ..p.buy },
        sell: Order { state: OrderState::Settled, ..p.sell },
        settled: true,
        compensation: comp_spec(p.buy, p.sell),
        ..p
    }
}

/// What settlement hands back to the balance: the reserve minus the cost of
/// what the buy leg actually filled.
pub open spec fn settle_refund(p: ExecPair) -> int {
    p.reserved - (p.buy.filled_quantity * p.buy.price) / (SCALE as int)
}

impl ExecutionEngine {
    /// Feed one asynchronous exchange event to one leg of one pair. The
    /// leg moves exactly as [`step_order_spec`] says; an event that is not
    /// valid in the leg's current state is refused and changes nothing.
    pub fn on_exchange_event(
        &mut self,
        pair_idx: usize,
        leg: Leg,
        ev: ExchangeEvent,
        now: u64,
    ) -> (r: Result<LegAction, ExecError>)
        requires
            engine_wf(*old(self)),
        ensures
            engine_wf(*final(self)),
            final(self).config == old(self).config,
            final(self).balance == old(self).balance,
            match r {
                Ok(action) => pair_idx < old(self).pairs@.len() && {
                    let p0 = old(self).pairs@[pair_idx as int];
                    let stepped = step_order_spec(
                        leg_of(p0, leg),
                        ev,
                        old(self).config.order_retry_budget,
                        now,
                    );
                    &&& stepped is Some
                    &&& action == stepped->Some_0.1
                    &&& final(self).pairs@ == old(self).pairs@.update(
                        pair_idx as int,
                        pair_with_leg(p0, leg, stepped->Some_0.0),
                    )
                },
                Err(e) => *final(self) == *old(self) && ((e == ExecError::NoSuchPair && pair_idx
                    >= old(self).pairs@.len()) || (e == ExecError::InvalidTransition && pair_idx
                    < old(self).pairs@.len() && step_order_spec(
                    leg_of(old(self).pairs@[pair_idx as int], leg),
                    ev,
                    old(self).config.order_retry_budget,
                    now,
                ) is None)),
            },
    {
        if pair_idx >= self.pairs.len() {
            return Err(ExecError::NoSuchPair);
        }
        let p = self.pairs[pair_idx];
        let o = if leg == Leg::Buy {
            p.buy
        } else {
            p.sell
        };
        let budget = self.config.order_retry_budget;
        let stepped = step_order(o, ev, budget, now);
        match stepped {
            None => Err(ExecError::InvalidTransition),
            Some((no, action)) => {
                let ghost ps0 = self.pairs@;
                let np = if leg == Leg::Buy {
                    ExecPair { buy: no, ..p }
                } else {
                    ExecPair { sell: no, ..p }
                };
                self.pairs.set(pair_idx, np);
                proof {
                    lemma_step_order(o, ev, budget, now);
                    lemma_outstanding_update(ps0, pair_idx as int, np);
                }
                Ok(action)
            },
        }
    }

    /// Settle a pair whose two legs have both resolved: record the
    /// compensating close-out (if the filled quantities differ), mark both
    /// legs `Settled`, and release the unspent part of the reserve back to
    /// the balance. The compensation record exists from the same atomic
    /// step that marks the pair settled — never later.
    pub fn try_settle(&mut self, pair_idx: usize, now: u64) -> (r: Result<
        Option<CompensationOrder>,
        ExecError,
    >)
        requires
            engine_wf(*old(self)),
        ensures
            engine_wf(*final(self)),
            final(self).config == old(self).config,
            match r {
                Ok(comp) => pair_idx < old(self).pairs@.len() && {
                    let p0 = old(self).pairs@[pair_idx as int];
                    &&& !p0.settled
                    &&& leg_resolved(p0.buy.state)
                    &&& leg_resolved(p0.sell.state)
                    &&& comp == comp_spec(p0.buy, p0.sell)
                    &&& final(self).pairs@ == old(self).pairs@.update(
                        pair_idx as int,
                        settled_pair_spec(p0),
                    )
                    &&& final(self).balance == old(self).balance + settle_refund(p0)
                    &&& 0 <= settle_refund(p0) <= p0.reserved
                    &&& (p0.buy.filled_quantity > 0 && p0.sell.filled_quantity == 0
                        ==> (comp matches Some(c) && c.quantity == p0.buy.filled_quantity
                        && c.side == Leg::Sell && c.exchange == p0.buy.exchange))
                },
                Err(e) => *final(self) == *old(self) && ((e == ExecError::NoSuchPair && pair_idx
                    >= old(self).pairs@.len()) || (pair_idx < old(self).pairs@.len() && ((e
                    == ExecError::AlreadySettled && old(self).pairs@[pair_idx as int].settled) || (
                e == ExecError::LegsUnresolved && !old(self).pairs@[pair_idx as int].settled && !(
                leg_resolved(old(self).pairs@[pair_idx as int].buy.state) && leg_resolved(
                    old(self).pairs@[pair_idx as int].sell.state,
                )))))),
            },
    {
        if pair_idx >= self.pairs.len() {
            return Err(ExecError::NoSuchPair);
        }
        let p = self.pairs[pair_idx];
        if p.settled {
            return Err(ExecError::AlreadySettled);
        }
        let buy_done = p.buy.state == OrderState::Filled || p.buy.state
            == OrderState::PartiallyFilled || p.buy.state == OrderState::Rejected || p.buy.state
            == OrderState::Cancelled;
        let sell_done = p.sell.state == OrderState::Filled || p.sell.state
            == OrderState::PartiallyFilled || p.sell.state == OrderState::Rejected || p.sell.state
            == OrderState::Cancelled;
        if !(buy_done && sell_done) {
            return Err(ExecError::LegsUnresolved);
        }
        let comp = if p.buy.filled_quantity == p.sell.filled_quantity {
            None
        } else if p.buy.filled_quantity > p.sell.filled_quantity {
            Some(
                CompensationOrder {
                    exchange: p.buy.exchange,
                    side: Leg::Sell,
                    quantity: p.buy.filled_quantity - p.sell.filled_quantity,
                },
            )
        } else {
            Some(
                CompensationOrder {
                    exchange: p.sell.exchange,
                    side: Leg::Buy,
                    quantity: p.sell.filled_quantity - p.buy.filled_quantity,
                },
            )
        };
        proof {
            assert((p.buy.filled_quantity as int) * (p.buy.price as int) <= (QTY_MAX as int) * (
            PRICE_MAX as int)) by (nonlinear_arith)
                requires
                    p.buy.filled_quantity <= QTY_MAX && p.buy.price <= PRICE_MAX,
            ;
            vstd::arithmetic::mul::lemma_mul_inequality(
                p.buy.filled_quantity as int,
                p.buy.quantity as int,
                p.buy.price as int,
            );
            vstd::arithmetic::div_mod::lemma_div_is_ordered(
                (p.buy.filled_quantity as int) * (p.buy.price as int),
                (p.buy.quantity as int) * (p.buy.price as int),
                SCALE as int,
            );
            lemma_outstanding_elem(self.pairs@, pair_idx as int);
            lemma_outstanding_nonneg(self.pairs@);
        }
        let spent: u128 = (p.buy.filled_quantity as u128) * (p.buy.price as u128) / (
        SCALE as u128);
        let refund: u128 = p.reserved - spent;
        let ghost ps0 = self.pairs@;
        let np = ExecPair {
            buy: Order { state: OrderState::Settled, ..p.buy },
            sell: Order { state: OrderState::Settled, ..p.sell },
            settled: true,
            compensation: comp,
            ..p
        };
        self.pairs.set(pair_idx, np);
        self.balance = self.balance + refund;
        proof {
            lemma_outstanding_update(ps0, pair_idx as int, np);
        }
        Ok(comp)
    }
}

/// Exec twin of [`step_order_spec`].
fn step_order(o: Order, ev: ExchangeEvent, budget: u64, now: u64) -> (r: Option<(Order, LegAction)>)
    requires
        o.retries <= budget,
    ensures
        r == step_order_spec(o, ev, budget, now),
{
    if o.state == OrderState::Submitted {
        match ev {
            ExchangeEvent::Fill { quantity } => {
                let f = if quantity <= o.quantity {
                    quantity
                } else {
                    o.quantity
                };
                Some(
                    (
                        Order {
                            state: if f == o.quantity {
                                OrderState::Filled
                            } else {
                                OrderState::PartiallyFilled
                            },
                            filled_quantity: f,
                            resolved_at: Some(now),
                            ..o
                        },
                        LegAction::NoAction,
                    ),
                )
            },
            ExchangeEvent::Reject => {
                if o.retries < budget {
                    Some((Order { retries: o.retries + 1, ..o }, LegAction::Resubmit))
                } else {
                    Some(
                        (
                            Order { state: OrderState::Rejected, resolved_at: Some(now), ..o },
                            LegAction::NoAction,
                        ),
                    )
                }
            },
            ExchangeEvent::CancelAck => Some(
                (
                    Order { state: OrderState::Cancelled, resolved_at: Some(now), ..o },
                    LegAction::NoAction,
                ),
            ),
            ExchangeEvent::Timeout => Some(
                (Order { state: OrderState::ReconcilePending, ..o }, LegAction::Reconcile),
            ),
            ExchangeEvent::ReconcileResolved { .. } => None,
        }
    } else if o.state == OrderState::ReconcilePending {
        match ev {
            ExchangeEvent::Fill { quantity } => {
                let f = if quantity <= o.quantity {
                    quantity
                } else {
                    o.quantity
                };
                Some(
                    (
                        Order {
                            state: if f == o.quantity {
                                OrderState::Filled
                            } else {
                                OrderState::PartiallyFilled
                            },
                            filled_quantity: f,
                            resolved_at: Some(now),
                            ..o
                        },
                        LegAction::NoAction,
                    ),
                )
            },
            ExchangeEvent::Reject => {
                if o.retries < budget {
                    Some(
                        (
                            Order { state: OrderState::Submitted, retries: o.retries + 1, ..o },
                            LegAction::Resubmit,
                        ),
                    )
                } else {
                    Some(
                        (
                            Order { state: OrderState::Rejected, resolved_at: Some(now), ..o },
                            LegAction::NoAction,
                        ),
                    )
                }
            },
            ExchangeEvent::CancelAck => Some(
                (
                    Order { state: OrderState::Cancelled, resolved_at: Some(now), ..o },
                    LegAction::NoAction,
                ),
            ),
            ExchangeEvent::Timeout => Some((o, LegAction::Reconcile)),
            ExchangeEvent::ReconcileResolved { filled_quantity } => {
                if filled_quantity == 0 {
                    Some(
                        (
                            Order { state: OrderState::Cancelled, resolved_at: Some(now), ..o },
                            LegAction::NoAction,
                        ),
                    )
                } else {
                    let f = if filled_quantity <= o.quantity {
                        filled_quantity
                    } else {
                        o.quantity
                    };
                    Some(
                        (
                            Order {
                                state: if f == o.quantity {
                                    OrderState::Filled
                                } else {
                                    OrderState::PartiallyFilled
                                },
                                filled_quantity: f,
                                resolved_at: Some(now),
                                ..o
                            },
                            LegAction::NoAction,
                        ),
                    )
                }
            },
        }
    } else {
        None
    }
}

} // verus!

verus! {

/// At-most-one-in-flight law: two orders for the same symbol that belong
/// to different pairs are never both `Submitted` — whenever one pair for a
/// symbol is in flight, every other pair for it has already settled, and a
/// settled pair's orders are `Settled`.
pub proof fn lemma_no_concurrent_submissions(e: ExecutionEngine, i: int, j: int, l1: Leg, l2: Leg)
    requires
        engine_wf(e),
        0 <= i < e.pairs@.len(),
        0 <= j < e.pairs@.len(),
        i != j,
        e.pairs@[i].symbol == e.pairs@[j].symbol,
    ensures
        !(leg_of(e.pairs@[i], l1).state == OrderState::Submitted && leg_of(e.pairs@[j], l2).state
            == OrderState::Submitted),
{
    assert(pair_wf(e.pairs@[i], e.config.order_retry_budget));
    assert(pair_wf(e.pairs@[j], e.config.order_retry_budget));
    if i < j {
        assert(e.pairs@[i].settled || e.pairs@[j].settled);
    } else {
        assert(e.pairs@[j].settled || e.pairs@[i].settled);
    }
}

/// Two-leg compensation law: a settled pair whose legs filled unequal
/// quantities carries the compensating close-out record — it was issued in
/// the same atomic settlement step, never after.
pub proof fn lemma_compensation_on_settlement(e: ExecutionEngine, i: int)
    requires
        engine_wf(e),
        0 <= i < e.pairs@.len(),
        e.pairs@[i].settled,
        e.pairs@[i].buy.filled_quantity != e.pairs@[i].sell.filled_quantity,
    ensures
        e.pairs@[i].compensation is Some,
        e.pairs@[i].compensation == comp_spec(e.pairs@[i].buy, e.pairs@[i].sell),
        e.pairs@[i].buy.filled_quantity > e.pairs@[i].sell.filled_quantity
            ==> e.pairs@[i].compensation->Some_0.quantity == e.pairs@[i].buy.filled_quantity
            - e.pairs@[i].sell.filled_quantity,
{
    assert(pair_wf(e.pairs@[i], e.config.order_retry_budget));
}

} // verus!
