//! Order lifecycle of a replay: a signal becomes a pending order, each
//! replay step decides whether that order waits, expires or executes, and
//! every decision leaves an audit entry.
//!
//! The audit trail obeys one rule: an order with a nonzero id begins with
//! `Submitted` and ends in exactly one terminal status; order id 0 is
//! reserved for liquidations, which are recorded as filled.
use vstd::prelude::*;

use crate::domain::config::OrderTypeAssumption;
use crate::domain::types::{target_side_of, OrderKind, OrderStatus, PositionState, Side, SignalAction};

verus! {

/// An order waiting for its execution step.
#[derive(Clone, Copy, Debug, PartialEq, Eq, Structural)]
pub struct PendingOrder {
    pub order_id: u64,
    /// Replay step at which the signal was scheduled.
    pub generated_index: usize,
    /// First replay step at which the order may execute.
    pub execute_at_index: usize,
    /// Last replay step at which the order may still execute.
    pub expires_at_index: Option<usize>,
    pub action: SignalAction,
    pub requested_kind: OrderKind,
}

/// One line of the order audit trail.
#[derive(Clone, Copy, Debug, PartialEq, Eq, Structural)]
pub struct LifecycleEntry {
    pub order_id: u64,
    pub status: OrderStatus,
}

/// What scheduling a signal did.
#[derive(Clone, Copy, Debug, PartialEq, Eq, Structural)]
pub struct SubmitOutcome {
    /// The pending order that the new signal cancelled.
    pub superseded: Option<PendingOrder>,
    /// The order that was submitted (none for a hold signal).
    pub submitted: Option<PendingOrder>,
}

/// What a replay step does with the pending order.
#[derive(Clone, Copy, Debug, PartialEq, Eq, Structural)]
pub enum PendingDecision {
    /// There is no pending order.
    Idle,
    /// The order keeps waiting.
    Wait(PendingOrder),
    /// The order timed out and was expired.
    Expire(PendingOrder),
    /// The order executes now; its outcome is recorded with
    /// `finish_execution`.
    Execute(PendingOrder),
}

/// The pending order and audit trail of one replay.
#[derive(Debug)]
pub struct OrderLifecycle {
    next_order_id: u64,
    pending: Option<PendingOrder>,
    log: Vec<LifecycleEntry>,
}

/// Abstract state of an `OrderLifecycle`.
pub struct LifecycleView {
    pub next_order_id: u64,
    pub pending: Option<PendingOrder>,
    pub log: Seq<LifecycleEntry>,
}

impl View for OrderLifecycle {
    type V = LifecycleView;

    closed spec fn view(&self) -> LifecycleView {
        LifecycleView { next_order_id: self.next_order_id, pending: self.pending, log: self.log@ }
    }
}

pub open spec fn is_terminal(status: OrderStatus) -> bool {
    status != OrderStatus::Submitted
}

/// Number of terminal entries of order `id`.
pub open spec fn terminal_count(log: Seq<LifecycleEntry>, id: u64) -> nat
    decreases log.len(),
{
    if log.len() == 0 {
        0
    } else {
        terminal_count(log.drop_last(), id) + (if log.last().order_id == id && is_terminal(
            log.last().status,
        ) {
            1nat
        } else {
            0nat
        })
    }
}

/// Number of `Submitted` entries of order `id`.
pub open spec fn submitted_count(log: Seq<LifecycleEntry>, id: u64) -> nat
    decreases log.len(),
{
    if log.len() == 0 {
        0
    } else {
        submitted_count(log.drop_last(), id) + (if log.last().order_id == id && !is_terminal(
            log.last().status,
        ) {
            1nat
        } else {
            0nat
        })
    }
}

/// Some entry before position `i` belongs to the same order as entry `i`.
pub open spec fn seen_before(log: Seq<LifecycleEntry>, i: int) -> bool {
    exists|j: int| 0 <= j < i && (#[trigger] log[j]).order_id == log[i].order_id
}

/// Entry `i` is legal: a liquidation entry is a fill; any other order has
/// exactly one terminal entry, and its first entry is `Submitted`.
pub open spec fn entry_legal(log: Seq<LifecycleEntry>, i: int) -> bool {
    if log[i].order_id == 0 {
        log[i].status == OrderStatus::Filled
    } else {
        &&& terminal_count(log, log[i].order_id) == 1
        &&& is_terminal(log[i].status) ==> seen_before(log, i)
    }
}

/// Every order in the audit trail has a legal lifecycle.
pub open spec fn legal_lifecycle(log: Seq<LifecycleEntry>) -> bool {
    forall|i: int| 0 <= i < log.len() ==> #[trigger] entry_legal(log, i)
}

pub open spec fn pending_is(pending: Option<PendingOrder>, id: u64) -> bool {
    pending matches Some(p) && p.order_id == id
}

/// The invariant that every operation of `OrderLifecycle` keeps.
pub open spec fn lifecycle_wf(v: LifecycleView) -> bool {
    &&& v.next_order_id >= 1
    &&& forall|i: int| 0 <= i < v.log.len() ==> (#[trigger] v.log[i]).order_id < v.next_order_id
    &&& forall|i: int|
        0 <= i < v.log.len() && (#[trigger] v.log[i]).order_id == 0 ==> v.log[i].status
            == OrderStatus::Filled
    &&& forall|i: int|
        0 <= i < v.log.len() && (#[trigger] v.log[i]).order_id != 0 && is_terminal(v.log[i].status)
            ==> seen_before(v.log, i)
    &&& forall|id: u64|
        1 <= id < v.next_order_id ==> #[trigger] submitted_count(v.log, id) == 1
    &&& forall|id: u64|
        1 <= id < v.next_order_id ==> #[trigger] terminal_count(v.log, id) == (if pending_is(
            v.pending,
            id,
        ) {
            0nat
        } else {
            1nat
        })
    &&& v.pending matches Some(p) ==> 1 <= p.order_id < v.next_order_id
}

pub open spec fn entry(order_id: u64, status: OrderStatus) -> LifecycleEntry {
    LifecycleEntry { order_id, status }
}

/// `a + b`, saturating at `usize::MAX`.
pub open spec fn saturating_sum(a: int, b: int) -> int {
    if a + b > usize::MAX {
        usize::MAX as int
    } else {
        a + b
    }
}

/// The last valid index of a replay of `len` steps (0 when empty).
pub open spec fn last_index(len: int) -> int {
    if len == 0 {
        0
    } else {
        len - 1
    }
}

/// Limit orders without a limit price are sent as market orders.
pub open spec fn requested_kind_for(order_type: OrderTypeAssumption, has_limit_price: bool) -> OrderKind {
    match order_type {
        OrderTypeAssumption::Market => OrderKind::Market,
        OrderTypeAssumption::Limit => if has_limit_price {
            OrderKind::Limit
        } else {
            OrderKind::Market
        },
    }
}

/// The order that a signal at `current_index` becomes: it may execute
/// `latency + 1` steps later (no later than the last step) and, with a
/// timeout, expires `timeout` steps after the unclamped execution step.
pub open spec fn scheduled_order(
    order_id: u64,
    action: SignalAction,
    current_index: usize,
    dataset_len: usize,
    latency: usize,
    timeout: Option<usize>,
    requested_kind: OrderKind,
) -> PendingOrder {
    let execute_at = saturating_sum(current_index as int, latency + 1);
    let last = last_index(dataset_len as int);
    PendingOrder {
        order_id,
        generated_index: current_index,
        execute_at_index: (if execute_at < last {
            execute_at
        } else {
            last
        }) as usize,
        expires_at_index: match timeout {
            Some(t) => Some(saturating_sum(execute_at, t as int) as usize),
            None => None,
        },
        action,
        requested_kind,
    }
}

/// The lifecycle after a terminal entry for the pending order.
pub open spec fn settle_pending(v: LifecycleView, status: OrderStatus) -> LifecycleView {
    LifecycleView {
        next_order_id: v.next_order_id,
        pending: None,
        log: v.log.push(entry(v.pending->0.order_id, status)),
    }
}

/// The lifecycle after submitting `order`, which takes the next id.
pub open spec fn open_order(v: LifecycleView, order: PendingOrder) -> LifecycleView {
    LifecycleView {
        next_order_id: (v.next_order_id + 1) as u64,
        pending: Some(order),
        log: v.log.push(entry(v.next_order_id, OrderStatus::Submitted)),
    }
}

/// A replay step's decision on the pending order, and the lifecycle after
/// it. An order expires once the step is past its expiry, or at its expiry
/// step when it cannot be priced; it executes when it can be priced within
/// its window.
pub open spec fn advance_spec(v: LifecycleView, index: usize, priced: bool) -> (
    PendingDecision,
    LifecycleView,
) {
    match v.pending {
        None => (PendingDecision::Idle, v),
        Some(p) => if index < p.execute_at_index {
            (PendingDecision::Wait(p), v)
        } else if p.expires_at_index matches Some(e) && index > e {
            (PendingDecision::Expire(p), settle_pending(v, OrderStatus::Expired))
        } else if priced {
            (PendingDecision::Execute(p), v)
        } else if p.expires_at_index matches Some(e) && index >= e {
            (PendingDecision::Expire(p), settle_pending(v, OrderStatus::Expired))
        } else {
            (PendingDecision::Wait(p), v)
        },
    }
}

/// The side an order trades on: the signal's side, or for an exit the side
/// that closes the open position.
pub open spec fn order_side_spec(action: SignalAction, position_side: Option<Side>) -> Option<Side> {
    match action {
        SignalAction::GoLong => Some(Side::Long),
        SignalAction::GoShort => Some(Side::Short),
        SignalAction::ExitToFlat => match position_side {
            Some(Side::Long) => Some(Side::Short),
            Some(Side::Short) => Some(Side::Long),
            None => None,
        },
        SignalAction::Hold => None,
    }
}

proof fn lemma_counts_push(log: Seq<LifecycleEntry>, e: LifecycleEntry, id: u64)
    ensures
        terminal_count(log.push(e), id) == terminal_count(log, id) + (if e.order_id == id
            && is_terminal(e.status) {
            1nat
        } else {
            0nat
        }),
        submitted_count(log.push(e), id) == submitted_count(log, id) + (if e.order_id == id
            && !is_terminal(e.status) {
            1nat
        } else {
            0nat
        }),
{
    assert(log.push(e).drop_last() =~= log);
}

proof fn lemma_counts_absent(log: Seq<LifecycleEntry>, id: u64)
    requires
        forall|i: int| 0 <= i < log.len() ==> (#[trigger] log[i]).order_id != id,
    ensures
        terminal_count(log, id) == 0,
        submitted_count(log, id) == 0,
    decreases log.len(),
{
    if log.len() > 0 {
        let prefix = log.drop_last();
        assert forall|i: int| 0 <= i < prefix.len() implies (#[trigger] prefix[i]).order_id != id by {
            assert(prefix[i] == log[i]);
        }
        lemma_counts_absent(prefix, id);
        assert(log[log.len() - 1].order_id != id);
    }
}

proof fn lemma_submitted_somewhere(log: Seq<LifecycleEntry>, id: u64)
    requires
        submitted_count(log, id) > 0,
    ensures
        exists|j: int| 0 <= j < log.len() && (#[trigger] log[j]).order_id == id,
    decreases log.len(),
{
    let last = log.len() - 1;
    if log[last].order_id == id {
        assert(log[last].order_id == id);
    } else {
        let prefix = log.drop_last();
        lemma_submitted_somewhere(prefix, id);
        let j = choose|j: int| 0 <= j < prefix.len() && (#[trigger] prefix[j]).order_id == id;
        assert(log[j] == prefix[j]);
    }
}

/// Appending one entry keeps the shape of the trail, given that the entry
/// itself is legal where it stands.
proof fn lemma_push_shape(v: LifecycleView, e: LifecycleEntry, next: u64)
    requires
        forall|i: int| 0 <= i < v.log.len() ==> (#[trigger] v.log[i]).order_id < v.next_order_id,
        forall|i: int|
            0 <= i < v.log.len() && (#[trigger] v.log[i]).order_id == 0 ==> v.log[i].status
                == OrderStatus::Filled,
        forall|i: int|
            0 <= i < v.log.len() && (#[trigger] v.log[i]).order_id != 0 && is_terminal(
                v.log[i].status,
            ) ==> seen_before(v.log, i),
        v.next_order_id <= next,
        e.order_id < next,
        e.order_id == 0 ==> e.status == OrderStatus::Filled,
        e.order_id != 0 && is_terminal(e.status) ==> exists|j: int|
            0 <= j < v.log.len() && (#[trigger] v.log[j]).order_id == e.order_id,
    ensures
        ({
            let log = v.log.push(e);
            &&& forall|i: int| 0 <= i < log.len() ==> (#[trigger] log[i]).order_id < next
            &&& forall|i: int|
                0 <= i < log.len() && (#[trigger] log[i]).order_id == 0 ==> log[i].status
                    == OrderStatus::Filled
            &&& forall|i: int|
                0 <= i < log.len() && (#[trigger] log[i]).order_id != 0 && is_terminal(
                    log[i].status,
                ) ==> seen_before(log, i)
        }),
{
    let log = v.log.push(e);
    let n = v.log.len() as int;
    assert forall|i: int| 0 <= i < log.len() implies (#[trigger] log[i]).order_id < next by {
        if i < n {
            assert(log[i] == v.log[i]);
        }
    }
    assert forall|i: int|
        0 <= i < log.len() && (#[trigger] log[i]).order_id == 0 implies log[i].status
            == OrderStatus::Filled by {
        if i < n {
            assert(log[i] == v.log[i]);
        }
    }
    assert forall|i: int|
        0 <= i < log.len() && (#[trigger] log[i]).order_id != 0 && is_terminal(
            log[i].status,
        ) implies seen_before(log, i) by {
        if i < n {
            assert(log[i] == v.log[i]);
            assert(seen_before(v.log, i));
            let j = choose|j: int| 0 <= j < i && (#[trigger] v.log[j]).order_id == v.log[i].order_id;
            assert(log[j] == v.log[j]);
        } else {
            let j = choose|j: int| 0 <= j < n && (#[trigger] v.log[j]).order_id == e.order_id;
            assert(log[j] == v.log[j]);
        }
    }
}

impl OrderLifecycle {
    /// A lifecycle with no orders; the first order gets id 1.
    pub fn new() -> (lifecycle: Self)
        ensures
            lifecycle@.next_order_id == 1,
            lifecycle@.pending is None,
            lifecycle@.log == Seq::<LifecycleEntry>::empty(),
            lifecycle_wf(lifecycle@),
    {
        OrderLifecycle { next_order_id: 1, pending: None, log: Vec::new() }
    }

    /// The order waiting for execution, if any.
    pub fn pending(&self) -> (pending: Option<PendingOrder>)
        ensures
            pending == self@.pending,
    {
        self.pending
    }

    /// The audit trail so far.
    pub fn log(&self) -> (log: &Vec<LifecycleEntry>)
        ensures
            log@ == self@.log,
    {
        &self.log
    }

    /// The id the next submitted order will get.
    pub fn next_order_id(&self) -> (id: u64)
        ensures
            id == self@.next_order_id,
    {
        self.next_order_id
    }

    /// Record a terminal status for the pending order and clear it.
    fn settle(&mut self, status: OrderStatus) -> (order: PendingOrder)
        requires
            lifecycle_wf(old(self)@),
            old(self)@.pending is Some,
            is_terminal(status),
        ensures
            final(self)@ == settle_pending(old(self)@, status),
            order == old(self)@.pending->0,
            lifecycle_wf(final(self)@),
    {
        let ghost v = self@;
        let order = match self.pending {
            Some(p) => p,
            None => {
                proof {
                    assert(false);
                }
                PendingOrder {
                    order_id: 0,
                    generated_index: 0,
                    execute_at_index: 0,
                    expires_at_index: None,
                    action: SignalAction::Hold,
                    requested_kind: OrderKind::Market,
                }
            },
        };
        let e = LifecycleEntry { order_id: order.order_id, status };
        proof {
            assert(submitted_count(v.log, order.order_id) == 1);
            lemma_submitted_somewhere(v.log, order.order_id);
            lemma_push_shape(v, e, v.next_order_id);
        }
        self.log.push(e);
        self.pending = None;
        proof {
            let w = self@;
            assert(w.log == v.log.push(e));
            assert forall|id: u64| 1 <= id < w.next_order_id implies #[trigger] submitted_count(w.log, id) == 1 by {
                lemma_counts_push(v.log, e, id);
            }
            assert forall|id: u64| 1 <= id < w.next_order_id implies #[trigger] terminal_count(w.log, id)
                == (if pending_is(w.pending, id) { 0nat } else { 1nat }) by {
                lemma_counts_push(v.log, e, id);
            }
        }
        order
    }

    /// Give the next order id to `order` (whose id must be it), record its
    /// submission and make it pending.
    fn open(&mut self, order: PendingOrder)
        requires
            lifecycle_wf(old(self)@),
            old(self)@.pending is None,
            old(self)@.next_order_id < u64::MAX,
            order.order_id == old(self)@.next_order_id,
        ensures
            final(self)@ == open_order(old(self)@, order),
            lifecycle_wf(final(self)@),
    {
        let ghost v = self@;
        let id = self.next_order_id;
        let e = LifecycleEntry { order_id: id, status: OrderStatus::Submitted };
        proof {
            lemma_push_shape(v, e, (id + 1) as u64);
            assert forall|i: int| 0 <= i < v.log.len() implies (#[trigger] v.log[i]).order_id != id by {}
            lemma_counts_absent(v.log, id);
        }
        self.log.push(e);
        self.next_order_id = id + 1;
        self.pending = Some(order);
        proof {
            let w = self@;
            assert(w.log == v.log.push(e));
            assert forall|k: u64| 1 <= k < w.next_order_id implies #[trigger] submitted_count(w.log, k) == 1 by {
                lemma_counts_push(v.log, e, k);
            }
            assert forall|k: u64| 1 <= k < w.next_order_id implies #[trigger] terminal_count(w.log, k)
                == (if pending_is(w.pending, k) { 0nat } else { 1nat }) by {
                lemma_counts_push(v.log, e, k);
            }
        }
    }

    /// Schedule a signal taken at replay step `current_index` of a replay of
    /// `dataset_len` steps. A hold changes nothing. Any other signal cancels
    /// the pending order (superseded) and submits a new one, which may
    /// execute `latency + 1` steps later and, with a timeout, expires
    /// `timeout` steps after that.
    pub fn submit(
        &mut self,
        action: SignalAction,
        current_index: usize,
        dataset_len: usize,
        latency: usize,
        timeout: Option<usize>,
        order_type: OrderTypeAssumption,
        has_limit_price: bool,
    ) -> (outcome: SubmitOutcome)
        requires
            lifecycle_wf(old(self)@),
            old(self)@.next_order_id < u64::MAX,
            latency < usize::MAX,
        ensures
            lifecycle_wf(final(self)@),
            action == SignalAction::Hold ==> final(self)@ == old(self)@ && outcome == (SubmitOutcome {
                superseded: None,
                submitted: None,
            }),
            action != SignalAction::Hold ==> {
                let cleared = match old(self)@.pending {
                    Some(p) => settle_pending(old(self)@, OrderStatus::Cancelled),
                    None => old(self)@,
                };
                let order = scheduled_order(
                    old(self)@.next_order_id,
                    action,
                    current_index,
                    dataset_len,
                    latency,
                    timeout,
                    requested_kind_for(order_type, has_limit_price),
                );
                &&& final(self)@ == open_order(cleared, order)
                &&& outcome == (SubmitOutcome { superseded: old(self)@.pending, submitted: Some(order) })
            },
    {
        if action == SignalAction::Hold {
            return SubmitOutcome { superseded: None, submitted: None };
        }
        let superseded = if self.pending.is_some() {
            Some(self.settle(OrderStatus::Cancelled))
        } else {
            None
        };
        let step = latency + 1;
        let execute_at = current_index.saturating_add(step);
        let last = dataset_len.saturating_sub(1);
        let clamped = if execute_at < last {
            execute_at
        } else {
            last
        };
        let expires_at_index = match timeout {
            Some(t) => Some(execute_at.saturating_add(t)),
            None => None,
        };
        let requested_kind = ExecutionModel::requested_kind(order_type, has_limit_price);
        let order = PendingOrder {
            order_id: self.next_order_id,
            generated_index: current_index,
            execute_at_index: clamped,
            expires_at_index,
            action,
            requested_kind,
        };
        self.open(order);
        SubmitOutcome { superseded, submitted: Some(order) }
    }

    /// Decide what replay step `index` does with the pending order, given
    /// whether the order can be priced at this step. An expired order is
    /// recorded and cleared; an executing order stays pending until
    /// `finish_execution` records its outcome.
    pub fn advance(&mut self, index: usize, priced: bool) -> (decision: PendingDecision)
        requires
            lifecycle_wf(old(self)@),
        ensures
            lifecycle_wf(final(self)@),
            (decision, final(self)@) == advance_spec(old(self)@, index, priced),
            decision matches PendingDecision::Execute(p) ==> {
                &&& p.execute_at_index <= index
                &&& p.expires_at_index matches Some(e) ==> index <= e
            },
    {
        match self.pending {
            None => PendingDecision::Idle,
            Some(p) => {
                if index < p.execute_at_index {
                    return PendingDecision::Wait(p);
                }
                let past_expiry = match p.expires_at_index {
                    Some(e) => index > e,
                    None => false,
                };
                if past_expiry {
                    self.settle(OrderStatus::Expired);
                    return PendingDecision::Expire(p);
                }
                if priced {
                    return PendingDecision::Execute(p);
                }
                let at_expiry = match p.expires_at_index {
                    Some(e) => index >= e,
                    None => false,
                };
                if at_expiry {
                    self.settle(OrderStatus::Expired);
                    PendingDecision::Expire(p)
                } else {
                    PendingDecision::Wait(p)
                }
            },
        }
    }

    /// Record the outcome of the executing order: filled, or rejected when
    /// it produced no position change.
    pub fn finish_execution(&mut self, filled: bool) -> (order: PendingOrder)
        requires
            lifecycle_wf(old(self)@),
            old(self)@.pending is Some,
        ensures
            lifecycle_wf(final(self)@),
            final(self)@ == settle_pending(
                old(self)@,
                if filled {
                    OrderStatus::Filled
                } else {
                    OrderStatus::Rejected
                },
            ),
            order == old(self)@.pending->0,
    {
        let status = if filled {
            OrderStatus::Filled
        } else {
            OrderStatus::Rejected
        };
        self.settle(status)
    }

    /// Cancel the pending order, if any (the replay ended before it filled).
    pub fn cancel_pending(&mut self) -> (cancelled: Option<PendingOrder>)
        requires
            lifecycle_wf(old(self)@),
        ensures
            lifecycle_wf(final(self)@),
            cancelled == old(self)@.pending,
            final(self)@ == (match old(self)@.pending {
                Some(p) => settle_pending(old(self)@, OrderStatus::Cancelled),
                None => old(self)@,
            }),
    {
        if self.pending.is_some() {
            Some(self.settle(OrderStatus::Cancelled))
        } else {
            None
        }
    }

    /// Submit the market order that flattens the position at the end of the
    /// replay, executing at step `index`.
    pub fn submit_flatten(&mut self, index: usize) -> (order: PendingOrder)
        requires
            lifecycle_wf(old(self)@),
            old(self)@.pending is None,
            old(self)@.next_order_id < u64::MAX,
        ensures
            lifecycle_wf(final(self)@),
            order == (PendingOrder {
                order_id: old(self)@.next_order_id,
                generated_index: index,
                execute_at_index: index,
                expires_at_index: None,
                action: SignalAction::ExitToFlat,
                requested_kind: OrderKind::Market,
            }),
            final(self)@ == open_order(old(self)@, order),
    {
        let order = PendingOrder {
            order_id: self.next_order_id,
            generated_index: index,
            execute_at_index: index,
            expires_at_index: None,
            action: SignalAction::ExitToFlat,
            requested_kind: OrderKind::Market,
        };
        self.open(order);
        order
    }

    /// Record a forced liquidation, which is filled under order id 0.
    pub fn record_liquidation(&mut self)
        requires
            lifecycle_wf(old(self)@),
        ensures
            lifecycle_wf(final(self)@),
            final(self)@ == (LifecycleView {
                next_order_id: old(self)@.next_order_id,
                pending: old(self)@.pending,
                log: old(self)@.log.push(entry(0, OrderStatus::Filled)),
            }),
    {
        let ghost v = self@;
        let e = LifecycleEntry { order_id: 0, status: OrderStatus::Filled };
        proof {
            lemma_push_shape(v, e, v.next_order_id);
        }
        self.log.push(e);
        proof {
            let w = self@;
            assert(w.log == v.log.push(e));
            assert forall|id: u64| 1 <= id < w.next_order_id implies #[trigger] submitted_count(w.log, id) == 1 by {
                lemma_counts_push(v.log, e, id);
            }
            assert forall|id: u64| 1 <= id < w.next_order_id implies #[trigger] terminal_count(w.log, id)
                == (if pending_is(w.pending, id) { 0nat } else { 1nat }) by {
                lemma_counts_push(v.log, e, id);
            }
        }
    }
}

/// Once no order is pending, the audit trail of a lifecycle is legal:
/// every order begins with `Submitted` and ends in exactly one terminal
/// status, and liquidations are fills.
pub proof fn law_settled_lifecycle_is_legal(v: LifecycleView)
    requires
        lifecycle_wf(v),
        v.pending is None,
    ensures
        legal_lifecycle(v.log),
{
    assert forall|i: int| 0 <= i < v.log.len() implies #[trigger] entry_legal(v.log, i) by {
        let id = v.log[i].order_id;
        if id != 0 {
            assert(terminal_count(v.log, id) == 1);
        }
    }
}

/// Every order ever submitted was submitted exactly once and has at most
/// one terminal entry; only the pending order has none.
pub proof fn law_orders_submitted_once(v: LifecycleView, id: u64)
    requires
        lifecycle_wf(v),
        1 <= id < v.next_order_id,
    ensures
        submitted_count(v.log, id) == 1,
        terminal_count(v.log, id) <= 1,
        terminal_count(v.log, id) == 0 <==> pending_is(v.pending, id),
{
}

/// The execution rules that carry no prices.
pub struct ExecutionModel;

/// The side a rebalance aims for: the signal's side when that side is
/// allowed; exits, holds and disallowed sides aim for no position.
pub open spec fn target_side_spec(action: SignalAction, allow_long: bool, allow_short: bool) -> Option<Side> {
    match action {
        SignalAction::GoLong => if allow_long {
            Some(Side::Long)
        } else {
            None
        },
        SignalAction::GoShort => if allow_short {
            Some(Side::Short)
        } else {
            None
        },
        _ => None,
    }
}

/// A rebalance aims for a long only on a long signal when longs are allowed,
/// for a short only on a short signal when shorts are allowed, and for no
/// position otherwise: a side the configuration forbids is never entered.
pub proof fn law_target_side_respects_permissions(
    action: SignalAction,
    allow_long: bool,
    allow_short: bool,
)
    ensures
        ({
            let target = target_side_spec(action, allow_long, allow_short);
            &&& target == Some(Side::Long) <==> (action == SignalAction::GoLong && allow_long)
            &&& target == Some(Side::Short) <==> (action == SignalAction::GoShort && allow_short)
            &&& !allow_long ==> target != Some(Side::Long)
            &&& !allow_short ==> target != Some(Side::Short)
        }),
{
}

impl ExecutionModel {
    /// The side an order trades on: a long or short signal trades its own
    /// side, an exit trades against the open position, and without a
    /// position an exit has no side.
    pub fn order_execution_side(action: SignalAction, position_side: Option<Side>) -> (side: Option<Side>)
        ensures
            side == order_side_spec(action, position_side),
            action != SignalAction::ExitToFlat ==> side == target_side_of(action),
    {
        match action {
            SignalAction::GoLong => Some(Side::Long),
            SignalAction::GoShort => Some(Side::Short),
            SignalAction::ExitToFlat => match position_side {
                Some(s) => Some(s.opposite()),
                None => None,
            },
            SignalAction::Hold => None,
        }
    }

    /// The side a rebalance aims for.
    pub fn target_side(action: SignalAction, allow_long: bool, allow_short: bool) -> (side: Option<Side>)
        ensures
            side == target_side_spec(action, allow_long, allow_short),
            side == Some(Side::Long) ==> action == SignalAction::GoLong && allow_long,
            side == Some(Side::Short) ==> action == SignalAction::GoShort && allow_short,
            action == SignalAction::GoLong && allow_long ==> side == Some(Side::Long),
            action == SignalAction::GoShort && allow_short ==> side == Some(Side::Short),
    {
        match action {
            SignalAction::GoLong => if allow_long {
                Some(Side::Long)
            } else {
                None
            },
            SignalAction::GoShort => if allow_short {
                Some(Side::Short)
            } else {
                None
            },
            _ => None,
        }
    }

    /// A rebalance first closes the open position when the signal is an
    /// exit or aims for another side (or for none).
    pub fn closes_position(
        action: SignalAction,
        position_side: Option<Side>,
        target: Option<Side>,
    ) -> (closes: bool)
        ensures
            closes == (position_side is Some && (action == SignalAction::ExitToFlat || position_side
                != target)),
    {
        match position_side {
            None => false,
            Some(s) => action == SignalAction::ExitToFlat || match target {
                Some(t) => s != t,
                None => true,
            },
        }
    }

    /// An order that flips a position: it meets an open position with a long
    /// or short signal.
    pub fn is_flip(position_state: PositionState, action: SignalAction) -> (flip: bool)
        ensures
            flip == (position_state != PositionState::Flat && (action == SignalAction::GoLong
                || action == SignalAction::GoShort)),
    {
        position_state != PositionState::Flat && (action == SignalAction::GoLong || action
            == SignalAction::GoShort)
    }

    /// The reason recorded for a filled order: a flip when the order took
    /// more than one fill (a close, then an open).
    pub fn fill_reason(fill_count: usize) -> (reason: &'static str)
        ensures
            reason@ == (if fill_count > 1 {
                "position_flip"@
            } else {
                "filled"@
            }),
    {
        if fill_count > 1 {
            "position_flip"
        } else {
            "filled"
        }
    }

    /// The reason recorded for the leg that closes a position: a plain close
    /// on an exit signal, otherwise the closing half of a flip.
    pub fn close_leg_reason(action: SignalAction) -> (reason: &'static str)
        ensures
            reason@ == (if action == SignalAction::ExitToFlat {
                "position_close"@
            } else {
                "position_flip_close"@
            }),
    {
        if action == SignalAction::ExitToFlat {
            "position_close"
        } else {
            "position_flip_close"
        }
    }

    /// The reason recorded for the leg that opens a position: the opening
    /// half of a flip, or a plain open.
    pub fn open_leg_reason(flip: bool) -> (reason: &'static str)
        ensures
            reason@ == (if flip {
                "position_flip_open"@
            } else {
                "position_open"@
            }),
    {
        if flip {
            "position_flip_open"
        } else {
            "position_open"
        }
    }

    /// The kind an order is sent as.
    pub fn requested_kind(order_type: OrderTypeAssumption, has_limit_price: bool) -> (kind: OrderKind)
        ensures
            kind == requested_kind_for(order_type, has_limit_price),
    {
        match order_type {
            OrderTypeAssumption::Market => OrderKind::Market,
            OrderTypeAssumption::Limit => if has_limit_price {
                OrderKind::Limit
            } else {
                OrderKind::Market
            },
        }
    }
}

/// Whether an audit trail is legal, checked entry by entry.
pub fn orders_have_legal_lifecycle(log: &[LifecycleEntry]) -> (legal: bool)
    ensures
        legal == legal_lifecycle(log@),
{
    let n = log.len();
    let mut i: usize = 0;
    while i < n
        invariant
            n == log@.len(),
            i <= n,
            forall|k: int| 0 <= k < i ==> #[trigger] entry_legal(log@, k),
        decreases n - i,
    {
        let e = log[i];
        if e.order_id == 0 {
            if e.status != OrderStatus::Filled {
                assert(!entry_legal(log@, i as int));
                return false;
            }
        } else {
            let terminals = count_terminals(log, e.order_id);
            if terminals != 1 {
                assert(!entry_legal(log@, i as int));
                return false;
            }
            if e.status != OrderStatus::Submitted {
                let mut j: usize = 0;
                let mut found = false;
                while j < i && !found
                    invariant
                        j <= i < n,
                        n == log@.len(),
                        e == log@[i as int],
                        found ==> seen_before(log@, i as int),
                        !found ==> forall|k: int| 0 <= k < j ==> (#[trigger] log@[k]).order_id != e.order_id,
                    decreases i - j,
                {
                    if log[j].order_id == e.order_id {
                        found = true;
                    }
                    j = j + 1;
                }
                if !found {
                    assert(!seen_before(log@, i as int));
                    assert(!entry_legal(log@, i as int));
                    return false;
                }
            }
        }
        assert(entry_legal(log@, i as int));
        i = i + 1;
    }
    true
}

/// Number of terminal entries of order `id` in `log`.
fn count_terminals(log: &[LifecycleEntry], id: u64) -> (count: usize)
    ensures
        count == terminal_count(log@, id),
{
    let n = log.len();
    let mut j: usize = 0;
    let mut count: usize = 0;
    while j < n
        invariant
            n == log@.len(),
            j <= n,
            count <= j,
            count == terminal_count(log@.subrange(0, j as int), id),
        decreases n - j,
    {
        assert(log@.subrange(0, j as int + 1).drop_last() =~= log@.subrange(0, j as int));
        if log[j].order_id == id && log[j].status != OrderStatus::Submitted {
            count = count + 1;
        }
        j = j + 1;
    }
    assert(log@.subrange(0, n as int) =~= log@);
    count
}

/// Number of times `id` occurs in `ids`.
pub open spec fn occurrences(ids: Seq<u64>, id: u64) -> nat
    decreases ids.len(),
{
    if ids.len() == 0 {
        0
    } else {
        occurrences(ids.drop_last(), id) + (if ids.last() == id {
            1nat
        } else {
            0nat
        })
    }
}

/// Index of the next execution leg of order `order_id`, given the order ids
/// of the legs recorded so far: one more than the legs it already has.
pub fn next_leg_index(leg_order_ids: &[u64], order_id: u64) -> (index: usize)
    requires
        leg_order_ids@.len() < usize::MAX,
    ensures
        index == occurrences(leg_order_ids@, order_id) + 1,
{
    let n = leg_order_ids.len();
    let mut j: usize = 0;
    let mut count: usize = 0;
    while j < n
        invariant
            n == leg_order_ids@.len(),
            n < usize::MAX,
            j <= n,
            count <= j,
            count == occurrences(leg_order_ids@.subrange(0, j as int), order_id),
        decreases n - j,
    {
        assert(leg_order_ids@.subrange(0, j as int + 1).drop_last() =~= leg_order_ids@.subrange(
            0,
            j as int,
        ));
        if leg_order_ids[j] == order_id {
            count = count + 1;
        }
        j = j + 1;
    }
    assert(leg_order_ids@.subrange(0, n as int) =~= leg_order_ids@);
    count + 1
}

} // verus!
