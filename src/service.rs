//! The submission pipeline: rate limit, risk checks against a snapshot,
//! engine admission, registration, two-sided position updates, and the audit
//! records, metric updates and market-data events that the application emits.
use vstd::prelude::*;
use vstd::string::StringExecFns;

use crate::audit::{self, AuditEvent};
use crate::config::RiskConfig;
use crate::book::{
    admits, cancels, executes, lemma_cancels_keeps_ids, lemma_executes_keeps_ids,
    lemma_modifies_keeps_ids, modify_crosses, modifies, queue_has_id, resting_id, trades_in_priority,
    front_consumed, fills_exactly, opposite, BookView,
};
use crate::ledger::{total, OrderRegistration};
use crate::engine::{
    request_is_valid, snapshot_of, Engine, ModifyRequest, ModifyResponse, OrderRequest,
    OrderResponse,
};
use crate::error::ApiError;
use crate::metrics::{self, MetricUpdate};
use crate::rate_limiter::RateLimiterService;
use crate::risk::{
    apply_trades, buyer_of, order_passes, position_in, position_zero_sum, registered_trader,
    registered_traders, seller_of, RiskService,
};
use crate::types::{CancelResponse, OrderResult, OrderType, Side, Trade};

verus! {

/// A market-data event for subscribers.
#[derive(Debug, Clone)]
pub enum MarketEvent {
    Trade(Trade),
    OrderModified(ModifyResponse),
    OrderCancelled(u64),
}

/// What one request produced besides its answer: audit records, metric
/// updates and market-data events, in the order they happened.
#[derive(Debug)]
pub struct Effects {
    pub audit: Vec<AuditEvent>,
    pub metrics: Vec<MetricUpdate>,
    pub events: Vec<MarketEvent>,
}

/// The (buy order, sell order, quantity) of each trade.
pub open spec fn trade_legs(trades: Seq<Trade>) -> Seq<(u64, u64, i64)> {
    trades.map_values(|t: Trade| (t.buy_order_id, t.sell_order_id, t.quantity))
}

fn side_name(side: Side) -> (r: String)
    ensures
        r@ == (if side == Side::Buy { "Buy"@ } else { "Sell"@ }),
{
    match side {
        Side::Buy => String::from_str("Buy"),
        Side::Sell => String::from_str("Sell"),
    }
}

fn order_type_name(t: OrderType) -> (r: String)
    ensures
        r@ == (if t == OrderType::Limit { "Limit"@ } else { "Market"@ }),
{
    match t {
        OrderType::Limit => String::from_str("Limit"),
        OrderType::Market => String::from_str("Market"),
    }
}

fn legs_of(trades: &Vec<Trade>) -> (r: Vec<(u64, u64, i64)>)
    ensures
        r@ == trade_legs(trades@),
{
    let mut r: Vec<(u64, u64, i64)> = Vec::new();
    let mut i: usize = 0;
    while i < trades.len()
        invariant
            i <= trades@.len(),
            r@ == trade_legs(trades@.subrange(0, i as int)),
        decreases trades@.len() - i,
    {
        let t = trades[i];
        r.push((t.buy_order_id, t.sell_order_id, t.quantity));
        proof {
            assert(trade_legs(trades@.subrange(0, i + 1)) =~= trade_legs(trades@.subrange(0, i as int)).push(
                (t.buy_order_id, t.sell_order_id, t.quantity),
            ));
        }
        i = i + 1;
    }
    assert(trades@.subrange(0, trades@.len() as int) =~= trades@);
    r
}

/// What the pipeline does once the rate limiter let a request through:
/// - a request that fails the risk checks is a risk rejection;
/// - one that passes them is then a validation error when malformed, and else,
///   while the engine has room, accepted exactly when the book admits it under
///   the next order id, with what the book did stated by `executes`;
/// - any refusal leaves book, ledger and registry alone;
/// - an accepted order is registered with its trader and side (and forgotten
///   again when it filled completely), and its trades are booked to both sides.
pub open spec fn admitted_submission(
    before: OrderService,
    after: OrderService,
    req: OrderRequest,
    now: i64,
    r: Result<OrderResponse, ApiError>,
) -> bool {
    let passes = order_passes(
        before.risk.config(),
        position_in(before.risk.positions(), req.trader_id@),
        req.quantity,
        req.side,
        req.order_type,
        req.price,
        snapshot_of(before.engine.book()),
    );
    let id = before.engine.next_id();
    &&& !passes ==> r is Err && r->Err_0 is RiskRejection
    &&& passes && !request_is_valid(req) ==> r is Err && r->Err_0 is Validation
    &&& passes && request_is_valid(req) && before.engine.has_capacity() ==> (r is Ok <==> admits(
        before.engine.book(),
        req.trader_id@,
        id,
        req.price,
        req.quantity,
        req.side,
        req.order_type,
        req.time_in_force,
        req.stp_mode,
    ))
    &&& r is Err ==> after.engine.book() == before.engine.book() && after.risk.positions()
        == before.risk.positions() && after.risk.registry() == before.risk.registry()
    &&& r is Ok ==> {
        let resp = r->Ok_0;
        &&& passes
        &&& request_is_valid(req)
        &&& resp.order_id == id
        &&& exists|res: OrderResult|
            #[trigger] executes(
                before.engine.book(),
                after.engine.book(),
                res,
                req.trader_id@,
                id,
                req.price,
                req.quantity,
                req.side,
                req.order_type,
                req.time_in_force,
                req.stp_mode,
                now,
            ) && res.trades@ == resp.trades@ && res.remaining_quantity == resp.remaining_quantity
        &&& after.risk.positions() == apply_trades(
            before.risk.positions(),
            registered_traders(before.risk.registry()).insert(resp.order_id, req.trader_id@),
            req.trader_id@,
            req.side,
            trade_legs(resp.trades@),
        )
        &&& after.risk.registry().contains_key(resp.order_id) == (resp.remaining_quantity != 0)
        &&& after.risk.registry().remove(resp.order_id) == before.risk.registry().remove(resp.order_id)
        &&& resp.remaining_quantity != 0 ==> after.risk.registry()[resp.order_id].trader_id@
            == req.trader_id@ && after.risk.registry()[resp.order_id].side == req.side
    }
}

/// `e` announces the modify answered by `resp`.
pub open spec fn modify_event(e: MarketEvent, resp: ModifyResponse) -> bool {
    match e {
        MarketEvent::OrderModified(m) => {
            &&& m.order_id == resp.order_id
            &&& m.accepted
            &&& m.old_price == resp.old_price
            &&& m.new_price == resp.new_price
            &&& m.old_quantity == resp.old_quantity
            &&& m.new_quantity == resp.new_quantity
        },
        _ => false,
    }
}

/// Every order resting on the book is registered, under a non-empty trader id.
pub open spec fn resting_registered(book: BookView, reg: Map<u64, OrderRegistration>) -> bool {
    forall|x: u64| #[trigger] book.has_id(x) ==> reg.contains_key(x) && reg[x].trader_id@.len() > 0
}

/// The stage named in the audit record of a refusal.
pub open spec fn rejection_stage(e: ApiError) -> Seq<char> {
    match e {
        ApiError::RateLimited(_) => "rate_limit"@,
        ApiError::RiskRejection(_) => "risk"@,
        _ => "engine"@,
    }
}

/// A refusal ends the audit trail with a rejection naming its stage.
pub open spec fn ends_with_rejection(fx: Effects, stage: Seq<char>) -> bool {
    fx.audit@.len() > 0 && match fx.audit@.last() {
        AuditEvent::OrderRejected { source, .. } => source@ == stage,
        _ => false,
    }
}

/// The market events of a submission: one trade event per trade, in order,
/// when it was accepted; none when it was refused, which the audit trail
/// records with the stage that refused.
pub open spec fn submission_effects(r: Result<OrderResponse, ApiError>, fx: Effects) -> bool {
    &&& r is Ok ==> fx.events@.len() == r->Ok_0.trades@.len() && forall|i: int|
        0 <= i < fx.events@.len() ==> #[trigger] fx.events@[i] == MarketEvent::Trade(r->Ok_0.trades@[i])
    &&& r is Err ==> fx.events@.len() == 0 && ends_with_rejection(fx, rejection_stage(r->Err_0))
}

/// The engine, the risk service and the rate limiter, composed.
pub struct OrderService {
    pub engine: Engine,
    pub risk: RiskService,
    pub rate_limiter: RateLimiterService,
}

impl OrderService {
    pub open spec fn wf(&self) -> bool {
        &&& self.engine.wf()
        &&& self.risk.wf()
        &&& self.rate_limiter.wf()
        &&& resting_registered(self.engine.book(), self.risk.registry())
    }

    pub fn new(config: RiskConfig) -> (r: Self)
        ensures
            r.wf(),
            r.risk.config() == config,
            r.risk.positions().dom().len() == 0,
            r.risk.registry().dom().len() == 0,
            r.engine.book().bids.len() == 0,
            r.engine.book().asks.len() == 0,
    {
        OrderService {
            engine: Engine::new(),
            risk: RiskService::new(config),
            rate_limiter: RateLimiterService::new(config.max_orders_per_second),
        }
    }

    /// Submits an order through the whole pipeline. The rate limiter's answer
    /// depends on the time; what follows it is `submit_admitted`.
    pub fn submit_order(&mut self, req: OrderRequest, now_ns: i64) -> (r: (
        Result<OrderResponse, ApiError>,
        Effects,
    ))
        requires
            old(self).wf(),
        ensures
            final(self).wf(),
            r.0 matches Err(ApiError::RateLimited(_)) ==> final(self).engine.book() == old(
                self,
            ).engine.book() && final(self).risk.positions() == old(self).risk.positions()
                && final(self).risk.registry() == old(self).risk.registry(),
            !(r.0 matches Err(ApiError::RateLimited(_))) ==> admitted_submission(
                *old(self),
                *final(self),
                req,
                now_ns,
                r.0,
            ),
            submission_effects(r.0, r.1),
    {
        let rate = self.rate_limiter.check_rate_limit(req.trader_id.as_str());
        match rate {
            Err(e) => {
                let mut fx = Effects { audit: Vec::new(), metrics: Vec::new(), events: Vec::new() };
                fx.metrics.push(
                    metrics::record_order_submitted(
                        side_name(req.side).as_str(),
                        order_type_name(req.order_type).as_str(),
                    ),
                );
                fx.audit.push(audit::order_rejected(0, e.message().as_str(), "rate_limit"));
                fx.metrics.push(metrics::record_order_rejected("rate_limit"));
                (Err(e), fx)
            },
            Ok(()) => self.submit_admitted(req, now_ns),
        }
    }

    /// The pipeline after the rate limiter let the request through: risk
    /// checks on a snapshot, the engine, then registration and positions.
    /// Nothing changes when the risk checks or the engine refuse.
    pub fn submit_admitted(&mut self, req: OrderRequest, now_ns: i64) -> (r: (
        Result<OrderResponse, ApiError>,
        Effects,
    ))
        requires
            old(self).wf(),
        ensures
            final(self).wf(),
            admitted_submission(*old(self), *final(self), req, now_ns, r.0),
            submission_effects(r.0, r.1),
            !(r.0 matches Err(ApiError::RateLimited(_))),
    {
        let ghost req0 = req;
        let mut fx = Effects { audit: Vec::new(), metrics: Vec::new(), events: Vec::new() };
        let side_str = side_name(req.side);
        let type_str = order_type_name(req.order_type);
        fx.metrics.push(metrics::record_order_submitted(side_str.as_str(), type_str.as_str()));
        let snapshot = self.engine.get_snapshot();
        let risk = self.risk.check_order(
            req.trader_id.as_str(),
            req.quantity,
            req.side,
            req.order_type,
            req.price,
            &snapshot,
        );
        match risk {
            Err(e) => {
                fx.audit.push(audit::order_rejected(0, e.message().as_str(), "risk"));
                fx.metrics.push(metrics::record_order_rejected("risk"));
                return (Err(e), fx);
            },
            Ok(()) => {},
        }
        let trader_id = req.trader_id.clone();
        let side = req.side;
        fx.audit.push(audit::order_submitted(0, &req));
        let response = match self.engine.add_order(req, now_ns) {
            Ok(resp) => resp,
            Err(e) => {
                fx.audit.push(audit::order_rejected(0, e.message().as_str(), "engine"));
                fx.metrics.push(metrics::record_order_rejected("engine"));
                return (Err(e), fx);
            },
        };
        fx.audit.push(
            audit::order_accepted(
                response.order_id,
                response.trades.len(),
                response.remaining_quantity,
            ),
        );
        let mut i: usize = 0;
        while i < response.trades.len()
            invariant
                i <= response.trades@.len(),
                fx.events@.len() == i,
                forall|j: int| 0 <= j < i ==> #[trigger] fx.events@[j] == MarketEvent::Trade(response.trades@[j]),
            decreases response.trades@.len() - i,
        {
            fx.audit.push(audit::trade_executed(&response.trades[i]));
            fx.events.push(MarketEvent::Trade(response.trades[i]));
            i = i + 1;
        }
        fx.metrics.push(metrics::record_order_accepted(side_str.as_str(), type_str.as_str()));
        fx.metrics.push(metrics::record_trades(response.trades.len() as u64));
        let ghost reg0 = self.risk.registry();
        self.risk.register_order(response.order_id, trader_id.as_str(), side);
        proof {
            let r1 = self.risk.registry();
            let id = response.order_id;
            assert forall|k: u64| k != id implies #[trigger] r1.contains_key(k) == reg0.contains_key(k)
                && (r1.contains_key(k) ==> r1[k] == reg0[k]) by {
                assert(r1.remove(id).contains_key(k) == r1.contains_key(k));
                assert(reg0.remove(id).contains_key(k) == reg0.contains_key(k));
                if r1.contains_key(k) {
                    assert(r1.remove(id)[k] == r1[k]);
                    assert(reg0.remove(id)[k] == reg0[k]);
                }
            }
            assert(registered_traders(self.risk.registry()) =~= registered_traders(reg0).insert(
                response.order_id,
                trader_id@,
            ));
        }
        let legs = legs_of(&response.trades);
        self.risk.update_positions_from_trades(trader_id.as_str(), side, legs.as_slice());
        let ghost reg1 = self.risk.registry();
        if response.remaining_quantity == 0 {
            self.risk.unregister_order(response.order_id);
            assert(self.risk.registry().remove(response.order_id) =~= reg1.remove(response.order_id));
        }
        proof {
            let b0 = old(self).engine.book();
            let b1 = self.engine.book();
            let id = response.order_id;
            let rq = req0;
            let reg = self.risk.registry();
            let res = choose|res: OrderResult|
                #[trigger] executes(b0, b1, res, rq.trader_id@, id, rq.price, rq.quantity, rq.side,
                    rq.order_type, rq.time_in_force, rq.stp_mode, now_ns) && res.trades@ == response.trades@
                    && res.remaining_quantity == response.remaining_quantity;
            assert forall|x: u64| #[trigger] b1.has_id(x) implies reg.contains_key(x)
                && reg[x].trader_id@.len() > 0 by {
                lemma_executes_keeps_ids(b0, b1, res, rq.trader_id@, id, rq.price, rq.quantity, rq.side,
                    rq.order_type, rq.time_in_force, rq.stp_mode, now_ns, x);
                if x != id {
                    assert(old(self).risk.registry().contains_key(x));
                    assert(old(self).risk.registry().remove(id).contains_key(x));
                    assert(reg.remove(id).contains_key(x));
                    assert(reg.remove(id)[x] == reg[x]);
                    assert(old(self).risk.registry().remove(id)[x] == old(self).risk.registry()[x]);
                }
            }
        }
        (Ok(response), fx)
    }

    /// Modifies a resting order through the engine. A modify of an order that
    /// is not on the book also forgets its registration.
    pub fn modify_order(&mut self, order_id: u64, req: ModifyRequest) -> (r: (
        Result<ModifyResponse, ApiError>,
        Effects,
    ))
        requires
            old(self).wf(),
        ensures
            final(self).wf(),
            r.0 is Ok <==> (req.new_quantity > 0 && req.new_price > 0 && old(self).engine.book().has_id(
                order_id,
            ) && old(self).engine.has_capacity() && !modify_crosses(
                old(self).engine.book(),
                order_id,
                req.new_price,
            )),
            r.0 is Ok ==> modifies(
                old(self).engine.book(),
                final(self).engine.book(),
                order_id,
                req.new_price,
                req.new_quantity,
                r.0->Ok_0.old_price,
                r.0->Ok_0.old_quantity,
            ) && r.0->Ok_0.new_price == req.new_price && r.0->Ok_0.new_quantity == req.new_quantity,
            r.0 is Err ==> final(self).engine.book() == old(self).engine.book(),
            r.0 is Ok ==> r.1.events@.len() == 1 && modify_event(r.1.events@[0], r.0->Ok_0),
            r.0 is Err ==> r.1.events@.len() == 0,
            r.0 matches Err(ApiError::NotFound(_)) ==> final(self).risk.registry() == old(
                self,
            ).risk.registry().remove(order_id),
            !(r.0 matches Err(ApiError::NotFound(_))) ==> final(self).risk.registry() == old(
                self,
            ).risk.registry(),
            final(self).risk.positions() == old(self).risk.positions(),
    {
        let mut fx = Effects { audit: Vec::new(), metrics: Vec::new(), events: Vec::new() };
        match self.engine.modify_order(order_id, req) {
            Ok(resp) => {
                proof {
                    let b0 = old(self).engine.book();
                    let b1 = self.engine.book();
                    assert forall|x: u64| #[trigger] b1.has_id(x) implies self.risk.registry().contains_key(x)
                        && self.risk.registry()[x].trader_id@.len() > 0 by {
                        lemma_modifies_keeps_ids(b0, b1, order_id, req.new_price, req.new_quantity,
                            resp.old_price, resp.old_quantity, x);
                    }
                }
                fx.audit.push(audit::order_modified(&resp));
                fx.events.push(
                    MarketEvent::OrderModified(
                        ModifyResponse {
                            order_id: resp.order_id,
                            accepted: true,
                            reject_reason: None,
                            old_price: resp.old_price,
                            new_price: resp.new_price,
                            old_quantity: resp.old_quantity,
                            new_quantity: resp.new_quantity,
                        },
                    ),
                );
                (Ok(resp), fx)
            },
            Err(e) => {
                if let ApiError::NotFound(_) = e {
                    let ghost reg0 = self.risk.registry();
                    self.risk.unregister_order(order_id);
                    proof {
                        let b1 = self.engine.book();
                        assert forall|x: u64| #[trigger] b1.has_id(x) implies self.risk.registry().contains_key(x)
                            && self.risk.registry()[x].trader_id@.len() > 0 by {
                            assert(x != order_id);
                            assert(reg0.contains_key(x));
                        }
                    }
                }
                (Err(e), fx)
            },
        }
    }

    /// Cancels a resting order through the engine and forgets its
    /// registration, whether or not the order was on the book.
    pub fn cancel_order(&mut self, order_id: u64) -> (r: (Result<CancelResponse, ApiError>, Effects))
        requires
            old(self).wf(),
        ensures
            final(self).wf(),
            r.0 is Ok <==> old(self).engine.book().has_id(order_id),
            r.0 is Err ==> r.0->Err_0 == ApiError::NotFound(order_id) && final(self).engine.book()
                == old(self).engine.book(),
            r.0 is Ok ==> r.0->Ok_0 == (CancelResponse { order_id, cancelled: true }) && cancels(
                old(self).engine.book(),
                final(self).engine.book(),
                order_id,
            ),
            final(self).risk.registry() == old(self).risk.registry().remove(order_id),
            !final(self).engine.book().has_id(order_id),
            final(self).risk.positions() == old(self).risk.positions(),
            r.0 is Ok ==> r.1.events@ == seq![MarketEvent::OrderCancelled(order_id)],
            r.0 is Err ==> r.1.events@.len() == 0,
    {
        let mut fx = Effects { audit: Vec::new(), metrics: Vec::new(), events: Vec::new() };
        let result = self.engine.cancel_order(order_id);
        let ghost reg0 = self.risk.registry();
        self.risk.unregister_order(order_id);
        proof {
            let b0 = old(self).engine.book();
            let b1 = self.engine.book();
            assert forall|x: u64| #[trigger] b1.has_id(x) implies self.risk.registry().contains_key(x)
                && self.risk.registry()[x].trader_id@.len() > 0 by {
                if result is Ok {
                    lemma_cancels_keeps_ids(b0, b1, order_id, x);
                }
                assert(x != order_id);
                assert(reg0.contains_key(x));
            }
        }
        match result {
            Ok(resp) => {
                fx.audit.push(audit::order_cancelled(order_id));
                fx.events.push(MarketEvent::OrderCancelled(order_id));
                (Ok(resp), fx)
            },
            Err(e) => (Err(e), fx),
        }
    }
}

/// Position zero-sum through the pipeline: in a service whose resting orders
/// are all registered (part of its invariant), an accepted submission moves as
/// much into its buyers' positions as out of its sellers', so the sum of all
/// positions does not change. A service starts with an empty ledger, so the
/// sum stays zero.
pub proof fn submission_keeps_positions_balanced(
    before: OrderService,
    after: OrderService,
    req: OrderRequest,
    now: i64,
    r: Result<OrderResponse, ApiError>,
)
    requires
        before.wf(),
        admitted_submission(before, after, req, now, r),
        r is Ok,
    ensures
        after.risk.positions().dom().finite(),
        total(after.risk.positions()) == total(before.risk.positions()),
{
    let resp = r->Ok_0;
    let id = before.engine.next_id();
    let b0 = before.engine.book();
    let b1 = after.engine.book();
    let side = req.side;
    let trader = req.trader_id@;
    let res = choose|res: OrderResult|
        #[trigger] executes(b0, b1, res, trader, id, req.price, req.quantity, side, req.order_type,
            req.time_in_force, req.stp_mode, now) && res.trades@ == resp.trades@
            && res.remaining_quantity == resp.remaining_quantity;
    let opp0 = b0.queue(opposite(side));
    let opp1 = b1.queue(opposite(side));
    let (k, src) = choose|k: int, src: Seq<int>|
        front_consumed(opp0, opp1, k) && #[trigger] trades_in_priority(side, opp0, res.trades@, src, k)
            && fills_exactly(trader, req.stp_mode, id, opp0, opp1, res.trades@, src, k,
            res.stp_result.self_trade, res.stp_result.cancelled_orders@, res.remaining_quantity);
    let reg = registered_traders(before.risk.registry()).insert(id, trader);
    let legs = trade_legs(resp.trades@);
    assert forall|i: int| 0 <= i < legs.len() implies buyer_of(reg, trader, side, #[trigger] legs[i]).len()
        > 0 && seller_of(reg, trader, side, legs[i]).len() > 0 by {
        let t = resp.trades@[i];
        assert(legs[i] == (t.buy_order_id, t.sell_order_id, t.quantity));
        assert(res.trades@[i] == t);
        let j = src[i];
        let rid = opp0[j].id;
        assert(rid == resting_id(side, t));
        assert(queue_has_id(opp0, rid));
        match side {
            Side::Buy => { assert(b0.asks == opp0); },
            Side::Sell => { assert(b0.bids == opp0); },
        }
        assert(b0.has_id(rid));
        assert(before.risk.registry().contains_key(rid));
        if rid != id {
            assert(reg[rid] == before.risk.registry()[rid].trader_id@);
        }
        assert(registered_trader(reg, rid).len() > 0);
    }
    position_zero_sum(before.risk.positions(), reg, trader, side, legs);
}

} // verus!
