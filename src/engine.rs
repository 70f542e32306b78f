//! The engine façade: validation, order id allocation, counters, and the
//! conversion between the book and the requests and answers of the API. Prices
//! are integer cents throughout.
use vstd::prelude::*;
use vstd::string::StringExecFns;
use vstd::utf8::encode_utf8;

use crate::book::{
    add_reject_text, admits, cancels, executes, modify_crosses, modifies, BookView, OwnedOrderBook,
};
use crate::error::ApiError;
use crate::types::{
    CancelResponse, MarketSnapshot, OrderResult, OrderType, Side, StpMode, TimeInForce, Trade,
};

verus! {

/// A submission, with its price in cents.
#[derive(Debug, Clone)]
pub struct OrderRequest {
    pub trader_id: String,
    pub price: Option<i64>,
    pub quantity: i64,
    pub side: Side,
    pub order_type: OrderType,
    pub time_in_force: TimeInForce,
    pub stp_mode: StpMode,
}

/// The answer to an accepted submission.
#[derive(Debug, Clone)]
pub struct OrderResponse {
    pub order_id: u64,
    pub accepted: bool,
    pub reject_reason: Option<String>,
    pub trades: Vec<Trade>,
    pub remaining_quantity: i64,
}

/// A change of price and quantity, the price in cents.
#[derive(Debug, Clone, Copy)]
pub struct ModifyRequest {
    pub new_price: i64,
    pub new_quantity: i64,
}

/// The answer to an accepted modify, prices in cents.
#[derive(Debug, Clone)]
pub struct ModifyResponse {
    pub order_id: u64,
    pub accepted: bool,
    pub reject_reason: Option<String>,
    pub old_price: i64,
    pub new_price: i64,
    pub old_quantity: i64,
    pub new_quantity: i64,
}

/// The answer of the health endpoint.
#[derive(Debug, Clone)]
pub struct HealthResponse {
    pub status: String,
    pub uptime_seconds: u64,
    pub total_orders: u64,
    pub total_trades: u64,
}

/// The checks made before the book is touched: a trader id of 1 to 64 bytes,
/// a positive quantity, a positive price on a limit order and none on a market order.
pub open spec fn request_is_valid(req: OrderRequest) -> bool {
    &&& req.trader_id@.len() > 0
    &&& byte_len(req.trader_id@) <= 64
    &&& req.quantity > 0
    &&& req.order_type == OrderType::Limit ==> (req.price is Some && req.price->0 > 0)
    &&& req.order_type == OrderType::Market ==> req.price is None
}

/// `a + b`, held at `u64::MAX`.
pub open spec fn saturating_add(a: u64, b: int) -> u64 {
    if a + b > u64::MAX {
        u64::MAX
    } else {
        (a + b) as u64
    }
}

/// The length in bytes of the UTF-8 text of `s`, as `str::len` reports it.
pub open spec fn byte_len(s: Seq<char>) -> usize {
    encode_utf8(s).len() as usize
}

/// The market data of a book: a side's best price where it holds orders,
/// spread and mid where both do, the last trade where there was one.
pub open spec fn snapshot_of(b: BookView) -> MarketSnapshot {
    let both = b.bids.len() > 0 && b.asks.len() > 0;
    MarketSnapshot {
        best_bid: if b.bids.len() > 0 {
            Some(b.bids[0].price)
        } else {
            None
        },
        best_ask: if b.asks.len() > 0 {
            Some(b.asks[0].price)
        } else {
            None
        },
        spread: if both {
            Some((b.asks[0].price - b.bids[0].price) as i64)
        } else {
            None
        },
        mid_price: if both {
            Some(((b.bids[0].price + b.asks[0].price) / 2) as i64)
        } else {
            None
        },
        last_trade_price: if b.last_trade_price == 0 {
            None
        } else {
            Some(b.last_trade_price)
        },
        last_trade_qty: if b.last_trade_qty == 0 {
            None
        } else {
            Some(b.last_trade_qty)
        },
    }
}

fn invalid(text: &str) -> (r: Result<(), ApiError>)
    ensures
        r matches Err(ApiError::Validation(m)) && m@ == text@,
{
    Err(ApiError::Validation(String::from_str(text)))
}

/// Checks a submission before the book sees it.
pub fn validate_order_request(req: &OrderRequest) -> (r: Result<(), ApiError>)
    ensures
        r is Ok <==> request_is_valid(*req),
        r is Err ==> r->Err_0 is Validation,
{
    let trader = req.trader_id.as_str();
    if trader.is_empty() {
        return invalid("traderId is required");
    }
    let bytes = trader.len();
    if bytes > 64 {
        return invalid("traderId must be 64 characters or less");
    }
    if req.quantity <= 0 {
        return invalid("Quantity must be positive");
    }
    match req.order_type {
        OrderType::Limit => match req.price {
            None => {
                return invalid("Limit orders require a price");
            },
            Some(p) => {
                if p <= 0 {
                    return invalid("Price must be positive for limit orders");
                }
            },
        },
        OrderType::Market => {
            if req.price.is_some() {
                return invalid("Market orders must not carry a price");
            }
        },
    }
    Ok(())
}

/// The book under a single writer, with the id counter and the totals.
pub struct Engine {
    book: OwnedOrderBook,
    next_order_id: u64,
    total_orders: u64,
    total_trades: u64,
}

impl Engine {
    pub closed spec fn book(&self) -> BookView {
        self.book@
    }

    /// The id the next submission gets.
    pub closed spec fn next_id(&self) -> u64 {
        self.next_order_id
    }

    pub closed spec fn orders_count(&self) -> u64 {
        self.total_orders
    }

    pub closed spec fn trades_count(&self) -> u64 {
        self.total_trades
    }

    pub open spec fn wf(&self) -> bool {
        self.book().wf()
    }

    pub open spec fn has_capacity(&self) -> bool {
        self.next_id() < u64::MAX && self.book().has_capacity()
    }

    pub fn new() -> (r: Self)
        ensures
            r.wf(),
            r.book().bids.len() == 0,
            r.book().asks.len() == 0,
            r.book().next_trade_id == 1,
            r.book().next_seq == 0,
            r.has_capacity(),
            r.book().last_trade_price == 0,
            r.book().last_trade_qty == 0,
            r.next_id() == 1,
            r.orders_count() == 0,
            r.trades_count() == 0,
    {
        Engine { book: OwnedOrderBook::new(), next_order_id: 1, total_orders: 0, total_trades: 0 }
    }

    /// Takes the next order id.
    pub fn next_order_id(&mut self) -> (r: u64)
        requires
            old(self).next_id() < u64::MAX,
        ensures
            r == old(self).next_id(),
            final(self).next_id() == r + 1,
            final(self).book() == old(self).book(),
            final(self).wf() == old(self).wf(),
            final(self).orders_count() == old(self).orders_count(),
            final(self).trades_count() == old(self).trades_count(),
    {
        let id = self.next_order_id;
        self.next_order_id = id + 1;
        id
    }

    /// Submissions that reached the book (saturating).
    pub fn total_orders(&self) -> (r: u64)
        ensures
            r == self.orders_count(),
    {
        self.total_orders
    }

    /// Trades executed (saturating).
    pub fn total_trades(&self) -> (r: u64)
        ensures
            r == self.trades_count(),
    {
        self.total_trades
    }

    /// Whether the id counter and the book have room for one more submission.
    pub fn can_accept(&self) -> (r: bool)
        ensures
            r == self.has_capacity(),
    {
        self.next_order_id < u64::MAX && self.book.has_capacity()
    }

    /// Validates a submission, gives it a fresh id and submits it to the book.
    pub fn add_order(&mut self, req: OrderRequest, now_ns: i64) -> (r: Result<OrderResponse, ApiError>)
        requires
            old(self).wf(),
        ensures
            final(self).wf(),
            !request_is_valid(req) ==> r is Err && r->Err_0 is Validation && final(self).book()
                == old(self).book() && final(self).next_id() == old(self).next_id(),
            request_is_valid(req) && !old(self).has_capacity() ==> r is Err && r->Err_0 is Internal
                && final(self).book() == old(self).book(),
            final(self).book().next_seq <= old(self).book().next_seq + 1,
            final(self).book().load() <= old(self).book().load() + 2,
            final(self).next_id() <= old(self).next_id() + 1,
            !(request_is_valid(req) && old(self).has_capacity()) ==> final(self).orders_count()
                == old(self).orders_count() && final(self).trades_count() == old(self).trades_count(),
            request_is_valid(req) && old(self).has_capacity() ==> {
                &&& final(self).next_id() == old(self).next_id() + 1
                &&& final(self).orders_count() == saturating_add(old(self).orders_count(), 1)
                &&& r is Err ==> final(self).trades_count() == old(self).trades_count()
                &&& r is Ok ==> final(self).trades_count() == saturating_add(
                    old(self).trades_count(),
                    r->Ok_0.trades@.len() as int,
                )
                &&& r is Ok <==> admits(
                    old(self).book(),
                    req.trader_id@,
                    old(self).next_id(),
                    req.price,
                    req.quantity,
                    req.side,
                    req.order_type,
                    req.time_in_force,
                    req.stp_mode,
                )
                &&& r is Err ==> final(self).book() == old(self).book() && (r matches Err(
                    ApiError::EngineRejection(m),
                ) && m@ == add_reject_text(
                    old(self).book(),
                    old(self).next_id(),
                    req.price,
                    req.quantity,
                    req.order_type,
                ))
                &&& r is Ok ==> {
                    let resp = r->Ok_0;
                    &&& resp.order_id == old(self).next_id()
                    &&& resp.accepted
                    &&& resp.reject_reason is None
                    &&& exists|res: OrderResult|
                        #[trigger] executes(
                            old(self).book(),
                            final(self).book(),
                            res,
                            req.trader_id@,
                            old(self).next_id(),
                            req.price,
                            req.quantity,
                            req.side,
                            req.order_type,
                            req.time_in_force,
                            req.stp_mode,
                            now_ns,
                        ) && res.trades@ == resp.trades@ && res.remaining_quantity
                            == resp.remaining_quantity
                }
            },
    {
        let v = validate_order_request(&req);
        match v {
            Err(e) => {
                return Err(e);
            },
            Ok(()) => {},
        }
        if !self.can_accept() {
            return Err(ApiError::Internal(String::from_str("order id or trade id space exhausted")));
        }
        let order_id = self.next_order_id();
        let result = self.book.add_order(
            req.trader_id.as_str(),
            order_id,
            req.price,
            req.quantity,
            req.side,
            req.order_type,
            req.time_in_force,
            req.stp_mode,
            now_ns,
        );
        if self.total_orders < u64::MAX {
            self.total_orders = self.total_orders + 1;
        }
        let n = result.trades.len() as u64;
        if self.total_trades <= u64::MAX - n {
            self.total_trades = self.total_trades + n;
        } else {
            self.total_trades = u64::MAX;
        }
        if !result.accepted {
            let reason = match result.reject_reason {
                Some(s) => s,
                None => String::from_str("Unknown rejection"),
            };
            return Err(ApiError::EngineRejection(reason));
        }
        proof {
            assert(executes(
                old(self).book(),
                self.book(),
                result,
                req.trader_id@,
                order_id,
                req.price,
                req.quantity,
                req.side,
                req.order_type,
                req.time_in_force,
                req.stp_mode,
                now_ns,
            ));
        }
        Ok(
            OrderResponse {
                order_id,
                accepted: true,
                reject_reason: None,
                trades: result.trades,
                remaining_quantity: result.remaining_quantity,
            },
        )
    }

    /// Cancels a resting order; `NotFound` when no order with that id rests.
    pub fn cancel_order(&mut self, order_id: u64) -> (r: Result<CancelResponse, ApiError>)
        requires
            old(self).wf(),
        ensures
            final(self).wf(),
            r is Ok <==> old(self).book().has_id(order_id),
            r is Ok ==> r->Ok_0 == (CancelResponse { order_id, cancelled: true }) && cancels(
                old(self).book(),
                final(self).book(),
                order_id,
            ),
            r is Err ==> r->Err_0 == ApiError::NotFound(order_id) && final(self).book() == old(
                self,
            ).book(),
            !final(self).book().has_id(order_id),
            final(self).next_id() == old(self).next_id(),
            final(self).book().next_seq == old(self).book().next_seq,
            final(self).book().load() <= old(self).book().load(),
    {
        if !self.book.cancel_order(order_id) {
            return Err(ApiError::NotFound(order_id));
        }
        Ok(CancelResponse { order_id, cancelled: true })
    }

    /// Modifies a resting order's price and quantity.
    pub fn modify_order(&mut self, order_id: u64, req: ModifyRequest) -> (r: Result<ModifyResponse, ApiError>)
        requires
            old(self).wf(),
        ensures
            final(self).wf(),
            r is Ok <==> (req.new_quantity > 0 && req.new_price > 0 && old(self).book().has_id(order_id)
                && old(self).has_capacity() && !modify_crosses(old(self).book(), order_id, req.new_price)),
            r is Err ==> final(self).book() == old(self).book(),
            req.new_quantity <= 0 || req.new_price < 0 ==> r is Err && r->Err_0 is Validation,
            r matches Err(ApiError::NotFound(_)) ==> !old(self).book().has_id(order_id),
            req.new_quantity > 0 && req.new_price >= 0 && !old(self).book().has_id(order_id) ==> r
                == Err::<ModifyResponse, ApiError>(ApiError::NotFound(order_id)),
            req.new_quantity > 0 && req.new_price >= 0 && old(self).book().has_id(order_id)
                && old(self).has_capacity() && modify_crosses(old(self).book(), order_id, req.new_price)
                ==> (r matches Err(ApiError::EngineRejection(m)) && m@ == "modify would cross the spread"@),
            r is Ok ==> {
                let resp = r->Ok_0;
                &&& resp.order_id == order_id
                &&& resp.accepted
                &&& resp.new_price == req.new_price
                &&& resp.new_quantity == req.new_quantity
                &&& modifies(
                    old(self).book(),
                    final(self).book(),
                    order_id,
                    req.new_price,
                    req.new_quantity,
                    resp.old_price,
                    resp.old_quantity,
                )
            },
            final(self).book().next_seq <= old(self).book().next_seq + 1,
            final(self).book().load() == old(self).book().load(),
            final(self).next_id() == old(self).next_id(),
    {
        if req.new_quantity <= 0 {
            return Err(ApiError::Validation(String::from_str("Quantity must be positive")));
        }
        if req.new_price < 0 {
            return Err(ApiError::Validation(String::from_str("Price cannot be negative")));
        }
        if !self.book.contains_order(order_id) {
            return Err(ApiError::NotFound(order_id));
        }
        if !self.can_accept() {
            return Err(ApiError::Internal(String::from_str("order id or trade id space exhausted")));
        }
        let result = self.book.modify_order(order_id, req.new_price, req.new_quantity);
        if !result.accepted {
            let reason = match result.reject_reason {
                Some(s) => s,
                None => String::from_str("Unknown rejection"),
            };
            return Err(ApiError::EngineRejection(reason));
        }
        Ok(
            ModifyResponse {
                order_id,
                accepted: true,
                reject_reason: None,
                old_price: result.old_price,
                new_price: result.new_price,
                old_quantity: result.old_quantity,
                new_quantity: result.new_quantity,
            },
        )
    }

    /// The market data of the book.
    pub fn get_snapshot(&self) -> (r: MarketSnapshot)
        requires
            self.wf(),
        ensures
            r == snapshot_of(self.book()),
    {
        let snap = self.book.get_snapshot();
        let has_bid = snap.bid_price > 0;
        let has_ask = snap.ask_price > 0;
        let both = has_bid && has_ask;
        MarketSnapshot {
            best_bid: if has_bid {
                Some(snap.bid_price)
            } else {
                None
            },
            best_ask: if has_ask {
                Some(snap.ask_price)
            } else {
                None
            },
            spread: if both {
                Some(snap.spread)
            } else {
                None
            },
            mid_price: if both {
                Some(snap.mid_price)
            } else {
                None
            },
            last_trade_price: if snap.last_trade_price == 0 {
                None
            } else {
                Some(snap.last_trade_price)
            },
            last_trade_qty: if snap.last_trade_qty == 0 {
                None
            } else {
                Some(snap.last_trade_qty)
            },
        }
    }

    /// The health report: the totals, with the uptime the caller measured.
    pub fn health(&self, uptime_seconds: u64) -> (r: HealthResponse)
        ensures
            r.status@ == "healthy"@,
            r.uptime_seconds == uptime_seconds,
            r.total_orders == self.orders_count(),
            r.total_trades == self.trades_count(),
    {
        HealthResponse {
            status: String::from_str("healthy"),
            uptime_seconds,
            total_orders: self.total_orders,
            total_trades: self.total_trades,
        }
    }
}

} // verus!
