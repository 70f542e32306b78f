//! Plain data shared by the book, the engine and the services.
use vstd::prelude::*;

verus! {

/// Buy orders rest on the bid side, sell orders on the ask side.
#[derive(Debug, Clone, Copy, PartialEq, Eq, Structural)]
pub enum Side {
    Buy,
    Sell,
}

/// A limit order carries a price; a market order takes whatever is offered.
#[derive(Debug, Clone, Copy, PartialEq, Eq, Structural)]
pub enum OrderType {
    Limit,
    Market,
}

/// What happens to the part of an order that does not trade at once.
#[derive(Debug, Clone, Copy, PartialEq, Eq, Structural)]
pub enum TimeInForce {
    /// Good till cancelled: the rest of a limit order rests on the book.
    Gtc,
    /// Immediate or cancel: the rest is dropped.
    Ioc,
    /// Fill or kill: the order trades in full or not at all.
    Fok,
}

impl Default for TimeInForce {
    fn default() -> (r: Self)
        ensures
            r == TimeInForce::Gtc,
    {
        TimeInForce::Gtc
    }
}

/// What happens when an incoming order meets a resting order of its own trader.
#[derive(Debug, Clone, Copy, PartialEq, Eq, Structural)]
pub enum StpMode {
    Allow,
    CancelNewest,
    CancelOldest,
    CancelBoth,
    DecrementAndCancel,
}

impl Default for StpMode {
    fn default() -> (r: Self)
        ensures
            r == StpMode::Allow,
    {
        StpMode::Allow
    }
}

/// One execution between an incoming and a resting order, priced at the resting order's price.
#[derive(Debug, Clone, Copy, PartialEq, Eq, Structural)]
pub struct Trade {
    pub trade_id: u64,
    pub buy_order_id: u64,
    pub sell_order_id: u64,
    pub price: i64,
    pub quantity: i64,
    pub timestamp_ns: i64,
}

/// What self-trade prevention did during one submission.
#[derive(Debug, Clone)]
pub struct StpResult {
    /// An incoming order met a resting order of its own trader under a mode other than `Allow`.
    pub self_trade: bool,
    /// Ids of the orders that self-trade prevention removed, in the order it removed them.
    pub cancelled_orders: Vec<u64>,
    /// The mode that was applied, in its wire spelling.
    pub action: Option<String>,
}

/// The outcome of submitting an order to the book.
#[derive(Debug, Clone)]
pub struct OrderResult {
    pub accepted: bool,
    pub reject_reason: Option<String>,
    pub trades: Vec<Trade>,
    pub remaining_quantity: i64,
    pub stp_result: StpResult,
}

/// The outcome of modifying a resting order.
#[derive(Debug, Clone)]
pub struct ModifyResult {
    pub accepted: bool,
    pub reject_reason: Option<String>,
    pub old_price: i64,
    pub new_price: i64,
    pub old_quantity: i64,
    pub new_quantity: i64,
}

/// Top of book and last trade, in cents; zero where a side is empty or nothing has traded.
#[derive(Debug, Clone, Copy, PartialEq, Eq, Structural)]
pub struct PriceData {
    pub timestamp_ns: i64,
    pub bid_price: i64,
    pub ask_price: i64,
    pub mid_price: i64,
    pub spread: i64,
    pub last_trade_price: i64,
    pub last_trade_qty: i64,
}

/// The answer to a successful cancel.
#[derive(Debug, Clone, Copy, PartialEq, Eq, Structural)]
pub struct CancelResponse {
    pub order_id: u64,
    pub cancelled: bool,
}

/// The sum of the quantities of a sequence of trades.
pub open spec fn traded_quantity(trades: Seq<Trade>) -> int
    decreases trades.len(),
{
    if trades.len() == 0 {
        0
    } else {
        traded_quantity(trades.drop_last()) + trades.last().quantity
    }
}

} // verus!

verus! {

/// The market as the risk checks see it, in cents; `None` where there is nothing to show.
#[derive(Debug, Clone, Copy, PartialEq, Eq, Structural)]
pub struct MarketSnapshot {
    pub best_bid: Option<i64>,
    pub best_ask: Option<i64>,
    pub spread: Option<i64>,
    pub mid_price: Option<i64>,
    pub last_trade_price: Option<i64>,
    pub last_trade_qty: Option<i64>,
}

} // verus!
