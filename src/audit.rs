//! Audit events: what the pipeline records about each order, as plain values
//! that the application writes to its structured log.
use vstd::prelude::*;
use vstd::string::StringExecFns;

use crate::engine::{ModifyResponse, OrderRequest};
use crate::types::{OrderType, Side, StpMode, TimeInForce, Trade};

verus! {

/// One audit record.
#[derive(Debug, Clone)]
pub enum AuditEvent {
    OrderSubmitted {
        order_id: u64,
        trader_id: String,
        side: Side,
        order_type: OrderType,
        price: Option<i64>,
        quantity: i64,
        time_in_force: TimeInForce,
        stp_mode: StpMode,
    },
    OrderAccepted { order_id: u64, trades_count: usize, remaining_qty: i64 },
    /// Logged as a warning; `source` names the stage that refused.
    OrderRejected { order_id: u64, reason: String, source: String },
    OrderModified {
        order_id: u64,
        old_price: i64,
        new_price: i64,
        old_quantity: i64,
        new_quantity: i64,
    },
    OrderCancelled { order_id: u64 },
    TradeExecuted {
        trade_id: u64,
        buy_order_id: u64,
        sell_order_id: u64,
        price: i64,
        quantity: i64,
    },
}

pub fn order_submitted(order_id: u64, req: &OrderRequest) -> (r: AuditEvent)
    ensures
        r matches AuditEvent::OrderSubmitted {
            order_id: id,
            trader_id: t,
            side: s,
            order_type: ot,
            price: p,
            quantity: q,
            time_in_force: tif,
            stp_mode: m,
        } && id == order_id && t@ == req.trader_id@ && s == req.side && ot == req.order_type && p
            == req.price && q == req.quantity && tif == req.time_in_force && m == req.stp_mode,
{
    AuditEvent::OrderSubmitted {
        order_id,
        trader_id: req.trader_id.clone(),
        side: req.side,
        order_type: req.order_type,
        price: req.price,
        quantity: req.quantity,
        time_in_force: req.time_in_force,
        stp_mode: req.stp_mode,
    }
}

pub fn order_accepted(order_id: u64, trades_count: usize, remaining_qty: i64) -> (r: AuditEvent)
    ensures
        r == (AuditEvent::OrderAccepted { order_id, trades_count, remaining_qty }),
{
    AuditEvent::OrderAccepted { order_id, trades_count, remaining_qty }
}

pub fn order_rejected(order_id: u64, reason: &str, source: &str) -> (r: AuditEvent)
    ensures
        r matches AuditEvent::OrderRejected { order_id: id, reason: why, source: from } && id
            == order_id && why@ == reason@ && from@ == source@,
{
    AuditEvent::OrderRejected {
        order_id,
        reason: String::from_str(reason),
        source: String::from_str(source),
    }
}

pub fn order_modified(resp: &ModifyResponse) -> (r: AuditEvent)
    ensures
        r == (AuditEvent::OrderModified {
            order_id: resp.order_id,
            old_price: resp.old_price,
            new_price: resp.new_price,
            old_quantity: resp.old_quantity,
            new_quantity: resp.new_quantity,
        }),
{
    AuditEvent::OrderModified {
        order_id: resp.order_id,
        old_price: resp.old_price,
        new_price: resp.new_price,
        old_quantity: resp.old_quantity,
        new_quantity: resp.new_quantity,
    }
}

pub fn order_cancelled(order_id: u64) -> (r: AuditEvent)
    ensures
        r == (AuditEvent::OrderCancelled { order_id }),
{
    AuditEvent::OrderCancelled { order_id }
}

pub fn trade_executed(trade: &Trade) -> (r: AuditEvent)
    ensures
        r == (AuditEvent::TradeExecuted {
            trade_id: trade.trade_id,
            buy_order_id: trade.buy_order_id,
            sell_order_id: trade.sell_order_id,
            price: trade.price,
            quantity: trade.quantity,
        }),
{
    AuditEvent::TradeExecuted {
        trade_id: trade.trade_id,
        buy_order_id: trade.buy_order_id,
        sell_order_id: trade.sell_order_id,
        price: trade.price,
        quantity: trade.quantity,
    }
}

} // verus!
