use orderflow::book::OwnedOrderBook;
use orderflow::types::{OrderType, Side, StpMode, TimeInForce};

fn limit(
    book: &mut OwnedOrderBook,
    trader: &str,
    id: u64,
    price: i64,
    qty: i64,
    side: Side,
    tif: TimeInForce,
    stp: StpMode,
) -> orderflow::types::OrderResult {
    book.add_order(trader, id, Some(price), qty, side, OrderType::Limit, tif, stp, 0)
}

#[test]
fn test_create_destroy() {
    let _book = OwnedOrderBook::new();
}

#[test]
fn test_empty_book_snapshot() {
    let book = OwnedOrderBook::new();
    let snap = book.get_snapshot();
    assert_eq!(snap.bid_price, 0);
    assert_eq!(snap.ask_price, 0);
    assert_eq!(snap.spread, 0);
    assert_eq!(snap.mid_price, 0);
}

#[test]
fn test_add_limit_order() {
    let mut book = OwnedOrderBook::new();
    let result = limit(&mut book, "traderA", 1, 10050, 100, Side::Buy, TimeInForce::Gtc, StpMode::Allow);
    assert!(result.accepted);
    assert_eq!(result.trades.len(), 0);
    assert_eq!(result.remaining_quantity, 100);
    assert_eq!(book.get_best_bid(), 10050);
}

#[test]
fn test_matching_trade() {
    let mut book = OwnedOrderBook::new();
    let r1 = limit(&mut book, "seller", 1, 10050, 50, Side::Sell, TimeInForce::Gtc, StpMode::Allow);
    assert!(r1.accepted);
    assert_eq!(r1.trades.len(), 0);
    let r2 = limit(&mut book, "buyer", 2, 10050, 30, Side::Buy, TimeInForce::Gtc, StpMode::Allow);
    assert!(r2.accepted);
    assert_eq!(r2.trades.len(), 1);
    assert_eq!(r2.trades[0].quantity, 30);
    assert_eq!(r2.trades[0].price, 10050);
    assert_eq!(r2.trades[0].buy_order_id, 2);
    assert_eq!(r2.trades[0].sell_order_id, 1);
    assert!(r2.trades[0].trade_id > 0);
    assert_eq!(r2.remaining_quantity, 0);
}

#[test]
fn test_market_order() {
    let mut book = OwnedOrderBook::new();
    limit(&mut book, "seller", 1, 10000, 100, Side::Sell, TimeInForce::Gtc, StpMode::Allow);
    let r = book.add_order("buyer", 2, None, 40, Side::Buy, OrderType::Market, TimeInForce::Ioc, StpMode::Allow, 0);
    assert!(r.accepted);
    assert_eq!(r.trades.len(), 1);
    assert_eq!(r.trades[0].quantity, 40);
    assert_eq!(r.remaining_quantity, 0);
}

#[test]
fn test_cancel_order() {
    let mut book = OwnedOrderBook::new();
    limit(&mut book, "traderA", 1, 10000, 100, Side::Buy, TimeInForce::Gtc, StpMode::Allow);
    assert!(book.cancel_order(1));
    assert_eq!(book.get_best_bid(), 0);
    assert!(!book.cancel_order(999));
}

#[test]
fn test_modify_order() {
    let mut book = OwnedOrderBook::new();
    limit(&mut book, "seller", 10, 10500, 50, Side::Sell, TimeInForce::Gtc, StpMode::Allow);
    limit(&mut book, "buyer", 1, 10000, 100, Side::Buy, TimeInForce::Gtc, StpMode::Allow);

    let m1 = book.modify_order(1, 10000, 60);
    assert!(m1.accepted);
    assert_eq!(m1.old_quantity, 100);
    assert_eq!(m1.new_quantity, 60);

    let m2 = book.modify_order(1, 10200, 60);
    assert!(m2.accepted);
    assert_eq!(m2.old_price, 10000);
    assert_eq!(m2.new_price, 10200);
    assert_eq!(book.get_best_bid(), 10200);

    let m3 = book.modify_order(1, 10500, 60);
    assert!(!m3.accepted);
    assert!(m3.reject_reason.is_some());

    let m4 = book.modify_order(999, 10000, 50);
    assert!(!m4.accepted);
}

#[test]
fn test_fok_rejection() {
    let mut book = OwnedOrderBook::new();
    limit(&mut book, "seller", 1, 10000, 50, Side::Sell, TimeInForce::Gtc, StpMode::Allow);
    let r = limit(&mut book, "buyer", 2, 10000, 100, Side::Buy, TimeInForce::Fok, StpMode::Allow);
    assert!(!r.accepted);
    assert!(r.reject_reason.is_some());
}

#[test]
fn test_stp_cancel_newest() {
    let mut book = OwnedOrderBook::new();
    limit(&mut book, "traderA", 1, 10000, 50, Side::Sell, TimeInForce::Gtc, StpMode::CancelNewest);
    let r = limit(&mut book, "traderA", 2, 10000, 30, Side::Buy, TimeInForce::Gtc, StpMode::CancelNewest);
    assert!(r.accepted);
    assert_eq!(r.trades.len(), 0);
    assert_eq!(r.remaining_quantity, 0);
    assert_eq!(book.get_best_ask(), 10000);
}

#[test]
fn test_duplicate_order_id() {
    let mut book = OwnedOrderBook::new();
    let r1 = limit(&mut book, "traderA", 1, 10000, 100, Side::Buy, TimeInForce::Gtc, StpMode::Allow);
    assert!(r1.accepted);
    let r2 = limit(&mut book, "traderA", 1, 10000, 100, Side::Buy, TimeInForce::Gtc, StpMode::Allow);
    assert!(!r2.accepted);
}

#[test]
fn test_snapshot_after_trades() {
    let mut book = OwnedOrderBook::new();
    limit(&mut book, "seller", 1, 10100, 100, Side::Sell, TimeInForce::Gtc, StpMode::Allow);
    limit(&mut book, "buyer", 2, 9900, 200, Side::Buy, TimeInForce::Gtc, StpMode::Allow);

    let snap = book.get_snapshot();
    assert_eq!(snap.bid_price, 9900);
    assert_eq!(snap.ask_price, 10100);
    assert_eq!(snap.spread, 200);
    assert_eq!(snap.mid_price, 10000);

    let r = limit(&mut book, "crosser", 3, 10100, 50, Side::Buy, TimeInForce::Gtc, StpMode::Allow);
    assert_eq!(r.trades.len(), 1);
    assert_eq!(book.get_last_trade_price(), 10100);
    assert_eq!(book.get_last_trade_qty(), 50);
}

#[test]
fn stp_cancel_oldest_removes_resting_and_continues() {
    let mut book = OwnedOrderBook::new();
    limit(&mut book, "a", 1, 10000, 50, Side::Sell, TimeInForce::Gtc, StpMode::Allow);
    limit(&mut book, "b", 2, 10000, 50, Side::Sell, TimeInForce::Gtc, StpMode::Allow);
    let r = limit(&mut book, "a", 3, 10000, 30, Side::Buy, TimeInForce::Gtc, StpMode::CancelOldest);
    assert!(r.accepted);
    assert!(r.stp_result.self_trade);
    assert_eq!(r.stp_result.cancelled_orders, vec![1]);
    assert_eq!(r.stp_result.action.as_deref(), Some("CANCEL_OLDEST"));
    assert_eq!(r.trades.len(), 1);
    assert_eq!(r.trades[0].sell_order_id, 2);
    assert!(!book.contains_order(1));
    assert!(book.contains_order(2));
}

#[test]
fn stp_cancel_both_kills_both() {
    let mut book = OwnedOrderBook::new();
    limit(&mut book, "a", 1, 10000, 50, Side::Sell, TimeInForce::Gtc, StpMode::Allow);
    let r = limit(&mut book, "a", 2, 10000, 30, Side::Buy, TimeInForce::Gtc, StpMode::CancelBoth);
    assert!(r.accepted);
    assert_eq!(r.trades.len(), 0);
    assert_eq!(r.remaining_quantity, 0);
    assert_eq!(r.stp_result.cancelled_orders, vec![1, 2]);
    assert_eq!(book.get_best_ask(), 0);
    assert_eq!(book.get_best_bid(), 0);
}

#[test]
fn stp_decrement_and_cancel_reduces_both() {
    let mut book = OwnedOrderBook::new();
    limit(&mut book, "a", 1, 10000, 50, Side::Sell, TimeInForce::Gtc, StpMode::Allow);
    let r = limit(&mut book, "a", 2, 10000, 30, Side::Buy, TimeInForce::Gtc, StpMode::DecrementAndCancel);
    assert!(r.accepted);
    assert_eq!(r.trades.len(), 0);
    assert_eq!(r.remaining_quantity, 0);
    assert_eq!(r.stp_result.cancelled_orders, vec![2]);
    assert_eq!(book.get_best_ask(), 10000);
    let snap = book.get_snapshot();
    assert_eq!(snap.ask_price, 10000);
    // the resting sell now holds 20: a buy of 20 from someone else fills it completely
    let r2 = limit(&mut book, "b", 3, 10000, 25, Side::Buy, TimeInForce::Gtc, StpMode::Allow);
    assert_eq!(r2.trades.len(), 1);
    assert_eq!(r2.trades[0].quantity, 20);
    assert_eq!(r2.remaining_quantity, 5);
}

#[test]
fn stp_allow_trades_with_self() {
    let mut book = OwnedOrderBook::new();
    limit(&mut book, "a", 1, 10000, 50, Side::Sell, TimeInForce::Gtc, StpMode::Allow);
    let r = limit(&mut book, "a", 2, 10000, 30, Side::Buy, TimeInForce::Gtc, StpMode::Allow);
    assert_eq!(r.trades.len(), 1);
    assert!(!r.stp_result.self_trade);
    assert!(r.stp_result.action.is_none());
}

#[test]
fn ioc_remainder_is_dropped() {
    let mut book = OwnedOrderBook::new();
    limit(&mut book, "s", 1, 10000, 30, Side::Sell, TimeInForce::Gtc, StpMode::Allow);
    let r = limit(&mut book, "b", 2, 10000, 100, Side::Buy, TimeInForce::Ioc, StpMode::Allow);
    assert!(r.accepted);
    assert_eq!(r.trades.len(), 1);
    assert_eq!(r.remaining_quantity, 70);
    assert!(!book.contains_order(2));
    assert_eq!(book.get_best_bid(), 0);
}

#[test]
fn fok_fills_in_full_across_levels() {
    let mut book = OwnedOrderBook::new();
    limit(&mut book, "s", 1, 10000, 30, Side::Sell, TimeInForce::Gtc, StpMode::Allow);
    limit(&mut book, "s", 2, 10100, 30, Side::Sell, TimeInForce::Gtc, StpMode::Allow);
    let r = limit(&mut book, "b", 3, 10100, 50, Side::Buy, TimeInForce::Fok, StpMode::Allow);
    assert!(r.accepted);
    let total: i64 = r.trades.iter().map(|t| t.quantity).sum();
    assert_eq!(total, 50);
    assert_eq!(r.remaining_quantity, 0);
}

#[test]
fn fok_rejected_by_own_liquidity_under_cancel_newest() {
    let mut book = OwnedOrderBook::new();
    limit(&mut book, "a", 1, 10000, 100, Side::Sell, TimeInForce::Gtc, StpMode::Allow);
    let r = limit(&mut book, "a", 2, 10000, 50, Side::Buy, TimeInForce::Fok, StpMode::CancelNewest);
    assert!(!r.accepted);
    assert_eq!(r.trades.len(), 0);
    assert!(book.contains_order(1));
}

#[test]
fn earlier_arrival_fills_first_at_same_price() {
    let mut book = OwnedOrderBook::new();
    limit(&mut book, "s1", 1, 10000, 10, Side::Sell, TimeInForce::Gtc, StpMode::Allow);
    limit(&mut book, "s2", 2, 10000, 10, Side::Sell, TimeInForce::Gtc, StpMode::Allow);
    let r = limit(&mut book, "b", 3, 10000, 15, Side::Buy, TimeInForce::Gtc, StpMode::Allow);
    assert_eq!(r.trades.len(), 2);
    assert_eq!(r.trades[0].sell_order_id, 1);
    assert_eq!(r.trades[0].quantity, 10);
    assert_eq!(r.trades[1].sell_order_id, 2);
    assert_eq!(r.trades[1].quantity, 5);
    assert!(r.trades[0].trade_id < r.trades[1].trade_id);
}

#[test]
fn modify_down_keeps_queue_position() {
    let mut book = OwnedOrderBook::new();
    limit(&mut book, "s1", 1, 10000, 10, Side::Sell, TimeInForce::Gtc, StpMode::Allow);
    limit(&mut book, "s2", 2, 10000, 10, Side::Sell, TimeInForce::Gtc, StpMode::Allow);
    assert!(book.modify_order(1, 10000, 5).accepted);
    let r = limit(&mut book, "b", 3, 10000, 5, Side::Buy, TimeInForce::Gtc, StpMode::Allow);
    assert_eq!(r.trades[0].sell_order_id, 1);
}

#[test]
fn modify_up_loses_queue_position() {
    let mut book = OwnedOrderBook::new();
    limit(&mut book, "s1", 1, 10000, 10, Side::Sell, TimeInForce::Gtc, StpMode::Allow);
    limit(&mut book, "s2", 2, 10000, 10, Side::Sell, TimeInForce::Gtc, StpMode::Allow);
    assert!(book.modify_order(1, 10000, 20).accepted);
    let r = limit(&mut book, "b", 3, 10000, 5, Side::Buy, TimeInForce::Gtc, StpMode::Allow);
    assert_eq!(r.trades[0].sell_order_id, 2);
}

#[test]
fn modify_cross_reason_names_cross() {
    let mut book = OwnedOrderBook::new();
    limit(&mut book, "s", 1, 10500, 10, Side::Sell, TimeInForce::Gtc, StpMode::Allow);
    limit(&mut book, "t", 2, 10000, 10, Side::Buy, TimeInForce::Gtc, StpMode::Allow);
    let m = book.modify_order(2, 10500, 10);
    assert!(!m.accepted);
    assert!(m.reject_reason.unwrap().contains("cross"));
    assert_eq!(book.get_best_bid(), 10000);
}

#[test]
fn invalid_orders_are_rejected() {
    let mut book = OwnedOrderBook::new();
    let r = limit(&mut book, "a", 1, 10000, 0, Side::Buy, TimeInForce::Gtc, StpMode::Allow);
    assert!(!r.accepted);
    let r = book.add_order("a", 2, None, 10, Side::Buy, OrderType::Limit, TimeInForce::Gtc, StpMode::Allow, 0);
    assert!(!r.accepted);
    let r = limit(&mut book, "a", 3, -5, 10, Side::Buy, TimeInForce::Gtc, StpMode::Allow);
    assert!(!r.accepted);
}

#[test]
fn trade_carries_timestamp() {
    let mut book = OwnedOrderBook::new();
    book.add_order("s", 1, Some(100), 10, Side::Sell, OrderType::Limit, TimeInForce::Gtc, StpMode::Allow, 7);
    let r = book.add_order("b", 2, Some(100), 10, Side::Buy, OrderType::Limit, TimeInForce::Gtc, StpMode::Allow, 42);
    assert_eq!(r.trades[0].timestamp_ns, 42);
    assert_eq!(book.get_snapshot().timestamp_ns, 42);
}

#[test]
fn sell_market_sweeps_bids_best_first() {
    let mut book = OwnedOrderBook::new();
    limit(&mut book, "b1", 1, 9900, 10, Side::Buy, TimeInForce::Gtc, StpMode::Allow);
    limit(&mut book, "b2", 2, 10000, 10, Side::Buy, TimeInForce::Gtc, StpMode::Allow);
    let r = book.add_order("s", 3, None, 15, Side::Sell, OrderType::Market, TimeInForce::Ioc, StpMode::Allow, 0);
    assert_eq!(r.trades.len(), 2);
    assert_eq!(r.trades[0].price, 10000);
    assert_eq!(r.trades[0].buy_order_id, 2);
    assert_eq!(r.trades[1].price, 9900);
    assert_eq!(r.trades[1].quantity, 5);
    assert_eq!(book.get_best_bid(), 9900);
}

#[test]
fn filled_resting_order_leaves_the_index() {
    let mut book = OwnedOrderBook::new();
    limit(&mut book, "s", 1, 10000, 10, Side::Sell, TimeInForce::Gtc, StpMode::Allow);
    limit(&mut book, "b", 2, 10000, 10, Side::Buy, TimeInForce::Gtc, StpMode::Allow);
    assert!(!book.contains_order(1));
    assert!(!book.contains_order(2));
    assert!(!book.cancel_order(1));
    let m = book.modify_order(1, 10000, 5);
    assert!(!m.accepted);
    assert_eq!(m.reject_reason.as_deref(), Some("order not found"));
}

#[test]
fn reposted_order_keeps_its_id() {
    let mut book = OwnedOrderBook::new();
    limit(&mut book, "s", 1, 10500, 10, Side::Sell, TimeInForce::Gtc, StpMode::Allow);
    limit(&mut book, "b", 2, 10000, 10, Side::Buy, TimeInForce::Gtc, StpMode::Allow);
    assert!(book.modify_order(2, 10100, 20).accepted);
    assert!(book.contains_order(2));
    assert_eq!(book.get_best_bid(), 10100);
    assert!(book.cancel_order(2));
    assert!(!book.contains_order(2));
    assert_eq!(book.get_best_bid(), 0);
}

#[test]
fn sell_side_orders_are_found_by_id() {
    let mut book = OwnedOrderBook::new();
    limit(&mut book, "s", 5, 10500, 10, Side::Sell, TimeInForce::Gtc, StpMode::Allow);
    limit(&mut book, "s", 6, 10600, 10, Side::Sell, TimeInForce::Gtc, StpMode::Allow);
    let m = book.modify_order(6, 10400, 10);
    assert!(m.accepted);
    assert_eq!(m.old_price, 10600);
    assert_eq!(book.get_best_ask(), 10400);
    assert!(book.cancel_order(5));
    assert!(book.contains_order(6));
}
