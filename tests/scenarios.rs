use orderflow::book::OwnedOrderBook;
use orderflow::config::RiskConfig;
use orderflow::engine::OrderRequest;
use orderflow::error::ApiError;
use orderflow::service::OrderService;
use orderflow::types::{OrderType, Side, StpMode, TimeInForce};

fn rest(book: &mut OwnedOrderBook, trader: &str, id: u64, price: i64, qty: i64, side: Side) {
    let r = book.add_order(trader, id, Some(price), qty, side, OrderType::Limit, TimeInForce::Gtc, StpMode::Allow, 0);
    assert!(r.accepted);
}

#[test]
fn cross_at_limit() {
    let mut book = OwnedOrderBook::new();
    rest(&mut book, "seller", 1, 10050, 50, Side::Sell);
    let r = book.add_order("buyer", 2, Some(10050), 30, Side::Buy, OrderType::Limit, TimeInForce::Gtc, StpMode::Allow, 0);
    assert_eq!(r.trades.len(), 1);
    assert_eq!(r.trades[0].price, 10050);
    assert_eq!(r.trades[0].quantity, 30);
    assert_eq!(r.remaining_quantity, 0);
    assert_eq!(book.get_best_ask(), 10050);
    assert_eq!(book.get_best_bid(), 0);
    // the resting sell holds 20
    let r = book.add_order("buyer", 3, None, 100, Side::Buy, OrderType::Market, TimeInForce::Ioc, StpMode::Allow, 0);
    assert_eq!(r.trades[0].quantity, 20);
}

#[test]
fn market_sweeps_two_levels() {
    let mut book = OwnedOrderBook::new();
    rest(&mut book, "s", 1, 10000, 40, Side::Sell);
    rest(&mut book, "s", 2, 10100, 100, Side::Sell);
    let r = book.add_order("b", 3, None, 60, Side::Buy, OrderType::Market, TimeInForce::Ioc, StpMode::Allow, 0);
    assert_eq!(r.trades.len(), 2);
    assert_eq!((r.trades[0].price, r.trades[0].quantity), (10000, 40));
    assert_eq!((r.trades[1].price, r.trades[1].quantity), (10100, 20));
    assert_eq!(r.remaining_quantity, 0);
    assert_eq!(book.get_best_ask(), 10100);
    let r = book.add_order("b", 4, None, 1000, Side::Buy, OrderType::Market, TimeInForce::Ioc, StpMode::Allow, 0);
    assert_eq!(r.trades[0].quantity, 80);
}

#[test]
fn fok_rejection_leaves_book() {
    let mut book = OwnedOrderBook::new();
    rest(&mut book, "s", 1, 10000, 50, Side::Sell);
    let r = book.add_order("b", 2, Some(10000), 100, Side::Buy, OrderType::Limit, TimeInForce::Fok, StpMode::Allow, 0);
    assert!(!r.accepted);
    assert!(r.trades.is_empty());
    assert_eq!(book.get_best_ask(), 10000);
    let r = book.add_order("b", 3, None, 1000, Side::Buy, OrderType::Market, TimeInForce::Ioc, StpMode::Allow, 0);
    assert_eq!(r.trades[0].quantity, 50);
}

#[test]
fn stp_cancel_newest_keeps_resting() {
    let mut book = OwnedOrderBook::new();
    rest(&mut book, "t", 1, 10000, 50, Side::Sell);
    let r = book.add_order("t", 2, Some(10000), 30, Side::Buy, OrderType::Limit, TimeInForce::Gtc, StpMode::CancelNewest, 0);
    assert!(r.accepted);
    assert!(r.trades.is_empty());
    assert_eq!(r.remaining_quantity, 0);
    let r = book.add_order("u", 3, None, 1000, Side::Buy, OrderType::Market, TimeInForce::Ioc, StpMode::Allow, 0);
    assert_eq!(r.trades[0].quantity, 50);
}

#[test]
fn modify_cross_spread_rejected() {
    let mut book = OwnedOrderBook::new();
    rest(&mut book, "s", 1, 10500, 10, Side::Sell);
    rest(&mut book, "t", 2, 10000, 10, Side::Buy);
    let m = book.modify_order(2, 10500, 10);
    assert!(!m.accepted);
    assert!(m.reject_reason.unwrap().contains("cross"));
    assert_eq!(book.get_best_bid(), 10000);
}

#[test]
fn position_limit_blocks() {
    let mut svc = OrderService::new(RiskConfig {
        min_order_size: 1,
        max_order_size: 10_000,
        price_band_bps: 1_000,
        max_position_per_trader: 1000,
        max_orders_per_second: 100,
    });
    let order = |trader: &str, qty: i64, side: Side| OrderRequest {
        trader_id: trader.into(),
        price: Some(10000),
        quantity: qty,
        side,
        order_type: OrderType::Limit,
        time_in_force: TimeInForce::Gtc,
        stp_mode: StpMode::Allow,
    };
    svc.submit_order(order("s", 1000, Side::Sell), 0).0.unwrap();
    let r = svc.submit_order(order("t", 900, Side::Buy), 0).0.unwrap();
    assert_eq!(r.remaining_quantity, 0);
    assert_eq!(svc.risk.get_position("t"), 900);
    let r = svc.submit_order(order("t", 200, Side::Buy), 0).0;
    assert!(matches!(r, Err(ApiError::RiskRejection(_))));
    assert_eq!(svc.risk.get_position("t"), 900);
}

#[test]
fn book_never_crossed_after_operations() {
    let mut book = OwnedOrderBook::new();
    let mut id = 1u64;
    for (price, side) in [(10000, Side::Buy), (10100, Side::Sell), (10050, Side::Buy), (10050, Side::Sell), (9900, Side::Sell)] {
        book.add_order("x", id, Some(price), 10, side, OrderType::Limit, TimeInForce::Gtc, StpMode::Allow, 0);
        id += 1;
        let s = book.get_snapshot();
        if s.bid_price > 0 && s.ask_price > 0 {
            assert!(s.bid_price < s.ask_price);
        }
    }
}

#[test]
fn trade_ids_increase_across_submissions() {
    let mut book = OwnedOrderBook::new();
    rest(&mut book, "s", 1, 100, 10, Side::Sell);
    rest(&mut book, "s", 2, 100, 10, Side::Sell);
    let a = book.add_order("b", 3, Some(100), 15, Side::Buy, OrderType::Limit, TimeInForce::Gtc, StpMode::Allow, 0);
    let b = book.add_order("b", 4, Some(100), 5, Side::Buy, OrderType::Limit, TimeInForce::Gtc, StpMode::Allow, 0);
    let ids: Vec<u64> = a.trades.iter().chain(b.trades.iter()).map(|t| t.trade_id).collect();
    assert_eq!(ids, vec![1, 2, 3]);
}

#[test]
fn conservation_of_quantity() {
    let mut book = OwnedOrderBook::new();
    rest(&mut book, "s", 1, 100, 7, Side::Sell);
    rest(&mut book, "s", 2, 101, 9, Side::Sell);
    let r = book.add_order("b", 3, Some(101), 30, Side::Buy, OrderType::Limit, TimeInForce::Ioc, StpMode::Allow, 0);
    let traded: i64 = r.trades.iter().map(|t| t.quantity).sum();
    assert_eq!(traded, 16);
    assert_eq!(traded + r.remaining_quantity, 30);
    assert_eq!(book.get_best_ask(), 0);
}

#[test]
fn ioc_leaves_nothing_behind() {
    let mut book = OwnedOrderBook::new();
    let r = book.add_order("b", 1, Some(100), 30, Side::Buy, OrderType::Limit, TimeInForce::Ioc, StpMode::Allow, 0);
    assert!(r.accepted);
    assert!(!book.contains_order(1));
    assert!(!book.cancel_order(1));
}
