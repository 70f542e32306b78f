use orderflow::config::RiskConfig;
use orderflow::error::ApiError;
use orderflow::risk::RiskService;
use orderflow::types::{MarketSnapshot, OrderType, Side};

fn default_config() -> RiskConfig {
    RiskConfig {
        min_order_size: 1,
        max_order_size: 10_000,
        price_band_bps: 1_000,
        max_position_per_trader: 1_000,
        max_orders_per_second: 100,
    }
}

fn empty_snapshot() -> MarketSnapshot {
    MarketSnapshot {
        best_bid: None,
        best_ask: None,
        spread: None,
        mid_price: None,
        last_trade_price: None,
        last_trade_qty: None,
    }
}

fn snapshot_with_mid(mid: i64) -> MarketSnapshot {
    MarketSnapshot {
        best_bid: Some(mid - 50),
        best_ask: Some(mid + 50),
        spread: Some(100),
        mid_price: Some(mid),
        last_trade_price: Some(mid),
        last_trade_qty: Some(10),
    }
}

#[test]
fn test_order_size_valid() {
    let svc = RiskService::new(default_config());
    assert!(svc.check_order_size(100).is_ok());
    assert!(svc.check_order_size(1).is_ok());
    assert!(svc.check_order_size(10_000).is_ok());
}

#[test]
fn test_order_size_too_small() {
    let svc = RiskService::new(default_config());
    assert!(svc.check_order_size(0).is_err());
    assert!(svc.check_order_size(-1).is_err());
}

#[test]
fn test_order_size_too_large() {
    let svc = RiskService::new(default_config());
    assert!(svc.check_order_size(10_001).is_err());
    assert!(svc.check_order_size(100_000).is_err());
}

#[test]
fn test_price_band_valid() {
    let svc = RiskService::new(default_config());
    let snap = snapshot_with_mid(10000);
    assert!(svc.check_price_band(10000, &snap).is_ok());
    assert!(svc.check_price_band(9000, &snap).is_ok());
    assert!(svc.check_price_band(11000, &snap).is_ok());
}

#[test]
fn test_price_band_breach() {
    let svc = RiskService::new(default_config());
    let snap = snapshot_with_mid(10000);
    assert!(svc.check_price_band(8999, &snap).is_err());
    assert!(svc.check_price_band(11001, &snap).is_err());
}

#[test]
fn test_price_band_skipped_on_empty_book() {
    let svc = RiskService::new(default_config());
    let snap = empty_snapshot();
    assert!(svc.check_price_band(99900, &snap).is_ok());
}

#[test]
fn test_position_limit_valid() {
    let svc = RiskService::new(default_config());
    assert!(svc.check_position_limit("alice", 1000, Side::Buy).is_ok());
    assert!(svc.check_position_limit("alice", 1000, Side::Sell).is_ok());
}

#[test]
fn test_position_limit_exceeded() {
    let svc = RiskService::new(default_config());
    assert!(svc.check_position_limit("alice", 1001, Side::Buy).is_err());
}

#[test]
fn test_position_tracking() {
    let mut svc = RiskService::new(default_config());
    svc.register_order(1, "alice", Side::Sell);
    svc.update_positions_from_trades("bob", Side::Buy, &[(2, 1, 500)]);
    assert_eq!(svc.get_position("bob"), 500);
    assert_eq!(svc.get_position("alice"), -500);

    svc.register_order(2, "bob", Side::Buy);
    svc.update_positions_from_trades("alice", Side::Sell, &[(2, 3, 200)]);
    assert_eq!(svc.get_position("alice"), -700);
    assert_eq!(svc.get_position("bob"), 700);

    assert!(svc.check_position_limit("bob", 301, Side::Buy).is_err());
    assert!(svc.check_position_limit("bob", 300, Side::Buy).is_ok());
}

#[test]
fn test_full_check_passes() {
    let svc = RiskService::new(default_config());
    let snap = snapshot_with_mid(10000);
    assert!(svc
        .check_order("alice", 100, Side::Buy, OrderType::Limit, Some(10000), &snap)
        .is_ok());
}

#[test]
fn test_full_check_market_order_skips_price_band() {
    let svc = RiskService::new(default_config());
    let snap = snapshot_with_mid(10000);
    assert!(svc
        .check_order("alice", 100, Side::Buy, OrderType::Market, None, &snap)
        .is_ok());
}

#[test]
fn rejection_texts_carry_the_numbers() {
    let svc = RiskService::new(default_config());
    match svc.check_order_size(10_001) {
        Err(ApiError::RiskRejection(m)) => assert_eq!(m, "Order size 10001 exceeds maximum 10000"),
        other => panic!("unexpected {:?}", other),
    }
    match svc.check_order_size(0) {
        Err(ApiError::RiskRejection(m)) => assert_eq!(m, "Order size 0 below minimum 1"),
        other => panic!("unexpected {:?}", other),
    }
    match svc.check_position_limit("alice", 1001, Side::Sell) {
        Err(ApiError::RiskRejection(m)) => {
            assert_eq!(m, "Position limit exceeded: current 0, order 1001 (limit 1000)")
        }
        other => panic!("unexpected {:?}", other),
    }
    match svc.check_price_band(8000, &snapshot_with_mid(10000)) {
        Err(ApiError::RiskRejection(m)) => {
            assert_eq!(m, "Price 8000 outside band of 1000 bps around reference 10000")
        }
        other => panic!("unexpected {:?}", other),
    }
}

#[test]
fn band_falls_back_to_last_trade() {
    let svc = RiskService::new(default_config());
    let mut snap = empty_snapshot();
    snap.last_trade_price = Some(20000);
    assert!(svc.check_price_band(17999, &snap).is_err());
    assert!(svc.check_price_band(18000, &snap).is_ok());
}

#[test]
fn unknown_counterparty_is_skipped() {
    let mut svc = RiskService::new(default_config());
    svc.update_positions_from_trades("bob", Side::Buy, &[(2, 99, 50)]);
    assert_eq!(svc.get_position("bob"), 50);
    assert_eq!(svc.get_position(""), 0);
}

#[test]
fn unregistered_order_no_longer_resolves() {
    let mut svc = RiskService::new(default_config());
    svc.register_order(1, "alice", Side::Sell);
    svc.unregister_order(1);
    svc.update_positions_from_trades("bob", Side::Buy, &[(2, 1, 10)]);
    assert_eq!(svc.get_position("alice"), 0);
    assert_eq!(svc.get_position("bob"), 10);
}

#[test]
fn positions_sum_to_zero_with_known_counterparties() {
    let mut svc = RiskService::new(default_config());
    svc.register_order(1, "alice", Side::Sell);
    svc.register_order(2, "carol", Side::Sell);
    svc.update_positions_from_trades("bob", Side::Buy, &[(3, 1, 40), (3, 2, 60)]);
    svc.register_order(4, "bob", Side::Buy);
    svc.update_positions_from_trades("carol", Side::Sell, &[(4, 5, 25)]);
    let sum = svc.get_position("alice") + svc.get_position("bob") + svc.get_position("carol");
    assert_eq!(sum, 0);
    assert_eq!(svc.get_position("bob"), 125);
    assert_eq!(svc.get_position("carol"), -85);
}

#[test]
fn negative_positions_are_written_with_a_sign() {
    let mut svc = RiskService::new(default_config());
    svc.register_order(1, "alice", Side::Sell);
    svc.update_positions_from_trades("bob", Side::Buy, &[(2, 1, 500)]);
    match svc.check_position_limit("alice", 600, Side::Sell) {
        Err(ApiError::RiskRejection(m)) => {
            assert_eq!(m, "Position limit exceeded: current -500, order 600 (limit 1000)")
        }
        other => panic!("unexpected {:?}", other),
    }
}
