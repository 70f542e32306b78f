use orderflow::config::RiskConfig;
use orderflow::engine::{ModifyRequest, OrderRequest};
use orderflow::error::ApiError;
use orderflow::service::{MarketEvent, OrderService};
use orderflow::types::{OrderType, Side, StpMode, TimeInForce};

fn make_service() -> OrderService {
    OrderService::new(RiskConfig {
        min_order_size: 1,
        max_order_size: 10_000,
        price_band_bps: 1_000,
        max_position_per_trader: 1_000,
        max_orders_per_second: 100,
    })
}

fn limit_order(trader: &str, price: i64, qty: i64, side: Side) -> OrderRequest {
    OrderRequest {
        trader_id: trader.into(),
        price: Some(price),
        quantity: qty,
        side,
        order_type: OrderType::Limit,
        time_in_force: TimeInForce::Gtc,
        stp_mode: StpMode::Allow,
    }
}

#[test]
fn test_submit_through_service() {
    let mut svc = make_service();
    let resp = svc.submit_order(limit_order("alice", 10000, 100, Side::Buy), 0).0.unwrap();
    assert!(resp.accepted);
    assert_eq!(resp.remaining_quantity, 100);
}

#[test]
fn test_risk_rejection_oversized() {
    let mut svc = make_service();
    let result = svc.submit_order(limit_order("alice", 10000, 10_001, Side::Buy), 0).0;
    assert!(result.is_err());
    match result.unwrap_err() {
        ApiError::RiskRejection(msg) => assert!(msg.contains("exceeds maximum")),
        e => panic!("Expected RiskRejection, got {:?}", e),
    }
}

#[test]
fn test_position_tracking_after_fill() {
    let mut svc = make_service();
    svc.submit_order(limit_order("seller", 10000, 50, Side::Sell), 0).0.unwrap();
    let resp = svc.submit_order(limit_order("buyer", 10000, 50, Side::Buy), 0).0.unwrap();
    assert_eq!(resp.trades.len(), 1);
    assert_eq!(svc.risk.get_position("buyer"), 50);
    assert_eq!(svc.risk.get_position("seller"), -50);
}

#[test]
fn test_position_limit_blocks_order() {
    let mut svc = make_service();
    svc.submit_order(limit_order("seller1", 10000, 1000, Side::Sell), 0).0.unwrap();
    svc.submit_order(limit_order("seller2", 10000, 1000, Side::Sell), 0).0.unwrap();
    svc.submit_order(limit_order("buyer", 10000, 900, Side::Buy), 0).0.unwrap();
    assert_eq!(svc.risk.get_position("buyer"), 900);
    let result = svc.submit_order(limit_order("buyer", 10000, 200, Side::Buy), 0).0;
    assert!(result.is_err());
    match result.unwrap_err() {
        ApiError::RiskRejection(msg) => assert!(msg.contains("Position limit")),
        e => panic!("Expected RiskRejection, got {:?}", e),
    }
}

#[test]
fn test_price_band_rejection() {
    let mut svc = make_service();
    svc.submit_order(limit_order("a", 9950, 100, Side::Buy), 0).0.unwrap();
    svc.submit_order(limit_order("b", 10050, 100, Side::Sell), 0).0.unwrap();
    let result = svc.submit_order(limit_order("c", 8000, 10, Side::Buy), 0).0;
    assert!(result.is_err());
    match result.unwrap_err() {
        ApiError::RiskRejection(msg) => assert!(msg.contains("outside")),
        e => panic!("Expected RiskRejection, got {:?}", e),
    }
}

#[test]
fn effects_of_a_fill() {
    let mut svc = make_service();
    svc.submit_order(limit_order("seller", 10000, 50, Side::Sell), 0).0.unwrap();
    let (r, fx) = svc.submit_order(limit_order("buyer", 10000, 20, Side::Buy), 5);
    let resp = r.unwrap();
    assert_eq!(fx.events.len(), 1);
    match &fx.events[0] {
        MarketEvent::Trade(t) => {
            assert_eq!(t.quantity, 20);
            assert_eq!(t.buy_order_id, resp.order_id);
        }
        other => panic!("unexpected {:?}", other),
    }
    // submitted, accepted, one trade executed
    assert_eq!(fx.audit.len(), 3);
    // submitted, accepted, trades
    assert_eq!(fx.metrics.len(), 3);
}

#[test]
fn cancel_after_fill_is_not_found() {
    let mut svc = make_service();
    svc.submit_order(limit_order("seller", 10000, 50, Side::Sell), 0).0.unwrap();
    let resp = svc.submit_order(limit_order("buyer", 10000, 50, Side::Buy), 0).0.unwrap();
    assert_eq!(resp.remaining_quantity, 0);
    let (r, _) = svc.cancel_order(resp.order_id);
    assert!(matches!(r, Err(ApiError::NotFound(_))));
}

#[test]
fn cancel_twice_is_not_found_the_second_time() {
    let mut svc = make_service();
    let resp = svc.submit_order(limit_order("a", 10000, 10, Side::Buy), 0).0.unwrap();
    let (r, fx) = svc.cancel_order(resp.order_id);
    assert!(r.unwrap().cancelled);
    assert_eq!(fx.events.len(), 1);
    let (r2, _) = svc.cancel_order(resp.order_id);
    assert!(matches!(r2, Err(ApiError::NotFound(id)) if id == resp.order_id));
    assert_eq!(svc.engine.get_snapshot().best_bid, None);
}

#[test]
fn modify_through_service() {
    let mut svc = make_service();
    let resp = svc.submit_order(limit_order("a", 10000, 10, Side::Buy), 0).0.unwrap();
    let (r, fx) = svc.modify_order(resp.order_id, ModifyRequest { new_price: 10100, new_quantity: 10 });
    assert!(r.unwrap().accepted);
    assert_eq!(fx.audit.len(), 1);
    let (r, _) = svc.modify_order(999, ModifyRequest { new_price: 10100, new_quantity: 10 });
    assert!(matches!(r, Err(ApiError::NotFound(999))));
}

#[test]
fn rate_limit_stops_the_pipeline() {
    let mut svc = OrderService::new(RiskConfig {
        min_order_size: 1,
        max_order_size: 10_000,
        price_band_bps: 1_000,
        max_position_per_trader: 1_000,
        max_orders_per_second: 1,
    });
    assert!(svc.submit_order(limit_order("a", 10000, 10, Side::Buy), 0).0.is_ok());
    let (r, fx) = svc.submit_order(limit_order("a", 10000, 10, Side::Buy), 0);
    assert!(matches!(r, Err(ApiError::RateLimited(_))));
    assert_eq!(fx.audit.len(), 1);
    assert_eq!(svc.engine.total_orders(), 1);
}

#[test]
fn cancel_forgets_registration_even_when_not_found() {
    let mut svc = make_service();
    svc.risk.register_order(42, "ghost", Side::Sell);
    let (r, fx) = svc.cancel_order(42);
    assert!(matches!(r, Err(ApiError::NotFound(42))));
    assert!(fx.events.is_empty());
    // the registration is gone: a trade citing 42 no longer reaches "ghost"
    svc.risk.update_positions_from_trades("bob", Side::Buy, &[(1, 42, 5)]);
    assert_eq!(svc.risk.get_position("ghost"), 0);
}

#[test]
fn refusals_name_their_stage_and_send_nothing() {
    let mut svc = make_service();
    let (r, fx) = svc.submit_order(limit_order("alice", 10000, 10_001, Side::Buy), 0);
    assert!(r.is_err());
    assert!(fx.events.is_empty());
    match fx.audit.last() {
        Some(orderflow::audit::AuditEvent::OrderRejected { source, .. }) => assert_eq!(source, "risk"),
        other => panic!("unexpected {:?}", other),
    }
    let (r, fx) = svc.submit_order({ let mut o = limit_order("alice", 10000, 10, Side::Buy); o.time_in_force = TimeInForce::Fok; o }, 0);
    assert!(matches!(r, Err(ApiError::EngineRejection(_))));
    match fx.audit.last() {
        Some(orderflow::audit::AuditEvent::OrderRejected { source, .. }) => assert_eq!(source, "engine"),
        other => panic!("unexpected {:?}", other),
    }
}
