use orderflow::engine::{validate_order_request, Engine, ModifyRequest, OrderRequest};
use orderflow::error::ApiError;
use orderflow::types::{OrderType, Side, StpMode, TimeInForce};

fn req(trader: &str, price: Option<i64>, quantity: i64, side: Side, order_type: OrderType, tif: TimeInForce) -> OrderRequest {
    OrderRequest {
        trader_id: trader.to_string(),
        price,
        quantity,
        side,
        order_type,
        time_in_force: tif,
        stp_mode: StpMode::Allow,
    }
}

#[test]
fn test_engine_add_order() {
    let mut engine = Engine::new();
    let resp = engine
        .add_order(req("alice", Some(10050), 100, Side::Buy, OrderType::Limit, TimeInForce::Gtc), 0)
        .unwrap();
    assert!(resp.accepted);
    assert_eq!(resp.remaining_quantity, 100);
    assert!(resp.trades.is_empty());
    assert_eq!(engine.total_orders(), 1);
}

#[test]
fn test_engine_matching() {
    let mut engine = Engine::new();
    engine
        .add_order(req("seller", Some(10050), 50, Side::Sell, OrderType::Limit, TimeInForce::Gtc), 0)
        .unwrap();
    let resp = engine
        .add_order(req("buyer", Some(10050), 30, Side::Buy, OrderType::Limit, TimeInForce::Gtc), 0)
        .unwrap();
    assert_eq!(resp.trades.len(), 1);
    assert_eq!(resp.trades[0].price, 10050);
    assert_eq!(resp.trades[0].quantity, 30);
    assert_eq!(resp.remaining_quantity, 0);
    assert_eq!(engine.total_trades(), 1);
}

#[test]
fn test_engine_cancel() {
    let mut engine = Engine::new();
    let resp = engine
        .add_order(req("alice", Some(10000), 100, Side::Buy, OrderType::Limit, TimeInForce::Gtc), 0)
        .unwrap();
    let oid = resp.order_id;
    let cancel = engine.cancel_order(oid).unwrap();
    assert!(cancel.cancelled);
    assert!(engine.cancel_order(oid).is_err());
}

#[test]
fn test_engine_modify() {
    let mut engine = Engine::new();
    engine
        .add_order(req("seller", Some(10500), 50, Side::Sell, OrderType::Limit, TimeInForce::Gtc), 0)
        .unwrap();
    let resp = engine
        .add_order(req("buyer", Some(10000), 100, Side::Buy, OrderType::Limit, TimeInForce::Gtc), 0)
        .unwrap();
    let oid = resp.order_id;
    let modify = engine
        .modify_order(oid, ModifyRequest { new_price: 10100, new_quantity: 60 })
        .unwrap();
    assert!(modify.accepted);
    assert_eq!(modify.old_price, 10000);
    assert_eq!(modify.new_price, 10100);
    assert_eq!(modify.old_quantity, 100);
    assert_eq!(modify.new_quantity, 60);
}

#[test]
fn test_engine_snapshot() {
    let mut engine = Engine::new();
    engine
        .add_order(req("buyer", Some(9900), 100, Side::Buy, OrderType::Limit, TimeInForce::Gtc), 0)
        .unwrap();
    engine
        .add_order(req("seller", Some(10100), 100, Side::Sell, OrderType::Limit, TimeInForce::Gtc), 0)
        .unwrap();
    let snap = engine.get_snapshot();
    assert_eq!(snap.best_bid, Some(9900));
    assert_eq!(snap.best_ask, Some(10100));
    assert_eq!(snap.spread, Some(200));
    assert_eq!(snap.mid_price, Some(10000));
}

#[test]
fn test_validation_empty_trader_id() {
    let mut engine = Engine::new();
    let r = engine.add_order(req("", Some(10000), 100, Side::Buy, OrderType::Limit, TimeInForce::Gtc), 0);
    assert!(r.is_err());
}

#[test]
fn test_validation_negative_quantity() {
    let mut engine = Engine::new();
    let r = engine.add_order(req("alice", Some(10000), -10, Side::Buy, OrderType::Limit, TimeInForce::Gtc), 0);
    assert!(r.is_err());
}

#[test]
fn test_validation_limit_without_price() {
    let mut engine = Engine::new();
    let r = engine.add_order(req("alice", None, 100, Side::Buy, OrderType::Limit, TimeInForce::Gtc), 0);
    assert!(r.is_err());
}

#[test]
fn test_market_order_through_engine() {
    let mut engine = Engine::new();
    engine
        .add_order(req("seller", Some(10000), 100, Side::Sell, OrderType::Limit, TimeInForce::Gtc), 0)
        .unwrap();
    let resp = engine
        .add_order(req("buyer", None, 40, Side::Buy, OrderType::Market, TimeInForce::Ioc), 0)
        .unwrap();
    assert!(resp.accepted);
    assert_eq!(resp.trades.len(), 1);
    assert_eq!(resp.trades[0].price, 10000);
    assert_eq!(resp.trades[0].quantity, 40);
}

#[test]
fn validation_errors_are_validation() {
    let long = "x".repeat(65);
    let r = validate_order_request(&req(&long, Some(100), 1, Side::Buy, OrderType::Limit, TimeInForce::Gtc));
    assert!(matches!(r, Err(ApiError::Validation(_))));
    let ok = "x".repeat(64);
    assert!(validate_order_request(&req(&ok, Some(100), 1, Side::Buy, OrderType::Limit, TimeInForce::Gtc)).is_ok());
    let r = validate_order_request(&req("a", Some(0), 1, Side::Buy, OrderType::Limit, TimeInForce::Gtc));
    assert!(matches!(r, Err(ApiError::Validation(_))));
    let r = validate_order_request(&req("a", Some(100), 1, Side::Buy, OrderType::Market, TimeInForce::Ioc));
    assert!(matches!(r, Err(ApiError::Validation(_))));
}

#[test]
fn engine_rejections_map_to_errors() {
    let mut engine = Engine::new();
    // fill-or-kill against an empty book
    let r = engine.add_order(req("a", Some(100), 10, Side::Buy, OrderType::Limit, TimeInForce::Fok), 0);
    match r {
        Err(e) => {
            assert_eq!(e.status_code(), 409);
            assert!(matches!(e, ApiError::EngineRejection(_)));
        }
        Ok(_) => panic!("fill-or-kill against an empty book must be refused"),
    }
    // modify of an unknown id
    let r = engine.modify_order(77, ModifyRequest { new_price: 100, new_quantity: 1 });
    assert!(matches!(r, Err(ApiError::NotFound(77))));
    // negative modify price
    let r = engine.modify_order(77, ModifyRequest { new_price: -1, new_quantity: 1 });
    assert!(matches!(r, Err(ApiError::Validation(_))));
}

#[test]
fn modify_crossing_is_engine_rejection() {
    let mut engine = Engine::new();
    engine.add_order(req("s", Some(10500), 10, Side::Sell, OrderType::Limit, TimeInForce::Gtc), 0).unwrap();
    let b = engine.add_order(req("t", Some(10000), 10, Side::Buy, OrderType::Limit, TimeInForce::Gtc), 0).unwrap();
    let r = engine.modify_order(b.order_id, ModifyRequest { new_price: 10500, new_quantity: 10 });
    match r {
        Err(ApiError::EngineRejection(m)) => assert!(m.contains("cross")),
        other => panic!("expected an engine rejection, got {:?}", other),
    }
    assert_eq!(engine.get_snapshot().best_bid, Some(10000));
}

#[test]
fn order_ids_are_allocated_in_sequence() {
    let mut engine = Engine::new();
    let a = engine.add_order(req("a", Some(100), 1, Side::Buy, OrderType::Limit, TimeInForce::Gtc), 0).unwrap();
    let b = engine.add_order(req("a", Some(100), 1, Side::Buy, OrderType::Limit, TimeInForce::Gtc), 0).unwrap();
    assert_eq!(a.order_id, 1);
    assert_eq!(b.order_id, 2);
    assert_eq!(engine.next_order_id(), 3);
}

#[test]
fn error_status_codes_and_messages() {
    assert_eq!(ApiError::Validation("x".into()).status_code(), 400);
    assert_eq!(ApiError::NotFound(5).status_code(), 404);
    assert_eq!(ApiError::EngineRejection("x".into()).status_code(), 409);
    assert_eq!(ApiError::RiskRejection("x".into()).status_code(), 422);
    assert_eq!(ApiError::RateLimited("x".into()).status_code(), 429);
    assert_eq!(ApiError::Internal("x".into()).status_code(), 500);
    assert_eq!(ApiError::NotFound(42).message(), "Order not found: 42");
    assert_eq!(ApiError::NotFound(42).detail(), "Order 42 not found");
    assert_eq!(ApiError::Validation("bad".into()).message(), "Validation error: bad");
}
