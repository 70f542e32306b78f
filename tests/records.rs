use orderflow::audit::{order_accepted, order_cancelled, order_rejected, AuditEvent};
use orderflow::config::{default_host, default_max_order_size, default_port, Config, RiskConfig};
use orderflow::metrics::{record_order_latency, record_order_rejected, record_order_submitted, record_trades, MetricUpdate};

#[test]
fn audit_events_hold_their_fields() {
    match order_accepted(7, 2, 10) {
        AuditEvent::OrderAccepted { order_id, trades_count, remaining_qty } => {
            assert_eq!((order_id, trades_count, remaining_qty), (7, 2, 10))
        }
        other => panic!("unexpected {:?}", other),
    }
    match order_rejected(0, "too big", "risk") {
        AuditEvent::OrderRejected { reason, source, .. } => {
            assert_eq!(reason, "too big");
            assert_eq!(source, "risk");
        }
        other => panic!("unexpected {:?}", other),
    }
    assert!(matches!(order_cancelled(3), AuditEvent::OrderCancelled { order_id: 3 }));
}

#[test]
fn metric_updates_name_their_series() {
    match record_order_submitted("Buy", "Limit") {
        MetricUpdate::Counter { name, labels, increment } => {
            assert_eq!(name, "orderflow_orders_total");
            assert_eq!(increment, 1);
            assert_eq!(labels[2], ("result".to_string(), "submitted".to_string()));
            assert_eq!(labels[0], ("side".to_string(), "Buy".to_string()));
        }
        other => panic!("unexpected {:?}", other),
    }
    match record_order_rejected("risk") {
        MetricUpdate::Counter { name, labels, .. } => {
            assert_eq!(name, "orderflow_risk_rejections_total");
            assert_eq!(labels, vec![("reason".to_string(), "risk".to_string())]);
        }
        other => panic!("unexpected {:?}", other),
    }
    assert!(matches!(record_trades(3), MetricUpdate::Counter { increment: 3, .. }));
    assert!(matches!(record_order_latency(1500), MetricUpdate::Latency { nanos: 1500, .. }));
}

#[test]
fn config_defaults() {
    assert_eq!(default_host(), "0.0.0.0");
    assert_eq!(default_port(), 8080);
    assert_eq!(default_max_order_size(), 100_000);
    let c = Config::default();
    assert_eq!(c.server.port, 8080);
    assert_eq!(c.risk.price_band_bps, 1_000);
    assert_eq!(RiskConfig::default().max_position_per_trader, 1_000_000);
}
