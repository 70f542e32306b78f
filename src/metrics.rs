//! Metric updates: what the pipeline counts and times, as plain values that
//! the application hands to its metrics recorder.
use vstd::prelude::*;
use vstd::string::StringExecFns;

verus! {

/// One update of a named metric.
#[derive(Debug, Clone)]
pub enum MetricUpdate {
    /// Add `increment` to the counter with these labels.
    Counter { name: String, labels: Vec<(String, String)>, increment: u64 },
    /// Record a duration in the histogram, in nanoseconds.
    Latency { name: String, nanos: u64 },
}

/// `r` adds `inc` to counter `name` with exactly the labels `labels`, in order.
pub open spec fn counts(r: MetricUpdate, name: Seq<char>, labels: Seq<(Seq<char>, Seq<char>)>, inc: u64) -> bool {
    match r {
        MetricUpdate::Counter { name: n, labels: l, increment: i } => {
            &&& n@ == name
            &&& i == inc
            &&& l@.len() == labels.len()
            &&& forall|k: int|
                0 <= k < labels.len() ==> (#[trigger] l@[k]).0@ == labels[k].0 && l@[k].1@
                    == labels[k].1
        },
        _ => false,
    }
}

fn label(key: &str, value: &str) -> (r: (String, String))
    ensures
        r.0@ == key@,
        r.1@ == value@,
{
    (String::from_str(key), String::from_str(value))
}

fn orders_counter(side: &str, order_type: &str, result: &str) -> (r: MetricUpdate)
    ensures
        counts(
            r,
            "orderflow_orders_total"@,
            seq![("side"@, side@), ("order_type"@, order_type@), ("result"@, result@)],
            1,
        ),
{
    let mut labels: Vec<(String, String)> = Vec::new();
    labels.push(label("side", side));
    labels.push(label("order_type", order_type));
    labels.push(label("result", result));
    MetricUpdate::Counter { name: String::from_str("orderflow_orders_total"), labels, increment: 1 }
}

pub fn record_order_submitted(side: &str, order_type: &str) -> (r: MetricUpdate)
    ensures
        counts(
            r,
            "orderflow_orders_total"@,
            seq![("side"@, side@), ("order_type"@, order_type@), ("result"@, "submitted"@)],
            1,
        ),
{
    orders_counter(side, order_type, "submitted")
}

pub fn record_order_accepted(side: &str, order_type: &str) -> (r: MetricUpdate)
    ensures
        counts(
            r,
            "orderflow_orders_total"@,
            seq![("side"@, side@), ("order_type"@, order_type@), ("result"@, "accepted"@)],
            1,
        ),
{
    orders_counter(side, order_type, "accepted")
}

pub fn record_order_rejected(reason: &str) -> (r: MetricUpdate)
    ensures
        counts(r, "orderflow_risk_rejections_total"@, seq![("reason"@, reason@)], 1),
{
    let mut labels: Vec<(String, String)> = Vec::new();
    labels.push(label("reason", reason));
    MetricUpdate::Counter {
        name: String::from_str("orderflow_risk_rejections_total"),
        labels,
        increment: 1,
    }
}

pub fn record_trades(count: u64) -> (r: MetricUpdate)
    ensures
        counts(r, "orderflow_trades_total"@, seq![], count),
{
    MetricUpdate::Counter {
        name: String::from_str("orderflow_trades_total"),
        labels: Vec::new(),
        increment: count,
    }
}

/// The time a whole submission took, from its start to now.
pub fn record_order_latency(elapsed_nanos: u64) -> (r: MetricUpdate)
    ensures
        r matches MetricUpdate::Latency { name: n, nanos: t } && n@
            == "orderflow_order_latency_seconds"@ && t == elapsed_nanos,
{
    MetricUpdate::Latency {
        name: String::from_str("orderflow_order_latency_seconds"),
        nanos: elapsed_nanos,
    }
}

/// The time the engine took for one submission.
pub fn record_engine_latency(elapsed_nanos: u64) -> (r: MetricUpdate)
    ensures
        r matches MetricUpdate::Latency { name: n, nanos: t } && n@
            == "orderflow_engine_latency_seconds"@ && t == elapsed_nanos,
{
    MetricUpdate::Latency {
        name: String::from_str("orderflow_engine_latency_seconds"),
        nanos: elapsed_nanos,
    }
}

} // verus!
