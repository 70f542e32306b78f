//! Properties of the book that hold over whole runs, stated over the views
//! that the operations' contracts use, and proved from those contracts.
use vstd::prelude::*;

use crate::book::{
    ahead, cancels, executes, front_consumed, located, modifies, opposite,
    queue_has_id, queue_quantity, queue_wf, resting_id, trades_in_priority, BookView, RestingOrder,
};
use crate::types::{OrderResult, OrderType, Side, StpMode, TimeInForce, traded_quantity};

verus! {

/// No crossed book: in every well-formed book (and each operation of the book
/// keeps it well formed) the best bid is strictly below the best ask whenever
/// both sides hold orders.
pub proof fn no_crossed_book(b: BookView)
    requires
        b.wf(),
    ensures
        b.bids.len() > 0 && b.asks.len() > 0 ==> b.best_bid() < b.best_ask(),
{
}

/// In a well-formed queue an order that stands ahead of another sits before it.
proof fn lemma_ahead_means_before(side: Side, q: Seq<RestingOrder>, n: u64, i: int, j: int)
    requires
        queue_wf(side, q, n),
        0 <= i < q.len(),
        0 <= j < q.len(),
        ahead(side, q[j], q[i]),
    ensures
        j < i,
{
    if i < j {
        assert(ahead(side, q[i], q[j]));
    }
}

/// Price-time priority: when a submission trades against a resting order,
/// every order that stood ahead of that one in its queue (at a better price,
/// or at the same price and arrived earlier) has left the book by the end of
/// the submission. A later arrival never fills before an earlier one.
pub proof fn price_time_priority(
    b0: BookView,
    b1: BookView,
    r: OrderResult,
    trader: Seq<char>,
    id: u64,
    price: Option<i64>,
    quantity: i64,
    side: Side,
    order_type: OrderType,
    tif: TimeInForce,
    stp: StpMode,
    now: i64,
    t: int,
    i: int,
    j: int,
)
    requires
        b0.wf(),
        executes(b0, b1, r, trader, id, price, quantity, side, order_type, tif, stp, now),
        0 <= t < r.trades@.len(),
        0 <= i < b0.queue(opposite(side)).len(),
        b0.queue(opposite(side))[i].id == resting_id(side, r.trades@[t]),
        0 <= j < b0.queue(opposite(side)).len(),
        ahead(opposite(side), b0.queue(opposite(side))[j], b0.queue(opposite(side))[i]),
    ensures
        !queue_has_id(b1.queue(opposite(side)), b0.queue(opposite(side))[j].id),
{
    let opp0 = b0.queue(opposite(side));
    let opp1 = b1.queue(opposite(side));
    lemma_ahead_means_before(opposite(side), opp0, b0.next_seq, i, j);
    let (k, src) = choose|k: int, src: Seq<int>|
        front_consumed(opp0, opp1, k) && #[trigger] trades_in_priority(side, opp0, r.trades@, src, k);
    assert(r.trades@[t] == r.trades@[t]);
    let s = src[t];
    assert(opp0[s].id == opp0[i].id);
    assert(s == i);
    if queue_has_id(opp1, opp0[j].id) {
        let m = choose|m: int| 0 <= m < opp1.len() && #[trigger] opp1[m].id == opp0[j].id;
        if m > 0 {
            assert(opp1[m] == opp0[k + m]);
        }
        assert(opp1[m].id == opp0[k + m].id);
    }
}

/// Price-time priority under modify: lowering the quantity of a resting order
/// at its own price leaves it at the same place in its queue, and every other
/// order where it was.
pub proof fn modify_down_keeps_place(
    b0: BookView,
    b1: BookView,
    id: u64,
    new_quantity: i64,
    old_price: i64,
    old_quantity: i64,
    side: Side,
    pos: int,
)
    requires
        b0.wf(),
        modifies(b0, b1, id, old_price, new_quantity, old_price, old_quantity),
        located(b0, side, pos, id),
        new_quantity < old_quantity,
    ensures
        located(b1, side, pos, id),
        b1.queue(side).len() == b0.queue(side).len(),
        forall|k: int| 0 <= k < b0.queue(side).len() && k != pos ==> #[trigger] b1.queue(side)[k] == b0.queue(side)[k],
        b1.queue(opposite(side)) == b0.queue(opposite(side)),
{
    let (found_side, found_pos) = choose|found_side: Side, found_pos: int| #[trigger] located(b0, found_side, found_pos, id) && ({
        let q0 = b0.queue(found_side);
        let q1 = b1.queue(found_side);
        &&& b1.queue(opposite(found_side)) == b0.queue(opposite(found_side))
        &&& old_price == q0[found_pos].price
        &&& old_quantity == q0[found_pos].quantity
        &&& crate::book::modify_in_place(q0[found_pos], old_price, new_quantity) ==> q1 == q0.update(found_pos, q1[found_pos])
            && crate::book::reduced(q1[found_pos], q0[found_pos]) && q1[found_pos].quantity == new_quantity
        &&& !crate::book::modify_in_place(q0[found_pos], old_price, new_quantity) ==> crate::book::inserted(
            q0.remove(found_pos),
            q1,
            id,
            q0[found_pos].trader_id@,
            old_price,
            new_quantity,
            b0.next_seq,
        )
    });
    if found_side != side {
        assert(queue_has_id(b0.queue(side), id));
        assert(queue_has_id(b0.queue(found_side), id));
        match side {
            Side::Buy => { assert(b0.bids[pos].id != b0.asks[found_pos].id); },
            Side::Sell => { assert(b0.bids[found_pos].id != b0.asks[pos].id); },
        }
    }
    if found_pos != pos {
        assert(b0.queue(side)[found_pos].id != b0.queue(side)[pos].id);
    }
    let q0 = b0.queue(side);
    let q1 = b1.queue(side);
    assert(q1 == q0.update(pos, q1[pos]));
    assert forall|k: int| 0 <= k < q0.len() && k != pos implies #[trigger] q1[k] == q0[k] by {}
}

/// Conservation: what the submitter gave up equals what the trades carried,
/// and no more than it offered or than the opposite side held; without
/// self-trade prevention, what the resting side lost equals it too.
pub proof fn conservation(
    b0: BookView,
    b1: BookView,
    r: OrderResult,
    trader: Seq<char>,
    id: u64,
    price: Option<i64>,
    quantity: i64,
    side: Side,
    order_type: OrderType,
    tif: TimeInForce,
    stp: StpMode,
    now: i64,
)
    requires
        executes(b0, b1, r, trader, id, price, quantity, side, order_type, tif, stp, now),
    ensures
        traded_quantity(r.trades@) <= quantity,
        traded_quantity(r.trades@) <= queue_quantity(b0.queue(opposite(side))),
        !r.stp_result.self_trade ==> quantity - r.remaining_quantity == traded_quantity(r.trades@),
        !r.stp_result.self_trade ==> queue_quantity(b0.queue(opposite(side))) - queue_quantity(
            b1.queue(opposite(side)),
        ) == traded_quantity(r.trades@),
{
}

/// Trade id monotonicity: the trades of one submission carry consecutive,
/// strictly increasing ids, all at or above the book's counter before it and
/// below the counter after it. Cancel and modify leave the counter alone, so
/// ids grow across the whole life of the book.
pub proof fn trade_ids_increase(
    b0: BookView,
    b1: BookView,
    r: OrderResult,
    trader: Seq<char>,
    id: u64,
    price: Option<i64>,
    quantity: i64,
    side: Side,
    order_type: OrderType,
    tif: TimeInForce,
    stp: StpMode,
    now: i64,
)
    requires
        executes(b0, b1, r, trader, id, price, quantity, side, order_type, tif, stp, now),
    ensures
        forall|t: int, u: int|
            0 <= t < u < r.trades@.len() ==> #[trigger] r.trades@[t].trade_id < #[trigger] r.trades@[u].trade_id,
        forall|t: int|
            0 <= t < r.trades@.len() ==> b0.next_trade_id <= #[trigger] r.trades@[t].trade_id
                < b1.next_trade_id,
        b0.next_trade_id <= b1.next_trade_id,
{
}

/// Cancel after fill or cancel: a submission that filled completely leaves no
/// order with its id, and neither does a cancel; so a second cancel of the id
/// finds nothing, which `Engine::cancel_order` answers with `NotFound` and no change.
pub proof fn gone_after_fill_or_cancel(
    b0: BookView,
    b1: BookView,
    b2: BookView,
    r: OrderResult,
    trader: Seq<char>,
    id: u64,
    price: Option<i64>,
    quantity: i64,
    side: Side,
    order_type: OrderType,
    tif: TimeInForce,
    stp: StpMode,
    now: i64,
)
    requires
        executes(b0, b1, r, trader, id, price, quantity, side, order_type, tif, stp, now),
        b1.wf(),
        cancels(b1, b2, id) || b2 == b1,
    ensures
        r.remaining_quantity == 0 ==> !b1.has_id(id),
        cancels(b1, b2, id) ==> !b2.has_id(id),
{
    if cancels(b1, b2, id) {
        let (s, p) = choose|s: Side, p: int|
            #[trigger] located(b1, s, p, id) && b2.queue(s) == b1.queue(s).remove(p)
                && b2.queue(opposite(s)) == b1.queue(opposite(s));
        let q1 = b1.queue(s);
        let q2 = b2.queue(s);
        if queue_has_id(q2, id) {
            let m = choose|m: int| 0 <= m < q2.len() && #[trigger] q2[m].id == id;
            let n = if m < p { m } else { m + 1 };
            assert(q2[m] == q1[n]);
        }
        let o = b1.queue(opposite(s));
        if queue_has_id(o, id) {
            let m = choose|m: int| 0 <= m < o.len() && #[trigger] o[m].id == id;
            match s {
                Side::Buy => { assert(b1.bids[p].id != b1.asks[m].id); },
                Side::Sell => { assert(b1.bids[m].id != b1.asks[p].id); },
            }
        }
    }
}

/// Fill-or-kill atomicity: an accepted fill-or-kill order trades its whole
/// quantity; a refused one trades nothing and leaves the book as it was.
pub proof fn fok_all_or_nothing(
    b0: BookView,
    b1: BookView,
    r: OrderResult,
    trader: Seq<char>,
    id: u64,
    price: Option<i64>,
    quantity: i64,
    side: Side,
    order_type: OrderType,
    stp: StpMode,
    now: i64,
)
    requires
        r.accepted ==> executes(b0, b1, r, trader, id, price, quantity, side, order_type, TimeInForce::Fok, stp, now),
        !r.accepted ==> r.trades@.len() == 0 && b1 == b0,
    ensures
        r.accepted ==> traded_quantity(r.trades@) == quantity && r.remaining_quantity == 0,
        !r.accepted ==> traded_quantity(r.trades@) == 0 && b1 == b0,
{
}

/// Immediate-or-cancel orders never rest: after one, no order with its id is on the book.
pub proof fn ioc_never_rests(
    b0: BookView,
    b1: BookView,
    r: OrderResult,
    trader: Seq<char>,
    id: u64,
    price: Option<i64>,
    quantity: i64,
    side: Side,
    order_type: OrderType,
    stp: StpMode,
    now: i64,
)
    requires
        !b0.has_id(id),
        r.accepted ==> executes(b0, b1, r, trader, id, price, quantity, side, order_type, TimeInForce::Ioc, stp, now),
        !r.accepted ==> b1 == b0,
    ensures
        !b1.has_id(id),
{
}

} // verus!
