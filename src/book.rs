//! The order book: two queues of resting orders in price-time priority, and
//! the matching of incoming orders against them.
//!
//! Each side is held as one queue in match priority: the bid queue by price
//! from high to low, the ask queue from low to high, and orders of one price
//! by arrival. A price level is the run of orders of one price in a queue; its
//! head is the best level. An index maps each resting order id to its side, so
//! that cancel and modify go straight to the right queue.
use std::collections::HashMap;

use vstd::prelude::*;
use vstd::string::StringExecFns;

use crate::types::{OrderResult, OrderType, PriceData, Side, StpMode, StpResult, TimeInForce, Trade, ModifyResult, traded_quantity};

verus! {

broadcast use vstd::std_specs::hash::group_hash_axioms;

/// An order that rests on the book.
#[derive(Debug)]
pub struct RestingOrder {
    pub id: u64,
    pub trader_id: String,
    pub price: i64,
    pub quantity: i64,
    pub arrival_seq: u64,
}

/// What the book holds, as mathematical values.
pub struct BookView {
    pub bids: Seq<RestingOrder>,
    pub asks: Seq<RestingOrder>,
    pub next_trade_id: u64,
    pub next_seq: u64,
    pub last_trade_price: i64,
    pub last_trade_qty: i64,
    pub last_trade_ns: i64,
    /// The side on which each resting order id rests.
    pub index: Map<u64, Side>,
}

pub open spec fn opposite(side: Side) -> Side {
    match side {
        Side::Buy => Side::Sell,
        Side::Sell => Side::Buy,
    }
}

/// Price `a` is strictly better than price `b` for orders resting on `side`.
pub open spec fn better_price(side: Side, a: int, b: int) -> bool {
    match side {
        Side::Buy => a > b,
        Side::Sell => a < b,
    }
}

/// `a` stands ahead of `b` in the queue of `side`: a better price, or the same price and an earlier arrival.
pub open spec fn ahead(side: Side, a: RestingOrder, b: RestingOrder) -> bool {
    better_price(side, a.price as int, b.price as int) || (a.price == b.price && a.arrival_seq
        < b.arrival_seq)
}

/// A queue of one side: positive prices and quantities, arrivals before `next_seq`,
/// strictly ordered by price-time priority, distinct ids.
pub open spec fn queue_wf(side: Side, q: Seq<RestingOrder>, next_seq: u64) -> bool {
    &&& forall|i: int|
        #![trigger q[i]]
        0 <= i < q.len() ==> q[i].price > 0 && q[i].quantity > 0 && q[i].arrival_seq < next_seq
    &&& forall|i: int, j: int| 0 <= i < j < q.len() ==> ahead(side, #[trigger] q[i], #[trigger] q[j])
    &&& forall|i: int, j: int|
        0 <= i < q.len() && 0 <= j < q.len() && i != j ==> #[trigger] q[i].id != #[trigger] q[j].id
}

pub open spec fn queue_has_id(q: Seq<RestingOrder>, id: u64) -> bool {
    exists|i: int| 0 <= i < q.len() && #[trigger] q[i].id == id
}

/// The sum of the quantities in a queue.
pub open spec fn queue_quantity(q: Seq<RestingOrder>) -> int
    decreases q.len(),
{
    if q.len() == 0 {
        0
    } else {
        q[0].quantity + queue_quantity(q.drop_first())
    }
}

impl BookView {
    pub open spec fn queue(self, side: Side) -> Seq<RestingOrder> {
        match side {
            Side::Buy => self.bids,
            Side::Sell => self.asks,
        }
    }

    pub open spec fn has_id(self, id: u64) -> bool {
        queue_has_id(self.bids, id) || queue_has_id(self.asks, id)
    }

    /// Both queues are well formed, no id rests on both sides, and the book is not crossed.
    pub open spec fn wf(self) -> bool {
        &&& queue_wf(Side::Buy, self.bids, self.next_seq)
        &&& queue_wf(Side::Sell, self.asks, self.next_seq)
        &&& forall|i: int, j: int|
            0 <= i < self.bids.len() && 0 <= j < self.asks.len() ==> #[trigger] self.bids[i].id
                != #[trigger] self.asks[j].id
        &&& self.bids.len() > 0 && self.asks.len() > 0 ==> self.bids[0].price < self.asks[0].price
        &&& self.index_wf()
    }

    /// The index holds exactly the resting ids, each with the side it rests on.
    pub open spec fn index_wf(self) -> bool {
        &&& forall|id: u64| #[trigger]
            self.index.contains_key(id) ==> queue_has_id(self.queue(self.index[id]), id)
        &&& forall|i: int|
            #![trigger self.bids[i]]
            0 <= i < self.bids.len() ==> self.index.contains_key(self.bids[i].id)
                && self.index[self.bids[i].id] == Side::Buy
        &&& forall|i: int|
            #![trigger self.asks[i]]
            0 <= i < self.asks.len() ==> self.index.contains_key(self.asks[i].id)
                && self.index[self.asks[i].id] == Side::Sell
    }

    /// Room for the trade ids and arrival numbers that one more submission may use.
    pub open spec fn has_capacity(self) -> bool {
        &&& self.next_trade_id as int + self.bids.len() + self.asks.len() + 1 <= u64::MAX
        &&& self.next_seq < u64::MAX
    }

    /// Trade ids issued plus orders resting: one submission adds at most two.
    pub open spec fn load(self) -> int {
        self.next_trade_id as int + self.bids.len() + self.asks.len()
    }

    pub open spec fn best_bid(self) -> int {
        if self.bids.len() > 0 {
            self.bids[0].price as int
        } else {
            0
        }
    }

    pub open spec fn best_ask(self) -> int {
        if self.asks.len() > 0 {
            self.asks[0].price as int
        } else {
            0
        }
    }
}

/// A resting order at `price` is marketable for an incoming order of `side`.
pub open spec fn crosses(side: Side, order_type: OrderType, limit: i64, price: i64) -> bool {
    match order_type {
        OrderType::Market => true,
        OrderType::Limit => match side {
            Side::Buy => price <= limit,
            Side::Sell => price >= limit,
        },
    }
}

/// The incoming order could be filled in full, by trades alone, from the front
/// of the opposite queue `opp`. A resting order of the same trader under a mode
/// other than `Allow` either is cancelled and passed over (`CancelOldest`) or
/// stops the incoming order short of a fill.
pub open spec fn fok_fillable(
    opp: Seq<RestingOrder>,
    side: Side,
    order_type: OrderType,
    limit: i64,
    trader: Seq<char>,
    stp: StpMode,
    need: int,
) -> bool
    decreases opp.len(),
{
    if need <= 0 {
        true
    } else if opp.len() == 0 || !crosses(side, order_type, limit, opp[0].price) {
        false
    } else if opp[0].trader_id@ == trader && stp != StpMode::Allow {
        stp == StpMode::CancelOldest && fok_fillable(
            opp.drop_first(),
            side,
            order_type,
            limit,
            trader,
            stp,
            need,
        )
    } else {
        fok_fillable(opp.drop_first(), side, order_type, limit, trader, stp, need - opp[0].quantity)
    }
}

/// The order id that a trade gives to the resting side, for an incoming order of `side`.
pub open spec fn resting_id(side: Side, t: Trade) -> u64 {
    match side {
        Side::Buy => t.sell_order_id,
        Side::Sell => t.buy_order_id,
    }
}

/// The order id that a trade gives to the incoming side.
pub open spec fn incoming_id(side: Side, t: Trade) -> u64 {
    match side {
        Side::Buy => t.buy_order_id,
        Side::Sell => t.sell_order_id,
    }
}

/// `a` is `b` with its quantity reduced (or kept).
pub open spec fn reduced(a: RestingOrder, b: RestingOrder) -> bool {
    &&& a.id == b.id
    &&& a.trader_id == b.trader_id
    &&& a.price == b.price
    &&& a.arrival_seq == b.arrival_seq
    &&& 0 < a.quantity <= b.quantity
}

/// `after` is `before` with its first `k` orders gone and the next one possibly reduced.
pub open spec fn front_consumed(before: Seq<RestingOrder>, after: Seq<RestingOrder>, k: int) -> bool {
    &&& 0 <= k <= before.len()
    &&& after.len() == before.len() - k
    &&& forall|i: int| 1 <= i < after.len() ==> #[trigger] after[i] == before[k + i]
    &&& after.len() > 0 ==> reduced(after[0], before[k])
}

/// Each trade went against the order at position `src[t]` of the opposite queue
/// as it stood before, at that order's price, and the positions never go back:
/// orders were met strictly in price-time priority.
pub open spec fn trades_in_priority(
    side: Side,
    before: Seq<RestingOrder>,
    trades: Seq<Trade>,
    src: Seq<int>,
    k: int,
) -> bool {
    &&& src.len() == trades.len()
    &&& forall|t: int|
        #![trigger src[t]]
        0 <= t < trades.len() ==> {
            &&& 0 <= src[t]
            &&& src[t] <= k
            &&& src[t] < before.len()
            &&& resting_id(side, trades[t]) == before[src[t]].id
            &&& trades[t].price == before[src[t]].price
        }
    &&& forall|t: int, u: int| 0 <= t < u < trades.len() ==> #[trigger] src[t] <= #[trigger] src[u]
}

/// Trades numbered from `first` on, one by one, each with a positive quantity,
/// the incoming order's id on its side, a marketable price, and the given time.
pub open spec fn trades_well_numbered(
    trades: Seq<Trade>,
    first: int,
    id: u64,
    side: Side,
    order_type: OrderType,
    limit: i64,
    now: i64,
) -> bool {
    forall|t: int|
        #![trigger trades[t]]
        0 <= t < trades.len() ==> trades[t].trade_id == first + t && trades[t].quantity > 0
            && incoming_id(side, trades[t]) == id && crosses(side, order_type, limit, trades[t].price)
            && trades[t].timestamp_ns == now
}

/// The spelling of a self-trade-prevention mode on the wire.
pub open spec fn stp_name(m: StpMode) -> Seq<char> {
    match m {
        StpMode::Allow => "ALLOW"@,
        StpMode::CancelNewest => "CANCEL_NEWEST"@,
        StpMode::CancelOldest => "CANCEL_OLDEST"@,
        StpMode::CancelBoth => "CANCEL_BOTH"@,
        StpMode::DecrementAndCancel => "DECREMENT_AND_CANCEL"@,
    }
}

/// An order arriving at the book is well formed: a positive quantity, and a
/// positive price where it is a limit order.
pub open spec fn order_is_valid(price: Option<i64>, quantity: i64, order_type: OrderType) -> bool {
    &&& quantity > 0
    &&& order_type == OrderType::Limit ==> (price is Some && price->0 > 0)
}

/// The price limit that an order matches against (none for a market order).
pub open spec fn limit_of(price: Option<i64>) -> i64 {
    match price {
        Some(p) => p,
        None => 0,
    }
}

pub fn stp_mode_name(m: StpMode) -> (r: String)
    ensures
        r@ == stp_name(m),
{
    match m {
        StpMode::Allow => String::from_str("ALLOW"),
        StpMode::CancelNewest => String::from_str("CANCEL_NEWEST"),
        StpMode::CancelOldest => String::from_str("CANCEL_OLDEST"),
        StpMode::CancelBoth => String::from_str("CANCEL_BOTH"),
        StpMode::DecrementAndCancel => String::from_str("DECREMENT_AND_CANCEL"),
    }
}

fn crosses_exec(side: Side, order_type: OrderType, limit: i64, price: i64) -> (r: bool)
    ensures
        r == crosses(side, order_type, limit, price),
{
    match order_type {
        OrderType::Market => true,
        OrderType::Limit => match side {
            Side::Buy => price <= limit,
            Side::Sell => price >= limit,
        },
    }
}

fn find_index(q: &Vec<RestingOrder>, id: u64) -> (r: Option<usize>)
    ensures
        match r {
            Some(i) => i < q@.len() && q@[i as int].id == id,
            None => !queue_has_id(q@, id),
        },
{
    let mut i: usize = 0;
    while i < q.len()
        invariant
            i <= q@.len(),
            forall|j: int| 0 <= j < i ==> #[trigger] q@[j].id != id,
        decreases q@.len() - i,
    {
        if q[i].id == id {
            return Some(i);
        }
        i = i + 1;
    }
    None
}

/// The position in the queue of `side` at which a new order of `price` goes:
/// behind every order whose price is as good or better.
fn insert_position(q: &Vec<RestingOrder>, side: Side, price: i64) -> (r: usize)
    ensures
        r <= q@.len(),
        forall|j: int| 0 <= j < r ==> !better_price(side, price as int, #[trigger] q@[j].price as int),
        r < q@.len() ==> better_price(side, price as int, q@[r as int].price as int),
{
    let mut i: usize = 0;
    while i < q.len()
        invariant
            i <= q@.len(),
            forall|j: int|
                0 <= j < i ==> !better_price(side, price as int, #[trigger] q@[j].price as int),
        decreases q@.len() - i,
    {
        let better = match side {
            Side::Buy => price > q[i].price,
            Side::Sell => price < q[i].price,
        };
        if better {
            return i;
        }
        i = i + 1;
    }
    i
}

proof fn lemma_ahead_prices(side: Side, q: Seq<RestingOrder>, next_seq: u64, i: int, j: int)
    requires
        queue_wf(side, q, next_seq),
        0 <= i <= j < q.len(),
    ensures
        !better_price(side, q[j].price as int, q[i].price as int),
{
    if i < j {
        assert(ahead(side, q[i], q[j]));
    }
}

/// Placing a new order at `insert_position` keeps the queue in price-time priority.
proof fn lemma_insert_keeps_queue(
    side: Side,
    q: Seq<RestingOrder>,
    next_seq: u64,
    pos: int,
    o: RestingOrder,
)
    requires
        queue_wf(side, q, next_seq),
        0 <= pos <= q.len(),
        forall|j: int| 0 <= j < pos ==> !better_price(side, o.price as int, #[trigger] q[j].price as int),
        pos < q.len() ==> better_price(side, o.price as int, q[pos].price as int),
        o.arrival_seq == next_seq,
        next_seq < u64::MAX,
        o.price > 0,
        o.quantity > 0,
        !queue_has_id(q, o.id),
    ensures
        queue_wf(side, q.insert(pos, o), (next_seq + 1) as u64),
{
    let r = q.insert(pos, o);
    let n = (next_seq + 1) as u64;
    assert forall|i: int, j: int| 0 <= i < j < r.len() implies ahead(side, #[trigger] r[i], #[trigger] r[j]) by {
        if j < pos {
            assert(r[i] == q[i] && r[j] == q[j]);
        } else if j == pos {
            assert(r[i] == q[i]);
        } else if i == pos {
            assert(r[j] == q[j - 1]);
            lemma_ahead_prices(side, q, next_seq, pos, j - 1);
        } else if i < pos {
            assert(r[i] == q[i] && r[j] == q[j - 1]);
        } else {
            assert(r[i] == q[i - 1] && r[j] == q[j - 1]);
        }
    }
    assert forall|i: int, j: int|
        0 <= i < r.len() && 0 <= j < r.len() && i != j implies #[trigger] r[i].id != #[trigger] r[j].id by {
        if i != pos && j != pos {
            let qi = if i < pos { i } else { i - 1 };
            let qj = if j < pos { j } else { j - 1 };
            assert(r[i] == q[qi] && r[j] == q[qj]);
        } else if i == pos {
            let qj = if j < pos { j } else { j - 1 };
            assert(r[j] == q[qj]);
        } else {
            let qi = if i < pos { i } else { i - 1 };
            assert(r[i] == q[qi]);
        }
    }
    assert forall|i: int| 0 <= i < r.len() implies #[trigger] r[i].price > 0 && r[i].quantity > 0
        && r[i].arrival_seq < n by {
        if i < pos {
            assert(r[i] == q[i]);
        } else if i > pos {
            assert(r[i] == q[i - 1]);
        }
    }
}

/// Taking an order out of a queue keeps it well formed.
proof fn lemma_remove_keeps_queue(side: Side, q: Seq<RestingOrder>, next_seq: u64, pos: int)
    requires
        queue_wf(side, q, next_seq),
        0 <= pos < q.len(),
    ensures
        queue_wf(side, q.remove(pos), next_seq),
        forall|j: int| 0 <= j < q.remove(pos).len() ==> #[trigger] q.remove(pos)[j] == q[if j < pos { j } else { j + 1 }],
{
    let r = q.remove(pos);
    assert forall|j: int| 0 <= j < r.len() implies #[trigger] r[j] == q[if j < pos { j } else { j + 1 }] by {}
    assert forall|i: int, j: int| 0 <= i < j < r.len() implies ahead(side, #[trigger] r[i], #[trigger] r[j]) by {
        let qi = if i < pos { i } else { i + 1 };
        let qj = if j < pos { j } else { j + 1 };
        assert(r[i] == q[qi] && r[j] == q[qj]);
    }
    assert forall|i: int, j: int|
        0 <= i < r.len() && 0 <= j < r.len() && i != j implies #[trigger] r[i].id != #[trigger] r[j].id by {
        let qi = if i < pos { i } else { i + 1 };
        let qj = if j < pos { j } else { j + 1 };
        assert(r[i] == q[qi] && r[j] == q[qj]);
    }
}


proof fn lemma_queue_wf_bump(side: Side, q: Seq<RestingOrder>, n: u64, m: u64)
    requires
        queue_wf(side, q, n),
        n <= m,
    ensures
        queue_wf(side, q, m),
{
}

/// Lowering the quantity of the first order keeps a queue well formed.
proof fn lemma_reduce_head_keeps_queue(side: Side, q: Seq<RestingOrder>, n: u64, r: RestingOrder)
    requires
        queue_wf(side, q, n),
        q.len() > 0,
        reduced(r, q[0]),
    ensures
        queue_wf(side, q.update(0, r), n),
{
    let u = q.update(0, r);
    assert forall|i: int, j: int| 0 <= i < j < u.len() implies ahead(side, #[trigger] u[i], #[trigger] u[j]) by {
        assert(ahead(side, q[i], q[j]));
    }
    assert forall|i: int, j: int|
        0 <= i < u.len() && 0 <= j < u.len() && i != j implies #[trigger] u[i].id != #[trigger] u[j].id by {
        assert(q[i].id != q[j].id);
    }
}

/// Lowering the quantity of any one order keeps a queue well formed.
proof fn lemma_reduce_at_keeps_queue(side: Side, q: Seq<RestingOrder>, n: u64, pos: int, r: RestingOrder)
    requires
        queue_wf(side, q, n),
        0 <= pos < q.len(),
        reduced(r, q[pos]),
    ensures
        queue_wf(side, q.update(pos, r), n),
        forall|j: int| 0 <= j < q.len() ==> (#[trigger] q.update(pos, r)[j]).id == q[j].id
            && q.update(pos, r)[j].price == q[j].price,
{
    let u = q.update(pos, r);
    assert forall|i: int, j: int| 0 <= i < j < u.len() implies ahead(side, #[trigger] u[i], #[trigger] u[j]) by {
        assert(ahead(side, q[i], q[j]));
    }
    assert forall|i: int, j: int|
        0 <= i < u.len() && 0 <= j < u.len() && i != j implies #[trigger] u[i].id != #[trigger] u[j].id by {
        assert(q[i].id != q[j].id);
    }
}

proof fn lemma_traded_push(trades: Seq<Trade>, t: Trade)
    ensures
        traded_quantity(trades.push(t)) == traded_quantity(trades) + t.quantity,
{
    assert(trades.push(t).drop_last() =~= trades);
}

proof fn lemma_queue_quantity_head(q: Seq<RestingOrder>, r: RestingOrder)
    requires
        q.len() > 0,
    ensures
        queue_quantity(q.update(0, r)) == queue_quantity(q) - q[0].quantity + r.quantity,
        queue_quantity(q) == q[0].quantity + queue_quantity(q.remove(0)),
{
    assert(q.update(0, r).drop_first() =~= q.drop_first());
    assert(q.remove(0) =~= q.drop_first());
}

proof fn lemma_queue_quantity_nonneg(side: Side, q: Seq<RestingOrder>, n: u64)
    requires
        queue_wf(side, q, n),
    ensures
        queue_quantity(q) >= 0,
    decreases q.len(),
{
    if q.len() > 0 {
        let d = q.drop_first();
        assert forall|i: int, j: int| 0 <= i < j < d.len() implies ahead(side, #[trigger] d[i], #[trigger] d[j]) by {
            assert(d[i] == q[i + 1] && d[j] == q[j + 1]);
        }
        assert forall|i: int, j: int|
            0 <= i < d.len() && 0 <= j < d.len() && i != j implies #[trigger] d[i].id != #[trigger] d[j].id by {
            assert(d[i] == q[i + 1] && d[j] == q[j + 1]);
        }
        assert forall|i: int| 0 <= i < d.len() implies #[trigger] d[i].price > 0 && d[i].quantity > 0
            && d[i].arrival_seq < n by {
            assert(d[i] == q[i + 1]);
        }
        lemma_queue_quantity_nonneg(side, d, n);
    }
}

fn fok_check(
    q: &Vec<RestingOrder>,
    side: Side,
    order_type: OrderType,
    limit: i64,
    trader: &String,
    stp: StpMode,
    quantity: i64,
) -> (r: bool)
    requires
        queue_wf(opposite(side), q@, u64::MAX),
    ensures
        r == fok_fillable(q@, side, order_type, limit, trader@, stp, quantity as int),
{
    let mut need: i64 = quantity;
    let mut i: usize = 0;
    assert(q@.subrange(0, q@.len() as int) =~= q@);
    while i < q.len()
        invariant
            i <= q@.len(),
            need <= quantity,
            queue_wf(opposite(side), q@, u64::MAX),
            fok_fillable(q@.subrange(i as int, q@.len() as int), side, order_type, limit, trader@, stp, need as int)
                == fok_fillable(q@, side, order_type, limit, trader@, stp, quantity as int),
        decreases q@.len() - i,
    {
        let ghost rest = q@.subrange(i as int, q@.len() as int);
        assert(rest.drop_first() =~= q@.subrange(i + 1, q@.len() as int));
        assert(rest[0] == q@[i as int]);
        if need <= 0 {
            return true;
        }
        if !crosses_exec(side, order_type, limit, q[i].price) {
            return false;
        }
        if q[i].trader_id == *trader && stp != StpMode::Allow {
            if stp != StpMode::CancelOldest {
                return false;
            }
        } else {
            assert(q@[i as int].quantity > 0);
            need = need - q[i].quantity;
        }
        i = i + 1;
    }
    assert(q@.subrange(i as int, q@.len() as int).len() == 0);
    need <= 0
}


proof fn lemma_trade_in_priority(
    side: Side,
    before: Seq<RestingOrder>,
    trades: Seq<Trade>,
    src: Seq<int>,
    k: int,
    nt: Trade,
)
    requires
        trades_in_priority(side, before, trades, src, k),
        0 <= k < before.len(),
        resting_id(side, nt) == before[k].id,
        nt.price == before[k].price,
    ensures
        trades_in_priority(side, before, trades.push(nt), src.push(k), k),
{
    let tr = trades.push(nt);
    let sr = src.push(k);
    assert forall|a: int| 0 <= a < tr.len() implies {
        &&& 0 <= #[trigger] sr[a]
        &&& sr[a] <= k
        &&& sr[a] < before.len()
        &&& resting_id(side, tr[a]) == before[sr[a]].id
        &&& tr[a].price == before[sr[a]].price
    } by {
        if a < trades.len() {
            assert(tr[a] == trades[a]);
            assert(sr[a] == src[a]);
        }
    }
    assert forall|a: int, b: int| 0 <= a < b < tr.len() implies #[trigger] sr[a] <= #[trigger] sr[b] by {
        if b < trades.len() {
            assert(sr[a] == src[a] && sr[b] == src[b]);
        } else {
            assert(sr[a] == src[a]);
            assert(tr[a] == trades[a]);
        }
    }
}

/// After matching, the index without the ids taken off the opposite queue
/// still holds exactly the resting ids.
proof fn lemma_index_after_match(b0: BookView, b1: BookView, side: Side, k: int, removed: Seq<u64>)
    requires
        b0.wf(),
        b1.queue(side) == b0.queue(side),
        front_consumed(b0.queue(opposite(side)), b1.queue(opposite(side)), k),
        removed.len() == k,
        forall|i: int| 0 <= i < k ==> #[trigger] removed[i] == b0.queue(opposite(side))[i].id,
        forall|x: u64| #[trigger] b1.index.contains_key(x) == (b0.index.contains_key(x) && !removed.contains(x)),
        forall|x: u64| #[trigger] b1.index.contains_key(x) ==> b1.index[x] == b0.index[x],
    ensures
        b1.index_wf(),
{
    let opp0 = b0.queue(opposite(side));
    let opp1 = b1.queue(opposite(side));
    let own = b0.queue(side);
    lemma_front_ids(opp0, opp1, k);
    assert forall|x: u64| #[trigger] b1.index.contains_key(x) implies queue_has_id(b1.queue(b1.index[x]), x) by {
        let s = b0.index[x];
        assert(queue_has_id(b0.queue(s), x));
        if s == opposite(side) {
            let n = choose|n: int| 0 <= n < opp0.len() && #[trigger] opp0[n].id == x;
            if n < k {
                assert(removed[n] == x);
            } else {
                assert(opp1[n - k].id == x);
            }
        } else {
            assert(s == side);
        }
    }
    assert forall|j: int| 0 <= j < opp1.len() implies b1.index.contains_key(#[trigger] opp1[j].id)
        && b1.index[opp1[j].id] == opposite(side) by {
        assert(opp1[j].id == opp0[k + j].id);
        if removed.contains(opp1[j].id) {
            let n = choose|n: int| 0 <= n < removed.len() && removed[n] == opp1[j].id;
            assert(removed[n] == opp0[n].id);
            assert(opp0[n].id != opp0[k + j].id);
        }
        match side {
            Side::Buy => { assert(b0.asks[k + j] == opp0[k + j]); },
            Side::Sell => { assert(b0.bids[k + j] == opp0[k + j]); },
        }
        assert(!removed.contains(opp1[j].id));
        assert(b0.index.contains_key(opp1[j].id));
        assert(b1.index.contains_key(opp1[j].id));
        assert(b1.index[opp1[j].id] == opposite(side));
    }
    assert forall|j: int| 0 <= j < own.len() implies b1.index.contains_key(#[trigger] own[j].id)
        && b1.index[own[j].id] == side by {
        if removed.contains(own[j].id) {
            let n = choose|n: int| 0 <= n < removed.len() && removed[n] == own[j].id;
            assert(removed[n] == opp0[n].id);
            match side {
                Side::Buy => { assert(b0.bids[j].id != b0.asks[n].id); },
                Side::Sell => { assert(b0.bids[n].id != b0.asks[j].id); },
            }
        }
        match side {
            Side::Buy => { assert(b0.bids[j] == own[j]); },
            Side::Sell => { assert(b0.asks[j] == own[j]); },
        }
        assert(!removed.contains(own[j].id));
        assert(b0.index.contains_key(own[j].id));
        assert(b1.index.contains_key(own[j].id));
        assert(b1.index[own[j].id] == side);
    }
    match side {
        Side::Buy => {
            assert forall|j: int| 0 <= j < b1.asks.len() implies b1.index.contains_key(#[trigger] b1.asks[j].id)
                && b1.index[b1.asks[j].id] == Side::Sell by { assert(b1.asks[j] == opp1[j]); }
            assert forall|j: int| 0 <= j < b1.bids.len() implies b1.index.contains_key(#[trigger] b1.bids[j].id)
                && b1.index[b1.bids[j].id] == Side::Buy by { assert(b1.bids[j] == own[j]); }
        },
        Side::Sell => {
            assert forall|j: int| 0 <= j < b1.bids.len() implies b1.index.contains_key(#[trigger] b1.bids[j].id)
                && b1.index[b1.bids[j].id] == Side::Buy by { assert(b1.bids[j] == opp1[j]); }
            assert forall|j: int| 0 <= j < b1.asks.len() implies b1.index.contains_key(#[trigger] b1.asks[j].id)
                && b1.index[b1.asks[j].id] == Side::Sell by { assert(b1.asks[j] == own[j]); }
        },
    }
}

/// Inserting an order and indexing it under its side keeps the index exact.
proof fn lemma_index_after_insert(b0: BookView, b1: BookView, side: Side, p: int, o: RestingOrder)
    requires
        b0.wf(),
        !b0.has_id(o.id),
        0 <= p <= b0.queue(side).len(),
        b1.queue(side) == b0.queue(side).insert(p, o),
        b1.queue(opposite(side)) == b0.queue(opposite(side)),
        b1.index == b0.index.insert(o.id, side),
    ensures
        b1.index_wf(),
{
    let own0 = b0.queue(side);
    let own = b1.queue(side);
    let opq = b0.queue(opposite(side));
    assert(own[p] == o);
    assert forall|j: int| 0 <= j < own.len() implies b1.index.contains_key(#[trigger] own[j].id)
        && b1.index[own[j].id] == side by {
        if j != p {
            let n = if j < p { j } else { j - 1 };
            assert(own[j] == own0[n]);
            match side {
                Side::Buy => { assert(b0.bids[n] == own0[n]); },
                Side::Sell => { assert(b0.asks[n] == own0[n]); },
            }
            assert(own0[n].id != o.id);
        }
    }
    assert forall|j: int| 0 <= j < opq.len() implies b1.index.contains_key(#[trigger] opq[j].id)
        && b1.index[opq[j].id] == opposite(side) by {
        match side {
            Side::Buy => { assert(b0.asks[j] == opq[j]); },
            Side::Sell => { assert(b0.bids[j] == opq[j]); },
        }
        assert(opq[j].id != o.id);
    }
    assert forall|x: u64| #[trigger] b1.index.contains_key(x) implies queue_has_id(b1.queue(b1.index[x]), x) by {
        if x != o.id {
            let sx = b0.index[x];
            assert(queue_has_id(b0.queue(sx), x));
            if sx == side {
                let n = choose|n: int| 0 <= n < own0.len() && #[trigger] own0[n].id == x;
                let j = if n < p { n } else { n + 1 };
                assert(own[j] == own0[n]);
            }
        }
    }
    match side {
        Side::Buy => {
            assert forall|j: int| 0 <= j < b1.bids.len() implies b1.index.contains_key(#[trigger] b1.bids[j].id)
                && b1.index[b1.bids[j].id] == Side::Buy by { assert(b1.bids[j] == own[j]); }
            assert forall|j: int| 0 <= j < b1.asks.len() implies b1.index.contains_key(#[trigger] b1.asks[j].id)
                && b1.index[b1.asks[j].id] == Side::Sell by { assert(b1.asks[j] == opq[j]); }
        },
        Side::Sell => {
            assert forall|j: int| 0 <= j < b1.asks.len() implies b1.index.contains_key(#[trigger] b1.asks[j].id)
                && b1.index[b1.asks[j].id] == Side::Sell by { assert(b1.asks[j] == own[j]); }
            assert forall|j: int| 0 <= j < b1.bids.len() implies b1.index.contains_key(#[trigger] b1.bids[j].id)
                && b1.index[b1.bids[j].id] == Side::Buy by { assert(b1.bids[j] == opq[j]); }
        },
    }
}

/// Taking an order off its queue and out of the index keeps the index exact.
proof fn lemma_index_after_remove(b0: BookView, b1: BookView, side: Side, p: int)
    requires
        b0.wf(),
        0 <= p < b0.queue(side).len(),
        b1.queue(side) == b0.queue(side).remove(p),
        b1.queue(opposite(side)) == b0.queue(opposite(side)),
        b1.index == b0.index.remove(b0.queue(side)[p].id),
    ensures
        b1.index_wf(),
{
    let own0 = b0.queue(side);
    let own = b1.queue(side);
    let opq = b0.queue(opposite(side));
    let gone = own0[p].id;
    assert forall|j: int| 0 <= j < own.len() implies b1.index.contains_key(#[trigger] own[j].id)
        && b1.index[own[j].id] == side by {
        let n = if j < p { j } else { j + 1 };
        assert(own[j] == own0[n]);
        match side {
            Side::Buy => { assert(b0.bids[n] == own0[n]); },
            Side::Sell => { assert(b0.asks[n] == own0[n]); },
        }
        assert(own0[n].id != gone);
    }
    assert forall|j: int| 0 <= j < opq.len() implies b1.index.contains_key(#[trigger] opq[j].id)
        && b1.index[opq[j].id] == opposite(side) by {
        match side {
            Side::Buy => { assert(b0.asks[j] == opq[j]); assert(b0.bids[p].id != b0.asks[j].id); },
            Side::Sell => { assert(b0.bids[j] == opq[j]); assert(b0.bids[j].id != b0.asks[p].id); },
        }
    }
    assert forall|x: u64| #[trigger] b1.index.contains_key(x) implies queue_has_id(b1.queue(b1.index[x]), x) by {
        let sx = b0.index[x];
        assert(queue_has_id(b0.queue(sx), x));
        if sx == side {
            let n = choose|n: int| 0 <= n < own0.len() && #[trigger] own0[n].id == x;
            assert(n != p);
            let j = if n < p { n } else { n - 1 };
            assert(own[j] == own0[n]);
        }
    }
    match side {
        Side::Buy => {
            assert forall|j: int| 0 <= j < b1.bids.len() implies b1.index.contains_key(#[trigger] b1.bids[j].id)
                && b1.index[b1.bids[j].id] == Side::Buy by { assert(b1.bids[j] == own[j]); }
            assert forall|j: int| 0 <= j < b1.asks.len() implies b1.index.contains_key(#[trigger] b1.asks[j].id)
                && b1.index[b1.asks[j].id] == Side::Sell by { assert(b1.asks[j] == opq[j]); }
        },
        Side::Sell => {
            assert forall|j: int| 0 <= j < b1.asks.len() implies b1.index.contains_key(#[trigger] b1.asks[j].id)
                && b1.index[b1.asks[j].id] == Side::Sell by { assert(b1.asks[j] == own[j]); }
            assert forall|j: int| 0 <= j < b1.bids.len() implies b1.index.contains_key(#[trigger] b1.bids[j].id)
                && b1.index[b1.bids[j].id] == Side::Buy by { assert(b1.bids[j] == opq[j]); }
        },
    }
}

/// Changing an order in place, keeping its id, keeps the index exact.
proof fn lemma_index_after_update(b0: BookView, b1: BookView, side: Side, p: int, o: RestingOrder)
    requires
        b0.wf(),
        0 <= p < b0.queue(side).len(),
        o.id == b0.queue(side)[p].id,
        b1.queue(side) == b0.queue(side).update(p, o),
        b1.queue(opposite(side)) == b0.queue(opposite(side)),
        b1.index == b0.index,
    ensures
        b1.index_wf(),
{
    let own0 = b0.queue(side);
    let own = b1.queue(side);
    let opq = b0.queue(opposite(side));
    assert forall|x: u64| #[trigger] b1.index.contains_key(x) implies queue_has_id(b1.queue(b1.index[x]), x) by {
        let sx = b0.index[x];
        assert(queue_has_id(b0.queue(sx), x));
        if sx == side {
            let n = choose|n: int| 0 <= n < own0.len() && #[trigger] own0[n].id == x;
            assert(own[n].id == x);
        }
    }
    match side {
        Side::Buy => {
            assert forall|j: int| 0 <= j < b1.bids.len() implies b1.index.contains_key(#[trigger] b1.bids[j].id)
                && b1.index[b1.bids[j].id] == Side::Buy by { assert(b1.bids[j].id == b0.bids[j].id); }
            assert forall|j: int| 0 <= j < b1.asks.len() implies b1.index.contains_key(#[trigger] b1.asks[j].id)
                && b1.index[b1.asks[j].id] == Side::Sell by { assert(b1.asks[j] == b0.asks[j]); }
        },
        Side::Sell => {
            assert forall|j: int| 0 <= j < b1.asks.len() implies b1.index.contains_key(#[trigger] b1.asks[j].id)
                && b1.index[b1.asks[j].id] == Side::Sell by { assert(b1.asks[j].id == b0.asks[j].id); }
            assert forall|j: int| 0 <= j < b1.bids.len() implies b1.index.contains_key(#[trigger] b1.bids[j].id)
                && b1.index[b1.bids[j].id] == Side::Buy by { assert(b1.bids[j] == b0.bids[j]); }
        },
    }
}

/// The resting order `o` is one that self-trade prevention takes off the book
/// without a trade: the incoming trader's own, under a mode that cancels it.
pub open spec fn stp_cancels_resting(trader: Seq<char>, stp: StpMode, o: RestingOrder) -> bool {
    &&& o.trader_id@ == trader
    &&& (stp == StpMode::CancelOldest || stp == StpMode::CancelBoth || stp
        == StpMode::DecrementAndCancel)
}

/// No trade cites position `j` of the opposite queue.
pub open spec fn uncited(trades: Seq<Trade>, src: Seq<int>, j: int) -> bool {
    forall|t: int| 0 <= t < trades.len() ==> src[t] != j
}

/// Order by order, what a submission did to the opposite queue (`k` orders
/// taken off its front, trade `t` against position `src[t]`):
/// - each resting order is met by at most one trade;
/// - a trade against an order taken off carried that order's whole quantity,
///   and a trade against the order left at the front carried what it lost;
/// - no trade pairs the incoming order with an order of its own trader unless
///   the mode is `Allow`;
/// - an order taken off without a trade was the incoming trader's own, cancelled
///   by `CancelOldest`, `CancelBoth` or `DecrementAndCancel`, and self-trade
///   prevention is then reported (`hit`);
/// - the order left at the front, met by no trade, kept its quantity unless
///   `DecrementAndCancel` met it;
/// - `hit` only when an order of the incoming trader was met;
/// - each cancelled id is the incoming order's (which then has nothing left)
///   or that of an order taken off.
pub open spec fn fills_exactly(
    trader: Seq<char>,
    stp: StpMode,
    id: u64,
    before: Seq<RestingOrder>,
    after: Seq<RestingOrder>,
    trades: Seq<Trade>,
    src: Seq<int>,
    k: int,
    hit: bool,
    cancelled: Seq<u64>,
    remaining: i64,
) -> bool {
    &&& one_trade_per_order(trades, src)
    &&& trades_take_what_they_cite(trader, stp, before, after, trades, src, k)
    &&& uncited_taken_by_stp(trader, stp, before, trades, src, k, hit)
    &&& uncited_front_kept(trader, stp, before, after, trades, src, k)
    &&& hit_means_met(trader, stp, before, k, hit)
    &&& cancelled_are_gone(id, before, k, cancelled, remaining)
}

pub open spec fn one_trade_per_order(trades: Seq<Trade>, src: Seq<int>) -> bool {
    forall|t: int, u: int| 0 <= t < u < trades.len() ==> #[trigger] src[t] < #[trigger] src[u]
}

pub open spec fn trades_take_what_they_cite(
    trader: Seq<char>,
    stp: StpMode,
    before: Seq<RestingOrder>,
    after: Seq<RestingOrder>,
    trades: Seq<Trade>,
    src: Seq<int>,
    k: int,
) -> bool {
    forall|t: int|
        #![trigger src[t]]
        0 <= t < trades.len() ==> {
            &&& src[t] < k ==> trades[t].quantity == before[src[t]].quantity
            &&& src[t] == k ==> after.len() > 0 && after[0].quantity == before[k].quantity
                - trades[t].quantity
            &&& !(before[src[t]].trader_id@ == trader && stp != StpMode::Allow)
        }
}

pub open spec fn uncited_taken_by_stp(
    trader: Seq<char>,
    stp: StpMode,
    before: Seq<RestingOrder>,
    trades: Seq<Trade>,
    src: Seq<int>,
    k: int,
    hit: bool,
) -> bool {
    &&& forall|j: int|
        0 <= j < k && #[trigger] uncited(trades, src, j) ==> stp_cancels_resting(trader, stp, before[j])
    &&& !hit ==> forall|j: int| 0 <= j < k ==> !#[trigger] uncited(trades, src, j)
}

pub open spec fn uncited_front_kept(
    trader: Seq<char>,
    stp: StpMode,
    before: Seq<RestingOrder>,
    after: Seq<RestingOrder>,
    trades: Seq<Trade>,
    src: Seq<int>,
    k: int,
) -> bool {
    after.len() > 0 && uncited(trades, src, k) ==> after[0].quantity == before[k].quantity || (
    before[k].trader_id@ == trader && stp == StpMode::DecrementAndCancel)
}

pub open spec fn hit_means_met(trader: Seq<char>, stp: StpMode, before: Seq<RestingOrder>, k: int, hit: bool) -> bool {
    hit ==> stp != StpMode::Allow && exists|j: int|
        0 <= j <= k && j < before.len() && #[trigger] before[j].trader_id@ == trader
}

pub open spec fn cancelled_are_gone(
    id: u64,
    before: Seq<RestingOrder>,
    k: int,
    cancelled: Seq<u64>,
    remaining: i64,
) -> bool {
    forall|i: int|
        0 <= i < cancelled.len() ==> (#[trigger] cancelled[i] == id && remaining == 0) || taken_off(
            before,
            k,
            cancelled[i],
        )
}

/// `x` is the id of one of the first `k` orders of `q`.
pub open spec fn taken_off(q: Seq<RestingOrder>, k: int, x: u64) -> bool {
    exists|j: int| 0 <= j < k && #[trigger] q[j].id == x
}

/// Citing one more position keeps every other position's standing and cites that one.
proof fn lemma_uncited_push(trades: Seq<Trade>, src: Seq<int>, t: Trade, x: int)
    requires
        src.len() == trades.len(),
    ensures
        forall|j: int| #[trigger] uncited(trades.push(t), src.push(x), j) ==> uncited(trades, src, j),
        !uncited(trades.push(t), src.push(x), x),
{
    assert forall|j: int| #[trigger] uncited(trades.push(t), src.push(x), j) implies uncited(trades, src, j) by {
        assert forall|u: int| 0 <= u < trades.len() implies src[u] != j by {
            assert(src.push(x)[u] == src[u]);
        }
    }
    assert(src.push(x)[trades.len() as int] == x);
}

/// Ids cancelled by self-trade prevention rest nowhere once the submission is done.
proof fn lemma_cancelled_gone(
    b0: BookView,
    b_mid: BookView,
    b1: BookView,
    side: Side,
    id: u64,
    k: int,
    cancelled: Seq<u64>,
    remaining: i64,
)
    requires
        b0.wf(),
        b1.wf(),
        !b0.has_id(id),
        b_mid.queue(side) == b0.queue(side),
        front_consumed(b0.queue(opposite(side)), b_mid.queue(opposite(side)), k),
        b1.queue(opposite(side)) == b_mid.queue(opposite(side)),
        b1.queue(side) == b0.queue(side) || exists|pos: int| 0 <= pos < b1.queue(side).len() && #[trigger] b1.queue(side).remove(pos) == b0.queue(side) && b1.queue(side)[pos].id == id,
        remaining == 0 ==> !b1.has_id(id),
        cancelled_are_gone(id, b0.queue(opposite(side)), k, cancelled, remaining),
    ensures
        forall|i: int| 0 <= i < cancelled.len() ==> !b1.has_id(#[trigger] cancelled[i]),
{
    let opp0 = b0.queue(opposite(side));
    let opp1 = b1.queue(opposite(side));
    let own0 = b0.queue(side);
    let own1 = b1.queue(side);
    lemma_front_ids(opp0, opp1, k);
    assert forall|i: int| 0 <= i < cancelled.len() implies !b1.has_id(#[trigger] cancelled[i]) by {
        let x = cancelled[i];
        if !(x == id && remaining == 0) {
            let j = choose|j: int| 0 <= j < k && #[trigger] opp0[j].id == x;
            if queue_has_id(opp1, x) {
                let n = choose|n: int| 0 <= n < opp1.len() && #[trigger] opp1[n].id == x;
                assert(opp1[n].id == opp0[k + n].id);
            }
            assert(x != id);
            if queue_has_id(own1, x) {
                let n = choose|n: int| 0 <= n < own1.len() && #[trigger] own1[n].id == x;
                if own1 == own0 {
                    match side {
                        Side::Buy => { assert(b0.bids[n].id != b0.asks[j].id); },
                        Side::Sell => { assert(b0.bids[j].id != b0.asks[n].id); },
                    }
                } else {
                    let pos = choose|pos: int| 0 <= pos < own1.len() && #[trigger] own1.remove(pos) == own0 && own1[pos].id == id;
                    assert(n != pos);
                    let m = if n < pos { n } else { n - 1 };
                    assert(own1.remove(pos)[m] == own1[n]);
                    match side {
                        Side::Buy => { assert(b0.bids[m].id != b0.asks[j].id); },
                        Side::Sell => { assert(b0.bids[j].id != b0.asks[m].id); },
                    }
                }
            }
            match side {
                Side::Buy => { assert(b1.bids == own1 && b1.asks == opp1); },
                Side::Sell => { assert(b1.asks == own1 && b1.bids == opp1); },
            }
        }
    }
}

proof fn lemma_queue_sub(q0: Seq<RestingOrder>, q1: Seq<RestingOrder>, pos: int, x: u64)
    requires
        0 <= pos < q1.len(),
        q1.remove(pos) == q0,
        queue_has_id(q1, x),
        q1[pos].id != x,
    ensures
        queue_has_id(q0, x),
{
    let n = choose|n: int| 0 <= n < q1.len() && #[trigger] q1[n].id == x;
    let m = if n < pos { n } else { n - 1 };
    assert(q1.remove(pos)[m] == q1[n]);
}

/// After a submission, every resting id rested before or is the submitted one.
pub proof fn lemma_executes_keeps_ids(
    b0: BookView,
    b1: BookView,
    r: OrderResult,
    trader: Seq<char>,
    id: u64,
    price: Option<i64>,
    quantity: i64,
    side: Side,
    order_type: OrderType,
    tif: TimeInForce,
    stp: StpMode,
    now: i64,
    x: u64,
)
    requires
        executes(b0, b1, r, trader, id, price, quantity, side, order_type, tif, stp, now),
        b1.has_id(x),
    ensures
        x == id || b0.has_id(x),
{
    let opp0 = b0.queue(opposite(side));
    let opp1 = b1.queue(opposite(side));
    let own0 = b0.queue(side);
    let own1 = b1.queue(side);
    let (k, src) = choose|k: int, src: Seq<int>|
        front_consumed(opp0, opp1, k) && #[trigger] trades_in_priority(side, opp0, r.trades@, src, k)
            && fills_exactly(trader, stp, id, opp0, opp1, r.trades@, src, k, r.stp_result.self_trade,
            r.stp_result.cancelled_orders@, r.remaining_quantity);
    lemma_front_ids(opp0, opp1, k);
    if queue_has_id(opp1, x) {
        let n = choose|n: int| 0 <= n < opp1.len() && #[trigger] opp1[n].id == x;
        assert(opp0[k + n].id == x);
    }
    if queue_has_id(own1, x) && x != id && own1 != own0 {
        let pos = choose|pos: int| 0 <= pos < own1.len() && #[trigger] own1.remove(pos) == own0
            && own1[pos].id == id && own1[pos].trader_id@ == trader && own1[pos].price == limit_of(price)
            && own1[pos].quantity == r.remaining_quantity && own1[pos].arrival_seq == b0.next_seq;
        lemma_queue_sub(own0, own1, pos, x);
    }
    match side {
        Side::Buy => { assert(b1.bids == own1 && b1.asks == opp1 && b0.bids == own0 && b0.asks == opp0); },
        Side::Sell => { assert(b1.asks == own1 && b1.bids == opp1 && b0.asks == own0 && b0.bids == opp0); },
    }
}

/// After a cancel, every resting id rested before.
pub proof fn lemma_cancels_keeps_ids(b0: BookView, b1: BookView, id: u64, x: u64)
    requires
        cancels(b0, b1, id),
        b1.has_id(x),
    ensures
        b0.has_id(x),
{
    let (s, p) = choose|s: Side, p: int|
        #[trigger] located(b0, s, p, id) && b1.queue(s) == b0.queue(s).remove(p) && b1.queue(opposite(s))
            == b0.queue(opposite(s));
    let q0 = b0.queue(s);
    let q1 = b1.queue(s);
    if queue_has_id(q1, x) {
        let n = choose|n: int| 0 <= n < q1.len() && #[trigger] q1[n].id == x;
        let m = if n < p { n } else { n + 1 };
        assert(q1[n] == q0[m]);
    }
    match s {
        Side::Buy => { assert(b1.bids == q1 && b1.asks == b0.asks && b0.bids == q0); },
        Side::Sell => { assert(b1.asks == q1 && b1.bids == b0.bids && b0.asks == q0); },
    }
}

/// After a modify, every resting id rested before.
pub proof fn lemma_modifies_keeps_ids(
    b0: BookView,
    b1: BookView,
    id: u64,
    new_price: i64,
    new_quantity: i64,
    old_price: i64,
    old_quantity: i64,
    x: u64,
)
    requires
        modifies(b0, b1, id, new_price, new_quantity, old_price, old_quantity),
        b1.has_id(x),
    ensures
        b0.has_id(x),
{
    let (s, p) = choose|s: Side, p: int| #[trigger] located(b0, s, p, id) && ({
        let q0 = b0.queue(s);
        let q1 = b1.queue(s);
        &&& b1.queue(opposite(s)) == b0.queue(opposite(s))
        &&& old_price == q0[p].price
        &&& old_quantity == q0[p].quantity
        &&& modify_in_place(q0[p], new_price, new_quantity) ==> q1 == q0.update(p, q1[p]) && reduced(
            q1[p],
            q0[p],
        ) && q1[p].quantity == new_quantity
        &&& !modify_in_place(q0[p], new_price, new_quantity) ==> inserted(
            q0.remove(p),
            q1,
            id,
            q0[p].trader_id@,
            new_price,
            new_quantity,
            b0.next_seq,
        )
    });
    let q0 = b0.queue(s);
    let q1 = b1.queue(s);
    if queue_has_id(q1, x) {
        let n = choose|n: int| 0 <= n < q1.len() && #[trigger] q1[n].id == x;
        if modify_in_place(q0[p], new_price, new_quantity) {
            assert(q1[n].id == q0[n].id);
        } else if x != id {
            let pos = choose|pos: int| 0 <= pos < q1.len() && #[trigger] q1.remove(pos) == q0.remove(p)
                && q1[pos].id == id && q1[pos].trader_id@ == q0[p].trader_id@ && q1[pos].price == new_price
                && q1[pos].quantity == new_quantity && q1[pos].arrival_seq == b0.next_seq;
            lemma_queue_sub(q0.remove(p), q1, pos, x);
            let m = choose|m: int| 0 <= m < q0.remove(p).len() && #[trigger] q0.remove(p)[m].id == x;
            let mm = if m < p { m } else { m + 1 };
            assert(q0.remove(p)[m] == q0[mm]);
        } else {
            assert(q0[p].id == x);
        }
    }
    match s {
        Side::Buy => { assert(b1.bids == q1 && b1.asks == b0.asks && b0.bids == q0); },
        Side::Sell => { assert(b1.asks == q1 && b1.bids == b0.bids && b0.asks == q0); },
    }
}

/// What matching one incoming order against the opposite queue produced.
struct Matching {
    remaining: i64,
    killed: bool,
    trades: Vec<Trade>,
    cancelled: Vec<u64>,
    stp_hit: bool,
    /// Ids of the orders taken off the front of the opposite queue, in order.
    removed: Vec<u64>,
    consumed: Ghost<int>,
    sources: Ghost<Seq<int>>,
}

fn make_trade(side: Side, incoming: u64, resting: u64, trade_id: u64, price: i64, quantity: i64, now: i64) -> (t: Trade)
    ensures
        t.trade_id == trade_id,
        incoming_id(side, t) == incoming,
        resting_id(side, t) == resting,
        t.price == price,
        t.quantity == quantity,
        t.timestamp_ns == now,
{
    match side {
        Side::Buy => Trade { trade_id, buy_order_id: incoming, sell_order_id: resting, price, quantity, timestamp_ns: now },
        Side::Sell => Trade { trade_id, buy_order_id: resting, sell_order_id: incoming, price, quantity, timestamp_ns: now },
    }
}

/// Lowers the quantity of the first order of a queue by `by`.
fn reduce_head(q: &mut Vec<RestingOrder>, by: i64)
    requires
        old(q)@.len() > 0,
        0 < by < old(q)@[0].quantity,
    ensures
        final(q)@.len() == old(q)@.len(),
        final(q)@ == old(q)@.update(0, final(q)@[0]),
        reduced(final(q)@[0], old(q)@[0]),
        final(q)@[0].quantity == old(q)@[0].quantity - by,
{
    let r = q.remove(0);
    let r2 = RestingOrder {
        id: r.id,
        trader_id: r.trader_id,
        price: r.price,
        quantity: r.quantity - by,
        arrival_seq: r.arrival_seq,
    };
    q.insert(0, r2);
    assert(q@ =~= old(q)@.update(0, q@[0]));
}

/// Matches an incoming order against the opposite queue `opp`, from its front,
/// while the incoming order has quantity left and the front order is marketable.
fn match_queue(
    opp: &mut Vec<RestingOrder>,
    next_seq: u64,
    trader: &String,
    id: u64,
    side: Side,
    order_type: OrderType,
    limit: i64,
    stp: StpMode,
    quantity: i64,
    fok: bool,
    first_trade_id: u64,
    now: i64,
) -> (m: Matching)
    requires
        queue_wf(opposite(side), old(opp)@, next_seq),
        first_trade_id as int + old(opp)@.len() + 1 <= u64::MAX,
        quantity > 0,
        fok ==> fok_fillable(old(opp)@, side, order_type, limit, trader@, stp, quantity as int),
    ensures
        queue_wf(opposite(side), final(opp)@, next_seq),
        front_consumed(old(opp)@, final(opp)@, m.consumed@),
        m.removed@.len() == m.consumed@,
        forall|i: int| 0 <= i < m.consumed@ ==> #[trigger] m.removed@[i] == old(opp)@[i].id,
        trades_in_priority(side, old(opp)@, m.trades@, m.sources@, m.consumed@),
        trades_well_numbered(m.trades@, first_trade_id as int, id, side, order_type, limit, now),
        m.trades@.len() <= old(opp)@.len() + 1,
        m.trades@.len() <= m.consumed@ + 1,
        0 <= m.remaining <= quantity,
        m.killed ==> m.remaining == 0,
        traded_quantity(m.trades@) + m.remaining <= quantity,
        !m.stp_hit ==> traded_quantity(m.trades@) + m.remaining == quantity,
        traded_quantity(m.trades@) <= queue_quantity(old(opp)@),
        !m.stp_hit ==> traded_quantity(m.trades@) + queue_quantity(final(opp)@) == queue_quantity(old(opp)@),
        fok ==> traded_quantity(m.trades@) == quantity && m.remaining == 0,
        m.remaining > 0 && !m.killed ==> final(opp)@.len() == 0 || !crosses(side, order_type, limit, final(opp)@[0].price),
        m.stp_hit ==> stp != StpMode::Allow,
        !m.stp_hit ==> m.cancelled@.len() == 0,
        fills_exactly(trader@, stp, id, old(opp)@, final(opp)@, m.trades@, m.sources@, m.consumed@, m.stp_hit, m.cancelled@, m.remaining),
{
    let ghost before = opp@;
    let ghost oside = opposite(side);
    let mut remaining: i64 = quantity;
    let mut killed = false;
    let mut trades: Vec<Trade> = Vec::new();
    let mut cancelled: Vec<u64> = Vec::new();
    let mut stp_hit = false;
    let mut next_tid: u64 = first_trade_id;
    let mut removed: Vec<u64> = Vec::new();
    let ghost mut k: int = 0;
    let ghost mut src: Seq<int> = Seq::empty();
    let ghost mut cut: int = 0;
    let ghost mut gone: int = 0;
    let ghost mut met: int = 0;
    proof {
        lemma_queue_quantity_nonneg(oside, before, next_seq);
        assert(opp@.len() > 0 ==> reduced(opp@[0], before[0]));
    }
    loop
        invariant
            queue_wf(oside, before, next_seq),
            queue_wf(oside, opp@, next_seq),
            oside == opposite(side),
            first_trade_id as int + before.len() + 1 <= u64::MAX,
            quantity > 0,
            front_consumed(before, opp@, k),
            removed@.len() == k,
            forall|i: int| 0 <= i < k ==> #[trigger] removed@[i] == before[i].id,
            trades_in_priority(side, before, trades@, src, k),
            trades_well_numbered(trades@, first_trade_id as int, id, side, order_type, limit, now),
            next_tid == first_trade_id + trades@.len(),
            trades@.len() + (if remaining > 0 && !killed { 1int } else { 0 }) <= k + 1,
            0 <= remaining <= quantity,
            killed ==> remaining == 0,
            cut >= 0,
            gone >= 0,
            traded_quantity(trades@) + remaining + cut == quantity,
            traded_quantity(trades@) + gone + queue_quantity(opp@) == queue_quantity(before),
            !stp_hit ==> cut == 0 && gone == 0 && cancelled@.len() == 0,
            stp_hit ==> stp != StpMode::Allow,
            fok ==> cut == 0 && !killed && fok_fillable(opp@, side, order_type, limit, trader@, stp, remaining as int),
            forall|t: int| 0 <= t < trades@.len() ==> #[trigger] src[t] < k || remaining == 0,
            remaining > 0 && opp@.len() > 0 ==> opp@[0].quantity == before[k].quantity,
            stp_hit ==> 0 <= met <= k && met < before.len() && before[met].trader_id@ == trader@,
            forall|t: int, u: int| 0 <= t < u < trades@.len() ==> #[trigger] src[t] < #[trigger] src[u],
            forall|t: int|
                #![trigger src[t]]
                0 <= t < trades@.len() ==> src[t] < k ==> trades@[t].quantity == before[src[t]].quantity,
            forall|t: int|
                #![trigger src[t]]
                0 <= t < trades@.len() ==> src[t] == k ==> opp@.len() > 0 && opp@[0].quantity
                    == before[k].quantity - trades@[t].quantity,
            forall|t: int|
                #![trigger src[t]]
                0 <= t < trades@.len() ==> !(before[src[t]].trader_id@ == trader@ && stp != StpMode::Allow),
            forall|j: int|
                0 <= j < k && #[trigger] uncited(trades@, src, j) ==> stp_cancels_resting(trader@, stp, before[j]),
            !stp_hit ==> forall|j: int| 0 <= j < k ==> !#[trigger] uncited(trades@, src, j),
            opp@.len() > 0 && uncited(trades@, src, k) ==> opp@[0].quantity == before[k].quantity || (
            before[k].trader_id@ == trader@ && stp == StpMode::DecrementAndCancel),
            forall|i: int|
                0 <= i < cancelled@.len() ==> (#[trigger] cancelled@[i] == id && remaining == 0) || taken_off(
                    before,
                    k,
                    cancelled@[i],
                ),
        ensures
            remaining == 0 || killed || opp@.len() == 0 || !crosses(side, order_type, limit, opp@[0].price),
        decreases opp@.len(), remaining,
    {
        if remaining == 0 || killed || opp.len() == 0 {
            break;
        }
        if !crosses_exec(side, order_type, limit, opp[0].price) {
            break;
        }
        let head_qty = opp[0].quantity;
        let head_id = opp[0].id;
        let head_price = opp[0].price;
        let same = opp[0].trader_id == *trader;
        let ghost cur = opp@;
        let ghost k0 = k;
        let ghost trades0 = trades@;
        let ghost src0 = src;
        proof {
            lemma_queue_quantity_head(cur, cur[0]);
            lemma_remove_keeps_queue(oside, cur, next_seq, 0);
            assert(cur.remove(0) =~= cur.drop_first());
            assert(reduced(cur[0], before[k]));
        }
        if same && stp != StpMode::Allow {
            stp_hit = true;
            proof {
                met = k;
            }
            match stp {
                StpMode::CancelNewest => {
                    cancelled.push(id);
                    proof { cut = cut + remaining; }
                    remaining = 0;
                    killed = true;
                },
                StpMode::CancelOldest => {
                    let r = opp.remove(0);
                    removed.push(r.id);
                    cancelled.push(r.id);
                    proof {
                        gone = gone + head_qty;
                        k = k + 1;
                    }
                },
                StpMode::CancelBoth => {
                    let r = opp.remove(0);
                    removed.push(r.id);
                    cancelled.push(r.id);
                    cancelled.push(id);
                    proof {
                        gone = gone + head_qty;
                        cut = cut + remaining;
                        k = k + 1;
                    }
                    remaining = 0;
                    killed = true;
                },
                _ => {
                    let d = if remaining < head_qty { remaining } else { head_qty };
                    remaining = remaining - d;
                    proof { cut = cut + d; }
                    if d == head_qty {
                        let r = opp.remove(0);
                        removed.push(r.id);
                        cancelled.push(r.id);
                        proof {
                            gone = gone + head_qty;
                            k = k + 1;
                        }
                    } else {
                        reduce_head(opp, d);
                        proof {
                            lemma_queue_quantity_head(cur, opp@[0]);
                            lemma_reduce_head_keeps_queue(oside, cur, next_seq, opp@[0]);
                            gone = gone + d;
                        }
                    }
                    if remaining == 0 {
                        cancelled.push(id);
                    }
                },
            }
        } else {
            let q = if remaining < head_qty { remaining } else { head_qty };
            let t = make_trade(side, id, head_id, next_tid, head_price, q, now);
            let ghost old_trades = trades@;
            let ghost old_src = src;
            proof {
                lemma_traded_push(trades@, t);
                assert(before[k].id == head_id && before[k].price == head_price);
                src = src.push(k);
            }
            trades.push(t);
            proof {
                lemma_trade_in_priority(side, before, old_trades, old_src, k, t);
                lemma_uncited_push(old_trades, old_src, t, k);
            }
            next_tid = next_tid + 1;
            remaining = remaining - q;
            if q == head_qty {
                let r = opp.remove(0);
                removed.push(r.id);
                proof { k = k + 1; }
            } else {
                reduce_head(opp, q);
                proof {
                    lemma_queue_quantity_head(cur, opp@[0]);
                    lemma_reduce_head_keeps_queue(oside, cur, next_seq, opp@[0]);
                }
            }
        }
        proof {
            assert forall|j: int| 0 <= j < k && #[trigger] uncited(trades@, src, j) implies stp_cancels_resting(
                trader@,
                stp,
                before[j],
            ) by {
                if trades@.len() > trades0.len() {
                    assert(trades@ == trades0.push(trades@.last()));
                    assert(src == src0.push(k0));
                    assert(uncited(trades0, src0, j));
                    assert(j != k0);
                } else {
                    assert(trades@ =~= trades0);
                    if j == k0 {
                        assert(cur[0].trader_id == before[k0].trader_id);
                    }
                }
            }
            if !stp_hit {
                assert forall|j: int| 0 <= j < k implies !#[trigger] uncited(trades@, src, j) by {
                    if trades@.len() > trades0.len() {
                        assert(trades@ == trades0.push(trades@.last()));
                        assert(src == src0.push(k0));
                        if j != k0 {
                            if uncited(trades@, src, j) {
                                assert(uncited(trades0, src0, j));
                            }
                        }
                    }
                }
            }
        }
    }
    proof {
        lemma_queue_quantity_nonneg(oside, opp@, next_seq);
        if stp_hit {
            assert(before[met].trader_id@ == trader@);
        }
        assert(one_trade_per_order(trades@, src));
        assert(trades_take_what_they_cite(trader@, stp, before, opp@, trades@, src, k));
        assert(uncited_taken_by_stp(trader@, stp, before, trades@, src, k, stp_hit));
        assert(uncited_front_kept(trader@, stp, before, opp@, trades@, src, k));
        assert(hit_means_met(trader@, stp, before, k, stp_hit));
        assert(cancelled_are_gone(id, before, k, cancelled@, remaining));
    }
    Matching {
        remaining,
        killed,
        trades,
        cancelled,
        stp_hit,
        removed,
        consumed: Ghost(k),
        sources: Ghost(src),
    }
}

/// The book takes an order: it is well formed, its id does not rest on the book,
/// and, for fill-or-kill, it can be filled in full.
pub open spec fn admits(
    b: BookView,
    trader: Seq<char>,
    id: u64,
    price: Option<i64>,
    quantity: i64,
    side: Side,
    order_type: OrderType,
    tif: TimeInForce,
    stp: StpMode,
) -> bool {
    &&& order_is_valid(price, quantity, order_type)
    &&& !b.has_id(id)
    &&& tif == TimeInForce::Fok ==> fok_fillable(
        b.queue(opposite(side)),
        side,
        order_type,
        limit_of(price),
        trader,
        stp,
        quantity as int,
    )
}

/// Why the book refuses a submission that it does not admit.
pub open spec fn add_reject_text(
    b: BookView,
    id: u64,
    price: Option<i64>,
    quantity: i64,
    order_type: OrderType,
) -> Seq<char> {
    if quantity <= 0 {
        "quantity must be positive"@
    } else if order_type == OrderType::Limit && (price is None || price->0 <= 0) {
        "limit order requires a positive price"@
    } else if b.has_id(id) {
        "duplicate order id"@
    } else {
        "fill-or-kill order cannot be filled in full"@
    }
}

/// The rest of an accepted order stays on the book.
pub open spec fn rests(r: OrderResult, order_type: OrderType, tif: TimeInForce) -> bool {
    r.remaining_quantity > 0 && order_type == OrderType::Limit && tif == TimeInForce::Gtc
}

/// `own1` is `own0` with the order `id` of `trader` inserted at some position,
/// at `price` and `quantity`, with arrival number `seq`.
pub open spec fn inserted(
    own0: Seq<RestingOrder>,
    own1: Seq<RestingOrder>,
    id: u64,
    trader: Seq<char>,
    price: i64,
    quantity: i64,
    seq: u64,
) -> bool {
    exists|pos: int|
        0 <= pos < own1.len() && #[trigger] own1.remove(pos) == own0 && own1[pos].id == id
            && own1[pos].trader_id@ == trader && own1[pos].price == price && own1[pos].quantity
            == quantity && own1[pos].arrival_seq == seq
}

/// What an accepted submission did, from book `b0` to book `b1`, with result `r`.
pub open spec fn executes(
    b0: BookView,
    b1: BookView,
    r: OrderResult,
    trader: Seq<char>,
    id: u64,
    price: Option<i64>,
    quantity: i64,
    side: Side,
    order_type: OrderType,
    tif: TimeInForce,
    stp: StpMode,
    now: i64,
) -> bool {
    let opp0 = b0.queue(opposite(side));
    let opp1 = b1.queue(opposite(side));
    let own0 = b0.queue(side);
    let own1 = b1.queue(side);
    let trades = r.trades@;
    let traded = traded_quantity(trades);
    &&& exists|k: int, src: Seq<int>|
        front_consumed(opp0, opp1, k) && #[trigger] trades_in_priority(side, opp0, trades, src, k)
            && fills_exactly(
            trader,
            stp,
            id,
            opp0,
            opp1,
            trades,
            src,
            k,
            r.stp_result.self_trade,
            r.stp_result.cancelled_orders@,
            r.remaining_quantity,
        )
    &&& forall|i: int|
        0 <= i < r.stp_result.cancelled_orders@.len() ==> !b1.has_id(
            #[trigger] r.stp_result.cancelled_orders@[i],
        )
    &&& trades_well_numbered(trades, b0.next_trade_id as int, id, side, order_type, limit_of(price), now)
    &&& b1.next_trade_id == b0.next_trade_id + trades.len()
    &&& 0 <= r.remaining_quantity <= quantity
    &&& traded + r.remaining_quantity <= quantity
    &&& !r.stp_result.self_trade ==> traded + r.remaining_quantity == quantity
    &&& traded <= queue_quantity(opp0)
    &&& !r.stp_result.self_trade ==> traded + queue_quantity(opp1) == queue_quantity(opp0)
    &&& tif == TimeInForce::Fok ==> traded == quantity && r.remaining_quantity == 0
    &&& r.stp_result.self_trade ==> stp != StpMode::Allow && r.stp_result.action is Some
        && r.stp_result.action->0@ == stp_name(stp)
    &&& !r.stp_result.self_trade ==> r.stp_result.cancelled_orders@.len() == 0
        && r.stp_result.action is None
    &&& r.remaining_quantity > 0 ==> opp1.len() == 0 || !crosses(side, order_type, limit_of(price), opp1[0].price)
    &&& rests(r, order_type, tif) ==> inserted(own0, own1, id, trader, limit_of(price), r.remaining_quantity, b0.next_seq)
    &&& !rests(r, order_type, tif) ==> own1 == own0
    &&& b1.has_id(id) == rests(r, order_type, tif)
    &&& trades.len() > 0 ==> b1.last_trade_price == trades.last().price && b1.last_trade_qty
        == trades.last().quantity && b1.last_trade_ns == now
    &&& trades.len() == 0 ==> b1.last_trade_price == b0.last_trade_price && b1.last_trade_qty
        == b0.last_trade_qty && b1.last_trade_ns == b0.last_trade_ns
}

fn rejection(reason: &str, quantity: i64) -> (r: OrderResult)
    ensures
        !r.accepted,
        r.reject_reason is Some && r.reject_reason->0@ == reason@,
        r.trades@.len() == 0,
        r.remaining_quantity == quantity,
        !r.stp_result.self_trade,
{
    OrderResult {
        accepted: false,
        reject_reason: Some(String::from_str(reason)),
        trades: Vec::new(),
        remaining_quantity: quantity,
        stp_result: StpResult { self_trade: false, cancelled_orders: Vec::new(), action: None },
    }
}

proof fn lemma_front_ids(opp0: Seq<RestingOrder>, opp1: Seq<RestingOrder>, k: int)
    requires
        front_consumed(opp0, opp1, k),
    ensures
        forall|j: int|
            0 <= j < opp1.len() ==> #[trigger] opp1[j].id == opp0[k + j].id && opp1[j].price
                == opp0[k + j].price,
{
    assert forall|j: int| 0 <= j < opp1.len() implies #[trigger] opp1[j].id == opp0[k + j].id
        && opp1[j].price == opp0[k + j].price by {
        if j > 0 {
            assert(opp1[j] == opp0[k + j]);
        }
    }
}

/// The order `id` rests at position `pos` of the queue of `side`.
pub open spec fn located(b: BookView, side: Side, pos: int, id: u64) -> bool {
    0 <= pos < b.queue(side).len() && b.queue(side)[pos].id == id
}

/// Moving the resting order `id` to `price` would make it marketable against the other side.
pub open spec fn modify_crosses(b: BookView, id: u64, price: i64) -> bool {
    if queue_has_id(b.bids, id) {
        b.asks.len() > 0 && price >= b.asks[0].price
    } else {
        b.bids.len() > 0 && price <= b.bids[0].price
    }
}

/// A modify keeps the order's place: same price, smaller quantity.
pub open spec fn modify_in_place(o: RestingOrder, price: i64, quantity: i64) -> bool {
    price == o.price && quantity < o.quantity
}

/// The resting order `id` left the book, and nothing else changed in its queues.
pub open spec fn cancels(b0: BookView, b1: BookView, id: u64) -> bool {
    exists|side: Side, pos: int|
        #[trigger] located(b0, side, pos, id) && b1.queue(side) == b0.queue(side).remove(pos)
            && b1.queue(opposite(side)) == b0.queue(opposite(side))
}

/// The resting order `id`, found at `old_price` and `old_quantity`, now stands
/// at `new_price` and `new_quantity`: in its old place when the change only
/// lowers its quantity, else reposted behind its new price level.
pub open spec fn modifies(
    b0: BookView,
    b1: BookView,
    id: u64,
    new_price: i64,
    new_quantity: i64,
    old_price: i64,
    old_quantity: i64,
) -> bool {
    exists|side: Side, pos: int|
        #[trigger] located(b0, side, pos, id) && ({
            let q0 = b0.queue(side);
            let q1 = b1.queue(side);
            &&& b1.queue(opposite(side)) == b0.queue(opposite(side))
            &&& old_price == q0[pos].price
            &&& old_quantity == q0[pos].quantity
            &&& modify_in_place(q0[pos], new_price, new_quantity) ==> q1 == q0.update(pos, q1[pos])
                && reduced(q1[pos], q0[pos]) && q1[pos].quantity == new_quantity
            &&& !modify_in_place(q0[pos], new_price, new_quantity) ==> inserted(
                q0.remove(pos),
                q1,
                id,
                q0[pos].trader_id@,
                new_price,
                new_quantity,
                b0.next_seq,
            )
        })
}

/// The book itself. It owns every resting order; the index holds handles
/// (order id to side), never the orders.
pub struct OwnedOrderBook {
    bids: Vec<RestingOrder>,
    asks: Vec<RestingOrder>,
    next_trade_id: u64,
    next_seq: u64,
    last_trade_price: i64,
    last_trade_qty: i64,
    last_trade_ns: i64,
    index: HashMap<u64, Side>,
}

impl View for OwnedOrderBook {
    type V = BookView;

    closed spec fn view(&self) -> BookView {
        BookView {
            bids: self.bids@,
            asks: self.asks@,
            next_trade_id: self.next_trade_id,
            next_seq: self.next_seq,
            last_trade_price: self.last_trade_price,
            last_trade_qty: self.last_trade_qty,
            last_trade_ns: self.last_trade_ns,
            index: self.index@,
        }
    }
}

impl OwnedOrderBook {
    pub open spec fn wf(&self) -> bool {
        self@.wf()
    }

    /// An empty book; trade ids start at one.
    pub fn new() -> (r: Self)
        ensures
            r.wf(),
            r@.bids.len() == 0,
            r@.asks.len() == 0,
            r@.next_trade_id == 1,
            r@.next_seq == 0,
            r@.has_capacity(),
            r@.last_trade_price == 0,
            r@.last_trade_qty == 0,
    {
        OwnedOrderBook {
            bids: Vec::new(),
            asks: Vec::new(),
            next_trade_id: 1,
            next_seq: 0,
            last_trade_price: 0,
            last_trade_qty: 0,
            last_trade_ns: 0,
            index: HashMap::new(),
        }
    }

    /// Whether the counters leave room for one more submission.
    pub fn has_capacity(&self) -> (r: bool)
        ensures
            r == self@.has_capacity(),
    {
        self.next_seq < u64::MAX && self.bids.len() as u128 + self.asks.len() as u128
            + self.next_trade_id as u128 + 1 <= u64::MAX as u128
    }

    /// Whether an order with this id rests on the book.
    pub fn contains_order(&self, id: u64) -> (r: bool)
        requires
            self.wf(),
        ensures
            r == self@.has_id(id),
    {
        self.locate(id).is_some()
    }

    /// Where the order `id` rests: its side from the index, then its place in that queue.
    fn locate(&self, id: u64) -> (r: Option<(Side, usize)>)
        requires
            self.wf(),
        ensures
            match r {
                Some((side, pos)) => located(self@, side, pos as int, id),
                None => !self@.has_id(id),
            },
    {
        let side = match self.index.get(&id) {
            Some(s) => *s,
            None => {
                proof {
                    if queue_has_id(self@.bids, id) {
                        let i = choose|i: int| 0 <= i < self@.bids.len() && #[trigger] self@.bids[i].id == id;
                        assert(self@.index.contains_key(self@.bids[i].id));
                    }
                    if queue_has_id(self@.asks, id) {
                        let i = choose|i: int| 0 <= i < self@.asks.len() && #[trigger] self@.asks[i].id == id;
                        assert(self@.index.contains_key(self@.asks[i].id));
                    }
                }
                return None;
            },
        };
        let found = match side {
            Side::Buy => find_index(&self.bids, id),
            Side::Sell => find_index(&self.asks, id),
        };
        match found {
            Some(pos) => Some((side, pos)),
            None => {
                assert(self@.index.contains_key(id));
                None
            },
        }
    }

    pub fn get_best_bid(&self) -> (r: i64)
        ensures
            r == self@.best_bid(),
    {
        if self.bids.len() > 0 {
            self.bids[0].price
        } else {
            0
        }
    }

    pub fn get_best_ask(&self) -> (r: i64)
        ensures
            r == self@.best_ask(),
    {
        if self.asks.len() > 0 {
            self.asks[0].price
        } else {
            0
        }
    }

    /// Matches an incoming order against the opposite side and books the trades.
    fn run_match(
        &mut self,
        tid: &String,
        id: u64,
        side: Side,
        order_type: OrderType,
        limit: i64,
        stp: StpMode,
        quantity: i64,
        fok: bool,
        now: i64,
    ) -> (m: Matching)
        requires
            old(self).wf(),
            old(self)@.has_capacity(),
            quantity > 0,
            !old(self)@.has_id(id),
            fok ==> fok_fillable(old(self)@.queue(opposite(side)), side, order_type, limit, tid@, stp, quantity as int),
        ensures
            final(self).wf(),
            final(self)@.next_seq == old(self)@.next_seq,
            final(self)@.queue(side) == old(self)@.queue(side),
            !final(self)@.has_id(id),
            front_consumed(old(self)@.queue(opposite(side)), final(self)@.queue(opposite(side)), m.consumed@),
            trades_in_priority(side, old(self)@.queue(opposite(side)), m.trades@, m.sources@, m.consumed@),
            trades_well_numbered(m.trades@, old(self)@.next_trade_id as int, id, side, order_type, limit, now),
            final(self)@.next_trade_id == old(self)@.next_trade_id + m.trades@.len(),
            final(self)@.load() <= old(self)@.load() + 1,
            0 <= m.remaining <= quantity,
            m.killed ==> m.remaining == 0,
            traded_quantity(m.trades@) + m.remaining <= quantity,
            !m.stp_hit ==> traded_quantity(m.trades@) + m.remaining == quantity,
            traded_quantity(m.trades@) <= queue_quantity(old(self)@.queue(opposite(side))),
            !m.stp_hit ==> traded_quantity(m.trades@) + queue_quantity(final(self)@.queue(opposite(side)))
                == queue_quantity(old(self)@.queue(opposite(side))),
            fok ==> traded_quantity(m.trades@) == quantity && m.remaining == 0,
            m.remaining > 0 && !m.killed ==> final(self)@.queue(opposite(side)).len() == 0
                || !crosses(side, order_type, limit, final(self)@.queue(opposite(side))[0].price),
            m.stp_hit ==> stp != StpMode::Allow,
            !m.stp_hit ==> m.cancelled@.len() == 0,
            fills_exactly(tid@, stp, id, old(self)@.queue(opposite(side)), final(self)@.queue(opposite(side)),
                m.trades@, m.sources@, m.consumed@, m.stp_hit, m.cancelled@, m.remaining),
            m.trades@.len() > 0 ==> final(self)@.last_trade_price == m.trades@.last().price
                && final(self)@.last_trade_qty == m.trades@.last().quantity
                && final(self)@.last_trade_ns == now,
            m.trades@.len() == 0 ==> final(self)@.last_trade_price == old(self)@.last_trade_price
                && final(self)@.last_trade_qty == old(self)@.last_trade_qty
                && final(self)@.last_trade_ns == old(self)@.last_trade_ns,
    {
        let ghost b0 = self@;
        let mut opp: Vec<RestingOrder> = Vec::new();
        match side {
            Side::Buy => std::mem::swap(&mut opp, &mut self.asks),
            Side::Sell => std::mem::swap(&mut opp, &mut self.bids),
        }
        let m = match_queue(
            &mut opp,
            self.next_seq,
            tid,
            id,
            side,
            order_type,
            limit,
            stp,
            quantity,
            fok,
            self.next_trade_id,
            now,
        );
        match side {
            Side::Buy => std::mem::swap(&mut opp, &mut self.asks),
            Side::Sell => std::mem::swap(&mut opp, &mut self.bids),
        }
        self.next_trade_id = self.next_trade_id + m.trades.len() as u64;
        if m.trades.len() > 0 {
            let last = m.trades[m.trades.len() - 1];
            self.last_trade_price = last.price;
            self.last_trade_qty = last.quantity;
            self.last_trade_ns = last.timestamp_ns;
        }
        let ghost b_mid = self@;
        let mut i: usize = 0;
        while i < m.removed.len()
            invariant
                i <= m.removed@.len(),
                self@ == (BookView { index: self@.index, ..b_mid }),
                forall|x: u64|
                    #[trigger] self@.index.contains_key(x) == (b0.index.contains_key(x)
                        && !m.removed@.subrange(0, i as int).contains(x)),
                forall|x: u64| #[trigger] self@.index.contains_key(x) ==> self@.index[x] == b0.index[x],
            decreases m.removed@.len() - i,
        {
            let ghost before_i = self@.index;
            self.index.remove(&m.removed[i]);
            proof {
                let prev = m.removed@.subrange(0, i as int);
                let next = m.removed@.subrange(0, i + 1);
                let r = m.removed@[i as int];
                assert(self@.index == before_i.remove(r));
                assert forall|x: u64| #[trigger] next.contains(x) == (prev.contains(x) || x == r) by {
                    if next.contains(x) {
                        let n = choose|n: int| 0 <= n < next.len() && next[n] == x;
                        if n < prev.len() {
                            assert(prev[n] == x);
                        }
                    }
                    if prev.contains(x) {
                        let n = choose|n: int| 0 <= n < prev.len() && prev[n] == x;
                        assert(next[n] == x);
                    }
                    if x == r {
                        assert(next[i as int] == x);
                    }
                }
            }
            i = i + 1;
        }
        proof {
            assert(m.removed@.subrange(0, i as int) =~= m.removed@);
            lemma_index_after_match(b0, self@, side, m.consumed@, m.removed@);
        }
        proof {
            let opp0 = b0.queue(opposite(side));
            let opp1 = self@.queue(opposite(side));
            let k = m.consumed@;
            lemma_front_ids(opp0, opp1, k);
            if opp1.len() > 0 && opp0.len() > 0 {
                lemma_ahead_prices(opposite(side), opp0, b0.next_seq, 0, k);
            }
            assert forall|i: int, j: int|
                0 <= i < self@.bids.len() && 0 <= j < self@.asks.len() implies #[trigger] self@.bids[i].id
                    != #[trigger] self@.asks[j].id by {
                match side {
                    Side::Buy => { assert(self@.asks[j].id == b0.asks[k + j].id); },
                    Side::Sell => { assert(self@.bids[i].id == b0.bids[k + i].id); },
                }
            }
            assert forall|j: int| 0 <= j < opp1.len() implies #[trigger] opp1[j].id != id by {
                assert(opp1[j].id == opp0[k + j].id);
            }
        }
        m
    }

    /// Rests an order at the tail of its price level.
    fn rest_order(&mut self, tid: String, id: u64, side: Side, price: i64, quantity: i64)
        requires
            old(self).wf(),
            old(self)@.next_seq < u64::MAX,
            !old(self)@.has_id(id),
            price > 0,
            quantity > 0,
            old(self)@.queue(opposite(side)).len() == 0 || !crosses(
                side,
                OrderType::Limit,
                price,
                old(self)@.queue(opposite(side))[0].price,
            ),
        ensures
            final(self).wf(),
            final(self)@.next_seq == old(self)@.next_seq + 1,
            final(self)@.queue(opposite(side)) == old(self)@.queue(opposite(side)),
            inserted(old(self)@.queue(side), final(self)@.queue(side), id, tid@, price, quantity, old(self)@.next_seq),
            final(self)@.has_id(id),
            final(self)@.next_trade_id == old(self)@.next_trade_id,
            final(self)@.last_trade_price == old(self)@.last_trade_price,
            final(self)@.last_trade_qty == old(self)@.last_trade_qty,
            final(self)@.last_trade_ns == old(self)@.last_trade_ns,
    {
        let ghost b0 = self@;
        let ghost tv = tid@;
        let o = RestingOrder { id, trader_id: tid, price, quantity, arrival_seq: self.next_seq };
        let ghost mut p: int = 0;
        match side {
            Side::Buy => {
                let pos = insert_position(&self.bids, Side::Buy, price);
                proof {
                    lemma_insert_keeps_queue(Side::Buy, self.bids@, self.next_seq, pos as int, o);
                    assert(self.bids@.insert(pos as int, o).remove(pos as int) =~= self.bids@);
                    p = pos as int;
                    if pos > 0 && b0.bids.len() > 0 {
                        lemma_ahead_prices(Side::Buy, b0.bids, b0.next_seq, 0, 0);
                    }
                }
                self.bids.insert(pos, o);
            },
            Side::Sell => {
                let pos = insert_position(&self.asks, Side::Sell, price);
                proof {
                    lemma_insert_keeps_queue(Side::Sell, self.asks@, self.next_seq, pos as int, o);
                    assert(self.asks@.insert(pos as int, o).remove(pos as int) =~= self.asks@);
                    p = pos as int;
                }
                self.asks.insert(pos, o);
            },
        }
        self.next_seq = self.next_seq + 1;
        self.index.insert(id, side);
        proof {
            lemma_queue_wf_bump(opposite(side), b0.queue(opposite(side)), b0.next_seq, self.next_seq);
            lemma_index_after_insert(b0, self@, side, p, o);
            let own1 = self@.queue(side);
            assert(own1[p] == o);
            assert(own1.remove(p) == b0.queue(side));
            assert(inserted(b0.queue(side), own1, id, tv, price, quantity, b0.next_seq));
            assert(queue_has_id(own1, id));
            assert forall|i: int, j: int|
                0 <= i < self@.bids.len() && 0 <= j < self@.asks.len() implies #[trigger] self@.bids[i].id
                    != #[trigger] self@.asks[j].id by {
                match side {
                    Side::Buy => {
                        if i != p {
                            let qi = if i < p { i } else { i - 1 };
                            assert(self@.bids[i] == b0.bids[qi]);
                        } else {
                            assert(b0.asks[j].id != id);
                        }
                    },
                    Side::Sell => {
                        if j != p {
                            let qj = if j < p { j } else { j - 1 };
                            assert(self@.asks[j] == b0.asks[qj]);
                        } else {
                            assert(b0.bids[i].id != id);
                        }
                    },
                }
            }
            if self@.bids.len() > 0 && self@.asks.len() > 0 {
                match side {
                    Side::Buy => {
                        if p > 0 {
                            assert(self@.bids[0] == b0.bids[0]);
                        }
                    },
                    Side::Sell => {
                        if p > 0 {
                            assert(self@.asks[0] == b0.asks[0]);
                        }
                    },
                }
            }
        }
    }

    /// Submits an order: checks it, matches it against the opposite side in
    /// price-time priority, applies self-trade prevention, and rests what is
    /// left of a limit GTC order.
    pub fn add_order(
        &mut self,
        trader_id: &str,
        id: u64,
        price: Option<i64>,
        quantity: i64,
        side: Side,
        order_type: OrderType,
        time_in_force: TimeInForce,
        stp_mode: StpMode,
        timestamp_ns: i64,
    ) -> (r: OrderResult)
        requires
            old(self).wf(),
            old(self)@.has_capacity(),
        ensures
            final(self).wf(),
            r.accepted == admits(
                old(self)@,
                trader_id@,
                id,
                price,
                quantity,
                side,
                order_type,
                time_in_force,
                stp_mode,
            ),
            !r.accepted ==> final(self)@ == old(self)@ && r.trades@.len() == 0
                && r.reject_reason is Some && r.remaining_quantity == quantity,
            !r.accepted ==> r.reject_reason->0@ == add_reject_text(
                old(self)@,
                id,
                price,
                quantity,
                order_type,
            ),
            final(self)@.next_seq <= old(self)@.next_seq + 1,
            final(self)@.load() <= old(self)@.load() + 2,
            r.accepted ==> r.reject_reason is None && executes(
                old(self)@,
                final(self)@,
                r,
                trader_id@,
                id,
                price,
                quantity,
                side,
                order_type,
                time_in_force,
                stp_mode,
                timestamp_ns,
            ),
    {
        let ghost b0 = self@;
        if quantity <= 0 {
            return rejection("quantity must be positive", quantity);
        }
        let limit: i64 = match price {
            Some(p) => p,
            None => 0,
        };
        if order_type == OrderType::Limit && (price.is_none() || limit <= 0) {
            return rejection("limit order requires a positive price", quantity);
        }
        if self.contains_order(id) {
            return rejection("duplicate order id", quantity);
        }
        let tid = String::from_str(trader_id);
        let fok = time_in_force == TimeInForce::Fok;
        proof {
            lemma_queue_wf_bump(Side::Buy, self.bids@, self.next_seq, u64::MAX);
            lemma_queue_wf_bump(Side::Sell, self.asks@, self.next_seq, u64::MAX);
        }
        if fok {
            let ok = match side {
                Side::Buy => fok_check(&self.asks, side, order_type, limit, &tid, stp_mode, quantity),
                Side::Sell => fok_check(&self.bids, side, order_type, limit, &tid, stp_mode, quantity),
            };
            if !ok {
                return rejection("fill-or-kill order cannot be filled in full", quantity);
            }
        }
        let m = self.run_match(&tid, id, side, order_type, limit, stp_mode, quantity, fok, timestamp_ns);
        let ghost b_mid = self@;
        let rest = m.remaining > 0 && order_type == OrderType::Limit && time_in_force == TimeInForce::Gtc;
        if rest {
            self.rest_order(tid, id, side, limit, m.remaining);
        }
        let action = if m.stp_hit {
            Some(stp_mode_name(stp_mode))
        } else {
            None
        };
        let r = OrderResult {
            accepted: true,
            reject_reason: None,
            trades: m.trades,
            remaining_quantity: m.remaining,
            stp_result: StpResult { self_trade: m.stp_hit, cancelled_orders: m.cancelled, action },
        };
        proof {
            let opp0 = b0.queue(opposite(side));
            let opp1 = self@.queue(opposite(side));
            assert(front_consumed(opp0, opp1, m.consumed@));
            assert(trades_in_priority(side, opp0, r.trades@, m.sources@, m.consumed@));
            assert(fills_exactly(trader_id@, stp_mode, id, opp0, opp1, r.trades@, m.sources@, m.consumed@,
                m.stp_hit, m.cancelled@, m.remaining));
            lemma_cancelled_gone(b0, b_mid, self@, side, id, m.consumed@, m.cancelled@, m.remaining);
        }
        r
    }

    /// Takes the order at position `pos` of the queue of `side` off the book.
    fn take_order(&mut self, side: Side, pos: usize) -> (o: RestingOrder)
        requires
            old(self).wf(),
            pos < old(self)@.queue(side).len(),
        ensures
            final(self).wf(),
            o == old(self)@.queue(side)[pos as int],
            final(self)@.queue(side) == old(self)@.queue(side).remove(pos as int),
            final(self)@.queue(opposite(side)) == old(self)@.queue(opposite(side)),
            !final(self)@.has_id(o.id),
            final(self)@.next_seq == old(self)@.next_seq,
            final(self)@.next_trade_id == old(self)@.next_trade_id,
            final(self)@.last_trade_price == old(self)@.last_trade_price,
            final(self)@.last_trade_qty == old(self)@.last_trade_qty,
            final(self)@.last_trade_ns == old(self)@.last_trade_ns,
    {
        let ghost b0 = self@;
        let o = match side {
            Side::Buy => self.bids.remove(pos),
            Side::Sell => self.asks.remove(pos),
        };
        self.index.remove(&o.id);
        proof {
            let p = pos as int;
            lemma_index_after_remove(b0, self@, side, p);
            lemma_remove_keeps_queue(side, b0.queue(side), b0.next_seq, p);
            let q1 = self@.queue(side);
            assert forall|i: int, j: int|
                0 <= i < self@.bids.len() && 0 <= j < self@.asks.len() implies #[trigger] self@.bids[i].id
                    != #[trigger] self@.asks[j].id by {
                match side {
                    Side::Buy => { assert(self@.bids[i] == b0.bids[if i < p { i } else { i + 1 }]); },
                    Side::Sell => { assert(self@.asks[j] == b0.asks[if j < p { j } else { j + 1 }]); },
                }
            }
            if self@.bids.len() > 0 && self@.asks.len() > 0 {
                match side {
                    Side::Buy => { lemma_ahead_prices(Side::Buy, b0.bids, b0.next_seq, 0, if 0 < p { 0 } else { 1 }); },
                    Side::Sell => { lemma_ahead_prices(Side::Sell, b0.asks, b0.next_seq, 0, if 0 < p { 0 } else { 1 }); },
                }
            }
            assert forall|j: int| 0 <= j < q1.len() implies #[trigger] q1[j].id != o.id by {
                assert(q1[j] == b0.queue(side)[if j < p { j } else { j + 1 }]);
            }
            let oq = b0.queue(opposite(side));
            assert forall|j: int| 0 <= j < oq.len() implies #[trigger] oq[j].id != o.id by {
                match side {
                    Side::Buy => { assert(b0.bids[p].id != b0.asks[j].id); },
                    Side::Sell => { assert(b0.bids[j].id != b0.asks[p].id); },
                }
            }
        }
        o
    }

    /// Cancels a resting order. Returns whether it was on the book.
    pub fn cancel_order(&mut self, id: u64) -> (r: bool)
        requires
            old(self).wf(),
        ensures
            final(self).wf(),
            r == old(self)@.has_id(id),
            !r ==> final(self)@ == old(self)@,
            !final(self)@.has_id(id),
            r ==> cancels(old(self)@, final(self)@, id),
            final(self)@.next_seq == old(self)@.next_seq,
            final(self)@.load() <= old(self)@.load(),
            final(self)@.next_trade_id == old(self)@.next_trade_id,
            final(self)@.last_trade_price == old(self)@.last_trade_price,
            final(self)@.last_trade_qty == old(self)@.last_trade_qty,
    {
        let ghost b0 = self@;
        match self.locate(id) {
            Some((side, pos)) => {
                self.take_order(side, pos);
                assert(located(b0, side, pos as int, id));
                true
            },
            None => false,
        }
    }

    /// Changes the price or quantity of a resting order. A smaller quantity at
    /// the same price keeps the order's place; any other change reposts it at
    /// the tail of its new price level under the same id. A change that would
    /// make the order marketable is refused.
    pub fn modify_order(&mut self, id: u64, new_price: i64, new_quantity: i64) -> (r: ModifyResult)
        requires
            old(self).wf(),
            old(self)@.has_capacity(),
        ensures
            final(self).wf(),
            r.accepted == (old(self)@.has_id(id) && new_price > 0 && new_quantity > 0
                && !modify_crosses(old(self)@, id, new_price)),
            !r.accepted ==> final(self)@ == old(self)@ && r.reject_reason is Some,
            !old(self)@.has_id(id) ==> r.reject_reason is Some && r.reject_reason->0@ == "order not found"@,
            old(self)@.has_id(id) && modify_crosses(old(self)@, id, new_price) ==> r.reject_reason is Some
                && r.reject_reason->0@ == "modify would cross the spread"@,
            old(self)@.has_id(id) && !modify_crosses(old(self)@, id, new_price) && !(new_price > 0
                && new_quantity > 0) ==> r.reject_reason is Some && r.reject_reason->0@
                == "price and quantity must be positive"@,
            final(self)@.next_seq <= old(self)@.next_seq + 1,
            final(self)@.load() == old(self)@.load(),
            r.new_price == new_price,
            r.new_quantity == new_quantity,
            r.accepted ==> r.reject_reason is None && modifies(
                old(self)@,
                final(self)@,
                id,
                new_price,
                new_quantity,
                r.old_price,
                r.old_quantity,
            ),
            final(self)@.next_trade_id == old(self)@.next_trade_id,
            final(self)@.last_trade_price == old(self)@.last_trade_price,
            final(self)@.last_trade_qty == old(self)@.last_trade_qty,
    {
        let ghost b0 = self@;
        let (side, pos) = match self.locate(id) {
            Some(found) => found,
            None => {
                return ModifyResult {
                    accepted: false,
                    reject_reason: Some(String::from_str("order not found")),
                    old_price: 0,
                    new_price,
                    old_quantity: 0,
                    new_quantity,
                };
            },
        };
        proof {
            if side == Side::Sell {
                if queue_has_id(b0.bids, id) {
                    let i = choose|i: int| 0 <= i < b0.bids.len() && #[trigger] b0.bids[i].id == id;
                    assert(b0.bids[i].id != b0.asks[pos as int].id);
                }
            } else {
                assert(b0.bids[pos as int].id == id);
            }
        }
        let (old_price, old_quantity) = match side {
            Side::Buy => (self.bids[pos].price, self.bids[pos].quantity),
            Side::Sell => (self.asks[pos].price, self.asks[pos].quantity),
        };
        let crossing = match side {
            Side::Buy => self.asks.len() > 0 && new_price >= self.asks[0].price,
            Side::Sell => self.bids.len() > 0 && new_price <= self.bids[0].price,
        };
        if crossing {
            return ModifyResult {
                accepted: false,
                reject_reason: Some(String::from_str("modify would cross the spread")),
                old_price,
                new_price,
                old_quantity,
                new_quantity,
            };
        }
        if new_price <= 0 || new_quantity <= 0 {
            return ModifyResult {
                accepted: false,
                reject_reason: Some(String::from_str("price and quantity must be positive")),
                old_price,
                new_price,
                old_quantity,
                new_quantity,
            };
        }
        if new_price == old_price && new_quantity < old_quantity {
            self.set_quantity(side, pos, new_quantity);
        } else {
            let o = self.take_order(side, pos);
            self.rest_order(o.trader_id, id, side, new_price, new_quantity);
        }
        assert(located(b0, side, pos as int, id));
        ModifyResult { accepted: true, reject_reason: None, old_price, new_price, old_quantity, new_quantity }
    }

    /// Lowers the quantity of a resting order in place, keeping its place in the queue.
    fn set_quantity(&mut self, side: Side, pos: usize, quantity: i64)
        requires
            old(self).wf(),
            pos < old(self)@.queue(side).len(),
            0 < quantity <= old(self)@.queue(side)[pos as int].quantity,
        ensures
            final(self).wf(),
            final(self)@.queue(side) == old(self)@.queue(side).update(pos as int, final(self)@.queue(side)[pos as int]),
            reduced(final(self)@.queue(side)[pos as int], old(self)@.queue(side)[pos as int]),
            final(self)@.queue(side)[pos as int].quantity == quantity,
            final(self)@.queue(opposite(side)) == old(self)@.queue(opposite(side)),
            final(self)@.next_seq == old(self)@.next_seq,
            final(self)@.next_trade_id == old(self)@.next_trade_id,
            final(self)@.last_trade_price == old(self)@.last_trade_price,
            final(self)@.last_trade_qty == old(self)@.last_trade_qty,
            final(self)@.last_trade_ns == old(self)@.last_trade_ns,
    {
        let ghost b0 = self@;
        let ghost p = pos as int;
        match side {
            Side::Buy => {
                let o = self.bids.remove(pos);
                let o2 = RestingOrder { id: o.id, trader_id: o.trader_id, price: o.price, quantity, arrival_seq: o.arrival_seq };
                self.bids.insert(pos, o2);
                proof {
                    assert(self.bids@ =~= b0.bids.update(p, o2));
                    lemma_reduce_at_keeps_queue(Side::Buy, b0.bids, b0.next_seq, p, o2);
                }
            },
            Side::Sell => {
                let o = self.asks.remove(pos);
                let o2 = RestingOrder { id: o.id, trader_id: o.trader_id, price: o.price, quantity, arrival_seq: o.arrival_seq };
                self.asks.insert(pos, o2);
                proof {
                    assert(self.asks@ =~= b0.asks.update(p, o2));
                    lemma_reduce_at_keeps_queue(Side::Sell, b0.asks, b0.next_seq, p, o2);
                }
            },
        }
        proof {
            lemma_index_after_update(b0, self@, side, p, self@.queue(side)[p]);
            assert forall|i: int, j: int|
                0 <= i < self@.bids.len() && 0 <= j < self@.asks.len() implies #[trigger] self@.bids[i].id
                    != #[trigger] self@.asks[j].id by {
                assert(b0.bids[i].id != b0.asks[j].id);
            }
            if self@.bids.len() > 0 && self@.asks.len() > 0 {
                assert(self@.bids[0].price == b0.bids[0].price);
                assert(self@.asks[0].price == b0.asks[0].price);
            }
        }
    }

    /// Top of book and last trade.
    pub fn get_snapshot(&self) -> (r: PriceData)
        requires
            self.wf(),
        ensures
            r.bid_price == self@.best_bid(),
            r.ask_price == self@.best_ask(),
            self@.bids.len() > 0 && self@.asks.len() > 0 ==> r.spread == self@.best_ask() - self@.best_bid()
                && r.mid_price == (self@.best_bid() + self@.best_ask()) / 2,
            !(self@.bids.len() > 0 && self@.asks.len() > 0) ==> r.spread == 0 && r.mid_price == 0,
            r.last_trade_price == self@.last_trade_price,
            r.last_trade_qty == self@.last_trade_qty,
            r.timestamp_ns == self@.last_trade_ns,
    {
        PriceData {
            timestamp_ns: self.last_trade_ns,
            bid_price: self.get_best_bid(),
            ask_price: self.get_best_ask(),
            mid_price: self.get_mid_price(),
            spread: self.get_spread(),
            last_trade_price: self.last_trade_price,
            last_trade_qty: self.last_trade_qty,
        }
    }

    /// Best ask less best bid; zero unless both sides hold orders.
    pub fn get_spread(&self) -> (r: i64)
        requires
            self.wf(),
        ensures
            self@.bids.len() > 0 && self@.asks.len() > 0 ==> r == self@.best_ask() - self@.best_bid(),
            !(self@.bids.len() > 0 && self@.asks.len() > 0) ==> r == 0,
    {
        if self.bids.len() > 0 && self.asks.len() > 0 {
            self.asks[0].price - self.bids[0].price
        } else {
            0
        }
    }

    /// The mean of best bid and best ask, rounded down; zero unless both sides hold orders.
    pub fn get_mid_price(&self) -> (r: i64)
        requires
            self.wf(),
        ensures
            self@.bids.len() > 0 && self@.asks.len() > 0 ==> r == (self@.best_bid() + self@.best_ask()) / 2,
            !(self@.bids.len() > 0 && self@.asks.len() > 0) ==> r == 0,
    {
        if self.bids.len() > 0 && self.asks.len() > 0 {
            let bid = self.bids[0].price;
            let ask = self.asks[0].price;
            assert(bid > 0 && ask > bid);
            let r = bid + (ask - bid) / 2;
            assert(r == (bid + ask) / 2) by (nonlinear_arith)
                requires r == bid + (ask - bid) / 2, ask > bid, bid > 0;
            r
        } else {
            0
        }
    }

    pub fn get_last_trade_price(&self) -> (r: i64)
        ensures
            r == self@.last_trade_price,
    {
        self.last_trade_price
    }

    pub fn get_last_trade_qty(&self) -> (r: i64)
        ensures
            r == self@.last_trade_qty,
    {
        self.last_trade_qty
    }
}

} // verus!
