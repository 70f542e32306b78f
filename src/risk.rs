//! Pre-trade risk checks, the position ledger, and the registry of who placed
//! which order.
use dashmap::DashMap;
use vstd::prelude::*;
use vstd::string::StringExecFns;

use crate::config::RiskConfig;
use crate::error::ApiError;
use crate::ledger::{
    lemma_total_insert, new_position_map, new_registry, position_entries, position_lookup,
    position_store, registry_drop, registry_entries, registry_lookup, registry_store, total,
    OrderRegistration,
};
use crate::text::{i64_text, i64_to_text};
use crate::types::{MarketSnapshot, OrderType, Side};

verus! {

/// A trader's position in a ledger; zero for a trader it has never seen.
pub open spec fn position_in(m: Map<Seq<char>, i64>, trader: Seq<char>) -> int {
    if m.contains_key(trader) {
        m[trader] as int
    } else {
        0
    }
}

/// The trader of each registered order.
pub open spec fn registered_traders(reg: Map<u64, OrderRegistration>) -> Map<u64, Seq<char>> {
    Map::new(|k: u64| reg.contains_key(k), |k: u64| reg[k].trader_id@)
}

/// The trader registered for an order id; empty where none is.
pub open spec fn registered_trader(reg: Map<u64, Seq<char>>, id: u64) -> Seq<char> {
    if reg.contains_key(id) {
        reg[id]
    } else {
        Seq::empty()
    }
}

pub open spec fn fits_i64(x: int) -> bool {
    i64::MIN <= x <= i64::MAX
}

/// Adds `delta` to the position of `who`; an empty trader id is passed over.
pub open spec fn shift(m: Map<Seq<char>, i64>, who: Seq<char>, delta: int) -> Map<Seq<char>, i64> {
    if who.len() == 0 {
        m
    } else {
        m.insert(who, (position_in(m, who) + delta) as i64)
    }
}

/// Both updates of one trade stay within `i64`.
pub open spec fn trade_fits(m: Map<Seq<char>, i64>, buyer: Seq<char>, seller: Seq<char>, q: int) -> bool {
    &&& buyer.len() == 0 || fits_i64(position_in(m, buyer) + q)
    &&& seller.len() == 0 || fits_i64(position_in(shift(m, buyer, q), seller) - q)
}

/// One trade of `q` moves the buyer up and the seller down by `q`. A trade
/// whose update would not fit in `i64` leaves the ledger as it is.
pub open spec fn apply_trade(m: Map<Seq<char>, i64>, buyer: Seq<char>, seller: Seq<char>, q: int) -> Map<
    Seq<char>,
    i64,
> {
    if trade_fits(m, buyer, seller, q) {
        shift(shift(m, buyer, q), seller, -q)
    } else {
        m
    }
}

/// The buyer of a trade: the submitter when it bought, else whoever registered the buy order.
pub open spec fn buyer_of(
    reg: Map<u64, Seq<char>>,
    submitter: Seq<char>,
    side: Side,
    t: (u64, u64, i64),
) -> Seq<char> {
    if side == Side::Buy {
        submitter
    } else {
        registered_trader(reg, t.0)
    }
}

/// The seller of a trade: the submitter when it sold, else whoever registered the sell order.
pub open spec fn seller_of(
    reg: Map<u64, Seq<char>>,
    submitter: Seq<char>,
    side: Side,
    t: (u64, u64, i64),
) -> Seq<char> {
    if side == Side::Sell {
        submitter
    } else {
        registered_trader(reg, t.1)
    }
}

/// The ledger after the trades of one submission, in order.
pub open spec fn apply_trades(
    m: Map<Seq<char>, i64>,
    reg: Map<u64, Seq<char>>,
    submitter: Seq<char>,
    side: Side,
    trades: Seq<(u64, u64, i64)>,
) -> Map<Seq<char>, i64>
    decreases trades.len(),
{
    if trades.len() == 0 {
        m
    } else {
        let t = trades.last();
        apply_trade(
            apply_trades(m, reg, submitter, side, trades.drop_last()),
            buyer_of(reg, submitter, side, t),
            seller_of(reg, submitter, side, t),
            t.2 as int,
        )
    }
}

/// The text of a rejection by size, below the minimum.
pub open spec fn size_low_text(q: i64, min: i64) -> Seq<char> {
    "Order size "@ + i64_text(q) + " below minimum "@ + i64_text(min)
}

/// The text of a rejection by size, above the maximum.
pub open spec fn size_high_text(q: i64, max: i64) -> Seq<char> {
    "Order size "@ + i64_text(q) + " exceeds maximum "@ + i64_text(max)
}

/// The text of a rejection by price band.
pub open spec fn band_text(price: i64, reference: i64, bps: i64) -> Seq<char> {
    "Price "@ + i64_text(price) + " outside band of "@ + i64_text(bps) + " bps around reference "@
        + i64_text(reference)
}

/// The text of a rejection by position limit.
pub open spec fn position_text(current: i64, q: i64, max: i64) -> Seq<char> {
    "Position limit exceeded: current "@ + i64_text(current) + ", order "@ + i64_text(q)
        + " (limit "@ + i64_text(max) + ")"@
}

/// `r` is a risk rejection with text `text`.
pub open spec fn risk_rejected(r: Result<(), ApiError>, text: Seq<char>) -> bool {
    match r {
        Err(ApiError::RiskRejection(m)) => m@ == text,
        _ => false,
    }
}

/// The price that the band is drawn around: the mid price when there is one,
/// else the last trade price; none unless it is positive.
pub open spec fn band_reference(s: MarketSnapshot) -> Option<i64> {
    let r = match s.mid_price {
        Some(m) => Some(m),
        None => s.last_trade_price,
    };
    match r {
        Some(x) => if x > 0 {
            Some(x)
        } else {
            None
        },
        None => None,
    }
}

/// `price` lies within `bps` basis points of `reference`, bounds included.
pub open spec fn in_band(price: i64, reference: i64, bps: i64) -> bool {
    &&& price * 10000 >= reference * (10000 - bps)
    &&& price * 10000 <= reference * (10000 + bps)
}

/// The position a trader would reach if an order filled in full.
pub open spec fn projected(current: int, q: i64, side: Side) -> int {
    match side {
        Side::Buy => current + q,
        Side::Sell => current - q,
    }
}

pub open spec fn abs(x: int) -> int {
    if x < 0 {
        -x
    } else {
        x
    }
}

/// The checks of `check_order`, in order: size, then the price band for a
/// priced limit order, then the position limit.
pub open spec fn order_passes(
    c: RiskConfig,
    current: int,
    quantity: i64,
    side: Side,
    order_type: OrderType,
    price: Option<i64>,
    s: MarketSnapshot,
) -> bool {
    &&& c.min_order_size <= quantity <= c.max_order_size
    &&& (order_type == OrderType::Limit && price is Some && band_reference(s) is Some) ==> in_band(
        price->0,
        band_reference(s)->0,
        c.price_band_bps,
    )
    &&& abs(projected(current, quantity, side)) <= c.max_position_per_trader
}

fn rejected(text: String) -> (r: Result<(), ApiError>)
    ensures
        risk_rejected(r, text@),
{
    Err(ApiError::RiskRejection(text))
}

/// Risk checks and the ledgers they read.
pub struct RiskService {
    config: RiskConfig,
    positions: DashMap<String, i64>,
    order_registry: DashMap<u64, OrderRegistration>,
}

impl RiskService {
    /// The positions, by trader id.
    pub closed spec fn positions(&self) -> Map<Seq<char>, i64> {
        position_entries(self.positions)
    }

    /// The registered orders, by order id.
    pub closed spec fn registry(&self) -> Map<u64, OrderRegistration> {
        registry_entries(self.order_registry)
    }

    pub closed spec fn config(&self) -> RiskConfig {
        self.config
    }

    pub open spec fn wf(&self) -> bool {
        self.positions().dom().finite()
    }

    pub fn new(config: RiskConfig) -> (r: Self)
        ensures
            r.wf(),
            r.positions().dom().len() == 0,
            r.registry().dom().len() == 0,
            r.config() == config,
    {
        RiskService { config, positions: new_position_map(), order_registry: new_registry() }
    }

    /// The size bounds: at least the minimum, at most the maximum.
    pub fn check_order_size(&self, quantity: i64) -> (r: Result<(), ApiError>)
        ensures
            r is Ok <==> self.config().min_order_size <= quantity <= self.config().max_order_size,
            quantity < self.config().min_order_size ==> risk_rejected(
                r,
                size_low_text(quantity, self.config().min_order_size),
            ),
            self.config().min_order_size <= quantity && quantity > self.config().max_order_size
                ==> risk_rejected(r, size_high_text(quantity, self.config().max_order_size)),
    {
        if quantity < self.config.min_order_size {
            let t = String::from_str("Order size ").concat(i64_to_text(quantity).as_str()).concat(
                " below minimum ",
            ).concat(i64_to_text(self.config.min_order_size).as_str());
            return rejected(t);
        }
        if quantity > self.config.max_order_size {
            let t = String::from_str("Order size ").concat(i64_to_text(quantity).as_str()).concat(
                " exceeds maximum ",
            ).concat(i64_to_text(self.config.max_order_size).as_str());
            return rejected(t);
        }
        Ok(())
    }

    /// The price band around the mid price, or the last trade price where
    /// there is no mid; passed when neither is known.
    pub fn check_price_band(&self, price: i64, snapshot: &MarketSnapshot) -> (r: Result<(), ApiError>)
        ensures
            r is Ok <==> (band_reference(*snapshot) is None || in_band(
                price,
                band_reference(*snapshot)->0,
                self.config().price_band_bps,
            )),
            r is Err ==> risk_rejected(
                r,
                band_text(price, band_reference(*snapshot)->0, self.config().price_band_bps),
            ),
    {
        let reference = match snapshot.mid_price {
            Some(m) => Some(m),
            None => snapshot.last_trade_price,
        };
        let reference = match reference {
            Some(x) => if x > 0 {
                x
            } else {
                return Ok(());
            },
            None => {
                return Ok(());
            },
        };
        let bps = self.config.price_band_bps;
        let p = price as i128 * 10000;
        let lo_factor = 10000 - bps as i128;
        let hi_factor = 10000 + bps as i128;
        proof {
            let b = bps as int;
            assert(-0x8000_0000_0000_0000 <= b < 0x8000_0000_0000_0000);
            assert(0 < reference < 0x8000_0000_0000_0000);
            assert(reference * lo_factor <= 0x8000_0000_0000_0000 * 0x8000_0000_0000_2710)
                by (nonlinear_arith)
                requires 0 < reference < 0x8000_0000_0000_0000, -0x8000_0000_0000_2710 <= lo_factor <= 0x8000_0000_0000_2710;
            assert(reference * lo_factor >= -0x8000_0000_0000_0000 * 0x8000_0000_0000_2710)
                by (nonlinear_arith)
                requires 0 < reference < 0x8000_0000_0000_0000, -0x8000_0000_0000_2710 <= lo_factor <= 0x8000_0000_0000_2710;
            assert(reference * hi_factor <= 0x8000_0000_0000_0000 * 0x8000_0000_0000_2710)
                by (nonlinear_arith)
                requires 0 < reference < 0x8000_0000_0000_0000, -0x8000_0000_0000_2710 <= hi_factor <= 0x8000_0000_0000_2710;
            assert(reference * hi_factor >= -0x8000_0000_0000_0000 * 0x8000_0000_0000_2710)
                by (nonlinear_arith)
                requires 0 < reference < 0x8000_0000_0000_0000, -0x8000_0000_0000_2710 <= hi_factor <= 0x8000_0000_0000_2710;
        }
        let lower = reference as i128 * lo_factor;
        let upper = reference as i128 * hi_factor;
        if p < lower || p > upper {
            let t = String::from_str("Price ").concat(i64_to_text(price).as_str()).concat(
                " outside band of ",
            ).concat(i64_to_text(bps).as_str()).concat(" bps around reference ").concat(
                i64_to_text(reference).as_str(),
            );
            return rejected(t);
        }
        Ok(())
    }

    /// The position limit, on the position the trader would reach if the order filled in full.
    pub fn check_position_limit(&self, trader_id: &str, quantity: i64, side: Side) -> (r: Result<
        (),
        ApiError,
    >)
        ensures
            r is Ok <==> abs(projected(position_in(self.positions(), trader_id@), quantity, side))
                <= self.config().max_position_per_trader,
            r is Err ==> risk_rejected(
                r,
                position_text(
                    position_in(self.positions(), trader_id@) as i64,
                    quantity,
                    self.config().max_position_per_trader,
                ),
            ),
    {
        let current: i64 = match position_lookup(&self.positions, trader_id) {
            Some(v) => v,
            None => 0,
        };
        let projected: i128 = match side {
            Side::Buy => current as i128 + quantity as i128,
            Side::Sell => current as i128 - quantity as i128,
        };
        let magnitude: i128 = if projected < 0 {
            -projected
        } else {
            projected
        };
        if magnitude > self.config.max_position_per_trader as i128 {
            let t = String::from_str("Position limit exceeded: current ").concat(
                i64_to_text(current).as_str(),
            ).concat(", order ").concat(i64_to_text(quantity).as_str()).concat(" (limit ").concat(
                i64_to_text(self.config.max_position_per_trader).as_str(),
            ).concat(")");
            return rejected(t);
        }
        Ok(())
    }

    /// All pre-trade checks, stopping at the first that fails.
    pub fn check_order(
        &self,
        trader_id: &str,
        quantity: i64,
        side: Side,
        order_type: OrderType,
        price: Option<i64>,
        snapshot: &MarketSnapshot,
    ) -> (r: Result<(), ApiError>)
        ensures
            r is Ok <==> order_passes(
                self.config(),
                position_in(self.positions(), trader_id@),
                quantity,
                side,
                order_type,
                price,
                *snapshot,
            ),
            r is Err ==> r->Err_0 is RiskRejection,
    {
        let size = self.check_order_size(quantity);
        if size.is_err() {
            return size;
        }
        if order_type == OrderType::Limit {
            match price {
                Some(p) => {
                    let band = self.check_price_band(p, snapshot);
                    if band.is_err() {
                        return band;
                    }
                },
                None => {},
            }
        }
        self.check_position_limit(trader_id, quantity, side)
    }

    /// Records who placed an order, so that its trades can be booked to them later.
    pub fn register_order(&mut self, order_id: u64, trader_id: &str, side: Side)
        ensures
            final(self).registry().contains_key(order_id),
            final(self).registry()[order_id].trader_id@ == trader_id@,
            final(self).registry()[order_id].side == side,
            final(self).registry().remove(order_id) == old(self).registry().remove(order_id),
            final(self).positions() == old(self).positions(),
            final(self).config() == old(self).config(),
    {
        let reg = OrderRegistration { trader_id: String::from_str(trader_id), side };
        registry_store(&mut self.order_registry, order_id, reg);
        proof {
            assert(self.registry().remove(order_id) =~= old(self).registry().remove(order_id));
        }
    }

    /// Forgets an order (on cancel or full fill).
    pub fn unregister_order(&mut self, order_id: u64)
        ensures
            final(self).registry() == old(self).registry().remove(order_id),
            final(self).positions() == old(self).positions(),
            final(self).config() == old(self).config(),
    {
        registry_drop(&mut self.order_registry, order_id);
    }

    /// The trader registered for an order id, or an empty string.
    fn registered(&self, order_id: u64) -> (r: String)
        ensures
            r@ == registered_trader(registered_traders(self.registry()), order_id),
    {
        match registry_lookup(&self.order_registry, order_id) {
            Some(t) => t,
            None => String::new(),
        }
    }

    pub fn get_position(&self, trader_id: &str) -> (r: i64)
        ensures
            r == position_in(self.positions(), trader_id@),
    {
        match position_lookup(&self.positions, trader_id) {
            Some(v) => v,
            None => 0,
        }
    }

    /// Books one trade of `q` to its buyer and seller.
    fn book_trade(&mut self, buyer: &String, seller: &String, q: i64)
        requires
            old(self).wf(),
        ensures
            final(self).wf(),
            final(self).positions() == apply_trade(old(self).positions(), buyer@, seller@, q as int),
            final(self).registry() == old(self).registry(),
            final(self).config() == old(self).config(),
    {
        let ghost m0 = self.positions();
        let b_now: i64 = if !buyer.as_str().is_empty() {
            self.get_position(buyer.as_str())
        } else {
            0
        };
        let b_next: i128 = b_now as i128 + q as i128;
        let b_fits = buyer.as_str().is_empty() || (i64::MIN as i128 <= b_next && b_next <= i64::MAX as i128);
        if !b_fits {
            return;
        }
        let ghost m1 = shift(m0, buyer@, q as int);
        let s_now: i64 = if seller.as_str().is_empty() {
            0
        } else if !buyer.as_str().is_empty() && *seller == *buyer {
            b_next as i64
        } else {
            self.get_position(seller.as_str())
        };
        proof {
            if seller@.len() > 0 {
                if buyer@.len() > 0 && seller@ == buyer@ {
                    assert(position_in(m1, seller@) == b_next);
                } else {
                    assert(position_in(m1, seller@) == position_in(m0, seller@));
                }
            }
        }
        let s_next: i128 = s_now as i128 - q as i128;
        let s_fits = seller.as_str().is_empty() || (i64::MIN as i128 <= s_next && s_next <= i64::MAX as i128);
        if !s_fits {
            return;
        }
        if !buyer.as_str().is_empty() {
            position_store(&mut self.positions, buyer.as_str(), b_next as i64);
        }
        if !seller.as_str().is_empty() {
            position_store(&mut self.positions, seller.as_str(), s_next as i64);
        }
    }

    /// Books every trade of a submission to both sides. The submitter is one
    /// side of each trade; the other side is looked up in the registry, and
    /// skipped where no order is registered.
    pub fn update_positions_from_trades(
        &mut self,
        submitting_trader: &str,
        submitting_side: Side,
        trades: &[(u64, u64, i64)],
    )
        requires
            old(self).wf(),
        ensures
            final(self).wf(),
            final(self).positions() == apply_trades(
                old(self).positions(),
                registered_traders(old(self).registry()),
                submitting_trader@,
                submitting_side,
                trades@,
            ),
            final(self).registry() == old(self).registry(),
            final(self).config() == old(self).config(),
    {
        let submitter = String::from_str(submitting_trader);
        let mut i: usize = 0;
        while i < trades.len()
            invariant
                self.wf(),
                i <= trades@.len(),
                submitter@ == submitting_trader@,
                self.registry() == old(self).registry(),
                self.config() == old(self).config(),
                self.positions() == apply_trades(
                    old(self).positions(),
                    registered_traders(old(self).registry()),
                    submitting_trader@,
                    submitting_side,
                    trades@.subrange(0, i as int),
                ),
            decreases trades@.len() - i,
        {
            let (buy_id, sell_id, qty) = trades[i];
            let buyer = match submitting_side {
                Side::Buy => submitter.clone(),
                Side::Sell => self.registered(buy_id),
            };
            let seller = match submitting_side {
                Side::Sell => submitter.clone(),
                Side::Buy => self.registered(sell_id),
            };
            self.book_trade(&buyer, &seller, qty);
            proof {
                let s = trades@.subrange(0, i + 1);
                assert(s.drop_last() =~= trades@.subrange(0, i as int));
                assert(s.last() == trades@[i as int]);
            }
            i = i + 1;
        }
        proof {
            assert(trades@.subrange(0, trades@.len() as int) =~= trades@);
        }
    }
}

/// One trade between two known traders leaves the sum of all positions as it was.
proof fn lemma_trade_keeps_total(m: Map<Seq<char>, i64>, buyer: Seq<char>, seller: Seq<char>, q: int)
    requires
        m.dom().finite(),
        buyer.len() > 0,
        seller.len() > 0,
    ensures
        apply_trade(m, buyer, seller, q).dom().finite(),
        total(apply_trade(m, buyer, seller, q)) == total(m),
{
    if trade_fits(m, buyer, seller, q) {
        let m1 = shift(m, buyer, q);
        lemma_total_insert(m, buyer, (position_in(m, buyer) + q) as i64);
        lemma_total_insert(m1, seller, (position_in(m1, seller) - q) as i64);
    }
}

/// Position zero-sum: every trade moves as much into its buyer's position as
/// out of its seller's, so when each trade of a submission has a known buyer
/// and seller the sum of all positions does not change. A ledger that starts
/// empty sums to zero after any sequence of such submissions.
pub proof fn position_zero_sum(
    m: Map<Seq<char>, i64>,
    reg: Map<u64, Seq<char>>,
    submitter: Seq<char>,
    side: Side,
    trades: Seq<(u64, u64, i64)>,
)
    requires
        m.dom().finite(),
        forall|i: int|
            0 <= i < trades.len() ==> buyer_of(reg, submitter, side, #[trigger] trades[i]).len() > 0
                && seller_of(reg, submitter, side, trades[i]).len() > 0,
    ensures
        apply_trades(m, reg, submitter, side, trades).dom().finite(),
        total(apply_trades(m, reg, submitter, side, trades)) == total(m),
    decreases trades.len(),
{
    if trades.len() > 0 {
        let init = trades.drop_last();
        assert forall|i: int| 0 <= i < init.len() implies buyer_of(reg, submitter, side, #[trigger] init[i]).len() > 0
            && seller_of(reg, submitter, side, init[i]).len() > 0 by {
            assert(init[i] == trades[i]);
        }
        position_zero_sum(m, reg, submitter, side, init);
        let t = trades.last();
        assert(t == trades[trades.len() - 1]);
        lemma_trade_keeps_total(
            apply_trades(m, reg, submitter, side, init),
            buyer_of(reg, submitter, side, t),
            seller_of(reg, submitter, side, t),
            t.2 as int,
        );
    }
}

} // verus!
