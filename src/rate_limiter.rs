//! Per-trader token buckets, each a `governor` rate limiter, created on a
//! trader's first request.
use std::num::NonZeroU32;
use std::sync::Arc;

use dashmap::DashMap;
use governor::{DefaultDirectRateLimiter, Quota, RateLimiter};
use vstd::prelude::*;
use vstd::string::StringExecFns;

use crate::error::ApiError;
use crate::text::{u64_text, u64_to_text};

verus! {

/// The buckets, by trader id. `governor`'s limiter type carries bounds that
/// Verus cannot declare, so the map is held here behind the names and
/// functions below.
#[verifier::external_body]
pub struct BucketMap {
    inner: DashMap<String, Arc<DefaultDirectRateLimiter>>,
}

/// The traders that have a bucket.
pub uninterp spec fn bucket_owners(m: BucketMap) -> Set<Seq<char>>;

/// Relies on `DashMap::new`: a new map holds nothing.
#[verifier::external_body]
fn new_bucket_map() -> (r: BucketMap)
    ensures
        bucket_owners(r).len() == 0,
        bucket_owners(r).finite(),
{
    BucketMap { inner: DashMap::new() }
}

/// Relies on `DashMap::contains_key`: whether the trader id has a bucket.
#[verifier::external_body]
fn has_bucket(m: &BucketMap, trader: &str) -> (r: bool)
    ensures
        r == bucket_owners(*m).contains(trader@),
{
    m.inner.contains_key(trader)
}

/// Relies on `DashMap::insert`, `RateLimiter::direct` and `Quota::per_second`:
/// afterwards the trader id has a bucket of `per_second` tokens, refilled at
/// `per_second` tokens a second, and no other trader's bucket changed.
#[verifier::external_body]
fn add_bucket(m: &mut BucketMap, trader: &str, per_second: u32)
    requires
        per_second > 0,
    ensures
        bucket_owners(*final(m)) == bucket_owners(*old(m)).insert(trader@),
{
    let quota = Quota::per_second(NonZeroU32::new(per_second).unwrap());
    m.inner.insert(trader.to_string(), Arc::new(RateLimiter::direct(quota)));
}

/// Relies on `DashMap::get` and `RateLimiter::check`: takes one token from
/// the trader's bucket if it holds one. Whether it does depends on the time,
/// so nothing is stated of the answer but that there is one for a trader with a bucket.
#[verifier::external_body]
fn take_token(m: &BucketMap, trader: &str) -> (r: Option<bool>)
    ensures
        bucket_owners(*m).contains(trader@) ==> r is Some,
{
    m.inner.get(trader).map(|b| b.check().is_ok())
}

/// The text of a rate-limit rejection.
pub open spec fn rate_text(trader: Seq<char>, max: u64) -> Seq<char> {
    "Rate limit exceeded for trader '"@ + trader + "' (max "@ + u64_text(max) + " orders/sec)"@
}

/// What the limiter answers once the bucket has said whether a token was
/// there: `Ok` when one was, a rate-limit error naming the trader otherwise.
pub fn rate_verdict(token_taken: bool, trader_id: &str, max_per_second: u32) -> (r: Result<(), ApiError>)
    ensures
        token_taken ==> r is Ok,
        !token_taken ==> (match r {
            Err(ApiError::RateLimited(m)) => m@ == rate_text(trader_id@, max_per_second as u64),
            _ => false,
        }),
{
    if token_taken {
        Ok(())
    } else {
        let t = String::from_str("Rate limit exceeded for trader '").concat(trader_id).concat(
            "' (max ",
        ).concat(u64_to_text(max_per_second as u64).as_str()).concat(" orders/sec)");
        Err(ApiError::RateLimited(t))
    }
}

/// One token bucket per trader. Capacity and refill rate both equal the
/// configured orders per second (at least one).
pub struct RateLimiterService {
    limiters: BucketMap,
    max_per_second: u32,
}

impl RateLimiterService {
    /// The traders that have a bucket.
    pub closed spec fn traders(&self) -> Set<Seq<char>> {
        bucket_owners(self.limiters)
    }

    pub closed spec fn rate(&self) -> u32 {
        self.max_per_second
    }

    pub open spec fn wf(&self) -> bool {
        self.rate() > 0
    }

    /// A limiter of `max_orders_per_second` a second; a rate of zero counts as one.
    pub fn new(max_orders_per_second: u32) -> (r: Self)
        ensures
            r.wf(),
            r.traders().len() == 0,
            r.rate() == if max_orders_per_second == 0 { 1 } else { max_orders_per_second },
    {
        let max = if max_orders_per_second == 0 {
            1
        } else {
            max_orders_per_second
        };
        RateLimiterService { limiters: new_bucket_map(), max_per_second: max }
    }

    /// Takes one token from the trader's bucket, creating the bucket on the
    /// trader's first request. Fails with a rate-limit error when the bucket is empty.
    pub fn check_rate_limit(&mut self, trader_id: &str) -> (r: Result<(), ApiError>)
        requires
            old(self).wf(),
        ensures
            final(self).wf(),
            final(self).rate() == old(self).rate(),
            final(self).traders() == old(self).traders().insert(trader_id@),
            r is Ok || (match r {
                Err(ApiError::RateLimited(m)) => m@ == rate_text(trader_id@, old(self).rate() as u64),
                _ => false,
            }),
    {
        if has_bucket(&self.limiters, trader_id) {
            proof {
                assert(self.traders().insert(trader_id@) =~= self.traders());
            }
        } else {
            add_bucket(&mut self.limiters, trader_id, self.max_per_second);
        }
        let taken = match take_token(&self.limiters, trader_id) {
            Some(t) => t,
            None => false,
        };
        rate_verdict(taken, trader_id, self.max_per_second)
    }
}

} // verus!
