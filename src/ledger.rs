//! The concurrent maps behind the risk service: positions by trader and
//! registrations by order id, each a `dashmap::DashMap` seen through the map
//! of what it holds.
use dashmap::DashMap;
use vstd::prelude::*;

use crate::types::Side;

verus! {

#[verifier::external_type_specification]
#[verifier::external_body]
#[verifier::reject_recursive_types(K)]
#[verifier::reject_recursive_types(V)]
#[verifier::reject_recursive_types(S)]
pub struct ExDashMap<K, V, S>(DashMap<K, V, S>);

/// Who placed an order, and on which side.
#[derive(Debug, Clone)]
pub struct OrderRegistration {
    pub trader_id: String,
    pub side: Side,
}

/// The positions that a position map holds, by trader id.
pub uninterp spec fn position_entries(m: DashMap<String, i64>) -> Map<Seq<char>, i64>;

/// The registrations that a registry holds, by order id.
pub uninterp spec fn registry_entries(m: DashMap<u64, OrderRegistration>) -> Map<u64, OrderRegistration>;

/// Relies on `DashMap::new`: a new map holds nothing.
#[verifier::external_body]
pub(crate) fn new_position_map() -> (r: DashMap<String, i64>)
    ensures
        position_entries(r).dom().finite(),
        position_entries(r).dom().len() == 0,
{
    DashMap::new()
}

/// Relies on `DashMap::new`: a new map holds nothing.
#[verifier::external_body]
pub(crate) fn new_registry() -> (r: DashMap<u64, OrderRegistration>)
    ensures
        registry_entries(r).dom().finite(),
        registry_entries(r).dom().len() == 0,
{
    DashMap::new()
}

/// Relies on `DashMap::get`: the value stored under an equal key, if any.
#[verifier::external_body]
pub(crate) fn position_lookup(m: &DashMap<String, i64>, trader: &str) -> (r: Option<i64>)
    ensures
        r is Some <==> position_entries(*m).contains_key(trader@),
        r is Some ==> r->0 == position_entries(*m)[trader@],
{
    m.get(trader).map(|v| *v)
}

/// Relies on `DashMap::insert`: afterwards the key maps to the value, and every other key is untouched.
#[verifier::external_body]
pub(crate) fn position_store(m: &mut DashMap<String, i64>, trader: &str, value: i64)
    ensures
        position_entries(*final(m)) == position_entries(*old(m)).insert(trader@, value),
{
    m.insert(trader.to_string(), value);
}

/// Relies on `DashMap::get`: the trader of the registration stored under the id, if any.
#[verifier::external_body]
pub(crate) fn registry_lookup(m: &DashMap<u64, OrderRegistration>, id: u64) -> (r: Option<String>)
    ensures
        r is Some <==> registry_entries(*m).contains_key(id),
        r is Some ==> r->0@ == registry_entries(*m)[id].trader_id@,
{
    m.get(&id).map(|e| e.trader_id.clone())
}

/// Relies on `DashMap::insert`: afterwards the id maps to the registration, and every other id is untouched.
#[verifier::external_body]
pub(crate) fn registry_store(m: &mut DashMap<u64, OrderRegistration>, id: u64, reg: OrderRegistration)
    ensures
        registry_entries(*final(m)) == registry_entries(*old(m)).insert(id, reg),
{
    m.insert(id, reg);
}

/// Relies on `DashMap::remove`: afterwards the id maps to nothing, and every other id is untouched.
#[verifier::external_body]
pub(crate) fn registry_drop(m: &mut DashMap<u64, OrderRegistration>, id: u64)
    ensures
        registry_entries(*final(m)) == registry_entries(*old(m)).remove(id),
{
    m.remove(&id);
}

/// The sum of the values of a finite map.
pub open spec fn total(m: Map<Seq<char>, i64>) -> int
    decreases m.dom().len(),
    when m.dom().finite()
    via total_decreases
{
    if m.dom().len() == 0 {
        0
    } else {
        let k = choose|k: Seq<char>| m.dom().contains(k);
        m[k] + total(m.remove(k))
    }
}

#[via_fn]
proof fn total_decreases(m: Map<Seq<char>, i64>) {
    if m.dom().len() != 0 {
        lemma_nonempty_has_key(m);
        let k = choose|k: Seq<char>| m.dom().contains(k);
        assert(m.remove(k).dom() =~= m.dom().remove(k));
    }
}

proof fn lemma_nonempty_has_key(m: Map<Seq<char>, i64>)
    requires
        m.dom().finite(),
        m.dom().len() != 0,
    ensures
        exists|k: Seq<char>| m.dom().contains(k),
{
    if !(exists|k: Seq<char>| m.dom().contains(k)) {
        assert(m.dom() =~= Set::empty());
    }
}

/// Taking one key out of a finite map takes its value out of the sum.
pub proof fn lemma_total_remove(m: Map<Seq<char>, i64>, k: Seq<char>)
    requires
        m.dom().finite(),
        m.dom().contains(k),
    ensures
        total(m) == m[k] + total(m.remove(k)),
    decreases m.dom().len(),
{
    assert(m.dom().len() > 0);
    let j = choose|j: Seq<char>| m.dom().contains(j);
    if j != k {
        let mj = m.remove(j);
        let mk = m.remove(k);
        lemma_total_remove(mj, k);
        lemma_total_remove(mk, j);
        assert(mj.remove(k) =~= mk.remove(j));
    }
}

/// Setting one key of a finite map changes the sum by the change of its value.
pub proof fn lemma_total_insert(m: Map<Seq<char>, i64>, k: Seq<char>, v: i64)
    requires
        m.dom().finite(),
    ensures
        m.insert(k, v).dom().finite(),
        total(m.insert(k, v)) == total(m) + v - (if m.contains_key(k) { m[k] as int } else { 0 }),
{
    let n = m.insert(k, v);
    lemma_total_remove(n, k);
    if m.contains_key(k) {
        lemma_total_remove(m, k);
        assert(n.remove(k) =~= m.remove(k));
    } else {
        assert(n.remove(k) =~= m);
    }
}

} // verus!
