//! The hash tables that the checks on a built block use.
use crate::primitives::{Address, OrderReplacementKey, B256};
use vstd::prelude::*;

verus! {

/// `ahash::RandomState`: the seeded hasher behind [`ahash::HashMap`] and [`ahash::HashSet`],
/// which are std's tables. Nothing is claimed of it. vstd speaks of these tables only where the
/// hasher is std's own and a key is a single integer, so what is used of them is stated below.
#[verifier::external_type_specification]
#[verifier::external_body]
pub struct ExRandomState(ahash::RandomState);

/// A replacement key as the table of used keys holds it.
pub type KeyItem = (bool, u128, Address);

/// The table item of a replacement key.
pub open spec fn key_item(key: OrderReplacementKey) -> KeyItem {
    match key {
        OrderReplacementKey::Bundle(k) => (false, k.uuid, k.signer),
        OrderReplacementKey::ShareBundle(k) => (true, k.uuid, k.signer),
    }
}

/// Distinct replacement keys have distinct table items.
pub proof fn lemma_key_item_injective(a: OrderReplacementKey, b: OrderReplacementKey)
    requires
        key_item(a) == key_item(b),
    ensures
        a == b,
{
}

pub(crate) fn to_key_item(key: &OrderReplacementKey) -> (item: KeyItem)
    ensures
        item == key_item(*key),
{
    match key {
        OrderReplacementKey::Bundle(k) => (false, k.uuid, k.signer),
        OrderReplacementKey::ShareBundle(k) => (true, k.uuid, k.signer),
    }
}

/// `HashSet::default` of std, with ahash's hasher: an empty set.
#[verifier::external_body]
pub(crate) fn no_keys() -> (set: ahash::HashSet<KeyItem>)
    ensures
        set@ == Set::<KeyItem>::empty(),
{
    ahash::HashSet::default()
}

/// `HashSet::contains` of std, with ahash's hasher: whether the item is in the set. Tuples of
/// integers, truth values and byte arrays are equal if they are so part by part.
#[verifier::external_body]
pub(crate) fn key_is_used(set: &ahash::HashSet<KeyItem>, item: &KeyItem) -> (used: bool)
    ensures
        used == set@.contains(*item),
{
    set.contains(item)
}

/// `HashSet::insert` of std, with ahash's hasher: the set holds the item too. What it returns
/// is not used.
#[verifier::external_body]
pub(crate) fn mark_key_used(set: &mut ahash::HashSet<KeyItem>, item: KeyItem)
    ensures
        final(set)@ == old(set)@.insert(item),
{
    set.insert(item);
}

/// `HashSet::contains` of std, with ahash's hasher, on a set of addresses: whether the address
/// is in the set. Byte arrays are equal if they are so byte by byte.
#[verifier::external_body]
pub(crate) fn is_listed(set: &ahash::HashSet<Address>, address: &Address) -> (listed: bool)
    ensures
        listed == set@.contains(*address),
{
    set.contains(address)
}

/// `HashMap::default` of std, with ahash's hasher: an empty map.
#[verifier::external_body]
pub(crate) fn no_txs() -> (map: ahash::HashMap<B256, bool>)
    ensures
        map@.dom() == Set::<B256>::empty(),
{
    ahash::HashMap::default()
}

/// `HashMap::insert` of std, with ahash's hasher: the hash maps to the flag, whatever it mapped
/// to before. What it returns is not used.
#[verifier::external_body]
pub(crate) fn list_tx(map: &mut ahash::HashMap<B256, bool>, hash: B256, can_revert: bool)
    ensures
        final(map)@ == old(map)@.insert(hash, can_revert),
{
    map.insert(hash, can_revert);
}

/// `HashMap::get` of std, with ahash's hasher: what the hash maps to, if anything.
#[verifier::external_body]
pub(crate) fn listed_tx(map: &ahash::HashMap<B256, bool>, hash: &B256) -> (can_revert: Option<bool>)
    ensures
        can_revert == (if map@.contains_key(*hash) {
            Some(map@[*hash])
        } else {
            None
        }),
{
    map.get(hash).copied()
}

} // verus!
