//! The map of processed payloads, keyed by content hash.
//!
//! The map is a `dashmap::DashMap`. Verus does not look inside it: what it
//! holds is named by [`result_entries`], and the functions below state, over
//! that name, what each call does. None of these statements is proved.
//!
//! Every call that changes the map takes it by `&mut`, so that within this
//! crate a map that is only borrowed is known to stay as it is. The map
//! itself can be changed through a shared reference: the statements on the
//! calls that only read hold of a map that nothing else works on during the
//! call.

use dashmap::DashMap;
use std::collections::hash_map::RandomState;
use vstd::prelude::*;

verus! {

/// `dashmap::DashMap`, opaque to the verifier.
#[verifier::external_type_specification]
#[verifier::external_body]
#[verifier::reject_recursive_types(K)]
#[verifier::reject_recursive_types(V)]
#[verifier::reject_recursive_types(S)]
pub struct ExDashMap<K, V, S>(DashMap<K, V, S>);

/// Payloads by content hash, as mathematical values.
pub type Payloads = Map<Seq<char>, Seq<u8>>;

/// What a result map holds: for each content hash in it, the payload stored
/// under that hash.
pub uninterp spec fn result_entries(map: DashMap<String, Vec<u8>, RandomState>) -> Payloads;

/// `DashMap::new`: a map that holds nothing.
#[verifier::external_body]
pub(crate) fn results_new() -> (map: DashMap<String, Vec<u8>>)
    ensures
        result_entries(map) == Payloads::empty(),
{
    DashMap::new()
}

/// `DashMap::insert`: afterwards the map holds `payload` under `hash`, and
/// every other hash is as before. The payload that was stored under `hash`
/// before, if any, is dropped.
#[verifier::external_body]
pub(crate) fn results_insert(map: &mut DashMap<String, Vec<u8>>, hash: String, payload: Vec<u8>)
    ensures
        result_entries(*final(map)) == result_entries(*old(map)).insert(hash@, payload@),
{
    map.insert(hash, payload);
}

/// `DashMap::contains_key`: whether a payload is stored under `hash`.
#[verifier::external_body]
pub(crate) fn results_contains(map: &DashMap<String, Vec<u8>>, hash: &String) -> (found: bool)
    ensures
        found == result_entries(*map).contains_key(hash@),
{
    map.contains_key(hash)
}

/// `DashMap::get`: a copy of the payload stored under `hash`, or `None`
/// where the map holds none.
#[verifier::external_body]
pub(crate) fn results_get(map: &DashMap<String, Vec<u8>>, hash: &String) -> (payload: Option<
    Vec<u8>,
>)
    ensures
        payload is Some == result_entries(*map).contains_key(hash@),
        payload is Some ==> payload.unwrap()@ == result_entries(*map)[hash@],
{
    match map.get(hash) {
        Some(entry) => Some(entry.value().clone()),
        None => None,
    }
}

/// `DashMap::len`: the number of hashes under which a payload is stored.
#[verifier::external_body]
pub(crate) fn results_len(map: &DashMap<String, Vec<u8>>) -> (count: usize)
    ensures
        count == result_entries(*map).dom().len(),
{
    map.len()
}

} // verus!
