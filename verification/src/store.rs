//! The store of open documents: `dashmap::DashMap`, and what is taken on
//! trust of it.
//!
//! The map shares its entries between threads and takes every call on a
//! shared reference. Here it has one owner: a call that changes the map
//! takes it by `&mut`, so that the contracts can speak of the map before
//! and after.

use crate::datastructures::{DocumentView, SieveDocument};
use crate::require::string_views;
use dashmap::DashMap;
use vstd::prelude::*;

verus! {

/// `dashmap::DashMap`, as a type whose inside is not looked at: all that
/// is known of a map is what the contracts below say.
#[verifier::external_type_specification]
#[verifier::external_body]
#[verifier::reject_recursive_types(K)]
#[verifier::reject_recursive_types(V)]
#[verifier::reject_recursive_types(S)]
pub struct ExDashMap<K, V, S>(DashMap<K, V, S>);

/// The documents that a store holds, by identifier.
pub uninterp spec fn stored(store: DashMap<String, SieveDocument>) -> Map<Seq<char>, DocumentView>;

/// The store that holds no document.
pub open spec fn no_documents() -> Map<Seq<char>, DocumentView> {
    Map::empty()
}

/// `DashMap::new`: a map without entries.
#[verifier::external_body]
pub(crate) fn store_new() -> (empty: DashMap<String, SieveDocument>)
    ensures
        stored(empty) == no_documents(),
{
    DashMap::new()
}

/// `DashMap::insert`: the key holds the value afterwards, whatever it held
/// before; the other entries stay.
#[verifier::external_body]
pub(crate) fn store_insert(
    store: &mut DashMap<String, SieveDocument>,
    key: String,
    document: SieveDocument,
)
    ensures
        stored(*final(store)) == stored(*old(store)).insert(key@, document@),
{
    store.insert(key, document);
}

/// `DashMap::remove`: the entry of the key leaves the map and is handed
/// out, where there is one; the other entries stay.
#[verifier::external_body]
pub(crate) fn store_remove(store: &mut DashMap<String, SieveDocument>, key: &str) -> (removed:
    Option<SieveDocument>)
    ensures
        stored(*final(store)) == stored(*old(store)).remove(key@),
        removed is Some <==> stored(*old(store)).contains_key(key@),
        removed matches Some(document) ==> document@ == stored(*old(store))[key@],
{
    store.remove(key).map(|entry| entry.1)
}

/// `DashMap::get`, with a copy made of the value found: the document under
/// the key, where there is one.
#[verifier::external_body]
pub(crate) fn store_get(store: &DashMap<String, SieveDocument>, key: &str) -> (found: Option<
    SieveDocument,
>)
    ensures
        found is Some <==> stored(*store).contains_key(key@),
        found matches Some(document) ==> document@ == stored(*store)[key@],
{
    store.get(key).map(|entry| entry.value().clone())
}

/// `DashMap::iter`, with a copy made of each key: every key of the map,
/// once. The map fixes no order.
#[verifier::external_body]
pub(crate) fn store_keys(store: &DashMap<String, SieveDocument>) -> (keys: Vec<String>)
    ensures
        string_views(keys@).no_duplicates(),
        forall|key: Seq<char>|
            string_views(keys@).contains(key) <==> stored(*store).contains_key(key),
{
    store.iter().map(|entry| entry.key().clone()).collect()
}

} // verus!
