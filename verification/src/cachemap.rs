//! Declarations and wrappers for the insertion-ordered map that backs the
//! media cache. The map's contents are named by `cache_entries`: the
//! entries in insertion order, each as (key, texture id, full tier?).
//! Every wrapper contract states what the map crate documents: `insert`
//! replaces in place or appends, `shift_remove` closes the gap keeping
//! the order of the rest, lookups go by key equality.

use vstd::prelude::*;

use indexmap::IndexMap;

use crate::media::CacheEntry;
use crate::types::{LoadedMedia, MediaHandle};

verus! {

/// The insertion-ordered hash map, declared so it can stand in fields and
/// signatures; its values are read only through `cache_entries` and the
/// wrappers below.
#[verifier::external_type_specification]
#[verifier::external_body]
#[verifier::reject_recursive_types(K)]
#[verifier::reject_recursive_types(V)]
#[verifier::reject_recursive_types(S)]
pub struct ExIndexMap<K, V, S>(IndexMap<K, V, S>);

/// One cache entry as plain values: its key, the id of its texture
/// handle, and whether it holds the full tier.
pub type EntryTuple = (Seq<char>, u64, bool);

/// The contents of the cache map, in insertion order.
pub uninterp spec fn cache_entries(m: &IndexMap<String, CacheEntry>) -> Seq<EntryTuple>;

/// The plain image of one (key, entry) pair.
pub open spec fn entry_tuple(key: Seq<char>, e: CacheEntry) -> EntryTuple {
    match e.media {
        LoadedMedia::Image { texture } => (key, texture.id, e.state is Full),
    }
}

/// The entry a plain tuple stands for.
pub open spec fn entry_of_tuple(t: EntryTuple) -> CacheEntry {
    CacheEntry {
        media: LoadedMedia::Image { texture: MediaHandle { id: t.1 } },
        state: if t.2 {
            crate::media::CacheState::Full
        } else {
            crate::media::CacheState::SampleOnly
        },
    }
}

/// Some entry of `es` has key `k`.
pub open spec fn has_key(es: Seq<EntryTuple>, k: Seq<char>) -> bool {
    exists|i: int| 0 <= i < es.len() && (#[trigger] es[i]).0 == k
}

/// The first index of `es` whose entry has key `k`; the length if none
/// does.
pub open spec fn index_of_key(es: Seq<EntryTuple>, k: Seq<char>) -> int
    decreases es.len(),
{
    if es.len() == 0 {
        0
    } else if es[0].0 == k {
        0
    } else {
        1 + index_of_key(es.drop_first(), k)
    }
}

/// The first entry of `es` with key `k`, if any.
pub open spec fn find_entry(es: Seq<EntryTuple>, k: Seq<char>) -> Option<EntryTuple> {
    if has_key(es, k) {
        Some(es[index_of_key(es, k)])
    } else {
        None
    }
}

/// `index_of_key` points at the first entry with the key, or past the
/// end when the key is absent.
pub proof fn lemma_index_of_key(es: Seq<EntryTuple>, k: Seq<char>)
    ensures
        has_key(es, k) ==> {
            &&& 0 <= index_of_key(es, k) < es.len()
            &&& es[index_of_key(es, k)].0 == k
            &&& forall|j: int| 0 <= j < index_of_key(es, k) ==> (#[trigger] es[j]).0 != k
        },
        !has_key(es, k) ==> index_of_key(es, k) == es.len(),
    decreases es.len(),
{
    if es.len() == 0 {
    } else if es[0].0 == k {
    } else {
        let tl = es.drop_first();
        lemma_index_of_key(tl, k);
        assert(forall|i: int| 0 <= i < tl.len() ==> #[trigger] tl[i] == es[i + 1]);
        if has_key(es, k) {
            let w = choose|i: int| 0 <= i < es.len() && (#[trigger] es[i]).0 == k;
            assert(tl[w - 1] == es[w]);
            assert(has_key(tl, k));
            let ix = index_of_key(es, k);
            assert(ix == 1 + index_of_key(tl, k));
            assert(es[ix] == tl[ix - 1]);
            assert forall|j: int| 0 <= j < ix implies (#[trigger] es[j]).0 != k by {
                if j >= 1 {
                    assert(es[j] == tl[j - 1]);
                    assert(tl[j - 1].0 != k);
                }
            }
        } else {
            assert(!has_key(tl, k)) by {
                if has_key(tl, k) {
                    let w = choose|i: int| 0 <= i < tl.len() && (#[trigger] tl[i]).0 == k;
                    assert(es[w + 1].0 == k);
                }
            }
        }
    }
}

/// Relies on `IndexMap::new`: the new map is empty.
#[verifier::external_body]
pub(crate) fn new_cache() -> (m: IndexMap<String, CacheEntry>)
    ensures
        cache_entries(&m) == Seq::<EntryTuple>::empty(),
{
    IndexMap::new()
}

/// Relies on `IndexMap::len`: the number of entries.
#[verifier::external_body]
pub(crate) fn cache_len(m: &IndexMap<String, CacheEntry>) -> (n: usize)
    ensures
        n == cache_entries(m).len(),
{
    m.len()
}

/// Relies on `IndexMap::contains_key`: whether some entry has this key.
#[verifier::external_body]
pub(crate) fn cache_contains(m: &IndexMap<String, CacheEntry>, key: &String) -> (b: bool)
    ensures
        b == has_key(cache_entries(m), key@),
{
    m.contains_key(key)
}

/// Relies on `IndexMap::get`: the value stored under this key, if any.
#[verifier::external_body]
pub(crate) fn cache_get(m: &IndexMap<String, CacheEntry>, key: &String) -> (r: Option<CacheEntry>)
    ensures
        match find_entry(cache_entries(m), key@) {
            None => r is None,
            Some(t) => r == Some(entry_of_tuple(t)),
        },
{
    m.get(key).copied()
}

/// Relies on `IndexMap::insert`: an existing key keeps its place in the
/// order and its value is replaced; a new key is appended last.
#[verifier::external_body]
pub(crate) fn cache_insert(m: &mut IndexMap<String, CacheEntry>, key: String, entry: CacheEntry)
    ensures
        has_key(cache_entries(old(m)), key@) ==> cache_entries(final(m)) == cache_entries(
            old(m),
        ).update(index_of_key(cache_entries(old(m)), key@), entry_tuple(key@, entry)),
        !has_key(cache_entries(old(m)), key@) ==> cache_entries(final(m)) == cache_entries(
            old(m),
        ).push(entry_tuple(key@, entry)),
{
    m.insert(key, entry);
}

/// Relies on `IndexMap::shift_remove`: the entry with this key leaves and
/// the entries after it shift down, keeping their relative order; without
/// the key the map is untouched.
#[verifier::external_body]
pub(crate) fn cache_shift_remove(m: &mut IndexMap<String, CacheEntry>, key: &String)
    ensures
        has_key(cache_entries(old(m)), key@) ==> cache_entries(final(m)) == cache_entries(
            old(m),
        ).remove(index_of_key(cache_entries(old(m)), key@)),
        !has_key(cache_entries(old(m)), key@) ==> cache_entries(final(m)) == cache_entries(old(m)),
{
    m.shift_remove(key);
}

/// Relies on `IndexMap::keys`: the keys in insertion order.
#[verifier::external_body]
pub(crate) fn cache_keys(m: &IndexMap<String, CacheEntry>) -> (ks: Vec<String>)
    ensures
        ks@.len() == cache_entries(m).len(),
        forall|i: int|
            0 <= i < ks@.len() ==> (#[trigger] ks@[i])@ == cache_entries(m)[i].0,
{
    m.keys().cloned().collect()
}

} // verus!
