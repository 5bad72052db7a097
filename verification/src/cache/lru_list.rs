//! The LRU list that holds cached blocks: `lru::LruCache` with block numbers
//! for keys and block bytes for values.
use lru::LruCache;
use vstd::prelude::*;

verus! {

/// `lru::LruCache`.
#[verifier::external_type_specification]
#[verifier::external_body]
#[verifier::reject_recursive_types(K)]
#[verifier::reject_recursive_types(V)]
#[verifier::reject_recursive_types(S)]
pub struct ExLruCache<K, V, S>(lru::LruCache<K, V, S>);

/// The hasher that `lru::LruCache` uses unless told otherwise.
#[verifier::external_type_specification]
#[verifier::external_body]
pub struct ExDefaultHasher(lru::DefaultHasher);

/// The entries of a list, least recently used first.
pub uninterp spec fn entries(cache: LruCache<u64, Vec<u8>>) -> Seq<(u64, Seq<u8>)>;

/// How many entries a list was made to hold at most.
pub uninterp spec fn limit(cache: LruCache<u64, Vec<u8>>) -> int;

/// Place of the first entry with `key`, or the number of entries.
pub open spec fn place(e: Seq<(u64, Seq<u8>)>, key: u64) -> int
    decreases e.len(),
{
    if e.len() == 0 || e[0].0 == key {
        0
    } else {
        1 + place(e.drop_first(), key)
    }
}

/// `e` with its entry `i` as the most recently used.
pub open spec fn promoted(e: Seq<(u64, Seq<u8>)>, i: int) -> Seq<(u64, Seq<u8>)> {
    e.remove(i).push(e[i])
}

/// `LruCache::unbounded`: a list without entries, made to hold `usize::MAX` of
/// them.
#[verifier::external_body]
pub(crate) fn unbounded() -> (cache: LruCache<u64, Vec<u8>>)
    ensures
        entries(cache) == Seq::<(u64, Seq<u8>)>::empty(),
        limit(cache) == usize::MAX,
{
    LruCache::unbounded()
}

/// `LruCache::get`: a copy of the value of `key`, whose entry becomes the most
/// recently used; nothing, and no change, where there is no such entry.
#[verifier::external_body]
pub(crate) fn get(cache: &mut LruCache<u64, Vec<u8>>, key: u64) -> (r: Option<Vec<u8>>)
    ensures
        ({
            let e = entries(*old(cache));
            let i = place(e, key);
            match r {
                Some(v) => {
                    &&& i < e.len()
                    &&& v@ == e[i].1
                    &&& entries(*final(cache)) == promoted(e, i)
                },
                None => i == e.len() && entries(*final(cache)) == e,
            }
        }),
        limit(*final(cache)) == limit(*old(cache)),
{
    cache.get(&key).cloned()
}

/// `LruCache::put`, for a key without an entry, on a list that is not full: a new
/// entry, the most recently used, and no other leaves.
#[verifier::external_body]
pub(crate) fn put(cache: &mut LruCache<u64, Vec<u8>>, key: u64, value: Vec<u8>)
    requires
        place(entries(*old(cache)), key) == entries(*old(cache)).len(),
        entries(*old(cache)).len() < limit(*old(cache)),
    ensures
        entries(*final(cache)) == entries(*old(cache)).push((key, value@)),
        limit(*final(cache)) == limit(*old(cache)),
{
    cache.put(key, value);
}

/// `LruCache::pop_lru`: takes out the least recently used entry, if there is
/// any.
#[verifier::external_body]
pub(crate) fn pop_lru(cache: &mut LruCache<u64, Vec<u8>>) -> (r: Option<(u64, Vec<u8>)>)
    ensures
        ({
            let e = entries(*old(cache));
            match r {
                Some((k, v)) => {
                    &&& e.len() > 0
                    &&& e[0] == (k, v@)
                    &&& entries(*final(cache)) == e.drop_first()
                },
                None => e.len() == 0 && entries(*final(cache)) == e,
            }
        }),
        limit(*final(cache)) == limit(*old(cache)),
{
    cache.pop_lru()
}

/// `LruCache::len`: how many entries there are.
#[verifier::external_body]
pub(crate) fn len(cache: &LruCache<u64, Vec<u8>>) -> (n: usize)
    ensures
        n == entries(*cache).len(),
{
    cache.len()
}

} // verus!
