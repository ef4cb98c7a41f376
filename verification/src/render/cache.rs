//! A least-recently-used cache of rendered page images, kept in an `lru::LruCache`.
use vstd::prelude::*;

verus! {

/// A rendered image, carried through the library as an opaque value.
#[verifier::external_type_specification]
#[verifier::external_body]
pub struct ExDynamicImage(image::DynamicImage);

/// The LRU cache of the `lru` crate.
#[verifier::external_type_specification]
#[verifier::external_body]
#[verifier::reject_recursive_types(K)]
#[verifier::reject_recursive_types(V)]
#[verifier::reject_recursive_types(S)]
pub struct ExLruCache<K, V, S>(lru::LruCache<K, V, S>);

/// The hasher that an `lru::LruCache` uses by default.
#[verifier::external_type_specification]
#[verifier::external_body]
pub struct ExLruDefaultHasher(lru::DefaultHasher);

/// Key for the rendered image cache: document, page, and the target width and height in
/// pixels, so that layout changes cause re-renders at the right resolution.
pub type CacheKey = (usize, usize, u16, u16);

/// The keys held by a cache of rendered images, most recently used first.
pub uninterp spec fn lru_keys(c: lru::LruCache<CacheKey, image::DynamicImage>) -> Seq<CacheKey>;

/// The capacity a cache of rendered images was made with.
pub uninterp spec fn lru_capacity(c: lru::LruCache<CacheKey, image::DynamicImage>) -> nat;

/// The keys are distinct and no more than the capacity.
pub open spec fn lru_ok(keys: Seq<CacheKey>, cap: nat) -> bool {
    keys.no_duplicates() && keys.len() <= cap
}

/// `k` moved to the front of `keys`.
pub open spec fn to_front(keys: Seq<CacheKey>, k: CacheKey) -> Seq<CacheKey> {
    seq![k] + keys.remove_value(k)
}

/// The keys after putting `k`: a present key moves to the front; a new one goes in front,
/// pushing out the least recently used key when the cache is full.
pub open spec fn put_keys(keys: Seq<CacheKey>, k: CacheKey, cap: nat) -> Seq<CacheKey> {
    if keys.contains(k) {
        to_front(keys, k)
    } else if keys.len() == cap {
        seq![k] + keys.drop_last()
    } else {
        seq![k] + keys
    }
}

/// An empty cache for `cap` images (`LruCache::new`).
/// Claims that it holds no key and has capacity `cap`.
#[verifier::external_body]
fn lru_new(cap: usize) -> (c: lru::LruCache<CacheKey, image::DynamicImage>)
    requires
        cap > 0,
    ensures
        lru_keys(c) == Seq::<CacheKey>::empty(),
        lru_capacity(c) == cap,
{
    lru::LruCache::new(std::num::NonZeroUsize::new(cap).unwrap())
}

/// Look a key up (`LruCache::get`), making it the most recently used when present.
/// Claims that an image comes back exactly when the key is held, and how the keys move.
#[verifier::external_body]
fn lru_get<'a>(c: &'a mut lru::LruCache<CacheKey, image::DynamicImage>, k: &CacheKey) -> (r: Option<&'a image::DynamicImage>)
    ensures
        r is Some <==> lru_keys(*old(c)).contains(*k),
        lru_keys(*final(c)) == (if lru_keys(*old(c)).contains(*k) {
            to_front(lru_keys(*old(c)), *k)
        } else {
            lru_keys(*old(c))
        }),
        lru_capacity(*final(c)) == lru_capacity(*old(c)),
        lru_ok(lru_keys(*final(c)), lru_capacity(*final(c))),
{
    c.get(k)
}

/// Store an image under a key (`LruCache::put`).
/// Claims how the keys move: see `put_keys`.
#[verifier::external_body]
fn lru_put(c: &mut lru::LruCache<CacheKey, image::DynamicImage>, k: CacheKey, v: image::DynamicImage)
    ensures
        lru_keys(*final(c)) == put_keys(lru_keys(*old(c)), k, lru_capacity(*old(c))),
        lru_capacity(*final(c)) == lru_capacity(*old(c)),
        lru_ok(lru_keys(*final(c)), lru_capacity(*final(c))),
{
    c.put(k, v);
}

/// Drop every entry (`LruCache::clear`).
/// Claims that no key is left and the capacity stays.
#[verifier::external_body]
fn lru_clear(c: &mut lru::LruCache<CacheKey, image::DynamicImage>)
    ensures
        lru_keys(*final(c)) == Seq::<CacheKey>::empty(),
        lru_capacity(*final(c)) == lru_capacity(*old(c)),
{
    c.clear();
}

/// LRU cache of rendered page images.
/// Avoids re-rendering pages that have already been visited at the same resolution.
pub struct ImageCache {
    cache: lru::LruCache<CacheKey, image::DynamicImage>,
}

impl ImageCache {
    /// The keys of the cached images, most recently used first.
    pub closed spec fn keys(&self) -> Seq<CacheKey> {
        lru_keys(self.cache)
    }

    /// How many images the cache holds at most.
    pub closed spec fn capacity(&self) -> nat {
        lru_capacity(self.cache)
    }

    /// Create a new cache holding up to `capacity` rendered images.
    pub fn new(capacity: usize) -> (c: Self)
        requires
            capacity > 0,
        ensures
            c.keys() == Seq::<CacheKey>::empty(),
            c.capacity() == capacity,
    {
        ImageCache { cache: lru_new(capacity) }
    }

    /// Get a cached image if available at the given resolution; it becomes the most
    /// recently used.
    pub fn get(&mut self, doc_id: usize, page_num: usize, max_w: u16, max_h: u16) -> (r: Option<&image::DynamicImage>)
        ensures
            r is Some <==> old(self).keys().contains((doc_id, page_num, max_w, max_h)),
            final(self).keys() == (if old(self).keys().contains((doc_id, page_num, max_w, max_h)) {
                to_front(old(self).keys(), (doc_id, page_num, max_w, max_h))
            } else {
                old(self).keys()
            }),
            final(self).capacity() == old(self).capacity(),
    {
        let key = (doc_id, page_num, max_w, max_h);
        lru_get(&mut self.cache, &key)
    }

    /// Store a rendered image in the cache.
    pub fn put(&mut self, doc_id: usize, page_num: usize, max_w: u16, max_h: u16, image: image::DynamicImage)
        ensures
            final(self).keys() == put_keys(old(self).keys(), (doc_id, page_num, max_w, max_h), old(self).capacity()),
            final(self).capacity() == old(self).capacity(),
            lru_ok(final(self).keys(), final(self).capacity()),
    {
        lru_put(&mut self.cache, (doc_id, page_num, max_w, max_h), image);
    }

    /// Clear all cached images.
    pub fn clear(&mut self)
        ensures
            final(self).keys() == Seq::<CacheKey>::empty(),
            final(self).capacity() == old(self).capacity(),
    {
        lru_clear(&mut self.cache);
    }
}

/// An image just stored is found again by the same key.
pub proof fn law_put_then_get_hits(keys: Seq<CacheKey>, k: CacheKey, cap: nat)
    requires
        cap > 0,
    ensures
        put_keys(keys, k, cap).contains(k),
        put_keys(keys, k, cap)[0] == k,
{
    assert(put_keys(keys, k, cap)[0] == k);
}

/// Putting keeps the keys distinct and within the capacity.
pub proof fn law_put_keeps_bound(keys: Seq<CacheKey>, k: CacheKey, cap: nat)
    requires
        cap > 0,
        lru_ok(keys, cap),
    ensures
        lru_ok(put_keys(keys, k, cap), cap),
{
    let r = put_keys(keys, k, cap);
    if keys.contains(k) {
        let i = keys.index_of(k);
        keys.index_of_first_ensures(k);
        assert(keys.remove_value(k) == keys.remove(i));
        assert forall|a: int, b: int| 0 <= a < b < r.len() implies r[a] != r[b] by {
            let rest = keys.remove(i);
            if a == 0 {
                assert(r[b] == rest[b - 1]);
                if b - 1 < i {
                    assert(rest[b - 1] == keys[b - 1]);
                } else {
                    assert(rest[b - 1] == keys[b]);
                }
            } else {
                assert(r[a] == rest[a - 1] && r[b] == rest[b - 1]);
                let ka = if a - 1 < i { a - 1 } else { a };
                let kb = if b - 1 < i { b - 1 } else { b };
                assert(rest[a - 1] == keys[ka] && rest[b - 1] == keys[kb]);
            }
        }
    } else if keys.len() == cap {
        let rest = keys.drop_last();
        assert forall|a: int, b: int| 0 <= a < b < r.len() implies r[a] != r[b] by {
            if a == 0 {
                assert(r[b] == keys[b - 1]);
            } else {
                assert(r[a] == keys[a - 1] && r[b] == keys[b - 1]);
            }
        }
    } else {
        assert forall|a: int, b: int| 0 <= a < b < r.len() implies r[a] != r[b] by {
            if a == 0 {
                assert(r[b] == keys[b - 1]);
            } else {
                assert(r[a] == keys[a - 1] && r[b] == keys[b - 1]);
            }
        }
    }
}

/// When a new key goes into a full cache, the least recently used key leaves it and
/// every other key stays.
pub proof fn law_full_cache_evicts_least_recent(keys: Seq<CacheKey>, k: CacheKey, cap: nat)
    requires
        cap > 0,
        lru_ok(keys, cap),
        keys.len() == cap,
        !keys.contains(k),
    ensures
        !put_keys(keys, k, cap).contains(keys.last()),
        forall|j: int| 0 <= j < keys.len() - 1 ==> put_keys(keys, k, cap).contains(#[trigger] keys[j]),
        put_keys(keys, k, cap).len() == cap,
{
    let r = put_keys(keys, k, cap);
    if r.contains(keys.last()) {
        let w = choose|w: int| 0 <= w < r.len() && r[w] == keys.last();
        if w == 0 {
            assert(keys[keys.len() - 1] == k);
        } else {
            assert(r[w] == keys[w - 1]);
            assert(keys[w - 1] == keys[keys.len() - 1]);
        }
    }
    assert forall|j: int| 0 <= j < keys.len() - 1 implies r.contains(#[trigger] keys[j]) by {
        assert(r[j + 1] == keys[j]);
    }
}

} // verus!
