//! The two bounded tag caches: hashtag name to id, used when reading bus
//! channel names, and hashtag id to name, used when writing them.
use vstd::prelude::*;

verus! {

#[verifier::external_type_specification]
#[verifier::external_body]
#[verifier::reject_recursive_types(K)]
#[verifier::reject_recursive_types(V)]
#[verifier::reject_recursive_types(S)]
pub struct ExLruCache<K, V, S>(lru::LruCache<K, V, S>);

#[verifier::external_type_specification]
#[verifier::external_body]
pub struct ExDefaultHashBuilder(hashbrown::DefaultHashBuilder);

/// Bounded LRU map from hashtag name to hashtag id.
pub struct TagIdCache {
    inner: lru::LruCache<Vec<u8>, u64>,
}

/// Bounded LRU map from hashtag id to hashtag name.
pub struct TagNameCache {
    inner: lru::LruCache<u64, Vec<u8>>,
}

/// The entries that an LRU cache from names to ids holds.
pub uninterp spec fn lru_ids(c: lru::LruCache<Vec<u8>, u64>) -> Map<Seq<u8>, u64>;

/// The entries that an LRU cache from ids to names holds.
pub uninterp spec fn lru_names(c: lru::LruCache<u64, Vec<u8>>) -> Map<u64, Seq<u8>>;

/// The capacity that an LRU cache from names to ids was made with.
pub uninterp spec fn lru_ids_cap(c: lru::LruCache<Vec<u8>, u64>) -> nat;

/// The capacity that an LRU cache from ids to names was made with.
pub uninterp spec fn lru_names_cap(c: lru::LruCache<u64, Vec<u8>>) -> nat;

/// How many entries a `TagIdCache` holds at most.
pub closed spec fn tag_id_capacity(c: TagIdCache) -> nat {
    lru_ids_cap(c.inner)
}

/// How many entries a `TagNameCache` holds at most.
pub closed spec fn tag_name_capacity(c: TagNameCache) -> nat {
    lru_names_cap(c.inner)
}

/// The entries that a `TagIdCache` holds.
pub closed spec fn tag_ids(c: TagIdCache) -> Map<Seq<u8>, u64> {
    lru_ids(c.inner)
}

/// The entries that a `TagNameCache` holds.
pub closed spec fn tag_names(c: TagNameCache) -> Map<u64, Seq<u8>> {
    lru_names(c.inner)
}

/// Relies on `lru::LruCache::new`: a new cache holds no entry.
#[verifier::external_body]
fn new_id_lru(cap: usize) -> (r: lru::LruCache<Vec<u8>, u64>)
    requires
        cap > 0,
    ensures
        lru_ids(r).is_empty(),
        lru_ids_cap(r) == cap,
{
    lru::LruCache::new(std::num::NonZeroUsize::new(cap).unwrap())
}

/// Relies on `lru::LruCache::put`: afterwards the name maps to the id;
/// every other entry is one that was there before, with its value (the
/// least recently used one may have been evicted).
#[verifier::external_body]
fn put_id(c: &mut lru::LruCache<Vec<u8>, u64>, name: Vec<u8>, id: u64)
    ensures
        lru_ids_cap(*final(c)) == lru_ids_cap(*old(c)),
        lru_ids(*final(c)).contains_key(name@),
        lru_ids(*final(c))[name@] == id,
        forall|k: Seq<u8>|
            k != name@ && #[trigger] lru_ids(*final(c)).contains_key(k) ==> lru_ids(*old(c)).contains_key(k)
                && lru_ids(*final(c))[k] == lru_ids(*old(c))[k],
{
    c.put(name, id);
}

/// Relies on `lru::LruCache::get`: the id stored under the name, if any;
/// the lookup only reorders recency, the entries stay.
#[verifier::external_body]
fn get_id(c: &mut lru::LruCache<Vec<u8>, u64>, name: &[u8]) -> (r: Option<u64>)
    ensures
        lru_ids_cap(*final(c)) == lru_ids_cap(*old(c)),
        lru_ids(*final(c)) == lru_ids(*old(c)),
        r == (if lru_ids(*old(c)).contains_key(name@) {
            Some(lru_ids(*old(c))[name@])
        } else {
            None
        }),
{
    c.get(name).copied()
}

/// Relies on `lru::LruCache::new`: a new cache holds no entry.
#[verifier::external_body]
fn new_name_lru(cap: usize) -> (r: lru::LruCache<u64, Vec<u8>>)
    requires
        cap > 0,
    ensures
        lru_names(r).is_empty(),
        lru_names_cap(r) == cap,
{
    lru::LruCache::new(std::num::NonZeroUsize::new(cap).unwrap())
}

/// Relies on `lru::LruCache::put`: afterwards the id maps to the name;
/// every other entry is one that was there before, with its value.
#[verifier::external_body]
fn put_name(c: &mut lru::LruCache<u64, Vec<u8>>, id: u64, name: Vec<u8>)
    ensures
        lru_names_cap(*final(c)) == lru_names_cap(*old(c)),
        lru_names(*final(c)).contains_key(id),
        lru_names(*final(c))[id] == name@,
        forall|k: u64|
            k != id && #[trigger] lru_names(*final(c)).contains_key(k) ==> lru_names(*old(c)).contains_key(k)
                && lru_names(*final(c))[k] == lru_names(*old(c))[k],
{
    c.put(id, name);
}

/// Relies on `lru::LruCache::get`: the name stored under the id, if any;
/// the lookup only reorders recency, the entries stay.
#[verifier::external_body]
fn get_name(c: &mut lru::LruCache<u64, Vec<u8>>, id: u64) -> (r: Option<Vec<u8>>)
    ensures
        lru_names_cap(*final(c)) == lru_names_cap(*old(c)),
        lru_names(*final(c)) == lru_names(*old(c)),
        match r {
            Some(v) => lru_names(*old(c)).contains_key(id) && v@ == lru_names(*old(c))[id],
            None => !lru_names(*old(c)).contains_key(id),
        },
{
    c.get(&id).cloned()
}

impl TagIdCache {
    /// An empty cache that holds at most `cap` entries.
    pub fn new(cap: usize) -> (r: Self)
        requires
            cap > 0,
        ensures
            tag_ids(r).is_empty(),
            tag_id_capacity(r) == cap,
    {
        TagIdCache { inner: new_id_lru(cap) }
    }

    /// Stores `id` under `name`; the least recently used entry may go.
    pub fn put(&mut self, name: Vec<u8>, id: u64)
        ensures
            tag_id_capacity(*final(self)) == tag_id_capacity(*old(self)),
            tag_ids(*final(self)).contains_key(name@),
            tag_ids(*final(self))[name@] == id,
            forall|k: Seq<u8>|
                k != name@ && #[trigger] tag_ids(*final(self)).contains_key(k) ==> tag_ids(
                    *old(self),
                ).contains_key(k) && tag_ids(*final(self))[k] == tag_ids(*old(self))[k],
    {
        put_id(&mut self.inner, name, id);
    }

    /// The id stored under `name`, if any.
    pub fn get(&mut self, name: &[u8]) -> (r: Option<u64>)
        ensures
            tag_id_capacity(*final(self)) == tag_id_capacity(*old(self)),
            tag_ids(*final(self)) == tag_ids(*old(self)),
            r == (if tag_ids(*old(self)).contains_key(name@) {
                Some(tag_ids(*old(self))[name@])
            } else {
                None
            }),
    {
        get_id(&mut self.inner, name)
    }
}

impl TagNameCache {
    /// An empty cache that holds at most `cap` entries.
    pub fn new(cap: usize) -> (r: Self)
        requires
            cap > 0,
        ensures
            tag_names(r).is_empty(),
            tag_name_capacity(r) == cap,
    {
        TagNameCache { inner: new_name_lru(cap) }
    }

    /// Stores `name` under `id`; the least recently used entry may go.
    pub fn put(&mut self, id: u64, name: Vec<u8>)
        ensures
            tag_name_capacity(*final(self)) == tag_name_capacity(*old(self)),
            tag_names(*final(self)).contains_key(id),
            tag_names(*final(self))[id] == name@,
            forall|k: u64|
                k != id && #[trigger] tag_names(*final(self)).contains_key(k) ==> tag_names(
                    *old(self),
                ).contains_key(k) && tag_names(*final(self))[k] == tag_names(*old(self))[k],
    {
        put_name(&mut self.inner, id, name);
    }

    /// The name stored under `id`, if any.
    pub fn get(&mut self, id: u64) -> (r: Option<Vec<u8>>)
        ensures
            tag_name_capacity(*final(self)) == tag_name_capacity(*old(self)),
            tag_names(*final(self)) == tag_names(*old(self)),
            match r {
                Some(v) => tag_names(*old(self)).contains_key(id) && v@ == tag_names(*old(self))[id],
                None => !tag_names(*old(self)).contains_key(id),
            },
    {
        get_name(&mut self.inner, id)
    }
}

} // verus!
