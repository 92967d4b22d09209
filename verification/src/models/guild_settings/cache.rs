use vstd::prelude::*;
use vstd::string::StringExecFns;
use std::collections::hash_map::RandomState;

verus! {

/// Composite lookup key for the settings cache: the partition (guild)
/// identifier and the setting name.
#[derive(Clone, Debug, Eq, Hash, PartialEq)]
pub struct CacheKey {
    pub id: u64,
    pub name: String,
}

/// The concurrent map one partition stores its entries in: setting name to
/// (value, read frequency).
type EntryMap = dashmap::DashMap<String, (String, u64), RandomState>;

#[verifier::external_type_specification]
#[verifier::external_body]
#[verifier::reject_recursive_types(K)]
#[verifier::reject_recursive_types(V)]
#[verifier::reject_recursive_types(S)]
pub struct ExDashMap<K, V, S>(dashmap::DashMap<K, V, S>);

/// The entries an `EntryMap` holds, as a map from the setting name to the
/// stored value and its read frequency.
pub uninterp spec fn entry_map_view(m: EntryMap) -> Map<Seq<char>, (Seq<char>, u64)>;

/// The empty entry map.
pub open spec fn no_entries() -> Map<Seq<char>, (Seq<char>, u64)> {
    Map::empty()
}

/// Relies on dashmap::DashMap::new: a freshly created map holds no entries.
#[verifier::external_body]
fn entry_map_new() -> (r: EntryMap)
    ensures
        entry_map_view(r) == no_entries(),
{
    dashmap::DashMap::new()
}

/// Relies on dashmap::DashMap::len: the number of entries in the map.
#[verifier::external_body]
fn entry_map_len(m: &EntryMap) -> (n: usize)
    ensures
        n == entry_map_view(*m).len(),
{
    m.len()
}

/// Relies on dashmap::DashMap::contains_key: whether an entry is stored
/// under the name.
#[verifier::external_body]
fn entry_map_contains(m: &EntryMap, name: &str) -> (b: bool)
    ensures
        b == entry_map_view(*m).dom().contains(name@),
{
    m.contains_key(name)
}

/// Relies on dashmap::DashMap::get: the entry stored under the name, if any.
#[verifier::external_body]
fn entry_map_get(m: &EntryMap, name: &str) -> (r: Option<(String, u64)>)
    ensures
        match r {
            Some(p) => entry_map_view(*m).dom().contains(name@) && entry_map_view(*m)[name@]
                == (p.0@, p.1),
            None => !entry_map_view(*m).dom().contains(name@),
        },
{
    m.get(name).map(|e| (e.value().0.clone(), e.value().1))
}

/// Relies on dashmap::DashMap::insert: the value and frequency are stored
/// under the name, replacing whatever entry the name had.
#[verifier::external_body]
fn entry_map_insert(m: &mut EntryMap, name: String, value: String, frequency: u64)
    ensures
        entry_map_view(*final(m)) == entry_map_view(*old(m)).insert(name@, (value@, frequency)),
{
    m.insert(name, (value, frequency));
}

/// Relies on dashmap::DashMap::remove: the entry under the name, if there is
/// one, leaves the map.
#[verifier::external_body]
fn entry_map_remove(m: &mut EntryMap, name: &str)
    ensures
        entry_map_view(*final(m)) == entry_map_view(*old(m)).remove(name@),
{
    m.remove(name);
}

/// Relies on dashmap::DashMap::iter: every entry is yielded exactly once, in
/// an arbitrary order; each pair here is an entry's name and frequency.
#[verifier::external_body]
fn entry_map_names_frequencies(m: &EntryMap) -> (v: Vec<(String, u64)>)
    ensures
        v@.len() == entry_map_view(*m).len(),
        forall|i: int|
            0 <= i < v@.len() ==> entry_map_view(*m).dom().contains(#[trigger] v@[i].0@)
                && entry_map_view(*m)[v@[i].0@].1 == v@[i].1,
        forall|k: Seq<char>|
            entry_map_view(*m).dom().contains(k) ==> exists|i: int|
                0 <= i < v@.len() && #[trigger] v@[i].0@ == k,
{
    m.iter().map(|e| (e.key().clone(), e.value().1)).collect()
}

/// A read bumps an entry's frequency by one; the counter stays put at its
/// ceiling rather than wrap.
pub open spec fn bump_frequency(f: u64) -> u64 {
    if f == u64::MAX {
        f
    } else {
        (f + 1) as u64
    }
}

/// The name holds an entry whose frequency is minimal among all entries.
pub open spec fn min_frequency_name(m: Map<Seq<char>, (Seq<char>, u64)>, k: Seq<char>) -> bool {
    &&& m.dom().contains(k)
    &&& forall|k2: Seq<char>| m.dom().contains(k2) ==> m[k].1 <= (#[trigger] m[k2]).1
}

/// How an insert of `name = value` turns the entries `pre` into `post` under
/// capacity `cap`: the new entry always lands with frequency zero, and when a
/// new name arrives at capacity, one entry of minimal frequency makes room.
pub open spec fn lfu_insert_post(
    pre: Map<Seq<char>, (Seq<char>, u64)>,
    post: Map<Seq<char>, (Seq<char>, u64)>,
    cap: int,
    name: Seq<char>,
    value: Seq<char>,
) -> bool {
    if pre.dom().contains(name) || pre.len() < cap {
        post == pre.insert(name, (value, 0u64))
    } else {
        exists|k: Seq<char>|
            #[trigger] min_frequency_name(pre, k) && post == pre.remove(k).insert(
                name,
                (value, 0u64),
            )
    }
}

/// A bounded name-to-value store for one partition. A read bumps the entry's
/// frequency; an insert of a fresh name at capacity first evicts an entry of
/// minimal frequency; an insert always (re)starts its entry at frequency zero.
pub struct IdCache {
    data: EntryMap,
    capacity: usize,
}

impl View for IdCache {
    type V = Map<Seq<char>, (Seq<char>, u64)>;

    closed spec fn view(&self) -> Map<Seq<char>, (Seq<char>, u64)> {
        entry_map_view(self.data)
    }
}

impl IdCache {
    pub closed spec fn spec_capacity(self) -> int {
        self.capacity as int
    }

    /// The entries stay finite, within capacity, and the capacity is positive.
    pub open spec fn wf(self) -> bool {
        &&& 0 < self.spec_capacity()
        &&& self@.dom().finite()
        &&& self@.len() <= self.spec_capacity()
    }

    pub fn new(capacity: usize) -> (r: IdCache)
        requires
            0 < capacity,
        ensures
            r.wf(),
            r@ == Map::<Seq<char>, (Seq<char>, u64)>::empty(),
            r.spec_capacity() == capacity,
    {
        IdCache { data: entry_map_new(), capacity }
    }

    pub fn len(&self) -> (n: usize)
        ensures
            n == self@.len(),
    {
        entry_map_len(&self.data)
    }

    /// On a hit, returns the value and bumps the entry's frequency; on a
    /// miss, changes nothing.
    pub fn get(&mut self, name: &str) -> (r: Option<String>)
        requires
            old(self).wf(),
        ensures
            final(self).wf(),
            final(self).spec_capacity() == old(self).spec_capacity(),
            match r {
                Some(v) => old(self)@.dom().contains(name@) && v@ == old(self)@[name@].0
                    && final(self)@ == old(self)@.insert(
                    name@,
                    (old(self)@[name@].0, bump_frequency(old(self)@[name@].1)),
                ),
                None => !old(self)@.dom().contains(name@) && *final(self) == *old(self),
            },
    {
        match entry_map_get(&self.data, name) {
            Some((value, frequency)) => {
                let bumped: u64 = if frequency == u64::MAX {
                    frequency
                } else {
                    frequency + 1
                };
                let copy = value.clone();
                entry_map_insert(&mut self.data, String::from_str(name), value, bumped);
                proof {
                    assert(self@.dom() =~= old(self)@.dom());
                }
                Some(copy)
            },
            None => None,
        }
    }

    /// Stores `name = value` at frequency zero; when `name` is fresh and the
    /// partition is full, an entry of minimal frequency is evicted first.
    pub fn insert(&mut self, name: String, value: String)
        requires
            old(self).wf(),
        ensures
            final(self).wf(),
            final(self).spec_capacity() == old(self).spec_capacity(),
            lfu_insert_post(old(self)@, final(self)@, old(self).spec_capacity(), name@, value@),
    {
        let ghost pre = self@;
        if entry_map_len(&self.data) >= self.capacity && !entry_map_contains(
            &self.data,
            name.as_str(),
        ) {
            let pairs = entry_map_names_frequencies(&self.data);
            assert(pairs@.len() > 0);
            let mut mi: usize = 0;
            let mut i: usize = 1;
            while i < pairs.len()
                invariant
                    0 < pairs@.len(),
                    mi < i,
                    i <= pairs@.len(),
                    forall|j: int| 0 <= j < i ==> pairs@[mi as int].1 <= (#[trigger] pairs@[j]).1,
                decreases pairs@.len() - i,
            {
                if pairs[i].1 < pairs[mi].1 {
                    mi = i;
                }
                i += 1;
            }
            let ghost evicted = pairs@[mi as int].0@;
            proof {
                assert forall|k2: Seq<char>| pre.dom().contains(k2) implies pre[evicted].1 <= (
                #[trigger] pre[k2]).1 by {
                    let j = choose|j: int| 0 <= j < pairs@.len() && #[trigger] pairs@[j].0@ == k2;
                    assert(pre[k2].1 == pairs@[j].1);
                }
                assert(min_frequency_name(pre, evicted));
            }
            entry_map_remove(&mut self.data, pairs[mi].0.as_str());
            proof {
                assert(self@.dom() =~= pre.dom().remove(evicted));
            }
            entry_map_insert(&mut self.data, name, value, 0);
            proof {
                assert(self@.dom() =~= pre.dom().remove(evicted).insert(name@));
                assert(min_frequency_name(pre, evicted) && self@ == pre.remove(evicted).insert(
                    name@,
                    (value@, 0u64),
                ));
            }
        } else {
            entry_map_insert(&mut self.data, name, value, 0);
            proof {
                assert(self@.dom() =~= pre.dom().insert(name@));
            }
        }
    }

    /// Removes the entry under `name`; absence is not an error.
    pub fn invalidate(&mut self, name: &str)
        requires
            old(self).wf(),
        ensures
            final(self).wf(),
            final(self).spec_capacity() == old(self).spec_capacity(),
            final(self)@ == old(self)@.remove(name@),
    {
        entry_map_remove(&mut self.data, name);
        proof {
            assert(self@.dom() =~= old(self)@.dom().remove(name@));
        }
    }
}

} // verus!

verus! {

/// The entries of partition `id`, or the empty map where no partition exists.
pub open spec fn partition_view(
    c: Map<u64, Map<Seq<char>, (Seq<char>, u64)>>,
    id: u64,
) -> Map<Seq<char>, (Seq<char>, u64)> {
    if c.dom().contains(id) {
        c[id]
    } else {
        no_entries()
    }
}

/// The entry stored for `name` in partition `id`, if both exist.
pub open spec fn cache_lookup(
    c: Map<u64, Map<Seq<char>, (Seq<char>, u64)>>,
    id: u64,
    name: Seq<char>,
) -> Option<(Seq<char>, u64)> {
    if c.dom().contains(id) && c[id].dom().contains(name) {
        Some(c[id][name])
    } else {
        None
    }
}

/// Every partition present is finite, holds at least one entry, and never
/// holds more than `cap` entries.
pub open spec fn partitions_ok(c: Map<u64, Map<Seq<char>, (Seq<char>, u64)>>, cap: int) -> bool {
    forall|id: u64| #[trigger]
        c.dom().contains(id) ==> c[id].dom().finite() && 1 <= c[id].len() <= cap
}

/// How invalidating `name` in partition `id` changes the partitions: the
/// entry leaves its partition, and a partition left empty is dropped.
pub open spec fn spec_invalidate(
    c: Map<u64, Map<Seq<char>, (Seq<char>, u64)>>,
    id: u64,
    name: Seq<char>,
) -> Map<u64, Map<Seq<char>, (Seq<char>, u64)>> {
    if c.dom().contains(id) {
        if c[id].remove(name).len() == 0 {
            c.remove(id)
        } else {
            c.insert(id, c[id].remove(name))
        }
    } else {
        c
    }
}

/// The per-guild settings cache: one bounded LFU partition per guild
/// identifier, created by the first insert for that guild and dropped as soon
/// as an invalidation leaves it empty.
pub struct GuildSettingsCache {
    id_caches: std::collections::HashMap<u64, IdCache>,
    capacity: usize,
}

impl View for GuildSettingsCache {
    type V = Map<u64, Map<Seq<char>, (Seq<char>, u64)>>;

    closed spec fn view(&self) -> Map<u64, Map<Seq<char>, (Seq<char>, u64)>> {
        Map::new(
            |id: u64| self.id_caches@.contains_key(id),
            |id: u64| self.id_caches@[id]@,
        )
    }
}

impl GuildSettingsCache {
    pub closed spec fn spec_capacity(self) -> int {
        self.capacity as int
    }

    /// Each partition is a well-formed LFU cache of this cache's capacity.
    pub closed spec fn partitions_wf(self) -> bool {
        forall|id: u64| #[trigger]
            self.id_caches@.contains_key(id) ==> self.id_caches@[id].wf()
                && self.id_caches@[id].spec_capacity() == self.spec_capacity()
    }

    pub open spec fn wf(self) -> bool {
        &&& 0 < self.spec_capacity()
        &&& self.partitions_wf()
        &&& partitions_ok(self@, self.spec_capacity())
    }

    pub fn new(capacity: usize) -> (r: GuildSettingsCache)
        requires
            0 < capacity,
        ensures
            r.wf(),
            r@ == Map::<u64, Map<Seq<char>, (Seq<char>, u64)>>::empty(),
            r.spec_capacity() == capacity,
    {
        let r = GuildSettingsCache { id_caches: std::collections::HashMap::new(), capacity };
        proof {
            assert(r@ =~= Map::<u64, Map<Seq<char>, (Seq<char>, u64)>>::empty());
        }
        r
    }

    /// Whether any entries are currently tracked for partition `id`.
    pub fn has_partition(&self, id: u64) -> (b: bool)
        ensures
            b == self@.dom().contains(id),
    {
        self.id_caches.contains_key(&id)
    }

    /// The number of entries partition `id` currently holds.
    pub fn partition_len(&self, id: u64) -> (n: usize)
        requires
            self.wf(),
        ensures
            n == partition_view(self@, id).len(),
    {
        match self.id_caches.get(&id) {
            Some(part) => part.len(),
            None => 0,
        }
    }

    /// Looks `key` up in its partition; a hit bumps the entry's frequency, a
    /// miss (even of the whole partition) changes nothing.
    pub fn get(&mut self, key: &CacheKey) -> (r: Option<String>)
        requires
            old(self).wf(),
        ensures
            final(self).wf(),
            final(self).spec_capacity() == old(self).spec_capacity(),
            final(self)@.dom() == old(self)@.dom(),
            match r {
                Some(v) => cache_lookup(old(self)@, key.id, key.name@) matches Some(p) && v@ == p.0
                    && final(self)@ == old(self)@.insert(
                    key.id,
                    old(self)@[key.id].insert(key.name@, (p.0, bump_frequency(p.1))),
                ),
                None => cache_lookup(old(self)@, key.id, key.name@) is None && final(self)@
                    == old(self)@,
            },
    {
        match self.id_caches.remove(&key.id) {
            Some(mut part) => {
                let r = part.get(key.name.as_str());
                self.id_caches.insert(key.id, part);
                proof {
                    assert(self.id_caches@ =~= old(self).id_caches@.insert(key.id, part));
                    if r is Some {
                        assert(self@ =~= old(self)@.insert(
                            key.id,
                            old(self)@[key.id].insert(
                                key.name@,
                                (
                                    old(self)@[key.id][key.name@].0,
                                    bump_frequency(old(self)@[key.id][key.name@].1),
                                ),
                            ),
                        ));
                        assert(self@.dom() =~= old(self)@.dom());
                        assert(self@[key.id].dom() =~= old(self)@[key.id].dom());
                    } else {
                        assert(self@ =~= old(self)@);
                        assert(self@.dom() =~= old(self)@.dom());
                    }
                }
                r
            },
            None => {
                proof {
                    assert(self.id_caches@ =~= old(self).id_caches@);
                    assert(self@ =~= old(self)@);
                }
                None
            },
        }
    }

    /// Stores `key = value` in the key's partition, creating the partition at
    /// this cache's capacity when it is missing; no other partition changes.
    pub fn insert(&mut self, key: CacheKey, value: String)
        requires
            old(self).wf(),
        ensures
            final(self).wf(),
            final(self).spec_capacity() == old(self).spec_capacity(),
            final(self)@.dom() == old(self)@.dom().insert(key.id),
            lfu_insert_post(
                partition_view(old(self)@, key.id),
                final(self)@[key.id],
                old(self).spec_capacity(),
                key.name@,
                value@,
            ),
            forall|id: u64|
                id != key.id && old(self)@.dom().contains(id) ==> final(self)@[id] == old(
                    self,
                )@[id],
    {
        let id = key.id;
        let mut part = match self.id_caches.remove(&id) {
            Some(p) => p,
            None => IdCache::new(self.capacity),
        };
        part.insert(key.name, value);
        self.id_caches.insert(id, part);
        proof {
            assert(self@.dom() =~= old(self)@.dom().insert(id));
            assert(part@.dom().contains(key.name@));
        }
    }

    /// Drops the entry for `key` and, where that leaves the partition empty,
    /// the partition itself.
    pub fn invalidate(&mut self, key: &CacheKey)
        requires
            old(self).wf(),
        ensures
            final(self).wf(),
            final(self).spec_capacity() == old(self).spec_capacity(),
            final(self)@ == spec_invalidate(old(self)@, key.id, key.name@),
    {
        match self.id_caches.remove(&key.id) {
            Some(mut part) => {
                part.invalidate(key.name.as_str());
                if part.len() > 0 {
                    self.id_caches.insert(key.id, part);
                    proof {
                        assert(self@ =~= old(self)@.insert(
                            key.id,
                            old(self)@[key.id].remove(key.name@),
                        ));
                    }
                } else {
                    proof {
                        assert(self@ =~= old(self)@.remove(key.id));
                    }
                }
            },
            None => {
                proof {
                    assert(self@ =~= old(self)@);
                }
            },
        }
    }
}

} // verus!

verus! {

/// A partition never grows past its capacity: an insert applied to entries
/// within capacity yields entries within capacity, so any sequence of
/// inserts keeps a partition bounded.
pub proof fn lemma_insert_respects_capacity(
    pre: Map<Seq<char>, (Seq<char>, u64)>,
    post: Map<Seq<char>, (Seq<char>, u64)>,
    cap: int,
    name: Seq<char>,
    value: Seq<char>,
)
    requires
        lfu_insert_post(pre, post, cap, name, value),
        pre.dom().finite(),
        pre.len() <= cap,
        0 < cap,
    ensures
        post.dom().finite(),
        post.len() <= cap,
{
    if pre.dom().contains(name) || pre.len() < cap {
        assert(post.dom() =~= pre.dom().insert(name));
    } else {
        let k = choose|k: Seq<char>|
            #[trigger] min_frequency_name(pre, k) && post == pre.remove(k).insert(
                name,
                (value, 0u64),
            );
        assert(post.dom() =~= pre.dom().remove(k).insert(name));
    }
}

} // verus!
