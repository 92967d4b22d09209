pub mod cache;

use vstd::prelude::*;
use crate::models::guild_settings::cache::{
    bump_frequency, cache_lookup, lfu_insert_post, min_frequency_name, partition_view,
    spec_invalidate, CacheKey, GuildSettingsCache,
};

verus! {

/// Why a settings write failed: the backing relational store reported an
/// error (a lost connection, an exhausted pool, a refused statement).
#[derive(Clone, Debug, PartialEq, Eq)]
pub enum StoreError {
    Backend,
}

/// One row of the settings table: the guild, the setting key, and the stored
/// value. A present row may hold no value: the setting was explicitly
/// disabled, which readers cannot tell apart from a missing row.
pub struct GuildSettings {
    pub guild: u64,
    pub key: String,
    pub value: Option<String>,
}

impl GuildSettings {
    pub fn new(guild: u64, key: &str, value: Option<&str>) -> (r: GuildSettings)
        ensures
            r.guild == guild,
            r.key@ == key@,
            opt_string_view(r.value) == opt_str_view(value),
    {
        GuildSettings {
            guild,
            key: key.to_string(),
            value: match value {
                Some(v) => Some(v.to_string()),
                None => None,
            },
        }
    }
}

pub open spec fn opt_str_view(v: Option<&str>) -> Option<Seq<char>> {
    match v {
        Some(s) => Some(s@),
        None => None,
    }
}

pub open spec fn opt_string_view(v: Option<String>) -> Option<Seq<char>> {
    match v {
        Some(s) => Some(s@),
        None => None,
    }
}

/// The backing relational collaborator: a durable table keyed by
/// (guild, setting key) whose rows hold an optional value.
pub trait SettingsBackend: Sized {
    /// The rows the table currently holds. An implementation describes its
    /// own table by overriding this; the default stands for an empty one.
    open spec fn rows(&self) -> Map<(u64, Seq<char>), Option<Seq<char>>> {
        Map::empty()
    }

    /// Inserts or overwrites the row for `(guild, key)`. On an error the
    /// write may or may not have reached the table; no other row changes.
    fn upsert(&mut self, guild: u64, key: &str, value: Option<&str>) -> (r: Result<
        (),
        StoreError,
    >)
        ensures
            r is Ok ==> final(self).rows() == old(self).rows().insert(
                (guild, key@),
                opt_str_view(value),
            ),
            r is Err ==> final(self).rows() == old(self).rows() || final(self).rows() == old(
                self,
            ).rows().insert((guild, key@), opt_str_view(value)),
    ;

    /// Reads the row for `(guild, key)`, if the table holds one; the table
    /// itself never changes.
    fn select(&mut self, guild: u64, key: &str) -> (r: Result<Option<GuildSettings>, StoreError>)
        ensures
            final(self).rows() == old(self).rows(),
            match r {
                Ok(Some(row)) => row.guild == guild && row.key@ == key@ && old(
                    self,
                ).rows().dom().contains((guild, key@)) && opt_string_view(row.value) == old(
                    self,
                ).rows()[(guild, key@)],
                Ok(None) => !old(self).rows().dom().contains((guild, key@)),
                Err(_) => true,
            },
    ;
}

/// The rows a write log stands for: later writes of a key shadow earlier ones.
pub open spec fn rows_of(s: Seq<GuildSettings>) -> Map<(u64, Seq<char>), Option<Seq<char>>>
    decreases s.len(),
{
    if s.len() == 0 {
        Map::empty()
    } else {
        rows_of(s.drop_last()).insert(
            (s.last().guild, s.last().key@),
            opt_string_view(s.last().value),
        )
    }
}

/// An in-memory settings table: a write log of rows, later writes of a key
/// shadowing earlier ones. It counts the calls made to it, and it can be
/// switched to refuse service, standing in for an unreachable store.
pub struct MemoryBackend {
    rows_log: Vec<GuildSettings>,
    available: bool,
    select_calls: u64,
    upsert_calls: u64,
}

impl MemoryBackend {
    pub closed spec fn spec_available(self) -> bool {
        self.available
    }

    pub closed spec fn spec_select_calls(self) -> u64 {
        self.select_calls
    }

    pub closed spec fn spec_upsert_calls(self) -> u64 {
        self.upsert_calls
    }

    pub fn new() -> (r: MemoryBackend)
        ensures
            r.rows() == Map::<(u64, Seq<char>), Option<Seq<char>>>::empty(),
            r.spec_available(),
            r.spec_select_calls() == 0,
            r.spec_upsert_calls() == 0,
    {
        MemoryBackend { rows_log: Vec::new(), available: true, select_calls: 0, upsert_calls: 0 }
    }

    /// Switches the table between serving and refusing calls.
    pub fn set_available(&mut self, available: bool)
        ensures
            final(self).rows() == old(self).rows(),
            final(self).spec_available() == available,
            final(self).spec_select_calls() == old(self).spec_select_calls(),
            final(self).spec_upsert_calls() == old(self).spec_upsert_calls(),
    {
        self.available = available;
    }

    pub fn select_calls(&self) -> (n: u64)
        ensures
            n == self.spec_select_calls(),
    {
        self.select_calls
    }

    pub fn upsert_calls(&self) -> (n: u64)
        ensures
            n == self.spec_upsert_calls(),
    {
        self.upsert_calls
    }
}

impl SettingsBackend for MemoryBackend {
    closed spec fn rows(&self) -> Map<(u64, Seq<char>), Option<Seq<char>>> {
        rows_of(self.rows_log@)
    }

    fn upsert(&mut self, guild: u64, key: &str, value: Option<&str>) -> (r: Result<
        (),
        StoreError,
    >) {
        if self.upsert_calls < u64::MAX {
            self.upsert_calls = self.upsert_calls + 1;
        }
        if !self.available {
            return Err(StoreError::Backend);
        }
        let ghost pre = self.rows_log@;
        self.rows_log.push(GuildSettings::new(guild, key, value));
        proof {
            assert(self.rows_log@.drop_last() =~= pre);
        }
        Ok(())
    }

    fn select(&mut self, guild: u64, key: &str) -> (r: Result<Option<GuildSettings>, StoreError>) {
        if self.select_calls < u64::MAX {
            self.select_calls = self.select_calls + 1;
        }
        if !self.available {
            return Err(StoreError::Backend);
        }
        let key_string = key.to_string();
        let ghost s = self.rows_log@;
        let mut i: usize = self.rows_log.len();
        proof {
            assert(s.take(s.len() as int) =~= s);
        }
        while i > 0
            invariant
                i <= s.len(),
                s == self.rows_log@,
                s == old(self).rows_log@,
                key_string@ == key@,
                row_lookup(rows_of(s), guild, key@) == row_lookup(
                    rows_of(s.take(i as int)),
                    guild,
                    key@,
                ),
            decreases i,
        {
            i = i - 1;
            proof {
                assert(s.take(i + 1).drop_last() =~= s.take(i as int));
                assert(s.take(i + 1).last() == s[i as int]);
                assert(rows_of(s.take(i + 1)) == rows_of(s.take(i as int)).insert(
                    (s[i as int].guild, s[i as int].key@),
                    opt_string_view(s[i as int].value),
                ));
            }
            let row = &self.rows_log[i];
            if row.guild == guild && row.key == key_string {
                let found = GuildSettings {
                    guild: row.guild,
                    key: row.key.clone(),
                    value: match &row.value {
                        Some(v) => Some(v.clone()),
                        None => None,
                    },
                };
                return Ok(Some(found));
            }
        }
        proof {
            assert(s.take(0) =~= Seq::<GuildSettings>::empty());
        }
        Ok(None)
    }
}

/// The row value stored for a key, with presence made explicit.
pub open spec fn row_lookup(
    rows: Map<(u64, Seq<char>), Option<Seq<char>>>,
    id: u64,
    name: Seq<char>,
) -> Option<Option<Seq<char>>> {
    if rows.dom().contains((id, name)) {
        Some(rows[(id, name)])
    } else {
        None
    }
}

} // verus!

verus! {

/// The cache never over-represents the table: every cached value is exactly
/// the value of a row the table presently holds.
pub open spec fn cache_coherent(
    c: Map<u64, Map<Seq<char>, (Seq<char>, u64)>>,
    rows: Map<(u64, Seq<char>), Option<Seq<char>>>,
) -> bool {
    forall|id: u64, name: Seq<char>|
        #[trigger] cache_lookup(c, id, name) matches Some(p) ==> rows.dom().contains((id, name))
            && rows[(id, name)] == Some(p.0)
}

/// The value a read returns, given a cache and table state: a cached value
/// wins; otherwise the row's value, where a present row has one.
pub open spec fn store_get_result(
    c: Map<u64, Map<Seq<char>, (Seq<char>, u64)>>,
    rows: Map<(u64, Seq<char>), Option<Seq<char>>>,
    id: u64,
    name: Seq<char>,
) -> Option<Seq<char>> {
    match cache_lookup(c, id, name) {
        Some(p) => Some(p.0),
        None => match row_lookup(rows, id, name) {
            Some(v) => v,
            None => None,
        },
    }
}

/// How a read that reached a verdict changes the cache: a hit bumps the
/// entry's frequency, a value loaded from the table is inserted into its
/// partition, and a read of a missing value leaves the cache alone.
pub open spec fn store_get_post(
    c0: Map<u64, Map<Seq<char>, (Seq<char>, u64)>>,
    c1: Map<u64, Map<Seq<char>, (Seq<char>, u64)>>,
    rows: Map<(u64, Seq<char>), Option<Seq<char>>>,
    id: u64,
    name: Seq<char>,
    cap: int,
) -> bool {
    match cache_lookup(c0, id, name) {
        Some(p) => c1 == c0.insert(id, c0[id].insert(name, (p.0, bump_frequency(p.1)))),
        None => match store_get_result(c0, rows, id, name) {
            Some(v) => {
                &&& c1.dom() == c0.dom().insert(id)
                &&& lfu_insert_post(partition_view(c0, id), c1[id], cap, name, v)
                &&& forall|id2: u64|
                    id2 != id && c0.dom().contains(id2) ==> c1[id2] == #[trigger] c0[id2]
            },
            None => c1 == c0,
        },
    }
}

/// Invalidation keeps the cache coherent, leaves no entry behind for the key,
/// and touches no other partition or entry.
pub proof fn lemma_invalidate_coherent(
    c: Map<u64, Map<Seq<char>, (Seq<char>, u64)>>,
    rows: Map<(u64, Seq<char>), Option<Seq<char>>>,
    id: u64,
    name: Seq<char>,
)
    requires
        cache_coherent(c, rows),
        c.dom().contains(id) ==> c[id].dom().finite(),
    ensures
        cache_coherent(spec_invalidate(c, id, name), rows),
        cache_lookup(spec_invalidate(c, id, name), id, name) is None,
        forall|id2: u64, n2: Seq<char>|
            !(id2 == id && n2 == name) ==> #[trigger] cache_lookup(
                spec_invalidate(c, id, name),
                id2,
                n2,
            ) == cache_lookup(c, id2, n2),
{
    let c1 = spec_invalidate(c, id, name);
    assert forall|id2: u64, n2: Seq<char>| !(id2 == id && n2 == name) implies #[trigger]
        cache_lookup(c1, id2, n2) == cache_lookup(c, id2, n2) by {
        if c.dom().contains(id) && id2 == id {
            if c[id].remove(name).len() == 0 {
                c[id].remove(name).dom().lemma_len0_is_empty();
                assert(!c[id].remove(name).dom().contains(n2));
                assert(!c[id].dom().contains(n2));
            } else {
                assert(c[id].remove(name).dom().contains(n2) == c[id].dom().contains(n2));
            }
        }
    }
    assert forall|id2: u64, n2: Seq<char>| (#[trigger] cache_lookup(c1, id2, n2)) is Some implies rows.dom().contains((id2, n2))
        && rows[(id2, n2)] == Some(cache_lookup(c1, id2, n2)->Some_0.0) by {
        assert(cache_lookup(c1, id2, n2) == cache_lookup(c, id2, n2));
    }
}

/// Writing a row for a key nothing caches keeps the cache coherent.
pub proof fn lemma_rows_insert_coherent(
    c: Map<u64, Map<Seq<char>, (Seq<char>, u64)>>,
    rows: Map<(u64, Seq<char>), Option<Seq<char>>>,
    id: u64,
    name: Seq<char>,
    v: Option<Seq<char>>,
)
    requires
        cache_coherent(c, rows),
        cache_lookup(c, id, name) is None,
    ensures
        cache_coherent(c, rows.insert((id, name), v)),
{
    let rows1 = rows.insert((id, name), v);
    assert forall|id2: u64, n2: Seq<char>| (#[trigger] cache_lookup(c, id2, n2)) is Some implies rows1.dom().contains((id2, n2)) && rows1[
        (id2, n2)
    ] == Some(cache_lookup(c, id2, n2)->Some_0.0) by {
        assert(!(id2 == id && n2 == name));
    }
}

/// Caching a value the table holds for its key keeps the cache coherent and
/// makes the entry present at frequency zero.
pub proof fn lemma_cache_insert_coherent(
    c0: Map<u64, Map<Seq<char>, (Seq<char>, u64)>>,
    c1: Map<u64, Map<Seq<char>, (Seq<char>, u64)>>,
    rows: Map<(u64, Seq<char>), Option<Seq<char>>>,
    id: u64,
    name: Seq<char>,
    v: Seq<char>,
    cap: int,
)
    requires
        cache_coherent(c0, rows),
        rows.dom().contains((id, name)),
        rows[(id, name)] == Some(v),
        c1.dom() == c0.dom().insert(id),
        lfu_insert_post(partition_view(c0, id), c1[id], cap, name, v),
        forall|id2: u64| id2 != id && c0.dom().contains(id2) ==> c1[id2] == #[trigger] c0[id2],
    ensures
        cache_coherent(c1, rows),
        cache_lookup(c1, id, name) == Some((v, 0u64)),
{
    let pre = partition_view(c0, id);
    if pre.dom().contains(name) || pre.len() < cap {
        assert(c1[id] == pre.insert(name, (v, 0u64)));
    } else {
        let k = choose|k: Seq<char>|
            #[trigger] min_frequency_name(pre, k) && c1[id] == pre.remove(k).insert(
                name,
                (v, 0u64),
            );
        assert(c1[id] == pre.remove(k).insert(name, (v, 0u64)));
    }
    assert(cache_lookup(c1, id, name) == Some((v, 0u64)));
    assert forall|id2: u64, n2: Seq<char>| (#[trigger] cache_lookup(c1, id2, n2)) is Some implies rows.dom().contains((id2, n2)) && rows[
        (id2, n2)
    ] == Some(cache_lookup(c1, id2, n2)->Some_0.0) by {
        if id2 == id {
            if n2 == name {
            } else {
                assert(cache_lookup(c1, id2, n2) == cache_lookup(c0, id2, n2));
            }
        } else {
            assert(cache_lookup(c1, id2, n2) == cache_lookup(c0, id2, n2));
        }
    }
}

/// The read-through / write-through settings façade: it serves reads from the
/// per-guild cache where it can, loads them from the backing table where it
/// must, and on writes invalidates the cached entry before the table is
/// touched, re-caching the new value only after a successful write of one.
pub struct SettingsStore<S: SettingsBackend> {
    cache: GuildSettingsCache,
    backend: S,
}

impl<S: SettingsBackend> SettingsStore<S> {
    pub closed spec fn spec_cache(self) -> Map<u64, Map<Seq<char>, (Seq<char>, u64)>> {
        self.cache@
    }

    pub closed spec fn spec_rows(self) -> Map<(u64, Seq<char>), Option<Seq<char>>> {
        self.backend.rows()
    }

    pub closed spec fn spec_backend(self) -> S {
        self.backend
    }

    pub closed spec fn spec_capacity(self) -> int {
        self.cache.spec_capacity()
    }

    pub closed spec fn cache_wf(self) -> bool {
        self.cache.wf()
    }

    pub open spec fn wf(self) -> bool {
        &&& self.cache_wf()
        &&& cache_coherent(self.spec_cache(), self.spec_rows())
    }

    /// A store over `backend` whose partitions each hold at most `capacity`
    /// cached settings; nothing is cached yet.
    pub fn new(capacity: usize, backend: S) -> (r: SettingsStore<S>)
        requires
            0 < capacity,
        ensures
            r.wf(),
            r.spec_capacity() == capacity,
            r.spec_backend() == backend,
            r.spec_rows() == backend.rows(),
            r.spec_cache() == Map::<u64, Map<Seq<char>, (Seq<char>, u64)>>::empty(),
    {
        let r = SettingsStore { cache: GuildSettingsCache::new(capacity), backend };
        proof {
            assert(cache_coherent(r.spec_cache(), r.spec_rows()));
        }
        r
    }

    /// A borrow of the backing collaborator, for its own observers.
    pub fn backend(&self) -> (r: &S)
        ensures
            *r == self.spec_backend(),
    {
        &self.backend
    }

    /// Writes `value` for `(guild, key)`: the cached entry is dropped first,
    /// the table row is then upserted, and only a successfully written value
    /// is re-cached, at frequency zero. A write error leaves the entry
    /// uncached, so a later read must consult the table again.
    pub fn set(&mut self, guild: u64, key: &str, value: Option<&str>) -> (r: Result<
        (),
        StoreError,
    >)
        requires
            old(self).wf(),
        ensures
            final(self).wf(),
            final(self).spec_capacity() == old(self).spec_capacity(),
            r is Ok ==> final(self).spec_rows() == old(self).spec_rows().insert(
                (guild, key@),
                opt_str_view(value),
            ),
            r is Err ==> final(self).spec_rows() == old(self).spec_rows() || final(self).spec_rows()
                == old(self).spec_rows().insert((guild, key@), opt_str_view(value)),
            r is Ok ==> match value {
                Some(v) => cache_lookup(final(self).spec_cache(), guild, key@) == Some((v@, 0u64)),
                None => cache_lookup(final(self).spec_cache(), guild, key@) is None,
            },
            r is Err ==> cache_lookup(final(self).spec_cache(), guild, key@) is None,
            forall|id2: u64, n2: Seq<char>|
                id2 != guild ==> #[trigger] cache_lookup(final(self).spec_cache(), id2, n2)
                    == cache_lookup(old(self).spec_cache(), id2, n2),
    {
        let ck = CacheKey { id: guild, name: key.to_string() };
        self.cache.invalidate(&ck);
        proof {
            lemma_invalidate_coherent(old(self).spec_cache(), old(self).spec_rows(), guild, key@);
        }
        let ghost c1 = self.cache@;
        let r = self.backend.upsert(guild, key, value);
        proof {
            lemma_rows_insert_coherent(c1, old(self).spec_rows(), guild, key@, opt_str_view(value));
        }
        if r.is_ok() {
            if let Some(v) = value {
                let ghost rows1 = self.backend.rows();
                self.cache.insert(CacheKey { id: guild, name: key.to_string() }, v.to_string());
                proof {
                    lemma_cache_insert_coherent(
                        c1,
                        self.cache@,
                        rows1,
                        guild,
                        key@,
                        v@,
                        old(self).spec_capacity(),
                    );
                    assert forall|id2: u64, n2: Seq<char>| id2 != guild implies #[trigger]
                        cache_lookup(self.cache@, id2, n2) == cache_lookup(
                        old(self).spec_cache(),
                        id2,
                        n2,
                    ) by {
                        assert(cache_lookup(c1, id2, n2) == cache_lookup(
                            old(self).spec_cache(),
                            id2,
                            n2,
                        ));
                        assert(self.cache@.dom().contains(id2) == c1.dom().contains(id2));
                    }
                }
            }
        }
        r
    }

    /// Reads the value for `(guild, key)`: a cached value is served as is,
    /// bumping its read frequency; otherwise the table is consulted and a
    /// present value is cached before it is returned. Absent rows, rows
    /// holding no value, and table errors all read as no value.
    pub fn get(&mut self, guild: u64, key: &str) -> (r: Option<String>)
        requires
            old(self).wf(),
        ensures
            final(self).wf(),
            final(self).spec_capacity() == old(self).spec_capacity(),
            final(self).spec_rows() == old(self).spec_rows(),
            match r {
                Some(v) => Some(v@) == store_get_result(
                    old(self).spec_cache(),
                    old(self).spec_rows(),
                    guild,
                    key@,
                ) && store_get_post(
                    old(self).spec_cache(),
                    final(self).spec_cache(),
                    old(self).spec_rows(),
                    guild,
                    key@,
                    old(self).spec_capacity(),
                ),
                None => cache_lookup(old(self).spec_cache(), guild, key@) is None
                    && final(self).spec_cache() == old(self).spec_cache(),
            },
            cache_lookup(old(self).spec_cache(), guild, key@) is Some ==> r is Some
                && final(self).spec_backend() == old(self).spec_backend(),
    {
        let ck = CacheKey { id: guild, name: key.to_string() };
        let cached = self.cache.get(&ck);
        if let Some(v) = cached {
            proof {
                let c0 = old(self).spec_cache();
                let p = cache_lookup(c0, guild, key@)->Some_0;
                assert forall|id2: u64, n2: Seq<char>|
                    (#[trigger] cache_lookup(self.cache@, id2, n2)) is Some implies old(
                    self,
                ).spec_rows().dom().contains((id2, n2)) && old(self).spec_rows()[(id2, n2)] == Some(
                    cache_lookup(self.cache@, id2, n2)->Some_0.0,
                ) by {
                    if id2 == guild && c0[guild].insert(
                        key@,
                        (p.0, bump_frequency(p.1)),
                    ).dom().contains(n2) && n2 != key@ {
                        assert(cache_lookup(self.cache@, id2, n2) == cache_lookup(c0, id2, n2));
                    }
                }
            }
            return Some(v);
        }
        match self.backend.select(guild, key) {
            Ok(Some(row)) => {
                match row.value {
                    Some(v) => {
                        let ghost c0 = self.cache@;
                        let copy = v.clone();
                        self.cache.insert(CacheKey { id: guild, name: key.to_string() }, v);
                        proof {
                            lemma_cache_insert_coherent(
                                c0,
                                self.cache@,
                                self.backend.rows(),
                                guild,
                                key@,
                                copy@,
                                old(self).spec_capacity(),
                            );
                        }
                        Some(copy)
                    },
                    None => None,
                }
            },
            Ok(None) => None,
            Err(_) => None,
        }
    }
}

} // verus!

verus! {

/// After a successful write of a value, a read of the same key returns that
/// value: the row now holds it, and a coherent cache can only agree.
pub proof fn lemma_write_then_read(
    c: Map<u64, Map<Seq<char>, (Seq<char>, u64)>>,
    rows: Map<(u64, Seq<char>), Option<Seq<char>>>,
    id: u64,
    name: Seq<char>,
    v: Seq<char>,
)
    requires
        cache_coherent(c, rows),
        rows.dom().contains((id, name)),
        rows[(id, name)] == Some(v),
    ensures
        store_get_result(c, rows, id, name) == Some(v),
{
    if cache_lookup(c, id, name) is Some {
        assert(rows[(id, name)] == Some(cache_lookup(c, id, name)->Some_0.0));
    }
}

/// After a key is disabled or never configured — its row is absent or holds
/// no value — a read returns no value: a coherent cache cannot serve one.
pub proof fn lemma_disabled_read(
    c: Map<u64, Map<Seq<char>, (Seq<char>, u64)>>,
    rows: Map<(u64, Seq<char>), Option<Seq<char>>>,
    id: u64,
    name: Seq<char>,
)
    requires
        cache_coherent(c, rows),
        rows.dom().contains((id, name)) ==> rows[(id, name)] is None,
    ensures
        store_get_result(c, rows, id, name) is None,
{
    if cache_lookup(c, id, name) is Some {
        assert(rows[(id, name)] == Some(cache_lookup(c, id, name)->Some_0.0));
    }
}

/// Two reads in a row with no write between them return the same value; and
/// once a read has returned a value, the entry is cached, so the repeated
/// read is a cache hit and the table is left alone.
pub proof fn lemma_read_idempotent(
    c0: Map<u64, Map<Seq<char>, (Seq<char>, u64)>>,
    c1: Map<u64, Map<Seq<char>, (Seq<char>, u64)>>,
    rows: Map<(u64, Seq<char>), Option<Seq<char>>>,
    id: u64,
    name: Seq<char>,
    cap: int,
)
    requires
        store_get_post(c0, c1, rows, id, name, cap),
    ensures
        store_get_result(c1, rows, id, name) == store_get_result(c0, rows, id, name),
        store_get_result(c0, rows, id, name) is Some ==> cache_lookup(c1, id, name) is Some
            && cache_lookup(c1, id, name)->Some_0.0 == store_get_result(c0, rows, id, name)->Some_0,
{
    match cache_lookup(c0, id, name) {
        Some(p) => {
            assert(c1 == c0.insert(id, c0[id].insert(name, (p.0, bump_frequency(p.1)))));
            assert(cache_lookup(c1, id, name) == Some((p.0, bump_frequency(p.1))));
        },
        None => {
            match store_get_result(c0, rows, id, name) {
                Some(v) => {
                    let pre = partition_view(c0, id);
                    if pre.dom().contains(name) || pre.len() < cap {
                        assert(c1[id] == pre.insert(name, (v, 0u64)));
                    } else {
                        let k = choose|k: Seq<char>|
                            #[trigger] min_frequency_name(pre, k) && c1[id] == pre.remove(k).insert(
                                name,
                                (v, 0u64),
                            );
                        assert(c1[id] == pre.remove(k).insert(name, (v, 0u64)));
                    }
                    assert(c1.dom().contains(id));
                    assert(cache_lookup(c1, id, name) == Some((v, 0u64)));
                },
                None => {
                },
            }
        },
    }
}

} // verus!
