//! Registry cache: a time-bounded map from prefix path to loaded registry.
//!
//! The cache never reads a clock itself: every operation takes the current
//! time, in milliseconds of a monotonic clock, as an argument.  Entries
//! expire lazily; a stale entry is treated as a miss but only removed by an
//! explicit sweep or invalidation.

use vstd::prelude::*;

use crate::store::WineRegistry;
use crate::strutil;

verus! {

/// The default time-to-live of a cache entry: five minutes, in
/// milliseconds.
pub const DEFAULT_CACHE_TTL_MS: u64 = 300000;

/// One cached registry with its creation time and time-to-live.
pub struct CacheEntry {
    /// The prefix path this entry caches.
    pub path: String,
    /// The cached registry.
    pub registry: WineRegistry,
    /// When the entry was created, in clock milliseconds.
    pub created_at: u64,
    /// How long the entry stays fresh, in milliseconds.
    pub ttl: u64,
}

impl CacheEntry {
    /// An entry is fresh at `now` while its age is at most its
    /// time-to-live.
    pub open spec fn fresh_at(&self, now: u64) -> bool {
        self.created_at <= now && now - self.created_at <= self.ttl
    }
}

/// Operations of a registry cache keyed by prefix path.
///
/// Implementations may keep the entries anywhere; the contracts fix the
/// lookup discipline: a hit must return a registry that some fresh entry
/// for that path holds, and a miss must mean that no fresh entry exists.
pub trait RegistryCache {
    /// The invariant the implementation maintains between calls.
    spec fn inv(&self) -> bool;

    /// Whether the cache currently holds a fresh entry for `prefix_path`.
    spec fn has_fresh(&self, prefix_path: Seq<char>, now: u64) -> bool;

    /// The registry a fresh entry for `prefix_path` holds.
    spec fn fresh_registry(&self, prefix_path: Seq<char>, now: u64) -> crate::store::RegistryV;

    /// The cached registry for a prefix, when a fresh entry exists.
    fn get_cached_registry(&self, prefix_path: &str, now: u64) -> (r: Option<WineRegistry>)
        requires
            self.inv(),
        ensures
            match r {
                Some(reg) => self.has_fresh(prefix_path@, now) && reg@ == self.fresh_registry(
                    prefix_path@,
                    now,
                ),
                None => !self.has_fresh(prefix_path@, now),
            },
    ;
}

/// An in-memory registry cache.
pub struct InMemoryRegistryCache {
    /// The cached entries; at most one per path.
    pub entries: Vec<CacheEntry>,
    /// Time-to-live assigned to new entries, in milliseconds.
    pub default_ttl: u64,
}

/// Statistics over the entries of a cache.
#[derive(Debug, Clone, Copy, PartialEq, Eq, Structural)]
pub struct CacheStats {
    /// Number of entries, fresh or stale.
    pub total_entries: usize,
    /// Number of entries whose age exceeds their time-to-live.
    pub expired_entries: usize,
    /// Number of entries still fresh.
    pub valid_entries: usize,
}

impl InMemoryRegistryCache {
    /// At most one entry per path.
    pub open spec fn wf(&self) -> bool {
        &&& forall|i: int, j: int|
            0 <= i < j < self.entries@.len() ==> (#[trigger] self.entries@[i]).path@ != (
            #[trigger] self.entries@[j]).path@
        &&& forall|i: int|
            0 <= i < self.entries@.len() ==> (#[trigger] self.entries@[i]).registry@.wf()
    }

    /// Whether some entry caches `path`.
    pub open spec fn has_entry(&self, path: Seq<char>) -> bool {
        exists|i: int| 0 <= i < self.entries@.len() && (#[trigger] self.entries@[i]).path@ == path
    }

    /// The index of the entry for `path`.
    pub open spec fn entry_index(&self, path: Seq<char>) -> int {
        choose|i: int| 0 <= i < self.entries@.len() && (#[trigger] self.entries@[i]).path@ == path
    }

    /// A cache with the given default time-to-live.
    pub fn new(default_ttl: u64) -> (r: Self)
        ensures
            r.wf(),
            r.entries@.len() == 0,
            r.default_ttl == default_ttl,
    {
        InMemoryRegistryCache { entries: Vec::new(), default_ttl }
    }

    /// A cache with the standard five-minute time-to-live.
    pub fn with_default_ttl() -> (r: Self)
        ensures
            r.wf(),
            r.entries@.len() == 0,
            r.default_ttl == DEFAULT_CACHE_TTL_MS,
    {
        InMemoryRegistryCache::new(DEFAULT_CACHE_TTL_MS)
    }

    /// The index of the entry for `prefix_path`, if one exists.
    fn find_entry(&self, prefix_path: &str) -> (r: Option<usize>)
        ensures
            match r {
                Some(i) => self.has_entry(prefix_path@) && 0 <= i < self.entries@.len()
                    && self.entries@[i as int].path@ == prefix_path@
                    && (self.wf() ==> i == self.entry_index(prefix_path@)),
                None => !self.has_entry(prefix_path@),
            },
    {
        let mut i: usize = 0;
        while i < self.entries.len()
            invariant
                i <= self.entries@.len(),
                forall|j: int| 0 <= j < i ==> (#[trigger] self.entries@[j]).path@ != prefix_path@,
            decreases self.entries@.len() - i,
        {
            if strutil::str_eq(self.entries[i].path.as_str(), prefix_path) {
                proof {
                    if self.wf() {
                        let k = self.entry_index(prefix_path@);
                        assert(self.entries@[k].path@ == prefix_path@);
                        if k != i {
                            assert(self.entries@[k].path@ != self.entries@[i as int].path@);
                        }
                    }
                }
                return Some(i);
            }
            i = i + 1;
        }
        None
    }

    /// Inserts or overwrites the entry for a prefix, stamped with the
    /// current time and the cache's default time-to-live.
    pub fn cache_registry(&mut self, prefix_path: &str, registry: WineRegistry, now: u64)
        requires
            old(self).wf(),
            registry@.wf(),
        ensures
            final(self).wf(),
            final(self).default_ttl == old(self).default_ttl,
            final(self).has_entry(prefix_path@),
            ({
                let e = final(self).entries@[final(self).entry_index(prefix_path@)];
                &&& e.path@ == prefix_path@
                &&& e.registry@ == registry@
                &&& e.created_at == now
                &&& e.ttl == old(self).default_ttl
            }),
            forall|p: Seq<char>|
                p != prefix_path@ ==> (#[trigger] final(self).has_entry(p) == old(self).has_entry(
                    p,
                ) && (final(self).has_entry(p) ==> final(self).entries@[final(self).entry_index(p)]
                    == old(self).entries@[old(self).entry_index(p)])),
    {
        let entry = CacheEntry {
            path: strutil::chars_to_string(&strutil::str_to_chars(prefix_path)),
            registry,
            created_at: now,
            ttl: self.default_ttl,
        };
        let idx = self.find_entry(prefix_path);
        match idx {
            Some(i) => {
                self.entries[i] = entry;
                proof {
                    let gi = i as int;
                    assert forall|a: int, b: int|
                        0 <= a < b < self.entries@.len() implies (
                    #[trigger] self.entries@[a]).path@ != (#[trigger] self.entries@[b]).path@ by {
                        assert(old(self).entries@[a].path@ != old(self).entries@[b].path@);
                    }
                    assert(self.entries@[gi].path@ == prefix_path@);
                    lemma_unique_entry_index(*self, prefix_path@, gi);
                    assert forall|p: Seq<char>| p != prefix_path@ implies (
                    #[trigger] self.has_entry(p) == old(self).has_entry(p) && (self.has_entry(p)
                        ==> self.entries@[self.entry_index(p)] == old(self).entries@[old(
                        self,
                    ).entry_index(p)])) by {
                        if self.has_entry(p) {
                            let a = self.entry_index(p);
                            assert(self.entries@[a].path@ == p);
                            assert(a != gi);
                            assert(old(self).entries@[a].path@ == p);
                            lemma_unique_entry_index(*old(self), p, a);
                        }
                        if old(self).has_entry(p) {
                            let a = old(self).entry_index(p);
                            assert(old(self).entries@[a].path@ == p);
                            assert(a != gi);
                            assert(self.entries@[a].path@ == p);
                        }
                    }
                }
            },
            None => {
                self.entries.push(entry);
                proof {
                    let gi = self.entries@.len() - 1;
                    assert forall|a: int, b: int|
                        0 <= a < b < self.entries@.len() implies (
                    #[trigger] self.entries@[a]).path@ != (#[trigger] self.entries@[b]).path@ by {
                        if b < gi {
                            assert(old(self).entries@[a].path@ != old(self).entries@[b].path@);
                        } else {
                            assert(old(self).entries@[a].path@ != prefix_path@);
                        }
                    }
                    assert(self.entries@[gi].path@ == prefix_path@);
                    lemma_unique_entry_index(*self, prefix_path@, gi);
                    assert forall|p: Seq<char>| p != prefix_path@ implies (
                    #[trigger] self.has_entry(p) == old(self).has_entry(p) && (self.has_entry(p)
                        ==> self.entries@[self.entry_index(p)] == old(self).entries@[old(
                        self,
                    ).entry_index(p)])) by {
                        if self.has_entry(p) {
                            let a = self.entry_index(p);
                            assert(self.entries@[a].path@ == p);
                            assert(a != gi);
                            assert(old(self).entries@[a].path@ == p);
                            lemma_unique_entry_index(*old(self), p, a);
                        }
                        if old(self).has_entry(p) {
                            let a = old(self).entry_index(p);
                            assert(old(self).entries@[a].path@ == p);
                            assert(self.entries@[a].path@ == p);
                        }
                    }
                }
            },
        }
    }

    /// Removes the entry for one prefix, fresh or stale.
    pub fn invalidate_cache(&mut self, prefix_path: &str)
        requires
            old(self).wf(),
        ensures
            final(self).wf(),
            final(self).default_ttl == old(self).default_ttl,
            !final(self).has_entry(prefix_path@),
            forall|p: Seq<char>|
                p != prefix_path@ ==> #[trigger] final(self).has_entry(p) == old(self).has_entry(p),
            forall|p: Seq<char>|
                p != prefix_path@ && final(self).has_entry(p) ==> final(self).entries@[(
                #[trigger] final(self).entry_index(p))] == old(self).entries@[old(
                    self,
                ).entry_index(p)],
    {
        let idx = self.find_entry(prefix_path);
        match idx {
            Some(i) => {
                self.entries.remove(i);
                proof {
                    let gi = i as int;
                    let oldseq = old(self).entries@;
                    assert(self.entries@ =~= oldseq.subrange(0, gi) + oldseq.subrange(
                        gi + 1,
                        oldseq.len() as int,
                    ));
                    assert forall|a: int, b: int|
                        0 <= a < b < self.entries@.len() implies (
                    #[trigger] self.entries@[a]).path@ != (#[trigger] self.entries@[b]).path@ by {
                        let oa = if a < gi {
                            a
                        } else {
                            a + 1
                        };
                        let ob = if b < gi {
                            b
                        } else {
                            b + 1
                        };
                        assert(self.entries@[a] == oldseq[oa]);
                        assert(self.entries@[b] == oldseq[ob]);
                        assert(oldseq[oa].path@ != oldseq[ob].path@);
                    }
                    assert forall|j: int|
                        0 <= j < self.entries@.len() implies (
                    #[trigger] self.entries@[j]).path@ != prefix_path@ by {
                        let oj = if j < gi {
                            j
                        } else {
                            j + 1
                        };
                        assert(self.entries@[j] == oldseq[oj]);
                        if oj != gi {
                            if oj < gi {
                                assert(oldseq[oj].path@ != oldseq[gi].path@);
                            } else {
                                assert(oldseq[gi].path@ != oldseq[oj].path@);
                            }
                        }
                    }
                    assert forall|p: Seq<char>| p != prefix_path@ implies #[trigger] self.has_entry(
                        p,
                    ) == old(self).has_entry(p) by {
                        if old(self).has_entry(p) {
                            let a = old(self).entry_index(p);
                            assert(oldseq[a].path@ == p);
                            let na = if a < gi {
                                a
                            } else {
                                a - 1
                            };
                            assert(self.entries@[na] == oldseq[a]);
                        }
                        if self.has_entry(p) {
                            let a = self.entry_index(p);
                            let oa = if a < gi {
                                a
                            } else {
                                a + 1
                            };
                            assert(self.entries@[a] == oldseq[oa]);
                        }
                    }
                    assert forall|p: Seq<char>|
                        p != prefix_path@ && self.has_entry(p) implies self.entries@[(
                    #[trigger] self.entry_index(p))] == oldseq[old(self).entry_index(p)] by {
                        let a = self.entry_index(p);
                        assert(self.entries@[a].path@ == p);
                        let oa = if a < gi {
                            a
                        } else {
                            a + 1
                        };
                        assert(self.entries@[a] == oldseq[oa]);
                        lemma_unique_entry_index(*old(self), p, oa);
                    }
                }
            },
            None => {},
        }
    }

    /// Removes every entry.
    pub fn clear_all_cache(&mut self)
        requires
            old(self).wf(),
        ensures
            final(self).wf(),
            final(self).default_ttl == old(self).default_ttl,
            final(self).entries@.len() == 0,
            forall|p: Seq<char>| !final(self).has_entry(p),
    {
        self.entries.clear();
    }

    /// Removes every entry whose age strictly exceeds its time-to-live.
    pub fn cleanup_expired(&mut self, now: u64)
        requires
            old(self).wf(),
        ensures
            final(self).wf(),
            final(self).default_ttl == old(self).default_ttl,
            final(self).entries@ == old(self).entries@.filter(
                |e: CacheEntry| e.created_at <= now && now - e.created_at < e.ttl,
            ),
    {
        let ghost oldseq = old(self).entries@;
        let ghost pred = |e: CacheEntry| e.created_at <= now && now - e.created_at < e.ttl;
        let mut i: usize = 0;
        let ghost mut k: int = 0;
        proof {
            reveal(Seq::filter);
            assert(oldseq.subrange(0, 0) =~= Seq::<CacheEntry>::empty());
            assert(self.entries@ =~= oldseq.subrange(0, 0).filter(pred) + oldseq.subrange(
                0,
                oldseq.len() as int,
            ));
        }
        while i < self.entries.len()
            invariant
                0 <= k <= oldseq.len(),
                old(self).wf(),
                self.wf(),
                self.default_ttl == old(self).default_ttl,
                pred == (|e: CacheEntry| e.created_at <= now && now - e.created_at < e.ttl),
                i == oldseq.subrange(0, k).filter(pred).len(),
                self.entries@ == oldseq.subrange(0, k).filter(pred) + oldseq.subrange(
                    k,
                    oldseq.len() as int,
                ),
            decreases oldseq.len() - k,
        {
            proof {
                assert(k < oldseq.len()) by {
                    if k == oldseq.len() {
                        assert(oldseq.subrange(k, oldseq.len() as int) =~= Seq::<
                            CacheEntry,
                        >::empty());
                        oldseq.subrange(0, k).lemma_filter_len(pred);
                    }
                }
                assert(self.entries@[i as int] == oldseq[k]) by {
                    oldseq.subrange(0, k).lemma_filter_len(pred);
                }
            }
            let e = &self.entries[i];
            let keep = e.created_at <= now && now - e.created_at < e.ttl;
            let ghost prefix = oldseq.subrange(0, k);
            if keep {
                i = i + 1;
            } else {
                let ghost prevseq = self.entries@;
                self.entries.remove(i);
                proof {
                    let gi = i as int;
                    assert(self.entries@ =~= prevseq.subrange(0, gi) + prevseq.subrange(
                        gi + 1,
                        prevseq.len() as int,
                    ));
                    assert forall|a: int, b: int|
                        0 <= a < b < self.entries@.len() implies (
                    #[trigger] self.entries@[a]).path@ != (#[trigger] self.entries@[b]).path@ by {
                        let oa = if a < gi {
                            a
                        } else {
                            a + 1
                        };
                        let ob = if b < gi {
                            b
                        } else {
                            b + 1
                        };
                        assert(self.entries@[a] == prevseq[oa]);
                        assert(self.entries@[b] == prevseq[ob]);
                        assert(prevseq[oa].path@ != prevseq[ob].path@);
                    }
                    assert forall|a: int|
                        0 <= a < self.entries@.len() implies (
                    #[trigger] self.entries@[a]).registry@.wf() by {
                        let oa = if a < gi {
                            a
                        } else {
                            a + 1
                        };
                        assert(self.entries@[a] == prevseq[oa]);
                    }
                    assert(self.entries@ =~= prefix.filter(pred) + oldseq.subrange(
                        k + 1,
                        oldseq.len() as int,
                    ));
                }
            }
            proof {
                k = k + 1;
                reveal(Seq::filter);
                let prefix2 = oldseq.subrange(0, k);
                assert(prefix2.drop_last() =~= prefix);
                assert(prefix2.last() == oldseq[k - 1]);
                if pred(oldseq[k - 1]) {
                    assert(prefix2.filter(pred) == prefix.filter(pred).push(oldseq[k - 1]));
                    assert(self.entries@ =~= prefix2.filter(pred) + oldseq.subrange(
                        k,
                        oldseq.len() as int,
                    ));
                } else {
                    assert(prefix2.filter(pred) == prefix.filter(pred));
                    assert(self.entries@ =~= prefix2.filter(pred) + oldseq.subrange(
                        k,
                        oldseq.len() as int,
                    ));
                }
            }
        }
        proof {
            assert(k == oldseq.len()) by {
                if k < oldseq.len() {
                    oldseq.subrange(0, k).lemma_filter_len(pred);
                }
            }
            assert(oldseq.subrange(k, oldseq.len() as int) =~= Seq::<CacheEntry>::empty());
            assert(oldseq.subrange(0, oldseq.len() as int) =~= oldseq);
            assert(self.entries@ =~= oldseq.filter(pred));
        }
    }

    /// Counts all, expired, and still-fresh entries.
    pub fn stats(&self, now: u64) -> (r: CacheStats)
        ensures
            r.total_entries == self.entries@.len(),
            r.expired_entries + r.valid_entries == r.total_entries,
            r.expired_entries == count_expired(self.entries@, now),
    {
        let n = self.entries.len();
        let mut expired: usize = 0;
        let mut i: usize = 0;
        while i < n
            invariant
                i <= n,
                n == self.entries@.len(),
                expired <= i,
                expired == count_expired(self.entries@.subrange(0, i as int), now),
            decreases n - i,
        {
            let e = &self.entries[i];
            let is_expired = !(e.created_at <= now && now - e.created_at <= e.ttl);
            if is_expired {
                expired = expired + 1;
            }
            i = i + 1;
            proof {
                let prefix2 = self.entries@.subrange(0, i as int);
                assert(prefix2.drop_last() =~= self.entries@.subrange(0, i - 1));
                assert(prefix2.last() == self.entries@[i - 1]);
            }
        }
        proof {
            assert(self.entries@.subrange(0, n as int) =~= self.entries@);
        }
        CacheStats {
            total_entries: n,
            expired_entries: expired,
            valid_entries: n - expired,
        }
    }
}

/// The number of entries that are no longer fresh at `now`.
pub open spec fn count_expired(entries: Seq<CacheEntry>, now: u64) -> int
    decreases entries.len(),
{
    if entries.len() == 0 {
        0
    } else {
        count_expired(entries.drop_last(), now) + (if entries.last().fresh_at(now) {
            0int
        } else {
            1int
        })
    }
}

/// In a well-formed cache the entry index of a stored path is the position
/// where it is stored.
proof fn lemma_unique_entry_index(c: InMemoryRegistryCache, path: Seq<char>, i: int)
    requires
        c.wf(),
        0 <= i < c.entries@.len(),
        c.entries@[i].path@ == path,
    ensures
        c.has_entry(path),
        c.entry_index(path) == i,
{
    assert(c.has_entry(path));
    let k = c.entry_index(path);
    assert(c.entries@[k].path@ == path);
    if k != i {
        if k < i {
            assert(c.entries@[k].path@ != c.entries@[i].path@);
        } else {
            assert(c.entries@[i].path@ != c.entries@[k].path@);
        }
    }
}

impl RegistryCache for InMemoryRegistryCache {
    /// The invariant is well-formedness: one entry per path.
    open spec fn inv(&self) -> bool {
        self.wf()
    }

    /// A fresh entry for the path exists.
    open spec fn has_fresh(&self, prefix_path: Seq<char>, now: u64) -> bool {
        self.has_entry(prefix_path) && self.entries@[self.entry_index(prefix_path)].fresh_at(now)
    }

    /// The registry held by the entry for the path.
    open spec fn fresh_registry(&self, prefix_path: Seq<char>, now: u64) -> crate::store::RegistryV {
        self.entries@[self.entry_index(prefix_path)].registry@
    }

    /// Returns a copy of the cached registry only while the entry is
    /// fresh; a stale entry is a miss but is not removed.
    fn get_cached_registry(&self, prefix_path: &str, now: u64) -> (r: Option<WineRegistry>) {
        match self.find_entry(prefix_path) {
            Some(i) => {
                let e = &self.entries[i];
                if e.created_at <= now && now - e.created_at <= e.ttl {
                    Some(e.registry.clone())
                } else {
                    None
                }
            },
            None => None,
        }
    }
}

} // verus!
