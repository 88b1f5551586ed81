//! What a cache holds, as mathematical maps, and what a call does to it.

use crate::clock::expired;
use vstd::prelude::*;

verus! {

/// The contents of a cache.
#[verifier::reject_recursive_types(K)]
pub struct CacheState<K, V> {
    /// How long an entry lives after its last refresh, in nanoseconds; with
    /// 0 entries live forever and no time is recorded.
    pub ttl: u128,
    /// The timestamp index: the key that was refreshed at each recorded time.
    pub by_time: Map<u128, K>,
    /// The key index: the time of each key's last refresh.
    pub stamps: Map<K, u128>,
    /// The value store: the cached result of each key.
    pub values: Map<K, V>,
    /// The keys on which the wrapped function has been invoked, oldest first.
    pub computed: Seq<K>,
}

impl<K, V> CacheState<K, V> {
    /// A cache with no entry and no invocation, whose entries live forever.
    pub open spec fn empty() -> Self {
        CacheState {
            ttl: 0,
            by_time: Map::empty(),
            stamps: Map::empty(),
            values: Map::empty(),
            computed: Seq::empty(),
        }
    }

    /// What holds of every cache: a key with a timestamp has a value, and
    /// every record of the timestamp index is the record of its key in the
    /// key index.
    pub open spec fn coherent(self) -> bool {
        &&& forall|k: K| #[trigger] self.stamps.contains_key(k) ==> self.values.contains_key(k)
        &&& forall|t: u128| #[trigger]
            self.by_time.contains_key(t) ==> self.stamps.contains_key(self.by_time[t])
                && self.stamps[self.by_time[t]] == t
    }

    /// Whether a sweep at `now` removes the key `k`: the timestamp index
    /// holds an expired record of it.
    pub open spec fn evicts(self, now: u128, k: K) -> bool {
        self.ttl != 0 && exists|t: u128| #[trigger]
            self.by_time.contains_key(t) && self.by_time[t] == k && expired(self.ttl, t, now)
    }

    /// The cache after a sweep at `now`: every expired record has left the
    /// timestamp index, and its key has left the key index and the value
    /// store. With `ttl == 0` nothing leaves.
    pub open spec fn swept(self, now: u128) -> Self {
        CacheState {
            ttl: self.ttl,
            by_time: self.by_time.remove_keys(
                Set::new(|t: u128| self.ttl != 0 && expired(self.ttl, t, now)),
            ),
            stamps: self.stamps.remove_keys(Set::new(|k: K| self.evicts(now, k))),
            values: self.values.remove_keys(Set::new(|k: K| self.evicts(now, k))),
            computed: self.computed,
        }
    }

    /// Whether a call on `key` that sweeps at `swept_at` is answered from
    /// the value store, without the wrapped function.
    pub open spec fn serves(self, key: K, swept_at: u128) -> bool {
        self.swept(swept_at).values.contains_key(key)
    }

    /// What a call on `key` that sweeps at `swept_at` returns when the
    /// wrapped function, where it is invoked, returns `produced`: the stored
    /// value if there is one after the sweep, else `produced`.
    pub open spec fn answer(self, key: K, swept_at: u128, produced: V) -> V {
        if self.serves(key, swept_at) {
            self.swept(swept_at).values[key]
        } else {
            produced
        }
    }

    /// The cache after the first half of a call on `key` with a
    /// time-to-live: the sweep at `swept_at` has been made, and the wrapped
    /// function has been invoked if the key was not stored. Its result is
    /// not stored yet.
    pub open spec fn asked(self, key: K, swept_at: u128) -> Self {
        let s = self.swept(swept_at);
        CacheState {
            computed: if s.values.contains_key(key) {
                s.computed
            } else {
                s.computed.push(key)
            },
            ..s
        }
    }

    /// The cache after the second half of a call on `key` with a
    /// time-to-live, which returns `value`: the key's timestamp becomes
    /// `stamped_at`, its old record leaves the timestamp index, and the
    /// record of `stamped_at` is overwritten. A key that had no timestamp
    /// gets `value` stored.
    pub open spec fn recorded(self, key: K, stamped_at: u128, value: V) -> Self {
        CacheState {
            ttl: self.ttl,
            by_time: if self.stamps.contains_key(key) {
                self.by_time.remove(self.stamps[key]).insert(stamped_at, key)
            } else {
                self.by_time.insert(stamped_at, key)
            },
            stamps: self.stamps.insert(key, stamped_at),
            values: if self.stamps.contains_key(key) {
                self.values
            } else {
                self.values.insert(key, value)
            },
            computed: self.computed,
        }
    }

    /// The cache after a call on `key`, where the clock read `swept_at`
    /// before the sweep and `stamped_at` when the entry was refreshed, and
    /// the wrapped function, if the call invokes it, returns `produced`.
    ///
    /// The sweep at `swept_at` comes first. A key that is still stored keeps
    /// its value; one that is not gets `produced`, and the invocation is
    /// recorded. With `ttl != 0` the key's timestamp becomes `stamped_at`:
    /// its old record leaves the timestamp index and the record of
    /// `stamped_at` is overwritten.
    pub open spec fn after_call(self, key: K, swept_at: u128, stamped_at: u128, produced: V) -> Self {
        let s = self.swept(swept_at);
        let hit = s.values.contains_key(key);
        CacheState {
            ttl: self.ttl,
            by_time: if self.ttl == 0 {
                s.by_time
            } else if s.stamps.contains_key(key) {
                s.by_time.remove(s.stamps[key]).insert(stamped_at, key)
            } else {
                s.by_time.insert(stamped_at, key)
            },
            stamps: if self.ttl == 0 {
                s.stamps
            } else {
                s.stamps.insert(key, stamped_at)
            },
            values: if hit {
                s.values
            } else {
                s.values.insert(key, produced)
            },
            computed: if hit {
                s.computed
            } else {
                s.computed.push(key)
            },
        }
    }

    /// The three indices hold the same keys, and the timestamp index and the
    /// key index are inverses of each other.
    pub open spec fn consistent(self) -> bool {
        &&& self.values.dom() == self.stamps.dom()
        &&& self.stamps.dom() == self.by_time.values()
        &&& forall|t: u128| #[trigger]
            self.by_time.contains_key(t) ==> self.stamps.contains_key(self.by_time[t])
                && self.stamps[self.by_time[t]] == t
        &&& forall|k: K| #[trigger]
            self.stamps.contains_key(k) ==> self.by_time.contains_key(self.stamps[k])
                && self.by_time[self.stamps[k]] == k
    }

    /// Whether a call on `key` that sweeps at `swept_at` and stamps at
    /// `stamped_at` meets a timestamp that another key still holds after the
    /// sweep. The record of that key is then overwritten.
    pub open spec fn collides(self, key: K, swept_at: u128, stamped_at: u128) -> bool {
        exists|other: K| #[trigger]
            self.swept(swept_at).stamps.contains_key(other) && other != key && self.swept(
                swept_at,
            ).stamps[other] == stamped_at
    }

    /// The empty cache is coherent and its indices are consistent.
    pub proof fn lemma_empty_consistent()
        ensures
            Self::empty().coherent(),
            Self::empty().consistent(),
    {
        let e = Self::empty();
        assert(e.values.dom() =~= e.stamps.dom());
        assert(e.stamps.dom() =~= e.by_time.values());
    }

    /// A sweep keeps a cache coherent.
    pub proof fn lemma_swept_coherent(self, now: u128)
        requires
            self.coherent(),
        ensures
            self.swept(now).coherent(),
    {
        let s = self.swept(now);
        assert forall|t: u128| #[trigger] s.by_time.contains_key(t) implies s.stamps.contains_key(
            s.by_time[t],
        ) && s.stamps[s.by_time[t]] == t by {
            let k = self.by_time[t];
            if self.evicts(now, k) {
                let u = choose|u: u128| #[trigger]
                    self.by_time.contains_key(u) && self.by_time[u] == k && expired(
                        self.ttl,
                        u,
                        now,
                    );
                assert(u == t);
            }
        }
    }

    /// The two halves of a call with a time-to-live make up the call: where
    /// the second half records the answer of the first, the cache is the one
    /// after the call, and it is coherent after each half.
    pub proof fn lemma_halves_make_call(self, key: K, swept_at: u128, stamped_at: u128, produced: V)
        requires
            self.coherent(),
            self.ttl != 0,
        ensures
            self.asked(key, swept_at).coherent(),
            self.asked(key, swept_at).recorded(
                key,
                stamped_at,
                self.answer(key, swept_at, produced),
            ) == self.after_call(key, swept_at, stamped_at, produced),
            self.after_call(key, swept_at, stamped_at, produced).coherent(),
    {
        self.lemma_swept_coherent(swept_at);
        let s = self.swept(swept_at);
        let v = self.answer(key, swept_at, produced);
        let lhs = self.asked(key, swept_at).recorded(key, stamped_at, v);
        let rhs = self.after_call(key, swept_at, stamped_at, produced);
        assert(lhs.values =~= rhs.values);
        assert(lhs.by_time =~= rhs.by_time);
        assert(lhs.stamps =~= rhs.stamps);
    }

    /// A call keeps a cache coherent.
    pub proof fn lemma_after_call_coherent(
        self,
        key: K,
        swept_at: u128,
        stamped_at: u128,
        produced: V,
    )
        requires
            self.coherent(),
        ensures
            self.after_call(key, swept_at, stamped_at, produced).coherent(),
    {
        self.lemma_swept_coherent(swept_at);
    }

    /// A sweep keeps the three indices consistent.
    pub proof fn lemma_swept_consistent(self, now: u128)
        requires
            self.consistent(),
        ensures
            self.swept(now).consistent(),
    {
        let s = self.swept(now);
        self.lemma_swept_coherent(now);
        assert forall|k: K| #[trigger] s.stamps.contains_key(k) implies s.by_time.contains_key(
            s.stamps[k],
        ) && s.by_time[s.stamps[k]] == k by {
            let t = self.stamps[k];
            assert(self.by_time.contains_key(t));
        }
        assert(s.values.dom() =~= s.stamps.dom());
        assert(s.stamps.dom() =~= s.by_time.values()) by {
            assert forall|k: K| s.stamps.dom().contains(k) == s.by_time.values().contains(k) by {
                if s.stamps.contains_key(k) {
                    assert(s.by_time.contains_key(s.stamps[k]));
                }
                if s.by_time.values().contains(k) {
                    let t = choose|t: u128| #[trigger]
                        s.by_time.contains_key(t) && s.by_time[t] == k;
                    assert(s.stamps.contains_key(s.by_time[t]));
                }
            }
        }
    }

    /// With a time-to-live, a call that meets no other key's timestamp keeps
    /// the three indices consistent: the value store, the key index and the
    /// timestamp index still hold the same keys.
    pub proof fn lemma_call_keeps_consistent(
        self,
        key: K,
        swept_at: u128,
        stamped_at: u128,
        produced: V,
    )
        requires
            self.consistent(),
            self.ttl != 0,
            !self.collides(key, swept_at, stamped_at),
        ensures
            self.after_call(key, swept_at, stamped_at, produced).consistent(),
    {
        let s = self.swept(swept_at);
        let a = self.after_call(key, swept_at, stamped_at, produced);
        self.lemma_swept_consistent(swept_at);
        assert forall|t: u128| #[trigger] a.by_time.contains_key(t) implies a.stamps.contains_key(
            a.by_time[t],
        ) && a.stamps[a.by_time[t]] == t by {
            if t != stamped_at {
                assert(s.by_time.contains_key(t));
            }
        }
        assert forall|k: K| #[trigger] a.stamps.contains_key(k) implies a.by_time.contains_key(
            a.stamps[k],
        ) && a.by_time[a.stamps[k]] == k by {
            if k != key {
                assert(s.stamps.contains_key(k));
                assert(s.stamps[k] != stamped_at);
            }
        }
        assert(a.values.dom() =~= a.stamps.dom());
        assert(a.stamps.dom() =~= a.by_time.values()) by {
            assert forall|k: K| a.stamps.dom().contains(k) == a.by_time.values().contains(k) by {
                if a.stamps.contains_key(k) {
                    assert(a.by_time.contains_key(a.stamps[k]));
                }
                if a.by_time.values().contains(k) {
                    let t = choose|t: u128| #[trigger]
                        a.by_time.contains_key(t) && a.by_time[t] == k;
                    assert(a.stamps.contains_key(a.by_time[t]));
                }
            }
        }
    }

    /// Without a time-to-live, a second call on the same key is answered
    /// from the value store, whatever the clock reads: it returns what the
    /// first call returned and does not invoke the wrapped function, so the
    /// two calls invoke it at most once.
    pub proof fn lemma_repeat_is_served(
        self,
        key: K,
        swept1: u128,
        stamped1: u128,
        v1: V,
        swept2: u128,
        stamped2: u128,
        v2: V,
    )
        requires
            self.ttl == 0,
        ensures
            ({
                let first = self.after_call(key, swept1, stamped1, v1);
                let second = first.after_call(key, swept2, stamped2, v2);
                &&& first.serves(key, swept2)
                &&& first.answer(key, swept2, v2) == self.answer(key, swept1, v1)
                &&& second.computed == first.computed
                &&& first.computed.len() <= self.computed.len() + 1
            }),
    {
        let first = self.after_call(key, swept1, stamped1, v1);
        assert(self.swept(swept1).values =~= self.values);
        assert(first.swept(swept2).values =~= first.values);
    }

    /// With a time-to-live, a call that begins more than the time-to-live
    /// after the key's entry was last stamped finds the entry gone and
    /// invokes the wrapped function again.
    pub proof fn lemma_expired_is_recomputed(
        self,
        key: K,
        swept1: u128,
        stamped1: u128,
        v1: V,
        swept2: u128,
        stamped2: u128,
        v2: V,
    )
        requires
            self.ttl != 0,
            expired(self.ttl, stamped1, swept2),
        ensures
            ({
                let first = self.after_call(key, swept1, stamped1, v1);
                let second = first.after_call(key, swept2, stamped2, v2);
                &&& !first.serves(key, swept2)
                &&& first.answer(key, swept2, v2) == v2
                &&& second.computed == first.computed.push(key)
            }),
    {
        let first = self.after_call(key, swept1, stamped1, v1);
        assert(first.by_time.contains_key(stamped1) && first.by_time[stamped1] == key);
        assert(first.evicts(swept2, key));
    }

    /// With a time-to-live, a call that begins before the key's entry has
    /// expired returns the same value without invoking the wrapped function,
    /// and the entry's age starts again at the second call's stamp: the
    /// entry is still served by every later call that begins before that
    /// stamp has expired, however long ago the first call was.
    pub proof fn lemma_refresh_extends_life(
        self,
        key: K,
        swept1: u128,
        stamped1: u128,
        v1: V,
        swept2: u128,
        stamped2: u128,
        v2: V,
        swept3: u128,
    )
        requires
            self.coherent(),
            self.ttl != 0,
            !expired(self.ttl, stamped1, swept2),
            !expired(self.ttl, stamped2, swept3),
        ensures
            ({
                let first = self.after_call(key, swept1, stamped1, v1);
                let second = first.after_call(key, swept2, stamped2, v2);
                &&& first.serves(key, swept2)
                &&& first.answer(key, swept2, v2) == self.answer(key, swept1, v1)
                &&& second.computed == first.computed
                &&& second.stamps[key] == stamped2
                &&& second.serves(key, swept3)
                &&& second.swept(swept3).values[key] == self.answer(key, swept1, v1)
            }),
    {
        let first = self.after_call(key, swept1, stamped1, v1);
        let second = first.after_call(key, swept2, stamped2, v2);
        self.lemma_after_call_coherent(key, swept1, stamped1, v1);
        first.lemma_after_call_coherent(key, swept2, stamped2, v2);
        assert(first.stamps[key] == stamped1);
        assert(!first.evicts(swept2, key));
        assert(second.stamps[key] == stamped2);
        assert(!second.evicts(swept3, key));
    }
}

} // verus!
