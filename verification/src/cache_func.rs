//! A memoizing call wrapper whose entries expire.

use crate::cache_state::CacheState;
use crate::clock::elapsed;
use crate::clock::expired;
use crate::clock::read_clock;
use std::collections::HashMap;
use std::hash::Hash;
use vstd::prelude::*;
use vstd::std_specs::hash::obeys_key_model;

verus! {

broadcast use vstd::std_specs::hash::group_hash_axioms;

/// A function together with the results it has returned, one per key.
///
/// With a time-to-live of 0 a result is kept forever. Otherwise each call
/// first removes every entry that was last refreshed more than the
/// time-to-live ago, and then refreshes the entry of its own key.
pub struct CSCFCACHE<FT, KT, VT> {
    func: FT,
    cachetimeout: u128,
    cachetime: HashMap<u128, KT>,
    argtime: HashMap<KT, u128>,
    value: HashMap<KT, VT>,
    computed: Ghost<Seq<KT>>,
}

impl<FT, KT, VT> View for CSCFCACHE<FT, KT, VT> {
    type V = CacheState<KT, VT>;

    closed spec fn view(&self) -> CacheState<KT, VT> {
        CacheState {
            ttl: self.cachetimeout,
            by_time: self.cachetime@,
            stamps: self.argtime@,
            values: self.value@,
            computed: self.computed@,
        }
    }
}

impl<FT, KT, VT> CSCFCACHE<FT, KT, VT> {
    /// The wrapped function.
    pub closed spec fn wrapped(&self) -> FT {
        self.func
    }

    /// The three indices fit together.
    pub open spec fn wf(&self) -> bool {
        self@.coherent()
    }

    /// A cache around `func` with no entry, whose entries live forever.
    pub fn new(func: FT) -> (r: CSCFCACHE<FT, KT, VT>)
        ensures
            r.wrapped() == func,
            r@ == CacheState::<KT, VT>::empty(),
            r.wf(),
            r@.consistent(),
    {
        proof {
            CacheState::<KT, VT>::lemma_empty_consistent();
        }
        CSCFCACHE {
            func,
            cachetimeout: 0,
            cachetime: HashMap::new(),
            argtime: HashMap::new(),
            value: HashMap::new(),
            computed: Ghost(Seq::empty()),
        }
    }

    /// Sets the time-to-live, in nanoseconds; 0 makes entries live forever.
    /// The entries are kept as they are.
    pub fn cachetimeout(self, cachetimeout: u128) -> (r: Self)
        ensures
            r.wrapped() == self.wrapped(),
            r@ == (CacheState { ttl: cachetimeout, ..self@ }),
            self.wf() ==> r.wf(),
            self@.consistent() ==> r@.consistent(),
    {
        let mut r = self;
        r.cachetimeout = cachetimeout;
        r
    }
}

impl<FT, KT: Eq + Hash + Copy, VT: Copy> CSCFCACHE<FT, KT, VT> {
    /// The records of the timestamp index that have expired at `now`.
    fn expired_records(&self, now: u128) -> (rv: Vec<(u128, KT)>)
        ensures
            forall|j: int|
                0 <= j < rv@.len() ==> self@.by_time.contains_key(#[trigger] rv@[j].0)
                    && self@.by_time[rv@[j].0] == rv@[j].1 && expired(self@.ttl, rv@[j].0, now),
            forall|t: u128| #[trigger]
                self@.by_time.contains_key(t) && expired(self@.ttl, t, now) ==> exists|j: int|
                    0 <= j < rv@.len() && #[trigger] rv@[j].0 == t,
    {
        let ttl = self.cachetimeout;
        let mut rv: Vec<(u128, KT)> = Vec::new();
        for pair in it: self.cachetime.iter()
            invariant
                ttl == self.cachetimeout,
                forall|i: int|
                    0 <= i < it.seq().len() ==> self.cachetime@.contains_key(
                        *(#[trigger] it.seq()[i]).0,
                    ) && self.cachetime@[*it.seq()[i].0] == *it.seq()[i].1,
                forall|t: u128| #[trigger]
                    self.cachetime@.contains_key(t) ==> exists|i: int|
                        0 <= i < it.seq().len() && *(#[trigger] it.seq()[i]).0 == t,
                forall|j: int|
                    0 <= j < rv@.len() ==> self.cachetime@.contains_key(#[trigger] rv@[j].0)
                        && self.cachetime@[rv@[j].0] == rv@[j].1 && expired(ttl, rv@[j].0, now),
                forall|i: int|
                    0 <= i < it.index() && expired(ttl, *(#[trigger] it.seq()[i]).0, now)
                        ==> exists|j: int| 0 <= j < rv@.len() && #[trigger] rv@[j].0 == *it.seq()[i].0,
        {
            let (syt, arg) = pair;
            let ghost found = rv@;
            match elapsed(*syt, now) {
                Some(e) => {
                    if e > ttl {
                        rv.push((*syt, *arg));
                    }
                },
                None => {},
            }
            proof {
                assert forall|i: int|
                    0 <= i < it.index() + 1 && expired(
                        ttl,
                        *(#[trigger] it.seq()[i]).0,
                        now,
                    ) implies exists|j: int|
                    0 <= j < rv@.len() && #[trigger] rv@[j].0 == *it.seq()[i].0 by {
                    if i < it.index() {
                        let j = choose|j: int|
                            0 <= j < found.len() && #[trigger] found[j].0 == *it.seq()[i].0;
                        assert(rv@[j].0 == *it.seq()[i].0);
                    } else {
                        assert(rv@[rv@.len() - 1].0 == *syt);
                    }
                }
            }
        }
        rv
    }

    /// Removes every expired record from the timestamp index, and its key
    /// from the key index and the value store.
    fn sweep(&mut self, now: u128)
        requires
            old(self).wf(),
            obeys_key_model::<KT>(),
            old(self)@.ttl != 0,
        ensures
            final(self)@ == old(self)@.swept(now),
            final(self).wf(),
            final(self).wrapped() == old(self).wrapped(),
    {
        let rv = self.expired_records(now);
        let ghost pre = self@;
        let mut n: usize = 0;
        while n < rv.len()
            invariant
                n <= rv@.len(),
                self.func == old(self).func,
                self.cachetimeout == pre.ttl,
                self.computed@ == pre.computed,
                obeys_key_model::<KT>(),
                self.cachetime@ == pre.by_time.remove_keys(
                    Set::new(|t: u128| exists|j: int| 0 <= j < n && #[trigger] rv@[j].0 == t),
                ),
                self.argtime@ == pre.stamps.remove_keys(
                    Set::new(|k: KT| exists|j: int| 0 <= j < n && #[trigger] rv@[j].1 == k),
                ),
                self.value@ == pre.values.remove_keys(
                    Set::new(|k: KT| exists|j: int| 0 <= j < n && #[trigger] rv@[j].1 == k),
                ),
            decreases rv@.len() - n,
        {
            let ele = rv[n];
            self.cachetime.remove(&ele.0);
            self.argtime.remove(&ele.1);
            self.value.remove(&ele.1);
            n += 1;
            proof {
                assert(rv@[n - 1] == ele);
                assert(self.cachetime@ =~= pre.by_time.remove_keys(
                    Set::new(|t: u128| exists|j: int| 0 <= j < n && #[trigger] rv@[j].0 == t),
                ));
                assert(self.argtime@ =~= pre.stamps.remove_keys(
                    Set::new(|k: KT| exists|j: int| 0 <= j < n && #[trigger] rv@[j].1 == k),
                ));
                assert(self.value@ =~= pre.values.remove_keys(
                    Set::new(|k: KT| exists|j: int| 0 <= j < n && #[trigger] rv@[j].1 == k),
                ));
            }
        }
        proof {
            let post = pre.swept(now);
            assert forall|k: KT|
                (exists|j: int| 0 <= j < n && #[trigger] rv@[j].1 == k) == pre.evicts(now, k) by {
                if pre.evicts(now, k) {
                    let t = choose|t: u128| #[trigger]
                        pre.by_time.contains_key(t) && pre.by_time[t] == k && expired(
                            pre.ttl,
                            t,
                            now,
                        );
                    let j = choose|j: int| 0 <= j < rv@.len() && #[trigger] rv@[j].0 == t;
                    assert(rv@[j].1 == k);
                }
                if exists|j: int| 0 <= j < n && #[trigger] rv@[j].1 == k {
                    let j = choose|j: int| 0 <= j < n && #[trigger] rv@[j].1 == k;
                    assert(pre.by_time.contains_key(rv@[j].0));
                }
            }
            assert(self.cachetime@ =~= post.by_time);
            assert(self.argtime@ =~= post.stamps);
            assert(self.value@ =~= post.values);
            pre.lemma_swept_coherent(now);
        }
    }

    /// The recorded timestamps that lie ahead of `now`: for each of them a
    /// clock that reads `now` has moved back, and a sweep at `now` cannot
    /// tell its age and keeps its entry.
    pub fn stamps_ahead(&self, now: u128) -> (r: Vec<u128>)
        ensures
            forall|t: u128| r@.contains(t) <==> self@.by_time.contains_key(t) && now < t,
    {
        let mut r: Vec<u128> = Vec::new();
        for pair in it: self.cachetime.iter()
            invariant
                forall|i: int|
                    0 <= i < it.seq().len() ==> self.cachetime@.contains_key(
                        *(#[trigger] it.seq()[i]).0,
                    ),
                forall|t: u128| #[trigger]
                    self.cachetime@.contains_key(t) ==> exists|i: int|
                        0 <= i < it.seq().len() && *(#[trigger] it.seq()[i]).0 == t,
                forall|j: int|
                    0 <= j < r@.len() ==> self.cachetime@.contains_key(#[trigger] r@[j]) && now
                        < r@[j],
                forall|i: int|
                    0 <= i < it.index() && now < *(#[trigger] it.seq()[i]).0 ==> r@.contains(
                        *it.seq()[i].0,
                    ),
        {
            let (syt, _arg) = pair;
            let ghost found = r@;
            match elapsed(*syt, now) {
                Some(_e) => {},
                None => {
                    r.push(*syt);
                },
            }
            proof {
                assert forall|i: int|
                    0 <= i < it.index() + 1 && now < *(#[trigger] it.seq()[i]).0 implies r@.contains(
                    *it.seq()[i].0,
                ) by {
                    if i < it.index() {
                        let j = choose|j: int| 0 <= j < found.len() && found[j] == *it.seq()[i].0;
                        assert(r@[j] == *it.seq()[i].0);
                    } else {
                        assert(r@[r@.len() - 1] == *syt);
                    }
                }
            }
        }
        r
    }
}

impl<FT: Fn(KT) -> VT, KT: Eq + Hash + Copy, VT: Copy> CSCFCACHE<FT, KT, VT> {
    /// Whether a call on `args` that returned `r` leads from this cache to
    /// `after`, where the clock read `swept_at` before the sweep and
    /// `stamped_at` when the entry was refreshed: the contents change as
    /// `after_call` says, a stored value is returned as it is, and any other
    /// result is one of the wrapped function on `args`.
    pub open spec fn leads_between(
        self,
        args: KT,
        swept_at: u128,
        stamped_at: u128,
        r: VT,
        after: Self,
    ) -> bool {
        &&& after.wrapped() == self.wrapped()
        &&& after@ == self@.after_call(args, swept_at, stamped_at, r)
        &&& if self@.serves(args, swept_at) {
            r == self@.swept(swept_at).values[args]
        } else {
            call_ensures(self.wrapped(), (args,), r)
        }
    }

    /// The first half of a call with a time-to-live: the entries that have
    /// expired at `now` leave, and the stored value of `args` is returned,
    /// or, where there is none, what the wrapped function returns.
    fn ask(&mut self, args: KT, now: u128) -> (rs: VT)
        requires
            old(self).wf(),
            obeys_key_model::<KT>(),
            old(self)@.ttl != 0,
            !old(self)@.serves(args, now) ==> call_requires(old(self).wrapped(), (args,)),
        ensures
            final(self).wf(),
            final(self).wrapped() == old(self).wrapped(),
            final(self)@ == old(self)@.asked(args, now),
            rs == old(self)@.answer(args, now, rs),
            !old(self)@.serves(args, now) ==> call_ensures(old(self).wrapped(), (args,), rs),
    {
        self.sweep(now);
        match self.value.get(&args) {
            Some(v) => *v,
            None => {
                let v = (self.func)(args);
                proof {
                    self.computed@ = self.computed@.push(args);
                }
                v
            },
        }
    }

    /// The second half of a call with a time-to-live: `now` becomes the
    /// timestamp of `args`, and `rs` its value if it had no timestamp.
    fn record(&mut self, args: KT, rs: VT, now: u128)
        requires
            obeys_key_model::<KT>(),
        ensures
            final(self).wrapped() == old(self).wrapped(),
            final(self)@ == old(self)@.recorded(args, now, rs),
    {
        let ghost pre = self@;
        let snowc = self.argtime.insert(args, now);
        match snowc {
            Some(nowc) => {
                self.cachetime.remove(&nowc);
            },
            None => {
                self.value.insert(args, rs);
            },
        }
        self.cachetime.insert(now, args);
        proof {
            let post = pre.recorded(args, now, rs);
            assert(self.cachetime@ =~= post.by_time);
            assert(self.argtime@ =~= post.stamps);
            assert(self.value@ =~= post.values);
        }
    }

    /// The call without a time-to-live: the stored value of `args`, or,
    /// where there is none, what the wrapped function returns, which is then
    /// stored. No time is read or recorded.
    fn keep_forever(&mut self, args: KT) -> (rs: VT)
        requires
            old(self).wf(),
            obeys_key_model::<KT>(),
            old(self)@.ttl == 0,
            !old(self)@.values.contains_key(args) ==> call_requires(old(self).wrapped(), (args,)),
        ensures
            final(self).wf(),
            forall|swept_at: u128, stamped_at: u128| #[trigger]
                old(self).leads_between(args, swept_at, stamped_at, rs, *final(self)),
    {
        let ghost pre = self@;
        assert forall|now: u128| #[trigger] pre.swept(now) == pre by {
            assert(pre.swept(now).by_time =~= pre.by_time);
            assert(pre.swept(now).stamps =~= pre.stamps);
            assert(pre.swept(now).values =~= pre.values);
        }
        let rs = match self.value.get(&args) {
            Some(v) => *v,
            None => {
                let v = (self.func)(args);
                self.value.insert(args, v);
                proof {
                    self.computed@ = self.computed@.push(args);
                }
                v
            },
        };
        proof {
            pre.lemma_after_call_coherent(args, 0, 0, rs);
        }
        rs
    }

    /// The call at given readings of the clock: `swept_at` is what the clock
    /// read when the call began, `stamped_at` what it read once the result
    /// was there.
    ///
    /// With a time-to-live, the entries that have expired at `swept_at`
    /// leave first. Then a stored value of `args` is returned without the
    /// wrapped function; otherwise the function is invoked on `args` and its
    /// result stored. With a time-to-live the entry's timestamp becomes
    /// `stamped_at`.
    pub fn call_between(&mut self, args: KT, swept_at: u128, stamped_at: u128) -> (r: VT)
        requires
            old(self).wf(),
            obeys_key_model::<KT>(),
            !old(self)@.serves(args, swept_at) ==> call_requires(old(self).wrapped(), (args,)),
        ensures
            final(self).wf(),
            old(self).leads_between(args, swept_at, stamped_at, r, *final(self)),
            old(self)@.consistent() && old(self)@.ttl != 0 && !old(self)@.collides(
                args,
                swept_at,
                stamped_at,
            ) ==> final(self)@.consistent(),
    {
        let ghost pre = self@;
        if self.cachetimeout != 0 {
            let rs = self.ask(args, swept_at);
            self.record(args, rs, stamped_at);
            proof {
                pre.lemma_halves_make_call(args, swept_at, stamped_at, rs);
                if pre.consistent() && !pre.collides(args, swept_at, stamped_at) {
                    pre.lemma_call_keeps_consistent(args, swept_at, stamped_at, rs);
                }
            }
            rs
        } else {
            assert(pre.swept(swept_at).values =~= pre.values);
            self.keep_forever(args)
        }
    }

    /// The call at one reading of the clock, for the sweep and for the new
    /// timestamp alike.
    pub fn call_at(&mut self, args: KT, now: u128) -> (r: VT)
        requires
            old(self).wf(),
            obeys_key_model::<KT>(),
            !old(self)@.serves(args, now) ==> call_requires(old(self).wrapped(), (args,)),
        ensures
            final(self).wf(),
            old(self).leads_between(args, now, now, r, *final(self)),
            old(self)@.consistent() && old(self)@.ttl != 0 && !old(self)@.collides(args, now, now)
                ==> final(self)@.consistent(),
    {
        self.call_between(args, now, now)
    }

    /// The call on the system clock. With a time-to-live the clock is read
    /// twice: before the sweep, and again for the entry's new timestamp once
    /// the result is there, so that the time the wrapped function took does
    /// not count towards the entry's age. Without a time-to-live the clock
    /// is not read. A clock that stands before the epoch reads as the epoch.
    pub fn call(&mut self, args: KT) -> (r: VT)
        requires
            old(self).wf(),
            obeys_key_model::<KT>(),
            (exists|now: u128| !#[trigger] old(self)@.serves(args, now)) ==> call_requires(
                old(self).wrapped(),
                (args,),
            ),
        ensures
            final(self).wf(),
            exists|swept_at: u128, stamped_at: u128| #[trigger]
                old(self).leads_between(args, swept_at, stamped_at, r, *final(self)),
    {
        let ghost pre = self@;
        if self.cachetimeout != 0 {
            let swept_at = read_clock();
            let rs = self.ask(args, swept_at);
            let stamped_at = read_clock();
            self.record(args, rs, stamped_at);
            proof {
                pre.lemma_halves_make_call(args, swept_at, stamped_at, rs);
                assert(old(self).leads_between(args, swept_at, stamped_at, rs, *self));
            }
            rs
        } else {
            assert(pre.swept(0).values =~= pre.values);
            assert(!pre.values.contains_key(args) ==> !pre.serves(args, 0));
            let rs = self.keep_forever(args);
            assert(old(self).leads_between(args, 0, 0, rs, *self));
            rs
        }
    }
}

} // verus!
