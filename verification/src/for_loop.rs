//! A counting loop over any type that can be added and ordered.

use crate::countable::Countable;
use vstd::prelude::*;

verus! {

/// A half-open counting loop: it yields `start`, `start + step`, ... for as
/// long as the value is below `end`.
///
/// The value is `Copy`, so a loop can be run again from a copy taken before
/// it was advanced.
#[derive(Debug, Clone, Copy)]
pub struct CSCFor<T> {
    count: T,
    ptr: T,
    start: T,
    step: T,
    end: T,
}

impl<T: Default + Copy> CSCFor<T> {
    /// A loop whose start, step and end are all one value of `T::default()`.
    pub fn new() -> (r: CSCFor<T>)
        ensures
            call_ensures(T::default, (), r.first()),
            r.cursor() == r.first(),
            r.last_yielded() == r.first(),
            r.stride() == r.first(),
            r.bound() == r.first(),
    {
        let d = T::default();
        CSCFor { count: d, ptr: d, start: d, step: d, end: d }
    }

    /// Sets the first value and rewinds the loop to it.
    pub fn start(self, start: T) -> (r: Self)
        ensures
            r.first() == start,
            r.cursor() == start,
            r.last_yielded() == start,
            r.stride() == self.stride(),
            r.bound() == self.bound(),
    {
        let mut r = self;
        r.start = start;
        r.ptr = start;
        r.count = start;
        r
    }

    /// Sets the exclusive upper end; the position is kept.
    pub fn end(self, end: T) -> (r: Self)
        ensures
            r.bound() == end,
            r.first() == self.first(),
            r.cursor() == self.cursor(),
            r.last_yielded() == self.last_yielded(),
            r.stride() == self.stride(),
    {
        let mut r = self;
        r.end = end;
        r
    }

    /// Sets the distance between two yielded values; the position is kept.
    pub fn step(self, step: T) -> (r: Self)
        ensures
            r.stride() == step,
            r.first() == self.first(),
            r.cursor() == self.cursor(),
            r.last_yielded() == self.last_yielded(),
            r.bound() == self.bound(),
    {
        let mut r = self;
        r.step = step;
        r
    }
}

impl<T> CSCFor<T> {
    /// The value that the next call of `next` looks at.
    pub closed spec fn cursor(self) -> T {
        self.count
    }

    /// The value that the last call of `next` looked at.
    pub closed spec fn last_yielded(self) -> T {
        self.ptr
    }

    /// The value the loop was last rewound to.
    pub closed spec fn first(self) -> T {
        self.start
    }

    /// The distance between two yielded values.
    pub closed spec fn stride(self) -> T {
        self.step
    }

    /// The exclusive upper end.
    pub closed spec fn bound(self) -> T {
        self.end
    }
}

impl<T: Countable> CSCFor<T> {
    /// Whether the loop has a value to yield: its cursor is strictly below
    /// the end.
    pub open spec fn live(self) -> bool {
        self.cursor().number() < self.bound().number()
    }

    /// Whether the cursor has not fallen below the value the loop was last
    /// rewound to. `new` and `start` make it so, `end` and `step` keep it,
    /// and so does `next` while the step is not negative.
    pub open spec fn on_course(self) -> bool {
        self.first().number() <= self.cursor().number()
    }

    /// Whether the type holds the value one step on from the cursor.
    pub open spec fn can_advance(self) -> bool {
        exists|n: T| #[trigger] n.number() == self.cursor().number() + self.stride().number()
    }

    /// Yields the cursor and moves it one step on, or yields nothing once the
    /// cursor is no longer below the end. An exhausted loop stays where it
    /// is. Where the type holds no value one step on, the cursor goes to the
    /// end, and the loop is exhausted.
    ///
    /// On a loop that is on course every yielded value lies between the
    /// start and the end, the end left out.
    pub fn next(&mut self) -> (r: Option<T>)
        ensures
            r == (if old(self).live() {
                Some(old(self).cursor())
            } else {
                None::<T>
            }),
            !old(self).live() ==> final(self).cursor() == old(self).cursor(),
            old(self).live() && old(self).can_advance() ==> final(self).cursor().number() == old(
                self,
            ).cursor().number() + old(self).stride().number(),
            old(self).live() && !old(self).can_advance() ==> final(self).cursor() == old(
                self,
            ).bound(),
            final(self).last_yielded() == old(self).cursor(),
            final(self).first() == old(self).first(),
            final(self).stride() == old(self).stride(),
            final(self).bound() == old(self).bound(),
            old(self).on_course() ==> (r matches Some(v) ==> old(self).first().number()
                <= v.number() < old(self).bound().number()),
            old(self).on_course() && old(self).stride().number() >= 0 ==> final(self).on_course(),
    {
        self.ptr = self.count;
        if self.count.below(self.end) {
            match self.count.advanced(self.step) {
                Some(n) => {
                    self.count = n;
                },
                None => {
                    self.count = self.end;
                },
            }
            Some(self.ptr)
        } else {
            None
        }
    }
}

} // verus!
