//! Values that a loop can count with.

use vstd::prelude::*;

verus! {

/// A type whose values stand for numbers that can be compared and added. A
/// sum need not exist in the type: a machine integer has a largest and a
/// smallest value.
pub trait Countable: Copy {
    /// The number that the value stands for. A type that does not say which
    /// leaves it open.
    open spec fn number(self) -> int {
        arbitrary()
    }

    /// Whether the value is strictly below `other`.
    fn below(self, other: Self) -> (r: bool)
        ensures
            r == (self.number() < other.number()),
    ;

    /// The value that is `step` further on, or `None` where the type holds
    /// no such value.
    fn advanced(self, step: Self) -> (r: Option<Self>)
        ensures
            r matches Some(n) ==> n.number() == self.number() + step.number(),
            r is None ==> forall|n: Self| #[trigger] n.number() != self.number() + step.number(),
    ;
}

impl Countable for u8 {
    open spec fn number(self) -> int {
        self as int
    }

    fn below(self, other: Self) -> (r: bool) {
        self < other
    }

    fn advanced(self, step: Self) -> (r: Option<Self>) {
        self.checked_add(step)
    }
}

impl Countable for u16 {
    open spec fn number(self) -> int {
        self as int
    }

    fn below(self, other: Self) -> (r: bool) {
        self < other
    }

    fn advanced(self, step: Self) -> (r: Option<Self>) {
        self.checked_add(step)
    }
}

impl Countable for u32 {
    open spec fn number(self) -> int {
        self as int
    }

    fn below(self, other: Self) -> (r: bool) {
        self < other
    }

    fn advanced(self, step: Self) -> (r: Option<Self>) {
        self.checked_add(step)
    }
}

impl Countable for u64 {
    open spec fn number(self) -> int {
        self as int
    }

    fn below(self, other: Self) -> (r: bool) {
        self < other
    }

    fn advanced(self, step: Self) -> (r: Option<Self>) {
        self.checked_add(step)
    }
}

impl Countable for u128 {
    open spec fn number(self) -> int {
        self as int
    }

    fn below(self, other: Self) -> (r: bool) {
        self < other
    }

    fn advanced(self, step: Self) -> (r: Option<Self>) {
        self.checked_add(step)
    }
}

impl Countable for usize {
    open spec fn number(self) -> int {
        self as int
    }

    fn below(self, other: Self) -> (r: bool) {
        self < other
    }

    fn advanced(self, step: Self) -> (r: Option<Self>) {
        self.checked_add(step)
    }
}

impl Countable for i8 {
    open spec fn number(self) -> int {
        self as int
    }

    fn below(self, other: Self) -> (r: bool) {
        self < other
    }

    fn advanced(self, step: Self) -> (r: Option<Self>) {
        self.checked_add(step)
    }
}

impl Countable for i16 {
    open spec fn number(self) -> int {
        self as int
    }

    fn below(self, other: Self) -> (r: bool) {
        self < other
    }

    fn advanced(self, step: Self) -> (r: Option<Self>) {
        self.checked_add(step)
    }
}

impl Countable for i32 {
    open spec fn number(self) -> int {
        self as int
    }

    fn below(self, other: Self) -> (r: bool) {
        self < other
    }

    fn advanced(self, step: Self) -> (r: Option<Self>) {
        self.checked_add(step)
    }
}

impl Countable for i64 {
    open spec fn number(self) -> int {
        self as int
    }

    fn below(self, other: Self) -> (r: bool) {
        self < other
    }

    fn advanced(self, step: Self) -> (r: Option<Self>) {
        self.checked_add(step)
    }
}

impl Countable for i128 {
    open spec fn number(self) -> int {
        self as int
    }

    fn below(self, other: Self) -> (r: bool) {
        self < other
    }

    fn advanced(self, step: Self) -> (r: Option<Self>) {
        self.checked_add(step)
    }
}

impl Countable for isize {
    open spec fn number(self) -> int {
        self as int
    }

    fn below(self, other: Self) -> (r: bool) {
        self < other
    }

    fn advanced(self, step: Self) -> (r: Option<Self>) {
        self.checked_add(step)
    }
}

} // verus!
