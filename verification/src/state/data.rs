//! Values that change detection can compare and keep a copy of.

use vstd::prelude::*;

verus! {

/// A value that can be compared with another by what it holds, and copied.
/// Two values are the same when they stand for the same `Value`: where they
/// live in memory plays no part.
///
/// The default of `value` is an arbitrary value: an implementation that is
/// not verified leaves it out.
pub trait Data: Sized {
    /// What a value of this type stands for.
    type Value;

    /// What `self` stands for.
    open spec fn value(&self) -> Self::Value {
        arbitrary()
    }

    /// Whether `self` and `other` hold the same value.
    fn same(&self, other: &Self) -> (same: bool)
        ensures
            same == (self.value() == other.value()),
    ;

    /// A copy that holds the same value.
    fn clone_data(&self) -> (copy: Self)
        ensures
            copy.value() == self.value(),
    ;
}

impl Data for bool {
    type Value = bool;

    open spec fn value(&self) -> bool {
        *self
    }
    fn same(&self, other: &Self) -> (same: bool) {
        *self == *other
    }

    fn clone_data(&self) -> (copy: Self) {
        *self
    }
}

impl Data for char {
    type Value = char;

    open spec fn value(&self) -> char {
        *self
    }
    fn same(&self, other: &Self) -> (same: bool) {
        *self == *other
    }

    fn clone_data(&self) -> (copy: Self) {
        *self
    }
}

impl Data for u8 {
    type Value = u8;

    open spec fn value(&self) -> u8 {
        *self
    }
    fn same(&self, other: &Self) -> (same: bool) {
        *self == *other
    }

    fn clone_data(&self) -> (copy: Self) {
        *self
    }
}

impl Data for u16 {
    type Value = u16;

    open spec fn value(&self) -> u16 {
        *self
    }
    fn same(&self, other: &Self) -> (same: bool) {
        *self == *other
    }

    fn clone_data(&self) -> (copy: Self) {
        *self
    }
}

impl Data for u32 {
    type Value = u32;

    open spec fn value(&self) -> u32 {
        *self
    }
    fn same(&self, other: &Self) -> (same: bool) {
        *self == *other
    }

    fn clone_data(&self) -> (copy: Self) {
        *self
    }
}

impl Data for u64 {
    type Value = u64;

    open spec fn value(&self) -> u64 {
        *self
    }
    fn same(&self, other: &Self) -> (same: bool) {
        *self == *other
    }

    fn clone_data(&self) -> (copy: Self) {
        *self
    }
}

impl Data for u128 {
    type Value = u128;

    open spec fn value(&self) -> u128 {
        *self
    }
    fn same(&self, other: &Self) -> (same: bool) {
        *self == *other
    }

    fn clone_data(&self) -> (copy: Self) {
        *self
    }
}

impl Data for usize {
    type Value = usize;

    open spec fn value(&self) -> usize {
        *self
    }
    fn same(&self, other: &Self) -> (same: bool) {
        *self == *other
    }

    fn clone_data(&self) -> (copy: Self) {
        *self
    }
}

impl Data for i8 {
    type Value = i8;

    open spec fn value(&self) -> i8 {
        *self
    }
    fn same(&self, other: &Self) -> (same: bool) {
        *self == *other
    }

    fn clone_data(&self) -> (copy: Self) {
        *self
    }
}

impl Data for i16 {
    type Value = i16;

    open spec fn value(&self) -> i16 {
        *self
    }
    fn same(&self, other: &Self) -> (same: bool) {
        *self == *other
    }

    fn clone_data(&self) -> (copy: Self) {
        *self
    }
}

impl Data for i32 {
    type Value = i32;

    open spec fn value(&self) -> i32 {
        *self
    }
    fn same(&self, other: &Self) -> (same: bool) {
        *self == *other
    }

    fn clone_data(&self) -> (copy: Self) {
        *self
    }
}

impl Data for i64 {
    type Value = i64;

    open spec fn value(&self) -> i64 {
        *self
    }
    fn same(&self, other: &Self) -> (same: bool) {
        *self == *other
    }

    fn clone_data(&self) -> (copy: Self) {
        *self
    }
}

impl Data for i128 {
    type Value = i128;

    open spec fn value(&self) -> i128 {
        *self
    }
    fn same(&self, other: &Self) -> (same: bool) {
        *self == *other
    }

    fn clone_data(&self) -> (copy: Self) {
        *self
    }
}

impl Data for isize {
    type Value = isize;

    open spec fn value(&self) -> isize {
        *self
    }
    fn same(&self, other: &Self) -> (same: bool) {
        *self == *other
    }

    fn clone_data(&self) -> (copy: Self) {
        *self
    }
}

impl Data for String {
    type Value = Seq<char>;

    open spec fn value(&self) -> Seq<char> {
        self@
    }
    fn same(&self, other: &Self) -> (same: bool) {
        *self == *other
    }

    fn clone_data(&self) -> (copy: Self) {
        self.clone()
    }
}

} // verus!
