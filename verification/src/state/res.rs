//! Resolving: one way to read a value, whether it is given outright or
//! stands behind a binding.

use vstd::prelude::*;
use crate::context::Context;
use crate::state::binding::Field;
use crate::state::lens::Lens;
use crate::state::model::{Holds, Model, ModelData};
use crate::style::{Color, Display, Visibility};
use morphorm::{LayoutType, PositionType};

verus! {

/// `morphorm::LayoutType`: how a node lays out its children, as the layout
/// engine defines it. Nothing is said of its values: they are carried through.
#[verifier::external_type_specification]
#[verifier::external_body]
pub struct ExLayoutType(morphorm::LayoutType);

/// `morphorm::PositionType`: how a node is placed among its siblings, as the
/// layout engine defines it. Nothing is said of its values: they are carried
/// through.
#[verifier::external_type_specification]
#[verifier::external_body]
pub struct ExPositionType(morphorm::PositionType);

/// Something that a value of type `T` can be read from, given the context:
/// the value itself, or a field of a binding.
///
/// The two spec functions say when there is a value and which. Their
/// defaults are arbitrary values: an implementation that is not verified
/// leaves them out.
pub trait Res<D: ModelData, V, T> {
    /// Whether there is a value to read in `cx`.
    open spec fn resolvable(&self, cx: &Context<D, V>) -> bool {
        arbitrary()
    }

    /// The value that is read in `cx`.
    open spec fn resolved(&self, cx: &Context<D, V>) -> T {
        arbitrary()
    }

    fn get<'a>(&'a self, cx: &'a Context<D, V>) -> (value: &'a T)
        requires
            cx.wf(),
            self.resolvable(cx),
        ensures
            *value == self.resolved(cx),
    ;
}

impl<D: ModelData, V> Res<D, V, i8> for i8 {
    open spec fn resolvable(&self, cx: &Context<D, V>) -> bool {
        true
    }

    open spec fn resolved(&self, cx: &Context<D, V>) -> i8 {
        *self
    }

    fn get<'a>(&'a self, cx: &'a Context<D, V>) -> (value: &'a i8) {
        self
    }
}

impl<D: ModelData, V> Res<D, V, i16> for i16 {
    open spec fn resolvable(&self, cx: &Context<D, V>) -> bool {
        true
    }

    open spec fn resolved(&self, cx: &Context<D, V>) -> i16 {
        *self
    }

    fn get<'a>(&'a self, cx: &'a Context<D, V>) -> (value: &'a i16) {
        self
    }
}

impl<D: ModelData, V> Res<D, V, i32> for i32 {
    open spec fn resolvable(&self, cx: &Context<D, V>) -> bool {
        true
    }

    open spec fn resolved(&self, cx: &Context<D, V>) -> i32 {
        *self
    }

    fn get<'a>(&'a self, cx: &'a Context<D, V>) -> (value: &'a i32) {
        self
    }
}

impl<D: ModelData, V> Res<D, V, i64> for i64 {
    open spec fn resolvable(&self, cx: &Context<D, V>) -> bool {
        true
    }

    open spec fn resolved(&self, cx: &Context<D, V>) -> i64 {
        *self
    }

    fn get<'a>(&'a self, cx: &'a Context<D, V>) -> (value: &'a i64) {
        self
    }
}

impl<D: ModelData, V> Res<D, V, i128> for i128 {
    open spec fn resolvable(&self, cx: &Context<D, V>) -> bool {
        true
    }

    open spec fn resolved(&self, cx: &Context<D, V>) -> i128 {
        *self
    }

    fn get<'a>(&'a self, cx: &'a Context<D, V>) -> (value: &'a i128) {
        self
    }
}

impl<D: ModelData, V> Res<D, V, isize> for isize {
    open spec fn resolvable(&self, cx: &Context<D, V>) -> bool {
        true
    }

    open spec fn resolved(&self, cx: &Context<D, V>) -> isize {
        *self
    }

    fn get<'a>(&'a self, cx: &'a Context<D, V>) -> (value: &'a isize) {
        self
    }
}

impl<D: ModelData, V> Res<D, V, u8> for u8 {
    open spec fn resolvable(&self, cx: &Context<D, V>) -> bool {
        true
    }

    open spec fn resolved(&self, cx: &Context<D, V>) -> u8 {
        *self
    }

    fn get<'a>(&'a self, cx: &'a Context<D, V>) -> (value: &'a u8) {
        self
    }
}

impl<D: ModelData, V> Res<D, V, u16> for u16 {
    open spec fn resolvable(&self, cx: &Context<D, V>) -> bool {
        true
    }

    open spec fn resolved(&self, cx: &Context<D, V>) -> u16 {
        *self
    }

    fn get<'a>(&'a self, cx: &'a Context<D, V>) -> (value: &'a u16) {
        self
    }
}

impl<D: ModelData, V> Res<D, V, u32> for u32 {
    open spec fn resolvable(&self, cx: &Context<D, V>) -> bool {
        true
    }

    open spec fn resolved(&self, cx: &Context<D, V>) -> u32 {
        *self
    }

    fn get<'a>(&'a self, cx: &'a Context<D, V>) -> (value: &'a u32) {
        self
    }
}

impl<D: ModelData, V> Res<D, V, u64> for u64 {
    open spec fn resolvable(&self, cx: &Context<D, V>) -> bool {
        true
    }

    open spec fn resolved(&self, cx: &Context<D, V>) -> u64 {
        *self
    }

    fn get<'a>(&'a self, cx: &'a Context<D, V>) -> (value: &'a u64) {
        self
    }
}

impl<D: ModelData, V> Res<D, V, u128> for u128 {
    open spec fn resolvable(&self, cx: &Context<D, V>) -> bool {
        true
    }

    open spec fn resolved(&self, cx: &Context<D, V>) -> u128 {
        *self
    }

    fn get<'a>(&'a self, cx: &'a Context<D, V>) -> (value: &'a u128) {
        self
    }
}

impl<D: ModelData, V> Res<D, V, usize> for usize {
    open spec fn resolvable(&self, cx: &Context<D, V>) -> bool {
        true
    }

    open spec fn resolved(&self, cx: &Context<D, V>) -> usize {
        *self
    }

    fn get<'a>(&'a self, cx: &'a Context<D, V>) -> (value: &'a usize) {
        self
    }
}

impl<D: ModelData, V> Res<D, V, char> for char {
    open spec fn resolvable(&self, cx: &Context<D, V>) -> bool {
        true
    }

    open spec fn resolved(&self, cx: &Context<D, V>) -> char {
        *self
    }

    fn get<'a>(&'a self, cx: &'a Context<D, V>) -> (value: &'a char) {
        self
    }
}

impl<D: ModelData, V> Res<D, V, bool> for bool {
    open spec fn resolvable(&self, cx: &Context<D, V>) -> bool {
        true
    }

    open spec fn resolved(&self, cx: &Context<D, V>) -> bool {
        *self
    }

    fn get<'a>(&'a self, cx: &'a Context<D, V>) -> (value: &'a bool) {
        self
    }
}

impl<D: ModelData, V> Res<D, V, Color> for Color {
    open spec fn resolvable(&self, cx: &Context<D, V>) -> bool {
        true
    }

    open spec fn resolved(&self, cx: &Context<D, V>) -> Color {
        *self
    }

    fn get<'a>(&'a self, cx: &'a Context<D, V>) -> (value: &'a Color) {
        self
    }
}

impl<D: ModelData, V> Res<D, V, Display> for Display {
    open spec fn resolvable(&self, cx: &Context<D, V>) -> bool {
        true
    }

    open spec fn resolved(&self, cx: &Context<D, V>) -> Display {
        *self
    }

    fn get<'a>(&'a self, cx: &'a Context<D, V>) -> (value: &'a Display) {
        self
    }
}

impl<D: ModelData, V> Res<D, V, Visibility> for Visibility {
    open spec fn resolvable(&self, cx: &Context<D, V>) -> bool {
        true
    }

    open spec fn resolved(&self, cx: &Context<D, V>) -> Visibility {
        *self
    }

    fn get<'a>(&'a self, cx: &'a Context<D, V>) -> (value: &'a Visibility) {
        self
    }
}

impl<D: ModelData, V> Res<D, V, LayoutType> for LayoutType {
    open spec fn resolvable(&self, cx: &Context<D, V>) -> bool {
        true
    }

    open spec fn resolved(&self, cx: &Context<D, V>) -> LayoutType {
        *self
    }

    fn get<'a>(&'a self, cx: &'a Context<D, V>) -> (value: &'a LayoutType) {
        self
    }
}

impl<D: ModelData, V> Res<D, V, PositionType> for PositionType {
    open spec fn resolvable(&self, cx: &Context<D, V>) -> bool {
        true
    }

    open spec fn resolved(&self, cx: &Context<D, V>) -> PositionType {
        *self
    }

    fn get<'a>(&'a self, cx: &'a Context<D, V>) -> (value: &'a PositionType) {
        self
    }
}

impl<D: ModelData, V, T> Res<D, V, (T, T)> for (T, T) {
    open spec fn resolvable(&self, cx: &Context<D, V>) -> bool {
        true
    }

    open spec fn resolved(&self, cx: &Context<D, V>) -> (T, T) {
        *self
    }

    fn get<'a>(&'a self, cx: &'a Context<D, V>) -> (value: &'a (T, T)) {
        self
    }
}

impl<D: ModelData + Holds<L::Source>, V, L: Lens> Res<D, V, L::Target> for Field<L> where
    L::Source: Model,
 {
    open spec fn resolvable(&self, cx: &Context<D, V>) -> bool {
        self.readable(cx)
    }

    open spec fn resolved(&self, cx: &Context<D, V>) -> L::Target {
        self.lens().project(cx.data_spec::<L::Source>()->0)
    }

    fn get<'a>(&'a self, cx: &'a Context<D, V>) -> (value: &'a L::Target) {
        Field::get(self, cx)
    }
}

} // verus!
