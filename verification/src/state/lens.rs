//! Lenses: projections from a model to one of its parts.

use vstd::prelude::*;

verus! {

/// A projection from a `Source` to a `Target` inside it. A lens is a plain
/// value: it owns nothing and can be copied freely.
///
/// The observer registry tells lenses apart by `tag()`, which belongs to the
/// type of the lens and not to the value: two lenses of one type are one
/// dependency, whatever they captured when they were made. For a lens with a
/// captured parameter, such as `Index`, this is coarser than the projection:
/// lenses of that type on different places share one witness, and the witness
/// watches the place of the lens that was registered first.
///
/// A tag is a row of numbers. Each type of lens that is written by hand
/// chooses a row of its own, which starts with none of the numbers that are
/// set apart here. The row of a composed lens starts with `THEN_TAG` and the
/// length of the row of its first part; the rows of its parts follow, one
/// after the other. So two composed lenses have the same row only if their
/// parts have the same rows.
///
/// The three spec functions say what an implementation does. Their defaults
/// are arbitrary values: an implementation that is not verified leaves them
/// out.
pub trait Lens: Copy {
    type Source: 'static;

    type Target: 'static;

    /// The tag of this type of lens.
    open spec fn tag_spec() -> Seq<u64> {
        arbitrary()
    }

    /// Whether the lens can be applied to `source`.
    open spec fn covers(&self, source: Self::Source) -> bool {
        arbitrary()
    }

    /// The part of `source` that the lens projects to.
    open spec fn project(&self, source: Self::Source) -> Self::Target {
        arbitrary()
    }

    fn tag() -> (tag: Vec<u64>)
        ensures
            tag@ == Self::tag_spec(),
    ;

    fn applies(&self, source: &Self::Source) -> (applies: bool)
        ensures
            applies == self.covers(*source),
    ;

    /// The part of `source` that the lens projects to, by reference: nothing
    /// is copied.
    fn view<'a>(&self, source: &'a Self::Source) -> (target: &'a Self::Target)
        requires
            self.covers(*source),
        ensures
            *target == self.project(*source),
    ;
}

/// Two lenses, one after the other: `a` projects from the source, `b` from
/// what `a` projected to.
#[derive(Debug)]
pub struct Then<A, B> {
    a: A,
    b: B,
}

impl<A: Copy, B: Copy> Clone for Then<A, B> {
    fn clone(&self) -> (copy: Self)
        ensures
            copy == *self,
    {
        Then { a: self.a, b: self.b }
    }
}

impl<A: Copy, B: Copy> Copy for Then<A, B> {

}

impl<A: Lens, B: Lens<Source = A::Target>> Then<A, B> {
    /// The lens that looks at the source.
    pub closed spec fn first(&self) -> A {
        self.a
    }

    /// The lens that looks at what the first lens shows.
    pub closed spec fn second(&self) -> B {
        self.b
    }

    /// The lens that goes through `a` and then through `b`.
    pub fn new(a: A, b: B) -> (then: Self)
        ensures
            then.first() == a,
            then.second() == b,
    {
        Then { a, b }
    }
}

impl<A: Lens, B: Lens<Source = A::Target>> Lens for Then<A, B> {
    type Source = A::Source;

    type Target = B::Target;

    open spec fn tag_spec() -> Seq<u64> {
        seq![THEN_TAG, A::tag_spec().len() as u64] + A::tag_spec() + B::tag_spec()
    }

    open spec fn covers(&self, source: Self::Source) -> bool {
        self.first().covers(source) && self.second().covers(self.first().project(source))
    }

    open spec fn project(&self, source: Self::Source) -> Self::Target {
        self.second().project(self.first().project(source))
    }

    fn tag() -> (tag: Vec<u64>) {
        let mut first = A::tag();
        let mut second = B::tag();
        let mut tag: Vec<u64> = Vec::new();
        tag.push(THEN_TAG);
        tag.push(first.len() as u64);
        assert(tag@ =~= seq![THEN_TAG, A::tag_spec().len() as u64]);
        tag.append(&mut first);
        tag.append(&mut second);
        tag
    }

    fn applies(&self, source: &Self::Source) -> (applies: bool) {
        self.a.applies(source) && self.b.applies(self.a.view(source))
    }

    fn view<'a>(&self, source: &'a Self::Source) -> (target: &'a Self::Target) {
        self.b.view(self.a.view(source))
    }
}

/// The tag of the indexing lens.
pub const INDEX_TAG: u64 = 0xFFFF_FFFF_FFFF_FFFE;

/// The number with which the tag of every composed lens starts.
pub const THEN_TAG: u64 = 0xFFFF_FFFF_FFFF_FFFD;

/// Composed lenses have the same tag only if their parts have the same
/// tags: the tag of a composed lens tells where the tag of its first part
/// ends.
pub proof fn lemma_then_tags_tell_the_parts<A: Lens, B: Lens<Source = A::Target>, C: Lens, E: Lens<
    Source = C::Target,
>>()
    requires
        Then::<A, B>::tag_spec() == Then::<C, E>::tag_spec(),
        A::tag_spec().len() <= u64::MAX,
        C::tag_spec().len() <= u64::MAX,
    ensures
        A::tag_spec() == C::tag_spec(),
        B::tag_spec() == E::tag_spec(),
{
    let left = Then::<A, B>::tag_spec();
    let right = Then::<C, E>::tag_spec();
    let a = A::tag_spec();
    let b = B::tag_spec();
    let c = C::tag_spec();
    let e = E::tag_spec();
    assert(left[1] == a.len() as u64);
    assert(right[1] == c.len() as u64);
    assert(a.len() == c.len());
    assert(left.len() == 2 + a.len() + b.len());
    assert(right.len() == 2 + c.len() + e.len());
    assert forall|i: int| 0 <= i < a.len() implies a[i] == c[i] by {
        assert(left[2 + i] == a[i]);
        assert(right[2 + i] == c[i]);
    }
    assert(a =~= c);
    assert forall|i: int| 0 <= i < b.len() implies b[i] == e[i] by {
        assert(left[2 + a.len() + i] == b[i]);
        assert(right[2 + c.len() + i] == e[i]);
    }
    assert(b =~= e);
}

/// The lens from a vector to its element at a place that is fixed when the
/// lens is made. For another place, make another lens.
#[derive(Debug)]
pub struct Index<T> {
    index: usize,
    output: core::marker::PhantomData<T>,
}

impl<T> Clone for Index<T> {
    fn clone(&self) -> (copy: Self)
        ensures
            copy == *self,
    {
        Index { index: self.index, output: core::marker::PhantomData }
    }
}

impl<T> Copy for Index<T> {

}

impl<T> Index<T> {
    /// The place that the lens projects to.
    pub closed spec fn place(&self) -> usize {
        self.index
    }

    /// The lens to the element at place `index`.
    pub fn new(index: usize) -> (lens: Self)
        ensures
            lens.place() == index,
    {
        Index { index, output: core::marker::PhantomData }
    }
}

impl<T: 'static> Lens for Index<T> {
    type Source = Vec<T>;

    type Target = T;

    open spec fn tag_spec() -> Seq<u64> {
        seq![INDEX_TAG]
    }

    open spec fn covers(&self, source: Vec<T>) -> bool {
        self.place() < source@.len()
    }

    open spec fn project(&self, source: Vec<T>) -> T {
        source@[self.place() as int]
    }

    fn tag() -> (tag: Vec<u64>) {
        let mut tag: Vec<u64> = Vec::new();
        tag.push(INDEX_TAG);
        tag
    }

    fn applies(&self, source: &Vec<T>) -> (applies: bool) {
        self.index < source.len()
    }

    fn view<'a>(&self, source: &'a Vec<T>) -> (target: &'a T) {
        &source[self.index]
    }
}

/// Ways to build a lens out of others.
pub trait LensExt: Lens {
    /// The lens that goes through `self` and then through `other`.
    fn then<Other: Lens<Source = Self::Target>>(self, other: Other) -> (then: Then<Self, Other>)
        ensures
            then.first() == self,
            then.second() == other,
    {
        Then::new(self, other)
    }

    /// The lens that goes through `self`, to a vector, and then to the
    /// element of that vector at place `index`.
    fn index<T: 'static>(self, index: usize) -> (then: Then<Self, Index<T>>) where
        Self: Lens<Target = Vec<T>>,

        ensures
            then.first() == self,
            then.second().place() == index,
    {
        Then::new(self, Index::new(index))
    }
}

impl<L: Lens> LensExt for L {

}

/// A composed lens shows what its second part shows of what its first part
/// shows.
pub proof fn lemma_then_views_in_sequence<A: Lens, B: Lens<Source = A::Target>>(
    a: A,
    b: B,
    then: Then<A, B>,
    model: A::Source,
)
    requires
        then.first() == a,
        then.second() == b,
    ensures
        then.project(model) == b.project(a.project(model)),
        then.covers(model) == (a.covers(model) && b.covers(a.project(model))),
{
}

} // verus!
