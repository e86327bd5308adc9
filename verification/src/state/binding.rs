//! Bindings: the parts of the interface that are built from a value behind a
//! lens, and built again when that value changes.

use vstd::prelude::*;
use crate::context::{BuildError, Context};
use crate::entity::Entity;
use crate::state::data::Data;
use crate::state::lens::Lens;
use crate::state::model::{Holds, Model, ModelData};
use crate::state::registry::{
    lemma_lens_place, lemma_lens_place_found, lens_place, model_place, Registration,
};
use crate::style::{Color, Display, Style};
use crate::tree::{is_tree, lemma_grown_paths, lemma_path_members, lemma_path_unfold};

verus! {

/// What a binding hands to its builder: the lens, to read the value that the
/// binding is built from.
pub struct Field<L> {
    lens: L,
}

impl<L: Copy> Clone for Field<L> {
    fn clone(&self) -> (copy: Self)
        ensures
            copy == *self,
    {
        Field { lens: self.lens }
    }
}

impl<L: Copy> Copy for Field<L> {

}

impl<L: Lens> Field<L> {
    /// The lens of the field.
    pub closed spec fn lens(&self) -> L {
        self.lens
    }

    /// The field that reads through `lens`.
    pub closed spec fn of(lens: L) -> Self {
        Field { lens }
    }

    /// The field that reads through `lens`.
    pub fn new(lens: L) -> (field: Self)
        ensures
            field == Self::of(lens),
            field.lens() == lens,
    {
        Field { lens }
    }

    /// Whether there is a value to read in `cx`: a model of the type that the
    /// lens looks at is attached to the current node or to a node above it,
    /// and the lens covers it.
    pub open spec fn readable<D: ModelData + Holds<L::Source>, V>(
        &self,
        cx: &Context<D, V>,
    ) -> bool where L::Source: Model {
        match cx.data_spec::<L::Source>() {
            Some(model) => self.lens().covers(model),
            None => false,
        }
    }

    /// The value that the lens shows of the model that is nearest to the
    /// current node.
    pub fn get<'a, D: ModelData + Holds<L::Source>, V>(&self, cx: &'a Context<D, V>) -> (value:
        &'a L::Target) where L::Source: Model
        requires
            cx.wf(),
            self.readable(cx),
        ensures
            *value == self.lens().project(cx.data_spec::<L::Source>()->0),
    {
        match cx.data::<L::Source>() {
            Some(model) => self.lens.view(model),
            None => vstd::pervasive::unreached(),
        }
    }

    /// The value that the lens shows of the model that is nearest to the
    /// current node; `None` where there is no such model or the lens does
    /// not cover it.
    pub fn try_get<'a, D: ModelData + Holds<L::Source>, V>(&self, cx: &'a Context<D, V>) -> (value:
        Option<&'a L::Target>) where L::Source: Model
        requires
            cx.wf(),
        ensures
            match value {
                Some(v) => self.readable(cx) && *v == self.lens().project(
                    cx.data_spec::<L::Source>()->0,
                ),
                None => !self.readable(cx),
            },
    {
        match cx.data::<L::Source>() {
            Some(model) => if self.lens.applies(model) {
                Some(self.lens.view(model))
            } else {
                None
            },
            None => None,
        }
    }
}

/// What builds the part of the interface that a binding stands for.
///
/// The spec function says what an implementation does. Its default is an
/// arbitrary value: an implementation that is not verified leaves it out.
pub trait Builder<D: ModelData, V, L: Lens> {
    /// What `build` does: whether the builder, handed `field` in `before`,
    /// may leave the context `after` and the result `built`.
    open spec fn builds(
        &self,
        before: Context<D, V>,
        field: Field<L>,
        after: Context<D, V>,
        built: Result<(), BuildError>,
    ) -> bool {
        arbitrary()
    }

    /// Builds, below the current node of `cx` and from the current place on,
    /// the views that show the value behind `field`. Whatever it does to the
    /// context, it leaves the context in order and takes no node out of the
    /// tree.
    fn build(&self, cx: &mut Context<D, V>, field: Field<L>) -> (built: Result<(), BuildError>)
        requires
            old(cx).wf(),
        ensures
            final(cx).wf(),
            final(cx).keeps(*old(cx)),
            self.builds(*old(cx), field, *final(cx), built),
    ;
}

/// What becomes of a binding on `lens` whose node is `id`, when it is
/// declared in `cx`: it registers with the nearest node that holds a model of
/// the type that the lens looks at, searching from `id` upwards, or, where
/// `id` is yet to be made, from the current node upwards.
pub open spec fn registration_in<D: ModelData + Holds<L::Source>, V, L: Lens>(
    cx: Context<D, V>,
    id: Entity,
    lens: L,
) -> Registration where L::Source: Model, L::Target: Data {
    let start = if cx.has(id) {
        id
    } else {
        cx.current()
    };
    match cx.host(start, <L::Source as Model>::tag_spec()) {
        None => Registration::MissingModel,
        Some(host) => cx.slot(host).store.registration(cx.path(cx.current()), lens),
    }
}

/// A binding that is declared below a binding on the same lens does not
/// come to observe. Where the store that the new binding registers with has a
/// witness for the type of `lens`, and a node on the path from the current
/// node up to the root is among the observers of that witness, the new
/// binding is covered: the node above it is rebuilt when the value changes,
/// and the new binding with it.
pub proof fn lemma_nested_registration_is_covered<D: ModelData + Holds<L::Source>, V, L: Lens>(
    cx: Context<D, V>,
    id: Entity,
    lens: L,
    host: Entity,
    outer: Entity,
) where L::Source: Model, L::Target: Data
    requires
        cx.host(
            if cx.has(id) {
                id
            } else {
                cx.current()
            },
            <L::Source as Model>::tag_spec(),
        ) == Some(host),
        lens_place(cx.slot(host).store.lenses@, L::tag_spec(), 0) matches Some(w)
            && cx.slot(host).store.lenses@[w].wrap.observer_seq().contains(outer),
        cx.path(cx.current()).contains(outer),
    ensures
        registration_in(cx, id, lens) == Registration::Covered,
{
    let start = if cx.has(id) {
        id
    } else {
        cx.current()
    };
    let tag = <L::Source as Model>::tag_spec();
    let path = cx.path(start);
    cx.lemma_host_holds(path, 0, tag);
    let ancestors = cx.path(cx.current());
    let i = choose|i: int| 0 <= i < ancestors.len() && ancestors[i] == outer;
    let w = lens_place(cx.slot(host).store.lenses@, L::tag_spec(), 0)->0;
    assert(cx.slot(host).store.lenses@[w].wrap.observer_seq().contains(ancestors[i]));
}

/// A binding that the builder of another binding declares on the same lens
/// does not come to observe. The builder of a binding builds below the node
/// of that binding, so while it runs, that node is the current node. Where
/// the store that the new binding registers with has a witness for the type
/// of `lens`, and the current node is among the observers of that witness,
/// the new binding is covered: when the value changes, only the outer
/// binding is told, and the inner one is built again with it.
pub proof fn lemma_binding_of_a_builder_is_covered<D: ModelData + Holds<L::Source>, V, L: Lens>(
    cx: Context<D, V>,
    id: Entity,
    lens: L,
    host: Entity,
) where L::Source: Model, L::Target: Data
    requires
        cx.wf(),
        cx.host(
            if cx.has(id) {
                id
            } else {
                cx.current()
            },
            <L::Source as Model>::tag_spec(),
        ) == Some(host),
        lens_place(cx.slot(host).store.lenses@, L::tag_spec(), 0) matches Some(w)
            && cx.slot(host).store.lenses@[w].wrap.observer_seq().contains(cx.current()),
    ensures
        registration_in(cx, id, lens) == Registration::Covered,
{
    cx.lemma_wf();
    lemma_path_unfold(cx.tree(), cx.current());
    assert(cx.path(cx.current())[0] == cx.current());
    lemma_nested_registration_is_covered(cx, id, lens, host, cx.current());
}

/// A part of the interface that is built from the value behind a lens. The
/// binding remembers its node: whenever its builder runs, it builds below
/// that node, from the first place on. What a builder builds, a binding that
/// it declares too, so stands below the node of the binding.
pub struct Binding<L, B> {
    lens: L,
    entity: Entity,
    builder: Option<B>,
}

/// A binding that has been declared: its node, and what became of its wish to
/// observe.
#[derive(Clone, Copy, PartialEq, Eq, Structural, Debug)]
pub struct Bound {
    pub entity: Entity,
    pub registration: Registration,
}

impl<L: Lens, B> Binding<L, B> {
    /// The lens that the binding observes.
    pub closed spec fn lens(&self) -> L {
        self.lens
    }

    /// The node of the binding, below which the builder builds.
    pub closed spec fn entity(&self) -> Entity {
        self.entity
    }

    /// The builder, while the binding holds it.
    pub closed spec fn builder(&self) -> Option<B> {
        self.builder
    }

    /// Runs the builder: below the node of the binding, from the first
    /// place on. The builder is taken out of the binding for the run and put
    /// back after it, whether it has built or failed. Nothing is built where
    /// the node is not in the tree any more, or where the binding holds no
    /// builder.
    pub fn body<D: ModelData, V>(&mut self, cx: &mut Context<D, V>) -> (built: Result<
        (),
        BuildError,
    >) where B: Builder<D, V, L>
        requires
            old(cx).wf(),
        ensures
            final(cx).wf(),
            final(cx).keeps(*old(cx)),
            final(self).lens() == old(self).lens(),
            final(self).entity() == old(self).entity(),
            final(self).builder() == old(self).builder(),
            !old(cx).has(old(self).entity()) ==> {
                &&& built == Err::<(), BuildError>(BuildError::MissingParent)
                &&& *final(cx) == *old(cx)
            },
            old(cx).has(old(self).entity()) && old(self).builder() is None ==> {
                &&& built is Ok
                &&& *final(cx) == *old(cx)
            },
            old(self).rebuilds(*old(cx), *final(self), *final(cx), built),
    {
        if !cx.contains(self.entity) {
            return Err(BuildError::MissingParent);
        }
        match self.builder.take() {
            Some(builder) => {
                cx.set_position(self.entity, 0);
                let ghost handed = *cx;
                let built = builder.build(cx, Field::new(self.lens));
                self.builder = Some(builder);
                proof {
                    assert(old(cx).placed(old(self).entity(), 0, handed));
                    assert(builder.builds(handed, Field::of(old(self).lens()), *cx, built));
                }
                built
            },
            None => Ok(()),
        }
    }

    /// What `body` does: the binding itself stays as it is. Where its node
    /// is gone, it fails and nothing changes; where it holds no builder,
    /// nothing changes. Else the builder is handed the field of the lens, in
    /// the context moved below the node of the binding, to the first place,
    /// and what the builder leaves and says is what `body` leaves and says.
    pub open spec fn rebuilds<D: ModelData, V>(
        &self,
        before: Context<D, V>,
        left: Self,
        after: Context<D, V>,
        built: Result<(), BuildError>,
    ) -> bool where B: Builder<D, V, L> {
        &&& left == *self
        &&& if !before.has(self.entity()) {
            built == Err::<(), BuildError>(BuildError::MissingParent) && after == before
        } else {
            match self.builder() {
                None => built is Ok && after == before,
                Some(builder) => exists|handed: Context<D, V>|
                    {
                        &&& before.placed(self.entity(), 0, handed)
                        &&& #[trigger] builder.builds(handed, Field::of(self.lens()), after, built)
                    },
            }
        }
    }

    /// What `declare` does where a node can be had: whether `after` is
    /// `before` with the binding `binding` on `lens` declared at the place
    /// where the next view is built, and `bound` what became of it. The
    /// node of the binding is the child that stood at the place, or a new
    /// one; the place has moved on by one; and the node is registered with
    /// the nearest node that holds a model of the type the lens looks at.
    pub open spec fn declares<D: ModelData + Holds<L::Source>, V>(
        before: Context<D, V>,
        lens: L,
        builder: B,
        binding: Self,
        bound: Bound,
        after: Context<D, V>,
    ) -> bool where L::Source: Model, L::Target: Data {
        let id = bound.entity;
        let tag = <L::Source as Model>::tag_spec();
        let start = if before.has(id) {
            id
        } else {
            before.current()
        };
        let ancestors = before.path(before.current());
        &&& after.current() == before.current()
        &&& after.pending() == before.pending()
        &&& before.has(id) ==> after.has_room() == before.has_room()
        &&& binding.lens() == lens
        &&& binding.entity() == id
        &&& binding.builder() == Some(builder)
        &&& after.count() == before.count() + 1
        &&& after.has(id)
        &&& before.child_at(before.current(), before.count() as int) matches Some(
            child,
        ) ==> id == child
        &&& before.child_at(before.current(), before.count() as int) is None
            ==> !before.has(id)
        &&& if before.has(id) {
            after.tree() == before.tree()
        } else {
            &&& after.tree() == crate::tree::grown(
                before.tree(),
                id,
                before.current(),
            )
            &&& Context::<D, V>::is_fresh(after.slot(id))
        }
        &&& match before.host(start, tag) {
            None => {
                &&& bound.registration == Registration::MissingModel
                &&& bound.registration == registration_in(before, id, lens)
                &&& forall|e: Entity|
                    before.has(e) ==> #[trigger] after.slot(e) == before.slot(e)
            },
            Some(host) => {
                &&& before.has(host)
                &&& bound.registration == before.slot(host).store.registration(
                    ancestors,
                    lens,
                )
                &&& bound.registration == registration_in(before, id, lens)
                &&& before.slot(host).store.registered(
                    after.slot(host).store,
                    id,
                    ancestors,
                    lens,
                )
                &&& after.slot(host).view == before.slot(host).view
                &&& after.slot(host).style == before.slot(host).style
                &&& forall|e: Entity|
                    before.has(e) && e != host ==> #[trigger] after.slot(e)
                        == before.slot(e)
            },
        }
    }

    /// Declares a binding at the place where the next view is built: finds
    /// or makes its node, and registers the node as an observer of `lens`,
    /// with the nearest node from it upwards that holds a model of the type
    /// that the lens looks at, unless a node above it observes the lens
    /// already. The builder has not run yet.
    pub fn declare<D: ModelData + Holds<L::Source>, V>(
        cx: &mut Context<D, V>,
        lens: L,
        builder: B,
    ) -> (declared: Result<(Self, Bound), BuildError>) where
        L: 'static,
        L::Source: Model,
        L::Target: Data,

        requires
            old(cx).wf(),
        ensures
            final(cx).wf(),
            final(cx).keeps(*old(cx)),
            final(cx).current() == old(cx).current(),
            final(cx).pending() == old(cx).pending(),
            declared is Err <==> old(cx).node_error() is Some,
            match declared {
                Ok((binding, bound)) => Self::declares(
                    *old(cx),
                    lens,
                    builder,
                    binding,
                    bound,
                    *final(cx),
                ),
                Err(error) => {
                    &&& *final(cx) == *old(cx)
                    &&& old(cx).node_error() == Some(error)
                },
            },
    {
        let parent = cx.current_entity();
        let ghost before = *cx;
        proof {
            before.lemma_wf();
        }
        let id = match cx.build_node() {
            Ok(id) => id,
            Err(error) => {
                return Err(error);
            },
        };
        let binding = Binding { lens, entity: id, builder: Some(builder) };
        let ancestors = cx.parent_iter(parent);
        let ghost mid = *cx;
        let ghost tag = <L::Source as Model>::tag_spec();
        let ghost start = if before.has(id) {
            id
        } else {
            parent
        };
        proof {
            mid.lemma_wf();
            lemma_path_members(before.tree(), start);
            if before.has(id) {
                assert(mid.path(id) == before.path(id));
                mid.lemma_host_from_agrees(before, before.path(id), 0, tag);
            } else {
                lemma_grown_paths(before.tree(), id, parent);
                assert(mid.path(id) == seq![id] + before.path(parent));
                assert(mid.host_from(mid.path(id), 0, tag) == mid.host_from(mid.path(id), 1, tag));
                mid.lemma_host_from_shift(seq![id], before.path(parent), 0, tag);
                mid.lemma_host_from_agrees(before, before.path(parent), 0, tag);
            }
            assert(mid.host(id, tag) == before.host(start, tag));
            before.lemma_host_on_path(before.path(start), 0, tag);
        }
        let registration = cx.observe(id, &ancestors, lens);
        proof {
            assert forall|e: Entity| before.has(e) implies cx.has(e) by {
                assert(mid.has(e));
            }
            match before.host(start, tag) {
                Some(host) => {
                    assert(before.has(host));
                    assert(mid.slot(host) == before.slot(host));
                    assert forall|e: Entity| before.has(e) && e != host implies #[trigger] cx.slot(
                        e,
                    ) == before.slot(e) by {
                        assert(mid.slot(e) == before.slot(e));
                        assert(e.spec_index() != host.spec_index());
                    }
                    if !before.has(id) {
                        assert(id.spec_index() != host.spec_index());
                    }
                },
                None => {
                    assert forall|e: Entity| before.has(e) implies #[trigger] cx.slot(e)
                        == before.slot(e) by {
                        assert(mid.slot(e) == before.slot(e));
                    }
                },
            }
        }
        Ok((binding, Bound { entity: id, registration }))
    }

    /// Declares a binding at the place where the next view is built, lets
    /// its builder build for the first time, and stores the binding as the
    /// view of its node, to be built again when the value behind `lens`
    /// changes. The node of the binding itself takes no part in the layout.
    ///
    /// Where no node can be had for the binding, nothing changes. Where the
    /// builder fails, the binding is stored all the same, and the error of the
    /// builder is handed on.
    pub fn new<D: ModelData + Holds<L::Source>, V: Holds<Binding<L, B>>>(
        cx: &mut Context<D, V>,
        lens: L,
        builder: B,
    ) -> (bound: Result<Bound, BuildError>) where
        B: Builder<D, V, L>,
        L: 'static,
        L::Source: Model,
        L::Target: Data,

        requires
            old(cx).wf(),
        ensures
            final(cx).wf(),
            final(cx).keeps(*old(cx)),
            final(cx).current() == old(cx).current(),
            match old(cx).node_error() {
                Some(error) => bound == Err::<Bound, BuildError>(error) && *final(cx) == *old(cx),
                None => Self::first_built(*old(cx), lens, builder, *final(cx), bound),
            },
            match bound {
                Ok(b) => {
                    &&& final(cx).has(b.entity)
                    &&& final(cx).count() == old(cx).count() + 1
                    &&& old(cx).child_at(old(cx).current(), old(cx).count() as int) matches Some(
                        child,
                    ) ==> b.entity == child
                    &&& old(cx).child_at(old(cx).current(), old(cx).count() as int) is None
                        ==> !old(cx).has(b.entity)
                    &&& b.registration == registration_in(*old(cx), b.entity, lens)
                    &&& final(cx).slot(b.entity).style.display == Display::Hidden
                    &&& final(cx).slot(b.entity).style.background_color == Some(
                        Color { r: 0, g: 0, b: 255, a: 255 },
                    )
                    &&& final(cx).slot(b.entity).view matches Some(view)
                        && view.held() matches Some(binding) && binding.lens() == lens
                        && binding.entity() == b.entity && binding.builder() == Some(builder)
                },
                Err(_) => true,
            },
    {
        let ghost before = *cx;
        let parent = cx.current_entity();
        let (binding, bound) = match Self::declare(cx, lens, builder) {
            Ok(declared) => declared,
            Err(error) => {
                return Err(error);
            },
        };
        let next = cx.position();
        let ghost first = binding;
        let mut binding = binding;
        let ghost declared = *cx;
        let built = binding.body(cx);
        let ghost left = *cx;
        proof {
            before.lemma_wf();
            left.lemma_wf();
            assert(declared.has(bound.entity));
            assert(declared.has(parent));
            assert(left.has(bound.entity));
            assert(left.has(parent));
        }
        cx.set_position(parent, next);
        let stored = cx.insert_view(bound.entity, V::upcast(binding));
        cx.set_display(bound.entity, Display::Hidden);
        cx.set_background_color(bound.entity, Some(Color::blue()));
        proof {
            assert forall|e: Entity| before.has(e) implies cx.has(e) by {
                assert(declared.has(e));
                assert(left.has(e));
            }
            assert(cx.has(bound.entity));
            assert(Self::declares(before, lens, builder, first, bound, declared));
            assert(first.rebuilds(declared, first, left, built));
            assert(Self::stores(left, first, before.current(), before.count() + 1, *cx));
        }
        match built {
            Ok(()) => Ok(bound),
            Err(error) => Err(error),
        }
    }

    /// Whether `after` is `left` with `binding` stored as the view of its
    /// node, the node taken out of the layout and painted blue, and the
    /// place where views are built moved below `current`, to place `count`.
    pub open spec fn stores<D: ModelData, V: Holds<Binding<L, B>>>(
        left: Context<D, V>,
        binding: Self,
        current: Entity,
        count: int,
        after: Context<D, V>,
    ) -> bool {
        let id = binding.entity();
        &&& after.tree() == left.tree()
        &&& after.pending() == left.pending()
        &&& after.has_room() == left.has_room()
        &&& after.current() == current
        &&& after.count() == count
        &&& after.slots().len() == left.slots().len()
        &&& forall|i: int|
            0 <= i < left.slots().len() && i != id.spec_index() ==> #[trigger] after.slots()[i]
                == left.slots()[i]
        &&& after.slot(id).store == left.slot(id).store
        &&& after.slot(id).view matches Some(view) && view.held() == Some(binding)
        &&& after.slot(id).style == (Style {
            display: Display::Hidden,
            background_color: Some(Color { r: 0, g: 0, b: 255, a: 255 }),
            element: left.slot(id).style.element,
            text: left.slot(id).style.text,
            visibility: left.slot(id).style.visibility,
            background_image: left.slot(id).style.background_image,
        })
    }

    /// What `new` does where a node can be had for the binding: the binding
    /// is declared, its builder runs for the first time, as `rebuilds` says,
    /// and the binding is stored, as `stores` says, with the place where
    /// views are built behind the node of the binding. The result is what
    /// became of the binding, or the error of the builder.
    pub open spec fn first_built<D: ModelData + Holds<L::Source>, V: Holds<Binding<L, B>>>(
        before: Context<D, V>,
        lens: L,
        builder: B,
        after: Context<D, V>,
        result: Result<Bound, BuildError>,
    ) -> bool where B: Builder<D, V, L>, L::Source: Model, L::Target: Data {
        exists|
            binding: Self,
            bound: Bound,
            declared: Context<D, V>,
            left: Context<D, V>,
            built: Result<(), BuildError>,
        |
            #![trigger
                Self::declares(before, lens, builder, binding, bound, declared),
                binding.rebuilds(declared, binding, left, built)]
            {
                &&& Self::declares(before, lens, builder, binding, bound, declared)
                &&& binding.rebuilds(declared, binding, left, built)
                &&& Self::stores(left, binding, before.current(), before.count() + 1, after)
                &&& result == (match built {
                    Ok(_) => Ok::<Bound, BuildError>(bound),
                    Err(error) => Err::<Bound, BuildError>(error),
                })
            }
    }
}

/// Of two bindings on the same lens, one declared by the builder of the
/// other, only the outer one observes. When a binding has been declared and
/// has found a model to observe, its builder is handed the context moved
/// below the node of the binding. A binding on the same lens that is
/// declared there on a new node is covered: when the value changes, the outer
/// binding alone is told, and the inner one is built again with it.
pub proof fn lemma_binding_declared_by_a_builder_is_covered<
    D: ModelData + Holds<L::Source>,
    V,
    L: Lens,
    B,
>(
    before: Context<D, V>,
    lens: L,
    builder: B,
    binding: Binding<L, B>,
    bound: Bound,
    declared: Context<D, V>,
    handed: Context<D, V>,
    inner: Entity,
) where L::Source: Model, L::Target: Data
    requires
        before.wf(),
        handed.wf(),
        Binding::<L, B>::declares(before, lens, builder, binding, bound, declared),
        bound.registration == Registration::Observing || bound.registration
            == Registration::Covered,
        declared.placed(bound.entity, 0, handed),
        !handed.has(inner),
    ensures
        registration_in(handed, inner, lens) == Registration::Covered,
{
    let id = bound.entity;
    let tag = <L::Source as Model>::tag_spec();
    let parent = before.current();
    let start = if before.has(id) {
        id
    } else {
        parent
    };
    let ancestors = before.path(parent);
    before.lemma_wf();
    handed.lemma_wf();
    assert(before.host(start, tag) is Some);
    let host = before.host(start, tag)->0;
    if before.has(id) {
        assert(before.child_at(parent, before.count() as int) == Some(id));
        assert(before.tree()[id].parent == Some(parent));
        lemma_path_unfold(before.tree(), id);
        assert(handed.path(id) == seq![id] + ancestors);
    } else {
        lemma_grown_paths(before.tree(), id, parent);
        assert(handed.path(id) == seq![id] + ancestors);
    }
    lemma_path_members(before.tree(), start);
    before.lemma_host_on_path(before.path(start), 0, tag);
    assert(before.has(host));
    let then = before.slot(host).store;
    let now = handed.slot(host).store;
    assert(then.registered(now, id, ancestors, lens));
    assert forall|k: int| 0 <= k < before.path(start).len() implies handed.slot(
        #[trigger] before.path(start)[k],
    ).store.data@ == before.slot(before.path(start)[k]).store.data@ by {
        let e = before.path(start)[k];
        assert(before.has(e));
        if e != host {
            assert(declared.slot(e) == before.slot(e));
        }
    }
    handed.lemma_host_from_agrees(before, before.path(start), 0, tag);
    if !before.has(id) {
        assert(handed.host_from(handed.path(id), 0, tag) == handed.host_from(
            handed.path(id),
            1,
            tag,
        ));
        handed.lemma_host_from_shift(seq![id], ancestors, 0, tag);
    }
    assert(handed.host(id, tag) == Some(host));
    assert(registration_in(handed, inner, lens) == now.registration(handed.path(id), lens));
    lemma_lens_place(then.lenses@, L::tag_spec(), 0);
    assert(model_place(now.data@, tag, 0) == model_place(then.data@, tag, 0));
    if bound.registration == Registration::Covered {
        let w = lens_place(then.lenses@, L::tag_spec(), 0)->0;
        let i = choose|i: int|
            0 <= i < ancestors.len() && then.lenses@[w].wrap.observer_seq().contains(
                #[trigger] ancestors[i],
            );
        assert(handed.path(id)[i + 1] == ancestors[i]);
    } else {
        match lens_place(then.lenses@, L::tag_spec(), 0) {
            Some(w) => {
                assert forall|j: int| 0 <= j < w implies (#[trigger] now.lenses@[j]).key@
                    != L::tag_spec() by {
                    assert(now.lenses@[j] == then.lenses@[j]);
                }
                lemma_lens_place_found(now.lenses@, L::tag_spec(), 0, w);
                assert(now.lenses@[w].wrap.observer_seq().contains(id)) by {
                    let seen = then.lenses@[w].wrap.observer_seq();
                    if !seen.contains(id) {
                        assert(seen.push(id)[seen.len() as int] == id);
                    }
                }
            },
            None => {
                let w = then.lenses@.len() as int;
                assert forall|j: int| 0 <= j < w implies (#[trigger] now.lenses@[j]).key@
                    != L::tag_spec() by {
                    assert(now.lenses@.drop_last()[j] == then.lenses@[j]);
                }
                lemma_lens_place_found(now.lenses@, L::tag_spec(), 0, w);
                assert(now.lenses@[w] == now.lenses@.last());
                assert(seq![id][0] == id);
            },
        }
        assert(handed.path(id)[0] == id);
    }
}

/// A binding that is rebuilt is built again. Where the node `e` holds a
/// binding with its builder, rebuilding `e` runs the builder: it is handed
/// the field of the lens, in the context with the view of `e` taken out and
/// the place where views are built moved below `e`, to the first place; and
/// what the builder says is the result.
pub proof fn lemma_rebuilding_runs_the_builder<D: ModelData, L: Lens, B: Builder<
    D,
    Binding<L, B>,
    L,
>>(
    before: Context<D, Binding<L, B>>,
    e: Entity,
    after: Context<D, Binding<L, B>>,
    built: Result<(), BuildError>,
)
    requires
        before.has(e),
        before.slot(e).view matches Some(binding) && binding.entity() == e
            && binding.builder() is Some,
        before.node_rebuilt(e, after, built),
    ensures
        ({
            let binding = before.slot(e).view->0;
            exists|handed: Context<D, Binding<L, B>>, left: Context<D, Binding<L, B>>|
                {
                    &&& before.hands(e, handed)
                    &&& #[trigger] (binding.builder()->0).builds(
                        handed,
                        Field::of(binding.lens()),
                        left,
                        built,
                    )
                    &&& left.takes_back(e, binding, before.current(), before.count(), after)
                }
        }),
{
    let binding = before.slot(e).view->0;
    let (taken, kept, left) = choose|
        taken: Context<D, Binding<L, B>>,
        kept: Binding<L, B>,
        left: Context<D, Binding<L, B>>,
    |
        {
            &&& before.hands(e, taken)
            &&& #[trigger] crate::view::View::builds(&binding, taken, kept, left, built)
            &&& left.takes_back(e, kept, before.current(), before.count(), after)
        };
    assert(binding.rebuilds(taken, kept, left, built));
    assert(taken.has(e));
    let handed = choose|handed: Context<D, Binding<L, B>>|
        {
            &&& taken.placed(e, 0, handed)
            &&& #[trigger] (binding.builder()->0).builds(
                handed,
                Field::of(binding.lens()),
                left,
                built,
            )
        };
    assert(before.hands(e, handed));
}

impl<D: ModelData, L: Lens, B: Builder<D, Binding<L, B>, L>> crate::view::View<D> for Binding<
    L,
    B,
> {
    open spec fn builds(
        &self,
        before: Context<D, Self>,
        left: Self,
        after: Context<D, Self>,
        built: Result<(), BuildError>,
    ) -> bool {
        self.rebuilds(before, left, after, built)
    }

    fn body(&mut self, cx: &mut Context<D, Self>) -> (built: Result<(), BuildError>) {
        Binding::body(self, cx)
    }
}

} // verus!
