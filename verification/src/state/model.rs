//! Models: the typed state of the application, and the form in which a node
//! of the tree stores it.

use vstd::prelude::*;
use crate::entity::Entity;
use crate::context::Context;
use crate::events::{Event, EventContext};
use crate::state::registry::{lemma_model_place, lemma_model_place_found, model_place};

verus! {

/// The tag that tells one type of model from another. Each type of model
/// chooses its own; two types of one application choose different tags.
pub type TypeTag = u64;

/// What handling an event makes of a model.
pub struct Reaction<S, M> {
    /// The model after the event.
    pub model: S,
    /// The events that the model sent, in the order it sent them.
    pub emitted: Seq<Event<M>>,
    /// Whether the event is dealt with once the model has handled it.
    pub consumed: bool,
}

/// The state of an application, or a part of it: a value that is stored at a
/// node of the tree, handles the events that pass the node, and is read
/// through lenses.
///
/// The two spec functions say what an implementation does. Their defaults
/// are arbitrary values: an implementation that is not verified leaves them
/// out.
pub trait Model: Sized + 'static {
    /// What an event carries to the models of this application.
    type Message;

    /// The tag of this type of model.
    open spec fn tag_spec() -> TypeTag {
        arbitrary()
    }

    /// What the model makes of `event` when it handles it on the node
    /// `current`.
    open spec fn reaction(self, current: Entity, event: Event<Self::Message>) -> Reaction<
        Self,
        Self::Message,
    > {
        arbitrary()
    }

    fn type_tag() -> (tag: TypeTag)
        ensures
            tag == Self::tag_spec(),
    ;

    /// Handles `event`: the model may change itself, send further events
    /// through `cx`, and mark the event as consumed. It leaves the message
    /// and the target of the event alone.
    fn event(&mut self, cx: &mut EventContext<Self::Message>, event: &mut Event<Self::Message>)
        ensures
            *final(self) == old(self).reaction(old(cx).current(), *old(event)).model,
            final(cx).current() == old(cx).current(),
            final(cx).pending() == old(cx).pending() + old(self).reaction(
                old(cx).current(),
                *old(event),
            ).emitted,
            *final(event) == (Event {
                message: old(event).message,
                target: old(event).target,
                consumed: old(self).reaction(old(cx).current(), *old(event)).consumed,
            }),
    ;

    /// Attaches the model to the current node of `cx`, in the form in which
    /// nodes store models. Where the node holds a model of the same type, the
    /// new model takes its place, and the old one is handed back. From then
    /// on the node is found to hold the model.
    ///
    /// A stored form that does not carry the tag of the type of the model
    /// would never be found again: it is not attached, and comes back as the
    /// error. A model that is stored as itself is always attached.
    fn build<D: ModelData + Holds<Self>, V>(self, cx: &mut Context<D, V>) -> (attached: Result<
        Option<D>,
        D,
    >)
        requires
            old(cx).wf(),
        ensures
            final(cx).wf(),
            final(cx).tree() == old(cx).tree(),
            final(cx).current() == old(cx).current(),
            final(cx).count() == old(cx).count(),
            final(cx).pending() == old(cx).pending(),
            final(cx).slots().len() == old(cx).slots().len(),
            forall|e: Entity|
                e != old(cx).current() && e.spec_index() < old(cx).slots().len()
                    ==> #[trigger] final(cx).slot(e) == old(cx).slot(e),
            final(cx).slot(old(cx).current()).view == old(cx).slot(old(cx).current()).view,
            final(cx).slot(old(cx).current()).style == old(cx).slot(old(cx).current()).style,
            final(cx).slot(old(cx).current()).store.lenses == old(cx).slot(
                old(cx).current(),
            ).store.lenses,
            exists|stored: D|
                {
                    &&& #[trigger] stored.held() == Some(self)
                    &&& if stored.tag() != Self::tag_spec() {
                        &&& attached == Err::<Option<D>, D>(stored)
                        &&& *final(cx) == *old(cx)
                    } else {
                        match model_place(
                            old(cx).slot(old(cx).current()).store.data@,
                            Self::tag_spec(),
                            0,
                        ) {
                            Some(i) => {
                                &&& final(cx).slot(old(cx).current()).store.data@ == old(
                                    cx,
                                ).slot(old(cx).current()).store.data@.update(i, stored)
                                &&& attached == Ok::<Option<D>, D>(
                                    Some(old(cx).slot(old(cx).current()).store.data@[i]),
                                )
                            },
                            None => {
                                &&& final(cx).slot(old(cx).current()).store.data@ == old(
                                    cx,
                                ).slot(old(cx).current()).store.data@.push(stored)
                                &&& attached == Ok::<Option<D>, D>(None)
                            },
                        }
                    }
                },
            attached is Ok ==> (model_place(
                final(cx).slot(old(cx).current()).store.data@,
                Self::tag_spec(),
                0,
            ) matches Some(i) && final(cx).slot(old(cx).current()).store.data@[i].held() == Some(
                self,
            )),
    {
        let stored = D::upcast(self);
        if ModelData::type_tag(&stored) != <Self as Model>::type_tag() {
            return Err(stored);
        }
        let ghost kept = stored;
        let ghost before = cx.slot(cx.current()).store.data@;
        let replaced = cx.attach(stored);
        proof {
            let after = cx.slot(cx.current()).store.data@;
            lemma_model_place(before, Self::tag_spec(), 0);
            match model_place(before, Self::tag_spec(), 0) {
                Some(i) => {
                    lemma_model_place_found(after, Self::tag_spec(), 0, i);
                },
                None => {
                    lemma_model_place_found(after, Self::tag_spec(), 0, before.len() as int);
                },
            }
            assert(kept.held() == Some(self));
        }
        Ok(replaced)
    }
}

/// The model that holds nothing and lets every event pass.
impl Model for () {
    type Message = ();

    open spec fn tag_spec() -> TypeTag {
        0
    }

    open spec fn reaction(self, current: Entity, event: Event<()>) -> Reaction<(), ()> {
        Reaction { model: (), emitted: Seq::empty(), consumed: event.consumed }
    }

    fn type_tag() -> (tag: TypeTag) {
        0
    }

    fn event(&mut self, cx: &mut EventContext<()>, event: &mut Event<()>) {
        assert(cx.pending() + Seq::<Event<()>>::empty() =~= cx.pending());
    }
}

/// A model as a node stores it: one type that stands for every type of model
/// of the application. An application with one type of model uses that type;
/// one with several uses an enum of them.
///
/// The spec functions say what an implementation does. Their defaults are
/// arbitrary values: an implementation that is not verified leaves them out.
pub trait ModelData: Sized {
    /// What an event carries to the models of this application.
    type Message;

    /// The tag of the type of the model that this value holds.
    open spec fn tag(&self) -> TypeTag {
        arbitrary()
    }

    /// What the model makes of `event` when it handles it on the node
    /// `current`.
    open spec fn reaction(self, current: Entity, event: Event<Self::Message>) -> Reaction<
        Self,
        Self::Message,
    > {
        arbitrary()
    }

    fn type_tag(&self) -> (tag: TypeTag)
        ensures
            tag == self.tag(),
    ;

    /// Handles `event`, as `Model::event` does. The model that is held stays
    /// of the same type.
    fn event(&mut self, cx: &mut EventContext<Self::Message>, event: &mut Event<Self::Message>)
        ensures
            *final(self) == old(self).reaction(old(cx).current(), *old(event)).model,
            final(self).tag() == old(self).tag(),
            final(cx).current() == old(cx).current(),
            final(cx).pending() == old(cx).pending() + old(self).reaction(
                old(cx).current(),
                *old(event),
            ).emitted,
            *final(event) == (Event {
                message: old(event).message,
                target: old(event).target,
                consumed: old(self).reaction(old(cx).current(), *old(event)).consumed,
            }),
    ;
}

impl<T: Model> ModelData for T {
    type Message = T::Message;

    open spec fn tag(&self) -> TypeTag {
        T::tag_spec()
    }

    open spec fn reaction(self, current: Entity, event: Event<Self::Message>) -> Reaction<
        Self,
        Self::Message,
    > {
        Model::reaction(self, current, event)
    }

    fn type_tag(&self) -> (tag: TypeTag) {
        T::type_tag()
    }

    fn event(&mut self, cx: &mut EventContext<Self::Message>, event: &mut Event<Self::Message>) {
        Model::event(self, cx, event)
    }
}

/// A type that can hold a value of type `T` and hand it out again: the
/// checked way from the form in which a model is stored to the model itself.
pub trait Holds<T>: Sized {
    /// The value of type `T` that is held, if it is one.
    open spec fn held(&self) -> Option<T> {
        arbitrary()
    }

    /// The value that is held, if it is of type `T`.
    fn downcast_ref(&self) -> (value: Option<&T>)
        ensures
            match value {
                Some(v) => self.held() == Some(*v),
                None => self.held() is None,
            },
    ;

    /// Holds `value`.
    fn upcast(value: T) -> (holder: Self)
        ensures
            holder.held() == Some(value),
    ;
}

impl<T> Holds<T> for T {
    open spec fn held(&self) -> Option<T> {
        Some(*self)
    }

    fn downcast_ref(&self) -> (value: Option<&T>) {
        Some(self)
    }

    fn upcast(value: T) -> (holder: Self) {
        value
    }
}

} // verus!
