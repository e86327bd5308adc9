//! Witnesses: what the registry keeps of a lens on a model, to tell when the
//! value behind the lens has changed and whom to tell.

use vstd::prelude::*;
use crate::entity::Entity;
use crate::state::data::Data;
use crate::state::lens::Lens;
use crate::state::model::Holds;
use crate::tree::without;

verus! {

/// What a witness answers when it is shown a model.
#[derive(Clone, Copy, PartialEq, Eq, Structural, Debug)]
pub enum Seen {
    /// The lens shows another value of the model than the witness saw last.
    Changed,
    /// The lens shows the value that the witness saw last.
    Unchanged,
    /// The model is of another type than the source of the lens: the
    /// witness has not looked at it.
    DowncastFailure,
}

/// A witness of a lens, whatever the type of the lens: what the store of a
/// node needs of it. `D` is the form in which the node stores its models.
///
/// The five spec functions say what an implementation keeps. Their defaults
/// are arbitrary values: an implementation that is not verified leaves them
/// out.
pub trait LensWrap<D> {
    /// The entity that declared the binding which made this witness.
    open spec fn declared_by(&self) -> Entity {
        arbitrary()
    }

    /// The entities that are told of a change, in the order they came.
    open spec fn observer_seq(&self) -> Seq<Entity> {
        arbitrary()
    }

    /// Whether `model` is of the type that the lens looks at.
    open spec fn fits(&self, model: D) -> bool {
        arbitrary()
    }

    /// Whether `model` shows, through the lens, another value than the one
    /// the witness saw last. A model of another type than the source of the
    /// lens is never stale.
    open spec fn stale(&self, model: D) -> bool {
        arbitrary()
    }

    /// Whether the lens shows the same of `a` and of `b`. Models of another
    /// type than the source of the lens agree with every model.
    open spec fn agree(&self, a: D, b: D) -> bool {
        arbitrary()
    }

    /// Looks at `model` through the lens. Where the value differs from the
    /// one seen last, the witness keeps the new value and answers
    /// `Changed`. A model of another type than the source of the lens is
    /// reported as such, and the witness stays as it was.
    fn update(&mut self, model: &D) -> (seen: Seen)
        ensures
            seen == (if !old(self).fits(*model) {
                Seen::DowncastFailure
            } else if old(self).stale(*model) {
                Seen::Changed
            } else {
                Seen::Unchanged
            }),
            (seen is Changed) == old(self).stale(*model),
            !final(self).stale(*model),
            final(self).declared_by() == old(self).declared_by(),
            final(self).observer_seq() == old(self).observer_seq(),
            forall|m: D| final(self).fits(m) == old(self).fits(m),
            forall|a: D, b: D| final(self).agree(a, b) == old(self).agree(a, b),
            forall|b: D|
                #[trigger] final(self).stale(b) == (if seen is Changed {
                    !old(self).agree(*model, b)
                } else {
                    old(self).stale(b)
                }),
    ;

    /// The entities that are told of a change, in the order they came.
    fn observers(&self) -> (observers: &Vec<Entity>)
        ensures
            observers@ == self.observer_seq(),
    ;

    /// Adds `observer` to the entities that are told of a change, unless it
    /// is among them.
    fn add_observer(&mut self, observer: Entity)
        ensures
            final(self).observer_seq() == (if old(self).observer_seq().contains(observer) {
                old(self).observer_seq()
            } else {
                old(self).observer_seq().push(observer)
            }),
            final(self).declared_by() == old(self).declared_by(),
            forall|m: D| final(self).fits(m) == old(self).fits(m),
            forall|a: D, b: D| final(self).agree(a, b) == old(self).agree(a, b),
            forall|b: D| final(self).stale(b) == old(self).stale(b),
    ;

    /// Takes `observer` out of the entities that are told of a change.
    fn remove_observer(&mut self, observer: Entity)
        ensures
            final(self).observer_seq() == without(old(self).observer_seq(), observer),
            final(self).declared_by() == old(self).declared_by(),
            forall|m: D| final(self).fits(m) == old(self).fits(m),
            forall|a: D, b: D| final(self).agree(a, b) == old(self).agree(a, b),
            forall|b: D| final(self).stale(b) == old(self).stale(b),
    ;

    /// The entity that declared the binding which made this witness.
    fn entity(&self) -> (entity: Entity)
        ensures
            entity == self.declared_by(),
    ;
}

/// What `lens` shows of `source`, as a value: nothing where the lens does not
/// cover the source.
pub open spec fn shown<L: Lens>(lens: L, source: L::Source) -> Option<
    <L::Target as Data>::Value,
> where L::Target: Data {
    if lens.covers(source) {
        Some(lens.project(source).value())
    } else {
        None
    }
}

/// Whether `observer` is among `observers`.
pub fn is_observer(observers: &Vec<Entity>, observer: Entity) -> (found: bool)
    ensures
        found == observers@.contains(observer),
{
    let mut i: usize = 0;
    while i < observers.len()
        invariant
            i <= observers@.len(),
            forall|j: int| 0 <= j < i ==> observers@[j] != observer,
        decreases observers@.len() - i,
    {
        if observers[i] == observer {
            return true;
        }
        i = i + 1;
    }
    false
}

/// The entities of `observers` in their order, without `observer`.
pub fn remove_from(observers: &Vec<Entity>, observer: Entity) -> (kept: Vec<Entity>)
    ensures
        kept@ == without(observers@, observer),
{
    let mut kept: Vec<Entity> = Vec::new();
    let mut i: usize = 0;
    while i < observers.len()
        invariant
            i <= observers@.len(),
            kept@ == without(observers@.take(i as int), observer),
        decreases observers@.len() - i,
    {
        assert(observers@.take(i + 1).drop_last() =~= observers@.take(i as int));
        if observers[i] != observer {
            kept.push(observers[i]);
        }
        i = i + 1;
    }
    assert(observers@.take(i as int) =~= observers@);
    kept
}

/// The witness of a lens of type `L`: the lens, the value it showed when the
/// witness last looked, and the entities that depend on it.
pub struct StateStore<L: Lens> where L::Target: Data {
    /// The entity which declared the binding.
    pub entity: Entity,
    pub lens: L,
    /// The value that the lens showed last; `None` where it covered nothing.
    pub old: Option<L::Target>,
    pub observers: Vec<Entity>,
}

impl<L: Lens> StateStore<L> where L::Target: Data {
    /// The value that the witness saw last.
    pub open spec fn last_seen(&self) -> Option<<L::Target as Data>::Value> {
        match self.old {
            Some(old) => Some(old.value()),
            None => None,
        }
    }

    /// The witness that `entity` makes of `lens` on `source`: it has seen what
    /// the lens shows of `source`, and `entity` is its one observer.
    pub fn new(entity: Entity, lens: L, source: &L::Source) -> (store: Self)
        ensures
            store.entity == entity,
            store.lens == lens,
            store.last_seen() == shown(lens, *source),
            store.observers@ == seq![entity],
    {
        let old = if lens.applies(source) {
            Some(lens.view(source).clone_data())
        } else {
            None
        };
        let mut observers: Vec<Entity> = Vec::new();
        observers.push(entity);
        StateStore { entity, lens, old, observers }
    }

    /// Looks at `source` through the lens. Where the value differs from the
    /// one seen last, the witness keeps the new value and answers `true`.
    pub fn refresh(&mut self, source: &L::Source) -> (changed: bool)
        ensures
            changed == (shown(old(self).lens, *source) != old(self).last_seen()),
            final(self).last_seen() == shown(old(self).lens, *source),
            final(self).lens == old(self).lens,
            final(self).entity == old(self).entity,
            final(self).observers == old(self).observers,
            !changed ==> final(self).old == old(self).old,
    {
        if self.lens.applies(source) {
            let state = self.lens.view(source);
            let changed = match &self.old {
                Some(old) => !state.same(old),
                None => true,
            };
            if changed {
                self.old = Some(state.clone_data());
            }
            changed
        } else {
            let changed = self.old.is_some();
            self.old = None;
            changed
        }
    }
}

impl<D: Holds<L::Source>, L: Lens> LensWrap<D> for StateStore<L> where L::Target: Data {
    open spec fn declared_by(&self) -> Entity {
        self.entity
    }

    open spec fn observer_seq(&self) -> Seq<Entity> {
        self.observers@
    }

    open spec fn fits(&self, model: D) -> bool {
        model.held() is Some
    }

    open spec fn stale(&self, model: D) -> bool {
        match model.held() {
            Some(source) => shown(self.lens, source) != self.last_seen(),
            None => false,
        }
    }

    open spec fn agree(&self, a: D, b: D) -> bool {
        match (a.held(), b.held()) {
            (Some(x), Some(y)) => shown(self.lens, x) == shown(self.lens, y),
            _ => true,
        }
    }

    fn update(&mut self, model: &D) -> (seen: Seen)
        ensures
            final(self).lens == old(self).lens,
            final(self).entity == old(self).entity,
            final(self).observers == old(self).observers,
            final(self).last_seen() == (match model.held() {
                Some(source) => shown(old(self).lens, source),
                None => old(self).last_seen(),
            }),
            model.held() is None ==> *final(self) == *old(self),
            seen is Unchanged ==> final(self).old == old(self).old,
    {
        match model.downcast_ref() {
            Some(data) => if self.refresh(data) {
                Seen::Changed
            } else {
                Seen::Unchanged
            },
            None => Seen::DowncastFailure,
        }
    }

    fn observers(&self) -> (observers: &Vec<Entity>) {
        &self.observers
    }

    fn add_observer(&mut self, observer: Entity)
        ensures
            final(self).lens == old(self).lens,
            final(self).old == old(self).old,
            final(self).entity == old(self).entity,
    {
        if !is_observer(&self.observers, observer) {
            self.observers.push(observer);
        }
    }

    fn remove_observer(&mut self, observer: Entity)
        ensures
            final(self).lens == old(self).lens,
            final(self).old == old(self).old,
            final(self).entity == old(self).entity,
    {
        self.observers = remove_from(&self.observers, observer);
    }

    fn entity(&self) -> (entity: Entity) {
        self.entity
    }
}

/// What a witness answers to each of a row of states of its model, one
/// after the other, when it has seen `seen` before the first.
pub open spec fn answers<L: Lens>(
    lens: L,
    seen: Option<<L::Target as Data>::Value>,
    states: Seq<L::Source>,
) -> Seq<bool> where L::Target: Data
    decreases states.len(),
{
    if states.len() == 0 {
        Seq::empty()
    } else {
        seq![shown(lens, states[0]) != seen] + answers(
            lens,
            shown(lens, states[0]),
            states.drop_first(),
        )
    }
}

/// Change detection misses nothing and makes nothing up: over any row of
/// states of a model, a witness answers `true` to a state exactly when the
/// lens shows another value of it than of the state before.
pub proof fn lemma_answers_tell_changes<L: Lens>(
    lens: L,
    before: L::Source,
    states: Seq<L::Source>,
    i: int,
) where L::Target: Data
    requires
        0 <= i < states.len(),
    ensures
        answers(lens, shown(lens, before), states).len() == states.len(),
        answers(lens, shown(lens, before), states)[i] == (shown(lens, states[i]) != shown(
            lens,
            if i == 0 {
                before
            } else {
                states[i - 1]
            },
        )),
    decreases states.len(),
{
    lemma_answers_len(lens, shown(lens, before), states);
    if i > 0 {
        let rest = states.drop_first();
        lemma_answers_len(lens, shown(lens, states[0]), rest);
        lemma_answers_tell_changes(lens, states[0], rest, i - 1);
        assert(rest[i - 1] == states[i]);
        if i > 1 {
            assert(rest[i - 2] == states[i - 1]);
        }
    }
}

proof fn lemma_answers_len<L: Lens>(
    lens: L,
    seen: Option<<L::Target as Data>::Value>,
    states: Seq<L::Source>,
) where L::Target: Data
    ensures
        answers(lens, seen, states).len() == states.len(),
    decreases states.len(),
{
    if states.len() > 0 {
        lemma_answers_len(lens, shown(lens, states[0]), states.drop_first());
    }
}

} // verus!
