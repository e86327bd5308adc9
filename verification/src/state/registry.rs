//! The store of a node: the models that are attached to it, and the
//! witnesses of the lenses that look at them.

use vstd::prelude::*;
use crate::entity::Entity;
use crate::events::{Event, EventContext};
use crate::state::model::{Holds, Model, ModelData, TypeTag};
use crate::state::data::Data;
use crate::state::lens::Lens;
use crate::state::store::{is_observer, shown, LensWrap, Seen, StateStore};
use crate::tree::{lemma_without_keeps_apart, without};

verus! {

/// A witness, under the tag of the type of its lens.
#[verifier::reject_recursive_types(D)]
pub struct LensEntry<D> {
    pub key: Vec<u64>,
    pub wrap: Box<dyn LensWrap<D>>,
}

impl<D> LensEntry<D> {
    /// The entry that holds the witness `store` under the tag of its lens.
    pub fn new<L: Lens + 'static>(store: StateStore<L>) -> (entry: Self) where
        D: Holds<L::Source>,
        L::Target: Data,

        ensures
            entry.key@ == L::tag_spec(),
            entry.wrap.declared_by() == store.entity,
            entry.wrap.observer_seq() == store.observers@,
            forall|m: D| #[trigger] entry.wrap.stale(m) == LensWrap::<D>::stale(&store, m),
            forall|a: D, b: D| #[trigger]
                entry.wrap.agree(a, b) == LensWrap::<D>::agree(&store, a, b),
    {
        LensEntry { key: L::tag(), wrap: Box::new(store) }
    }
}

/// What a node stores: at most one model of each type, and at most one
/// witness for each type of lens.
#[verifier::reject_recursive_types(D)]
pub struct ModelDataStore<D> {
    pub data: Vec<D>,
    pub lenses: Vec<LensEntry<D>>,
}

/// `acc`, followed by the entities of `more` from place `from` on that are not
/// in it yet, in their order.
pub open spec fn with_all(acc: Seq<Entity>, more: Seq<Entity>, from: int) -> Seq<Entity>
    decreases more.len() - from,
{
    if from < 0 || from >= more.len() {
        acc
    } else if acc.contains(more[from]) {
        with_all(acc, more, from + 1)
    } else {
        with_all(acc.push(more[from]), more, from + 1)
    }
}

/// Adds to `dirty` the entities of `more` that are not in it yet.
pub fn mark_all(dirty: &mut Vec<Entity>, more: &Vec<Entity>)
    ensures
        final(dirty)@ == with_all(old(dirty)@, more@, 0),
{
    let mut i: usize = 0;
    while i < more.len()
        invariant
            i <= more@.len(),
            with_all(old(dirty)@, more@, 0) == with_all(dirty@, more@, i as int),
        decreases more@.len() - i,
    {
        let e = more[i];
        if !is_observer(dirty, e) {
            dirty.push(e);
        }
        i = i + 1;
    }
}

/// The place of the first model with the tag `tag` in `data`, from place
/// `from` on.
pub open spec fn model_place<D: ModelData>(data: Seq<D>, tag: TypeTag, from: int) -> Option<int>
    decreases data.len() - from,
{
    if from < 0 || from >= data.len() {
        None
    } else if data[from].tag() == tag {
        Some(from)
    } else {
        model_place(data, tag, from + 1)
    }
}

/// The place of a model that has the tag `tag`, and before which, from place
/// `from` on, no model has it, is the place of the first model with the tag.
pub proof fn lemma_model_place_found<D: ModelData>(data: Seq<D>, tag: TypeTag, from: int, i: int)
    requires
        0 <= from <= i < data.len(),
        data[i].tag() == tag,
        forall|j: int| from <= j < i ==> (#[trigger] data[j]).tag() != tag,
    ensures
        model_place(data, tag, from) == Some(i),
    decreases i - from,
{
    if from < i {
        lemma_model_place_found(data, tag, from + 1, i);
    }
}

/// The place of the first witness with the key `key` in `lenses`, from place
/// `from` on.
pub open spec fn lens_place<D>(lenses: Seq<LensEntry<D>>, key: Seq<u64>, from: int) -> Option<int>
    decreases lenses.len() - from,
{
    if from < 0 || from >= lenses.len() {
        None
    } else if lenses[from].key@ == key {
        Some(from)
    } else {
        lens_place(lenses, key, from + 1)
    }
}

/// Where `model_place` finds a model, it has the tag asked for and no model
/// before it has; where it finds none, no model from `from` on has the tag.
pub proof fn lemma_model_place<D: ModelData>(data: Seq<D>, tag: TypeTag, from: int)
    requires
        0 <= from,
    ensures
        match model_place(data, tag, from) {
            Some(i) => {
                &&& from <= i < data.len()
                &&& data[i].tag() == tag
                &&& forall|j: int| from <= j < i ==> (#[trigger] data[j]).tag() != tag
            },
            None => forall|j: int| from <= j < data.len() ==> (#[trigger] data[j]).tag() != tag,
        },
    decreases data.len() - from,
{
    if from < data.len() && data[from].tag() != tag {
        lemma_model_place(data, tag, from + 1);
    }
}

/// Where `lens_place` finds a witness, it has the key asked for and no
/// witness before it has; where it finds none, no witness from `from` on has
/// the key.
pub proof fn lemma_lens_place<D>(lenses: Seq<LensEntry<D>>, key: Seq<u64>, from: int)
    requires
        0 <= from,
    ensures
        match lens_place(lenses, key, from) {
            Some(i) => {
                &&& from <= i < lenses.len()
                &&& lenses[i].key@ == key
                &&& forall|j: int| from <= j < i ==> (#[trigger] lenses[j]).key@ != key
            },
            None => forall|j: int|
                from <= j < lenses.len() ==> (#[trigger] lenses[j]).key@ != key,
        },
    decreases lenses.len() - from,
{
    if from < lenses.len() && lenses[from].key@ != key {
        lemma_lens_place(lenses, key, from + 1);
    }
}

/// The place of a witness that has the key `key`, and before which, from
/// place `from` on, no witness has it, is the place of the first witness with
/// the key.
pub proof fn lemma_lens_place_found<D>(lenses: Seq<LensEntry<D>>, key: Seq<u64>, from: int, i: int)
    requires
        0 <= from <= i < lenses.len(),
        lenses[i].key@ == key,
        forall|j: int| from <= j < i ==> (#[trigger] lenses[j]).key@ != key,
    ensures
        lens_place(lenses, key, from) == Some(i),
    decreases i - from,
{
    if from < i {
        lemma_lens_place_found(lenses, key, from + 1, i);
    }
}

/// Whether two tags of lenses are the same.
pub fn same_key(a: &Vec<u64>, b: &Vec<u64>) -> (same: bool)
    ensures
        same == (a@ == b@),
{
    if a.len() != b.len() {
        return false;
    }
    let mut i: usize = 0;
    while i < a.len()
        invariant
            a@.len() == b@.len(),
            i <= a@.len(),
            forall|j: int| 0 <= j < i ==> a@[j] == b@[j],
        decreases a@.len() - i,
    {
        if a[i] != b[i] {
            return false;
        }
        i = i + 1;
    }
    assert(a@ =~= b@);
    true
}

/// Whether the witness `w`, which has been shown the model `anchor` since it
/// was `w` (or none, where `anchor` is `None`), would find `model` changed.
pub open spec fn stale_since<D>(w: LensEntry<D>, anchor: Option<D>, model: D) -> bool {
    match anchor {
        Some(seen) => !w.wrap.agree(seen, model),
        None => w.wrap.stale(model),
    }
}

/// `now` is what `then` has become by being shown `anchor` (or nothing, where
/// `anchor` is `None`): it has the key, the declaring entity and the observers
/// of `then`, and it has seen last what `anchor` shows.
pub open spec fn shown_since<D>(then: LensEntry<D>, now: LensEntry<D>, anchor: Option<D>) -> bool {
    &&& now.key@ == then.key@
    &&& now.wrap.declared_by() == then.wrap.declared_by()
    &&& now.wrap.observer_seq() == then.wrap.observer_seq()
    &&& forall|a: D, b: D| now.wrap.agree(a, b) == then.wrap.agree(a, b)
    &&& forall|b: D| #[trigger] now.wrap.stale(b) == stale_since(then, anchor, b)
}

/// What change detection makes of the witnesses and of the list of entities
/// to rebuild.
pub struct Detection<D> {
    /// For each witness, the model it was shown last since the start.
    pub anchors: Seq<Option<D>>,
    /// The entities to rebuild.
    pub dirty: Seq<Entity>,
}

/// Change detection for `model` over the witnesses from place `from` on: each
/// witness that finds the model changed has seen it from then on, and its
/// observers are added to the entities to rebuild.
pub open spec fn detected<D>(
    lenses: Seq<LensEntry<D>>,
    model: D,
    from: int,
    so_far: Detection<D>,
) -> Detection<D>
    decreases lenses.len() - from,
{
    if from < 0 || from >= lenses.len() || from >= so_far.anchors.len() {
        so_far
    } else if stale_since(lenses[from], so_far.anchors[from], model) {
        detected(
            lenses,
            model,
            from + 1,
            Detection {
                anchors: so_far.anchors.update(from, Some(model)),
                dirty: with_all(so_far.dirty, lenses[from].wrap.observer_seq(), 0),
            },
        )
    } else {
        detected(lenses, model, from + 1, so_far)
    }
}

/// Change detection keeps one anchor for each witness.
pub proof fn lemma_detected_len<D>(
    lenses: Seq<LensEntry<D>>,
    model: D,
    from: int,
    so_far: Detection<D>,
)
    ensures
        detected(lenses, model, from, so_far).anchors.len() == so_far.anchors.len(),
    decreases lenses.len() - from,
{
    if !(from < 0 || from >= lenses.len() || from >= so_far.anchors.len()) {
        if stale_since(lenses[from], so_far.anchors[from], model) {
            lemma_detected_len(
                lenses,
                model,
                from + 1,
                Detection {
                    anchors: so_far.anchors.update(from, Some(model)),
                    dirty: with_all(so_far.dirty, lenses[from].wrap.observer_seq(), 0),
                },
            );
        } else {
            lemma_detected_len(lenses, model, from + 1, so_far);
        }
    }
}

/// What handling an event makes of the store of a node.
pub struct StoreOutcome<D: ModelData> {
    /// The models, as the event left them.
    pub data: Seq<D>,
    /// The event, consumed or not.
    pub event: Event<D::Message>,
    /// The queue of the events that wait.
    pub queue: Seq<Event<D::Message>>,
    /// The witnesses and the entities to rebuild.
    pub detection: Detection<D>,
}

/// The models of a store from place `from` on handle `event` on the node
/// `current`, one after the other, until one of them consumes it. After each
/// model, change detection runs for it.
pub open spec fn store_handled<D: ModelData>(
    lenses: Seq<LensEntry<D>>,
    current: Entity,
    from: int,
    so_far: StoreOutcome<D>,
) -> StoreOutcome<D>
    decreases so_far.data.len() - from,
{
    if from < 0 || from >= so_far.data.len() || so_far.event.consumed {
        so_far
    } else {
        let reaction = so_far.data[from].reaction(current, so_far.event);
        store_handled(
            lenses,
            current,
            from + 1,
            StoreOutcome {
                data: so_far.data.update(from, reaction.model),
                event: Event {
                    message: so_far.event.message,
                    target: so_far.event.target,
                    consumed: reaction.consumed,
                },
                queue: so_far.queue + reaction.emitted,
                detection: detected(lenses, reaction.model, 0, so_far.detection),
            },
        )
    }
}

/// Handling an event keeps the number of models and of anchors.
pub proof fn lemma_store_handled_len<D: ModelData>(
    lenses: Seq<LensEntry<D>>,
    current: Entity,
    from: int,
    so_far: StoreOutcome<D>,
)
    ensures
        store_handled(lenses, current, from, so_far).data.len() == so_far.data.len(),
        store_handled(lenses, current, from, so_far).detection.anchors.len()
            == so_far.detection.anchors.len(),
        store_handled(lenses, current, from, so_far).event.message == so_far.event.message,
        store_handled(lenses, current, from, so_far).event.target == so_far.event.target,
    decreases so_far.data.len() - from,
{
    if !(from < 0 || from >= so_far.data.len() || so_far.event.consumed) {
        let reaction = so_far.data[from].reaction(current, so_far.event);
        let next = StoreOutcome {
            data: so_far.data.update(from, reaction.model),
            event: Event {
                message: so_far.event.message,
                target: so_far.event.target,
                consumed: reaction.consumed,
            },
            queue: so_far.queue + reaction.emitted,
            detection: detected(lenses, reaction.model, 0, so_far.detection),
        };
        lemma_detected_len(lenses, reaction.model, 0, so_far.detection);
        lemma_store_handled_len(lenses, current, from + 1, next);
    }
}

/// What became of a binding that asked to observe a lens.
#[derive(Clone, Copy, PartialEq, Eq, Structural, Debug)]
pub enum Registration {
    /// The binding observes the lens: it is rebuilt when the value behind the
    /// lens changes.
    Observing,
    /// A node above the binding observes the lens already. When the value
    /// changes, that node is rebuilt, and the binding with it: the binding is
    /// not told itself.
    Covered,
    /// No node on the way up holds a model of the type that the lens looks
    /// at: the binding is never told of anything.
    MissingModel,
    /// A model with the tag of that type was found, but it is not of that
    /// type: the binding is never told of anything.
    DowncastFailure,
}

/// Whether one of `ancestors` is among `observers`.
pub open spec fn covered(observers: Seq<Entity>, ancestors: Seq<Entity>) -> bool {
    exists|i: int| 0 <= i < ancestors.len() && observers.contains(#[trigger] ancestors[i])
}

/// Whether one of `ancestors` is among `observers`.
pub fn any_observer(observers: &Vec<Entity>, ancestors: &Vec<Entity>) -> (found: bool)
    ensures
        found == covered(observers@, ancestors@),
{
    let mut i: usize = 0;
    while i < ancestors.len()
        invariant
            i <= ancestors@.len(),
            forall|k: int| 0 <= k < i ==> !observers@.contains(#[trigger] ancestors@[k]),
        decreases ancestors@.len() - i,
    {
        if is_observer(observers, ancestors[i]) {
            return true;
        }
        i = i + 1;
    }
    false
}

/// `now` is `then` with `observer` among its observers: behind those that
/// were there, unless it was one of them.
pub open spec fn with_observer<D>(then: LensEntry<D>, now: LensEntry<D>, observer: Entity) -> bool {
    &&& now.key@ == then.key@
    &&& now.wrap.declared_by() == then.wrap.declared_by()
    &&& now.wrap.observer_seq() == (if then.wrap.observer_seq().contains(observer) {
        then.wrap.observer_seq()
    } else {
        then.wrap.observer_seq().push(observer)
    })
    &&& forall|a: D, b: D| now.wrap.agree(a, b) == then.wrap.agree(a, b)
    &&& forall|b: D| now.wrap.stale(b) == then.wrap.stale(b)
}

/// `now` is `then` without `observer` among its observers.
pub open spec fn without_observer<D>(
    then: LensEntry<D>,
    now: LensEntry<D>,
    observer: Entity,
) -> bool {
    &&& now.key@ == then.key@
    &&& now.wrap.declared_by() == then.wrap.declared_by()
    &&& now.wrap.observer_seq() == without(then.wrap.observer_seq(), observer)
    &&& forall|a: D, b: D| now.wrap.agree(a, b) == then.wrap.agree(a, b)
    &&& forall|b: D| now.wrap.stale(b) == then.wrap.stale(b)
}

/// `entry` is the witness that `id` makes of `lens` on `source`: it stands
/// under the tag of the lens, `id` declared it and is its one observer, and
/// it has seen what the lens shows of `source`.
pub open spec fn fresh_witness<D: Holds<L::Source>, L: Lens>(
    entry: LensEntry<D>,
    id: Entity,
    lens: L,
    source: L::Source,
) -> bool where L::Target: Data {
    &&& entry.key@ == L::tag_spec()
    &&& entry.wrap.declared_by() == id
    &&& entry.wrap.observer_seq() == seq![id]
    &&& forall|m: D| #[trigger]
        entry.wrap.stale(m) == (match m.held() {
            Some(s) => shown(lens, s) != shown(lens, source),
            None => false,
        })
    &&& forall|a: D, b: D| #[trigger]
        entry.wrap.agree(a, b) == (match (a.held(), b.held()) {
            (Some(x), Some(y)) => shown(lens, x) == shown(lens, y),
            _ => true,
        })
}

/// The models of a store put what they emit behind the events that wait:
/// the queue from before is the head of the queue after.
pub proof fn lemma_store_handled_queue<D: ModelData>(
    lenses: Seq<LensEntry<D>>,
    current: Entity,
    from: int,
    so_far: StoreOutcome<D>,
)
    ensures
        so_far.queue.len() <= store_handled(lenses, current, from, so_far).queue.len(),
        store_handled(lenses, current, from, so_far).queue.subrange(
            0,
            so_far.queue.len() as int,
        ) == so_far.queue,
    decreases so_far.data.len() - from,
{
    if !(from < 0 || from >= so_far.data.len() || so_far.event.consumed) {
        let reaction = so_far.data[from].reaction(current, so_far.event);
        let next = StoreOutcome {
            data: so_far.data.update(from, reaction.model),
            event: Event {
                message: so_far.event.message,
                target: so_far.event.target,
                consumed: reaction.consumed,
            },
            queue: so_far.queue + reaction.emitted,
            detection: detected(lenses, reaction.model, 0, so_far.detection),
        };
        lemma_store_handled_queue(lenses, current, from + 1, next);
        let end = store_handled(lenses, current, from + 1, next);
        assert(end.queue.subrange(0, so_far.queue.len() as int) =~= end.queue.subrange(
            0,
            next.queue.len() as int,
        ).subrange(0, so_far.queue.len() as int));
        assert(next.queue.subrange(0, so_far.queue.len() as int) =~= so_far.queue);
    } else {
        assert(so_far.queue.subrange(0, so_far.queue.len() as int) =~= so_far.queue);
    }
}

/// Adding an entity to none makes a list of that entity alone.
pub proof fn lemma_with_all_of_one(observer: Entity)
    ensures
        with_all(Seq::empty(), seq![observer], 0) == seq![observer],
{
    reveal_with_fuel(with_all, 3);
    assert(Seq::<Entity>::empty().push(observer) =~= seq![observer]);
}

/// Where one binding, at `observer`, observes the one witness of a store,
/// change detection for a model answers with that binding when the witness
/// finds the model changed, and with nothing when it does not: no rebuild is
/// missed and none is made up.
pub proof fn lemma_single_binding_rebuilds_iff_changed<D>(
    witness: LensEntry<D>,
    observer: Entity,
    model: D,
)
    requires
        witness.wrap.observer_seq() == seq![observer],
    ensures
        detected(
            seq![witness],
            model,
            0,
            Detection { anchors: seq![None::<D>], dirty: Seq::empty() },
        ).dirty == (if witness.wrap.stale(model) {
            seq![observer]
        } else {
            Seq::<Entity>::empty()
        }),
{
    reveal_with_fuel(detected, 3);
    lemma_with_all_of_one(observer);
}

impl<D: ModelData> ModelDataStore<D> {
    /// No two models have the same tag, no two witnesses the same key, and
    /// no entity stands twice among the observers of a witness.
    pub open spec fn wf(&self) -> bool {
        &&& forall|i: int, j: int|
            0 <= i < j < self.data@.len() ==> (#[trigger] self.data@[i]).tag() != (
            #[trigger] self.data@[j]).tag()
        &&& forall|i: int, j: int|
            0 <= i < j < self.lenses@.len() ==> (#[trigger] self.lenses@[i]).key@ != (
            #[trigger] self.lenses@[j]).key@
        &&& forall|i: int|
            0 <= i < self.lenses@.len() ==> (
            #[trigger] self.lenses@[i]).wrap.observer_seq().no_duplicates()
    }

    /// The model of type `T` that the store holds.
    pub open spec fn typed<T: Model>(&self) -> Option<T> where D: Holds<T> {
        match model_place(self.data@, T::tag_spec(), 0) {
            Some(i) => self.data@[i].held(),
            None => None,
        }
    }

    /// A store that holds nothing.
    pub fn new() -> (store: Self)
        ensures
            store.wf(),
            store.data@.len() == 0,
            store.lenses@.len() == 0,
    {
        ModelDataStore { data: Vec::new(), lenses: Vec::new() }
    }

    /// The place of the model with the tag `tag`.
    pub fn find_model(&self, tag: TypeTag) -> (place: Option<usize>)
        ensures
            match place {
                Some(i) => model_place(self.data@, tag, 0) == Some(i as int),
                None => model_place(self.data@, tag, 0) is None,
            },
    {
        let mut i: usize = 0;
        while i < self.data.len()
            invariant
                i <= self.data@.len(),
                model_place(self.data@, tag, 0) == model_place(self.data@, tag, i as int),
            decreases self.data@.len() - i,
        {
            if self.data[i].type_tag() == tag {
                return Some(i);
            }
            i = i + 1;
        }
        None
    }

    /// The place of the witness with the key `key`.
    pub fn find_lens(&self, key: &Vec<u64>) -> (place: Option<usize>)
        ensures
            match place {
                Some(i) => lens_place(self.lenses@, key@, 0) == Some(i as int),
                None => lens_place(self.lenses@, key@, 0) is None,
            },
    {
        let mut i: usize = 0;
        while i < self.lenses.len()
            invariant
                i <= self.lenses@.len(),
                lens_place(self.lenses@, key@, 0) == lens_place(self.lenses@, key@, i as int),
            decreases self.lenses@.len() - i,
        {
            if same_key(&self.lenses[i].key, key) {
                return Some(i);
            }
            i = i + 1;
        }
        None
    }

    /// Attaches `model`. Where the store holds a model of the same type, the
    /// new model takes its place and the old one is handed back; the
    /// witnesses stay, and find the change when change detection runs next.
    pub fn attach(&mut self, model: D) -> (replaced: Option<D>)
        requires
            old(self).wf(),
        ensures
            final(self).wf(),
            final(self).lenses == old(self).lenses,
            match model_place(old(self).data@, model.tag(), 0) {
                Some(i) => {
                    &&& final(self).data@ == old(self).data@.update(i, model)
                    &&& replaced == Some(old(self).data@[i])
                },
                None => {
                    &&& final(self).data@ == old(self).data@.push(model)
                    &&& replaced is None
                },
            },
    {
        let tag = model.type_tag();
        proof {
            lemma_model_place(self.data@, tag, 0);
        }
        match self.find_model(tag) {
            Some(i) => {
                let mut model = model;
                core::mem::swap(&mut self.data[i], &mut model);
                Some(model)
            },
            None => {
                self.data.push(model);
                None
            },
        }
    }

    /// The model of type `T`, if the store holds one.
    pub fn lookup<T: Model>(&self) -> (model: Option<&T>) where D: Holds<T>
        ensures
            match model {
                Some(m) => self.typed::<T>() == Some(*m),
                None => self.typed::<T>() is None,
            },
    {
        proof {
            lemma_model_place(self.data@, T::tag_spec(), 0);
        }
        match self.find_model(T::type_tag()) {
            Some(i) => self.data[i].downcast_ref(),
            None => None,
        }
    }

    /// Puts `entry` into the store, in place of the witness that was there
    /// under the same key, if any.
    pub fn insert_lens(&mut self, entry: LensEntry<D>)
        requires
            old(self).wf(),
            entry.wrap.observer_seq().no_duplicates(),
        ensures
            final(self).wf(),
            final(self).data == old(self).data,
            match lens_place(old(self).lenses@, entry.key@, 0) {
                Some(i) => final(self).lenses@ == old(self).lenses@.update(i, entry),
                None => final(self).lenses@ == old(self).lenses@.push(entry),
            },
    {
        proof {
            lemma_lens_place(self.lenses@, entry.key@, 0);
        }
        let ghost before = self.lenses@;
        match self.find_lens(&entry.key) {
            Some(i) => {
                self.lenses.set(i, entry);
                proof {
                    assert forall|a: int, b: int| 0 <= a < b < self.lenses@.len() implies (
                    #[trigger] self.lenses@[a]).key@ != (#[trigger] self.lenses@[b]).key@ by {
                        assert(before[a].key@ != before[b].key@);
                    }
                }
            },
            None => {
                self.lenses.push(entry);
                proof {
                    assert forall|a: int, b: int| 0 <= a < b < self.lenses@.len() implies (
                    #[trigger] self.lenses@[a]).key@ != (#[trigger] self.lenses@[b]).key@ by {
                        if b < before.len() {
                            assert(before[a].key@ != before[b].key@);
                        } else {
                            assert(before[a].key@ != entry.key@);
                        }
                    }
                }
            },
        }
    }

    /// Change detection for the model at place `place`, on witnesses that
    /// were `then` at the start and have been shown `anchors` since.
    fn detect_into(
        &mut self,
        place: usize,
        dirty: &mut Vec<Entity>,
        Ghost(anchors): Ghost<Seq<Option<D>>>,
        Ghost(then): Ghost<Seq<LensEntry<D>>>,
    ) -> (now: Ghost<Seq<Option<D>>>)
        requires
            place < old(self).data@.len(),
            then.len() == old(self).lenses@.len(),
            anchors.len() == then.len(),
            forall|i: int|
                0 <= i < then.len() ==> shown_since(
                    then[i],
                    #[trigger] old(self).lenses@[i],
                    anchors[i],
                ),
        ensures
            final(self).data == old(self).data,
            final(self).lenses@.len() == old(self).lenses@.len(),
            now@ == detected(
                then,
                old(self).data@[place as int],
                0,
                Detection { anchors, dirty: old(dirty)@ },
            ).anchors,
            final(dirty)@ == detected(
                then,
                old(self).data@[place as int],
                0,
                Detection { anchors, dirty: old(dirty)@ },
            ).dirty,
            now@.len() == then.len(),
            forall|i: int|
                0 <= i < then.len() ==> shown_since(
                    then[i],
                    #[trigger] final(self).lenses@[i],
                    now@[i],
                ),
            forall|i: int|
                0 <= i < then.len() ==> !(#[trigger] final(self).lenses@[i]).wrap.stale(
                    old(self).data@[place as int],
                ),
    {
        let ghost model = self.data@[place as int];
        let ghost mut so_far = Detection { anchors, dirty: dirty@ };
        let ghost start = so_far;
        let mut i: usize = 0;
        while i < self.lenses.len()
            invariant
                i <= self.lenses@.len(),
                place < self.data@.len(),
                self.data == old(self).data,
                model == self.data@[place as int],
                self.lenses@.len() == then.len(),
                so_far.anchors.len() == then.len(),
                so_far.dirty == dirty@,
                detected(then, model, 0, start) == detected(then, model, i as int, so_far),
                forall|k: int|
                    0 <= k < then.len() ==> shown_since(
                        then[k],
                        #[trigger] self.lenses@[k],
                        so_far.anchors[k],
                    ),
                forall|k: int| 0 <= k < i ==> !(#[trigger] self.lenses@[k]).wrap.stale(model),
            decreases self.lenses@.len() - i,
        {
            let ghost before = self.lenses@;
            let ghost prev = so_far;
            assert(shown_since(then[i as int], before[i as int], prev.anchors[i as int]));
            let changed = match self.lenses[i].wrap.update(&self.data[place]) {
                Seen::Changed => true,
                _ => false,
            };
            assert(changed == stale_since(then[i as int], prev.anchors[i as int], model));
            if changed {
                mark_all(dirty, self.lenses[i].wrap.observers());
                proof {
                    so_far =
                    Detection {
                        anchors: prev.anchors.update(i as int, Some(model)),
                        dirty: dirty@,
                    };
                }
            }
            proof {
                assert forall|k: int| 0 <= k < then.len() implies shown_since(
                    then[k],
                    #[trigger] self.lenses@[k],
                    so_far.anchors[k],
                ) by {
                    if k != i {
                        assert(self.lenses@[k] == before[k]);
                        assert(shown_since(then[k], before[k], prev.anchors[k]));
                    }
                }
                assert forall|k: int| 0 <= k < i + 1 implies !(
                #[trigger] self.lenses@[k]).wrap.stale(model) by {
                    if k != i {
                        assert(self.lenses@[k] == before[k]);
                    }
                }
            }
            i = i + 1;
        }
        Ghost(so_far.anchors)
    }

    /// Change detection for the model at place `place`: every witness looks
    /// at the model. Returns the observers of the witnesses that found it
    /// changed, each once.
    pub fn detect(&mut self, place: usize) -> (dirty: Vec<Entity>)
        requires
            place < old(self).data@.len(),
        ensures
            final(self).data == old(self).data,
            final(self).lenses@.len() == old(self).lenses@.len(),
            dirty@ == detected(
                old(self).lenses@,
                old(self).data@[place as int],
                0,
                Detection {
                    anchors: Seq::new(old(self).lenses@.len(), |i: int| None::<D>),
                    dirty: Seq::empty(),
                },
            ).dirty,
            forall|i: int|
                0 <= i < old(self).lenses@.len() ==> !(
                #[trigger] final(self).lenses@[i]).wrap.stale(old(self).data@[place as int]),
            forall|i: int|
                0 <= i < old(self).lenses@.len() ==> shown_since(
                    old(self).lenses@[i],
                    #[trigger] final(self).lenses@[i],
                    detected(
                        old(self).lenses@,
                        old(self).data@[place as int],
                        0,
                        Detection {
                            anchors: Seq::new(old(self).lenses@.len(), |i: int| None::<D>),
                            dirty: Seq::empty(),
                        },
                    ).anchors[i],
                ),
    {
        let mut dirty: Vec<Entity> = Vec::new();
        let ghost then = self.lenses@;
        let ghost anchors = Seq::new(then.len(), |i: int| None::<D>);
        let now = self.detect_into(place, &mut dirty, Ghost(anchors), Ghost(then));
        dirty
    }

    /// The models handle `event`, on witnesses that were `then` at the
    /// start and have been shown `anchors` since.
    pub(crate) fn handle_into(
        &mut self,
        cx: &mut EventContext<D::Message>,
        event: &mut Event<D::Message>,
        dirty: &mut Vec<Entity>,
        Ghost(anchors): Ghost<Seq<Option<D>>>,
        Ghost(then): Ghost<Seq<LensEntry<D>>>,
    ) -> (now: Ghost<Seq<Option<D>>>)
        requires
            old(self).wf(),
            then.len() == old(self).lenses@.len(),
            anchors.len() == then.len(),
            forall|i: int|
                0 <= i < then.len() ==> shown_since(
                    then[i],
                    #[trigger] old(self).lenses@[i],
                    anchors[i],
                ),
        ensures
            final(self).wf(),
            final(self).lenses@.len() == old(self).lenses@.len(),
            final(cx).current() == old(cx).current(),
            ({
                let out = store_handled(
                    then,
                    old(cx).current(),
                    0,
                    StoreOutcome {
                        data: old(self).data@,
                        event: *old(event),
                        queue: old(cx).pending(),
                        detection: Detection { anchors, dirty: old(dirty)@ },
                    },
                );
                &&& final(self).data@ == out.data
                &&& *final(event) == out.event
                &&& final(cx).pending() == out.queue
                &&& final(dirty)@ == out.detection.dirty
                &&& now@ == out.detection.anchors
            }),
            now@.len() == then.len(),
            forall|i: int|
                0 <= i < then.len() ==> shown_since(
                    then[i],
                    #[trigger] final(self).lenses@[i],
                    now@[i],
                ),
    {
        let ghost current = cx.current();
        let ghost start = StoreOutcome {
            data: self.data@,
            event: *event,
            queue: cx.pending(),
            detection: Detection { anchors, dirty: dirty@ },
        };
        let ghost mut so_far = start;
        let mut now: Ghost<Seq<Option<D>>> = Ghost(anchors);
        let mut j: usize = 0;
        while j < self.data.len() && !event.consumed
            invariant
                j <= self.data@.len(),
                self.wf(),
                self.lenses@.len() == then.len(),
                cx.current() == current,
                so_far.data == self.data@,
                so_far.event == *event,
                so_far.queue == cx.pending(),
                so_far.detection.dirty == dirty@,
                so_far.detection.anchors == now@,
                now@.len() == then.len(),
                store_handled(then, current, 0, start) == store_handled(
                    then,
                    current,
                    j as int,
                    so_far,
                ),
                forall|i: int|
                    0 <= i < then.len() ==> shown_since(
                        then[i],
                        #[trigger] self.lenses@[i],
                        now@[i],
                    ),
            decreases self.data@.len() - j,
        {
            let ghost before = self.data@;
            let ghost reaction = before[j as int].reaction(current, *event);
            self.data[j].event(cx, event);
            proof {
                assert(self.data@ == before.update(j as int, reaction.model));
                assert forall|a: int, b: int| 0 <= a < b < self.data@.len() implies (
                #[trigger] self.data@[a]).tag() != (#[trigger] self.data@[b]).tag() by {
                    assert(before[a].tag() != before[b].tag());
                }
            }
            let ghost detection = so_far.detection;
            let ghost witnesses = self.lenses@;
            now = self.detect_into(j, dirty, Ghost(now@), Ghost(then));
            proof {
                assert forall|a: int| 0 <= a < self.lenses@.len() implies (
                #[trigger] self.lenses@[a]).wrap.observer_seq().no_duplicates() by {
                    assert(witnesses[a].wrap.observer_seq() == then[a].wrap.observer_seq());
                    assert(shown_since(then[a], self.lenses@[a], now@[a]));
                }
                assert forall|a: int, b: int| 0 <= a < b < self.lenses@.len() implies (
                #[trigger] self.lenses@[a]).key@ != (#[trigger] self.lenses@[b]).key@ by {
                    assert(witnesses[a].key@ == then[a].key@);
                    assert(witnesses[b].key@ == then[b].key@);
                    assert(witnesses[a].key@ != witnesses[b].key@);
                }
                so_far =
                StoreOutcome {
                    data: self.data@,
                    event: *event,
                    queue: cx.pending(),
                    detection: detected(then, reaction.model, 0, detection),
                };
            }
            j = j + 1;
        }
        now
    }

    /// The models handle `event` on the node of `cx`, one after the other,
    /// until one of them consumes it; after each model, change detection runs
    /// for it. Returns the entities to rebuild, each once.
    pub fn handle(
        &mut self,
        cx: &mut EventContext<D::Message>,
        event: &mut Event<D::Message>,
    ) -> (dirty: Vec<Entity>)
        requires
            old(self).wf(),
        ensures
            final(self).wf(),
            final(self).lenses@.len() == old(self).lenses@.len(),
            final(cx).current() == old(cx).current(),
            ({
                let out = store_handled(
                    old(self).lenses@,
                    old(cx).current(),
                    0,
                    StoreOutcome {
                        data: old(self).data@,
                        event: *old(event),
                        queue: old(cx).pending(),
                        detection: Detection {
                            anchors: Seq::new(old(self).lenses@.len(), |i: int| None::<D>),
                            dirty: Seq::empty(),
                        },
                    },
                );
                &&& final(self).data@ == out.data
                &&& *final(event) == out.event
                &&& final(cx).pending() == out.queue
                &&& dirty@ == out.detection.dirty
                &&& forall|i: int|
                    0 <= i < old(self).lenses@.len() ==> shown_since(
                        old(self).lenses@[i],
                        #[trigger] final(self).lenses@[i],
                        out.detection.anchors[i],
                    )
            }),
    {
        let mut dirty: Vec<Entity> = Vec::new();
        let ghost then = self.lenses@;
        let ghost anchors = Seq::new(then.len(), |i: int| None::<D>);
        let now = self.handle_into(cx, event, &mut dirty, Ghost(anchors), Ghost(then));
        dirty
    }

    /// What becomes of the binding at `id`, whose ancestors are `ancestors`,
    /// when it asks this store to observe `lens`.
    pub open spec fn registration<L: Lens>(
        &self,
        ancestors: Seq<Entity>,
        lens: L,
    ) -> Registration where D: Holds<L::Source>, L::Source: Model, L::Target: Data {
        match model_place(self.data@, <L::Source as Model>::tag_spec(), 0) {
            None => Registration::MissingModel,
            Some(m) => match lens_place(self.lenses@, L::tag_spec(), 0) {
                Some(w) => if covered(self.lenses@[w].wrap.observer_seq(), ancestors) {
                    Registration::Covered
                } else {
                    Registration::Observing
                },
                None => if self.data@[m].held() is Some {
                    Registration::Observing
                } else {
                    Registration::DowncastFailure
                },
            },
        }
    }

    /// `now` is what this store becomes when the binding at `id`, whose
    /// ancestors are `ancestors`, asks it to observe `lens`: the models stay;
    /// where the binding comes to observe, it is added to the witness of the
    /// lens, or a witness is made of which it is the one observer; else the
    /// witnesses stay as they are.
    pub open spec fn registered<L: Lens>(
        &self,
        now: Self,
        id: Entity,
        ancestors: Seq<Entity>,
        lens: L,
    ) -> bool where D: Holds<L::Source>, L::Source: Model, L::Target: Data {
        &&& now.data == self.data
        &&& self.registration(ancestors, lens) != Registration::Observing ==> now.lenses
            == self.lenses
        &&& self.registration(ancestors, lens) == Registration::Observing ==> match lens_place(
            self.lenses@,
            L::tag_spec(),
            0,
        ) {
            Some(w) => {
                &&& now.lenses@.len() == self.lenses@.len()
                &&& forall|j: int|
                    0 <= j < self.lenses@.len() && j != w ==> now.lenses@[j] == self.lenses@[j]
                &&& with_observer(self.lenses@[w], now.lenses@[w], id)
            },
            None => {
                &&& now.lenses@.len() == self.lenses@.len() + 1
                &&& now.lenses@.drop_last() == self.lenses@
                &&& fresh_witness(
                    now.lenses@.last(),
                    id,
                    lens,
                    self.data@[model_place(
                        self.data@,
                        <L::Source as Model>::tag_spec(),
                        0,
                    )->0].held()->0,
                )
            },
        }
    }

    /// Registers the binding at `id` as an observer of `lens`, unless one of
    /// `ancestors` observes the lens already. Where the store has no witness
    /// for the type of `lens` yet, it gets one, which has seen what the lens
    /// shows now and has `id` as its one observer.
    pub fn register<L: Lens + 'static>(
        &mut self,
        id: Entity,
        ancestors: &Vec<Entity>,
        lens: L,
    ) -> (outcome: Registration) where D: Holds<L::Source>, L::Source: Model, L::Target: Data
        requires
            old(self).wf(),
        ensures
            final(self).wf(),
            outcome == old(self).registration(ancestors@, lens),
            old(self).registered(*final(self), id, ancestors@, lens),
    {
        let key = L::tag();
        proof {
            lemma_model_place(self.data@, <L::Source as Model>::tag_spec(), 0);
            lemma_lens_place(self.lenses@, key@, 0);
        }
        let place = match self.find_model(<L::Source as Model>::type_tag()) {
            Some(place) => place,
            None => {
                return Registration::MissingModel;
            },
        };
        match self.find_lens(&key) {
            Some(w) => {
                if any_observer(self.lenses[w].wrap.observers(), ancestors) {
                    Registration::Covered
                } else {
                    let ghost before = self.lenses@;
                    self.lenses[w].wrap.add_observer(id);
                    proof {
                        assert forall|a: int, b: int|
                            0 <= a < b < self.lenses@.len() implies (
                        #[trigger] self.lenses@[a]).key@ != (#[trigger] self.lenses@[b]).key@ by {
                            assert(before[a].key@ != before[b].key@);
                        }
                    }
                    Registration::Observing
                }
            },
            None => {
                let entry = match self.data[place].downcast_ref() {
                    Some(source) => LensEntry::new(StateStore::new(id, lens, source)),
                    None => {
                        return Registration::DowncastFailure;
                    },
                };
                let ghost before = self.lenses@;
                self.insert_lens(entry);
                proof {
                    assert(self.lenses@.drop_last() =~= before);
                }
                Registration::Observing
            },
        }
    }

    /// A binding nested in a binding that observes a lens is not registered
    /// for that lens itself. Where the witness of `lens` has an observer
    /// among `ancestors`, the nodes above the binding, the binding is
    /// covered, and asking to observe changes nothing in the store: whatever
    /// model change detection runs for, it finds the same entities to rebuild
    /// as before, the outer binding among them and the inner not added.
    pub proof fn lemma_nested_binding_is_covered<L: Lens>(
        &self,
        now: Self,
        inner: Entity,
        ancestors: Seq<Entity>,
        outer: Entity,
        lens: L,
    ) where D: Holds<L::Source>, L::Source: Model, L::Target: Data
        requires
            model_place(self.data@, <L::Source as Model>::tag_spec(), 0) is Some,
            lens_place(self.lenses@, L::tag_spec(), 0) matches Some(w)
                && self.lenses@[w].wrap.observer_seq().contains(outer),
            ancestors.contains(outer),
            self.registered(now, inner, ancestors, lens),
        ensures
            self.registration(ancestors, lens) == Registration::Covered,
            now.data == self.data,
            now.lenses == self.lenses,
            forall|model: D, so_far: Detection<D>|
                detected(now.lenses@, model, 0, so_far) == detected(self.lenses@, model, 0, so_far),
    {
        let w = lens_place(self.lenses@, L::tag_spec(), 0)->0;
        let i = choose|i: int| 0 <= i < ancestors.len() && ancestors[i] == outer;
        assert(self.lenses@[w].wrap.observer_seq().contains(ancestors[i]));
    }

    /// Takes `observer` out of the observers of every witness of the store.
    pub fn remove_observer(&mut self, observer: Entity)
        requires
            old(self).wf(),
        ensures
            final(self).wf(),
            final(self).data == old(self).data,
            final(self).lenses@.len() == old(self).lenses@.len(),
            forall|i: int|
                0 <= i < old(self).lenses@.len() ==> without_observer(
                    old(self).lenses@[i],
                    #[trigger] final(self).lenses@[i],
                    observer,
                ),
    {
        let mut i: usize = 0;
        while i < self.lenses.len()
            invariant
                i <= self.lenses@.len(),
                self.data == old(self).data,
                self.lenses@.len() == old(self).lenses@.len(),
                forall|k: int|
                    0 <= k < i ==> without_observer(
                        old(self).lenses@[k],
                        #[trigger] self.lenses@[k],
                        observer,
                    ),
                forall|k: int| i <= k < self.lenses@.len() ==> self.lenses@[k] == old(
                    self,
                ).lenses@[k],
                forall|k: int|
                    0 <= k < self.lenses@.len() ==> (
                    #[trigger] self.lenses@[k]).wrap.observer_seq().no_duplicates(),
            decreases self.lenses@.len() - i,
        {
            let ghost before = self.lenses@;
            self.lenses[i].wrap.remove_observer(observer);
            proof {
                lemma_without_keeps_apart(before[i as int].wrap.observer_seq(), observer);
                assert forall|k: int| 0 <= k < i + 1 implies without_observer(
                    old(self).lenses@[k],
                    #[trigger] self.lenses@[k],
                    observer,
                ) by {
                    if k < i {
                        assert(self.lenses@[k] == before[k]);
                    }
                }
                assert forall|k: int| i + 1 <= k < self.lenses@.len() implies self.lenses@[k]
                    == old(self).lenses@[k] by {
                    assert(self.lenses@[k] == before[k]);
                }
            }
            i = i + 1;
        }
        proof {
            assert forall|a: int, b: int| 0 <= a < b < self.lenses@.len() implies (
            #[trigger] self.lenses@[a]).key@ != (#[trigger] self.lenses@[b]).key@ by {
                assert(old(self).lenses@[a].key@ != old(self).lenses@[b].key@);
            }
        }
    }
}

} // verus!
