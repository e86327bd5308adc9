//! The context: the tree, what is stored at its nodes, the place where the
//! next view is built, and the events that wait.

use vstd::prelude::*;
use crate::entity::{Entity, EntityManager};
use crate::events::{Event, EventContext};
use crate::state::model::{Holds, Model, ModelData};
use crate::state::data::Data;
use crate::state::lens::Lens;
use crate::state::model::TypeTag;
use crate::state::registry::{
    lemma_lens_place, lemma_store_handled_len, lemma_store_handled_queue, lens_place,
    model_place, shown_since, store_handled, without_observer, Detection, LensEntry,
    ModelDataStore, Registration, StoreOutcome,
};
use crate::style::{Display, Style, Visibility};
use crate::tree::{
    grown, is_tree, lemma_path_members, node_at, path_in, pruned, tree_at, NodeView, Tree,
};

verus! {

/// Why a node could not be built.
#[derive(Clone, Copy, PartialEq, Eq, Structural, Debug)]
pub enum BuildError {
    /// Every entity is in use.
    OutOfEntities,
    /// The node would lie deeper than the tree can count.
    TooDeep,
    /// The place of the node among its siblings is beyond what can be
    /// counted.
    TooManySiblings,
    /// The node below which a binding builds is not in the tree.
    MissingParent,
    /// The builder of a binding failed.
    BuilderFailed,
}

/// Why a node could not be destroyed.
#[derive(Clone, Copy, PartialEq, Eq, Structural, Debug)]
pub enum DestroyError {
    /// The entity is not in the tree.
    NotPresent,
    /// The entity is the root.
    Root,
    /// The node has children: they are to be destroyed first.
    HasChildren,
    /// The node is the one below which views are built at present.
    Current,
}

/// What the side tables hold of one node.
#[verifier::reject_recursive_types(D)]
pub struct Slot<D, V> {
    pub store: ModelDataStore<D>,
    pub view: Option<V>,
    pub style: Style,
}

/// The tree of the interface and all that hangs on it. `D` is the form in
/// which nodes store models, `V` the form in which they store views.
#[verifier::reject_recursive_types(D)]
pub struct Context<D: ModelData, V> {
    entity_manager: EntityManager,
    tree: Tree,
    current: Entity,
    count: usize,
    slots: Vec<Slot<D, V>>,
    queue: Vec<Event<D::Message>>,
}

/// The attributes that the node `e` has before a view is built on it: those
/// that it has in `cx` where it is a node of `cx`, and else those of a node
/// that nothing has been written to.
pub open spec fn before_style<D: ModelData, V>(cx: Context<D, V>, e: Entity) -> Style {
    if cx.has(e) {
        cx.slot(e).style
    } else {
        Style {
            element: None,
            text: None,
            display: Display::Flex,
            visibility: Visibility::Visible,
            background_color: None,
            background_image: None,
        }
    }
}

/// The models of each slot.
pub open spec fn models_of<D, V>(slots: Seq<Slot<D, V>>) -> Seq<Seq<D>> {
    Seq::new(slots.len(), |i: int| slots[i].store.data@)
}

/// The witnesses of each slot.
pub open spec fn witnesses_of<D, V>(slots: Seq<Slot<D, V>>) -> Seq<Seq<LensEntry<D>>> {
    Seq::new(slots.len(), |i: int| slots[i].store.lenses@)
}

/// For each witness of each slot, no model: what the witnesses have been
/// shown when nothing has been shown to them.
pub open spec fn no_anchors<D, V>(slots: Seq<Slot<D, V>>) -> Seq<Seq<Option<D>>> {
    Seq::new(slots.len(), |i: int| Seq::new(slots[i].store.lenses@.len(), |j: int| None::<D>))
}

/// How far an event has come on its way up the tree, and what it has done.
pub struct Walk<D: ModelData> {
    /// The models of each slot.
    pub data: Seq<Seq<D>>,
    /// For each witness of each slot, the model it was shown last.
    pub anchors: Seq<Seq<Option<D>>>,
    /// The event, consumed or not.
    pub event: Event<D::Message>,
    /// The events that wait.
    pub queue: Seq<Event<D::Message>>,
    /// The entities to rebuild.
    pub dirty: Seq<Entity>,
    /// The nodes whose models have been handed the event, in the order in
    /// which they were.
    pub visited: Seq<Entity>,
}

/// The event of `so_far` goes up `path` from place `from` on: at each node
/// its models handle it, until one of them consumes it or the path ends.
/// `then` holds the witnesses of each slot as they were at the start.
pub open spec fn walked<D: ModelData>(
    then: Seq<Seq<LensEntry<D>>>,
    path: Seq<Entity>,
    from: int,
    so_far: Walk<D>,
) -> Walk<D>
    decreases path.len() - from,
{
    if from < 0 || from >= path.len() || so_far.event.consumed {
        so_far
    } else {
        let e = path[from];
        let i = e.spec_index();
        if i >= so_far.data.len() || i >= so_far.anchors.len() || i >= then.len() {
            walked(then, path, from + 1, so_far)
        } else {
            let out = store_handled(
                then[i],
                e,
                0,
                StoreOutcome {
                    data: so_far.data[i],
                    event: so_far.event,
                    queue: so_far.queue,
                    detection: Detection { anchors: so_far.anchors[i], dirty: so_far.dirty },
                },
            );
            walked(
                then,
                path,
                from + 1,
                Walk {
                    data: so_far.data.update(i, out.data),
                    anchors: so_far.anchors.update(i, out.detection.anchors),
                    event: out.event,
                    queue: out.queue,
                    dirty: out.detection.dirty,
                    visited: so_far.visited.push(e),
                },
            )
        }
    }
}

/// On its way up a path an event visits the nodes in the order of the path,
/// from the first on, and leaves none out: it stops before the end of the
/// path only when a model has consumed it. The events that waited before keep
/// their places at the head of the queue: what the models emit on the way
/// stands behind them, and none of the queue is handled on the way.
pub proof fn lemma_walk_order<D: ModelData>(
    then: Seq<Seq<LensEntry<D>>>,
    path: Seq<Entity>,
    from: int,
    so_far: Walk<D>,
)
    requires
        0 <= from <= path.len(),
        so_far.data.len() == then.len(),
        so_far.anchors.len() == then.len(),
        forall|i: int| 0 <= i < path.len() ==> (#[trigger] path[i]).spec_index() < then.len(),
    ensures
        ({
            let end = walked(then, path, from, so_far);
            let reached = from + end.visited.len() - so_far.visited.len();
            &&& so_far.visited.len() <= end.visited.len()
            &&& reached <= path.len()
            &&& end.visited == so_far.visited + path.subrange(from, reached)
            &&& reached < path.len() ==> end.event.consumed
            &&& so_far.queue.len() <= end.queue.len()
            &&& end.queue.subrange(0, so_far.queue.len() as int) == so_far.queue
            &&& end.event.message == so_far.event.message
            &&& end.event.target == so_far.event.target
        }),
    decreases path.len() - from,
{
    if from >= path.len() || so_far.event.consumed {
        assert(so_far.visited + path.subrange(from, from) =~= so_far.visited);
        assert(so_far.queue.subrange(0, so_far.queue.len() as int) =~= so_far.queue);
    } else {
        let e = path[from];
        let i = e.spec_index();
        let handed = StoreOutcome {
            data: so_far.data[i],
            event: so_far.event,
            queue: so_far.queue,
            detection: Detection { anchors: so_far.anchors[i], dirty: so_far.dirty },
        };
        let out = store_handled(then[i], e, 0, handed);
        let next = Walk {
            data: so_far.data.update(i, out.data),
            anchors: so_far.anchors.update(i, out.detection.anchors),
            event: out.event,
            queue: out.queue,
            dirty: out.detection.dirty,
            visited: so_far.visited.push(e),
        };
        lemma_store_handled_len(then[i], e, 0, handed);
        lemma_store_handled_queue(then[i], e, 0, handed);
        lemma_walk_order(then, path, from + 1, next);
        let end = walked(then, path, from + 1, next);
        let reached = from + 1 + end.visited.len() - next.visited.len();
        assert(so_far.visited.push(e) + path.subrange(from + 1, reached) =~= so_far.visited
            + path.subrange(from, reached));
        assert(end.queue.subrange(0, so_far.queue.len() as int) =~= end.queue.subrange(
            0,
            next.queue.len() as int,
        ).subrange(0, so_far.queue.len() as int));
    }
}

/// What dispatching one event has done.
pub struct Dispatched {
    /// The entities to rebuild, each once, in the order in which change
    /// detection found them.
    pub dirty: Vec<Entity>,
    /// The nodes whose models were handed the event, in the order in which
    /// they were.
    pub visited: Vec<Entity>,
}

impl<D: ModelData, V> Context<D, V> {
    /// The tree.
    pub closed spec fn tree(&self) -> Map<Entity, NodeView> {
        self.tree@
    }

    /// The node below which the next view is built.
    pub closed spec fn current(&self) -> Entity {
        self.current
    }

    /// The place among the children of `current()` at which the next view is
    /// built.
    pub closed spec fn count(&self) -> usize {
        self.count
    }

    /// What the side tables hold, indexed by entity.
    pub closed spec fn slots(&self) -> Seq<Slot<D, V>> {
        self.slots@
    }

    /// The events that wait, the oldest first.
    pub closed spec fn pending(&self) -> Seq<Event<D::Message>> {
        self.queue@
    }

    /// Whether `e` is a node of the tree.
    pub open spec fn has(&self, e: Entity) -> bool {
        self.tree().contains_key(e)
    }

    /// What the side tables hold of the node `e`.
    pub open spec fn slot(&self, e: Entity) -> Slot<D, V> {
        self.slots()[e.spec_index()]
    }

    /// The path from `e` up to the root.
    pub open spec fn path(&self, e: Entity) -> Seq<Entity> {
        path_in(self.tree(), e)
    }

    /// The child of `parent` at place `index`.
    pub open spec fn child_at(&self, parent: Entity, index: int) -> Option<Entity> {
        if self.has(parent) && 0 <= index < self.tree()[parent].children.len() {
            Some(self.tree()[parent].children[index])
        } else {
            None
        }
    }

    /// Every node of `earlier` is a node of `self`.
    pub open spec fn keeps(&self, earlier: Self) -> bool {
        forall|e: Entity| earlier.has(e) ==> self.has(e)
    }

    /// The tree and the manager of entities agree on which entities there
    /// are, every node has its slot, and every store is in order.
    pub closed spec fn wf(&self) -> bool {
        &&& self.entity_manager.wf()
        &&& self.tree.wf()
        &&& forall|e: Entity| self.tree@.contains_key(e) <==> self.entity_manager.is_alive(e)
        &&& forall|e: Entity| #[trigger]
            self.tree@.contains_key(e) ==> e.spec_index() < self.slots@.len()
        &&& forall|i: int| 0 <= i < self.slots@.len() ==> (#[trigger] self.slots@[i]).store.wf()
        &&& self.tree@.contains_key(self.current)
    }

    /// What a context in order is sure of.
    pub proof fn lemma_wf(&self)
        requires
            self.wf(),
        ensures
            is_tree(self.tree()),
            self.has(self.current()),
            self.has(Entity::root()),
            forall|e: Entity| #[trigger] self.has(e) ==> e.spec_index() < self.slots().len(),
            forall|i: int|
                0 <= i < self.slots().len() ==> (#[trigger] self.slots()[i]).store.wf(),
    {
        self.tree.lemma_wf();
    }

    /// A context whose tree holds the root and nothing else.
    pub fn new() -> (cx: Self)
        ensures
            cx.wf(),
            cx.current() == Entity::root(),
            cx.count() == 0,
            cx.pending().len() == 0,
            cx.tree() == Map::<Entity, NodeView>::empty().insert(
                Entity::root(),
                NodeView { parent: None, children: Seq::empty(), depth: 0 },
            ),
            cx.slots().len() == 1,
            cx.slot(Entity::root()).store.data@.len() == 0,
            cx.slot(Entity::root()).store.lenses@.len() == 0,
            cx.slot(Entity::root()).view is None,
            cx.slot(Entity::root()).style.is_bare(),
    {
        let mut entity_manager = EntityManager::new();
        let root = entity_manager.create();
        let tree = Tree::new();
        let mut slots: Vec<Slot<D, V>> = Vec::new();
        slots.push(Slot { store: ModelDataStore::new(), view: None, style: Style::new() });
        Context {
            entity_manager,
            tree,
            current: Entity::root(),
            count: 0,
            slots,
            queue: Vec::new(),
        }
    }

    /// The node below which the next view is built.
    pub fn current_entity(&self) -> (current: Entity)
        ensures
            current == self.current(),
    {
        self.current
    }

    /// The place among the children of the current node at which the next
    /// view is built.
    pub fn position(&self) -> (count: usize)
        ensures
            count == self.count(),
    {
        self.count
    }

    /// Whether `e` is a node of the tree.
    pub fn contains(&self, e: Entity) -> (found: bool)
        ensures
            found == self.has(e),
    {
        self.tree.contains(e)
    }

    /// The entities from `e` up to the root, nearest first, root last.
    pub fn parent_iter(&self, e: Entity) -> (path: Vec<Entity>)
        requires
            self.wf(),
        ensures
            path@ == self.path(e),
    {
        self.tree.parent_iter(e)
    }

    /// The child of `parent` at place `index`.
    pub fn get_child(&self, parent: Entity, index: usize) -> (child: Option<Entity>)
        ensures
            child == self.child_at(parent, index as int),
    {
        self.tree.get_child(parent, index)
    }

    /// Moves the place where views are built: below `parent`, at place
    /// `count`. Nothing moves where `parent` is not in the tree.
    pub fn set_position(&mut self, parent: Entity, count: usize) -> (moved: bool)
        requires
            old(self).wf(),
        ensures
            final(self).wf(),
            moved == old(self).has(parent),
            final(self).tree() == old(self).tree(),
            final(self).slots() == old(self).slots(),
            final(self).pending() == old(self).pending(),
            final(self).has_room() == old(self).has_room(),
            final(self).current() == (if moved {
                parent
            } else {
                old(self).current()
            }),
            final(self).count() == (if moved {
                count
            } else {
                old(self).count()
            }),
    {
        if self.tree.contains(parent) {
            self.current = parent;
            self.count = count;
            true
        } else {
            false
        }
    }

    /// Whether `moved` is `self` with the place where views are built moved
    /// below `parent`, to place `count`.
    pub open spec fn placed(&self, parent: Entity, count: usize, moved: Self) -> bool {
        &&& moved.tree() == self.tree()
        &&& moved.slots() == self.slots()
        &&& moved.pending() == self.pending()
        &&& moved.has_room() == self.has_room()
        &&& moved.current() == parent
        &&& moved.count() == count
    }

    /// Whether an entity is left to create.
    pub closed spec fn has_room(&self) -> bool {
        self.entity_manager.upcoming() is Some
    }

    /// Why no node can be had for the view that is built next, if none can:
    /// the place is beyond what can be counted, or no child stands at the
    /// place and none can be made.
    pub open spec fn node_error(&self) -> Option<BuildError> {
        if self.count() == usize::MAX {
            Some(BuildError::TooManySiblings)
        } else if self.child_at(self.current(), self.count() as int) is Some {
            None
        } else if self.tree()[self.current()].depth >= usize::MAX {
            Some(BuildError::TooDeep)
        } else if !self.has_room() {
            Some(BuildError::OutOfEntities)
        } else {
            None
        }
    }

    /// A slot that nothing has been written to.
    pub open spec fn is_fresh(slot: Slot<D, V>) -> bool {
        &&& slot.store.data@.len() == 0
        &&& slot.store.lenses@.len() == 0
        &&& slot.view is None
        &&& slot.style.is_bare()
    }

    /// The node of the view that is built next: the child of the current
    /// node at the current place if there is one, else a new node, hung
    /// behind the children that the current node has. The place moves on by
    /// one.
    pub fn build_node(&mut self) -> (built: Result<Entity, BuildError>)
        requires
            old(self).wf(),
        ensures
            final(self).wf(),
            final(self).keeps(*old(self)),
            final(self).current() == old(self).current(),
            final(self).pending() == old(self).pending(),
            match old(self).node_error() {
                Some(error) => built == Err::<Entity, BuildError>(error),
                None => built is Ok,
            },
            built matches Ok(id) ==> (old(self).child_at(
                old(self).current(),
                old(self).count() as int,
            ) matches Some(child) ==> id == child),
            built matches Ok(id) ==> {
                &&& id == node_at(
                    old(self).tree(),
                    old(self).current(),
                    old(self).count() as int,
                    id,
                )
                &&& final(self).tree() == tree_at(
                    old(self).tree(),
                    old(self).current(),
                    old(self).count() as int,
                    id,
                )
            },
            match built {
                Ok(id) => {
                    &&& final(self).count() == old(self).count() + 1
                    &&& final(self).has(id)
                    &&& old(self).has(id) == (old(self).child_at(
                        old(self).current(),
                        old(self).count() as int,
                    ) is Some)
                    &&& old(self).has(id) ==> final(self).has_room() == old(self).has_room()
                    &&& old(self).slots().len() <= final(self).slots().len()
                    &&& forall|e: Entity|
                        old(self).has(e) ==> #[trigger] final(self).slot(e) == old(self).slot(e)
                    &&& if old(self).has(id) {
                        final(self).tree() == old(self).tree()
                    } else {
                        &&& final(self).tree() == grown(old(self).tree(), id, old(self).current())
                        &&& Self::is_fresh(final(self).slot(id))
                    }
                },
                Err(_) => *final(self) == *old(self),
            },
    {
        proof {
            self.tree.lemma_wf();
        }
        if self.count == usize::MAX {
            return Err(BuildError::TooManySiblings);
        }
        match self.tree.get_child(self.current, self.count) {
            Some(id) => {
                self.count = self.count + 1;
                return Ok(id);
            },
            None => {},
        }
        match self.tree.depth(self.current) {
            Some(depth) => {
                if depth == usize::MAX {
                    return Err(BuildError::TooDeep);
                }
            },
            None => {
                return Err(BuildError::TooDeep);
            },
        }
        let id = match self.entity_manager.create() {
            Some(id) => id,
            None => {
                return Err(BuildError::OutOfEntities);
            },
        };
        let ghost before = self.tree@;
        let added = self.tree.add(id, self.current);
        assert(added is Ok);
        while self.slots.len() <= id.index()
            invariant
                old(self).slots@.len() <= self.slots@.len(),
                forall|i: int|
                    0 <= i < old(self).slots@.len() ==> self.slots@[i] == old(self).slots@[i],
                forall|i: int|
                    0 <= i < self.slots@.len() ==> (#[trigger] self.slots@[i]).store.wf(),
                self.tree@ == grown(before, id, self.current),
                self.tree.wf(),
                self.entity_manager.wf(),
                self.current == old(self).current,
                self.count == old(self).count,
                self.queue == old(self).queue,
                forall|o: Entity|
                    self.entity_manager.is_alive(o) <==> (o == id || old(
                        self,
                    ).entity_manager.is_alive(o)),
            decreases id.spec_index() + 1 - self.slots@.len(),
        {
            self.slots.push(Slot { store: ModelDataStore::new(), view: None, style: Style::new() });
        }
        self.slots.set(
            id.index(),
            Slot { store: ModelDataStore::new(), view: None, style: Style::new() },
        );
        self.count = self.count + 1;
        Ok(id)
    }

    /// Attaches `model` to the current node. Where the node holds a model of
    /// the same type, the new model takes its place and the old one is handed
    /// back.
    pub fn attach(&mut self, model: D) -> (replaced: Option<D>)
        requires
            old(self).wf(),
        ensures
            final(self).wf(),
            final(self).tree() == old(self).tree(),
            final(self).current() == old(self).current(),
            final(self).count() == old(self).count(),
            final(self).pending() == old(self).pending(),
            final(self).slots().len() == old(self).slots().len(),
            forall|e: Entity|
                e != old(self).current() && e.spec_index() < old(self).slots().len()
                    ==> #[trigger] final(self).slot(e) == old(self).slot(e),
            final(self).slot(old(self).current()).view == old(self).slot(old(self).current()).view,
            final(self).slot(old(self).current()).style == old(self).slot(
                old(self).current(),
            ).style,
            final(self).slot(old(self).current()).store.lenses == old(self).slot(
                old(self).current(),
            ).store.lenses,
            match crate::state::registry::model_place(
                old(self).slot(old(self).current()).store.data@,
                model.tag(),
                0,
            ) {
                Some(i) => {
                    &&& final(self).slot(old(self).current()).store.data@ == old(self).slot(
                        old(self).current(),
                    ).store.data@.update(i, model)
                    &&& replaced == Some(old(self).slot(old(self).current()).store.data@[i])
                },
                None => {
                    &&& final(self).slot(old(self).current()).store.data@ == old(self).slot(
                        old(self).current(),
                    ).store.data@.push(model)
                    &&& replaced is None
                },
            },
    {
        let i = self.current.index();
        self.slots[i].store.attach(model)
    }

    /// The model of type `T` that is attached to the node `e`.
    pub fn lookup<T: Model>(&self, e: Entity) -> (model: Option<&T>) where D: Holds<T>
        requires
            self.wf(),
        ensures
            match model {
                Some(m) => self.has(e) && self.slot(e).store.typed::<T>() == Some(*m),
                None => !self.has(e) || self.slot(e).store.typed::<T>() is None,
            },
    {
        if self.tree.contains(e) {
            self.slots[e.index()].store.lookup::<T>()
        } else {
            None
        }
    }

    /// The model of type `T` that the first node on `path`, from place `from`
    /// on, holds.
    pub open spec fn data_from<T: Model>(&self, path: Seq<Entity>, from: int) -> Option<T> where
        D: Holds<T>,

        decreases path.len() - from,
    {
        if from < 0 || from >= path.len() {
            None
        } else {
            match self.slot(path[from]).store.typed::<T>() {
                Some(m) => Some(m),
                None => self.data_from::<T>(path, from + 1),
            }
        }
    }

    /// The model of type `T` that is nearest to the current node: attached to
    /// it, or else to the nearest node above it that holds one.
    pub open spec fn data_spec<T: Model>(&self) -> Option<T> where D: Holds<T> {
        self.data_from::<T>(self.path(self.current()), 0)
    }

    /// The model of type `T` that is nearest to the current node: attached to
    /// it, or else to the nearest node above it that holds one.
    pub fn data<T: Model>(&self) -> (model: Option<&T>) where D: Holds<T>
        requires
            self.wf(),
        ensures
            match model {
                Some(m) => self.data_spec::<T>() == Some(*m),
                None => self.data_spec::<T>() is None,
            },
    {
        let path = self.tree.parent_iter(self.current);
        proof {
            self.tree.lemma_wf();
            lemma_path_members(self.tree@, self.current);
        }
        let mut i: usize = 0;
        while i < path.len()
            invariant
                self.wf(),
                i <= path@.len(),
                path@ == self.path(self.current()),
                forall|k: int|
                    0 <= k < path@.len() ==> self.tree@.contains_key(#[trigger] path@[k]),
                self.data_spec::<T>() == self.data_from::<T>(path@, i as int),
            decreases path@.len() - i,
        {
            match self.slots[path[i].index()].store.lookup::<T>() {
                Some(m) => {
                    return Some(m);
                },
                None => {},
            }
            i = i + 1;
        }
        None
    }

    /// Puts `message` at the end of the queue, as an event to the current
    /// node.
    pub fn emit(&mut self, message: D::Message)
        requires
            old(self).wf(),
        ensures
            final(self).wf(),
            final(self).tree() == old(self).tree(),
            final(self).current() == old(self).current(),
            final(self).count() == old(self).count(),
            final(self).slots() == old(self).slots(),
            final(self).pending() == old(self).pending().push(
                Event { message, target: old(self).current(), consumed: false },
            ),
    {
        let event = Event { message, target: self.current, consumed: false };
        self.queue.push(event);
    }

    /// Puts `event` at the end of the queue.
    pub fn emit_event(&mut self, event: Event<D::Message>)
        requires
            old(self).wf(),
        ensures
            final(self).wf(),
            final(self).tree() == old(self).tree(),
            final(self).current() == old(self).current(),
            final(self).count() == old(self).count(),
            final(self).slots() == old(self).slots(),
            final(self).pending() == old(self).pending().push(event),
    {
        self.queue.push(event);
    }

    /// What the node `e` looks like.
    pub fn style(&self, e: Entity) -> (style: Option<&Style>)
        requires
            self.wf(),
        ensures
            match style {
                Some(s) => self.has(e) && *s == self.slot(e).style,
                None => !self.has(e),
            },
    {
        if self.tree.contains(e) {
            Some(&self.slots[e.index()].style)
        } else {
            None
        }
    }

    /// Stores `view` as the view of the node `e` and hands back the view that
    /// was stored there. Where `e` is not in the tree, `view` comes back as
    /// the error.
    pub fn insert_view(&mut self, e: Entity, view: V) -> (previous: Result<Option<V>, V>)
        requires
            old(self).wf(),
        ensures
            final(self).wf(),
            final(self).has_room() == old(self).has_room(),
            final(self).tree() == old(self).tree(),
            final(self).current() == old(self).current(),
            final(self).count() == old(self).count(),
            final(self).pending() == old(self).pending(),
            match previous {
                Ok(v) => {
                    &&& old(self).has(e)
                    &&& v == old(self).slot(e).view
                    &&& final(self).slots() == old(self).slots().update(
                        e.spec_index(),
                        Slot {
                            store: old(self).slot(e).store,
                            view: Some(view),
                            style: old(self).slot(e).style,
                        },
                    )
                },
                Err(v) => {
                    &&& !old(self).has(e)
                    &&& v == view
                    &&& final(self).slots() == old(self).slots()
                },
            },
    {
        if !self.tree.contains(e) {
            return Err(view);
        }
        let ghost before = self.slots@;
        let mut held = Some(view);
        core::mem::swap(&mut self.slots[e.index()].view, &mut held);
        proof {
            assert(self.slots@ =~= before.update(
                e.spec_index(),
                Slot {
                    store: before[e.spec_index()].store,
                    view: Some(view),
                    style: before[e.spec_index()].style,
                },
            ));
        }
        Ok(held)
    }

    /// Takes the view of the node `e` out of its slot.
    pub fn take_view(&mut self, e: Entity) -> (view: Option<V>)
        requires
            old(self).wf(),
        ensures
            final(self).wf(),
            final(self).has_room() == old(self).has_room(),
            final(self).tree() == old(self).tree(),
            final(self).current() == old(self).current(),
            final(self).count() == old(self).count(),
            final(self).pending() == old(self).pending(),
            view == (if old(self).has(e) {
                old(self).slot(e).view
            } else {
                None
            }),
            final(self).slots() == (if old(self).has(e) {
                old(self).slots().update(
                    e.spec_index(),
                    Slot {
                        store: old(self).slot(e).store,
                        view: None,
                        style: old(self).slot(e).style,
                    },
                )
            } else {
                old(self).slots()
            }),
    {
        if !self.tree.contains(e) {
            return None;
        }
        let ghost before = self.slots@;
        let view = self.slots[e.index()].view.take();
        proof {
            assert(self.slots@ =~= before.update(
                e.spec_index(),
                Slot {
                    store: before[e.spec_index()].store,
                    view: None,
                    style: before[e.spec_index()].style,
                },
            ));
        }
        view
    }

    /// Writes the name under which style rules find the node `e`. Nothing is
    /// written where `e` is not in the tree.
    pub fn set_element(&mut self, e: Entity, element: Option<String>) -> (written: bool)
        requires
            old(self).wf(),
        ensures
            final(self).wf(),
            written == old(self).has(e),
            final(self).tree() == old(self).tree(),
            final(self).current() == old(self).current(),
            final(self).count() == old(self).count(),
            final(self).pending() == old(self).pending(),
            !written ==> final(self).slots() == old(self).slots(),
            written ==> final(self).slots() == old(self).slots().update(
                e.spec_index(),
                Slot {
                    store: old(self).slot(e).store,
                    view: old(self).slot(e).view,
                    style: Style {
                        element,
                        text: old(self).slot(e).style.text,
                        display: old(self).slot(e).style.display,
                        visibility: old(self).slot(e).style.visibility,
                        background_color: old(self).slot(e).style.background_color,
                        background_image: old(self).slot(e).style.background_image,
                    },
                },
            ),
    {
        if !self.tree.contains(e) {
            return false;
        }
        let ghost before = self.slots@;
        self.slots[e.index()].style.element = element;
        proof {
            assert(self.slots@ =~= before.update(
                e.spec_index(),
                Slot {
                    store: before[e.spec_index()].store,
                    view: before[e.spec_index()].view,
                    style: Style {
                        element,
                        text: before[e.spec_index()].style.text,
                        display: before[e.spec_index()].style.display,
                        visibility: before[e.spec_index()].style.visibility,
                        background_color: before[e.spec_index()].style.background_color,
                        background_image: before[e.spec_index()].style.background_image,
                    },
                },
            ));
        }
        true
    }

    /// Writes the text of the node `e`. Nothing is written where `e` is not
    /// in the tree.
    pub fn set_text(&mut self, e: Entity, text: Option<String>) -> (written: bool)
        requires
            old(self).wf(),
        ensures
            final(self).wf(),
            written == old(self).has(e),
            final(self).tree() == old(self).tree(),
            final(self).current() == old(self).current(),
            final(self).count() == old(self).count(),
            final(self).pending() == old(self).pending(),
            !written ==> final(self).slots() == old(self).slots(),
            written ==> final(self).slots() == old(self).slots().update(
                e.spec_index(),
                Slot {
                    store: old(self).slot(e).store,
                    view: old(self).slot(e).view,
                    style: Style {
                        text,
                        element: old(self).slot(e).style.element,
                        display: old(self).slot(e).style.display,
                        visibility: old(self).slot(e).style.visibility,
                        background_color: old(self).slot(e).style.background_color,
                        background_image: old(self).slot(e).style.background_image,
                    },
                },
            ),
    {
        if !self.tree.contains(e) {
            return false;
        }
        let ghost before = self.slots@;
        self.slots[e.index()].style.text = text;
        proof {
            assert(self.slots@ =~= before.update(
                e.spec_index(),
                Slot {
                    store: before[e.spec_index()].store,
                    view: before[e.spec_index()].view,
                    style: Style {
                        text,
                        element: before[e.spec_index()].style.element,
                        display: before[e.spec_index()].style.display,
                        visibility: before[e.spec_index()].style.visibility,
                        background_color: before[e.spec_index()].style.background_color,
                        background_image: before[e.spec_index()].style.background_image,
                    },
                },
            ));
        }
        true
    }

    /// Writes whether the node `e` takes part in the layout. Nothing is
    /// written where `e` is not in the tree.
    pub fn set_display(&mut self, e: Entity, display: crate::style::Display) -> (written: bool)
        requires
            old(self).wf(),
        ensures
            final(self).wf(),
            written == old(self).has(e),
            final(self).has_room() == old(self).has_room(),
            final(self).tree() == old(self).tree(),
            final(self).current() == old(self).current(),
            final(self).count() == old(self).count(),
            final(self).pending() == old(self).pending(),
            !written ==> final(self).slots() == old(self).slots(),
            written ==> final(self).slots() == old(self).slots().update(
                e.spec_index(),
                Slot {
                    store: old(self).slot(e).store,
                    view: old(self).slot(e).view,
                    style: Style {
                        display,
                        element: old(self).slot(e).style.element,
                        text: old(self).slot(e).style.text,
                        visibility: old(self).slot(e).style.visibility,
                        background_color: old(self).slot(e).style.background_color,
                        background_image: old(self).slot(e).style.background_image,
                    },
                },
            ),
    {
        if !self.tree.contains(e) {
            return false;
        }
        let ghost before = self.slots@;
        self.slots[e.index()].style.display = display;
        proof {
            assert(self.slots@ =~= before.update(
                e.spec_index(),
                Slot {
                    store: before[e.spec_index()].store,
                    view: before[e.spec_index()].view,
                    style: Style {
                        display,
                        element: before[e.spec_index()].style.element,
                        text: before[e.spec_index()].style.text,
                        visibility: before[e.spec_index()].style.visibility,
                        background_color: before[e.spec_index()].style.background_color,
                        background_image: before[e.spec_index()].style.background_image,
                    },
                },
            ));
        }
        true
    }

    /// Writes whether the node `e` is drawn. Nothing is written where `e` is
    /// not in the tree.
    pub fn set_visibility(&mut self, e: Entity, visibility: crate::style::Visibility) -> (written:
        bool)
        requires
            old(self).wf(),
        ensures
            final(self).wf(),
            written == old(self).has(e),
            final(self).tree() == old(self).tree(),
            final(self).current() == old(self).current(),
            final(self).count() == old(self).count(),
            final(self).pending() == old(self).pending(),
            !written ==> final(self).slots() == old(self).slots(),
            written ==> final(self).slots() == old(self).slots().update(
                e.spec_index(),
                Slot {
                    store: old(self).slot(e).store,
                    view: old(self).slot(e).view,
                    style: Style {
                        visibility,
                        element: old(self).slot(e).style.element,
                        text: old(self).slot(e).style.text,
                        display: old(self).slot(e).style.display,
                        background_color: old(self).slot(e).style.background_color,
                        background_image: old(self).slot(e).style.background_image,
                    },
                },
            ),
    {
        if !self.tree.contains(e) {
            return false;
        }
        let ghost before = self.slots@;
        self.slots[e.index()].style.visibility = visibility;
        proof {
            assert(self.slots@ =~= before.update(
                e.spec_index(),
                Slot {
                    store: before[e.spec_index()].store,
                    view: before[e.spec_index()].view,
                    style: Style {
                        visibility,
                        element: before[e.spec_index()].style.element,
                        text: before[e.spec_index()].style.text,
                        display: before[e.spec_index()].style.display,
                        background_color: before[e.spec_index()].style.background_color,
                        background_image: before[e.spec_index()].style.background_image,
                    },
                },
            ));
        }
        true
    }

    /// Writes the colour behind the node `e`. Nothing is written where `e`
    /// is not in the tree.
    pub fn set_background_color(
        &mut self,
        e: Entity,
        background_color: Option<crate::style::Color>,
    ) -> (written: bool)
        requires
            old(self).wf(),
        ensures
            final(self).wf(),
            written == old(self).has(e),
            final(self).has_room() == old(self).has_room(),
            final(self).tree() == old(self).tree(),
            final(self).current() == old(self).current(),
            final(self).count() == old(self).count(),
            final(self).pending() == old(self).pending(),
            !written ==> final(self).slots() == old(self).slots(),
            written ==> final(self).slots() == old(self).slots().update(
                e.spec_index(),
                Slot {
                    store: old(self).slot(e).store,
                    view: old(self).slot(e).view,
                    style: Style {
                        background_color,
                        element: old(self).slot(e).style.element,
                        text: old(self).slot(e).style.text,
                        display: old(self).slot(e).style.display,
                        visibility: old(self).slot(e).style.visibility,
                        background_image: old(self).slot(e).style.background_image,
                    },
                },
            ),
    {
        if !self.tree.contains(e) {
            return false;
        }
        let ghost before = self.slots@;
        self.slots[e.index()].style.background_color = background_color;
        proof {
            assert(self.slots@ =~= before.update(
                e.spec_index(),
                Slot {
                    store: before[e.spec_index()].store,
                    view: before[e.spec_index()].view,
                    style: Style {
                        background_color,
                        element: before[e.spec_index()].style.element,
                        text: before[e.spec_index()].style.text,
                        display: before[e.spec_index()].style.display,
                        visibility: before[e.spec_index()].style.visibility,
                        background_image: before[e.spec_index()].style.background_image,
                    },
                },
            ));
        }
        true
    }

    /// Writes the name of the picture behind the node `e`. Nothing is written
    /// where `e` is not in the tree.
    pub fn set_background_image(&mut self, e: Entity, background_image: Option<String>) -> (written:
        bool)
        requires
            old(self).wf(),
        ensures
            final(self).wf(),
            written == old(self).has(e),
            final(self).tree() == old(self).tree(),
            final(self).current() == old(self).current(),
            final(self).count() == old(self).count(),
            final(self).pending() == old(self).pending(),
            !written ==> final(self).slots() == old(self).slots(),
            written ==> final(self).slots() == old(self).slots().update(
                e.spec_index(),
                Slot {
                    store: old(self).slot(e).store,
                    view: old(self).slot(e).view,
                    style: Style {
                        background_image,
                        element: old(self).slot(e).style.element,
                        text: old(self).slot(e).style.text,
                        display: old(self).slot(e).style.display,
                        visibility: old(self).slot(e).style.visibility,
                        background_color: old(self).slot(e).style.background_color,
                    },
                },
            ),
    {
        if !self.tree.contains(e) {
            return false;
        }
        let ghost before = self.slots@;
        self.slots[e.index()].style.background_image = background_image;
        proof {
            assert(self.slots@ =~= before.update(
                e.spec_index(),
                Slot {
                    store: before[e.spec_index()].store,
                    view: before[e.spec_index()].view,
                    style: Style {
                        background_image,
                        element: before[e.spec_index()].style.element,
                        text: before[e.spec_index()].style.text,
                        display: before[e.spec_index()].style.display,
                        visibility: before[e.spec_index()].style.visibility,
                        background_color: before[e.spec_index()].style.background_color,
                    },
                },
            ));
        }
        true
    }

    /// What dispatching `event` makes of a context with the slots and the
    /// queue of `self`.
    pub open spec fn dispatched(&self, event: Event<D::Message>) -> Walk<D> {
        walked(
            witnesses_of(self.slots()),
            self.path(event.target),
            0,
            Walk {
                data: models_of(self.slots()),
                anchors: no_anchors(self.slots()),
                event,
                queue: self.pending(),
                dirty: Seq::empty(),
                visited: Seq::empty(),
            },
        )
    }

    /// Whether `after` is `self` after `event` was dispatched in it: the
    /// tree, the place, the views and the styles are the same, the models
    /// and the queue are those of `dispatched`, and each witness has last
    /// been shown what `dispatched` says.
    pub open spec fn sent(&self, event: Event<D::Message>, after: Self) -> bool {
        &&& after.has_room() == self.has_room()
        &&& after.tree() == self.tree()
        &&& after.current() == self.current()
        &&& after.count() == self.count()
        &&& after.slots().len() == self.slots().len()
        &&& forall|i: int|
            0 <= i < self.slots().len() ==> {
                &&& (#[trigger] after.slots()[i]).view == self.slots()[i].view
                &&& after.slots()[i].style == self.slots()[i].style
                &&& after.slots()[i].store.lenses@.len() == self.slots()[i].store.lenses@.len()
            }
        &&& models_of(after.slots()) == self.dispatched(event).data
        &&& after.pending() == self.dispatched(event).queue
        &&& forall|i: int, j: int|
            0 <= i < self.slots().len() && 0 <= j < self.slots()[i].store.lenses@.len()
                ==> shown_since(
                self.slots()[i].store.lenses@[j],
                #[trigger] after.slots()[i].store.lenses@[j],
                self.dispatched(event).anchors[i][j],
            )
    }

    /// Sends `event` up the tree: first to the models of its target, then to
    /// those of each node above it, up to the root or to the model that
    /// consumes it. After each model, change detection runs for that model.
    /// What the models emit is put at the end of the queue; nothing of the
    /// queue is handled.
    pub fn dispatch(&mut self, event: &mut Event<D::Message>) -> (done: Dispatched)
        requires
            old(self).wf(),
        ensures
            final(self).wf(),
            final(self).has_room() == old(self).has_room(),
            final(self).tree() == old(self).tree(),
            final(self).current() == old(self).current(),
            final(self).count() == old(self).count(),
            final(self).slots().len() == old(self).slots().len(),
            forall|i: int|
                0 <= i < old(self).slots().len() ==> {
                    &&& (#[trigger] final(self).slots()[i]).view == old(self).slots()[i].view
                    &&& final(self).slots()[i].style == old(self).slots()[i].style
                    &&& final(self).slots()[i].store.lenses@.len() == old(
                        self,
                    ).slots()[i].store.lenses@.len()
                },
            models_of(final(self).slots()) == old(self).dispatched(*old(event)).data,
            final(self).pending() == old(self).dispatched(*old(event)).queue,
            *final(event) == old(self).dispatched(*old(event)).event,
            done.dirty@ == old(self).dispatched(*old(event)).dirty,
            done.visited@ == old(self).dispatched(*old(event)).visited,
            forall|i: int, j: int|
                0 <= i < old(self).slots().len() && 0 <= j < old(
                    self,
                ).slots()[i].store.lenses@.len() ==> shown_since(
                    old(self).slots()[i].store.lenses@[j],
                    #[trigger] final(self).slots()[i].store.lenses@[j],
                    old(self).dispatched(*old(event)).anchors[i][j],
                ),
            old(self).sent(*old(event), *final(self)),
    {
        let path = self.tree.parent_iter(event.target);
        proof {
            self.tree.lemma_wf();
            lemma_path_members(self.tree@, event.target);
        }
        let mut queue: Vec<Event<D::Message>> = Vec::new();
        core::mem::swap(&mut self.queue, &mut queue);
        let mut cx = EventContext::new(Entity::root(), queue);
        let mut dirty: Vec<Entity> = Vec::new();
        let mut visited: Vec<Entity> = Vec::new();
        let ghost then = witnesses_of(self.slots@);
        let ghost start = Walk {
            data: models_of(self.slots@),
            anchors: no_anchors(self.slots@),
            event: *event,
            queue: cx.pending(),
            dirty: Seq::empty(),
            visited: Seq::empty(),
        };
        let ghost mut so_far = start;
        let mut i: usize = 0;
        while i < path.len() && !event.consumed
            invariant
                i <= path@.len(),
                self.entity_manager == old(self).entity_manager,
                self.tree == old(self).tree,
                self.current == old(self).current,
                self.count == old(self).count,
                old(self).wf(),
                forall|k: int|
                    0 <= k < path@.len() ==> self.tree@.contains_key(#[trigger] path@[k]),
                self.slots@.len() == old(self).slots@.len(),
                then.len() == self.slots@.len(),
                then == witnesses_of(old(self).slots@),
                forall|k: int|
                    0 <= k < self.slots@.len() ==> {
                        &&& (#[trigger] self.slots@[k]).store.wf()
                        &&& self.slots@[k].view == old(self).slots@[k].view
                        &&& self.slots@[k].style == old(self).slots@[k].style
                        &&& self.slots@[k].store.lenses@.len() == then[k].len()
                    },
                so_far.data == models_of(self.slots@),
                so_far.anchors.len() == then.len(),
                forall|k: int|
                    0 <= k < then.len() ==> (#[trigger] so_far.anchors[k]).len() == then[k].len(),
                so_far.event == *event,
                so_far.queue == cx.pending(),
                so_far.dirty == dirty@,
                so_far.visited == visited@,
                walked(then, path@, 0, start) == walked(then, path@, i as int, so_far),
                forall|k: int, j: int|
                    0 <= k < then.len() && 0 <= j < then[k].len() ==> shown_since(
                        then[k][j],
                        #[trigger] self.slots@[k].store.lenses@[j],
                        so_far.anchors[k][j],
                    ),
            decreases path@.len() - i,
        {
            let e = path[i];
            let at = e.index();
            assert(self.tree@.contains_key(path@[i as int]));
            cx.enter(e);
            let ghost before = self.slots@;
            let ghost anchors = so_far.anchors[at as int];
            let ghost out = store_handled(
                then[at as int],
                e,
                0,
                StoreOutcome {
                    data: so_far.data[at as int],
                    event: so_far.event,
                    queue: so_far.queue,
                    detection: Detection { anchors, dirty: so_far.dirty },
                },
            );
            assert forall|j: int| 0 <= j < then[at as int].len() implies shown_since(
                then[at as int][j],
                #[trigger] self.slots@[at as int].store.lenses@[j],
                anchors[j],
            ) by {}
            let now = self.slots[at].store.handle_into(
                &mut cx,
                event,
                &mut dirty,
                Ghost(anchors),
                Ghost(then[at as int]),
            );
            visited.push(e);
            proof {
                assert(models_of(self.slots@) =~= so_far.data.update(at as int, out.data));
                so_far =
                Walk {
                    data: so_far.data.update(at as int, out.data),
                    anchors: so_far.anchors.update(at as int, out.detection.anchors),
                    event: out.event,
                    queue: out.queue,
                    dirty: out.detection.dirty,
                    visited: so_far.visited.push(e),
                };
                assert forall|k: int, j: int|
                    0 <= k < then.len() && 0 <= j < then[k].len() implies shown_since(
                    then[k][j],
                    #[trigger] self.slots@[k].store.lenses@[j],
                    so_far.anchors[k][j],
                ) by {
                    if k != at {
                        assert(self.slots@[k] == before[k]);
                    }
                }
            }
            i = i + 1;
        }
        self.queue = cx.into_queue();
        Dispatched { dirty, visited }
    }

    /// The first node on `path`, from place `from` on, that holds a model
    /// with the tag `tag`.
    pub open spec fn host_from(&self, path: Seq<Entity>, from: int, tag: TypeTag) -> Option<
        Entity,
    >
        decreases path.len() - from,
    {
        if from < 0 || from >= path.len() {
            None
        } else if model_place(self.slot(path[from]).store.data@, tag, 0) is Some {
            Some(path[from])
        } else {
            self.host_from(path, from + 1, tag)
        }
    }

    /// The node whose store a binding at `id` on a lens from `tag` registers
    /// with: the nearest node, from `id` upwards, that holds a model with
    /// that tag.
    pub open spec fn host(&self, id: Entity, tag: TypeTag) -> Option<Entity> {
        self.host_from(self.path(id), 0, tag)
    }

    /// Registers the binding at `id`, whose ancestors are `ancestors`, as an
    /// observer of `lens`, with the nearest node from `id` upwards that holds
    /// a model of the type that the lens looks at.
    pub fn observe<L: Lens + 'static>(
        &mut self,
        id: Entity,
        ancestors: &Vec<Entity>,
        lens: L,
    ) -> (outcome: Registration) where D: Holds<L::Source>, L::Source: Model, L::Target: Data
        requires
            old(self).wf(),
        ensures
            final(self).wf(),
            final(self).has_room() == old(self).has_room(),
            final(self).tree() == old(self).tree(),
            final(self).current() == old(self).current(),
            final(self).count() == old(self).count(),
            final(self).pending() == old(self).pending(),
            final(self).slots().len() == old(self).slots().len(),
            match old(self).host(id, <L::Source as Model>::tag_spec()) {
                None => {
                    &&& outcome == Registration::MissingModel
                    &&& final(self).slots() == old(self).slots()
                },
                Some(host) => {
                    &&& old(self).has(host)
                    &&& outcome == old(self).slot(host).store.registration(ancestors@, lens)
                    &&& old(self).slot(host).store.registered(
                        final(self).slot(host).store,
                        id,
                        ancestors@,
                        lens,
                    )
                    &&& final(self).slot(host).view == old(self).slot(host).view
                    &&& final(self).slot(host).style == old(self).slot(host).style
                    &&& forall|i: int|
                        0 <= i < old(self).slots().len() && i != host.spec_index()
                            ==> #[trigger] final(self).slots()[i] == old(self).slots()[i]
                },
            },
    {
        let path = self.tree.parent_iter(id);
        let tag = <L::Source as Model>::type_tag();
        proof {
            self.tree.lemma_wf();
            lemma_path_members(self.tree@, id);
        }
        let mut i: usize = 0;
        while i < path.len()
            invariant
                i <= path@.len(),
                *self == *old(self),
                self.wf(),
                tag == <L::Source as Model>::tag_spec(),
                path@ == self.path(id),
                forall|k: int|
                    0 <= k < path@.len() ==> self.tree@.contains_key(#[trigger] path@[k]),
                self.host(id, tag) == self.host_from(path@, i as int, tag),
            decreases path@.len() - i,
        {
            let at = path[i].index();
            assert(self.tree@.contains_key(path@[i as int]));
            if self.slots[at].store.find_model(tag).is_some() {
                let ghost before = self.slots@;
                let outcome = self.slots[at].store.register(id, ancestors, lens);
                proof {
                    assert forall|k: int| 0 <= k < self.slots@.len() implies (
                    #[trigger] self.slots@[k]).store.wf() by {
                        if k != at {
                            assert(self.slots@[k] == before[k]);
                        }
                    }
                }
                return outcome;
            }
            i = i + 1;
        }
        Registration::MissingModel
    }

    /// Takes the oldest of the events that wait out of the queue.
    pub fn next_event(&mut self) -> (event: Option<Event<D::Message>>)
        requires
            old(self).wf(),
        ensures
            final(self).wf(),
            final(self).has_room() == old(self).has_room(),
            event is None ==> *final(self) == *old(self),
            final(self).tree() == old(self).tree(),
            final(self).current() == old(self).current(),
            final(self).count() == old(self).count(),
            final(self).slots() == old(self).slots(),
            match event {
                Some(e) => {
                    &&& old(self).pending().len() > 0
                    &&& e == old(self).pending()[0]
                    &&& final(self).pending() == old(self).pending().drop_first()
                },
                None => {
                    &&& old(self).pending().len() == 0
                    &&& final(self).pending() == old(self).pending()
                },
            },
    {
        if self.queue.len() == 0 {
            None
        } else {
            let ghost before = self.queue@;
            let event = self.queue.remove(0);
            proof {
                assert(self.queue@ =~= before.drop_first());
            }
            Some(event)
        }
    }

    /// How many events wait.
    pub fn pending_events(&self) -> (waiting: usize)
        ensures
            waiting == self.pending().len(),
    {
        self.queue.len()
    }

    /// Whether `handed` is what the view of the node `e` is handed when the
    /// node is rebuilt: `self` with the view taken out of the slot of `e`
    /// and the place where views are built moved below `e`, to the first
    /// place.
    pub open spec fn hands(&self, e: Entity, handed: Self) -> bool {
        &&& handed.tree() == self.tree()
        &&& handed.pending() == self.pending()
        &&& handed.has_room() == self.has_room()
        &&& handed.current() == e
        &&& handed.count() == 0
        &&& handed.slots() == self.slots().update(
            e.spec_index(),
            Slot { store: self.slot(e).store, view: None, style: self.slot(e).style },
        )
    }

    /// Whether `after` is `self` with `view` stored as the view of `e` and
    /// the place where views are built moved below `current`, to place
    /// `count`.
    pub open spec fn takes_back(
        &self,
        e: Entity,
        view: V,
        current: Entity,
        count: usize,
        after: Self,
    ) -> bool {
        &&& after.tree() == self.tree()
        &&& after.pending() == self.pending()
        &&& after.has_room() == self.has_room()
        &&& after.current() == current
        &&& after.count() == count
        &&& after.slots() == self.slots().update(
            e.spec_index(),
            Slot { store: self.slot(e).store, view: Some(view), style: self.slot(e).style },
        )
    }

    /// What rebuilding the node `e` makes of `self`. A node that is not in
    /// the tree, or has no view, is left as it is, with success. Else the
    /// view of `e` is handed the context that `hands` describes; the view
    /// that it leaves is stored at `e` again, in the context that it
    /// leaves, with the place where views are built moved back to where it
    /// was; and what the view says is the result.
    pub open spec fn node_rebuilt(
        &self,
        e: Entity,
        after: Self,
        built: Result<(), BuildError>,
    ) -> bool where V: crate::view::View<D> {
        if self.has(e) && self.slot(e).view is Some {
            exists|handed: Self, left: V, mid: Self|
                {
                    &&& self.hands(e, handed)
                    &&& #[trigger] (self.slot(e).view->0).builds(handed, left, mid, built)
                    &&& mid.takes_back(e, left, self.current(), self.count(), after)
                }
        } else {
            built is Ok && self.placed(self.current(), self.count(), after)
        }
    }

    /// Whether `states` are the contexts that rebuilding the first `n`
    /// nodes of `dirty` goes through, one after the other and each with
    /// success: the first is `self`, and each next one is what rebuilding
    /// the next node makes of the one before.
    pub open spec fn rebuilt_through(
        &self,
        dirty: Seq<Entity>,
        n: int,
        states: Seq<Self>,
    ) -> bool where V: crate::view::View<D> {
        &&& states.len() == n + 1
        &&& states[0] == *self
        &&& forall|k: int|
            0 <= k < n ==> (#[trigger] states[k]).node_rebuilt(
                dirty[k],
                states[k + 1],
                Ok::<(), BuildError>(()),
            )
    }

    /// Whether `after` is `self` after the first `n` nodes of `dirty` were
    /// rebuilt, one after the other, each with success.
    pub open spec fn rebuilt_to(&self, dirty: Seq<Entity>, n: int, after: Self) -> bool where
        V: crate::view::View<D>,
     {
        exists|states: Seq<Self>| #[trigger]
            self.rebuilt_through(dirty, n, states) && states[n] == after
    }

    /// What rebuilding the nodes of `dirty` makes of `self`: with success,
    /// all of them were rebuilt; with an error, the nodes before one of them
    /// were rebuilt with success, and that one failed with the error and was
    /// the last to be rebuilt.
    pub open spec fn rebuilt(
        &self,
        dirty: Seq<Entity>,
        after: Self,
        built: Result<(), BuildError>,
    ) -> bool where V: crate::view::View<D> {
        match built {
            Ok(_) => self.rebuilt_to(dirty, dirty.len() as int, after),
            Err(error) => exists|n: int, mid: Self|
                {
                    &&& 0 <= n < dirty.len()
                    &&& #[trigger] self.rebuilt_to(dirty, n, mid)
                    &&& mid.node_rebuilt(dirty[n], after, Err::<(), BuildError>(error))
                },
        }
    }

    /// Whether `taken` is `self` with the oldest of the events that wait
    /// taken out of the queue.
    pub open spec fn event_taken(&self, taken: Self) -> bool {
        &&& self.pending().len() > 0
        &&& taken.tree() == self.tree()
        &&& taken.slots() == self.slots()
        &&& taken.has_room() == self.has_room()
        &&& taken.current() == self.current()
        &&& taken.count() == self.count()
        &&& taken.pending() == self.pending().drop_first()
    }

    /// What handling the oldest of the events that wait makes of `self`: the
    /// event is taken out of the queue and dispatched, and the nodes that
    /// change detection found are rebuilt, in the order in which it found
    /// them.
    pub open spec fn event_flushed(&self, after: Self, built: Result<(), BuildError>) -> bool where
        V: crate::view::View<D>,
     {
        exists|taken: Self, told: Self|
            {
                &&& self.event_taken(taken)
                &&& taken.sent(self.pending()[0], told)
                &&& #[trigger] told.rebuilt(
                    taken.dispatched(self.pending()[0]).dirty,
                    after,
                    built,
                )
            }
    }

    /// Whether `states` are the contexts that handling `n` events goes
    /// through, one after the other and each with success: the first is
    /// `self`, and each next one is what handling the oldest event that
    /// waits makes of the one before.
    pub open spec fn flushed_through(&self, n: int, states: Seq<Self>) -> bool where
        V: crate::view::View<D>,
     {
        &&& states.len() == n + 1
        &&& states[0] == *self
        &&& forall|k: int|
            0 <= k < n ==> (#[trigger] states[k]).event_flushed(
                states[k + 1],
                Ok::<(), BuildError>(()),
            )
    }

    /// Whether `after` is `self` after `n` events were handled, one after
    /// the other, each with success.
    pub open spec fn flushed_to(&self, n: int, after: Self) -> bool where V: crate::view::View<D> {
        exists|states: Seq<Self>| #[trigger] self.flushed_through(n, states) && states[n] == after
    }

    /// Rebuilds the node `e`: takes its view out of its slot, lets it build
    /// below `e`, and puts it back, whether the view has built or failed.
    /// The place where views are built is afterwards where it was before.
    /// A node without a view is left alone.
    pub fn rebuild_node(&mut self, e: Entity) -> (built: Result<(), BuildError>) where
        V: crate::view::View<D>,

        requires
            old(self).wf(),
        ensures
            final(self).wf(),
            final(self).keeps(*old(self)),
            final(self).current() == old(self).current(),
            final(self).count() == old(self).count(),
            !old(self).has(e) || old(self).slot(e).view is None ==> {
                &&& built is Ok
                &&& final(self).tree() == old(self).tree()
                &&& final(self).slots() == old(self).slots()
                &&& final(self).pending() == old(self).pending()
            },
            old(self).has(e) && old(self).slot(e).view is Some ==> final(self).slot(e).view is Some,
            old(self).node_rebuilt(e, *final(self), built),
    {
        let ghost start = *self;
        let previous = self.current;
        let previous_count = self.count;
        match self.take_view(e) {
            Some(view) => {
                let ghost first = view;
                let mut view = view;
                self.set_position(e, 0);
                let ghost taken = *self;
                let built = view.body(self);
                let ghost mid = *self;
                proof {
                    start.lemma_wf();
                    assert(taken.has(previous));
                    assert(taken.has(e));
                    assert(self.has(previous));
                    assert(self.has(e));
                    assert forall|o: Entity| start.has(o) implies self.has(o) by {
                        assert(taken.has(o));
                    }
                }
                let moved = self.set_position(previous, previous_count);
                let stored = self.insert_view(e, view);
                proof {
                    assert(start.hands(e, taken));
                    assert(first.builds(taken, view, mid, built));
                    assert(mid.takes_back(e, view, previous, previous_count, *self));
                }
                built
            },
            None => {
                proof {
                    if start.has(e) {
                        assert(self.slots() =~= start.slots());
                    }
                }
                Ok(())
            },
        }
    }

    /// Rebuilds the nodes of `dirty`, in their order, up to the first that
    /// fails.
    pub fn rebuild(&mut self, dirty: &Vec<Entity>) -> (built: Result<(), BuildError>) where
        V: crate::view::View<D>,

        requires
            old(self).wf(),
        ensures
            final(self).wf(),
            final(self).keeps(*old(self)),
            final(self).current() == old(self).current(),
            final(self).count() == old(self).count(),
            dirty@.len() == 0 ==> {
                &&& built is Ok
                &&& final(self).tree() == old(self).tree()
                &&& final(self).slots() == old(self).slots()
                &&& final(self).pending() == old(self).pending()
            },
            old(self).rebuilt(dirty@, *final(self), built),
    {
        let mut i: usize = 0;
        let ghost mut states: Seq<Self> = seq![*self];
        while i < dirty.len()
            invariant
                i <= dirty@.len(),
                self.wf(),
                self.keeps(*old(self)),
                self.current() == old(self).current(),
                self.count() == old(self).count(),
                i == 0 ==> *self == *old(self),
                old(self).rebuilt_through(dirty@, i as int, states),
                states[i as int] == *self,
            decreases dirty@.len() - i,
        {
            let ghost reached = *self;
            let built = self.rebuild_node(dirty[i]);
            match built {
                Ok(()) => {},
                Err(error) => {
                    proof {
                        assert(old(self).rebuilt_to(dirty@, i as int, reached));
                    }
                    return Err(error);
                },
            }
            proof {
                assert(built is Ok);
                assert(built->Ok_0 == ());
                assert(built == Ok::<(), BuildError>(()));
                let next = states.push(*self);
                assert forall|k: int| 0 <= k < i + 1 implies (#[trigger] next[k]).node_rebuilt(
                    dirty@[k],
                    next[k + 1],
                    Ok::<(), BuildError>(()),
                ) by {
                    if k < i {
                        assert(states[k].node_rebuilt(
                            dirty@[k],
                            states[k + 1],
                            Ok::<(), BuildError>(()),
                        ));
                    }
                }
                states = next;
            }
            i = i + 1;
        }
        proof {
            assert(old(self).rebuilt_to(dirty@, dirty@.len() as int, *self));
        }
        Ok(())
    }

    /// Handles the events that wait at the time of the call, the oldest
    /// first: each is dispatched, and then the nodes that change detection
    /// found are rebuilt, before the next event is taken. Events that are
    /// emitted meanwhile wait for the next call. Returns how many events were
    /// handled, or the error of the first rebuild that failed.
    pub fn flush_events(&mut self) -> (flushed: Result<usize, BuildError>) where
        V: crate::view::View<D>,

        requires
            old(self).wf(),
        ensures
            final(self).wf(),
            final(self).keeps(*old(self)),
            final(self).current() == old(self).current(),
            final(self).count() == old(self).count(),
            flushed matches Ok(n) ==> n <= old(self).pending().len(),
            old(self).pending().len() == 0 ==> {
                &&& flushed == Ok::<usize, BuildError>(0)
                &&& final(self).tree() == old(self).tree()
                &&& final(self).slots() == old(self).slots()
                &&& final(self).pending() == old(self).pending()
            },
            match flushed {
                Ok(n) => {
                    &&& old(self).flushed_to(n as int, *final(self))
                    &&& n < old(self).pending().len() ==> final(self).pending().len() == 0
                },
                Err(error) => exists|n: int, mid: Self|
                    {
                        &&& 0 <= n < old(self).pending().len()
                        &&& #[trigger] old(self).flushed_to(n, mid)
                        &&& mid.event_flushed(*final(self), Err::<(), BuildError>(error))
                    },
            },
    {
        let batch = self.queue.len();
        let mut handled: usize = 0;
        let ghost mut states: Seq<Self> = seq![*self];
        while handled < batch
            invariant
                handled <= batch,
                batch == old(self).pending().len(),
                handled == 0 ==> *self == *old(self),
                self.wf(),
                self.keeps(*old(self)),
                self.current() == old(self).current(),
                self.count() == old(self).count(),
                old(self).flushed_through(handled as int, states),
                states[handled as int] == *self,
            decreases batch - handled,
        {
            let ghost reached = *self;
            let mut event = match self.next_event() {
                Some(event) => event,
                None => {
                    proof {
                        assert(old(self).flushed_to(handled as int, *self));
                    }
                    return Ok(handled);
                },
            };
            let ghost taken = *self;
            let done = self.dispatch(&mut event);
            let ghost told = *self;
            let built = self.rebuild(&done.dirty);
            proof {
                assert(reached.event_taken(taken));
                assert(taken.sent(reached.pending()[0], told));
                assert(told.rebuilt(taken.dispatched(reached.pending()[0]).dirty, *self, built));
                assert(reached.event_flushed(*self, built));
            }
            match built {
                Ok(()) => {},
                Err(error) => {
                    proof {
                        assert(old(self).flushed_to(handled as int, reached));
                    }
                    return Err(error);
                },
            }
            proof {
                assert(built is Ok);
                assert(built->Ok_0 == ());
                assert(built == Ok::<(), BuildError>(()));
                let next = states.push(*self);
                assert forall|k: int| 0 <= k < handled + 1 implies (#[trigger] next[k])
                    .event_flushed(next[k + 1], Ok::<(), BuildError>(())) by {
                    if k < handled {
                        assert(states[k].event_flushed(states[k + 1], Ok::<(), BuildError>(())));
                    }
                }
                states = next;
            }
            handled = handled + 1;
        }
        proof {
            assert(old(self).flushed_to(handled as int, *self));
        }
        Ok(handled)
    }

    /// Two contexts whose nodes on a path hold the same models find the same
    /// host on it.
    pub proof fn lemma_host_from_agrees(
        &self,
        other: Self,
        path: Seq<Entity>,
        from: int,
        tag: TypeTag,
    )
        requires
            forall|k: int|
                0 <= k < path.len() ==> self.slot(#[trigger] path[k]).store.data@ == other.slot(
                    path[k],
                ).store.data@,
        ensures
            self.host_from(path, from, tag) == other.host_from(path, from, tag),
        decreases path.len() - from,
    {
        if 0 <= from < path.len() {
            self.lemma_host_from_agrees(other, path, from + 1, tag);
        }
    }

    /// The host on a path, searched from behind a first part of the path, is
    /// the host on the rest.
    pub proof fn lemma_host_from_shift(
        &self,
        first: Seq<Entity>,
        rest: Seq<Entity>,
        from: int,
        tag: TypeTag,
    )
        requires
            0 <= from,
        ensures
            self.host_from(first + rest, first.len() + from, tag) == self.host_from(
                rest,
                from,
                tag,
            ),
        decreases rest.len() - from,
    {
        if from < rest.len() {
            assert((first + rest)[first.len() + from] == rest[from]);
            self.lemma_host_from_shift(first, rest, from + 1, tag);
        }
    }

    /// Where a host is found on a path, it is an entity of the path.
    pub proof fn lemma_host_on_path(&self, path: Seq<Entity>, from: int, tag: TypeTag)
        requires
            0 <= from,
        ensures
            match self.host_from(path, from, tag) {
                Some(host) => exists|k: int| from <= k < path.len() && path[k] == host,
                None => true,
            },
        decreases path.len() - from,
    {
        if from < path.len() {
            if model_place(self.slot(path[from]).store.data@, tag, 0) is Some {
                assert(path[from] == self.host_from(path, from, tag)->0);
            } else {
                self.lemma_host_on_path(path, from + 1, tag);
            }
        }
    }

    /// Dispatching an event hands it to the models of its target first and
    /// then to those of each node above, in the order of the path to the
    /// root, and stops before the root only when a model has consumed it.
    /// The events that the models emit on the way wait behind those that
    /// waited before: none is handled before the walk is over.
    pub proof fn lemma_dispatch_order(&self, event: Event<D::Message>)
        requires
            self.wf(),
        ensures
            ({
                let end = self.dispatched(event);
                let path = self.path(event.target);
                &&& end.visited.len() <= path.len()
                &&& end.visited == path.subrange(0, end.visited.len() as int)
                &&& end.visited.len() < path.len() ==> end.event.consumed
                &&& self.pending().len() <= end.queue.len()
                &&& end.queue.subrange(0, self.pending().len() as int) == self.pending()
            }),
    {
        self.lemma_wf();
        lemma_path_members(self.tree(), event.target);
        let start = Walk {
            data: models_of(self.slots()),
            anchors: no_anchors(self.slots()),
            event,
            queue: self.pending(),
            dirty: Seq::<Entity>::empty(),
            visited: Seq::<Entity>::empty(),
        };
        let path = self.path(event.target);
        assert forall|i: int| 0 <= i < path.len() implies (#[trigger] path[i]).spec_index()
            < witnesses_of(self.slots()).len() by {
            assert(self.has(path[i]));
        }
        lemma_walk_order(witnesses_of(self.slots()), path, 0, start);
        let end = self.dispatched(event);
        assert(Seq::<Entity>::empty() + path.subrange(0, end.visited.len() as int)
            =~= path.subrange(0, end.visited.len() as int));
    }

    /// Where a host is found on a path, it holds a model with the tag.
    pub proof fn lemma_host_holds(&self, path: Seq<Entity>, from: int, tag: TypeTag)
        requires
            0 <= from,
        ensures
            self.host_from(path, from, tag) matches Some(host) ==> model_place(
                self.slot(host).store.data@,
                tag,
                0,
            ) is Some,
        decreases path.len() - from,
    {
        if from < path.len() {
            if model_place(self.slot(path[from]).store.data@, tag, 0) is None {
                self.lemma_host_holds(path, from + 1, tag);
            }
        }
    }

    /// Attaches `model` to the node `node`. Where the node holds a model of
    /// the same type, the new model takes its place and the old one is handed
    /// back. Where `node` is not in the tree, nothing changes and `model`
    /// comes back as the error.
    pub fn attach_at(&mut self, node: Entity, model: D) -> (replaced: Result<Option<D>, D>)
        requires
            old(self).wf(),
        ensures
            final(self).wf(),
            final(self).tree() == old(self).tree(),
            final(self).current() == old(self).current(),
            final(self).count() == old(self).count(),
            final(self).pending() == old(self).pending(),
            final(self).slots().len() == old(self).slots().len(),
            forall|e: Entity|
                e != node && e.spec_index() < old(self).slots().len()
                    ==> #[trigger] final(self).slot(e) == old(self).slot(e),
            match replaced {
                Err(given) => {
                    &&& !old(self).has(node)
                    &&& given == model
                    &&& final(self).slots() == old(self).slots()
                },
                Ok(previous) => {
                    &&& old(self).has(node)
                    &&& final(self).slot(node).view == old(self).slot(node).view
                    &&& final(self).slot(node).style == old(self).slot(node).style
                    &&& final(self).slot(node).store.lenses == old(self).slot(node).store.lenses
                    &&& match model_place(old(self).slot(node).store.data@, model.tag(), 0) {
                        Some(i) => {
                            &&& final(self).slot(node).store.data@ == old(self).slot(
                                node,
                            ).store.data@.update(i, model)
                            &&& previous == Some(old(self).slot(node).store.data@[i])
                        },
                        None => {
                            &&& final(self).slot(node).store.data@ == old(self).slot(
                                node,
                            ).store.data@.push(model)
                            &&& previous is None
                        },
                    }
                },
            },
    {
        if !self.tree.contains(node) {
            return Err(model);
        }
        let i = node.index();
        Ok(self.slots[i].store.attach(model))
    }

    /// What handing `event` to the models of the node `node` makes of the
    /// store of the node and of the queue.
    pub open spec fn delivered(&self, node: Entity, event: Event<D::Message>) -> StoreOutcome<D> {
        store_handled(
            self.slot(node).store.lenses@,
            node,
            0,
            StoreOutcome {
                data: self.slot(node).store.data@,
                event,
                queue: self.pending(),
                detection: Detection {
                    anchors: Seq::new(self.slot(node).store.lenses@.len(), |i: int| None::<D>),
                    dirty: Seq::empty(),
                },
            },
        )
    }

    /// Hands `event` to the models of the node `node`, and to no other node:
    /// each model handles it, until one of them consumes it, and after each
    /// model change detection runs for it. What the models emit is put at the
    /// end of the queue. Returns the entities to rebuild, each once. Nothing
    /// happens where `node` is not in the tree.
    pub fn dispatch_event(&mut self, node: Entity, event: &mut Event<D::Message>) -> (dirty: Vec<
        Entity,
    >)
        requires
            old(self).wf(),
        ensures
            final(self).wf(),
            final(self).tree() == old(self).tree(),
            final(self).current() == old(self).current(),
            final(self).count() == old(self).count(),
            final(self).slots().len() == old(self).slots().len(),
            forall|e: Entity|
                e != node && e.spec_index() < old(self).slots().len()
                    ==> #[trigger] final(self).slot(e) == old(self).slot(e),
            !old(self).has(node) ==> {
                &&& dirty@.len() == 0
                &&& *final(event) == *old(event)
                &&& final(self).slots() == old(self).slots()
                &&& final(self).pending() == old(self).pending()
            },
            old(self).has(node) ==> {
                &&& final(self).slot(node).view == old(self).slot(node).view
                &&& final(self).slot(node).style == old(self).slot(node).style
                &&& final(self).slot(node).store.data@ == old(self).delivered(
                    node,
                    *old(event),
                ).data
                &&& *final(event) == old(self).delivered(node, *old(event)).event
                &&& final(self).pending() == old(self).delivered(node, *old(event)).queue
                &&& dirty@ == old(self).delivered(node, *old(event)).detection.dirty
                &&& final(self).slot(node).store.lenses@.len() == old(self).slot(
                    node,
                ).store.lenses@.len()
                &&& forall|j: int|
                    0 <= j < old(self).slot(node).store.lenses@.len() ==> shown_since(
                        old(self).slot(node).store.lenses@[j],
                        #[trigger] final(self).slot(node).store.lenses@[j],
                        old(self).delivered(node, *old(event)).detection.anchors[j],
                    )
            },
    {
        if !self.tree.contains(node) {
            return Vec::new();
        }
        let mut queue: Vec<Event<D::Message>> = Vec::new();
        core::mem::swap(&mut self.queue, &mut queue);
        let mut cx = EventContext::new(node, queue);
        let ghost before = self.slots@;
        let dirty = self.slots[node.index()].store.handle(&mut cx, event);
        self.queue = cx.into_queue();
        proof {
            assert forall|k: int| 0 <= k < self.slots@.len() implies (
            #[trigger] self.slots@[k]).store.wf() by {
                if k != node.spec_index() {
                    assert(self.slots@[k] == before[k]);
                }
            }
        }
        dirty
    }

    /// The observers of the witness that the node `host` keeps for lenses
    /// with the tag `key`, in the order in which they came to observe.
    pub fn observers(&self, host: Entity, key: &Vec<u64>) -> (observers: Option<&Vec<Entity>>)
        requires
            self.wf(),
        ensures
            match observers {
                Some(list) => {
                    &&& self.has(host)
                    &&& lens_place(self.slot(host).store.lenses@, key@, 0) matches Some(w)
                    &&& list@ == self.slot(host).store.lenses@[w].wrap.observer_seq()
                },
                None => !self.has(host) || lens_place(self.slot(host).store.lenses@, key@, 0)
                    is None,
            },
    {
        if !self.tree.contains(host) {
            return None;
        }
        let store = &self.slots[host.index()].store;
        proof {
            lemma_lens_place(store.lenses@, key@, 0);
        }
        match store.find_lens(key) {
            Some(w) => Some(store.lenses[w].wrap.observers()),
            None => None,
        }
    }

    /// Why the node `e` cannot be destroyed, if it cannot.
    pub open spec fn destroy_error(&self, e: Entity) -> Option<DestroyError> {
        if !self.has(e) {
            Some(DestroyError::NotPresent)
        } else if e == Entity::root() {
            Some(DestroyError::Root)
        } else if self.tree()[e].children.len() > 0 {
            Some(DestroyError::HasChildren)
        } else if e == self.current() {
            Some(DestroyError::Current)
        } else {
            None
        }
    }

    /// Destroys the node `e`, which has no children: takes it out of the
    /// tree, gives its entity back to be handed out again, empties its slot
    /// in the side tables, and takes it out of the observers of every
    /// witness. The models and the view that were stored at the node are
    /// dropped. The root, a node with children, and the node below which
    /// views are built at present are not destroyed.
    pub fn destroy(&mut self, e: Entity) -> (destroyed: Result<(), DestroyError>)
        requires
            old(self).wf(),
        ensures
            final(self).wf(),
            final(self).current() == old(self).current(),
            final(self).count() == old(self).count(),
            final(self).pending() == old(self).pending(),
            match old(self).destroy_error(e) {
                Some(error) => {
                    &&& destroyed == Err::<(), DestroyError>(error)
                    &&& *final(self) == *old(self)
                },
                None => {
                    &&& destroyed is Ok
                    &&& final(self).tree() == pruned(old(self).tree(), e)
                    &&& final(self).slots().len() == old(self).slots().len()
                    &&& Self::is_fresh(final(self).slot(e))
                    &&& forall|i: int|
                        0 <= i < old(self).slots().len() && i != e.spec_index() ==> {
                            &&& (#[trigger] final(self).slots()[i]).view == old(
                                self,
                            ).slots()[i].view
                            &&& final(self).slots()[i].style == old(self).slots()[i].style
                            &&& final(self).slots()[i].store.data == old(
                                self,
                            ).slots()[i].store.data
                            &&& final(self).slots()[i].store.lenses@.len() == old(
                                self,
                            ).slots()[i].store.lenses@.len()
                        }
                    &&& forall|i: int, j: int|
                        0 <= i < old(self).slots().len() && i != e.spec_index() && 0 <= j < old(
                            self,
                        ).slots()[i].store.lenses@.len() ==> without_observer(
                            old(self).slots()[i].store.lenses@[j],
                            #[trigger] final(self).slots()[i].store.lenses@[j],
                            e,
                        )
                },
            },
    {
        proof {
            self.tree.lemma_wf();
        }
        if !self.tree.contains(e) {
            return Err(DestroyError::NotPresent);
        }
        if e.0 == 0 {
            return Err(DestroyError::Root);
        }
        if self.tree.child_count(e) > 0 {
            return Err(DestroyError::HasChildren);
        }
        if e == self.current {
            return Err(DestroyError::Current);
        }
        let ghost before = self.tree@;
        let removed = self.tree.remove(e);
        let was_alive = self.entity_manager.destroy(e);
        proof {
            crate::tree::lemma_pruned_paths(before, e);
        }
        self.slots.set(
            e.index(),
            Slot { store: ModelDataStore::new(), view: None, style: Style::new() },
        );
        let ghost emptied = self.slots@;
        let mut i: usize = 0;
        while i < self.slots.len()
            invariant
                i <= self.slots@.len(),
                self.entity_manager.wf(),
                self.tree.wf(),
                self.tree@ == pruned(before, e),
                self.current == old(self).current,
                self.count == old(self).count,
                self.queue == old(self).queue,
                self.slots@.len() == emptied.len(),
                forall|o: Entity|
                    self.entity_manager.is_alive(o) <==> (o != e && old(
                        self,
                    ).entity_manager.is_alive(o)),
                forall|k: int|
                    0 <= k < self.slots@.len() ==> (#[trigger] self.slots@[k]).store.wf(),
                forall|k: int| i <= k < self.slots@.len() ==> self.slots@[k] == emptied[k],
                forall|k: int|
                    0 <= k < i ==> {
                        &&& (#[trigger] self.slots@[k]).view == emptied[k].view
                        &&& self.slots@[k].style == emptied[k].style
                        &&& self.slots@[k].store.data == emptied[k].store.data
                        &&& self.slots@[k].store.lenses@.len() == emptied[k].store.lenses@.len()
                    },
                forall|k: int, j: int|
                    0 <= k < i && 0 <= j < emptied[k].store.lenses@.len() ==> without_observer(
                        emptied[k].store.lenses@[j],
                        #[trigger] self.slots@[k].store.lenses@[j],
                        e,
                    ),
            decreases self.slots@.len() - i,
        {
            let ghost held = self.slots@;
            self.slots[i].store.remove_observer(e);
            proof {
                assert forall|k: int| 0 <= k < self.slots@.len() implies (
                #[trigger] self.slots@[k]).store.wf() by {
                    if k != i {
                        assert(self.slots@[k] == held[k]);
                    }
                }
                assert forall|k: int| i + 1 <= k < self.slots@.len() implies self.slots@[k]
                    == emptied[k] by {
                    assert(self.slots@[k] == held[k]);
                }
                assert forall|k: int| 0 <= k < i + 1 implies {
                    &&& (#[trigger] self.slots@[k]).view == emptied[k].view
                    &&& self.slots@[k].style == emptied[k].style
                    &&& self.slots@[k].store.data == emptied[k].store.data
                    &&& self.slots@[k].store.lenses@.len() == emptied[k].store.lenses@.len()
                } by {
                    if k < i {
                        assert(self.slots@[k] == held[k]);
                    }
                }
                assert forall|k: int, j: int|
                    0 <= k < i + 1 && 0 <= j < emptied[k].store.lenses@.len()
                    implies without_observer(
                    emptied[k].store.lenses@[j],
                    #[trigger] self.slots@[k].store.lenses@[j],
                    e,
                ) by {
                    if k < i {
                        assert(self.slots@[k] == held[k]);
                    }
                }
            }
            i = i + 1;
        }
        Ok(())
    }
}

} // verus!
