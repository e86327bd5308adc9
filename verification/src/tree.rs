//! The interface tree: which entity is whose parent, and in which order the
//! children of a node stand.

use vstd::prelude::*;
use crate::entity::Entity;

verus! {

/// What the tree knows of one node.
pub struct NodeView {
    pub parent: Option<Entity>,
    pub children: Seq<Entity>,
    pub depth: nat,
}

/// Why a node could not be added or taken out.
#[derive(Clone, Copy, PartialEq, Eq, Structural, Debug)]
pub enum TreeError {
    /// The entity given as parent is not in the tree.
    MissingParent,
    /// The entity given as child is in the tree already.
    AlreadyPresent,
    /// The child would lie deeper than the tree can count.
    TooDeep,
    /// The entity to take out is not in the tree.
    NotPresent,
    /// The entity to take out is the root.
    Root,
    /// The entity to take out has children.
    HasChildren,
}

struct TreeNode {
    parent: Option<Entity>,
    children: Vec<Entity>,
    depth: usize,
}

/// A tree of entities with the root `Entity::root()`.
pub struct Tree {
    slots: Vec<Option<TreeNode>>,
}

/// The entities from `e` up to the root of `m`: `e` first, then its parent,
/// the root last. Empty where `e` is not in `m`.
pub open spec fn path_in(m: Map<Entity, NodeView>, e: Entity) -> Seq<Entity>
    decreases
        (if m.contains_key(e) {
            m[e].depth
        } else {
            0
        }),
{
    if !m.contains_key(e) {
        Seq::empty()
    } else {
        match m[e].parent {
            Some(p) => if m.contains_key(p) && m[p].depth < m[e].depth {
                seq![e] + path_in(m, p)
            } else {
                seq![e]
            },
            None => seq![e],
        }
    }
}

/// What makes a map of nodes a tree: the root is there and has no parent,
/// every other node hangs one level below a node of the tree and stands among
/// the children of that node, and every entry of a child list is a node whose
/// parent is the owner of the list.
pub open spec fn is_tree(m: Map<Entity, NodeView>) -> bool {
    &&& m.contains_key(Entity::root())
    &&& m[Entity::root()].parent is None
    &&& forall|e: Entity| #[trigger]
        m.contains_key(e) ==> match m[e].parent {
            Some(p) => m.contains_key(p) && m[e].depth == m[p].depth + 1 && m[p].children.contains(
                e,
            ),
            None => e == Entity::root(),
        }
    &&& forall|e: Entity, i: int|
        m.contains_key(e) && 0 <= i < m[e].children.len() ==> {
            &&& m.contains_key(#[trigger] m[e].children[i])
            &&& m[m[e].children[i]].parent == Some(e)
        }
}

/// The entities of `list` in their order, without `e`.
pub open spec fn without(list: Seq<Entity>, e: Entity) -> Seq<Entity>
    decreases list.len(),
{
    if list.len() == 0 {
        Seq::empty()
    } else if list.last() == e {
        without(list.drop_last(), e)
    } else {
        without(list.drop_last(), e).push(list.last())
    }
}

/// A list in which no entity stands twice is such a list without `e` too.
pub proof fn lemma_without_keeps_apart(list: Seq<Entity>, e: Entity)
    requires
        list.no_duplicates(),
    ensures
        without(list, e).no_duplicates(),
    decreases list.len(),
{
    if list.len() > 0 {
        let rest = list.drop_last();
        assert forall|i: int, j: int|
            0 <= i < rest.len() && 0 <= j < rest.len() && i != j implies rest[i] != rest[j] by {
            assert(rest[i] == list[i]);
            assert(rest[j] == list[j]);
        }
        lemma_without_keeps_apart(rest, e);
        lemma_without(rest, e);
        let short = without(rest, e);
        if list.last() != e {
            if short.contains(list.last()) {
                assert(rest.contains(list.last()));
                let k = choose|k: int| 0 <= k < rest.len() && rest[k] == list.last();
                assert(list[k] == list[list.len() - 1]);
                assert(false);
            }
            assert forall|i: int, j: int|
                0 <= i < short.len() + 1 && 0 <= j < short.len() + 1 && i != j implies short.push(
                list.last(),
            )[i] != short.push(list.last())[j] by {
                if i < short.len() && j < short.len() {
                    assert(short[i] != short[j]);
                } else if i < short.len() {
                    assert(short.contains(short[i]));
                } else {
                    assert(short.contains(short[j]));
                }
            }
        }
    }
}

/// A list without `e` holds the entities of the list other than `e`, and
/// none else.
pub proof fn lemma_without(list: Seq<Entity>, e: Entity)
    ensures
        !without(list, e).contains(e),
        forall|o: Entity| o != e ==> (without(list, e).contains(o) <==> list.contains(o)),
        without(list, e).len() <= list.len(),
        !list.contains(e) ==> without(list, e) == list,
    decreases list.len(),
{
    if list.len() > 0 {
        let rest = list.drop_last();
        lemma_without(rest, e);
        let short = without(rest, e);
        assert forall|o: Entity| o != e implies (without(list, e).contains(o) <==> list.contains(
            o,
        )) by {
            if list.contains(o) {
                let i = choose|i: int| 0 <= i < list.len() && list[i] == o;
                if i < rest.len() {
                    assert(rest[i] == o);
                    assert(rest.contains(o));
                    assert(short.contains(o));
                    let k = choose|k: int| 0 <= k < short.len() && short[k] == o;
                    if list.last() != e {
                        assert(without(list, e)[k] == o);
                    }
                } else {
                    assert(list.last() == o);
                    assert(without(list, e)[short.len() as int] == o);
                }
            }
            if without(list, e).contains(o) {
                let k = choose|k: int| 0 <= k < without(list, e).len() && without(list, e)[k] == o;
                if k < short.len() {
                    assert(short[k] == o);
                    assert(rest.contains(o));
                    let i = choose|i: int| 0 <= i < rest.len() && rest[i] == o;
                    assert(list[i] == o);
                } else {
                    assert(list[list.len() - 1] == o);
                }
            }
        }
        if without(list, e).contains(e) {
            let k = choose|k: int| 0 <= k < without(list, e).len() && without(list, e)[k] == e;
            if k < short.len() {
                assert(short[k] == e);
            }
        }
        if !list.contains(e) {
            assert(!rest.contains(e)) by {
                if rest.contains(e) {
                    let i = choose|i: int| 0 <= i < rest.len() && rest[i] == e;
                    assert(list[i] == e);
                }
            }
            assert(list.last() != e) by {
                if list.last() == e {
                    assert(list[list.len() - 1] == e);
                }
            }
            assert(without(list, e) =~= list);
        }
    }
}

/// `before` without the leaf `leaf`: the node is gone, and its parent has the
/// children that it had, without `leaf`.
pub open spec fn pruned(before: Map<Entity, NodeView>, leaf: Entity) -> Map<Entity, NodeView> {
    let parent = before[leaf].parent->0;
    before.remove(leaf).insert(
        parent,
        NodeView {
            parent: before[parent].parent,
            children: without(before[parent].children, leaf),
            depth: before[parent].depth,
        },
    )
}

/// Taking a leaf out of a tree leaves a tree, in which every other node has
/// the path that it had.
pub proof fn lemma_pruned_paths(before: Map<Entity, NodeView>, leaf: Entity)
    requires
        is_tree(before),
        before.contains_key(leaf),
        leaf != Entity::root(),
        before[leaf].children.len() == 0,
    ensures
        is_tree(pruned(before, leaf)),
        !pruned(before, leaf).contains_key(leaf),
        forall|e: Entity|
            e != leaf ==> pruned(before, leaf).contains_key(e) == before.contains_key(e),
        forall|e: Entity| #[trigger]
            before.contains_key(e) && e != leaf ==> path_in(pruned(before, leaf), e) == path_in(
                before,
                e,
            ),
{
    let after = pruned(before, leaf);
    let parent = before[leaf].parent->0;
    lemma_without(before[parent].children, leaf);
    assert(parent != leaf);
    assert forall|e: Entity| #[trigger] after.contains_key(e) implies match after[e].parent {
        Some(p) => after.contains_key(p) && after[e].depth == after[p].depth + 1
            && after[p].children.contains(e),
        None => e == Entity::root(),
    } by {
        assert(before.contains_key(e));
        match before[e].parent {
            Some(p) => {
                assert(p != leaf) by {
                    if p == leaf {
                        assert(before[leaf].children.contains(e));
                    }
                }
            },
            None => {},
        }
    }
    assert forall|e: Entity, i: int|
        after.contains_key(e) && 0 <= i < after[e].children.len() implies {
        &&& after.contains_key(#[trigger] after[e].children[i])
        &&& after[after[e].children[i]].parent == Some(e)
    } by {
        let c = after[e].children[i];
        assert(after[e].children.contains(c));
        if e == parent {
            assert(c != leaf);
            assert(before[parent].children.contains(c));
            let k = choose|k: int|
                0 <= k < before[parent].children.len() && before[parent].children[k] == c;
            assert(before.contains_key(before[parent].children[k]));
        } else {
            assert(before.contains_key(before[e].children[i]));
            assert(before[c].parent == Some(e));
            assert(c != leaf);
        }
    }
    assert forall|e: Entity| #[trigger] before.contains_key(e) && e != leaf implies path_in(
        after,
        e,
    ) == path_in(before, e) by {
        lemma_pruned_path_of(before, leaf, e);
    }
}

proof fn lemma_pruned_path_of(before: Map<Entity, NodeView>, leaf: Entity, e: Entity)
    requires
        is_tree(before),
        before.contains_key(leaf),
        leaf != Entity::root(),
        before[leaf].children.len() == 0,
        before.contains_key(e),
        e != leaf,
    ensures
        path_in(pruned(before, leaf), e) == path_in(before, e),
    decreases before[e].depth,
{
    match before[e].parent {
        Some(p) => {
            assert(before.contains_key(p));
            assert(p != leaf) by {
                if p == leaf {
                    assert(before[leaf].children.contains(e));
                }
            }
            lemma_pruned_path_of(before, leaf, p);
        },
        None => {},
    }
}

/// `after` is `before` with the new leaf `child` hung last below `parent`.
pub open spec fn grown(
    before: Map<Entity, NodeView>,
    child: Entity,
    parent: Entity,
) -> Map<Entity, NodeView> {
    before.insert(
        parent,
        NodeView {
            parent: before[parent].parent,
            children: before[parent].children.push(child),
            depth: before[parent].depth,
        },
    ).insert(
        child,
        NodeView { parent: Some(parent), children: Seq::empty(), depth: before[parent].depth + 1 },
    )
}

/// Hanging a new leaf into a tree leaves the path of every node that was there
/// as it was, and the path of the leaf is the leaf followed by the path of its
/// parent.
pub proof fn lemma_grown_paths(before: Map<Entity, NodeView>, child: Entity, parent: Entity)
    requires
        is_tree(before),
        before.contains_key(parent),
        !before.contains_key(child),
    ensures
        is_tree(grown(before, child, parent)),
        forall|e: Entity| #[trigger]
            before.contains_key(e) ==> path_in(grown(before, child, parent), e) == path_in(
                before,
                e,
            ),
        path_in(grown(before, child, parent), child) == seq![child] + path_in(before, parent),
{
    let after = grown(before, child, parent);
    assert(is_tree(after)) by {
        assert forall|e: Entity| #[trigger] after.contains_key(e) implies match after[e].parent {
            Some(p) => after.contains_key(p) && after[e].depth == after[p].depth + 1
                && after[p].children.contains(e),
            None => e == Entity::root(),
        } by {
            if e == child {
                assert(after[parent].children[before[parent].children.len() as int] == child);
            } else {
                match before[e].parent {
                    Some(p) => {
                        assert(before[p].children.contains(e));
                        let k = choose|k: int|
                            0 <= k < before[p].children.len() && before[p].children[k] == e;
                        assert(after[p].children[k] == e);
                    },
                    None => {},
                }
            }
        }
        assert forall|e: Entity, i: int|
            after.contains_key(e) && 0 <= i < after[e].children.len() implies {
            &&& after.contains_key(#[trigger] after[e].children[i])
            &&& after[after[e].children[i]].parent == Some(e)
        } by {
            if e == child {
            } else if e == parent {
                if i < before[parent].children.len() {
                    assert(before.contains_key(before[e].children[i]));
                }
            } else {
                assert(before.contains_key(before[e].children[i]));
            }
        }
    }
    assert forall|e: Entity| #[trigger] before.contains_key(e) implies path_in(after, e)
        == path_in(before, e) by {
        lemma_grown_path_of(before, child, parent, e);
    }
    lemma_grown_path_of(before, child, parent, parent);
}

proof fn lemma_grown_path_of(
    before: Map<Entity, NodeView>,
    child: Entity,
    parent: Entity,
    e: Entity,
)
    requires
        is_tree(before),
        before.contains_key(parent),
        !before.contains_key(child),
        before.contains_key(e),
    ensures
        path_in(grown(before, child, parent), e) == path_in(before, e),
    decreases before[e].depth,
{
    let after = grown(before, child, parent);
    match before[e].parent {
        Some(p) => {
            assert(before.contains_key(p));
            lemma_grown_path_of(before, child, parent, p);
        },
        None => {},
    }
}

/// In a tree every node stands first on its own path, and the rest of the
/// path is the path of its parent.
pub proof fn lemma_path_unfold(m: Map<Entity, NodeView>, e: Entity)
    requires
        is_tree(m),
        m.contains_key(e),
    ensures
        path_in(m, e).len() > 0,
        path_in(m, e)[0] == e,
        match m[e].parent {
            Some(p) => path_in(m, e) == seq![e] + path_in(m, p),
            None => path_in(m, e) == seq![e],
        },
{
}

/// Every entity on a path of a tree is a node of the tree.
pub proof fn lemma_path_members(m: Map<Entity, NodeView>, e: Entity)
    requires
        is_tree(m),
    ensures
        forall|i: int| 0 <= i < path_in(m, e).len() ==> m.contains_key(#[trigger] path_in(m, e)[i]),
    decreases
        (if m.contains_key(e) {
            m[e].depth
        } else {
            0
        }),
{
    if m.contains_key(e) {
        match m[e].parent {
            Some(p) => {
                lemma_path_members(m, p);
                assert(path_in(m, e) == seq![e] + path_in(m, p));
            },
            None => {},
        }
    }
}

/// The node of the view that is built at place `index` below `parent`: the
/// child that stands there, or else `fresh`.
pub open spec fn node_at(
    m: Map<Entity, NodeView>,
    parent: Entity,
    index: int,
    fresh: Entity,
) -> Entity {
    if 0 <= index < m[parent].children.len() {
        m[parent].children[index]
    } else {
        fresh
    }
}

/// The tree after a view has been built at place `index` below `parent`: as
/// it was where a child stands at the place, or else with `fresh` hung behind
/// the children of `parent`.
pub open spec fn tree_at(
    m: Map<Entity, NodeView>,
    parent: Entity,
    index: int,
    fresh: Entity,
) -> Map<Entity, NodeView> {
    if 0 <= index < m[parent].children.len() {
        m
    } else {
        grown(m, fresh, parent)
    }
}

/// The nodes of a row of views built below `parent` from place `from` on, one
/// for each entity of `fresh`: the entity is used where no child stands at
/// the place of the view.
pub open spec fn row_nodes(
    m: Map<Entity, NodeView>,
    parent: Entity,
    from: int,
    fresh: Seq<Entity>,
) -> Seq<Entity>
    decreases fresh.len(),
{
    if fresh.len() == 0 {
        Seq::empty()
    } else {
        seq![node_at(m, parent, from, fresh[0])] + row_nodes(
            tree_at(m, parent, from, fresh[0]),
            parent,
            from + 1,
            fresh.drop_first(),
        )
    }
}

/// The tree after a row of views has been built below `parent` from place
/// `from` on, one for each entity of `fresh`.
pub open spec fn row_tree(
    m: Map<Entity, NodeView>,
    parent: Entity,
    from: int,
    fresh: Seq<Entity>,
) -> Map<Entity, NodeView>
    decreases fresh.len(),
{
    if fresh.len() == 0 {
        m
    } else {
        row_tree(tree_at(m, parent, from, fresh[0]), parent, from + 1, fresh.drop_first())
    }
}

/// After a row of views has been built, the children of `parent` from place
/// `from` on are the nodes of the row, and `parent` has at least as many
/// children as the row reaches.
proof fn lemma_row_children(
    m: Map<Entity, NodeView>,
    parent: Entity,
    from: int,
    fresh: Seq<Entity>,
)
    requires
        m.contains_key(parent),
        0 <= from <= m[parent].children.len(),
        forall|i: int| 0 <= i < fresh.len() ==> fresh[i] != parent,
    ensures
        row_tree(m, parent, from, fresh).contains_key(parent),
        row_tree(m, parent, from, fresh)[parent].children.len() >= from + fresh.len(),
        row_tree(m, parent, from, fresh)[parent].children.len() >= m[parent].children.len(),
        forall|k: int|
            0 <= k < m[parent].children.len() ==> row_tree(
                m,
                parent,
                from,
                fresh,
            )[parent].children[k] == m[parent].children[k],
        forall|k: int|
            0 <= k < fresh.len() ==> row_tree(m, parent, from, fresh)[parent].children[from + k]
                == #[trigger] row_nodes(m, parent, from, fresh)[k],
        row_nodes(m, parent, from, fresh).len() == fresh.len(),
    decreases fresh.len(),
{
    if fresh.len() > 0 {
        let next = tree_at(m, parent, from, fresh[0]);
        let rest = fresh.drop_first();
        assert forall|i: int| 0 <= i < rest.len() implies rest[i] != parent by {
            assert(rest[i] == fresh[i + 1]);
        }
        lemma_row_children(next, parent, from + 1, rest);
        let end = row_tree(m, parent, from, fresh);
        assert(end == row_tree(next, parent, from + 1, rest));
        assert(next[parent].children[from] == node_at(m, parent, from, fresh[0]));
        assert forall|k: int| 0 <= k < m[parent].children.len() implies end[parent].children[k]
            == m[parent].children[k] by {
            assert(next[parent].children[k] == m[parent].children[k]);
            assert(end[parent].children[k] == next[parent].children[k]);
        }
        assert forall|k: int| 0 <= k < fresh.len() implies end[parent].children[from + k]
            == #[trigger] row_nodes(m, parent, from, fresh)[k] by {
            if k > 0 {
                assert(row_nodes(m, parent, from, fresh)[k] == row_nodes(
                    next,
                    parent,
                    from + 1,
                    rest,
                )[k - 1]);
            }
        }
    }
}

/// Building a row of views over a row that has been built finds every node of
/// the row in its place: whatever entities are offered, none is used, the
/// nodes are the same, and the tree stays as it is.
proof fn lemma_row_found(
    m: Map<Entity, NodeView>,
    parent: Entity,
    from: int,
    nodes: Seq<Entity>,
    other: Seq<Entity>,
)
    requires
        m.contains_key(parent),
        0 <= from,
        other.len() == nodes.len(),
        from + nodes.len() <= m[parent].children.len(),
        forall|k: int| 0 <= k < nodes.len() ==> m[parent].children[from + k] == nodes[k],
    ensures
        row_tree(m, parent, from, other) == m,
        row_nodes(m, parent, from, other) == nodes,
    decreases other.len(),
{
    if other.len() > 0 {
        let rest = other.drop_first();
        let tail = nodes.drop_first();
        assert forall|k: int| 0 <= k < tail.len() implies m[parent].children[from + 1 + k]
            == tail[k] by {
            assert(tail[k] == nodes[k + 1]);
        }
        lemma_row_found(m, parent, from + 1, tail, rest);
        assert(nodes =~= seq![nodes[0]] + tail);
    } else {
        assert(nodes =~= Seq::<Entity>::empty());
    }
}

/// Building again is building the same: when a row of views has been built
/// below `parent` from place `from` on, building it once more from the same
/// place finds every node where it is. The second run yields the same nodes
/// in the same order, uses none of the entities that it is offered, and
/// leaves the tree as the first run left it.
pub proof fn lemma_rebuild_is_idempotent(
    m: Map<Entity, NodeView>,
    parent: Entity,
    from: int,
    fresh: Seq<Entity>,
    other: Seq<Entity>,
)
    requires
        m.contains_key(parent),
        0 <= from <= m[parent].children.len(),
        other.len() == fresh.len(),
        forall|i: int| 0 <= i < fresh.len() ==> fresh[i] != parent,
    ensures
        row_nodes(row_tree(m, parent, from, fresh), parent, from, other) == row_nodes(
            m,
            parent,
            from,
            fresh,
        ),
        row_tree(row_tree(m, parent, from, fresh), parent, from, other) == row_tree(
            m,
            parent,
            from,
            fresh,
        ),
{
    lemma_row_children(m, parent, from, fresh);
    lemma_row_found(
        row_tree(m, parent, from, fresh),
        parent,
        from,
        row_nodes(m, parent, from, fresh),
        other,
    );
}

impl View for Tree {
    type V = Map<Entity, NodeView>;

    closed spec fn view(&self) -> Map<Entity, NodeView> {
        Map::new(
            |e: Entity| e.spec_index() < self.slots@.len() && self.slots@[e.spec_index()] is Some,
            |e: Entity|
                NodeView {
                    parent: self.slots@[e.spec_index()]->0.parent,
                    children: self.slots@[e.spec_index()]->0.children@,
                    depth: self.slots@[e.spec_index()]->0.depth as nat,
                },
        )
    }
}

impl Tree {
    /// The nodes form a tree, and the table is no longer than entities can
    /// name.
    pub closed spec fn wf(&self) -> bool {
        &&& is_tree(self@)
        &&& self.slots@.len() <= u32::MAX as nat + 1
    }

    /// A tree in order is a tree.
    pub proof fn lemma_wf(&self)
        requires
            self.wf(),
        ensures
            is_tree(self@),
    {
    }

    /// The path from `e` up to the root: `e` first, the root last.
    pub open spec fn path(&self, e: Entity) -> Seq<Entity> {
        path_in(self@, e)
    }

    /// A tree that holds its root and nothing else.
    pub fn new() -> (tree: Tree)
        ensures
            tree.wf(),
            tree@ == Map::<Entity, NodeView>::empty().insert(
                Entity::root(),
                NodeView { parent: None, children: Seq::empty(), depth: 0 },
            ),
    {
        let mut slots: Vec<Option<TreeNode>> = Vec::new();
        slots.push(Some(TreeNode { parent: None, children: Vec::new(), depth: 0 }));
        let tree = Tree { slots };
        assert(tree@ =~= Map::<Entity, NodeView>::empty().insert(
            Entity::root(),
            NodeView { parent: None, children: Seq::empty(), depth: 0 },
        ));
        tree
    }

    /// Whether `e` is a node of the tree.
    pub fn contains(&self, e: Entity) -> (found: bool)
        ensures
            found == self@.contains_key(e),
    {
        e.index() < self.slots.len() && self.slots[e.index()].is_some()
    }

    /// The parent of `e`: `None` for the root and for an entity that is not in
    /// the tree.
    pub fn get_parent(&self, e: Entity) -> (parent: Option<Entity>)
        ensures
            parent == (if self@.contains_key(e) {
                self@[e].parent
            } else {
                None
            }),
    {
        if e.index() < self.slots.len() {
            match &self.slots[e.index()] {
                Some(node) => node.parent,
                None => None,
            }
        } else {
            None
        }
    }

    /// The child of `parent` that stands at place `index` among its children.
    pub fn get_child(&self, parent: Entity, index: usize) -> (child: Option<Entity>)
        ensures
            child == (if self@.contains_key(parent) && index < self@[parent].children.len() {
                Some(self@[parent].children[index as int])
            } else {
                None
            }),
    {
        if parent.index() < self.slots.len() {
            match &self.slots[parent.index()] {
                Some(node) => if index < node.children.len() {
                    Some(node.children[index])
                } else {
                    None
                },
                None => None,
            }
        } else {
            None
        }
    }

    /// How far below the root `e` lies; `None` for an entity that is not in
    /// the tree.
    pub fn depth(&self, e: Entity) -> (depth: Option<usize>)
        ensures
            match depth {
                Some(d) => self@.contains_key(e) && self@[e].depth == d,
                None => !self@.contains_key(e),
            },
    {
        if e.index() < self.slots.len() {
            match &self.slots[e.index()] {
                Some(node) => Some(node.depth),
                None => None,
            }
        } else {
            None
        }
    }

    /// How many children `parent` has; 0 for an entity that is not in the tree.
    pub fn child_count(&self, parent: Entity) -> (count: usize)
        ensures
            count == (if self@.contains_key(parent) {
                self@[parent].children.len()
            } else {
                0
            }),
    {
        if parent.index() < self.slots.len() {
            match &self.slots[parent.index()] {
                Some(node) => node.children.len(),
                None => 0,
            }
        } else {
            0
        }
    }

    /// The entities from `e` up to the root, nearest first, root last.
    pub fn parent_iter(&self, e: Entity) -> (path: Vec<Entity>)
        requires
            self.wf(),
        ensures
            path@ == self.path(e),
    {
        let mut path: Vec<Entity> = Vec::new();
        if !self.contains(e) {
            return path;
        }
        let mut current = e;
        loop
            invariant
                self.wf(),
                self@.contains_key(current),
                self.path(e) == path@ + self.path(current),
            decreases self@[current].depth,
        {
            path.push(current);
            proof {
                lemma_path_unfold(self@, current);
            }
            match self.get_parent(current) {
                Some(parent) => {
                    assert(self.path(e) == path@ + self.path(parent)) by {
                        assert(path@ + self.path(parent) =~= path@.drop_last() + (seq![current]
                            + self.path(parent)));
                    }
                    current = parent;
                },
                None => {
                    assert(self.path(e) == path@) by {
                        assert(path@ =~= path@.drop_last() + seq![current]);
                    }
                    return path;
                },
            }
        }
    }

    /// Hangs `child` below `parent`, behind the children that `parent` has.
    pub fn add(&mut self, child: Entity, parent: Entity) -> (added: Result<(), TreeError>)
        requires
            old(self).wf(),
        ensures
            final(self).wf(),
            added == (if !old(self)@.contains_key(parent) {
                Err::<(), TreeError>(TreeError::MissingParent)
            } else if old(self)@.contains_key(child) {
                Err(TreeError::AlreadyPresent)
            } else if old(self)@[parent].depth >= usize::MAX {
                Err(TreeError::TooDeep)
            } else {
                Ok(())
            }),
            added is Ok ==> final(self)@ == grown(old(self)@, child, parent),
            added is Err ==> final(self)@ == old(self)@,
    {
        if !self.contains(parent) {
            return Err(TreeError::MissingParent);
        }
        if self.contains(child) {
            return Err(TreeError::AlreadyPresent);
        }
        let parent_depth = match &self.slots[parent.index()] {
            Some(node) => node.depth,
            None => 0,
        };
        if parent_depth == usize::MAX {
            return Err(TreeError::TooDeep);
        }
        while self.slots.len() <= child.index()
            invariant
                self@ == old(self)@,
                self.slots@.len() <= u32::MAX as nat + 1,
                old(self).slots@.len() <= self.slots@.len(),
            decreases child.spec_index() + 1 - self.slots@.len(),
        {
            let ghost before = self@;
            self.slots.push(None);
            assert(self@ =~= before);
        }
        let ghost before = self@;
        self.slots.set(
            child.index(),
            Some(TreeNode { parent: Some(parent), children: Vec::new(), depth: parent_depth + 1 }),
        );
        match &mut self.slots[parent.index()] {
            Some(node) => {
                node.children.push(child);
            },
            None => {},
        }
        proof {
            assert(self@ =~= grown(before, child, parent));
            lemma_grown_paths(before, child, parent);
        }
        Ok(())
    }

    /// Takes the leaf `leaf` out of the tree: out of the children of its
    /// parent, and out of the nodes. The root and a node with children stay.
    pub fn remove(&mut self, leaf: Entity) -> (removed: Result<(), TreeError>)
        requires
            old(self).wf(),
        ensures
            final(self).wf(),
            removed == (if !old(self)@.contains_key(leaf) {
                Err::<(), TreeError>(TreeError::NotPresent)
            } else if leaf == Entity::root() {
                Err(TreeError::Root)
            } else if old(self)@[leaf].children.len() > 0 {
                Err(TreeError::HasChildren)
            } else {
                Ok(())
            }),
            removed is Ok ==> final(self)@ == pruned(old(self)@, leaf),
            removed is Err ==> final(self)@ == old(self)@,
    {
        if !self.contains(leaf) {
            return Err(TreeError::NotPresent);
        }
        if leaf.0 == 0 {
            return Err(TreeError::Root);
        }
        if self.child_count(leaf) > 0 {
            return Err(TreeError::HasChildren);
        }
        let parent = match self.get_parent(leaf) {
            Some(parent) => parent,
            None => {
                return Err(TreeError::Root);
            },
        };
        let ghost before = self@;
        let mut kept: Vec<Entity> = Vec::new();
        match &self.slots[parent.index()] {
            Some(node) => {
                let mut i: usize = 0;
                while i < node.children.len()
                    invariant
                        i <= node.children@.len(),
                        kept@ == without(node.children@.take(i as int), leaf),
                    decreases node.children@.len() - i,
                {
                    let c = node.children[i];
                    assert(node.children@.take(i + 1).drop_last() =~= node.children@.take(
                        i as int,
                    ));
                    if c != leaf {
                        kept.push(c);
                    }
                    i = i + 1;
                }
                assert(node.children@.take(i as int) =~= node.children@);
            },
            None => {},
        }
        match &mut self.slots[parent.index()] {
            Some(node) => {
                node.children = kept;
            },
            None => {},
        }
        self.slots.set(leaf.index(), None);
        proof {
            assert(self@ =~= pruned(before, leaf));
            lemma_pruned_paths(before, leaf);
        }
        Ok(())
    }
}

} // verus!
