//! Entities: the integer names of the nodes of the interface tree, and the
//! manager that hands them out.

use vstd::prelude::*;

verus! {

/// The name of a node. It carries no data: it is the key under which the tree
/// and the side tables keep what belongs to the node.
#[derive(Clone, Copy, PartialEq, Eq, Structural, Debug, Hash)]
pub struct Entity(pub u32);

impl Entity {
    /// The entity that names the root of every tree.
    pub open spec fn spec_root() -> Entity {
        Entity(0)
    }

    /// The entity that names the root of every tree.
    #[verifier::when_used_as_spec(spec_root)]
    pub fn root() -> (e: Entity)
        ensures
            e == Entity::spec_root(),
    {
        Entity(0)
    }

    /// The slot of this entity in a table indexed by entity.
    pub open spec fn spec_index(self) -> int {
        self.0 as int
    }

    /// The slot of this entity in a table indexed by entity.
    pub fn index(self) -> (i: usize)
        ensures
            i == self.spec_index(),
    {
        self.0 as usize
    }
}

/// Hands out entities: counting upwards, and handing a destroyed entity out
/// again before it counts further.
pub struct EntityManager {
    next: u32,
    free: Vec<Entity>,
}

impl EntityManager {
    /// Every recycled entity was handed out before, and none is held twice.
    pub closed spec fn wf(&self) -> bool {
        &&& forall|i: int| 0 <= i < self.free@.len() ==> (#[trigger] self.free@[i]).0 < self.next
        &&& forall|i: int, j: int|
            0 <= i < j < self.free@.len() ==> self.free@[i] != self.free@[j]
    }

    /// Whether `e` has been created and not destroyed since.
    pub closed spec fn is_alive(&self, e: Entity) -> bool {
        e.0 < self.next && !self.free@.contains(e)
    }

    /// The entity that the next call of `create` returns, if there is one left.
    pub closed spec fn upcoming(&self) -> Option<Entity> {
        if self.free@.len() > 0 {
            Some(self.free@.last())
        } else if self.next < u32::MAX {
            Some(Entity(self.next))
        } else {
            None
        }
    }

    /// A manager that has handed out nothing.
    pub fn new() -> (m: EntityManager)
        ensures
            m.wf(),
            forall|e: Entity| !m.is_alive(e),
            m.upcoming() == Some(Entity::root()),
    {
        EntityManager { next: 0, free: Vec::new() }
    }

    /// Creates an entity: a recycled one if there is any, else the next number.
    /// `None` when every number is in use.
    pub fn create(&mut self) -> (created: Option<Entity>)
        requires
            old(self).wf(),
        ensures
            final(self).wf(),
            created == old(self).upcoming(),
            match created {
                Some(e) => {
                    &&& !old(self).is_alive(e)
                    &&& forall|o: Entity|
                        final(self).is_alive(o) <==> (o == e || old(self).is_alive(o))
                },
                None => *final(self) == *old(self),
            },
    {
        if self.free.len() > 0 {
            let ghost before = self.free@;
            let e = self.free.pop().unwrap();
            proof {
                assert(before.contains(e)) by {
                    assert(before[before.len() - 1] == e);
                }
                assert forall|o: Entity|
                    self.is_alive(o) <==> (o == e || old(self).is_alive(o)) by {
                    if o != e && before.contains(o) {
                        let i = choose|i: int| 0 <= i < before.len() && before[i] == o;
                        assert(self.free@[i] == o);
                    }
                    if self.free@.contains(o) {
                        let i = choose|i: int| 0 <= i < self.free@.len() && self.free@[i] == o;
                        assert(before[i] == o);
                    }
                }
            }
            Some(e)
        } else if self.next < u32::MAX {
            let e = Entity(self.next);
            self.next = self.next + 1;
            Some(e)
        } else {
            None
        }
    }

    /// Destroys an entity, so that `create` may hand it out again. Returns
    /// whether it was alive; a dead entity changes nothing.
    pub fn destroy(&mut self, e: Entity) -> (was_alive: bool)
        requires
            old(self).wf(),
        ensures
            final(self).wf(),
            was_alive == old(self).is_alive(e),
            forall|o: Entity| final(self).is_alive(o) <==> (o != e && old(self).is_alive(o)),
    {
        if !self.alive(e) {
            return false;
        }
        let ghost before = self.free@;
        self.free.push(e);
        proof {
            assert forall|o: Entity| self.is_alive(o) <==> (o != e && old(self).is_alive(o)) by {
                if before.contains(o) {
                    let k = choose|k: int| 0 <= k < before.len() && before[k] == o;
                    assert(self.free@[k] == o);
                }
                assert(self.free@[before.len() as int] == e);
            }
        }
        true
    }

    /// Whether `e` has been created and not destroyed since.
    pub fn alive(&self, e: Entity) -> (alive: bool)
        ensures
            alive == self.is_alive(e),
    {
        if e.0 >= self.next {
            return false;
        }
        let mut i: usize = 0;
        while i < self.free.len()
            invariant
                i <= self.free@.len(),
                forall|j: int| 0 <= j < i ==> self.free@[j] != e,
            decreases self.free@.len() - i,
        {
            if self.free[i] == e {
                return false;
            }
            i = i + 1;
        }
        true
    }
}

} // verus!
