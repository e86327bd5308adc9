//! Events: what is sent to the models of the tree, and the queue that events
//! wait in.

use vstd::prelude::*;
use crate::entity::Entity;

verus! {

/// A message on its way to the models that stand on the path from `target` up
/// to the root.
pub struct Event<M> {
    pub message: M,
    pub target: Entity,
    pub consumed: bool,
}

impl<M> Event<M> {
    /// An event that carries `message` to the root.
    pub fn new(message: M) -> (event: Self)
        ensures
            event == (Event { message, target: Entity::root(), consumed: false }),
    {
        Event { message, target: Entity::root(), consumed: false }
    }

    /// The same event, sent to `entity`.
    pub fn target(self, entity: Entity) -> (event: Self)
        ensures
            event == (Event { message: self.message, target: entity, consumed: self.consumed }),
    {
        Event { message: self.message, target: entity, consumed: self.consumed }
    }

    /// Marks the event as dealt with: no model further up the tree gets it.
    pub fn consume(&mut self)
        ensures
            *final(self) == (Event {
                message: old(self).message,
                target: old(self).target,
                consumed: true,
            }),
    {
        self.consumed = true;
    }
}

/// What a model that handles an event can reach: the node it stands on, and
/// the queue of the events that are handled once the event at hand is done.
pub struct EventContext<M> {
    current: Entity,
    queue: Vec<Event<M>>,
}

impl<M> EventContext<M> {
    /// The node whose model handles the event.
    pub closed spec fn current(&self) -> Entity {
        self.current
    }

    /// The events that wait, the oldest first.
    pub closed spec fn pending(&self) -> Seq<Event<M>> {
        self.queue@
    }

    /// A context on the node `current`, with the events of `queue` waiting.
    pub fn new(current: Entity, queue: Vec<Event<M>>) -> (cx: Self)
        ensures
            cx.current() == current,
            cx.pending() == queue@,
    {
        EventContext { current, queue }
    }

    /// The node whose model handles the event.
    pub fn entity(&self) -> (current: Entity)
        ensures
            current == self.current(),
    {
        self.current
    }

    /// Moves the context to the node `current`.
    pub fn enter(&mut self, current: Entity)
        ensures
            final(self).current() == current,
            final(self).pending() == old(self).pending(),
    {
        self.current = current;
    }

    /// Puts `message` at the end of the queue, as an event to the node at
    /// hand.
    pub fn emit(&mut self, message: M)
        ensures
            final(self).current() == old(self).current(),
            final(self).pending() == old(self).pending().push(
                Event { message, target: old(self).current(), consumed: false },
            ),
    {
        let event = Event { message, target: self.current, consumed: false };
        self.queue.push(event);
    }

    /// Puts `event` at the end of the queue.
    pub fn emit_event(&mut self, event: Event<M>)
        ensures
            final(self).current() == old(self).current(),
            final(self).pending() == old(self).pending().push(event),
    {
        self.queue.push(event);
    }

    /// Hands the queue out.
    pub fn into_queue(self) -> (queue: Vec<Event<M>>)
        ensures
            queue@ == self.pending(),
    {
        self.queue
    }
}

} // verus!
