use std::cell::RefCell;
use std::rc::Rc;

use vizia_core::context::{BuildError, Context, DestroyError};
use vizia_core::entity::Entity;
use vizia_core::events::{Event, EventContext};
use vizia_core::state::binding::{Binding, Builder, Field};
use vizia_core::state::lens::Lens;
use vizia_core::state::model::Model;
use vizia_core::state::registry::Registration;
use vizia_core::state::store::remove_from;
use vizia_core::tree::{Tree, TreeError};
use vizia_core::views::label::Label;

#[derive(Debug, PartialEq)]
struct Flag {
    on: bool,
}

#[derive(Debug)]
enum FlagEvent {
    Toggle,
    Keep,
}

impl Model for Flag {
    type Message = FlagEvent;

    fn type_tag() -> u64 {
        20
    }

    fn event(&mut self, _cx: &mut EventContext<FlagEvent>, event: &mut Event<FlagEvent>) {
        if let FlagEvent::Toggle = event.message {
            self.on = !self.on;
        }
    }
}

#[derive(Clone, Copy, Debug)]
struct OnLens;

impl Lens for OnLens {
    type Source = Flag;
    type Target = bool;

    fn tag() -> Vec<u64> {
        vec![20, 1]
    }

    fn applies(&self, _source: &Flag) -> bool {
        true
    }

    fn view<'a>(&self, source: &'a Flag) -> &'a bool {
        &source.on
    }
}

struct Count {
    calls: Rc<RefCell<u32>>,
}

type Cx = Context<Flag, Binding<OnLens, Count>>;

impl Builder<Flag, Binding<OnLens, Count>, OnLens> for Count {
    fn build(&self, cx: &mut Cx, field: Field<OnLens>) -> Result<(), BuildError> {
        *self.calls.borrow_mut() += 1;
        let text = if *field.get(cx) { "on" } else { "off" };
        Label::new(cx, text)?;
        Ok(())
    }
}

#[test]
fn leaves_are_taken_out_of_the_tree() {
    let mut tree = Tree::new();
    tree.add(Entity(1), Entity(0)).unwrap();
    tree.add(Entity(2), Entity(0)).unwrap();
    tree.add(Entity(3), Entity(1)).unwrap();
    assert_eq!(tree.remove(Entity(0)), Err(TreeError::Root));
    assert_eq!(tree.remove(Entity(9)), Err(TreeError::NotPresent));
    assert_eq!(tree.remove(Entity(1)), Err(TreeError::HasChildren));
    assert_eq!(tree.remove(Entity(3)), Ok(()));
    assert_eq!(tree.remove(Entity(3)), Err(TreeError::NotPresent));
    assert!(!tree.contains(Entity(3)));
    assert_eq!(tree.child_count(Entity(1)), 0);
    assert_eq!(tree.remove(Entity(1)), Ok(()));
    assert_eq!(tree.get_child(Entity(0), 0), Some(Entity(2)));
    assert_eq!(tree.get_child(Entity(0), 1), None);
    assert_eq!(tree.parent_iter(Entity(2)), vec![Entity(2), Entity(0)]);
    assert_eq!(tree.add(Entity(1), Entity(2)), Ok(()));
    assert_eq!(tree.parent_iter(Entity(1)), vec![Entity(1), Entity(2), Entity(0)]);
    assert_eq!(
        remove_from(&vec![Entity(1), Entity(2), Entity(1), Entity(3)], Entity(1)),
        vec![Entity(2), Entity(3)]
    );
}

#[test]
fn destroyed_node_is_released_everywhere() {
    let calls = Rc::new(RefCell::new(0));
    let mut cx = Cx::new();
    assert!(Flag { on: false }.build(&mut cx).is_ok());
    let bound = Binding::new(&mut cx, OnLens, Count { calls: calls.clone() }).unwrap();
    let label = cx.get_child(bound.entity, 0).unwrap();
    assert_eq!(cx.get_child(Entity::root(), 1), None);
    assert_eq!(bound.registration, Registration::Observing);
    assert_eq!(cx.observers(Entity::root(), &OnLens::tag()), Some(&vec![bound.entity]));
    assert_eq!(cx.observers(Entity::root(), &vec![1]), None);
    assert_eq!(cx.observers(Entity(50), &OnLens::tag()), None);

    assert_eq!(cx.destroy(Entity::root()), Err(DestroyError::Root));
    assert_eq!(cx.destroy(Entity(50)), Err(DestroyError::NotPresent));
    cx.set_position(label, 0);
    assert_eq!(cx.destroy(label), Err(DestroyError::Current));
    let inner = Label::new(&mut cx, "inner").unwrap().entity;
    cx.set_position(Entity::root(), 2);
    assert_eq!(cx.destroy(label), Err(DestroyError::HasChildren));
    assert_eq!(cx.destroy(inner), Ok(()));
    assert_eq!(cx.destroy(label), Ok(()));

    assert_eq!(cx.destroy(bound.entity), Ok(()));
    assert!(!cx.contains(bound.entity));
    assert_eq!(cx.get_child(Entity::root(), 0), None);
    assert_eq!(cx.observers(Entity::root(), &OnLens::tag()), Some(&vec![]));
    assert!(cx.style(bound.entity).is_none());

    cx.emit(FlagEvent::Toggle);
    assert_eq!(cx.flush_events(), Ok(1));
    assert_eq!(*calls.borrow(), 1);
    assert_eq!(cx.lookup::<Flag>(Entity::root()), Some(&Flag { on: true }));

    // The entities are handed out again.
    cx.set_position(Entity::root(), 0);
    let again = cx.build_node().unwrap();
    assert!(again == bound.entity || again == label || again == inner);
    assert!(cx.style(again).unwrap().text.is_none());
    assert!(cx.take_view(again).is_none());
}

#[test]
fn one_node_is_handed_an_event() {
    let calls = Rc::new(RefCell::new(0));
    let mut cx = Cx::new();
    let child = cx.build_node().unwrap();
    assert_eq!(cx.attach_at(child, Flag { on: false }), Ok(None));
    assert_eq!(cx.attach_at(child, Flag { on: true }), Ok(Some(Flag { on: false })));
    assert_eq!(cx.attach_at(Entity(70), Flag { on: true }), Err(Flag { on: true }));
    cx.set_position(child, 0);
    let bound = Binding::new(&mut cx, OnLens, Count { calls: calls.clone() }).unwrap();
    assert_eq!(cx.observers(child, &OnLens::tag()), Some(&vec![bound.entity]));

    let mut keep = Event::new(FlagEvent::Keep).target(child);
    assert_eq!(cx.dispatch_event(child, &mut keep), vec![]);
    let mut toggle = Event::new(FlagEvent::Toggle).target(child);
    assert_eq!(cx.dispatch_event(Entity::root(), &mut toggle), vec![]);
    assert_eq!(cx.dispatch_event(Entity(70), &mut toggle), vec![]);
    assert_eq!(cx.lookup::<Flag>(child), Some(&Flag { on: true }));
    assert_eq!(cx.dispatch_event(child, &mut toggle), vec![bound.entity]);
    assert_eq!(cx.lookup::<Flag>(child), Some(&Flag { on: false }));
    assert_eq!(cx.dispatch_event(child, &mut toggle), vec![bound.entity]);
    toggle.consume();
    assert_eq!(cx.dispatch_event(child, &mut toggle), vec![]);
    assert_eq!(cx.lookup::<Flag>(child), Some(&Flag { on: true }));
    assert_eq!(cx.pending_events(), 0);
}

#[test]
fn binding_whose_place_is_gone_builds_nothing() {
    let calls = Rc::new(RefCell::new(0));
    let mut cx = Cx::new();
    assert!(Flag { on: false }.build(&mut cx).is_ok());
    let place = cx.build_node().unwrap();
    cx.set_position(place, 0);
    let (mut binding, bound) =
        match Binding::declare(&mut cx, OnLens, Count { calls: calls.clone() }) {
            Ok(declared) => declared,
            Err(error) => panic!("no node for the binding: {:?}", error),
        };
    assert_eq!(bound.registration, Registration::Observing);
    assert_eq!(binding.body(&mut cx), Ok(()));
    assert_eq!(*calls.borrow(), 1);
    let label = cx.get_child(bound.entity, 0).unwrap();
    assert_eq!(cx.get_child(place, 1), None);

    cx.set_position(Entity::root(), 1);
    assert_eq!(cx.destroy(label), Ok(()));
    assert_eq!(cx.destroy(bound.entity), Ok(()));
    assert_eq!(binding.body(&mut cx), Err(BuildError::MissingParent));
    assert_eq!(cx.destroy(place), Ok(()));
    assert_eq!(binding.body(&mut cx), Err(BuildError::MissingParent));
    assert_eq!(*calls.borrow(), 1);
    assert_eq!((cx.current_entity(), cx.position()), (Entity::root(), 1));
}
