use std::cell::RefCell;
use std::rc::Rc;

use vizia_core::context::{BuildError, Context};
use vizia_core::entity::Entity;
use vizia_core::events::{Event, EventContext};
use vizia_core::state::binding::{Binding, Builder, Field};
use vizia_core::state::lens::Lens;
use vizia_core::state::model::Model;
use vizia_core::state::registry::Registration;
use vizia_core::style::{Color, Display};
use vizia_core::views::label::Label;

#[derive(Debug, PartialEq)]
enum CounterEvent {
    Increment,
    Reset,
    Touch,
}

#[derive(Debug, PartialEq)]
struct Counter {
    count: u32,
}

impl Model for Counter {
    type Message = CounterEvent;

    fn type_tag() -> u64 {
        1
    }

    fn event(&mut self, _cx: &mut EventContext<CounterEvent>, event: &mut Event<CounterEvent>) {
        match event.message {
            CounterEvent::Increment => self.count += 1,
            CounterEvent::Reset => self.count = 0,
            CounterEvent::Touch => {}
        }
    }
}

#[derive(Clone, Copy, Debug)]
struct CountLens;

impl Lens for CountLens {
    type Source = Counter;
    type Target = u32;

    fn tag() -> Vec<u64> {
        vec![10]
    }

    fn applies(&self, _source: &Counter) -> bool {
        true
    }

    fn view<'a>(&self, source: &'a Counter) -> &'a u32 {
        &source.count
    }
}

struct CountLabel {
    calls: Rc<RefCell<u32>>,
    label: Rc<RefCell<Option<Entity>>>,
}

type CountBinding = Binding<CountLens, CountLabel>;
type Cx = Context<Counter, CountBinding>;

impl Builder<Counter, CountBinding, CountLens> for CountLabel {
    fn build(&self, cx: &mut Cx, field: Field<CountLens>) -> Result<(), BuildError> {
        *self.calls.borrow_mut() += 1;
        let text = field.get(cx).to_string();
        let handle = Label::new(cx, text.as_str())?;
        *self.label.borrow_mut() = Some(handle.entity);
        Ok(())
    }
}

fn label_text(cx: &Cx, label: &Rc<RefCell<Option<Entity>>>) -> String {
    let entity = label.borrow().expect("the builder has built a label");
    cx.style(entity).unwrap().text.clone().unwrap()
}

#[test]
fn counter_binding_rebuilds_once_per_increment() {
    let calls = Rc::new(RefCell::new(0));
    let label = Rc::new(RefCell::new(None));
    let mut cx = Cx::new();
    assert_eq!(Counter { count: 0 }.build(&mut cx), Ok(None));

    let bound = Binding::new(
        &mut cx,
        CountLens,
        CountLabel { calls: calls.clone(), label: label.clone() },
    )
    .unwrap();
    assert_eq!(bound.registration, Registration::Observing);
    assert_eq!(*calls.borrow(), 1);
    assert_eq!(label_text(&cx, &label), "0");

    for expected in 1..=3u32 {
        cx.emit(CounterEvent::Increment);
        assert_eq!(cx.flush_events(), Ok(1));
        assert_eq!(*calls.borrow(), 1 + expected);
        assert_eq!(label_text(&cx, &label), expected.to_string());
        assert_eq!(cx.lookup::<Counter>(Entity::root()), Some(&Counter { count: expected }));
    }
    assert_eq!(*calls.borrow(), 4);
}

#[test]
fn binding_is_not_rebuilt_when_the_value_stays() {
    let calls = Rc::new(RefCell::new(0));
    let label = Rc::new(RefCell::new(None));
    let mut cx = Cx::new();
    assert!(Counter { count: 0 }.build(&mut cx).is_ok());
    Binding::new(&mut cx, CountLens, CountLabel { calls: calls.clone(), label: label.clone() })
        .unwrap();
    assert_eq!(*calls.borrow(), 1);

    cx.emit(CounterEvent::Touch);
    cx.emit(CounterEvent::Reset);
    assert_eq!(cx.flush_events(), Ok(2));
    assert_eq!(*calls.borrow(), 1);

    cx.emit(CounterEvent::Increment);
    cx.emit(CounterEvent::Touch);
    cx.emit(CounterEvent::Reset);
    assert_eq!(cx.flush_events(), Ok(3));
    assert_eq!(*calls.borrow(), 3);
    assert_eq!(label_text(&cx, &label), "0");
}

#[test]
fn rebuilding_reuses_the_nodes_that_were_built() {
    let calls = Rc::new(RefCell::new(0));
    let label = Rc::new(RefCell::new(None));
    let mut cx = Cx::new();
    assert!(Counter { count: 0 }.build(&mut cx).is_ok());
    let bound = Binding::new(
        &mut cx,
        CountLens,
        CountLabel { calls: calls.clone(), label: label.clone() },
    )
    .unwrap();
    let first_label = label.borrow().unwrap();
    assert_eq!(cx.get_child(Entity::root(), 0), Some(bound.entity));
    assert_eq!(cx.get_child(Entity::root(), 1), None);
    assert_eq!(cx.get_child(bound.entity, 0), Some(first_label));
    assert_eq!(cx.get_child(bound.entity, 1), None);

    assert_eq!(cx.rebuild_node(bound.entity), Ok(()));
    assert_eq!(cx.rebuild_node(bound.entity), Ok(()));
    assert_eq!(*calls.borrow(), 3);
    assert_eq!(*label.borrow(), Some(first_label));
    assert_eq!(cx.get_child(Entity::root(), 0), Some(bound.entity));
    assert_eq!(cx.get_child(Entity::root(), 1), None);
    assert_eq!(cx.get_child(bound.entity, 0), Some(first_label));
    assert_eq!(cx.get_child(bound.entity, 1), None);
    assert_eq!(cx.parent_iter(first_label), vec![first_label, bound.entity, Entity::root()]);
}

#[test]
fn binding_node_is_hidden_and_blue() {
    let mut cx = Cx::new();
    assert!(Counter { count: 7 }.build(&mut cx).is_ok());
    let bound = Binding::new(
        &mut cx,
        CountLens,
        CountLabel { calls: Rc::new(RefCell::new(0)), label: Rc::new(RefCell::new(None)) },
    )
    .unwrap();
    let style = cx.style(bound.entity).unwrap();
    assert_eq!(style.display, Display::Hidden);
    assert_eq!(style.background_color, Some(Color::blue()));
    assert_eq!(Color::blue(), Color::rgb(0, 0, 255));
}

#[test]
fn binding_without_a_model_is_inert() {
    let calls = Rc::new(RefCell::new(0));
    let mut cx = Cx::new();
    let declared = Binding::declare(
        &mut cx,
        CountLens,
        CountLabel { calls: calls.clone(), label: Rc::new(RefCell::new(None)) },
    );
    let (_binding, bound) = match declared {
        Ok(declared) => declared,
        Err(error) => panic!("no node for the binding: {:?}", error),
    };
    assert_eq!(bound.registration, Registration::MissingModel);
    assert_eq!(*calls.borrow(), 0);
    assert_eq!(cx.lookup::<Counter>(Entity::root()), None);
}

#[test]
fn attaching_a_second_model_of_a_type_replaces_the_first() {
    let mut cx = Cx::new();
    assert_eq!(Counter { count: 1 }.build(&mut cx), Ok(None));
    assert_eq!(Counter { count: 2 }.build(&mut cx), Ok(Some(Counter { count: 1 })));
    assert_eq!(cx.lookup::<Counter>(Entity::root()), Some(&Counter { count: 2 }));
    assert_eq!(cx.attach(Counter { count: 3 }), Some(Counter { count: 2 }));
    assert_eq!(cx.data::<Counter>(), Some(&Counter { count: 3 }));
}

#[test]
fn replaced_model_is_noticed_by_change_detection() {
    let calls = Rc::new(RefCell::new(0));
    let label = Rc::new(RefCell::new(None));
    let mut cx = Cx::new();
    assert!(Counter { count: 1 }.build(&mut cx).is_ok());
    Binding::new(&mut cx, CountLens, CountLabel { calls: calls.clone(), label: label.clone() })
        .unwrap();
    assert_eq!(label_text(&cx, &label), "1");
    cx.set_position(Entity::root(), 0);
    assert_eq!(Counter { count: 5 }.build(&mut cx), Ok(Some(Counter { count: 1 })));
    cx.emit(CounterEvent::Touch);
    assert_eq!(cx.flush_events(), Ok(1));
    assert_eq!(*calls.borrow(), 2);
    assert_eq!(label_text(&cx, &label), "5");
}
