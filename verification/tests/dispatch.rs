use std::cell::RefCell;
use std::rc::Rc;

use vizia_core::context::{BuildError, Context};
use vizia_core::entity::Entity;
use vizia_core::events::{Event, EventContext};
use vizia_core::state::binding::{Binding, Builder, Field};
use vizia_core::state::lens::Lens;
use vizia_core::state::model::Model;
use vizia_core::views::label::Label;

#[derive(Clone, Debug, PartialEq)]
enum Ping {
    Walk,
    StopAt(&'static str),
    Echo,
    Echoed(&'static str),
}

struct Station {
    name: &'static str,
    log: Rc<RefCell<Vec<String>>>,
}

impl Model for Station {
    type Message = Ping;

    fn type_tag() -> u64 {
        3
    }

    fn event(&mut self, cx: &mut EventContext<Ping>, event: &mut Event<Ping>) {
        self.log.borrow_mut().push(format!("{}:{:?}", self.name, event.message));
        match event.message {
            Ping::StopAt(name) if name == self.name => event.consume(),
            Ping::Echo if self.name == "inner" => cx.emit(Ping::Echoed(self.name)),
            _ => {}
        }
    }
}

#[derive(Clone, Copy, Debug)]
struct NameLens;

impl Lens for NameLens {
    type Source = Station;
    type Target = u8;

    fn tag() -> Vec<u64> {
        vec![30]
    }

    fn applies(&self, _source: &Station) -> bool {
        false
    }

    fn view<'a>(&self, _source: &'a Station) -> &'a u8 {
        unreachable!()
    }
}

struct Nothing;

type Cx = Context<Station, Binding<NameLens, Nothing>>;

impl Builder<Station, Binding<NameLens, Nothing>, NameLens> for Nothing {
    fn build(&self, _cx: &mut Cx, _field: Field<NameLens>) -> Result<(), BuildError> {
        Ok(())
    }
}

/// A chain root > outer > inner > leaf with a station at each node.
fn chain(log: &Rc<RefCell<Vec<String>>>) -> (Cx, [Entity; 4]) {
    let mut cx = Cx::new();
    let root = Entity::root();
    assert!(Station { name: "root", log: log.clone() }.build(&mut cx).is_ok());
    let mut nodes = [root; 4];
    let mut parent = root;
    for (place, name) in ["outer", "inner", "leaf"].into_iter().enumerate() {
        cx.set_position(parent, 0);
        let node = Label::new(&mut cx, name).unwrap().entity;
        cx.set_position(node, 0);
        assert!(Station { name, log: log.clone() }.build(&mut cx).is_ok());
        nodes[2 - place] = node;
        parent = node;
    }
    cx.set_position(root, 0);
    (cx, nodes)
}

#[test]
fn event_visits_target_then_ancestors_up_to_the_root() {
    let log = Rc::new(RefCell::new(Vec::new()));
    let (mut cx, [leaf, inner, outer, root]) = chain(&log);
    assert_eq!(cx.parent_iter(leaf), vec![leaf, inner, outer, root]);

    let mut event = Event::new(Ping::Walk).target(leaf);
    let done = cx.dispatch(&mut event);
    assert_eq!(done.visited, vec![leaf, inner, outer, root]);
    assert!(!event.consumed);
    assert_eq!(*log.borrow(), vec!["leaf:Walk", "inner:Walk", "outer:Walk", "root:Walk"]);
}

#[test]
fn event_starts_at_its_target() {
    let log = Rc::new(RefCell::new(Vec::new()));
    let (mut cx, [_leaf, _inner, outer, root]) = chain(&log);
    let mut event = Event::new(Ping::Walk).target(outer);
    let done = cx.dispatch(&mut event);
    assert_eq!(done.visited, vec![outer, root]);
    assert_eq!(*log.borrow(), vec!["outer:Walk", "root:Walk"]);
}

#[test]
fn consumed_event_goes_no_further() {
    let log = Rc::new(RefCell::new(Vec::new()));
    let (mut cx, [leaf, inner, _outer, _root]) = chain(&log);
    let mut event = Event::new(Ping::StopAt("inner")).target(leaf);
    let done = cx.dispatch(&mut event);
    assert_eq!(done.visited, vec![leaf, inner]);
    assert!(event.consumed);
    assert_eq!(*log.borrow(), vec!["leaf:StopAt(\"inner\")", "inner:StopAt(\"inner\")"]);
}

#[test]
fn emitted_events_wait_until_the_walk_is_over() {
    let log = Rc::new(RefCell::new(Vec::new()));
    let (mut cx, [leaf, inner, _outer, _root]) = chain(&log);
    cx.emit_event(Event::new(Ping::Echo).target(leaf));
    cx.emit_event(Event::new(Ping::Walk).target(inner));
    assert_eq!(cx.pending_events(), 2);

    assert_eq!(cx.flush_events(), Ok(2));
    assert_eq!(
        *log.borrow(),
        vec![
            "leaf:Echo",
            "inner:Echo",
            "outer:Echo",
            "root:Echo",
            "inner:Walk",
            "outer:Walk",
            "root:Walk",
        ]
    );
    assert_eq!(cx.pending_events(), 1);

    log.borrow_mut().clear();
    assert_eq!(cx.flush_events(), Ok(1));
    assert_eq!(
        *log.borrow(),
        vec!["inner:Echoed(\"inner\")", "outer:Echoed(\"inner\")", "root:Echoed(\"inner\")"]
    );
    assert_eq!(cx.flush_events(), Ok(0));
}

#[test]
fn event_to_an_entity_outside_the_tree_visits_nothing() {
    let log = Rc::new(RefCell::new(Vec::new()));
    let (mut cx, _) = chain(&log);
    let mut event = Event::new(Ping::Walk).target(Entity(4000));
    let done = cx.dispatch(&mut event);
    assert!(done.visited.is_empty());
    assert!(done.dirty.is_empty());
    assert!(log.borrow().is_empty());
}
