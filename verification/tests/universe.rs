use std::cell::RefCell;
use std::rc::Rc;

use vizia_core::context::{BuildError, Context};
use vizia_core::entity::Entity;
use vizia_core::events::{Event, EventContext};
use vizia_core::state::binding::{Binding, Builder, Field};
use vizia_core::state::lens::{Index, Lens, LensExt, Then};
use vizia_core::state::model::{Holds, Model, ModelData};
use vizia_core::state::registry::Registration;
use vizia_core::state::store::{LensWrap, StateStore};
use vizia_core::view::View;

#[derive(Debug, PartialEq)]
struct Names {
    list: Vec<String>,
}

#[derive(Debug, PartialEq)]
struct Volume {
    level: u8,
}

#[derive(Clone, Debug, PartialEq)]
enum AppEvent {
    Rename(usize, &'static str),
    Louder,
}

const NAMES: u64 = 1;
const VOLUME: u64 = 2;

impl Model for Names {
    type Message = AppEvent;

    fn type_tag() -> u64 {
        NAMES
    }

    fn event(&mut self, _cx: &mut EventContext<AppEvent>, event: &mut Event<AppEvent>) {
        if let AppEvent::Rename(place, name) = event.message {
            self.list[place] = name.to_string();
        }
    }
}

impl Model for Volume {
    type Message = AppEvent;

    fn type_tag() -> u64 {
        VOLUME
    }

    fn event(&mut self, cx: &mut EventContext<AppEvent>, event: &mut Event<AppEvent>) {
        if let AppEvent::Louder = event.message {
            self.level += 1;
            if self.level == 3 {
                cx.emit(AppEvent::Rename(0, "loud"));
            }
        }
    }
}

/// A model that is stored in a form which says that it is a list of names.
#[derive(Debug, PartialEq)]
struct Stray {
    level: u8,
}

const STRAY: u64 = 3;

impl Model for Stray {
    type Message = AppEvent;

    fn type_tag() -> u64 {
        STRAY
    }

    fn event(&mut self, _cx: &mut EventContext<AppEvent>, _event: &mut Event<AppEvent>) {}
}

/// The models of the application in the form in which nodes store them.
#[derive(Debug, PartialEq)]
enum AppData {
    Names(Names),
    Volume(Volume),
    /// Says that it is a list of names and is a volume.
    Twisted(Volume),
}

impl ModelData for AppData {
    type Message = AppEvent;

    fn type_tag(&self) -> u64 {
        match self {
            AppData::Names(_) => NAMES,
            AppData::Volume(_) => VOLUME,
            AppData::Twisted(_) => NAMES,
        }
    }

    fn event(&mut self, cx: &mut EventContext<AppEvent>, event: &mut Event<AppEvent>) {
        match self {
            AppData::Names(names) => Model::event(names, cx, event),
            AppData::Volume(volume) => Model::event(volume, cx, event),
            AppData::Twisted(volume) => Model::event(volume, cx, event),
        }
    }
}

impl Holds<Names> for AppData {
    fn downcast_ref(&self) -> Option<&Names> {
        match self {
            AppData::Names(names) => Some(names),
            _ => None,
        }
    }

    fn upcast(value: Names) -> Self {
        AppData::Names(value)
    }
}

impl Holds<Stray> for AppData {
    fn downcast_ref(&self) -> Option<&Stray> {
        None
    }

    fn upcast(value: Stray) -> Self {
        AppData::Twisted(Volume { level: value.level })
    }
}

impl Holds<Volume> for AppData {
    fn downcast_ref(&self) -> Option<&Volume> {
        match self {
            AppData::Volume(volume) => Some(volume),
            _ => None,
        }
    }

    fn upcast(value: Volume) -> Self {
        AppData::Volume(value)
    }
}

#[derive(Clone, Copy, Debug)]
struct ListLens;

impl Lens for ListLens {
    type Source = Names;
    type Target = Vec<String>;

    fn tag() -> Vec<u64> {
        vec![NAMES, 1]
    }

    fn applies(&self, _source: &Names) -> bool {
        true
    }

    fn view<'a>(&self, source: &'a Names) -> &'a Vec<String> {
        &source.list
    }
}

#[derive(Clone, Copy, Debug)]
struct LevelLens;

impl Lens for LevelLens {
    type Source = Volume;
    type Target = u8;

    fn tag() -> Vec<u64> {
        vec![VOLUME, 1]
    }

    fn applies(&self, _source: &Volume) -> bool {
        true
    }

    fn view<'a>(&self, source: &'a Volume) -> &'a u8 {
        &source.level
    }
}

type NameLens = Then<ListLens, Index<String>>;

struct Seen<T> {
    log: Rc<RefCell<Vec<Option<T>>>>,
}

enum AppView {
    Name(Binding<NameLens, Seen<String>>),
    Level(Binding<LevelLens, Seen<u8>>),
}

type Cx = Context<AppData, AppView>;

impl View<AppData> for AppView {
    fn body(&mut self, cx: &mut Cx) -> Result<(), BuildError> {
        match self {
            AppView::Name(binding) => binding.body(cx),
            AppView::Level(binding) => binding.body(cx),
        }
    }

    fn element(&self) -> Option<String> {
        None
    }
}

impl Holds<Binding<NameLens, Seen<String>>> for AppView {
    fn downcast_ref(&self) -> Option<&Binding<NameLens, Seen<String>>> {
        match self {
            AppView::Name(binding) => Some(binding),
            _ => None,
        }
    }

    fn upcast(value: Binding<NameLens, Seen<String>>) -> Self {
        AppView::Name(value)
    }
}

impl Holds<Binding<LevelLens, Seen<u8>>> for AppView {
    fn downcast_ref(&self) -> Option<&Binding<LevelLens, Seen<u8>>> {
        match self {
            AppView::Level(binding) => Some(binding),
            _ => None,
        }
    }

    fn upcast(value: Binding<LevelLens, Seen<u8>>) -> Self {
        AppView::Level(value)
    }
}

impl Builder<AppData, AppView, NameLens> for Seen<String> {
    fn build(&self, cx: &mut Cx, field: Field<NameLens>) -> Result<(), BuildError> {
        self.log.borrow_mut().push(field.try_get(cx).cloned());
        Ok(())
    }
}

impl Builder<AppData, AppView, LevelLens> for Seen<u8> {
    fn build(&self, cx: &mut Cx, field: Field<LevelLens>) -> Result<(), BuildError> {
        self.log.borrow_mut().push(field.try_get(cx).copied());
        Ok(())
    }
}

fn names() -> Names {
    Names { list: vec!["First".to_string(), "Second".to_string()] }
}

#[test]
fn models_of_two_types_live_on_one_node() {
    let mut cx = Cx::new();
    assert_eq!(names().build(&mut cx), Ok(None));
    assert_eq!(Volume { level: 1 }.build(&mut cx), Ok(None));
    assert_eq!(cx.lookup::<Names>(Entity::root()), Some(&names()));
    assert_eq!(cx.lookup::<Volume>(Entity::root()), Some(&Volume { level: 1 }));
    assert_eq!(
        Volume { level: 2 }.build(&mut cx),
        Ok(Some(AppData::Volume(Volume { level: 1 })))
    );
    assert_eq!(cx.lookup::<Names>(Entity::root()), Some(&names()));
    assert_eq!(cx.data::<Volume>(), Some(&Volume { level: 2 }));
}

#[test]
fn each_binding_follows_its_own_model() {
    let name_log = Rc::new(RefCell::new(Vec::new()));
    let level_log = Rc::new(RefCell::new(Vec::new()));
    let mut cx = Cx::new();
    assert!(names().build(&mut cx).is_ok());
    assert!(Volume { level: 1 }.build(&mut cx).is_ok());
    let name: NameLens = ListLens.index(1);
    let name_bound = Binding::new(&mut cx, name, Seen { log: name_log.clone() }).unwrap();
    let level_bound = Binding::new(&mut cx, LevelLens, Seen { log: level_log.clone() }).unwrap();
    assert_eq!(name_bound.registration, Registration::Observing);
    assert_eq!(level_bound.registration, Registration::Observing);
    assert_eq!(*name_log.borrow(), vec![Some("Second".to_string())]);
    assert_eq!(*level_log.borrow(), vec![Some(1)]);

    cx.emit(AppEvent::Louder);
    assert_eq!(cx.flush_events(), Ok(1));
    assert_eq!(*level_log.borrow(), vec![Some(1), Some(2)]);
    assert_eq!(name_log.borrow().len(), 1);

    cx.emit(AppEvent::Rename(1, "Other"));
    cx.emit(AppEvent::Rename(0, "Zero"));
    assert_eq!(cx.flush_events(), Ok(2));
    assert_eq!(
        *name_log.borrow(),
        vec![Some("Second".to_string()), Some("Other".to_string())]
    );
    assert_eq!(level_log.borrow().len(), 2);

    cx.emit(AppEvent::Louder);
    assert_eq!(cx.flush_events(), Ok(1));
    assert_eq!(cx.pending_events(), 1);
    assert_eq!(cx.flush_events(), Ok(1));
    assert_eq!(cx.lookup::<Names>(Entity::root()).unwrap().list[0], "loud");
    assert_eq!(name_log.borrow().len(), 2);
}

#[test]
fn lenses_of_one_type_share_one_witness() {
    let first_log = Rc::new(RefCell::new(Vec::new()));
    let second_log = Rc::new(RefCell::new(Vec::new()));
    let mut cx = Cx::new();
    assert!(names().build(&mut cx).is_ok());
    let first: NameLens = ListLens.index(0);
    let second: NameLens = ListLens.index(1);
    assert_eq!(
        <NameLens as Lens>::tag(),
        vec![0xFFFF_FFFF_FFFF_FFFD, 2, NAMES, 1, 0xFFFF_FFFF_FFFF_FFFE]
    );
    let a = Binding::new(&mut cx, first, Seen { log: first_log.clone() }).unwrap();
    let b = Binding::new(&mut cx, second, Seen { log: second_log.clone() }).unwrap();
    assert_eq!(a.registration, Registration::Observing);
    assert_eq!(b.registration, Registration::Observing);

    // The witness watches the place of the lens that came first ...
    cx.emit(AppEvent::Rename(0, "Changed"));
    assert_eq!(cx.flush_events(), Ok(1));
    assert_eq!(first_log.borrow().len(), 2);
    assert_eq!(second_log.borrow().len(), 2);

    // ... and no other place.
    cx.emit(AppEvent::Rename(1, "Unseen"));
    assert_eq!(cx.flush_events(), Ok(1));
    assert_eq!(first_log.borrow().len(), 2);
    assert_eq!(second_log.borrow().len(), 2);
}

#[test]
fn model_of_another_type_under_the_tag_is_reported() {
    let log = Rc::new(RefCell::new(Vec::new()));
    let mut cx = Cx::new();
    assert_eq!(cx.attach(AppData::Twisted(Volume { level: 9 })), None);
    assert_eq!(cx.lookup::<Names>(Entity::root()), None);
    let name: NameLens = ListLens.index(0);
    let bound = Binding::new(&mut cx, name, Seen { log: log.clone() }).unwrap();
    assert_eq!(bound.registration, Registration::DowncastFailure);
    assert_eq!(*log.borrow(), vec![None]);
    cx.emit(AppEvent::Louder);
    assert_eq!(cx.flush_events(), Ok(1));
    assert_eq!(log.borrow().len(), 1);
}

#[test]
fn binding_finds_the_model_of_an_ancestor() {
    let log = Rc::new(RefCell::new(Vec::new()));
    let mut cx = Cx::new();
    assert!(Volume { level: 5 }.build(&mut cx).is_ok());
    let child = cx.build_node().unwrap();
    let grandchild = {
        cx.set_position(child, 0);
        cx.build_node().unwrap()
    };
    cx.set_position(grandchild, 0);
    let bound = Binding::new(&mut cx, LevelLens, Seen { log: log.clone() }).unwrap();
    assert_eq!(bound.registration, Registration::Observing);
    assert_eq!(cx.parent_iter(bound.entity), vec![bound.entity, grandchild, child, Entity::root()]);
    assert_eq!(*log.borrow(), vec![Some(5)]);

    cx.emit_event(Event::new(AppEvent::Louder).target(child));
    assert_eq!(cx.flush_events(), Ok(1));
    assert_eq!(*log.borrow(), vec![Some(5), Some(6)]);

    // A nearer model of the type takes the place of the farther one for
    // bindings that are declared from then on.
    cx.set_position(child, 1);
    assert!(Volume { level: 40 }.build(&mut cx).is_ok());
    let near_log = Rc::new(RefCell::new(Vec::new()));
    let near = Binding::new(&mut cx, LevelLens, Seen { log: near_log.clone() }).unwrap();
    assert_eq!(near.registration, Registration::Observing);
    assert_eq!(*near_log.borrow(), vec![Some(40)]);
    cx.emit_event(Event::new(AppEvent::Louder).target(child));
    assert_eq!(cx.flush_events(), Ok(1));
    assert_eq!(*near_log.borrow(), vec![Some(40), Some(41)]);
    // The first binding is told by the model of the root, with which it is
    // registered, and reads the model that is nearest when it is rebuilt.
    assert_eq!(cx.lookup::<Volume>(Entity::root()), Some(&Volume { level: 7 }));
    assert_eq!(*log.borrow(), vec![Some(5), Some(6), Some(41)]);
}

#[test]
fn witness_reports_a_model_of_another_type() {
    let volume = Volume { level: 4 };
    let mut witness = StateStore::new(Entity(1), LevelLens, &volume);
    let other = AppData::Names(names());
    assert_eq!(
        LensWrap::<AppData>::update(&mut witness, &other),
        vizia_core::state::store::Seen::DowncastFailure
    );
    assert_eq!(witness.old, Some(4));
    assert_eq!(witness.observers, vec![Entity(1)]);
    assert_eq!(
        LensWrap::<AppData>::update(&mut witness, &AppData::Volume(Volume { level: 4 })),
        vizia_core::state::store::Seen::Unchanged
    );
    assert_eq!(
        LensWrap::<AppData>::update(&mut witness, &AppData::Volume(Volume { level: 6 })),
        vizia_core::state::store::Seen::Changed
    );
    assert_eq!(witness.old, Some(6));
}

#[test]
fn model_whose_stored_form_has_another_tag_is_not_attached() {
    let mut cx = Cx::new();
    assert_eq!(
        Stray { level: 7 }.build(&mut cx),
        Err(AppData::Twisted(Volume { level: 7 }))
    );
    assert_eq!(cx.lookup::<Stray>(Entity::root()), None);
    assert_eq!(cx.lookup::<Names>(Entity::root()), None);
    assert_eq!(names().build(&mut cx), Ok(None));
    assert_eq!(cx.lookup::<Names>(Entity::root()), Some(&names()));
    assert_eq!(cx.lookup::<Names>(cx.current_entity()), Some(&names()));
}
