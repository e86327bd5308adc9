use std::cell::RefCell;
use std::rc::Rc;

use vizia_core::context::{BuildError, Context};
use vizia_core::entity::Entity;
use vizia_core::events::{Event, EventContext};
use vizia_core::state::binding::{Binding, Bound, Builder, Field};
use vizia_core::state::lens::Lens;
use vizia_core::state::model::{Holds, Model};
use vizia_core::state::registry::Registration;
use vizia_core::view::View;
use vizia_core::views::label::Label;

struct Settings {
    volume: u8,
    muted: bool,
}

enum SettingsEvent {
    SetVolume(u8),
    Mute,
}

impl Model for Settings {
    type Message = SettingsEvent;

    fn type_tag() -> u64 {
        7
    }

    fn event(&mut self, _cx: &mut EventContext<SettingsEvent>, event: &mut Event<SettingsEvent>) {
        match event.message {
            SettingsEvent::SetVolume(volume) => self.volume = volume,
            SettingsEvent::Mute => self.muted = true,
        }
    }
}

#[derive(Clone, Copy, Debug)]
struct VolumeLens;

impl Lens for VolumeLens {
    type Source = Settings;
    type Target = u8;

    fn tag() -> Vec<u64> {
        vec![71]
    }

    fn applies(&self, _source: &Settings) -> bool {
        true
    }

    fn view<'a>(&self, source: &'a Settings) -> &'a u8 {
        &source.volume
    }
}

#[derive(Clone, Copy, Debug)]
struct MutedLens;

impl Lens for MutedLens {
    type Source = Settings;
    type Target = bool;

    fn tag() -> Vec<u64> {
        vec![72]
    }

    fn applies(&self, _source: &Settings) -> bool {
        true
    }

    fn view<'a>(&self, source: &'a Settings) -> &'a bool {
        &source.muted
    }
}

#[derive(Default)]
struct Log {
    outer: u32,
    inner: u32,
    muted: u32,
    inner_bound: Option<Bound>,
    inner_text: Option<String>,
}

struct Outer {
    log: Rc<RefCell<Log>>,
}

struct Inner {
    log: Rc<RefCell<Log>>,
}

struct Muted {
    log: Rc<RefCell<Log>>,
}

enum AppView {
    Outer(Binding<VolumeLens, Outer>),
    Inner(Binding<VolumeLens, Inner>),
    Muted(Binding<MutedLens, Muted>),
}

type Cx = Context<Settings, AppView>;

impl View<Settings> for AppView {
    fn body(&mut self, cx: &mut Cx) -> Result<(), BuildError> {
        match self {
            AppView::Outer(binding) => binding.body(cx),
            AppView::Inner(binding) => binding.body(cx),
            AppView::Muted(binding) => binding.body(cx),
        }
    }

    fn element(&self) -> Option<String> {
        None
    }
}

impl Holds<Binding<VolumeLens, Outer>> for AppView {
    fn downcast_ref(&self) -> Option<&Binding<VolumeLens, Outer>> {
        match self {
            AppView::Outer(binding) => Some(binding),
            _ => None,
        }
    }

    fn upcast(value: Binding<VolumeLens, Outer>) -> Self {
        AppView::Outer(value)
    }
}

impl Holds<Binding<VolumeLens, Inner>> for AppView {
    fn downcast_ref(&self) -> Option<&Binding<VolumeLens, Inner>> {
        match self {
            AppView::Inner(binding) => Some(binding),
            _ => None,
        }
    }

    fn upcast(value: Binding<VolumeLens, Inner>) -> Self {
        AppView::Inner(value)
    }
}

impl Holds<Binding<MutedLens, Muted>> for AppView {
    fn downcast_ref(&self) -> Option<&Binding<MutedLens, Muted>> {
        match self {
            AppView::Muted(binding) => Some(binding),
            _ => None,
        }
    }

    fn upcast(value: Binding<MutedLens, Muted>) -> Self {
        AppView::Muted(value)
    }
}

impl Builder<Settings, AppView, VolumeLens> for Outer {
    fn build(&self, cx: &mut Cx, _field: Field<VolumeLens>) -> Result<(), BuildError> {
        self.log.borrow_mut().outer += 1;
        let bound = Binding::new(cx, VolumeLens, Inner { log: self.log.clone() })?;
        self.log.borrow_mut().inner_bound = Some(bound);
        Ok(())
    }
}

impl Builder<Settings, AppView, VolumeLens> for Inner {
    fn build(&self, cx: &mut Cx, field: Field<VolumeLens>) -> Result<(), BuildError> {
        self.log.borrow_mut().inner += 1;
        let text = field.get(cx).to_string();
        Label::new(cx, text.as_str())?;
        self.log.borrow_mut().inner_text = Some(text);
        Ok(())
    }
}

impl Builder<Settings, AppView, MutedLens> for Muted {
    fn build(&self, _cx: &mut Cx, _field: Field<MutedLens>) -> Result<(), BuildError> {
        self.log.borrow_mut().muted += 1;
        Ok(())
    }
}

#[test]
fn nested_binding_on_the_same_lens_is_covered_by_the_outer() {
    let log = Rc::new(RefCell::new(Log::default()));
    let mut cx = Cx::new();
    assert!(Settings { volume: 3, muted: false }.build(&mut cx).is_ok());
    let outer =
        Binding::new(&mut cx, VolumeLens, Outer { log: log.clone() }).unwrap();
    assert_eq!(outer.registration, Registration::Observing);
    let inner = log.borrow().inner_bound.unwrap();
    assert_eq!(inner.registration, Registration::Covered);
    assert_eq!(cx.observers(Entity::root(), &VolumeLens::tag()), Some(&vec![outer.entity]));
    assert!(cx.parent_iter(inner.entity).contains(&outer.entity));
    assert_eq!((log.borrow().outer, log.borrow().inner), (1, 1));

    cx.emit(SettingsEvent::SetVolume(9));
    let mut event = cx.next_event().unwrap();
    let done = cx.dispatch(&mut event);
    assert_eq!(done.dirty, vec![outer.entity]);
    assert_eq!(cx.rebuild(&done.dirty), Ok(()));
    assert_eq!((log.borrow().outer, log.borrow().inner), (2, 2));
    assert_eq!(log.borrow().inner_text, Some("9".to_string()));
    assert_eq!(log.borrow().inner_bound.unwrap().entity, inner.entity);
    assert_eq!(log.borrow().inner_bound.unwrap().registration, Registration::Covered);
}

#[test]
fn binding_declared_by_a_builder_stands_below_the_outer_one() {
    let log = Rc::new(RefCell::new(Log::default()));
    let mut cx = Cx::new();
    assert!(Settings { volume: 3, muted: false }.build(&mut cx).is_ok());
    let outer = Binding::new(&mut cx, VolumeLens, Outer { log: log.clone() }).unwrap();
    let inner = log.borrow().inner_bound.unwrap();
    assert_eq!(cx.parent_iter(inner.entity), vec![inner.entity, outer.entity, Entity::root()]);
    assert_eq!(cx.get_child(outer.entity, 0), Some(inner.entity));
    assert_eq!(cx.get_child(Entity::root(), 0), Some(outer.entity));
    assert_eq!(cx.get_child(Entity::root(), 1), None);
    assert_eq!((cx.current_entity(), cx.position()), (Entity::root(), 1));
    assert_eq!(cx.observers(Entity::root(), &VolumeLens::tag()).map(|o| o.len()), Some(1));

    cx.emit(SettingsEvent::SetVolume(9));
    cx.emit(SettingsEvent::SetVolume(9));
    cx.emit(SettingsEvent::SetVolume(2));
    assert_eq!(cx.flush_events(), Ok(3));
    assert_eq!((log.borrow().outer, log.borrow().inner), (3, 3));
    assert_eq!(log.borrow().inner_text, Some("2".to_string()));
    assert_eq!(log.borrow().inner_bound.unwrap(), inner);
    assert_eq!(cx.observers(Entity::root(), &VolumeLens::tag()), Some(&vec![outer.entity]));
}

#[test]
fn sibling_bindings_on_the_same_lens_both_observe() {
    let log = Rc::new(RefCell::new(Log::default()));
    let mut cx = Cx::new();
    assert!(Settings { volume: 3, muted: false }.build(&mut cx).is_ok());
    let first = Binding::new(&mut cx, VolumeLens, Inner { log: log.clone() }).unwrap();
    let second = Binding::new(&mut cx, VolumeLens, Inner { log: log.clone() }).unwrap();
    assert_eq!(first.registration, Registration::Observing);
    assert_eq!(second.registration, Registration::Observing);
    assert_ne!(first.entity, second.entity);

    cx.emit(SettingsEvent::SetVolume(4));
    let mut event = cx.next_event().unwrap();
    let done = cx.dispatch(&mut event);
    assert_eq!(done.dirty, vec![first.entity, second.entity]);
}

#[test]
fn only_the_lens_whose_value_changed_rebuilds() {
    let log = Rc::new(RefCell::new(Log::default()));
    let mut cx = Cx::new();
    assert!(Settings { volume: 3, muted: false }.build(&mut cx).is_ok());
    let volume = Binding::new(&mut cx, VolumeLens, Inner { log: log.clone() }).unwrap();
    let muted = Binding::new(&mut cx, MutedLens, Muted { log: log.clone() }).unwrap();
    assert_eq!((log.borrow().inner, log.borrow().muted), (1, 1));

    cx.emit(SettingsEvent::Mute);
    let mut event = cx.next_event().unwrap();
    assert_eq!(cx.dispatch(&mut event).dirty, vec![muted.entity]);

    cx.emit(SettingsEvent::Mute);
    let mut event = cx.next_event().unwrap();
    assert_eq!(cx.dispatch(&mut event).dirty, Vec::<Entity>::new());

    cx.emit(SettingsEvent::SetVolume(3));
    let mut event = cx.next_event().unwrap();
    assert_eq!(cx.dispatch(&mut event).dirty, Vec::<Entity>::new());

    cx.emit(SettingsEvent::SetVolume(8));
    let mut event = cx.next_event().unwrap();
    assert_eq!(cx.dispatch(&mut event).dirty, vec![volume.entity]);
}
