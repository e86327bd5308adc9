use std::rc::Rc;

use vizia_core::context::{BuildError, Context};
use vizia_core::entity::{Entity, EntityManager};
use vizia_core::events::{Event, EventContext};
use vizia_core::handle::Handle;
use vizia_core::localization::localized_string::{LocalizedString, LocalizedStringKey};
use vizia_core::state::binding::{Binding, Builder, Field};
use vizia_core::state::data::Data;
use vizia_core::state::lens::{Index, Lens};
use vizia_core::state::model::Model;
use vizia_core::state::registry::{mark_all, same_key, ModelDataStore};
use vizia_core::state::res::Res;
use vizia_core::state::store::{is_observer, LensWrap, Seen, StateStore};
use vizia_core::style::{Color, Display, Style, Visibility};
use vizia_core::text::font::{FontStyle, FontWeight};
use vizia_core::text::storage::{Storage, TextStorage};
use vizia_core::tree::{Tree, TreeError};
use vizia_core::views::image_view::Image;
use vizia_core::views::label::Label;

#[test]
fn entities_count_upwards_and_are_handed_out_again() {
    let mut manager = EntityManager::new();
    assert!(!manager.alive(Entity::root()));
    assert_eq!(manager.create(), Some(Entity(0)));
    assert_eq!(manager.create(), Some(Entity(1)));
    assert_eq!(manager.create(), Some(Entity(2)));
    assert!(manager.alive(Entity(1)));
    assert!(!manager.alive(Entity(3)));

    assert!(manager.destroy(Entity(1)));
    assert!(!manager.destroy(Entity(1)));
    assert!(!manager.destroy(Entity(7)));
    assert!(!manager.alive(Entity(1)));
    assert!(manager.alive(Entity(0)) && manager.alive(Entity(2)));

    assert_eq!(manager.create(), Some(Entity(1)));
    assert_eq!(manager.create(), Some(Entity(3)));
    assert_eq!(Entity::root(), Entity(0));
    assert_eq!(Entity(9).index(), 9);
}

#[test]
fn tree_keeps_parents_children_and_paths() {
    let mut tree = Tree::new();
    assert!(tree.contains(Entity::root()));
    assert_eq!(tree.add(Entity(1), Entity(0)), Ok(()));
    assert_eq!(tree.add(Entity(4), Entity(0)), Ok(()));
    assert_eq!(tree.add(Entity(2), Entity(4)), Ok(()));
    assert_eq!(tree.add(Entity(2), Entity(1)), Err(TreeError::AlreadyPresent));
    assert_eq!(tree.add(Entity(0), Entity(1)), Err(TreeError::AlreadyPresent));
    assert_eq!(tree.add(Entity(9), Entity(3)), Err(TreeError::MissingParent));
    assert_eq!(tree.add(Entity(3), Entity(3)), Err(TreeError::MissingParent));

    assert!(!tree.contains(Entity(3)));
    assert_eq!(tree.get_parent(Entity(2)), Some(Entity(4)));
    assert_eq!(tree.get_parent(Entity(0)), None);
    assert_eq!(tree.get_parent(Entity(3)), None);
    assert_eq!(tree.get_child(Entity(0), 0), Some(Entity(1)));
    assert_eq!(tree.get_child(Entity(0), 1), Some(Entity(4)));
    assert_eq!(tree.get_child(Entity(0), 2), None);
    assert_eq!(tree.get_child(Entity(3), 0), None);
    assert_eq!(tree.child_count(Entity(0)), 2);
    assert_eq!(tree.child_count(Entity(2)), 0);
    assert_eq!(tree.depth(Entity(2)), Some(2));
    assert_eq!(tree.depth(Entity(3)), None);
    assert_eq!(tree.parent_iter(Entity(2)), vec![Entity(2), Entity(4), Entity(0)]);
    assert_eq!(tree.parent_iter(Entity(0)), vec![Entity(0)]);
    assert_eq!(tree.parent_iter(Entity(3)), vec![]);
}

#[test]
fn data_is_compared_by_value() {
    assert!(3u32.same(&3));
    assert!(!3u32.same(&4));
    assert!(true.same(&true));
    assert!(!'a'.same(&'b'));
    assert!((-1i64).same(&-1));
    let text = "abc".to_string();
    let copy = text.clone_data();
    assert!(text.same(&copy));
    assert!(!text.same(&"abd".to_string()));
    assert_eq!(7u8.clone_data(), 7);
}

#[test]
fn witness_tells_when_the_value_behind_the_lens_changes() {
    let lens: Index<u32> = Index::new(1);
    let mut list = vec![4u32, 5];
    let mut witness = StateStore::new(Entity(3), lens, &list);
    assert_eq!(witness.old, Some(5));
    assert_eq!(witness.observers, vec![Entity(3)]);
    assert_eq!(witness.entity, Entity(3));

    assert!(!witness.refresh(&list));
    list[1] = 9;
    assert!(witness.refresh(&list));
    assert_eq!(witness.old, Some(9));
    assert!(!witness.refresh(&list));
    list[0] = 1;
    assert!(!witness.refresh(&list));
    list.pop();
    assert!(witness.refresh(&list));
    assert_eq!(witness.old, None);
    assert!(!witness.refresh(&list));
    list.push(9);
    assert!(witness.refresh(&list));

    assert_eq!(LensWrap::<Vec<u32>>::update(&mut witness, &vec![0, 9]), Seen::Unchanged);
    assert_eq!(LensWrap::<Vec<u32>>::update(&mut witness, &vec![0, 8]), Seen::Changed);
    assert_eq!(witness.old, Some(8));
    LensWrap::<Vec<u32>>::add_observer(&mut witness, Entity(5));
    LensWrap::<Vec<u32>>::add_observer(&mut witness, Entity(3));
    LensWrap::<Vec<u32>>::add_observer(&mut witness, Entity(5));
    assert_eq!(LensWrap::<Vec<u32>>::observers(&witness), &vec![Entity(3), Entity(5)]);
    assert_eq!(LensWrap::<Vec<u32>>::entity(&witness), Entity(3));
}

#[test]
fn helpers_of_the_registry() {
    assert!(is_observer(&vec![Entity(1), Entity(2)], Entity(2)));
    assert!(!is_observer(&vec![Entity(1), Entity(2)], Entity(3)));
    let mut dirty = vec![Entity(2)];
    mark_all(&mut dirty, &vec![Entity(1), Entity(2), Entity(1), Entity(3)]);
    assert_eq!(dirty, vec![Entity(2), Entity(1), Entity(3)]);
    assert!(same_key(&vec![1, 2], &vec![1, 2]));
    assert!(!same_key(&vec![1, 2], &vec![1, 3]));
    assert!(!same_key(&vec![1, 2], &vec![1]));
    assert!(same_key(&vec![], &vec![]));
}

#[derive(Debug, PartialEq)]
struct Plain(u8);

impl Model for Plain {
    type Message = ();

    fn type_tag() -> u64 {
        11
    }

    fn event(&mut self, _cx: &mut EventContext<()>, _event: &mut Event<()>) {}
}

#[test]
fn store_holds_one_model_of_a_type() {
    let mut store: ModelDataStore<Plain> = ModelDataStore::new();
    assert_eq!(store.find_model(11), None);
    assert_eq!(store.lookup::<Plain>(), None);
    assert_eq!(store.attach(Plain(1)), None);
    assert_eq!(store.attach(Plain(2)), Some(Plain(1)));
    assert_eq!(store.data, vec![Plain(2)]);
    assert_eq!(store.find_model(11), Some(0));
    assert_eq!(store.find_model(12), None);
    assert_eq!(store.lookup::<Plain>(), Some(&Plain(2)));
    assert_eq!(store.find_lens(&vec![1]), None);
    assert!(store.detect(0).is_empty());
}

struct NoBuilder;

type PlainCx = Context<Plain, Binding<PlainLens, NoBuilder>>;

#[derive(Clone, Copy, Debug)]
struct PlainLens;

impl Lens for PlainLens {
    type Source = Plain;
    type Target = u8;

    fn tag() -> Vec<u64> {
        vec![110]
    }

    fn applies(&self, source: &Plain) -> bool {
        source.0 != 255
    }

    fn view<'a>(&self, source: &'a Plain) -> &'a u8 {
        &source.0
    }
}

impl Builder<Plain, Binding<PlainLens, NoBuilder>, PlainLens> for NoBuilder {
    fn build(&self, _cx: &mut PlainCx, _field: Field<PlainLens>) -> Result<(), BuildError> {
        Err(BuildError::BuilderFailed)
    }
}

#[test]
fn nodes_are_built_in_place_and_found_again() {
    let mut cx = PlainCx::new();
    assert_eq!(cx.current_entity(), Entity::root());
    assert_eq!(cx.position(), 0);
    let first = cx.build_node().unwrap();
    let second = cx.build_node().unwrap();
    assert_ne!(first, second);
    assert_eq!(cx.position(), 2);
    assert_eq!(cx.get_child(Entity::root(), 0), Some(first));
    assert_eq!(cx.get_child(Entity::root(), 1), Some(second));
    assert!(cx.contains(first) && cx.contains(second));
    assert!(!cx.contains(Entity(77)));

    assert!(cx.set_position(Entity::root(), 0));
    assert_eq!(cx.build_node(), Ok(first));
    assert_eq!(cx.build_node(), Ok(second));
    let third = cx.build_node().unwrap();
    assert!(third != first && third != second);

    assert!(!cx.set_position(Entity(77), 3));
    assert_eq!((cx.current_entity(), cx.position()), (Entity::root(), 3));
    assert!(cx.set_position(first, usize::MAX));
    assert_eq!(cx.build_node(), Err(BuildError::TooManySiblings));
    assert!(cx.set_position(first, 5));
    let deep = cx.build_node().unwrap();
    assert_eq!(cx.parent_iter(deep), vec![deep, first, Entity::root()]);
    assert_eq!(cx.get_child(first, 0), Some(deep));
    assert_eq!(cx.position(), 6);
}

#[test]
fn labels_and_images_write_their_attributes() {
    let mut cx = PlainCx::new();
    let label = Label::new(&mut cx, "Hello").unwrap();
    let style = cx.style(label.entity).unwrap();
    assert_eq!(style.element.as_deref(), Some("label"));
    assert_eq!(style.text.as_deref(), Some("Hello"));
    assert_eq!(style.display, Display::Flex);
    assert_eq!(style.visibility, Visibility::Visible);
    assert_eq!(Label.element(), Some("label".to_string()));

    let image = Image::new(&mut cx, "icons/logo.png").unwrap();
    assert_ne!(image.entity, label.entity);
    let style = cx.style(image.entity).unwrap();
    assert_eq!(style.background_image.as_deref(), Some("icons/logo.png"));
    assert_eq!(style.text, None);

    let keyed = Label::new(&mut cx, LocalizedString::new("greeting")).unwrap();
    assert_eq!(cx.style(keyed.entity).unwrap().text.as_deref(), Some("greeting"));
    let owned = "owned".to_string();
    let from_string = Label::new(&mut cx, &owned).unwrap();
    assert_eq!(cx.style(from_string.entity).unwrap().text.as_deref(), Some("owned"));

    assert!(cx.set_position(Entity::root(), 0));
    let again = Label::new(&mut cx, "Bye").unwrap();
    assert_eq!(again.entity, label.entity);
    assert_eq!(cx.style(label.entity).unwrap().text.as_deref(), Some("Bye"));
    assert!(cx.style(Entity(500)).is_none());
}

#[test]
fn handles_write_and_leave_strangers_alone() {
    let mut cx = PlainCx::new();
    let node = cx.build_node().unwrap();
    let handle: Handle<Label> = Handle::new(node)
        .text(&mut cx, "a")
        .display(&mut cx, Display::Hidden)
        .background_color(&mut cx, Color::rgba(1, 2, 3, 4))
        .background_image(&mut cx, "b.png");
    assert_eq!(handle.entity, node);
    let style = cx.style(node).unwrap();
    assert_eq!(style.text.as_deref(), Some("a"));
    assert_eq!(style.display, Display::Hidden);
    assert_eq!(style.background_color, Some(Color { r: 1, g: 2, b: 3, a: 4 }));
    assert_eq!(style.background_image.as_deref(), Some("b.png"));

    let stranger: Handle<Label> = Handle::new(Entity(99)).text(&mut cx, "x");
    assert_eq!(stranger.entity, Entity(99));
    assert!(cx.style(Entity(99)).is_none());
    assert!(!cx.set_text(Entity(99), None));
    assert!(cx.set_visibility(node, Visibility::Invisible));
    assert!(cx.set_element(node, Some("knob".to_string())));
    assert_eq!(cx.style(node).unwrap().visibility, Visibility::Invisible);
    assert_eq!(cx.style(node).unwrap().element.as_deref(), Some("knob"));
    assert!(Style::new().text.is_none());
}

#[test]
fn failing_builder_is_kept_and_its_error_handed_on() {
    let mut cx = PlainCx::new();
    assert!(Plain(1).build(&mut cx).is_ok());
    assert_eq!(Binding::new(&mut cx, PlainLens, NoBuilder).err(), Some(BuildError::BuilderFailed));
    let node = cx.get_child(Entity::root(), 0).unwrap();
    assert_eq!(cx.rebuild_node(node), Err(BuildError::BuilderFailed));
    assert_eq!(cx.rebuild_node(node), Err(BuildError::BuilderFailed));
    assert_eq!(cx.rebuild(&vec![Entity(42), node]), Err(BuildError::BuilderFailed));
    assert_eq!(cx.rebuild_node(Entity(42)), Ok(()));
    assert!(cx.take_view(node).is_some());
    assert_eq!(cx.rebuild_node(node), Ok(()));
    assert!(cx.take_view(node).is_none());
}

#[test]
fn fields_and_plain_values_resolve() {
    let mut cx = PlainCx::new();
    let field = Field::new(PlainLens);
    assert_eq!(field.try_get(&cx), None);
    assert!(Plain(6).build(&mut cx).is_ok());
    assert_eq!(field.try_get(&cx), Some(&6));
    assert_eq!(field.get(&cx), &6);
    assert_eq!(Res::get(&field, &cx), &6);
    let child = cx.build_node().unwrap();
    cx.set_position(child, 0);
    assert_eq!(field.get(&cx), &6);
    assert!(Plain(255).build(&mut cx).is_ok());
    assert_eq!(cx.data::<Plain>(), Some(&Plain(255)));
    assert_eq!(field.try_get(&cx), None);

    assert_eq!(Res::<Plain, Binding<PlainLens, NoBuilder>, u32>::get(&5u32, &cx), &5);
    assert_eq!(Res::<Plain, Binding<PlainLens, NoBuilder>, bool>::get(&true, &cx), &true);
    assert_eq!(Res::<Plain, Binding<PlainLens, NoBuilder>, (u8, u8)>::get(&(1, 2), &cx), &(1, 2));
    let blue = Color::blue();
    assert_eq!(Res::<Plain, Binding<PlainLens, NoBuilder>, Color>::get(&blue, &cx), &blue);
}

struct Shouted(String);

impl TextStorage for Shouted {
    fn as_str(&self) -> &str {
        &self.0
    }
}

#[test]
fn text_is_lent_out_by_what_stores_it() {
    assert_eq!(TextStorage::as_str(&"plain".to_string()), "plain");
    let storage = Storage(Rc::new("shared".to_string()));
    assert_eq!(storage.as_str(), "shared");
    let other = Storage(Rc::new(Shouted("LOUD".to_string())));
    assert_eq!(other.as_str(), "LOUD");
    assert_eq!(LocalizedString::new("title").key(), "title");
    assert_eq!("title".key(), "title");
}

#[test]
fn font_weights_by_name() {
    let named = [
        (FontWeight::thin(), 100),
        (FontWeight::hairline(), 100),
        (FontWeight::extra_light(), 200),
        (FontWeight::light(), 300),
        (FontWeight::regular(), 400),
        (FontWeight::normal(), 400),
        (FontWeight::medium(), 500),
        (FontWeight::semi_bold(), 600),
        (FontWeight::bold(), 700),
        (FontWeight::extra_bold(), 800),
        (FontWeight::black(), 900),
        (FontWeight::heavy(), 900),
        (FontWeight::extra_black(), 950),
    ];
    for (weight, raw) in named {
        assert_eq!(weight.to_raw(), raw);
    }
    assert!(matches!(FontStyle::Italic, FontStyle::Italic));
    assert!(!matches!(FontStyle::Regular, FontStyle::Italic));
}

#[test]
fn witness_keeps_the_value_it_was_shown_last() {
    let lens: Index<u32> = Index::new(0);
    let mut witness = StateStore::new(Entity(1), lens, &vec![0]);
    assert_eq!(witness.old, Some(0));
    assert_eq!(LensWrap::<Vec<u32>>::update(&mut witness, &vec![1]), Seen::Changed);
    assert_eq!(witness.old, Some(1));
    assert_eq!(witness.observers, vec![Entity(1)]);
    assert_eq!(witness.entity, Entity(1));
    assert_eq!(LensWrap::<Vec<u32>>::update(&mut witness, &vec![1]), Seen::Unchanged);
    assert_eq!(witness.old, Some(1));

    let mut other = StateStore::new(Entity(1), lens, &vec![5]);
    let elsewhere = vec![5, 7];
    assert_eq!(LensWrap::<Vec<u32>>::update(&mut other, &elsewhere), Seen::Unchanged);
    assert_eq!(other.old, Some(5));
    LensWrap::<Vec<u32>>::add_observer(&mut other, Entity(2));
    assert_eq!(other.old, Some(5));
    assert_eq!(other.entity, Entity(1));
    assert_eq!(other.observers, vec![Entity(1), Entity(2)]);
    LensWrap::<Vec<u32>>::remove_observer(&mut other, Entity(1));
    assert_eq!(other.old, Some(5));
    assert_eq!(other.observers, vec![Entity(2)]);
}
