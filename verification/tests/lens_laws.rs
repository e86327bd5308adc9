use vizia_core::state::lens::{Index, Lens, LensExt, Then};
use vizia_core::text::font::FontWeight;

#[derive(Clone, Debug, PartialEq)]
struct Inner {
    names: Vec<String>,
}

#[derive(Clone, Debug, PartialEq)]
struct Outer {
    inner: Inner,
    count: u32,
}

#[derive(Clone, Copy, Debug)]
struct InnerLens;

impl Lens for InnerLens {
    type Source = Outer;
    type Target = Inner;

    fn tag() -> Vec<u64> {
        vec![1]
    }

    fn applies(&self, _source: &Outer) -> bool {
        true
    }

    fn view<'a>(&self, source: &'a Outer) -> &'a Inner {
        &source.inner
    }
}

#[derive(Clone, Copy, Debug)]
struct NamesLens;

impl Lens for NamesLens {
    type Source = Inner;
    type Target = Vec<String>;

    fn tag() -> Vec<u64> {
        vec![2]
    }

    fn applies(&self, _source: &Inner) -> bool {
        true
    }

    fn view<'a>(&self, source: &'a Inner) -> &'a Vec<String> {
        &source.names
    }
}

fn sample() -> Outer {
    Outer { inner: Inner { names: vec!["First".to_string(), "Second".to_string()] }, count: 3 }
}

#[test]
fn composed_lens_views_in_sequence() {
    let model = sample();
    let composed: Then<InnerLens, NamesLens> = InnerLens.then(NamesLens);
    assert_eq!(composed.view(&model), NamesLens.view(InnerLens.view(&model)));
    assert_eq!(
        <Then<InnerLens, NamesLens> as Lens>::tag(),
        vec![0xFFFF_FFFF_FFFF_FFFD, 1, 1, 2]
    );
}

#[test]
fn index_lens_projects_the_fixed_place() {
    let model = sample();
    let lens = InnerLens.then(NamesLens).index(1);
    assert!(lens.applies(&model));
    assert_eq!(lens.view(&model), "Second");
    let beyond = InnerLens.then(NamesLens).then(Index::new(2));
    assert!(!beyond.applies(&model));
}

#[test]
fn font_weight_is_clamped() {
    assert_eq!(FontWeight::new(0).to_raw(), 1);
    assert_eq!(FontWeight::new(1).to_raw(), 1);
    assert_eq!(FontWeight::new(400).to_raw(), 400);
    assert_eq!(FontWeight::new(1000).to_raw(), 1000);
    assert_eq!(FontWeight::new(1001).to_raw(), 1000);
    assert_eq!(FontWeight::new(u16::MAX).to_raw(), 1000);
    assert_eq!(FontWeight::bold().to_raw(), 700);
}
