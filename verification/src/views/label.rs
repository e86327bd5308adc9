//! A piece of text.

use vstd::prelude::*;
use crate::context::{before_style, BuildError, Context};
use crate::state::binding::{Builder, Field};
use crate::state::lens::Lens;
use crate::state::model::{Holds, Model};
use crate::entity::Entity;
use crate::handle::Handle;
use crate::localization::localized_string::LocalizedStringKey;
use crate::state::model::ModelData;
use crate::tree::grown;

verus! {

/// A view that shows a text.
pub struct Label;

impl Label {
    /// Whether `after` is `before` with a label of `text` built at the place
    /// where the next view is built, on the node `id`: the node that stood
    /// at the place, or a new one. The label has its name and its text; what
    /// else the node held, it holds still, and no other node has changed.
    pub open spec fn labelled<D: ModelData, V>(
        before: Context<D, V>,
        id: Entity,
        text: Seq<char>,
        after: Context<D, V>,
    ) -> bool {
        &&& after.current() == before.current()
        &&& after.pending() == before.pending()
        &&& after.has(id)
        &&& after.count() == before.count() + 1
        &&& before.child_at(before.current(), before.count() as int) matches Some(
            child,
        ) ==> id == child
        &&& before.child_at(before.current(), before.count() as int) is None
            ==> !before.has(id)
        &&& after.tree() == (if before.has(id) {
            before.tree()
        } else {
            grown(before.tree(), id, before.current())
        })
        &&& forall|e: Entity|
            before.has(e) && e != id ==> #[trigger] after.slot(e)
                == before.slot(e)
        &&& after.slot(id).style.element matches Some(element)
            && element@ == "label"@
        &&& after.slot(id).style.text matches Some(written) && written@
            == text
        &&& after.slot(id).style.display == before_style(
            before,
            id,
        ).display
        &&& after.slot(id).style.visibility == before_style(
            before,
            id,
        ).visibility
        &&& after.slot(id).style.background_color == before_style(
            before,
            id,
        ).background_color
        &&& after.slot(id).style.background_image == before_style(
            before,
            id,
        ).background_image
        &&& before.has(id) ==> {
            &&& after.slot(id).store == before.slot(
                id,
            ).store
            &&& after.slot(id).view == before.slot(id).view
        }
        &&& !before.has(id) ==> {
            &&& after.slot(id).store.data@.len() == 0
            &&& after.slot(id).store.lenses@.len() == 0
            &&& after.slot(id).view is None
        }
    }

    /// Builds a label at the place where the next view is built: finds or
    /// makes its node, and writes the name of the element and the text named
    /// by `text` to it. Where no node can be had, nothing changes.
    pub fn new<'a, D: ModelData, V, K: LocalizedStringKey<'a>>(
        cx: &mut Context<D, V>,
        text: K,
    ) -> (label: Result<Handle<Label>, BuildError>)
        requires
            old(cx).wf(),
        ensures
            final(cx).wf(),
            final(cx).keeps(*old(cx)),
            final(cx).current() == old(cx).current(),
            final(cx).pending() == old(cx).pending(),
            match old(cx).node_error() {
                Some(error) => {
                    &&& label == Err::<Handle<Label>, BuildError>(error)
                    &&& *final(cx) == *old(cx)
                },
                None => {
                    &&& label matches Ok(handle)
                    &&& Self::labelled(*old(cx), handle.entity, text.key_spec(), *final(cx))
                },
            },
    {
        let ghost before = *cx;
        let id = match cx.build_node() {
            Ok(id) => id,
            Err(error) => {
                return Err(error);
            },
        };
        let ghost built = *cx;
        proof {
            before.lemma_wf();
            built.lemma_wf();
        }
        cx.set_element(id, Some("label".to_owned()));
        let handle = Handle::new(id).text(cx, text.key());
        proof {
            assert forall|e: Entity| before.has(e) && e != id implies #[trigger] cx.slot(e)
                == before.slot(e) by {
                assert(built.slot(e) == before.slot(e));
                assert(e.spec_index() != id.spec_index());
            }
        }
        Ok(handle)
    }

    /// The name under which style rules find labels.
    pub fn element(&self) -> (element: Option<String>)
        ensures
            element matches Some(name) && name@ == "label"@,
    {
        Some("label".to_owned())
    }
}

/// The builder of a binding that shows a text of a model as a label: each
/// time it runs, it builds one label with the text that the lens shows. It
/// builds nothing where there is no text to read.
pub struct TextLabel;

impl<D, V, L> Builder<D, V, L> for TextLabel where
    D: ModelData + Holds<L::Source>,
    L: Lens<Target = String>,
    L::Source: Model,
 {
    open spec fn builds(
        &self,
        before: Context<D, V>,
        field: Field<L>,
        after: Context<D, V>,
        built: Result<(), BuildError>,
    ) -> bool {
        if field.readable(&before) {
            match before.node_error() {
                Some(error) => built == Err::<(), BuildError>(error) && after == before,
                None => built is Ok && exists|id: Entity| #[trigger]
                    Label::labelled(
                        before,
                        id,
                        field.lens().project(before.data_spec::<L::Source>()->0)@,
                        after,
                    ),
            }
        } else {
            built is Ok && after == before
        }
    }

    fn build(&self, cx: &mut Context<D, V>, field: Field<L>) -> (built: Result<(), BuildError>) {
        let text = match field.try_get(cx) {
            Some(text) => text.clone(),
            None => {
                return Ok(());
            },
        };
        match Label::new(cx, text.as_str()) {
            Ok(_) => Ok(()),
            Err(error) => Err(error),
        }
    }
}

/// Building again is building the same. When the builder has built from a
/// place at which, or right behind which, children of the current node
/// stand, and runs once more from the same place on what it left, with a
/// text still to be read or still none, the second run succeeds, makes no
/// node, and leaves the tree as the first run left it: the label is the
/// node that it was.
pub proof fn lemma_label_is_built_the_same_again<D, V, L>(
    field: Field<L>,
    first: Context<D, V>,
    built: Context<D, V>,
    again: Context<D, V>,
    rebuilt: Context<D, V>,
    result: Result<(), BuildError>,
) where D: ModelData + Holds<L::Source>, L: Lens<Target = String>, L::Source: Model
    requires
        first.wf(),
        first.count() <= first.tree()[first.current()].children.len(),
        TextLabel.builds(first, field, built, Ok::<(), BuildError>(())),
        built.placed(first.current(), first.count(), again),
        field.readable(&again) == field.readable(&first),
        TextLabel.builds(again, field, rebuilt, result),
    ensures
        result is Ok,
        rebuilt.tree() == built.tree(),
{
    first.lemma_wf();
    if field.readable(&first) {
        let text = field.lens().project(first.data_spec::<L::Source>()->0)@;
        let id = choose|id: Entity| #[trigger] Label::labelled(first, id, text, built);
        let parent = first.current();
        let place = first.count() as int;
        if first.has(id) {
            assert(first.child_at(parent, place) == Some(id));
        } else {
            if place < first.tree()[parent].children.len() {
                let child = first.tree()[parent].children[place];
                assert(first.child_at(parent, place) == Some(child));
                assert(first.has(child));
            }
            assert(place == first.tree()[parent].children.len());
            assert(built.tree() == grown(first.tree(), id, parent));
            assert(id != parent);
            assert(built.tree()[parent].children == first.tree()[parent].children.push(id));
        }
        assert(again.child_at(parent, place) == Some(id));
        assert(again.node_error() is None);
        let text_again = field.lens().project(again.data_spec::<L::Source>()->0)@;
        let other = choose|other: Entity| #[trigger]
            Label::labelled(again, other, text_again, rebuilt);
        assert(other == id);
    }
}

} // verus!
