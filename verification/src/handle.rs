//! Handles: the way to write the attributes of a node that has been built.

use vstd::prelude::*;
use crate::context::{Context, Slot};
use crate::entity::Entity;
use crate::state::model::ModelData;
use crate::style::{Color, Display, Style};

verus! {

/// The node of a view of type `T` that has been built: the way to write the
/// attributes of the node.
pub struct Handle<T> {
    pub entity: Entity,
    pub p: core::marker::PhantomData<T>,
}

impl<T> Handle<T> {
    /// The handle of the node `entity`.
    pub fn new(entity: Entity) -> (handle: Self)
        ensures
            handle.entity == entity,
    {
        Handle { entity, p: core::marker::PhantomData }
    }

    /// Writes the text of the node. A node that is not in the tree is left
    /// alone.
    pub fn text<D: ModelData, V>(self, cx: &mut Context<D, V>, text: &str) -> (handle: Self)
        requires
            old(cx).wf(),
        ensures
            handle.entity == self.entity,
            final(cx).wf(),
            final(cx).tree() == old(cx).tree(),
            final(cx).current() == old(cx).current(),
            final(cx).count() == old(cx).count(),
            final(cx).pending() == old(cx).pending(),
            final(cx).slots().len() == old(cx).slots().len(),
            forall|i: int|
                0 <= i < old(cx).slots().len() && i != self.entity.spec_index()
                    ==> #[trigger] final(cx).slots()[i] == old(cx).slots()[i],
            !old(cx).has(self.entity) ==> final(cx).slots() == old(cx).slots(),
            old(cx).has(self.entity) ==> {
                &&& final(cx).slot(self.entity).store == old(cx).slot(self.entity).store
                &&& final(cx).slot(self.entity).view == old(cx).slot(self.entity).view
                &&& final(cx).slot(self.entity).style.text matches Some(written) && written@
                    == text@
                &&& final(cx).slot(self.entity).style.element == old(cx).slot(
                    self.entity,
                ).style.element
                &&& final(cx).slot(self.entity).style.display == old(cx).slot(
                    self.entity,
                ).style.display
                &&& final(cx).slot(self.entity).style.visibility == old(cx).slot(
                    self.entity,
                ).style.visibility
                &&& final(cx).slot(self.entity).style.background_color == old(cx).slot(
                    self.entity,
                ).style.background_color
                &&& final(cx).slot(self.entity).style.background_image == old(cx).slot(
                    self.entity,
                ).style.background_image
            },
    {
        proof {
            cx.lemma_wf();
        }
        cx.set_text(self.entity, Some(text.to_owned()));
        self
    }

    /// Writes the name of the picture behind the node. A node that is not in
    /// the tree is left alone.
    pub fn background_image<D: ModelData, V>(self, cx: &mut Context<D, V>, name: &str) -> (handle:
        Self)
        requires
            old(cx).wf(),
        ensures
            handle.entity == self.entity,
            final(cx).wf(),
            final(cx).tree() == old(cx).tree(),
            final(cx).current() == old(cx).current(),
            final(cx).count() == old(cx).count(),
            final(cx).pending() == old(cx).pending(),
            final(cx).slots().len() == old(cx).slots().len(),
            forall|i: int|
                0 <= i < old(cx).slots().len() && i != self.entity.spec_index()
                    ==> #[trigger] final(cx).slots()[i] == old(cx).slots()[i],
            !old(cx).has(self.entity) ==> final(cx).slots() == old(cx).slots(),
            old(cx).has(self.entity) ==> {
                &&& final(cx).slot(self.entity).store == old(cx).slot(self.entity).store
                &&& final(cx).slot(self.entity).view == old(cx).slot(self.entity).view
                &&& final(cx).slot(self.entity).style.background_image matches Some(written)
                    && written@ == name@
                &&& final(cx).slot(self.entity).style.element == old(cx).slot(
                    self.entity,
                ).style.element
                &&& final(cx).slot(self.entity).style.display == old(cx).slot(
                    self.entity,
                ).style.display
                &&& final(cx).slot(self.entity).style.visibility == old(cx).slot(
                    self.entity,
                ).style.visibility
                &&& final(cx).slot(self.entity).style.background_color == old(cx).slot(
                    self.entity,
                ).style.background_color
                &&& final(cx).slot(self.entity).style.text == old(cx).slot(self.entity).style.text
            },
    {
        proof {
            cx.lemma_wf();
        }
        cx.set_background_image(self.entity, Some(name.to_owned()));
        self
    }

    /// Writes whether the node takes part in the layout. A node that is not
    /// in the tree is left alone.
    pub fn display<D: ModelData, V>(self, cx: &mut Context<D, V>, display: Display) -> (handle:
        Self)
        requires
            old(cx).wf(),
        ensures
            handle.entity == self.entity,
            final(cx).wf(),
            final(cx).tree() == old(cx).tree(),
            final(cx).current() == old(cx).current(),
            final(cx).count() == old(cx).count(),
            final(cx).pending() == old(cx).pending(),
            !old(cx).has(self.entity) ==> final(cx).slots() == old(cx).slots(),
            old(cx).has(self.entity) ==> final(cx).slots() == old(cx).slots().update(
                self.entity.spec_index(),
                Slot {
                    store: old(cx).slot(self.entity).store,
                    view: old(cx).slot(self.entity).view,
                    style: Style {
                        display,
                        element: old(cx).slot(self.entity).style.element,
                        text: old(cx).slot(self.entity).style.text,
                        visibility: old(cx).slot(self.entity).style.visibility,
                        background_color: old(cx).slot(self.entity).style.background_color,
                        background_image: old(cx).slot(self.entity).style.background_image,
                    },
                },
            ),
    {
        cx.set_display(self.entity, display);
        self
    }

    /// Writes the colour behind the node. A node that is not in the tree is
    /// left alone.
    pub fn background_color<D: ModelData, V>(self, cx: &mut Context<D, V>, color: Color) -> (handle:
        Self)
        requires
            old(cx).wf(),
        ensures
            handle.entity == self.entity,
            final(cx).wf(),
            final(cx).tree() == old(cx).tree(),
            final(cx).current() == old(cx).current(),
            final(cx).count() == old(cx).count(),
            final(cx).pending() == old(cx).pending(),
            !old(cx).has(self.entity) ==> final(cx).slots() == old(cx).slots(),
            old(cx).has(self.entity) ==> final(cx).slots() == old(cx).slots().update(
                self.entity.spec_index(),
                Slot {
                    store: old(cx).slot(self.entity).store,
                    view: old(cx).slot(self.entity).view,
                    style: Style {
                        background_color: Some(color),
                        element: old(cx).slot(self.entity).style.element,
                        text: old(cx).slot(self.entity).style.text,
                        display: old(cx).slot(self.entity).style.display,
                        visibility: old(cx).slot(self.entity).style.visibility,
                        background_image: old(cx).slot(self.entity).style.background_image,
                    },
                },
            ),
    {
        cx.set_background_color(self.entity, Some(color));
        self
    }
}

} // verus!
