//! A picture.

use vstd::prelude::*;
use crate::context::{before_style, BuildError, Context};
use crate::entity::Entity;
use crate::handle::Handle;
use crate::state::model::ModelData;
use crate::tree::grown;

verus! {

/// A view that shows a picture.
pub struct Image {}

impl Image {
    /// Builds an image at the place where the next view is built: finds or
    /// makes its node, and writes `file_path` to it as the name of the picture
    /// behind the node. The picture itself is loaded by whoever draws the
    /// tree. Where no node can be had, nothing changes.
    pub fn new<D: ModelData, V>(cx: &mut Context<D, V>, file_path: &'static str) -> (image: Result<
        Handle<Image>,
        BuildError,
    >)
        requires
            old(cx).wf(),
        ensures
            final(cx).wf(),
            final(cx).keeps(*old(cx)),
            final(cx).current() == old(cx).current(),
            final(cx).pending() == old(cx).pending(),
            match old(cx).node_error() {
                Some(error) => {
                    &&& image == Err::<Handle<Image>, BuildError>(error)
                    &&& *final(cx) == *old(cx)
                },
                None => {
                    &&& image matches Ok(handle)
                    &&& final(cx).has(handle.entity)
                    &&& final(cx).count() == old(cx).count() + 1
                    &&& old(cx).child_at(old(cx).current(), old(cx).count() as int) matches Some(
                        child,
                    ) ==> handle.entity == child
                    &&& old(cx).child_at(old(cx).current(), old(cx).count() as int) is None
                        ==> !old(cx).has(handle.entity)
                    &&& final(cx).tree() == (if old(cx).has(handle.entity) {
                        old(cx).tree()
                    } else {
                        grown(old(cx).tree(), handle.entity, old(cx).current())
                    })
                    &&& forall|e: Entity|
                        old(cx).has(e) && e != handle.entity ==> #[trigger] final(cx).slot(e)
                            == old(cx).slot(e)
                    &&& final(cx).slot(handle.entity).style.background_image matches Some(written)
                        && written@ == file_path@
                    &&& final(cx).slot(handle.entity).style.element == before_style(
                        *old(cx),
                        handle.entity,
                    ).element
                    &&& final(cx).slot(handle.entity).style.text == before_style(
                        *old(cx),
                        handle.entity,
                    ).text
                    &&& final(cx).slot(handle.entity).style.display == before_style(
                        *old(cx),
                        handle.entity,
                    ).display
                    &&& final(cx).slot(handle.entity).style.visibility == before_style(
                        *old(cx),
                        handle.entity,
                    ).visibility
                    &&& final(cx).slot(handle.entity).style.background_color == before_style(
                        *old(cx),
                        handle.entity,
                    ).background_color
                    &&& old(cx).has(handle.entity) ==> {
                        &&& final(cx).slot(handle.entity).store == old(cx).slot(
                            handle.entity,
                        ).store
                        &&& final(cx).slot(handle.entity).view == old(cx).slot(handle.entity).view
                    }
                    &&& !old(cx).has(handle.entity) ==> {
                        &&& final(cx).slot(handle.entity).store.data@.len() == 0
                        &&& final(cx).slot(handle.entity).store.lenses@.len() == 0
                        &&& final(cx).slot(handle.entity).view is None
                    }
                },
            },
    {
        let ghost before = *cx;
        let id = match cx.build_node() {
            Ok(id) => id,
            Err(error) => {
                return Err(error);
            },
        };
        let ghost built = *cx;
        proof {
            before.lemma_wf();
            built.lemma_wf();
        }
        let handle = Handle::new(id).background_image(cx, file_path);
        proof {
            assert forall|e: Entity| before.has(e) && e != id implies #[trigger] cx.slot(e)
                == before.slot(e) by {
                assert(built.slot(e) == before.slot(e));
                assert(e.spec_index() != id.spec_index());
            }
        }
        Ok(handle)
    }
}

} // verus!
