//! Views: what is built at a node and can be built again.

use vstd::prelude::*;
use crate::context::{BuildError, Context};
use crate::state::model::ModelData;

verus! {

/// A view as a node stores it: one type that stands for every type of view
/// that the application stores. When a node is rebuilt, the context takes its
/// view out of the node, calls `body`, and puts the view back. A view that
/// says nothing else has no name.
///
/// The spec functions say what an implementation does. Their defaults are
/// arbitrary values: an implementation that is not verified leaves them out.
pub trait View<D: ModelData>: Sized {
    /// What `body` does: whether the view `self`, building in `before`, may
    /// leave the view `left`, the context `after` and the result `built`.
    open spec fn builds(
        &self,
        before: Context<D, Self>,
        left: Self,
        after: Context<D, Self>,
        built: Result<(), BuildError>,
    ) -> bool {
        arbitrary()
    }

    /// The name that a view gives itself, where it gives one.
    open spec fn name(&self) -> Option<Seq<char>> {
        arbitrary()
    }

    /// Builds what stands below the view: it does what `builds` says.
    /// Whatever it does to the context, it leaves the context in order and
    /// takes no node out of the tree.
    fn body(&mut self, cx: &mut Context<D, Self>) -> (built: Result<(), BuildError>)
        requires
            old(cx).wf(),
        ensures
            final(cx).wf(),
            final(cx).keeps(*old(cx)),
            old(self).builds(*old(cx), *final(self), *final(cx), built),
    ;

    /// The name under which style rules find views of this kind: the name
    /// that the view gives itself, or, of a view that says nothing else,
    /// none.
    fn element(&self) -> (element: Option<String>)
        ensures
            element matches Some(word) ==> self.name() == Some(vstd::view::View::view(&word)),
    {
        None
    }
}

} // verus!
