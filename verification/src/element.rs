//! Element identity and the closed set of storable element kinds.
//!
//! An element staged in the build tree must be a plain value the engine can
//! own and later run, so the storable kinds form an enum. The `Element`
//! trait in `traits` is the open capability surface over it: a type that
//! knows its kind can be staged through a `SubContext` and run against a
//! `Context`.

use vstd::prelude::*;
use crate::space::Area;
use crate::render::{RGBA8, HoverState};
use crate::layout::LayoutNode;
use crate::children::{Children, ElementNode, NodeV, ChildV, entries_view};
use crate::context::{Context, SubContext, run_node_spec, run_element};

verus! {

/// Stable identity of one widget instance, used for external correlation
/// only; state identity is positional and does not depend on it.
#[derive(Copy, Clone, Debug, PartialEq, Eq, Hash, Structural)]
pub struct Id(pub u64);

/// A named insertion point on a parent element.
#[derive(Copy, Clone, Debug, PartialEq, Eq, Hash, Structural)]
pub struct SocketName(pub u64);

impl SocketName {
    /// The unnamed default socket.
    pub open spec fn default_spec() -> SocketName {
        SocketName(0)
    }
}

impl Default for SocketName {
    fn default() -> (s: SocketName)
        ensures
            s == SocketName::default_spec(),
    {
        SocketName(0)
    }
}

/// The element behaviours the engine can stage and run.
#[derive(Copy, Clone, Debug, PartialEq, Eq, Structural)]
pub enum ElementKind {
    /// No visual output and no children.
    Null,
    /// Draw a solid color behind the first child queued on the default
    /// socket, if any.
    Fill(RGBA8),
    /// Emit a hover boundary covering the assigned region.
    Hover(HoverState),
    /// A leaf of fixed minimum size, filled with one color.
    Block(Area, RGBA8),
    /// Drain the named socket and stack the children vertically.
    Column(SocketName),
}

/// The unit of composition: something that, run in the context of its own
/// staged children, produces one deferred layout node. A type is an element
/// by naming which storable behaviour it denotes; running it agrees with the
/// interpreter's specification `run_node_spec`.
pub trait Element {
    /// The storable behaviour this element denotes.
    spec fn kind_spec(&self) -> ElementKind;

    fn kind(&self) -> (k: ElementKind)
        ensures
            k == self.kind_spec(),
    ;

    /// Run this element against a context scoped to its children, consuming
    /// them and producing its layout.
    fn run(&self, ctx: &mut Context, id: Id) -> (r: LayoutNode)
        ensures
            r@ == run_node_spec(
                NodeV { id, elem: self.kind_spec(), children: old(ctx).children@ },
                old(ctx).max_area,
            ),
            final(ctx).children@ == Seq::<ChildV>::empty(),
            final(ctx).max_area == old(ctx).max_area,
            final(ctx).prev_frame_state == old(ctx).prev_frame_state,
            final(ctx).global_data == old(ctx).global_data,
            final(ctx).buffer == old(ctx).buffer,
    {
        let mut ch = Children::new();
        core::mem::swap(&mut ctx.children, &mut ch);
        let ghost chv = ch@;
        let k = self.kind();
        let node = ElementNode { id, elem: k, children: ch };
        proof {
            assert(node@ == (NodeV { id, elem: self.kind_spec(), children: chv }));
        }
        run_element(node, ctx.max_area())
    }
}

/// The null element: no visual output, no children consumed.
impl Element for () {
    open spec fn kind_spec(&self) -> ElementKind {
        ElementKind::Null
    }

    fn kind(&self) -> ElementKind {
        ElementKind::Null
    }
}

/// A bare kind value is itself an element.
impl Element for ElementKind {
    open spec fn kind_spec(&self) -> ElementKind {
        *self
    }

    fn kind(&self) -> ElementKind {
        *self
    }
}

/// Builder-style sugar: stage an element into an open `SubContext`.
pub trait ElementExt: Element + Sized {
    fn begin(self, sub_ctx: &mut SubContext, socket: SocketName, id: Id)
        ensures
            entries_view(final(sub_ctx).stack@) == entries_view(old(sub_ctx).stack@).push(
                ChildV {
                    socket,
                    node: NodeV {
                        id,
                        elem: self.kind_spec(),
                        children: Seq::<ChildV>::empty(),
                    },
                },
            ),
            final(sub_ctx).stack@.len() == old(sub_ctx).stack@.len() + 1,
            final(sub_ctx).root == old(sub_ctx).root,
            final(sub_ctx).ctx == old(sub_ctx).ctx,
            final(sub_ctx).max_area == old(sub_ctx).max_area,
    ;
}

impl<T: Element> ElementExt for T {
    fn begin(self, sub_ctx: &mut SubContext, socket: SocketName, id: Id) {
        let k = self.kind();
        sub_ctx.begin(socket, id, k);
    }
}

/// A staged invocation: an element together with the identity and socket it
/// will be opened under.
pub struct Builder<T: Element> {
    pub id: Id,
    pub socket: SocketName,
    pub e: T,
}

} // verus!
