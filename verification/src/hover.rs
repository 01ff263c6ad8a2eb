//! A hover zone: a leaf element that marks its assigned region as a hover
//! boundary for the input system.

use vstd::prelude::*;
use crate::render::HoverState;
use crate::element::{Element, ElementKind, ElementExt, Id, SocketName};

verus! {

#[derive(Copy, Clone, Debug, PartialEq, Eq, Structural)]
pub struct Hover {
    pub state: HoverState,
}

impl Hover {
    pub fn new(state: HoverState) -> (h: Hover)
        ensures
            h.state == state,
    {
        Hover { state }
    }

    /// A staged invocation of a hover zone on the default socket.
    pub fn build(id: Id, state: HoverState) -> (b: HoverBuilder)
        ensures
            b.id == id,
            b.socket == SocketName::default_spec(),
            b.element == (Hover { state }),
    {
        HoverBuilder { id, socket: SocketName::default(), element: Hover { state } }
    }
}

impl Element for Hover {
    open spec fn kind_spec(&self) -> ElementKind {
        ElementKind::Hover(self.state)
    }

    fn kind(&self) -> ElementKind {
        ElementKind::Hover(self.state)
    }
}

/// A hover zone together with the identity and socket it will be opened
/// under.
pub struct HoverBuilder {
    pub id: Id,
    pub socket: SocketName,
    pub element: Hover,
}

impl HoverBuilder {
    pub fn get_id(&self) -> (id: Id)
        ensures
            id == self.id,
    {
        self.id
    }

    pub fn get_socket(&self) -> (s: SocketName)
        ensures
            s == self.socket,
    {
        self.socket
    }

    pub fn get_element(self) -> (e: Hover)
        ensures
            e == self.element,
    {
        self.element
    }

    /// Stage this builder's element into an open `SubContext`.
    pub fn begin(self, sub_ctx: &mut crate::context::SubContext)
        ensures
            crate::children::entries_view(final(sub_ctx).stack@) == crate::children::entries_view(
                old(sub_ctx).stack@,
            ).push(
                crate::children::ChildV {
                    socket: self.socket,
                    node: crate::children::NodeV {
                        id: self.id,
                        elem: ElementKind::Hover(self.element.state),
                        children: Seq::<crate::children::ChildV>::empty(),
                    },
                },
            ),
            final(sub_ctx).stack@.len() == old(sub_ctx).stack@.len() + 1,
            final(sub_ctx).root == old(sub_ctx).root,
            final(sub_ctx).ctx == old(sub_ctx).ctx,
            final(sub_ctx).max_area == old(sub_ctx).max_area,
    {
        let HoverBuilder { id, socket, element } = self;
        ElementExt::begin(element, sub_ctx, socket, id);
    }
}

} // verus!
