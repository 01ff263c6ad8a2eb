//! The wrapper archetype: an element that decorates at most one child.
//!
//! A `WrapImpl` chooses the area offered to its child and how to compose the
//! child's layout (or its absence) into its own. `wrap` drives it: it drains
//! at most one child from the default socket, runs it, and closes.

use vstd::prelude::*;
use crate::space::Area;
use crate::layout::{LayoutNode, LayoutV};
use crate::element::SocketName;
use crate::children::{NodeV, socket_seq};
use crate::context::{Context, BoundedSocket, run_node_spec, run_nodes_spec};
use crate::layout::{nodes_view, lemma_nodes_view_len};

verus! {

/// The behaviour of a wrapper element over one optional child.
pub trait WrapImpl {
    /// The area offered to the child.
    spec fn open_spec(&self, max_area: Area) -> Area;

    /// The composed layout when a child was staged.
    spec fn close_some_spec(&self, child: LayoutV) -> LayoutV;

    /// The composed layout when no child was staged.
    spec fn close_none_spec(&self) -> LayoutV;

    fn open(&self, max_area: Area) -> (r: Area)
        ensures
            r == self.open_spec(max_area),
    ;

    fn close_some(&self, child: LayoutNode) -> (r: LayoutNode)
        ensures
            r@ == self.close_some_spec(child@),
    ;

    fn close_none(&self) -> (r: LayoutNode)
        ensures
            r@ == self.close_none_spec(),
    ;
}

/// A wrapper element carrying its behaviour.
pub struct Wrap<T: WrapImpl>(pub T);

impl<T: WrapImpl> Wrap<T> {
    /// Run the wrapper against a context: drain at most one child from the
    /// default socket, run it in the opened area, and compose.
    pub fn run(&self, ctx: &mut Context) -> (r: LayoutNode)
        ensures
            ({
                let q = socket_seq(old(ctx).children@, SocketName::default_spec());
                &&& (q.len() == 0 ==> r@ == self.0.close_none_spec())
                &&& (q.len() > 0 ==> r@ == self.0.close_some_spec(
                    run_node_spec(q[0], self.0.open_spec(old(ctx).max_area)),
                ))
            }),
            final(ctx).max_area == old(ctx).max_area,
            final(ctx).prev_frame_state == old(ctx).prev_frame_state,
            final(ctx).global_data == old(ctx).global_data,
            final(ctx).buffer == old(ctx).buffer,
    {
        wrap(&self.0, ctx)
    }
}

/// Drive a wrapper: offer it the context's area, drain at most one child
/// from the default socket, and close with or without the child's layout.
pub fn wrap<T: WrapImpl>(imp: &T, ctx: &mut Context) -> (r: LayoutNode)
    ensures
        ({
            let q = socket_seq(old(ctx).children@, SocketName::default_spec());
            &&& (q.len() == 0 ==> r@ == imp.close_none_spec())
            &&& (q.len() > 0 ==> r@ == imp.close_some_spec(
                run_node_spec(q[0], imp.open_spec(old(ctx).max_area)),
            ))
            &&& socket_seq(final(ctx).children@, SocketName::default_spec()) == q.subrange(
                vstd::math::min(1, q.len() as int),
                q.len() as int,
            )
            &&& forall|other: SocketName|
                other != SocketName::default_spec() ==> socket_seq(final(ctx).children@, other)
                    == socket_seq(old(ctx).children@, other)
        }),
        final(ctx).max_area == old(ctx).max_area,
        final(ctx).prev_frame_state == old(ctx).prev_frame_state,
        final(ctx).global_data == old(ctx).global_data,
        final(ctx).buffer == old(ctx).buffer,
{
    let ghost q = socket_seq(ctx.children@, SocketName::default_spec());
    let child_max_area = imp.open(ctx.max_area());
    let mut socket = BoundedSocket::new(1);
    ctx.open_socket(SocketName::default(), child_max_area, &mut socket);
    let ghost k = vstd::math::min(1, q.len() as int);
    proof {
        if q.len() > 0 {
            assert(k == 1);
            let s = q.subrange(0, 1);
            assert(s.len() == 1);
            assert(s[0] == q[0]);
            assert(s.subrange(1, 1) =~= Seq::<NodeV>::empty());
            assert(run_nodes_spec(Seq::<NodeV>::empty(), child_max_area)
                == Seq::<LayoutV>::empty());
            assert(run_nodes_spec(s, child_max_area) =~= seq![run_node_spec(
                q[0],
                child_max_area,
            )]);
            assert(nodes_view(socket.items@) =~= seq![run_node_spec(q[0], child_max_area)]);
        } else {
            assert(k == 0);
            assert(q.subrange(0, 0) =~= Seq::<NodeV>::empty());
            assert(run_nodes_spec(Seq::<NodeV>::empty(), child_max_area)
                == Seq::<LayoutV>::empty());
            assert(nodes_view(socket.items@) =~= Seq::<LayoutV>::empty());
        }
        lemma_nodes_view_len(socket.items@);
    }
    let ghost items0 = socket.items@;
    let mut items = socket.items;
    match items.pop() {
        Some(child) => {
            proof {
                assert(q.len() > 0);
                assert(child == items0.last());
                assert(child@ == nodes_view(items0)[0]);
            }
            imp.close_some(child)
        },
        None => {
            proof {
                assert(q.len() == 0);
            }
            imp.close_none()
        },
    }
}

} // verus!
