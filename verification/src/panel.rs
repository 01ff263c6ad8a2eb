//! The panel archetype: a container element over many children.
//!
//! A `Panel` chooses the area offered to its children and how to compose
//! their layouts into one. `panel` drives it: it drains the whole default
//! socket, running each queued child in order, and closes over the collected
//! layouts.

use vstd::prelude::*;
use crate::space::Area;
use crate::layout::{
    Layout, LayoutNode, LayoutV, PlanV, nodes_view, stack_area, stack_area_of,
};
use crate::element::SocketName;
use crate::children::{NodeV, socket_seq, lemma_socket_seq_len, lemma_entries_view_len};
use crate::context::{Context, run_nodes_spec};

verus! {

/// The behaviour of a container element over its queued children.
pub trait Panel {
    /// The area offered to each child.
    spec fn open_spec(&self, max_area: Area) -> Area;

    /// The composed layout over the children's layouts, in queue order.
    spec fn close_spec(&self, children: Seq<LayoutV>) -> LayoutV;

    fn open(&self, max_area: Area) -> (r: Area)
        ensures
            r == self.open_spec(max_area),
    ;

    fn close(&self, children: Vec<LayoutNode>) -> (r: LayoutNode)
        ensures
            r@ == self.close_spec(nodes_view(children@)),
    ;
}

/// Drive a panel: drain the default socket completely, running each child in
/// the opened area, and close over their layouts in queue order.
pub fn panel<T: Panel>(p: &T, ctx: &mut Context) -> (r: LayoutNode)
    ensures
        ({
            let q = socket_seq(old(ctx).children@, SocketName::default_spec());
            r@ == p.close_spec(run_nodes_spec(q, p.open_spec(old(ctx).max_area)))
        }),
        socket_seq(final(ctx).children@, SocketName::default_spec()) == Seq::<NodeV>::empty(),
        forall|other: SocketName|
            other != SocketName::default_spec() ==> socket_seq(final(ctx).children@, other)
                == socket_seq(old(ctx).children@, other),
        final(ctx).max_area == old(ctx).max_area,
        final(ctx).prev_frame_state == old(ctx).prev_frame_state,
        final(ctx).global_data == old(ctx).global_data,
        final(ctx).buffer == old(ctx).buffer,
{
    let ghost q = socket_seq(ctx.children@, SocketName::default_spec());
    let ghost cv0 = ctx.children@;
    let ghost entries0 = ctx.children.entries@;
    let n_entries = ctx.children.entries.len();
    let child_max_area = p.open(ctx.max_area());
    let mut children: Vec<LayoutNode> = Vec::new();
    ctx.open_socket(SocketName::default(), child_max_area, &mut children);
    proof {
        lemma_entries_view_len(entries0);
        lemma_socket_seq_len(cv0, SocketName::default_spec());
        assert(q.len() <= n_entries);
        let k = vstd::math::min(usize::MAX as int, q.len() as int);
        assert(k == q.len());
        assert(q.subrange(0, k) =~= q);
        assert(q.subrange(k, q.len() as int) =~= Seq::<NodeV>::empty());
        assert(Seq::<LayoutV>::empty() + run_nodes_spec(q, child_max_area)
            =~= run_nodes_spec(q, child_max_area));
        assert(nodes_view(children@) == run_nodes_spec(q, child_max_area));
    }
    p.close(children)
}

/// A concrete panel: children keep the offered area and are stacked
/// vertically, the panel's minimum area covering them all.
pub struct ColumnPanel;

impl Panel for ColumnPanel {
    open spec fn open_spec(&self, max_area: Area) -> Area {
        max_area
    }

    open spec fn close_spec(&self, children: Seq<LayoutV>) -> LayoutV {
        LayoutV { min_area: stack_area(children), plan: PlanV::Stack(children) }
    }

    fn open(&self, max_area: Area) -> Area {
        max_area
    }

    fn close(&self, children: Vec<LayoutNode>) -> LayoutNode {
        let area = stack_area_of(&children);
        LayoutNode { min_area: area, layout: Layout::Stack(children) }
    }
}

} // verus!
