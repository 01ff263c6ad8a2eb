//! The engine's cross-cutting guarantees, stated and proved over the ghost
//! models that the public contracts use.
//!
//! Balance of the builder stack is carried by the contracts themselves:
//! `SubContext::close` returns exactly one layout, the run of the folded
//! tree, for every stack, and `SubContext::try_end` reports the underflow
//! error exactly when nothing is open.

use vstd::prelude::*;
use crate::element::SocketName;
use crate::children::{
    NodeV, ChildV, socket_seq, as_socket_children, lemma_socket_seq_concat,
    lemma_socket_seq_singleton, lemma_as_socket_children_socket_seq,
};
use crate::state::{StateId, StateValue};

verus! {

/// Within one socket, children are FIFO, and sockets are disjoint: staging a
/// node appends it to exactly its own socket's queue and leaves every other
/// queue untouched. Since draining consumes a queue front first (see
/// `Context::open_socket`), staging order equals consumption order.
pub proof fn lemma_socket_fifo(cv: Seq<ChildV>, socket: SocketName, node: NodeV)
    ensures
        socket_seq(cv.push(ChildV { socket, node }), socket) == socket_seq(cv, socket).push(node),
        forall|other: SocketName|
            other != socket ==> socket_seq(cv.push(ChildV { socket, node }), other) == socket_seq(
                cv,
                other,
            ),
{
    let c = ChildV { socket, node };
    assert(cv.push(c) =~= cv + seq![c]);
    lemma_socket_seq_concat(cv, seq![c], socket);
    lemma_socket_seq_singleton(c, socket);
    assert(socket_seq(cv, socket) + seq![node] =~= socket_seq(cv, socket).push(node));
    assert forall|other: SocketName| other != socket implies socket_seq(cv + seq![c], other)
        == socket_seq(cv, other) by {
        lemma_socket_seq_concat(cv, seq![c], other);
        lemma_socket_seq_singleton(c, other);
        assert(socket_seq(cv, other) + Seq::<NodeV>::empty() =~= socket_seq(cv, other));
    }
}

/// Re-routing a whole staged queue: after the queue of `socket` is moved
/// onto a parent under `target` (see `SubContext::connect_socket`), the
/// parent's `target` queue ends with exactly the moved children in their
/// original order, and no other queue of the parent changes.
pub proof fn lemma_connect_socket_transfer(
    parent: Seq<ChildV>,
    store: Seq<ChildV>,
    target: SocketName,
    socket: SocketName,
)
    ensures
        socket_seq(parent + as_socket_children(socket_seq(store, socket), target), target)
            == socket_seq(parent, target) + socket_seq(store, socket),
        forall|other: SocketName|
            other != target ==> socket_seq(
                parent + as_socket_children(socket_seq(store, socket), target),
                other,
            ) == socket_seq(parent, other),
{
    let moved = socket_seq(store, socket);
    lemma_socket_seq_concat(parent, as_socket_children(moved, target), target);
    lemma_as_socket_children_socket_seq(moved, target);
    assert forall|other: SocketName| other != target implies socket_seq(
        parent + as_socket_children(moved, target),
        other,
    ) == socket_seq(parent, other) by {
        lemma_socket_seq_concat(parent, as_socket_children(moved, target), other);
        lemma_as_socket_children_socket_seq(moved, target);
        assert(socket_seq(parent, other) + Seq::<NodeV>::empty() =~= socket_seq(parent, other));
    }
}

/// The slot identity the `i`-th allocation of a frame receives when the
/// frame's counter started at `base`.
pub open spec fn nth_slot(frame: u64, base: u32, i: int) -> StateId {
    StateId { frame_id: frame, slot: (base + i) as u32 }
}

/// A cache extended by writing `values` positionally at consecutive slots of
/// one frame.
pub open spec fn write_slots(
    m: Map<StateId, StateValue>,
    frame: u64,
    base: u32,
    values: Seq<StateValue>,
) -> Map<StateId, StateValue>
    decreases values.len(),
{
    if values.len() == 0 {
        m
    } else {
        write_slots(m, frame, base, values.drop_last()).insert(
            nth_slot(frame, base, values.len() - 1),
            values.last(),
        )
    }
}

/// Positional state identity: allocation is deterministic — the `i`-th
/// `new_state` of a frame whose counter starts at `(frame, base)` yields the
/// slot `(frame, base + i)` (that is `Context::new_state`'s contract) — so
/// when one frame writes its values positionally and the next frame repeats
/// the same calls in the same order, the read at position `i` observes the
/// value the prior frame wrote at position `i`. Reordering the calls between
/// frames shifts every later position; the engine does not repair that.
pub proof fn lemma_state_positional_identity(
    m: Map<StateId, StateValue>,
    frame: u64,
    base: u32,
    values: Seq<StateValue>,
    i: int,
)
    requires
        0 <= i < values.len(),
        base + values.len() <= u32::MAX + 1,
    ensures
        write_slots(m, frame, base, values).contains_key(nth_slot(frame, base, i)),
        write_slots(m, frame, base, values)[nth_slot(frame, base, i)] == values[i],
    decreases values.len(),
{
    if i < values.len() - 1 {
        lemma_state_positional_identity(m, frame, base, values.drop_last(), i);
        assert(values.drop_last()[i] == values[i]);
        assert(nth_slot(frame, base, values.len() - 1) != nth_slot(frame, base, i));
    }
}

} // verus!
