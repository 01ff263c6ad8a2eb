//! The element execution engine.
//!
//! `Context` is the surface one element invocation runs against: its staged
//! children, the previous frame's state cache, and the frame-global counters.
//! `SubContext` is the builder for a chain of not-yet-closed ancestor nodes;
//! `close` unwinds it and runs the root element. `open_socket` drains one
//! socket's queue, running each child and pushing its layout into a sink
//! while the sink reports capacity.
//!
//! The interpreter is specified by `run_node_spec` over the ghost tree model:
//! every way of running an element — staged, through the `Element` trait, or
//! through an archetype — agrees with it.

use vstd::prelude::*;
use vstd::math::min;
use crate::space::Area;
use crate::layout::{
    Layout, LayoutNode, LayoutV, PlanV, plans_view, nodes_view, lemma_plans_view_len,
    lemma_nodes_view_push, stack_area, stack_area_of, LinkedBuffer,
};
use crate::element::{Id, SocketName, ElementKind};
use crate::children::{
    Children, ChildEntry, ElementNode, NodeV, ChildV, entry_view, entries_view, socket_seq,
    node_size, kids_size, nodes_size, as_socket_children, lemma_entries_view_len,
    lemma_entries_view_concat, lemma_entries_view_singleton, lemma_socket_seq_size,
    lemma_nodes_size_index,
};
use crate::state::{StateId, State, StateCache, StateT, read_cached, try_read_cached};
use crate::filter::{UIFilter, FilterStack};
use crate::error::UiError;

verus! {

/// The per-frame global data threaded through every context: the positional
/// state counter and the filters registered for the next frame.
pub struct GlobalData {
    pub next_state_id: StateId,
    pub next_frame_filters: FilterStack,
}

impl GlobalData {
    pub fn new(next_state_id: StateId) -> (g: GlobalData)
        ensures
            g.next_state_id == next_state_id,
            g.next_frame_filters.pre@ == Seq::<UIFilter>::empty(),
            g.next_frame_filters.post@ == Seq::<UIFilter>::empty(),
    {
        GlobalData { next_state_id, next_frame_filters: FilterStack::new() }
    }
}

/// A sink that receives the layouts of drained children while it still
/// reports capacity. Implemented by plain vectors (unbounded) and by
/// `BoundedSocket`.
pub trait Socket {
    /// How many more layouts this sink accepts.
    spec fn capacity_spec(&self) -> nat;

    /// The layouts pushed so far, in order, as models.
    spec fn contents(&self) -> Seq<LayoutV>;

    fn remaining_capacity(&self) -> (n: usize)
        ensures
            n == self.capacity_spec(),
    ;

    fn push(&mut self, node: LayoutNode)
        requires
            old(self).capacity_spec() > 0,
        ensures
            final(self).contents() == old(self).contents().push(node@),
            final(self).capacity_spec() == old(self).capacity_spec() - 1,
    ;
}

impl Socket for Vec<LayoutNode> {
    open spec fn capacity_spec(&self) -> nat {
        (usize::MAX - self@.len()) as nat
    }

    open spec fn contents(&self) -> Seq<LayoutV> {
        nodes_view(self@)
    }

    fn remaining_capacity(&self) -> (n: usize)
    {
        usize::MAX - self.len()
    }

    fn push(&mut self, node: LayoutNode) {
        let ghost prior = self@;
        let n = self.len();
        proof {
            assert(n == prior.len());
        }
        self.push(node);
        proof {
            lemma_nodes_view_push(prior, node);
        }
    }
}

/// A sink that accepts at most a fixed number of layouts; what overflows the
/// capacity stays queued on the socket.
pub struct BoundedSocket {
    pub remaining: usize,
    pub items: Vec<LayoutNode>,
}

impl BoundedSocket {
    pub fn new(capacity: usize) -> (s: BoundedSocket)
        ensures
            s.remaining == capacity,
            s.items@ == Seq::<LayoutNode>::empty(),
    {
        BoundedSocket { remaining: capacity, items: Vec::new() }
    }
}

impl Socket for BoundedSocket {
    open spec fn capacity_spec(&self) -> nat {
        self.remaining as nat
    }

    open spec fn contents(&self) -> Seq<LayoutV> {
        nodes_view(self.items@)
    }

    fn remaining_capacity(&self) -> (n: usize) {
        self.remaining
    }

    fn push(&mut self, node: LayoutNode) {
        let ghost prior = self.items@;
        self.items.push(node);
        self.remaining = self.remaining - 1;
        proof {
            lemma_nodes_view_push(prior, node);
        }
    }
}

/// What running an element over a staged subtree yields: the interpreter's
/// defining specification.
pub open spec fn run_node_spec(n: NodeV, max_area: Area) -> LayoutV
    decreases node_size(n), 0nat,
{
    match n.elem {
        ElementKind::Null => LayoutV { min_area: Area::zero_spec(), plan: PlanV::Empty },
        ElementKind::Hover(st) => LayoutV {
            min_area: Area::zero_spec(),
            plan: PlanV::HoverZone(st),
        },
        ElementKind::Block(area, color) => LayoutV { min_area: area, plan: PlanV::Colored(color) },
        ElementKind::Fill(color) => {
            let q = socket_seq(n.children, SocketName::default_spec());
            if q.len() == 0 {
                LayoutV { min_area: Area::zero_spec(), plan: PlanV::Colored(color) }
            } else {
                proof {
                    lemma_nodes_size_index(q, 0);
                    lemma_socket_seq_size(n.children, SocketName::default_spec());
                }
                let child = run_node_spec(q[0], max_area);
                LayoutV {
                    min_area: child.min_area,
                    plan: PlanV::Overlay(seq![PlanV::Colored(color), child.plan]),
                }
            }
        },
        ElementKind::Column(sock) => {
            proof {
                lemma_socket_seq_size(n.children, sock);
            }
            let kids = run_nodes_spec(socket_seq(n.children, sock), max_area);
            LayoutV { min_area: stack_area(kids), plan: PlanV::Stack(kids) }
        },
    }
}

/// Running a queue of staged nodes in order.
pub open spec fn run_nodes_spec(ns: Seq<NodeV>, max_area: Area) -> Seq<LayoutV>
    decreases nodes_size(ns), 1nat,
{
    if ns.len() == 0 {
        Seq::empty()
    } else {
        proof {
            lemma_nodes_size_index(ns, 0);
        }
        seq![run_node_spec(ns[0], max_area)] + run_nodes_spec(
            ns.subrange(1, ns.len() as int),
            max_area,
        )
    }
}

/// Run one staged element against its own children, producing its layout.
pub fn run_element(node: ElementNode, max_area: Area) -> (r: LayoutNode)
    ensures
        r@ == run_node_spec(node@, max_area),
    decreases node_size(node@), 0nat,
{
    let ghost nv = node@;
    let ElementNode { id, elem, children } = node;
    match elem {
        ElementKind::Null => LayoutNode { min_area: Area::zero(), layout: Layout::Empty },
        ElementKind::Hover(st) => LayoutNode {
            min_area: Area::zero(),
            layout: Layout::HoverZone(st),
        },
        ElementKind::Block(area, color) => LayoutNode {
            min_area: area,
            layout: Layout::Colored(color),
        },
        ElementKind::Fill(color) => {
            let mut ch = children;
            let ghost q = socket_seq(nv.children, SocketName::default_spec());
            match ch.pop_front(SocketName::default()) {
                None => LayoutNode { min_area: Area::zero(), layout: Layout::Colored(color) },
                Some(child) => {
                    proof {
                        assert(child@ == q[0]);
                        lemma_nodes_size_index(q, 0);
                        lemma_socket_seq_size(nv.children, SocketName::default_spec());
                        assert(node_size(child@) < node_size(nv));
                    }
                    let sub = run_element(child, max_area);
                    let sub_min = sub.min_area;
                    let ghost sub_v = sub@;
                    let parts = vec![Layout::Colored(color), sub.layout];
                    proof {
                        lemma_plans_view_len(parts@);
                        assert(plans_view(parts@)
                            =~= seq![PlanV::Colored(color), sub_v.plan]);
                    }
                    LayoutNode { min_area: sub_min, layout: Layout::Overlay(parts) }
                },
            }
        },
        ElementKind::Column(sock) => {
            proof {
                lemma_socket_seq_size(nv.children, sock);
            }
            let mut sink: Vec<LayoutNode> = Vec::new();
            let ghost q = socket_seq(nv.children, sock);
            let ghost entries0 = children.entries@;
            let n_entries = children.entries.len();
            let _rest = fill_socket(children, sock, max_area, &mut sink);
            proof {
                lemma_entries_view_len(entries0);
                crate::children::lemma_socket_seq_len(nv.children, sock);
                assert(q.len() <= n_entries);
                assert(q.len() <= usize::MAX);
                let k = min(usize::MAX as int, q.len() as int);
                assert(k == q.len());
                assert(q.subrange(0, k) =~= q);
                assert(Seq::<LayoutV>::empty() + run_nodes_spec(q, max_area)
                    =~= run_nodes_spec(q, max_area));
                assert(nodes_view(sink@) == run_nodes_spec(q, max_area));
            }
            let area = stack_area_of(&sink);
            LayoutNode { min_area: area, layout: Layout::Stack(sink) }
        },
    }
}

/// Drain up to the sink's capacity from one socket's queue, front first,
/// running each child and pushing its layout.
pub fn fill_socket<S: Socket>(
    children: Children,
    name: SocketName,
    max_area: Area,
    socket: &mut S,
) -> (rest: Children)
    ensures
        ({
            let q = socket_seq(children@, name);
            let k = min(old(socket).capacity_spec() as int, q.len() as int);
            &&& socket_seq(rest@, name) == q.subrange(k, q.len() as int)
            &&& forall|other: SocketName|
                other != name ==> socket_seq(rest@, other) == socket_seq(children@, other)
            &&& final(socket).contents() == old(socket).contents() + run_nodes_spec(
                q.subrange(0, k),
                max_area,
            )
            &&& final(socket).capacity_spec() == old(socket).capacity_spec() - k
        }),
    decreases kids_size(children@), 1nat,
{
    let ghost q = socket_seq(children@, name);
    let ghost c0 = socket.contents();
    let ghost cap0 = socket.capacity_spec();
    if socket.remaining_capacity() == 0 {
        proof {
            assert(q.subrange(0, 0) =~= Seq::<NodeV>::empty());
            assert(run_nodes_spec(Seq::<NodeV>::empty(), max_area) == Seq::<LayoutV>::empty());
            assert(c0 + Seq::<LayoutV>::empty() =~= c0);
            assert(q.subrange(0, q.len() as int) =~= q);
        }
        return children;
    }
    let mut ch = children;
    match ch.pop_front(name) {
        None => {
            proof {
                assert(q.len() == 0);
                assert(q.subrange(0, 0) =~= Seq::<NodeV>::empty());
                assert(run_nodes_spec(Seq::<NodeV>::empty(), max_area) == Seq::<LayoutV>::empty());
                assert(c0 + Seq::<LayoutV>::empty() =~= c0);
            }
            ch
        },
        Some(child) => {
            proof {
                assert(child@ == q[0]);
                lemma_nodes_size_index(q, 0);
                lemma_socket_seq_size(children@, name);
            }
            let layout = run_element(child, max_area);
            let ghost lv = layout@;
            socket.push(layout);
            let ghost chv = ch@;
            let rest = fill_socket(ch, name, max_area, socket);
            proof {
                let q2 = socket_seq(chv, name);
                assert(q2 =~= q.subrange(1, q.len() as int));
                let k2 = min((cap0 - 1) as int, q2.len() as int);
                let k = min(cap0 as int, q.len() as int);
                assert(k == k2 + 1);
                assert(socket_seq(rest@, name) =~= q.subrange(k, q.len() as int));
                // The drained prefix reassembles: the child, then the
                // recursive call's prefix.
                assert(q.subrange(0, k) =~= seq![q[0]] + q2.subrange(0, k2));
                assert(run_nodes_spec(q.subrange(0, k), max_area) == seq![run_node_spec(
                    q[0],
                    max_area,
                )] + run_nodes_spec(q2.subrange(0, k2), max_area)) by {
                    let s = q.subrange(0, k);
                    assert(s.len() > 0);
                    assert(s[0] == q[0]);
                    assert(s.subrange(1, s.len() as int) =~= q2.subrange(0, k2));
                }
                assert(lv == run_node_spec(q[0], max_area));
                assert(socket.contents() =~= c0 + run_nodes_spec(q.subrange(0, k), max_area));
            }
            rest
        },
    }
}

/// A parent node with one more child staged at the back of `socket`'s queue.
pub open spec fn attach_child(parent: NodeV, socket: SocketName, child: NodeV) -> NodeV {
    NodeV {
        id: parent.id,
        elem: parent.elem,
        children: parent.children.push(ChildV { socket, node: child }),
    }
}

/// A parent node with a whole queue staged at the back of `socket`'s queue.
pub open spec fn attach_many(parent: NodeV, socket: SocketName, nodes: Seq<NodeV>) -> NodeV {
    NodeV {
        id: parent.id,
        elem: parent.elem,
        children: parent.children + as_socket_children(nodes, socket),
    }
}

/// A parent node with another staging area merged in, socket names kept.
pub open spec fn attach_store(parent: NodeV, store: Seq<ChildV>) -> NodeV {
    NodeV { id: parent.id, elem: parent.elem, children: parent.children + store }
}

/// The tree a builder stack denotes: repeatedly attach the top entry into
/// the entry below it (or into the root when the stack empties), LIFO.
pub open spec fn fold_stack(root: NodeV, stack: Seq<ChildV>) -> NodeV
    decreases stack.len(),
{
    if stack.len() == 0 {
        root
    } else {
        let top = stack.last();
        let rest = stack.drop_last();
        if rest.len() == 0 {
            attach_child(root, top.socket, top.node)
        } else {
            let parent = rest.last();
            fold_stack(
                root,
                rest.drop_last().push(
                    ChildV {
                        socket: parent.socket,
                        node: attach_child(parent.node, top.socket, top.node),
                    },
                ),
            )
        }
    }
}

/// The execution environment of one element invocation: the frame's maximum
/// area, this element's staged children, the previous frame's cache, and the
/// frame-global counters and allocator.
pub struct Context {
    pub max_area: Area,
    pub children: Children,
    pub prev_frame_state: StateCache,
    pub global_data: GlobalData,
    pub buffer: LinkedBuffer,
}

impl Context {
    pub fn new(
        max_area: Area,
        children: Children,
        prev_frame_state: StateCache,
        global_data: GlobalData,
    ) -> (c: Context)
        ensures
            c.max_area == max_area,
            c.children == children,
            c.prev_frame_state == prev_frame_state,
            c.global_data == global_data,
    {
        Context { max_area, children, prev_frame_state, global_data, buffer: LinkedBuffer::new() }
    }

    pub fn max_area(&self) -> (a: Area)
        ensures
            a == self.max_area,
    {
        self.max_area
    }

    /// The frame's allocator for deferred values.
    pub fn buffer(&self) -> (b: &LinkedBuffer)
        ensures
            *b == self.buffer,
    {
        &self.buffer
    }

    /// Start building a fresh root node for `elem`, with a clean builder
    /// stack; the new `SubContext` owns this context until `close`.
    pub fn open_element(self, max_area: Area, id: Id, elem: ElementKind) -> (s: SubContext)
        ensures
            s.max_area == max_area,
            s.root@ == (NodeV { id, elem, children: Seq::<ChildV>::empty() }),
            s.stack@ == Seq::<ChildEntry>::empty(),
            s.ctx == self,
    {
        SubContext { max_area, root: ElementNode::new(id, elem), stack: Vec::new(), ctx: self }
    }

    /// Drain this element's queue under `name`, front first, running each
    /// child scoped to its own staged children and pushing the resulting
    /// layout into `socket`, while the sink reports capacity.
    pub fn open_socket<S: Socket>(&mut self, name: SocketName, max_area: Area, socket: &mut S)
        ensures
            ({
                let q = socket_seq(old(self).children@, name);
                let k = min(old(socket).capacity_spec() as int, q.len() as int);
                &&& socket_seq(final(self).children@, name) == q.subrange(k, q.len() as int)
                &&& forall|other: SocketName|
                    other != name ==> socket_seq(final(self).children@, other) == socket_seq(
                        old(self).children@,
                        other,
                    )
                &&& final(socket).contents() == old(socket).contents() + run_nodes_spec(
                    q.subrange(0, k),
                    max_area,
                )
                &&& final(socket).capacity_spec() == old(socket).capacity_spec() - k
            }),
            final(self).max_area == old(self).max_area,
            final(self).prev_frame_state == old(self).prev_frame_state,
            final(self).global_data == old(self).global_data,
            final(self).buffer == old(self).buffer,
    {
        let mut ch = Children::new();
        core::mem::swap(&mut self.children, &mut ch);
        let rest = fill_socket(ch, name, max_area, socket);
        self.children = rest;
    }

    /// Wrap a deferred drawing and its declared minimum area into a layout
    /// node.
    pub fn new_layout(&self, min_area: Area, layout: Layout) -> (n: LayoutNode)
        ensures
            n == (LayoutNode { min_area, layout }),
    {
        LayoutNode { min_area, layout }
    }

    /// A zero-area node that draws nothing.
    pub fn new_layout_null(&self) -> (n: LayoutNode)
        ensures
            n@ == (LayoutV { min_area: Area::zero_spec(), plan: PlanV::Empty }),
    {
        LayoutNode { min_area: Area::zero(), layout: Layout::Empty }
    }

    /// Register a filter to run before the next frame's build.
    pub fn next_frame_pre_filter(&mut self, filter: UIFilter)
        ensures
            final(self).global_data.next_frame_filters.pre@ == old(
                self,
            ).global_data.next_frame_filters.pre@.push(filter),
            final(self).global_data.next_frame_filters.post@ == old(
                self,
            ).global_data.next_frame_filters.post@,
            final(self).global_data.next_state_id == old(self).global_data.next_state_id,
            final(self).max_area == old(self).max_area,
            final(self).children == old(self).children,
            final(self).prev_frame_state == old(self).prev_frame_state,
            final(self).buffer == old(self).buffer,
    {
        self.global_data.next_frame_filters.filter_pre(filter);
    }

    /// Register a filter to run after the next frame's build.
    pub fn next_frame_post_filter(&mut self, filter: UIFilter)
        ensures
            final(self).global_data.next_frame_filters.post@ == old(
                self,
            ).global_data.next_frame_filters.post@.push(filter),
            final(self).global_data.next_frame_filters.pre@ == old(
                self,
            ).global_data.next_frame_filters.pre@,
            final(self).global_data.next_state_id == old(self).global_data.next_state_id,
            final(self).max_area == old(self).max_area,
            final(self).children == old(self).children,
            final(self).prev_frame_state == old(self).prev_frame_state,
            final(self).buffer == old(self).buffer,
    {
        self.global_data.next_frame_filters.filter_post(filter);
    }

    /// Allocate the next positional state slot of this frame and hand back
    /// its typed handle. Allocation only: whatever should persist must be
    /// written by the frame driver under this same identity.
    pub fn new_state<T: StateT>(&mut self) -> (s: State<T>)
        requires
            old(self).global_data.next_state_id.slot < u32::MAX,
        ensures
            s.id == old(self).global_data.next_state_id,
            final(self).global_data.next_state_id == (StateId {
                frame_id: old(self).global_data.next_state_id.frame_id,
                slot: (old(self).global_data.next_state_id.slot + 1) as u32,
            }),
            final(self).global_data.next_frame_filters == old(
                self,
            ).global_data.next_frame_filters,
            final(self).max_area == old(self).max_area,
            final(self).children == old(self).children,
            final(self).prev_frame_state == old(self).prev_frame_state,
            final(self).buffer == old(self).buffer,
    {
        let id = self.global_data.next_state_id.increment();
        State::new(id)
    }

    /// Read a slot allocated exactly one frame ago from the previous frame's
    /// cache; a slot never written reads as the type's default.
    pub fn read_state<T: StateT>(&self, state: State<T>) -> (r: T)
        requires
            state.id.frame_id + 1 == self.global_data.next_state_id.frame_id,
            self.prev_frame_state@.contains_key(state.id) ==> T::fits(
                self.prev_frame_state@[state.id],
            ),
        ensures
            self.prev_frame_state@.contains_key(state.id) ==> r.value_of()
                == self.prev_frame_state@[state.id],
            !self.prev_frame_state@.contains_key(state.id) ==> r == T::default_spec(),
    {
        read_cached(&self.prev_frame_state, self.global_data.next_state_id.frame_id, &state)
    }

    /// Like `read_state`, but reporting frame skew and kind mismatches as
    /// values instead of excluding them by precondition.
    pub fn try_read_state<T: StateT>(&self, state: State<T>) -> (r: Result<T, UiError>)
        ensures
            state.id.frame_id + 1 != self.global_data.next_state_id.frame_id ==> r == Err::<
                T,
                UiError,
            >(UiError::WrongFrameRead),
            state.id.frame_id + 1 == self.global_data.next_state_id.frame_id
                && self.prev_frame_state@.contains_key(state.id) && !T::fits(
                self.prev_frame_state@[state.id],
            ) ==> r == Err::<T, UiError>(UiError::StateTypeMismatch),
            state.id.frame_id + 1 == self.global_data.next_state_id.frame_id
                && self.prev_frame_state@.contains_key(state.id) && T::fits(
                self.prev_frame_state@[state.id],
            ) ==> (r matches Ok(v) && v.value_of() == self.prev_frame_state@[state.id]),
            state.id.frame_id + 1 == self.global_data.next_state_id.frame_id
                && !self.prev_frame_state@.contains_key(state.id) ==> (r matches Ok(v) && v
                == T::default_spec()),
    {
        try_read_cached(&self.prev_frame_state, self.global_data.next_state_id.frame_id, &state)
    }
}

/// The builder for a chain of currently-open, not-yet-closed element nodes.
/// `begin` pushes a node, `end` pops it and attaches it under its socket on
/// the node below (or on the root), and `close` unwinds whatever is still
/// open and runs the root element.
pub struct SubContext {
    pub max_area: Area,
    pub root: ElementNode,
    pub stack: Vec<ChildEntry>,
    pub ctx: Context,
}

impl SubContext {
    /// Push a fresh node for `elem` onto the builder stack; it becomes the
    /// current node that subsequent `begin`s attach under.
    pub fn begin(&mut self, socket: SocketName, id: Id, elem: ElementKind)
        ensures
            entries_view(final(self).stack@) == entries_view(old(self).stack@).push(
                ChildV {
                    socket,
                    node: NodeV { id, elem, children: Seq::<ChildV>::empty() },
                },
            ),
            final(self).stack@.len() == old(self).stack@.len() + 1,
            final(self).root == old(self).root,
            final(self).ctx == old(self).ctx,
            final(self).max_area == old(self).max_area,
    {
        let ghost prior = self.stack@;
        let node = ElementNode::new(id, elem);
        let entry = ChildEntry { socket, node };
        let ghost ev = entry_view(entry);
        self.stack.push(entry);
        proof {
            assert(self.stack@ =~= prior + seq![self.stack@.last()]);
            lemma_entries_view_concat(prior, seq![self.stack@.last()]);
            lemma_entries_view_singleton(self.stack@.last());
            assert(entries_view(prior) + seq![ev] =~= entries_view(prior).push(ev));
        }
    }

    /// Pop the current node and attach it, under the socket it was pushed
    /// with, into the node below it — or into the root when it was the last
    /// one open. The folded tree the stack denotes is unchanged.
    pub fn end(&mut self)
        requires
            old(self).stack@.len() > 0,
        ensures
            ({
                let sv = entries_view(old(self).stack@);
                let top = sv.last();
                &&& final(self).stack@.len() == old(self).stack@.len() - 1
                &&& (if sv.len() == 1 {
                    final(self).root@ == attach_child(old(self).root@, top.socket, top.node)
                        && entries_view(final(self).stack@) == Seq::<ChildV>::empty()
                } else {
                    final(self).root == old(self).root && entries_view(final(self).stack@)
                        == sv.drop_last().drop_last().push(
                        ChildV {
                            socket: sv[sv.len() - 2].socket,
                            node: attach_child(sv[sv.len() - 2].node, top.socket, top.node),
                        },
                    )
                })
                &&& fold_stack(final(self).root@, entries_view(final(self).stack@)) == fold_stack(
                    old(self).root@,
                    sv,
                )
                &&& final(self).ctx == old(self).ctx
                &&& final(self).max_area == old(self).max_area
            }),
    {
        proof {
            lemma_entries_view_len(self.stack@);
        }
        let ghost sv = entries_view(old(self).stack@);
        match self.stack.pop() {
            Some(top) => {
                let ghost topv = entry_view(top);
                proof {
                    assert(old(self).stack@ =~= self.stack@ + seq![top]);
                    lemma_entries_view_concat(self.stack@, seq![top]);
                    lemma_entries_view_singleton(top);
                    assert(sv =~= entries_view(self.stack@).push(topv));
                    assert(sv.last() == topv);
                    assert(sv.drop_last() =~= entries_view(self.stack@));
                }
                if self.stack.len() == 0 {
                    let ghost root0 = self.root@;
                    self.root.children.push_back(top.socket, top.node);
                    proof {
                        assert(self.root@ == attach_child(root0, topv.socket, topv.node));
                        assert(entries_view(self.stack@) =~= Seq::<ChildV>::empty());
                        assert(fold_stack(self.root@, entries_view(self.stack@)) == self.root@);
                        assert(fold_stack(old(self).root@, sv)
                            == attach_child(root0, topv.socket, topv.node));
                    }
                } else {
                    let ghost mid = self.stack@;
                    match self.stack.pop() {
                        Some(parent) => {
                            let ghost parentv = entry_view(parent);
                            let mut parent = parent;
                            proof {
                                assert(mid =~= self.stack@ + seq![parent]);
                                lemma_entries_view_concat(self.stack@, seq![parent]);
                                lemma_entries_view_singleton(parent);
                                assert(entries_view(mid)
                                    =~= entries_view(self.stack@).push(parentv));
                                assert(entries_view(mid).last() == parentv);
                                assert(sv[sv.len() - 2] == parentv);
                            }
                            let ghost pnode0 = parent.node@;
                            parent.node.children.push_back(top.socket, top.node);
                            proof {
                                assert(parent.node@
                                    == attach_child(pnode0, topv.socket, topv.node));
                            }
                            let ghost rest2 = self.stack@;
                            let ghost newentry = ChildV {
                                socket: parentv.socket,
                                node: attach_child(pnode0, topv.socket, topv.node),
                            };
                            self.stack.push(parent);
                            proof {
                                assert(self.stack@ =~= rest2 + seq![self.stack@.last()]);
                                lemma_entries_view_concat(rest2, seq![self.stack@.last()]);
                                lemma_entries_view_singleton(self.stack@.last());
                                assert(entry_view(self.stack@.last()) == newentry);
                                assert(entries_view(self.stack@)
                                    =~= entries_view(rest2).push(newentry));
                                assert(entries_view(rest2) =~= entries_view(mid).drop_last());
                                assert(entries_view(mid) =~= sv.drop_last());
                                assert(entries_view(self.stack@)
                                    =~= sv.drop_last().drop_last().push(newentry));
                                assert(fold_stack(old(self).root@, sv) == fold_stack(
                                    old(self).root@,
                                    sv.drop_last().drop_last().push(newentry),
                                ));
                            }
                        },
                        None => {
                            proof {
                                assert(false);
                            }
                        },
                    }
                }
            },
            None => {
                proof {
                    assert(false);
                }
            },
        }
    }

    /// Like `end`, but reporting an empty builder stack as a value instead
    /// of excluding it by precondition.
    pub fn try_end(&mut self) -> (r: Result<(), UiError>)
        ensures
            old(self).stack@.len() == 0 ==> r == Err::<(), UiError>(UiError::StackUnderflow)
                && *final(self) == *old(self),
            old(self).stack@.len() > 0 ==> r == Ok::<(), UiError>(()) && ({
                let sv = entries_view(old(self).stack@);
                let top = sv.last();
                &&& final(self).stack@.len() == old(self).stack@.len() - 1
                &&& fold_stack(final(self).root@, entries_view(final(self).stack@)) == fold_stack(
                    old(self).root@,
                    sv,
                )
                &&& final(self).ctx == old(self).ctx
                &&& final(self).max_area == old(self).max_area
            }),
    {
        if self.stack.len() == 0 {
            Err(UiError::StackUnderflow)
        } else {
            self.end();
            Ok(())
        }
    }

    /// Unwind any still-open nodes, then run the root element scoped to its
    /// own staged children, yielding its layout and giving the owning
    /// context back.
    pub fn close(self) -> (r: (LayoutNode, Context))
        ensures
            r.0@ == run_node_spec(
                fold_stack(self.root@, entries_view(self.stack@)),
                self.max_area,
            ),
            r.1 == self.ctx,
    {
        let mut sub = self;
        let ghost target = fold_stack(sub.root@, entries_view(sub.stack@));
        let ghost ctx0 = sub.ctx;
        let ghost area0 = sub.max_area;
        while sub.stack.len() > 0
            invariant
                fold_stack(sub.root@, entries_view(sub.stack@)) == target,
                sub.ctx == ctx0,
                sub.max_area == area0,
            decreases sub.stack.len(),
        {
            sub.end();
        }
        proof {
            assert(entries_view(sub.stack@) =~= Seq::<ChildV>::empty());
            assert(fold_stack(sub.root@, entries_view(sub.stack@)) == sub.root@);
        }
        let SubContext { max_area, root, stack: _, ctx } = sub;
        let layout = run_element(root, max_area);
        (layout, ctx)
    }

    /// Move the whole queue staged under `socket` on the owning context into
    /// `target` on the current parent node (the stack's top, or the root).
    /// A no-op when nothing is staged under `socket`.
    pub fn connect_socket(&mut self, target: SocketName, socket: SocketName)
        ensures
            ({
                let moved = socket_seq(old(self).ctx.children@, socket);
                let sv = entries_view(old(self).stack@);
                &&& socket_seq(final(self).ctx.children@, socket) == Seq::<NodeV>::empty()
                &&& forall|other: SocketName|
                    other != socket ==> socket_seq(final(self).ctx.children@, other)
                        == socket_seq(old(self).ctx.children@, other)
                &&& (if old(self).stack@.len() == 0 {
                    final(self).root@ == attach_many(old(self).root@, target, moved)
                        && final(self).stack@ == old(self).stack@
                } else {
                    final(self).root == old(self).root && final(self).stack@.len() == old(
                        self,
                    ).stack@.len() && entries_view(final(self).stack@) == sv.update(
                        sv.len() - 1,
                        ChildV {
                            socket: sv.last().socket,
                            node: attach_many(sv.last().node, target, moved),
                        },
                    )
                })
                &&& final(self).ctx.max_area == old(self).ctx.max_area
                &&& final(self).ctx.prev_frame_state == old(self).ctx.prev_frame_state
                &&& final(self).ctx.global_data == old(self).ctx.global_data
                &&& final(self).ctx.buffer == old(self).ctx.buffer
                &&& final(self).max_area == old(self).max_area
            }),
    {
        proof {
            lemma_entries_view_len(self.stack@);
        }
        let ghost moved = socket_seq(self.ctx.children@, socket);
        let ghost sv = entries_view(self.stack@);
        match self.ctx.children.remove(socket) {
            None => {
                proof {
                    assert(moved.len() == 0);
                    assert(as_socket_children(moved, socket) =~= Seq::<ChildV>::empty());
                    if sv.len() == 0 {
                        assert(self.root@.children + as_socket_children(moved, target)
                            =~= self.root@.children);
                        assert(attach_many(self.root@, target, moved) == self.root@);
                    } else {
                        let last = sv.last();
                        assert(last.node.children + as_socket_children(moved, target)
                            =~= last.node.children);
                        assert(attach_many(last.node, target, moved) == last.node);
                        assert(sv.update(
                            sv.len() - 1,
                            ChildV { socket: last.socket, node: last.node },
                        ) =~= sv);
                        assert((ChildV { socket: last.socket, node: last.node }) == last);
                    }
                }
            },
            Some(nodes) => {
                proof {
                    crate::children::lemma_elem_nodes_view_len(nodes@);
                }
                if self.stack.len() == 0 {
                    let ghost root0 = self.root@;
                    self.root.children.append_nodes(target, nodes);
                    proof {
                        assert(self.root@ == attach_many(root0, target, moved));
                    }
                } else {
                    let ghost mid = self.stack@;
                    match self.stack.pop() {
                        Some(parent) => {
                            let ghost parentv = entry_view(parent);
                            let mut parent = parent;
                            proof {
                                assert(mid =~= self.stack@ + seq![parent]);
                                lemma_entries_view_concat(self.stack@, seq![parent]);
                                lemma_entries_view_singleton(parent);
                                assert(sv =~= entries_view(self.stack@).push(parentv));
                                assert(sv.last() == parentv);
                            }
                            let ghost pnode0 = parent.node@;
                            parent.node.children.append_nodes(target, nodes);
                            proof {
                                assert(parent.node@ == attach_many(pnode0, target, moved));
                            }
                            let ghost rest2 = self.stack@;
                            let ghost newentry = ChildV {
                                socket: parentv.socket,
                                node: attach_many(pnode0, target, moved),
                            };
                            self.stack.push(parent);
                            proof {
                                assert(self.stack@ =~= rest2 + seq![self.stack@.last()]);
                                lemma_entries_view_concat(rest2, seq![self.stack@.last()]);
                                lemma_entries_view_singleton(self.stack@.last());
                                assert(entry_view(self.stack@.last()) == newentry);
                                assert(entries_view(self.stack@)
                                    =~= entries_view(rest2).push(newentry));
                                assert(entries_view(rest2) =~= sv.drop_last());
                                assert(sv.drop_last().push(newentry)
                                    =~= sv.update(sv.len() - 1, newentry));
                            }
                        },
                        None => {
                            proof {
                                assert(false);
                            }
                        },
                    }
                }
            },
        }
    }

    /// Move every socket's queue from the owning context into the current
    /// parent node, socket names kept, orders preserved.
    pub fn connect_all_sockets(&mut self)
        ensures
            ({
                let moved = old(self).ctx.children@;
                let sv = entries_view(old(self).stack@);
                &&& final(self).ctx.children@ == Seq::<ChildV>::empty()
                &&& (if old(self).stack@.len() == 0 {
                    final(self).root@ == attach_store(old(self).root@, moved)
                        && final(self).stack@ == old(self).stack@
                } else {
                    final(self).root == old(self).root && final(self).stack@.len() == old(
                        self,
                    ).stack@.len() && entries_view(final(self).stack@) == sv.update(
                        sv.len() - 1,
                        ChildV {
                            socket: sv.last().socket,
                            node: attach_store(sv.last().node, moved),
                        },
                    )
                })
                &&& final(self).ctx.max_area == old(self).ctx.max_area
                &&& final(self).ctx.prev_frame_state == old(self).ctx.prev_frame_state
                &&& final(self).ctx.global_data == old(self).ctx.global_data
                &&& final(self).ctx.buffer == old(self).ctx.buffer
                &&& final(self).max_area == old(self).max_area
            }),
    {
        proof {
            lemma_entries_view_len(self.stack@);
        }
        let ghost moved = self.ctx.children@;
        let ghost sv = entries_view(self.stack@);
        let store = self.ctx.children.take();
        if self.stack.len() == 0 {
            let ghost root0 = self.root@;
            self.root.children.append(store);
            proof {
                assert(self.root@ == attach_store(root0, moved));
            }
        } else {
            let ghost mid = self.stack@;
            match self.stack.pop() {
                Some(parent) => {
                    let ghost parentv = entry_view(parent);
                    let mut parent = parent;
                    proof {
                        assert(mid =~= self.stack@ + seq![parent]);
                        lemma_entries_view_concat(self.stack@, seq![parent]);
                        lemma_entries_view_singleton(parent);
                        assert(sv =~= entries_view(self.stack@).push(parentv));
                        assert(sv.last() == parentv);
                    }
                    let ghost pnode0 = parent.node@;
                    parent.node.children.append(store);
                    proof {
                        assert(parent.node@ == attach_store(pnode0, moved));
                    }
                    let ghost rest2 = self.stack@;
                    let ghost newentry = ChildV {
                        socket: parentv.socket,
                        node: attach_store(pnode0, moved),
                    };
                    self.stack.push(parent);
                    proof {
                        assert(self.stack@ =~= rest2 + seq![self.stack@.last()]);
                        lemma_entries_view_concat(rest2, seq![self.stack@.last()]);
                        lemma_entries_view_singleton(self.stack@.last());
                        assert(entry_view(self.stack@.last()) == newentry);
                        assert(entries_view(self.stack@) =~= entries_view(rest2).push(newentry));
                        assert(entries_view(rest2) =~= sv.drop_last());
                        assert(sv.drop_last().push(newentry) =~= sv.update(sv.len() - 1, newentry));
                    }
                },
                None => {
                    proof {
                        assert(false);
                    }
                },
            }
        }
    }

    /// Allocate the next positional state slot; see `Context::new_state`.
    pub fn new_state<T: StateT>(&mut self) -> (s: State<T>)
        requires
            old(self).ctx.global_data.next_state_id.slot < u32::MAX,
        ensures
            s.id == old(self).ctx.global_data.next_state_id,
            final(self).ctx.global_data.next_state_id == (StateId {
                frame_id: old(self).ctx.global_data.next_state_id.frame_id,
                slot: (old(self).ctx.global_data.next_state_id.slot + 1) as u32,
            }),
            final(self).ctx.global_data.next_frame_filters == old(
                self,
            ).ctx.global_data.next_frame_filters,
            final(self).ctx.max_area == old(self).ctx.max_area,
            final(self).ctx.children == old(self).ctx.children,
            final(self).ctx.prev_frame_state == old(self).ctx.prev_frame_state,
            final(self).ctx.buffer == old(self).ctx.buffer,
            final(self).root == old(self).root,
            final(self).stack == old(self).stack,
            final(self).max_area == old(self).max_area,
    {
        self.ctx.new_state()
    }

    /// Read a slot from the previous frame's cache; see
    /// `Context::read_state`.
    pub fn read_state<T: StateT>(&self, state: State<T>) -> (r: T)
        requires
            state.id.frame_id + 1 == self.ctx.global_data.next_state_id.frame_id,
            self.ctx.prev_frame_state@.contains_key(state.id) ==> T::fits(
                self.ctx.prev_frame_state@[state.id],
            ),
        ensures
            self.ctx.prev_frame_state@.contains_key(state.id) ==> r.value_of()
                == self.ctx.prev_frame_state@[state.id],
            !self.ctx.prev_frame_state@.contains_key(state.id) ==> r == T::default_spec(),
    {
        self.ctx.read_state(state)
    }
}

} // verus!
