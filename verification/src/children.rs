//! The per-parent children staging area.
//!
//! Conceptually a map from socket name to an ordered queue of staged child
//! nodes. It is kept as one flat list of `(socket, node)` pairs in staging
//! order; a socket's queue is the subsequence of pairs carrying its name, so
//! queues are FIFO by construction and merging two stores is concatenation.
//!
//! The mathematical model of a staged node is `NodeV`, a rose tree over
//! `Seq`, reached through the `View` impls; `socket_seq` gives the modelled
//! queue of one socket.

use vstd::prelude::*;
use crate::element::{Id, SocketName, ElementKind};

verus! {

/// One element instance staged in the build tree.
pub struct ElementNode {
    pub id: Id,
    pub elem: ElementKind,
    pub children: Children,
}

/// One staged pair: a child node and the socket it was routed to.
pub struct ChildEntry {
    pub socket: SocketName,
    pub node: ElementNode,
}

/// The staging area of one parent node.
pub struct Children {
    pub entries: Vec<ChildEntry>,
}

/// Model of a staged node.
pub struct NodeV {
    pub id: Id,
    pub elem: ElementKind,
    pub children: Seq<ChildV>,
}

/// Model of one staged pair.
pub struct ChildV {
    pub socket: SocketName,
    pub node: NodeV,
}

pub open spec fn node_view(n: ElementNode) -> NodeV
    decreases n,
{
    NodeV { id: n.id, elem: n.elem, children: entries_view(n.children.entries@) }
}

pub open spec fn entry_view(e: ChildEntry) -> ChildV
    decreases e,
{
    ChildV { socket: e.socket, node: node_view(e.node) }
}

pub open spec fn entries_view(s: Seq<ChildEntry>) -> Seq<ChildV>
    decreases s,
{
    if s.len() == 0 {
        Seq::empty()
    } else {
        seq![entry_view(s[0])] + entries_view(s.subrange(1, s.len() as int))
    }
}

/// Model of a sequence of bare nodes.
pub open spec fn elem_nodes_view(s: Seq<ElementNode>) -> Seq<NodeV>
    decreases s,
{
    if s.len() == 0 {
        Seq::empty()
    } else {
        seq![node_view(s[0])] + elem_nodes_view(s.subrange(1, s.len() as int))
    }
}

impl View for ElementNode {
    type V = NodeV;

    open spec fn view(&self) -> NodeV {
        node_view(*self)
    }
}

impl View for Children {
    type V = Seq<ChildV>;

    open spec fn view(&self) -> Seq<ChildV> {
        entries_view(self.entries@)
    }
}

/// The queue staged under one socket, in staging order.
pub open spec fn socket_seq(cv: Seq<ChildV>, name: SocketName) -> Seq<NodeV>
    decreases cv,
{
    if cv.len() == 0 {
        Seq::empty()
    } else {
        (if cv[0].socket == name {
            seq![cv[0].node]
        } else {
            Seq::empty()
        }) + socket_seq(cv.subrange(1, cv.len() as int), name)
    }
}

/// Size of a modelled node: itself plus everything staged below it.
pub open spec fn node_size(n: NodeV) -> nat
    decreases n, 1nat,
{
    1 + kids_size(n.children)
}

pub open spec fn kids_size(cv: Seq<ChildV>) -> nat
    decreases cv, 0nat,
{
    if cv.len() == 0 {
        0
    } else {
        node_size(cv[0].node) + kids_size(cv.subrange(1, cv.len() as int))
    }
}

pub open spec fn nodes_size(ns: Seq<NodeV>) -> nat
    decreases ns, 0nat,
{
    if ns.len() == 0 {
        0
    } else {
        node_size(ns[0]) + nodes_size(ns.subrange(1, ns.len() as int))
    }
}

pub broadcast proof fn lemma_entries_view_len(s: Seq<ChildEntry>)
    ensures
        #[trigger] entries_view(s).len() == s.len(),
        forall|i: int| 0 <= i < s.len() ==> entries_view(s)[i] == entry_view(s[i]),
    decreases s,
{
    if s.len() > 0 {
        lemma_entries_view_len(s.subrange(1, s.len() as int));
    }
}

pub broadcast proof fn lemma_elem_nodes_view_len(s: Seq<ElementNode>)
    ensures
        #[trigger] elem_nodes_view(s).len() == s.len(),
        forall|i: int| 0 <= i < s.len() ==> elem_nodes_view(s)[i] == node_view(s[i]),
    decreases s,
{
    if s.len() > 0 {
        lemma_elem_nodes_view_len(s.subrange(1, s.len() as int));
    }
}

pub proof fn lemma_entries_view_singleton(e: ChildEntry)
    ensures
        entries_view(seq![e]) == seq![entry_view(e)],
{
    assert(seq![e].subrange(1, 1) =~= Seq::<ChildEntry>::empty());
    assert(entries_view(Seq::<ChildEntry>::empty()) == Seq::<ChildV>::empty());
    assert(seq![e][0] == e);
    assert(seq![entry_view(e)] + Seq::<ChildV>::empty() =~= seq![entry_view(e)]);
}

pub proof fn lemma_elem_nodes_view_singleton(n: ElementNode)
    ensures
        elem_nodes_view(seq![n]) == seq![node_view(n)],
{
    assert(seq![n].subrange(1, 1) =~= Seq::<ElementNode>::empty());
    assert(elem_nodes_view(Seq::<ElementNode>::empty()) == Seq::<NodeV>::empty());
    assert(seq![n][0] == n);
    assert(seq![node_view(n)] + Seq::<NodeV>::empty() =~= seq![node_view(n)]);
}

pub proof fn lemma_socket_seq_singleton(c: ChildV, name: SocketName)
    ensures
        c.socket == name ==> socket_seq(seq![c], name) == seq![c.node],
        c.socket != name ==> socket_seq(seq![c], name) == Seq::<NodeV>::empty(),
{
    assert(seq![c].subrange(1, 1) =~= Seq::<ChildV>::empty());
    assert(socket_seq(Seq::<ChildV>::empty(), name) == Seq::<NodeV>::empty());
    assert(seq![c][0] == c);
    if c.socket == name {
        assert(seq![c.node] + Seq::<NodeV>::empty() =~= seq![c.node]);
    } else {
        assert(Seq::<NodeV>::empty() + Seq::<NodeV>::empty() =~= Seq::<NodeV>::empty());
    }
}

pub proof fn lemma_kids_size_singleton(c: ChildV)
    ensures
        kids_size(seq![c]) == node_size(c.node),
{
    assert(seq![c].subrange(1, 1) =~= Seq::<ChildV>::empty());
    assert(kids_size(Seq::<ChildV>::empty()) == 0);
    assert(seq![c][0] == c);
}

pub proof fn lemma_nodes_size_singleton(n: NodeV)
    ensures
        nodes_size(seq![n]) == node_size(n),
{
    assert(seq![n].subrange(1, 1) =~= Seq::<NodeV>::empty());
    assert(nodes_size(Seq::<NodeV>::empty()) == 0);
    assert(seq![n][0] == n);
}

pub proof fn lemma_entries_view_concat(a: Seq<ChildEntry>, b: Seq<ChildEntry>)
    ensures
        entries_view(a + b) == entries_view(a) + entries_view(b),
    decreases a,
{
    if a.len() == 0 {
        assert(a + b =~= b);
        assert(entries_view(a) + entries_view(b) =~= entries_view(b));
    } else {
        let rest = a.subrange(1, a.len() as int);
        lemma_entries_view_concat(rest, b);
        assert((a + b).subrange(1, (a + b).len() as int) =~= rest + b);
        assert((a + b)[0] == a[0]);
        assert(entries_view(a + b)
            == seq![entry_view(a[0])] + (entries_view(rest) + entries_view(b)));
        assert(seq![entry_view(a[0])] + (entries_view(rest) + entries_view(b))
            =~= (seq![entry_view(a[0])] + entries_view(rest)) + entries_view(b));
    }
}

pub proof fn lemma_elem_nodes_view_concat(a: Seq<ElementNode>, b: Seq<ElementNode>)
    ensures
        elem_nodes_view(a + b) == elem_nodes_view(a) + elem_nodes_view(b),
    decreases a,
{
    if a.len() == 0 {
        assert(a + b =~= b);
        assert(elem_nodes_view(a) + elem_nodes_view(b) =~= elem_nodes_view(b));
    } else {
        let rest = a.subrange(1, a.len() as int);
        lemma_elem_nodes_view_concat(rest, b);
        assert((a + b).subrange(1, (a + b).len() as int) =~= rest + b);
        assert((a + b)[0] == a[0]);
        assert(elem_nodes_view(a + b)
            == seq![node_view(a[0])] + (elem_nodes_view(rest) + elem_nodes_view(b)));
        assert(seq![node_view(a[0])] + (elem_nodes_view(rest) + elem_nodes_view(b))
            =~= (seq![node_view(a[0])] + elem_nodes_view(rest)) + elem_nodes_view(b));
    }
}

pub proof fn lemma_socket_seq_concat(a: Seq<ChildV>, b: Seq<ChildV>, name: SocketName)
    ensures
        socket_seq(a + b, name) == socket_seq(a, name) + socket_seq(b, name),
    decreases a,
{
    if a.len() == 0 {
        assert(a + b =~= b);
        assert(socket_seq(a, name) + socket_seq(b, name) =~= socket_seq(b, name));
    } else {
        let rest = a.subrange(1, a.len() as int);
        lemma_socket_seq_concat(rest, b, name);
        assert((a + b).subrange(1, (a + b).len() as int) =~= rest + b);
        assert((a + b)[0] == a[0]);
        let head = if a[0].socket == name {
            seq![a[0].node]
        } else {
            Seq::<NodeV>::empty()
        };
        assert(socket_seq(a + b, name)
            == head + (socket_seq(rest, name) + socket_seq(b, name)));
        assert(head + (socket_seq(rest, name) + socket_seq(b, name))
            =~= (head + socket_seq(rest, name)) + socket_seq(b, name));
    }
}

/// A prefix with no pair on `name` contributes nothing to its queue.
pub proof fn lemma_socket_seq_absent(cv: Seq<ChildV>, name: SocketName)
    requires
        forall|j: int| 0 <= j < cv.len() ==> cv[j].socket != name,
    ensures
        socket_seq(cv, name) == Seq::<NodeV>::empty(),
    decreases cv,
{
    if cv.len() > 0 {
        lemma_socket_seq_absent(cv.subrange(1, cv.len() as int), name);
        assert(socket_seq(cv, name) =~= Seq::<NodeV>::empty());
    }
}

pub proof fn lemma_kids_size_concat(a: Seq<ChildV>, b: Seq<ChildV>)
    ensures
        kids_size(a + b) == kids_size(a) + kids_size(b),
    decreases a,
{
    if a.len() == 0 {
        assert(a + b =~= b);
    } else {
        let rest = a.subrange(1, a.len() as int);
        lemma_kids_size_concat(rest, b);
        assert((a + b).subrange(1, (a + b).len() as int) =~= rest + b);
        assert((a + b)[0] == a[0]);
    }
}

pub proof fn lemma_nodes_size_concat(a: Seq<NodeV>, b: Seq<NodeV>)
    ensures
        nodes_size(a + b) == nodes_size(a) + nodes_size(b),
    decreases a,
{
    if a.len() == 0 {
        assert(a + b =~= b);
    } else {
        let rest = a.subrange(1, a.len() as int);
        lemma_nodes_size_concat(rest, b);
        assert((a + b).subrange(1, (a + b).len() as int) =~= rest + b);
        assert((a + b)[0] == a[0]);
    }
}

/// A socket's queue is never longer than the whole staging area.
pub proof fn lemma_socket_seq_len(cv: Seq<ChildV>, name: SocketName)
    ensures
        socket_seq(cv, name).len() <= cv.len(),
    decreases cv,
{
    if cv.len() > 0 {
        lemma_socket_seq_len(cv.subrange(1, cv.len() as int), name);
    }
}

/// One node never weighs more than a sequence containing it.
pub proof fn lemma_nodes_size_index(ns: Seq<NodeV>, i: int)
    requires
        0 <= i < ns.len(),
    ensures
        node_size(ns[i]) <= nodes_size(ns),
    decreases ns,
{
    if i > 0 {
        lemma_nodes_size_index(ns.subrange(1, ns.len() as int), i - 1);
    }
}

/// A socket's queue never weighs more than the whole staging area.
pub proof fn lemma_socket_seq_size(cv: Seq<ChildV>, name: SocketName)
    ensures
        nodes_size(socket_seq(cv, name)) <= kids_size(cv),
    decreases cv,
{
    if cv.len() > 0 {
        let rest = cv.subrange(1, cv.len() as int);
        lemma_socket_seq_size(rest, name);
        if cv[0].socket == name {
            lemma_nodes_size_concat(seq![cv[0].node], socket_seq(rest, name));
            lemma_nodes_size_singleton(cv[0].node);
        } else {
            assert(Seq::<NodeV>::empty() + socket_seq(rest, name) =~= socket_seq(rest, name));
        }
    }
}

impl ElementNode {
    pub fn new(id: Id, elem: ElementKind) -> (n: ElementNode)
        ensures
            n@ == (NodeV { id, elem, children: Seq::<ChildV>::empty() }),
    {
        ElementNode { id, elem, children: Children::new() }
    }
}

impl Children {
    pub fn new() -> (c: Children)
        ensures
            c@ == Seq::<ChildV>::empty(),
    {
        Children { entries: Vec::new() }
    }

    /// Stage a node at the back of a socket's queue.
    pub fn push_back(&mut self, socket: SocketName, node: ElementNode)
        ensures
            final(self)@ == old(self)@.push(ChildV { socket, node: node@ }),
    {
        let ghost prior = self.entries@;
        let ghost nv = node@;
        let entry = ChildEntry { socket, node };
        let ghost ev = entry_view(entry);
        self.entries.push(entry);
        proof {
            assert(self.entries@ =~= prior + seq![ChildEntry { socket, node: entry.node }]);
            lemma_entries_view_concat(prior, seq![ChildEntry { socket, node: entry.node }]);
            lemma_entries_view_singleton(ChildEntry { socket, node: entry.node });
            assert(entries_view(prior) + seq![ev] =~= entries_view(prior).push(ev));
        }
    }

    /// Remove and return the front of a socket's queue, if any.
    pub fn pop_front(&mut self, socket: SocketName) -> (r: Option<ElementNode>)
        ensures
            socket_seq(old(self)@, socket).len() == 0 ==> r is None && final(self)@ == old(self)@,
            socket_seq(old(self)@, socket).len() > 0 ==> r is Some,
            r matches Some(n) ==> {
                &&& n@ == socket_seq(old(self)@, socket)[0]
                &&& socket_seq(final(self)@, socket) == socket_seq(old(self)@, socket).subrange(
                    1,
                    socket_seq(old(self)@, socket).len() as int,
                )
                &&& forall|other: SocketName|
                    other != socket ==> socket_seq(final(self)@, other) == socket_seq(
                        old(self)@,
                        other,
                    )
                &&& kids_size(final(self)@) + node_size(n@) == kids_size(old(self)@)
            },
    {
        let n = self.entries.len();
        let mut i: usize = 0;
        while i < n
            invariant
                n == self.entries.len(),
                i <= n,
                *self == *old(self),
                forall|j: int| 0 <= j < i ==> self.entries@[j].socket != socket,
            decreases n - i,
        {
            if self.entries[i].socket == socket {
                let ghost pre = self.entries@;
                let ghost idx = i as int;
                let found = self.entries.remove(i);
                proof {
                    let front = pre.subrange(0, idx);
                    let mid = seq![pre[idx]];
                    let back = pre.subrange(idx + 1, pre.len() as int);
                    assert(pre =~= (front + mid) + back);
                    assert(self.entries@ =~= front + back);
                    lemma_entries_view_concat(front + mid, back);
                    lemma_entries_view_concat(front, mid);
                    lemma_entries_view_concat(front, back);
                    lemma_entries_view_singleton(pre[idx]);
                    let fv = entries_view(front);
                    let mv = seq![entry_view(pre[idx])];
                    let bv = entries_view(back);
                    assert(entries_view(pre) == (fv + mv) + bv);
                    assert(entries_view(self.entries@) == fv + bv);
                    lemma_entries_view_len(front);
                    assert(forall|j: int| 0 <= j < fv.len() ==> fv[j] == entry_view(front[j]));
                    assert(forall|j: int| 0 <= j < fv.len() ==> fv[j].socket != socket);
                    lemma_socket_seq_absent(fv, socket);
                    lemma_socket_seq_concat(fv + mv, bv, socket);
                    lemma_socket_seq_concat(fv, mv, socket);
                    lemma_socket_seq_concat(fv, bv, socket);
                    lemma_socket_seq_singleton(entry_view(pre[idx]), socket);
                    assert(socket_seq(entries_view(pre), socket)
                        =~= seq![entry_view(pre[idx]).node] + socket_seq(bv, socket));
                    assert(socket_seq(entries_view(self.entries@), socket)
                        =~= socket_seq(bv, socket));
                    assert(socket_seq(entries_view(pre), socket).subrange(
                        1,
                        socket_seq(entries_view(pre), socket).len() as int,
                    ) =~= socket_seq(bv, socket));
                    assert forall|other: SocketName| other != socket implies socket_seq(
                        entries_view(self.entries@),
                        other,
                    ) == socket_seq(entries_view(pre), other) by {
                        lemma_socket_seq_concat(fv + mv, bv, other);
                        lemma_socket_seq_concat(fv, mv, other);
                        lemma_socket_seq_concat(fv, bv, other);
                        lemma_socket_seq_singleton(entry_view(pre[idx]), other);
                        assert(socket_seq(entries_view(pre), other)
                            =~= (socket_seq(fv, other) + Seq::<NodeV>::empty()) + socket_seq(
                            bv,
                            other,
                        ));
                        assert(socket_seq(entries_view(pre), other)
                            =~= socket_seq(fv, other) + socket_seq(bv, other));
                        assert(socket_seq(entries_view(self.entries@), other)
                            =~= socket_seq(fv, other) + socket_seq(bv, other));
                    }
                    lemma_kids_size_concat(fv + mv, bv);
                    lemma_kids_size_concat(fv, mv);
                    lemma_kids_size_concat(fv, bv);
                    lemma_kids_size_singleton(entry_view(pre[idx]));
                }
                return Some(found.node);
            }
            i = i + 1;
        }
        proof {
            lemma_entries_view_len(self.entries@);
            assert(forall|j: int|
                0 <= j < entries_view(self.entries@).len() ==> entries_view(self.entries@)[j]
                    == entry_view(self.entries@[j]));
            lemma_socket_seq_absent(entries_view(self.entries@), socket);
        }
        None
    }

    /// Take ownership of a socket's whole queue, clearing it; `None` when the
    /// queue is empty.
    pub fn remove(&mut self, socket: SocketName) -> (r: Option<Vec<ElementNode>>)
        ensures
            socket_seq(old(self)@, socket).len() == 0 ==> r is None && final(self)@ == old(self)@,
            socket_seq(old(self)@, socket).len() > 0 ==> r is Some,
            r matches Some(taken) ==> {
                &&& elem_nodes_view(taken@) == socket_seq(old(self)@, socket)
                &&& socket_seq(final(self)@, socket) == Seq::<NodeV>::empty()
                &&& forall|other: SocketName|
                    other != socket ==> socket_seq(final(self)@, other) == socket_seq(
                        old(self)@,
                        other,
                    )
            },
    {
        let mut taken: Vec<ElementNode> = Vec::new();
        let ghost whole = socket_seq(old(self)@, socket);
        loop
            invariant
                elem_nodes_view(taken@) == whole.subrange(0, taken@.len() as int),
                taken@.len() <= whole.len(),
                socket_seq(self@, socket) == whole.subrange(taken@.len() as int, whole.len() as int),
                forall|other: SocketName|
                    other != socket ==> socket_seq(self@, other) == socket_seq(old(self)@, other),
                taken@.len() == 0 ==> self@ == old(self)@,
            ensures
                elem_nodes_view(taken@) == whole,
                socket_seq(self@, socket) == Seq::<NodeV>::empty(),
                forall|other: SocketName|
                    other != socket ==> socket_seq(self@, other) == socket_seq(old(self)@, other),
                taken@.len() == 0 ==> self@ == old(self)@,
                taken@.len() == whole.len(),
            decreases whole.len() - taken@.len(),
        {
            let ghost done = taken@.len() as int;
            match self.pop_front(socket) {
                Some(node) => {
                    let ghost nv = node@;
                    let ghost prefix = taken@;
                    taken.push(node);
                    proof {
                        assert(nv == whole[done]);
                        assert(taken@ =~= prefix + seq![taken@[taken@.len() - 1]]);
                        lemma_elem_nodes_view_concat(prefix, seq![taken@[taken@.len() - 1]]);
                        lemma_elem_nodes_view_singleton(taken@[taken@.len() - 1]);
                        assert(elem_nodes_view(taken@)
                            =~= whole.subrange(0, done) + seq![nv]);
                        assert(elem_nodes_view(taken@) =~= whole.subrange(0, done + 1));
                        assert(whole.subrange(done, whole.len() as int).subrange(
                            1,
                            whole.len() - done,
                        ) =~= whole.subrange(done + 1, whole.len() as int));
                    }
                },
                None => {
                    proof {
                        assert(whole.subrange(done, whole.len() as int).len() == 0);
                        assert(elem_nodes_view(taken@) =~= whole);
                    }
                    break;
                },
            }
        }
        proof {
            lemma_elem_nodes_view_len(taken@);
        }
        if taken.len() == 0 {
            None
        } else {
            Some(taken)
        }
    }

    /// Remove and return the whole store, leaving this one empty.
    pub fn take(&mut self) -> (r: Children)
        ensures
            r@ == old(self)@,
            final(self)@ == Seq::<ChildV>::empty(),
    {
        let mut out = Children::new();
        core::mem::swap(self, &mut out);
        out
    }

    /// Merge another store into this one: same-named queues concatenate in
    /// order, new ones carry over verbatim.
    pub fn append(&mut self, other: Children)
        ensures
            final(self)@ == old(self)@ + other@,
            forall|name: SocketName| #[trigger]
                socket_seq(final(self)@, name) == socket_seq(old(self)@, name) + socket_seq(
                    other@,
                    name,
                ),
    {
        let ghost a = self.entries@;
        let ghost b = other.entries@;
        let mut incoming = other;
        self.entries.append(&mut incoming.entries);
        proof {
            assert(self.entries@ =~= a + b);
            lemma_entries_view_concat(a, b);
            assert forall|name: SocketName| #[trigger]
                socket_seq(entries_view(a + b), name) == socket_seq(entries_view(a), name)
                    + socket_seq(entries_view(b), name) by {
                lemma_socket_seq_concat(entries_view(a), entries_view(b), name);
            }
        }
    }

    /// Stage each node of `nodes`, in order, at the back of `socket`'s queue.
    pub fn append_nodes(&mut self, socket: SocketName, nodes: Vec<ElementNode>)
        ensures
            final(self)@ == old(self)@ + as_socket_children(elem_nodes_view(nodes@), socket),
            socket_seq(final(self)@, socket) == socket_seq(old(self)@, socket) + elem_nodes_view(
                nodes@,
            ),
            forall|other: SocketName|
                other != socket ==> socket_seq(final(self)@, other) == socket_seq(
                    old(self)@,
                    other,
                ),
    {
        let ghost all = elem_nodes_view(nodes@);
        proof {
            lemma_elem_nodes_view_len(nodes@);
            assert(all.subrange(0, 0) =~= Seq::<NodeV>::empty());
            assert(as_socket_children(Seq::<NodeV>::empty(), socket) == Seq::<ChildV>::empty());
            assert(old(self)@ + Seq::<ChildV>::empty() =~= old(self)@);
        }
        let mut incoming = nodes;
        while incoming.len() > 0
            invariant
                elem_nodes_view(incoming@) == all.subrange(
                    all.len() - incoming@.len(),
                    all.len() as int,
                ),
                incoming@.len() <= all.len(),
                self@ == old(self)@ + as_socket_children(
                    all.subrange(0, all.len() - incoming@.len()),
                    socket,
                ),
            decreases incoming.len(),
        {
            let ghost done = all.len() - incoming@.len();
            let ghost pending = incoming@;
            let node = incoming.remove(0);
            proof {
                assert(incoming@ =~= pending.subrange(1, pending.len() as int));
                lemma_elem_nodes_view_len(pending);
                lemma_elem_nodes_view_len(incoming@);
                assert(node@ == elem_nodes_view(pending)[0]);
                assert(node@ == all[done]);
                assert(elem_nodes_view(incoming@) =~= all.subrange(done + 1, all.len() as int))
                    by {
                    assert(forall|j: int|
                        0 <= j < incoming@.len() ==> #[trigger] incoming@[j] == pending[j + 1]);
                    assert forall|j: int| 0 <= j < incoming@.len() implies elem_nodes_view(
                        incoming@,
                    )[j] == all[done + 1 + j] by {
                        assert(elem_nodes_view(incoming@)[j] == node_view(incoming@[j]));
                        assert(node_view(pending[j + 1]) == elem_nodes_view(pending)[j + 1]);
                        assert(elem_nodes_view(pending)[j + 1]
                            == all.subrange(done, all.len() as int)[j + 1]);
                    }
                }
            }
            self.push_back(socket, node);
            proof {
                lemma_as_socket_children_push(all.subrange(0, done), all[done], socket);
                assert(all.subrange(0, done).push(all[done]) =~= all.subrange(0, done + 1));
                assert(self@ =~= old(self)@ + as_socket_children(
                    all.subrange(0, done + 1),
                    socket,
                ));
            }
        }
        proof {
            assert(all.subrange(0, all.len() as int) =~= all);
            lemma_socket_seq_concat(old(self)@, as_socket_children(all, socket), socket);
            lemma_as_socket_children_socket_seq(all, socket);
            assert forall|other: SocketName| other != socket implies socket_seq(
                self@,
                other,
            ) == socket_seq(old(self)@, other) by {
                lemma_socket_seq_concat(old(self)@, as_socket_children(all, socket), other);
                lemma_as_socket_children_socket_seq(all, socket);
                assert(socket_seq(old(self)@, other) + Seq::<NodeV>::empty()
                    =~= socket_seq(old(self)@, other));
            }
        }
    }
}

/// The staged pairs that routing each of `ns` to `socket` produces.
pub open spec fn as_socket_children(ns: Seq<NodeV>, socket: SocketName) -> Seq<ChildV>
    decreases ns,
{
    if ns.len() == 0 {
        Seq::empty()
    } else {
        seq![ChildV { socket, node: ns[0] }] + as_socket_children(
            ns.subrange(1, ns.len() as int),
            socket,
        )
    }
}

pub proof fn lemma_as_socket_children_push(ns: Seq<NodeV>, n: NodeV, socket: SocketName)
    ensures
        as_socket_children(ns.push(n), socket) == as_socket_children(ns, socket).push(
            ChildV { socket, node: n },
        ),
    decreases ns,
{
    if ns.len() == 0 {
        assert(ns.push(n).subrange(1, 1) =~= Seq::<NodeV>::empty());
        assert(as_socket_children(Seq::<NodeV>::empty(), socket) == Seq::<ChildV>::empty());
        assert(ns.push(n)[0] == n);
        assert(seq![ChildV { socket, node: n }] + Seq::<ChildV>::empty()
            =~= Seq::<ChildV>::empty().push(ChildV { socket, node: n }));
    } else {
        lemma_as_socket_children_push(ns.subrange(1, ns.len() as int), n, socket);
        assert(ns.push(n).subrange(1, ns.len() as int + 1) =~= ns.subrange(
            1,
            ns.len() as int,
        ).push(n));
        assert(ns.push(n)[0] == ns[0]);
        assert(seq![ChildV { socket, node: ns[0] }] + as_socket_children(
            ns.subrange(1, ns.len() as int),
            socket,
        ).push(ChildV { socket, node: n }) =~= (seq![ChildV { socket, node: ns[0] }]
            + as_socket_children(ns.subrange(1, ns.len() as int), socket)).push(
            ChildV { socket, node: n },
        ));
    }
}

/// Routing all of `ns` to `socket` stages exactly `ns` there and nothing
/// anywhere else.
pub proof fn lemma_as_socket_children_socket_seq(ns: Seq<NodeV>, socket: SocketName)
    ensures
        socket_seq(as_socket_children(ns, socket), socket) == ns,
        forall|other: SocketName|
            other != socket ==> socket_seq(as_socket_children(ns, socket), other) == Seq::<
                NodeV,
            >::empty(),
    decreases ns,
{
    if ns.len() == 0 {
    } else {
        let rest = ns.subrange(1, ns.len() as int);
        lemma_as_socket_children_socket_seq(rest, socket);
        let cv = as_socket_children(ns, socket);
        let head = ChildV { socket, node: ns[0] };
        assert(cv == seq![head] + as_socket_children(rest, socket));
        lemma_socket_seq_concat(seq![head], as_socket_children(rest, socket), socket);
        lemma_socket_seq_singleton(head, socket);
        assert(socket_seq(cv, socket) =~= seq![ns[0]] + rest);
        assert(seq![ns[0]] + rest =~= ns);
        assert forall|other: SocketName| other != socket implies socket_seq(cv, other) == Seq::<
            NodeV,
        >::empty() by {
            lemma_socket_seq_concat(seq![head], as_socket_children(rest, socket), other);
            lemma_socket_seq_singleton(head, other);
            assert(socket_seq(cv, other) =~= Seq::<NodeV>::empty() + socket_seq(
                as_socket_children(rest, socket),
                other,
            ));
        }
    }
}

} // verus!
