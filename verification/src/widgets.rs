//! The flat widget-tree builder.
//!
//! A simpler, self-contained recording surface: one `Context` holds a stack
//! of open nodes (`wip`) and the finished nodes of the current level
//! (`roots`). Each `*_begin` opens a node; `end` closes the current node,
//! adopting the roots built since as its children and returning to its
//! siblings. Each open node is kept as an explicit two-field frame — the
//! node plus the siblings completed before it — so no field ever changes its
//! meaning mid-build.

use vstd::prelude::*;
use crate::space::Area;
use crate::layout::Layout;
use crate::element::Id;
use crate::filter::{UIFilter, FilterStack};
use crate::state::{StateId, State, StateCache, StateT, read_cached};

verus! {

/// A named attachment point in the flat builder.
#[derive(Copy, Clone, Debug, PartialEq, Eq, Hash, Structural)]
pub struct Anchor(pub u64);

impl Anchor {
    /// The unnamed default anchor.
    pub open spec fn default_spec() -> Anchor {
        Anchor(0)
    }
}

impl Default for Anchor {
    fn default() -> (a: Anchor)
        ensures
            a == Anchor::default_spec(),
    {
        Anchor(0)
    }
}

/// An opaque widget descriptor staged in the tree.
#[derive(Copy, Clone, Debug, PartialEq, Eq, Structural)]
pub struct UIWidget {
    pub token: u64,
}

/// An opaque socket descriptor staged in the tree.
#[derive(Copy, Clone, Debug, PartialEq, Eq, Structural)]
pub struct UISocket {
    pub token: u64,
}

/// A deferred drawing with its declared minimum area.
pub struct UIRender {
    pub min_area: Area,
    pub imp: Layout,
}

/// What one staged tree node is.
pub enum TreeNodeKind {
    Render(UIRender),
    Socket(UISocket),
    PreFilter(UIFilter),
    PostFilter(UIFilter),
    Widget(UIWidget),
}

/// One staged node: its kind, the anchor it targets on its parent, and its
/// children.
pub struct TreeNode {
    pub kind: TreeNodeKind,
    pub target: Anchor,
    pub children: Vec<TreeNode>,
}

/// One open node on the builder stack: the node itself plus the siblings
/// completed at its level before it was opened.
pub struct BuildFrame {
    pub node: TreeNode,
    pub siblings: Vec<TreeNode>,
}

/// The per-invocation inputs of the flat builder: the widget's identity, the
/// area it may fill, the state counter, the previous frame's cache, and the
/// children handed down to it.
pub struct ContextData {
    pub widget_id: Id,
    pub max_area: Area,
    pub next_state_id: StateId,
    pub prev_state_cache: StateCache,
    pub next_frame_filters: FilterStack,
    pub children: Vec<TreeNode>,
}

impl ContextData {
    pub fn new(
        widget_id: Id,
        max_area: Area,
        next_state_id: StateId,
        prev_state_cache: StateCache,
        children: Vec<TreeNode>,
    ) -> (d: ContextData)
        ensures
            d.widget_id == widget_id,
            d.max_area == max_area,
            d.next_state_id == next_state_id,
            d.prev_state_cache == prev_state_cache,
            d.next_frame_filters.pre@ == Seq::<UIFilter>::empty(),
            d.next_frame_filters.post@ == Seq::<UIFilter>::empty(),
            d.children == children,
    {
        ContextData {
            widget_id,
            max_area,
            next_state_id,
            prev_state_cache,
            next_frame_filters: FilterStack::new(),
            children,
        }
    }
}

/// The nodes of `s` targeting `name`, in order.
pub open spec fn nodes_with_target(s: Seq<TreeNode>, name: Anchor) -> Seq<TreeNode>
    decreases s,
{
    if s.len() == 0 {
        Seq::empty()
    } else {
        (if s[0].target == name {
            seq![s[0]]
        } else {
            Seq::empty()
        }) + nodes_with_target(s.subrange(1, s.len() as int), name)
    }
}

/// The nodes of `s` not targeting `name`, in order.
pub open spec fn nodes_without_target(s: Seq<TreeNode>, name: Anchor) -> Seq<TreeNode>
    decreases s,
{
    if s.len() == 0 {
        Seq::empty()
    } else {
        (if s[0].target != name {
            seq![s[0]]
        } else {
            Seq::empty()
        }) + nodes_without_target(s.subrange(1, s.len() as int), name)
    }
}

/// The flat builder surface for one widget invocation.
pub struct Context {
    pub data: ContextData,
    pub wip: Vec<BuildFrame>,
    pub roots: Vec<TreeNode>,
}

impl Context {
    pub fn new(data: ContextData) -> (c: Context)
        ensures
            c.data == data,
            c.wip@ == Seq::<BuildFrame>::empty(),
            c.roots@ == Seq::<TreeNode>::empty(),
    {
        Context { data, wip: Vec::new(), roots: Vec::new() }
    }

    /// A nested builder over the same invocation data, with a fresh stack
    /// and a fresh root level; the outer builder is consumed.
    pub fn local(self) -> (c: Context)
        ensures
            c.data == self.data,
            c.wip@ == Seq::<BuildFrame>::empty(),
            c.roots@ == Seq::<TreeNode>::empty(),
    {
        Context { data: self.data, wip: Vec::new(), roots: Vec::new() }
    }

    pub fn widget_id(&self) -> (id: Id)
        ensures
            id == self.data.widget_id,
    {
        self.data.widget_id
    }

    pub fn max_area(&self) -> (a: Area)
        ensures
            a == self.data.max_area,
    {
        self.data.max_area
    }

    /// Open a node: completed roots become the pending siblings of the new
    /// frame, and building restarts at the child level.
    fn begin(&mut self, node: TreeNode)
        ensures
            final(self).wip@ == old(self).wip@.push(
                BuildFrame { node, siblings: old(self).roots },
            ),
            final(self).roots@ == Seq::<TreeNode>::empty(),
            final(self).data == old(self).data,
    {
        let mut siblings: Vec<TreeNode> = Vec::new();
        core::mem::swap(&mut self.roots, &mut siblings);
        self.wip.push(BuildFrame { node, siblings });
    }

    /// Open a widget node on the default anchor.
    pub fn widget_begin(&mut self, widget: UIWidget)
        ensures
            final(self).wip@.len() == old(self).wip@.len() + 1,
            final(self).wip@.drop_last() == old(self).wip@,
            final(self).wip@.last().node.kind == TreeNodeKind::Widget(widget),
            final(self).wip@.last().node.target == Anchor::default_spec(),
            final(self).wip@.last().node.children@ == Seq::<TreeNode>::empty(),
            final(self).wip@.last().siblings == old(self).roots,
            final(self).roots@ == Seq::<TreeNode>::empty(),
            final(self).data == old(self).data,
    {
        let target = Anchor::default();
        self.widget_into_begin(target, widget);
    }

    /// Open a widget node on a chosen anchor.
    pub fn widget_into_begin(&mut self, target: Anchor, widget: UIWidget)
        ensures
            final(self).wip@.len() == old(self).wip@.len() + 1,
            final(self).wip@.drop_last() == old(self).wip@,
            final(self).wip@.last().node.kind == TreeNodeKind::Widget(widget),
            final(self).wip@.last().node.target == target,
            final(self).wip@.last().node.children@ == Seq::<TreeNode>::empty(),
            final(self).wip@.last().siblings == old(self).roots,
            final(self).roots@ == Seq::<TreeNode>::empty(),
            final(self).data == old(self).data,
    {
        let node = TreeNode { kind: TreeNodeKind::Widget(widget), target, children: Vec::new() };
        self.begin(node);
    }

    /// Open a socket node on the default anchor.
    pub fn socket_begin(&mut self, socket: UISocket)
        ensures
            final(self).wip@.len() == old(self).wip@.len() + 1,
            final(self).wip@.drop_last() == old(self).wip@,
            final(self).wip@.last().node.kind == TreeNodeKind::Socket(socket),
            final(self).wip@.last().node.target == Anchor::default_spec(),
            final(self).wip@.last().node.children@ == Seq::<TreeNode>::empty(),
            final(self).wip@.last().siblings == old(self).roots,
            final(self).roots@ == Seq::<TreeNode>::empty(),
            final(self).data == old(self).data,
    {
        let target = Anchor::default();
        let node = TreeNode { kind: TreeNodeKind::Socket(socket), target, children: Vec::new() };
        self.begin(node);
    }

    /// Open a pre-phase filter node on the default anchor.
    pub fn filter_pre_begin(&mut self, filter: UIFilter)
        ensures
            final(self).wip@.len() == old(self).wip@.len() + 1,
            final(self).wip@.drop_last() == old(self).wip@,
            final(self).wip@.last().node.kind == TreeNodeKind::PreFilter(filter),
            final(self).wip@.last().node.target == Anchor::default_spec(),
            final(self).wip@.last().node.children@ == Seq::<TreeNode>::empty(),
            final(self).wip@.last().siblings == old(self).roots,
            final(self).roots@ == Seq::<TreeNode>::empty(),
            final(self).data == old(self).data,
    {
        let target = Anchor::default();
        self.filter_pre_into_begin(filter, target);
    }

    /// Open a pre-phase filter node on a chosen anchor.
    pub fn filter_pre_into_begin(&mut self, filter: UIFilter, target: Anchor)
        ensures
            final(self).wip@.len() == old(self).wip@.len() + 1,
            final(self).wip@.drop_last() == old(self).wip@,
            final(self).wip@.last().node.kind == TreeNodeKind::PreFilter(filter),
            final(self).wip@.last().node.target == target,
            final(self).wip@.last().node.children@ == Seq::<TreeNode>::empty(),
            final(self).wip@.last().siblings == old(self).roots,
            final(self).roots@ == Seq::<TreeNode>::empty(),
            final(self).data == old(self).data,
    {
        let node = TreeNode {
            kind: TreeNodeKind::PreFilter(filter),
            target,
            children: Vec::new(),
        };
        self.begin(node);
    }

    /// Open a post-phase filter node on the default anchor.
    pub fn filter_post_begin(&mut self, filter: UIFilter)
        ensures
            final(self).wip@.len() == old(self).wip@.len() + 1,
            final(self).wip@.drop_last() == old(self).wip@,
            final(self).wip@.last().node.kind == TreeNodeKind::PostFilter(filter),
            final(self).wip@.last().node.target == Anchor::default_spec(),
            final(self).wip@.last().node.children@ == Seq::<TreeNode>::empty(),
            final(self).wip@.last().siblings == old(self).roots,
            final(self).roots@ == Seq::<TreeNode>::empty(),
            final(self).data == old(self).data,
    {
        let target = Anchor::default();
        self.filter_post_into_begin(filter, target);
    }

    /// Open a post-phase filter node on a chosen anchor.
    pub fn filter_post_into_begin(&mut self, filter: UIFilter, target: Anchor)
        ensures
            final(self).wip@.len() == old(self).wip@.len() + 1,
            final(self).wip@.drop_last() == old(self).wip@,
            final(self).wip@.last().node.kind == TreeNodeKind::PostFilter(filter),
            final(self).wip@.last().node.target == target,
            final(self).wip@.last().node.children@ == Seq::<TreeNode>::empty(),
            final(self).wip@.last().siblings == old(self).roots,
            final(self).roots@ == Seq::<TreeNode>::empty(),
            final(self).data == old(self).data,
    {
        let node = TreeNode {
            kind: TreeNodeKind::PostFilter(filter),
            target,
            children: Vec::new(),
        };
        self.begin(node);
    }

    /// Adopt every child handed down to this invocation into the current
    /// level, in order.
    pub fn children_all(&mut self)
        ensures
            final(self).roots@ == old(self).roots@ + old(self).data.children@,
            final(self).data.children@ == Seq::<TreeNode>::empty(),
            final(self).data.widget_id == old(self).data.widget_id,
            final(self).data.max_area == old(self).data.max_area,
            final(self).data.next_state_id == old(self).data.next_state_id,
            final(self).data.prev_state_cache == old(self).data.prev_state_cache,
            final(self).data.next_frame_filters == old(self).data.next_frame_filters,
            final(self).wip == old(self).wip,
    {
        self.roots.append(&mut self.data.children);
    }

    /// Adopt only the handed-down children targeting `name` into the current
    /// level, keeping the rest, orders preserved.
    pub fn children_into(&mut self, name: Anchor)
        ensures
            final(self).roots@ == old(self).roots@ + nodes_with_target(
                old(self).data.children@,
                name,
            ),
            final(self).data.children@ == nodes_without_target(old(self).data.children@, name),
            final(self).data.widget_id == old(self).data.widget_id,
            final(self).data.max_area == old(self).data.max_area,
            final(self).data.next_state_id == old(self).data.next_state_id,
            final(self).data.prev_state_cache == old(self).data.prev_state_cache,
            final(self).data.next_frame_filters == old(self).data.next_frame_filters,
            final(self).wip == old(self).wip,
    {
        let ghost all = self.data.children@;
        let ghost roots0 = self.roots@;
        let mut pending: Vec<TreeNode> = Vec::new();
        core::mem::swap(&mut self.data.children, &mut pending);
        let mut kept: Vec<TreeNode> = Vec::new();
        proof {
            assert(all.subrange(0, 0) =~= Seq::<TreeNode>::empty());
            assert(nodes_with_target(Seq::<TreeNode>::empty(), name) == Seq::<TreeNode>::empty());
            assert(nodes_without_target(Seq::<TreeNode>::empty(), name)
                == Seq::<TreeNode>::empty());
            assert(roots0 + Seq::<TreeNode>::empty() =~= roots0);
        }
        while pending.len() > 0
            invariant
                pending@ == all.subrange(all.len() - pending@.len(), all.len() as int),
                pending@.len() <= all.len(),
                self.roots@ == roots0 + nodes_with_target(
                    all.subrange(0, all.len() - pending@.len()),
                    name,
                ),
                kept@ == nodes_without_target(all.subrange(0, all.len() - pending@.len()), name),
                self.data.children@ == Seq::<TreeNode>::empty(),
                self.data.widget_id == old(self).data.widget_id,
                self.data.max_area == old(self).data.max_area,
                self.data.next_state_id == old(self).data.next_state_id,
                self.data.prev_state_cache == old(self).data.prev_state_cache,
                self.data.next_frame_filters == old(self).data.next_frame_filters,
                self.wip == old(self).wip,
            decreases pending.len(),
        {
            let ghost done = all.len() - pending@.len();
            let ghost before = pending@;
            let node = pending.remove(0);
            proof {
                assert(pending@ =~= before.subrange(1, before.len() as int));
                assert(node == all[done]);
                assert(pending@ =~= all.subrange(done + 1, all.len() as int));
                lemma_target_split_step(all, done, name);
            }
            if anchors_equal(&node.target, &name) {
                self.roots.push(node);
            } else {
                kept.push(node);
            }
            proof {
                assert(self.roots@ == roots0 + nodes_with_target(
                    all.subrange(0, done + 1),
                    name,
                ));
                assert(kept@ == nodes_without_target(all.subrange(0, done + 1), name));
            }
        }
        self.data.children = kept;
        proof {
            assert(all.subrange(0, all.len() as int) =~= all);
        }
    }

    /// Stage a deferred drawing directly at the current level; renders are
    /// leaves, so no node is opened.
    pub fn render_new(&mut self, min_area: Area, imp: Layout)
        ensures
            final(self).roots@.len() == old(self).roots@.len() + 1,
            final(self).roots@.drop_last() == old(self).roots@,
            final(self).roots@.last().kind == TreeNodeKind::Render(
                UIRender { min_area, imp },
            ),
            final(self).roots@.last().target == Anchor::default_spec(),
            final(self).roots@.last().children@ == Seq::<TreeNode>::empty(),
            final(self).wip == old(self).wip,
            final(self).data == old(self).data,
    {
        self.render(UIRender { min_area, imp });
    }

    /// Stage a deferred drawing on the default anchor.
    pub fn render(&mut self, render: UIRender)
        ensures
            final(self).roots@.len() == old(self).roots@.len() + 1,
            final(self).roots@.drop_last() == old(self).roots@,
            final(self).roots@.last().kind == TreeNodeKind::Render(render),
            final(self).roots@.last().target == Anchor::default_spec(),
            final(self).roots@.last().children@ == Seq::<TreeNode>::empty(),
            final(self).wip == old(self).wip,
            final(self).data == old(self).data,
    {
        let target = Anchor::default();
        self.render_into(target, render);
    }

    /// Stage a deferred drawing on a chosen anchor.
    pub fn render_into(&mut self, target: Anchor, render: UIRender)
        ensures
            final(self).roots@.len() == old(self).roots@.len() + 1,
            final(self).roots@.drop_last() == old(self).roots@,
            final(self).roots@.last().kind == TreeNodeKind::Render(render),
            final(self).roots@.last().target == target,
            final(self).roots@.last().children@ == Seq::<TreeNode>::empty(),
            final(self).wip == old(self).wip,
            final(self).data == old(self).data,
    {
        let node = TreeNode { kind: TreeNodeKind::Render(render), target, children: Vec::new() };
        self.roots.push(node);
    }

    /// Close the current node: it adopts the roots built since it was
    /// opened, and building resumes at its siblings with it appended.
    pub fn end(&mut self)
        requires
            old(self).wip@.len() > 0,
        ensures
            ({
                let f = old(self).wip@.last();
                &&& final(self).wip@ == old(self).wip@.drop_last()
                &&& final(self).roots@ == f.siblings@.push(
                    TreeNode {
                        kind: f.node.kind,
                        target: f.node.target,
                        children: old(self).roots,
                    },
                )
                &&& final(self).data == old(self).data
            }),
    {
        match self.wip.pop() {
            Some(mut f) => {
                core::mem::swap(&mut f.node.children, &mut self.roots);
                self.roots = f.siblings;
                self.roots.push(f.node);
            },
            None => {
                proof {
                    assert(false);
                }
            },
        }
    }

    /// A suspension point reserved for filling sockets across a deferred
    /// continuation; today it only checks balance and ends the build.
    pub fn await_sockets(self)
        requires
            self.wip@.len() == 0,
    {
    }

    /// Register a filter to run before the next frame's build.
    pub fn filter_pre_next_frame(&mut self, filter: UIFilter)
        ensures
            final(self).data.next_frame_filters.pre@ == old(
                self,
            ).data.next_frame_filters.pre@.push(filter),
            final(self).data.next_frame_filters.post@ == old(self).data.next_frame_filters.post@,
            final(self).data.widget_id == old(self).data.widget_id,
            final(self).data.max_area == old(self).data.max_area,
            final(self).data.next_state_id == old(self).data.next_state_id,
            final(self).data.prev_state_cache == old(self).data.prev_state_cache,
            final(self).data.children == old(self).data.children,
            final(self).wip == old(self).wip,
            final(self).roots == old(self).roots,
    {
        self.data.next_frame_filters.filter_pre(filter);
    }

    /// Register a filter to run after the next frame's build.
    pub fn filter_post_next_frame(&mut self, filter: UIFilter)
        ensures
            final(self).data.next_frame_filters.post@ == old(
                self,
            ).data.next_frame_filters.post@.push(filter),
            final(self).data.next_frame_filters.pre@ == old(self).data.next_frame_filters.pre@,
            final(self).data.widget_id == old(self).data.widget_id,
            final(self).data.max_area == old(self).data.max_area,
            final(self).data.next_state_id == old(self).data.next_state_id,
            final(self).data.prev_state_cache == old(self).data.prev_state_cache,
            final(self).data.children == old(self).data.children,
            final(self).wip == old(self).wip,
            final(self).roots == old(self).roots,
    {
        self.data.next_frame_filters.filter_post(filter);
    }

    /// Allocate the next positional state slot of this frame.
    pub fn new_state<T: StateT>(&mut self) -> (s: State<T>)
        requires
            old(self).data.next_state_id.slot < u32::MAX,
        ensures
            s.id == old(self).data.next_state_id,
            final(self).data.next_state_id == (StateId {
                frame_id: old(self).data.next_state_id.frame_id,
                slot: (old(self).data.next_state_id.slot + 1) as u32,
            }),
            final(self).data.widget_id == old(self).data.widget_id,
            final(self).data.max_area == old(self).data.max_area,
            final(self).data.prev_state_cache == old(self).data.prev_state_cache,
            final(self).data.next_frame_filters == old(self).data.next_frame_filters,
            final(self).data.children == old(self).data.children,
            final(self).wip == old(self).wip,
            final(self).roots == old(self).roots,
    {
        let id = self.data.next_state_id.increment();
        State::new(id)
    }

    /// Read a slot allocated exactly one frame ago from the previous frame's
    /// cache; a slot never written reads as the type's default.
    pub fn read_state<T: StateT>(&self, state: State<T>) -> (r: T)
        requires
            state.id.frame_id + 1 == self.data.next_state_id.frame_id,
            self.data.prev_state_cache@.contains_key(state.id) ==> T::fits(
                self.data.prev_state_cache@[state.id],
            ),
        ensures
            self.data.prev_state_cache@.contains_key(state.id) ==> r.value_of()
                == self.data.prev_state_cache@[state.id],
            !self.data.prev_state_cache@.contains_key(state.id) ==> r == T::default_spec(),
    {
        read_cached(&self.data.prev_state_cache, self.data.next_state_id.frame_id, &state)
    }
}

fn anchors_equal(a: &Anchor, b: &Anchor) -> (r: bool)
    ensures
        r == (a == b),
{
    a.0 == b.0
}

/// Splitting by target commutes with extending the processed prefix by one.
proof fn lemma_target_split_step(all: Seq<TreeNode>, done: int, name: Anchor)
    requires
        0 <= done < all.len(),
    ensures
        all[done].target == name ==> nodes_with_target(all.subrange(0, done + 1), name)
            == nodes_with_target(all.subrange(0, done), name).push(all[done]),
        all[done].target != name ==> nodes_with_target(all.subrange(0, done + 1), name)
            == nodes_with_target(all.subrange(0, done), name),
        all[done].target != name ==> nodes_without_target(all.subrange(0, done + 1), name)
            == nodes_without_target(all.subrange(0, done), name).push(all[done]),
        all[done].target == name ==> nodes_without_target(all.subrange(0, done + 1), name)
            == nodes_without_target(all.subrange(0, done), name),
{
    lemma_with_concat(all.subrange(0, done), seq![all[done]], name);
    lemma_without_concat(all.subrange(0, done), seq![all[done]], name);
    assert(all.subrange(0, done + 1) =~= all.subrange(0, done) + seq![all[done]]);
    assert(seq![all[done]].subrange(1, 1) =~= Seq::<TreeNode>::empty());
    assert(nodes_with_target(Seq::<TreeNode>::empty(), name) == Seq::<TreeNode>::empty());
    assert(nodes_without_target(Seq::<TreeNode>::empty(), name) == Seq::<TreeNode>::empty());
    assert(seq![all[done]][0] == all[done]);
    if all[done].target == name {
        assert(nodes_with_target(seq![all[done]], name)
            =~= seq![all[done]] + Seq::<TreeNode>::empty());
        assert(nodes_with_target(all.subrange(0, done), name) + seq![all[done]]
            =~= nodes_with_target(all.subrange(0, done), name).push(all[done]));
        assert(nodes_without_target(seq![all[done]], name) =~= Seq::<TreeNode>::empty());
        assert(nodes_without_target(all.subrange(0, done), name) + Seq::<TreeNode>::empty()
            =~= nodes_without_target(all.subrange(0, done), name));
    } else {
        assert(nodes_without_target(seq![all[done]], name)
            =~= seq![all[done]] + Seq::<TreeNode>::empty());
        assert(nodes_without_target(all.subrange(0, done), name) + seq![all[done]]
            =~= nodes_without_target(all.subrange(0, done), name).push(all[done]));
        assert(nodes_with_target(seq![all[done]], name) =~= Seq::<TreeNode>::empty());
        assert(nodes_with_target(all.subrange(0, done), name) + Seq::<TreeNode>::empty()
            =~= nodes_with_target(all.subrange(0, done), name));
    }
}

proof fn lemma_with_concat(a: Seq<TreeNode>, b: Seq<TreeNode>, name: Anchor)
    ensures
        nodes_with_target(a + b, name) == nodes_with_target(a, name) + nodes_with_target(b, name),
    decreases a,
{
    if a.len() == 0 {
        assert(a + b =~= b);
        assert(nodes_with_target(a, name) + nodes_with_target(b, name)
            =~= nodes_with_target(b, name));
    } else {
        let rest = a.subrange(1, a.len() as int);
        lemma_with_concat(rest, b, name);
        assert((a + b).subrange(1, (a + b).len() as int) =~= rest + b);
        assert((a + b)[0] == a[0]);
        let head = if a[0].target == name {
            seq![a[0]]
        } else {
            Seq::<TreeNode>::empty()
        };
        assert(nodes_with_target(a + b, name)
            == head + (nodes_with_target(rest, name) + nodes_with_target(b, name)));
        assert(head + (nodes_with_target(rest, name) + nodes_with_target(b, name))
            =~= (head + nodes_with_target(rest, name)) + nodes_with_target(b, name));
    }
}

proof fn lemma_without_concat(a: Seq<TreeNode>, b: Seq<TreeNode>, name: Anchor)
    ensures
        nodes_without_target(a + b, name) == nodes_without_target(a, name) + nodes_without_target(
            b,
            name,
        ),
    decreases a,
{
    if a.len() == 0 {
        assert(a + b =~= b);
        assert(nodes_without_target(a, name) + nodes_without_target(b, name)
            =~= nodes_without_target(b, name));
    } else {
        let rest = a.subrange(1, a.len() as int);
        lemma_without_concat(rest, b, name);
        assert((a + b).subrange(1, (a + b).len() as int) =~= rest + b);
        assert((a + b)[0] == a[0]);
        let head = if a[0].target != name {
            seq![a[0]]
        } else {
            Seq::<TreeNode>::empty()
        };
        assert(nodes_without_target(a + b, name)
            == head + (nodes_without_target(rest, name) + nodes_without_target(b, name)));
        assert(head + (nodes_without_target(rest, name) + nodes_without_target(b, name))
            =~= (head + nodes_without_target(rest, name)) + nodes_without_target(b, name));
    }
}

} // verus!
