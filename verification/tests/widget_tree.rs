//! The flat widget-tree builder, archetypes, and primitive elements.

use ui_compose::space::Area;
use ui_compose::render::{RGBA8, HoverState};
use ui_compose::layout::Layout;
use ui_compose::element::{Builder, Element, ElementKind, Id, SocketName};
use ui_compose::children::{Children, ElementNode};
use ui_compose::context::{Context as CoreContext, GlobalData};
use ui_compose::state::{State, StateCache, StateId};
use ui_compose::filter::UIFilter;
use ui_compose::widgets::{
    Anchor, Context, ContextData, TreeNode, TreeNodeKind, UIRender, UISocket, UIWidget,
};
use ui_compose::wrap::{Wrap, WrapImpl};
use ui_compose::panel::{panel, ColumnPanel};
use ui_compose::fill::SolidFill;
use ui_compose::hover::Hover;

fn area(width: u32, height: u32) -> Area {
    Area { width, height }
}

fn red() -> RGBA8 {
    RGBA8 { r: 255, g: 0, b: 0, a: 255 }
}

fn data_with_children(children: Vec<TreeNode>) -> ContextData {
    ContextData::new(Id(1), area(100, 100), StateId::new(1, 0), StateCache::new(), children)
}

fn child_on(target: Anchor, token: u64) -> TreeNode {
    TreeNode { kind: TreeNodeKind::Widget(UIWidget { token }), target, children: Vec::new() }
}

fn widget_token(node: &TreeNode) -> u64 {
    match &node.kind {
        TreeNodeKind::Widget(w) => w.token,
        _ => panic!("expected a widget node"),
    }
}

#[test]
fn widget_begin_end_builds_one_node() {
    let mut ctx = Context::new(data_with_children(Vec::new()));
    ctx.widget_begin(UIWidget { token: 5 });
    ctx.render_new(area(3, 3), Layout::Empty);
    ctx.end();
    assert_eq!(ctx.wip.len(), 0);
    assert_eq!(ctx.roots.len(), 1);
    assert_eq!(widget_token(&ctx.roots[0]), 5);
    assert_eq!(ctx.roots[0].children.len(), 1);
    match &ctx.roots[0].children[0].kind {
        TreeNodeKind::Render(r) => assert_eq!(r.min_area, area(3, 3)),
        _ => panic!("expected a render leaf"),
    }
}

#[test]
fn nested_widgets_adopt_inner_roots() {
    let mut ctx = Context::new(data_with_children(Vec::new()));
    ctx.widget_begin(UIWidget { token: 1 });
    ctx.widget_into_begin(Anchor(9), UIWidget { token: 2 });
    ctx.end();
    ctx.end();
    assert_eq!(ctx.roots.len(), 1);
    let outer = &ctx.roots[0];
    assert_eq!(widget_token(outer), 1);
    assert_eq!(outer.children.len(), 1);
    assert_eq!(widget_token(&outer.children[0]), 2);
    assert_eq!(outer.children[0].target, Anchor(9));
}

#[test]
fn siblings_survive_a_nested_build() {
    let mut ctx = Context::new(data_with_children(Vec::new()));
    ctx.render_new(area(1, 1), Layout::Empty);
    ctx.widget_begin(UIWidget { token: 2 });
    ctx.end();
    assert_eq!(ctx.roots.len(), 2);
    match &ctx.roots[0].kind {
        TreeNodeKind::Render(_) => {},
        _ => panic!("expected the render leaf first"),
    }
    assert_eq!(widget_token(&ctx.roots[1]), 2);
}

#[test]
fn socket_and_filter_nodes_stage_on_the_stack() {
    let mut ctx = Context::new(data_with_children(Vec::new()));
    ctx.socket_begin(UISocket { token: 3 });
    ctx.end();
    ctx.filter_pre_begin(UIFilter { token: 4 });
    ctx.end();
    ctx.filter_post_into_begin(UIFilter { token: 5 }, Anchor(2));
    ctx.end();
    assert_eq!(ctx.roots.len(), 3);
    assert!(matches!(ctx.roots[0].kind, TreeNodeKind::Socket(UISocket { token: 3 })));
    assert!(matches!(ctx.roots[1].kind, TreeNodeKind::PreFilter(UIFilter { token: 4 })));
    assert!(matches!(ctx.roots[2].kind, TreeNodeKind::PostFilter(UIFilter { token: 5 })));
    assert_eq!(ctx.roots[2].target, Anchor(2));
}

#[test]
fn children_all_adopts_everything() {
    let handed = vec![child_on(Anchor(1), 10), child_on(Anchor(2), 20)];
    let mut ctx = Context::new(data_with_children(handed));
    ctx.children_all();
    assert_eq!(ctx.roots.len(), 2);
    assert_eq!(ctx.data.children.len(), 0);
    assert_eq!(widget_token(&ctx.roots[0]), 10);
    assert_eq!(widget_token(&ctx.roots[1]), 20);
}

#[test]
fn children_into_filters_by_anchor() {
    let handed = vec![
        child_on(Anchor(1), 10),
        child_on(Anchor(2), 20),
        child_on(Anchor(1), 30),
    ];
    let mut ctx = Context::new(data_with_children(handed));
    ctx.children_into(Anchor(1));
    assert_eq!(ctx.roots.len(), 2);
    assert_eq!(widget_token(&ctx.roots[0]), 10);
    assert_eq!(widget_token(&ctx.roots[1]), 30);
    assert_eq!(ctx.data.children.len(), 1);
    assert_eq!(widget_token(&ctx.data.children[0]), 20);
}

#[test]
fn next_frame_filters_accumulate() {
    let mut ctx = Context::new(data_with_children(Vec::new()));
    ctx.filter_pre_next_frame(UIFilter { token: 1 });
    ctx.filter_post_next_frame(UIFilter { token: 2 });
    ctx.filter_pre_next_frame(UIFilter { token: 3 });
    assert_eq!(ctx.data.next_frame_filters.pre.len(), 2);
    assert_eq!(ctx.data.next_frame_filters.post.len(), 1);
    assert_eq!(ctx.data.next_frame_filters.pre[0], UIFilter { token: 1 });
    assert_eq!(ctx.data.next_frame_filters.pre[1], UIFilter { token: 3 });
}

#[test]
fn widget_context_state_round_trip() {
    let mut ctx = Context::new(data_with_children(Vec::new()));
    let s: State<u64> = ctx.new_state();
    assert_eq!(s.id, StateId::new(1, 0));
    let mut cache = StateCache::new();
    cache.write(s.id, 31u64);
    let data2 = ContextData::new(Id(1), area(100, 100), StateId::new(2, 0), cache, Vec::new());
    let ctx2 = Context::new(data2);
    let r: u64 = ctx2.read_state(State::new(StateId::new(1, 0)));
    assert_eq!(r, 31);
}

#[test]
fn await_sockets_accepts_a_balanced_build() {
    let mut ctx = Context::new(data_with_children(Vec::new()));
    ctx.widget_begin(UIWidget { token: 1 });
    ctx.end();
    ctx.await_sockets();
}

#[test]
fn local_starts_a_fresh_level() {
    let mut ctx = Context::new(data_with_children(Vec::new()));
    ctx.render_new(area(1, 1), Layout::Empty);
    assert_eq!(ctx.widget_id(), Id(1));
    assert_eq!(ctx.max_area(), area(100, 100));
    let inner = ctx.local();
    assert_eq!(inner.roots.len(), 0);
    assert_eq!(inner.wip.len(), 0);
    assert_eq!(inner.data.widget_id, Id(1));
}

#[test]
fn render_into_targets_an_anchor() {
    let mut ctx = Context::new(data_with_children(Vec::new()));
    ctx.render_into(Anchor(7), UIRender { min_area: area(2, 2), imp: Layout::Empty });
    assert_eq!(ctx.roots.len(), 1);
    assert_eq!(ctx.roots[0].target, Anchor(7));
    assert!(ctx.roots[0].children.is_empty());
}

fn fresh_core_ctx(children: Children) -> CoreContext {
    CoreContext::new(
        area(100, 100),
        children,
        StateCache::new(),
        GlobalData::new(StateId::new(1, 0)),
    )
}

#[test]
fn wrap_composes_its_single_child() {
    let mut ch = Children::new();
    ch.push_back(SocketName(0), ElementNode::new(Id(2), ElementKind::Block(area(6, 6), red())));
    let mut ctx = fresh_core_ctx(ch);
    let wrapper = Wrap(SolidFill::new(red()));
    let node = wrapper.run(&mut ctx);
    assert_eq!(node.min_area, area(6, 6));
    match &node.layout {
        Layout::Overlay(parts) => {
            assert_eq!(parts.len(), 2);
            assert!(matches!(parts[0], Layout::Colored(_)));
        },
        _ => panic!("expected the fill overlay"),
    }
}

#[test]
fn wrap_without_child_closes_none() {
    let mut ctx = fresh_core_ctx(Children::new());
    let node = SolidFill::new(red()).close_none();
    assert_eq!(node.min_area, Area::zero());
    let wrapped = Wrap(SolidFill::new(red())).run(&mut ctx);
    assert_eq!(wrapped.min_area, Area::zero());
    assert!(matches!(wrapped.layout, Layout::Colored(_)));
}

#[test]
fn panel_stacks_default_socket() {
    let mut ch = Children::new();
    ch.push_back(SocketName(0), ElementNode::new(Id(2), ElementKind::Block(area(10, 10), red())));
    ch.push_back(SocketName(0), ElementNode::new(Id(3), ElementKind::Block(area(20, 5), red())));
    let mut ctx = fresh_core_ctx(ch);
    let node = panel(&ColumnPanel, &mut ctx);
    assert_eq!(node.min_area, area(20, 15));
    match &node.layout {
        Layout::Stack(kids) => assert_eq!(kids.len(), 2),
        _ => panic!("expected a stack"),
    }
}

#[test]
fn primitives_name_their_kinds() {
    let fill = SolidFill::new(red());
    assert_eq!(fill.kind(), ElementKind::Fill(red()));
    let hover = Hover::new(HoverState { token: 8 });
    assert_eq!(hover.kind(), ElementKind::Hover(HoverState { token: 8 }));
    assert_eq!(().kind(), ElementKind::Null);
}

#[test]
fn layout_constructors_on_context() {
    let ctx = fresh_core_ctx(Children::new());
    assert_eq!(ctx.max_area(), area(100, 100));
    let null = ctx.new_layout_null();
    assert_eq!(null.min_area, Area::zero());
    assert!(matches!(null.layout, Layout::Empty));
    let n = ctx.new_layout(area(3, 4), Layout::Colored(red()));
    assert_eq!(n.min_area, area(3, 4));
    let handle = ctx.buffer().place(7u32);
    assert_eq!(*handle, 7);
}

#[test]
fn core_next_frame_filters_accumulate() {
    let mut ctx = fresh_core_ctx(Children::new());
    ctx.next_frame_pre_filter(UIFilter { token: 1 });
    ctx.next_frame_post_filter(UIFilter { token: 2 });
    assert_eq!(ctx.global_data.next_frame_filters.pre.len(), 1);
    assert_eq!(ctx.global_data.next_frame_filters.pre[0], UIFilter { token: 1 });
    assert_eq!(ctx.global_data.next_frame_filters.post.len(), 1);
    assert_eq!(ctx.global_data.next_frame_filters.post[0], UIFilter { token: 2 });
}

#[test]
fn builder_carries_its_element() {
    let b = Builder { id: Id(3), socket: SocketName(1), e: SolidFill::new(red()) };
    assert_eq!(b.id, Id(3));
    assert_eq!(b.socket, SocketName(1));
    assert_eq!(b.e.kind(), ElementKind::Fill(red()));
}

#[test]
fn hover_builder_carries_its_parts() {
    let b = Hover::build(Id(4), HoverState { token: 6 });
    assert_eq!(b.get_id(), Id(4));
    assert_eq!(b.get_socket(), SocketName::default());
    let h = b.get_element();
    assert_eq!(h.state.token, 6);
}

#[test]
fn hover_builder_begins_on_its_socket() {
    let ctx = fresh_core_ctx(Children::new());
    let mut sub = ctx.open_element(area(100, 100), Id(1), ElementKind::Column(SocketName(0)));
    Hover::build(Id(4), HoverState { token: 6 }).begin(&mut sub);
    sub.end();
    let (root, _ctx) = sub.close();
    match &root.layout {
        Layout::Stack(kids) => {
            assert_eq!(kids.len(), 1);
            assert!(matches!(kids[0].layout, Layout::HoverZone(HoverState { token: 6 })));
        },
        _ => panic!("expected a stack"),
    }
}
