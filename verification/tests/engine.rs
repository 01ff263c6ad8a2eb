//! Builder-stack and socket-routing behaviour of the engine.

use ui_compose::space::{Area, Point, Region};
use ui_compose::render::{RGBA8, HoverState, Quad, CommandList};
use ui_compose::layout::{Layout, LayoutNode};
use ui_compose::element::{Element, ElementExt, ElementKind, Id, SocketName};
use ui_compose::children::{Children, ElementNode};
use ui_compose::context::{Context, GlobalData, BoundedSocket};
use ui_compose::state::{StateCache, StateId};
use ui_compose::error::UiError;

fn area(width: u32, height: u32) -> Area {
    Area { width, height }
}

fn red() -> RGBA8 {
    RGBA8 { r: 255, g: 0, b: 0, a: 255 }
}

fn blue() -> RGBA8 {
    RGBA8 { r: 0, g: 0, b: 255, a: 255 }
}

fn fresh_ctx(children: Children) -> Context {
    Context::new(area(100, 100), children, StateCache::new(), GlobalData::new(StateId::new(1, 0)))
}

fn hover_node(token: u64) -> ElementNode {
    ElementNode::new(Id(token), ElementKind::Hover(HoverState { token }))
}

fn hover_token(node: &LayoutNode) -> u64 {
    match &node.layout {
        Layout::HoverZone(h) => h.token,
        _ => panic!("expected a hover zone"),
    }
}

#[test]
fn balanced_begin_end_close_yields_one_root() {
    let ctx = fresh_ctx(Children::new());
    let mut sub = ctx.open_element(area(100, 100), Id(1), ElementKind::Column(SocketName(0)));
    sub.begin(SocketName(0), Id(2), ElementKind::Block(area(10, 10), red()));
    sub.end();
    sub.begin(SocketName(0), Id(3), ElementKind::Fill(blue()));
    sub.begin(SocketName(0), Id(4), ElementKind::Block(area(5, 5), red()));
    sub.end();
    sub.end();
    let (root, _ctx) = sub.close();
    match &root.layout {
        Layout::Stack(kids) => assert_eq!(kids.len(), 2),
        _ => panic!("expected a stack"),
    }
    assert_eq!(root.min_area, area(10, 15));
}

#[test]
fn close_implicitly_ends_open_nodes() {
    let ctx = fresh_ctx(Children::new());
    let mut sub = ctx.open_element(area(100, 100), Id(1), ElementKind::Column(SocketName(0)));
    sub.begin(SocketName(0), Id(2), ElementKind::Block(area(7, 7), red()));
    // no end(): close unwinds the still-open node
    let (root, _ctx) = sub.close();
    match &root.layout {
        Layout::Stack(kids) => assert_eq!(kids.len(), 1),
        _ => panic!("expected a stack"),
    }
    assert_eq!(root.min_area, area(7, 7));
}

#[test]
fn extra_end_reports_stack_underflow() {
    let ctx = fresh_ctx(Children::new());
    let mut sub = ctx.open_element(area(100, 100), Id(1), ElementKind::Null);
    assert_eq!(sub.try_end(), Err(UiError::StackUnderflow));
    sub.begin(SocketName(0), Id(2), ElementKind::Null);
    assert_eq!(sub.try_end(), Ok(()));
    assert_eq!(sub.try_end(), Err(UiError::StackUnderflow));
}

#[test]
fn socket_drains_fifo() {
    let mut ch = Children::new();
    ch.push_back(SocketName(7), hover_node(1));
    ch.push_back(SocketName(7), hover_node(2));
    ch.push_back(SocketName(7), hover_node(3));
    let mut ctx = fresh_ctx(ch);
    let mut sink: Vec<LayoutNode> = Vec::new();
    ctx.open_socket(SocketName(7), area(50, 50), &mut sink);
    assert_eq!(sink.len(), 3);
    assert_eq!(hover_token(&sink[0]), 1);
    assert_eq!(hover_token(&sink[1]), 2);
    assert_eq!(hover_token(&sink[2]), 3);
}

#[test]
fn sockets_partition_children() {
    let mut ch = Children::new();
    ch.push_back(SocketName(1), hover_node(11));
    ch.push_back(SocketName(2), hover_node(90));
    ch.push_back(SocketName(1), hover_node(12));
    let mut ctx = fresh_ctx(ch);

    let mut sink_b: Vec<LayoutNode> = Vec::new();
    ctx.open_socket(SocketName(2), area(50, 50), &mut sink_b);
    assert_eq!(sink_b.len(), 1);
    assert_eq!(hover_token(&sink_b[0]), 90);

    // socket 1's queue is untouched by draining socket 2
    let mut sink_a: Vec<LayoutNode> = Vec::new();
    ctx.open_socket(SocketName(1), area(50, 50), &mut sink_a);
    assert_eq!(sink_a.len(), 2);
    assert_eq!(hover_token(&sink_a[0]), 11);
    assert_eq!(hover_token(&sink_a[1]), 12);
}

#[test]
fn zero_capacity_sink_drains_nothing() {
    let mut ch = Children::new();
    ch.push_back(SocketName(3), hover_node(1));
    ch.push_back(SocketName(3), hover_node(2));
    let mut ctx = fresh_ctx(ch);
    let mut sink = BoundedSocket::new(0);
    ctx.open_socket(SocketName(3), area(50, 50), &mut sink);
    assert!(sink.items.is_empty());
    // the children are still queued
    let mut rest: Vec<LayoutNode> = Vec::new();
    ctx.open_socket(SocketName(3), area(50, 50), &mut rest);
    assert_eq!(rest.len(), 2);
}

#[test]
fn bounded_sink_leaves_overflow_queued() {
    let mut ch = Children::new();
    ch.push_back(SocketName(3), hover_node(1));
    ch.push_back(SocketName(3), hover_node(2));
    ch.push_back(SocketName(3), hover_node(3));
    let mut ctx = fresh_ctx(ch);
    let mut sink = BoundedSocket::new(2);
    ctx.open_socket(SocketName(3), area(50, 50), &mut sink);
    assert_eq!(sink.items.len(), 2);
    assert_eq!(hover_token(&sink.items[0]), 1);
    assert_eq!(hover_token(&sink.items[1]), 2);
    let mut rest: Vec<LayoutNode> = Vec::new();
    ctx.open_socket(SocketName(3), area(50, 50), &mut rest);
    assert_eq!(rest.len(), 1);
    assert_eq!(hover_token(&rest[0]), 3);
}

#[test]
fn connect_socket_moves_whole_queue() {
    let from = SocketName(10);
    let to = SocketName(11);
    let mut ch = Children::new();
    ch.push_back(from, ElementNode::new(Id(2), ElementKind::Block(area(10, 10), red())));
    ch.push_back(from, ElementNode::new(Id(3), ElementKind::Block(area(20, 5), blue())));
    let ctx = fresh_ctx(ch);
    let mut sub = ctx.open_element(area(100, 100), Id(1), ElementKind::Column(to));
    sub.connect_socket(to, from);
    let (root, mut ctx) = sub.close();
    match &root.layout {
        Layout::Stack(kids) => {
            assert_eq!(kids.len(), 2);
            assert_eq!(kids[0].min_area, area(10, 10));
            assert_eq!(kids[1].min_area, area(20, 5));
        },
        _ => panic!("expected a stack"),
    }
    // the source socket is now empty
    let mut sink: Vec<LayoutNode> = Vec::new();
    ctx.open_socket(from, area(100, 100), &mut sink);
    assert!(sink.is_empty());
}

#[test]
fn connect_all_sockets_keeps_names() {
    let mut ch = Children::new();
    ch.push_back(SocketName(5), hover_node(1));
    ch.push_back(SocketName(6), hover_node(2));
    let ctx = fresh_ctx(ch);
    // the root drains socket 6; connect_all re-routes both queues verbatim
    let mut sub = ctx.open_element(area(100, 100), Id(1), ElementKind::Column(SocketName(6)));
    sub.connect_all_sockets();
    let (root, _ctx) = sub.close();
    match &root.layout {
        Layout::Stack(kids) => {
            assert_eq!(kids.len(), 1);
            assert_eq!(hover_token(&kids[0]), 2);
        },
        _ => panic!("expected a stack"),
    }
}

#[test]
fn nested_begin_routes_into_inner_node() {
    let ctx = fresh_ctx(Children::new());
    let mut sub = ctx.open_element(area(100, 100), Id(1), ElementKind::Column(SocketName(0)));
    // a fill whose own default socket holds a block
    sub.begin(SocketName(0), Id(2), ElementKind::Fill(red()));
    sub.begin(SocketName(0), Id(3), ElementKind::Block(area(4, 6), blue()));
    sub.end();
    sub.end();
    let (root, _ctx) = sub.close();
    assert_eq!(root.min_area, area(4, 6));
    match &root.layout {
        Layout::Stack(kids) => {
            assert_eq!(kids.len(), 1);
            match &kids[0].layout {
                Layout::Overlay(parts) => assert_eq!(parts.len(), 2),
                _ => panic!("expected the fill overlay"),
            }
        },
        _ => panic!("expected a stack"),
    }
}

#[test]
fn element_ext_begin_stages_like_begin() {
    let ctx = fresh_ctx(Children::new());
    let mut sub = ctx.open_element(area(100, 100), Id(1), ElementKind::Column(SocketName(0)));
    ElementExt::begin(ElementKind::Block(area(2, 3), red()), &mut sub, SocketName(0), Id(2));
    sub.end();
    let (root, _ctx) = sub.close();
    assert_eq!(root.min_area, area(2, 3));
}

#[test]
fn run_element_trait_consumes_children() {
    let mut ch = Children::new();
    ch.push_back(SocketName(0), ElementNode::new(Id(2), ElementKind::Block(area(8, 9), red())));
    let mut ctx = fresh_ctx(ch);
    let fill = ui_compose::fill::SolidFill::new(blue());
    let node = fill.run(&mut ctx, Id(1));
    assert_eq!(node.min_area, area(8, 9));
    match &node.layout {
        Layout::Overlay(parts) => assert_eq!(parts.len(), 2),
        _ => panic!("expected the fill overlay"),
    }
}

#[test]
fn end_to_end_two_items_render_in_insertion_order() {
    let items = SocketName(42);
    let ctx = fresh_ctx(Children::new());
    let mut sub = ctx.open_element(area(100, 100), Id(1), ElementKind::Column(items));
    sub.begin(items, Id(2), ElementKind::Block(area(10, 10), red()));
    sub.end();
    sub.begin(items, Id(3), ElementKind::Block(area(20, 5), blue()));
    sub.end();
    let (root, _ctx) = sub.close();
    assert_eq!(root.min_area, area(20, 15));

    let mut cmds = CommandList::new();
    root.render(Region { pos: Point { x: 3, y: 4 }, area: area(100, 100) }, &mut cmds);
    let quads = cmds.get_colored_quads();
    assert_eq!(quads.len(), 2);
    assert_eq!(quads[0].quad, Quad { x: 3, y: 4, width: 10, height: 10 });
    assert_eq!(quads[0].color, red());
    assert_eq!(quads[1].quad, Quad { x: 3, y: 14, width: 20, height: 5 });
    assert_eq!(quads[1].color, blue());
}
