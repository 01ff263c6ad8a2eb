//! The deferred-render interpreter and the command list.

use ui_compose::space::{Area, Point, Region};
use ui_compose::render::{RGBA8, HoverState, Quad, ColoredQuad, CommandList};
use ui_compose::layout::{Layout, LayoutNode, LinkedBuffer, stack_area_of};

fn area(width: u32, height: u32) -> Area {
    Area { width, height }
}

fn region(x: u32, y: u32, width: u32, height: u32) -> Region {
    Region { pos: Point { x, y }, area: area(width, height) }
}

fn red() -> RGBA8 {
    RGBA8 { r: 255, g: 0, b: 0, a: 255 }
}

fn blue() -> RGBA8 {
    RGBA8 { r: 0, g: 0, b: 255, a: 255 }
}

#[test]
fn quad_from_region() {
    let q = Quad::from(region(1, 2, 3, 4));
    assert_eq!(q, Quad { x: 1, y: 2, width: 3, height: 4 });
    assert_eq!(Quad::new(9, 8, 7, 6), Quad { x: 9, y: 8, width: 7, height: 6 });
}

#[test]
fn command_list_accumulates() {
    let mut cmds = CommandList::new();
    let a = ColoredQuad::new(Quad::new(0, 0, 1, 1), red());
    let b = ColoredQuad::new(Quad::new(1, 1, 2, 2), blue());
    cmds.add_colored_quads(&[a]);
    cmds.add_colored_quads(&[b]);
    let quads = cmds.get_colored_quads();
    assert_eq!(quads.len(), 2);
    assert_eq!(quads[0], a);
    assert_eq!(quads[1], b);
    assert!(cmds.get_hover_quads().is_empty());
}

#[test]
fn empty_layout_emits_nothing() {
    let mut cmds = CommandList::new();
    Layout::Empty.render(region(0, 0, 10, 10), &mut cmds);
    assert!(cmds.get_colored_quads().is_empty());
    assert!(cmds.get_hover_quads().is_empty());
}

#[test]
fn colored_layout_covers_region() {
    let mut cmds = CommandList::new();
    Layout::Colored(red()).render(region(5, 6, 7, 8), &mut cmds);
    let quads = cmds.get_colored_quads();
    assert_eq!(quads.len(), 1);
    assert_eq!(quads[0].quad, Quad { x: 5, y: 6, width: 7, height: 8 });
    assert_eq!(quads[0].color, red());
}

#[test]
fn hover_layout_marks_region() {
    let mut cmds = CommandList::new();
    Layout::HoverZone(HoverState { token: 9 }).render(region(1, 1, 4, 4), &mut cmds);
    let quads = cmds.get_hover_quads();
    assert_eq!(quads.len(), 1);
    assert_eq!(quads[0].quad, Quad { x: 1, y: 1, width: 4, height: 4 });
    assert_eq!(quads[0].state.token, 9);
}

#[test]
fn overlay_renders_in_order_same_region() {
    let mut cmds = CommandList::new();
    let layout = Layout::Overlay(vec![Layout::Colored(red()), Layout::Colored(blue())]);
    layout.render(region(2, 2, 5, 5), &mut cmds);
    let quads = cmds.get_colored_quads();
    assert_eq!(quads.len(), 2);
    assert_eq!(quads[0].color, red());
    assert_eq!(quads[1].color, blue());
    assert_eq!(quads[0].quad, quads[1].quad);
}

#[test]
fn stack_places_children_top_to_bottom() {
    let kids = vec![
        LayoutNode { min_area: area(10, 10), layout: Layout::Colored(red()) },
        LayoutNode { min_area: area(20, 5), layout: Layout::Colored(blue()) },
    ];
    let node = LayoutNode { min_area: area(20, 15), layout: Layout::Stack(kids) };
    let mut cmds = CommandList::new();
    node.render(region(3, 4, 100, 100), &mut cmds);
    let quads = cmds.get_colored_quads();
    assert_eq!(quads.len(), 2);
    assert_eq!(quads[0].quad, Quad { x: 3, y: 4, width: 10, height: 10 });
    assert_eq!(quads[1].quad, Quad { x: 3, y: 14, width: 20, height: 5 });
}

#[test]
fn stack_cursor_saturates() {
    let kids = vec![
        LayoutNode { min_area: area(1, u32::MAX - 3), layout: Layout::Colored(red()) },
        LayoutNode { min_area: area(1, 10), layout: Layout::Colored(blue()) },
    ];
    let node = LayoutNode { min_area: area(1, u32::MAX), layout: Layout::Stack(kids) };
    let mut cmds = CommandList::new();
    node.render(region(0, 5, 10, 10), &mut cmds);
    let quads = cmds.get_colored_quads();
    assert_eq!(quads.len(), 2);
    assert_eq!(quads[0].quad.y, 5);
    // 5 + (u32::MAX - 3) overflows, so the cursor pins at the maximum
    assert_eq!(quads[1].quad.y, u32::MAX);
}

#[test]
fn stack_area_is_max_width_and_summed_height() {
    let kids = vec![
        LayoutNode { min_area: area(10, 10), layout: Layout::Empty },
        LayoutNode { min_area: area(20, 5), layout: Layout::Empty },
        LayoutNode { min_area: area(4, 7), layout: Layout::Empty },
    ];
    assert_eq!(stack_area_of(&kids), area(20, 22));
    let empty: Vec<LayoutNode> = Vec::new();
    assert_eq!(stack_area_of(&empty), Area::zero());
}

#[test]
fn stack_area_height_saturates() {
    let kids = vec![
        LayoutNode { min_area: area(1, u32::MAX - 1), layout: Layout::Empty },
        LayoutNode { min_area: area(2, 10), layout: Layout::Empty },
    ];
    assert_eq!(stack_area_of(&kids), area(2, u32::MAX));
}

#[test]
fn buffer_places_owned_values() {
    let buffer = LinkedBuffer::new();
    let handle = buffer.place(41u64);
    assert_eq!(*handle, 41);
}
