//! Deferred layout nodes.
//!
//! Running an element yields a `LayoutNode`: a declared minimum area plus a
//! deferred description of what to draw once the layout pass assigns a
//! concrete region. The description is a `Layout` tree; `Layout::render`
//! interprets it against a region, appending draw commands to a
//! `CommandList`.
//!
//! The mathematical model of a node is `LayoutV`/`PlanV`, built over `Seq` so
//! specifications can construct and decompose it freely; `render_spec` defines
//! exactly which commands a plan emits for a region.

use vstd::prelude::*;
use crate::space::{Area, Point, Region, sat_add, sat_add_u32, max_of, max_u32};
use crate::render::{RGBA8, HoverState, Quad, ColoredQuad, HoverQuad, CommandList};

verus! {

/// A deferred drawing description, interpreted once a region is known.
pub enum Layout {
    /// Draw nothing.
    Empty,
    /// Fill the assigned region with one color.
    Colored(RGBA8),
    /// Mark the assigned region as a hover boundary.
    HoverZone(HoverState),
    /// Draw each part in the same assigned region, in order.
    Overlay(Vec<Layout>),
    /// Place the children top-to-bottom starting at the region's origin, each
    /// sized to its own minimum area.
    Stack(Vec<LayoutNode>),
}

/// An element's output: a minimum area plus its deferred drawing.
pub struct LayoutNode {
    pub min_area: Area,
    pub layout: Layout,
}

/// Model of a `Layout`.
pub enum PlanV {
    Empty,
    Colored(RGBA8),
    HoverZone(HoverState),
    Overlay(Seq<PlanV>),
    Stack(Seq<LayoutV>),
}

/// Model of a `LayoutNode`.
pub struct LayoutV {
    pub min_area: Area,
    pub plan: PlanV,
}

pub open spec fn plan_view(l: Layout) -> PlanV
    decreases l,
{
    match l {
        Layout::Empty => PlanV::Empty,
        Layout::Colored(c) => PlanV::Colored(c),
        Layout::HoverZone(h) => PlanV::HoverZone(h),
        Layout::Overlay(parts) => PlanV::Overlay(plans_view(parts@)),
        Layout::Stack(kids) => PlanV::Stack(nodes_view(kids@)),
    }
}

pub open spec fn plans_view(s: Seq<Layout>) -> Seq<PlanV>
    decreases s,
{
    if s.len() == 0 {
        Seq::empty()
    } else {
        seq![plan_view(s[0])] + plans_view(s.subrange(1, s.len() as int))
    }
}

pub open spec fn nodes_view(s: Seq<LayoutNode>) -> Seq<LayoutV>
    decreases s,
{
    if s.len() == 0 {
        Seq::empty()
    } else {
        seq![node_layout_view(s[0])] + nodes_view(s.subrange(1, s.len() as int))
    }
}

pub open spec fn node_layout_view(n: LayoutNode) -> LayoutV
    decreases n,
{
    LayoutV { min_area: n.min_area, plan: plan_view(n.layout) }
}

impl View for Layout {
    type V = PlanV;

    open spec fn view(&self) -> PlanV {
        plan_view(*self)
    }
}

impl View for LayoutNode {
    type V = LayoutV;

    open spec fn view(&self) -> LayoutV {
        node_layout_view(*self)
    }
}

pub broadcast proof fn lemma_plans_view_len(s: Seq<Layout>)
    ensures
        #[trigger] plans_view(s).len() == s.len(),
        forall|i: int| 0 <= i < s.len() ==> plans_view(s)[i] == plan_view(s[i]),
    decreases s,
{
    if s.len() > 0 {
        lemma_plans_view_len(s.subrange(1, s.len() as int));
    }
}

pub broadcast proof fn lemma_nodes_view_len(s: Seq<LayoutNode>)
    ensures
        #[trigger] nodes_view(s).len() == s.len(),
        forall|i: int| 0 <= i < s.len() ==> nodes_view(s)[i] == node_layout_view(s[i]),
    decreases s,
{
    if s.len() > 0 {
        lemma_nodes_view_len(s.subrange(1, s.len() as int));
    }
}

pub proof fn lemma_nodes_view_push(s: Seq<LayoutNode>, n: LayoutNode)
    ensures
        nodes_view(s.push(n)) == nodes_view(s).push(node_layout_view(n)),
{
    lemma_nodes_view_len(s.push(n));
    lemma_nodes_view_len(s);
    assert(nodes_view(s.push(n)) =~= nodes_view(s).push(node_layout_view(n)));
}

/// The commands one render pass appends: colored quads and hover quads.
pub struct RenderOut {
    pub colored: Seq<ColoredQuad>,
    pub hover: Seq<HoverQuad>,
}

impl RenderOut {
    pub open spec fn empty() -> RenderOut {
        RenderOut { colored: Seq::empty(), hover: Seq::empty() }
    }

    pub open spec fn concat(self, other: RenderOut) -> RenderOut {
        RenderOut { colored: self.colored + other.colored, hover: self.hover + other.hover }
    }
}

/// Exactly the commands a plan emits for a region.
pub open spec fn render_spec(p: PlanV, region: Region) -> RenderOut
    decreases p, 0nat,
{
    match p {
        PlanV::Empty => RenderOut::empty(),
        PlanV::Colored(c) => RenderOut {
            colored: seq![ColoredQuad { quad: Quad::of_region_spec(region), color: c }],
            hover: Seq::empty(),
        },
        PlanV::HoverZone(h) => RenderOut {
            colored: Seq::empty(),
            hover: seq![HoverQuad { quad: Quad::of_region_spec(region), state: h }],
        },
        PlanV::Overlay(parts) => render_overlay_spec(parts, region),
        PlanV::Stack(kids) => render_stack_spec(kids, region.pos.x, region.pos.y),
    }
}

pub open spec fn render_overlay_spec(parts: Seq<PlanV>, region: Region) -> RenderOut
    decreases parts, 1nat,
{
    if parts.len() == 0 {
        RenderOut::empty()
    } else {
        render_spec(parts[0], region).concat(
            render_overlay_spec(parts.subrange(1, parts.len() as int), region),
        )
    }
}

/// Stacked children each get a region at the running y cursor, sized to their
/// own minimum area; the cursor advances by the child's height, saturating.
pub open spec fn render_stack_spec(kids: Seq<LayoutV>, x: u32, y: u32) -> RenderOut
    decreases kids, 1nat,
{
    if kids.len() == 0 {
        RenderOut::empty()
    } else {
        let r0 = Region { pos: Point { x, y }, area: kids[0].min_area };
        render_spec(kids[0].plan, r0).concat(
            render_stack_spec(
                kids.subrange(1, kids.len() as int),
                x,
                sat_add(y, kids[0].min_area.height),
            ),
        )
    }
}

impl Layout {
    /// Interpret the deferred drawing for a concrete region, appending the
    /// emitted commands to `cmds`.
    pub fn render(&self, region: Region, cmds: &mut CommandList)
        ensures
            final(cmds).colored_quads@
                == old(cmds).colored_quads@ + render_spec(plan_view(*self), region).colored,
            final(cmds).hover_quads@
                == old(cmds).hover_quads@ + render_spec(plan_view(*self), region).hover,
        decreases *self, 0nat,
    {
        match self {
            Layout::Empty => {
                proof {
                    assert(old(cmds).colored_quads@ + Seq::<ColoredQuad>::empty()
                        == old(cmds).colored_quads@);
                    assert(old(cmds).hover_quads@ + Seq::<HoverQuad>::empty()
                        == old(cmds).hover_quads@);
                }
            },
            Layout::Colored(c) => {
                let q = ColoredQuad {
                    quad: Quad {
                        x: region.pos.x,
                        y: region.pos.y,
                        width: region.area.width,
                        height: region.area.height,
                    },
                    color: *c,
                };
                cmds.add_colored_quads(&[q]);
                proof {
                    assert(cmds.hover_quads@ + Seq::<HoverQuad>::empty() == cmds.hover_quads@);
                }
            },
            Layout::HoverZone(h) => {
                let q = HoverQuad {
                    quad: Quad {
                        x: region.pos.x,
                        y: region.pos.y,
                        width: region.area.width,
                        height: region.area.height,
                    },
                    state: *h,
                };
                cmds.add_hover_quads(&[q]);
                proof {
                    assert(cmds.colored_quads@ + Seq::<ColoredQuad>::empty()
                        == cmds.colored_quads@);
                }
            },
            Layout::Overlay(parts) => {
                proof {
                    lemma_plans_view_len(parts@);
                    assert(plans_view(parts@).subrange(0, parts@.len() as int)
                        =~= plans_view(parts@));
                }
                render_overlay_from(parts, 0, region, cmds);
            },
            Layout::Stack(kids) => {
                proof {
                    lemma_nodes_view_len(kids@);
                    assert(nodes_view(kids@).subrange(0, kids@.len() as int)
                        =~= nodes_view(kids@));
                }
                render_stack_from(kids, 0, region.pos.x, region.pos.y, cmds);
            },
        }
    }
}

fn render_overlay_from(parts: &Vec<Layout>, i: usize, region: Region, cmds: &mut CommandList)
    requires
        i <= parts.len(),
    ensures
        final(cmds).colored_quads@ == old(cmds).colored_quads@ + render_overlay_spec(
            plans_view(parts@).subrange(i as int, parts@.len() as int),
            region,
        ).colored,
        final(cmds).hover_quads@ == old(cmds).hover_quads@ + render_overlay_spec(
            plans_view(parts@).subrange(i as int, parts@.len() as int),
            region,
        ).hover,
    decreases *parts, parts.len() - i,
{
    proof {
        lemma_plans_view_len(parts@);
    }
    if i == parts.len() {
        proof {
            assert(plans_view(parts@).subrange(i as int, parts@.len() as int)
                =~= Seq::<PlanV>::empty());
            assert(old(cmds).colored_quads@ + Seq::<ColoredQuad>::empty()
                == old(cmds).colored_quads@);
            assert(old(cmds).hover_quads@ + Seq::<HoverQuad>::empty() == old(cmds).hover_quads@);
        }
    } else {
        let ghost rest = plans_view(parts@).subrange(i as int, parts@.len() as int);
        parts[i].render(region, cmds);
        render_overlay_from(parts, i + 1, region, cmds);
        proof {
            assert(rest[0] == plan_view(parts@[i as int]));
            assert(rest.subrange(1, rest.len() as int)
                =~= plans_view(parts@).subrange(i + 1, parts@.len() as int));
            assert(final(cmds).colored_quads@
                == old(cmds).colored_quads@ + render_overlay_spec(rest, region).colored);
            assert(final(cmds).hover_quads@
                == old(cmds).hover_quads@ + render_overlay_spec(rest, region).hover);
        }
    }
}

fn render_stack_from(
    kids: &Vec<LayoutNode>,
    i: usize,
    x: u32,
    y: u32,
    cmds: &mut CommandList,
)
    requires
        i <= kids.len(),
    ensures
        final(cmds).colored_quads@ == old(cmds).colored_quads@ + render_stack_spec(
            nodes_view(kids@).subrange(i as int, kids@.len() as int),
            x,
            y,
        ).colored,
        final(cmds).hover_quads@ == old(cmds).hover_quads@ + render_stack_spec(
            nodes_view(kids@).subrange(i as int, kids@.len() as int),
            x,
            y,
        ).hover,
    decreases *kids, kids.len() - i,
{
    proof {
        lemma_nodes_view_len(kids@);
    }
    if i == kids.len() {
        proof {
            assert(nodes_view(kids@).subrange(i as int, kids@.len() as int)
                =~= Seq::<LayoutV>::empty());
            assert(old(cmds).colored_quads@ + Seq::<ColoredQuad>::empty()
                == old(cmds).colored_quads@);
            assert(old(cmds).hover_quads@ + Seq::<HoverQuad>::empty() == old(cmds).hover_quads@);
        }
    } else {
        let ghost rest = nodes_view(kids@).subrange(i as int, kids@.len() as int);
        let child_region = Region {
            pos: Point { x, y },
            area: kids[i].min_area,
        };
        kids[i].layout.render(child_region, cmds);
        let y2 = sat_add_u32(y, kids[i].min_area.height);
        render_stack_from(kids, i + 1, x, y2, cmds);
        proof {
            assert(rest[0] == node_layout_view(kids@[i as int]));
            assert(rest.subrange(1, rest.len() as int)
                =~= nodes_view(kids@).subrange(i + 1, kids@.len() as int));
            assert(final(cmds).colored_quads@
                == old(cmds).colored_quads@ + render_stack_spec(rest, x, y).colored);
            assert(final(cmds).hover_quads@
                == old(cmds).hover_quads@ + render_stack_spec(rest, x, y).hover);
        }
    }
}

impl LayoutNode {
    /// Render this node's deferred drawing into a concrete region.
    pub fn render(&self, region: Region, cmds: &mut CommandList)
        ensures
            final(cmds).colored_quads@
                == old(cmds).colored_quads@ + render_spec(self@.plan, region).colored,
            final(cmds).hover_quads@
                == old(cmds).hover_quads@ + render_spec(self@.plan, region).hover,
    {
        self.layout.render(region, cmds);
    }
}

/// The minimum area of a vertical stack: the widest child by the saturating
/// sum of the children's heights.
pub open spec fn stack_area(kids: Seq<LayoutV>) -> Area
    decreases kids,
{
    if kids.len() == 0 {
        Area::zero_spec()
    } else {
        let rest = stack_area(kids.subrange(1, kids.len() as int));
        Area {
            width: max_of(kids[0].min_area.width, rest.width),
            height: sat_add(kids[0].min_area.height, rest.height),
        }
    }
}

pub fn stack_area_of(kids: &Vec<LayoutNode>) -> (a: Area)
    ensures
        a == stack_area(nodes_view(kids@)),
{
    proof {
        lemma_nodes_view_len(kids@);
        assert(nodes_view(kids@).subrange(0, kids@.len() as int) =~= nodes_view(kids@));
    }
    stack_area_from(kids, 0)
}

fn stack_area_from(kids: &Vec<LayoutNode>, i: usize) -> (a: Area)
    requires
        i <= kids.len(),
    ensures
        a == stack_area(nodes_view(kids@).subrange(i as int, kids@.len() as int)),
    decreases kids.len() - i,
{
    proof {
        lemma_nodes_view_len(kids@);
    }
    if i == kids.len() {
        proof {
            assert(nodes_view(kids@).subrange(i as int, kids@.len() as int)
                =~= Seq::<LayoutV>::empty());
        }
        Area::zero()
    } else {
        let ghost rest = nodes_view(kids@).subrange(i as int, kids@.len() as int);
        let tail = stack_area_from(kids, i + 1);
        let a = Area {
            width: max_u32(kids[i].min_area.width, tail.width),
            height: sat_add_u32(kids[i].min_area.height, tail.height),
        };
        proof {
            assert(rest[0] == node_layout_view(kids@[i as int]));
            assert(rest.subrange(1, rest.len() as int)
                =~= nodes_view(kids@).subrange(i + 1, kids@.len() as int));
        }
        a
    }
}

/// The frame's allocator for deferred values. Tree nodes and layout closures
/// live exactly as long as the frame that allocated them; dropping the
/// frame's structures releases everything at once.
pub struct LinkedBuffer;

impl LinkedBuffer {
    pub fn new() -> (b: LinkedBuffer)
        ensures
            b == LinkedBuffer,
    {
        LinkedBuffer
    }

    /// Allocate one value for the current frame, returning an owned handle.
    pub fn place<T>(&self, value: T) -> (r: Box<T>)
        ensures
            *r == value,
    {
        Box::new(value)
    }
}

} // verus!
