//! A solid color fill: the simplest decorating element.
//!
//! It draws its color over the assigned region, then renders its single
//! optional child in the same region. With no child it is a zero-area color
//! patch.

use vstd::prelude::*;
use crate::space::Area;
use crate::render::RGBA8;
use crate::layout::{Layout, LayoutNode, LayoutV, PlanV, plans_view, lemma_plans_view_len};
use crate::element::{Element, ElementKind};
use crate::wrap::WrapImpl;

verus! {

#[derive(Copy, Clone, Debug, PartialEq, Eq, Structural)]
pub struct SolidFill {
    pub color: RGBA8,
}

impl SolidFill {
    pub fn new(color: RGBA8) -> (s: SolidFill)
        ensures
            s.color == color,
    {
        SolidFill { color }
    }
}

impl WrapImpl for SolidFill {
    open spec fn open_spec(&self, max_area: Area) -> Area {
        max_area
    }

    open spec fn close_some_spec(&self, child: LayoutV) -> LayoutV {
        LayoutV {
            min_area: child.min_area,
            plan: PlanV::Overlay(seq![PlanV::Colored(self.color), child.plan]),
        }
    }

    open spec fn close_none_spec(&self) -> LayoutV {
        LayoutV { min_area: Area::zero_spec(), plan: PlanV::Colored(self.color) }
    }

    fn open(&self, max_area: Area) -> Area {
        max_area
    }

    fn close_some(&self, child: LayoutNode) -> LayoutNode {
        let child_min = child.min_area;
        let ghost child_v = child@;
        let parts = vec![Layout::Colored(self.color), child.layout];
        proof {
            lemma_plans_view_len(parts@);
            assert(plans_view(parts@) =~= seq![PlanV::Colored(self.color), child_v.plan]);
        }
        LayoutNode { min_area: child_min, layout: Layout::Overlay(parts) }
    }

    fn close_none(&self) -> LayoutNode {
        LayoutNode { min_area: Area::zero(), layout: Layout::Colored(self.color) }
    }
}

impl Element for SolidFill {
    open spec fn kind_spec(&self) -> ElementKind {
        ElementKind::Fill(self.color)
    }

    fn kind(&self) -> ElementKind {
        ElementKind::Fill(self.color)
    }
}

} // verus!
