//! The element tree and its dirty-flag-driven four-phase update
//! protocol.
//!
//! An element owns, per axis, one cached requisition and one cached
//! allocation, each gated by its own dirty bit. A relayout runs exactly
//! four phases in fixed order: update-x-requisition (bottom-up),
//! allocate-x (top-down), update-y-requisition (bottom-up), allocate-y
//! (top-down). The x axis must be fully settled before the y requisition
//! of a flow is computed, because a flow's height depends on the line
//! partition fixed by its x allocation. A phase visits every node but
//! recomputes only where a dirty bit (or a changed input) demands it,
//! clearing the bit as it goes; with every bit clear a phase changes
//! nothing.

use vstd::prelude::*;

use crate::flow_layout;
use crate::flow_layout::{FlowIndent, FlowLine};
use crate::lalloc::LAlloc;
use crate::lreq::{LFlex, LNatSize, LReq};
use crate::vertical_layout;

verus! {

/// How a container composes its children, dispatched by each of the four
/// phase functions. A stack (column) reconciles widths and stacks
/// heights; a row is its axis-mirror; a flow wraps its children into
/// lines; a bin reconciles its children on both axes (a single child
/// passes through unchanged).
#[derive(Debug, Clone, Copy, PartialEq, Eq, Structural)]
pub enum Arrangement {
    Leaf,
    Column { y_spacing: u64, ref_point_index: Option<usize> },
    Row { x_spacing: u64, ref_point_index: Option<usize> },
    Flow { x_spacing: u64, y_spacing: u64, indentation: FlowIndent },
    Bin,
}

/// One node of the element tree: its arrangement kind, its exclusively
/// owned children, the externally measured content requisition (used by
/// leaves), the per-axis cached requisition and allocation, the flow
/// line partition (used by flows), and the four dirty bits.
pub struct Element {
    pub arrangement: Arrangement,
    pub children: Vec<Element>,
    pub leaf_x_req: LReq,
    pub leaf_y_req: LReq,
    pub x_req: LReq,
    pub y_req: LReq,
    pub x_alloc: LAlloc,
    pub y_alloc: LAlloc,
    pub lines: Vec<FlowLine>,
    pub x_req_dirty: bool,
    pub y_req_dirty: bool,
    pub x_alloc_dirty: bool,
    pub y_alloc_dirty: bool,
}

/// The stored x-requisitions of a run of children.
pub open spec fn stored_x_reqs(cs: Seq<Element>) -> Seq<LReq> {
    cs.map(|i: int, c: Element| c.x_req)
}

/// The stored y-requisitions of a run of children.
pub open spec fn stored_y_reqs(cs: Seq<Element>) -> Seq<LReq> {
    cs.map(|i: int, c: Element| c.y_req)
}

/// The x-requisition a node's arrangement derives from its children's
/// stored x-requisitions (a pure function of them, per the tree
/// invariant).
pub open spec fn x_req_rule(e: Element) -> LReq {
    match e.arrangement {
        Arrangement::Leaf => e.leaf_x_req,
        Arrangement::Column { y_spacing, ref_point_index } => crate::lreq::spec_perp_req(
            stored_x_reqs(e.children@),
        ),
        Arrangement::Row { x_spacing, ref_point_index } => crate::lreq::spec_linear_req(
            stored_x_reqs(e.children@),
            x_spacing as int,
            ref_point_index,
        ),
        Arrangement::Flow { x_spacing, y_spacing, indentation } => flow_layout::spec_flow_xreq(
            stored_x_reqs(e.children@),
            x_spacing as int,
            indentation,
        ),
        Arrangement::Bin => crate::lreq::spec_perp_req(stored_x_reqs(e.children@)),
    }
}

/// The y-requisition a node's arrangement derives from its children's
/// stored y-requisitions and, for a flow, its stored line partition.
pub open spec fn y_req_rule(e: Element) -> LReq {
    match e.arrangement {
        Arrangement::Leaf => e.leaf_y_req,
        Arrangement::Column { y_spacing, ref_point_index } => crate::lreq::spec_linear_req(
            stored_y_reqs(e.children@),
            y_spacing as int,
            ref_point_index,
        ),
        Arrangement::Row { x_spacing, ref_point_index } => crate::lreq::spec_perp_req(
            stored_y_reqs(e.children@),
        ),
        Arrangement::Flow { x_spacing, y_spacing, indentation } => crate::lreq::spec_linear_req(
            flow_line_reqs(stored_y_reqs(e.children@), e.lines@),
            y_spacing as int,
            None,
        ),
        Arrangement::Bin => crate::lreq::spec_perp_req(stored_y_reqs(e.children@)),
    }
}

/// The per-line y-requisitions a flow derives from its children and its
/// line partition.
pub open spec fn flow_line_reqs(s: Seq<LReq>, lines: Seq<FlowLine>) -> Seq<LReq> {
    lines.map(
        |i: int, l: FlowLine| crate::lreq::spec_perp_req(
            if l.start <= l.end <= s.len() {
                s.subrange(l.start as int, l.end as int)
            } else {
                Seq::<LReq>::empty()
            },
        ),
    )
}

/// No x-requisition dirty bit anywhere in the subtree.
pub open spec fn x_req_all_clean(e: Element) -> bool
    decreases e,
{
    !e.x_req_dirty && forall|i: int|
        0 <= i < e.children@.len() ==> x_req_all_clean(#[trigger] e.children@[i])
}

/// No y-requisition dirty bit anywhere in the subtree.
pub open spec fn y_req_all_clean(e: Element) -> bool
    decreases e,
{
    !e.y_req_dirty && forall|i: int|
        0 <= i < e.children@.len() ==> y_req_all_clean(#[trigger] e.children@[i])
}

/// No x-allocation dirty bit anywhere in the subtree.
pub open spec fn x_alloc_all_clean(e: Element) -> bool
    decreases e,
{
    !e.x_alloc_dirty && forall|i: int|
        0 <= i < e.children@.len() ==> x_alloc_all_clean(#[trigger] e.children@[i])
}

/// No y-allocation dirty bit anywhere in the subtree.
pub open spec fn y_alloc_all_clean(e: Element) -> bool
    decreases e,
{
    !e.y_alloc_dirty && forall|i: int|
        0 <= i < e.children@.len() ==> y_alloc_all_clean(#[trigger] e.children@[i])
}

/// Observational equality of two trees: every cached value, every dirty
/// bit, every line record and every descendant agrees. Running a phase
/// on an all-clean tree leaves it observationally identical.
pub open spec fn obs_eq(a: Element, b: Element) -> bool
    decreases b,
{
    &&& a.arrangement == b.arrangement
    &&& a.leaf_x_req == b.leaf_x_req
    &&& a.leaf_y_req == b.leaf_y_req
    &&& a.x_req == b.x_req
    &&& a.y_req == b.y_req
    &&& a.x_alloc == b.x_alloc
    &&& a.y_alloc == b.y_alloc
    &&& a.lines@ == b.lines@
    &&& a.x_req_dirty == b.x_req_dirty
    &&& a.y_req_dirty == b.y_req_dirty
    &&& a.x_alloc_dirty == b.x_alloc_dirty
    &&& a.y_alloc_dirty == b.y_alloc_dirty
    &&& a.children@.len() == b.children@.len()
    &&& forall|i: int|
        0 <= i < b.children@.len() ==> obs_eq(a.children@[i], #[trigger] b.children@[i])
}

/// No dirty bit of any kind anywhere in the subtree.
pub open spec fn all_clean(e: Element) -> bool {
    x_req_all_clean(e) && y_req_all_clean(e) && x_alloc_all_clean(e) && y_alloc_all_clean(e)
}

/// What the x-requisition phase leaves untouched: everything but the
/// cached x-requisition and the x dirty bits.
pub open spec fn x_req_frame(a: Element, b: Element) -> bool
    decreases b,
{
    &&& a.arrangement == b.arrangement
    &&& a.leaf_x_req == b.leaf_x_req
    &&& a.leaf_y_req == b.leaf_y_req
    &&& a.y_req == b.y_req
    &&& a.x_alloc == b.x_alloc
    &&& a.y_alloc == b.y_alloc
    &&& a.lines == b.lines
    &&& a.y_req_dirty == b.y_req_dirty
    &&& a.y_alloc_dirty == b.y_alloc_dirty
    &&& a.children@.len() == b.children@.len()
    &&& forall|i: int|
        0 <= i < b.children@.len() ==> x_req_frame(a.children@[i], #[trigger] b.children@[i])
}

/// The x-requisition tree invariant: wherever the dirty bit is clear,
/// the cached x-requisition agrees with the arrangement's rule, provided
/// the rule's inputs are within machine bounds.
pub open spec fn x_req_wf(e: Element) -> bool
    decreases e,
{
    &&& (!e.x_req_dirty && x_limits_here_x(e) ==> e.x_req == x_req_rule(e))
    &&& forall|i: int| 0 <= i < e.children@.len() ==> x_req_wf(#[trigger] e.children@[i])
}

/// The y-requisition tree invariant, as for x.
pub open spec fn y_req_wf(e: Element) -> bool
    decreases e,
{
    &&& (!e.y_req_dirty && y_limits_here(e) ==> e.y_req == y_req_rule(e)
        && flow_lines_y_ok(e))
    &&& forall|i: int| 0 <= i < e.children@.len() ==> y_req_wf(#[trigger] e.children@[i])
}

/// A flow's stored lines carry the y-requisitions its rule derives.
pub open spec fn flow_lines_y_ok(e: Element) -> bool {
    e.arrangement is Flow ==> line_y_reqs_match(
        stored_y_reqs(e.children@),
        e.lines@,
    )
}

/// Each stored line's y-requisition is the perpendicular accumulation of
/// its own children.
pub open spec fn line_y_reqs_match(s: Seq<LReq>, lines: Seq<FlowLine>) -> bool {
    forall|l: int|
        0 <= l < lines.len() ==> (#[trigger] lines[l]).y_req == crate::lreq::spec_perp_req(
            if lines[l].start <= lines[l].end <= s.len() {
                s.subrange(lines[l].start as int, lines[l].end as int)
            } else {
                Seq::<LReq>::empty()
            },
        )
}

/// Machine bounds under which a node's x-requisition rule is computed:
/// the accumulated sizes, minimums and stretch weights of the stored
/// child x-requisitions stay within the machine word. Where they do not,
/// the recomputation is skipped and the cached value kept.
pub open spec fn x_limits_here_x(e: Element) -> bool {
    let s = stored_x_reqs(e.children@);
    match e.arrangement {
        Arrangement::Leaf => true,
        Arrangement::Column { y_spacing, ref_point_index } => crate::lreq::max_before(s)
            + crate::lreq::max_after(s) <= u64::MAX,
        Arrangement::Row { x_spacing, ref_point_index } => {
            &&& crate::lreq::spec_linear_size(s, x_spacing as int) <= u64::MAX
            &&& crate::lreq::spec_linear_min(s, x_spacing as int) <= u64::MAX
            &&& crate::lreq::sum_stretch(s) <= u64::MAX
            &&& (ref_point_index is Some ==> ref_point_index->0 < s.len())
        },
        Arrangement::Flow { x_spacing, y_spacing, indentation } => {
            let ind = spec_indent_amount(indentation);
            let sep = flow_layout::spec_indented_reqs(s, indentation);
            &&& crate::lreq::spec_linear_size(s, x_spacing as int) + flow_layout::spec_first_indent(
                indentation,
            ) <= u64::MAX
            &&& crate::lreq::spec_linear_min(s, x_spacing as int) <= u64::MAX
            &&& crate::lreq::sum_stretch(s) <= u64::MAX
            &&& forall|k: int|
                0 <= k < s.len() ==> (#[trigger] s[k]).spec_size() + ind <= u64::MAX
                    && s[k].spec_min() + ind <= u64::MAX
            &&& crate::lreq::max_before(sep) + crate::lreq::max_after(sep) <= u64::MAX
        },
        Arrangement::Bin => crate::lreq::max_before(s) + crate::lreq::max_after(s) <= u64::MAX,
    }
}

/// The indent amount a flow's mode applies, whichever line it falls on.
pub open spec fn spec_indent_amount(ind: FlowIndent) -> int {
    match ind {
        FlowIndent::NoIndent => 0,
        FlowIndent::First { indent } => indent as int,
        FlowIndent::ExceptFirst { indent } => indent as int,
    }
}

/// Machine bounds under which a node's y-requisition rule is computed.
pub open spec fn y_limits_here(e: Element) -> bool {
    let s = stored_y_reqs(e.children@);
    match e.arrangement {
        Arrangement::Leaf => true,
        Arrangement::Column { y_spacing, ref_point_index } => {
            &&& crate::lreq::spec_linear_size(s, y_spacing as int) <= u64::MAX
            &&& crate::lreq::spec_linear_min(s, y_spacing as int) <= u64::MAX
            &&& crate::lreq::sum_stretch(s) <= u64::MAX
            &&& (ref_point_index is Some ==> ref_point_index->0 < s.len())
        },
        Arrangement::Row { x_spacing, ref_point_index } => crate::lreq::max_before(s)
            + crate::lreq::max_after(s) <= u64::MAX,
        Arrangement::Flow { x_spacing, y_spacing, indentation } => {
            &&& forall|l: int|
                0 <= l < e.lines@.len() ==> (#[trigger] e.lines@[l]).start <= e.lines@[l].end
                    <= s.len()
            &&& crate::lreq::max_before(s) + crate::lreq::max_after(s) + crate::lreq::max_min(s)
                <= u64::MAX
            &&& e.lines@.len() * (2 * (crate::lreq::max_before(s) + crate::lreq::max_after(s))
                + crate::lreq::max_min(s) + crate::lreq::max_stretch(s) + y_spacing)
                <= u64::MAX
        },
        Arrangement::Bin => crate::lreq::max_before(s) + crate::lreq::max_after(s) <= u64::MAX,
    }
}

/// The stored x-allocations of a run of children.
pub open spec fn children_x_allocs(cs: Seq<Element>) -> Seq<LAlloc> {
    cs.map(|i: int, c: Element| c.x_alloc)
}

/// The stored y-allocations of a run of children.
pub open spec fn children_y_allocs(cs: Seq<Element>) -> Seq<LAlloc> {
    cs.map(|i: int, c: Element| c.y_alloc)
}

/// The line partition the primary-axis pass derives for a flow node from
/// its stored requisition and region.
pub open spec fn spec_flow_x_lines(e: Element) -> Seq<FlowLine> {
    match e.arrangement {
        Arrangement::Flow { x_spacing, y_spacing, indentation } => {
            let s = stored_x_reqs(e.children@);
            if e.x_req.spec_size() <= e.x_alloc.alloc_size {
                seq![
                    flow_layout::spec_flow_line(
                        flow_layout::spec_first_indent(indentation),
                        0,
                        s.len() as int,
                    ),
                ]
            } else {
                flow_layout::spec_wrap(
                    s,
                    x_spacing as int,
                    e.x_alloc.alloc_size as int,
                    flow_layout::spec_rest_indent(indentation),
                    0,
                    0,
                    flow_layout::spec_first_indent(indentation),
                    flow_layout::spec_first_indent(indentation) as int,
                )
            }
        },
        _ => Seq::<FlowLine>::empty(),
    }
}

/// Two partitions agree on the primary axis: same ranges and indents,
/// whatever their secondary-axis state.
pub open spec fn lines_match_x(lines: Seq<FlowLine>, model: Seq<FlowLine>) -> bool {
    lines.len() == model.len() && forall|l: int|
        0 <= l < lines.len() ==> (#[trigger] lines[l]).pos_x_in_parent == model[
            l
        ].pos_x_in_parent && lines[l].start == model[l].start && lines[l].end == model[l].end
}

/// The x distribution rule of the non-wrapping arrangements, stated of a
/// candidate run of child allocations: a stack or bin hands every child
/// the whole region; a row distributes it linearly.
pub open spec fn plain_x_dist_ok(e: Element, allocs: Seq<LAlloc>) -> bool {
    let s = stored_x_reqs(e.children@);
    allocs.len() == s.len() && match e.arrangement {
        Arrangement::Leaf => true,
        Arrangement::Flow { x_spacing, y_spacing, indentation } => true,
        Arrangement::Column { y_spacing, ref_point_index } => forall|i: int|
            0 <= i < s.len() ==> (#[trigger] allocs[i]).pos_in_parent
                == crate::lalloc::spec_region_pos(s[i], e.x_alloc.pos_in_parent as int,
                e.x_alloc.ref_point) && allocs[i].alloc_size == crate::lalloc::spec_region_size(
                s[i],
                e.x_alloc.alloc_size as int,
            ) && allocs[i].ref_point == crate::lalloc::spec_region_ref(s[i]),
        Arrangement::Bin => forall|i: int|
            0 <= i < s.len() ==> (#[trigger] allocs[i]).pos_in_parent
                == crate::lalloc::spec_region_pos(s[i], e.x_alloc.pos_in_parent as int,
                e.x_alloc.ref_point) && allocs[i].alloc_size == crate::lalloc::spec_region_size(
                s[i],
                e.x_alloc.alloc_size as int,
            ) && allocs[i].ref_point == crate::lalloc::spec_region_ref(s[i]),
        Arrangement::Row { x_spacing, ref_point_index } => forall|i: int|
            0 <= i < s.len() ==> (#[trigger] allocs[i]).alloc_size
                == crate::lalloc::spec_child_size(s, e.x_req.spec_size(),
                e.x_alloc.alloc_size as int, i) && allocs[i].pos_in_parent
                == crate::lalloc::spec_child_pos(s, e.x_req.spec_size(),
                e.x_alloc.pos_in_parent as int, e.x_alloc.alloc_size as int, x_spacing as int,
                i) && allocs[i].ref_point == crate::lalloc::spec_region_ref(s[i]),
    }
}

/// Every line's children of a flow allocated against the line's own
/// indent-shifted region, stated of a candidate run of allocations.
pub open spec fn flow_x_allocs_ok(e: Element, allocs: Seq<LAlloc>, lines: Seq<FlowLine>) -> bool {
    match e.arrangement {
        Arrangement::Flow { x_spacing, y_spacing, indentation } => forall|l: int|
            0 <= l < lines.len() ==> flow_layout::line_child_allocs_ok(
                stored_x_reqs(e.children@),
                allocs,
                #[trigger] lines[l],
                e.x_req,
                e.x_alloc,
                x_spacing as int,
            ),
        _ => true,
    }
}

/// The children's stored x-allocations -- and, for a flow, the stored
/// line partition -- are exactly the arrangement's distribution of this
/// node's stored region over its stored requisitions.
pub open spec fn x_alloc_rule_ok(e: Element) -> bool {
    &&& plain_x_dist_ok(e, children_x_allocs(e.children@))
    &&& (e.arrangement is Flow ==> lines_match_x(e.lines@, spec_flow_x_lines(e))
        && flow_x_allocs_ok(e, children_x_allocs(e.children@), e.lines@))
}

/// Machine bounds under which a node's x distribution is computed,
/// mirroring the run-time checks: where they fail, the distribution is
/// skipped and the cached allocations kept.
pub open spec fn x_alloc_limits_here(e: Element) -> bool {
    let s = stored_x_reqs(e.children@);
    &&& (forall|k: int| 0 <= k < s.len() ==> (#[trigger] s[k]).wf())
    &&& match e.arrangement {
        Arrangement::Leaf => true,
        Arrangement::Column { y_spacing, ref_point_index } => e.x_alloc.ref_point is Some
            ==> e.x_alloc.pos_in_parent + e.x_alloc.ref_point->0 <= u64::MAX,
        Arrangement::Bin => e.x_alloc.ref_point is Some ==> e.x_alloc.pos_in_parent
            + e.x_alloc.ref_point->0 <= u64::MAX,
        Arrangement::Row { x_spacing, ref_point_index } => {
            &&& e.x_req.wf()
            &&& crate::lreq::spec_linear_size(s, x_spacing as int) <= u64::MAX
            &&& crate::lreq::spec_linear_min(s, x_spacing as int) <= u64::MAX
            &&& crate::lreq::sum_stretch(s) <= u64::MAX
            &&& e.x_alloc.pos_in_parent + e.x_alloc.alloc_size <= u64::MAX
            &&& e.x_alloc.pos_in_parent + crate::lreq::spec_linear_size(s, x_spacing as int)
                <= u64::MAX
            &&& (e.x_alloc.alloc_size > e.x_req.spec_size() ==> e.x_req.spec_size()
                == crate::lreq::spec_linear_size(s, x_spacing as int))
        },
        Arrangement::Flow { x_spacing, y_spacing, indentation } => {
            &&& e.x_req.wf()
            &&& !e.x_req.has_ref()
            &&& crate::lreq::spec_linear_size(s, x_spacing as int) <= u64::MAX
            &&& crate::lreq::spec_linear_min(s, x_spacing as int) <= u64::MAX
            &&& crate::lreq::sum_stretch(s) <= u64::MAX
            &&& crate::lreq::spec_linear_size(s, x_spacing as int)
                + flow_layout::spec_first_indent(indentation) <= u64::MAX
            &&& e.x_req.spec_size() == crate::lreq::spec_linear_size(s, x_spacing as int)
                + flow_layout::spec_first_indent(indentation)
            &&& e.x_alloc.pos_in_parent + e.x_alloc.alloc_size <= u64::MAX
            &&& e.x_alloc.pos_in_parent + flow_layout::spec_rest_indent(indentation)
                + e.x_req.spec_size() <= u64::MAX
        },
    }
}

/// The y distribution rule of the non-wrapping arrangements, stated of a
/// candidate run of child allocations: a row or bin hands every child
/// the whole region; a column distributes it linearly.
pub open spec fn plain_y_dist_ok(e: Element, allocs: Seq<LAlloc>) -> bool {
    let s = stored_y_reqs(e.children@);
    allocs.len() == s.len() && match e.arrangement {
        Arrangement::Leaf => true,
        Arrangement::Flow { x_spacing, y_spacing, indentation } => true,
        Arrangement::Row { x_spacing, ref_point_index } => forall|i: int|
            0 <= i < s.len() ==> (#[trigger] allocs[i]).pos_in_parent
                == crate::lalloc::spec_region_pos(s[i], e.y_alloc.pos_in_parent as int,
                e.y_alloc.ref_point) && allocs[i].alloc_size == crate::lalloc::spec_region_size(
                s[i],
                e.y_alloc.alloc_size as int,
            ) && allocs[i].ref_point == crate::lalloc::spec_region_ref(s[i]),
        Arrangement::Bin => forall|i: int|
            0 <= i < s.len() ==> (#[trigger] allocs[i]).pos_in_parent
                == crate::lalloc::spec_region_pos(s[i], e.y_alloc.pos_in_parent as int,
                e.y_alloc.ref_point) && allocs[i].alloc_size == crate::lalloc::spec_region_size(
                s[i],
                e.y_alloc.alloc_size as int,
            ) && allocs[i].ref_point == crate::lalloc::spec_region_ref(s[i]),
        Arrangement::Column { y_spacing, ref_point_index } => forall|i: int|
            0 <= i < s.len() ==> (#[trigger] allocs[i]).alloc_size
                == crate::lalloc::spec_child_size(s, e.y_req.spec_size(),
                e.y_alloc.alloc_size as int, i) && allocs[i].pos_in_parent
                == crate::lalloc::spec_child_pos(s, e.y_req.spec_size(),
                e.y_alloc.pos_in_parent as int, e.y_alloc.alloc_size as int, y_spacing as int,
                i) && allocs[i].ref_point == crate::lalloc::spec_region_ref(s[i]),
    }
}

/// A flow's lines stacked linearly down the secondary axis: each line's
/// recorded position is its place in the linear run of line
/// requisitions.
pub open spec fn flow_y_lines_ok(e: Element) -> bool {
    match e.arrangement {
        Arrangement::Flow { x_spacing, y_spacing, indentation } => {
            let lr = flow_layout::line_y_reqs(e.lines@);
            forall|l: int|
                0 <= l < e.lines@.len() ==> (#[trigger] e.lines@[l]).pos_y_in_parent
                    == crate::lalloc::spec_child_pos(lr, e.y_req.spec_size(),
                    e.y_alloc.pos_in_parent as int, e.y_alloc.alloc_size as int,
                    y_spacing as int, l) as u64
        },
        _ => true,
    }
}

/// Every child of a flow allocated from its own line's band, stated of a
/// candidate run of allocations.
pub open spec fn flow_y_bands_ok(e: Element, allocs: Seq<LAlloc>) -> bool {
    match e.arrangement {
        Arrangement::Flow { x_spacing, y_spacing, indentation } => {
            let s = stored_y_reqs(e.children@);
            let lr = flow_layout::line_y_reqs(e.lines@);
            forall|l: int, c: int|
                #![trigger e.lines@[l], allocs[c]]
                0 <= l < e.lines@.len() && e.lines@[l].start <= c < e.lines@[l].end && 0 <= c
                    < allocs.len() ==> ({
                    let band_pos = crate::lalloc::spec_child_pos(lr, e.y_req.spec_size(),
                        e.y_alloc.pos_in_parent as int, e.y_alloc.alloc_size as int,
                        y_spacing as int, l);
                    let band_size = crate::lalloc::spec_child_size(lr, e.y_req.spec_size(),
                        e.y_alloc.alloc_size as int, l);
                    let band_ref = crate::lalloc::spec_region_ref(lr[l]);
                    allocs[c].pos_in_parent == crate::lalloc::spec_region_pos(s[c], band_pos,
                        band_ref) && allocs[c].alloc_size == crate::lalloc::spec_region_size(
                        s[c],
                        band_size,
                    ) && allocs[c].ref_point == crate::lalloc::spec_region_ref(s[c])
                })
        },
        _ => true,
    }
}

/// The children's stored y-allocations -- and, for a flow, the lines'
/// recorded positions -- are exactly the arrangement's secondary-axis
/// distribution of this node's stored region.
pub open spec fn y_alloc_rule_ok(e: Element) -> bool {
    &&& plain_y_dist_ok(e, children_y_allocs(e.children@))
    &&& (e.arrangement is Flow ==> flow_y_lines_ok(e) && flow_y_bands_ok(
        e,
        children_y_allocs(e.children@),
    ))
}

/// Machine bounds under which a node's y distribution is computed,
/// mirroring the run-time checks.
pub open spec fn y_alloc_limits_here(e: Element) -> bool {
    let s = stored_y_reqs(e.children@);
    &&& (forall|k: int| 0 <= k < s.len() ==> (#[trigger] s[k]).wf())
    &&& match e.arrangement {
        Arrangement::Leaf => true,
        Arrangement::Row { x_spacing, ref_point_index } => e.y_alloc.ref_point is Some
            ==> e.y_alloc.pos_in_parent + e.y_alloc.ref_point->0 <= u64::MAX,
        Arrangement::Bin => e.y_alloc.ref_point is Some ==> e.y_alloc.pos_in_parent
            + e.y_alloc.ref_point->0 <= u64::MAX,
        Arrangement::Column { y_spacing, ref_point_index } => {
            &&& e.y_req.wf()
            &&& crate::lreq::spec_linear_size(s, y_spacing as int) <= u64::MAX
            &&& crate::lreq::spec_linear_min(s, y_spacing as int) <= u64::MAX
            &&& crate::lreq::sum_stretch(s) <= u64::MAX
            &&& e.y_alloc.pos_in_parent + e.y_alloc.alloc_size <= u64::MAX
            &&& e.y_alloc.pos_in_parent + crate::lreq::spec_linear_size(s, y_spacing as int)
                <= u64::MAX
            &&& (e.y_alloc.alloc_size > e.y_req.spec_size() ==> e.y_req.spec_size()
                == crate::lreq::spec_linear_size(s, y_spacing as int))
        },
        Arrangement::Flow { x_spacing, y_spacing, indentation } => {
            let lr = flow_layout::line_y_reqs(e.lines@);
            &&& e.y_req.wf()
            &&& (forall|l: int|
                0 <= l < e.lines@.len() ==> (#[trigger] e.lines@[l]).start <= e.lines@[l].end
                    <= s.len() && e.lines@[l].y_req.wf())
            &&& (forall|a: int, b: int|
                #![trigger e.lines@[a], e.lines@[b]]
                0 <= a < b < e.lines@.len() ==> e.lines@[a].end <= e.lines@[b].start)
            &&& crate::lreq::spec_linear_size(lr, y_spacing as int) <= u64::MAX
            &&& crate::lreq::spec_linear_min(lr, y_spacing as int) <= u64::MAX
            &&& crate::lreq::sum_stretch(lr) <= u64::MAX
            &&& e.y_alloc.pos_in_parent + e.y_alloc.alloc_size <= u64::MAX
            &&& e.y_alloc.pos_in_parent + crate::lreq::spec_linear_size(lr, y_spacing as int)
                <= u64::MAX
            &&& (e.y_alloc.alloc_size > e.y_req.spec_size() && crate::lreq::sum_stretch(lr) > 0
                ==> e.y_req.spec_size() == crate::lreq::spec_linear_size(lr, y_spacing as int))
        },
    }
}

/// The y-allocation tree invariant, mirroring `x_alloc_wf`.
pub open spec fn y_alloc_wf(e: Element) -> bool
    decreases e,
{
    &&& (!e.y_alloc_dirty && y_alloc_limits_here(e) ==> y_alloc_rule_ok(e))
    &&& forall|i: int| 0 <= i < e.children@.len() ==> y_alloc_wf(#[trigger] e.children@[i])
}

/// The x-allocation invariant of one node only depends on its
/// arrangement, its stored requisition and region, its children's
/// requisitions and allocations, and its lines' primary-axis fields.
proof fn lemma_x_alloc_node_congruent(a: Element, b: Element)
    requires
        a.arrangement == b.arrangement,
        a.x_req == b.x_req,
        a.x_alloc == b.x_alloc,
        stored_x_reqs(a.children@) == stored_x_reqs(b.children@),
        children_x_allocs(a.children@) == children_x_allocs(b.children@),
        a.lines@.len() == b.lines@.len(),
        forall|l: int|
            0 <= l < b.lines@.len() ==> (#[trigger] a.lines@[l]).pos_x_in_parent == b.lines@[
                l
            ].pos_x_in_parent && a.lines@[l].start == b.lines@[l].start && a.lines@[l].end
                == b.lines@[l].end,
    ensures
        x_alloc_limits_here(a) == x_alloc_limits_here(b),
        x_alloc_rule_ok(a) == x_alloc_rule_ok(b),
{
    assert(a.children@.len() == b.children@.len()) by {
        assert(stored_x_reqs(a.children@).len() == stored_x_reqs(b.children@).len());
    }
    assert(spec_flow_x_lines(a) == spec_flow_x_lines(b));
    if a.arrangement is Flow {
        assert(lines_match_x(a.lines@, spec_flow_x_lines(a)) == lines_match_x(
            b.lines@,
            spec_flow_x_lines(b),
        )) by {
            if lines_match_x(a.lines@, spec_flow_x_lines(a)) {
                assert forall|l: int| 0 <= l < b.lines@.len() implies (#[trigger] b.lines@[
                    l
                ]).pos_x_in_parent == spec_flow_x_lines(b)[l].pos_x_in_parent && b.lines@[
                    l
                ].start == spec_flow_x_lines(b)[l].start && b.lines@[l].end == spec_flow_x_lines(
                    b,
                )[l].end by {
                    assert(a.lines@[l].pos_x_in_parent == spec_flow_x_lines(a)[
                        l
                    ].pos_x_in_parent);
                }
            }
            if lines_match_x(b.lines@, spec_flow_x_lines(b)) {
                assert forall|l: int| 0 <= l < a.lines@.len() implies (#[trigger] a.lines@[
                    l
                ]).pos_x_in_parent == spec_flow_x_lines(a)[l].pos_x_in_parent && a.lines@[
                    l
                ].start == spec_flow_x_lines(a)[l].start && a.lines@[l].end == spec_flow_x_lines(
                    a,
                )[l].end by {
                    assert(b.lines@[l].pos_x_in_parent == spec_flow_x_lines(b)[
                        l
                    ].pos_x_in_parent);
                }
            }
        }
        let allocs = children_x_allocs(a.children@);
        assert(flow_x_allocs_ok(a, allocs, a.lines@) == flow_x_allocs_ok(b, allocs, b.lines@))
            by {
            if flow_x_allocs_ok(a, allocs, a.lines@) {
                assert forall|l: int| 0 <= l < b.lines@.len() implies flow_line_ok_of(b, allocs,
                    #[trigger] b.lines@[l]) by {
                    assert(flow_line_ok_of(a, allocs, a.lines@[l]));
                    lemma_line_ok_x_fields(stored_x_reqs(a.children@), allocs, a.lines@[l],
                        b.lines@[l], a.x_req, a.x_alloc, spacing_of_flow(a.arrangement));
                }
            }
            if flow_x_allocs_ok(b, allocs, b.lines@) {
                assert forall|l: int| 0 <= l < a.lines@.len() implies flow_line_ok_of(a, allocs,
                    #[trigger] a.lines@[l]) by {
                    assert(flow_line_ok_of(b, allocs, b.lines@[l]));
                    lemma_line_ok_x_fields(stored_x_reqs(a.children@), allocs, b.lines@[l],
                        a.lines@[l], a.x_req, a.x_alloc, spacing_of_flow(a.arrangement));
                }
            }
        }
    }
}

/// One line's allocation clause of a flow node.
pub open spec fn flow_line_ok_of(e: Element, allocs: Seq<LAlloc>, line: FlowLine) -> bool {
    flow_layout::line_child_allocs_ok(
        stored_x_reqs(e.children@),
        allocs,
        line,
        e.x_req,
        e.x_alloc,
        spacing_of_flow(e.arrangement) as int,
    )
}

/// The primary-axis spacing of a flow arrangement; zero elsewhere.
pub open spec fn spacing_of_flow(a: Arrangement) -> u64 {
    match a {
        Arrangement::Flow { x_spacing, y_spacing, indentation } => x_spacing,
        _ => 0,
    }
}

/// A line's allocation clause reads only the line's primary-axis fields.
proof fn lemma_line_ok_x_fields(
    s: Seq<LReq>,
    allocs: Seq<LAlloc>,
    la: FlowLine,
    lb: FlowLine,
    br: LReq,
    ba: LAlloc,
    sp: u64,
)
    requires
        la.pos_x_in_parent == lb.pos_x_in_parent,
        la.start == lb.start,
        la.end == lb.end,
        flow_layout::line_child_allocs_ok(s, allocs, la, br, ba, sp as int),
    ensures
        flow_layout::line_child_allocs_ok(s, allocs, lb, br, ba, sp as int),
{
}

/// The y-allocation invariant of one node only depends on its
/// arrangement, its stored y requisition and region, its children's y
/// requisitions and allocations, and its lines.
proof fn lemma_y_alloc_node_congruent(a: Element, b: Element)
    requires
        a.arrangement == b.arrangement,
        a.y_req == b.y_req,
        a.y_alloc == b.y_alloc,
        stored_y_reqs(a.children@) == stored_y_reqs(b.children@),
        children_y_allocs(a.children@) == children_y_allocs(b.children@),
        a.lines@ == b.lines@,
    ensures
        y_alloc_limits_here(a) == y_alloc_limits_here(b),
        y_alloc_rule_ok(a) == y_alloc_rule_ok(b),
{
    assert(a.children@.len() == b.children@.len()) by {
        assert(stored_y_reqs(a.children@).len() == stored_y_reqs(b.children@).len());
    }
}

/// The x-allocation tree invariant: wherever the dirty bit is clear and
/// the machine bounds hold, the stored allocations below the node are
/// the arrangement's distribution of its stored region.
pub open spec fn x_alloc_wf(e: Element) -> bool
    decreases e,
{
    &&& (!e.x_alloc_dirty && x_alloc_limits_here(e) ==> x_alloc_rule_ok(e))
    &&& forall|i: int| 0 <= i < e.children@.len() ==> x_alloc_wf(#[trigger] e.children@[i])
}

impl Element {
    /// A leaf node carrying an externally measured content requisition
    /// for each axis. Every cache starts dirty.
    pub fn new_leaf(x_req: LReq, y_req: LReq) -> (r: Element)
        ensures
            r.arrangement == Arrangement::Leaf,
            r.children@.len() == 0,
            r.leaf_x_req == x_req,
            r.leaf_y_req == y_req,
            r.x_req == LReq::spec_empty() && r.y_req == LReq::spec_empty(),
            r.x_alloc == (LAlloc { pos_in_parent: 0, alloc_size: 0, ref_point: None }),
            r.y_alloc == (LAlloc { pos_in_parent: 0, alloc_size: 0, ref_point: None }),
            r.lines@.len() == 0,
            r.x_req_dirty && r.y_req_dirty && r.x_alloc_dirty && r.y_alloc_dirty,
            x_req_wf(r) && y_req_wf(r),
            x_alloc_wf(r) && y_alloc_wf(r),
    {
        Element {
            arrangement: Arrangement::Leaf,
            children: Vec::new(),
            leaf_x_req: x_req,
            leaf_y_req: y_req,
            x_req: LReq::new_empty(),
            y_req: LReq::new_empty(),
            x_alloc: LAlloc::new_empty(),
            y_alloc: LAlloc::new_empty(),
            lines: Vec::new(),
            x_req_dirty: true,
            y_req_dirty: true,
            x_alloc_dirty: true,
            y_alloc_dirty: true,
        }
    }

    /// A container node owning its children. Every cache starts dirty.
    pub fn new_container(arrangement: Arrangement, children: Vec<Element>) -> (r: Element)
        requires
            forall|i: int|
                0 <= i < children@.len() ==> x_req_wf(#[trigger] children@[i]) && y_req_wf(
                    children@[i],
                ) && x_alloc_wf(children@[i]) && y_alloc_wf(children@[i]),
        ensures
            r.arrangement == arrangement,
            r.children@ == children@,
            r.x_req == LReq::spec_empty() && r.y_req == LReq::spec_empty(),
            r.x_alloc == (LAlloc { pos_in_parent: 0, alloc_size: 0, ref_point: None }),
            r.y_alloc == (LAlloc { pos_in_parent: 0, alloc_size: 0, ref_point: None }),
            r.lines@.len() == 0,
            r.x_req_dirty && r.y_req_dirty && r.x_alloc_dirty && r.y_alloc_dirty,
            x_req_wf(r) && y_req_wf(r),
            x_alloc_wf(r) && y_alloc_wf(r),
    {
        Element {
            arrangement,
            children,
            leaf_x_req: LReq::new_empty(),
            leaf_y_req: LReq::new_empty(),
            x_req: LReq::new_empty(),
            y_req: LReq::new_empty(),
            x_alloc: LAlloc::new_empty(),
            y_alloc: LAlloc::new_empty(),
            lines: Vec::new(),
            x_req_dirty: true,
            y_req_dirty: true,
            x_alloc_dirty: true,
            y_alloc_dirty: true,
        }
    }

    /// Mark this node's caches stale on both axes. The protocol requires
    /// the caller to mark every strict ancestor as well; `mark_dirty_path`
    /// on the root does both at once.
    pub fn mark_dirty(&mut self)
        ensures
            *final(self) == (Element {
                x_req_dirty: true,
                y_req_dirty: true,
                x_alloc_dirty: true,
                y_alloc_dirty: true,
                ..*old(self)
            }),
            x_req_wf(*old(self)) ==> x_req_wf(*final(self)),
            y_req_wf(*old(self)) ==> y_req_wf(*final(self)),
            x_alloc_wf(*old(self)) ==> x_alloc_wf(*final(self)),
            y_alloc_wf(*old(self)) ==> y_alloc_wf(*final(self)),
    {
        self.x_req_dirty = true;
        self.y_req_dirty = true;
        self.x_alloc_dirty = true;
        self.y_alloc_dirty = true;
    }
}


/// Checked linear accumulation: the size, minimum and stretch sums of a
/// run, or nothing when any of them would pass the machine word.
fn acc_checked(reqs: &Vec<LReq>, spacing: u64) -> (r: Option<(u64, u64, u64)>)
    ensures
        r is Some <==> (crate::lreq::spec_linear_size(reqs@, spacing as int) <= u64::MAX
            && crate::lreq::spec_linear_min(reqs@, spacing as int) <= u64::MAX
            && crate::lreq::sum_stretch(reqs@) <= u64::MAX),
        r is Some ==> ({
            let t = r->0;
            t.0 == crate::lreq::spec_linear_size(reqs@, spacing as int) && t.1
                == crate::lreq::spec_linear_min(reqs@, spacing as int) && t.2
                == crate::lreq::sum_stretch(reqs@)
        }),
{
    let ghost s = reqs@;
    let n = reqs.len();
    if n == 0 {
        return Some((0, 0, 0));
    }
    let cap: u128 = u64::MAX as u128;
    let mut size: u128 = 0;
    let mut minsz: u128 = 0;
    let mut st: u128 = 0;
    let mut i: usize = 0;
    proof {
        assert(s.take(0) =~= Seq::<LReq>::empty());
    }
    while i < n
        invariant
            0 < n == s.len() <= usize::MAX,
            0 <= i <= n,
            s == reqs@,
            cap == u64::MAX as u128,
            i == 0 ==> size == 0 && minsz == 0,
            i > 0 ==> size == crate::lreq::sum_sizes(s.take(i as int)) + spacing * (i - 1),
            i > 0 ==> minsz == crate::lreq::sum_mins(s.take(i as int)) + spacing * (i - 1),
            st == crate::lreq::sum_stretch(s.take(i as int)),
            size <= cap && minsz <= cap && st <= cap,
        decreases n - i,
    {
        let ghost gi = i as int;
        proof {
            crate::lreq::lemma_sum_sizes_take_succ(s, gi);
            crate::lreq::lemma_sum_mins_take_succ(s, gi);
            crate::lreq::lemma_sum_stretch_take_succ(s, gi);
            assert(spacing * gi == spacing * (gi - 1) + spacing) by (nonlinear_arith);
        }
        if i > 0 {
            size = size + (spacing as u128);
            minsz = minsz + (spacing as u128);
        }
        let item_size: u128 = match reqs[i].size {
            LNatSize::Size { size: v } => v as u128,
            LNatSize::Ref { before, after } => before as u128 + after as u128,
        };
        size = size + item_size;
        let item_min: u128 = match reqs[i].flex {
            LFlex::Fixed => item_size,
            LFlex::Flex { stretch: _st, min } => min as u128,
        };
        minsz = minsz + item_min;
        let item_st: u128 = match reqs[i].flex {
            LFlex::Fixed => 0,
            LFlex::Flex { stretch, min: _m } => stretch as u128,
        };
        st = st + item_st;
        if size > cap || minsz > cap || st > cap {
            proof {
                lemma_linear_partials_le(s, spacing as int, gi + 1);
            }
            return None;
        }
        i = i + 1;
    }
    proof {
        assert(s.take(n as int) =~= s);
    }
    Some((size as u64, minsz as u64, st as u64))
}

/// Partial linear sums never exceed the totals.
proof fn lemma_linear_partials_le(s: Seq<LReq>, spacing: int, i: int)
    requires
        0 < i <= s.len(),
        spacing >= 0,
    ensures
        crate::lreq::sum_sizes(s.take(i)) + spacing * (i - 1) <= crate::lreq::spec_linear_size(
            s,
            spacing,
        ),
        crate::lreq::sum_mins(s.take(i)) + spacing * (i - 1) <= crate::lreq::spec_linear_min(
            s,
            spacing,
        ),
        crate::lreq::sum_stretch(s.take(i)) <= crate::lreq::sum_stretch(s),
{
    crate::lreq::lemma_sum_sizes_take_le(s, i);
    crate::lreq::lemma_sum_mins_take_le(s, i);
    crate::lreq::lemma_sum_stretch_take_le(s, i);
    assert(spacing * (i - 1) <= spacing * (s.len() - 1)) by (nonlinear_arith)
        requires 0 <= i - 1 <= s.len() - 1, spacing >= 0;
}

/// Checked perpendicular accumulation bound: whether the reconciled
/// before- and after-parts fit the machine word, with the four maxima
/// (meaningful only when they do).
fn perp_checked(reqs: &Vec<LReq>) -> (r: (bool, u64, u64, u64, u64))
    ensures
        r.0 == (crate::lreq::max_before(reqs@) + crate::lreq::max_after(reqs@) <= u64::MAX),
        r.0 ==> r.1 == crate::lreq::max_before(reqs@) && r.2 == crate::lreq::max_after(reqs@)
            && r.3 == crate::lreq::max_min(reqs@) && r.4 == crate::lreq::max_stretch(reqs@),
{
    let ghost s = reqs@;
    let n = reqs.len();
    let mut b: u64 = 0;
    let mut a: u64 = 0;
    let mut mn: u64 = 0;
    let mut st: u64 = 0;
    let mut i: usize = 0;
    proof {
        assert(s.take(0) =~= Seq::<LReq>::empty());
    }
    while i < n
        invariant
            0 <= i <= n == s.len(),
            s == reqs@,
            b == crate::lreq::max_before(s.take(i as int)),
            a == crate::lreq::max_after(s.take(i as int)),
            st == crate::lreq::max_stretch(s.take(i as int)),
            crate::lreq::max_before(s.take(i as int)) + crate::lreq::max_after(s.take(i as int))
                <= u64::MAX ==> mn == crate::lreq::max_min(s.take(i as int)),
        decreases n - i,
    {
        let ghost gi = i as int;
        proof {
            crate::lreq::lemma_max_take_succ(s, gi);
            crate::lreq::lemma_max_elem_le(s.take(gi + 1), gi);
            assert(s.take(gi + 1)[gi] == s[gi]);
        }
        match reqs[i].size {
            LNatSize::Size { size: v } => {
                if v > a {
                    a = v;
                }
            },
            LNatSize::Ref { before, after } => {
                if before > b {
                    b = before;
                }
                if after > a {
                    a = after;
                }
            },
        }
        match reqs[i].flex {
            LFlex::Fixed => {
                let m = reqs[i].size_capped();
                if m > mn {
                    mn = m;
                }
            },
            LFlex::Flex { stretch, min } => {
                if stretch > st {
                    st = stretch;
                }
                if min > mn {
                    mn = min;
                }
            },
        }
        i = i + 1;
    }
    proof {
        assert(s.take(n as int) =~= s);
    }
    (b <= u64::MAX - a, b, a, mn, st)
}


/// Copy of the stored x-requisitions of a run of children.
fn collect_x_reqs(cs: &Vec<Element>) -> (r: Vec<LReq>)
    ensures
        r@ == stored_x_reqs(cs@),
{
    let mut r: Vec<LReq> = Vec::new();
    let mut i: usize = 0;
    proof {
        assert(stored_x_reqs(cs@).take(0) =~= Seq::<LReq>::empty());
    }
    while i < cs.len()
        invariant
            0 <= i <= cs@.len(),
            r@ == stored_x_reqs(cs@).take(i as int),
        decreases cs@.len() - i,
    {
        r.push(cs[i].x_req);
        proof {
            assert(stored_x_reqs(cs@).take(i + 1) =~= stored_x_reqs(cs@).take(i as int).push(
                cs@[i as int].x_req,
            ));
        }
        i = i + 1;
    }
    proof {
        assert(stored_x_reqs(cs@).take(cs@.len() as int) =~= stored_x_reqs(cs@));
    }
    r
}

/// Copy of the stored y-requisitions of a run of children.
fn collect_y_reqs(cs: &Vec<Element>) -> (r: Vec<LReq>)
    ensures
        r@ == stored_y_reqs(cs@),
{
    let mut r: Vec<LReq> = Vec::new();
    let mut i: usize = 0;
    proof {
        assert(stored_y_reqs(cs@).take(0) =~= Seq::<LReq>::empty());
    }
    while i < cs.len()
        invariant
            0 <= i <= cs@.len(),
            r@ == stored_y_reqs(cs@).take(i as int),
        decreases cs@.len() - i,
    {
        r.push(cs[i].y_req);
        proof {
            assert(stored_y_reqs(cs@).take(i + 1) =~= stored_y_reqs(cs@).take(i as int).push(
                cs@[i as int].y_req,
            ));
        }
        i = i + 1;
    }
    proof {
        assert(stored_y_reqs(cs@).take(cs@.len() as int) =~= stored_y_reqs(cs@));
    }
    r
}

impl Element {
    /// Phase one (and, mirrored, phase three): recompute this subtree's
    /// x-requisitions bottom-up. A node recomputes only when its own
    /// dirty bit is set or some child's x-requisition changed; the bit is
    /// cleared either way, a recomputation marks the node's x-allocation
    /// stale, and a recomputation whose inputs would pass the machine
    /// word keeps the cached value. Returns whether this node's
    /// x-requisition changed.
    #[verifier::rlimit(100)]
    pub fn update_x_req(&mut self) -> (changed: bool)
        requires
            x_req_wf(*old(self)),
        ensures
            x_req_frame(*final(self), *old(self)),
            x_req_all_clean(*final(self)),
            x_req_wf(*final(self)),
            changed == (final(self).x_req != old(self).x_req),
            x_req_all_clean(*old(self)) ==> obs_eq(*final(self), *old(self)) && !changed,
            y_req_wf(*old(self)) ==> y_req_wf(*final(self)),
            x_alloc_wf(*old(self)) ==> x_alloc_wf(*final(self)),
            y_alloc_wf(*old(self)) ==> y_alloc_wf(*final(self)),
        decreases *old(self),
    {
        let mut any_child_changed: bool = false;
        let mut i: usize = 0;
        let n = self.children.len();
        while i < n
            invariant
                0 <= i <= n == self.children@.len() == old(self).children@.len(),
                x_req_wf(*old(self)),
                self.arrangement == old(self).arrangement,
                self.leaf_x_req == old(self).leaf_x_req,
                self.leaf_y_req == old(self).leaf_y_req,
                self.x_req == old(self).x_req,
                self.y_req == old(self).y_req,
                self.x_alloc == old(self).x_alloc,
                self.y_alloc == old(self).y_alloc,
                self.lines == old(self).lines,
                self.x_req_dirty == old(self).x_req_dirty,
                self.y_req_dirty == old(self).y_req_dirty,
                self.x_alloc_dirty == old(self).x_alloc_dirty,
                self.y_alloc_dirty == old(self).y_alloc_dirty,
                forall|j: int| i <= j < n ==> self.children@[j] == old(self).children@[j],
                forall|j: int|
                    0 <= j < i ==> x_req_frame(#[trigger] self.children@[j],
                    old(self).children@[j]) && x_req_all_clean(self.children@[j]) && x_req_wf(
                        self.children@[j],
                    ) && (y_req_wf(old(self).children@[j]) ==> y_req_wf(self.children@[j])) && (
                    x_alloc_wf(old(self).children@[j]) ==> x_alloc_wf(self.children@[j])) && (
                    y_alloc_wf(old(self).children@[j]) ==> y_alloc_wf(self.children@[j])),
                forall|j: int|
                    0 <= j < i ==> (x_req_all_clean(old(self).children@[j]) ==> obs_eq(
                        #[trigger] self.children@[j],
                        old(self).children@[j],
                    )),
                any_child_changed == !(forall|j: int|
                    0 <= j < i ==> (#[trigger] self.children@[j]).x_req == old(
                        self,
                    ).children@[j].x_req),
            decreases n - i,
        {
            let ghost gi = i as int;
            let ghost pre_children = self.children@;
            let mut c = self.children.remove(i);
            proof {
                assert(c == old(self).children@[gi]);
                assert(x_req_wf(c));
                assert(decreases_to!(*old(self) => old(self).children));
                assert(decreases_to!(old(self).children => old(self).children@));
                assert(decreases_to!(old(self).children@ => old(self).children@[gi]));
                assert(decreases_to!(*old(self) => c));
            }
            let ch = c.update_x_req();
            self.children.insert(i, c);
            any_child_changed = any_child_changed || ch;
            proof {
                assert(self.children@ =~= pre_children.update(gi, self.children@[gi]));
                assert(forall|j: int|
                    0 <= j < pre_children.len() && j != gi ==> (#[trigger] self.children@[j])
                        == pre_children[j]);
                assert(self.children@[gi].x_req == old(self).children@[gi].x_req <==> !ch);
                if any_child_changed {
                    if ch {
                        assert(self.children@[gi].x_req != old(self).children@[gi].x_req);
                    } else {
                        let w = choose|j: int|
                            0 <= j < gi && (#[trigger] pre_children[j]).x_req != old(
                                self,
                            ).children@[j].x_req;
                        assert(self.children@[w].x_req != old(self).children@[w].x_req);
                    }
                } else {
                    assert forall|j: int| 0 <= j <= gi implies (#[trigger] self.children@[
                        j
                    ]).x_req == old(self).children@[j].x_req by {
                        if j < gi {
                            assert(self.children@[j] == pre_children[j]);
                            assert(pre_children[j].x_req == old(self).children@[j].x_req);
                        }
                    }
                }
            }
            i = i + 1;
        }
        let prev = self.x_req;
        if self.x_req_dirty || any_child_changed {
            let reqs = collect_x_reqs(&self.children);
            match self.arrangement {
                Arrangement::Leaf => {
                    self.x_req = self.leaf_x_req;
                },
                Arrangement::Column { y_spacing: _ys, ref_point_index: _r } => {
                    let pc = perp_checked(&reqs);
                    if pc.0 {
                        self.x_req = LReq::perpendicular_acc(&reqs);
                    }
                },
                Arrangement::Bin => {
                    let pc = perp_checked(&reqs);
                    if pc.0 {
                        self.x_req = LReq::perpendicular_acc(&reqs);
                    }
                },
                Arrangement::Row { x_spacing, ref_point_index } => {
                    let ok_index = match ref_point_index {
                        Some(j) => j < reqs.len(),
                        None => true,
                    };
                    if ok_index {
                        if let Some(_t) = acc_checked(&reqs, x_spacing) {
                            self.x_req = LReq::linear_acc(&reqs, x_spacing, ref_point_index);
                        }
                    }
                },
                Arrangement::Flow { x_spacing, y_spacing: _ys, indentation } => {
                    if flow_x_limits_checked(&reqs, x_spacing, indentation) {
                        self.x_req = flow_layout::requisition_x(&reqs, x_spacing, indentation);
                    }
                },
            }
            self.x_req_dirty = false;
            let now_changed = self.x_req != prev;
            if now_changed || any_child_changed {
                self.x_alloc_dirty = true;
            }
            proof {
                assert(stored_y_reqs(self.children@) =~= stored_y_reqs(old(self).children@));
                assert(y_req_rule(*self) == y_req_rule(*old(self)));
                assert(y_limits_here(*self) == y_limits_here(*old(self)));
                if !self.x_alloc_dirty {
                    assert(stored_x_reqs(self.children@) =~= stored_x_reqs(
                        old(self).children@,
                    ));
                }
                lemma_update_preserves_alloc_wf(*self, *old(self));
            }
            now_changed
        } else {
            self.x_req_dirty = false;
            proof {
                assert(stored_x_reqs(self.children@) =~= stored_x_reqs(old(self).children@));
                assert(stored_y_reqs(self.children@) =~= stored_y_reqs(old(self).children@));
                assert(y_req_rule(*self) == y_req_rule(*old(self)));
                assert(y_limits_here(*self) == y_limits_here(*old(self)));
                lemma_update_preserves_alloc_wf(*self, *old(self));
                if x_req_all_clean(*old(self)) {
                    assert forall|j: int| 0 <= j < n implies obs_eq(
                        #[trigger] self.children@[j],
                        old(self).children@[j],
                    ) by {
                        assert(x_req_all_clean(old(self).children@[j]));
                    }
                }
            }
            false
        }
    }
}

/// Machine bounds for a flow's x-requisition, checked at run time.
fn flow_x_limits_checked(reqs: &Vec<LReq>, x_spacing: u64, indentation: FlowIndent) -> (ok: bool)
    ensures
        ok == ({
            let s = reqs@;
            let ind = spec_indent_amount(indentation);
            let sep = flow_layout::spec_indented_reqs(s, indentation);
            &&& crate::lreq::spec_linear_size(s, x_spacing as int) + flow_layout::spec_first_indent(
                indentation,
            ) <= u64::MAX
            &&& crate::lreq::spec_linear_min(s, x_spacing as int) <= u64::MAX
            &&& crate::lreq::sum_stretch(s) <= u64::MAX
            &&& forall|k: int|
                0 <= k < s.len() ==> (#[trigger] s[k]).spec_size() + ind <= u64::MAX
                    && s[k].spec_min() + ind <= u64::MAX
            &&& crate::lreq::max_before(sep) + crate::lreq::max_after(sep) <= u64::MAX
        }),
{
    let ghost s = reqs@;
    let acc = acc_checked(reqs, x_spacing);
    let (linear, first, ind) = match (acc, indentation) {
        (None, _) => {
            return false;
        },
        (Some(t), FlowIndent::NoIndent) => (t.0, 0u64, 0u64),
        (Some(t), FlowIndent::First { indent }) => (t.0, indent, indent),
        (Some(t), FlowIndent::ExceptFirst { indent }) => (t.0, 0u64, indent),
    };
    if linear > u64::MAX - first {
        return false;
    }
    let n = reqs.len();
    let mut i: usize = 0;
    while i < n
        invariant
            0 <= i <= n == s.len(),
            s == reqs@,
            ind == spec_indent_amount(indentation),
            forall|k: int|
                0 <= k < i ==> (#[trigger] s[k]).spec_size() + ind <= u64::MAX && s[
                    k
                ].spec_min() + ind <= u64::MAX,
        decreases n - i,
    {
        let sz_ok = match reqs[i].size {
            LNatSize::Size { size } => size <= u64::MAX - ind,
            LNatSize::Ref { before, after } => {
                let room: bool = before as u128 + after as u128 + ind as u128 <= u64::MAX as u128;
                room
            },
        };
        let mn_ok = match reqs[i].flex {
            LFlex::Fixed => sz_ok,
            LFlex::Flex { stretch: _st, min } => min <= u64::MAX - ind,
        };
        if !sz_ok || !mn_ok {
            return false;
        }
        i = i + 1;
    }
    let mut indented: Vec<LReq> = Vec::new();
    let mut j: usize = 0;
    proof {
        assert(flow_layout::spec_indented_reqs(s, indentation).take(0) =~= Seq::<LReq>::empty());
        assert(flow_layout::spec_indented_reqs(s, indentation).len() == s.len());
    }
    while j < n
        invariant
            0 <= j <= n == s.len(),
            s == reqs@,
            forall|k: int|
                0 <= k < n ==> (#[trigger] s[k]).spec_size() + spec_indent_amount(indentation)
                    <= u64::MAX && s[k].spec_min() + spec_indent_amount(indentation) <= u64::MAX,
            indented@ == flow_layout::spec_indented_reqs(s, indentation).take(j as int),
        decreases n - j,
    {
        let r = match indentation {
            FlowIndent::NoIndent => reqs[j],
            FlowIndent::First { indent } => if j == 0 {
                reqs[j].indent(indent)
            } else {
                reqs[j]
            },
            FlowIndent::ExceptFirst { indent } => if j != 0 {
                reqs[j].indent(indent)
            } else {
                reqs[j]
            },
        };
        indented.push(r);
        proof {
            assert(flow_layout::spec_indented_reqs(s, indentation).take(j + 1)
                =~= flow_layout::spec_indented_reqs(s, indentation).take(j as int).push(
                flow_layout::spec_indented_reqs(s, indentation)[j as int],
            ));
        }
        j = j + 1;
    }
    proof {
        assert(flow_layout::spec_indented_reqs(s, indentation).take(n as int)
            =~= flow_layout::spec_indented_reqs(s, indentation));
    }
    let pc = perp_checked(&indented);
    pc.0
}


/// What the y-requisition phase leaves untouched: everything but the
/// cached y-requisition, the y dirty bits and the lines' stored
/// y-requisitions.
pub open spec fn y_req_frame(a: Element, b: Element) -> bool
    decreases b,
{
    &&& a.arrangement == b.arrangement
    &&& a.leaf_x_req == b.leaf_x_req
    &&& a.leaf_y_req == b.leaf_y_req
    &&& a.x_req == b.x_req
    &&& a.x_alloc == b.x_alloc
    &&& a.y_alloc == b.y_alloc
    &&& a.x_req_dirty == b.x_req_dirty
    &&& a.x_alloc_dirty == b.x_alloc_dirty
    &&& a.lines@.len() == b.lines@.len()
    &&& forall|l: int|
        0 <= l < b.lines@.len() ==> ({
            let la = a.lines@[l];
            let lb = #[trigger] b.lines@[l];
            la.pos_x_in_parent == lb.pos_x_in_parent && la.pos_y_in_parent == lb.pos_y_in_parent
                && la.start == lb.start && la.end == lb.end
        })
    &&& a.children@.len() == b.children@.len()
    &&& forall|i: int|
        0 <= i < b.children@.len() ==> y_req_frame(a.children@[i], #[trigger] b.children@[i])
}

/// Machine bounds for a flow's y-requisition, checked at run time.
fn flow_y_limits_checked(reqs: &Vec<LReq>, lines: &Vec<FlowLine>, y_spacing: u64) -> (ok: bool)
    ensures
        ok == ({
            let s = reqs@;
            &&& forall|l: int|
                0 <= l < lines@.len() ==> (#[trigger] lines@[l]).start <= lines@[l].end
                    <= s.len()
            &&& crate::lreq::max_before(s) + crate::lreq::max_after(s) + crate::lreq::max_min(s)
                <= u64::MAX
            &&& lines@.len() * (2 * (crate::lreq::max_before(s) + crate::lreq::max_after(s))
                + crate::lreq::max_min(s) + crate::lreq::max_stretch(s) + y_spacing)
                <= u64::MAX
        }),
{
    let ghost s = reqs@;
    let n = reqs.len();
    let n_lines = lines.len();
    let mut l: usize = 0;
    while l < n_lines
        invariant
            0 <= l <= n_lines == lines@.len(),
            n == s.len() == reqs@.len(),
            s == reqs@,
            forall|k: int|
                0 <= k < l ==> (#[trigger] lines@[k]).start <= lines@[k].end <= s.len(),
        decreases n_lines - l,
    {
        if !(lines[l].start <= lines[l].end && lines[l].end <= n) {
            return false;
        }
        l = l + 1;
    }
    let pc = perp_checked(reqs);
    if !pc.0 {
        proof {
            crate::lreq::lemma_max_nonneg(s);
        }
        return false;
    }
    let b = pc.1;
    let a = pc.2;
    let mn = pc.3;
    let st = pc.4;
    if mn > u64::MAX - (b + a) {
        return false;
    }
    let inner: u128 = 2 * ((b as u128) + (a as u128)) + (mn as u128) + (st as u128) + (
    y_spacing as u128);
    let ghost gcap = 2 * (crate::lreq::max_before(s) + crate::lreq::max_after(s))
        + crate::lreq::max_min(s) + crate::lreq::max_stretch(s) + y_spacing;
    proof {
        assert(inner == gcap);
    }
    if n_lines == 0 {
        proof {
            assert(0 * gcap == 0) by (nonlinear_arith);
        }
        return true;
    }
    if inner > u64::MAX as u128 {
        proof {
            assert((n_lines as int) * gcap >= 1 * gcap) by (nonlinear_arith)
                requires n_lines >= 1, gcap >= 0;
            assert(1 * gcap == gcap) by (nonlinear_arith);
        }
        return false;
    }
    proof {
        assert((n_lines as int) * (inner as int) <= (u64::MAX as int) * (u64::MAX as int))
            by (nonlinear_arith)
            requires 0 <= n_lines <= u64::MAX, 0 <= inner <= u64::MAX;
    }
    let prod_ok: bool = (n_lines as u128) * inner <= u64::MAX as u128;
    proof {
        assert((n_lines as u128) * inner == (n_lines as int) * gcap) by (nonlinear_arith)
            requires inner == gcap, 0 <= gcap <= u64::MAX, 0 <= n_lines <= u64::MAX;
    }
    prod_ok
}

impl Element {
    /// Phase three: recompute this subtree's y-requisitions bottom-up,
    /// mirroring phase one. A flow's per-line y-requisitions are refreshed
    /// from the line partition that phase two fixed, so this phase is
    /// meaningful only after allocate-x has run. Returns whether this
    /// node's y-requisition changed.
    #[verifier::rlimit(100)]
    pub fn update_y_req(&mut self) -> (changed: bool)
        requires
            y_req_wf(*old(self)),
        ensures
            y_req_frame(*final(self), *old(self)),
            y_req_all_clean(*final(self)),
            y_req_wf(*final(self)),
            changed == (final(self).y_req != old(self).y_req),
            y_req_all_clean(*old(self)) ==> obs_eq(*final(self), *old(self)) && !changed,
            x_req_wf(*old(self)) ==> x_req_wf(*final(self)),
            x_alloc_wf(*old(self)) ==> x_alloc_wf(*final(self)),
            y_alloc_wf(*old(self)) ==> y_alloc_wf(*final(self)),
        decreases *old(self),
    {
        let mut any_child_changed: bool = false;
        let mut i: usize = 0;
        let n = self.children.len();
        while i < n
            invariant
                0 <= i <= n == self.children@.len() == old(self).children@.len(),
                y_req_wf(*old(self)),
                self.arrangement == old(self).arrangement,
                self.leaf_x_req == old(self).leaf_x_req,
                self.leaf_y_req == old(self).leaf_y_req,
                self.x_req == old(self).x_req,
                self.y_req == old(self).y_req,
                self.x_alloc == old(self).x_alloc,
                self.y_alloc == old(self).y_alloc,
                self.lines == old(self).lines,
                self.x_req_dirty == old(self).x_req_dirty,
                self.y_req_dirty == old(self).y_req_dirty,
                self.x_alloc_dirty == old(self).x_alloc_dirty,
                self.y_alloc_dirty == old(self).y_alloc_dirty,
                forall|j: int| i <= j < n ==> self.children@[j] == old(self).children@[j],
                forall|j: int|
                    0 <= j < i ==> y_req_frame(#[trigger] self.children@[j],
                    old(self).children@[j]) && y_req_all_clean(self.children@[j]) && y_req_wf(
                        self.children@[j],
                    ) && (x_req_wf(old(self).children@[j]) ==> x_req_wf(self.children@[j])) && (
                    x_alloc_wf(old(self).children@[j]) ==> x_alloc_wf(self.children@[j])) && (
                    y_alloc_wf(old(self).children@[j]) ==> y_alloc_wf(self.children@[j])),
                forall|j: int|
                    0 <= j < i ==> (y_req_all_clean(old(self).children@[j]) ==> obs_eq(
                        #[trigger] self.children@[j],
                        old(self).children@[j],
                    )),
                any_child_changed == !(forall|j: int|
                    0 <= j < i ==> (#[trigger] self.children@[j]).y_req == old(
                        self,
                    ).children@[j].y_req),
            decreases n - i,
        {
            let ghost gi = i as int;
            let ghost pre_children = self.children@;
            let mut c = self.children.remove(i);
            proof {
                assert(c == old(self).children@[gi]);
                assert(y_req_wf(c));
                assert(decreases_to!(*old(self) => old(self).children));
                assert(decreases_to!(old(self).children => old(self).children@));
                assert(decreases_to!(old(self).children@ => old(self).children@[gi]));
                assert(decreases_to!(*old(self) => c));
            }
            let ch = c.update_y_req();
            self.children.insert(i, c);
            any_child_changed = any_child_changed || ch;
            proof {
                assert(self.children@ =~= pre_children.update(gi, self.children@[gi]));
                assert(forall|j: int|
                    0 <= j < pre_children.len() && j != gi ==> (#[trigger] self.children@[j])
                        == pre_children[j]);
                assert(self.children@[gi].y_req == old(self).children@[gi].y_req <==> !ch);
                if any_child_changed {
                    if ch {
                        assert(self.children@[gi].y_req != old(self).children@[gi].y_req);
                    } else {
                        let w = choose|j: int|
                            0 <= j < gi && (#[trigger] pre_children[j]).y_req != old(
                                self,
                            ).children@[j].y_req;
                        assert(self.children@[w].y_req != old(self).children@[w].y_req);
                    }
                } else {
                    assert forall|j: int| 0 <= j <= gi implies (#[trigger] self.children@[
                        j
                    ]).y_req == old(self).children@[j].y_req by {
                        if j < gi {
                            assert(self.children@[j] == pre_children[j]);
                            assert(pre_children[j].y_req == old(self).children@[j].y_req);
                        }
                    }
                }
            }
            i = i + 1;
        }
        let prev = self.y_req;
        if self.y_req_dirty || any_child_changed {
            let reqs = collect_y_reqs(&self.children);
            match self.arrangement {
                Arrangement::Leaf => {
                    self.y_req = self.leaf_y_req;
                },
                Arrangement::Row { x_spacing: _xs, ref_point_index: _r } => {
                    let pc = perp_checked(&reqs);
                    if pc.0 {
                        self.y_req = LReq::perpendicular_acc(&reqs);
                    }
                },
                Arrangement::Bin => {
                    let pc = perp_checked(&reqs);
                    if pc.0 {
                        self.y_req = LReq::perpendicular_acc(&reqs);
                    }
                },
                Arrangement::Column { y_spacing, ref_point_index } => {
                    let ok_index = match ref_point_index {
                        Some(j) => j < reqs.len(),
                        None => true,
                    };
                    if ok_index {
                        if let Some(_t) = acc_checked(&reqs, y_spacing) {
                            self.y_req = LReq::linear_acc(&reqs, y_spacing, ref_point_index);
                        }
                    }
                },
                Arrangement::Flow { x_spacing: _xs, y_spacing, indentation: _ind } => {
                    if flow_y_limits_checked(&reqs, &self.lines, y_spacing) {
                        let r = flow_layout::requisition_y(&reqs, y_spacing, &mut self.lines);
                        self.y_req = r;
                        self.y_alloc_dirty = true;
                        proof {
                            assert(flow_layout::line_y_reqs(self.lines@) =~= flow_line_reqs(
                                stored_y_reqs(self.children@),
                                self.lines@,
                            ));
                        }
                    }
                },
            }
            self.y_req_dirty = false;
            let now_changed = self.y_req != prev;
            if now_changed || any_child_changed {
                self.y_alloc_dirty = true;
            }
            proof {
                assert(stored_x_reqs(self.children@) =~= stored_x_reqs(old(self).children@));
                assert(x_req_rule(*self) == x_req_rule(*old(self)));
                assert(x_limits_here_x(*self) == x_limits_here_x(*old(self)));
                if !self.y_alloc_dirty {
                    assert(stored_y_reqs(self.children@) =~= stored_y_reqs(
                        old(self).children@,
                    ));
                }
                lemma_update_preserves_alloc_wf(*self, *old(self));
            }
            now_changed
        } else {
            self.y_req_dirty = false;
            proof {
                assert(stored_y_reqs(self.children@) =~= stored_y_reqs(old(self).children@));
                assert(stored_x_reqs(self.children@) =~= stored_x_reqs(old(self).children@));
                assert(x_req_rule(*self) == x_req_rule(*old(self)));
                assert(x_limits_here_x(*self) == x_limits_here_x(*old(self)));
                lemma_update_preserves_alloc_wf(*self, *old(self));
                if y_req_all_clean(*old(self)) {
                    assert forall|j: int| 0 <= j < n implies obs_eq(
                        #[trigger] self.children@[j],
                        old(self).children@[j],
                    ) by {
                        assert(y_req_all_clean(old(self).children@[j]));
                    }
                }
            }
            false
        }
    }
}


/// What the x-allocation phase leaves untouched: everything but the
/// children's x-allocations, the x-allocation dirty bits, a flow's line
/// partition and, when the partition changes, the y-requisition bit.
pub open spec fn alloc_x_frame(a: Element, b: Element) -> bool
    decreases b,
{
    &&& a.arrangement == b.arrangement
    &&& a.leaf_x_req == b.leaf_x_req
    &&& a.leaf_y_req == b.leaf_y_req
    &&& a.x_req == b.x_req
    &&& a.y_req == b.y_req
    &&& a.y_alloc == b.y_alloc
    &&& a.x_req_dirty == b.x_req_dirty
    &&& a.children@.len() == b.children@.len()
    &&& forall|i: int|
        0 <= i < b.children@.len() ==> alloc_x_frame(a.children@[i], #[trigger] b.children@[i])
}

/// Whether two line partitions are identical.
fn lines_eq(a: &Vec<FlowLine>, b: &Vec<FlowLine>) -> (r: bool)
    ensures
        r == (a@ == b@),
{
    if a.len() != b.len() {
        proof {
            assert(a@.len() != b@.len());
        }
        return false;
    }
    let n = a.len();
    let mut i: usize = 0;
    while i < n
        invariant
            0 <= i <= n == a@.len() == b@.len(),
            forall|j: int| 0 <= j < i ==> a@[j] == b@[j],
        decreases n - i,
    {
        let av = a[i];
        let bv = b[i];
        if !(av == bv) {
            proof {
                assert(a@[i as int] != b@[i as int]);
            }
            return false;
        }
        i = i + 1;
    }
    proof {
        assert(a@ =~= b@);
    }
    true
}

/// The x-allocations this node's arrangement distributes to its
/// children, with a flow's fresh line partition; nothing when the
/// inputs would pass the machine word or contradict the tree invariant.
fn distribute_x(e: &Element) -> (r: Option<(Vec<LAlloc>, Option<Vec<FlowLine>>)>)
    ensures
        e.arrangement is Leaf ==> r is None,
        !(e.arrangement is Leaf) ==> (r is Some <==> x_alloc_limits_here(*e)),
        r is Some ==> ({
            let t = r->0;
            &&& t.0@.len() == e.children@.len()
            &&& plain_x_dist_ok(*e, t.0@)
            &&& (e.arrangement is Flow ==> t.1 is Some && t.1->0@ == spec_flow_x_lines(*e)
                && flow_x_allocs_ok(*e, t.0@, t.1->0@))
            &&& (!(e.arrangement is Flow) ==> t.1 is None)
        }),
{
    let reqs = collect_x_reqs(&e.children);
    let n = reqs.len();
    let mut all_wf = true;
    let mut i: usize = 0;
    while i < n
        invariant
            0 <= i <= n == reqs@.len(),
            reqs@ == stored_x_reqs(e.children@),
            all_wf == (forall|k: int| 0 <= k < i ==> (#[trigger] reqs@[k]).wf()),
        decreases n - i,
    {
        if !reqs[i].wf_check() {
            all_wf = false;
        }
        i = i + 1;
    }
    if !all_wf {
        return None;
    }
    match e.arrangement {
        Arrangement::Leaf => None,
        Arrangement::Column { y_spacing: _ys, ref_point_index: _r } => {
            let ok = match e.x_alloc.ref_point() {
                Some(rp) => e.x_alloc.pos_in_parent() <= u64::MAX - rp,
                None => true,
            };
            if ok {
                Some((vertical_layout::alloc_x(&e.x_req, &e.x_alloc, &reqs), None))
            } else {
                None
            }
        },
        Arrangement::Bin => {
            let ok = match e.x_alloc.ref_point() {
                Some(rp) => e.x_alloc.pos_in_parent() <= u64::MAX - rp,
                None => true,
            };
            if ok {
                Some((vertical_layout::alloc_x(&e.x_req, &e.x_alloc, &reqs), None))
            } else {
                None
            }
        },
        Arrangement::Row { x_spacing, ref_point_index } => {
            if !e.x_req.wf_check() {
                return None;
            }
            match acc_checked(&reqs, x_spacing) {
                None => None,
                Some(t) => {
                    let pos = e.x_alloc.pos_in_parent();
                    let total = e.x_alloc.alloc_size();
                    if pos > u64::MAX - total || pos > u64::MAX - t.0 {
                        return None;
                    }
                    if total > e.x_req.size() && e.x_req.size() != t.0 {
                        return None;
                    }
                    Some(
                        (
                            vertical_layout::alloc_y(&e.x_req, &e.x_alloc, &reqs, x_spacing,
                                ref_point_index),
                            None,
                        ),
                    )
                },
            }
        },
        Arrangement::Flow { x_spacing, y_spacing: _ys, indentation } => {
            if !e.x_req.wf_check() {
                return None;
            }
            match e.x_req.ref_point() {
                Some(_rp) => None,
                None => {
                    match acc_checked(&reqs, x_spacing) {
                        None => None,
                        Some(t) => {
                            let first: u64 = match indentation {
                                FlowIndent::First { indent } => indent,
                                _ => 0,
                            };
                            let rest: u64 = match indentation {
                                FlowIndent::ExceptFirst { indent } => indent,
                                _ => 0,
                            };
                            if t.0 > u64::MAX - first || e.x_req.size() != t.0 + first {
                                return None;
                            }
                            let pos = e.x_alloc.pos_in_parent();
                            let total = e.x_alloc.alloc_size();
                            if pos > u64::MAX - total {
                                return None;
                            }
                            let budget: u128 = (rest as u128) + (e.x_req.size() as u128);
                            if (pos as u128) + budget > u64::MAX as u128 {
                                return None;
                            }
                            let (allocs, lines) = flow_layout::alloc_x(&e.x_req, &e.x_alloc,
                                &reqs, x_spacing, indentation);
                            Some((allocs, Some(lines)))
                        },
                    }
                },
            }
        },
    }
}

impl Element {
    /// Phase two (and, mirrored, phase four): receive this node's
    /// x-region from its parent and distribute it to the children,
    /// top-down. A node whose received region and dirty bit are both
    /// unchanged redistributes nothing; a child whose assigned
    /// allocation changes is marked for redistribution itself; a flow
    /// whose line partition changes marks its own y-requisition stale. A
    /// distribution whose inputs would pass the machine word or
    /// contradict the tree invariant leaves the children's allocations
    /// unchanged.
    #[verifier::rlimit(100)]
    pub fn allocate_x(&mut self, region: LAlloc)
        ensures
            alloc_x_frame(*final(self), *old(self)),
            final(self).x_alloc == region,
            x_alloc_all_clean(*final(self)),
            x_alloc_all_clean(*old(self)) && region == old(self).x_alloc ==> obs_eq(
                *final(self),
                *old(self),
            ),
            x_req_wf(*old(self)) ==> x_req_wf(*final(self)),
            y_req_wf(*old(self)) ==> y_req_wf(*final(self)),
            x_alloc_wf(*old(self)) ==> x_alloc_wf(*final(self)),
            y_alloc_wf(*old(self)) ==> y_alloc_wf(*final(self)),
        decreases *old(self),
    {
        if !(self.x_alloc == region) {
            self.x_alloc = region;
            self.x_alloc_dirty = true;
        }
        let redo = self.x_alloc_dirty;
        let mut dist: Option<Vec<LAlloc>> = None;
        let ghost at_call = *self;
        if redo {
            match distribute_x(self) {
                Some((allocs, newlines)) => {
                    dist = Some(allocs);
                    match newlines {
                        Some(nl) => {
                            if !lines_eq(&nl, &self.lines) {
                                self.lines = nl;
                                self.y_req_dirty = true;
                                self.y_alloc_dirty = true;
                            }
                            proof {
                                assert(self.lines@ == nl@);
                            }
                        },
                        None => {},
                    }
                },
                None => {},
            }
        }
        self.x_alloc_dirty = false;
        let mut i: usize = 0;
        let n = self.children.len();
        while i < n
            invariant
                0 <= i <= n == self.children@.len() == old(self).children@.len(),
                self.arrangement == old(self).arrangement,
                self.leaf_x_req == old(self).leaf_x_req,
                self.leaf_y_req == old(self).leaf_y_req,
                self.x_req == old(self).x_req,
                self.y_req == old(self).y_req,
                self.lines@ == old(self).lines@ || self.y_req_dirty,
                self.y_req_dirty == old(self).y_req_dirty || self.y_req_dirty,
                self.x_alloc == region,
                self.y_alloc == old(self).y_alloc,
                self.x_req_dirty == old(self).x_req_dirty,
                self.y_alloc_dirty == old(self).y_alloc_dirty || self.y_alloc_dirty,
                !self.x_alloc_dirty,
                !redo ==> self.lines == old(self).lines && self.y_req_dirty == old(
                    self,
                ).y_req_dirty && self.y_alloc_dirty == old(self).y_alloc_dirty && dist is None
                    && region == old(self).x_alloc,
                dist is Some ==> dist->0@.len() == n,
                at_call.arrangement == old(self).arrangement,
                at_call.x_req == old(self).x_req,
                at_call.x_alloc == region,
                at_call.children@ == old(self).children@,
                dist is Some ==> plain_x_dist_ok(at_call, dist->0@),
                dist is Some && at_call.arrangement is Flow ==> self.lines@ == spec_flow_x_lines(
                    at_call,
                ) && flow_x_allocs_ok(at_call, dist->0@, self.lines@),
                redo && dist is None && !(at_call.arrangement is Leaf)
                    ==> !x_alloc_limits_here(at_call),
                !self.y_alloc_dirty ==> self.lines@ == old(self).lines@ && !old(
                    self,
                ).y_alloc_dirty,
                forall|j: int| i <= j < n ==> self.children@[j] == old(self).children@[j],
                forall|j: int|
                    0 <= j < i ==> alloc_x_frame(#[trigger] self.children@[j],
                    old(self).children@[j]) && x_alloc_all_clean(self.children@[j]) && (
                    x_req_wf(old(self).children@[j]) ==> x_req_wf(self.children@[j])) && (
                    y_req_wf(old(self).children@[j]) ==> y_req_wf(self.children@[j])) && (
                    x_alloc_wf(old(self).children@[j]) ==> x_alloc_wf(self.children@[j])) && (
                    y_alloc_wf(old(self).children@[j]) ==> y_alloc_wf(self.children@[j])),
                forall|j: int|
                    0 <= j < i && dist is Some ==> (#[trigger] self.children@[j]).x_alloc
                        == dist->0@[j],
                forall|j: int|
                    0 <= j < i && dist is None ==> (#[trigger] self.children@[j]).x_alloc == old(
                        self,
                    ).children@[j].x_alloc,
                forall|j: int|
                    0 <= j < i ==> (x_alloc_all_clean(old(self).children@[j]) && dist is None
                        ==> obs_eq(#[trigger] self.children@[j], old(self).children@[j])),
            decreases n - i,
        {
            let ghost gi = i as int;
            let ghost pre_children = self.children@;
            let mut c = self.children.remove(i);
            proof {
                assert(c == old(self).children@[gi]);
                assert(decreases_to!(*old(self) => old(self).children));
                assert(decreases_to!(old(self).children => old(self).children@));
                assert(decreases_to!(old(self).children@ => old(self).children@[gi]));
                assert(decreases_to!(*old(self) => c));
            }
            let child_region = match &dist {
                Some(allocs) => allocs[i],
                None => c.x_alloc,
            };
            c.allocate_x(child_region);
            self.children.insert(i, c);
            proof {
                assert(self.children@ =~= pre_children.update(gi, self.children@[gi]));
                assert(forall|j: int|
                    0 <= j < pre_children.len() && j != gi ==> (#[trigger] self.children@[j])
                        == pre_children[j]);
            }
            i = i + 1;
        }
        proof {
            assert(stored_x_reqs(self.children@) =~= stored_x_reqs(old(self).children@));
            assert(stored_y_reqs(self.children@) =~= stored_y_reqs(old(self).children@));
            assert(x_req_rule(*self) == x_req_rule(*old(self)));
            assert(x_limits_here_x(*self) == x_limits_here_x(*old(self)));
            if !self.y_req_dirty {
                assert(self.lines@ == old(self).lines@);
                assert(y_req_rule(*self) == y_req_rule(*old(self)));
                assert(y_limits_here(*self) == y_limits_here(*old(self)));
            }
            if x_alloc_wf(*old(self)) {
                assert(stored_x_reqs(self.children@) == stored_x_reqs(at_call.children@));
                if x_alloc_limits_here(*self) {
                    if redo {
                        match dist {
                            Some(allocs) => {
                                assert(children_x_allocs(self.children@) =~= allocs@);
                                assert(plain_x_dist_ok(*self, children_x_allocs(
                                    self.children@,
                                ))) by {
                                    assert(plain_x_dist_ok(at_call, allocs@));
                                }
                                if self.arrangement is Flow {
                                    assert(spec_flow_x_lines(*self) == spec_flow_x_lines(
                                        at_call,
                                    ));
                                    assert(lines_match_x(self.lines@, spec_flow_x_lines(
                                        *self,
                                    )));
                                    assert(flow_x_allocs_ok(*self, children_x_allocs(
                                        self.children@,
                                    ), self.lines@)) by {
                                        assert(flow_x_allocs_ok(at_call, allocs@, self.lines@));
                                    }
                                }
                                assert(x_alloc_rule_ok(*self));
                            },
                            None => {
                                if self.arrangement is Leaf {
                                    assert(children_x_allocs(self.children@).len()
                                        == stored_x_reqs(self.children@).len());
                                    assert(x_alloc_rule_ok(*self));
                                } else {
                                    assert(x_alloc_limits_here(at_call)
                                        == x_alloc_limits_here(*self));
                                    assert(false);
                                }
                            },
                        }
                    } else {
                        assert(children_x_allocs(self.children@) =~= children_x_allocs(
                            old(self).children@,
                        ));
                        lemma_x_alloc_node_congruent(*self, *old(self));
                        assert(x_alloc_rule_ok(*old(self)));
                        assert(x_alloc_rule_ok(*self));
                    }
                }
                assert(x_alloc_wf(*final(self)));
            }
            if y_alloc_wf(*old(self)) {
                if !self.y_alloc_dirty {
                    assert(children_y_allocs(self.children@) =~= children_y_allocs(
                        old(self).children@,
                    ));
                    lemma_y_alloc_node_congruent(*self, *old(self));
                }
                assert(y_alloc_wf(*final(self)));
            }
        }
    }
}


/// What the y-allocation phase leaves untouched: everything but the
/// children's y-allocations, the y-allocation dirty bits and the lines'
/// recorded y-positions.
pub open spec fn alloc_y_frame(a: Element, b: Element) -> bool
    decreases b,
{
    &&& a.arrangement == b.arrangement
    &&& a.leaf_x_req == b.leaf_x_req
    &&& a.leaf_y_req == b.leaf_y_req
    &&& a.x_req == b.x_req
    &&& a.y_req == b.y_req
    &&& a.x_alloc == b.x_alloc
    &&& a.x_req_dirty == b.x_req_dirty
    &&& a.y_req_dirty == b.y_req_dirty
    &&& a.x_alloc_dirty == b.x_alloc_dirty
    &&& a.lines@.len() == b.lines@.len()
    &&& forall|l: int|
        0 <= l < b.lines@.len() ==> ({
            let la = a.lines@[l];
            let lb = #[trigger] b.lines@[l];
            la.y_req == lb.y_req && la.pos_x_in_parent == lb.pos_x_in_parent && la.start
                == lb.start && la.end == lb.end
        })
    &&& a.children@.len() == b.children@.len()
    &&& forall|i: int|
        0 <= i < b.children@.len() ==> alloc_y_frame(a.children@[i], #[trigger] b.children@[i])
}

/// The y-allocations this node's arrangement distributes to its
/// children, for the arrangements that do not touch the line partition;
/// nothing when the inputs would pass the machine word or contradict the
/// tree invariant.
fn distribute_y_plain(e: &Element) -> (r: Option<Vec<LAlloc>>)
    ensures
        r is Some ==> r->0@.len() == e.children@.len(),
        e.arrangement is Leaf || e.arrangement is Flow ==> r is None,
        !(e.arrangement is Leaf) && !(e.arrangement is Flow) ==> (r is Some
            <==> y_alloc_limits_here(*e)),
        r is Some ==> plain_y_dist_ok(*e, r->0@),
{
    let reqs = collect_y_reqs(&e.children);
    let n = reqs.len();
    let mut all_wf = true;
    let mut i: usize = 0;
    while i < n
        invariant
            0 <= i <= n == reqs@.len(),
            reqs@ == stored_y_reqs(e.children@),
            all_wf == (forall|k: int| 0 <= k < i ==> (#[trigger] reqs@[k]).wf()),
        decreases n - i,
    {
        if !reqs[i].wf_check() {
            all_wf = false;
        }
        i = i + 1;
    }
    if !all_wf {
        return None;
    }
    match e.arrangement {
        Arrangement::Leaf => None,
        Arrangement::Flow { x_spacing: _xs, y_spacing: _ys, indentation: _ind } => None,
        Arrangement::Row { x_spacing: _xs, ref_point_index: _r } => {
            let ok = match e.y_alloc.ref_point() {
                Some(rp) => e.y_alloc.pos_in_parent() <= u64::MAX - rp,
                None => true,
            };
            if ok {
                Some(vertical_layout::alloc_x(&e.y_req, &e.y_alloc, &reqs))
            } else {
                None
            }
        },
        Arrangement::Bin => {
            let ok = match e.y_alloc.ref_point() {
                Some(rp) => e.y_alloc.pos_in_parent() <= u64::MAX - rp,
                None => true,
            };
            if ok {
                Some(vertical_layout::alloc_x(&e.y_req, &e.y_alloc, &reqs))
            } else {
                None
            }
        },
        Arrangement::Column { y_spacing, ref_point_index } => {
            if !e.y_req.wf_check() {
                return None;
            }
            match acc_checked(&reqs, y_spacing) {
                None => None,
                Some(t) => {
                    let pos = e.y_alloc.pos_in_parent();
                    let total = e.y_alloc.alloc_size();
                    if pos > u64::MAX - total || pos > u64::MAX - t.0 {
                        return None;
                    }
                    if total > e.y_req.size() && e.y_req.size() != t.0 {
                        return None;
                    }
                    Some(
                        vertical_layout::alloc_y(&e.y_req, &e.y_alloc, &reqs, y_spacing,
                            ref_point_index),
                    )
                },
            }
        },
    }
}

impl Element {
    /// The flow's y distribution: allocate the lines linearly, then each
    /// child from its own line's band, recording the lines' positions.
    /// Nothing is touched when the inputs would pass the machine word or
    /// contradict the tree invariant.
    fn distribute_y_flow(&mut self, y_spacing: u64) -> (r: Option<Vec<LAlloc>>)
        requires
            old(self).arrangement matches Arrangement::Flow { x_spacing: _x, y_spacing: ys,
                indentation: _i } && ys == y_spacing,
        ensures
            r is Some ==> r->0@.len() == old(self).children@.len(),
            r is Some <==> y_alloc_limits_here(*old(self)),
            r is Some ==> flow_y_lines_ok(*final(self)) && flow_y_bands_ok(*final(self), r->0@)
                && plain_y_dist_ok(*final(self), r->0@),
            final(self).arrangement == old(self).arrangement,
            final(self).children@ == old(self).children@,
            final(self).leaf_x_req == old(self).leaf_x_req,
            final(self).leaf_y_req == old(self).leaf_y_req,
            final(self).x_req == old(self).x_req,
            final(self).y_req == old(self).y_req,
            final(self).x_alloc == old(self).x_alloc,
            final(self).y_alloc == old(self).y_alloc,
            final(self).x_req_dirty == old(self).x_req_dirty,
            final(self).y_req_dirty == old(self).y_req_dirty,
            final(self).x_alloc_dirty == old(self).x_alloc_dirty,
            final(self).y_alloc_dirty == old(self).y_alloc_dirty,
            final(self).lines@.len() == old(self).lines@.len(),
            forall|l: int|
                0 <= l < old(self).lines@.len() ==> ({
                    let la = final(self).lines@[l];
                    let lb = #[trigger] old(self).lines@[l];
                    la.y_req == lb.y_req && la.pos_x_in_parent == lb.pos_x_in_parent && la.start
                        == lb.start && la.end == lb.end
                }),
            r is None ==> final(self).lines@ == old(self).lines@,
    {
        let reqs = collect_y_reqs(&self.children);
        let n = reqs.len();
        let n_lines = self.lines.len();
        let mut all_wf = true;
        let mut i: usize = 0;
        while i < n
            invariant
                0 <= i <= n == reqs@.len(),
                reqs@ == stored_y_reqs(self.children@),
                *self == *old(self),
                all_wf == (forall|k: int| 0 <= k < i ==> (#[trigger] reqs@[k]).wf()),
            decreases n - i,
        {
            if !reqs[i].wf_check() {
                all_wf = false;
            }
            i = i + 1;
        }
        if !all_wf || !self.y_req.wf_check() {
            return None;
        }
        let mut l: usize = 0;
        let mut ranges_ok = true;
        while l < n_lines
            invariant
                0 <= l <= n_lines == self.lines@.len(),
                n == self.children@.len() == reqs@.len(),
                *self == *old(self),
                ranges_ok == ((forall|k: int|
                    0 <= k < l ==> (#[trigger] self.lines@[k]).start <= self.lines@[k].end
                        <= n && self.lines@[k].y_req.wf()) && (forall|a: int, b: int|
                    #![trigger self.lines@[a], self.lines@[b]]
                    0 <= a < b < l ==> self.lines@[a].end <= self.lines@[b].start)),
            decreases n_lines - l,
        {
            let line = self.lines[l];
            let mut step_ok = true;
            if !(line.start <= line.end && line.end <= n) || !line.y_req.wf_check() {
                step_ok = false;
            }
            if l > 0 {
                let prev = self.lines[l - 1];
                if prev.end > line.start {
                    step_ok = false;
                }
            }
            proof {
                if !step_ok {
                } else {
                    assert(self.lines@[l as int].start <= self.lines@[l as int].end <= n
                        && self.lines@[l as int].y_req.wf());
                    assert forall|a: int, b: int|
                        #![trigger self.lines@[a], self.lines@[b]]
                        0 <= a < b < l + 1 && ranges_ok implies self.lines@[a].end
                        <= self.lines@[b].start by {
                        if b < l {
                        } else {
                            assert(b == l);
                            if a == l - 1 {
                            } else {
                                assert(self.lines@[a].end <= self.lines@[l - 1].start);
                                assert(self.lines@[l - 1].start <= self.lines@[l - 1].end);
                            }
                        }
                    }
                }
            }
            ranges_ok = ranges_ok && step_ok;
            l = l + 1;
        }
        if !ranges_ok {
            return None;
        }
        let mut line_reqs: Vec<LReq> = Vec::new();
        let mut k: usize = 0;
        proof {
            assert(flow_layout::line_y_reqs(self.lines@).take(0) =~= Seq::<LReq>::empty());
        }
        while k < n_lines
            invariant
                0 <= k <= n_lines == self.lines@.len(),
                *self == *old(self),
                line_reqs@ == flow_layout::line_y_reqs(self.lines@).take(k as int),
            decreases n_lines - k,
        {
            line_reqs.push(self.lines[k].y_req);
            proof {
                assert(flow_layout::line_y_reqs(self.lines@).take(k + 1) =~= flow_layout::line_y_reqs(
                    self.lines@,
                ).take(k as int).push(self.lines@[k as int].y_req));
            }
            k = k + 1;
        }
        proof {
            assert(flow_layout::line_y_reqs(self.lines@).take(n_lines as int)
                =~= flow_layout::line_y_reqs(self.lines@));
        }
        match acc_checked(&line_reqs, y_spacing) {
            None => None,
            Some(t) => {
                let pos = self.y_alloc.pos_in_parent();
                let total = self.y_alloc.alloc_size();
                if pos > u64::MAX - total || pos > u64::MAX - t.0 {
                    return None;
                }
                if total > self.y_req.size() && t.2 > 0 && self.y_req.size() != t.0 {
                    return None;
                }
                let box_req = self.y_req;
                let box_alloc = self.y_alloc;
                let ghost pre_lines = self.lines@;
                let allocs = flow_layout::alloc_y(&box_req, &box_alloc, &reqs, y_spacing,
                    &mut self.lines);
                proof {
                    let lr_new = flow_layout::line_y_reqs(self.lines@);
                    let lr_old = flow_layout::line_y_reqs(pre_lines);
                    assert(lr_new =~= lr_old);
                    assert(flow_y_lines_ok(*self)) by {
                        assert forall|l: int| 0 <= l < self.lines@.len() implies (
                        #[trigger] self.lines@[l]).pos_y_in_parent
                            == crate::lalloc::spec_child_pos(lr_new, self.y_req.spec_size(),
                            self.y_alloc.pos_in_parent as int, self.y_alloc.alloc_size as int,
                            y_spacing as int, l) as u64 by {
                            assert(self.lines@[l] == (FlowLine {
                                pos_y_in_parent: crate::lalloc::spec_child_pos(lr_old,
                                    box_req.spec_size(), box_alloc.pos_in_parent as int,
                                    box_alloc.alloc_size as int, y_spacing as int, l) as u64,
                                ..pre_lines[l]
                            }));
                        }
                    }
                    assert(flow_y_bands_ok(*self, allocs@)) by {
                        assert forall|l: int, c: int|
                            #![trigger self.lines@[l], allocs@[c]]
                            0 <= l < self.lines@.len() && self.lines@[l].start <= c
                                < self.lines@[l].end && 0 <= c < allocs@.len() implies ({
                            let band_pos = crate::lalloc::spec_child_pos(lr_new,
                                self.y_req.spec_size(), self.y_alloc.pos_in_parent as int,
                                self.y_alloc.alloc_size as int, y_spacing as int, l);
                            let band_size = crate::lalloc::spec_child_size(lr_new,
                                self.y_req.spec_size(), self.y_alloc.alloc_size as int, l);
                            let band_ref = crate::lalloc::spec_region_ref(lr_new[l]);
                            allocs@[c].pos_in_parent == crate::lalloc::spec_region_pos(
                                stored_y_reqs(self.children@)[c],
                                band_pos,
                                band_ref,
                            ) && allocs@[c].alloc_size == crate::lalloc::spec_region_size(
                                stored_y_reqs(self.children@)[c],
                                band_size,
                            ) && allocs@[c].ref_point == crate::lalloc::spec_region_ref(
                                stored_y_reqs(self.children@)[c],
                            )
                        }) by {
                            assert(pre_lines[l].start == self.lines@[l].start
                                && pre_lines[l].end == self.lines@[l].end);
                            assert(reqs@[c] == stored_y_reqs(self.children@)[c]);
                        }
                    }
                }
                Some(allocs)
            },
        }
    }

    /// Phase four: receive this node's y-region from its parent and
    /// distribute it to the children top-down, mirroring phase two. A
    /// flow allocates its lines down the secondary axis and every child
    /// from its own line's band.
    #[verifier::rlimit(100)]
    pub fn allocate_y(&mut self, region: LAlloc)
        ensures
            alloc_y_frame(*final(self), *old(self)),
            final(self).y_alloc == region,
            y_alloc_all_clean(*final(self)),
            y_alloc_all_clean(*old(self)) && region == old(self).y_alloc ==> obs_eq(
                *final(self),
                *old(self),
            ),
            x_req_wf(*old(self)) ==> x_req_wf(*final(self)),
            y_req_wf(*old(self)) ==> y_req_wf(*final(self)),
            x_alloc_wf(*old(self)) ==> x_alloc_wf(*final(self)),
            y_alloc_wf(*old(self)) ==> y_alloc_wf(*final(self)),
        decreases *old(self),
    {
        if !(self.y_alloc == region) {
            self.y_alloc = region;
            self.y_alloc_dirty = true;
        }
        let redo = self.y_alloc_dirty;
        let mut dist: Option<Vec<LAlloc>> = None;
        let ghost at_call = *self;
        if redo {
            let is_flow = match self.arrangement {
                Arrangement::Flow { x_spacing: _a, y_spacing: _b, indentation: _c } => true,
                _ => false,
            };
            if is_flow {
                let sp = match self.arrangement {
                    Arrangement::Flow { x_spacing: _a, y_spacing, indentation: _c } => y_spacing,
                    _ => 0,
                };
                dist = self.distribute_y_flow(sp);
            } else {
                dist = distribute_y_plain(self);
            }
        }
        self.y_alloc_dirty = false;
        let ghost after_dist = *self;
        let mut i: usize = 0;
        let n = self.children.len();
        while i < n
            invariant
                0 <= i <= n == self.children@.len() == old(self).children@.len(),
                self.arrangement == old(self).arrangement,
                self.leaf_x_req == old(self).leaf_x_req,
                self.leaf_y_req == old(self).leaf_y_req,
                self.x_req == old(self).x_req,
                self.y_req == old(self).y_req,
                self.x_alloc == old(self).x_alloc,
                self.y_alloc == region,
                self.x_req_dirty == old(self).x_req_dirty,
                self.y_req_dirty == old(self).y_req_dirty,
                self.x_alloc_dirty == old(self).x_alloc_dirty,
                !self.y_alloc_dirty,
                self.lines@.len() == old(self).lines@.len(),
                forall|l: int|
                    0 <= l < old(self).lines@.len() ==> ({
                        let la = self.lines@[l];
                        let lb = #[trigger] old(self).lines@[l];
                        la.y_req == lb.y_req && la.pos_x_in_parent == lb.pos_x_in_parent
                            && la.start == lb.start && la.end == lb.end
                    }),
                !redo ==> self.lines@ == old(self).lines@ && dist is None && region == old(
                    self,
                ).y_alloc,
                dist is Some ==> dist->0@.len() == n,
                self.lines@ == after_dist.lines@,
                after_dist.arrangement == old(self).arrangement,
                after_dist.y_req == old(self).y_req,
                after_dist.y_alloc == region,
                after_dist.children@ == old(self).children@,
                at_call.arrangement == old(self).arrangement,
                at_call.y_req == old(self).y_req,
                at_call.y_alloc == region,
                at_call.children@ == old(self).children@,
                at_call.lines@ == old(self).lines@,
                dist is Some ==> plain_y_dist_ok(after_dist, dist->0@),
                dist is Some && after_dist.arrangement is Flow ==> flow_y_lines_ok(after_dist)
                    && flow_y_bands_ok(after_dist, dist->0@),
                redo && dist is None && !(at_call.arrangement is Leaf)
                    ==> !y_alloc_limits_here(at_call),
                forall|j: int| i <= j < n ==> self.children@[j] == old(self).children@[j],
                forall|j: int|
                    0 <= j < i ==> alloc_y_frame(#[trigger] self.children@[j],
                    old(self).children@[j]) && y_alloc_all_clean(self.children@[j]) && (
                    x_req_wf(old(self).children@[j]) ==> x_req_wf(self.children@[j])) && (
                    y_req_wf(old(self).children@[j]) ==> y_req_wf(self.children@[j])) && (
                    x_alloc_wf(old(self).children@[j]) ==> x_alloc_wf(self.children@[j])) && (
                    y_alloc_wf(old(self).children@[j]) ==> y_alloc_wf(self.children@[j])),
                forall|j: int|
                    0 <= j < i && dist is Some ==> (#[trigger] self.children@[j]).y_alloc
                        == dist->0@[j],
                forall|j: int|
                    0 <= j < i && dist is None ==> (#[trigger] self.children@[j]).y_alloc == old(
                        self,
                    ).children@[j].y_alloc,
                forall|j: int|
                    0 <= j < i ==> (y_alloc_all_clean(old(self).children@[j]) && dist is None
                        ==> obs_eq(#[trigger] self.children@[j], old(self).children@[j])),
            decreases n - i,
        {
            let ghost gi = i as int;
            let ghost pre_children = self.children@;
            let mut c = self.children.remove(i);
            proof {
                assert(c == old(self).children@[gi]);
                assert(decreases_to!(*old(self) => old(self).children));
                assert(decreases_to!(old(self).children => old(self).children@));
                assert(decreases_to!(old(self).children@ => old(self).children@[gi]));
                assert(decreases_to!(*old(self) => c));
            }
            let child_region = match &dist {
                Some(allocs) => allocs[i],
                None => c.y_alloc,
            };
            c.allocate_y(child_region);
            self.children.insert(i, c);
            proof {
                assert(self.children@ =~= pre_children.update(gi, self.children@[gi]));
                assert(forall|j: int|
                    0 <= j < pre_children.len() && j != gi ==> (#[trigger] self.children@[j])
                        == pre_children[j]);
            }
            i = i + 1;
        }
        proof {
            lemma_alloc_y_preserves_wf(*self, *old(self));
            if y_alloc_wf(*old(self)) {
                assert(stored_y_reqs(self.children@) =~= stored_y_reqs(
                    after_dist.children@,
                ));
                if y_alloc_limits_here(*self) {
                    if redo {
                        match dist {
                            Some(allocs) => {
                                assert(children_y_allocs(self.children@) =~= allocs@);
                                assert(plain_y_dist_ok(*self, children_y_allocs(
                                    self.children@,
                                ))) by {
                                    assert(plain_y_dist_ok(after_dist, allocs@));
                                }
                                if self.arrangement is Flow {
                                    assert(flow_y_lines_ok(*self)) by {
                                        assert(flow_y_lines_ok(after_dist));
                                    }
                                    assert(flow_y_bands_ok(*self, children_y_allocs(
                                        self.children@,
                                    ))) by {
                                        assert(flow_y_bands_ok(after_dist, allocs@));
                                    }
                                }
                                assert(y_alloc_rule_ok(*self));
                            },
                            None => {
                                if self.arrangement is Leaf {
                                    assert(children_y_allocs(self.children@).len()
                                        == stored_y_reqs(self.children@).len());
                                    assert(y_alloc_rule_ok(*self));
                                } else {
                                    assert(stored_y_reqs(at_call.children@) =~= stored_y_reqs(
                                        self.children@,
                                    ));
                                    assert(y_alloc_limits_here(at_call)
                                        == y_alloc_limits_here(*self)) by {
                                        lemma_y_alloc_node_congruent(at_call, *self);
                                    }
                                    assert(false);
                                }
                            },
                        }
                    } else {
                        assert(children_y_allocs(self.children@) =~= children_y_allocs(
                            old(self).children@,
                        ));
                        assert(stored_y_reqs(self.children@) =~= stored_y_reqs(
                            old(self).children@,
                        ));
                        lemma_y_alloc_node_congruent(*self, *old(self));
                        assert(y_alloc_rule_ok(*old(self)));
                        assert(y_alloc_rule_ok(*self));
                    }
                }
                assert(y_alloc_wf(*final(self)));
            }
            if x_alloc_wf(*old(self)) {
                if !self.x_alloc_dirty {
                    assert(stored_x_reqs(self.children@) =~= stored_x_reqs(
                        old(self).children@,
                    ));
                    assert(children_x_allocs(self.children@) =~= children_x_allocs(
                        old(self).children@,
                    ));
                    lemma_x_alloc_node_congruent(*self, *old(self));
                }
                assert(x_alloc_wf(*final(self)));
            }
        }
    }
}


/// A y-allocation pass cannot invalidate either requisition invariant:
/// it touches only allocations and the lines' recorded positions.
#[verifier::spinoff_prover]
proof fn lemma_alloc_y_preserves_wf(a: Element, b: Element)
    requires
        a.arrangement == b.arrangement,
        a.leaf_x_req == b.leaf_x_req,
        a.leaf_y_req == b.leaf_y_req,
        a.x_req == b.x_req,
        a.y_req == b.y_req,
        a.x_req_dirty == b.x_req_dirty,
        a.y_req_dirty == b.y_req_dirty,
        a.lines@.len() == b.lines@.len(),
        forall|l: int|
            0 <= l < b.lines@.len() ==> ({
                let la = a.lines@[l];
                let lb = #[trigger] b.lines@[l];
                la.y_req == lb.y_req && la.start == lb.start && la.end == lb.end
            }),
        a.children@.len() == b.children@.len(),
        forall|i: int|
            0 <= i < b.children@.len() ==> (#[trigger] a.children@[i]).x_req == b.children@[
                i
            ].x_req && a.children@[i].y_req == b.children@[i].y_req,
        forall|i: int|
            0 <= i < b.children@.len() ==> ((x_req_wf(#[trigger] b.children@[i]) ==> x_req_wf(
                a.children@[i],
            )) && (y_req_wf(b.children@[i]) ==> y_req_wf(a.children@[i]))),
    ensures
        x_req_wf(b) ==> x_req_wf(a),
        y_req_wf(b) ==> y_req_wf(a),
{
    assert(stored_x_reqs(a.children@) =~= stored_x_reqs(b.children@));
    assert(stored_y_reqs(a.children@) =~= stored_y_reqs(b.children@));
    assert(x_req_rule(a) == x_req_rule(b));
    assert(x_limits_here_x(a) == x_limits_here_x(b));
    assert(flow_line_reqs(stored_y_reqs(a.children@), a.lines@) =~= flow_line_reqs(
        stored_y_reqs(b.children@),
        b.lines@,
    ));
    assert(y_req_rule(a) == y_req_rule(b));
    assert(y_limits_here(a) == y_limits_here(b)) by {
        if a.arrangement is Flow {
            assert forall|l: int| 0 <= l < a.lines@.len() implies ((#[trigger] a.lines@[l]).start
                <= a.lines@[l].end <= stored_y_reqs(a.children@).len()) == (b.lines@[l].start
                <= b.lines@[l].end <= stored_y_reqs(b.children@).len()) by {
                assert(a.lines@[l].start == b.lines@[l].start);
            }
        }
    }
    if !a.y_req_dirty && y_limits_here(a) {
        assert(line_y_reqs_match(stored_y_reqs(a.children@), a.lines@) == line_y_reqs_match(
            stored_y_reqs(b.children@),
            b.lines@,
        )) by {
            let sa = stored_y_reqs(a.children@);
            let sb = stored_y_reqs(b.children@);
            if line_y_reqs_match(sb, b.lines@) {
                assert forall|l: int| 0 <= l < a.lines@.len() implies (#[trigger] a.lines@[
                    l
                ]).y_req == crate::lreq::spec_perp_req(
                    if a.lines@[l].start <= a.lines@[l].end <= sa.len() {
                        sa.subrange(a.lines@[l].start as int, a.lines@[l].end as int)
                    } else {
                        Seq::<LReq>::empty()
                    },
                ) by {
                    assert(b.lines@[l].y_req == crate::lreq::spec_perp_req(
                        if b.lines@[l].start <= b.lines@[l].end <= sb.len() {
                            sb.subrange(b.lines@[l].start as int, b.lines@[l].end as int)
                        } else {
                            Seq::<LReq>::empty()
                        },
                    ));
                }
            }
            if line_y_reqs_match(sa, a.lines@) {
                assert forall|l: int| 0 <= l < b.lines@.len() implies (#[trigger] b.lines@[
                    l
                ]).y_req == crate::lreq::spec_perp_req(
                    if b.lines@[l].start <= b.lines@[l].end <= sb.len() {
                        sb.subrange(b.lines@[l].start as int, b.lines@[l].end as int)
                    } else {
                        Seq::<LReq>::empty()
                    },
                ) by {
                    assert(a.lines@[l].y_req == crate::lreq::spec_perp_req(
                        if a.lines@[l].start <= a.lines@[l].end <= sa.len() {
                            sa.subrange(a.lines@[l].start as int, a.lines@[l].end as int)
                        } else {
                            Seq::<LReq>::empty()
                        },
                    ));
                }
            }
        }
    }
}

/// A requisition pass cannot invalidate either allocation invariant: it
/// touches no allocation, and wherever it changes a rule's input it
/// marks the allocation stale.
proof fn lemma_update_preserves_alloc_wf(a: Element, b: Element)
    requires
        a.arrangement == b.arrangement,
        a.x_alloc == b.x_alloc,
        a.y_alloc == b.y_alloc,
        a.children@.len() == b.children@.len(),
        forall|i: int|
            0 <= i < b.children@.len() ==> (#[trigger] a.children@[i]).x_alloc == b.children@[
                i
            ].x_alloc && a.children@[i].y_alloc == b.children@[i].y_alloc,
        forall|i: int|
            0 <= i < b.children@.len() ==> ((x_alloc_wf(b.children@[i]) ==> x_alloc_wf(
                #[trigger] a.children@[i],
            )) && (y_alloc_wf(b.children@[i]) ==> y_alloc_wf(a.children@[i]))),
        a.lines@.len() == b.lines@.len(),
        forall|l: int|
            0 <= l < b.lines@.len() ==> (#[trigger] a.lines@[l]).pos_x_in_parent == b.lines@[
                l
            ].pos_x_in_parent && a.lines@[l].start == b.lines@[l].start && a.lines@[l].end
                == b.lines@[l].end,
        !a.x_alloc_dirty ==> !b.x_alloc_dirty && a.x_req == b.x_req && stored_x_reqs(
            a.children@,
        ) == stored_x_reqs(b.children@),
        !a.y_alloc_dirty ==> !b.y_alloc_dirty && a.y_req == b.y_req && stored_y_reqs(
            a.children@,
        ) == stored_y_reqs(b.children@) && a.lines@ == b.lines@,
    ensures
        x_alloc_wf(b) ==> x_alloc_wf(a),
        y_alloc_wf(b) ==> y_alloc_wf(a),
{
    assert(children_x_allocs(a.children@) =~= children_x_allocs(b.children@));
    assert(children_y_allocs(a.children@) =~= children_y_allocs(b.children@));
    if !a.x_alloc_dirty {
        lemma_x_alloc_node_congruent(a, b);
    }
    if !a.y_alloc_dirty {
        lemma_y_alloc_node_congruent(a, b);
    }
}

/// Observational equality is transitive.
pub proof fn lemma_obs_eq_trans(a: Element, b: Element, c: Element)
    requires
        obs_eq(a, b),
        obs_eq(b, c),
    ensures
        obs_eq(a, c),
    decreases c,
{
    assert forall|i: int| 0 <= i < c.children@.len() implies obs_eq(a.children@[i],
        #[trigger] c.children@[i]) by {
        lemma_obs_eq_trans(a.children@[i], b.children@[i], c.children@[i]);
    }
}

/// Observational equality carries cleanliness across.
pub proof fn lemma_obs_eq_clean(a: Element, b: Element)
    requires
        obs_eq(a, b),
    ensures
        x_req_all_clean(b) ==> x_req_all_clean(a),
        y_req_all_clean(b) ==> y_req_all_clean(a),
        x_alloc_all_clean(b) ==> x_alloc_all_clean(a),
        y_alloc_all_clean(b) ==> y_alloc_all_clean(a),
    decreases b,
{
    if x_req_all_clean(b) {
        assert forall|i: int| 0 <= i < a.children@.len() implies x_req_all_clean(
            #[trigger] a.children@[i],
        ) by {
            assert(x_req_all_clean(b.children@[i]));
            lemma_obs_eq_clean(a.children@[i], b.children@[i]);
        }
    }
    if y_req_all_clean(b) {
        assert forall|i: int| 0 <= i < a.children@.len() implies y_req_all_clean(
            #[trigger] a.children@[i],
        ) by {
            assert(y_req_all_clean(b.children@[i]));
            lemma_obs_eq_clean(a.children@[i], b.children@[i]);
        }
    }
    if x_alloc_all_clean(b) {
        assert forall|i: int| 0 <= i < a.children@.len() implies x_alloc_all_clean(
            #[trigger] a.children@[i],
        ) by {
            assert(x_alloc_all_clean(b.children@[i]));
            lemma_obs_eq_clean(a.children@[i], b.children@[i]);
        }
    }
    if y_alloc_all_clean(b) {
        assert forall|i: int| 0 <= i < a.children@.len() implies y_alloc_all_clean(
            #[trigger] a.children@[i],
        ) by {
            assert(y_alloc_all_clean(b.children@[i]));
            lemma_obs_eq_clean(a.children@[i], b.children@[i]);
        }
    }
}


/// The root of an element tree: it drives the four-phase pass, deriving
/// its own x-region from a viewport width (or from the tree's natural
/// width) at origin zero, and its y-region from the tree's natural
/// height.
pub struct RootElement {
    pub child: Element,
    pub width: Option<u64>,
    pub x_req: LReq,
    pub y_req: LReq,
    pub x_alloc: LAlloc,
    pub y_alloc: LAlloc,
}

/// The x-region a root derives: origin zero, the viewport width when one
/// is set (the tree's natural width otherwise), the tree's own anchor.
pub open spec fn spec_root_x_region(r: RootElement) -> LAlloc {
    LAlloc {
        pos_in_parent: 0,
        alloc_size: match r.width {
            Some(w) => w,
            None => if r.child.x_req.wf() {
                r.child.x_req.spec_size() as u64
            } else {
                u64::MAX
            },
        },
        ref_point: crate::lalloc::spec_region_ref(r.child.x_req),
    }
}

/// The y-region a root derives: origin zero, the tree's natural height,
/// the tree's own anchor.
pub open spec fn spec_root_y_region(r: RootElement) -> LAlloc {
    LAlloc {
        pos_in_parent: 0,
        alloc_size: if r.child.y_req.wf() {
            r.child.y_req.spec_size() as u64
        } else {
            u64::MAX
        },
        ref_point: crate::lalloc::spec_region_ref(r.child.y_req),
    }
}

/// A root whose caches agree with a finished pass.
pub open spec fn root_settled(r: RootElement) -> bool {
    &&& all_clean(r.child)
    &&& r.x_req == r.child.x_req
    &&& r.y_req == r.child.y_req
    &&& r.child.x_alloc == spec_root_x_region(r)
    &&& r.child.y_alloc == spec_root_y_region(r)
    &&& r.x_alloc == r.child.x_alloc
    &&& r.y_alloc == r.child.y_alloc
}

impl RootElement {
    /// Wrap a tree in a root. Everything starts dirty; the first
    /// `layout` call computes it all.
    pub fn new(child: Element) -> (r: RootElement)
        requires
            x_req_wf(child),
            y_req_wf(child),
            x_alloc_wf(child),
            y_alloc_wf(child),
        ensures
            r.child == child,
            r.width is None,
            r.x_req == LReq::spec_empty() && r.y_req == LReq::spec_empty(),
            r.x_alloc == (LAlloc { pos_in_parent: 0, alloc_size: 0, ref_point: None }),
            r.y_alloc == (LAlloc { pos_in_parent: 0, alloc_size: 0, ref_point: None }),
            x_req_wf(r.child),
            y_req_wf(r.child),
            x_alloc_wf(r.child),
            y_alloc_wf(r.child),
    {
        RootElement {
            child,
            width: None,
            x_req: LReq::new_empty(),
            y_req: LReq::new_empty(),
            x_alloc: LAlloc::new_empty(),
            y_alloc: LAlloc::new_empty(),
        }
    }

    /// Set or clear the viewport width. The next `layout` call reflects
    /// it: a changed width changes the root's derived region, which
    /// re-allocates exactly the subtrees it reaches.
    pub fn set_width(&mut self, width: Option<u64>)
        ensures
            *final(self) == (RootElement { width, ..*old(self) }),
    {
        self.width = width;
    }

    /// One relayout: the four phases in their mandatory order --
    /// x-requisition bottom-up, x-allocation top-down, y-requisition
    /// bottom-up (after x has fixed every flow's line partition),
    /// y-allocation top-down.
    ///
    /// The idempotence law is the last clause: on a tree that a
    /// previous pass left settled and that nothing has dirtied since,
    /// another pass leaves every requisition, allocation, line record
    /// and dirty bit bit-identical.
    #[verifier::rlimit(100)]
    pub fn layout(&mut self)
        requires
            x_req_wf(old(self).child),
            y_req_wf(old(self).child),
        ensures
            x_req_wf(final(self).child),
            y_req_wf(final(self).child),
            x_alloc_wf(old(self).child) ==> x_alloc_wf(final(self).child),
            y_alloc_wf(old(self).child) ==> y_alloc_wf(final(self).child),
            root_settled(*final(self)),
            final(self).width == old(self).width,
            root_settled(*old(self)) ==> obs_eq(final(self).child, old(self).child)
                && final(self).x_req == old(self).x_req && final(self).y_req == old(self).y_req
                && final(self).x_alloc == old(self).x_alloc && final(self).y_alloc == old(
                self,
            ).y_alloc,
    {
        let ghost t0 = self.child;
        let ghost settled0 = root_settled(*old(self));
        let _ = self.child.update_x_req();
        let ghost t1 = self.child;
        self.x_req = self.child.x_req;
        let w = match self.width {
            Some(w) => w,
            None => self.child.x_req.size_capped(),
        };
        let x_region = LAlloc {
            pos_in_parent: 0,
            alloc_size: w,
            ref_point: self.child.x_req.ref_point(),
        };
        proof {
            if settled0 {
                assert(x_req_all_clean(t0));
                assert(obs_eq(t1, t0));
                lemma_obs_eq_clean(t1, t0);
                assert(x_region == spec_root_x_region(*old(self)));
                assert(x_region == t1.x_alloc);
            }
        }
        self.child.allocate_x(x_region);
        self.x_alloc = x_region;
        let ghost t2 = self.child;
        proof {
            if settled0 {
                assert(obs_eq(t2, t1));
                lemma_obs_eq_trans(t2, t1, t0);
                lemma_obs_eq_clean(t2, t0);
            }
        }
        let _ = self.child.update_y_req();
        self.y_req = self.child.y_req;
        let ghost t3 = self.child;
        let h = self.child.y_req.size_capped();
        let y_region = LAlloc {
            pos_in_parent: 0,
            alloc_size: h,
            ref_point: self.child.y_req.ref_point(),
        };
        proof {
            if settled0 {
                assert(obs_eq(t3, t2));
                lemma_obs_eq_trans(t3, t2, t0);
                lemma_obs_eq_clean(t3, t0);
                assert(y_region == spec_root_y_region(*old(self)));
                assert(y_region == t3.y_alloc);
            }
        }
        self.child.allocate_y(y_region);
        self.y_alloc = y_region;
        proof {
            let t4 = self.child;
            if settled0 {
                assert(obs_eq(t4, t3));
                lemma_obs_eq_trans(t4, t3, t0);
            }
            assert(x_req_all_clean(t4) && x_alloc_all_clean(t4)) by {
                lemma_x_clean_after_alloc_x(t2, t1);
                lemma_clean_framed(t4, t3, t2);
            }
            assert(y_req_all_clean(t4)) by {
                lemma_y_clean_framed(t4, t3);
            }
        }
    }
}

/// An x-allocation pass leaves the x-requisition bits as it found them.
proof fn lemma_x_clean_after_alloc_x(a: Element, b: Element)
    requires
        alloc_x_frame(a, b),
        x_req_all_clean(b),
    ensures
        x_req_all_clean(a),
    decreases b,
{
    assert forall|i: int| 0 <= i < b.children@.len() implies x_req_all_clean(
        #[trigger] a.children@[i],
    ) by {
        lemma_x_clean_after_alloc_x(a.children@[i], b.children@[i]);
    }
}

/// The later phases do not dirty what the earlier phases cleaned:
/// x-bits survive the y phases.
proof fn lemma_clean_framed(t4: Element, t3: Element, t2: Element)
    requires
        alloc_y_frame(t4, t3),
        y_req_frame(t3, t2),
        x_req_all_clean(t2),
        x_alloc_all_clean(t2),
    ensures
        x_req_all_clean(t4),
        x_alloc_all_clean(t2) ==> x_alloc_all_clean(t4),
    decreases t2,
{
    assert forall|i: int| 0 <= i < t2.children@.len() implies x_req_all_clean(
        #[trigger] t4.children@[i],
    ) && x_alloc_all_clean(t4.children@[i]) by {
        lemma_clean_framed(t4.children@[i], t3.children@[i], t2.children@[i]);
    }
}

/// The y-allocation phase does not dirty the y-requisition bits.
proof fn lemma_y_clean_framed(t4: Element, t3: Element)
    requires
        alloc_y_frame(t4, t3),
        y_req_all_clean(t3),
    ensures
        y_req_all_clean(t4),
    decreases t3,
{
    assert forall|i: int| 0 <= i < t3.children@.len() implies y_req_all_clean(
        #[trigger] t4.children@[i],
    ) by {
        lemma_y_clean_framed(t4.children@[i], t3.children@[i]);
    }
}

} // verus!
