//! Vertical (stack) arrangement: children share the cross axis and are
//! stacked down the primary axis.
//!
//! The cross-axis requisition reconciles the children perpendicular-wise
//! (width = reconciled maximum, respecting reference points); the
//! primary-axis requisition accumulates them linearly with spacing,
//! optionally exposing one child's alignment anchor. A horizontal row is
//! the axis-mirror of this strategy.

use vstd::prelude::*;

use crate::lalloc::{
    spec_child_pos, spec_child_size, spec_region_pos, spec_region_ref, spec_region_size, LAlloc,
};
use crate::lreq::{
    max_after, max_before, spec_linear_min, spec_linear_size, spec_linear_req, spec_perp_req,
    sum_stretch, LReq,
};

verus! {

/// The stack's cross-axis requisition: the perpendicular accumulation of
/// the children.
pub fn requisition_x(child_reqs: &Vec<LReq>) -> (r: LReq)
    requires
        max_before(child_reqs@) + max_after(child_reqs@) <= u64::MAX,
    ensures
        r == spec_perp_req(child_reqs@),
{
    LReq::perpendicular_acc(child_reqs)
}

/// The stack's primary-axis requisition: the linear accumulation of the
/// children with the given spacing, optionally exposing the child at
/// `ref_point_index` as the stack's shared alignment anchor.
pub fn requisition_y(child_reqs: &Vec<LReq>, y_spacing: u64, ref_point_index: Option<usize>) -> (r:
    LReq)
    requires
        spec_linear_size(child_reqs@, y_spacing as int) <= u64::MAX,
        spec_linear_min(child_reqs@, y_spacing as int) <= u64::MAX,
        sum_stretch(child_reqs@) <= u64::MAX,
        ref_point_index is Some ==> ref_point_index->0 < child_reqs@.len(),
    ensures
        r == spec_linear_req(child_reqs@, y_spacing as int, ref_point_index),
{
    LReq::linear_acc(child_reqs, y_spacing, ref_point_index)
}

/// The stack's cross-axis allocation: every child independently receives
/// the whole cross region (children overlap positionally, each sized and
/// aligned within the region by its own requisition and anchor).
pub fn alloc_x(
    box_req: &LReq,
    box_alloc: &LAlloc,
    child_reqs: &Vec<LReq>,
) -> (r: Vec<LAlloc>)
    requires
        forall|k: int| 0 <= k < child_reqs@.len() ==> (#[trigger] child_reqs@[k]).wf(),
        box_alloc.ref_point is Some ==> box_alloc.pos_in_parent + box_alloc.ref_point->0
            <= u64::MAX,
    ensures
        r@.len() == child_reqs@.len(),
        forall|k: int|
            0 <= k < r@.len() ==> (#[trigger] r@[k]).pos_in_parent == spec_region_pos(
                child_reqs@[k],
                box_alloc.pos_in_parent as int,
                box_alloc.ref_point,
            ) && r@[k].alloc_size == spec_region_size(
                child_reqs@[k],
                box_alloc.alloc_size as int,
            ) && r@[k].ref_point == spec_region_ref(child_reqs@[k]),
{
    let n = child_reqs.len();
    let mut out: Vec<LAlloc> = Vec::new();
    let mut i: usize = 0;
    while i < n
        invariant
            0 <= i <= n == child_reqs@.len(),
            forall|k: int| 0 <= k < n ==> (#[trigger] child_reqs@[k]).wf(),
            box_alloc.ref_point is Some ==> box_alloc.pos_in_parent + box_alloc.ref_point->0
                <= u64::MAX,
            out@.len() == i,
            forall|k: int|
                0 <= k < i ==> (#[trigger] out@[k]).pos_in_parent == spec_region_pos(
                    child_reqs@[k],
                    box_alloc.pos_in_parent as int,
                    box_alloc.ref_point,
                ) && out@[k].alloc_size == spec_region_size(
                    child_reqs@[k],
                    box_alloc.alloc_size as int,
                ) && out@[k].ref_point == spec_region_ref(child_reqs@[k]),
        decreases n - i,
    {
        let mut a = LAlloc::new_empty();
        a.alloc_from_region(
            &child_reqs[i],
            box_alloc.pos_in_parent(),
            box_alloc.alloc_size(),
            box_alloc.ref_point(),
        );
        out.push(a);
        i = i + 1;
    }
    out
}

/// The stack's primary-axis allocation: one linear distribution of the
/// box's region across all the children. The `ref_point_index` mirrors
/// the requisition-side anchor choice; placement itself is pinned by the
/// left-to-right rule, each child one spacing after the end of the one
/// before it.
pub fn alloc_y(
    box_req: &LReq,
    box_alloc: &LAlloc,
    child_reqs: &Vec<LReq>,
    y_spacing: u64,
    ref_point_index: Option<usize>,
) -> (r: Vec<LAlloc>)
    requires
        box_req.wf(),
        forall|k: int| 0 <= k < child_reqs@.len() ==> (#[trigger] child_reqs@[k]).wf(),
        sum_stretch(child_reqs@) <= u64::MAX,
        box_alloc.pos_in_parent + box_alloc.alloc_size <= u64::MAX,
        box_alloc.pos_in_parent + spec_linear_size(child_reqs@, y_spacing as int) <= u64::MAX,
        box_alloc.alloc_size > box_req.spec_size() && sum_stretch(child_reqs@) > 0
            ==> box_req.spec_size() == spec_linear_size(child_reqs@, y_spacing as int),
    ensures
        r@.len() == child_reqs@.len(),
        forall|k: int|
            0 <= k < r@.len() ==> (#[trigger] r@[k]).alloc_size == spec_child_size(
                child_reqs@,
                box_req.spec_size(),
                box_alloc.alloc_size as int,
                k,
            ) && r@[k].pos_in_parent == spec_child_pos(
                child_reqs@,
                box_req.spec_size(),
                box_alloc.pos_in_parent as int,
                box_alloc.alloc_size as int,
                y_spacing as int,
                k,
            ) && r@[k].ref_point == spec_region_ref(child_reqs@[k]),
{
    let _ = ref_point_index;
    LAlloc::alloc_linear(
        child_reqs,
        box_req,
        box_alloc.pos_in_parent(),
        box_alloc.alloc_size(),
        y_spacing,
    )
}

} // verus!
