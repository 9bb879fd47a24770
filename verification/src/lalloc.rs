//! Allocation: the position, extent and alignment anchor an element is
//! granted along one axis, and the distribution algorithms that grant
//! them.
//!
//! A fixed requisition always receives exactly its preferred size, even
//! when the region is smaller (overflow is permitted, never corrected).
//! A flexible requisition receives the whole region when the region
//! exceeds its preferred size, and the larger of its minimum floor and
//! its preferred size otherwise. Extra space in a linear run is divided
//! among the flexible items in proportion to their stretch weights.

use vstd::arithmetic::div_mod::{lemma_div_is_ordered, lemma_div_multiples_vanish};
use vstd::arithmetic::mul::lemma_mul_inequality;
use vstd::prelude::*;

use crate::lreq::{
    any_flex, spec_linear_size, sum_sizes, sum_stretch, lemma_sum_sizes_nonneg,
    lemma_sum_sizes_take_le, lemma_sum_sizes_take_succ, lemma_sum_stretch_nonneg,
    lemma_sum_stretch_take_le, lemma_sum_stretch_take_succ, LFlex, LNatSize, LReq,
};

verus! {

/// The space granted to one element along one axis: offset from the
/// parent's allocated origin, granted extent, and the resulting
/// reference point (the anchor's offset within the extent), if any.
#[derive(Debug, Clone, Copy, PartialEq, Eq, Structural)]
pub struct LAlloc {
    pub pos_in_parent: u64,
    pub alloc_size: u64,
    pub ref_point: Option<u64>,
}

/// Extent granted to `req` from a region of `region_size`: a fixed
/// requisition gets exactly its preferred size; a flexible one takes the
/// whole region when the region is larger, else the larger of its
/// minimum floor and its preferred size.
pub open spec fn spec_region_size(req: LReq, region_size: int) -> int {
    if req.is_flex() {
        if region_size > req.spec_size() {
            region_size
        } else if req.spec_min() > req.spec_size() {
            req.spec_min()
        } else {
            req.spec_size()
        }
    } else {
        req.spec_size()
    }
}

/// Position granted to `req` in a region starting at `region_pos` whose
/// alignment anchor is `region_ref`: when both the requisition and the
/// region carry an anchor, the element shifts forward so the anchors
/// coincide (never backward); otherwise it sits at the region's origin.
pub open spec fn spec_region_pos(req: LReq, region_pos: int, region_ref: Option<u64>) -> int {
    match region_ref {
        Some(r) => if req.has_ref() && r > req.spec_before() {
            region_pos + (r - req.spec_before())
        } else {
            region_pos
        },
        None => region_pos,
    }
}

/// Reference point of the resulting allocation: the requisition's own
/// anchor, if it carries one.
pub open spec fn spec_region_ref(req: LReq) -> Option<u64> {
    if req.has_ref() {
        Some(req.spec_before() as u64)
    } else {
        None
    }
}

impl LAlloc {
    /// An allocation of nothing at the origin.
    pub fn new_empty() -> (r: LAlloc)
        ensures
            r == (LAlloc { pos_in_parent: 0, alloc_size: 0, ref_point: None }),
    {
        LAlloc { pos_in_parent: 0, alloc_size: 0, ref_point: None }
    }

    /// The allocation a requisition receives when granted exactly its
    /// natural size at `pos` (used at the root of a layout pass).
    pub fn new_from_req(req: &LReq, pos: u64) -> (r: LAlloc)
        requires
            req.wf(),
        ensures
            r.pos_in_parent == pos,
            r.alloc_size == req.spec_size(),
            r.ref_point == spec_region_ref(*req),
    {
        LAlloc { pos_in_parent: pos, alloc_size: req.size(), ref_point: req.ref_point() }
    }

    pub fn pos_in_parent(&self) -> (r: u64)
        ensures
            r == self.pos_in_parent,
    {
        self.pos_in_parent
    }

    pub fn alloc_size(&self) -> (r: u64)
        ensures
            r == self.alloc_size,
    {
        self.alloc_size
    }

    pub fn ref_point(&self) -> (r: Option<u64>)
        ensures
            r == self.ref_point,
    {
        self.ref_point
    }

    /// A narrowed, shifted view of this allocation seen as a region: the
    /// origin moves forward by `a` and the extent shrinks by `a` (stopping
    /// at zero), as does the anchor. Used to carve out hanging-indent
    /// sub-regions.
    pub fn indent(&self, a: u64) -> (r: LAlloc)
        requires
            self.pos_in_parent + a <= u64::MAX,
        ensures
            r.pos_in_parent == self.pos_in_parent + a,
            r.alloc_size == if self.alloc_size >= a {
                self.alloc_size - a
            } else {
                0
            },
            r.ref_point == match self.ref_point {
                Some(p) => Some(if p >= a { (p - a) as u64 } else { 0 }),
                None => None,
            },
    {
        LAlloc {
            pos_in_parent: self.pos_in_parent + a,
            alloc_size: if self.alloc_size >= a {
                self.alloc_size - a
            } else {
                0
            },
            ref_point: match self.ref_point {
                Some(p) => Some(if p >= a { p - a } else { 0 }),
                None => None,
            },
        }
    }

    /// Allocate a single requisition against a region: a fixed requisition
    /// receives exactly its preferred size regardless of the region's
    /// extent; a flexible one receives the whole region when the region
    /// exceeds its preferred size, and the larger of its minimum floor
    /// and its preferred size otherwise. When both the requisition and
    /// the region carry an alignment anchor, the element shifts forward
    /// so the anchors coincide.
    pub fn alloc_from_region(
        &mut self,
        req: &LReq,
        region_pos: u64,
        region_size: u64,
        region_ref: Option<u64>,
    )
        requires
            req.wf(),
            region_ref is Some ==> region_pos + region_ref->0 <= u64::MAX,
        ensures
            final(self).pos_in_parent == spec_region_pos(*req, region_pos as int, region_ref),
            final(self).alloc_size == spec_region_size(*req, region_size as int),
            final(self).ref_point == spec_region_ref(*req),
    {
        let size = req.size();
        let alloc_size = match req.flex {
            LFlex::Fixed => size,
            LFlex::Flex { stretch: _s, min } => if region_size > size {
                region_size
            } else if min > size {
                min
            } else {
                size
            },
        };
        let own_ref = req.ref_point();
        let pos = match (region_ref, own_ref) {
            (Some(r), Some(b)) => if r > b {
                region_pos + (r - b)
            } else {
                region_pos
            },
            _ => region_pos,
        };
        self.pos_in_parent = pos;
        self.alloc_size = alloc_size;
        self.ref_point = own_ref;
    }
}

// ---------------------------------------------------------------------------
// Linear distribution: a run of requisitions against one region.
// ---------------------------------------------------------------------------

/// Whether a linear run has extra space to hand to stretchy items.
pub open spec fn spec_grow(s: Seq<LReq>, natural: int, total: int) -> bool {
    total > natural && sum_stretch(s) > 0
}

/// The extra space item `i` receives when `slack` is divided across the
/// run in proportion to the stretch weights: the difference between the
/// slack's share at the cumulative weight through item `i` and at the
/// cumulative weight before it, so that the shares sum exactly to the
/// slack.
pub open spec fn spec_extra(s: Seq<LReq>, slack: int, i: int) -> int {
    let w = sum_stretch(s);
    (slack * sum_stretch(s.take(i + 1))) / w - (slack * sum_stretch(s.take(i))) / w
}

/// The extent granted to item `i` of a linear run.
pub open spec fn spec_child_size(s: Seq<LReq>, natural: int, total: int, i: int) -> int {
    if spec_grow(s, natural, total) {
        s[i].spec_size() + spec_extra(s, total - natural, i)
    } else {
        s[i].spec_size()
    }
}

/// Sum of the extents granted to items `0 .. i` of a linear run.
pub open spec fn sum_child_sizes(s: Seq<LReq>, natural: int, total: int, i: int) -> int
    decreases i,
{
    if i <= 0 {
        0
    } else {
        sum_child_sizes(s, natural, total, i - 1) + spec_child_size(s, natural, total, i - 1)
    }
}

/// The position granted to item `i` of a linear run placed at `pos`: each
/// item sits one spacing after the end of the one before it.
pub open spec fn spec_child_pos(
    s: Seq<LReq>,
    natural: int,
    pos: int,
    total: int,
    spacing: int,
    i: int,
) -> int {
    pos + sum_child_sizes(s, natural, total, i) + spacing * i
}

/// The slack's share at cumulative weight `c`: `slack * c / w`, the
/// running floor the per-item shares telescope over.
pub open spec fn spec_share(slack: int, c: int, w: int) -> int {
    (slack * c) / w
}

/// The share is monotone in the cumulative weight and never exceeds the
/// slack.
proof fn lemma_share_bounds(slack: int, c1: int, c2: int, w: int)
    requires
        0 <= slack,
        0 <= c1 <= c2 <= w,
        0 < w,
    ensures
        0 <= spec_share(slack, c1, w) <= spec_share(slack, c2, w) <= slack,
{
    lemma_mul_inequality(c1, c2, slack);
    vstd::arithmetic::mul::lemma_mul_is_commutative(c1, slack);
    vstd::arithmetic::mul::lemma_mul_is_commutative(c2, slack);
    lemma_div_is_ordered(slack * c1, slack * c2, w);
    lemma_mul_inequality(c2, w, slack);
    vstd::arithmetic::mul::lemma_mul_is_commutative(w, slack);
    lemma_div_is_ordered(slack * c2, slack * w, w);
    lemma_div_multiples_vanish(slack, w);
    assert(w * slack == slack * w) by (nonlinear_arith);
    lemma_mul_inequality(0, c1, slack);
    vstd::arithmetic::div_mod::lemma_div_pos_is_pos(slack * c1, w);
}

/// The granted extents, summed, are the preferred sizes plus the share of
/// the slack handed out so far.
proof fn lemma_sum_child_sizes_grow(s: Seq<LReq>, natural: int, total: int, i: int)
    requires
        spec_grow(s, natural, total),
        0 <= i <= s.len(),
    ensures
        sum_child_sizes(s, natural, total, i) == sum_sizes(s.take(i)) + spec_share(
            total - natural,
            sum_stretch(s.take(i)),
            sum_stretch(s),
        ),
    decreases i,
{
    if i == 0 {
        assert(s.take(0) =~= Seq::<LReq>::empty());
    } else {
        lemma_sum_child_sizes_grow(s, natural, total, i - 1);
        lemma_sum_sizes_take_succ(s, i - 1);
        lemma_sum_stretch_take_succ(s, i - 1);
    }
}

/// Without growth every item keeps its preferred size.
proof fn lemma_sum_child_sizes_nogrow(s: Seq<LReq>, natural: int, total: int, i: int)
    requires
        !spec_grow(s, natural, total),
        0 <= i <= s.len(),
    ensures
        sum_child_sizes(s, natural, total, i) == sum_sizes(s.take(i)),
    decreases i,
{
    if i == 0 {
        assert(s.take(0) =~= Seq::<LReq>::empty());
    } else {
        lemma_sum_child_sizes_nogrow(s, natural, total, i - 1);
        lemma_sum_sizes_take_succ(s, i - 1);
    }
}

/// Law of linear distribution. When the region's extent `total` is at
/// least the run's natural size and some item carries a positive stretch
/// weight, the granted extents plus the spacings fill the region exactly;
/// when the region is smaller than the natural size, every item receives
/// exactly its preferred size (overflow permitted, never corrected).
pub proof fn lemma_alloc_linear_fills(s: Seq<LReq>, natural: int, total: int, spacing: int)
    requires
        s.len() > 0,
        spacing >= 0,
        natural == spec_linear_size(s, spacing),
        total >= natural || forall|i: int|
            0 <= i < s.len() ==> spec_child_size(s, natural, total, i) == s[i].spec_size(),
    ensures
        total >= natural && sum_stretch(s) > 0 ==> sum_child_sizes(s, natural, total, s.len() as int)
            + spacing * (s.len() - 1) == total,
        total < natural ==> forall|i: int|
            0 <= i < s.len() ==> spec_child_size(s, natural, total, i) == s[i].spec_size(),
{
    let n = s.len() as int;
    if total >= natural && sum_stretch(s) > 0 {
        if total == natural {
            lemma_sum_child_sizes_nogrow(s, natural, total, n);
            assert(s.take(n) =~= s);
        } else {
            lemma_sum_child_sizes_grow(s, natural, total, n);
            assert(s.take(n) =~= s);
            let w = sum_stretch(s);
            lemma_div_multiples_vanish(total - natural, w);
            assert(w * (total - natural) == (total - natural) * w) by (nonlinear_arith);
        }
    }
}

/// Every granted extent is at least the item's preferred size: slack is
/// only ever added, never taken.
pub proof fn lemma_child_size_ge(s: Seq<LReq>, natural: int, total: int, i: int)
    requires
        0 <= i < s.len(),
    ensures
        spec_child_size(s, natural, total, i) >= s[i].spec_size(),
{
    if spec_grow(s, natural, total) {
        let slack = total - natural;
        let w = sum_stretch(s);
        lemma_sum_stretch_take_le(s, i);
        lemma_sum_stretch_take_le(s, i + 1);
        lemma_sum_stretch_nonneg(s.take(i));
        lemma_sum_stretch_take_succ(s, i);
        assert(s[i].spec_stretch() >= 0);
        lemma_share_bounds(slack, sum_stretch(s.take(i)), sum_stretch(s.take(i + 1)), w);
    }
}

/// Total stretch weight of a run.
pub fn total_stretch(items: &Vec<LReq>) -> (r: u64)
    requires
        sum_stretch(items@) <= u64::MAX,
    ensures
        r == sum_stretch(items@),
{
    let n = items.len();
    let mut w: u64 = 0;
    let mut i: usize = 0;
    proof {
        assert(items@.take(0) =~= Seq::<LReq>::empty());
    }
    while i < n
        invariant
            0 <= i <= n == items@.len(),
            sum_stretch(items@) <= u64::MAX,
            w == sum_stretch(items@.take(i as int)),
        decreases n - i,
    {
        proof {
            lemma_sum_stretch_take_succ(items@, i as int);
            lemma_sum_stretch_take_le(items@, i as int + 1);
            lemma_sum_stretch_nonneg(items@.take(i as int));
        }
        let st = match items[i].flex {
            LFlex::Fixed => 0,
            LFlex::Flex { stretch, min } => stretch,
        };
        w = w + st;
        i = i + 1;
    }
    proof {
        assert(items@.take(n as int) =~= items@);
    }
    w
}

impl LAlloc {
    /// Distribute one region across a run of requisitions placed
    /// end-to-end: the core linear allocation.
    ///
    /// `natural` is the run's natural size as carried by the enclosing
    /// box's requisition, `pos` the region's origin and `total_size` its
    /// extent. When `total_size` exceeds the natural size and some item
    /// carries a positive stretch weight, the slack is divided across the
    /// items in exact proportion to their stretch weights (weight 0 never
    /// grows); otherwise every item receives exactly its preferred size,
    /// overflowing the region if need be. Positions are assigned in a
    /// single left-to-right pass starting at `pos`, one spacing between
    /// adjacent items. Each item's allocation carries the item's own
    /// anchor, if any.
    pub fn alloc_linear(
        child_reqs: &Vec<LReq>,
        box_req: &LReq,
        pos: u64,
        total_size: u64,
        spacing: u64,
    ) -> (r: Vec<LAlloc>)
        requires
            box_req.wf(),
            forall|i: int| 0 <= i < child_reqs@.len() ==> (#[trigger] child_reqs@[i]).wf(),
            sum_stretch(child_reqs@) <= u64::MAX,
            pos + total_size <= u64::MAX,
            pos + spec_linear_size(child_reqs@, spacing as int) <= u64::MAX,
            total_size > box_req.spec_size() && sum_stretch(child_reqs@) > 0
                ==> box_req.spec_size() == spec_linear_size(child_reqs@, spacing as int),
        ensures
            r@.len() == child_reqs@.len(),
            forall|i: int| 0 <= i < r@.len() ==> (#[trigger] r@[i]).alloc_size == spec_child_size(
                child_reqs@,
                box_req.spec_size(),
                total_size as int,
                i,
            ),
            forall|i: int| 0 <= i < r@.len() ==> (#[trigger] r@[i]).pos_in_parent == spec_child_pos(
                child_reqs@,
                box_req.spec_size(),
                pos as int,
                total_size as int,
                spacing as int,
                i,
            ),
            forall|i: int| 0 <= i < r@.len() ==> (#[trigger] r@[i]).ref_point == spec_region_ref(
                child_reqs@[i],
            ),
            forall|i: int| 0 <= i < r@.len() ==> (#[trigger] r@[i]).pos_in_parent + r@[
                i
            ].alloc_size <= pos + total_size || r@[i].pos_in_parent + r@[i].alloc_size <= pos
                + spec_linear_size(child_reqs@, spacing as int),
    {
        let ghost s = child_reqs@;
        let ghost natural: int = box_req.spec_size();
        let n = child_reqs.len();
        let nat_size = box_req.size();
        let w = total_stretch(child_reqs);
        let grow = total_size > nat_size && w > 0;
        let slack: u64 = if grow {
            total_size - nat_size
        } else {
            0
        };
        let mut out: Vec<LAlloc> = Vec::new();
        let mut x: u64 = pos;
        let mut cw: u64 = 0;
        let mut prev_share: u64 = 0;
        let mut i: usize = 0;
        proof {
            assert(s.take(0) =~= Seq::<LReq>::empty());
            if grow {
                lemma_share_bounds(slack as int, 0, sum_stretch(s), sum_stretch(s));
            }
        }
        while i < n
            invariant
                0 <= i <= n == s.len(),
                s == child_reqs@,
                natural == box_req.spec_size(),
                box_req.wf(),
                forall|k: int| 0 <= k < s.len() ==> (#[trigger] s[k]).wf(),
                sum_stretch(s) <= u64::MAX,
                pos + total_size <= u64::MAX,
                pos + spec_linear_size(s, spacing as int) <= u64::MAX,
                total_size > natural && sum_stretch(s) > 0 ==> natural == spec_linear_size(
                    s,
                    spacing as int,
                ),
                grow == spec_grow(s, natural, total_size as int),
                grow ==> slack == total_size - natural,
                !grow ==> slack == 0,
                w == sum_stretch(s),
                cw == sum_stretch(s.take(i as int)),
                grow ==> prev_share == spec_share(slack as int, cw as int, w as int),
                !grow ==> prev_share == 0,
                out@.len() == i,
                forall|k: int| 0 <= k < i ==> (#[trigger] out@[k]).alloc_size == spec_child_size(
                    s,
                    natural,
                    total_size as int,
                    k,
                ),
                forall|k: int| 0 <= k < i ==> (#[trigger] out@[k]).pos_in_parent == spec_child_pos(
                    s,
                    natural,
                    pos as int,
                    total_size as int,
                    spacing as int,
                    k,
                ),
                forall|k: int| 0 <= k < i ==> (#[trigger] out@[k]).ref_point == spec_region_ref(
                    s[k],
                ),
                forall|k: int| 0 <= k < i ==> (#[trigger] out@[k]).pos_in_parent + out@[
                    k
                ].alloc_size <= pos + total_size || out@[k].pos_in_parent + out@[k].alloc_size
                    <= pos + spec_linear_size(s, spacing as int),
                i < n ==> x == spec_child_pos(s, natural, pos as int, total_size as int,
                    spacing as int, i as int),
            decreases n - i,
        {
            let ghost gi = i as int;
            proof {
                lemma_sum_sizes_take_succ(s, gi);
                lemma_sum_stretch_take_succ(s, gi);
                lemma_sum_sizes_take_le(s, gi);
                lemma_sum_sizes_take_le(s, gi + 1);
                lemma_sum_stretch_take_le(s, gi + 1);
                lemma_sum_stretch_nonneg(s.take(gi));
                assert(spacing * (gi + 1) == spacing * gi + spacing) by (nonlinear_arith);
                assert(spacing * gi <= spacing * (n - 1) && spacing * (gi + 1) <= spacing * (n - 1)
                    + spacing) by (nonlinear_arith)
                    requires 0 <= gi <= n - 1, spacing >= 0;
            }
            let base = child_reqs[i].size();
            let extra: u64 = if grow {
                let st = child_reqs[i].stretch();
                let cw2 = cw + st;
                proof {
                    assert((slack as int) * (cw2 as int) <= (u64::MAX as int) * (u64::MAX as int))
                        by (nonlinear_arith)
                        requires 0 <= slack <= u64::MAX, 0 <= cw2 <= u64::MAX;
                }
                let share2_wide: u128 = (slack as u128) * (cw2 as u128) / (w as u128);
                proof {
                    lemma_share_bounds(slack as int, cw2 as int, sum_stretch(s), sum_stretch(s));
                    lemma_share_bounds(slack as int, cw as int, cw2 as int, sum_stretch(s));
                }
                let share2: u64 = share2_wide as u64;
                let e = share2 - prev_share;
                cw = cw2;
                prev_share = share2;
                e
            } else {
                let st = child_reqs[i].stretch();
                cw = cw + st;
                0
            };
            let granted = base + extra;
            let own_ref = child_reqs[i].ref_point();
            proof {
                if grow {
                    lemma_sum_child_sizes_grow(s, natural, total_size as int, gi + 1);
                    lemma_sum_sizes_nonneg(s.take(gi + 1));
                    assert(x + granted <= pos + total_size);
                } else {
                    lemma_sum_child_sizes_nogrow(s, natural, total_size as int, gi + 1);
                    assert(x + granted <= pos + spec_linear_size(s, spacing as int));
                }
            }
            out.push(LAlloc { pos_in_parent: x, alloc_size: granted, ref_point: own_ref });
            if i + 1 < n {
                proof {
                    assert(spacing * (gi + 1) <= spacing * (n - 1)) by (nonlinear_arith)
                        requires gi + 1 <= n - 1, spacing >= 0;
                    if grow {
                        lemma_sum_child_sizes_grow(s, natural, total_size as int, gi + 1);
                        lemma_sum_sizes_nonneg(s.take(gi + 1));
                    } else {
                        lemma_sum_child_sizes_nogrow(s, natural, total_size as int, gi + 1);
                    }
                }
                x = x + granted + spacing;
            }
            i = i + 1;
        }
        out
    }
}

} // verus!
