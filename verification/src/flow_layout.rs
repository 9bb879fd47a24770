//! Flow arrangement: greedy line-wrapping of a run of children.
//!
//! Along the primary axis the flow prefers a single line but tolerates
//! wrapping under width pressure; the allocation pass partitions the
//! children into lines in one deterministic left-to-right walk. The
//! secondary axis stacks the lines and aligns every child within its own
//! line's band.

use vstd::prelude::*;

use crate::lalloc::{
    spec_child_pos, spec_child_size, spec_region_pos, spec_region_ref, spec_region_size, LAlloc,
};
use crate::lreq::{
    any_flex, lemma_linear_subrange_le, lemma_linear_subrange_succ, lemma_max_elem_le,
    lemma_sum_subrange_le, max_after, max_before, max_min, max_stretch, spec_dedent, spec_indent,
    spec_linear_size, spec_perp_req, sum_stretch, LFlex, LNatSize, LReq,
};

verus! {

/// Indentation mode of a flow: none, the first line only, or every line
/// but the first.
#[derive(Debug, Clone, Copy, PartialEq, Eq, Structural)]
pub enum FlowIndent {
    NoIndent,
    First { indent: u64 },
    ExceptFirst { indent: u64 },
}

/// One line of a wrapped flow: a contiguous child-index range, the line's
/// secondary-axis requisition, and the line's resulting position on both
/// axes.
#[derive(Debug, Clone, Copy, PartialEq, Eq, Structural)]
pub struct FlowLine {
    pub y_req: LReq,
    pub pos_x_in_parent: u64,
    pub pos_y_in_parent: u64,
    pub start: usize,
    pub end: usize,
}

/// The indent applied to the first line.
pub open spec fn spec_first_indent(ind: FlowIndent) -> u64 {
    match ind {
        FlowIndent::NoIndent => 0,
        FlowIndent::First { indent } => indent,
        FlowIndent::ExceptFirst { indent } => 0,
    }
}

/// The indent applied to every line after the first.
pub open spec fn spec_rest_indent(ind: FlowIndent) -> u64 {
    match ind {
        FlowIndent::NoIndent => 0,
        FlowIndent::First { indent } => 0,
        FlowIndent::ExceptFirst { indent } => indent,
    }
}

/// A line record as the primary-axis pass creates it.
pub open spec fn spec_flow_line(line_x: u64, start: int, end: int) -> FlowLine {
    FlowLine {
        y_req: LReq { size: LNatSize::Size { size: 0 }, flex: LFlex::Fixed },
        pos_x_in_parent: line_x,
        pos_y_in_parent: 0,
        start: start as usize,
        end: end as usize,
    }
}

impl FlowLine {
    fn new_x(pos_x_in_parent: u64, start: usize, end: usize) -> (r: FlowLine)
        ensures
            r == spec_flow_line(pos_x_in_parent, start as int, end as int),
    {
        FlowLine {
            y_req: LReq::new_empty(),
            pos_x_in_parent,
            pos_y_in_parent: 0,
            start,
            end,
        }
    }
}

/// The greedy line partition: walk the children left to right keeping a
/// running position `x`; a child whose tentative end position would pass
/// the width starts a new line, unless it is the first child of its line
/// (a lone overwide child keeps its line, so progress is always made).
/// `line_start`, `line_x` and `x` describe the line under construction.
pub open spec fn spec_wrap(
    s: Seq<LReq>,
    spacing: int,
    width: int,
    rest_indent: u64,
    i: int,
    line_start: int,
    line_x: u64,
    x: int,
) -> Seq<FlowLine>
    decreases s.len() - i,
{
    if i < 0 || i >= s.len() {
        seq![spec_flow_line(line_x, line_start, s.len() as int)]
    } else {
        let step = if i > line_start {
            spacing + s[i].spec_size()
        } else {
            s[i].spec_size()
        };
        if x + step > width && i > line_start {
            seq![spec_flow_line(line_x, line_start, i)] + spec_wrap(
                s,
                spacing,
                width,
                rest_indent,
                i + 1,
                i,
                rest_indent,
                rest_indent + s[i].spec_size(),
            )
        } else {
            spec_wrap(s, spacing, width, rest_indent, i + 1, line_start, line_x, x + step)
        }
    }
}

/// The allocations of one line's children: the line's own sub-run,
/// allocated linearly against the line's indent-shifted region.
pub open spec fn line_child_allocs_ok(
    s: Seq<LReq>,
    allocs: Seq<LAlloc>,
    line: FlowLine,
    box_req: LReq,
    box_alloc: LAlloc,
    spacing: int,
) -> bool {
    let sub = s.subrange(line.start as int, line.end as int);
    let dnat = spec_dedent(box_req, line.pos_x_in_parent).spec_size();
    let pos = box_alloc.pos_in_parent + line.pos_x_in_parent;
    let total = if box_alloc.alloc_size >= line.pos_x_in_parent {
        box_alloc.alloc_size - line.pos_x_in_parent
    } else {
        0
    };
    forall|j: int|
        line.start <= j < line.end ==> (#[trigger] allocs[j]).alloc_size == spec_child_size(
            sub,
            dnat,
            total as int,
            j - line.start,
        ) && allocs[j].pos_in_parent == spec_child_pos(
            sub,
            dnat,
            pos,
            total as int,
            spacing,
            j - line.start,
        ) && allocs[j].ref_point == spec_region_ref(s[j])
}

/// The requisitions the flow's own x-requisition reconciles across
/// separate lines: every child narrowed to its own line, so each child is
/// indented as its line would be.
pub open spec fn spec_indented_reqs(s: Seq<LReq>, ind: FlowIndent) -> Seq<LReq> {
    match ind {
        FlowIndent::NoIndent => s,
        FlowIndent::First { indent } => s.map(
            |i: int, r: LReq| if i == 0 {
                spec_indent(r, indent)
            } else {
                r
            },
        ),
        FlowIndent::ExceptFirst { indent } => s.map(
            |i: int, r: LReq| if i != 0 {
                spec_indent(r, indent)
            } else {
                r
            },
        ),
    }
}

/// The flow's primary-axis requisition: prefers the one-line width,
/// tolerates the widest single (indented) child, stretches like the
/// one-line run.
pub open spec fn spec_flow_xreq(s: Seq<LReq>, spacing: int, ind: FlowIndent) -> LReq {
    let pref = spec_linear_size(s, spacing) + spec_first_indent(ind);
    let sep = spec_indented_reqs(s, ind);
    let min = if any_flex(sep) {
        max_min(sep)
    } else {
        max_before(sep) + max_after(sep)
    };
    LReq {
        size: LNatSize::Size { size: pref as u64 },
        flex: LFlex::Flex { stretch: sum_stretch(s) as u64, min: min as u64 },
    }
}

/// The secondary-axis requisitions of the lines of a partition.
pub open spec fn line_y_reqs(lines: Seq<FlowLine>) -> Seq<LReq> {
    lines.map(|i: int, l: FlowLine| l.y_req)
}

/// A partition's index ranges tile `0 .. n` in order.
pub open spec fn lines_partition(lines: Seq<FlowLine>, n: int) -> bool {
    &&& lines.len() >= 1
    &&& lines[0].start == 0
    &&& lines[lines.len() - 1].end == n
    &&& forall|l: int|
        0 <= l < lines.len() ==> (#[trigger] lines[l]).start <= lines[l].end <= n
    &&& forall|l: int|
        0 < l < lines.len() ==> (#[trigger] lines[l]).start == lines[l - 1].end
}

/// The greedy partition tiles the children in order.
pub proof fn lemma_spec_wrap_partition(
    s: Seq<LReq>,
    spacing: int,
    width: int,
    rest_indent: u64,
    i: int,
    line_start: int,
    line_x: u64,
    x: int,
)
    requires
        0 <= line_start <= i <= s.len(),
        s.len() <= usize::MAX,
    ensures
        ({
            let lines = spec_wrap(s, spacing, width, rest_indent, i, line_start, line_x, x);
            &&& lines.len() >= 1
            &&& lines[0].start == line_start
            &&& lines[0].pos_x_in_parent == line_x
            &&& lines[lines.len() - 1].end == s.len()
            &&& forall|l: int|
                0 <= l < lines.len() ==> (#[trigger] lines[l]).start <= lines[l].end <= s.len()
            &&& forall|l: int|
                0 < l < lines.len() ==> (#[trigger] lines[l]).start == lines[l - 1].end
            &&& forall|l: int|
                0 <= l < lines.len() ==> ((#[trigger] lines[l]).start < lines[l].end
                    || lines[l].end == s.len())
            &&& forall|l: int|
                0 < l < lines.len() ==> (#[trigger] lines[l]).pos_x_in_parent == rest_indent
        }),
    decreases s.len() - i,
{
    let lines = spec_wrap(s, spacing, width, rest_indent, i, line_start, line_x, x);
    if 0 <= i < s.len() {
        let step = if i > line_start {
            spacing + s[i].spec_size()
        } else {
            s[i].spec_size()
        };
        if x + step > width && i > line_start {
            lemma_spec_wrap_partition(s, spacing, width, rest_indent, i + 1, i, rest_indent,
                rest_indent + s[i].spec_size());
            let rest = spec_wrap(s, spacing, width, rest_indent, i + 1, i, rest_indent,
                rest_indent + s[i].spec_size());
            let closed = spec_flow_line(line_x, line_start, i);
            assert(lines == seq![closed] + rest);
            assert(lines.len() == 1 + rest.len());
            assert(lines[0] == closed);
            assert(forall|l: int| 1 <= l < lines.len() ==> (#[trigger] lines[l]) == rest[l - 1]);
        } else {
            lemma_spec_wrap_partition(s, spacing, width, rest_indent, i + 1, line_start, line_x,
                x + step);
        }
    }
}

/// Copy of a contiguous sub-run of requisitions.
fn subrange_vec(v: &Vec<LReq>, a: usize, b: usize) -> (r: Vec<LReq>)
    requires
        a <= b <= v@.len(),
    ensures
        r@ == v@.subrange(a as int, b as int),
{
    let mut r: Vec<LReq> = Vec::new();
    let mut i: usize = a;
    proof {
        assert(v@.subrange(a as int, a as int) =~= Seq::<LReq>::empty());
    }
    while i < b
        invariant
            a <= i <= b <= v@.len(),
            r@ == v@.subrange(a as int, i as int),
        decreases b - i,
    {
        r.push(v[i]);
        proof {
            assert(v@.subrange(a as int, i + 1) =~= v@.subrange(a as int, i as int).push(
                v@[i as int],
            ));
        }
        i = i + 1;
    }
    r
}

/// Allocate the children of one line: the line's sub-run is allocated
/// linearly against the box allocation narrowed by the line's indent,
/// writing only the line's own index range.
fn alloc_line(
    child_reqs: &Vec<LReq>,
    box_req: &LReq,
    box_alloc: &LAlloc,
    x_spacing: u64,
    line_x: u64,
    start: usize,
    end: usize,
    child_allocs: &mut Vec<LAlloc>,
)
    requires
        start <= end <= child_reqs@.len(),
        old(child_allocs)@.len() == child_reqs@.len(),
        box_req.wf(),
        forall|k: int| 0 <= k < child_reqs@.len() ==> (#[trigger] child_reqs@[k]).wf(),
        sum_stretch(child_reqs@) <= u64::MAX,
        box_alloc.pos_in_parent + line_x <= u64::MAX,
        box_alloc.pos_in_parent + box_alloc.alloc_size <= u64::MAX,
        box_alloc.pos_in_parent + line_x + spec_linear_size(
            child_reqs@.subrange(start as int, end as int),
            x_spacing as int,
        ) <= u64::MAX,
        ({
            let total = if box_alloc.alloc_size >= line_x {
                box_alloc.alloc_size - line_x
            } else {
                0
            };
            let dnat = spec_dedent(*box_req, line_x).spec_size();
            total > dnat ==> dnat == spec_linear_size(
                child_reqs@.subrange(start as int, end as int),
                x_spacing as int,
            )
        }),
    ensures
        final(child_allocs)@.len() == old(child_allocs)@.len(),
        forall|k: int|
            0 <= k < final(child_allocs)@.len() && !(start <= k < end)
                ==> final(child_allocs)@[k] == old(child_allocs)@[k],
        line_child_allocs_ok(
            child_reqs@,
            final(child_allocs)@,
            spec_flow_line(line_x, start as int, end as int),
            *box_req,
            *box_alloc,
            x_spacing as int,
        ),
{
    let sub = subrange_vec(child_reqs, start, end);
    let dedented = box_req.dedent(line_x);
    let line_alloc = box_alloc.indent(line_x);
    proof {
        lemma_sum_subrange_le(child_reqs@, start as int, end as int);
        assert(forall|k: int|
            0 <= k < sub@.len() ==> (#[trigger] sub@[k]) == child_reqs@[k + start]);
    }
    let allocs = LAlloc::alloc_linear(
        &sub,
        &dedented,
        line_alloc.pos_in_parent(),
        line_alloc.alloc_size(),
        x_spacing,
    );
    let mut k: usize = start;
    while k < end
        invariant
            start <= k <= end <= child_reqs@.len(),
            child_allocs@.len() == old(child_allocs)@.len() == child_reqs@.len(),
            allocs@.len() == end - start,
            forall|j: int|
                0 <= j < child_allocs@.len() && !(start <= j < k) ==> child_allocs@[j] == old(
                    child_allocs,
                )@[j],
            forall|j: int|
                start <= j < k ==> (#[trigger] child_allocs@[j]) == allocs@[j - start],
        decreases end - k,
    {
        let a = allocs[k - start];
        child_allocs.set(k, a);
        k = k + 1;
    }
}

/// The flow's primary-axis requisition.
///
/// Reports preferred size = the one-line linear accumulation of all the
/// children (plus the first-line indent in `First` mode), and minimum
/// size = the minimum of the perpendicular accumulation of the per-line
/// indented children -- the narrowest a single child could force --
/// signalling that the flow prefers one line but tolerates wrapping. The
/// result stretches with the children's summed weights.
pub fn requisition_x(child_reqs: &Vec<LReq>, x_spacing: u64, indentation: FlowIndent) -> (r: LReq)
    requires
        spec_linear_size(child_reqs@, x_spacing as int) + spec_first_indent(indentation)
            <= u64::MAX,
        crate::lreq::spec_linear_min(child_reqs@, x_spacing as int) <= u64::MAX,
        sum_stretch(child_reqs@) <= u64::MAX,
        forall|k: int|
            0 <= k < child_reqs@.len() ==> (#[trigger] child_reqs@[k]).spec_size() + match (
            indentation) {
                FlowIndent::NoIndent => 0,
                FlowIndent::First { indent } => indent as int,
                FlowIndent::ExceptFirst { indent } => indent as int,
            } <= u64::MAX && child_reqs@[k].spec_min() + match (indentation) {
                FlowIndent::NoIndent => 0,
                FlowIndent::First { indent } => indent as int,
                FlowIndent::ExceptFirst { indent } => indent as int,
            } <= u64::MAX,
        max_before(spec_indented_reqs(child_reqs@, indentation)) + max_after(
            spec_indented_reqs(child_reqs@, indentation),
        ) <= u64::MAX,
    ensures
        r == spec_flow_xreq(child_reqs@, x_spacing as int, indentation),
{
    let ghost s = child_reqs@;
    let one_line = LReq::linear_acc(child_reqs, x_spacing, None);
    let n = child_reqs.len();
    let mut indented: Vec<LReq> = Vec::new();
    let mut i: usize = 0;
    proof {
        assert(spec_indented_reqs(s, indentation).len() == s.len());
        assert(spec_indented_reqs(s, indentation).take(0) =~= Seq::<LReq>::empty());
    }
    while i < n
        invariant
            0 <= i <= n == s.len(),
            s == child_reqs@,
            forall|k: int|
                0 <= k < s.len() ==> (#[trigger] s[k]).spec_size() + match (indentation) {
                    FlowIndent::NoIndent => 0,
                    FlowIndent::First { indent } => indent as int,
                    FlowIndent::ExceptFirst { indent } => indent as int,
                } <= u64::MAX && s[k].spec_min() + match (indentation) {
                    FlowIndent::NoIndent => 0,
                    FlowIndent::First { indent } => indent as int,
                    FlowIndent::ExceptFirst { indent } => indent as int,
                } <= u64::MAX,
            indented@ == spec_indented_reqs(s, indentation).take(i as int),
        decreases n - i,
    {
        let r = match indentation {
            FlowIndent::NoIndent => child_reqs[i],
            FlowIndent::First { indent } => if i == 0 {
                child_reqs[i].indent(indent)
            } else {
                child_reqs[i]
            },
            FlowIndent::ExceptFirst { indent } => if i != 0 {
                child_reqs[i].indent(indent)
            } else {
                child_reqs[i]
            },
        };
        indented.push(r);
        proof {
            assert(spec_indented_reqs(s, indentation).take(i + 1) =~= spec_indented_reqs(
                s,
                indentation,
            ).take(i as int).push(spec_indented_reqs(s, indentation)[i as int]));
        }
        i = i + 1;
    }
    proof {
        assert(spec_indented_reqs(s, indentation).take(n as int) =~= spec_indented_reqs(
            s,
            indentation,
        ));
    }
    let sep_lines = LReq::perpendicular_acc(&indented);
    let preferred = match indentation {
        FlowIndent::First { indent } => one_line.size() + indent,
        _ => one_line.size(),
    };
    LReq::new_flex_size_min(preferred, sep_lines.min_size(), one_line.stretch())
}

/// The flow's secondary-axis requisition. Defined only once the primary
/// axis has fixed the line partition: each line's requisition is the
/// perpendicular accumulation of its children, and the whole flow is the
/// linear accumulation of the lines with the line spacing. The lines'
/// requisitions are stored back into the partition records.
pub fn requisition_y(child_reqs: &Vec<LReq>, y_spacing: u64, lines: &mut Vec<FlowLine>) -> (r: LReq)
    requires
        forall|l: int|
            0 <= l < old(lines)@.len() ==> (#[trigger] old(lines)@[l]).start <= old(
                lines,
            )@[l].end <= child_reqs@.len(),
        max_before(child_reqs@) + max_after(child_reqs@) + max_min(child_reqs@) <= u64::MAX,
        old(lines)@.len() * (2 * (max_before(child_reqs@) + max_after(child_reqs@)) + max_min(
            child_reqs@,
        ) + max_stretch(child_reqs@) + y_spacing) <= u64::MAX,
    ensures
        final(lines)@.len() == old(lines)@.len(),
        forall|l: int|
            0 <= l < final(lines)@.len() ==> (#[trigger] final(lines)@[l]) == (FlowLine {
                y_req: spec_perp_req(
                    child_reqs@.subrange(
                        old(lines)@[l].start as int,
                        old(lines)@[l].end as int,
                    ),
                ),
                ..old(lines)@[l]
            }),
        r == crate::lreq::spec_linear_req(line_y_reqs(final(lines)@), y_spacing as int, None),
{
    let ghost s = child_reqs@;
    let ghost orig = lines@;
    let ghost cap: int = 2 * (max_before(s) + max_after(s)) + max_min(s) + max_stretch(s)
        + y_spacing;
    let n_lines = lines.len();
    let mut l: usize = 0;
    while l < n_lines
        invariant
            0 <= l <= n_lines == lines@.len() == orig.len(),
            s == child_reqs@,
            forall|k: int|
                0 <= k < orig.len() ==> (#[trigger] orig[k]).start <= orig[k].end <= s.len(),
            max_before(s) + max_after(s) + max_min(s) <= u64::MAX,
            orig.len() * cap <= u64::MAX,
            cap >= y_spacing,
            forall|k: int| l <= k < orig.len() ==> (#[trigger] lines@[k]) == orig[k],
            forall|k: int|
                0 <= k < l ==> (#[trigger] lines@[k]) == (FlowLine {
                    y_req: spec_perp_req(s.subrange(orig[k].start as int, orig[k].end as int)),
                    ..orig[k]
                }),
        decreases n_lines - l,
    {
        let line_start = lines[l].start;
        let line_end = lines[l].end;
        let sub = subrange_vec(child_reqs, line_start, line_end);
        proof {
            let subs = s.subrange(line_start as int, line_end as int);
            assert forall|k: int| 0 <= k < subs.len() implies (#[trigger] subs[k]).spec_before()
                <= max_before(s) && subs[k].spec_after() <= max_after(s) by {
                assert(subs[k] == s[k + line_start]);
                lemma_max_elem_le(s, k + line_start);
            }
            lemma_max_le_pointwise(subs, s);
        }
        let line_req = LReq::perpendicular_acc(&sub);
        let mut rec = lines[l];
        rec.y_req = line_req;
        lines.set(l, rec);
        l = l + 1;
    }
    let mut line_reqs: Vec<LReq> = Vec::new();
    let mut k: usize = 0;
    proof {
        assert(line_y_reqs(lines@).take(0) =~= Seq::<LReq>::empty());
    }
    while k < n_lines
        invariant
            0 <= k <= n_lines == lines@.len(),
            line_reqs@ == line_y_reqs(lines@).take(k as int),
        decreases n_lines - k,
    {
        line_reqs.push(lines[k].y_req);
        proof {
            assert(line_y_reqs(lines@).take(k + 1) =~= line_y_reqs(lines@).take(k as int).push(
                lines@[k as int].y_req,
            ));
        }
        k = k + 1;
    }
    proof {
        assert(line_y_reqs(lines@).take(n_lines as int) =~= line_y_reqs(lines@));
        lemma_line_reqs_bounded(s, lines@, orig, y_spacing as int, cap);
    }
    LReq::linear_acc(&line_reqs, y_spacing, None)
}

/// Each item's reconciled parts are bounded by the run's, for a sub-run
/// whose items' parts are bounded pointwise.
proof fn lemma_max_le_pointwise(sub: Seq<LReq>, s: Seq<LReq>)
    requires
        forall|k: int|
            0 <= k < sub.len() ==> (#[trigger] sub[k]).spec_before() <= max_before(s) && sub[
                k
            ].spec_after() <= max_after(s),
    ensures
        max_before(sub) <= max_before(s),
        max_after(sub) <= max_after(s),
    decreases sub.len(),
{
    crate::lreq::lemma_max_nonneg(s);
    if sub.len() > 0 {
        assert(forall|k: int|
            0 <= k < sub.len() - 1 ==> (#[trigger] sub.drop_last()[k]) == sub[k]);
        assert(sub.last() == sub[sub.len() - 1]);
        lemma_max_le_pointwise(sub.drop_last(), s);
    }
}

/// The accumulated secondary-axis requisitions of a partition's lines
/// stay within the caller's budget.
proof fn lemma_line_reqs_bounded(
    s: Seq<LReq>,
    lines: Seq<FlowLine>,
    orig: Seq<FlowLine>,
    spacing: int,
    cap: int,
)
    requires
        lines.len() == orig.len(),
        spacing >= 0,
        cap >= 2 * (max_before(s) + max_after(s)) + max_min(s) + max_stretch(s) + spacing,
        max_before(s) + max_after(s) + max_min(s) <= u64::MAX,
        orig.len() * cap <= u64::MAX,
        forall|k: int| 0 <= k < orig.len() ==> (#[trigger] orig[k]).start <= orig[k].end <= s.len(),
        forall|k: int|
            0 <= k < lines.len() ==> (#[trigger] lines[k]).y_req == spec_perp_req(
                s.subrange(orig[k].start as int, orig[k].end as int),
            ),
    ensures
        spec_linear_size(line_y_reqs(lines), spacing) <= u64::MAX,
        crate::lreq::spec_linear_min(line_y_reqs(lines), spacing) <= u64::MAX,
        sum_stretch(line_y_reqs(lines)) <= u64::MAX,
{
    let lr = line_y_reqs(lines);
    let ll = lines.len() as int;
    lemma_line_reqs_sums(s, lines, orig, spacing, cap, ll);
    assert(lr.take(ll) =~= lr);
    crate::lreq::lemma_max_nonneg(s);
    if lines.len() > 0 {
        crate::lreq::lemma_sum_mins_nonneg(lr);
        crate::lreq::lemma_sum_sizes_nonneg(lr);
        crate::lreq::lemma_sum_stretch_nonneg(lr);
        assert(ll * (cap - spacing) + spacing * (ll - 1) <= ll * cap) by (nonlinear_arith)
            requires ll >= 1, spacing >= 0;
        assert(lr.len() == ll);
    } else {
        assert(0 * cap == 0) by (nonlinear_arith);
    }
}

/// Sums over the first `m` line requisitions are bounded by `m * cap`.
proof fn lemma_line_reqs_sums(
    s: Seq<LReq>,
    lines: Seq<FlowLine>,
    orig: Seq<FlowLine>,
    spacing: int,
    cap: int,
    m: int,
)
    requires
        lines.len() == orig.len(),
        spacing >= 0,
        cap >= 2 * (max_before(s) + max_after(s)) + max_min(s) + max_stretch(s) + spacing,
        0 <= m <= lines.len(),
        forall|k: int| 0 <= k < orig.len() ==> (#[trigger] orig[k]).start <= orig[k].end <= s.len(),
        forall|k: int|
            0 <= k < lines.len() ==> (#[trigger] lines[k]).y_req == spec_perp_req(
                s.subrange(orig[k].start as int, orig[k].end as int),
            ),
    ensures
        crate::lreq::sum_sizes(line_y_reqs(lines).take(m)) + crate::lreq::sum_mins(
            line_y_reqs(lines).take(m),
        ) + sum_stretch(line_y_reqs(lines).take(m)) <= m * (cap - spacing),
    decreases m,
{
    let lr = line_y_reqs(lines);
    if m == 0 {
        assert(lr.take(0) =~= Seq::<LReq>::empty());
        assert(0 * (cap - spacing) == 0) by (nonlinear_arith);
    } else {
        lemma_line_reqs_sums(s, lines, orig, spacing, cap, m - 1);
        crate::lreq::lemma_sum_sizes_take_succ(lr, m - 1);
        crate::lreq::lemma_sum_mins_take_succ(lr, m - 1);
        crate::lreq::lemma_sum_stretch_take_succ(lr, m - 1);
        let sub = s.subrange(orig[m - 1].start as int, orig[m - 1].end as int);
        assert(lr[m - 1] == spec_perp_req(sub));
        assert forall|k: int| 0 <= k < sub.len() implies (#[trigger] sub[k]).spec_before()
            <= max_before(s) && sub[k].spec_after() <= max_after(s) by {
            assert(sub[k] == s[k + orig[m - 1].start]);
            lemma_max_elem_le(s, k + orig[m - 1].start);
        }
        assert forall|k: int| 0 <= k < sub.len() implies exists|j: int|
            0 <= j < s.len() && (#[trigger] sub[k]) == s[j] by {
            assert(sub[k] == s[k + orig[m - 1].start]);
        }
        lemma_max_le_pointwise(sub, s);
        lemma_perp_parts_bounded(sub, s);
        crate::lreq::lemma_max_nonneg(s);
        crate::lreq::lemma_max_nonneg(sub);
        let q = lr[m - 1];
        assert(q.spec_size() <= max_before(s) + max_after(s));
        assert(q.spec_min() <= max_before(s) + max_after(s) + max_min(s));
        assert(q.spec_stretch() <= max_stretch(s));
        assert((m - 1) * (cap - spacing) + (cap - spacing) == m * (cap - spacing))
            by (nonlinear_arith);
    }
}

/// A sub-run's reconciled minimum and stretch are bounded by the whole
/// run's reconciled parts.
proof fn lemma_perp_parts_bounded(sub: Seq<LReq>, s: Seq<LReq>)
    requires
        forall|k: int| 0 <= k < sub.len() ==> exists|j: int| 0 <= j < s.len() && (#[trigger] sub[k]) == s[j],
    ensures
        max_min(sub) <= max_min(s),
        max_stretch(sub) <= max_stretch(s),
    decreases sub.len(),
{
    crate::lreq::lemma_max_nonneg(s);
    if sub.len() > 0 {
        assert forall|k: int| 0 <= k < sub.len() - 1 implies exists|j: int|
            0 <= j < s.len() && (#[trigger] sub.drop_last()[k]) == s[j] by {
            assert(sub.drop_last()[k] == sub[k]);
            let j = choose|j: int| 0 <= j < s.len() && sub[k] == s[j];
            assert(sub.drop_last()[k] == s[j]);
        }
        lemma_perp_parts_bounded(sub.drop_last(), s);
        assert(sub.last() == sub[sub.len() - 1]);
        let j = choose|j: int| 0 <= j < s.len() && (sub[sub.len() - 1] == s[j]);
        lemma_max_elem_min_stretch_le(s, j);
    }
}

/// Each item's minimum and stretch are bounded by the run's maxima.
proof fn lemma_max_elem_min_stretch_le(s: Seq<LReq>, i: int)
    requires
        0 <= i < s.len(),
    ensures
        s[i].spec_min() <= max_min(s),
        s[i].spec_stretch() <= max_stretch(s),
    decreases s.len(),
{
    if i < s.len() - 1 {
        assert(s.drop_last()[i] == s[i]);
        lemma_max_elem_min_stretch_le(s.drop_last(), i);
    }
}


/// The primary-axis allocation: the line-breaking pass.
///
/// When the one-line preferred width fits the allocated width, wrapping
/// is skipped: all the children form one implicit line allocated
/// linearly (honouring the `First` indent). Otherwise the children are
/// walked left to right with a running position; a child whose tentative
/// end position passes the allocated width starts a new line, unless it
/// would leave its line empty -- a lone overwide child is placed alone
/// rather than looping forever. The first line is indented by `First`'s
/// indent, every later line by `ExceptFirst`'s; each finished line is
/// allocated independently against its own indent-shifted region. The
/// walk is deterministic: identical requisitions and width always yield
/// the identical partition.
pub fn alloc_x(
    box_req: &LReq,
    box_alloc: &LAlloc,
    child_reqs: &Vec<LReq>,
    x_spacing: u64,
    indentation: FlowIndent,
) -> (r: (Vec<LAlloc>, Vec<FlowLine>))
    requires
        box_req.wf(),
        !box_req.has_ref(),
        forall|k: int| 0 <= k < child_reqs@.len() ==> (#[trigger] child_reqs@[k]).wf(),
        box_req.spec_size() == spec_linear_size(child_reqs@, x_spacing as int)
            + spec_first_indent(indentation),
        sum_stretch(child_reqs@) <= u64::MAX,
        box_alloc.pos_in_parent + box_alloc.alloc_size <= u64::MAX,
        box_alloc.pos_in_parent + spec_rest_indent(indentation) + box_req.spec_size()
            <= u64::MAX,
    ensures
        r.0@.len() == child_reqs@.len(),
        r.1@ == (if box_req.spec_size() <= box_alloc.alloc_size {
            seq![
                spec_flow_line(
                    spec_first_indent(indentation),
                    0,
                    child_reqs@.len() as int,
                ),
            ]
        } else {
            spec_wrap(
                child_reqs@,
                x_spacing as int,
                box_alloc.alloc_size as int,
                spec_rest_indent(indentation),
                0,
                0,
                spec_first_indent(indentation),
                spec_first_indent(indentation) as int,
            )
        }),
        forall|l: int|
            0 <= l < r.1@.len() ==> line_child_allocs_ok(
                child_reqs@,
                r.0@,
                #[trigger] r.1@[l],
                *box_req,
                *box_alloc,
                x_spacing as int,
            ),
        lines_partition(r.1@, child_reqs@.len() as int),
{
    let ghost s = child_reqs@;
    let n = child_reqs.len();
    let width = box_alloc.alloc_size();
    let first: u64 = match indentation {
        FlowIndent::First { indent } => indent,
        _ => 0,
    };
    let rest: u64 = match indentation {
        FlowIndent::ExceptFirst { indent } => indent,
        _ => 0,
    };
    let mut allocs: Vec<LAlloc> = Vec::new();
    let mut j: usize = 0;
    while j < n
        invariant
            allocs@.len() == j <= n,
        decreases n - j,
    {
        allocs.push(LAlloc::new_empty());
        j = j + 1;
    }
    proof {
        lemma_linear_subrange_le(s, x_spacing as int, 0, n as int);
        assert(s.subrange(0, n as int) =~= s);
    }
    if box_req.size() <= width {
        proof {
            assert(spec_linear_size(s, x_spacing as int) >= 0);
        }
        alloc_line(child_reqs, box_req, box_alloc, x_spacing, first, 0, n, &mut allocs);
        let mut lines: Vec<FlowLine> = Vec::new();
        lines.push(FlowLine::new_x(first, 0, n));
        proof {
            assert(lines@ =~= seq![spec_flow_line(first, 0, n as int)]);
        }
        return (allocs, lines);
    }
    let ghost target = spec_wrap(s, x_spacing as int, width as int, rest, 0, 0, first,
        first as int);
    proof {
        lemma_spec_wrap_partition(s, x_spacing as int, width as int, rest, 0, 0, first,
            first as int);
    }
    let mut lines: Vec<FlowLine> = Vec::new();
    let mut line_start: usize = 0;
    let mut line_x: u64 = first;
    let mut x: u64 = first;
    let mut i: usize = 0;
    proof {
        assert(s.subrange(0, 0) =~= Seq::<LReq>::empty());
    }
    while i < n
        invariant
            0 <= line_start <= i <= n == s.len(),
            s == child_reqs@,
            box_req.wf(),
            !box_req.has_ref(),
            forall|k: int| 0 <= k < s.len() ==> (#[trigger] s[k]).wf(),
            box_req.spec_size() == spec_linear_size(s, x_spacing as int) + spec_first_indent(
                indentation,
            ),
            sum_stretch(s) <= u64::MAX,
            box_alloc.pos_in_parent + box_alloc.alloc_size <= u64::MAX,
            box_alloc.pos_in_parent + rest + box_req.spec_size() <= u64::MAX,
            first == spec_first_indent(indentation),
            rest == spec_rest_indent(indentation),
            width == box_alloc.alloc_size,
            box_req.spec_size() > width as int,
            first <= box_req.spec_size(),
            allocs@.len() == n,
            line_x == if lines@.len() == 0 {
                first
            } else {
                rest
            },
            x as int == line_x + spec_linear_size(
                s.subrange(line_start as int, i as int),
                x_spacing as int,
            ),
            target == lines@ + spec_wrap(s, x_spacing as int, width as int, rest, i as int,
                line_start as int, line_x, x as int),
            forall|l: int|
                0 <= l < lines@.len() ==> (#[trigger] lines@[l]).end <= line_start,
            forall|l: int|
                0 <= l < lines@.len() ==> line_child_allocs_ok(
                    s,
                    allocs@,
                    #[trigger] lines@[l],
                    *box_req,
                    *box_alloc,
                    x_spacing as int,
                ),
        decreases n - i,
    {
        let ghost gi = i as int;
        let ghost gls = line_start as int;
        proof {
            lemma_linear_subrange_succ(s, x_spacing as int, gls, gi);
            lemma_linear_subrange_le(s, x_spacing as int, gls, gi);
            lemma_linear_subrange_le(s, x_spacing as int, gls, gi + 1);
            lemma_sum_subrange_le(s, gls, gi + 1);
        }
        let mut tent: u64 = x;
        if i > line_start {
            tent = tent + x_spacing;
        }
        tent = tent + child_reqs[i].size();
        if tent > width && i > line_start {
            alloc_line(child_reqs, box_req, box_alloc, x_spacing, line_x, line_start, i,
                &mut allocs);
            let ghost old_lines = lines@;
            lines.push(FlowLine::new_x(line_x, line_start, i));
            proof {
                let closed = spec_flow_line(line_x, gls, gi);
                let rec = spec_wrap(s, x_spacing as int, width as int, rest, gi + 1, gi, rest,
                    rest + s[gi].spec_size());
                assert(spec_wrap(s, x_spacing as int, width as int, rest, gi, gls, line_x,
                    x as int) == seq![closed] + rec);
                assert(lines@ =~= old_lines.push(closed));
                assert(old_lines + (seq![closed] + rec) =~= (old_lines + seq![closed]) + rec);
                assert(lines@ =~= old_lines + seq![closed]);
                assert(s.subrange(gi, gi) =~= Seq::<LReq>::empty());
                assert(spec_linear_size(s.subrange(gi, gi), x_spacing as int) == 0);
                assert(forall|l: int|
                    0 <= l < old_lines.len() ==> (#[trigger] lines@[l]) == old_lines[l]);
            }
            line_start = i;
            line_x = rest;
            x = rest + child_reqs[i].size();
            proof {
                lemma_linear_subrange_succ(s, x_spacing as int, gi, gi);
            }
        } else {
            x = tent;
        }
        i = i + 1;
    }
    proof {
        lemma_linear_subrange_le(s, x_spacing as int, line_start as int, n as int);
    }
    alloc_line(child_reqs, box_req, box_alloc, x_spacing, line_x, line_start, n, &mut allocs);
    let ghost old_lines = lines@;
    lines.push(FlowLine::new_x(line_x, line_start, n));
    proof {
        let closed = spec_flow_line(line_x, line_start as int, n as int);
        assert(spec_wrap(s, x_spacing as int, width as int, rest, n as int, line_start as int,
            line_x, x as int) == seq![closed]);
        assert(lines@ =~= old_lines.push(closed));
        assert(old_lines + seq![closed] =~= lines@);
        assert(forall|l: int|
            0 <= l < old_lines.len() ==> (#[trigger] lines@[l]) == old_lines[l]);
        assert(lines@ == target);
    }
    (allocs, lines)
}

/// The secondary-axis allocation of a wrapped flow: the lines themselves
/// are allocated as one linear run down the secondary axis using their
/// per-line requisitions and the line spacing; then every child receives
/// its extent from its own line's allocated band (children sharing a
/// line share the same region, each aligned within it by its own
/// anchor). Each line's resulting position is recorded in the partition.
pub fn alloc_y(
    box_req: &LReq,
    box_alloc: &LAlloc,
    child_reqs: &Vec<LReq>,
    y_spacing: u64,
    lines: &mut Vec<FlowLine>,
) -> (r: Vec<LAlloc>)
    requires
        box_req.wf(),
        forall|k: int| 0 <= k < child_reqs@.len() ==> (#[trigger] child_reqs@[k]).wf(),
        forall|l: int|
            0 <= l < old(lines)@.len() ==> (#[trigger] old(lines)@[l]).start <= old(
                lines,
            )@[l].end <= child_reqs@.len(),
        forall|l: int| 0 <= l < old(lines)@.len() ==> (#[trigger] old(lines)@[l]).y_req.wf(),
        forall|a: int, b: int|
            #![trigger old(lines)@[a], old(lines)@[b]]
            0 <= a < b < old(lines)@.len() ==> old(lines)@[a].end <= old(lines)@[b].start,
        sum_stretch(line_y_reqs(old(lines)@)) <= u64::MAX,
        box_alloc.pos_in_parent + box_alloc.alloc_size <= u64::MAX,
        box_alloc.pos_in_parent + spec_linear_size(line_y_reqs(old(lines)@), y_spacing as int)
            <= u64::MAX,
        box_alloc.alloc_size > box_req.spec_size() && sum_stretch(line_y_reqs(old(lines)@)) > 0
            ==> box_req.spec_size() == spec_linear_size(
            line_y_reqs(old(lines)@),
            y_spacing as int,
        ),
    ensures
        r@.len() == child_reqs@.len(),
        final(lines)@.len() == old(lines)@.len(),
        forall|l: int|
            0 <= l < final(lines)@.len() ==> (#[trigger] final(lines)@[l]) == (FlowLine {
                pos_y_in_parent: spec_child_pos(
                    line_y_reqs(old(lines)@),
                    box_req.spec_size(),
                    box_alloc.pos_in_parent as int,
                    box_alloc.alloc_size as int,
                    y_spacing as int,
                    l,
                ) as u64,
                ..old(lines)@[l]
            }),
        forall|l: int, c: int|
            #![trigger old(lines)@[l], r@[c]]
            0 <= l < old(lines)@.len() && old(lines)@[l].start <= c < old(lines)@[l].end
                ==> ({
                let lr = line_y_reqs(old(lines)@);
                let band_pos = spec_child_pos(
                    lr,
                    box_req.spec_size(),
                    box_alloc.pos_in_parent as int,
                    box_alloc.alloc_size as int,
                    y_spacing as int,
                    l,
                );
                let band_size = spec_child_size(
                    lr,
                    box_req.spec_size(),
                    box_alloc.alloc_size as int,
                    l,
                );
                let band_ref = spec_region_ref(lr[l]);
                r@[c].pos_in_parent == spec_region_pos(
                    child_reqs@[c],
                    band_pos,
                    band_ref,
                ) && r@[c].alloc_size == spec_region_size(child_reqs@[c], band_size) && r@[
                    c
                ].ref_point == spec_region_ref(child_reqs@[c])
            }),
{
    let ghost s = child_reqs@;
    let ghost orig = lines@;
    let ghost lr = line_y_reqs(orig);
    let n = child_reqs.len();
    let n_lines = lines.len();
    let mut line_reqs: Vec<LReq> = Vec::new();
    let mut k: usize = 0;
    proof {
        assert(lr.take(0) =~= Seq::<LReq>::empty());
    }
    while k < n_lines
        invariant
            0 <= k <= n_lines == lines@.len(),
            lines@ == orig,
            lr == line_y_reqs(orig),
            line_reqs@ == lr.take(k as int),
        decreases n_lines - k,
    {
        line_reqs.push(lines[k].y_req);
        proof {
            assert(lr.take(k + 1) =~= lr.take(k as int).push(orig[k as int].y_req));
        }
        k = k + 1;
    }
    proof {
        assert(lr.take(n_lines as int) =~= lr);
    }
    let line_allocs = LAlloc::alloc_linear(
        &line_reqs,
        box_req,
        box_alloc.pos_in_parent(),
        box_alloc.alloc_size(),
        y_spacing,
    );
    let mut child_allocs: Vec<LAlloc> = Vec::new();
    let mut j: usize = 0;
    while j < n
        invariant
            child_allocs@.len() == j <= n,
        decreases n - j,
    {
        child_allocs.push(LAlloc::new_empty());
        j = j + 1;
    }
    let mut l: usize = 0;
    while l < n_lines
        invariant
            0 <= l <= n_lines == lines@.len() == orig.len(),
            s == child_reqs@,
            lr == line_y_reqs(orig),
            box_req.wf(),
            forall|q: int| 0 <= q < s.len() ==> (#[trigger] s[q]).wf(),
            forall|q: int|
                0 <= q < orig.len() ==> (#[trigger] orig[q]).start <= orig[q].end <= s.len(),
            forall|a: int, b: int|
                #![trigger orig[a], orig[b]]
                0 <= a < b < orig.len() ==> orig[a].end <= orig[b].start,
            child_allocs@.len() == n == s.len(),
            line_allocs@.len() == n_lines,
            box_alloc.pos_in_parent + box_alloc.alloc_size <= u64::MAX,
            box_alloc.pos_in_parent + spec_linear_size(lr, y_spacing as int) <= u64::MAX,
            forall|q: int|
                0 <= q < n_lines ==> (#[trigger] line_allocs@[q]).alloc_size == spec_child_size(
                    lr,
                    box_req.spec_size(),
                    box_alloc.alloc_size as int,
                    q,
                ) && line_allocs@[q].pos_in_parent == spec_child_pos(
                    lr,
                    box_req.spec_size(),
                    box_alloc.pos_in_parent as int,
                    box_alloc.alloc_size as int,
                    y_spacing as int,
                    q,
                ) && line_allocs@[q].ref_point == spec_region_ref(lr[q])
                    && line_allocs@[q].pos_in_parent + line_allocs@[q].alloc_size
                    <= u64::MAX,
            forall|q: int| l <= q < n_lines ==> (#[trigger] lines@[q]) == orig[q],
            forall|q: int|
                0 <= q < l ==> (#[trigger] lines@[q]) == (FlowLine {
                    pos_y_in_parent: line_allocs@[q].pos_in_parent,
                    ..orig[q]
                }),
            forall|q: int, c: int|
                #![trigger orig[q], child_allocs@[c]]
                0 <= q < l && orig[q].start <= c < orig[q].end ==> child_allocs@[
                    c
                ].pos_in_parent == spec_region_pos(
                    s[c],
                    line_allocs@[q].pos_in_parent as int,
                    line_allocs@[q].ref_point,
                ) && child_allocs@[c].alloc_size == spec_region_size(
                    s[c],
                    line_allocs@[q].alloc_size as int,
                ) && child_allocs@[c].ref_point == spec_region_ref(s[c]),
        decreases n_lines - l,
    {
        let la = line_allocs[l];
        let line_start = lines[l].start;
        let line_end = lines[l].end;
        let mut c: usize = line_start;
        let ghost before_line = child_allocs@;
        proof {
            if la.ref_point is Some {
                assert(lr[l as int].spec_before() <= lr[l as int].spec_size());
                crate::lalloc::lemma_child_size_ge(lr, box_req.spec_size(),
                    box_alloc.alloc_size as int, l as int);
            }
        }
        while c < line_end
            invariant
                line_start <= c <= line_end,
                0 <= l < n_lines == lines@.len() == orig.len(),
                s == child_reqs@,
                line_start == orig[l as int].start,
                line_end == orig[l as int].end,
                line_end <= s.len(),
                child_allocs@.len() == s.len(),
                line_allocs@.len() == n_lines,
                la == line_allocs@[l as int],
                forall|q: int| 0 <= q < s.len() ==> (#[trigger] s[q]).wf(),
                la.ref_point is Some ==> la.pos_in_parent + la.ref_point->0 <= u64::MAX,
                child_allocs@.len() == before_line.len(),
                forall|k2: int|
                    0 <= k2 < child_allocs@.len() && !(line_start <= k2 < c)
                        ==> (#[trigger] child_allocs@[k2]) == before_line[k2],
                forall|k2: int|
                    line_start <= k2 < c ==> (#[trigger] child_allocs@[k2]).pos_in_parent
                        == spec_region_pos(s[k2], la.pos_in_parent as int, la.ref_point)
                        && child_allocs@[k2].alloc_size == spec_region_size(
                        s[k2],
                        la.alloc_size as int,
                    ) && child_allocs@[k2].ref_point == spec_region_ref(s[k2]),
            decreases line_end - c,
        {
            let mut a = LAlloc::new_empty();
            a.alloc_from_region(&child_reqs[c], la.pos_in_parent(), la.alloc_size(),
                la.ref_point());
            child_allocs.set(c, a);
            c = c + 1;
        }
        let mut rec = lines[l];
        rec.pos_y_in_parent = la.pos_in_parent();
        lines.set(l, rec);
        l = l + 1;
    }
    child_allocs
}

} // verus!
