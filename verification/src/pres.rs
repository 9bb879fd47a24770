//! The presentation layer: small declarative descriptions that compile
//! into element trees.
//!
//! A description owns its children outright; building it walks the
//! description once, taking each text's measured requisitions from an
//! externally owned measurement table keyed by content -- the kernel
//! never measures content itself, and one table stands for one
//! measurement context.

use vstd::prelude::*;

use crate::element::{x_alloc_wf, x_req_wf, y_alloc_wf, y_req_wf, Arrangement, Element, RootElement};
use crate::flow_layout::FlowIndent;
use crate::lreq::LReq;

verus! {

/// A run of text, sized by the measurement table.
pub struct Text {
    pub text: String,
}

/// A vertical stack of descriptions.
pub struct Column {
    pub children: Vec<Pres>,
}

/// A horizontal row of descriptions.
pub struct Row {
    pub children: Vec<Pres>,
}

/// A line-wrapping run of descriptions.
pub struct Flow {
    pub children: Vec<Pres>,
}

/// A presentation description: the closed set of forms the builder
/// understands.
pub enum Pres {
    Text(Text),
    Column(Column),
    Row(Row),
    Flow(Flow),
}

impl Text {
    pub fn new(text: String) -> (r: Pres)
        ensures
            r matches Pres::Text(t) && t.text == text,
    {
        Pres::Text(Text { text })
    }
}

impl Column {
    pub fn new(children: Vec<Pres>) -> (r: Pres)
        ensures
            r matches Pres::Column(c) && c.children@ == children@,
    {
        Pres::Column(Column { children })
    }
}

impl Row {
    pub fn new(children: Vec<Pres>) -> (r: Pres)
        ensures
            r matches Pres::Row(c) && c.children@ == children@,
    {
        Pres::Row(Row { children })
    }
}

impl Flow {
    pub fn new(children: Vec<Pres>) -> (r: Pres)
        ensures
            r matches Pres::Flow(c) && c.children@ == children@,
    {
        Pres::Flow(Flow { children })
    }
}

/// One measured text: its content and its externally supplied
/// requisition for each axis.
pub struct TextMeasure {
    pub text: String,
    pub x_req: LReq,
    pub y_req: LReq,
}

/// The build context: an externally owned mapping from text content to
/// measured requisitions. One context stands for one measurement
/// configuration; measuring the same content under another
/// configuration belongs in another context.
pub struct PresBuildCtx {
    pub measures: Vec<TextMeasure>,
}

/// The requisitions a measurement table reports for a text: the first
/// entry whose content matches, or the empty requisition for unmeasured
/// content.
pub open spec fn spec_measure(ms: Seq<TextMeasure>, text: Seq<char>) -> (LReq, LReq)
    decreases ms.len(),
{
    if ms.len() == 0 {
        (LReq::spec_empty(), LReq::spec_empty())
    } else if ms[0].text@ == text {
        (ms[0].x_req, ms[0].y_req)
    } else {
        spec_measure(ms.drop_first(), text)
    }
}

impl PresBuildCtx {
    /// An empty measurement table.
    pub fn new() -> (r: PresBuildCtx)
        ensures
            r.measures@.len() == 0,
    {
        PresBuildCtx { measures: Vec::new() }
    }

    /// Record the measured requisitions of one text.
    pub fn add_measure(&mut self, text: String, x_req: LReq, y_req: LReq)
        ensures
            final(self).measures@ == old(self).measures@.push(
                TextMeasure { text, x_req, y_req },
            ),
    {
        self.measures.push(TextMeasure { text, x_req, y_req });
    }

    /// The measured requisitions of a text: the first entry whose content
    /// matches, or the empty requisition for unmeasured content. This is
    /// the memoized-measurement behaviour: identical content under this
    /// table always reports the identical requisitions.
    pub fn measure(&self, text: &String) -> (r: (LReq, LReq))
        ensures
            r == spec_measure(self.measures@, text@),
    {
        let ghost ms = self.measures@;
        let n = self.measures.len();
        let mut i: usize = 0;
        proof {
            assert(ms.skip(0) =~= ms);
        }
        while i < n
            invariant
                0 <= i <= n == ms.len(),
                ms == self.measures@,
                spec_measure(ms, text@) == spec_measure(ms.skip(i as int), text@),
            decreases n - i,
        {
            proof {
                assert(ms.skip(i as int).drop_first() =~= ms.skip(i + 1));
                assert(ms.skip(i as int)[0] == ms[i as int]);
            }
            if self.measures[i].text == *text {
                return (self.measures[i].x_req, self.measures[i].y_req);
            }
            i = i + 1;
        }
        proof {
            assert(ms.skip(n as int) =~= Seq::<TextMeasure>::empty());
        }
        (LReq::new_empty(), LReq::new_empty())
    }
}

/// What a compiled element owes its description: a text yields a leaf
/// carrying the table's measures for its content; a column, row or flow
/// yields its arrangement with the children compiled in order.
pub open spec fn built_matches(e: Element, p: Pres, ms: Seq<TextMeasure>) -> bool
    decreases p,
{
    match p {
        Pres::Text(t) => {
            &&& e.arrangement is Leaf
            &&& e.children@.len() == 0
            &&& (e.leaf_x_req, e.leaf_y_req) == spec_measure(ms, t.text@)
        },
        Pres::Column(c) => e.arrangement == (Arrangement::Column {
            y_spacing: 0,
            ref_point_index: None,
        }) && children_match(e.children@, c.children@, ms),
        Pres::Row(c) => e.arrangement == (Arrangement::Row {
            x_spacing: 0,
            ref_point_index: None,
        }) && children_match(e.children@, c.children@, ms),
        Pres::Flow(c) => e.arrangement == (Arrangement::Flow {
            x_spacing: 0,
            y_spacing: 0,
            indentation: FlowIndent::NoIndent,
        }) && children_match(e.children@, c.children@, ms),
    }
}

/// Each compiled child matches its description, in order.
pub open spec fn children_match(es: Seq<Element>, ps: Seq<Pres>, ms: Seq<TextMeasure>) -> bool
    decreases ps,
{
    es.len() == ps.len() && forall|i: int|
        0 <= i < ps.len() ==> built_matches(es[i], #[trigger] ps[i], ms)
}

/// Compile a description into an element tree, taking each text's
/// requisitions from the measurement table. Every cache of the produced
/// tree starts dirty; the first layout pass computes it all.
pub fn build(p: &Pres, ctx: &PresBuildCtx) -> (r: Element)
    ensures
        x_req_wf(r),
        y_req_wf(r),
        x_alloc_wf(r),
        y_alloc_wf(r),
        built_matches(r, *p, ctx.measures@),
    decreases *p,
{
    match p {
        Pres::Text(t) => {
            let (x_req, y_req) = ctx.measure(&t.text);
            Element::new_leaf(x_req, y_req)
        },
        Pres::Column(c) => {
            let elems = build_children(&c.children, ctx);
            Element::new_container(
                Arrangement::Column { y_spacing: 0, ref_point_index: None },
                elems,
            )
        },
        Pres::Row(c) => {
            let elems = build_children(&c.children, ctx);
            Element::new_container(
                Arrangement::Row { x_spacing: 0, ref_point_index: None },
                elems,
            )
        },
        Pres::Flow(c) => {
            let elems = build_children(&c.children, ctx);
            Element::new_container(
                Arrangement::Flow {
                    x_spacing: 0,
                    y_spacing: 0,
                    indentation: FlowIndent::NoIndent,
                },
                elems,
            )
        },
    }
}

/// Compile a run of descriptions, in order.
fn build_children(ps: &Vec<Pres>, ctx: &PresBuildCtx) -> (r: Vec<Element>)
    ensures
        forall|i: int|
            0 <= i < r@.len() ==> x_req_wf(#[trigger] r@[i]) && y_req_wf(r@[i]) && x_alloc_wf(
                r@[i],
            ) && y_alloc_wf(r@[i]),
        children_match(r@, ps@, ctx.measures@),
    decreases *ps,
{
    let mut out: Vec<Element> = Vec::new();
    let mut i: usize = 0;
    let n = ps.len();
    while i < n
        invariant
            0 <= i <= n == ps@.len(),
            out@.len() == i,
            forall|j: int|
                0 <= j < out@.len() ==> x_req_wf(#[trigger] out@[j]) && y_req_wf(out@[j])
                    && x_alloc_wf(out@[j]) && y_alloc_wf(out@[j]),
            forall|j: int|
                0 <= j < i ==> built_matches(out@[j], #[trigger] ps@[j], ctx.measures@),
        decreases n - i,
    {
        proof {
            assert(decreases_to!(*ps => ps@));
            assert(decreases_to!(ps@ => ps@[i as int]));
        }
        let e = build(&ps[i], ctx);
        out.push(e);
        i = i + 1;
    }
    out
}

/// Wrap the tree a description compiles to in a root element, exclusively
/// owning exactly that tree, ready for its first layout pass.
pub fn root_containing(p: &Pres, ctx: &PresBuildCtx) -> (r: RootElement)
    ensures
        x_req_wf(r.child),
        y_req_wf(r.child),
        x_alloc_wf(r.child),
        y_alloc_wf(r.child),
        built_matches(r.child, *p, ctx.measures@),
        r.width is None,
{
    let e = build(p, ctx);
    RootElement::new(e)
}

} // verus!
