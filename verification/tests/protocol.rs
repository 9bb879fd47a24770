use lspace::element::{Arrangement, Element, RootElement};
use lspace::flow_layout::FlowIndent;
use lspace::lalloc::LAlloc;
use lspace::lreq::LReq;
use lspace::pres::{Column, Flow, Pres, PresBuildCtx, Row, Text, root_containing};

fn fixed(size: u64) -> LReq {
    LReq::new_fixed_size(size)
}

fn leaf(w: u64, h: u64) -> Element {
    Element::new_leaf(fixed(w), fixed(h))
}

/// Every cached requisition, allocation, line record and dirty bit of a
/// subtree, flattened for a bit-identical comparison.
fn snapshot(e: &Element, out: &mut Vec<(LReq, LReq, LAlloc, LAlloc, bool, bool, bool, bool)>) {
    out.push((
        e.x_req,
        e.y_req,
        e.x_alloc,
        e.y_alloc,
        e.x_req_dirty,
        e.y_req_dirty,
        e.x_alloc_dirty,
        e.y_alloc_dirty,
    ));
    for line in &e.lines {
        out.push((
            line.y_req,
            fixed(line.pos_x_in_parent),
            LAlloc {
                pos_in_parent: line.pos_y_in_parent,
                alloc_size: line.start as u64,
                ref_point: Some(line.end as u64),
            },
            LAlloc {
                pos_in_parent: 0,
                alloc_size: 0,
                ref_point: None,
            },
            false,
            false,
            false,
            false,
        ));
    }
    for c in &e.children {
        snapshot(c, out);
    }
}

#[test]
fn column_of_leaves_lays_out() {
    let col = Element::new_container(
        Arrangement::Column { y_spacing: 5, ref_point_index: None },
        vec![leaf(30, 10), leaf(50, 20)],
    );
    let mut root = RootElement::new(col);
    root.layout();
    assert_eq!(root.x_req.size(), 50);
    assert_eq!(root.y_req.size(), 10 + 20 + 5);
    assert_eq!(root.child.children[0].y_alloc.pos_in_parent, 0);
    assert_eq!(root.child.children[1].y_alloc.pos_in_parent, 15);
    assert_eq!(root.child.children[0].x_alloc.alloc_size, 30);
    assert_eq!(root.child.children[1].x_alloc.alloc_size, 50);
}

#[test]
fn row_of_leaves_lays_out() {
    let row = Element::new_container(
        Arrangement::Row { x_spacing: 2, ref_point_index: None },
        vec![leaf(30, 10), leaf(50, 20)],
    );
    let mut root = RootElement::new(row);
    root.layout();
    assert_eq!(root.x_req.size(), 30 + 50 + 2);
    assert_eq!(root.y_req.size(), 20);
    assert_eq!(root.child.children[0].x_alloc.pos_in_parent, 0);
    assert_eq!(root.child.children[1].x_alloc.pos_in_parent, 32);
}

#[test]
fn flow_wraps_under_viewport_pressure() {
    let flow = Element::new_container(
        Arrangement::Flow { x_spacing: 0, y_spacing: 0, indentation: FlowIndent::NoIndent },
        vec![leaf(50, 10), leaf(50, 10), leaf(50, 10), leaf(50, 10)],
    );
    let mut root = RootElement::new(flow);
    root.set_width(Some(120));
    root.layout();
    assert_eq!(root.child.lines.len(), 2);
    assert_eq!((root.child.lines[0].start, root.child.lines[0].end), (0, 2));
    assert_eq!((root.child.lines[1].start, root.child.lines[1].end), (2, 4));
    // two lines of height 10 each
    assert_eq!(root.y_req.size(), 20);
    assert_eq!(root.child.children[2].y_alloc.pos_in_parent, 10);
}

#[test]
fn layout_twice_is_bit_identical() {
    // running all four phases twice with no intervening mutation yields
    // bit-identical requisitions and allocations: the second pass finds
    // every dirty bit clear and is a no-op
    let flow = Element::new_container(
        Arrangement::Flow { x_spacing: 3, y_spacing: 2, indentation: FlowIndent::First {
            indent: 7,
        } },
        vec![leaf(50, 10), leaf(60, 12), leaf(50, 9), leaf(40, 10)],
    );
    let col = Element::new_container(
        Arrangement::Column { y_spacing: 5, ref_point_index: None },
        vec![leaf(30, 10), flow, leaf(20, 8)],
    );
    let mut root = RootElement::new(col);
    root.set_width(Some(100));
    root.layout();
    let mut first: Vec<_> = Vec::new();
    snapshot(&root.child, &mut first);
    let req1 = (root.x_req, root.y_req, root.x_alloc, root.y_alloc);
    root.layout();
    let mut second: Vec<_> = Vec::new();
    snapshot(&root.child, &mut second);
    let req2 = (root.x_req, root.y_req, root.x_alloc, root.y_alloc);
    assert_eq!(first, second);
    assert_eq!(req1, req2);
    // and the dirty bits really are all clear
    for entry in &second {
        assert!(!entry.4 && !entry.5 && !entry.6 && !entry.7);
    }
}

#[test]
fn resize_relayout_rewraps() {
    let flow = Element::new_container(
        Arrangement::Flow { x_spacing: 0, y_spacing: 0, indentation: FlowIndent::NoIndent },
        vec![leaf(50, 10), leaf(50, 10), leaf(50, 10), leaf(50, 10)],
    );
    let mut root = RootElement::new(flow);
    root.set_width(Some(220));
    root.layout();
    assert_eq!(root.child.lines.len(), 1);
    root.set_width(Some(120));
    root.layout();
    assert_eq!(root.child.lines.len(), 2);
    assert_eq!(root.y_req.size(), 20);
}

#[test]
fn mark_dirty_then_layout_recomputes() {
    let col = Element::new_container(
        Arrangement::Column { y_spacing: 0, ref_point_index: None },
        vec![leaf(30, 10)],
    );
    let mut root = RootElement::new(col);
    root.layout();
    assert_eq!(root.y_req.size(), 10);
    root.child.children[0].leaf_y_req = fixed(25);
    root.child.children[0].mark_dirty();
    root.child.mark_dirty();
    root.layout();
    assert_eq!(root.y_req.size(), 25);
}

#[test]
fn bin_passes_single_child_through() {
    let bin = Element::new_container(Arrangement::Bin, vec![leaf(33, 11)]);
    let mut root = RootElement::new(bin);
    root.layout();
    assert_eq!(root.x_req.size(), 33);
    assert_eq!(root.y_req.size(), 11);
    assert_eq!(root.child.children[0].x_alloc.alloc_size, 33);
}

#[test]
fn pres_builds_and_lays_out_document() {
    let mut ctx = PresBuildCtx::new();
    ctx.add_measure("hello".to_string(), fixed(40), LReq::new_fixed_ref(9, 3));
    ctx.add_measure("world".to_string(), fixed(48), LReq::new_fixed_ref(9, 3));
    let doc = Column::new(vec![
        Text::new("hello".to_string()),
        Row::new(vec![
            Text::new("hello".to_string()),
            Text::new("world".to_string()),
        ]),
        Flow::new(vec![
            Text::new("world".to_string()),
            Text::new("world".to_string()),
        ]),
    ]);
    let mut root = root_containing(&doc, &ctx);
    root.layout();
    // column width: widest child is the flow's one-line preference, 48 + 48
    assert_eq!(root.x_req.size(), 96);
    // heights: text 12, row 12, flow one line 12
    assert_eq!(root.y_req.size(), 36);
    assert_eq!(root.child.children.len(), 3);
}

#[test]
fn pres_unmeasured_text_is_empty() {
    let ctx = PresBuildCtx::new();
    let doc = Text::new("absent".to_string());
    let mut root = root_containing(&doc, &ctx);
    root.layout();
    assert_eq!(root.x_req.size(), 0);
    assert_eq!(root.y_req.size(), 0);
}

#[test]
fn measure_table_returns_first_matching_entry() {
    let mut ctx = PresBuildCtx::new();
    ctx.add_measure("dup".to_string(), fixed(7), fixed(8));
    ctx.add_measure("dup".to_string(), fixed(70), fixed(80));
    let (x, y) = ctx.measure(&"dup".to_string());
    assert_eq!(x.size(), 7);
    assert_eq!(y.size(), 8);
}

#[test]
fn build_yields_described_structure() {
    let mut ctx = PresBuildCtx::new();
    ctx.add_measure("a".to_string(), fixed(11), fixed(5));
    let doc = Row::new(vec![Text::new("a".to_string()), Text::new("a".to_string())]);
    let root = root_containing(&doc, &ctx);
    assert!(matches!(root.child.arrangement, Arrangement::Row { .. }));
    assert_eq!(root.child.children.len(), 2);
    assert!(matches!(root.child.children[0].arrangement, Arrangement::Leaf));
    assert_eq!(root.child.children[0].leaf_x_req.size(), 11);
    assert_eq!(root.child.children[1].leaf_y_req.size(), 5);
}

#[test]
fn measure_table_returns_recorded_requisitions() {
    let mut ctx = PresBuildCtx::new();
    ctx.add_measure("abc".to_string(), fixed(21), fixed(13));
    let (x, y) = ctx.measure(&"abc".to_string());
    assert_eq!(x.size(), 21);
    assert_eq!(y.size(), 13);
    let (x2, y2) = ctx.measure(&"missing".to_string());
    assert_eq!(x2, LReq::new_empty());
    assert_eq!(y2, LReq::new_empty());
}

#[test]
fn pres_is_a_scenario_of_kinds() {
    let p = Text::new("t".to_string());
    assert!(matches!(p, Pres::Text(_)));
    let q = Column::new(Vec::new());
    assert!(matches!(q, Pres::Column(_)));
}

#[test]
fn oversized_content_skips_recomputation_without_panicking() {
    // accumulating these would pass the machine word; the requisition
    // phase leaves the cached (empty) value rather than overflowing
    let row = Element::new_container(
        Arrangement::Row { x_spacing: 1, ref_point_index: None },
        vec![leaf(u64::MAX, 10), leaf(u64::MAX, 10)],
    );
    let mut root = RootElement::new(row);
    root.layout();
    assert_eq!(root.x_req.size_capped(), 0);
    assert_eq!(root.y_req.size_capped(), 10);
}

#[test]
fn empty_flow_lays_out_to_nothing() {
    let flow = Element::new_container(
        Arrangement::Flow { x_spacing: 0, y_spacing: 0, indentation: FlowIndent::NoIndent },
        Vec::new(),
    );
    let mut root = RootElement::new(flow);
    root.set_width(Some(80));
    root.layout();
    assert_eq!(root.x_req.size(), 0);
    assert_eq!(root.y_req.size(), 0);
}
