use lspace::lalloc::LAlloc;
use lspace::lreq::LReq;

fn fixed(size: u64) -> LReq {
    LReq::new_fixed_size(size)
}

fn flex(size: u64, min: u64, stretch: u64) -> LReq {
    LReq::new_flex_size_min(size, min, stretch)
}

fn sizes(allocs: &[LAlloc]) -> Vec<u64> {
    allocs.iter().map(|a| a.alloc_size).collect()
}

fn positions(allocs: &[LAlloc]) -> Vec<u64> {
    allocs.iter().map(|a| a.pos_in_parent).collect()
}

#[test]
fn fixed_requisition_gets_exactly_preferred_size() {
    let req = fixed(80);
    let mut a = LAlloc::new_empty();
    // region smaller than preferred: overflow permitted, not corrected
    a.alloc_from_region(&req, 10, 50, None);
    assert_eq!(a.pos_in_parent, 10);
    assert_eq!(a.alloc_size, 80);
    // region larger: still exactly preferred
    a.alloc_from_region(&req, 10, 500, None);
    assert_eq!(a.alloc_size, 80);
}

#[test]
fn flexible_requisition_takes_region_slack() {
    let req = flex(80, 40, 1);
    let mut a = LAlloc::new_empty();
    a.alloc_from_region(&req, 0, 200, None);
    assert_eq!(a.alloc_size, 200);
    a.alloc_from_region(&req, 0, 50, None);
    assert_eq!(a.alloc_size, 80);
}

#[test]
fn flexible_requisition_never_drops_below_its_floor() {
    // minimum above preferred: in a small region the floor wins,
    // max(minimum, preferred) = 10
    let req = flex(5, 10, 1);
    let mut a = LAlloc::new_empty();
    a.alloc_from_region(&req, 0, 5, None);
    assert_eq!(a.alloc_size, 10);
    // a region above the preferred size is still taken whole
    a.alloc_from_region(&req, 0, 40, None);
    assert_eq!(a.alloc_size, 40);
}

#[test]
fn alloc_from_region_aligns_anchors() {
    let req = LReq::new_fixed_ref(5, 10);
    let mut a = LAlloc::new_empty();
    a.alloc_from_region(&req, 100, 15, Some(12));
    // shifted forward so the anchors coincide: 100 + (12 - 5)
    assert_eq!(a.pos_in_parent, 107);
    assert_eq!(a.ref_point, Some(5));
}

#[test]
fn alloc_linear_distributes_slack_proportionally() {
    let reqs = vec![flex(10, 10, 1), fixed(20), flex(30, 30, 3)];
    let box_req = LReq::linear_acc(&reqs, 0, None);
    assert_eq!(box_req.size(), 60);
    let allocs = LAlloc::alloc_linear(&reqs, &box_req, 0, 100, 0);
    // slack 40 split 1:3 between the stretchy items
    assert_eq!(sizes(&allocs), vec![20, 20, 60]);
    assert_eq!(positions(&allocs), vec![0, 20, 40]);
    let total: u64 = sizes(&allocs).iter().sum();
    assert_eq!(total, 100);
}

#[test]
fn alloc_linear_fills_region_exactly_with_spacing() {
    let reqs = vec![flex(10, 0, 2), flex(10, 0, 2)];
    let box_req = LReq::linear_acc(&reqs, 4, None);
    assert_eq!(box_req.size(), 24);
    let allocs = LAlloc::alloc_linear(&reqs, &box_req, 7, 100, 4);
    let total: u64 = sizes(&allocs).iter().sum();
    // granted sizes plus the one spacing fill the region exactly
    assert_eq!(total + 4, 100);
    assert_eq!(allocs[0].pos_in_parent, 7);
    assert_eq!(allocs[1].pos_in_parent, 7 + allocs[0].alloc_size + 4);
}

#[test]
fn alloc_linear_undersized_region_keeps_preferred_sizes() {
    let reqs = vec![flex(10, 5, 1), fixed(20), flex(30, 15, 3)];
    let box_req = LReq::linear_acc(&reqs, 2, None);
    assert_eq!(box_req.size(), 64);
    let allocs = LAlloc::alloc_linear(&reqs, &box_req, 0, 40, 2);
    // region under the natural size: every item keeps its preferred size
    assert_eq!(sizes(&allocs), vec![10, 20, 30]);
    assert_eq!(positions(&allocs), vec![0, 12, 34]);
}

#[test]
fn alloc_linear_without_stretch_keeps_preferred_sizes() {
    let reqs = vec![fixed(10), fixed(20)];
    let box_req = LReq::linear_acc(&reqs, 0, None);
    let allocs = LAlloc::alloc_linear(&reqs, &box_req, 0, 100, 0);
    assert_eq!(sizes(&allocs), vec![10, 20]);
}

#[test]
fn alloc_linear_zero_weight_never_grows() {
    let reqs = vec![flex(10, 10, 0), flex(10, 10, 2)];
    let box_req = LReq::linear_acc(&reqs, 0, None);
    let allocs = LAlloc::alloc_linear(&reqs, &box_req, 0, 50, 0);
    assert_eq!(sizes(&allocs), vec![10, 40]);
}

#[test]
fn region_indent_narrows_and_shifts() {
    let a = LAlloc {
        pos_in_parent: 10,
        alloc_size: 100,
        ref_point: Some(30),
    };
    let b = a.indent(25);
    assert_eq!(b.pos_in_parent, 35);
    assert_eq!(b.alloc_size, 75);
    assert_eq!(b.ref_point, Some(5));
    let c = a.indent(200);
    assert_eq!(c.alloc_size, 0);
    assert_eq!(c.ref_point, Some(0));
}

#[test]
fn new_from_req_takes_natural_size() {
    let req = LReq::new_fixed_ref(6, 4);
    let a = LAlloc::new_from_req(&req, 3);
    assert_eq!(a.pos_in_parent, 3);
    assert_eq!(a.alloc_size, 10);
    assert_eq!(a.ref_point, Some(6));
}
