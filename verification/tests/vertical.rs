use lspace::lalloc::LAlloc;
use lspace::lreq::LReq;
use lspace::vertical_layout;

fn fixed(size: u64) -> LReq {
    LReq::new_fixed_size(size)
}

fn flex(size: u64, min: u64, stretch: u64) -> LReq {
    LReq::new_flex_size_min(size, min, stretch)
}

#[test]
fn stack_width_is_reconciled_maximum() {
    let reqs = vec![fixed(30), LReq::new_fixed_ref(10, 25), fixed(20)];
    let r = vertical_layout::requisition_x(&reqs);
    // before = 10, after = max(30, 25, 20)
    assert_eq!(r.size(), 40);
    assert_eq!(r.ref_point(), Some(10));
}

#[test]
fn stack_height_is_linear_accumulation() {
    let reqs = vec![fixed(10), fixed(20), fixed(30)];
    let r = vertical_layout::requisition_y(&reqs, 4, None);
    assert_eq!(r.size(), 60 + 8);
}

#[test]
fn stack_height_can_expose_child_anchor() {
    let reqs = vec![fixed(10), LReq::new_fixed_ref(3, 7), fixed(30)];
    let r = vertical_layout::requisition_y(&reqs, 0, Some(1));
    assert_eq!(r.ref_point(), Some(13));
}

#[test]
fn stack_alloc_x_gives_every_child_the_region() {
    let reqs = vec![fixed(30), flex(20, 10, 1)];
    let box_req = vertical_layout::requisition_x(&reqs);
    let box_alloc = LAlloc {
        pos_in_parent: 5,
        alloc_size: 100,
        ref_point: None,
    };
    let allocs = vertical_layout::alloc_x(&box_req, &box_alloc, &reqs);
    assert_eq!(allocs.len(), 2);
    // fixed child keeps its width, flexible child takes the region
    assert_eq!(allocs[0].pos_in_parent, 5);
    assert_eq!(allocs[0].alloc_size, 30);
    assert_eq!(allocs[1].pos_in_parent, 5);
    assert_eq!(allocs[1].alloc_size, 100);
}

#[test]
fn stack_alloc_y_is_one_linear_distribution() {
    let reqs = vec![fixed(10), flex(20, 20, 1), fixed(30)];
    let box_req = vertical_layout::requisition_y(&reqs, 2, None);
    assert_eq!(box_req.size(), 64);
    let box_alloc = LAlloc {
        pos_in_parent: 0,
        alloc_size: 100,
        ref_point: None,
    };
    let allocs = vertical_layout::alloc_y(&box_req, &box_alloc, &reqs, 2, None);
    // the one stretchy child soaks up the slack of 36
    assert_eq!(allocs[0].alloc_size, 10);
    assert_eq!(allocs[1].alloc_size, 56);
    assert_eq!(allocs[2].alloc_size, 30);
    assert_eq!(allocs[0].pos_in_parent, 0);
    assert_eq!(allocs[1].pos_in_parent, 12);
    assert_eq!(allocs[2].pos_in_parent, 70);
}
