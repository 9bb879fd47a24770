use lspace::lreq::{LFlex, LNatSize, LReq};

fn fixed(size: u64) -> LReq {
    LReq::new_fixed_size(size)
}

fn flex(size: u64, min: u64, stretch: u64) -> LReq {
    LReq::new_flex_size_min(size, min, stretch)
}

#[test]
fn linear_acc_sums_sizes_and_spacing() {
    let items = vec![fixed(10), fixed(20), fixed(30)];
    let r = LReq::linear_acc(&items, 5, None);
    assert_eq!(r.size(), 10 + 20 + 30 + 5 * 2);
    assert_eq!(r.min_size(), 70);
    assert_eq!(r.stretch(), 0);
    assert_eq!(r.ref_point(), None);
}

#[test]
fn linear_acc_empty_is_empty_requisition() {
    let items: Vec<LReq> = Vec::new();
    let r = LReq::linear_acc(&items, 7, None);
    assert_eq!(r, LReq::new_empty());
    assert_eq!(r.size(), 0);
}

#[test]
fn linear_acc_single_item_no_spacing_contribution() {
    let items = vec![fixed(42)];
    let r = LReq::linear_acc(&items, 9, None);
    assert_eq!(r.size(), 42);
}

#[test]
fn linear_acc_combines_flexibility() {
    let items = vec![flex(10, 4, 2), fixed(20), flex(30, 30, 3)];
    let r = LReq::linear_acc(&items, 1, None);
    assert_eq!(r.size(), 62);
    assert_eq!(r.min_size(), 4 + 20 + 30 + 2);
    assert_eq!(r.stretch(), 5);
}

#[test]
fn linear_acc_exposes_indexed_reference_point() {
    let items = vec![fixed(10), LReq::new_fixed_ref(3, 7), fixed(5)];
    let r = LReq::linear_acc(&items, 2, Some(1));
    // the anchor of item 1, offset by item 0 and one spacing
    assert_eq!(r.ref_point(), Some(10 + 2 + 3));
    assert_eq!(r.size(), 10 + 10 + 5 + 2 * 2);
}

#[test]
fn indent_then_dedent_is_identity() {
    let samples = vec![
        fixed(10),
        LReq::new_fixed_ref(4, 6),
        flex(30, 12, 2),
        LReq::new(LNatSize::Ref { before: 0, after: 9 }, LFlex::Flex { stretch: 1, min: 40 }),
        LReq::new_empty(),
    ];
    for r in samples {
        assert_eq!(r.indent(17).dedent(17), r);
        assert_eq!(r.indent(0).dedent(0), r);
    }
}

#[test]
fn indent_shifts_leading_edge() {
    let r = LReq::new_fixed_ref(4, 6).indent(10);
    assert_eq!(r.size(), 20);
    assert_eq!(r.ref_point(), Some(14));
}

#[test]
fn dedent_saturates_at_zero() {
    let r = fixed(5).dedent(9);
    assert_eq!(r.size(), 0);
}

#[test]
fn perpendicular_acc_single_item_unchanged() {
    let samples = vec![fixed(10), LReq::new_fixed_ref(4, 6), flex(30, 12, 2)];
    for r in samples {
        let items = vec![r];
        assert_eq!(LReq::perpendicular_acc(&items), r);
    }
}

#[test]
fn perpendicular_acc_reconciles_reference_points() {
    let items = vec![LReq::new_fixed_ref(10, 5), LReq::new_fixed_ref(4, 12)];
    let r = LReq::perpendicular_acc(&items);
    assert_eq!(r.ref_point(), Some(10));
    // before = max(10, 4), after = max(5, 12): 22, not max(15, 16) = 16
    assert_eq!(r.size(), 22);
}

#[test]
fn perpendicular_acc_without_refs_is_plain_max() {
    let items = vec![fixed(15), fixed(40), fixed(22)];
    let r = LReq::perpendicular_acc(&items);
    assert_eq!(r.size(), 40);
    assert_eq!(r.ref_point(), None);
}

#[test]
fn perpendicular_acc_treats_no_ref_as_all_after() {
    let items = vec![LReq::new_fixed_ref(10, 5), fixed(12)];
    let r = LReq::perpendicular_acc(&items);
    // the plain item counts as before = 0, after = 12
    assert_eq!(r.ref_point(), Some(10));
    assert_eq!(r.size(), 10 + 12);
}

#[test]
fn perpendicular_acc_any_flex_makes_group_flex() {
    let items = vec![fixed(10), flex(20, 8, 3)];
    let r = LReq::perpendicular_acc(&items);
    assert_eq!(r.stretch(), 3);
    // result minimum = max of item minimums (10 and 8)
    assert_eq!(r.min_size(), 10);
}

#[test]
fn perpendicular_acc_empty_is_empty_requisition() {
    let items: Vec<LReq> = Vec::new();
    assert_eq!(LReq::perpendicular_acc(&items), LReq::new_empty());
}
