//! Requisition: an element's declared sizing need along one axis.
//!
//! A requisition pairs a natural-size descriptor (a plain extent, or an
//! extent split at a reference point into a part before and a part after
//! the alignment anchor) with a flexibility: fixed, or stretchy with a
//! stretch weight and a minimum-size floor.

use vstd::prelude::*;

verus! {

/// Natural size of one axis: a plain extent, or an extent split at a
/// reference point (e.g. a text baseline) into `before` and `after`
/// components whose sum is the extent.
#[derive(Debug, Clone, Copy, PartialEq, Eq, Structural)]
pub enum LNatSize {
    Size { size: u64 },
    Ref { before: u64, after: u64 },
}

/// Flexibility of a requisition: fixed, or stretchy with a stretch weight
/// (its share of extra space at allocation time) and a minimum-size floor.
#[derive(Debug, Clone, Copy, PartialEq, Eq, Structural)]
pub enum LFlex {
    Fixed,
    Flex { stretch: u64, min: u64 },
}

/// A one-axis sizing requirement: natural size plus flexibility.
#[derive(Debug, Clone, Copy, PartialEq, Eq, Structural)]
pub struct LReq {
    pub size: LNatSize,
    pub flex: LFlex,
}

impl LReq {
    /// The natural (preferred) extent.
    pub open spec fn spec_size(self) -> int {
        match self.size {
            LNatSize::Size { size } => size as int,
            LNatSize::Ref { before, after } => before + after,
        }
    }

    /// Whether the extent is split at a reference point.
    pub open spec fn has_ref(self) -> bool {
        self.size is Ref
    }

    /// The part of the extent before the anchor; 0 without a reference point.
    pub open spec fn spec_before(self) -> int {
        match self.size {
            LNatSize::Size { size } => 0,
            LNatSize::Ref { before, after } => before as int,
        }
    }

    /// The part of the extent after the anchor; the whole extent without a
    /// reference point.
    pub open spec fn spec_after(self) -> int {
        match self.size {
            LNatSize::Size { size } => size as int,
            LNatSize::Ref { before, after } => after as int,
        }
    }

    /// Whether the requisition may stretch or shrink.
    pub open spec fn is_flex(self) -> bool {
        self.flex is Flex
    }

    /// The stretch weight; 0 when fixed.
    pub open spec fn spec_stretch(self) -> int {
        match self.flex {
            LFlex::Fixed => 0,
            LFlex::Flex { stretch, min } => stretch as int,
        }
    }

    /// The minimum size: the natural size when fixed, the floor when
    /// flexible.
    pub open spec fn spec_min(self) -> int {
        match self.flex {
            LFlex::Fixed => self.spec_size(),
            LFlex::Flex { stretch, min } => min as int,
        }
    }

    /// The extent of a reference-point split fits the machine word.
    pub open spec fn wf(self) -> bool {
        self.spec_size() <= u64::MAX
    }

    /// The empty requisition as a value: zero size, fixed.
    pub open spec fn spec_empty() -> LReq {
        LReq { size: LNatSize::Size { size: 0 }, flex: LFlex::Fixed }
    }

    /// The empty requisition: zero size, fixed. Identity element of the
    /// accumulations.
    pub fn new_empty() -> (r: LReq)
        ensures
            r == LReq::spec_empty(),
    {
        LReq { size: LNatSize::Size { size: 0 }, flex: LFlex::Fixed }
    }

    /// A fixed-size requisition without a reference point.
    pub fn new_fixed_size(size: u64) -> (r: LReq)
        ensures
            r == (LReq { size: LNatSize::Size { size }, flex: LFlex::Fixed }),
    {
        LReq { size: LNatSize::Size { size }, flex: LFlex::Fixed }
    }

    /// A fixed-size requisition split at a reference point.
    pub fn new_fixed_ref(before: u64, after: u64) -> (r: LReq)
        requires
            before + after <= u64::MAX,
        ensures
            r == (LReq { size: LNatSize::Ref { before, after }, flex: LFlex::Fixed }),
    {
        LReq { size: LNatSize::Ref { before, after }, flex: LFlex::Fixed }
    }

    /// A flexible requisition: preferred size, minimum floor, stretch weight.
    pub fn new_flex_size_min(size: u64, min: u64, stretch: u64) -> (r: LReq)
        ensures
            r == (LReq {
                size: LNatSize::Size { size },
                flex: LFlex::Flex { stretch, min },
            }),
    {
        LReq { size: LNatSize::Size { size }, flex: LFlex::Flex { stretch, min } }
    }

    /// A requisition from its two parts.
    pub fn new(size: LNatSize, flex: LFlex) -> (r: LReq)
        ensures
            r == (LReq { size, flex }),
    {
        LReq { size, flex }
    }

    /// The natural extent as a machine word.
    pub fn size(&self) -> (r: u64)
        requires
            self.wf(),
        ensures
            r == self.spec_size(),
    {
        match self.size {
            LNatSize::Size { size } => size,
            LNatSize::Ref { before, after } => before + after,
        }
    }

    /// The reference point, when the extent is split at one.
    pub fn ref_point(&self) -> (r: Option<u64>)
        ensures
            self.has_ref() ==> r == Some(self.spec_before() as u64),
            !self.has_ref() ==> r is None,
    {
        match self.size {
            LNatSize::Size { size } => None,
            LNatSize::Ref { before, after } => Some(before),
        }
    }

    /// The minimum size as a machine word.
    pub fn min_size(&self) -> (r: u64)
        requires
            self.wf(),
        ensures
            r == self.spec_min(),
    {
        match self.flex {
            LFlex::Fixed => self.size(),
            LFlex::Flex { stretch, min } => min,
        }
    }

    /// The stretch weight as a machine word.
    pub fn stretch(&self) -> (r: u64)
        ensures
            r == self.spec_stretch(),
    {
        match self.flex {
            LFlex::Fixed => 0,
            LFlex::Flex { stretch, min } => stretch,
        }
    }

    /// The flexibility part.
    pub fn flex(&self) -> (r: LFlex)
        ensures
            r == self.flex,
    {
        self.flex
    }

    /// Shift the leading edge outward by `a`: the extent, the part before
    /// the anchor and the minimum floor all grow by `a`.
    pub fn indent(&self, a: u64) -> (r: LReq)
        requires
            self.spec_size() + a <= u64::MAX,
            self.spec_min() + a <= u64::MAX,
        ensures
            r == spec_indent(*self, a),
            r.spec_size() == self.spec_size() + a,
            r.spec_before() == if self.has_ref() {
                self.spec_before() + a
            } else {
                0
            },
            r.has_ref() == self.has_ref(),
            r.is_flex() == self.is_flex(),
            r.spec_stretch() == self.spec_stretch(),
            r.spec_min() == self.spec_min() + a,
    {
        let size = match self.size {
            LNatSize::Size { size } => LNatSize::Size { size: size + a },
            LNatSize::Ref { before, after } => LNatSize::Ref { before: before + a, after },
        };
        let flex = match self.flex {
            LFlex::Fixed => LFlex::Fixed,
            LFlex::Flex { stretch, min } => LFlex::Flex { stretch, min: min + a },
        };
        LReq { size, flex }
    }

    /// Shift the leading edge inward by `a`, the exact inverse of `indent`:
    /// the extent (the part before the anchor, for a split extent) and the
    /// minimum floor shrink by `a`, stopping at zero.
    pub fn dedent(&self, a: u64) -> (r: LReq)
        ensures
            r == spec_dedent(*self, a),
            self.spec_size() - a <= r.spec_size() <= self.spec_size(),
    {
        let size = match self.size {
            LNatSize::Size { size } => LNatSize::Size {
                size: if size >= a {
                    size - a
                } else {
                    0
                },
            },
            LNatSize::Ref { before, after } => LNatSize::Ref {
                before: if before >= a {
                    before - a
                } else {
                    0
                },
                after,
            },
        };
        let flex = match self.flex {
            LFlex::Fixed => LFlex::Fixed,
            LFlex::Flex { stretch, min } => LFlex::Flex {
                stretch,
                min: if min >= a {
                    min - a
                } else {
                    0
                },
            },
        };
        LReq { size, flex }
    }
}

/// Model of `LReq::indent`.
pub open spec fn spec_indent(r: LReq, a: u64) -> LReq {
    LReq {
        size: match r.size {
            LNatSize::Size { size } => LNatSize::Size { size: (size + a) as u64 },
            LNatSize::Ref { before, after } => LNatSize::Ref {
                before: (before + a) as u64,
                after,
            },
        },
        flex: match r.flex {
            LFlex::Fixed => LFlex::Fixed,
            LFlex::Flex { stretch, min } => LFlex::Flex {
                stretch,
                min: (min + a) as u64,
            },
        },
    }
}

/// Model of `LReq::dedent`.
pub open spec fn spec_dedent(r: LReq, a: u64) -> LReq {
    LReq {
        size: match r.size {
            LNatSize::Size { size } => LNatSize::Size {
                size: if size >= a {
                    (size - a) as u64
                } else {
                    0
                },
            },
            LNatSize::Ref { before, after } => LNatSize::Ref {
                before: if before >= a {
                    (before - a) as u64
                } else {
                    0
                },
                after,
            },
        },
        flex: match r.flex {
            LFlex::Fixed => LFlex::Fixed,
            LFlex::Flex { stretch, min } => LFlex::Flex {
                stretch,
                min: if min >= a {
                    (min - a) as u64
                } else {
                    0
                },
            },
        },
    }
}

/// Law: dedenting by `a` undoes indenting by `a`, for every requisition
/// whose indented form fits the machine word.
pub proof fn lemma_indent_dedent(r: LReq, a: u64)
    requires
        r.spec_size() + a <= u64::MAX,
        r.spec_min() + a <= u64::MAX,
    ensures
        spec_dedent(spec_indent(r, a), a) == r,
{
}

// ---------------------------------------------------------------------------
// Linear accumulation: items composed end-to-end along the primary axis.
// ---------------------------------------------------------------------------

/// Sum of the natural sizes of a run of requisitions.
pub open spec fn sum_sizes(s: Seq<LReq>) -> int
    decreases s.len(),
{
    if s.len() == 0 {
        0
    } else {
        sum_sizes(s.drop_last()) + s.last().spec_size()
    }
}

/// Sum of the minimum sizes of a run of requisitions.
pub open spec fn sum_mins(s: Seq<LReq>) -> int
    decreases s.len(),
{
    if s.len() == 0 {
        0
    } else {
        sum_mins(s.drop_last()) + s.last().spec_min()
    }
}

/// Sum of the stretch weights of a run of requisitions.
pub open spec fn sum_stretch(s: Seq<LReq>) -> int
    decreases s.len(),
{
    if s.len() == 0 {
        0
    } else {
        sum_stretch(s.drop_last()) + s.last().spec_stretch()
    }
}

/// Whether any requisition in the run is flexible.
pub open spec fn any_flex(s: Seq<LReq>) -> bool {
    exists|i: int| 0 <= i < s.len() && s[i].is_flex()
}

/// Natural size of a linear composition: the item sizes plus one spacing
/// between each adjacent pair.
pub open spec fn spec_linear_size(s: Seq<LReq>, spacing: int) -> int {
    if s.len() == 0 {
        0
    } else {
        sum_sizes(s) + spacing * (s.len() - 1)
    }
}

/// Minimum size of a linear composition.
pub open spec fn spec_linear_min(s: Seq<LReq>, spacing: int) -> int {
    if s.len() == 0 {
        0
    } else {
        sum_mins(s) + spacing * (s.len() - 1)
    }
}

/// Reference point of a linear composition that exposes item `j`'s anchor:
/// item `j`'s own anchor offset by everything placed before it.
pub open spec fn spec_linear_before(s: Seq<LReq>, spacing: int, j: int) -> int {
    sum_sizes(s.take(j)) + spacing * j + s[j].spec_before()
}

/// The requisition value `linear_acc` produces.
pub open spec fn spec_linear_req(s: Seq<LReq>, spacing: int, ref_index: Option<usize>) -> LReq {
    let total = spec_linear_size(s, spacing);
    let size = match ref_index {
        Some(j) => {
            let b = spec_linear_before(s, spacing, j as int);
            LNatSize::Ref { before: b as u64, after: (total - b) as u64 }
        },
        None => LNatSize::Size { size: total as u64 },
    };
    let flex = if any_flex(s) {
        LFlex::Flex { stretch: sum_stretch(s) as u64, min: spec_linear_min(s, spacing) as u64 }
    } else {
        LFlex::Fixed
    };
    LReq { size, flex }
}

pub proof fn lemma_sum_sizes_take_succ(s: Seq<LReq>, i: int)
    requires
        0 <= i < s.len(),
    ensures
        sum_sizes(s.take(i + 1)) == sum_sizes(s.take(i)) + s[i].spec_size(),
{
    assert(s.take(i + 1).drop_last() =~= s.take(i));
    assert(s.take(i + 1).last() == s[i]);
}

pub proof fn lemma_sum_mins_take_succ(s: Seq<LReq>, i: int)
    requires
        0 <= i < s.len(),
    ensures
        sum_mins(s.take(i + 1)) == sum_mins(s.take(i)) + s[i].spec_min(),
{
    assert(s.take(i + 1).drop_last() =~= s.take(i));
    assert(s.take(i + 1).last() == s[i]);
}

pub proof fn lemma_sum_stretch_take_succ(s: Seq<LReq>, i: int)
    requires
        0 <= i < s.len(),
    ensures
        sum_stretch(s.take(i + 1)) == sum_stretch(s.take(i)) + s[i].spec_stretch(),
{
    assert(s.take(i + 1).drop_last() =~= s.take(i));
    assert(s.take(i + 1).last() == s[i]);
}

/// Sums of sizes only grow as the run extends.
pub proof fn lemma_sum_sizes_take_le(s: Seq<LReq>, i: int)
    requires
        0 <= i <= s.len(),
    ensures
        sum_sizes(s.take(i)) <= sum_sizes(s),
        sum_sizes(s.take(i)) >= 0,
    decreases s.len() - i,
{
    if i == s.len() {
        assert(s.take(i) =~= s);
        lemma_sum_sizes_nonneg(s);
    } else {
        lemma_sum_sizes_take_succ(s, i);
        lemma_sum_sizes_take_le(s, i + 1);
        lemma_sum_sizes_nonneg(s.take(i));
        assert(s[i].spec_size() >= 0);
    }
}

pub proof fn lemma_sum_sizes_nonneg(s: Seq<LReq>)
    ensures
        sum_sizes(s) >= 0,
    decreases s.len(),
{
    if s.len() > 0 {
        lemma_sum_sizes_nonneg(s.drop_last());
    }
}

pub proof fn lemma_sum_mins_take_le(s: Seq<LReq>, i: int)
    requires
        0 <= i <= s.len(),
    ensures
        sum_mins(s.take(i)) <= sum_mins(s),
        sum_mins(s.take(i)) >= 0,
    decreases s.len() - i,
{
    if i == s.len() {
        assert(s.take(i) =~= s);
        lemma_sum_mins_nonneg(s);
    } else {
        lemma_sum_mins_take_succ(s, i);
        lemma_sum_mins_take_le(s, i + 1);
        lemma_sum_mins_nonneg(s.take(i));
    }
}

pub proof fn lemma_sum_mins_nonneg(s: Seq<LReq>)
    ensures
        sum_mins(s) >= 0,
    decreases s.len(),
{
    if s.len() > 0 {
        lemma_sum_mins_nonneg(s.drop_last());
    }
}

pub proof fn lemma_sum_stretch_take_le(s: Seq<LReq>, i: int)
    requires
        0 <= i <= s.len(),
    ensures
        sum_stretch(s.take(i)) <= sum_stretch(s),
        sum_stretch(s.take(i)) >= 0,
    decreases s.len() - i,
{
    if i == s.len() {
        assert(s.take(i) =~= s);
        lemma_sum_stretch_nonneg(s);
    } else {
        lemma_sum_stretch_take_succ(s, i);
        lemma_sum_stretch_take_le(s, i + 1);
        lemma_sum_stretch_nonneg(s.take(i));
    }
}

pub proof fn lemma_sum_stretch_nonneg(s: Seq<LReq>)
    ensures
        sum_stretch(s) >= 0,
    decreases s.len(),
{
    if s.len() > 0 {
        lemma_sum_stretch_nonneg(s.drop_last());
    }
}

/// In an all-fixed run the minimums are the sizes.
pub proof fn lemma_sum_mins_all_fixed(s: Seq<LReq>)
    requires
        !any_flex(s),
    ensures
        sum_mins(s) == sum_sizes(s),
        sum_stretch(s) == 0,
    decreases s.len(),
{
    if s.len() > 0 {
        assert(!s.last().is_flex()) by {
            assert(s[s.len() - 1] == s.last());
        }
        assert(!any_flex(s.drop_last())) by {
            assert(forall|i: int|
                0 <= i < s.len() - 1 ==> s.drop_last()[i] == s[i]);
        }
        lemma_sum_mins_all_fixed(s.drop_last());
    }
}

impl LReq {
    /// Compose a run of requisitions end-to-end along one axis, with one
    /// `spacing` between each adjacent pair.
    ///
    /// The result's natural size is the sum of the item sizes plus the
    /// spacing; its minimum is the sum of the item minimums plus the
    /// spacing; it is flexible exactly when some item is, with the summed
    /// stretch weights. When `ref_index` names an item, the result exposes
    /// that item's alignment anchor, offset by everything placed before it;
    /// otherwise the result carries no reference point. An empty run gives
    /// the empty requisition.
    pub fn linear_acc(items: &Vec<LReq>, spacing: u64, ref_index: Option<usize>) -> (r: LReq)
        requires
            spec_linear_size(items@, spacing as int) <= u64::MAX,
            spec_linear_min(items@, spacing as int) <= u64::MAX,
            sum_stretch(items@) <= u64::MAX,
            ref_index is Some ==> ref_index->0 < items@.len(),
        ensures
            r.spec_size() == spec_linear_size(items@, spacing as int),
            r.spec_min() == spec_linear_min(items@, spacing as int),
            r.is_flex() == any_flex(items@),
            r.spec_stretch() == sum_stretch(items@),
            r.has_ref() == ref_index is Some,
            ref_index is Some ==> r.spec_before() == spec_linear_before(
                items@,
                spacing as int,
                ref_index->0 as int,
            ),
            r == spec_linear_req(items@, spacing as int, ref_index),
            r.wf(),
    {
        let n = items.len();
        if n == 0 {
            assert(!any_flex(items@));
            return LReq::new_empty();
        }
        let ghost total: int = spec_linear_size(items@, spacing as int);
        let ghost total_min: int = spec_linear_min(items@, spacing as int);
        let ghost total_stretch: int = sum_stretch(items@);
        let mut size: u64 = 0;
        let mut minsz: u64 = 0;
        let mut stretch: u64 = 0;
        let mut anyflex: bool = false;
        let mut before: u64 = 0;
        let mut i: usize = 0;
        proof {
            assert(items@.take(0) =~= Seq::<LReq>::empty());
        }
        while i < n
            invariant
                0 < n == items@.len(),
                0 <= i <= n,
                spec_linear_size(items@, spacing as int) <= u64::MAX,
                spec_linear_min(items@, spacing as int) <= u64::MAX,
                sum_stretch(items@) <= u64::MAX,
                i == 0 ==> size == 0 && minsz == 0,
                i > 0 ==> size == sum_sizes(items@.take(i as int)) + spacing * (i - 1),
                i > 0 ==> minsz == sum_mins(items@.take(i as int)) + spacing * (i - 1),
                stretch == sum_stretch(items@.take(i as int)),
                anyflex == any_flex(items@.take(i as int)),
                ref_index is Some ==> ref_index->0 < n,
                ref_index is Some && ref_index->0 < i ==> before == spec_linear_before(
                    items@,
                    spacing as int,
                    ref_index->0 as int,
                ),
            decreases n - i,
        {
            let ghost gi = i as int;
            proof {
                lemma_sum_sizes_take_succ(items@, gi);
                lemma_sum_mins_take_succ(items@, gi);
                lemma_sum_stretch_take_succ(items@, gi);
                lemma_sum_sizes_take_le(items@, gi);
                lemma_sum_mins_take_le(items@, gi);
                lemma_sum_stretch_take_le(items@, gi);
                lemma_sum_sizes_take_le(items@, gi + 1);
                lemma_sum_mins_take_le(items@, gi + 1);
                lemma_sum_stretch_take_le(items@, gi + 1);
                assert(spacing * gi <= spacing * (n - 1) && spacing * (gi - 1) <= spacing * (n - 1))
                    by (nonlinear_arith)
                    requires 0 <= gi <= n - 1, spacing >= 0;
                assert(spacing * (gi + 1) == spacing * gi + spacing) by (nonlinear_arith);
                assert(spacing * gi == spacing * (gi - 1) + spacing) by (nonlinear_arith);
            }
            if i > 0 {
                size = size + spacing;
                minsz = minsz + spacing;
            }
            match ref_index {
                Some(j) => {
                    if i == j {
                        let b = match items[i].size {
                            LNatSize::Size { size: _s } => 0,
                            LNatSize::Ref { before: b, after: _a } => b,
                        };
                        assert(b == items@[gi].spec_before());
                        assert(items@[gi].spec_before() <= items@[gi].spec_size());
                        before = size + b;
                    }
                },
                None => {},
            }
            let item_size = match items[i].size {
                LNatSize::Size { size: s } => s,
                LNatSize::Ref { before: b, after: a } => {
                    proof {
                        assert(items@[gi].spec_size() <= sum_sizes(items@.take(gi + 1))) by {
                            lemma_sum_sizes_take_le(items@, gi);
                            lemma_sum_sizes_nonneg(items@.take(gi));
                        }
                    }
                    b + a
                },
            };
            size = size + item_size;
            let item_min = match items[i].flex {
                LFlex::Fixed => item_size,
                LFlex::Flex { stretch: _st, min: m } => m,
            };
            minsz = minsz + item_min;
            let item_stretch = match items[i].flex {
                LFlex::Fixed => 0,
                LFlex::Flex { stretch: st, min: _m } => st,
            };
            stretch = stretch + item_stretch;
            if let LFlex::Flex { stretch: _st, min: _m } = items[i].flex {
                anyflex = true;
            }
            proof {
                if !items@[gi].is_flex() {
                    assert(any_flex(items@.take(gi + 1)) == any_flex(items@.take(gi))) by {
                        if any_flex(items@.take(gi + 1)) {
                            let w = choose|k: int|
                                0 <= k < gi + 1 && #[trigger] items@.take(gi + 1)[k].is_flex();
                            assert(w < gi && items@.take(gi)[w].is_flex());
                        }
                        if any_flex(items@.take(gi)) {
                            let w = choose|k: int|
                                0 <= k < gi && #[trigger] items@.take(gi)[k].is_flex();
                            assert(items@.take(gi + 1)[w].is_flex());
                        }
                    }
                } else {
                    assert(items@.take(gi + 1)[gi].is_flex());
                }
            }
            i = i + 1;
        }
        proof {
            assert(items@.take(n as int) =~= items@);
        }
        let nat_size = match ref_index {
            Some(_j) => {
                proof {
                    let j = ref_index->0 as int;
                    assert(before <= size) by {
                        lemma_sum_sizes_take_succ(items@, j);
                        lemma_sum_sizes_take_le(items@, j + 1);
                        lemma_sum_sizes_nonneg(items@.take(j));
                        assert(items@[j].spec_before() <= items@[j].spec_size());
                        assert(spacing * j <= spacing * (n - 1)) by (nonlinear_arith)
                            requires 0 <= j <= n - 1, spacing >= 0;
                        assert(spec_linear_before(items@, spacing as int, j)
                            <= sum_sizes(items@.take(j + 1)) + spacing * j);
                    }
                }
                LNatSize::Ref { before, after: size - before }
            },
            None => LNatSize::Size { size },
        };
        let flex = if anyflex {
            LFlex::Flex { stretch, min: minsz }
        } else {
            proof {
                lemma_sum_mins_all_fixed(items@);
            }
            LFlex::Fixed
        };
        LReq { size: nat_size, flex }
    }
}


// ---------------------------------------------------------------------------
// Perpendicular accumulation: items stacked at the same origin.
// ---------------------------------------------------------------------------

/// Largest part before the anchor across a run; an item without a
/// reference point counts as before = 0.
pub open spec fn max_before(s: Seq<LReq>) -> int
    decreases s.len(),
{
    if s.len() == 0 {
        0
    } else {
        let m = max_before(s.drop_last());
        let b = s.last().spec_before();
        if b > m {
            b
        } else {
            m
        }
    }
}

/// Largest part after the anchor across a run; an item without a
/// reference point counts as after = its whole extent.
pub open spec fn max_after(s: Seq<LReq>) -> int
    decreases s.len(),
{
    if s.len() == 0 {
        0
    } else {
        let m = max_after(s.drop_last());
        let b = s.last().spec_after();
        if b > m {
            b
        } else {
            m
        }
    }
}

/// Largest minimum size across a run.
pub open spec fn max_min(s: Seq<LReq>) -> int
    decreases s.len(),
{
    if s.len() == 0 {
        0
    } else {
        let m = max_min(s.drop_last());
        let b = s.last().spec_min();
        if b > m {
            b
        } else {
            m
        }
    }
}

/// Largest stretch weight across a run.
pub open spec fn max_stretch(s: Seq<LReq>) -> int
    decreases s.len(),
{
    if s.len() == 0 {
        0
    } else {
        let m = max_stretch(s.drop_last());
        let b = s.last().spec_stretch();
        if b > m {
            b
        } else {
            m
        }
    }
}

/// The requisition value `perpendicular_acc` produces.
pub open spec fn spec_perp_req(s: Seq<LReq>) -> LReq {
    let size = if any_ref(s) {
        LNatSize::Ref { before: max_before(s) as u64, after: max_after(s) as u64 }
    } else {
        LNatSize::Size { size: max_after(s) as u64 }
    };
    let flex = if any_flex(s) {
        LFlex::Flex { stretch: max_stretch(s) as u64, min: max_min(s) as u64 }
    } else {
        LFlex::Fixed
    };
    LReq { size, flex }
}

/// Whether any requisition in the run carries a reference point.
pub open spec fn any_ref(s: Seq<LReq>) -> bool {
    exists|i: int| 0 <= i < s.len() && (#[trigger] s[i]).has_ref()
}

pub proof fn lemma_max_take_succ(s: Seq<LReq>, i: int)
    requires
        0 <= i < s.len(),
    ensures
        max_before(s.take(i + 1)) == if s[i].spec_before() > max_before(s.take(i)) {
            s[i].spec_before()
        } else {
            max_before(s.take(i))
        },
        max_after(s.take(i + 1)) == if s[i].spec_after() > max_after(s.take(i)) {
            s[i].spec_after()
        } else {
            max_after(s.take(i))
        },
        max_min(s.take(i + 1)) == if s[i].spec_min() > max_min(s.take(i)) {
            s[i].spec_min()
        } else {
            max_min(s.take(i))
        },
        max_stretch(s.take(i + 1)) == if s[i].spec_stretch() > max_stretch(s.take(i)) {
            s[i].spec_stretch()
        } else {
            max_stretch(s.take(i))
        },
{
    assert(s.take(i + 1).drop_last() =~= s.take(i));
    assert(s.take(i + 1).last() == s[i]);
}

/// Each item's parts are bounded by the reconciled maxima.
pub proof fn lemma_max_elem_le(s: Seq<LReq>, i: int)
    requires
        0 <= i < s.len(),
    ensures
        s[i].spec_before() <= max_before(s),
        s[i].spec_after() <= max_after(s),
    decreases s.len(),
{
    if i < s.len() - 1 {
        assert(s.drop_last()[i] == s[i]);
        lemma_max_elem_le(s.drop_last(), i);
    }
}

/// Without flexible items the largest stretch weight is zero.
pub proof fn lemma_max_stretch_all_fixed(s: Seq<LReq>)
    requires
        !any_flex(s),
    ensures
        max_stretch(s) == 0,
    decreases s.len(),
{
    if s.len() > 0 {
        assert(!s[s.len() - 1].is_flex());
        assert(forall|i: int| 0 <= i < s.len() - 1 ==> s.drop_last()[i] == s[i]);
        lemma_max_stretch_all_fixed(s.drop_last());
    }
}

/// Without reference points the largest before-part is zero.
pub proof fn lemma_max_before_no_ref(s: Seq<LReq>)
    requires
        !any_ref(s),
    ensures
        max_before(s) == 0,
    decreases s.len(),
{
    if s.len() > 0 {
        assert(!s[s.len() - 1].has_ref());
        assert(forall|i: int| 0 <= i < s.len() - 1 ==> s.drop_last()[i] == s[i]);
        lemma_max_before_no_ref(s.drop_last());
    }
}

impl LReq {
    /// Compose a run of requisitions stacked at the same origin on one
    /// axis (the secondary-axis and multi-line combination rule).
    ///
    /// The parts before and after the alignment anchor are reconciled
    /// separately: the result's before is the largest before, its after
    /// the largest after, and its size their sum -- not simply the largest
    /// plain size, which matters whenever any item carries a reference
    /// point. An item without a reference point counts as before = 0,
    /// after = its whole extent. The result carries a reference point
    /// exactly when some item does, and is flexible exactly when some item
    /// is, with the largest stretch weight and the largest minimum. A
    /// single item is returned unchanged; an empty run gives the empty
    /// requisition.
    pub fn perpendicular_acc(items: &Vec<LReq>) -> (r: LReq)
        requires
            max_before(items@) + max_after(items@) <= u64::MAX,
        ensures
            r.spec_before() == max_before(items@),
            r.spec_after() == max_after(items@),
            r.spec_size() == max_before(items@) + max_after(items@),
            r.has_ref() == any_ref(items@),
            r.is_flex() == any_flex(items@),
            r.spec_stretch() == max_stretch(items@),
            r.spec_min() == if any_flex(items@) {
                max_min(items@)
            } else {
                max_before(items@) + max_after(items@)
            },
            r == spec_perp_req(items@),
            r.wf(),
            items@.len() == 1 ==> r == items@[0],
    {
        let ghost s = items@;
        let n = items.len();
        if n == 0 {
            proof {
                assert(!any_ref(s) && !any_flex(s));
            }
            return LReq::new_empty();
        }
        let mut b: u64 = 0;
        let mut a: u64 = 0;
        let mut mn: u64 = 0;
        let mut st: u64 = 0;
        let mut anyref: bool = false;
        let mut anyflex: bool = false;
        let mut i: usize = 0;
        proof {
            assert(s.take(0) =~= Seq::<LReq>::empty());
        }
        while i < n
            invariant
                0 <= i <= n == s.len(),
                s == items@,
                max_before(s) + max_after(s) <= u64::MAX,
                b == max_before(s.take(i as int)),
                a == max_after(s.take(i as int)),
                mn == max_min(s.take(i as int)),
                st == max_stretch(s.take(i as int)),
                anyref == any_ref(s.take(i as int)),
                anyflex == any_flex(s.take(i as int)),
                mn <= u64::MAX,
            decreases n - i,
        {
            let ghost gi = i as int;
            proof {
                lemma_max_take_succ(s, gi);
                lemma_max_elem_le(s, gi);
                assert(s[gi].wf());
                if s[gi].has_ref() {
                    assert(s.take(gi + 1)[gi].has_ref());
                } else {
                    assert(any_ref(s.take(gi + 1)) == any_ref(s.take(gi))) by {
                        if any_ref(s.take(gi + 1)) {
                            let w = choose|k: int|
                                0 <= k < gi + 1 && (#[trigger] s.take(gi + 1)[k]).has_ref();
                            assert(w < gi && s.take(gi)[w].has_ref());
                        }
                        if any_ref(s.take(gi)) {
                            let w = choose|k: int|
                                0 <= k < gi && (#[trigger] s.take(gi)[k]).has_ref();
                            assert(s.take(gi + 1)[w].has_ref());
                        }
                    }
                }
                if s[gi].is_flex() {
                    assert(s.take(gi + 1)[gi].is_flex());
                } else {
                    assert(any_flex(s.take(gi + 1)) == any_flex(s.take(gi))) by {
                        if any_flex(s.take(gi + 1)) {
                            let w = choose|k: int|
                                0 <= k < gi + 1 && (#[trigger] s.take(gi + 1)[k]).is_flex();
                            assert(w < gi && s.take(gi)[w].is_flex());
                        }
                        if any_flex(s.take(gi)) {
                            let w = choose|k: int|
                                0 <= k < gi && (#[trigger] s.take(gi)[k]).is_flex();
                            assert(s.take(gi + 1)[w].is_flex());
                        }
                    }
                }
            }
            match items[i].size {
                LNatSize::Size { size } => {
                    if size > a {
                        a = size;
                    }
                },
                LNatSize::Ref { before, after } => {
                    anyref = true;
                    if before > b {
                        b = before;
                    }
                    if after > a {
                        a = after;
                    }
                },
            }
            match items[i].flex {
                LFlex::Fixed => {
                    let m = items[i].size_capped();
                    if m > mn {
                        mn = m;
                    }
                },
                LFlex::Flex { stretch, min } => {
                    anyflex = true;
                    if stretch > st {
                        st = stretch;
                    }
                    if min > mn {
                        mn = min;
                    }
                },
            }
            i = i + 1;
        }
        proof {
            assert(s.take(n as int) =~= s);
            if !any_ref(s) {
                lemma_max_before_no_ref(s);
            }
            if !any_flex(s) {
                lemma_max_stretch_all_fixed(s);
            }
            if s.len() == 1 {
                assert(s.drop_last() =~= Seq::<LReq>::empty());
                assert(max_before(Seq::<LReq>::empty()) == 0);
                assert(max_after(Seq::<LReq>::empty()) == 0);
                assert(max_min(Seq::<LReq>::empty()) == 0);
                assert(max_stretch(Seq::<LReq>::empty()) == 0);
                assert(s.last() == s[0]);
                assert(max_before(s) == s[0].spec_before());
                assert(max_after(s) == s[0].spec_after());
                assert(max_min(s) == s[0].spec_min());
                assert(max_stretch(s) == s[0].spec_stretch());
                assert(s[0].has_ref() ==> any_ref(s));
                assert(s[0].is_flex() ==> any_flex(s));
            }
        }
        let natsize = if anyref {
            LNatSize::Ref { before: b, after: a }
        } else {
            LNatSize::Size { size: a }
        };
        let flex = if anyflex {
            LFlex::Flex { stretch: st, min: mn }
        } else {
            LFlex::Fixed
        };
        LReq { size: natsize, flex }
    }

    /// Whether the extent fits the machine word.
    pub fn wf_check(&self) -> (r: bool)
        ensures
            r == self.wf(),
    {
        match self.size {
            LNatSize::Size { size } => true,
            LNatSize::Ref { before, after } => before <= u64::MAX - after,
        }
    }

    /// The natural extent, saturating at the machine word's top instead of
    /// requiring a well-formed split.
    pub fn size_capped(&self) -> (r: u64)
        ensures
            self.wf() ==> r == self.spec_size(),
            !self.wf() ==> r == u64::MAX,
            r <= self.spec_size(),
    {
        match self.size {
            LNatSize::Size { size } => size,
            LNatSize::Ref { before, after } => if before <= u64::MAX - after {
                before + after
            } else {
                u64::MAX
            },
        }
    }
}


// ---------------------------------------------------------------------------
// Bounds for contiguous sub-runs, used by the line-wrapping arrangement.
// ---------------------------------------------------------------------------

/// A sub-run's sums are bounded by the whole run's.
pub proof fn lemma_sum_subrange_le(s: Seq<LReq>, a: int, b: int)
    requires
        0 <= a <= b <= s.len(),
    ensures
        0 <= sum_sizes(s.subrange(a, b)) <= sum_sizes(s),
        0 <= sum_stretch(s.subrange(a, b)) <= sum_stretch(s),
    decreases b - a,
{
    if a == b {
        lemma_sum_sizes_nonneg(s);
        lemma_sum_stretch_nonneg(s);
    } else {
        lemma_sum_subrange_take_le(s, a, b);
        lemma_sum_sizes_take_le(s, b);
        lemma_sum_stretch_take_le(s, b);
        lemma_sum_sizes_nonneg(s.subrange(a, b));
        lemma_sum_stretch_nonneg(s.subrange(a, b));
    }
}

/// A sub-run's sums are bounded by the sums of the prefix it ends in.
pub proof fn lemma_sum_subrange_take_le(s: Seq<LReq>, a: int, b: int)
    requires
        0 <= a <= b <= s.len(),
    ensures
        sum_sizes(s.subrange(a, b)) <= sum_sizes(s.take(b)),
        sum_stretch(s.subrange(a, b)) <= sum_stretch(s.take(b)),
    decreases b - a,
{
    if a == b {
        lemma_sum_sizes_nonneg(s.take(b));
        lemma_sum_stretch_nonneg(s.take(b));
    } else {
        assert(s.subrange(a, b).drop_last() =~= s.subrange(a, b - 1));
        assert(s.subrange(a, b).last() == s[b - 1]);
        lemma_sum_subrange_take_le(s, a, b - 1);
        lemma_sum_sizes_take_succ(s, b - 1);
        lemma_sum_stretch_take_succ(s, b - 1);
        lemma_sum_sizes_take_le(s.take(b - 1), b - 1);
    }
}

/// A sub-run's linear size is bounded by the whole run's.
pub proof fn lemma_linear_subrange_le(s: Seq<LReq>, spacing: int, a: int, b: int)
    requires
        0 <= a <= b <= s.len(),
        spacing >= 0,
    ensures
        0 <= spec_linear_size(s.subrange(a, b), spacing) <= spec_linear_size(s, spacing),
{
    lemma_sum_subrange_le(s, a, b);
    if a < b {
        assert(spacing * (b - a - 1) <= spacing * (s.len() - 1)) by (nonlinear_arith)
            requires 0 <= b - a - 1 <= s.len() - 1, spacing >= 0;
        assert(spacing * (b - a - 1) >= 0) by (nonlinear_arith)
            requires 0 <= b - a - 1, spacing >= 0;
        lemma_sum_sizes_nonneg(s);
    }
}

/// Extending a sub-run by one item adds that item's size and one spacing
/// (none when the sub-run was empty).
pub proof fn lemma_linear_subrange_succ(s: Seq<LReq>, spacing: int, a: int, b: int)
    requires
        0 <= a <= b < s.len(),
        spacing >= 0,
    ensures
        spec_linear_size(s.subrange(a, b + 1), spacing) == spec_linear_size(
            s.subrange(a, b),
            spacing,
        ) + if b > a {
            spacing + s[b].spec_size()
        } else {
            s[b].spec_size()
        },
{
    assert(s.subrange(a, b + 1).drop_last() =~= s.subrange(a, b));
    assert(s.subrange(a, b + 1).last() == s[b]);
    if b > a {
        assert(spacing * (b + 1 - a - 1) == spacing * (b - a - 1) + spacing) by (nonlinear_arith);
    } else {
        assert(s.subrange(a, b) =~= Seq::<LReq>::empty());
        assert(sum_sizes(s.subrange(a, b)) == 0);
        assert(spacing * (b + 1 - a - 1) == 0) by (nonlinear_arith)
            requires b == a;
    }
}


/// The reconciled maxima are never negative.
pub proof fn lemma_max_nonneg(s: Seq<LReq>)
    ensures
        max_before(s) >= 0,
        max_after(s) >= 0,
        max_min(s) >= 0,
        max_stretch(s) >= 0,
    decreases s.len(),
{
    if s.len() > 0 {
        lemma_max_nonneg(s.drop_last());
    }
}


/// The reconciled maxima of a prefix never exceed the whole run's.
pub proof fn lemma_max_take_le(s: Seq<LReq>, i: int)
    requires
        0 <= i <= s.len(),
    ensures
        max_before(s.take(i)) <= max_before(s),
        max_after(s.take(i)) <= max_after(s),
        max_min(s.take(i)) <= max_min(s),
        max_stretch(s.take(i)) <= max_stretch(s),
    decreases s.len() - i,
{
    if i == s.len() {
        assert(s.take(i) =~= s);
    } else {
        lemma_max_take_succ(s, i);
        lemma_max_take_le(s, i + 1);
    }
}

} // verus!
