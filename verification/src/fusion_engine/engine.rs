//! The search for fusion boundaries in a sequence of operations.

use vstd::prelude::*;
use vstd::slice::slice_subrange;
use crate::ieee::{clamp_fraction, is_positive, THREE_TENTHS};
use super::boundary;
use super::boundary::{BoundaryView, FusionBoundary, FusionDecision};
use super::classify;
use super::classify::classify;
use super::explorer::has_fusion;
use super::dtype::TensorShape;
use super::op::FusionOp;
use super::pattern::FusionPattern;
use super::ranking;
use super::ranking::{rank, select_greedily};
use super::savings;
use super::savings::{
    compute_confidence, compute_savings, four_fifths, memory_savings,
};

verus! {

/// Finds groups of operations that can be fused.
///
/// Windows of two or more adjacent operations are matched against the known patterns; each
/// match is a candidate. Along the ranking of the candidates by estimated speedup, each that
/// shares no operation with one taken before it is taken.
#[derive(Debug, Clone, Copy)]
pub struct FusionEngine {
    /// Largest number of operations in a window.
    max_pattern_window: usize,
    /// Bits of the confidence below which candidates are dropped.
    min_confidence: u64,
    /// Whether candidates below that confidence are kept after all.
    include_speculative: bool,
}

/// The `size` operations from place `start` on.
pub open spec fn window(ops: Seq<FusionOp>, start: int, size: int) -> Seq<FusionOp> {
    ops.subrange(start, start + size)
}

/// The places `start`, `start + 1`, and so on, `size` of them.
pub open spec fn places(start: int, size: int) -> Seq<usize> {
    Seq::new(size as nat, |i: int| (start + i) as usize)
}

/// The boundary that fuses the `size` operations from place `start` on, if they form a pattern.
pub open spec fn window_boundary(ops: Seq<FusionOp>, start: int, size: int) -> Option<
    BoundaryView,
> {
    let w = window(ops, start, size);
    match classify::pattern_of(w) {
        Some(p) => Some(
            BoundaryView {
                indices: places(start, size),
                pattern: p,
                savings: boundary::at_least_zero(savings::traffic_saved(p, w) as i64),
                factor: compute_savings(p),
                confidence: savings::window_confidence(p, w),
            },
        ),
        None => None,
    }
}

/// The same boundary with its confidence cut to four fifths.
pub open spec fn reduced_boundary(ops: Seq<FusionOp>, start: int, size: int) -> Option<
    BoundaryView,
> {
    match window_boundary(ops, start, size) {
        Some(b) => Some(BoundaryView { confidence: four_fifths(b.confidence), ..b }),
        None => None,
    }
}

/// `v` with the boundary at its end, if there is one that the engine admits.
pub open spec fn with_admitted(
    engine: FusionEngine,
    v: Seq<BoundaryView>,
    b: Option<BoundaryView>,
) -> Seq<BoundaryView> {
    match b {
        Some(c) => if engine.admits(c.confidence) {
            v.push(c)
        } else {
            v
        },
        None => v,
    }
}

/// `v` with the boundary at its end, if there is one.
pub open spec fn with_found(v: Seq<BoundaryView>, b: Option<BoundaryView>) -> Seq<BoundaryView> {
    match b {
        Some(c) => v.push(c),
        None => v,
    }
}

/// Number of windows of `size` operations.
pub open spec fn window_count(ops: Seq<FusionOp>, size: int) -> int {
    ops.len() - size + 1
}

/// The candidates in the windows of fewer than `size` operations, and in those of `size`
/// operations that start before place `k`.
pub open spec fn candidates_up_to(
    engine: FusionEngine,
    ops: Seq<FusionOp>,
    size: int,
    k: int,
) -> Seq<BoundaryView>
    decreases size, k,
{
    if k > 0 {
        with_admitted(
            engine,
            candidates_up_to(engine, ops, size, k - 1),
            window_boundary(ops, k - 1, size),
        )
    } else if size > 2 {
        candidates_up_to(engine, ops, size - 1, window_count(ops, size - 1))
    } else {
        Seq::empty()
    }
}

/// The alternatives in the parts of the window of `size` operations from `start` on: in the
/// parts of fewer than `part` operations, and in those of `part` operations that start before
/// place `k` of the window.
pub open spec fn parts_up_to(
    engine: FusionEngine,
    ops: Seq<FusionOp>,
    base: Seq<BoundaryView>,
    start: int,
    size: int,
    part: int,
    k: int,
) -> Seq<BoundaryView>
    decreases part, k,
{
    if k > 0 {
        with_admitted(
            engine,
            parts_up_to(engine, ops, base, start, size, part, k - 1),
            reduced_boundary(ops, start + k - 1, part),
        )
    } else if part > 2 {
        parts_up_to(engine, ops, base, start, size, part - 1, size - (part - 1) + 1)
    } else {
        base
    }
}

/// The alternatives in the windows of fewer than `size` operations, and in those of `size`
/// operations that start before place `k`: for each window the window itself, then its parts.
pub open spec fn alternatives_up_to(
    engine: FusionEngine,
    ops: Seq<FusionOp>,
    size: int,
    k: int,
) -> Seq<BoundaryView>
    decreases size, k,
{
    if k > 0 {
        let base = with_found(
            alternatives_up_to(engine, ops, size, k - 1),
            window_boundary(ops, k - 1, size),
        );
        parts_up_to(engine, ops, base, k - 1, size, size, 0)
    } else if size > 2 {
        alternatives_up_to(engine, ops, size - 1, window_count(ops, size - 1))
    } else {
        Seq::empty()
    }
}

/// The entries of `v` in the given order.
pub open spec fn in_order(v: Seq<BoundaryView>, order: Seq<usize>) -> Seq<BoundaryView> {
    Seq::new(order.len(), |i: int| v[order[i] as int])
}

/// The first `k` boundaries without those that repeat an earlier one.
pub open spec fn without_repeats(v: Seq<BoundaryView>, k: nat) -> Seq<BoundaryView>
    decreases k,
{
    if k == 0 {
        Seq::empty()
    } else {
        let before = without_repeats(v, (k - 1) as nat);
        if super::explorer::holds_fusion(before, v[k - 1]) {
            before
        } else {
            before.push(v[k - 1])
        }
    }
}

/// Whether an engine has the limits of `FusionEngine::new`.
pub open spec fn is_standard(e: FusionEngine) -> bool {
    e.largest_window() == 8 && e.threshold() == THREE_TENTHS && !e.speculates()
}

/// Whether `e` is the engine that `of.speculative()` gives.
pub open spec fn is_speculative(e: FusionEngine, of: FusionEngine) -> bool {
    e.largest_window() == of.largest_window() && e.threshold() == 0 && e.speculates()
}

/// The list of the places `start`, `start + 1`, and so on, `size` of them.
pub fn place_list(start: usize, size: usize) -> (r: Vec<usize>)
    requires
        start + size <= usize::MAX,
    ensures
        r@ == places(start as int, size as int),
{
    let mut r: Vec<usize> = Vec::new();
    let mut i: usize = 0;
    while i < size
        invariant
            i <= size,
            start + size <= usize::MAX,
            r@ == places(start as int, i as int),
        decreases size - i,
    {
        r.push(start + i);
        i += 1;
        assert(r@ =~= places(start as int, i as int));
    }
    r
}

/// Places in a row are in ascending order.
pub(crate) proof fn lemma_places_ascend(start: int, size: int)
    requires
        0 <= start,
        0 <= size,
        start + size <= usize::MAX,
    ensures
        boundary::ascending(places(start, size)) == places(start, size),
{
    boundary::ascending_is_sorted(places(start, size));
}

/// The boundary that fuses the `size` operations from place `start` on, if they form a pattern.
pub fn find_boundary(ops: &[FusionOp], start: usize, size: usize) -> (r: Option<FusionBoundary>)
    requires
        2 <= size,
        start + size <= ops@.len(),
    ensures
        match r {
            Some(b) => window_boundary(ops@, start as int, size as int) == Some(b@),
            None => window_boundary(ops@, start as int, size as int) is None,
        },
{
    let n: usize = ops.len();
    assert(start + size <= n);
    let w: &[FusionOp] = slice_subrange(ops, start, start + size);
    assert(w@ == window(ops@, start as int, size as int));
    match classify(w) {
        Some(p) => {
            proof {
                lemma_places_ascend(start as int, size as int);
                savings::compute_savings_is_factor(p);
                savings::confidence_is_monotone(
                    p,
                    w@.len() >= 2 && savings::one_rank(w@),
                    savings::minor_bonuses(w@) as u8,
                );
            }
            let savings: i64 = memory_savings(p, w);
            let confidence: u64 = compute_confidence(p, w);
            let factor: u64 = compute_savings(p);
            Some(FusionBoundary::new(place_list(start, size), p, savings, factor, confidence))
        },
        None => None,
    }
}

impl FusionEngine {
    /// Largest number of operations in a window.
    pub closed spec fn largest_window(&self) -> usize {
        self.max_pattern_window
    }

    /// Bits of the confidence below which candidates are dropped.
    pub closed spec fn threshold(&self) -> u64 {
        self.min_confidence
    }

    /// Whether candidates below the threshold are kept after all.
    pub closed spec fn speculates(&self) -> bool {
        self.include_speculative
    }

    /// Whether a candidate of this confidence is kept.
    pub open spec fn admits(&self, confidence: u64) -> bool {
        confidence >= self.threshold() || self.speculates()
    }

    /// Number of operations in the largest window that fits `ops`.
    pub open spec fn largest_in(&self, ops: Seq<FusionOp>) -> int {
        if self.largest_window() < ops.len() {
            self.largest_window() as int
        } else {
            ops.len() as int
        }
    }

    /// All candidates in `ops`, shorter windows first.
    pub open spec fn candidates(&self, ops: Seq<FusionOp>) -> Seq<BoundaryView> {
        let largest = self.largest_in(ops);
        if largest < 2 {
            Seq::empty()
        } else {
            candidates_up_to(*self, ops, largest, window_count(ops, largest))
        }
    }

    /// All alternatives in `ops`, shorter windows first.
    pub open spec fn alternatives(&self, ops: Seq<FusionOp>) -> Seq<BoundaryView> {
        let largest = self.largest_in(ops);
        if largest < 2 {
            Seq::empty()
        } else {
            alternatives_up_to(*self, ops, largest, window_count(ops, largest))
        }
    }

    /// An engine with windows of up to eight operations and a confidence of at least 0.3.
    pub fn new() -> (r: Self)
        ensures
            is_standard(r),
    {
        FusionEngine {
            max_pattern_window: 8,
            min_confidence: THREE_TENTHS,
            include_speculative: false,
        }
    }

    /// An engine with the given limits. A window holds at least two operations, and the bits of
    /// the confidence are brought into the range from 0 to 1.
    pub fn with_config(
        max_pattern_window: usize,
        min_confidence: u64,
        include_speculative: bool,
    ) -> (r: Self)
        ensures
            r.largest_window() == (if max_pattern_window < 2 {
                2
            } else {
                max_pattern_window
            }),
            r.threshold() == clamp_fraction(min_confidence),
            r.speculates() == include_speculative,
    {
        FusionEngine {
            max_pattern_window: if max_pattern_window < 2 {
                2
            } else {
                max_pattern_window
            },
            min_confidence: clamp_fraction(min_confidence),
            include_speculative,
        }
    }

    /// This engine without a confidence threshold.
    pub fn speculative(&self) -> (r: Self)
        ensures
            is_speculative(r, *self),
    {
        FusionEngine {
            max_pattern_window: self.max_pattern_window,
            min_confidence: 0,
            include_speculative: true,
        }
    }

    fn keeps(&self, confidence: u64) -> (r: bool)
        ensures
            r == self.admits(confidence),
    {
        confidence >= self.min_confidence || self.include_speculative
    }

    /// All candidates in `ops`: for each window that forms a pattern, and whose confidence the
    /// engine admits, the boundary that fuses it. Shorter windows come first, and windows of
    /// one length come in the order of their places.
    pub fn fusion_candidates(&self, ops: &[FusionOp]) -> (r: Vec<FusionBoundary>)
        ensures
            boundary::views(r@) == self.candidates(ops@),
    {
        let mut found: Vec<FusionBoundary> = Vec::new();
        let largest: usize = if self.max_pattern_window < ops.len() {
            self.max_pattern_window
        } else {
            ops.len()
        };
        assert(largest == self.largest_in(ops@));
        if largest < 2 {
            assert(boundary::views(found@) =~= Seq::<BoundaryView>::empty());
            return found;
        }
        let mut size: usize = 1;
        assert(boundary::views(found@) =~= candidates_up_to(*self, ops@, 2, 0));
        while size < largest
            invariant
                1 <= size <= largest,
                largest <= ops@.len(),
                largest == self.largest_in(ops@),
                size == 1 ==> boundary::views(found@) == candidates_up_to(*self, ops@, 2, 0),
                size >= 2 ==> boundary::views(found@) == candidates_up_to(
                    *self,
                    ops@,
                    size as int,
                    window_count(ops@, size as int),
                ),
            decreases largest - size,
        {
            size += 1;
            let count: usize = ops.len() - size + 1;
            let mut start: usize = 0;
            while start < count
                invariant
                    start <= count,
                    2 <= size <= largest,
                    count == window_count(ops@, size as int),
                    largest == self.largest_in(ops@),
                    boundary::views(found@) == candidates_up_to(*self, ops@, size as int, start as int),
                decreases count - start,
            {
                let ghost before = found@;
                if let Some(b) = find_boundary(ops, start, size) {
                    if self.keeps(b.confidence) {
                        let ghost c = b@;
                        found.push(b);
                        assert(boundary::views(found@) =~= boundary::views(before).push(c));
                    }
                }
                start += 1;
            }
        }
        found
    }

    /// The boundaries to fuse in `ops`: along the ranking of the candidates by speedup, each
    /// candidate that shares no operation with one taken before it.
    ///
    /// `speedups` holds the bits of the estimated speedup of each candidate, in the order in
    /// which `fusion_candidates` lists them.
    pub fn discover_fusion_boundaries(&self, ops: &[FusionOp], speedups: &[u64]) -> (r:
        FusionDecision)
        requires
            speedups@.len() == self.candidates(ops@).len(),
        ensures
            r.chosen() == ranking::greedy_choice(self.candidates(ops@), speedups@),
            r.consistent(),
            boundary::disjoint(r.chosen()),
    {
        let candidates: Vec<FusionBoundary> = self.fusion_candidates(ops);
        assert(candidates@.len() == boundary::views(candidates@).len());
        proof {
            ranking::picked_is_disjoint(
                self.candidates(ops@),
                ranking::ranked(speedups@),
                speedups@.len(),
            );
        }
        let selected: Vec<FusionBoundary> = select_greedily(&candidates, speedups);
        FusionDecision::from_boundaries(selected)
    }

    /// The pattern that the operations form, if they form one.
    pub fn classify_pattern(&self, ops: &[FusionOp]) -> (r: Option<FusionPattern>)
        ensures
            r == classify::pattern_of(ops@),
    {
        classify(ops)
    }

    /// Bytes of memory traffic that fusing the operations saves. Nothing is saved where the
    /// operations or their output shapes are missing.
    pub fn estimate_memory_savings(
        pattern: &FusionPattern,
        shapes: &[TensorShape],
        ops: &[FusionOp],
    ) -> (r: i64)
        ensures
            r == (if shapes@.len() == 0 {
                0
            } else {
                savings::traffic_saved(*pattern, ops@)
            }),
    {
        if shapes.len() == 0 {
            0
        } else {
            memory_savings(*pattern, ops)
        }
    }

    /// The bits of the ratio of operations before and after fusing the pattern.
    pub fn estimate_compute_savings(pattern: &FusionPattern) -> (r: u64)
        ensures
            r == compute_savings(*pattern),
    {
        compute_savings(*pattern)
    }

    /// A quick check of a boundary by itself: fewer than two operations, an overlap with
    /// communication and an element-wise chain are always legal, anything else where there is
    /// some confidence in it.
    pub fn validate_fusion_legality(&self, boundary: &FusionBoundary) -> (r: bool)
        ensures
            r == (boundary@.indices.len() <= 1 || boundary@.pattern
                == FusionPattern::CommunicationComputeOverlap || boundary@.pattern
                == FusionPattern::ElementwiseChain || is_positive(boundary@.confidence)),
    {
        if boundary.op_indices.len() <= 1 {
            return true;
        }
        match boundary.pattern {
            FusionPattern::CommunicationComputeOverlap => true,
            FusionPattern::ElementwiseChain => true,
            _ => is_positive(boundary.confidence),
        }
    }

    /// Adds the alternatives in the parts of one window.
    fn push_parts(
        &self,
        ops: &[FusionOp],
        found: &mut Vec<FusionBoundary>,
        start: usize,
        size: usize,
    )
        requires
            2 <= size <= self.largest_in(ops@),
            start + size <= ops@.len(),
        ensures
            boundary::views(final(found)@) == parts_up_to(
                *self,
                ops@,
                boundary::views(old(found)@),
                start as int,
                size as int,
                size as int,
                0,
            ),
    {
        let ghost base = boundary::views(found@);
        let n: usize = ops.len();
        let mut part: usize = 2;
        while part < size
            invariant
                2 <= part <= size <= self.largest_in(ops@),
                start + size <= n,
                n == ops@.len(),
                boundary::views(found@) == parts_up_to(
                    *self,
                    ops@,
                    base,
                    start as int,
                    size as int,
                    part as int,
                    0,
                ),
            decreases size - part,
        {
            let count: usize = size - part + 1;
            let mut k: usize = 0;
            while k < count
                invariant
                    k <= count,
                    2 <= part < size <= self.largest_in(ops@),
                    count == size - part + 1,
                    start + size <= n,
                    n == ops@.len(),
                    boundary::views(found@) == parts_up_to(
                        *self,
                        ops@,
                        base,
                        start as int,
                        size as int,
                        part as int,
                        k as int,
                    ),
                decreases count - k,
            {
                let ghost before = found@;
                if let Some(b) = find_boundary(ops, start + k, part) {
                    let confidence: u64 = four_fifths(b.confidence);
                    if self.keeps(confidence) {
                        let c = FusionBoundary { confidence, ..b };
                        let ghost cv = c@;
                        found.push(c);
                        assert(boundary::views(found@) =~= boundary::views(before).push(cv));
                    }
                }
                k += 1;
            }
            part += 1;
        }
    }

    /// All alternatives in `ops`: for each window that forms a pattern the boundary that fuses
    /// it, then for each part of the window that forms a pattern the boundary that fuses the
    /// part, at four fifths of its confidence and only where the engine admits that.
    pub fn fusion_alternatives(&self, ops: &[FusionOp]) -> (r: Vec<FusionBoundary>)
        ensures
            boundary::views(r@) == self.alternatives(ops@),
    {
        let mut found: Vec<FusionBoundary> = Vec::new();
        let largest: usize = if self.max_pattern_window < ops.len() {
            self.max_pattern_window
        } else {
            ops.len()
        };
        assert(largest == self.largest_in(ops@));
        if largest < 2 {
            assert(boundary::views(found@) =~= Seq::<BoundaryView>::empty());
            return found;
        }
        let mut size: usize = 1;
        assert(boundary::views(found@) =~= alternatives_up_to(*self, ops@, 2, 0));
        while size < largest
            invariant
                1 <= size <= largest,
                largest <= ops@.len(),
                largest == self.largest_in(ops@),
                size == 1 ==> boundary::views(found@) == alternatives_up_to(*self, ops@, 2, 0),
                size >= 2 ==> boundary::views(found@) == alternatives_up_to(
                    *self,
                    ops@,
                    size as int,
                    window_count(ops@, size as int),
                ),
            decreases largest - size,
        {
            size += 1;
            let count: usize = ops.len() - size + 1;
            let mut start: usize = 0;
            while start < count
                invariant
                    start <= count,
                    2 <= size <= largest,
                    count == window_count(ops@, size as int),
                    largest == self.largest_in(ops@),
                    boundary::views(found@) == alternatives_up_to(*self, ops@, size as int, start as int),
                decreases count - start,
            {
                let ghost before = found@;
                if let Some(b) = find_boundary(ops, start, size) {
                    let ghost c = b@;
                    found.push(b);
                    assert(boundary::views(found@) =~= boundary::views(before).push(c));
                }
                self.push_parts(ops, &mut found, start, size);
                start += 1;
            }
        }
        found
    }

    /// All alternatives in `ops`, overlapping ones among them, ranked by speedup; of those
    /// that name the same fusion only the first is kept.
    ///
    /// `speedups` holds the bits of the estimated speedup of each alternative, in the order in
    /// which `fusion_alternatives` lists them.
    pub fn propose_fusion_alternatives(&self, ops: &[FusionOp], speedups: &[u64]) -> (r: Vec<
        FusionBoundary,
    >)
        requires
            speedups@.len() == self.alternatives(ops@).len(),
        ensures
            boundary::views(r@) == without_repeats(
                in_order(self.alternatives(ops@), ranking::ranked(speedups@)),
                speedups@.len(),
            ),
    {
        let found: Vec<FusionBoundary> = self.fusion_alternatives(ops);
        assert(found@.len() == boundary::views(found@).len());
        let order: Vec<usize> = rank(speedups);
        let ghost sorted = in_order(boundary::views(found@), order@);
        let mut kept: Vec<FusionBoundary> = Vec::new();
        assert(boundary::views(kept@) =~= without_repeats(sorted, 0));
        let mut k: usize = 0;
        while k < order.len()
            invariant
                k <= order@.len(),
                found@.len() == speedups@.len(),
                ranking::is_ranking(order@, speedups@),
                sorted == in_order(boundary::views(found@), order@),
                boundary::views(kept@) == without_repeats(sorted, k as nat),
            decreases order.len() - k,
        {
            assert(order@[k as int] < speedups@.len());
            let b: &FusionBoundary = &found[order[k]];
            assert(sorted[k as int] == b@);
            let ghost before = kept@;
            if !has_fusion(&kept, b) {
                kept.push(b.clone());
                assert(boundary::views(kept@) =~= boundary::views(before).push(b@));
            }
            k += 1;
        }
        kept
    }
}

/// Every candidate is a well-formed boundary.
pub proof fn candidates_are_well_formed(engine: FusionEngine, ops: Seq<FusionOp>, i: int)
    requires
        ops.len() <= usize::MAX,
        0 <= i < engine.candidates(ops).len(),
    ensures
        boundary::well_formed(engine.candidates(ops)[i]),
        engine.admits(engine.candidates(ops)[i].confidence),
{
    let largest = engine.largest_in(ops);
    lemma_candidates_well_formed(engine, ops, largest, window_count(ops, largest));
}

proof fn lemma_candidates_well_formed(engine: FusionEngine, ops: Seq<FusionOp>, size: int, k: int)
    requires
        2 <= size <= ops.len() <= usize::MAX,
        k <= window_count(ops, size),
    ensures
        forall|i: int|
            0 <= i < candidates_up_to(engine, ops, size, k).len() ==> boundary::well_formed(
                #[trigger] candidates_up_to(engine, ops, size, k)[i],
            ) && engine.admits(candidates_up_to(engine, ops, size, k)[i].confidence),
    decreases size, k,
{
    if k > 0 {
        lemma_candidates_well_formed(engine, ops, size, k - 1);
        let before = candidates_up_to(engine, ops, size, k - 1);
        let after = candidates_up_to(engine, ops, size, k);
        if let Some(c) = window_boundary(ops, k - 1, size) {
            let w = window(ops, k - 1, size);
            savings::compute_savings_is_factor(c.pattern);
            savings::confidence_is_monotone(
                c.pattern,
                w.len() >= 2 && savings::one_rank(w),
                savings::minor_bonuses(w) as u8,
            );
            assert(boundary::well_formed(c));
        }
        assert forall|i: int| 0 <= i < after.len() implies boundary::well_formed(#[trigger] after[i])
            && engine.admits(after[i].confidence) by {
            if i < before.len() {
                assert(after[i] == before[i]);
            }
        }
    } else if size > 2 {
        lemma_candidates_well_formed(engine, ops, size - 1, window_count(ops, size - 1));
    }
}

/// Along the ranking the speedups do not grow.
pub proof fn ranking_is_descending(speedups: Seq<u64>, i: int, j: int)
    requires
        0 <= i <= j < speedups.len() <= usize::MAX,
    ensures
        speedups[ranking::ranked(speedups)[i] as int] >= speedups[ranking::ranked(speedups)[j] as int],
{
    ranking::ranking_exists(speedups);
    if i < j {
        assert(ranking::outranks(
            speedups,
            ranking::ranked(speedups)[i] as int,
            ranking::ranked(speedups)[j] as int,
        ));
    }
}

/// No boundary of a proposal repeats another, each stands in the ranking, and for each that stands
/// there the same fusion is in the proposal.
pub proof fn proposals_name_once(v: Seq<BoundaryView>, k: nat)
    requires
        k <= v.len(),
    ensures
        ({
            let r = without_repeats(v, k);
            &&& r.len() <= k
            &&& forall|i: int|
                0 <= i < k ==> #[trigger] super::explorer::holds_fusion(r, v[i])
            &&& forall|i: int| 0 <= i < r.len() ==> v.contains(#[trigger] r[i])
            &&& super::explorer::no_fusion_twice(r)
        }),
    decreases k,
{
    if k > 0 {
        proposals_name_once(v, (k - 1) as nat);
        let before = without_repeats(v, (k - 1) as nat);
        let r = without_repeats(v, k);
        assert(v.contains(v[k - 1]));
        assert forall|i: int| 0 <= i < r.len() implies v.contains(#[trigger] r[i]) by {
            if i < before.len() {
                assert(r[i] == before[i]);
            }
        }
        assert forall|i: int| 0 <= i < k implies #[trigger] super::explorer::holds_fusion(
            r,
            v[i],
        ) by {
            if i < k - 1 {
                assert(super::explorer::holds_fusion(before, v[i]));
                let at = choose|at: int|
                    0 <= at < before.len() && boundary::same_fusion(#[trigger] before[at], v[i]);
                assert(boundary::same_fusion(r[at], v[i]));
            } else if !super::explorer::holds_fusion(before, v[k - 1]) {
                assert(boundary::same_fusion(r[before.len() as int], v[k - 1]));
            }
        }
        super::explorer::lemma_with_new(before, Some(v[k - 1]));
    }
}

impl Default for FusionEngine {
    fn default() -> (r: Self)
        ensures
            is_standard(r),
    {
        FusionEngine::new()
    }
}

} // verus!
