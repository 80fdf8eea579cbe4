//! The layout engine: derives one annotation per matching (glyph, label)
//! pair, stacks the annotations into vertical slots, and runs a local-search
//! optimizer that reduces visual congestion between connector lines by
//! swapping adjacent slot assignments.

use vstd::prelude::*;

use crate::geometry::Point;
use crate::geometry::Segment;
use crate::graphics::Text;
use crate::graphics::Visual;

verus! {

/// A label box bound to one glyph: the text to show, the box size, the
/// glyph's position to connect to, and the box position the layout chooses.
pub struct Annotation {
    pub id: u32,
    pub text: String,
    pub w: u32,
    pub h: u32,
    pub target_pos: Point,
    pub pos: Point,
}

/// The reduced view of an [`Annotation`] the optimizer scores: the bound
/// identifier, the chosen vertical slot, and the target position.
#[derive(Clone, Copy, PartialEq, Eq, Structural, Debug)]
pub struct LayoutAnnotation {
    pub id: u32,
    pub y: u32,
    pub target: Point,
}

/// The bounding width of the glyphs: one past the largest column, 0 when
/// there are none.
pub open spec fn span_w(vs: Seq<Visual>) -> int
    decreases vs.len(),
{
    if vs.len() == 0 {
        0
    } else {
        let rest = span_w(vs.drop_last());
        if vs.last().x + 1 > rest {
            vs.last().x + 1
        } else {
            rest
        }
    }
}

/// The bounding height of the glyphs: one past the largest row, 0 when there
/// are none.
pub open spec fn span_h(vs: Seq<Visual>) -> int
    decreases vs.len(),
{
    if vs.len() == 0 {
        0
    } else {
        let rest = span_h(vs.drop_last());
        if vs.last().y + 1 > rest {
            vs.last().y + 1
        } else {
            rest
        }
    }
}

/// The character count of an item annotation's text; titles count 0.
pub open spec fn text_len_of(t: Text) -> int {
    match t {
        Text::ItemAnnotation(_, s) => s@.len() as int,
        Text::Title(_) => 0,
    }
}

/// The longest item-annotation text, 0 when there is none.
pub open spec fn max_text_len(ts: Seq<Text>) -> int
    decreases ts.len(),
{
    if ts.len() == 0 {
        0
    } else {
        let rest = max_text_len(ts.drop_last());
        if text_len_of(ts.last()) > rest {
            text_len_of(ts.last())
        } else {
            rest
        }
    }
}

/// Every glyph's position lies strictly inside the bounding span.
pub proof fn lemma_span_bounds(vs: Seq<Visual>)
    ensures
        span_w(vs) >= 0,
        span_h(vs) >= 0,
        forall|i: int| 0 <= i < vs.len() ==> vs[i].x < span_w(vs) && vs[i].y < span_h(vs),
    decreases vs.len(),
{
    if vs.len() > 0 {
        lemma_span_bounds(vs.drop_last());
        assert(forall|i: int| 0 <= i < vs.len() - 1 ==> vs[i] == vs.drop_last()[i]);
    }
}

/// The longest text bounds every item annotation's text, and is itself
/// nonnegative.
pub proof fn lemma_max_text_len_bounds(ts: Seq<Text>)
    ensures
        max_text_len(ts) >= 0,
        forall|i: int| 0 <= i < ts.len() ==> text_len_of(ts[i]) <= max_text_len(ts),
    decreases ts.len(),
{
    if ts.len() > 0 {
        lemma_max_text_len_bounds(ts.drop_last());
        assert(forall|i: int| 0 <= i < ts.len() - 1 ==> ts[i] == ts.drop_last()[i]);
    }
}

/// Computes the bounding span `(w, h)` of the glyphs: one past the largest
/// column and row, `(0, 0)` for an empty list.
pub fn get_span(visuals: &Vec<Visual>) -> (r: (u32, u32))
    requires
        forall|i: int| 0 <= i < visuals@.len() ==> visuals@[i].x < u32::MAX && visuals@[i].y
            < u32::MAX,
    ensures
        r.0 == span_w(visuals@),
        r.1 == span_h(visuals@),
{
    let mut w: u32 = 0;
    let mut h: u32 = 0;
    let mut i: usize = 0;
    while i < visuals.len()
        invariant
            i <= visuals@.len(),
            forall|k: int| 0 <= k < visuals@.len() ==> visuals@[k].x < u32::MAX && visuals@[k].y
                < u32::MAX,
            w == span_w(visuals@.take(i as int)),
            h == span_h(visuals@.take(i as int)),
        decreases visuals@.len() - i,
    {
        proof {
            assert(visuals@.take(i as int + 1).drop_last() =~= visuals@.take(i as int));
            assert(visuals@.take(i as int + 1).last() == visuals@[i as int]);
        }
        let v = &visuals[i];
        if v.x + 1 > w {
            w = v.x + 1;
        }
        if v.y + 1 > h {
            h = v.y + 1;
        }
        i = i + 1;
    }
    proof {
        assert(visuals@.take(visuals@.len() as int) =~= visuals@);
    }
    (w, h)
}

/// Computes the length of the longest item-annotation text, 0 when there is
/// none; titles are ignored.
pub fn get_max_text_len(texts: &Vec<Text>) -> (r: u32)
    requires
        forall|i: int| 0 <= i < texts@.len() ==> text_len_of(texts@[i]) <= u32::MAX,
    ensures
        r == max_text_len(texts@),
{
    let mut m: u32 = 0;
    let mut i: usize = 0;
    while i < texts.len()
        invariant
            i <= texts@.len(),
            forall|k: int| 0 <= k < texts@.len() ==> text_len_of(texts@[k]) <= u32::MAX,
            m == max_text_len(texts@.take(i as int)),
        decreases texts@.len() - i,
    {
        proof {
            assert(texts@.take(i as int + 1).drop_last() =~= texts@.take(i as int));
            assert(texts@.take(i as int + 1).last() == texts@[i as int]);
        }
        match &texts[i] {
            Text::ItemAnnotation(_, s) => {
                let n = s.as_str().unicode_len();
                proof {
                    lemma_max_text_len_bounds(texts@.take(i as int));
                }
                if n as u64 > m as u64 {
                    m = n as u32;
                }
            },
            _ => {},
        }
        i = i + 1;
    }
    proof {
        assert(texts@.take(texts@.len() as int) =~= texts@);
    }
    m
}

impl LayoutAnnotation {
    /// The anchor row of a slot: one row below its top-left corner.
    pub open spec fn anchor_row(self) -> int {
        self.y + 1
    }

    /// The lower row of the slot's vertical connector piece.
    pub open spec fn vert_lo(self) -> int {
        if self.anchor_row() <= self.target.y {
            self.anchor_row()
        } else {
            self.target.y as int
        }
    }

    /// The upper row of the slot's vertical connector piece.
    pub open spec fn vert_hi(self) -> int {
        if self.anchor_row() <= self.target.y {
            self.target.y as int
        } else {
            self.anchor_row()
        }
    }

    /// Length of the shared row-range of two slots' vertical connector
    /// pieces; 0 when they aim at different columns or do not meet.
    pub open spec fn vertical_common(a: LayoutAnnotation, b: LayoutAnnotation) -> int {
        if a.target.x == b.target.x {
            let lo = if a.vert_lo() >= b.vert_lo() {
                a.vert_lo()
            } else {
                b.vert_lo()
            };
            let hi = if a.vert_hi() <= b.vert_hi() {
                a.vert_hi()
            } else {
                b.vert_hi()
            };
            if hi > lo {
                hi - lo
            } else {
                0
            }
        } else {
            0
        }
    }

    /// True when `h`'s horizontal connector piece geometrically crosses `v`'s
    /// vertical piece.
    pub open spec fn crossing(h: LayoutAnnotation, v: LayoutAnnotation) -> bool {
        0 < v.target.x < h.target.x && v.vert_lo() < h.anchor_row() < v.vert_hi()
    }

    /// The congestion score of one unordered pair of slots: the overlap
    /// length when their vertical pieces share a column range, a fixed
    /// penalty of 100 when either's horizontal piece crosses the other's
    /// vertical piece, 0 otherwise.
    pub open spec fn pair_score(a: LayoutAnnotation, b: LayoutAnnotation) -> nat {
        let c = Self::vertical_common(a, b);
        if c > 0 {
            c as nat
        } else if Self::crossing(a, b) || Self::crossing(b, a) {
            100
        } else {
            0
        }
    }

    /// The point one row below the slot's top-left corner, at column 0.
    fn get_anchor(&self) -> (r: Point)
        requires
            self.y < u32::MAX,
        ensures
            r.x == 0,
            r.y == self.anchor_row(),
    {
        Point { x: 0, y: self.y + 1 }
    }

    /// The horizontal connector piece: from the anchor to the point directly
    /// above or below the target, along the anchor row.
    fn get_horizontal(&self) -> (r: Segment)
        requires
            self.y < u32::MAX,
        ensures
            r.p1.x == 0,
            r.p1.y == self.anchor_row(),
            r.p2.x == self.target.x,
            r.p2.y == self.anchor_row(),
    {
        let anchor = self.get_anchor();
        let target = Point { x: self.target.x, y: anchor.y };
        Segment { p1: anchor, p2: target }
    }

    /// The vertical connector piece: from the anchor row down (or up) to the
    /// target, along the target's column, endpoints ordered top to bottom.
    fn get_vertical(&self) -> (r: Segment)
        requires
            self.y < u32::MAX,
        ensures
            r.p1.x == self.target.x,
            r.p2.x == self.target.x,
            r.p1.y == self.vert_lo(),
            r.p2.y == self.vert_hi(),
    {
        let anchor = Point { x: self.target.x, y: self.get_anchor().y };
        if self.target.y > anchor.y {
            Segment { p1: anchor, p2: self.target }
        } else {
            Segment { p1: self.target, p2: anchor }
        }
    }

    /// The congestion score of one unordered pair of slots; see
    /// [`LayoutAnnotation::pair_score`].
    pub fn get_overlap_score(a1: &LayoutAnnotation, a2: &LayoutAnnotation) -> (r: u32)
        requires
            a1.y < u32::MAX,
            a2.y < u32::MAX,
        ensures
            r == Self::pair_score(*a1, *a2),
    {
        let common = Segment::get_common(&a1.get_vertical(), &a2.get_vertical());
        if common > 0 {
            return common;
        }
        if Segment::are_crossing(&a1.get_horizontal(), &a2.get_vertical()) || Segment::are_crossing(
            &a2.get_horizontal(),
            &a1.get_vertical(),
        ) {
            return 100;
        }
        0
    }
}

/// The summed pair scores of slot `i` against every slot of index `j` and
/// beyond.
pub open spec fn row_score_from(l: Seq<LayoutAnnotation>, i: int, j: int) -> nat
    decreases l.len() - j,
{
    if j < 0 || j >= l.len() || !(0 <= i < l.len()) {
        0
    } else {
        LayoutAnnotation::pair_score(l[i], l[j]) + row_score_from(l, i, j + 1)
    }
}

/// The summed pair scores of all unordered pairs within `l` whose first
/// index is `i` or beyond.
pub open spec fn total_score_from(l: Seq<LayoutAnnotation>, i: int) -> nat
    decreases l.len() - i,
{
    if i < 0 || i >= l.len() {
        0
    } else {
        row_score_from(l, i, i + 1) + total_score_from(l, i + 1)
    }
}

/// The total congestion score of an arrangement: the sum of
/// [`LayoutAnnotation::pair_score`] over all unordered pairs.
pub open spec fn total_score(l: Seq<LayoutAnnotation>) -> nat {
    total_score_from(l, 0)
}

/// Every pair score is at most one more than `u32::MAX`, so partial sums
/// over at most `0x8000` slots fit comfortably in `u64`.
pub proof fn lemma_pair_score_bound(a: LayoutAnnotation, b: LayoutAnnotation)
    ensures
        LayoutAnnotation::pair_score(a, b) <= 0x1_0000_0000,
{
}

/// Bounds one row of pair scores by the number of remaining partners.
pub proof fn lemma_row_score_bound(l: Seq<LayoutAnnotation>, i: int, j: int)
    requires
        0 <= j,
    ensures
        row_score_from(l, i, j) <= (if j <= l.len() {
            (l.len() - j) * 0x1_0000_0000
        } else {
            0
        }),
    decreases l.len() - j,
{
    if j < l.len() && 0 <= i < l.len() {
        lemma_pair_score_bound(l[i], l[j]);
        lemma_row_score_bound(l, i, j + 1);
        assert((l.len() - j) * 0x1_0000_0000 == (l.len() - j - 1) * 0x1_0000_0000
            + 0x1_0000_0000) by (nonlinear_arith);
    }
}

/// Bounds the total score by a quadratic function of the slot count.
pub proof fn lemma_total_score_bound(l: Seq<LayoutAnnotation>, i: int)
    requires
        0 <= i,
    ensures
        total_score_from(l, i) <= (if i <= l.len() {
            (l.len() - i) * (l.len() * 0x1_0000_0000)
        } else {
            0
        }),
    decreases l.len() - i,
{
    if i < l.len() {
        lemma_row_score_bound(l, i, i + 1);
        lemma_total_score_bound(l, i + 1);
        assert((l.len() - i - 1) * 0x1_0000_0000 <= l.len() * 0x1_0000_0000) by (nonlinear_arith)
            requires
                0 <= i < l.len(),
        ;
        assert((l.len() - i) * (l.len() * 0x1_0000_0000) == (l.len() - i - 1) * (l.len()
            * 0x1_0000_0000) + l.len() * 0x1_0000_0000) by (nonlinear_arith);
    }
}

/// Computes the total congestion score of an arrangement: the sum of
/// [`LayoutAnnotation::get_overlap_score`] over all unordered pairs.
fn evaluate_move(annotations: &Vec<LayoutAnnotation>) -> (r: u64)
    requires
        annotations@.len() <= 0x8000,
        forall|k: int| 0 <= k < annotations@.len() ==> annotations@[k].y < u32::MAX,
    ensures
        r == total_score(annotations@),
{
    let ghost l = annotations@;
    let mut score: u64 = 0;
    let mut i: usize = 0;
    proof {
        lemma_total_score_bound(l, 0);
        assert((l.len() - 0) * (l.len() * 0x1_0000_0000) <= 0x8000 * (0x8000
            * 0x1_0000_0000)) by (nonlinear_arith)
            requires
                l.len() <= 0x8000,
        ;
    }
    while i < annotations.len()
        invariant
            l == annotations@,
            l.len() <= 0x8000,
            forall|k: int| 0 <= k < l.len() ==> l[k].y < u32::MAX,
            i <= l.len(),
            score + total_score_from(l, i as int) == total_score(l),
            total_score(l) <= 0x8000 * (0x8000 * 0x1_0000_0000),
        decreases l.len() - i,
    {
        let mut j: usize = i + 1;
        while j < annotations.len()
            invariant
                l == annotations@,
                l.len() <= 0x8000,
                forall|k: int| 0 <= k < l.len() ==> l[k].y < u32::MAX,
                i < l.len(),
                i + 1 <= j <= l.len(),
                score + row_score_from(l, i as int, j as int) + total_score_from(l, i as int + 1)
                    == total_score(l),
                total_score(l) <= 0x8000 * (0x8000 * 0x1_0000_0000),
            decreases l.len() - j,
        {
            let p = LayoutAnnotation::get_overlap_score(&annotations[i], &annotations[j]);
            proof {
                lemma_pair_score_bound(l[i as int], l[j as int]);
            }
            score = score + p as u64;
            j = j + 1;
        }
        i = i + 1;
    }
    score
}

/// The neighbor arrangement that swaps the slot contents at `first` and
/// `first + 1`: the identifiers and targets trade places while each index
/// keeps its vertical slot.
pub open spec fn swap_adj(l: Seq<LayoutAnnotation>, first: int) -> Seq<LayoutAnnotation> {
    l.update(
        first,
        LayoutAnnotation { id: l[first + 1].id, y: l[first].y, target: l[first + 1].target },
    ).update(
        first + 1,
        LayoutAnnotation { id: l[first].id, y: l[first + 1].y, target: l[first].target },
    )
}

/// An adjacent swap keeps the length, keeps each index's vertical slot, and
/// touches no slot but the two swapped ones.
pub proof fn lemma_swap_adj(l: Seq<LayoutAnnotation>, first: int)
    requires
        0 <= first,
        first + 1 < l.len(),
    ensures
        swap_adj(l, first).len() == l.len(),
        forall|m: int| 0 <= m < l.len() ==> swap_adj(l, first)[m].y == l[m].y,
        forall|m: int|
            0 <= m < l.len() && m != first && m != first + 1 ==> swap_adj(l, first)[m] == l[m],
{
}

/// Builds the neighbor arrangement of `init` that trades the slot contents
/// at `first` and `first + 1`.
fn swap_two(init: &Vec<LayoutAnnotation>, first: usize) -> (r: Vec<LayoutAnnotation>)
    requires
        first + 1 < init@.len(),
    ensures
        r@ == swap_adj(init@, first as int),
{
    let mut res: Vec<LayoutAnnotation> = Vec::new();
    let mut i: usize = 0;
    while i < init.len()
        invariant
            first + 1 < init@.len(),
            i <= init@.len(),
            res@.len() == i,
            forall|k: int| 0 <= k < i ==> res@[k] == swap_adj(init@, first as int)[k],
        decreases init@.len() - i,
    {
        if i == first {
            res.push(LayoutAnnotation { id: init[first + 1].id, y: init[first].y, target: init[first + 1].target });
        } else if i == first + 1 {
            res.push(LayoutAnnotation { id: init[first].id, y: init[first + 1].y, target: init[first].target });
        } else {
            res.push(init[i]);
        }
        i = i + 1;
    }
    proof {
        assert(res@ =~= swap_adj(init@, first as int));
    }
    res
}

/// Builds every neighbor arrangement of `init`: one adjacent swap per index.
fn build_all_moves(init: &Vec<LayoutAnnotation>) -> (r: Vec<Vec<LayoutAnnotation>>)
    requires
        init@.len() >= 1,
    ensures
        r@.len() == init@.len() - 1,
        forall|k: int| 0 <= k < r@.len() ==> r@[k]@ == swap_adj(init@, k),
{
    let mut res: Vec<Vec<LayoutAnnotation>> = Vec::new();
    let mut i: usize = 0;
    while i < init.len() - 1
        invariant
            init@.len() >= 1,
            i <= init@.len() - 1,
            res@.len() == i,
            forall|k: int| 0 <= k < i ==> res@[k]@ == swap_adj(init@, k),
        decreases init@.len() - 1 - i,
    {
        res.push(swap_two(init, i));
        i = i + 1;
    }
    res
}

/// The first index among `0..n` whose adjacent swap scores lowest: the move
/// a stable sort of all moves by score would put first.
pub open spec fn best_move_upto(l: Seq<LayoutAnnotation>, n: int) -> int
    decreases n,
{
    if n <= 1 {
        0
    } else {
        let b = best_move_upto(l, n - 1);
        if total_score(swap_adj(l, n - 1)) < total_score(swap_adj(l, b)) {
            n - 1
        } else {
            b
        }
    }
}

/// The first-minimal move index is in range and scores no worse than any
/// candidate, strictly better than every earlier one.
pub proof fn lemma_best_move_upto(l: Seq<LayoutAnnotation>, n: int)
    requires
        n >= 1,
    ensures
        0 <= best_move_upto(l, n) < n,
        forall|k: int| 0 <= k < n ==> total_score(#[trigger] swap_adj(l, k)) >= total_score(
            swap_adj(l, best_move_upto(l, n)),
        ),
        forall|k: int| 0 <= k < best_move_upto(l, n) ==> total_score(#[trigger] swap_adj(l, k))
            > total_score(swap_adj(l, best_move_upto(l, n))),
    decreases n,
{
    if n > 1 {
        lemma_best_move_upto(l, n - 1);
    }
}

/// An arrangement is locally optimal when no adjacent swap strictly lowers
/// the total score.
pub open spec fn is_local_opt(l: Seq<LayoutAnnotation>) -> bool {
    forall|i: int| 0 <= i < l.len() - 1 ==> total_score(#[trigger] swap_adj(l, i)) >= total_score(l)
}

/// The hill-climbing optimizer: repeatedly adopt the first-minimal adjacent
/// swap while it strictly lowers the total score; stop at a local optimum.
/// An arrangement with fewer than two slots has no neighbors and is returned
/// unchanged.
pub open spec fn optimize_spec(l: Seq<LayoutAnnotation>) -> Seq<LayoutAnnotation>
    decreases total_score(l),
{
    if l.len() < 2 {
        l
    } else {
        let b = swap_adj(l, best_move_upto(l, l.len() - 1));
        if total_score(b) < total_score(l) {
            optimize_spec(b)
        } else {
            l
        }
    }
}

/// The optimizer never worsens the arrangement: the converged total score is
/// at most the score of the arrangement it started from.
pub proof fn lemma_optimize_improves(l: Seq<LayoutAnnotation>)
    ensures
        total_score(optimize_spec(l)) <= total_score(l),
    decreases total_score(l),
{
    if l.len() >= 2 {
        let b = swap_adj(l, best_move_upto(l, l.len() - 1));
        if total_score(b) < total_score(l) {
            lemma_optimize_improves(b);
        }
    }
}

/// The optimizer's result is locally optimal: no adjacent swap of it scores
/// strictly lower.
pub proof fn lemma_optimize_local_opt(l: Seq<LayoutAnnotation>)
    ensures
        is_local_opt(optimize_spec(l)),
    decreases total_score(l),
{
    if l.len() < 2 {
        assert(is_local_opt(l));
    } else {
        let bi = best_move_upto(l, l.len() - 1);
        let b = swap_adj(l, bi);
        if total_score(b) < total_score(l) {
            lemma_optimize_local_opt(b);
        } else {
            lemma_best_move_upto(l, l.len() - 1);
            assert forall|i: int| 0 <= i < l.len() - 1 implies total_score(swap_adj(l, i))
                >= total_score(l) by {
                assert(total_score(swap_adj(l, i)) >= total_score(b));
            }
        }
    }
}

/// A locally optimal arrangement is a fixed point of the optimizer.
pub proof fn lemma_optimize_fixed(l: Seq<LayoutAnnotation>)
    requires
        is_local_opt(l),
    ensures
        optimize_spec(l) == l,
{
    if l.len() >= 2 {
        let bi = best_move_upto(l, l.len() - 1);
        lemma_best_move_upto(l, l.len() - 1);
        assert(total_score(swap_adj(l, bi)) >= total_score(l));
    }
}

/// Running the optimizer on its own converged output changes nothing: once
/// no improving swap exists, none appears later.
pub proof fn lemma_optimize_idempotent(l: Seq<LayoutAnnotation>)
    ensures
        optimize_spec(optimize_spec(l)) == optimize_spec(l),
{
    lemma_optimize_local_opt(l);
    lemma_optimize_fixed(optimize_spec(l));
}

/// The optimizer trades slot contents between indices but each index keeps
/// its vertical slot, so the slot count and the per-index slot rows are
/// preserved.
pub proof fn lemma_optimize_preserves_slots(l: Seq<LayoutAnnotation>)
    ensures
        optimize_spec(l).len() == l.len(),
        forall|i: int| 0 <= i < l.len() ==> optimize_spec(l)[i].y == l[i].y,
    decreases total_score(l),
{
    if l.len() >= 2 {
        let bi = best_move_upto(l, l.len() - 1);
        let b = swap_adj(l, bi);
        if total_score(b) < total_score(l) {
            lemma_best_move_upto(l, l.len() - 1);
            lemma_swap_adj(l, bi);
            lemma_optimize_preserves_slots(b);
            assert(optimize_spec(l) == optimize_spec(b));
        }
    }
}

/// Runs the hill-climbing local search; see [`optimize_spec`].
#[verifier::loop_isolation(false)]
fn optimize_layout(layout: Vec<LayoutAnnotation>) -> (r: Vec<LayoutAnnotation>)
    requires
        layout@.len() <= 0x8000,
        forall|k: int| 0 <= k < layout@.len() ==> layout@[k].y < u32::MAX,
    ensures
        r@ == optimize_spec(layout@),
{
    let ghost orig = layout@;
    let mut layout = layout;
    loop
        invariant
            layout@.len() <= 0x8000,
            forall|k: int| 0 <= k < layout@.len() ==> layout@[k].y < u32::MAX,
            optimize_spec(layout@) == optimize_spec(orig),
        decreases total_score(layout@),
    {
        if layout.len() < 2 {
            proof {
                assert(optimize_spec(layout@) == layout@);
            }
            return layout;
        }
        let ghost l = layout@;
        let moves = build_all_moves(&layout);
        let mut best_i: usize = 0;
        proof {
            assert forall|k: int| 0 <= k < moves@.len() implies (#[trigger] moves@[k])@.len()
                == l.len() && (forall|m: int| 0 <= m < moves@[k]@.len() ==> moves@[k]@[m].y
                < u32::MAX) by {
                assert(moves@[k]@ == swap_adj(l, k));
                lemma_swap_adj(l, k);
            }
        }
        let mut best_s: u64 = evaluate_move(&moves[0]);
        let mut i: usize = 1;
        while i < moves.len()
            invariant
                l == layout@,
                2 <= l.len() <= 0x8000,
                moves@.len() == l.len() - 1,
                forall|k: int| 0 <= k < moves@.len() ==> moves@[k]@ == swap_adj(l, k),
                forall|k: int| 0 <= k < moves@.len() ==> (#[trigger] moves@[k])@.len()
                    == l.len(),
                forall|k: int| 0 <= k < moves@.len() ==> (forall|m: int|
                    0 <= m < (#[trigger] moves@[k])@.len() ==> moves@[k]@[m].y < u32::MAX),
                1 <= i <= moves@.len(),
                best_i == best_move_upto(l, i as int),
                best_i < i,
                best_s == total_score(swap_adj(l, best_i as int)),
            decreases moves@.len() - i,
        {
            let s = evaluate_move(&moves[i]);
            if s < best_s {
                best_i = i;
                best_s = s;
            }
            i = i + 1;
        }
        let cur = evaluate_move(&layout);
        if best_s >= cur {
            proof {
                lemma_best_move_upto(l, l.len() as int - 1);
                assert forall|k: int| 0 <= k < l.len() - 1 implies total_score(swap_adj(l, k))
                    >= total_score(l) by {
                    assert(total_score(swap_adj(l, k)) >= total_score(
                        swap_adj(l, best_move_upto(l, l.len() as int - 1)),
                    ));
                }
                lemma_optimize_fixed(l);
                assert(layout@ == optimize_spec(orig));
            }
            return layout;
        }
        layout = swap_two(&layout, best_i);
        proof {
            lemma_swap_adj(l, best_i as int);
            assert(optimize_spec(l) == optimize_spec(layout@));
        }
    }
}

/// The annotation derived from one matching (glyph, label) pair: the box is
/// two columns wider than the text and three rows tall, the target is the
/// glyph's position, and the box position starts at the origin.
pub open spec fn annotation_of(v: Visual, vid: u32, s: String) -> Annotation {
    Annotation {
        id: vid,
        text: s,
        w: (s@.len() + 2) as u32,
        h: 3,
        target_pos: Point { x: v.x, y: v.y },
        pos: Point { x: 0, y: 0 },
    }
}

/// The annotations derived from one glyph with identifier `vid`: one per item
/// annotation among `ts` carrying the same identifier, in label order.
pub open spec fn matches_for(v: Visual, vid: u32, ts: Seq<Text>) -> Seq<Annotation>
    decreases ts.len(),
{
    if ts.len() == 0 {
        Seq::empty()
    } else {
        let rest = matches_for(v, vid, ts.drop_last());
        match ts.last() {
            Text::ItemAnnotation(aid, s) => if aid == vid {
                rest.push(annotation_of(v, vid, s))
            } else {
                rest
            },
            Text::Title(_) => rest,
        }
    }
}

/// All annotations: for every glyph that carries an identifier, in glyph
/// order, one annotation per matching item annotation, in label order. A
/// label whose identifier matches no glyph produces nothing; several matches
/// fan out into several annotations.
pub open spec fn collect_spec(vs: Seq<Visual>, ts: Seq<Text>) -> Seq<Annotation>
    decreases vs.len(),
{
    if vs.len() == 0 {
        Seq::empty()
    } else {
        collect_spec(vs.drop_last(), ts) + (match vs.last().id {
            Some(vid) => matches_for(vs.last(), vid, ts),
            None => Seq::empty(),
        })
    }
}

/// Derives one annotation per (glyph, matching item annotation) pair; see
/// [`collect_spec`].
#[verifier::loop_isolation(false)]
pub fn collect(visuals: &Vec<Visual>, texts: &Vec<Text>) -> (r: Vec<Annotation>)
    requires
        forall|k: int| 0 <= k < texts@.len() ==> text_len_of(texts@[k]) + 2 <= u32::MAX,
    ensures
        r@ == collect_spec(visuals@, texts@),
{
    let mut annotations: Vec<Annotation> = Vec::new();
    let mut i: usize = 0;
    while i < visuals.len()
        invariant
            i <= visuals@.len(),
            annotations@ == collect_spec(visuals@.take(i as int), texts@),
        decreases visuals@.len() - i,
    {
        proof {
            assert(visuals@.take(i as int + 1).drop_last() =~= visuals@.take(i as int));
            assert(visuals@.take(i as int + 1).last() == visuals@[i as int]);
        }
        let v = &visuals[i];
        match v.id {
            Some(v_id) => {
                let ghost base = annotations@;
                let mut j: usize = 0;
                while j < texts.len()
                    invariant
                        j <= texts@.len(),
                        annotations@ == base + matches_for(visuals@[i as int], v_id, texts@.take(
                            j as int,
                        )),
                    decreases texts@.len() - j,
                {
                    proof {
                        assert(texts@.take(j as int + 1).drop_last() =~= texts@.take(j as int));
                        assert(texts@.take(j as int + 1).last() == texts@[j as int]);
                    }
                    match &texts[j] {
                        Text::ItemAnnotation(a_id, s) => {
                            if v_id == *a_id {
                                let n = s.as_str().unicode_len();
                                let annotation = Annotation {
                                    id: v_id,
                                    text: s.clone(),
                                    w: (n + 2) as u32,
                                    h: 3,
                                    target_pos: Point { x: v.x, y: v.y },
                                    pos: Point { x: 0, y: 0 },
                                };
                                annotations.push(annotation);
                            }
                        },
                        _ => {},
                    }
                    j = j + 1;
                }
                proof {
                    assert(texts@.take(texts@.len() as int) =~= texts@);
                }
            },
            None => {
                proof {
                    assert(annotations@ =~= annotations@ + Seq::<Annotation>::empty());
                }
            },
        }
        i = i + 1;
    }
    proof {
        assert(visuals@.take(visuals@.len() as int) =~= visuals@);
    }
    annotations
}

/// The stacking key of an annotation: top to bottom, then left to right.
pub open spec fn sort_key(a: Annotation) -> int {
    a.target_pos.y * 1000 + a.target_pos.x
}

/// Inserting into a sorted run: the new element lands after every element
/// whose key is no larger, so equal keys keep their relative order.
pub open spec fn insert_sorted(s: Seq<Annotation>, a: Annotation) -> Seq<Annotation>
    decreases s.len(),
{
    if s.len() == 0 {
        seq![a]
    } else if sort_key(s.last()) <= sort_key(a) {
        s.push(a)
    } else {
        insert_sorted(s.drop_last(), a).push(s.last())
    }
}

/// The stable sort of the annotations by stacking key: elements are inserted
/// left to right, each after the last element with a key no larger.
pub open spec fn sort_by_target(s: Seq<Annotation>) -> Seq<Annotation>
    decreases s.len(),
{
    if s.len() == 0 {
        s
    } else {
        insert_sorted(sort_by_target(s.drop_last()), s.last())
    }
}

/// Inserting at the scan position found from the right equals the recursive
/// insertion.
proof fn lemma_insert_sorted_at(s: Seq<Annotation>, a: Annotation, j: int)
    requires
        0 <= j <= s.len(),
        forall|k: int| j <= k < s.len() ==> sort_key(s[k]) > sort_key(a),
        j > 0 ==> sort_key(s[j - 1]) <= sort_key(a),
    ensures
        insert_sorted(s, a) == s.take(j) + seq![a] + s.skip(j),
    decreases s.len(),
{
    if s.len() == 0 {
        assert(insert_sorted(s, a) =~= s.take(j) + seq![a] + s.skip(j));
    } else if sort_key(s.last()) <= sort_key(a) {
        assert(j == s.len());
        assert(s.skip(j) =~= Seq::<Annotation>::empty());
        assert(s.take(j) =~= s);
        assert(insert_sorted(s, a) =~= s.take(j) + seq![a] + s.skip(j));
    } else {
        assert(j < s.len());
        lemma_insert_sorted_at(s.drop_last(), a, j);
        assert(s.drop_last().take(j) =~= s.take(j));
        assert(s.drop_last().skip(j).push(s.last()) =~= s.skip(j));
        assert(insert_sorted(s, a) =~= s.take(j) + seq![a] + s.skip(j));
    }
}

/// Every element of a sorted run satisfies whatever predicate every input
/// element satisfies: sorting only permutes.
proof fn lemma_insert_sorted_preserves(s: Seq<Annotation>, a: Annotation, p: spec_fn(
    Annotation,
) -> bool)
    requires
        forall|k: int| 0 <= k < s.len() ==> p(s[k]),
        p(a),
    ensures
        insert_sorted(s, a).len() == s.len() + 1,
        forall|k: int| 0 <= k < s.len() + 1 ==> p(insert_sorted(s, a)[k]),
    decreases s.len(),
{
    if s.len() > 0 && sort_key(s.last()) > sort_key(a) {
        assert(forall|k: int| 0 <= k < s.len() - 1 ==> s.drop_last()[k] == s[k]);
        lemma_insert_sorted_preserves(s.drop_last(), a, p);
    }
}

/// See [`lemma_insert_sorted_preserves`]: a predicate of every input element
/// holds of every element of the sort.
pub proof fn lemma_sort_preserves(s: Seq<Annotation>, p: spec_fn(Annotation) -> bool)
    requires
        forall|k: int| 0 <= k < s.len() ==> p(s[k]),
    ensures
        sort_by_target(s).len() == s.len(),
        forall|k: int| 0 <= k < s.len() ==> p(sort_by_target(s)[k]),
    decreases s.len(),
{
    if s.len() > 0 {
        assert(forall|k: int| 0 <= k < s.len() - 1 ==> s.drop_last()[k] == s[k]);
        lemma_sort_preserves(s.drop_last(), p);
        lemma_insert_sorted_preserves(sort_by_target(s.drop_last()), s.last(), p);
    }
}

/// Computes the stacking key of one annotation.
fn sort_key_of(a: &Annotation) -> (r: u32)
    requires
        a.target_pos.y * 1000 + a.target_pos.x <= u32::MAX,
    ensures
        r == sort_key(*a),
{
    a.target_pos.y * 1000 + a.target_pos.x
}

/// Finds the insertion position for `key` scanning from the right: past
/// every element with a key no larger.
#[verifier::loop_isolation(false)]
fn insert_pos(res: &Vec<Annotation>, key: u32) -> (j: usize)
    requires
        forall|k: int| 0 <= k < res@.len() ==> res@[k].target_pos.y * 1000 + res@[k].target_pos.x
            <= u32::MAX,
    ensures
        j <= res@.len(),
        forall|k: int| j <= k < res@.len() ==> sort_key(res@[k]) > key,
        j > 0 ==> sort_key(res@[j - 1]) <= key,
{
    let mut j: usize = res.len();
    while j > 0
        invariant
            j <= res@.len(),
            forall|k: int| j <= k < res@.len() ==> sort_key(res@[k]) > key,
        decreases j,
    {
        if sort_key_of(&res[j - 1]) <= key {
            return j;
        }
        j = j - 1;
    }
    j
}

/// Stably sorts the annotations by stacking key; see [`sort_by_target`].
#[verifier::loop_isolation(false)]
fn sort_annotations(annotations: &mut Vec<Annotation>)
    requires
        forall|k: int| 0 <= k < old(annotations)@.len() ==> old(annotations)@[k].target_pos.y * 1000
            + old(annotations)@[k].target_pos.x <= u32::MAX,
    ensures
        final(annotations)@ == sort_by_target(old(annotations)@),
{
    let ghost orig = annotations@;
    let ghost keyed = |a: Annotation| a.target_pos.y * 1000 + a.target_pos.x <= u32::MAX;
    let mut res: Vec<Annotation> = Vec::new();
    let ghost mut i: int = 0;
    while annotations.len() > 0
        invariant
            0 <= i <= orig.len(),
            annotations@ == orig.skip(i),
            res@ == sort_by_target(orig.take(i)),
        decreases annotations@.len(),
    {
        proof {
            assert(orig.skip(i).len() == orig.len() - i);
            assert(i < orig.len());
        }
        let a = annotations.remove(0);
        proof {
            assert(orig.skip(i).drop_first() =~= orig.skip(i + 1));
            assert(a == orig[i]);
            assert(forall|k: int| 0 <= k < i ==> #[trigger] orig.take(i)[k] == orig[k]);
            lemma_sort_preserves(orig.take(i), keyed);
        }
        let key = sort_key_of(&a);
        let j = insert_pos(&res, key);
        res.insert(j, a);
        proof {
            lemma_insert_sorted_at(sort_by_target(orig.take(i)), a, j as int);
            assert(orig.take(i + 1).drop_last() =~= orig.take(i));
            assert(orig.take(i + 1).last() == orig[i]);
            assert(res@ =~= sort_by_target(orig.take(i)).take(j as int) + seq![a]
                + sort_by_target(orig.take(i)).skip(j as int));
            i = i + 1;
        }
    }
    proof {
        assert(orig.take(orig.len() as int) =~= orig);
    }
    *annotations = res;
}

/// The sorted annotations with vertical slots assigned: annotation `i` sits
/// at `(0, 3 * i)`, so the three-row boxes stack without overlap.
pub open spec fn assign_slots(s: Seq<Annotation>) -> Seq<Annotation> {
    Seq::new(
        s.len(),
        |i: int|
            Annotation {
                id: s[i].id,
                text: s[i].text,
                w: s[i].w,
                h: s[i].h,
                target_pos: s[i].target_pos,
                pos: Point { x: 0, y: (3 * i) as u32 },
            },
    )
}

/// The reduced slot view the optimizer scores, one per annotation.
pub open spec fn slots_of(s: Seq<Annotation>) -> Seq<LayoutAnnotation> {
    Seq::new(
        s.len(),
        |i: int| LayoutAnnotation { id: s[i].id, y: s[i].pos.y, target: s[i].target_pos },
    )
}

/// One optimized slot written back: every annotation with the slot's
/// identifier takes its vertical coordinate; the column stays.
pub open spec fn apply_one(anns: Seq<Annotation>, l: LayoutAnnotation) -> Seq<Annotation> {
    Seq::new(
        anns.len(),
        |i: int|
            if anns[i].id == l.id {
                Annotation {
                    id: anns[i].id,
                    text: anns[i].text,
                    w: anns[i].w,
                    h: anns[i].h,
                    target_pos: anns[i].target_pos,
                    pos: Point { x: anns[i].pos.x, y: l.y },
                }
            } else {
                anns[i]
            },
    )
}

/// All optimized slots written back, in slot order; a later slot with the
/// same identifier overwrites an earlier one.
pub open spec fn apply_layout(anns: Seq<Annotation>, lay: Seq<LayoutAnnotation>) -> Seq<Annotation>
    decreases lay.len(),
{
    if lay.len() == 0 {
        anns
    } else {
        apply_one(apply_layout(anns, lay.drop_last()), lay.last())
    }
}

/// The whole placement: sort by stacking key, stack into slots three rows
/// apart, optimize by local search, and write the optimized vertical
/// coordinates back. An empty list is left untouched.
pub open spec fn place_spec(s: Seq<Annotation>) -> Seq<Annotation> {
    if s.len() == 0 {
        s
    } else {
        let placed = assign_slots(sort_by_target(s));
        apply_layout(placed, optimize_spec(slots_of(placed)))
    }
}

/// Chooses each annotation's box position so that connector lines minimize
/// visual congestion; see [`place_spec`].
#[verifier::loop_isolation(false)]
pub fn place(annotations: &mut Vec<Annotation>)
    requires
        old(annotations)@.len() <= 0x8000,
        forall|k: int| 0 <= k < old(annotations)@.len() ==> old(annotations)@[k].target_pos.y * 1000
            + old(annotations)@[k].target_pos.x <= u32::MAX,
    ensures
        final(annotations)@ == place_spec(old(annotations)@),
{
    if annotations.len() == 0 {
        return ;
    }
    let ghost orig = annotations@;
    sort_annotations(annotations);
    let ghost sorted = annotations@;
    proof {
        let keyed = |a: Annotation| a.target_pos.y * 1000 + a.target_pos.x <= u32::MAX;
        lemma_sort_preserves(orig, keyed);
        assert(sorted.len() == orig.len());
    }

    let n = annotations.len();
    let mut i: usize = 0;
    while i < n
        invariant
            n == sorted.len(),
            annotations@.len() == n,
            i <= n,
            forall|k: int| 0 <= k < i ==> annotations@[k] == assign_slots(sorted)[k],
            forall|k: int| i <= k < n ==> annotations@[k] == sorted[k],
        decreases n - i,
    {
        annotations[i].pos = Point { x: 0, y: (3 * i) as u32 };
        i = i + 1;
    }
    proof {
        assert(annotations@ =~= assign_slots(sorted));
    }
    let ghost placed = annotations@;

    let mut layout: Vec<LayoutAnnotation> = Vec::new();
    let mut i: usize = 0;
    while i < n
        invariant
            annotations@ == placed,
            placed.len() == n,
            i <= n,
            layout@.len() == i,
            forall|k: int| 0 <= k < i ==> layout@[k] == slots_of(placed)[k],
        decreases n - i,
    {
        let a = &annotations[i];
        layout.push(LayoutAnnotation { id: a.id, y: a.pos.y, target: a.target_pos });
        i = i + 1;
    }
    proof {
        assert(layout@ =~= slots_of(placed));
        assert forall|k: int| 0 <= k < layout@.len() implies layout@[k].y < u32::MAX by {
            assert(placed[k].pos.y == (3 * k) as u32);
        }
    }

    let layout = optimize_layout(layout);
    proof {
        lemma_optimize_preserves_slots(slots_of(placed));
    }

    let mut li: usize = 0;
    while li < layout.len()
        invariant
            layout@ == optimize_spec(slots_of(placed)),
            layout@.len() == n,
            annotations@.len() == n,
            li <= n,
            annotations@ == apply_layout(placed, layout@.take(li as int)),
        decreases n - li,
    {
        let l = layout[li];
        let ghost before = annotations@;
        let mut ai: usize = 0;
        while ai < n
            invariant
                annotations@.len() == n,
                before.len() == n,
                ai <= n,
                forall|k: int| 0 <= k < ai ==> annotations@[k] == apply_one(before, l)[k],
                forall|k: int| ai <= k < n ==> annotations@[k] == before[k],
            decreases n - ai,
        {
            if annotations[ai].id == l.id {
                annotations[ai].pos.y = l.y;
            }
            ai = ai + 1;
        }
        proof {
            assert(annotations@ =~= apply_one(before, l));
            assert(layout@.take(li as int + 1).drop_last() =~= layout@.take(li as int));
            assert(layout@.take(li as int + 1).last() == layout@[li as int]);
        }
        li = li + 1;
    }
    proof {
        assert(layout@.take(n as int) =~= layout@);
        assert(annotations@ == place_spec(orig));
    }
}

/// The core bounds of an annotation that placement preserves: a three-row
/// box, a bounded width, and a target inside the glyph coordinate bounds.
pub open spec fn ann_core(a: Annotation, xb: int, yb: int, tb: int) -> bool {
    &&& a.h == 3
    &&& 2 <= a.w <= tb + 2
    &&& a.target_pos.x <= xb
    &&& a.target_pos.y <= yb
}

/// The span is bounded one past the largest allowed coordinate.
pub proof fn lemma_span_upper(vs: Seq<Visual>, xb: int, yb: int)
    requires
        forall|k: int| 0 <= k < vs.len() ==> vs[k].x <= xb && vs[k].y <= yb,
    ensures
        span_w(vs) <= xb + 1 || vs.len() == 0,
        span_h(vs) <= yb + 1 || vs.len() == 0,
        span_w(vs) >= 0,
        span_h(vs) >= 0,
    decreases vs.len(),
{
    if vs.len() > 0 {
        assert(forall|k: int| 0 <= k < vs.len() - 1 ==> vs.drop_last()[k] == vs[k]);
        lemma_span_upper(vs.drop_last(), xb, yb);
    }
}

/// The longest text is bounded by any bound on every text.
pub proof fn lemma_max_text_len_upper(ts: Seq<Text>, tb: int)
    requires
        forall|k: int| 0 <= k < ts.len() ==> text_len_of(ts[k]) <= tb,
        tb >= 0,
    ensures
        0 <= max_text_len(ts) <= tb,
    decreases ts.len(),
{
    if ts.len() > 0 {
        assert(forall|k: int| 0 <= k < ts.len() - 1 ==> ts.drop_last()[k] == ts[k]);
        lemma_max_text_len_upper(ts.drop_last(), tb);
    }
}

/// One glyph's matches: at most one annotation per label, each carrying the
/// glyph's position as target, a fresh origin position, and the core bounds.
proof fn lemma_matches_for_bounds(v: Visual, vid: u32, ts: Seq<Text>, xb: int, yb: int, tb: int)
    requires
        v.x <= xb,
        v.y <= yb,
        forall|k: int| 0 <= k < ts.len() ==> text_len_of(ts[k]) <= tb,
        tb + 2 <= u32::MAX,
    ensures
        matches_for(v, vid, ts).len() <= ts.len(),
        forall|j: int| 0 <= j < matches_for(v, vid, ts).len() ==> ann_core(
            #[trigger] matches_for(v, vid, ts)[j],
            xb,
            yb,
            tb,
        ) && matches_for(v, vid, ts)[j].pos == (Point { x: 0u32, y: 0u32 }),
    decreases ts.len(),
{
    if ts.len() > 0 {
        assert(forall|k: int| 0 <= k < ts.len() - 1 ==> ts.drop_last()[k] == ts[k]);
        lemma_matches_for_bounds(v, vid, ts.drop_last(), xb, yb, tb);
    }
}

/// The collected annotations: at most one per (glyph, label) pair, each with
/// the core bounds and a fresh origin position.
pub proof fn lemma_collect_bounds(vs: Seq<Visual>, ts: Seq<Text>, xb: int, yb: int, tb: int)
    requires
        forall|k: int| 0 <= k < vs.len() ==> vs[k].x <= xb && vs[k].y <= yb,
        forall|k: int| 0 <= k < ts.len() ==> text_len_of(ts[k]) <= tb,
        tb + 2 <= u32::MAX,
    ensures
        collect_spec(vs, ts).len() <= vs.len() * ts.len(),
        forall|j: int| 0 <= j < collect_spec(vs, ts).len() ==> ann_core(
            #[trigger] collect_spec(vs, ts)[j],
            xb,
            yb,
            tb,
        ) && collect_spec(vs, ts)[j].pos == (Point { x: 0u32, y: 0u32 }),
    decreases vs.len(),
{
    if vs.len() > 0 {
        assert(forall|k: int| 0 <= k < vs.len() - 1 ==> vs.drop_last()[k] == vs[k]);
        lemma_collect_bounds(vs.drop_last(), ts, xb, yb, tb);
        match vs.last().id {
            Some(vid) => {
                lemma_matches_for_bounds(vs.last(), vid, ts, xb, yb, tb);
                assert((vs.len() - 1) * ts.len() + ts.len() == vs.len() * ts.len())
                    by (nonlinear_arith);
            },
            None => {
                assert(collect_spec(vs, ts) =~= collect_spec(vs.drop_last(), ts));
                assert((vs.len() - 1) * ts.len() <= vs.len() * ts.len()) by (nonlinear_arith);
            },
        }
    }
}

/// Writing slots back preserves the core bounds, keeps each box at column 0,
/// and keeps every vertical position within the slot bound.
proof fn lemma_apply_bounds(
    anns: Seq<Annotation>,
    lay: Seq<LayoutAnnotation>,
    xb: int,
    yb: int,
    tb: int,
    pb: int,
)
    requires
        forall|j: int| 0 <= j < anns.len() ==> ann_core(#[trigger] anns[j], xb, yb, tb)
            && anns[j].pos.x == 0 && anns[j].pos.y <= pb,
        forall|j: int| 0 <= j < lay.len() ==> (#[trigger] lay[j]).y <= pb,
    ensures
        apply_layout(anns, lay).len() == anns.len(),
        forall|j: int| 0 <= j < anns.len() ==> ann_core(
            #[trigger] apply_layout(anns, lay)[j],
            xb,
            yb,
            tb,
        ) && apply_layout(anns, lay)[j].pos.x == 0 && apply_layout(anns, lay)[j].pos.y <= pb,
    decreases lay.len(),
{
    if lay.len() > 0 {
        assert(forall|k: int| 0 <= k < lay.len() - 1 ==> lay.drop_last()[k] == lay[k]);
        lemma_apply_bounds(anns, lay.drop_last(), xb, yb, tb, pb);
    }
}

/// The placed annotations keep the collected core bounds, sit at column 0,
/// and sit no lower than three rows per annotation.
pub proof fn lemma_place_bounds(s: Seq<Annotation>, xb: int, yb: int, tb: int)
    requires
        s.len() <= 0x8000,
        forall|j: int| 0 <= j < s.len() ==> ann_core(#[trigger] s[j], xb, yb, tb),
    ensures
        place_spec(s).len() == s.len(),
        forall|j: int| 0 <= j < s.len() ==> ann_core(#[trigger] place_spec(s)[j], xb, yb, tb)
            && place_spec(s)[j].pos.x == 0 && place_spec(s)[j].pos.y <= 3 * (s.len() - 1),
{
    if s.len() > 0 {
        let core = |a: Annotation| ann_core(a, xb, yb, tb);
        lemma_sort_preserves(s, core);
        let sorted = sort_by_target(s);
        let placed = assign_slots(sorted);
        let n = s.len() as int;
        assert(forall|j: int| 0 <= j < n ==> ann_core(#[trigger] placed[j], xb, yb, tb)
            && placed[j].pos.x == 0 && placed[j].pos.y <= 3 * (n - 1));
        let lay = slots_of(placed);
        lemma_optimize_preserves_slots(lay);
        assert(forall|j: int| 0 <= j < n ==> (#[trigger] optimize_spec(lay)[j]).y == lay[j].y);
        assert(forall|j: int| 0 <= j < n ==> (#[trigger] lay[j]).y <= 3 * (n - 1));
        lemma_apply_bounds(placed, optimize_spec(lay), xb, yb, tb, 3 * (n - 1));
    }
}

} // verus!
