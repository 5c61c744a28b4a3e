//! The point sampler: collects edge pixels in row-major order, shuffles them,
//! truncates to the resolved target count, removes points that violate the
//! minimum pairwise distance, and appends the four image corners.

use vstd::prelude::*;
use crate::geometry::{dist2, spec_dist2, Point};
use crate::opts::PixelUnit;
use rand::rngs::SmallRng;
use rand::seq::SliceRandom;
use rand::SeedableRng;

verus! {

/// A binary edge mask: cell `(x, y)` is true where the edge detector marked
/// an edge pixel. Row-major: cell `(x, y)` lives at `data[y * width + x]`.
pub struct EdgeMask {
    pub width: u32,
    pub height: u32,
    pub data: Vec<bool>,
}

impl EdgeMask {
    /// The backing vector holds exactly one cell per pixel.
    pub open spec fn wf(self) -> bool {
        self.data@.len() == self.width * self.height
    }

    /// Builds a mask, rejecting a backing vector of the wrong length.
    pub fn new(width: u32, height: u32, data: Vec<bool>) -> (r: Option<EdgeMask>)
        ensures
            r is Some <==> data@.len() == width * height,
            r is Some ==> r->0 == (EdgeMask { width, height, data }) && r->0.wf(),
    {
        proof {
            assert((width as int) * (height as int) < 0x1_0000_0000_0000_0000)
                by (nonlinear_arith)
                requires
                    width < 0x1_0000_0000,
                    height < 0x1_0000_0000,
            ;
        }
        let cells: u64 = (width as u64) * (height as u64);
        if data.len() as u64 == cells {
            Some(EdgeMask { width, height, data })
        } else {
            None
        }
    }
}

/// The point a flat row-major cell index denotes, in a mask of width `w`.
pub open spec fn point_of_index(w: int, i: int) -> Point {
    Point { x: (i % w) as u32, y: (i / w) as u32 }
}

/// The edge points among the first `n` cells, in row-major scan order.
pub open spec fn collect_upto(mask: EdgeMask, n: int) -> Seq<Point>
    decreases n,
{
    if n <= 0 {
        Seq::empty()
    } else {
        let prefix = collect_upto(mask, n - 1);
        if mask.data@[n - 1] {
            prefix.push(point_of_index(mask.width as int, n - 1))
        } else {
            prefix
        }
    }
}

/// Every edge point of the mask, in row-major scan order.
pub open spec fn spec_edge_points(mask: EdgeMask) -> Seq<Point> {
    collect_upto(mask, mask.data@.len() as int)
}

/// Collects every `(x, y)` whose cell is marked, in row-major scan order.
pub fn collect_edge_points(mask: &EdgeMask) -> (r: Vec<Point>)
    requires
        mask.wf(),
    ensures
        r@ == spec_edge_points(*mask),
{
    let mut r: Vec<Point> = Vec::new();
    let w: usize = mask.width as usize;
    let mut i: usize = 0;
    while i < mask.data.len()
        invariant
            mask.wf(),
            i <= mask.data@.len(),
            w == mask.width,
            r@ == collect_upto(*mask, i as int),
        decreases mask.data@.len() - i,
    {
        proof {
            assert(w > 0) by (nonlinear_arith)
                requires
                    i < mask.width * mask.height,
                    w == mask.width,
                    0 <= i,
            ;
        }
        if mask.data[i] {
            let x: u32 = (i % w) as u32;
            let y: u32 = (i / w) as u32;
            proof {
                assert(i / w < mask.height && i % w < w) by (nonlinear_arith)
                    requires
                        i < mask.width * mask.height,
                        w == mask.width,
                        w > 0,
                        0 <= i,
                ;
            }
            r.push(Point { x, y });
        }
        i = i + 1;
    }
    r
}

/// Every collected edge point lies inside the mask's grid.
proof fn lemma_collect_upto_in_bounds(mask: EdgeMask, n: int)
    requires
        mask.wf(),
        n <= mask.data@.len(),
    ensures
        forall|k: int|
            0 <= k < collect_upto(mask, n).len() ==> (#[trigger] collect_upto(mask, n)[k]).x
                < mask.width && collect_upto(mask, n)[k].y < mask.height,
    decreases n,
{
    if n > 0 {
        lemma_collect_upto_in_bounds(mask, n - 1);
        if mask.data@[n - 1] {
            let w = mask.width as int;
            assert(w > 0) by (nonlinear_arith)
                requires
                    0 <= n - 1,
                    n - 1 < mask.width * mask.height,
                    w == mask.width,
            ;
            assert((n - 1) % w < w && (n - 1) / w < mask.height && 0 <= (n - 1) % w && 0 <= (n
                - 1) / w) by (nonlinear_arith)
                requires
                    0 <= n - 1,
                    n - 1 < mask.width * mask.height,
                    w == mask.width,
                    w > 0,
            ;
        }
        assert forall|k: int| 0 <= k < collect_upto(mask, n).len() implies (#[trigger] collect_upto(
            mask,
            n,
        )[k]).x < mask.width && collect_upto(mask, n)[k].y < mask.height by {
            let cur = collect_upto(mask, n);
            let prev = collect_upto(mask, n - 1);
            if mask.data@[n - 1] {
                let q = point_of_index(mask.width as int, n - 1);
                assert(cur == prev.push(q));
                if k < prev.len() {
                    assert(cur[k] == prev[k]);
                } else {
                    assert(cur[k] == q);
                }
            } else {
                assert(cur == prev);
            }
        }
    }
}

/// Every edge point of a mask lies inside its grid.
pub proof fn lemma_edge_points_in_bounds(mask: EdgeMask)
    requires
        mask.wf(),
    ensures
        forall|k: int|
            0 <= k < spec_edge_points(mask).len() ==> (#[trigger] spec_edge_points(mask)[k]).x
                < mask.width && spec_edge_points(mask)[k].y < mask.height,
{
    lemma_collect_upto_in_bounds(mask, mask.data@.len() as int);
}

/// The two points are no closer than the squared distance bound.
pub open spec fn far_enough(p: Point, q: Point, d2: int) -> bool {
    spec_dist2(p, q) >= d2
}

/// The later points that survive one inner scan against the pivot `p`: those
/// at least the distance bound away, in their original order.
pub open spec fn keep_far(p: Point, s: Seq<Point>, d2: int) -> Seq<Point>
    decreases s.len(),
{
    if s.len() == 0 {
        Seq::empty()
    } else if far_enough(p, s[0], d2) {
        seq![s[0]] + keep_far(p, s.drop_first(), d2)
    } else {
        keep_far(p, s.drop_first(), d2)
    }
}

/// One inner scan never makes the list longer.
pub proof fn lemma_keep_far_len(p: Point, s: Seq<Point>, d2: int)
    ensures
        keep_far(p, s, d2).len() <= s.len(),
    decreases s.len(),
{
    if s.len() > 0 {
        lemma_keep_far_len(p, s.drop_first(), d2);
    }
}

/// Everything one inner scan keeps is far from the pivot, and comes from the
/// scanned list.
pub proof fn lemma_keep_far_elems(p: Point, s: Seq<Point>, d2: int)
    ensures
        forall|k: int|
            0 <= k < keep_far(p, s, d2).len() ==> far_enough(p, keep_far(p, s, d2)[k], d2)
                && s.contains(keep_far(p, s, d2)[k]),
    decreases s.len(),
{
    if s.len() > 0 {
        lemma_keep_far_elems(p, s.drop_first(), d2);
        assert forall|k: int| 0 <= k < keep_far(p, s, d2).len() implies far_enough(
            p,
            keep_far(p, s, d2)[k],
            d2,
        ) && s.contains(keep_far(p, s, d2)[k]) by {
            let kf = keep_far(p, s, d2);
            let rest = keep_far(p, s.drop_first(), d2);
            if far_enough(p, s[0], d2) {
                if k == 0 {
                    assert(kf[0] == s[0]);
                    assert(s.contains(s[0]));
                } else {
                    assert(kf[k] == rest[k - 1]);
                    let q = rest[k - 1];
                    let w = choose|w: int| 0 <= w < s.drop_first().len() && s.drop_first()[w] == q;
                    assert(s[w + 1] == q);
                }
            } else {
                assert(kf[k] == rest[k]);
                let q = rest[k];
                let w = choose|w: int| 0 <= w < s.drop_first().len() && s.drop_first()[w] == q;
                assert(s[w + 1] == q);
            }
        }
    }
}

/// The close-point removal: the first point always survives; one inner scan
/// deletes every later point within range of it; the filter then recurses on
/// what survived. A removed point never suppresses others in turn.
pub open spec fn spec_remove_close(s: Seq<Point>, d2: int) -> Seq<Point>
    decreases s.len(),
    via spec_remove_close_decreases
{
    if s.len() == 0 {
        s
    } else {
        seq![s[0]] + spec_remove_close(keep_far(s[0], s.drop_first(), d2), d2)
    }
}

#[via_fn]
proof fn spec_remove_close_decreases(s: Seq<Point>, d2: int) {
    if s.len() > 0 {
        lemma_keep_far_len(s[0], s.drop_first(), d2);
    }
}

/// Removal only ever removes: the result is never longer than the input.
pub proof fn lemma_remove_close_len(s: Seq<Point>, d2: int)
    ensures
        spec_remove_close(s, d2).len() <= s.len(),
    decreases s.len(),
{
    if s.len() > 0 {
        let kept = keep_far(s[0], s.drop_first(), d2);
        lemma_keep_far_len(s[0], s.drop_first(), d2);
        lemma_remove_close_len(kept, d2);
    }
}

/// Every survivor of the removal comes from the input list.
pub proof fn lemma_remove_close_elems(s: Seq<Point>, d2: int)
    ensures
        forall|k: int|
            0 <= k < spec_remove_close(s, d2).len() ==> s.contains(spec_remove_close(s, d2)[k]),
    decreases s.len(),
{
    if s.len() > 0 {
        let kept = keep_far(s[0], s.drop_first(), d2);
        lemma_keep_far_len(s[0], s.drop_first(), d2);
        lemma_keep_far_elems(s[0], s.drop_first(), d2);
        lemma_remove_close_elems(kept, d2);
        assert forall|k: int| 0 <= k < spec_remove_close(s, d2).len() implies s.contains(
            spec_remove_close(s, d2)[k],
        ) by {
            let r = spec_remove_close(s, d2);
            if k == 0 {
                assert(r[0] == s[0]);
                assert(s.contains(s[0]));
            } else {
                let q = r[k];
                assert(q == spec_remove_close(kept, d2)[k - 1]);
                assert(kept.contains(q));
                let w = choose|w: int| 0 <= w < s.drop_first().len() && s.drop_first()[w] == q;
                assert(s[w + 1] == q);
            }
        }
    }
}

/// The distance invariant: any two distinct survivors of the removal are at
/// least the distance bound apart.
pub proof fn lemma_remove_close_far(s: Seq<Point>, d2: int)
    ensures
        forall|i: int, j: int|
            0 <= i < j < spec_remove_close(s, d2).len() ==> far_enough(
                spec_remove_close(s, d2)[i],
                spec_remove_close(s, d2)[j],
                d2,
            ),
    decreases s.len(),
{
    if s.len() > 0 {
        let kept = keep_far(s[0], s.drop_first(), d2);
        lemma_keep_far_len(s[0], s.drop_first(), d2);
        lemma_keep_far_elems(s[0], s.drop_first(), d2);
        lemma_remove_close_elems(kept, d2);
        lemma_remove_close_far(kept, d2);
        assert forall|i: int, j: int|
            0 <= i < j < spec_remove_close(s, d2).len() implies far_enough(
            spec_remove_close(s, d2)[i],
            spec_remove_close(s, d2)[j],
            d2,
        ) by {
            let r = spec_remove_close(s, d2);
            let rest = spec_remove_close(kept, d2);
            if i == 0 {
                let q = rest[j - 1];
                assert(r[j] == q);
                assert(kept.contains(q));
                let w = choose|w: int| 0 <= w < kept.len() && kept[w] == q;
                assert(far_enough(s[0], kept[w], d2));
            } else {
                assert(r[i] == rest[i - 1] && r[j] == rest[j - 1]);
            }
        }
    }
}

/// Removes close points in place, exactly as documented: the outer index
/// walks the list; every later point closer than `min_distance` to the
/// current one is deleted immediately, the inner scan continuing at the same
/// position; the outer index advances only when the inner scan is done.
pub fn remove_close_points(points: &mut Vec<Point>, min_distance: u32)
    ensures
        final(points)@ == spec_remove_close(
            old(points)@,
            (min_distance as int) * (min_distance as int),
        ),
{
    let ghost d2: int = (min_distance as int) * (min_distance as int);
    proof {
        assert((min_distance as int) * (min_distance as int) < 0x1_0000_0000_0000_0000)
            by (nonlinear_arith)
            requires
                min_distance < 0x1_0000_0000,
        ;
    }
    let d2e: u128 = (min_distance as u128) * (min_distance as u128);
    let mut i: usize = 0;
    proof {
        assert(points@.take(0) =~= Seq::<Point>::empty());
        assert(points@.skip(0) =~= points@);
        assert(points@.take(0) + spec_remove_close(points@.skip(0), d2) =~= spec_remove_close(
            points@,
            d2,
        ));
    }
    while i < points.len()
        invariant
            i <= points@.len(),
            d2e == d2,
            spec_remove_close(old(points)@, d2) == points@.take(i as int) + spec_remove_close(
                points@.skip(i as int),
                d2,
            ),
        decreases points@.len() - i,
    {
        let ghost entry = points@;
        let ghost pivot = points@[i as int];
        let mut j: usize = i + 1;
        while j < points.len()
            invariant
                i < j <= points@.len(),
                points@.len() <= entry.len(),
                points@.take(i as int + 1) == entry.take(i as int + 1),
                i < entry.len(),
                points@[i as int] == pivot,
                pivot == entry[i as int],
                keep_far(pivot, entry.skip(i as int + 1), d2) == points@.subrange(
                    i as int + 1,
                    j as int,
                ) + keep_far(pivot, points@.skip(j as int), d2),
                d2e == d2,
            decreases points@.len() - j,
        {
            let ghost before = points@;
            if dist2(points[i], points[j]) < d2e {
                points.remove(j);
                proof {
                    assert(!far_enough(pivot, before[j as int], d2));
                    assert(before.skip(j as int).len() > 0);
                    assert(before.skip(j as int)[0] == before[j as int]);
                    assert(before.skip(j as int).drop_first() =~= before.skip(j as int + 1));
                    assert(points@.take(i as int + 1) =~= before.take(i as int + 1));
                    assert(points@.subrange(i as int + 1, j as int) =~= before.subrange(
                        i as int + 1,
                        j as int,
                    ));
                    assert(points@.skip(j as int) =~= before.skip(j as int + 1));
                }
            } else {
                proof {
                    assert(far_enough(pivot, before[j as int], d2));
                    assert(before.skip(j as int).len() > 0);
                    assert(before.skip(j as int)[0] == before[j as int]);
                    assert(before.skip(j as int).drop_first() =~= before.skip(j as int + 1));
                    assert(before.subrange(i as int + 1, j as int + 1) =~= before.subrange(
                        i as int + 1,
                        j as int,
                    ) + seq![before[j as int]]);
                    assert(before.subrange(i as int + 1, j as int) + (seq![before[j as int]]
                        + keep_far(pivot, before.skip(j as int + 1), d2)) =~= before.subrange(
                        i as int + 1,
                        j as int + 1,
                    ) + keep_far(pivot, before.skip(j as int + 1), d2));
                }
                j = j + 1;
            }
        }
        proof {
            let n = points@.len() as int;
            assert(points@.subrange(i as int + 1, n) =~= points@.skip(i as int + 1));
            assert(keep_far(pivot, points@.skip(j as int), d2) =~= Seq::<Point>::empty());
            assert(keep_far(pivot, entry.skip(i as int + 1), d2) =~= points@.skip(i as int + 1));
            // unfold the removal spec one step at the pivot
            assert(entry.skip(i as int).len() > 0);
            assert(entry.skip(i as int)[0] == pivot);
            assert(entry.skip(i as int).drop_first() =~= entry.skip(i as int + 1));
            assert(spec_remove_close(entry.skip(i as int), d2) == seq![pivot] + spec_remove_close(
                keep_far(pivot, entry.skip(i as int + 1), d2),
                d2,
            ));
            assert(points@.take(i as int) =~= entry.take(i as int));
            assert(entry.take(i as int) + (seq![pivot] + spec_remove_close(
                points@.skip(i as int + 1),
                d2,
            )) =~= points@.take(i as int + 1) + spec_remove_close(points@.skip(i as int + 1), d2));
        }
        i = i + 1;
    }
    proof {
        assert(points@.take(i as int) =~= points@);
        assert(points@.skip(i as int) =~= Seq::<Point>::empty());
    }
}

#[verifier::external_type_specification]
#[verifier::external_body]
pub struct ExSmallRng(SmallRng);

/// Relies on rand's `SliceRandom::shuffle`: a Fisher-Yates pass of pairwise
/// swaps, so the slice afterwards holds the same elements in some order.
#[verifier::external_body]
fn shuffle_points(points: &mut Vec<Point>, rng: &mut SmallRng)
    ensures
        final(points)@.len() == old(points)@.len(),
        final(points)@.to_multiset() == old(points)@.to_multiset(),
{
    points.shuffle(rng);
}

/// Relies on `SmallRng::from_seed`, applied to the 16-byte little-endian
/// form of the seed.
#[verifier::external_body]
fn rng_from_seed(seed: u128) -> SmallRng {
    SmallRng::from_seed(seed.to_le_bytes())
}

/// Relies on `SmallRng::from_entropy`: a generator seeded from the system.
#[verifier::external_body]
fn rng_from_entropy() -> SmallRng {
    SmallRng::from_entropy()
}

/// The target count a point-count specification resolves to, given the
/// number of edge points found and the image size: the absolute count, or
/// the fraction of either quantity truncated toward zero.
pub open spec fn spec_limit(unit: PixelUnit, n_edge: int, width: u32, height: u32) -> int {
    match unit {
        PixelUnit::Absolute(abs) => abs as int,
        PixelUnit::Relative(f) => n_edge * f.num / (f.den as int),
        PixelUnit::PixelRelative(f) => (width * height) * f.num / (f.den as int),
    }
}

/// A fraction in `[0, 1]` of a quantity is between zero and the quantity.
proof fn lemma_frac_le(n: int, num: int, den: int)
    requires
        0 <= n,
        0 <= num <= den,
        0 < den,
    ensures
        0 <= n * num / den <= n,
{
    assert(0 <= n * num <= n * den) by (nonlinear_arith)
        requires
            0 <= n,
            0 <= num <= den,
    ;
    vstd::arithmetic::div_mod::lemma_div_is_ordered(n * num, n * den, den);
    vstd::arithmetic::div_mod::lemma_div_by_multiple(n, den);
    vstd::arithmetic::div_mod::lemma_div_pos_is_pos(n * num, den);
}

/// Resolves the point-count specification to an absolute count.
pub fn resolve_limit(unit: &PixelUnit, n_edge: usize, width: u32, height: u32) -> (r: usize)
    requires
        unit.wf(),
        width * height <= usize::MAX,
    ensures
        r == spec_limit(*unit, n_edge as int, width, height),
{
    match unit {
        PixelUnit::Absolute(abs) => *abs,
        PixelUnit::Relative(f) => {
            proof {
                assert((n_edge as int) * (f.num as int) < 0x1_0000_0000_0000_0000_0000_0000)
                    by (nonlinear_arith)
                    requires
                        n_edge <= 0xffff_ffff_ffff_ffff,
                        f.num < 0x1_0000_0000,
                ;
                lemma_frac_le(n_edge as int, f.num as int, f.den as int);
            }
            let prod: u128 = (n_edge as u128) * (f.num as u128);
            (prod / (f.den as u128)) as usize
        },
        PixelUnit::PixelRelative(f) => {
            proof {
                assert((width as int) * (height as int) * (f.num as int)
                    < 0x1_0000_0000_0000_0000_0000_0000) by (nonlinear_arith)
                    requires
                        width < 0x1_0000_0000,
                        height < 0x1_0000_0000,
                        f.num < 0x1_0000_0000,
                ;
                lemma_frac_le((width * height) as int, f.num as int, f.den as int);
            }
            let cells: u128 = (width as u128) * (height as u128);
            let prod: u128 = cells * (f.num as u128);
            (prod / (f.den as u128)) as usize
        },
    }
}

/// The four image corners, in their fixed order.
pub open spec fn corners(width: u32, height: u32) -> Seq<Point> {
    seq![
        Point { x: 0, y: 0 },
        Point { x: width, y: 0 },
        Point { x: 0, y: height },
        Point { x: width, y: height },
    ]
}

/// Appends the four corner points, always, never deduplicated against
/// existing points.
fn append_corners(points: &mut Vec<Point>, width: u32, height: u32)
    ensures
        final(points)@ == old(points)@ + corners(width, height),
{
    points.push(Point { x: 0, y: 0 });
    points.push(Point { x: width, y: 0 });
    points.push(Point { x: 0, y: height });
    points.push(Point { x: width, y: height });
    proof {
        assert(points@ =~= old(points)@ + corners(width, height));
    }
}

/// The first `limit` points, or all of them if there are fewer.
pub open spec fn spec_truncated(pts: Seq<Point>, limit: int) -> Seq<Point> {
    if 0 <= limit <= pts.len() {
        pts.take(limit)
    } else {
        pts
    }
}

/// Close-point removal applies only with a positive minimum distance; with
/// zero there is no filtering at all, not even self-comparison.
pub open spec fn spec_filtered(pts: Seq<Point>, min_distance: u32) -> Seq<Point> {
    if min_distance > 0 {
        spec_remove_close(pts, (min_distance as int) * (min_distance as int))
    } else {
        pts
    }
}

/// What sampling produces from an already shuffled point list: truncate to
/// the resolved count, filter close points, append the four corners.
pub open spec fn spec_sample(
    pts: Seq<Point>,
    unit: PixelUnit,
    min_distance: u32,
    width: u32,
    height: u32,
) -> Seq<Point> {
    spec_filtered(spec_truncated(pts, spec_limit(unit, pts.len() as int, width, height)), min_distance)
        + corners(width, height)
}

/// The laws of sampling, for any input order: the result ends in the four
/// corners; the non-corner points never outnumber the resolved count nor the
/// input points; every non-corner point comes from the input; and with a
/// positive minimum distance any two non-corner survivors are at least that
/// far apart.
pub proof fn lemma_sample_props(
    pts: Seq<Point>,
    unit: PixelUnit,
    min_distance: u32,
    width: u32,
    height: u32,
)
    requires
        unit.wf(),
    ensures
        spec_sample(pts, unit, min_distance, width, height).len() >= 4,
        spec_sample(pts, unit, min_distance, width, height).len() <= pts.len() + 4,
        spec_sample(pts, unit, min_distance, width, height).len() <= spec_limit(
            unit,
            pts.len() as int,
            width,
            height,
        ) + 4,
        spec_sample(pts, unit, min_distance, width, height).subrange(
            spec_sample(pts, unit, min_distance, width, height).len() - 4,
            spec_sample(pts, unit, min_distance, width, height).len() as int,
        ) == corners(width, height),
        forall|i: int|
            0 <= i < spec_sample(pts, unit, min_distance, width, height).len() - 4 ==> pts.contains(
                #[trigger] spec_sample(pts, unit, min_distance, width, height)[i],
            ),
        min_distance > 0 ==> forall|i: int, j: int|
            0 <= i < j < spec_sample(pts, unit, min_distance, width, height).len() - 4
                ==> far_enough(
                #[trigger] spec_sample(pts, unit, min_distance, width, height)[i],
                #[trigger] spec_sample(pts, unit, min_distance, width, height)[j],
                (min_distance as int) * (min_distance as int),
            ),
{
    let limit = spec_limit(unit, pts.len() as int, width, height);
    let truncated = spec_truncated(pts, limit);
    let filtered = spec_filtered(truncated, min_distance);
    let r = spec_sample(pts, unit, min_distance, width, height);
    // the resolved count is never negative
    match unit {
        PixelUnit::Absolute(_) => {},
        PixelUnit::Relative(f) => {
            lemma_frac_le(pts.len() as int, f.num as int, f.den as int);
        },
        PixelUnit::PixelRelative(f) => {
            lemma_frac_le((width * height) as int, f.num as int, f.den as int);
        },
    }
    assert(0 <= limit);
    assert(truncated.len() <= pts.len());
    assert(truncated.len() <= limit);
    let d2 = (min_distance as int) * (min_distance as int);
    if min_distance > 0 {
        lemma_remove_close_len(truncated, d2);
        lemma_remove_close_far(truncated, d2);
    }
    assert(filtered.len() <= truncated.len());
    assert(r.subrange(r.len() - 4, r.len() as int) =~= corners(width, height));
    assert forall|i: int| 0 <= i < r.len() - 4 implies pts.contains(r[i]) by {
        assert(r[i] == filtered[i]);
        if min_distance > 0 {
            lemma_remove_close_elems(truncated, d2);
            assert(truncated.contains(filtered[i]));
        } else {
            assert(truncated.contains(truncated[i]));
        }
        let q = filtered[i];
        let w = choose|w: int| 0 <= w < truncated.len() && truncated[w] == q;
        if 0 <= limit <= pts.len() {
            assert(pts[w] == q);
        }
    }
    if min_distance > 0 {
        assert forall|i: int, j: int| 0 <= i < j < r.len() - 4 implies far_enough(
            r[i],
            r[j],
            d2,
        ) by {
            assert(r[i] == filtered[i] && r[j] == filtered[j]);
        }
    }
}

/// An empty candidate list, or a resolved count of zero, samples to the
/// four corners alone.
pub proof fn lemma_sample_empty(
    pts: Seq<Point>,
    unit: PixelUnit,
    min_distance: u32,
    width: u32,
    height: u32,
)
    requires
        unit.wf(),
        pts.len() == 0 || spec_limit(unit, pts.len() as int, width, height) == 0,
    ensures
        spec_sample(pts, unit, min_distance, width, height) == corners(width, height),
{
    let limit = spec_limit(unit, pts.len() as int, width, height);
    let truncated = spec_truncated(pts, limit);
    match unit {
        PixelUnit::Absolute(_) => {},
        PixelUnit::Relative(f) => {
            lemma_frac_le(pts.len() as int, f.num as int, f.den as int);
        },
        PixelUnit::PixelRelative(f) => {
            lemma_frac_le((width * height) as int, f.num as int, f.den as int);
        },
    }
    assert(truncated =~= Seq::<Point>::empty());
    assert(spec_filtered(truncated, min_distance) =~= Seq::<Point>::empty());
    assert(spec_sample(pts, unit, min_distance, width, height) =~= corners(width, height));
}

/// With a minimum distance beyond the image diagonal, at most one
/// non-corner point survives sampling: any two survivors would have to be
/// farther apart than two points of the grid can be.
pub proof fn lemma_sample_diagonal(
    pts: Seq<Point>,
    unit: PixelUnit,
    min_distance: u32,
    width: u32,
    height: u32,
)
    requires
        unit.wf(),
        forall|k: int| 0 <= k < pts.len() ==> (#[trigger] pts[k]).x < width && pts[k].y < height,
        (min_distance as int) * (min_distance as int) > width * width + height * height,
    ensures
        spec_sample(pts, unit, min_distance, width, height).len() <= 5,
{
    let r = spec_sample(pts, unit, min_distance, width, height);
    lemma_sample_props(pts, unit, min_distance, width, height);
    assert(min_distance > 0) by (nonlinear_arith)
        requires
            (min_distance as int) * (min_distance as int) > width * width + height * height,
    ;
    if r.len() > 5 {
        let p0 = r[0];
        let p1 = r[1];
        assert(pts.contains(p0) && pts.contains(p1));
        let a = choose|a: int| 0 <= a < pts.len() && pts[a] == p0;
        let b = choose|b: int| 0 <= b < pts.len() && pts[b] == p1;
        assert(p0.x < width && p0.y < height && p1.x < width && p1.y < height);
        assert(far_enough(p0, p1, (min_distance as int) * (min_distance as int)));
        assert(spec_dist2(p0, p1) < width * width + height * height) by (nonlinear_arith)
            requires
                0 <= p0.x < width,
                0 <= p1.x < width,
                0 <= p0.y < height,
                0 <= p1.y < height,
                spec_dist2(p0, p1) == (p0.x - p1.x) * (p0.x - p1.x) + (p0.y - p1.y) * (p0.y
                    - p1.y),
        ;
    }
}

/// Samples from an already shuffled point list: resolve the target count,
/// truncate, remove close points when a minimum distance is set, and append
/// the four image corners.
pub fn sample_from_points(
    points: Vec<Point>,
    unit: &PixelUnit,
    min_distance: u32,
    width: u32,
    height: u32,
) -> (r: Vec<Point>)
    requires
        unit.wf(),
        width * height <= usize::MAX,
    ensures
        r@ == spec_sample(points@, *unit, min_distance, width, height),
{
    let ghost input = points@;
    let mut pts = points;
    let limit = resolve_limit(unit, pts.len(), width, height);
    pts.truncate(limit);
    proof {
        assert(pts@ == spec_truncated(input, limit as int));
    }
    if min_distance > 0 {
        remove_close_points(&mut pts, min_distance);
    }
    append_corners(&mut pts, width, height);
    pts
}

/// The full point sampler: collect the edge points in row-major order,
/// shuffle them (seeded or from entropy), truncate to the resolved count,
/// remove close points, and append the four corners. The result is the
/// deterministic sample of some reordering of the mask's edge points; the
/// corner, count and distance invariants hold whatever order the shuffle
/// produced.
pub fn edge_points(
    mask: &EdgeMask,
    unit: &PixelUnit,
    min_distance: u32,
    rng_seed: Option<u128>,
) -> (r: Vec<Point>)
    requires
        mask.wf(),
        unit.wf(),
        0 < mask.width,
        0 < mask.height,
    ensures
        exists|sh: Seq<Point>|
            #![auto]
            sh.to_multiset() == spec_edge_points(*mask).to_multiset() && r@ == spec_sample(
                sh,
                *unit,
                min_distance,
                mask.width,
                mask.height,
            ),
        r@.len() >= 4,
        r@.subrange(r@.len() - 4, r@.len() as int) == corners(mask.width, mask.height),
        r@.len() <= spec_limit(*unit, spec_edge_points(*mask).len() as int, mask.width, mask.height)
            + 4,
        r@.len() <= spec_edge_points(*mask).len() + 4,
        forall|i: int|
            0 <= i < r@.len() - 4 ==> spec_edge_points(*mask).contains(#[trigger] r@[i]),
        (min_distance as int) * (min_distance as int) > mask.width * mask.width + mask.height
            * mask.height ==> r@.len() <= 5,
        min_distance > 0 ==> forall|i: int, j: int|
            0 <= i < j < r@.len() - 4 ==> spec_dist2(#[trigger] r@[i], #[trigger] r@[j]) >= (
            min_distance as int) * (min_distance as int),
{
    let mut pts = collect_edge_points(mask);
    let ghost collected = pts@;
    let mut rng = match rng_seed {
        Some(seed) => rng_from_seed(seed),
        None => rng_from_entropy(),
    };
    shuffle_points(&mut pts, &mut rng);
    let ghost sh = pts@;
    proof {
        vstd::std_specs::vec::axiom_spec_len(&mask.data);
        assert(mask.width * mask.height <= usize::MAX);
    }
    let r = sample_from_points(pts, unit, min_distance, mask.width, mask.height);
    proof {
        lemma_sample_props(sh, *unit, min_distance, mask.width, mask.height);
        assert(sh.to_multiset() == collected.to_multiset() && r@ == spec_sample(
            sh,
            *unit,
            min_distance,
            mask.width,
            mask.height,
        ));
        sh.to_multiset_ensures();
        collected.to_multiset_ensures();
        assert forall|i: int| 0 <= i < r@.len() - 4 implies spec_edge_points(*mask).contains(
            r@[i],
        ) by {
            assert(sh.contains(r@[i]));
            assert(sh.to_multiset().count(r@[i]) > 0);
            assert(collected.contains(r@[i]));
        }
        if (min_distance as int) * (min_distance as int) > mask.width * mask.width + mask.height
            * mask.height {
            lemma_edge_points_in_bounds(*mask);
            assert forall|k: int| 0 <= k < sh.len() implies (#[trigger] sh[k]).x < mask.width
                && sh[k].y < mask.height by {
                assert(sh.contains(sh[k]));
                assert(sh.to_multiset().count(sh[k]) > 0);
                assert(collected.contains(sh[k]));
            }
            lemma_sample_diagonal(sh, *unit, min_distance, mask.width, mask.height);
        }
    }
    r
}

} // verus!

