//! Random bisection of a region into leaf rectangles.
//!
//! Rectangles wait on a stack. One is taken off; it is kept whole as a leaf
//! when it has fewer cells than the configured minimum, when it is a single
//! cell, or when a uniform draw falls under a chance that shrinks with its
//! size; otherwise it is cut in two along a drawn axis and both parts go back
//! on the stack. Whatever is drawn, the leaves tile the region.

use crate::config::Config;
use crate::geometry::{IVec2, Rect, UVec2, MAX_SIDE};
use crate::math::{falloff_den, falloff_num, lemma_falloff_ends, trunc_falloff, Ratio, THOUSAND};
use crate::random::draw_between;
use rand::rngs::StdRng;
use vstd::prelude::*;

verus! {

/// A uniform draw is an integer below this; it stands for the fraction
/// `draw / DRAW_STEPS` of the unit interval.
pub const DRAW_STEPS: u32 = 65536;

/// A leaf of the partition as a node of the cave graph: where it is and how
/// far it reaches.
#[derive(Clone, Copy, Debug, PartialEq, Eq, Structural)]
pub struct CaveNode {
    pub position: IVec2,
    pub radius: u32,
}

impl CaveNode {
    /// The node lies in the largest region and reaches no further than its
    /// longest side.
    pub open spec fn wf(&self) -> bool {
        &&& 0 <= self.position.x <= MAX_SIDE
        &&& 0 <= self.position.y <= MAX_SIDE
        &&& self.radius <= MAX_SIDE
    }
}

/// The node that a leaf rectangle becomes: at its centre, with its longer
/// side as radius.
pub open spec fn node_of(rect: Rect) -> CaveNode {
    CaveNode {
        position: IVec2 { x: rect.spec_center().x as i32, y: rect.spec_center().y as i32 },
        radius: if rect.spec_width() >= rect.spec_height() {
            rect.spec_width() as u32
        } else {
            rect.spec_height() as u32
        },
    }
}

/// The two parts of `rect` cut at the middle of its width (`vertical`) or of
/// its height, the middle rounded down.
pub open spec fn halves(rect: Rect, vertical: bool) -> (Rect, Rect) {
    if vertical {
        let mid = (rect.min.x + rect.spec_width() / 2) as u32;
        (
            Rect { min: rect.min, max: UVec2 { x: mid, y: rect.max.y } },
            Rect { min: UVec2 { x: mid, y: rect.min.y }, max: rect.max },
        )
    } else {
        let mid = (rect.min.y + rect.spec_height() / 2) as u32;
        (
            Rect { min: rect.min, max: UVec2 { x: rect.max.x, y: mid } },
            Rect { min: UVec2 { x: rect.min.x, y: mid }, max: rect.max },
        )
    }
}

/// The axis along which a rectangle is cut: the drawn one where that side has
/// two cells or more, else the other one.
pub open spec fn cut_is_vertical(rect: Rect, coin: bool) -> bool {
    if coin {
        rect.spec_width() >= 2
    } else {
        rect.spec_height() < 2
    }
}

/// Whether a rectangle of `area` cells is kept whole, in a region of `total`
/// cells, on the uniform draw `draw`: when it is under the minimum area, when
/// it is a single cell, when the whole region is no larger than the minimum
/// area, or when `draw / DRAW_STEPS` is less than `f(t) * factor / 1000`,
/// with `t` the area remapped from `[min_area, total]` to `[0, 1]` and `f`
/// the falloff.
pub open spec fn keeps_whole(area: int, total: int, config: Config, draw: int) -> bool {
    ||| area < config.min_area
    ||| area <= 1
    ||| total <= config.min_area
    ||| draw * THOUSAND * falloff_den(total - config.min_area) < config.trunc_falloff_factor
        * DRAW_STEPS * falloff_num(area - config.min_area, total - config.min_area)
}

/// The stack and the leaves after one more rectangle has left the stack: on
/// the draw it is kept whole and joins the leaves, or it is cut along the
/// axis that the coin gives and its parts go on the stack, the second on top.
pub open spec fn bisect_step(
    state: (Seq<Rect>, Seq<Rect>),
    total: int,
    config: Config,
    draw: (int, bool),
) -> (Seq<Rect>, Seq<Rect>) {
    let (stack, leaves) = state;
    if stack.len() == 0 {
        state
    } else {
        let rect = stack.last();
        if keeps_whole(rect.spec_area(), total, config, draw.0) {
            (stack.drop_last(), leaves.push(rect))
        } else {
            let parts = halves(rect, cut_is_vertical(rect, draw.1));
            (stack.drop_last().push(parts.0).push(parts.1), leaves)
        }
    }
}

/// The stack and the leaves after the draws have been used up, one for each
/// rectangle that left the stack, starting with the region alone on the
/// stack.
pub open spec fn bisected(region: Rect, config: Config, draws: Seq<(int, bool)>) -> (
    Seq<Rect>,
    Seq<Rect>,
)
    decreases draws.len(),
{
    if draws.len() == 0 {
        (seq![region], Seq::empty())
    } else {
        bisect_step(
            bisected(region, config, draws.drop_last()),
            region.spec_area(),
            config,
            draws.last(),
        )
    }
}

/// `leaves` are what the draws make of the region: each draw is a uniform
/// draw and a coin, and after the last of them the stack is empty.
pub open spec fn is_run(draws: Seq<(int, bool)>, region: Rect, config: Config, leaves: Seq<Rect>)
    -> bool {
    &&& forall|i: int| 0 <= i < draws.len() ==> 0 <= (#[trigger] draws[i]).0 < DRAW_STEPS
    &&& bisected(region, config, draws) == (Seq::<Rect>::empty(), leaves)
}

/// How many of `rects` hold the cell `(x, y)`.
pub open spec fn cover_count(rects: Seq<Rect>, x: int, y: int) -> nat
    decreases rects.len(),
{
    if rects.len() == 0 {
        0
    } else {
        cover_count(rects.drop_last(), x, y) + if rects.last().contains(x, y) {
            1nat
        } else {
            0nat
        }
    }
}

/// `rects` tile `region`: each cell of the region lies in exactly one of
/// them, and no cell outside it lies in any.
pub open spec fn tiles(rects: Seq<Rect>, region: Rect) -> bool {
    forall|x: int, y: int|
        #[trigger] cover_count(rects, x, y) == if region.contains(x, y) {
            1nat
        } else {
            0nat
        }
}

/// The work that a stack of rectangles still stands for: one unit for each
/// rectangle and one for each cut that its cells admit.
pub open spec fn pending(rects: Seq<Rect>) -> nat
    decreases rects.len(),
{
    if rects.len() == 0 {
        0
    } else {
        pending(rects.drop_last()) + if rects.last().spec_area() >= 1 {
            (2 * rects.last().spec_area() - 1) as nat
        } else {
            0nat
        }
    }
}

/// The number of cells of all the rectangles together.
pub open spec fn area_sum(rects: Seq<Rect>) -> int
    decreases rects.len(),
{
    if rects.len() == 0 {
        0
    } else {
        area_sum(rects.drop_last()) + rects.last().spec_area()
    }
}

proof fn lemma_area_push(rects: Seq<Rect>, rect: Rect)
    ensures
        area_sum(rects.push(rect)) == area_sum(rects) + rect.spec_area(),
{
    assert(rects.push(rect).drop_last() =~= rects);
}

/// Rectangles of one cell or more each are no more than their cells.
proof fn lemma_count_within_area(rects: Seq<Rect>)
    requires
        forall|i: int| 0 <= i < rects.len() ==> (#[trigger] rects[i]).spec_area() >= 1,
    ensures
        rects.len() <= area_sum(rects),
    decreases rects.len(),
{
    if rects.len() > 0 {
        assert forall|i: int| 0 <= i < rects.drop_last().len() implies (
        #[trigger] rects.drop_last()[i]).spec_area() >= 1 by {
            assert(rects.drop_last()[i] == rects[i]);
        }
        lemma_count_within_area(rects.drop_last());
        assert(rects.last() == rects[rects.len() - 1]);
    }
}

proof fn lemma_cover_push(rects: Seq<Rect>, rect: Rect, x: int, y: int)
    ensures
        cover_count(rects.push(rect), x, y) == cover_count(rects, x, y) + if rect.contains(x, y) {
            1nat
        } else {
            0nat
        },
{
    assert(rects.push(rect).drop_last() =~= rects);
}

proof fn lemma_pending_push(rects: Seq<Rect>, rect: Rect)
    ensures
        pending(rects.push(rect)) == pending(rects) + if rect.spec_area() >= 1 {
            (2 * rect.spec_area() - 1) as nat
        } else {
            0nat
        },
{
    assert(rects.push(rect).drop_last() =~= rects);
}

/// A cut leaves no gap and no overlap: the areas of the two parts add up to
/// the area of the whole, and each cell of the whole lies in exactly one part.
pub proof fn lemma_halves_partition(rect: Rect, vertical: bool)
    requires
        rect.wf(),
    ensures
        halves(rect, vertical).0.wf(),
        halves(rect, vertical).1.wf(),
        halves(rect, vertical).0.within(rect),
        halves(rect, vertical).1.within(rect),
        halves(rect, vertical).0.spec_area() + halves(rect, vertical).1.spec_area()
            == rect.spec_area(),
        forall|x: int, y: int|
            rect.contains(x, y) == (#[trigger] halves(rect, vertical).0.contains(x, y)
                || halves(rect, vertical).1.contains(x, y)),
        forall|x: int, y: int|
            !(#[trigger] halves(rect, vertical).0.contains(x, y) && halves(
                rect,
                vertical,
            ).1.contains(x, y)),
{
    let w = rect.spec_width();
    let h = rect.spec_height();
    if vertical {
        assert((w / 2) * h + (w - w / 2) * h == w * h) by (nonlinear_arith);
    } else {
        assert(w * (h / 2) + w * (h - h / 2) == w * h) by (nonlinear_arith);
    }
}

/// Each part of a cut along a side of two cells or more holds at least a
/// third of the cells of the whole, and at least one.
pub proof fn lemma_halves_size(rect: Rect, vertical: bool)
    requires
        rect.wf(),
        rect.spec_area() >= 1,
        vertical ==> rect.spec_width() >= 2,
        !vertical ==> rect.spec_height() >= 2,
    ensures
        halves(rect, vertical).0.spec_area() >= 1,
        halves(rect, vertical).1.spec_area() >= 1,
        3 * halves(rect, vertical).0.spec_area() >= rect.spec_area(),
        3 * halves(rect, vertical).1.spec_area() >= rect.spec_area(),
{
    let w = rect.spec_width();
    let h = rect.spec_height();
    assert(w >= 1 && h >= 1) by (nonlinear_arith)
        requires
            w * h >= 1,
            w >= 0,
            h >= 0,
    ;
    if vertical {
        let a = w / 2;
        let b = w - w / 2;
        assert(a * h >= 1 && b * h >= 1 && 3 * (a * h) >= w * h && 3 * (b * h) >= w * h)
            by (nonlinear_arith)
            requires
                a >= 1,
                b >= 1,
                3 * a >= w,
                3 * b >= w,
                h >= 1,
        ;
    } else {
        let a = h / 2;
        let b = h - h / 2;
        assert(w * a >= 1 && w * b >= 1 && 3 * (w * a) >= w * h && 3 * (w * b) >= w * h)
            by (nonlinear_arith)
            requires
                a >= 1,
                b >= 1,
                3 * a >= h,
                3 * b >= h,
                w >= 1,
        ;
    }
}

/// The whole region is never kept on a draw: there the chance is zero.
pub proof fn lemma_region_is_cut(total: int, config: Config, draw: int)
    requires
        config.valid(),
        total > config.min_area,
        draw >= 0,
    ensures
        !keeps_whole(total, total, config, draw),
{
    let m = total - config.min_area;
    lemma_falloff_ends(m);
    assert(draw * THOUSAND * falloff_den(m) >= 0) by (nonlinear_arith)
        requires
            draw >= 0,
            falloff_den(m) > 0,
    ;
    assert(config.trunc_falloff_factor * DRAW_STEPS * falloff_num(m, m) == 0)
        by (nonlinear_arith)
        requires
            falloff_num(m, m) == 0,
    ;
}

/// Makes the node of a leaf rectangle.
pub fn leaf_node(rect: &Rect) -> (node: CaveNode)
    requires
        rect.wf(),
    ensures
        node == node_of(*rect),
        node.wf(),
{
    let c: UVec2 = rect.center();
    let w: u32 = rect.width();
    let h: u32 = rect.height();
    CaveNode {
        position: IVec2 { x: c.x as i32, y: c.y as i32 },
        radius: if w >= h {
            w
        } else {
            h
        },
    }
}

/// Decides on a draw whether a rectangle is kept whole.
pub fn is_leaf(rect: &Rect, total: u32, config: &Config, draw: u32) -> (leaf: bool)
    requires
        rect.wf(),
        config.valid(),
        draw < DRAW_STEPS,
    ensures
        leaf == keeps_whole(rect.spec_area(), total as int, *config, draw as int),
{
    let area: u32 = rect.area();
    if area < config.min_area || area <= 1 || total <= config.min_area {
        return true;
    }
    let f: Ratio = trunc_falloff(area - config.min_area, total - config.min_area);
    let lhs: u128 = mul3(f.den, draw, THOUSAND);
    let rhs: u128 = mul3(f.num, config.trunc_falloff_factor as u32, DRAW_STEPS);
    proof {
        let d = falloff_den(total - config.min_area);
        let n = falloff_num(area - config.min_area, total - config.min_area);
        assert(draw * THOUSAND * d == d * draw * THOUSAND) by (nonlinear_arith);
        assert(config.trunc_falloff_factor * DRAW_STEPS * n == n * config.trunc_falloff_factor
            * DRAW_STEPS) by (nonlinear_arith);
    }
    lhs < rhs
}

/// The product of three factors, which always fits.
fn mul3(a: u64, b: u32, c: u32) -> (p: u128)
    ensures
        p == a * b * c,
{
    assert(a * b <= 0xffff_ffff_ffff_ffff * 0xffff_ffff) by (nonlinear_arith)
        requires
            0 <= a <= 0xffff_ffff_ffff_ffff,
            0 <= b <= 0xffff_ffff,
    ;
    let ab: u128 = (a as u128) * (b as u128);
    assert(ab * c <= 0xffff_ffff_ffff_ffff * 0xffff_ffff * 0xffff_ffff) by (nonlinear_arith)
        requires
            0 <= ab <= 0xffff_ffff_ffff_ffff * 0xffff_ffff,
            0 <= c <= 0xffff_ffff,
    ;
    ab * (c as u128)
}

/// Cuts `rect` in two and puts both parts on the stack: along the drawn axis
/// where that side has two cells or more, else along the other.
pub fn split_rect(stack: &mut Vec<Rect>, rect: Rect, coin: bool)
    requires
        rect.wf(),
    ensures
        final(stack)@ == old(stack)@.push(halves(rect, cut_is_vertical(rect, coin)).0).push(
            halves(rect, cut_is_vertical(rect, coin)).1,
        ),
{
    let vertical: bool = if coin {
        rect.width() >= 2
    } else {
        rect.height() < 2
    };
    if vertical {
        let mid: u32 = rect.min.x + rect.width() / 2;
        stack.push(Rect { min: rect.min, max: UVec2 { x: mid, y: rect.max.y } });
        stack.push(Rect { min: UVec2 { x: mid, y: rect.min.y }, max: rect.max });
    } else {
        let mid: u32 = rect.min.y + rect.height() / 2;
        stack.push(Rect { min: rect.min, max: UVec2 { x: rect.max.x, y: mid } });
        stack.push(Rect { min: UVec2 { x: rect.min.x, y: mid }, max: rect.max });
    }
}

/// What holds of the leaves of a region whatever was drawn: some draws make
/// them of the region; they tile it; each lies within it and, unless it is
/// the region itself, has a cell or more and a third of the minimum area or
/// more; a region of no more cells than the minimum area is its own single
/// leaf, and any other is cut at least once.
pub open spec fn partitions(leaves: Seq<Rect>, region: Rect, config: Config) -> bool {
    &&& exists|draws: Seq<(int, bool)>| #[trigger] is_run(draws, region, config, leaves)
    &&& tiles(leaves, region)
    &&& forall|i: int|
        0 <= i < leaves.len() ==> {
            &&& (#[trigger] leaves[i]).wf()
            &&& leaves[i].within(region)
            &&& leaves[i] == region || (leaves[i].spec_area() >= 1 && 3 * leaves[i].spec_area()
                >= config.min_area)
        }
    &&& area_sum(leaves) == region.spec_area()
    &&& region.spec_area() <= config.min_area ==> leaves == seq![region]
    &&& region.spec_area() > config.min_area ==> 2 <= leaves.len() <= region.spec_area()
}

/// Partitions the region `[0, size.x) x [0, size.y)` into leaf rectangles,
/// in the order in which they leave the stack.
///
/// A region of no more cells than the minimum area is its own single leaf.
pub fn random_bsp(size: UVec2, config: &Config, rng: &mut StdRng) -> (leaves: Vec<Rect>)
    requires
        size.x <= MAX_SIDE,
        size.y <= MAX_SIDE,
        config.valid(),
    ensures
        partitions(leaves@, Rect { min: UVec2 { x: 0, y: 0 }, max: size }, *config),
{
    let region: Rect = Rect { min: UVec2 { x: 0, y: 0 }, max: size };
    let total: u32 = region.area();
    let mut leaves: Vec<Rect> = Vec::new();
    if total <= config.min_area {
        leaves.push(region);
        proof {
            assert(leaves@ =~= seq![region]);
            let draws = seq![(0int, false)];
            let start = bisected(region, *config, draws.drop_last());
            assert(draws.drop_last() =~= Seq::<(int, bool)>::empty());
            assert(start == (seq![region], Seq::<Rect>::empty()));
            assert(start.0.drop_last() =~= Seq::<Rect>::empty());
            assert(start.1.push(region) =~= leaves@);
            assert(keeps_whole(region.spec_area(), region.spec_area(), *config, 0));
            assert(bisected(region, *config, draws) == bisect_step(
                start,
                region.spec_area(),
                *config,
                draws.last(),
            ));
            assert(is_run(draws, region, *config, leaves@));
            lemma_area_push(Seq::<Rect>::empty(), region);
            assert(Seq::<Rect>::empty().push(region) =~= leaves@);
            assert forall|x: int, y: int|
                #[trigger] cover_count(leaves@, x, y) == if region.contains(x, y) {
                    1nat
                } else {
                    0nat
                } by {
                lemma_cover_push(Seq::<Rect>::empty(), region, x, y);
                assert(Seq::<Rect>::empty().push(region) =~= leaves@);
            }
        }
        return leaves;
    }
    let mut stack: Vec<Rect> = Vec::new();
    stack.push(region);
    let ghost mut cuts: nat = 0;
    let ghost mut draws: Seq<(int, bool)> = Seq::empty();
    proof {
        lemma_pending_push(Seq::<Rect>::empty(), region);
        lemma_area_push(Seq::<Rect>::empty(), region);
        assert(Seq::<Rect>::empty().push(region) =~= stack@);
        assert forall|x: int, y: int|
            #[trigger] cover_count(stack@, x, y) + cover_count(leaves@, x, y) == if region.contains(
                x,
                y,
            ) {
                1nat
            } else {
                0nat
            } by {
            lemma_cover_push(Seq::<Rect>::empty(), region, x, y);
        }
    }
    while stack.len() > 0
        invariant
            config.valid(),
            region.wf(),
            region.min == (UVec2 { x: 0, y: 0 }),
            total == region.spec_area(),
            total > config.min_area,
            forall|x: int, y: int|
                #[trigger] cover_count(stack@, x, y) + cover_count(leaves@, x, y)
                    == if region.contains(x, y) {
                    1nat
                } else {
                    0nat
                },
            forall|i: int|
                0 <= i < stack.len() ==> {
                    &&& (#[trigger] stack[i]).wf()
                    &&& stack[i].within(region)
                    &&& stack[i].spec_area() >= 1
                    &&& stack[i] == region || 3 * stack[i].spec_area() >= config.min_area
                },
            forall|i: int|
                0 <= i < leaves.len() ==> {
                    &&& (#[trigger] leaves[i]).wf()
                    &&& leaves[i].within(region)
                    &&& leaves[i] != region
                    &&& leaves[i].spec_area() >= 1
                    &&& 3 * leaves[i].spec_area() >= config.min_area
                },
            area_sum(stack@) + area_sum(leaves@) == total,
            forall|i: int| 0 <= i < draws.len() ==> 0 <= (#[trigger] draws[i]).0 < DRAW_STEPS,
            bisected(region, *config, draws) == (stack@, leaves@),
            cuts == 0 ==> stack@ == seq![region] && leaves.len() == 0,
            cuts > 0 ==> stack.len() + leaves.len() >= 2,
        decreases pending(stack@),
    {
        let ghost before = stack@;
        let ghost kept = leaves@;
        let rect: Rect = stack.pop().unwrap();
        assert(before.drop_last() =~= stack@);
        assert(rect == before[before.len() - 1]);
        let area: u32 = rect.area();
        let ghost drawn = draws;
        let ghost mut kept_on: int = 0;
        let mut leaf: bool = area < config.min_area || area <= 1;
        if !leaf {
            let draw: i64 = draw_between(rng, 0, (DRAW_STEPS - 1) as i64);
            proof {
                if rect == region {
                    lemma_region_is_cut(total as int, *config, draw as int);
                }
                kept_on = draw as int;
            }
            leaf = is_leaf(&rect, total, config, draw as u32);
        }
        assert(leaf == keeps_whole(rect.spec_area(), total as int, *config, kept_on));
        if leaf {
            leaves.push(rect);
            proof {
                draws = drawn.push((kept_on, false));
                assert(draws.drop_last() =~= drawn);
                lemma_area_push(kept, rect);
                assert forall|x: int, y: int|
                    #[trigger] cover_count(stack@, x, y) + cover_count(leaves@, x, y)
                        == if region.contains(x, y) {
                        1nat
                    } else {
                        0nat
                    } by {
                    lemma_cover_push(kept, rect, x, y);
                    assert(cover_count(before, x, y) + cover_count(kept, x, y)
                        == if region.contains(x, y) {
                        1nat
                    } else {
                        0nat
                    });
                }
            }
        } else {
            let coin: i64 = draw_between(rng, 0, 1);
            let ghost rest = stack@;
            split_rect(&mut stack, rect, coin == 1);
            proof {
                let vertical = cut_is_vertical(rect, coin == 1);
                let a = halves(rect, vertical).0;
                let b = halves(rect, vertical).1;
                assert(rect.spec_width() >= 2 || rect.spec_height() >= 2) by (nonlinear_arith)
                    requires
                        rect.spec_width() * rect.spec_height() > 1,
                        rect.spec_width() >= 0,
                        rect.spec_height() >= 0,
                ;
                draws = drawn.push((kept_on, coin == 1));
                assert(draws.drop_last() =~= drawn);
                lemma_halves_partition(rect, vertical);
                lemma_halves_size(rect, vertical);
                lemma_pending_push(rest, a);
                lemma_pending_push(rest.push(a), b);
                lemma_area_push(rest, a);
                lemma_area_push(rest.push(a), b);
                assert forall|x: int, y: int|
                    #[trigger] cover_count(stack@, x, y) + cover_count(leaves@, x, y)
                        == if region.contains(x, y) {
                        1nat
                    } else {
                        0nat
                    } by {
                    lemma_cover_push(rest, a, x, y);
                    lemma_cover_push(rest.push(a), b, x, y);
                    assert(cover_count(before, x, y) + cover_count(kept, x, y)
                        == if region.contains(x, y) {
                        1nat
                    } else {
                        0nat
                    });
                }
                cuts = cuts + 1;
            }
        }
    }
    proof {
        assert(stack@ =~= Seq::<Rect>::empty());
        assert forall|x: int, y: int|
            #[trigger] cover_count(leaves@, x, y) == if region.contains(x, y) {
                1nat
            } else {
                0nat
            } by {
            assert(cover_count(stack@, x, y) == 0);
        }
        assert(cuts > 0);
        assert(area_sum(stack@) == 0);
        assert(is_run(draws, region, *config, leaves@));
        lemma_count_within_area(leaves@);
    }
    leaves
}

} // verus!
