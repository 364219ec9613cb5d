use procy::caves::caves_plugin;
use procy::config::Config;
use procy::geometry::{IVec2, Rect, UVec2};
use procy::math::{div_toward_zero, trunc_falloff, Ratio};
use procy::partition::{is_leaf, leaf_node, random_bsp, split_rect, CaveNode, DRAW_STEPS};
use rand::rngs::StdRng;
use rand::SeedableRng;

fn rect(min_x: u32, min_y: u32, max_x: u32, max_y: u32) -> Rect {
    Rect::new(min_x, min_y, max_x, max_y)
}

fn covered(leaves: &Vec<Rect>, x: u32, y: u32) -> usize {
    leaves
        .iter()
        .filter(|r| r.min.x <= x && x < r.max.x && r.min.y <= y && y < r.max.y)
        .count()
}

#[test]
fn falloff_is_one_at_zero_and_zero_at_one() {
    let at_zero = trunc_falloff(0, 7);
    assert_eq!(at_zero.num, at_zero.den);
    assert_eq!(at_zero, Ratio { num: 49, den: 49 });
    let at_one = trunc_falloff(7, 7);
    assert_eq!(at_one, Ratio { num: 0, den: 49 });
}

#[test]
fn falloff_follows_the_formula() {
    // f(1/4) = (1/4 - 2) * 1/4 + 1 = 9/16
    assert_eq!(trunc_falloff(1, 4), Ratio { num: 9, den: 16 });
    // f(1/2) = 1/4
    assert_eq!(trunc_falloff(5, 10), Ratio { num: 25, den: 100 });
    // beyond the far end the parabola rises again: f(2) = 1
    assert_eq!(trunc_falloff(6, 3), Ratio { num: 9, den: 9 });
    assert_eq!(
        trunc_falloff(0, u32::MAX),
        Ratio { num: 18446744065119617025, den: 18446744065119617025 }
    );
}

#[test]
fn division_rounds_toward_zero() {
    assert_eq!(div_toward_zero(7, 2), 3);
    assert_eq!(div_toward_zero(-7, 2), -3);
    assert_eq!(div_toward_zero(-1, 1000), 0);
    assert_eq!(div_toward_zero(0, 5), 0);
}

#[test]
fn split_children_add_up_to_the_parent() {
    for (r, coin) in [
        (rect(0, 0, 64, 64), true),
        (rect(0, 0, 64, 64), false),
        (rect(3, 5, 10, 6), true),
        (rect(3, 5, 10, 6), false),
        (rect(7, 7, 8, 20), true),
        (rect(1, 2, 2, 3), false),
    ] {
        let mut stack = Vec::new();
        split_rect(&mut stack, r, coin);
        assert_eq!(stack.len(), 2);
        let (a, b) = (stack[0], stack[1]);
        assert_eq!(a.area() + b.area(), r.area());
        for x in r.min.x..r.max.x {
            for y in r.min.y..r.max.y {
                assert_eq!(covered(&stack, x, y), 1);
            }
        }
    }
}

#[test]
fn split_cuts_at_the_middle_of_the_drawn_axis() {
    let mut stack = vec![rect(9, 9, 9, 9)];
    split_rect(&mut stack, rect(0, 0, 64, 32), true);
    assert_eq!(stack, vec![rect(9, 9, 9, 9), rect(0, 0, 32, 32), rect(32, 0, 64, 32)]);
    let mut stack = Vec::new();
    split_rect(&mut stack, rect(0, 0, 64, 32), false);
    assert_eq!(stack, vec![rect(0, 0, 64, 16), rect(0, 16, 64, 32)]);
    let mut stack = Vec::new();
    split_rect(&mut stack, rect(10, 0, 15, 4), true);
    assert_eq!(stack, vec![rect(10, 0, 12, 4), rect(12, 0, 15, 4)]);
}

#[test]
fn split_takes_the_other_axis_where_a_side_is_one_cell() {
    let mut stack = Vec::new();
    split_rect(&mut stack, rect(0, 0, 1, 8), true);
    assert_eq!(stack, vec![rect(0, 0, 1, 4), rect(0, 4, 1, 8)]);
    let mut stack = Vec::new();
    split_rect(&mut stack, rect(0, 0, 8, 1), false);
    assert_eq!(stack, vec![rect(0, 0, 4, 1), rect(4, 0, 8, 1)]);
}

#[test]
fn leaf_node_sits_at_the_center_with_the_longer_side() {
    assert_eq!(
        leaf_node(&rect(0, 0, 64, 32)),
        CaveNode { position: IVec2 { x: 32, y: 16 }, radius: 64 }
    );
    assert_eq!(
        leaf_node(&rect(10, 20, 13, 27)),
        CaveNode { position: IVec2 { x: 11, y: 23 }, radius: 7 }
    );
}

#[test]
fn small_rectangles_and_single_cells_are_leaves() {
    let config = caves_plugin();
    assert!(is_leaf(&rect(0, 0, 3, 5), 4096, &config, DRAW_STEPS - 1));
    let one = Config { min_area: 1, ..config };
    assert!(is_leaf(&rect(4, 4, 5, 5), 4096, &one, DRAW_STEPS - 1));
    assert!(!is_leaf(&rect(4, 4, 6, 5), 4096, &one, DRAW_STEPS - 1));
}

#[test]
fn the_whole_region_is_never_a_leaf() {
    let config = caves_plugin();
    assert!(!is_leaf(&rect(0, 0, 64, 64), 4096, &config, 0));
    let certain = Config { trunc_falloff_factor: 1000, ..config };
    assert!(!is_leaf(&rect(0, 0, 64, 64), 4096, &certain, 0));
}

#[test]
fn the_draw_is_held_against_the_chance() {
    // area 16 in a region of 4096 with minimum 16: t = 0, f = 1, so the
    // chance is the factor itself, 50 thousandths: draws below 3276.8 keep.
    let config = caves_plugin();
    let r = rect(0, 0, 4, 4);
    assert!(is_leaf(&r, 4096, &config, 0));
    assert!(is_leaf(&r, 4096, &config, 3276));
    assert!(!is_leaf(&r, 4096, &config, 3277));
    assert!(!is_leaf(&r, 4096, &config, DRAW_STEPS - 1));
    // area 2056 is half way: t = 1/2, f = 1/4, chance 12.5 thousandths:
    // draws below 819.2 keep.
    let half = rect(0, 0, 8, 257);
    assert_eq!(half.area(), 2056);
    assert!(is_leaf(&half, 4096, &config, 819));
    assert!(!is_leaf(&half, 4096, &config, 820));
}

#[test]
fn region_64_by_64_is_tiled_by_its_leaves() {
    let config = caves_plugin();
    assert_eq!(config.min_area, 16);
    for seed in 0..20u64 {
        let mut rng = StdRng::seed_from_u64(seed);
        let leaves = random_bsp(UVec2 { x: 64, y: 64 }, &config, &mut rng);
        assert!(leaves.len() >= 2);
        let mut total: u32 = 0;
        for leaf in leaves.iter() {
            assert!(leaf.max.x <= 64 && leaf.max.y <= 64);
            assert!(leaf.min.x < leaf.max.x && leaf.min.y < leaf.max.y);
            // a rectangle of 16 cells or more is cut in halves, so a leaf
            // has at least 8
            assert!(2 * leaf.area() >= 16);
            total += leaf.area();
        }
        assert_eq!(total, 64 * 64);
        for x in 0..64 {
            for y in 0..64 {
                assert_eq!(covered(&leaves, x, y), 1);
            }
        }
    }
}

#[test]
fn odd_regions_are_tiled_too() {
    let config = Config { min_area: 5, trunc_falloff_factor: 300, ..caves_plugin() };
    for seed in 0..10u64 {
        let mut rng = StdRng::seed_from_u64(seed);
        let leaves = random_bsp(UVec2 { x: 37, y: 11 }, &config, &mut rng);
        for leaf in leaves.iter() {
            assert!(3 * leaf.area() >= 5);
        }
        for x in 0..37 {
            for y in 0..11 {
                assert_eq!(covered(&leaves, x, y), 1);
            }
        }
        assert_eq!(leaves.iter().map(|r| r.area()).sum::<u32>(), 37 * 11);
    }
}

#[test]
fn degenerate_minimum_area_gives_the_root_as_single_leaf() {
    let mut rng = StdRng::seed_from_u64(3);
    let whole = Config { min_area: 64 * 64, ..caves_plugin() };
    let leaves = random_bsp(UVec2 { x: 64, y: 64 }, &whole, &mut rng);
    assert_eq!(leaves, vec![rect(0, 0, 64, 64)]);
    let more = Config { min_area: 1_000_000, ..caves_plugin() };
    let leaves = random_bsp(UVec2 { x: 64, y: 64 }, &more, &mut rng);
    assert_eq!(leaves, vec![rect(0, 0, 64, 64)]);
    let leaves = random_bsp(UVec2 { x: 0, y: 9 }, &caves_plugin(), &mut rng);
    assert_eq!(leaves, vec![rect(0, 0, 0, 9)]);
}

#[test]
fn minimum_area_one_cuts_down_to_cells_or_stops_on_a_draw() {
    let config = Config { min_area: 1, trunc_falloff_factor: 1, ..caves_plugin() };
    let mut rng = StdRng::seed_from_u64(11);
    let leaves = random_bsp(UVec2 { x: 8, y: 8 }, &config, &mut rng);
    assert!(leaves.len() >= 2 && leaves.len() <= 64);
    assert_eq!(leaves.iter().map(|r| r.area()).sum::<u32>(), 64);
}

#[test]
fn config_validity_is_tested() {
    assert!(caves_plugin().is_valid());
    assert!(!Config { min_area: 0, ..caves_plugin() }.is_valid());
    assert!(!Config { grid_size: 0, ..caves_plugin() }.is_valid());
    assert!(!Config { edge_neighbors: 0, ..caves_plugin() }.is_valid());
    assert!(!Config { tunnel_segments: 0, ..caves_plugin() }.is_valid());
    assert!(!Config { tunnel_angle: 91, ..caves_plugin() }.is_valid());
    assert!(Config { tunnel_angle: 0, ..caves_plugin() }.is_valid());
    assert!(!Config { tunnel_thickness: 0, ..caves_plugin() }.is_valid());
    assert!(!Config { node_radius_factor: 0, ..caves_plugin() }.is_valid());
    assert!(!Config { trunc_falloff_factor: 0, ..caves_plugin() }.is_valid());
}

#[test]
fn nothing_is_cut_in_a_region_no_larger_than_the_minimum() {
    let config = Config { min_area: 100, ..caves_plugin() };
    assert!(is_leaf(&rect(0, 0, 10, 10), 100, &config, DRAW_STEPS - 1));
    assert!(is_leaf(&rect(0, 0, 10, 10), 64, &config, DRAW_STEPS - 1));
    assert!(!is_leaf(&rect(0, 0, 10, 10), 101, &config, DRAW_STEPS - 1));
}

#[test]
fn draws_differ_from_run_to_run_and_from_cut_to_cut() {
    let config = caves_plugin();
    let mut counts = Vec::new();
    for seed in 0..10u64 {
        let mut rng = StdRng::seed_from_u64(seed);
        let leaves = random_bsp(UVec2 { x: 64, y: 64 }, &config, &mut rng);
        // were every draw the lowest, the two halves of the region would be
        // kept at once
        assert!(leaves.len() > 2);
        // were every coin the same, all leaves would be one cell thin
        assert!(leaves.iter().any(|r| r.width() >= 2 && r.height() >= 2));
        counts.push(leaves.len());
    }
    assert!(counts.iter().any(|n| *n != counts[0]));
}
