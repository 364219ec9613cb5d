use procy::caves::caves_plugin;
use procy::config::Config;
use procy::geometry::{IVec2, UVec2};
use procy::partition::CaveNode;
use procy::raster::{
    node_disc, paint_nodes, rasterize, read_tiles, rotate, sine, tunnel_between, tunnel_disc, Disc,
    Raster,
};
use procy::terrain::{TilePos, TileType};
use rand::rngs::StdRng;
use rand::SeedableRng;

fn node(x: i32, y: i32, radius: u32) -> CaveNode {
    CaveNode { position: IVec2 { x, y }, radius }
}

fn floor_count(tiles: &Vec<(TilePos, TileType)>) -> usize {
    tiles.iter().filter(|(_, t)| *t == TileType::Floor).count()
}

fn tile_at(tiles: &Vec<(TilePos, TileType)>, width: u32, x: u32, y: u32) -> TileType {
    let (pos, tile) = tiles[(y * width + x) as usize];
    assert_eq!(pos, TilePos { x, y });
    tile
}

#[test]
fn sine_is_exact_at_the_marks() {
    assert_eq!(sine(0), 0);
    assert_eq!(sine(30), 500);
    assert_eq!(sine(90), 1000);
    assert_eq!(sine(150), 500);
    assert_eq!(sine(180), 0);
    // 4000 * 45 * 135 / (40500 - 45 * 135) = 24300000 / 34425
    assert_eq!(sine(45), 705);
    assert_eq!(sine(1), 17);
}

#[test]
fn rotation_turns_counter_clockwise() {
    let v = IVec2 { x: 100, y: 0 };
    assert_eq!(rotate(v, 0), v);
    assert_eq!(rotate(v, 90), IVec2 { x: 0, y: 100 });
    assert_eq!(rotate(v, -90), IVec2 { x: 0, y: -100 });
    assert_eq!(rotate(v, 30), IVec2 { x: 86, y: 50 });
    assert_eq!(rotate(v, -30), IVec2 { x: 86, y: -50 });
    assert_eq!(rotate(IVec2 { x: 0, y: 100 }, 90), IVec2 { x: -100, y: 0 });
    assert_eq!(rotate(IVec2 { x: -7, y: 3 }, 0), IVec2 { x: -7, y: 3 });
    // components round toward zero: (-7 * 705 - 3 * 705) / 1000 = -7.05
    assert_eq!(rotate(IVec2 { x: -7, y: 3 }, 45), IVec2 { x: -7, y: -2 });
}

#[test]
fn node_disc_scales_the_radius() {
    let config = caves_plugin();
    assert_eq!(
        node_disc(&node(12, 34, 20), &config),
        Disc { center: IVec2 { x: 12, y: 34 }, radius: 2 }
    );
    assert_eq!(node_disc(&node(0, 0, 9), &config).radius, 0);
    let double = Config { node_radius_factor: 2000, ..config };
    assert_eq!(node_disc(&node(5, 5, 9), &double).radius, 18);
}

#[test]
fn tunnel_disc_eases_quadratically() {
    let config = caves_plugin();
    let a = node(10, 10, 20);
    let b = node(50, 10, 40);
    // t = 0: at the source with the source's radius
    assert_eq!(
        tunnel_disc(&a, &b, 0, &config, 0),
        Disc { center: IVec2 { x: 10, y: 10 }, radius: 2 }
    );
    // t = 25/100: a quarter of the way, radius 0.1 * (40 * 0.25 + 20 * 0.75) = 2.5
    assert_eq!(
        tunnel_disc(&a, &b, 5, &config, 0),
        Disc { center: IVec2 { x: 20, y: 10 }, radius: 2 }
    );
    // t = 81/100
    assert_eq!(
        tunnel_disc(&a, &b, 9, &config, 0),
        Disc { center: IVec2 { x: 42, y: 10 }, radius: 3 }
    );
    // turned by a right angle the tunnel leaves upward
    assert_eq!(
        tunnel_disc(&a, &b, 5, &config, 90),
        Disc { center: IVec2 { x: 10, y: 20 }, radius: 2 }
    );
    assert_eq!(
        tunnel_disc(&a, &b, 5, &config, -90),
        Disc { center: IVec2 { x: 10, y: 0 }, radius: 2 }
    );
    // back from b to a the steps are negative and round toward zero
    assert_eq!(
        tunnel_disc(&b, &a, 3, &config, 0),
        Disc { center: IVec2 { x: 47, y: 10 }, radius: 3 }
    );
}

#[test]
fn a_canvas_without_discs_is_all_wall() {
    let mut rng = StdRng::seed_from_u64(1);
    let tiles = rasterize(&Vec::new(), &Vec::new(), UVec2 { x: 7, y: 5 }, &caves_plugin(), &mut rng);
    assert_eq!(tiles.0.len(), 35);
    assert_eq!(floor_count(&tiles.0), 0);
    for y in 0..5 {
        for x in 0..7 {
            assert_eq!(tile_at(&tiles.0, 7, x, y), TileType::Wall);
        }
    }
}

#[test]
fn a_node_is_painted_as_a_disc_of_floor() {
    let mut rng = StdRng::seed_from_u64(1);
    let config = Config { node_radius_factor: 1000, ..caves_plugin() };
    let nodes = vec![node(8, 6, 3)];
    let tiles = rasterize(&nodes, &Vec::new(), UVec2 { x: 16, y: 12 }, &config, &mut rng);
    assert_eq!(tiles.0.len(), 16 * 12);
    assert_eq!(tile_at(&tiles.0, 16, 8, 6), TileType::Floor);
    assert_eq!(tile_at(&tiles.0, 16, 5, 6), TileType::Floor);
    assert_eq!(tile_at(&tiles.0, 16, 11, 6), TileType::Floor);
    assert_eq!(tile_at(&tiles.0, 16, 8, 3), TileType::Floor);
    assert_eq!(tile_at(&tiles.0, 16, 8, 9), TileType::Floor);
    assert_eq!(tile_at(&tiles.0, 16, 4, 6), TileType::Wall);
    assert_eq!(tile_at(&tiles.0, 16, 12, 6), TileType::Wall);
    assert_eq!(tile_at(&tiles.0, 16, 0, 0), TileType::Wall);
    assert_eq!(tile_at(&tiles.0, 16, 15, 11), TileType::Wall);
    let floor = floor_count(&tiles.0);
    assert!(floor >= 25 && floor <= 49);
}

#[test]
fn a_disc_of_radius_zero_is_one_tile() {
    let mut rng = StdRng::seed_from_u64(1);
    let nodes = vec![node(2, 1, 1)];
    let tiles = rasterize(&nodes, &Vec::new(), UVec2 { x: 4, y: 3 }, &caves_plugin(), &mut rng);
    assert_eq!(floor_count(&tiles.0), 1);
    assert_eq!(tile_at(&tiles.0, 4, 2, 1), TileType::Floor);
}

#[test]
fn discs_beyond_the_canvas_are_cut_off() {
    let mut rng = StdRng::seed_from_u64(1);
    let config = Config { node_radius_factor: 1000, ..caves_plugin() };
    let nodes = vec![node(0, 0, 2), node(4, 4, 1)];
    let tiles = rasterize(&nodes, &Vec::new(), UVec2 { x: 4, y: 4 }, &config, &mut rng);
    assert_eq!(tiles.0.len(), 16);
    assert_eq!(tile_at(&tiles.0, 4, 0, 0), TileType::Floor);
    assert_eq!(tile_at(&tiles.0, 4, 2, 0), TileType::Floor);
    assert_eq!(tile_at(&tiles.0, 4, 0, 2), TileType::Floor);
    assert_eq!(tile_at(&tiles.0, 4, 3, 0), TileType::Wall);
    assert_eq!(tile_at(&tiles.0, 4, 3, 3), TileType::Wall);
}

#[test]
fn a_straight_tunnel_joins_its_source_toward_its_target() {
    let mut rng = StdRng::seed_from_u64(5);
    let config = Config {
        tunnel_angle: 0,
        tunnel_thickness: 1000,
        node_radius_factor: 1,
        ..caves_plugin()
    };
    let nodes = vec![node(2, 5, 1), node(22, 5, 1)];
    let tiles = rasterize(&nodes, &vec![(0, 1)], UVec2 { x: 32, y: 11 }, &config, &mut rng);
    // the discs lie at 2 + 20 * (i / 10)^2, each of radius one
    for i in 0..10u32 {
        let x = 2 + 20 * i * i / 100;
        assert_eq!(tile_at(&tiles.0, 32, x, 5), TileType::Floor);
        assert_eq!(tile_at(&tiles.0, 32, x, 4), TileType::Floor);
        assert_eq!(tile_at(&tiles.0, 32, x, 6), TileType::Floor);
    }
    // the last disc lies at 18 and reaches 19; the target's own disc is a
    // single tile
    assert_eq!(tile_at(&tiles.0, 32, 19, 5), TileType::Floor);
    assert_eq!(tile_at(&tiles.0, 32, 20, 5), TileType::Wall);
    assert_eq!(tile_at(&tiles.0, 32, 22, 5), TileType::Floor);
    assert_eq!(tile_at(&tiles.0, 32, 2, 8), TileType::Wall);
}

#[test]
fn jittered_tunnels_stay_within_reach_of_their_source() {
    let config = Config { tunnel_angle: 90, tunnel_thickness: 1000, ..caves_plugin() };
    let nodes = vec![node(20, 20, 1), node(30, 20, 1)];
    for seed in 0..20u64 {
        let mut rng = StdRng::seed_from_u64(seed);
        let tiles = rasterize(&nodes, &vec![(0, 1)], UVec2 { x: 41, y: 41 }, &config, &mut rng);
        for (pos, tile) in tiles.0.iter() {
            if *tile == TileType::Floor {
                let dx = pos.x as i64 - 20;
                let dy = pos.y as i64 - 20;
                // no disc lies further than the target, and none is wider
                // than one tile
                assert!(dx * dx + dy * dy <= 12 * 12);
                // turned by no more than a right angle, a tunnel never
                // runs backwards
                assert!(dx >= -1);
            }
        }
        assert!(floor_count(&tiles.0) >= 5);
    }
}

#[test]
fn pixels_are_read_row_by_row() {
    let pixels = vec![0, 255, 0, 254, 255, 1];
    let tiles = read_tiles(&pixels, UVec2 { x: 3, y: 2 });
    assert_eq!(
        tiles,
        vec![
            (TilePos { x: 0, y: 0 }, TileType::Wall),
            (TilePos { x: 1, y: 0 }, TileType::Floor),
            (TilePos { x: 2, y: 0 }, TileType::Wall),
            (TilePos { x: 0, y: 1 }, TileType::Wall),
            (TilePos { x: 1, y: 1 }, TileType::Floor),
            (TilePos { x: 2, y: 1 }, TileType::Wall),
        ]
    );
    assert_eq!(read_tiles(&Vec::new(), UVec2 { x: 0, y: 9 }), Vec::new());
}

#[test]
fn a_canvas_is_painted_disc_by_disc() {
    let mut raster = Raster::new(UVec2 { x: 9, y: 9 });
    raster.paint(Disc { center: IVec2 { x: 4, y: 4 }, radius: 1 });
    raster.paint(Disc { center: IVec2 { x: -3, y: 40 }, radius: 2 });
    raster.paint(Disc { center: IVec2 { x: 8, y: 0 }, radius: 0 });
    let tiles = raster.into_tiles();
    let floor: Vec<TilePos> =
        tiles.iter().filter(|(_, t)| *t == TileType::Floor).map(|(p, _)| *p).collect();
    assert_eq!(
        floor,
        vec![
            TilePos { x: 8, y: 0 },
            TilePos { x: 4, y: 3 },
            TilePos { x: 3, y: 4 },
            TilePos { x: 4, y: 4 },
            TilePos { x: 5, y: 4 },
            TilePos { x: 4, y: 5 },
        ]
    );
}

#[test]
fn a_tunnel_without_jitter_is_the_same_as_its_discs() {
    let config = Config { tunnel_angle: 0, tunnel_thickness: 2000, ..caves_plugin() };
    let a = node(3, 3, 1);
    let b = node(30, 20, 2);
    let mut rng = StdRng::seed_from_u64(9);
    let mut dug = Raster::new(UVec2 { x: 40, y: 30 });
    tunnel_between(&mut dug, &a, &b, &config, &mut rng);
    let mut drawn = Raster::new(UVec2 { x: 40, y: 30 });
    for i in 0..config.tunnel_segments {
        drawn.paint(tunnel_disc(&a, &b, i, &config, 0));
    }
    assert_eq!(dug.into_tiles(), drawn.into_tiles());
}

#[test]
fn nodes_are_painted_in_their_order() {
    let config = Config { node_radius_factor: 1000, ..caves_plugin() };
    let nodes = vec![node(2, 2, 2), node(6, 5, 1)];
    let mut painted = Raster::new(UVec2 { x: 10, y: 8 });
    paint_nodes(&mut painted, &nodes, &config);
    let mut drawn = Raster::new(UVec2 { x: 10, y: 8 });
    drawn.paint(Disc { center: IVec2 { x: 2, y: 2 }, radius: 2 });
    drawn.paint(Disc { center: IVec2 { x: 6, y: 5 }, radius: 1 });
    assert_eq!(painted.into_tiles(), drawn.into_tiles());
}
