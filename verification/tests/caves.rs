use procy::caves::{
    caves_plugin, choose_neighbors, connect, finish, insert_dmap, poll, populate_tiles, regen,
    seed, submit, Caves, Generating, Phase, Regen,
};
use procy::config::Config;
use procy::geometry::{IVec2, UVec2};
use procy::graph::CaveEdge;
use procy::pathfinding::{update_dmap, Goal, Recompute, UpdateDMap};
use procy::spatial::SpatialIndex;
use procy::terrain::{set_tile_textures, terrain_plugin, TileGrid, TilePos, TileType};
use rand::rngs::StdRng;
use rand::SeedableRng;

fn built(size: u32, seed_value: u64, config: &Config) -> Caves {
    let mut rng = StdRng::seed_from_u64(seed_value);
    let mut caves = Caves::new(UVec2 { x: size, y: size });
    seed(&mut caves, config, &mut rng);
    connect(&mut caves, config);
    assert!(populate_tiles(&mut caves, config, &mut rng).is_some());
    finish(&mut caves);
    caves
}

#[test]
fn an_instance_passes_through_every_phase_once() {
    let config = caves_plugin();
    let mut rng = StdRng::seed_from_u64(4);
    let mut caves = Caves::new(UVec2 { x: 64, y: 64 });
    assert_eq!(caves.stage(), Phase::Created);
    assert_eq!(caves.extent(), UVec2 { x: 64, y: 64 });
    seed(&mut caves, &config, &mut rng);
    assert_eq!(caves.stage(), Phase::Seeded);
    connect(&mut caves, &config);
    assert_eq!(caves.stage(), Phase::Connected);
    let tiles = populate_tiles(&mut caves, &config, &mut rng);
    assert_eq!(caves.stage(), Phase::Rasterized);
    assert_eq!(tiles.unwrap().0.len(), 64 * 64);
    finish(&mut caves);
    assert_eq!(caves.stage(), Phase::Finished);
    // a finished instance stays finished
    seed(&mut caves, &config, &mut rng);
    connect(&mut caves, &config);
    assert!(populate_tiles(&mut caves, &config, &mut rng).is_none());
    finish(&mut caves);
    assert_eq!(caves.stage(), Phase::Finished);
}

#[test]
fn the_graph_is_not_handed_out_before_the_instance_is_finished() {
    let config = caves_plugin();
    let mut rng = StdRng::seed_from_u64(4);
    let mut caves = Caves::new(UVec2 { x: 32, y: 32 });
    assert!(caves.node_weights().is_none() && caves.edge_references().is_none());
    assert_eq!(caves.generating(), Some(Generating));
    seed(&mut caves, &config, &mut rng);
    assert!(caves.node_weights().is_none() && caves.edge_references().is_none());
    connect(&mut caves, &config);
    assert!(caves.node_weights().is_none() && caves.edge_references().is_none());
    populate_tiles(&mut caves, &config, &mut rng);
    assert!(caves.node_weights().is_none() && caves.edge_references().is_none());
    assert_eq!(caves.generating(), Some(Generating));
    finish(&mut caves);
    assert_eq!(caves.generating(), None);
    assert!(caves.node_weights().unwrap().len() >= 2);
    assert!(caves.edge_references().is_some());
}

#[test]
fn stages_out_of_turn_do_nothing() {
    let config = caves_plugin();
    let mut rng = StdRng::seed_from_u64(4);
    let mut caves = Caves::new(UVec2 { x: 32, y: 32 });
    connect(&mut caves, &config);
    assert_eq!(caves.stage(), Phase::Created);
    assert!(populate_tiles(&mut caves, &config, &mut rng).is_none());
    finish(&mut caves);
    assert_eq!(caves.stage(), Phase::Created);
    seed(&mut caves, &config, &mut rng);
    seed(&mut caves, &config, &mut rng);
    assert_eq!(caves.stage(), Phase::Seeded);
    finish(&mut caves);
    assert!(populate_tiles(&mut caves, &config, &mut rng).is_none());
    assert_eq!(caves.stage(), Phase::Seeded);
    connect(&mut caves, &config);
    connect(&mut caves, &config);
    seed(&mut caves, &config, &mut rng);
    assert_eq!(caves.stage(), Phase::Connected);
    finish(&mut caves);
    assert_eq!(caves.stage(), Phase::Connected);
    populate_tiles(&mut caves, &config, &mut rng);
    assert!(populate_tiles(&mut caves, &config, &mut rng).is_none());
    finish(&mut caves);
    let nodes = caves.node_weights().unwrap();
    let edges = caves.edge_references().unwrap();
    let again = built(32, 4, &config);
    // seeding twice or connecting twice added nothing
    assert_eq!(again.node_weights().unwrap(), nodes);
    assert_eq!(again.edge_references().unwrap(), edges);
}

#[test]
fn regeneration_starts_afresh() {
    let config = caves_plugin();
    let mut caves = built(48, 2, &config);
    assert_eq!(caves.stage(), Phase::Finished);
    regen(Regen, &mut caves);
    assert_eq!(caves.stage(), Phase::Created);
    assert_eq!(caves.extent(), UVec2 { x: 48, y: 48 });
    assert!(caves.node_weights().is_none());
    let mut rng = StdRng::seed_from_u64(8);
    seed(&mut caves, &config, &mut rng);
    connect(&mut caves, &config);
    populate_tiles(&mut caves, &config, &mut rng);
    finish(&mut caves);
    assert!(caves.node_weights().unwrap().len() >= 2);
}

#[test]
fn nodes_are_the_leaves_of_the_partition() {
    let config = caves_plugin();
    for seed_value in 0..5 {
        let caves = built(64, seed_value, &config);
        let nodes = caves.node_weights().unwrap();
        assert!(nodes.len() >= 2 && nodes.len() <= 64 * 64);
        for n in nodes.iter() {
            assert!(0 <= n.position.x && n.position.x < 64);
            assert!(0 <= n.position.y && n.position.y < 64);
            assert!(n.radius >= 1 && n.radius <= 64);
        }
    }
}

#[test]
fn edges_join_near_nodes_and_no_node_to_itself() {
    let config = caves_plugin();
    for seed_value in 0..5 {
        let caves = built(64, seed_value, &config);
        let nodes = caves.node_weights().unwrap();
        let edges = caves.edge_references().unwrap();
        let mut from = vec![0usize; nodes.len()];
        for (a, b, edge) in edges.iter() {
            assert_ne!(a, b);
            assert_eq!(*edge, CaveEdge { width: 1 });
            let (p, q) = (nodes[*a], nodes[*b]);
            let dx = (p.position.x - q.position.x) as i64;
            let dy = (p.position.y - q.position.y) as i64;
            assert!(dx * dx + dy * dy < (p.radius as i64) * (p.radius as i64));
            from[*a] += 1;
        }
        assert!(from.iter().all(|n| *n <= config.edge_neighbors as usize));
        // edges come node after node
        assert!(edges.windows(2).all(|w| w[0].0 <= w[1].0));
        assert!(!edges.is_empty());
    }
}

#[test]
fn a_single_node_has_no_edge() {
    let config = Config { min_area: 10_000, ..caves_plugin() };
    let caves = built(16, 1, &config);
    let nodes = caves.node_weights().unwrap();
    assert_eq!(nodes.len(), 1);
    assert_eq!(nodes[0].position, IVec2 { x: 8, y: 8 });
    assert_eq!(nodes[0].radius, 16);
    assert_eq!(caves.edge_references().unwrap(), Vec::new());
}

#[test]
fn the_tiles_of_a_cave_hold_floor_at_large_nodes() {
    let config = Config { node_radius_factor: 1000, ..caves_plugin() };
    let mut rng = StdRng::seed_from_u64(6);
    let mut caves = Caves::new(UVec2 { x: 32, y: 32 });
    seed(&mut caves, &config, &mut rng);
    connect(&mut caves, &config);
    let tiles = populate_tiles(&mut caves, &config, &mut rng).unwrap();
    finish(&mut caves);
    assert_eq!(tiles.0.len(), 32 * 32);
    for n in caves.node_weights().unwrap() {
        let at = (n.position.y * 32 + n.position.x) as usize;
        assert_eq!(tiles.0[at].1, TileType::Floor);
    }
}

#[test]
fn neighbours_are_the_first_found_other_than_the_node() {
    assert_eq!(choose_neighbors(&vec![4, 2, 7, 9], 2, 2), vec![4, 7]);
    assert_eq!(choose_neighbors(&vec![4, 2, 7, 9], 4, 3), vec![2, 7, 9]);
    assert_eq!(choose_neighbors(&vec![4, 2, 7, 9], 5, 10), vec![4, 2, 7, 9]);
    assert_eq!(choose_neighbors(&vec![4, 2, 7, 9], 5, 0), Vec::new());
    assert_eq!(choose_neighbors(&vec![3], 3, 5), Vec::new());
    assert_eq!(choose_neighbors(&Vec::new(), 0, 5), Vec::new());
}

#[test]
fn a_query_goes_cell_by_cell_and_row_by_row() {
    let mut index = SpatialIndex::new(10, UVec2 { x: 40, y: 40 });
    let points = [(15, 5), (5, 5), (5, 15), (25, 25), (6, 6), (15, 15), (40, 40)];
    for (i, (x, y)) in points.iter().enumerate() {
        assert_eq!(index.insert(IVec2 { x: *x, y: *y }), i);
    }
    assert_eq!(index.len(), 7);
    // row 0: cell 0 holds 1 and 4, cell 1 holds 0; row 1: cell 0 holds 2,
    // cell 1 holds 5
    assert_eq!(index.query_around(IVec2 { x: 10, y: 10 }, 20), vec![1, 4, 0, 2, 5]);
    // strictly closer than the radius
    assert_eq!(index.query_around(IVec2 { x: 5, y: 5 }, 10), vec![1, 4]);
    assert_eq!(index.query_around(IVec2 { x: 5, y: 5 }, 11), vec![1, 4, 0, 2]);
    assert_eq!(index.query_around(IVec2 { x: 5, y: 5 }, 0), Vec::new());
    assert_eq!(index.query_around(IVec2 { x: 5, y: 5 }, 1), vec![1]);
    assert_eq!(index.query_around(IVec2 { x: 40, y: 40 }, 1), vec![6]);
    assert_eq!(index.query_around(IVec2 { x: -100, y: 20 }, 50), Vec::new());
    assert_eq!(index.query_around(IVec2 { x: -100, y: 5 }, 106), vec![1, 2]);
    assert_eq!(index.query_around(IVec2 { x: -100, y: 5 }, 105), Vec::new());
    assert_eq!(
        index.query_around(IVec2 { x: 1000, y: -1000 }, u32::MAX),
        vec![1, 4, 0, 2, 5, 3, 6]
    );
}

#[test]
fn a_flow_field_is_inserted_once_the_cave_is_finished() {
    let config = caves_plugin();
    let mut rng = StdRng::seed_from_u64(4);
    let mut caves = Caves::new(UVec2 { x: 24, y: 24 });
    assert!(insert_dmap(&caves, 7, 3, false).is_none());
    seed(&mut caves, &config, &mut rng);
    connect(&mut caves, &config);
    populate_tiles(&mut caves, &config, &mut rng);
    assert!(insert_dmap(&caves, 7, 3, false).is_none());
    finish(&mut caves);
    assert!(insert_dmap(&caves, 7, 3, true).is_none());
    let (dmap, event) = insert_dmap(&caves, 7, 3, false).unwrap();
    assert_eq!(event, UpdateDMap(7));
    assert_eq!(dmap.storage(), 3);
    assert_eq!(dmap.get(IVec2 { x: 23, y: 23 }), None);
}

#[test]
fn the_pipeline_feeds_the_flow_field() {
    let config = Config { node_radius_factor: 1000, ..caves_plugin() };
    let mut rng = StdRng::seed_from_u64(12);
    let mut caves = Caves::new(UVec2 { x: 32, y: 32 });
    seed(&mut caves, &config, &mut rng);
    connect(&mut caves, &config);
    let tiles = populate_tiles(&mut caves, &config, &mut rng).unwrap();
    finish(&mut caves);
    let map = terrain_plugin();
    let mut grid = TileGrid::new(UVec2 { x: 32, y: 32 }, &map);
    set_tile_textures(&mut grid, &tiles, &map);
    let (mut dmap, _) = insert_dmap(&caves, 0, 0, false).unwrap();
    let first = caves.node_weights().unwrap()[0];
    let goal = TilePos { x: first.position.x as u32, y: first.position.y as u32 };
    let outcome = update_dmap(&mut dmap, &grid, &vec![Goal(goal)]);
    assert_ne!(outcome, Recompute::Skipped);
    assert_eq!(dmap.get(first.position), Some(0));
    for (pos, tile) in tiles.0.iter() {
        let value = dmap.cell(IVec2 { x: pos.x as i32, y: pos.y as i32 });
        if *tile == TileType::Wall && *pos != goal {
            assert_eq!(value, None);
        } else {
            assert!(value.is_some());
        }
    }
}

fn connected(size: u32, seed_value: u64, config: &Config) -> Caves {
    let mut rng = StdRng::seed_from_u64(seed_value);
    let mut caves = Caves::new(UVec2 { x: size, y: size });
    seed(&mut caves, config, &mut rng);
    connect(&mut caves, config);
    caves
}

#[test]
fn a_job_is_handed_out_once_and_applied_when_it_comes_back() {
    let config = caves_plugin();
    let mut rng = StdRng::seed_from_u64(21);
    let mut caves = connected(32, 3, &config);
    let job = submit(&mut caves).unwrap();
    assert_eq!(caves.stage(), Phase::Connected);
    // no second job while one is out
    assert!(submit(&mut caves).is_none());
    // nothing has come back yet: asking does not wait and changes nothing
    assert!(poll(&mut caves, None).is_none());
    assert_eq!(caves.stage(), Phase::Connected);
    finish(&mut caves);
    assert_eq!(caves.stage(), Phase::Connected);
    let done = job.run(&config, &mut rng);
    let tiles = poll(&mut caves, Some(done)).unwrap();
    assert_eq!(tiles.0.len(), 32 * 32);
    assert_eq!(caves.stage(), Phase::Rasterized);
    finish(&mut caves);
    assert_eq!(caves.stage(), Phase::Finished);
    assert!(submit(&mut caves).is_none());
}

#[test]
fn what_comes_back_after_a_regeneration_is_dropped() {
    let config = caves_plugin();
    let mut rng = StdRng::seed_from_u64(22);
    let mut caves = connected(32, 3, &config);
    let stale = submit(&mut caves).unwrap();
    regen(Regen, &mut caves);
    assert_eq!(caves.stage(), Phase::Created);
    seed(&mut caves, &config, &mut rng);
    connect(&mut caves, &config);
    // the instance waits for nothing, so what comes back is dropped
    assert!(poll(&mut caves, Some(stale.run(&config, &mut rng))).is_none());
    assert_eq!(caves.stage(), Phase::Connected);
    // even while a job of the new cycle is out, one of the old is dropped
    let stale = {
        let mut other = connected(32, 3, &config);
        submit(&mut other).unwrap()
    };
    regen(Regen, &mut caves);
    seed(&mut caves, &config, &mut rng);
    connect(&mut caves, &config);
    let fresh = submit(&mut caves).unwrap();
    assert!(poll(&mut caves, Some(stale.run(&config, &mut rng))).is_none());
    assert_eq!(caves.stage(), Phase::Connected);
    assert!(poll(&mut caves, Some(fresh.run(&config, &mut rng))).is_some());
    assert_eq!(caves.stage(), Phase::Rasterized);
}

#[test]
fn jobs_are_handed_out_by_connected_instances_only() {
    let config = caves_plugin();
    let mut rng = StdRng::seed_from_u64(23);
    let mut caves = Caves::new(UVec2 { x: 16, y: 16 });
    assert!(submit(&mut caves).is_none());
    seed(&mut caves, &config, &mut rng);
    assert!(submit(&mut caves).is_none());
    connect(&mut caves, &config);
    let job = submit(&mut caves).unwrap();
    // painting at once moves on; what the job brings back is then dropped
    assert!(populate_tiles(&mut caves, &config, &mut rng).is_some());
    assert!(poll(&mut caves, Some(job.run(&config, &mut rng))).is_none());
    assert_eq!(caves.stage(), Phase::Rasterized);
    assert!(submit(&mut caves).is_none());
}

#[test]
fn a_job_paints_what_the_instance_would() {
    // without jitter and with the same graph, the job and the instance
    // itself give the same tiles
    let config = Config { tunnel_angle: 0, ..caves_plugin() };
    let mut rng = StdRng::seed_from_u64(24);
    let mut here = connected(32, 5, &config);
    let mut there = connected(32, 5, &config);
    let at_once = populate_tiles(&mut here, &config, &mut rng).unwrap();
    let job = submit(&mut there).unwrap();
    let later = poll(&mut there, Some(job.run(&config, &mut rng))).unwrap();
    assert_eq!(at_once.0, later.0);
}

#[test]
fn a_query_finds_the_near_points_and_no_others() {
    let mut rng = StdRng::seed_from_u64(77);
    let leaves = procy::partition::random_bsp(UVec2 { x: 64, y: 64 }, &caves_plugin(), &mut rng);
    let points: Vec<IVec2> =
        leaves.iter().map(|r| procy::partition::leaf_node(r).position).collect();
    for cell_size in [1, 7, 64, 1000] {
        let mut index = SpatialIndex::new(cell_size, UVec2 { x: 64, y: 64 });
        for p in points.iter() {
            index.insert(*p);
        }
        for (center, radius) in [
            (IVec2 { x: 32, y: 32 }, 9u32),
            (IVec2 { x: 0, y: 0 }, 20),
            (IVec2 { x: 63, y: 5 }, 1),
            (IVec2 { x: -10, y: 70 }, 30),
            (IVec2 { x: 10, y: 10 }, 0),
            (IVec2 { x: 40, y: 20 }, 200),
        ] {
            let mut found = index.query_around(center, radius);
            found.sort();
            let near: Vec<usize> = (0..points.len())
                .filter(|j| {
                    let dx = (points[*j].x - center.x) as i64;
                    let dy = (points[*j].y - center.y) as i64;
                    dx * dx + dy * dy < (radius as i64) * (radius as i64)
                })
                .collect();
            assert_eq!(found, near);
        }
    }
}

#[test]
fn a_cave_of_full_size_is_built_and_its_field_computed() {
    let config = caves_plugin();
    let caves = built(256, 1, &config);
    let nodes = caves.node_weights().unwrap();
    assert!(nodes.len() > 1000);
    let mut rng = StdRng::seed_from_u64(1);
    let mut again = Caves::new(UVec2 { x: 256, y: 256 });
    seed(&mut again, &config, &mut rng);
    connect(&mut again, &config);
    let tiles = populate_tiles(&mut again, &config, &mut rng).unwrap();
    finish(&mut again);
    assert_eq!(tiles.0.len(), 256 * 256);
    let map = terrain_plugin();
    let mut grid = TileGrid::new(map.size, &map);
    set_tile_textures(&mut grid, &tiles, &map);
    let (mut dmap, _) = insert_dmap(&again, 0, 0, false).unwrap();
    assert_eq!(dmap.dimensions(), (256, 256));
    let goal = TilePos { x: nodes[0].position.x as u32, y: nodes[0].position.y as u32 };
    assert_ne!(update_dmap(&mut dmap, &grid, &vec![Goal(goal)]), Recompute::Skipped);
    assert_eq!(dmap.get(nodes[0].position), Some(0));
}
