use procy::creature::{pathfind, PathfindDir, Steering, Wing, FULL_PULL};
use procy::geometry::{IVec2, UVec2};
use procy::pathfinding::{update_dmap, DMap, Goal, UpdateDMap};
use procy::sound::sound_plugin;
use procy::spawn_tool::{
    mark_goal, send_update_dmap, spawn_at, spawn_tool_plugin, Action, Ball, Bat, Cooldown, Spawn,
    Tool, SPAWN_COOLDOWN,
};
use procy::terrain::{
    set_tile_textures, terrain_plugin, MapConfig, SetTiles, TileGrid, TilePos, TileType,
};

fn small_map(width: u32, height: u32) -> MapConfig {
    MapConfig { size: UVec2 { x: width, y: height }, ..terrain_plugin() }
}

fn open_field(width: u32, height: u32, goals: &Vec<Goal>) -> DMap {
    let map = small_map(width, height);
    let mut grid = TileGrid::new(map.size, &map);
    let mut changes = Vec::new();
    for x in 0..width {
        for y in 0..height {
            changes.push((TilePos { x, y }, TileType::Floor));
        }
    }
    set_tile_textures(&mut grid, &SetTiles(changes), &map);
    let mut dmap = DMap::new(width as usize, height as usize, 0);
    update_dmap(&mut dmap, &grid, goals);
    dmap
}

#[test]
fn an_agent_heads_for_the_lowest_tile_around_it() {
    let map = small_map(8, 8);
    let dmap = open_field(8, 8, &vec![Goal(TilePos { x: 0, y: 0 })]);
    // at tile (3, 3): the corner (2, 2) holds 4, less than any other
    let here = map.tile_to_world(TilePos { x: 3, y: 3 });
    assert_eq!(here, IVec2 { x: -18, y: -18 });
    assert_eq!(
        pathfind(here, &dmap, &map),
        Some(Steering { dir: PathfindDir(IVec2 { x: -12, y: -12 }), pull: 4 })
    );
    // off the tile's centre the way is from where the agent is
    assert_eq!(
        pathfind(IVec2 { x: -15, y: -20 }, &dmap, &map),
        Some(Steering { dir: PathfindDir(IVec2 { x: -15, y: -10 }), pull: 4 })
    );
    // on the goal the agent stays: its own tile is the lowest
    let goal = map.tile_to_world(TilePos { x: 0, y: 0 });
    assert_eq!(
        pathfind(goal, &dmap, &map),
        Some(Steering { dir: PathfindDir(IVec2 { x: 0, y: 0 }), pull: 0 })
    );
    // off the map there is no steering
    assert_eq!(pathfind(IVec2 { x: 1000, y: 0 }, &dmap, &map), None);
}

#[test]
fn of_equal_tiles_the_first_looked_at_is_taken() {
    let map = small_map(8, 8);
    // two goals at equal distance to either side of (4, 4)
    let dmap = open_field(
        8,
        8,
        &vec![Goal(TilePos { x: 2, y: 4 }), Goal(TilePos { x: 6, y: 4 })],
    );
    let here = map.tile_to_world(TilePos { x: 4, y: 4 });
    // right is looked at before left
    assert_eq!(
        pathfind(here, &dmap, &map),
        Some(Steering { dir: PathfindDir(IVec2 { x: 12, y: 0 }), pull: 1 })
    );
    // goals above and below: up (y + 1) is looked at before down
    let dmap = open_field(
        8,
        8,
        &vec![Goal(TilePos { x: 4, y: 2 }), Goal(TilePos { x: 4, y: 6 })],
    );
    assert_eq!(
        pathfind(here, &dmap, &map),
        Some(Steering { dir: PathfindDir(IVec2 { x: 0, y: 12 }), pull: 1 })
    );
}

#[test]
fn the_pull_is_capped() {
    let map = small_map(80, 1);
    let dmap = open_field(80, 1, &vec![Goal(TilePos { x: 0, y: 0 })]);
    let far = map.tile_to_world(TilePos { x: 70, y: 0 });
    assert_eq!(
        pathfind(far, &dmap, &map),
        Some(Steering { dir: PathfindDir(IVec2 { x: -12, y: 0 }), pull: FULL_PULL })
    );
    let near = map.tile_to_world(TilePos { x: 51, y: 0 });
    assert_eq!(pathfind(near, &dmap, &map).unwrap().pull, 50);
    let nearer = map.tile_to_world(TilePos { x: 50, y: 0 });
    assert_eq!(pathfind(nearer, &dmap, &map).unwrap().pull, 49);
}

#[test]
fn an_unseeded_field_steers_nowhere() {
    let map = small_map(4, 4);
    let dmap = DMap::new(4, 4, 0);
    assert_eq!(pathfind(map.tile_to_world(TilePos { x: 1, y: 1 }), &dmap, &map), None);
}

#[test]
fn the_goal_tool_marks_the_tile_under_the_pointer() {
    let map = terrain_plugin();
    let mut goals = Vec::new();
    let pointer = IVec2 { x: 0, y: 0 };
    assert_eq!(mark_goal(Tool::Ball, true, pointer, &map, &mut goals), None);
    assert_eq!(mark_goal(Tool::Bat, true, pointer, &map, &mut goals), None);
    assert_eq!(mark_goal(Tool::Goal, false, pointer, &map, &mut goals), None);
    assert!(goals.is_empty());
    let tile = TilePos { x: 129, y: 129 };
    assert_eq!(mark_goal(Tool::Goal, true, pointer, &map, &mut goals), Some(tile));
    assert_eq!(goals, vec![Goal(tile)]);
    // marking a goal again leaves one goal
    assert_eq!(mark_goal(Tool::Goal, true, IVec2 { x: 3, y: 2 }, &map, &mut goals), Some(tile));
    assert_eq!(goals, vec![Goal(tile)]);
    // off the map nothing is marked
    assert_eq!(mark_goal(Tool::Goal, true, IVec2 { x: 5000, y: 0 }, &map, &mut goals), None);
    assert_eq!(goals, vec![Goal(tile)]);
    let other = TilePos { x: 0, y: 255 };
    let there = map.tile_to_world(other);
    assert_eq!(mark_goal(Tool::Goal, true, there, &map, &mut goals), Some(other));
    assert_eq!(goals, vec![Goal(tile), Goal(other)]);
}

#[test]
fn marking_a_goal_asks_for_the_field_to_be_recomputed() {
    assert_eq!(send_update_dmap(Tool::Goal, true, 42), Some(UpdateDMap(42)));
    assert_eq!(send_update_dmap(Tool::Goal, false, 42), None);
    assert_eq!(send_update_dmap(Tool::Ball, true, 42), None);
    assert_eq!(send_update_dmap(Tool::Bat, true, 42), None);
}

#[test]
fn the_pointer_drops_what_its_tool_says() {
    assert_eq!(spawn_tool_plugin(), Tool::Ball);
    assert_eq!(Tool::default(), Tool::Ball);
    for (tool, spawn) in [
        (Tool::Ball, Some(Spawn::Ball(Ball))),
        (Tool::Bat, Some(Spawn::Bat(Bat))),
        (Tool::Goal, None),
    ] {
        let mut timer = Cooldown::new();
        assert!(timer.finished());
        assert_eq!(spawn_at(tool, true, &mut timer, 16_000), spawn);
        // the cooldown has started, also for the goal tool
        assert_eq!(timer, Cooldown { remaining: SPAWN_COOLDOWN });
        let mut idle = Cooldown::new();
        assert_eq!(spawn_at(tool, false, &mut idle, 16_000), None);
        assert_eq!(idle, Cooldown::new());
    }
    assert_eq!(SPAWN_COOLDOWN, 100_000);
    assert_eq!(Action::SpawnAt, Action::SpawnAt);
}

#[test]
fn drops_are_a_cooldown_apart() {
    let mut timer = Cooldown::new();
    assert_eq!(spawn_at(Tool::Ball, true, &mut timer, 0), Some(Spawn::Ball(Ball)));
    // held down, the next drop comes when a tenth of a second has passed
    let mut drops = 0;
    let mut waited = 0;
    while drops == 0 {
        waited += 16_000;
        if spawn_at(Tool::Ball, true, &mut timer, 16_000).is_some() {
            drops += 1;
        }
    }
    assert_eq!(waited, 112_000);
    assert_eq!(timer.remaining, SPAWN_COOLDOWN);
    // released, the cooldown runs out and stays over
    assert_eq!(spawn_at(Tool::Ball, false, &mut timer, 99_999), None);
    assert_eq!(timer.remaining, 1);
    assert!(!timer.finished());
    assert_eq!(spawn_at(Tool::Ball, false, &mut timer, u64::MAX), None);
    assert!(timer.finished());
    timer.tick(5);
    assert!(timer.finished());
    assert_eq!(spawn_at(Tool::Bat, true, &mut timer, 0), Some(Spawn::Bat(Bat)));
    // exactly at the end the cooldown is over
    assert_eq!(spawn_at(Tool::Bat, true, &mut timer, 99_999), None);
    assert_eq!(spawn_at(Tool::Bat, true, &mut timer, 1), Some(Spawn::Bat(Bat)));
}

#[test]
fn wings_lift_in_opposite_senses() {
    assert_eq!(Wing::Left.sign(), -1);
    assert_eq!(Wing::Right.sign(), 1);
}

#[test]
fn sound_starts_with_three_bounces() {
    assert_eq!(sound_plugin().bounces, 3);
}

#[test]
fn unreached_floor_does_not_steer() {
    // a wall between the agent and the goal: the floor around the agent
    // is never reached
    let map = small_map(5, 1);
    let mut grid = TileGrid::new(map.size, &map);
    let changes = vec![
        (TilePos { x: 0, y: 0 }, TileType::Floor),
        (TilePos { x: 1, y: 0 }, TileType::Floor),
        (TilePos { x: 3, y: 0 }, TileType::Floor),
        (TilePos { x: 4, y: 0 }, TileType::Floor),
    ];
    set_tile_textures(&mut grid, &SetTiles(changes), &map);
    let mut dmap = DMap::new(5, 1, 0);
    update_dmap(&mut dmap, &grid, &vec![Goal(TilePos { x: 0, y: 0 })]);
    assert_eq!(pathfind(map.tile_to_world(TilePos { x: 4, y: 0 }), &dmap, &map), None);
    assert_eq!(
        pathfind(map.tile_to_world(TilePos { x: 1, y: 0 }), &dmap, &map),
        Some(Steering { dir: PathfindDir(IVec2 { x: -12, y: 0 }), pull: 0 })
    );
}
