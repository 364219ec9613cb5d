use procy::geometry::{IVec2, UVec2};
use procy::terrain::{
    set_tile_textures, set_tilemap_collider, terrain_plugin, MapConfig, SetTiles, Tile, TileGrid,
    TilePos, TileType, FLOOR, WALL,
};

#[test]
fn the_terrain_starts_with_its_map() {
    let map = terrain_plugin();
    assert!(map.is_valid());
    assert_eq!(
        map,
        MapConfig {
            floor_idx: 35,
            wall_idx: 72,
            size: UVec2 { x: 256, y: 256 },
            tile_size: UVec2 { x: 12, y: 12 },
            grid_size: UVec2 { x: 12, y: 12 },
        }
    );
    assert_eq!((FLOOR, WALL), (35, 72));
    assert!(!MapConfig { grid_size: UVec2 { x: 0, y: 12 }, ..map }.is_valid());
    assert!(!MapConfig { tile_size: UVec2 { x: 12, y: 4097 }, ..map }.is_valid());
    assert!(!MapConfig { size: UVec2 { x: 4097, y: 1 }, ..map }.is_valid());
}

#[test]
fn world_points_fall_on_the_tiles_around_them() {
    let map = terrain_plugin();
    // half the map and half a tile: 256 * 12 / 2 + 6
    let off = 1542;
    let at = |x: i32, y: i32| map.world_to_tile(IVec2 { x, y });
    assert_eq!(at(-off, -off), Some(TilePos { x: 0, y: 0 }));
    assert_eq!(at(0, 0), Some(TilePos { x: 129, y: 129 }));
    // a tile's cell reaches half a grid step to either side, the lower
    // edge included
    assert_eq!(at(-off - 6, -off + 5), Some(TilePos { x: 0, y: 0 }));
    assert_eq!(at(-off - 7, -off), None);
    assert_eq!(at(-off, -off - 7), None);
    assert_eq!(at(-off + 6, -off), Some(TilePos { x: 1, y: 0 }));
    assert_eq!(at(12 * 255 - off + 5, 0), Some(TilePos { x: 255, y: 129 }));
    assert_eq!(at(12 * 255 - off + 6, 0), None);
    assert_eq!(at(i32::MIN, 0), None);
    assert_eq!(at(0, i32::MAX), None);
}

#[test]
fn tiles_lie_where_the_world_finds_them() {
    let map = terrain_plugin();
    assert_eq!(map.tile_to_world(TilePos { x: 0, y: 0 }), IVec2 { x: -1542, y: -1542 });
    assert_eq!(map.tile_to_world(TilePos { x: 129, y: 128 }), IVec2 { x: 6, y: -6 });
    assert_eq!(map.tile_to_world(TilePos { x: 255, y: 255 }), IVec2 { x: 1518, y: 1518 });
    let odd = MapConfig {
        size: UVec2 { x: 5, y: 3 },
        tile_size: UVec2 { x: 7, y: 9 },
        grid_size: UVec2 { x: 4, y: 11 },
        ..map
    };
    for x in 0..5 {
        for y in 0..3 {
            let pos = TilePos { x, y };
            assert_eq!(odd.world_to_tile(odd.tile_to_world(pos)), Some(pos));
        }
    }
    for x in [0, 17, 255] {
        for y in [0, 100, 255] {
            let pos = TilePos { x, y };
            assert_eq!(map.world_to_tile(map.tile_to_world(pos)), Some(pos));
        }
    }
}

#[test]
fn a_new_grid_is_all_wall() {
    let map = terrain_plugin();
    let grid = TileGrid::new(UVec2 { x: 3, y: 2 }, &map);
    assert_eq!(grid.dimensions(), UVec2 { x: 3, y: 2 });
    for x in 0..3 {
        for y in 0..2 {
            assert_eq!(
                grid.get(TilePos { x, y }),
                Some(Tile { texture_index: 72, tile_type: TileType::Wall })
            );
        }
    }
    assert_eq!(grid.get(TilePos { x: 3, y: 0 }), None);
    assert_eq!(grid.get(TilePos { x: 0, y: 2 }), None);
}

#[test]
fn tile_states_are_applied_in_order() {
    let map = terrain_plugin();
    let mut grid = TileGrid::new(UVec2 { x: 3, y: 2 }, &map);
    let changes = vec![
        (TilePos { x: 1, y: 0 }, TileType::Floor),
        (TilePos { x: 2, y: 1 }, TileType::Floor),
        (TilePos { x: 9, y: 9 }, TileType::Floor),
        (TilePos { x: 3, y: 0 }, TileType::Floor),
        (TilePos { x: 2, y: 1 }, TileType::Wall),
        (TilePos { x: 0, y: 1 }, TileType::Wall),
        (TilePos { x: 0, y: 0 }, TileType::Floor),
        (TilePos { x: 0, y: 0 }, TileType::Floor),
    ];
    set_tile_textures(&mut grid, &SetTiles(changes), &map);
    let floor = Some(Tile { texture_index: 35, tile_type: TileType::Floor });
    let wall = Some(Tile { texture_index: 72, tile_type: TileType::Wall });
    assert_eq!(grid.get(TilePos { x: 0, y: 0 }), floor);
    assert_eq!(grid.get(TilePos { x: 1, y: 0 }), floor);
    assert_eq!(grid.get(TilePos { x: 2, y: 0 }), wall);
    assert_eq!(grid.get(TilePos { x: 0, y: 1 }), wall);
    assert_eq!(grid.get(TilePos { x: 1, y: 1 }), wall);
    assert_eq!(grid.get(TilePos { x: 2, y: 1 }), wall);
    let other = MapConfig { floor_idx: 1, wall_idx: 2, ..map };
    set_tile_textures(
        &mut grid,
        &SetTiles(vec![(TilePos { x: 2, y: 1 }, TileType::Floor)]),
        &other,
    );
    assert_eq!(
        grid.get(TilePos { x: 2, y: 1 }),
        Some(Tile { texture_index: 1, tile_type: TileType::Floor })
    );
}

#[test]
fn walls_get_colliders_and_floor_gets_none() {
    let map = terrain_plugin();
    let event = SetTiles(vec![
        (TilePos { x: 0, y: 0 }, TileType::Wall),
        (TilePos { x: 1, y: 0 }, TileType::Floor),
        (TilePos { x: 2, y: 3 }, TileType::Wall),
        (TilePos { x: 255, y: 255 }, TileType::Wall),
        (TilePos { x: 7, y: 7 }, TileType::Floor),
    ]);
    assert_eq!(set_tilemap_collider(&event, &map), vec![(0, 0), (24, 36), (3060, 3060)]);
    assert_eq!(set_tilemap_collider(&SetTiles(Vec::new()), &map), Vec::new());
    let wide = MapConfig { tile_size: UVec2 { x: u32::MAX, y: 1 }, ..map };
    let far = SetTiles(vec![(TilePos { x: u32::MAX, y: 5 }, TileType::Wall)]);
    assert_eq!(set_tilemap_collider(&far, &wide), vec![(18446744065119617025, 5)]);
}
