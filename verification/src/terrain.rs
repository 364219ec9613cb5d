//! The tile grid: walls and floor, and where its tiles lie in the world.

use crate::geometry::{IVec2, UVec2, MAX_SIDE};
use vstd::prelude::*;

verus! {

/// Texture of a floor tile in the tile set.
pub const FLOOR: u32 = 35;

/// Texture of a wall tile in the tile set.
pub const WALL: u32 = 72;

/// A tile is impassable wall or open floor.
#[derive(Clone, Copy, Debug, PartialEq, Eq, Structural)]
pub enum TileType {
    Wall,
    Floor,
}

/// The coordinate of a tile in its grid.
#[derive(Clone, Copy, Debug, PartialEq, Eq, Structural)]
pub struct TilePos {
    pub x: u32,
    pub y: u32,
}

/// A batch of tile states for the tile store to apply, in order.
#[derive(Debug)]
pub struct SetTiles(pub Vec<(TilePos, TileType)>);

/// What the tile store holds of one tile.
#[derive(Clone, Copy, Debug, PartialEq, Eq, Structural)]
pub struct Tile {
    pub texture_index: u32,
    pub tile_type: TileType,
}

/// How the tile map is laid out: which textures stand for floor and wall, how
/// many tiles it has, and how large a tile and a grid step are in world
/// units.
#[derive(Clone, Copy, Debug, PartialEq, Eq, Structural)]
pub struct MapConfig {
    pub floor_idx: u32,
    pub wall_idx: u32,
    pub size: UVec2,
    pub tile_size: UVec2,
    pub grid_size: UVec2,
}

impl MapConfig {
    /// The map is no larger than the largest region, and tiles and grid
    /// steps are between one and `MAX_SIDE` world units.
    pub open spec fn valid(&self) -> bool {
        &&& self.size.x <= MAX_SIDE && self.size.y <= MAX_SIDE
        &&& 0 < self.tile_size.x <= MAX_SIDE && 0 < self.tile_size.y <= MAX_SIDE
        &&& 0 < self.grid_size.x <= MAX_SIDE && 0 < self.grid_size.y <= MAX_SIDE
    }

    /// Tests [`MapConfig::valid`].
    pub fn is_valid(&self) -> (ok: bool)
        ensures
            ok == self.valid(),
    {
        self.size.x <= MAX_SIDE && self.size.y <= MAX_SIDE && 0 < self.tile_size.x
            && self.tile_size.x <= MAX_SIDE && 0 < self.tile_size.y && self.tile_size.y
            <= MAX_SIDE && 0 < self.grid_size.x && self.grid_size.x <= MAX_SIDE && 0
            < self.grid_size.y && self.grid_size.y <= MAX_SIDE
    }

    /// Whether the map has the tile.
    pub open spec fn has(&self, pos: TilePos) -> bool {
        pos.x < self.size.x && pos.y < self.size.y
    }

    /// The world is centred on the map: half the map and half a tile lie
    /// between the world's origin and the centre of tile `(0, 0)`, halves
    /// rounded down.
    pub open spec fn offset(&self) -> (int, int) {
        (
            (self.size.x * self.tile_size.x) / 2 + self.tile_size.x / 2,
            (self.size.y * self.tile_size.y) / 2 + self.tile_size.y / 2,
        )
    }

    /// The tile whose cell holds the world point, if the map has it. A tile's
    /// cell is one grid step wide and high around its centre, its lower edges
    /// included.
    pub open spec fn tile_under(&self, pos: IVec2) -> Option<TilePos> {
        let x = (2 * (pos.x + self.offset().0) + self.grid_size.x) / (2 * self.grid_size.x);
        let y = (2 * (pos.y + self.offset().1) + self.grid_size.y) / (2 * self.grid_size.y);
        if 0 <= x < self.size.x && 0 <= y < self.size.y {
            Some(TilePos { x: x as u32, y: y as u32 })
        } else {
            None
        }
    }

    /// The world point at the centre of a tile.
    pub open spec fn center_of(&self, pos: TilePos) -> IVec2 {
        IVec2 {
            x: (self.grid_size.x * pos.x - self.offset().0) as i32,
            y: (self.grid_size.y * pos.y - self.offset().1) as i32,
        }
    }

    fn offsets(&self) -> (off: (i64, i64))
        requires
            self.valid(),
        ensures
            off.0 == self.offset().0,
            off.1 == self.offset().1,
            0 <= off.0 <= 4096 * 4096,
            0 <= off.1 <= 4096 * 4096,
    {
        let w: i64 = self.size.x as i64;
        let h: i64 = self.size.y as i64;
        let tx: i64 = self.tile_size.x as i64;
        let ty: i64 = self.tile_size.y as i64;
        assert(0 <= w * tx <= 4096 * 4096 && 0 <= h * ty <= 4096 * 4096) by (nonlinear_arith)
            requires
                0 <= w <= 4096,
                0 <= h <= 4096,
                0 <= tx <= 4096,
                0 <= ty <= 4096,
        ;
        (w * tx / 2 + tx / 2, h * ty / 2 + ty / 2)
    }

    /// Finds the tile under a world point; `None` where the map has none
    /// there.
    pub fn world_to_tile(&self, pos: IVec2) -> (tile: Option<TilePos>)
        requires
            self.valid(),
        ensures
            tile == self.tile_under(pos),
            tile matches Some(t) ==> self.has(t),
    {
        let off: (i64, i64) = self.offsets();
        let gx: i64 = self.grid_size.x as i64;
        let gy: i64 = self.grid_size.y as i64;
        let nx: i64 = 2 * (pos.x as i64 + off.0) + gx;
        let ny: i64 = 2 * (pos.y as i64 + off.1) + gy;
        if nx < 0 || ny < 0 {
            proof {
                assert(nx < 0 ==> (nx as int) / (2 * gx) < 0) by (nonlinear_arith)
                    requires
                        gx > 0,
                ;
                assert(ny < 0 ==> (ny as int) / (2 * gy) < 0) by (nonlinear_arith)
                    requires
                        gy > 0,
                ;
            }
            return None;
        }
        let x: i64 = nx / (2 * gx);
        let y: i64 = ny / (2 * gy);
        if x < self.size.x as i64 && y < self.size.y as i64 {
            Some(TilePos { x: x as u32, y: y as u32 })
        } else {
            None
        }
    }

    /// The world point at the centre of a tile of the map. The tile under
    /// that point is the tile again.
    pub fn tile_to_world(&self, pos: TilePos) -> (world: IVec2)
        requires
            self.valid(),
            self.has(pos),
        ensures
            world == self.center_of(pos),
            self.tile_under(world) == Some(pos),
    {
        let off: (i64, i64) = self.offsets();
        let gx: i64 = self.grid_size.x as i64;
        let gy: i64 = self.grid_size.y as i64;
        let px: i64 = pos.x as i64;
        let py: i64 = pos.y as i64;
        assert(0 <= gx * px <= 4096 * 4096 && 0 <= gy * py <= 4096 * 4096) by (nonlinear_arith)
            requires
                0 <= gx <= 4096,
                0 <= gy <= 4096,
                0 <= px <= 4096,
                0 <= py <= 4096,
        ;
        let x: i64 = gx * px - off.0;
        let y: i64 = gy * py - off.1;
        proof {
            lemma_center_cell(gx as int, px as int);
            lemma_center_cell(gy as int, py as int);
        }
        IVec2 { x: x as i32, y: y as i32 }
    }
}

/// The centre of cell number `n` of a row of cells of width `step` lies in
/// that cell.
proof fn lemma_center_cell(step: int, n: int)
    requires
        step > 0,
        n >= 0,
    ensures
        (2 * (step * n) + step) / (2 * step) == n,
{
    assert((2 * (step * n) + step) / (2 * step) == n) by (nonlinear_arith)
        requires
            step > 0,
            n >= 0,
    ;
}

/// The map that the terrain starts with: 256 by 256 tiles of 12 world units,
/// textures 35 for floor and 72 for wall.
pub fn terrain_plugin() -> (config: MapConfig)
    ensures
        config.valid(),
        config.floor_idx == FLOOR,
        config.wall_idx == WALL,
        config.size == (UVec2 { x: 256, y: 256 }),
        config.tile_size == (UVec2 { x: 12, y: 12 }),
        config.grid_size == (UVec2 { x: 12, y: 12 }),
{
    MapConfig {
        floor_idx: FLOOR,
        wall_idx: WALL,
        size: UVec2 { x: 256, y: 256 },
        tile_size: UVec2 { x: 12, y: 12 },
        grid_size: UVec2 { x: 12, y: 12 },
    }
}

/// The tile store: a grid of tiles of fixed size, row by row.
pub struct TileGrid {
    size: UVec2,
    tiles: Vec<Tile>,
}

/// The tile that a state becomes in the store.
pub open spec fn tile_for(tile_type: TileType, config: MapConfig) -> Tile {
    Tile {
        texture_index: match tile_type {
            TileType::Floor => config.floor_idx,
            TileType::Wall => config.wall_idx,
        },
        tile_type,
    }
}

/// The tiles of a grid of the given size after one change: the tile at the
/// position takes the state; a position outside the grid changes nothing.
pub open spec fn changed(
    tiles: Seq<Tile>,
    size: UVec2,
    change: (TilePos, TileType),
    config: MapConfig,
) -> Seq<Tile> {
    if change.0.x < size.x && change.0.y < size.y {
        tiles.update(change.0.y * size.x + change.0.x, tile_for(change.1, config))
    } else {
        tiles
    }
}

/// The tiles after the changes have been applied one after the other.
pub open spec fn changed_all(
    tiles: Seq<Tile>,
    size: UVec2,
    changes: Seq<(TilePos, TileType)>,
    config: MapConfig,
) -> Seq<Tile>
    decreases changes.len(),
{
    if changes.len() == 0 {
        tiles
    } else {
        changed(changed_all(tiles, size, changes.drop_last(), config), size, changes.last(), config)
    }
}

impl TileGrid {
    /// The tiles row by row: the tile `(x, y)` stands at `y * width + x`.
    pub closed spec fn view(&self) -> Seq<Tile> {
        self.tiles@
    }

    /// How many tiles the grid has along each axis.
    pub closed spec fn size(&self) -> UVec2 {
        self.size
    }

    /// The grid is no larger than the largest region and holds one tile for
    /// each position.
    pub open spec fn wf(&self) -> bool {
        &&& self.size().x <= MAX_SIDE
        &&& self.size().y <= MAX_SIDE
        &&& self@.len() == self.size().x * self.size().y
    }

    /// The state of the tile `(x, y)`.
    pub open spec fn type_at(&self, x: int, y: int) -> TileType {
        self@[y * self.size().x + x].tile_type
    }

    /// A grid of walls.
    pub fn new(size: UVec2, config: &MapConfig) -> (grid: TileGrid)
        requires
            size.x <= MAX_SIDE,
            size.y <= MAX_SIDE,
        ensures
            grid.wf(),
            grid.size() == size,
            grid@ == Seq::new(
                (size.x * size.y) as nat,
                |i: int| tile_for(TileType::Wall, *config),
            ),
    {
        assert(size.x * size.y <= 4096 * 4096) by (nonlinear_arith)
            requires
                0 <= size.x <= 4096,
                0 <= size.y <= 4096,
        ;
        let count: usize = (size.x * size.y) as usize;
        let wall: Tile = Tile { texture_index: config.wall_idx, tile_type: TileType::Wall };
        let mut tiles: Vec<Tile> = Vec::new();
        let mut i: usize = 0;
        while i < count
            invariant
                i <= count,
                tiles.len() == i,
                forall|k: int| 0 <= k < i ==> #[trigger] tiles[k] == wall,
            decreases count - i,
        {
            tiles.push(wall);
            i = i + 1;
        }
        assert(tiles@ =~= Seq::new(
            (size.x * size.y) as nat,
            |i: int| tile_for(TileType::Wall, *config),
        ));
        TileGrid { size, tiles }
    }

    /// The grid's extent.
    pub fn dimensions(&self) -> (size: UVec2)
        ensures
            size == self.size(),
    {
        self.size
    }

    /// The tile at a position; `None` outside the grid.
    pub fn get(&self, pos: TilePos) -> (tile: Option<Tile>)
        requires
            self.wf(),
        ensures
            tile == if pos.x < self.size().x && pos.y < self.size().y {
                Some(self@[pos.y * self.size().x + pos.x])
            } else {
                None
            },
    {
        if pos.x < self.size.x && pos.y < self.size.y {
            let i: usize = self.index_of(pos);
            Some(self.tiles[i])
        } else {
            None
        }
    }

    fn index_of(&self, pos: TilePos) -> (i: usize)
        requires
            self.wf(),
            pos.x < self.size().x,
            pos.y < self.size().y,
        ensures
            i == pos.y * self.size().x + pos.x,
            i < self@.len(),
    {
        assert(pos.y * self.size.x + pos.x < self.size.x * self.size.y && self.size.x
            * self.size.y <= 4096 * 4096 && pos.y * self.size.x >= 0) by (nonlinear_arith)
            requires
                0 <= pos.x < self.size.x <= 4096,
                0 <= pos.y < self.size.y <= 4096,
        ;
        (pos.y * self.size.x + pos.x) as usize
    }
}

/// Applies a batch of tile states to the store, in order: each tile named
/// takes the state given and the texture that goes with it.
pub fn set_tile_textures(grid: &mut TileGrid, event: &SetTiles, config: &MapConfig)
    requires
        old(grid).wf(),
    ensures
        final(grid).wf(),
        final(grid).size() == old(grid).size(),
        final(grid)@ == changed_all(old(grid)@, old(grid).size(), event.0@, *config),
{
    let ghost start = grid@;
    let size: UVec2 = grid.size;
    let mut i: usize = 0;
    assert(event.0@.take(0) =~= Seq::<(TilePos, TileType)>::empty());
    while i < event.0.len()
        invariant
            i <= event.0.len(),
            grid.wf(),
            grid.size() == size,
            grid@ == changed_all(start, size, event.0@.take(i as int), *config),
        decreases event.0.len() - i,
    {
        let change: (TilePos, TileType) = event.0[i];
        if change.0.x < size.x && change.0.y < size.y {
            let at: usize = grid.index_of(change.0);
            let tile: Tile = Tile {
                texture_index: match change.1 {
                    TileType::Floor => config.floor_idx,
                    TileType::Wall => config.wall_idx,
                },
                tile_type: change.1,
            };
            grid.tiles.set(at, tile);
        }
        proof {
            assert(event.0@.take(i + 1).drop_last() =~= event.0@.take(i as int));
            assert(event.0@.take(i + 1).last() == change);
        }
        i = i + 1;
    }
    assert(event.0@.take(event.0.len() as int) =~= event.0@);
}

/// Where the colliders of the walls of a batch stand: for each wall tile, in
/// the order of the batch, its position scaled by the size of a tile. Floor
/// has no collider.
pub open spec fn wall_anchors(changes: Seq<(TilePos, TileType)>, config: MapConfig) -> Seq<
    (u64, u64),
>
    decreases changes.len(),
{
    if changes.len() == 0 {
        Seq::empty()
    } else {
        let before = wall_anchors(changes.drop_last(), config);
        let (pos, tile) = changes.last();
        if tile == TileType::Wall {
            before.push(((pos.x * config.tile_size.x) as u64, (pos.y * config.tile_size.y) as u64))
        } else {
            before
        }
    }
}

/// Finds where the colliders of the walls of a batch of tile states stand.
pub fn set_tilemap_collider(event: &SetTiles, config: &MapConfig) -> (anchors: Vec<(u64, u64)>)
    ensures
        anchors@ == wall_anchors(event.0@, *config),
{
    let mut anchors: Vec<(u64, u64)> = Vec::new();
    let mut i: usize = 0;
    assert(event.0@.take(0) =~= Seq::<(TilePos, TileType)>::empty());
    while i < event.0.len()
        invariant
            i <= event.0.len(),
            anchors@ == wall_anchors(event.0@.take(i as int), *config),
        decreases event.0.len() - i,
    {
        let change: (TilePos, TileType) = event.0[i];
        proof {
            assert(event.0@.take(i + 1).drop_last() =~= event.0@.take(i as int));
            assert(event.0@.take(i + 1).last() == change);
        }
        match change.1 {
            TileType::Wall => {
                let x: u64 = change.0.x as u64;
                let y: u64 = change.0.y as u64;
                let w: u64 = config.tile_size.x as u64;
                let h: u64 = config.tile_size.y as u64;
                assert(x * w <= 0xffff_ffff * 0xffff_ffff && y * h <= 0xffff_ffff * 0xffff_ffff)
                    by (nonlinear_arith)
                    requires
                        0 <= x <= 0xffff_ffff,
                        0 <= y <= 0xffff_ffff,
                        0 <= w <= 0xffff_ffff,
                        0 <= h <= 0xffff_ffff,
                ;
                anchors.push((x * w, y * h));
            },
            TileType::Floor => {},
        }
        i = i + 1;
    }
    assert(event.0@.take(event.0.len() as int) =~= event.0@);
    anchors
}

} // verus!
