//! How an agent reads the flow field: it heads for the lowest tile near it.

use crate::geometry::{IVec2, MAX_SIDE};
use crate::pathfinding::{distance_at, Cells, DMap};
use crate::terrain::{MapConfig, TilePos};
use vstd::prelude::*;

verus! {

/// The distance from which the pull toward a goal is at its full strength.
pub const FULL_PULL: u32 = 50;

/// A wing of a bat.
#[derive(Clone, Copy, Debug, PartialEq, Eq, Structural)]
pub enum Wing {
    Left,
    Right,
}

impl Wing {
    /// The sense in which a wing's turning lifts: the left wing counts
    /// backwards.
    pub fn sign(self) -> (s: i32)
        ensures
            s == match self {
                Wing::Left => -1i32,
                Wing::Right => 1i32,
            },
    {
        match self {
            Wing::Left => -1,
            Wing::Right => 1,
        }
    }
}

/// The way an agent is steered: from where it is to the centre of the tile
/// it heads for, in world units.
#[derive(Clone, Copy, Debug, PartialEq, Eq, Structural)]
pub struct PathfindDir(pub IVec2);

/// Where to head and how hard: the pull is the distance still to go, capped
/// at [`FULL_PULL`].
#[derive(Clone, Copy, Debug, PartialEq, Eq, Structural)]
pub struct Steering {
    pub dir: PathfindDir,
    pub pull: u32,
}

/// The tiles that an agent looks at, as steps from its own, in the order in
/// which it looks: the four beside it, its own, the four at its corners.
pub open spec fn window_step(k: int) -> (int, int) {
    if k == 0 {
        (1, 0)
    } else if k == 1 {
        (-1, 0)
    } else if k == 2 {
        (0, 1)
    } else if k == 3 {
        (0, -1)
    } else if k == 4 {
        (0, 0)
    } else if k == 5 {
        (1, 1)
    } else if k == 6 {
        (-1, 1)
    } else if k == 7 {
        (1, -1)
    } else {
        (-1, -1)
    }
}

/// The lowest among the first `upto` tiles of the window around `(x, y)`
/// that tell a distance, and the first such if there are several: its
/// coordinate and its distance.
pub open spec fn lowest(cells: Cells, x: int, y: int, upto: nat) -> Option<(int, int, u32)>
    decreases upto,
{
    if upto == 0 {
        None
    } else {
        let before = lowest(cells, x, y, (upto - 1) as nat);
        let at = (x + window_step(upto - 1).0, y + window_step(upto - 1).1);
        match distance_at(cells, at.0, at.1) {
            None => before,
            Some(distance) => match before {
                Some(best) if best.2 <= distance => before,
                _ => Some((at.0, at.1, distance)),
            },
        }
    }
}

/// How an agent at a world point is steered: toward the centre of the lowest
/// tile of the window around its own; not at all where the map has no tile
/// under it or the window holds no distance.
pub open spec fn steering_of(position: IVec2, cells: Cells, config: MapConfig) -> Option<Steering> {
    match config.tile_under(position) {
        None => None,
        Some(tile) => match lowest(cells, tile.x as int, tile.y as int, 9) {
            None => None,
            Some(best) => {
                let center = config.center_of(TilePos { x: best.0 as u32, y: best.1 as u32 });
                Some(
                    Steering {
                        dir: PathfindDir(
                            IVec2 {
                                x: (center.x - position.x) as i32,
                                y: (center.y - position.y) as i32,
                            },
                        ),
                        pull: if best.2 < FULL_PULL {
                            best.2
                        } else {
                            FULL_PULL
                        },
                    },
                )
            },
        },
    }
}

/// Looks at one more tile of the window.
fn look(dmap: &DMap, tile: TilePos, step: (i32, i32), best: Option<(i32, i32, u32)>) -> (found:
    Option<(i32, i32, u32)>)
    requires
        dmap.wf(),
        tile.x <= MAX_SIDE,
        tile.y <= MAX_SIDE,
        -1 <= step.0 <= 1,
        -1 <= step.1 <= 1,
    ensures
        found == match distance_at(dmap@, tile.x + step.0, tile.y + step.1) {
            None => best,
            Some(distance) => match best {
                Some(b) if b.2 <= distance => best,
                _ => Some(((tile.x + step.0) as i32, (tile.y + step.1) as i32, distance)),
            },
        },
{
    let x: i32 = tile.x as i32 + step.0;
    let y: i32 = tile.y as i32 + step.1;
    match dmap.get(IVec2 { x, y }) {
        None => best,
        Some(distance) => match best {
            Some(b) => if b.2 <= distance {
                best
            } else {
                Some((x, y, distance))
            },
            None => Some((x, y, distance)),
        },
    }
}

/// The step to tile number `k` of the window.
fn step_at(k: usize) -> (step: (i32, i32))
    requires
        k < 9,
    ensures
        step.0 == window_step(k as int).0,
        step.1 == window_step(k as int).1,
{
    if k == 0 {
        (1, 0)
    } else if k == 1 {
        (-1, 0)
    } else if k == 2 {
        (0, 1)
    } else if k == 3 {
        (0, -1)
    } else if k == 4 {
        (0, 0)
    } else if k == 5 {
        (1, 1)
    } else if k == 6 {
        (-1, 1)
    } else if k == 7 {
        (1, -1)
    } else {
        (-1, -1)
    }
}

/// Whether what was found is what the model says.
spec fn same(found: Option<(i32, i32, u32)>, model: Option<(int, int, u32)>) -> bool {
    match found {
        None => model is None,
        Some(b) => model == Some((b.0 as int, b.1 as int, b.2)),
    }
}

/// Finds the lowest tile of the window around a tile.
fn lowest_near(dmap: &DMap, tile: TilePos) -> (best: Option<(i32, i32, u32)>)
    requires
        dmap.wf(),
        tile.x <= MAX_SIDE,
        tile.y <= MAX_SIDE,
    ensures
        same(best, lowest(dmap@, tile.x as int, tile.y as int, 9)),
        best matches Some(b) ==> distance_at(dmap@, b.0 as int, b.1 as int) == Some(b.2),
{
    let mut best: Option<(i32, i32, u32)> = None;
    let mut k: usize = 0;
    while k < 9
        invariant
            k <= 9,
            dmap.wf(),
            tile.x <= MAX_SIDE,
            tile.y <= MAX_SIDE,
            same(best, lowest(dmap@, tile.x as int, tile.y as int, k as nat)),
            best matches Some(b) ==> distance_at(dmap@, b.0 as int, b.1 as int) == Some(b.2),
        decreases 9 - k,
    {
        best = look(dmap, tile, step_at(k), best);
        k = k + 1;
    }
    best
}

/// Steers an agent at a world point by the flow field of the map.
pub fn pathfind(position: IVec2, dmap: &DMap, config: &MapConfig) -> (steering: Option<Steering>)
    requires
        dmap.wf(),
        config.valid(),
        dmap.width() == config.size.x,
        dmap.height() == config.size.y,
    ensures
        steering == steering_of(position, dmap@, *config),
{
    let tile: TilePos = match config.world_to_tile(position) {
        Some(tile) => tile,
        None => {
            return None;
        },
    };
    match lowest_near(dmap, tile) {
        None => None,
        Some(b) => {
            let target: TilePos = TilePos { x: b.0 as u32, y: b.1 as u32 };
            let center: IVec2 = config.tile_to_world(target);
            proof {
                lemma_under_bounds(*config, position);
                lemma_under_bounds(*config, center);
            }
            Some(
                Steering {
                    dir: PathfindDir(
                        IVec2 { x: center.x - position.x, y: center.y - position.y },
                    ),
                    pull: if b.2 < FULL_PULL {
                        b.2
                    } else {
                        FULL_PULL
                    },
                },
            )
        },
    }
}

/// A world point with a tile under it lies within the map's reach.
proof fn lemma_under_bounds(config: MapConfig, position: IVec2)
    requires
        config.valid(),
        config.tile_under(position) is Some,
    ensures
        -2 * (MAX_SIDE * MAX_SIDE) <= position.x <= 2 * (MAX_SIDE * MAX_SIDE),
        -2 * (MAX_SIDE * MAX_SIDE) <= position.y <= 2 * (MAX_SIDE * MAX_SIDE),
{
    let gx = config.grid_size.x as int;
    let gy = config.grid_size.y as int;
    let sx = config.size.x as int;
    let sy = config.size.y as int;
    let ox = config.offset().0;
    let oy = config.offset().1;
    let nx = 2 * (position.x + ox) + gx;
    let ny = 2 * (position.y + oy) + gy;
    assert(0 <= nx < sx * (2 * gx)) by (nonlinear_arith)
        requires
            0 <= nx / (2 * gx) < sx,
            gx > 0,
    ;
    assert(0 <= ny < sy * (2 * gy)) by (nonlinear_arith)
        requires
            0 <= ny / (2 * gy) < sy,
            gy > 0,
    ;
    assert(sx * (2 * gx) <= 2 * (4096 * 4096) && sy * (2 * gy) <= 2 * (4096 * 4096))
        by (nonlinear_arith)
        requires
            0 <= sx <= 4096,
            0 <= sy <= 4096,
            0 < gx <= 4096,
            0 < gy <= 4096,
    ;
    assert(0 <= ox <= 4096 * 4096 && 0 <= oy <= 4096 * 4096) by (nonlinear_arith)
        requires
            ox == (sx * config.tile_size.x) / 2 + config.tile_size.x / 2,
            oy == (sy * config.tile_size.y) / 2 + config.tile_size.y / 2,
            0 <= sx <= 4096,
            0 <= sy <= 4096,
            0 < config.tile_size.x <= 4096,
            0 < config.tile_size.y <= 4096,
    ;
}

} // verus!
