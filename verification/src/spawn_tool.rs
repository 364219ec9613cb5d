//! What the pointer does: it drops a ball or a bat, or marks a goal.

use crate::geometry::IVec2;
use crate::pathfinding::{goal_at, is_goal, Goal, UpdateDMap};
use crate::terrain::{MapConfig, TilePos};
use vstd::prelude::*;

verus! {

/// After something was dropped, the next can be dropped this many
/// microseconds later.
pub const SPAWN_COOLDOWN: u64 = 100_000;

/// The time still to wait before the next drop, in microseconds. A new
/// cooldown is over.
#[derive(Clone, Copy, Debug, PartialEq, Eq, Structural)]
pub struct Cooldown {
    pub remaining: u64,
}

impl Cooldown {
    /// The time left after `elapsed` more microseconds have passed.
    pub open spec fn after(self, elapsed: u64) -> u64 {
        if self.remaining > elapsed {
            (self.remaining - elapsed) as u64
        } else {
            0
        }
    }

    /// A cooldown that is over.
    pub fn new() -> (timer: Cooldown)
        ensures
            timer.remaining == 0,
    {
        Cooldown { remaining: 0 }
    }

    /// Lets `elapsed` microseconds pass.
    pub fn tick(&mut self, elapsed: u64)
        ensures
            final(self).remaining == old(self).after(elapsed),
    {
        self.remaining = if self.remaining > elapsed {
            self.remaining - elapsed
        } else {
            0
        };
    }

    /// Whether the cooldown is over.
    pub fn finished(&self) -> (over: bool)
        ensures
            over == (self.remaining == 0),
    {
        self.remaining == 0
    }
}

/// What the pointer can be asked to do.
#[derive(Clone, Copy, Debug, PartialEq, Eq, Structural)]
pub enum Action {
    SpawnAt,
}

/// What the pointer is set to.
#[derive(Clone, Copy, Debug, PartialEq, Eq, Structural)]
pub enum Tool {
    Ball,
    Bat,
    Goal,
}

impl Default for Tool {
    fn default() -> (tool: Tool)
        ensures
            tool == Tool::Ball,
    {
        Tool::Ball
    }
}

/// The mark of a ball.
#[derive(Clone, Copy, Debug, PartialEq, Eq, Structural)]
pub struct Ball;

/// The mark of a bat.
#[derive(Clone, Copy, Debug, PartialEq, Eq, Structural)]
pub struct Bat;

/// What is dropped at the pointer.
#[derive(Clone, Copy, Debug, PartialEq, Eq, Structural)]
pub enum Spawn {
    Ball(Ball),
    Bat(Bat),
}

/// The tool that the pointer starts with.
pub fn spawn_tool_plugin() -> (tool: Tool)
    ensures
        tool == Tool::Ball,
{
    Tool::Ball
}

/// What the tool drops: a ball or a bat; the goal tool drops nothing.
pub open spec fn dropped(tool: Tool) -> Option<Spawn> {
    match tool {
        Tool::Ball => Some(Spawn::Ball(Ball)),
        Tool::Bat => Some(Spawn::Bat(Bat)),
        Tool::Goal => None,
    }
}

/// Lets `elapsed` microseconds pass and decides what to drop: while the
/// action is pressed and the cooldown is over, what the tool drops. Whenever
/// the action is pressed and the cooldown is over, the cooldown starts anew.
pub fn spawn_at(tool: Tool, pressed: bool, timer: &mut Cooldown, elapsed: u64) -> (drop: Option<
    Spawn,
>)
    ensures
        drop == if pressed && old(timer).after(elapsed) == 0 {
            dropped(tool)
        } else {
            None
        },
        final(timer).remaining == if pressed && old(timer).after(elapsed) == 0 {
            SPAWN_COOLDOWN
        } else {
            old(timer).after(elapsed)
        },
{
    timer.tick(elapsed);
    if pressed && timer.finished() {
        timer.remaining = SPAWN_COOLDOWN;
        match tool {
            Tool::Ball => Some(Spawn::Ball(Ball)),
            Tool::Bat => Some(Spawn::Bat(Bat)),
            Tool::Goal => None,
        }
    } else {
        None
    }
}

/// The tile that a press of the goal tool marks, if any: the tile under the
/// pointer, when the action was just pressed and the tool is the goal tool.
pub open spec fn marked(tool: Tool, just_pressed: bool, pointer: IVec2, config: MapConfig)
    -> Option<TilePos> {
    if just_pressed && tool == Tool::Goal {
        config.tile_under(pointer)
    } else {
        None
    }
}

/// Marks the tile under the pointer as a goal, when the action was just
/// pressed and the tool is the goal tool. A tile that is a goal already is
/// not marked again.
pub fn mark_goal(
    tool: Tool,
    just_pressed: bool,
    pointer: IVec2,
    config: &MapConfig,
    goals: &mut Vec<Goal>,
) -> (tile: Option<TilePos>)
    requires
        config.valid(),
    ensures
        tile == marked(tool, just_pressed, pointer, *config),
        final(goals)@ == match tile {
            Some(t) if !is_goal(old(goals)@, t.x as int, t.y as int) => old(goals)@.push(Goal(t)),
            _ => old(goals)@,
        },
        forall|x: int, y: int|
            is_goal(final(goals)@, x, y) == (is_goal(old(goals)@, x, y) || tile == Some(
                TilePos { x: x as u32, y: y as u32 },
            ) && 0 <= x <= u32::MAX && 0 <= y <= u32::MAX),
{
    let on: bool = match tool {
        Tool::Goal => just_pressed,
        _ => false,
    };
    if !on {
        return None;
    }
    let tile: Option<TilePos> = config.world_to_tile(pointer);
    match tile {
        Some(t) => {
            if !goal_at(goals, t) {
                let ghost before = goals@;
                goals.push(Goal(t));
                proof {
                    assert forall|x: int, y: int|
                        is_goal(goals@, x, y) == (is_goal(before, x, y) || tile == Some(
                            TilePos { x: x as u32, y: y as u32 },
                        ) && 0 <= x <= u32::MAX && 0 <= y <= u32::MAX) by {
                        if is_goal(goals@, x, y) {
                            let i = choose|i: int|
                                0 <= i < goals@.len() && (#[trigger] goals@[i]).0.x == x
                                    && goals@[i].0.y == y;
                            if i < before.len() {
                                assert(before[i] == goals@[i]);
                            }
                        }
                        if is_goal(before, x, y) {
                            let i = choose|i: int|
                                0 <= i < before.len() && (#[trigger] before[i]).0.x == x
                                    && before[i].0.y == y;
                            assert(goals@[i] == before[i]);
                        }
                        if x == t.x && y == t.y {
                            assert(goals@[before.len() as int].0 == t);
                        }
                    }
                }
            }
        },
        None => {},
    }
    tile
}

/// Asks for the flow field to be recomputed when a goal may have been
/// marked: when the action was just pressed and the tool is the goal tool.
pub fn send_update_dmap(tool: Tool, just_pressed: bool, dmap: u64) -> (event: Option<UpdateDMap>)
    ensures
        event == if just_pressed && tool == Tool::Goal {
            Some(UpdateDMap(dmap))
        } else {
            None
        },
{
    match tool {
        Tool::Goal => if just_pressed {
            Some(UpdateDMap(dmap))
        } else {
            None
        },
        _ => None,
    }
}

} // verus!
