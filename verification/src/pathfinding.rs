//! The flow field: for each tile the distance in steps to the nearest goal.
//!
//! The field is a two-dimensional array of the `ndarray` crate, indexed by
//! `(x, y)`. `None` stands for a wall or a tile not yet seeded, `u32::MAX`
//! for floor whose distance is not known yet, zero for a goal. A sweep visits
//! every cell, `x` outermost, and lowers a cell to one more than the least of
//! itself and its four neighbours, reading what the same sweep has already
//! written. Sweeps repeat until one changes nothing or their number runs
//! out.

use crate::geometry::{IVec2, MAX_SIDE};
use crate::terrain::{TileGrid, TilePos, TileType};
use vstd::prelude::*;

verus! {

/// A field never takes more sweeps than this in one recomputation.
pub const MAX_ITERATIONS: u32 = 50;

/// The distance of floor that no sweep has reached yet.
pub const UNRESOLVED: u32 = 0xffff_ffff;

/// The cells of a field: `cells[x][y]`.
pub type Cells = Seq<Seq<Option<u32>>>;

/// A two-dimensional array of optional distances.
#[verifier::external_body]
pub struct DistanceArray {
    cells: ndarray::Array2<Option<u32>>,
}

/// What an array holds: the element at index `(x, y)` is `cells[x][y]`.
pub uninterp spec fn array_cells(array: DistanceArray) -> Cells;

/// `ArrayBase::from_elem` of `ndarray` with a two-dimensional shape.
/// Believed of it: the array has `width` times `height` elements, each the
/// value given. It panics where an axis or the product of the axes exceeds
/// what a buffer can hold.
#[verifier::external_body]
fn array_new(width: usize, height: usize, value: Option<u32>) -> (array: DistanceArray)
    requires
        width <= MAX_SIDE,
        height <= MAX_SIDE,
    ensures
        array_cells(array) == Seq::new(width as nat, |x: int| Seq::new(height as nat, |y: int| value)),
{
    DistanceArray { cells: ndarray::Array2::from_elem((width, height), value) }
}

/// `ArrayBase::get` of `ndarray`. Believed of it: the element at the index
/// where the index lies within both axes, `None` else.
#[verifier::external_body]
fn array_get(array: &DistanceArray, x: usize, y: usize) -> (value: Option<Option<u32>>)
    ensures
        x < array_cells(*array).len() && y < array_cells(*array)[x as int].len() ==> value
            == Some(array_cells(*array)[x as int][y as int]),
        !(x < array_cells(*array).len() && y < array_cells(*array)[x as int].len()) ==> value
            == None::<Option<u32>>,
{
    array.cells.get((x, y)).copied()
}

/// Assignment through `IndexMut` of `ndarray`. Believed of it: the element
/// at the index takes the value and no other changes. It panics where the
/// index lies outside the array.
#[verifier::external_body]
fn array_set(array: &mut DistanceArray, x: usize, y: usize, value: Option<u32>)
    requires
        x < array_cells(*old(array)).len(),
        y < array_cells(*old(array))[x as int].len(),
    ensures
        array_cells(*final(array)) == array_cells(*old(array)).update(
            x as int,
            array_cells(*old(array))[x as int].update(y as int, value),
        ),
{
    array.cells[(x, y)] = value;
}

/// `ArrayBase::fill` of `ndarray`. Believed of it: every element takes the
/// value and the shape stays.
#[verifier::external_body]
fn array_fill(array: &mut DistanceArray, value: Option<u32>)
    ensures
        array_cells(*final(array)) == Seq::new(
            array_cells(*old(array)).len(),
            |x: int| Seq::new(array_cells(*old(array))[x].len(), |y: int| value),
        ),
{
    array.cells.fill(value);
}

/// Every column of `cells` has `height` cells and there are `width` columns.
pub open spec fn shaped(cells: Cells, width: int, height: int) -> bool {
    &&& cells.len() == width
    &&& forall|x: int| 0 <= x < width ==> (#[trigger] cells[x]).len() == height
}

/// The lesser of a distance and a neighbour's; a wall is no candidate.
pub open spec fn lower(least: u32, other: Option<u32>) -> u32 {
    match other {
        Some(v) => if v < least {
            v
        } else {
            least
        },
        None => least,
    }
}

/// The least distance among a cell holding `own` and its four neighbours. A
/// neighbour's index beyond the boundary is clamped to the cell's own.
pub open spec fn least_around(cells: Cells, x: int, y: int, own: u32) -> u32 {
    let left = if x > 0 {
        x - 1
    } else {
        0
    };
    let right = if x + 1 < cells.len() {
        x + 1
    } else {
        x
    };
    let up = if y > 0 {
        y - 1
    } else {
        0
    };
    let down = if y + 1 < cells[x].len() {
        y + 1
    } else {
        y
    };
    lower(lower(lower(lower(own, cells[left][y]), cells[right][y]), cells[x][up]), cells[x][down])
}

/// What a cell holds after it has been relaxed: a wall stays a wall; a
/// distance becomes one more than the least around it where that is less.
pub open spec fn relaxed_value(cells: Cells, x: int, y: int) -> Option<u32> {
    match cells[x][y] {
        None => None,
        Some(own) => {
            let least = least_around(cells, x, y, own);
            if least + 1 < own {
                Some((least + 1) as u32)
            } else {
                Some(own)
            }
        },
    }
}

/// The field after the cell `(x, y)` has been relaxed in place.
pub open spec fn relaxed(cells: Cells, x: int, y: int) -> Cells {
    cells.update(x, cells[x].update(y, relaxed_value(cells, x, y)))
}

/// The field after the first `count` cells of column `x` have been relaxed.
pub open spec fn swept_column(cells: Cells, x: int, count: nat) -> Cells
    decreases count,
{
    if count == 0 {
        cells
    } else {
        relaxed(swept_column(cells, x, (count - 1) as nat), x, count - 1)
    }
}

/// The field after the first `count` columns have been swept.
pub open spec fn swept_columns(cells: Cells, count: nat) -> Cells
    decreases count,
{
    if count == 0 {
        cells
    } else {
        let before = swept_columns(cells, (count - 1) as nat);
        swept_column(before, count - 1, before[count - 1].len())
    }
}

/// The field after one sweep over all its cells.
pub open spec fn swept(cells: Cells) -> Cells {
    swept_columns(cells, cells.len())
}

/// The field after sweeps have been repeated until one changed nothing, at
/// most `sweeps` times.
pub open spec fn relaxation(cells: Cells, sweeps: nat) -> Cells
    decreases sweeps,
{
    if sweeps == 0 || swept(cells) == cells {
        cells
    } else {
        relaxation(swept(cells), (sweeps - 1) as nat)
    }
}

/// Whether one of the first `sweeps` sweeps changes nothing.
pub open spec fn converges(cells: Cells, sweeps: nat) -> bool
    decreases sweeps,
{
    sweeps > 0 && (swept(cells) == cells || converges(swept(cells), (sweeps - 1) as nat))
}

/// How a cell may differ after relaxation: a wall stays a wall, a distance
/// stays a distance and does not grow.
pub open spec fn settles(before: Option<u32>, after: Option<u32>) -> bool {
    match before {
        None => after is None,
        Some(v) => after matches Some(u) && u <= v,
    }
}

/// Every cell of `after` is the cell of `before` settled, in the same shape.
pub open spec fn settled(before: Cells, after: Cells) -> bool {
    &&& after.len() == before.len()
    &&& forall|x: int|
        0 <= x < before.len() ==> {
            &&& (#[trigger] after[x]).len() == before[x].len()
            &&& forall|y: int|
                0 <= y < before[x].len() ==> settles(before[x][y], #[trigger] after[x][y])
        }
}

proof fn lemma_settled_trans(a: Cells, b: Cells, c: Cells)
    requires
        settled(a, b),
        settled(b, c),
    ensures
        settled(a, c),
{
    assert forall|x: int| 0 <= x < a.len() implies {
        &&& (#[trigger] c[x]).len() == a[x].len()
        &&& forall|y: int| 0 <= y < a[x].len() ==> settles(a[x][y], #[trigger] c[x][y])
    } by {
        assert(b[x].len() == a[x].len());
        assert forall|y: int| 0 <= y < a[x].len() implies settles(a[x][y], #[trigger] c[x][y]) by {
            assert(settles(a[x][y], b[x][y]));
            assert(settles(b[x][y], c[x][y]));
        }
    }
}

proof fn lemma_relaxed_settled(cells: Cells, x: int, y: int)
    requires
        0 <= x < cells.len(),
        0 <= y < cells[x].len(),
    ensures
        settled(cells, relaxed(cells, x, y)),
{
    let after = relaxed(cells, x, y);
    assert forall|i: int| 0 <= i < cells.len() implies {
        &&& (#[trigger] after[i]).len() == cells[i].len()
        &&& forall|j: int| 0 <= j < cells[i].len() ==> settles(cells[i][j], #[trigger] after[i][j])
    } by {
    }
}

proof fn lemma_swept_column_settled(cells: Cells, x: int, count: nat)
    requires
        0 <= x < cells.len(),
        count <= cells[x].len(),
    ensures
        settled(cells, swept_column(cells, x, count)),
    decreases count,
{
    if count > 0 {
        let before = swept_column(cells, x, (count - 1) as nat);
        lemma_swept_column_settled(cells, x, (count - 1) as nat);
        assert(before[x].len() == cells[x].len());
        lemma_relaxed_settled(before, x, count - 1);
        lemma_settled_trans(cells, before, relaxed(before, x, count - 1));
    }
}

proof fn lemma_swept_columns_settled(cells: Cells, count: nat)
    requires
        count <= cells.len(),
    ensures
        settled(cells, swept_columns(cells, count)),
    decreases count,
{
    if count > 0 {
        let before = swept_columns(cells, (count - 1) as nat);
        lemma_swept_columns_settled(cells, (count - 1) as nat);
        lemma_swept_column_settled(before, count - 1, before[count - 1].len());
        lemma_settled_trans(
            cells,
            before,
            swept_column(before, count - 1, before[count - 1].len()),
        );
    }
}

/// Through any number of sweeps the field keeps its shape, a wall stays a
/// wall, and no distance grows.
pub proof fn lemma_relaxation_settles(cells: Cells, sweeps: nat)
    ensures
        settled(cells, swept(cells)),
        settled(cells, relaxation(cells, sweeps)),
    decreases sweeps,
{
    lemma_swept_columns_settled(cells, cells.len());
    if sweeps == 0 || swept(cells) == cells {
    } else {
        lemma_relaxation_settles(swept(cells), (sweeps - 1) as nat);
        lemma_settled_trans(cells, swept(cells), relaxation(swept(cells), (sweeps - 1) as nat));
    }
}

/// A goal keeps its zero through any number of sweeps.
pub proof fn lemma_goal_stays_zero(cells: Cells, sweeps: nat, x: int, y: int)
    requires
        0 <= x < cells.len(),
        0 <= y < cells[x].len(),
        cells[x][y] == Some(0u32),
    ensures
        swept(cells)[x][y] == Some(0u32),
        relaxation(cells, sweeps)[x][y] == Some(0u32),
{
    lemma_relaxation_settles(cells, sweeps);
    assert(settles(cells[x][y], swept(cells)[x][y]));
    assert(settles(cells[x][y], relaxation(cells, sweeps)[x][y]));
}

/// A wall keeps its `None` through any number of sweeps.
pub proof fn lemma_wall_stays_none(cells: Cells, sweeps: nat, x: int, y: int)
    requires
        0 <= x < cells.len(),
        0 <= y < cells[x].len(),
        cells[x][y] is None,
    ensures
        swept(cells)[x][y] is None,
        relaxation(cells, sweeps)[x][y] is None,
{
    lemma_relaxation_settles(cells, sweeps);
    assert(settles(cells[x][y], swept(cells)[x][y]));
    assert(settles(cells[x][y], relaxation(cells, sweeps)[x][y]));
}

/// Where the sweeps converge, another sweep leaves their result as it is.
pub proof fn lemma_converged_is_fixed(cells: Cells, sweeps: nat)
    requires
        converges(cells, sweeps),
    ensures
        swept(relaxation(cells, sweeps)) == relaxation(cells, sweeps),
    decreases sweeps,
{
    if swept(cells) != cells {
        lemma_converged_is_fixed(swept(cells), (sweeps - 1) as nat);
    }
}

/// A field that lies between two equal fields is equal to them.
proof fn lemma_settled_between(a: Cells, b: Cells)
    requires
        settled(a, b),
        settled(b, a),
    ensures
        b == a,
{
    assert forall|x: int| 0 <= x < a.len() implies #[trigger] b[x] == a[x] by {
        assert(b[x].len() == a[x].len());
        assert forall|y: int| 0 <= y < a[x].len() implies #[trigger] b[x][y] == a[x][y] by {
            assert(settles(a[x][y], b[x][y]));
            assert(settles(b[x][y], a[x][y]));
        }
        assert(b[x] =~= a[x]);
    }
    assert(b =~= a);
}

/// Within a column, later cells settle what earlier ones left.
proof fn lemma_swept_column_onward(cells: Cells, x: int, from: nat, to: nat)
    requires
        0 <= x < cells.len(),
        from <= to <= cells[x].len(),
    ensures
        settled(swept_column(cells, x, from), swept_column(cells, x, to)),
    decreases to - from,
{
    if from < to {
        lemma_swept_column_onward(cells, x, from, (to - 1) as nat);
        let before = swept_column(cells, x, (to - 1) as nat);
        lemma_swept_column_settled(cells, x, (to - 1) as nat);
        assert(before[x].len() == cells[x].len());
        lemma_relaxed_settled(before, x, to - 1);
        lemma_settled_trans(swept_column(cells, x, from), before, relaxed(before, x, to - 1));
    }
}

/// Later columns settle what earlier ones left.
proof fn lemma_swept_columns_onward(cells: Cells, from: nat, to: nat)
    requires
        from <= to <= cells.len(),
    ensures
        settled(swept_columns(cells, from), swept_columns(cells, to)),
    decreases to - from,
{
    if from < to {
        lemma_swept_columns_onward(cells, from, (to - 1) as nat);
        let before = swept_columns(cells, (to - 1) as nat);
        lemma_swept_columns_settled(cells, (to - 1) as nat);
        lemma_swept_column_settled(before, to - 1, before[to - 1].len());
        lemma_settled_trans(
            swept_columns(cells, from),
            before,
            swept_column(before, to - 1, before[to - 1].len()),
        );
    }
}

/// A field that a sweep leaves as it is, is left as it is by the relaxation
/// of each of its cells: no distance in it exceeds by more than one the
/// least around it.
pub proof fn lemma_converged_is_consistent(cells: Cells, x: int, y: int)
    requires
        swept(cells) == cells,
        0 <= x < cells.len(),
        0 <= y < cells[x].len(),
    ensures
        relaxed_value(cells, x, y) == cells[x][y],
        cells[x][y] matches Some(own) ==> own <= least_around(cells, x, y, own) + 1,
{
    let width = cells.len();
    // the columns before `x` left the field as it was
    let before = swept_columns(cells, x as nat);
    lemma_swept_columns_settled(cells, x as nat);
    lemma_swept_columns_onward(cells, x as nat, width);
    lemma_settled_between(cells, before);
    // and so did column `x`
    let after = swept_columns(cells, (x + 1) as nat);
    lemma_swept_columns_settled(cells, (x + 1) as nat);
    lemma_swept_columns_onward(cells, (x + 1) as nat, width);
    lemma_settled_between(cells, after);
    let height = cells[x].len();
    assert(after == swept_column(cells, x, height));
    // so every cell of column `x` left it as it was
    let here = swept_column(cells, x, y as nat);
    lemma_swept_column_settled(cells, x, y as nat);
    lemma_swept_column_onward(cells, x, y as nat, height);
    lemma_settled_between(cells, here);
    let next = swept_column(cells, x, (y + 1) as nat);
    lemma_swept_column_settled(cells, x, (y + 1) as nat);
    lemma_swept_column_onward(cells, x, (y + 1) as nat, height);
    lemma_settled_between(cells, next);
    assert(next == relaxed(here, x, y));
    assert(relaxed(cells, x, y)[x][y] == relaxed_value(cells, x, y));
}

/// The cell at `(x, y)`, or `None` where the field has no such cell.
pub open spec fn cell_at(cells: Cells, x: int, y: int) -> Option<u32> {
    if 0 <= x < cells.len() && 0 <= y < cells[x].len() {
        cells[x][y]
    } else {
        None
    }
}

/// The distance that the field tells for `(x, y)`: what the cell holds,
/// unless it is unresolved or the field has no such cell.
pub open spec fn distance_at(cells: Cells, x: int, y: int) -> Option<u32> {
    match cell_at(cells, x, y) {
        Some(v) => if v == UNRESOLVED {
            None
        } else {
            Some(v)
        },
        None => None,
    }
}

/// A tile marked as a destination.
#[derive(Clone, Copy, Debug, PartialEq, Eq, Structural)]
pub struct Goal(pub TilePos);

/// Asks for the flow field with this id to be recomputed.
#[derive(Clone, Copy, Debug, PartialEq, Eq, Structural)]
pub struct UpdateDMap(pub u64);

/// How a recomputation ended.
#[derive(Clone, Copy, Debug, PartialEq, Eq, Structural)]
pub enum Recompute {
    /// There was no goal: the field was left as it was.
    Skipped,
    /// A sweep changed nothing: the field is final.
    Converged,
    /// The sweeps ran out: the field is kept as far as it got.
    Unsettled,
}

/// Whether a goal marks the tile `(x, y)`.
pub open spec fn is_goal(goals: Seq<Goal>, x: int, y: int) -> bool {
    exists|i: int| 0 <= i < goals.len() && (#[trigger] goals[i]).0.x == x && goals[i].0.y == y
}

/// What a tile is seeded with: zero for a goal, else unresolved for floor,
/// else nothing.
pub open spec fn seed_of(tile: TileType, goal: bool) -> Option<u32> {
    if goal {
        Some(0u32)
    } else if tile == TileType::Floor {
        Some(UNRESOLVED)
    } else {
        None
    }
}

/// The field of a tile grid after the seed pass.
pub open spec fn seeded(tiles: TileGrid, goals: Seq<Goal>) -> Cells {
    Seq::new(
        tiles.size().x as nat,
        |x: int|
            Seq::new(
                tiles.size().y as nat,
                |y: int| seed_of(tiles.type_at(x, y), is_goal(goals, x, y)),
            ),
    )
}

/// The field after a recomputation: untouched without a goal, else seeded
/// from the tiles and goals and relaxed.
pub open spec fn recomputed(before: Cells, tiles: TileGrid, goals: Seq<Goal>) -> Cells {
    if goals.len() == 0 {
        before
    } else {
        relaxation(seeded(tiles, goals), MAX_ITERATIONS as nat)
    }
}

/// How many steps lie between a goal and the tile `(x, y)`, walls left
/// aside.
pub open spec fn steps_from(goal: Goal, x: int, y: int) -> int {
    (if goal.0.x >= x {
        goal.0.x - x
    } else {
        x - goal.0.x
    }) + (if goal.0.y >= y {
        goal.0.y - y
    } else {
        y - goal.0.y
    })
}

/// Whether some goal lies within `distance` steps of the tile `(x, y)`.
pub open spec fn within_reach(goals: Seq<Goal>, x: int, y: int, distance: int) -> bool {
    exists|i: int| 0 <= i < goals.len() && steps_from(#[trigger] goals[i], x, y) <= distance
}

/// Whether the cell `(x, y)` holds no distance shorter than the way from the
/// nearest goal.
pub open spec fn honest_at(cells: Cells, goals: Seq<Goal>, x: int, y: int) -> bool {
    match cells[x][y] {
        Some(v) => v == UNRESOLVED || within_reach(goals, x, y, v as int),
        None => true,
    }
}

/// Whether no cell holds a distance shorter than the way from the nearest
/// goal.
pub open spec fn honest(cells: Cells, goals: Seq<Goal>) -> bool {
    forall|x: int, y: int|
        0 <= x < cells.len() && 0 <= y < cells[x].len() ==> #[trigger] honest_at(
            cells,
            goals,
            x,
            y,
        )
}

proof fn lemma_relaxed_honest(cells: Cells, goals: Seq<Goal>, x: int, y: int)
    requires
        honest(cells, goals),
        0 <= x < cells.len(),
        0 <= y < cells[x].len(),
        forall|i: int| 0 <= i < cells.len() ==> (#[trigger] cells[i]).len() == cells[x].len(),
    ensures
        honest(relaxed(cells, x, y), goals),
{
    let after = relaxed(cells, x, y);
    assert forall|i: int, j: int| 0 <= i < after.len() && 0 <= j < after[i].len() implies #[trigger] honest_at(
        after,
        goals,
        i,
        j,
    ) by {
        assert(honest_at(cells, goals, i, j));
        if i == x && j == y {
            match cells[x][y] {
                None => {},
                Some(own) => {
                    let least = least_around(cells, x, y, own);
                    if least + 1 < own {
                        let left = if x > 0 {
                            x - 1
                        } else {
                            0
                        };
                        let right = if x + 1 < cells.len() {
                            x + 1
                        } else {
                            x
                        };
                        let up = if y > 0 {
                            y - 1
                        } else {
                            0
                        };
                        let down = if y + 1 < cells[x].len() {
                            y + 1
                        } else {
                            y
                        };
                        let (nx, ny) = if cells[left][y] == Some(least) {
                            (left, y)
                        } else if cells[right][y] == Some(least) {
                            (right, y)
                        } else if cells[x][up] == Some(least) {
                            (x, up)
                        } else {
                            (x, down)
                        };
                        assert(cells[nx][ny] == Some(least));
                        assert(honest_at(cells, goals, nx, ny));
                        let near = choose|k: int|
                            0 <= k < goals.len() && steps_from(#[trigger] goals[k], nx, ny)
                                <= least;
                        assert(steps_from(goals[near], x, y) <= least + 1);
                    }
                },
            }
        }
    }
}

proof fn lemma_swept_column_honest(cells: Cells, goals: Seq<Goal>, x: int, count: nat)
    requires
        honest(cells, goals),
        0 <= x < cells.len(),
        count <= cells[x].len(),
        forall|i: int| 0 <= i < cells.len() ==> (#[trigger] cells[i]).len() == cells[x].len(),
    ensures
        honest(swept_column(cells, x, count), goals),
    decreases count,
{
    if count > 0 {
        let before = swept_column(cells, x, (count - 1) as nat);
        lemma_swept_column_honest(cells, goals, x, (count - 1) as nat);
        lemma_swept_column_settled(cells, x, (count - 1) as nat);
        assert forall|i: int| 0 <= i < before.len() implies (#[trigger] before[i]).len()
            == before[x].len() by {
            assert(before[i].len() == cells[i].len());
        }
        lemma_relaxed_honest(before, goals, x, count - 1);
    }
}

proof fn lemma_swept_columns_honest(cells: Cells, goals: Seq<Goal>, height: int, count: nat)
    requires
        honest(cells, goals),
        count <= cells.len(),
        shaped(cells, cells.len() as int, height),
    ensures
        honest(swept_columns(cells, count), goals),
    decreases count,
{
    if count > 0 {
        let before = swept_columns(cells, (count - 1) as nat);
        lemma_swept_columns_honest(cells, goals, height, (count - 1) as nat);
        lemma_swept_columns_settled(cells, (count - 1) as nat);
        assert forall|i: int| 0 <= i < before.len() implies (#[trigger] before[i]).len()
            == before[count - 1].len() by {
            assert(before[i].len() == cells[i].len());
        }
        lemma_swept_column_honest(before, goals, count - 1, before[count - 1].len());
    }
}

proof fn lemma_relaxation_honest(cells: Cells, goals: Seq<Goal>, height: int, sweeps: nat)
    requires
        honest(cells, goals),
        shaped(cells, cells.len() as int, height),
    ensures
        honest(relaxation(cells, sweeps), goals),
    decreases sweeps,
{
    if sweeps == 0 || swept(cells) == cells {
    } else {
        lemma_swept_columns_honest(cells, goals, height, cells.len());
        lemma_relaxation_settles(cells, 0);
        let next = swept(cells);
        assert forall|i: int| 0 <= i < next.len() implies (#[trigger] next[i]).len() == height by {
            assert(next[i].len() == cells[i].len());
        }
        lemma_relaxation_honest(next, goals, height, (sweeps - 1) as nat);
    }
}

/// The clamped neighbours at the edges make no shortcut: after a
/// recomputation no tile tells a distance shorter than the steps to the
/// nearest goal, walls left aside.
pub proof fn lemma_no_shortcut(before: Cells, tiles: TileGrid, goals: Seq<Goal>, x: int, y: int)
    requires
        goals.len() > 0,
        0 <= x < tiles.size().x,
        0 <= y < tiles.size().y,
    ensures
        distance_at(recomputed(before, tiles, goals), x, y) matches Some(v) ==> within_reach(
            goals,
            x,
            y,
            v as int,
        ),
{
    let start = seeded(tiles, goals);
    assert forall|i: int, j: int| 0 <= i < start.len() && 0 <= j < start[i].len() implies #[trigger] honest_at(
        start,
        goals,
        i,
        j,
    ) by {
        if is_goal(goals, i, j) {
            let k = choose|k: int|
                0 <= k < goals.len() && (#[trigger] goals[k]).0.x == i && goals[k].0.y == j;
            assert(steps_from(goals[k], i, j) == 0);
        }
    }
    lemma_relaxation_honest(start, goals, tiles.size().y as int, MAX_ITERATIONS as nat);
    lemma_relaxation_settles(start, MAX_ITERATIONS as nat);
    let end = relaxation(start, MAX_ITERATIONS as nat);
    assert(end[x].len() == start[x].len());
    assert(honest_at(end, goals, x, y));
}

/// In a field without walls that a sweep leaves as it is, no tile holds a
/// distance longer than the steps to a goal.
pub proof fn lemma_open_field_within_steps(cells: Cells, height: int, goal: Goal, x: int, y: int)
    requires
        shaped(cells, cells.len() as int, height),
        swept(cells) == cells,
        forall|i: int, j: int|
            0 <= i < cells.len() && 0 <= j < height ==> (#[trigger] cells[i][j]) is Some,
        goal.0.x < cells.len(),
        goal.0.y < height,
        cells[goal.0.x as int][goal.0.y as int] == Some(0u32),
        0 <= x < cells.len(),
        0 <= y < height,
    ensures
        cells[x][y] matches Some(v) && v <= steps_from(goal, x, y),
    decreases steps_from(goal, x, y),
{
    if x != goal.0.x || y != goal.0.y {
        let (nx, ny) = if x < goal.0.x {
            (x + 1, y)
        } else if x > goal.0.x {
            (x - 1, y)
        } else if y < goal.0.y {
            (x, y + 1)
        } else {
            (x, y - 1)
        };
        lemma_open_field_within_steps(cells, height, goal, nx, ny);
        lemma_converged_is_consistent(cells, x, y);
        assert(cells[x][y] is Some);
        assert(cells[nx][ny] is Some);
    }
}

/// On a grid of floor with a single goal, once the relaxation has
/// converged, every tile holds exactly its number of steps to the goal.
pub proof fn lemma_open_grid_is_exact(before: Cells, tiles: TileGrid, goal: Goal, x: int, y: int)
    requires
        tiles.wf(),
        goal.0.x < tiles.size().x,
        goal.0.y < tiles.size().y,
        forall|i: int, j: int|
            0 <= i < tiles.size().x && 0 <= j < tiles.size().y ==> #[trigger] tiles.type_at(i, j)
                == TileType::Floor,
        converges(seeded(tiles, seq![goal]), MAX_ITERATIONS as nat),
        0 <= x < tiles.size().x,
        0 <= y < tiles.size().y,
    ensures
        recomputed(before, tiles, seq![goal])[x][y] == Some(steps_from(goal, x, y) as u32),
{
    let goals = seq![goal];
    let start = seeded(tiles, goals);
    let end = relaxation(start, MAX_ITERATIONS as nat);
    let width = tiles.size().x as int;
    let height = tiles.size().y as int;
    assert(goals[0] == goal);
    assert(is_goal(goals, goal.0.x as int, goal.0.y as int));
    lemma_converged_is_fixed(start, MAX_ITERATIONS as nat);
    lemma_relaxation_settles(start, MAX_ITERATIONS as nat);
    lemma_goal_stays_zero(start, MAX_ITERATIONS as nat, goal.0.x as int, goal.0.y as int);
    assert forall|i: int| 0 <= i < width implies (#[trigger] end[i]).len() == height by {
        assert(start[i].len() == height);
    }
    assert forall|i: int, j: int| 0 <= i < width && 0 <= j < height implies (
    #[trigger] end[i][j]) is Some by {
        assert(tiles.type_at(i, j) == TileType::Floor);
        assert(start[i][j] is Some);
        assert(settles(start[i][j], end[i][j]));
    }
    lemma_open_field_within_steps(end, height, goal, x, y);
    lemma_no_shortcut(before, tiles, goals, x, y);
    let v = end[x][y]->0;
    assert(steps_from(goal, x, y) <= 2 * MAX_SIDE);
    if v != UNRESOLVED {
        let k = choose|k: int|
            0 <= k < goals.len() && steps_from(#[trigger] goals[k], x, y) <= v;
        assert(goals[k] == goal);
    }
}

/// Recomputing a second time on the same tiles and goals gives the field
/// that the first time gave.
pub proof fn lemma_recompute_idempotent(before: Cells, tiles: TileGrid, goals: Seq<Goal>)
    ensures
        recomputed(recomputed(before, tiles, goals), tiles, goals) == recomputed(
            before,
            tiles,
            goals,
        ),
{
}

/// After a recomputation with a goal, every goal within the grid holds zero
/// and every wall that is no goal holds nothing.
pub proof fn lemma_recomputed_pins(before: Cells, tiles: TileGrid, goals: Seq<Goal>, x: int, y: int)
    requires
        goals.len() > 0,
        0 <= x < tiles.size().x,
        0 <= y < tiles.size().y,
    ensures
        shaped(recomputed(before, tiles, goals), tiles.size().x as int, tiles.size().y as int),
        is_goal(goals, x, y) ==> recomputed(before, tiles, goals)[x][y] == Some(0u32),
        !is_goal(goals, x, y) && tiles.type_at(x, y) == TileType::Wall ==> recomputed(
            before,
            tiles,
            goals,
        )[x][y] is None,
{
    let start = seeded(tiles, goals);
    lemma_relaxation_settles(start, MAX_ITERATIONS as nat);
    let end = relaxation(start, MAX_ITERATIONS as nat);
    assert forall|i: int| 0 <= i < tiles.size().x implies (#[trigger] end[i]).len()
        == tiles.size().y by {
        assert(start[i].len() == tiles.size().y);
    }
    if is_goal(goals, x, y) {
        lemma_goal_stays_zero(start, MAX_ITERATIONS as nat, x, y);
    } else if tiles.type_at(x, y) == TileType::Wall {
        lemma_wall_stays_none(start, MAX_ITERATIONS as nat, x, y);
    }
}

/// The flow field of one tile grid.
pub struct DMap {
    values: DistanceArray,
    width: usize,
    height: usize,
    tile_storage: u64,
}

impl DMap {
    /// The cells of the field: `self@[x][y]`.
    pub closed spec fn view(&self) -> Cells {
        array_cells(self.values)
    }

    /// The extent of the field along `x`.
    pub closed spec fn width(&self) -> int {
        self.width as int
    }

    /// The extent of the field along `y`.
    pub closed spec fn height(&self) -> int {
        self.height as int
    }

    /// The id of the tile grid that the field belongs to.
    pub closed spec fn tile_storage(&self) -> u64 {
        self.tile_storage
    }

    /// The field is no larger than the largest region and has a cell for
    /// each position.
    pub open spec fn wf(&self) -> bool {
        &&& 0 <= self.width() <= MAX_SIDE
        &&& 0 <= self.height() <= MAX_SIDE
        &&& shaped(self@, self.width(), self.height())
    }

    /// Whether `other` is this field with other cells of the same shape.
    pub open spec fn reshaped(&self, other: DMap) -> bool {
        &&& other.wf()
        &&& other.width() == self.width()
        &&& other.height() == self.height()
        &&& other.tile_storage() == self.tile_storage()
    }

    /// A field of the given size for the tile grid with the given id, every
    /// cell unseeded.
    pub fn new(width: usize, height: usize, tile_storage: u64) -> (dmap: DMap)
        requires
            width <= MAX_SIDE,
            height <= MAX_SIDE,
        ensures
            dmap.wf(),
            dmap.width() == width,
            dmap.height() == height,
            dmap.tile_storage() == tile_storage,
            forall|x: int, y: int| cell_at(dmap@, x, y) is None,
    {
        DMap { values: array_new(width, height, None), width, height, tile_storage }
    }

    /// The extent of the field along `x` and along `y`.
    pub fn dimensions(&self) -> (size: (usize, usize))
        ensures
            size.0 == self.width(),
            size.1 == self.height(),
    {
        (self.width, self.height)
    }

    /// The id of the tile grid that the field belongs to.
    pub fn storage(&self) -> (id: u64)
        ensures
            id == self.tile_storage(),
    {
        self.tile_storage
    }

    /// The distance to the nearest goal at a coordinate: `None` outside the
    /// field, for a wall, for a tile not yet seeded, and for floor that no
    /// sweep has reached.
    pub fn get(&self, pos: IVec2) -> (distance: Option<u32>)
        requires
            self.wf(),
        ensures
            distance == distance_at(self@, pos.x as int, pos.y as int),
    {
        match self.cell(pos) {
            Some(value) => if value == UNRESOLVED {
                None
            } else {
                Some(value)
            },
            None => None,
        }
    }

    /// What the cell at a coordinate holds: `None` outside the field, for a
    /// wall and for a tile not yet seeded, [`UNRESOLVED`] for floor that no
    /// sweep has reached, else the distance.
    pub fn cell(&self, pos: IVec2) -> (value: Option<u32>)
        requires
            self.wf(),
        ensures
            value == cell_at(self@, pos.x as int, pos.y as int),
    {
        if pos.x < 0 || pos.y < 0 {
            return None;
        }
        match array_get(&self.values, pos.x as usize, pos.y as usize) {
            Some(value) => value,
            None => None,
        }
    }

    /// Sets every cell to `None`.
    pub fn reset(&mut self)
        requires
            old(self).wf(),
        ensures
            old(self).reshaped(*final(self)),
            forall|x: int, y: int| cell_at(final(self)@, x, y) is None,
    {
        array_fill(&mut self.values, None);
    }

    fn at(&self, x: usize, y: usize) -> (value: Option<u32>)
        requires
            self.wf(),
            x < self.width(),
            y < self.height(),
        ensures
            value == self@[x as int][y as int],
    {
        match array_get(&self.values, x, y) {
            Some(value) => value,
            None => None,
        }
    }

    /// Relaxes the cell `(x, y)` in place and tells whether it changed.
    fn relax(&mut self, x: usize, y: usize) -> (changed: bool)
        requires
            old(self).wf(),
            x < old(self).width(),
            y < old(self).height(),
        ensures
            old(self).reshaped(*final(self)),
            final(self)@ == relaxed(old(self)@, x as int, y as int),
            changed == (final(self)@[x as int][y as int] != old(self)@[x as int][y as int]),
            !changed ==> final(self)@ == old(self)@,
    {
        let ghost start = self@;
        match self.at(x, y) {
            None => {
                assert(start[x as int].update(y as int, start[x as int][y as int])
                    =~= start[x as int]);
                assert(start.update(x as int, start[x as int]) =~= start);
                false
            },
            Some(own) => {
                let left: usize = if x > 0 {
                    x - 1
                } else {
                    0
                };
                let right: usize = if x + 1 < self.width {
                    x + 1
                } else {
                    x
                };
                let up: usize = if y > 0 {
                    y - 1
                } else {
                    0
                };
                let down: usize = if y + 1 < self.height {
                    y + 1
                } else {
                    y
                };
                let mut least: u32 = lesser(own, self.at(left, y));
                least = lesser(least, self.at(right, y));
                least = lesser(least, self.at(x, up));
                least = lesser(least, self.at(x, down));
                if least < own && least + 1 < own {
                    array_set(&mut self.values, x, y, Some(least + 1));
                    true
                } else {
                    assert(start[x as int].update(y as int, start[x as int][y as int])
                        =~= start[x as int]);
                    assert(start.update(x as int, start[x as int]) =~= start);
                    false
                }
            },
        }
    }

    /// Relaxes the cells of column `x` in place, `y` ascending, and tells
    /// whether any changed.
    fn sweep_column(&mut self, x: usize) -> (changed: bool)
        requires
            old(self).wf(),
            x < old(self).width(),
        ensures
            old(self).reshaped(*final(self)),
            final(self)@ == swept_column(old(self)@, x as int, old(self).height() as nat),
            changed == (final(self)@ != old(self)@),
            forall|i: int|
                0 <= i < old(self).width() && i != x ==> #[trigger] final(self)@[i]
                    == old(self)@[i],
    {
        let ghost start = self@;
        let ghost mut witness: int = 0;
        let mut changed: bool = false;
        let mut y: usize = 0;
        while y < self.height
            invariant
                old(self).reshaped(*self),
                x < self.width(),
                y <= self.height(),
                start == old(self)@,
                self@ == swept_column(start, x as int, y as nat),
                forall|i: int| 0 <= i < self.width() && i != x ==> #[trigger] self@[i] == start[i],
                forall|j: int|
                    y <= j < self.height() ==> #[trigger] self@[x as int][j] == start[x as int][j],
                changed ==> 0 <= witness < y && self@[x as int][witness] != start[x as int][witness],
                !changed ==> self@ == start,
            decreases self.height() - y,
        {
            let moved: bool = self.relax(x, y);
            if moved {
                changed = true;
                proof {
                    witness = y as int;
                }
            }
            y = y + 1;
        }
        changed
    }

    /// Relaxes every cell in place once, `x` outermost, and tells whether any
    /// changed.
    pub fn sweep(&mut self) -> (changed: bool)
        requires
            old(self).wf(),
        ensures
            old(self).reshaped(*final(self)),
            final(self)@ == swept(old(self)@),
            changed == (final(self)@ != old(self)@),
    {
        let ghost start = self@;
        let ghost mut witness: int = 0;
        let mut changed: bool = false;
        let mut x: usize = 0;
        while x < self.width
            invariant
                old(self).reshaped(*self),
                x <= self.width(),
                start == old(self)@,
                self@ == swept_columns(start, x as nat),
                forall|i: int| x <= i < self.width() ==> #[trigger] self@[i] == start[i],
                changed ==> 0 <= witness < x && self@[witness] != start[witness],
                !changed ==> self@ == start,
            decreases self.width() - x,
        {
            let ghost before = self@;
            let moved: bool = self.sweep_column(x);
            if moved {
                changed = true;
                proof {
                    if self@[x as int] == before[x as int] {
                        assert(self@ =~= before);
                    }
                    witness = x as int;
                }
            }
            x = x + 1;
        }
        changed
    }

    /// Sweeps until a sweep changes nothing, at most [`MAX_ITERATIONS`]
    /// times, and tells whether one did.
    pub fn generate(&mut self) -> (converged: bool)
        requires
            old(self).wf(),
        ensures
            old(self).reshaped(*final(self)),
            final(self)@ == relaxation(old(self)@, MAX_ITERATIONS as nat),
            converged == converges(old(self)@, MAX_ITERATIONS as nat),
            converged ==> swept(final(self)@) == final(self)@,
    {
        let ghost start = self@;
        proof {
            if converges(start, MAX_ITERATIONS as nat) {
                lemma_converged_is_fixed(start, MAX_ITERATIONS as nat);
            }
        }
        let mut dirty: bool = true;
        let mut n: u32 = 0;
        while dirty && n < MAX_ITERATIONS
            invariant
                old(self).reshaped(*self),
                n <= MAX_ITERATIONS,
                start == old(self)@,
                dirty ==> relaxation(start, MAX_ITERATIONS as nat) == relaxation(
                    self@,
                    (MAX_ITERATIONS - n) as nat,
                ),
                dirty ==> converges(start, MAX_ITERATIONS as nat) == converges(
                    self@,
                    (MAX_ITERATIONS - n) as nat,
                ),
                !dirty ==> relaxation(start, MAX_ITERATIONS as nat) == self@,
                !dirty ==> converges(start, MAX_ITERATIONS as nat),
            decreases MAX_ITERATIONS - n, dirty as int,
        {
            dirty = self.sweep();
            n = n + 1;
        }
        !dirty
    }
}

/// The lesser of a distance and a neighbour's.
fn lesser(least: u32, other: Option<u32>) -> (r: u32)
    ensures
        r == lower(least, other),
        r <= least,
{
    match other {
        Some(v) => if v < least {
            v
        } else {
            least
        },
        None => least,
    }
}

/// Tells whether a goal marks the tile.
pub fn goal_at(goals: &Vec<Goal>, pos: TilePos) -> (found: bool)
    ensures
        found == is_goal(goals@, pos.x as int, pos.y as int),
{
    let mut i: usize = 0;
    while i < goals.len()
        invariant
            i <= goals.len(),
            forall|k: int| 0 <= k < i ==> !((#[trigger] goals[k]).0.x == pos.x && goals[k].0.y == pos.y),
        decreases goals.len() - i,
    {
        if goals[i].0.x == pos.x && goals[i].0.y == pos.y {
            return true;
        }
        i = i + 1;
    }
    false
}

/// Seeds column `x` of the field from the tiles and goals.
fn seed_column(dmap: &mut DMap, tiles: &TileGrid, goals: &Vec<Goal>, x: usize)
    requires
        old(dmap).wf(),
        tiles.wf(),
        tiles.size().x == old(dmap).width(),
        tiles.size().y == old(dmap).height(),
        x < old(dmap).width(),
    ensures
        old(dmap).reshaped(*final(dmap)),
        final(dmap)@[x as int] == seeded(*tiles, goals@)[x as int],
        forall|i: int|
            0 <= i < old(dmap).width() && i != x ==> #[trigger] final(dmap)@[i] == old(dmap)@[i],
{
    let ghost start = dmap@;
    let mut y: usize = 0;
    while y < dmap.height
        invariant
            old(dmap).reshaped(*dmap),
            tiles.wf(),
            tiles.size().x == dmap.width(),
            tiles.size().y == dmap.height(),
            x < dmap.width(),
            y <= dmap.height(),
            start == old(dmap)@,
            forall|i: int| 0 <= i < dmap.width() && i != x ==> #[trigger] dmap@[i] == start[i],
            forall|j: int|
                0 <= j < y ==> #[trigger] dmap@[x as int][j] == seeded(*tiles, goals@)[x as int][j],
        decreases dmap.height() - y,
    {
        let pos: TilePos = TilePos { x: x as u32, y: y as u32 };
        let goal: bool = goal_at(goals, pos);
        let value: Option<u32> = if goal {
            Some(0)
        } else {
            match tiles.get(pos) {
                Some(tile) => match tile.tile_type {
                    TileType::Floor => Some(UNRESOLVED),
                    TileType::Wall => None,
                },
                None => None,
            }
        };
        array_set(&mut dmap.values, x, y, value);
        y = y + 1;
    }
    assert(dmap@[x as int] =~= seeded(*tiles, goals@)[x as int]);
}

/// Recomputes a flow field from its tile grid and the goals.
///
/// Without a goal nothing happens. Otherwise every cell is seeded (zero for
/// a goal, unresolved for floor, nothing for a wall) and the field is
/// relaxed; the result tells whether the relaxation converged.
pub fn update_dmap(dmap: &mut DMap, tiles: &TileGrid, goals: &Vec<Goal>) -> (outcome: Recompute)
    requires
        old(dmap).wf(),
        tiles.wf(),
        tiles.size().x == old(dmap).width(),
        tiles.size().y == old(dmap).height(),
    ensures
        old(dmap).reshaped(*final(dmap)),
        final(dmap)@ == recomputed(old(dmap)@, *tiles, goals@),
        outcome == if goals.len() == 0 {
            Recompute::Skipped
        } else if converges(seeded(*tiles, goals@), MAX_ITERATIONS as nat) {
            Recompute::Converged
        } else {
            Recompute::Unsettled
        },
        outcome == Recompute::Converged ==> swept(final(dmap)@) == final(dmap)@,
        goals.len() > 0 ==> forall|x: int, y: int|
            0 <= x < tiles.size().x && 0 <= y < tiles.size().y ==> (#[trigger] distance_at(
                final(dmap)@,
                x,
                y,
            ) matches Some(v) ==> within_reach(goals@, x, y, v as int)),
        goals.len() > 0 ==> forall|x: int, y: int|
            0 <= x < tiles.size().x && 0 <= y < tiles.size().y ==> {
                &&& is_goal(goals@, x, y) ==> (#[trigger] final(dmap)@[x][y]) == Some(0u32)
                &&& !is_goal(goals@, x, y) && tiles.type_at(x, y) == TileType::Wall
                    ==> final(dmap)@[x][y] is None
            },
{
    if goals.len() == 0 {
        return Recompute::Skipped;
    }
    proof {
        assert forall|x: int, y: int|
            0 <= x < tiles.size().x && 0 <= y < tiles.size().y implies {
            &&& is_goal(goals@, x, y) ==> (#[trigger] recomputed(dmap@, *tiles, goals@)[x][y])
                == Some(0u32)
            &&& !is_goal(goals@, x, y) && tiles.type_at(x, y) == TileType::Wall ==> recomputed(
                dmap@,
                *tiles,
                goals@,
            )[x][y] is None
        } by {
            lemma_recomputed_pins(dmap@, *tiles, goals@, x, y);
        }
        assert forall|x: int, y: int|
            0 <= x < tiles.size().x && 0 <= y < tiles.size().y implies (#[trigger] distance_at(
            recomputed(dmap@, *tiles, goals@),
            x,
            y,
        ) matches Some(v) ==> within_reach(goals@, x, y, v as int)) by {
            lemma_no_shortcut(dmap@, *tiles, goals@, x, y);
        }
    }
    dmap.reset();
    let mut x: usize = 0;
    while x < dmap.width
        invariant
            old(dmap).reshaped(*dmap),
            tiles.wf(),
            tiles.size().x == dmap.width(),
            tiles.size().y == dmap.height(),
            x <= dmap.width(),
            forall|i: int| 0 <= i < x ==> #[trigger] dmap@[i] == seeded(*tiles, goals@)[i],
        decreases dmap.width() - x,
    {
        seed_column(dmap, tiles, goals, x);
        x = x + 1;
    }
    assert(dmap@ =~= seeded(*tiles, goals@));
    if dmap.generate() {
        Recompute::Converged
    } else {
        Recompute::Unsettled
    }
}

} // verus!
