//! A uniform bucket grid over points, for queries around a centre.
//!
//! Points are filed by the cell they fall in. A query visits the cells that
//! the square around its centre touches, row by row, and within a cell the
//! points in the order in which they were inserted, and keeps those closer
//! to the centre than the radius. Cells that the square does not touch hold
//! no such point, so the answer is the same as if every cell were visited.

use crate::geometry::{IVec2, UVec2, MAX_SIDE};
use vstd::prelude::*;
use vstd::seq_lib::{
    lemma_seq_concat_contains_all_elements, lemma_seq_contains_after_push,
    lemma_seq_empty_contains_nothing,
};

verus! {

/// The cell along one axis that holds the coordinate `v`.
pub open spec fn cell_of(v: int, cell_size: int) -> int {
    v / cell_size
}

/// The handles below `upto` of the points in the cell `(cx, cy)`, ascending.
pub open spec fn members(points: Seq<IVec2>, cell_size: int, cx: int, cy: int, upto: nat) -> Seq<
    usize,
>
    decreases upto,
{
    if upto == 0 {
        Seq::empty()
    } else {
        let before = members(points, cell_size, cx, cy, (upto - 1) as nat);
        let p = points[upto - 1];
        if cell_of(p.x as int, cell_size) == cx && cell_of(p.y as int, cell_size) == cy {
            before.push((upto - 1) as usize)
        } else {
            before
        }
    }
}

/// Whether `point` is closer to `center` than `radius`.
pub open spec fn near(point: IVec2, center: IVec2, radius: int) -> bool {
    (point.x - center.x) * (point.x - center.x) + (point.y - center.y) * (point.y - center.y)
        < radius * radius
}

/// Those of `handles`, in their order, whose points are near the centre.
pub open spec fn near_of(handles: Seq<usize>, points: Seq<IVec2>, center: IVec2, radius: int)
    -> Seq<usize>
    decreases handles.len(),
{
    if handles.len() == 0 {
        Seq::empty()
    } else {
        let before = near_of(handles.drop_last(), points, center, radius);
        if near(points[handles.last() as int], center, radius) {
            before.push(handles.last())
        } else {
            before
        }
    }
}

/// The near points of the first `upto` cells of row `cy`.
pub open spec fn gathered_row(
    points: Seq<IVec2>,
    cell_size: int,
    center: IVec2,
    radius: int,
    cy: int,
    upto: nat,
) -> Seq<usize>
    decreases upto,
{
    if upto == 0 {
        Seq::empty()
    } else {
        gathered_row(points, cell_size, center, radius, cy, (upto - 1) as nat) + near_of(
            members(points, cell_size, upto - 1, cy, points.len()),
            points,
            center,
            radius,
        )
    }
}

/// The near points of the first `upto` rows of `columns` cells each.
pub open spec fn gathered(
    points: Seq<IVec2>,
    cell_size: int,
    columns: nat,
    center: IVec2,
    radius: int,
    upto: nat,
) -> Seq<usize>
    decreases upto,
{
    if upto == 0 {
        Seq::empty()
    } else {
        gathered(points, cell_size, columns, center, radius, (upto - 1) as nat) + gathered_row(
            points,
            cell_size,
            center,
            radius,
            upto - 1,
            columns,
        )
    }
}

/// The handles, in the order of a query, of the points closer to `center`
/// than `radius`, in a grid of cells of side `cell_size` over the region
/// `[0, extent.x] x [0, extent.y]`.
pub open spec fn found_around(
    points: Seq<IVec2>,
    cell_size: int,
    extent: UVec2,
    center: IVec2,
    radius: int,
) -> Seq<usize> {
    gathered(
        points,
        cell_size,
        ((extent.x as int) / cell_size + 1) as nat,
        center,
        radius,
        ((extent.y as int) / cell_size + 1) as nat,
    )
}

/// A coordinate brought into `[0, extent]`.
pub open spec fn clamped(v: int, extent: int) -> int {
    if v < 0 {
        0
    } else if v > extent {
        extent
    } else {
        v
    }
}

/// A bucket grid over the points of the region `[0, extent.x] x [0, extent.y]`.
pub struct SpatialIndex {
    cell_size: u32,
    extent: UVec2,
    points: Vec<IVec2>,
    rows: Vec<Vec<Vec<usize>>>,
}

impl SpatialIndex {
    /// The points in the order in which they were inserted; a point's handle
    /// is its place in this sequence.
    pub closed spec fn view(&self) -> Seq<IVec2> {
        self.points@
    }

    /// The side of a cell.
    pub closed spec fn cell_size(&self) -> int {
        self.cell_size as int
    }

    /// The corner of the region opposite the origin.
    pub closed spec fn extent(&self) -> UVec2 {
        self.extent
    }

    /// How many cells a row has.
    pub open spec fn columns(&self) -> int {
        (self.extent().x as int) / self.cell_size() + 1
    }

    /// How many rows of cells there are.
    pub open spec fn row_count(&self) -> int {
        (self.extent().y as int) / self.cell_size() + 1
    }

    /// Whether the region holds the point.
    pub open spec fn holds(&self, point: IVec2) -> bool {
        0 <= point.x <= self.extent().x && 0 <= point.y <= self.extent().y
    }

    /// The buckets hold exactly the points that fall in their cells.
    pub closed spec fn wf(&self) -> bool {
        &&& self.cell_size > 0
        &&& self.extent.x <= MAX_SIDE
        &&& self.extent.y <= MAX_SIDE
        &&& forall|i: int| 0 <= i < self.points.len() ==> self.holds(#[trigger] self.points[i])
        &&& self.rows.len() == self.row_count()
        &&& forall|cy: int|
            0 <= cy < self.rows.len() ==> (#[trigger] self.rows[cy]).len() == self.columns()
        &&& forall|cy: int, cx: int|
            0 <= cy < self.rows.len() && 0 <= cx < self.columns() ==> (#[trigger] self.rows[cy][cx])@
                == members(self.points@, self.cell_size as int, cx, cy, self.points.len() as nat)
    }

    /// The handles, in the order of a query, of the points that are closer
    /// to `center` than `radius`.
    pub open spec fn around(&self, center: IVec2, radius: int) -> Seq<usize> {
        found_around(self@, self.cell_size(), self.extent(), center, radius)
    }

    /// An empty index with cells of the given side.
    pub fn new(cell_size: u32, extent: UVec2) -> (index: SpatialIndex)
        requires
            cell_size > 0,
            extent.x <= MAX_SIDE,
            extent.y <= MAX_SIDE,
        ensures
            index.wf(),
            index@.len() == 0,
            index.cell_size() == cell_size,
            index.extent() == extent,
    {
        let columns: u32 = extent.x / cell_size + 1;
        let row_count: u32 = extent.y / cell_size + 1;
        let mut rows: Vec<Vec<Vec<usize>>> = Vec::new();
        let mut cy: u32 = 0;
        while cy < row_count
            invariant
                cy <= row_count,
                rows.len() == cy,
                forall|r: int| 0 <= r < rows.len() ==> (#[trigger] rows[r]).len() == columns,
                forall|r: int, c: int|
                    0 <= r < rows.len() && 0 <= c < columns ==> (#[trigger] rows[r][c])@
                        == Seq::<usize>::empty(),
            decreases row_count - cy,
        {
            let mut row: Vec<Vec<usize>> = Vec::new();
            let mut cx: u32 = 0;
            while cx < columns
                invariant
                    cx <= columns,
                    row.len() == cx,
                    forall|c: int| 0 <= c < row.len() ==> (#[trigger] row[c])@ == Seq::<usize>::empty(),
                decreases columns - cx,
            {
                row.push(Vec::new());
                cx = cx + 1;
            }
            rows.push(row);
            cy = cy + 1;
        }
        SpatialIndex { cell_size, extent, points: Vec::new(), rows }
    }

    /// The first and the last cell along one axis that the span
    /// `center - radius ..= center + radius` touches within the region.
    fn window(&self, center: i32, radius: u32, extent: u32) -> (cells: (usize, usize))
        requires
            self.wf(),
            extent <= MAX_SIDE,
        ensures
            cells.0 == cell_of(clamped(center - radius, extent as int), self.cell_size()),
            cells.1 == cell_of(clamped(center + radius, extent as int), self.cell_size()),
            cells.0 <= cells.1 < (extent as int) / self.cell_size() + 1,
    {
        let low: i64 = center as i64 - radius as i64;
        let high: i64 = center as i64 + radius as i64;
        let first: u32 = if low < 0 {
            0
        } else if low > extent as i64 {
            extent
        } else {
            low as u32
        };
        let last: u32 = if high < 0 {
            0
        } else if high > extent as i64 {
            extent
        } else {
            high as u32
        };
        proof {
            lemma_cell_in_grid(last as int, extent as int, self.cell_size as int);
            lemma_cell_ordered(first as int, last as int, self.cell_size as int);
        }
        ((first / self.cell_size) as usize, (last / self.cell_size) as usize)
    }

    /// Tells whether a point of the index is closer to `center` than
    /// `radius`.
    fn is_near(&self, handle: usize, center: IVec2, radius: u32) -> (yes: bool)
        requires
            self.wf(),
            handle < self@.len(),
        ensures
            yes == near(self@[handle as int], center, radius as int),
    {
        let point: IVec2 = self.points[handle];
        let dx: i128 = point.x as i128 - center.x as i128;
        let dy: i128 = point.y as i128 - center.y as i128;
        let r: i128 = radius as i128;
        assert(0 <= dx * dx <= 0x1_0000_0000 * 0x1_0000_0000 && 0 <= dy * dy <= 0x1_0000_0000
            * 0x1_0000_0000 && 0 <= r * r <= 0x1_0000_0000 * 0x1_0000_0000) by (nonlinear_arith)
            requires
                -0x1_0000_0000 <= dx <= 0x1_0000_0000,
                -0x1_0000_0000 <= dy <= 0x1_0000_0000,
                0 <= r <= 0x1_0000_0000,
        ;
        dx * dx + dy * dy < r * r
    }

    /// Appends the near points of one cell.
    fn scan_cell(&self, cx: usize, cy: usize, center: IVec2, radius: u32, found: &mut Vec<usize>)
        requires
            self.wf(),
            cx < self.columns(),
            cy < self.row_count(),
        ensures
            final(found)@ == old(found)@ + near_of(
                members(self@, self.cell_size(), cx as int, cy as int, self@.len()),
                self@,
                center,
                radius as int,
            ),
    {
        let bucket: &Vec<usize> = &self.rows[cy][cx];
        let ghost start = found@;
        let ghost listed = members(self@, self.cell_size(), cx as int, cy as int, self@.len());
        assert(bucket@ == listed);
        let mut k: usize = 0;
        assert(bucket@.take(0) =~= Seq::<usize>::empty());
        while k < bucket.len()
            invariant
                self.wf(),
                k <= bucket.len(),
                bucket@ == listed,
                listed == members(self@, self.cell_size(), cx as int, cy as int, self@.len()),
                found@ == start + near_of(bucket@.take(k as int), self@, center, radius as int),
            decreases bucket.len() - k,
        {
            let handle: usize = bucket[k];
            proof {
                lemma_members_bounded(
                    self@,
                    self.cell_size(),
                    cx as int,
                    cy as int,
                    self@.len(),
                    k as int,
                );
                assert(bucket@.take(k + 1).drop_last() =~= bucket@.take(k as int));
                assert(bucket@.take(k + 1).last() == handle);
            }
            if self.is_near(handle, center, radius) {
                found.push(handle);
                assert(found@ =~= start + near_of(
                    bucket@.take(k + 1),
                    self@,
                    center,
                    radius as int,
                ));
            }
            k = k + 1;
        }
        assert(bucket@.take(bucket.len() as int) =~= bucket@);
    }

    /// Appends the near points of one row that the query's square touches.
    fn scan_row(
        &self,
        cy: usize,
        first: usize,
        last: usize,
        center: IVec2,
        radius: u32,
        found: &mut Vec<usize>,
    )
        requires
            self.wf(),
            cy < self.row_count(),
            first == cell_of(
                clamped(center.x - radius, self.extent().x as int),
                self.cell_size(),
            ),
            last == cell_of(clamped(center.x + radius, self.extent().x as int), self.cell_size()),
            first <= last < self.columns(),
        ensures
            final(found)@ == old(found)@ + gathered_row(
                self@,
                self.cell_size(),
                center,
                radius as int,
                cy as int,
                self.columns() as nat,
            ),
    {
        let ghost start = found@;
        let mut cx: usize = first;
        proof {
            self.lemma_columns_before(center, radius as int, cy as int, first as nat);
            assert(start + Seq::<usize>::empty() =~= start);
        }
        while cx <= last
            invariant
                self.wf(),
                cy < self.row_count(),
                first <= cx <= last + 1,
                last < self.columns(),
                found@ == start + gathered_row(
                    self@,
                    self.cell_size(),
                    center,
                    radius as int,
                    cy as int,
                    cx as nat,
                ),
            decreases last + 1 - cx,
        {
            self.scan_cell(cx, cy, center, radius, found);
            assert(found@ =~= start + gathered_row(
                self@,
                self.cell_size(),
                center,
                radius as int,
                cy as int,
                (cx + 1) as nat,
            ));
            cx = cx + 1;
        }
        proof {
            self.lemma_columns_after(
                center,
                radius as int,
                cy as int,
                (last + 1) as nat,
                self.columns() as nat,
            );
        }
    }

    /// The handles of the points closer to `center` than `radius`: cell by
    /// cell along each row, row after row, and within a cell in the order of
    /// insertion.
    pub fn query_around(&self, center: IVec2, radius: u32) -> (found: Vec<usize>)
        requires
            self.wf(),
        ensures
            found@ == self.around(center, radius as int),
            forall|k: int| 0 <= k < found.len() ==> #[trigger] found[k] < self@.len(),
    {
        let across: (usize, usize) = self.window(center.x, radius, self.extent.x);
        let down: (usize, usize) = self.window(center.y, radius, self.extent.y);
        let mut found: Vec<usize> = Vec::new();
        let mut cy: usize = down.0;
        proof {
            self.lemma_rows_before(center, radius as int, down.0 as nat);
        }
        while cy <= down.1
            invariant
                self.wf(),
                down.0 <= cy <= down.1 + 1,
                down.1 < self.row_count(),
                across.0 == cell_of(
                    clamped(center.x - radius, self.extent().x as int),
                    self.cell_size(),
                ),
                across.1 == cell_of(
                    clamped(center.x + radius, self.extent().x as int),
                    self.cell_size(),
                ),
                across.0 <= across.1 < self.columns(),
                found@ == gathered(
                    self@,
                    self.cell_size(),
                    self.columns() as nat,
                    center,
                    radius as int,
                    cy as nat,
                ),
            decreases down.1 + 1 - cy,
        {
            self.scan_row(cy, across.0, across.1, center, radius, &mut found);
            cy = cy + 1;
        }
        proof {
            self.lemma_rows_after(
                center,
                radius as int,
                (down.1 + 1) as nat,
                self.row_count() as nat,
            );
            self.lemma_found_are_handles(center, radius as int);
            assert forall|k: int| 0 <= k < found.len() implies #[trigger] found[k] < self@.len() by {
                assert(self.around(center, radius as int)[k] < self@.len());
            }
        }
        found
    }

    /// A cell that the query's square does not touch holds no near point.
    proof fn lemma_far_cell(&self, center: IVec2, radius: int, cx: int, cy: int, upto: nat)
        requires
            self.wf(),
            radius >= 0,
            upto <= self@.len(),
            cx < cell_of(clamped(center.x - radius, self.extent().x as int), self.cell_size())
                || cx > cell_of(
                clamped(center.x + radius, self.extent().x as int),
                self.cell_size(),
            ) || cy < cell_of(clamped(center.y - radius, self.extent().y as int), self.cell_size())
                || cy > cell_of(
                clamped(center.y + radius, self.extent().y as int),
                self.cell_size(),
            ),
        ensures
            near_of(members(self@, self.cell_size(), cx, cy, upto), self@, center, radius)
                == Seq::<usize>::empty(),
        decreases upto,
    {
        if upto > 0 {
            self.lemma_far_cell(center, radius, cx, cy, (upto - 1) as nat);
            let before = members(self@, self.cell_size(), cx, cy, (upto - 1) as nat);
            let p = self@[upto - 1];
            assert(self.holds(p));
            if cell_of(p.x as int, self.cell_size()) == cx && cell_of(p.y as int, self.cell_size())
                == cy {
                assert(before.push((upto - 1) as usize).drop_last() =~= before);
                if near(p, center, radius) {
                    lemma_near_within(p.x as int, p.y as int, center.x as int, center.y as int, radius);
                    lemma_cell_ordered(
                        clamped(center.x - radius, self.extent().x as int),
                        p.x as int,
                        self.cell_size(),
                    );
                    lemma_cell_ordered(
                        p.x as int,
                        clamped(center.x + radius, self.extent().x as int),
                        self.cell_size(),
                    );
                    lemma_cell_ordered(
                        clamped(center.y - radius, self.extent().y as int),
                        p.y as int,
                        self.cell_size(),
                    );
                    lemma_cell_ordered(
                        p.y as int,
                        clamped(center.y + radius, self.extent().y as int),
                        self.cell_size(),
                    );
                }
            }
        }
    }

    /// The cells of a row before the query's square hold no near point.
    proof fn lemma_columns_before(&self, center: IVec2, radius: int, cy: int, upto: nat)
        requires
            self.wf(),
            radius >= 0,
            upto <= cell_of(clamped(center.x - radius, self.extent().x as int), self.cell_size()),
        ensures
            gathered_row(self@, self.cell_size(), center, radius, cy, upto) == Seq::<usize>::empty(),
        decreases upto,
    {
        if upto > 0 {
            self.lemma_columns_before(center, radius, cy, (upto - 1) as nat);
            self.lemma_far_cell(center, radius, upto - 1, cy, self@.len());
        }
    }

    /// The cells of a row after the query's square hold no near point.
    proof fn lemma_columns_after(&self, center: IVec2, radius: int, cy: int, from: nat, upto: nat)
        requires
            self.wf(),
            radius >= 0,
            cell_of(clamped(center.x + radius, self.extent().x as int), self.cell_size()) < from
                <= upto,
        ensures
            gathered_row(self@, self.cell_size(), center, radius, cy, upto) == gathered_row(
                self@,
                self.cell_size(),
                center,
                radius,
                cy,
                from,
            ),
        decreases upto,
    {
        if upto > from {
            self.lemma_columns_after(center, radius, cy, from, (upto - 1) as nat);
            self.lemma_far_cell(center, radius, upto - 1, cy, self@.len());
            assert(gathered_row(self@, self.cell_size(), center, radius, cy, (upto - 1) as nat)
                + Seq::<usize>::empty() =~= gathered_row(
                self@,
                self.cell_size(),
                center,
                radius,
                cy,
                (upto - 1) as nat,
            ));
        }
    }

    /// A row that the query's square does not touch holds no near point.
    proof fn lemma_far_row(&self, center: IVec2, radius: int, cy: int, upto: nat)
        requires
            self.wf(),
            radius >= 0,
            cy < cell_of(clamped(center.y - radius, self.extent().y as int), self.cell_size())
                || cy > cell_of(
                clamped(center.y + radius, self.extent().y as int),
                self.cell_size(),
            ),
        ensures
            gathered_row(self@, self.cell_size(), center, radius, cy, upto) == Seq::<usize>::empty(),
        decreases upto,
    {
        if upto > 0 {
            self.lemma_far_row(center, radius, cy, (upto - 1) as nat);
            self.lemma_far_cell(center, radius, upto - 1, cy, self@.len());
        }
    }

    /// The rows before the query's square hold no near point.
    proof fn lemma_rows_before(&self, center: IVec2, radius: int, upto: nat)
        requires
            self.wf(),
            radius >= 0,
            upto <= cell_of(clamped(center.y - radius, self.extent().y as int), self.cell_size()),
        ensures
            gathered(self@, self.cell_size(), self.columns() as nat, center, radius, upto)
                == Seq::<usize>::empty(),
        decreases upto,
    {
        if upto > 0 {
            self.lemma_rows_before(center, radius, (upto - 1) as nat);
            self.lemma_far_row(center, radius, upto - 1, self.columns() as nat);
        }
    }

    /// The rows after the query's square hold no near point.
    proof fn lemma_rows_after(&self, center: IVec2, radius: int, from: nat, upto: nat)
        requires
            self.wf(),
            radius >= 0,
            cell_of(clamped(center.y + radius, self.extent().y as int), self.cell_size()) < from
                <= upto,
        ensures
            gathered(self@, self.cell_size(), self.columns() as nat, center, radius, upto)
                == gathered(self@, self.cell_size(), self.columns() as nat, center, radius, from),
        decreases upto,
    {
        if upto > from {
            self.lemma_rows_after(center, radius, from, (upto - 1) as nat);
            self.lemma_far_row(center, radius, upto - 1, self.columns() as nat);
            assert(gathered(
                self@,
                self.cell_size(),
                self.columns() as nat,
                center,
                radius,
                (upto - 1) as nat,
            ) + Seq::<usize>::empty() =~= gathered(
                self@,
                self.cell_size(),
                self.columns() as nat,
                center,
                radius,
                (upto - 1) as nat,
            ));
        }
    }

    /// What a query finds are handles of points of the index.
    proof fn lemma_found_are_handles(&self, center: IVec2, radius: int)
        requires
            self.wf(),
        ensures
            forall|k: int|
                0 <= k < self.around(center, radius).len() ==> #[trigger] self.around(
                    center,
                    radius,
                )[k] < self@.len(),
    {
        lemma_gathered_bounded(
            self@,
            self.cell_size(),
            self.columns() as nat,
            center,
            radius,
            self.row_count() as nat,
        );
    }

    /// How many points the index holds.
    pub fn len(&self) -> (n: usize)
        ensures
            n == self@.len(),
    {
        self.points.len()
    }

    /// Files a point of the region and returns its handle.
    pub fn insert(&mut self, point: IVec2) -> (handle: usize)
        requires
            old(self).wf(),
            old(self).holds(point),
        ensures
            final(self).wf(),
            final(self)@ == old(self)@.push(point),
            final(self).cell_size() == old(self).cell_size(),
            final(self).extent() == old(self).extent(),
            handle == old(self)@.len(),
    {
        let handle: usize = self.points.len();
        let cx: usize = (point.x as u32 / self.cell_size) as usize;
        let cy: usize = (point.y as u32 / self.cell_size) as usize;
        proof {
            lemma_cell_in_grid(point.x as int, self.extent.x as int, self.cell_size as int);
            lemma_cell_in_grid(point.y as int, self.extent.y as int, self.cell_size as int);
        }
        let ghost before = self.rows@;
        let ghost earlier = self.points@;
        self.points.push(point);
        self.rows[cy][cx].push(handle);
        proof {
            assert(self.points@.drop_last() =~= earlier);
            assert forall|r: int, c: int|
                0 <= r < self.rows.len() && 0 <= c < self.columns() implies (#[trigger] self.rows[r][c])@
                == members(self.points@, self.cell_size as int, c, r, self.points.len() as nat) by {
                assert(before[r][c]@ == members(
                    earlier,
                    self.cell_size as int,
                    c,
                    r,
                    earlier.len() as nat,
                ));
                lemma_members_extend(
                    earlier,
                    point,
                    self.cell_size as int,
                    c,
                    r,
                    earlier.len() as nat,
                );
            }
        }
        handle
    }
}

/// A coordinate of the region falls in a cell of the grid.
proof fn lemma_cell_in_grid(v: int, extent: int, cell_size: int)
    requires
        0 <= v <= extent,
        cell_size > 0,
    ensures
        0 <= v / cell_size < extent / cell_size + 1,
{
    assert(0 <= v / cell_size <= extent / cell_size) by (nonlinear_arith)
        requires
            0 <= v <= extent,
            cell_size > 0,
    ;
}

/// Cells are ordered as the coordinates in them.
proof fn lemma_cell_ordered(a: int, b: int, cell_size: int)
    requires
        a <= b,
        cell_size > 0,
    ensures
        a / cell_size <= b / cell_size,
{
    assert(a / cell_size <= b / cell_size) by (nonlinear_arith)
        requires
            a <= b,
            cell_size > 0,
    ;
}

/// A point closer to the centre than the radius lies strictly within the
/// square around the centre.
proof fn lemma_near_within(px: int, py: int, cx: int, cy: int, radius: int)
    requires
        radius >= 0,
        (px - cx) * (px - cx) + (py - cy) * (py - cy) < radius * radius,
    ensures
        cx - radius < px < cx + radius,
        cy - radius < py < cy + radius,
{
    let dx = px - cx;
    let dy = py - cy;
    assert(-radius < dx < radius && -radius < dy < radius) by (nonlinear_arith)
        requires
            radius >= 0,
            dx * dx + dy * dy < radius * radius,
    ;
}

/// The members of a cell among the first `upto` points are handles below
/// `upto`.
proof fn lemma_members_bounded(
    points: Seq<IVec2>,
    cell_size: int,
    cx: int,
    cy: int,
    upto: nat,
    k: int,
)
    requires
        0 <= k < members(points, cell_size, cx, cy, upto).len(),
    ensures
        members(points, cell_size, cx, cy, upto)[k] < upto,
    decreases upto,
{
    if upto > 0 {
        let before = members(points, cell_size, cx, cy, (upto - 1) as nat);
        if k < before.len() {
            lemma_members_bounded(points, cell_size, cx, cy, (upto - 1) as nat, k);
        }
    }
}

/// The near ones among handles below `bound` are below `bound`.
proof fn lemma_near_bounded(
    handles: Seq<usize>,
    points: Seq<IVec2>,
    center: IVec2,
    radius: int,
    bound: int,
)
    requires
        forall|k: int| 0 <= k < handles.len() ==> #[trigger] handles[k] < bound,
    ensures
        forall|k: int|
            0 <= k < near_of(handles, points, center, radius).len() ==> #[trigger] near_of(
                handles,
                points,
                center,
                radius,
            )[k] < bound,
    decreases handles.len(),
{
    if handles.len() > 0 {
        lemma_near_bounded(handles.drop_last(), points, center, radius, bound);
        let before = near_of(handles.drop_last(), points, center, radius);
        let all = near_of(handles, points, center, radius);
        assert forall|k: int| 0 <= k < all.len() implies #[trigger] all[k] < bound by {
            if k < before.len() {
                assert(all[k] == before[k]);
            } else {
                assert(all[k] == handles.last());
                assert(handles[handles.len() - 1] < bound);
            }
        }
    }
}

proof fn lemma_gathered_row_bounded(
    points: Seq<IVec2>,
    cell_size: int,
    center: IVec2,
    radius: int,
    cy: int,
    upto: nat,
)
    ensures
        forall|k: int|
            0 <= k < gathered_row(points, cell_size, center, radius, cy, upto).len()
                ==> #[trigger] gathered_row(points, cell_size, center, radius, cy, upto)[k]
                < points.len(),
    decreases upto,
{
    if upto > 0 {
        lemma_gathered_row_bounded(points, cell_size, center, radius, cy, (upto - 1) as nat);
        let listed = members(points, cell_size, upto - 1, cy, points.len());
        assert forall|k: int| 0 <= k < listed.len() implies #[trigger] listed[k] < points.len() by {
            lemma_members_bounded(points, cell_size, upto - 1, cy, points.len(), k);
        }
        lemma_near_bounded(listed, points, center, radius, points.len() as int);
        let before = gathered_row(points, cell_size, center, radius, cy, (upto - 1) as nat);
        let here = near_of(listed, points, center, radius);
        let all = gathered_row(points, cell_size, center, radius, cy, upto);
        assert forall|k: int| 0 <= k < all.len() implies #[trigger] all[k] < points.len() by {
            if k < before.len() {
                assert(all[k] == before[k]);
            } else {
                assert(all[k] == here[k - before.len()]);
            }
        }
    }
}

proof fn lemma_gathered_bounded(
    points: Seq<IVec2>,
    cell_size: int,
    columns: nat,
    center: IVec2,
    radius: int,
    upto: nat,
)
    ensures
        forall|k: int|
            0 <= k < gathered(points, cell_size, columns, center, radius, upto).len()
                ==> #[trigger] gathered(points, cell_size, columns, center, radius, upto)[k]
                < points.len(),
    decreases upto,
{
    if upto > 0 {
        lemma_gathered_bounded(points, cell_size, columns, center, radius, (upto - 1) as nat);
        lemma_gathered_row_bounded(points, cell_size, center, radius, upto - 1, columns);
        let before = gathered(points, cell_size, columns, center, radius, (upto - 1) as nat);
        let here = gathered_row(points, cell_size, center, radius, upto - 1, columns);
        let all = gathered(points, cell_size, columns, center, radius, upto);
        assert forall|k: int| 0 <= k < all.len() implies #[trigger] all[k] < points.len() by {
            if k < before.len() {
                assert(all[k] == before[k]);
            } else {
                assert(all[k] == here[k - before.len()]);
            }
        }
    }
}

/// The members of a cell are the handles of the points that fall in it.
proof fn lemma_members_hold(
    points: Seq<IVec2>,
    cell_size: int,
    cx: int,
    cy: int,
    upto: nat,
    j: usize,
)
    requires
        upto <= points.len() <= usize::MAX,
    ensures
        members(points, cell_size, cx, cy, upto).contains(j) <==> (j < upto && cell_of(
            points[j as int].x as int,
            cell_size,
        ) == cx && cell_of(points[j as int].y as int, cell_size) == cy),
    decreases upto,
{
    if upto == 0 {
        lemma_seq_empty_contains_nothing(j);
    } else {
        lemma_members_hold(points, cell_size, cx, cy, (upto - 1) as nat, j);
        lemma_seq_contains_after_push(
            members(points, cell_size, cx, cy, (upto - 1) as nat),
            (upto - 1) as usize,
            j,
        );
    }
}

/// The near ones among handles are those whose points are near.
proof fn lemma_near_hold(
    handles: Seq<usize>,
    points: Seq<IVec2>,
    center: IVec2,
    radius: int,
    j: usize,
)
    ensures
        near_of(handles, points, center, radius).contains(j) <==> (handles.contains(j) && near(
            points[j as int],
            center,
            radius,
        )),
    decreases handles.len(),
{
    if handles.len() == 0 {
        lemma_seq_empty_contains_nothing(j);
        assert(handles =~= Seq::<usize>::empty());
    } else {
        lemma_near_hold(handles.drop_last(), points, center, radius, j);
        lemma_seq_contains_after_push(
            near_of(handles.drop_last(), points, center, radius),
            handles.last(),
            j,
        );
        lemma_seq_contains_after_push(handles.drop_last(), handles.last(), j);
        assert(handles.drop_last().push(handles.last()) =~= handles);
    }
}

/// What is gathered from the first cells of a row are the near points that
/// fall in them.
proof fn lemma_row_holds(
    points: Seq<IVec2>,
    cell_size: int,
    center: IVec2,
    radius: int,
    cy: int,
    upto: nat,
    j: usize,
)
    requires
        j < points.len() <= usize::MAX,
    ensures
        gathered_row(points, cell_size, center, radius, cy, upto).contains(j) <==> (cell_of(
            points[j as int].y as int,
            cell_size,
        ) == cy && 0 <= cell_of(points[j as int].x as int, cell_size) < upto && near(
            points[j as int],
            center,
            radius,
        )),
    decreases upto,
{
    if upto == 0 {
        lemma_seq_empty_contains_nothing(j);
    } else {
        lemma_row_holds(points, cell_size, center, radius, cy, (upto - 1) as nat, j);
        let listed = members(points, cell_size, upto - 1, cy, points.len());
        lemma_members_hold(points, cell_size, upto - 1, cy, points.len(), j);
        lemma_near_hold(listed, points, center, radius, j);
        lemma_seq_concat_contains_all_elements(
            gathered_row(points, cell_size, center, radius, cy, (upto - 1) as nat),
            near_of(listed, points, center, radius),
            j,
        );
    }
}

/// What is gathered from the first rows are the near points that fall in
/// them.
proof fn lemma_rows_hold(
    points: Seq<IVec2>,
    cell_size: int,
    columns: nat,
    center: IVec2,
    radius: int,
    upto: nat,
    j: usize,
)
    requires
        j < points.len() <= usize::MAX,
    ensures
        gathered(points, cell_size, columns, center, radius, upto).contains(j) <==> (0 <= cell_of(
            points[j as int].y as int,
            cell_size,
        ) < upto && 0 <= cell_of(points[j as int].x as int, cell_size) < columns && near(
            points[j as int],
            center,
            radius,
        )),
    decreases upto,
{
    if upto == 0 {
        lemma_seq_empty_contains_nothing(j);
    } else {
        lemma_rows_hold(points, cell_size, columns, center, radius, (upto - 1) as nat, j);
        lemma_row_holds(points, cell_size, center, radius, upto - 1, columns, j);
        lemma_seq_concat_contains_all_elements(
            gathered(points, cell_size, columns, center, radius, (upto - 1) as nat),
            gathered_row(points, cell_size, center, radius, upto - 1, columns),
            j,
        );
    }
}

/// A query finds a point of the region exactly when the point is closer to
/// the centre than the radius.
pub proof fn lemma_query_finds_near(
    points: Seq<IVec2>,
    cell_size: int,
    extent: UVec2,
    center: IVec2,
    radius: int,
    j: usize,
)
    requires
        cell_size > 0,
        j < points.len() <= usize::MAX,
        0 <= points[j as int].x <= extent.x,
        0 <= points[j as int].y <= extent.y,
    ensures
        found_around(points, cell_size, extent, center, radius).contains(j) <==> near(
            points[j as int],
            center,
            radius,
        ),
{
    lemma_cell_in_grid(points[j as int].x as int, extent.x as int, cell_size);
    lemma_cell_in_grid(points[j as int].y as int, extent.y as int, cell_size);
    lemma_rows_hold(
        points,
        cell_size,
        ((extent.x as int) / cell_size + 1) as nat,
        center,
        radius,
        ((extent.y as int) / cell_size + 1) as nat,
        j,
    );
}

/// The members of a cell among the first `upto` points do not depend on the
/// points after them.
proof fn lemma_members_extend(
    points: Seq<IVec2>,
    point: IVec2,
    cell_size: int,
    cx: int,
    cy: int,
    upto: nat,
)
    requires
        upto <= points.len(),
    ensures
        members(points.push(point), cell_size, cx, cy, upto) == members(
            points,
            cell_size,
            cx,
            cy,
            upto,
        ),
    decreases upto,
{
    if upto > 0 {
        lemma_members_extend(points, point, cell_size, cx, cy, (upto - 1) as nat);
    }
}

} // verus!
