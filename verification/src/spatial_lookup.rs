use vstd::prelude::*;

verus! {

/// The cell along one axis that holds the coordinate `p`, on an axis of
/// `count` cells that are `cell_size` wide each. Coordinates before the
/// first cell count as lying in it, coordinates past the last cell as lying
/// in the last.
pub open spec fn axis_cell(p: int, cell_size: int, count: int) -> int {
    if p < 0 {
        0
    } else if p / cell_size >= count {
        count - 1
    } else {
        p / cell_size
    }
}

/// `axis_cell` grows with the coordinate and stays on the axis.
pub proof fn lemma_axis_cell(p: int, q: int, cell_size: int, count: int)
    requires
        cell_size > 0,
        count > 0,
        p <= q,
    ensures
        0 <= axis_cell(p, cell_size, count) <= axis_cell(q, cell_size, count) < count,
{
    if 0 <= p {
        assert(0 <= p / cell_size <= q / cell_size) by (nonlinear_arith)
            requires
                0 <= p <= q,
                cell_size > 0,
        ;
    }
    if 0 <= q {
        assert(0 <= q / cell_size) by (nonlinear_arith)
            requires
                0 <= q,
                cell_size > 0,
        ;
    }
}

/// A rectangle of cells, both corners included.
pub struct CellBlock {
    pub x_lo: int,
    pub x_hi: int,
    pub y_lo: int,
    pub y_hi: int,
}

impl CellBlock {
    /// The cell lies in the rectangle.
    pub open spec fn contains(self, cell: (int, int)) -> bool {
        self.x_lo <= cell.0 <= self.x_hi && self.y_lo <= cell.1 <= self.y_hi
    }
}

/// What a `SpatialLookup` stands for: a uniform grid over the plane whose
/// cells hold particle indices. `cells[x][y]` is the cell whose corner lies
/// at `(x * cell_size, y * cell_size)`; it lists its indices in the order in
/// which they were filed.
pub struct Grid {
    pub cell_size: nat,
    pub cells: Seq<Seq<Seq<usize>>>,
}

impl Grid {
    /// How many cells lie side by side along x.
    pub open spec fn columns(self) -> nat {
        self.cells.len()
    }

    /// How many cells lie side by side along y.
    pub open spec fn rows(self) -> nat {
        if self.cells.len() == 0 {
            0
        } else {
            self.cells[0].len()
        }
    }

    /// The indices filed in the cell in column `x` and row `y`.
    pub open spec fn cell(self, x: int, y: int) -> Seq<usize> {
        self.cells[x][y]
    }

    /// A grid is well formed when it has a positive cell size and at least
    /// one cell, and every column has as many cells as the first.
    pub open spec fn wf(self) -> bool {
        &&& self.cell_size > 0
        &&& self.columns() > 0
        &&& self.rows() > 0
        &&& forall|x: int|
            0 <= x < self.columns() ==> (#[trigger] self.cells[x]).len() == self.rows()
    }

    /// The grid of the given shape in which no cell holds an index.
    pub open spec fn empty(cell_size: nat, columns: nat, rows: nat) -> Grid {
        Grid {
            cell_size,
            cells: Seq::new(columns, |x: int| Seq::new(rows, |y: int| Seq::<usize>::empty())),
        }
    }

    /// The same grid with every cell emptied.
    pub open spec fn cleared(self) -> Grid {
        Grid::empty(self.cell_size, self.columns(), self.rows())
    }

    /// The cell in which a position is filed.
    pub open spec fn cell_of(self, position: (i64, i64)) -> (int, int) {
        (
            axis_cell(position.0 as int, self.cell_size as int, self.columns() as int),
            axis_cell(position.1 as int, self.cell_size as int, self.rows() as int),
        )
    }

    /// The grid after `index` was filed in the cell of `position`, behind
    /// the indices that the cell held already.
    pub open spec fn add(self, index: usize, position: (i64, i64)) -> Grid {
        let (x, y) = self.cell_of(position);
        Grid {
            cell_size: self.cell_size,
            cells: self.cells.update(x, self.cells[x].update(y, self.cells[x][y].push(index))),
        }
    }

    /// The cells that a query around `point` looks into: those that the
    /// square from `point - radius` to `point + radius` touches, cut down to
    /// the grid. A radius of zero or less reaches the cell of `point` only.
    pub open spec fn reach(self, point: (i64, i64), radius: i64) -> CellBlock {
        let r: int = if radius <= 0 {
            0
        } else {
            radius as int
        };
        CellBlock {
            x_lo: axis_cell(point.0 - r, self.cell_size as int, self.columns() as int),
            x_hi: axis_cell(point.0 + r, self.cell_size as int, self.columns() as int),
            y_lo: axis_cell(point.1 - r, self.cell_size as int, self.rows() as int),
            y_hi: axis_cell(point.1 + r, self.cell_size as int, self.rows() as int),
        }
    }

    /// The contents of the cells `(x, y_lo)` up to but without `(x, y_hi)`,
    /// one cell after the other.
    pub open spec fn gather_column(self, x: int, y_lo: int, y_hi: int) -> Seq<usize>
        decreases y_hi - y_lo,
    {
        if y_lo >= y_hi {
            Seq::empty()
        } else {
            self.gather_column(x, y_lo, y_hi - 1) + self.cell(x, y_hi - 1)
        }
    }

    /// The contents of the columns `x_lo` up to but without `x_hi`, each cut
    /// to the cells from `y_lo` up to but without `y_hi`, one column after
    /// the other.
    pub open spec fn gather(self, x_lo: int, x_hi: int, y_lo: int, y_hi: int) -> Seq<usize>
        decreases x_hi - x_lo,
    {
        if x_lo >= x_hi {
            Seq::empty()
        } else {
            self.gather(x_lo, x_hi - 1, y_lo, y_hi) + self.gather_column(x_hi - 1, y_lo, y_hi)
        }
    }

    /// All indices filed in a block of cells, column by column.
    pub open spec fn gather_block(self, block: CellBlock) -> Seq<usize> {
        self.gather(block.x_lo, block.x_hi + 1, block.y_lo, block.y_hi + 1)
    }

    /// What a query around `point` returns.
    pub open spec fn query(self, point: (i64, i64), radius: i64) -> Seq<usize> {
        self.gather_block(self.reach(point, radius))
    }

    /// The empty grid has the shape asked for, and nothing in its cells.
    pub proof fn lemma_empty(cell_size: nat, columns: nat, rows: nat)
        requires
            columns > 0,
        ensures
            Grid::empty(cell_size, columns, rows).cell_size == cell_size,
            Grid::empty(cell_size, columns, rows).columns() == columns,
            Grid::empty(cell_size, columns, rows).rows() == rows,
            cell_size > 0 && rows > 0 ==> Grid::empty(cell_size, columns, rows).wf(),
            forall|x: int, y: int|
                0 <= x < columns && 0 <= y < rows ==> (#[trigger] Grid::empty(
                    cell_size,
                    columns,
                    rows,
                ).cell(x, y)).len() == 0,
    {
    }

    /// Every position has its cell on the grid.
    pub proof fn lemma_cell_of(self, position: (i64, i64))
        requires
            self.wf(),
        ensures
            0 <= self.cell_of(position).0 < self.columns(),
            0 <= self.cell_of(position).1 < self.rows(),
    {
        lemma_axis_cell(
            position.0 as int,
            position.0 as int,
            self.cell_size as int,
            self.columns() as int,
        );
        lemma_axis_cell(
            position.1 as int,
            position.1 as int,
            self.cell_size as int,
            self.rows() as int,
        );
    }

    /// The reach of a query lies on the grid, its corners are in order, and
    /// it holds the cell of the point asked for; with a radius of zero or
    /// less it is that cell alone.
    pub proof fn lemma_reach(self, point: (i64, i64), radius: i64)
        requires
            self.wf(),
        ensures
            0 <= self.reach(point, radius).x_lo <= self.reach(point, radius).x_hi < self.columns(),
            0 <= self.reach(point, radius).y_lo <= self.reach(point, radius).y_hi < self.rows(),
            self.reach(point, radius).contains(self.cell_of(point)),
            radius <= 0 ==> self.reach(point, radius) == (CellBlock {
                x_lo: self.cell_of(point).0,
                x_hi: self.cell_of(point).0,
                y_lo: self.cell_of(point).1,
                y_hi: self.cell_of(point).1,
            }),
    {
        let size = self.cell_size as int;
        let r: int = if radius <= 0 {
            0
        } else {
            radius as int
        };
        lemma_axis_cell(point.0 - r, point.0 as int, size, self.columns() as int);
        lemma_axis_cell(point.0 as int, point.0 + r, size, self.columns() as int);
        lemma_axis_cell(point.1 - r, point.1 as int, size, self.rows() as int);
        lemma_axis_cell(point.1 as int, point.1 + r, size, self.rows() as int);
    }

    /// A query reaches every position that is no farther than `radius` from
    /// `point` along either axis, and so every position within the circle
    /// of that radius.
    pub proof fn lemma_reach_covers(self, point: (i64, i64), radius: i64, position: (i64, i64))
        requires
            self.wf(),
            point.0 - radius <= position.0 <= point.0 + radius,
            point.1 - radius <= position.1 <= point.1 + radius,
        ensures
            self.reach(point, radius).contains(self.cell_of(position)),
    {
        let size = self.cell_size as int;
        let r: int = if radius <= 0 {
            0
        } else {
            radius as int
        };
        lemma_axis_cell(point.0 - r, position.0 as int, size, self.columns() as int);
        lemma_axis_cell(position.0 as int, point.0 + r, size, self.columns() as int);
        lemma_axis_cell(point.1 - r, position.1 as int, size, self.rows() as int);
        lemma_axis_cell(position.1 as int, point.1 + r, size, self.rows() as int);
    }

    /// Filing an index changes one cell and nothing else.
    pub proof fn lemma_add(self, index: usize, position: (i64, i64))
        requires
            self.wf(),
        ensures
            self.add(index, position).wf(),
            self.add(index, position).cell_size == self.cell_size,
            self.add(index, position).columns() == self.columns(),
            self.add(index, position).rows() == self.rows(),
            forall|x: int, y: int|
                0 <= x < self.columns() && 0 <= y < self.rows() ==> #[trigger] self.add(
                    index,
                    position,
                ).cell(x, y) == if (x, y) == self.cell_of(position) {
                    self.cell(x, y).push(index)
                } else {
                    self.cell(x, y)
                },
    {
        self.lemma_cell_of(position);
    }

    /// What a cell of the block holds is part of what the block gathers.
    pub proof fn lemma_gather_has(
        self,
        x_lo: int,
        x_hi: int,
        y_lo: int,
        y_hi: int,
        x: int,
        y: int,
        index: usize,
    )
        requires
            x_lo <= x < x_hi,
            y_lo <= y < y_hi,
            self.cell(x, y).contains(index),
        ensures
            self.gather(x_lo, x_hi, y_lo, y_hi).contains(index),
        decreases x_hi - x_lo,
    {
        let rest = self.gather(x_lo, x_hi - 1, y_lo, y_hi);
        let last = self.gather_column(x_hi - 1, y_lo, y_hi);
        if x == x_hi - 1 {
            self.lemma_gather_column_has(x, y_lo, y_hi, y, index);
            let k = choose|k: int| 0 <= k < last.len() && last[k] == index;
            assert((rest + last)[rest.len() + k] == index);
        } else {
            self.lemma_gather_has(x_lo, x_hi - 1, y_lo, y_hi, x, y, index);
            let k = choose|k: int| 0 <= k < rest.len() && rest[k] == index;
            assert((rest + last)[k] == index);
        }
    }

    /// What a cell of a column holds is part of what the column gathers.
    pub proof fn lemma_gather_column_has(self, x: int, y_lo: int, y_hi: int, y: int, index: usize)
        requires
            y_lo <= y < y_hi,
            self.cell(x, y).contains(index),
        ensures
            self.gather_column(x, y_lo, y_hi).contains(index),
        decreases y_hi - y_lo,
    {
        let rest = self.gather_column(x, y_lo, y_hi - 1);
        let last = self.cell(x, y_hi - 1);
        if y == y_hi - 1 {
            let k = choose|k: int| 0 <= k < last.len() && last[k] == index;
            assert((rest + last)[rest.len() + k] == index);
        } else {
            self.lemma_gather_column_has(x, y_lo, y_hi - 1, y, index);
            let k = choose|k: int| 0 <= k < rest.len() && rest[k] == index;
            assert((rest + last)[k] == index);
        }
    }

    /// What a block gathers comes from one of its cells: the cell returned.
    pub proof fn lemma_gather_from(
        self,
        x_lo: int,
        x_hi: int,
        y_lo: int,
        y_hi: int,
        index: usize,
    ) -> (at: (int, int))
        requires
            self.gather(x_lo, x_hi, y_lo, y_hi).contains(index),
        ensures
            x_lo <= at.0 < x_hi,
            y_lo <= at.1 < y_hi,
            self.cell(at.0, at.1).contains(index),
        decreases x_hi - x_lo,
    {
        let rest = self.gather(x_lo, x_hi - 1, y_lo, y_hi);
        let last = self.gather_column(x_hi - 1, y_lo, y_hi);
        let all = self.gather(x_lo, x_hi, y_lo, y_hi);
        let k = choose|k: int| 0 <= k < all.len() && all[k] == index;
        if k < rest.len() {
            assert(rest[k] == index);
            self.lemma_gather_from(x_lo, x_hi - 1, y_lo, y_hi, index)
        } else {
            assert(last[k - rest.len()] == index);
            let y = self.lemma_gather_column_from(x_hi - 1, y_lo, y_hi, index);
            (x_hi - 1, y)
        }
    }

    /// What a stretch of a column gathers comes from one of its cells: the
    /// cell returned.
    pub proof fn lemma_gather_column_from(self, x: int, y_lo: int, y_hi: int, index: usize) -> (y: int)
        requires
            self.gather_column(x, y_lo, y_hi).contains(index),
        ensures
            y_lo <= y < y_hi,
            self.cell(x, y).contains(index),
        decreases y_hi - y_lo,
    {
        let rest = self.gather_column(x, y_lo, y_hi - 1);
        let last = self.cell(x, y_hi - 1);
        let all = self.gather_column(x, y_lo, y_hi);
        let k = choose|k: int| 0 <= k < all.len() && all[k] == index;
        if k < rest.len() {
            assert(rest[k] == index);
            self.lemma_gather_column_from(x, y_lo, y_hi - 1, index)
        } else {
            assert(last[k - rest.len()] == index);
            y_hi - 1
        }
    }

    /// A grid without indices answers every query with nothing.
    pub proof fn lemma_query_empty(self, point: (i64, i64), radius: i64)
        requires
            self.wf(),
            self == self.cleared(),
        ensures
            self.query(point, radius) == Seq::<usize>::empty(),
    {
        let block = self.reach(point, radius);
        let found = self.query(point, radius);
        if found.len() > 0 {
            assert(found.contains(found[0]));
            let at = self.lemma_gather_from(
                block.x_lo,
                block.x_hi + 1,
                block.y_lo,
                block.y_hi + 1,
                found[0],
            );
            self.lemma_reach(point, radius);
            assert(self.cell(at.0, at.1).len() == 0);
        }
        assert(found =~= Seq::<usize>::empty());
    }
}

/// Computes `axis_cell`.
fn axis_cell_of(p: i128, cell_size: u32, count: usize) -> (c: usize)
    requires
        cell_size > 0,
        count > 0,
    ensures
        c == axis_cell(p as int, cell_size as int, count as int),
        c < count,
{
    if p < 0 {
        0
    } else {
        let q: i128 = p / (cell_size as i128);
        assert(0 <= q) by (nonlinear_arith)
            requires
                q == (p as int) / (cell_size as int),
                0 <= p,
                cell_size > 0,
        ;
        if q >= count as i128 {
            count - 1
        } else {
            q as usize
        }
    }
}

/// A uniform grid over the plane whose cells hold particle indices.
///
/// It stores indices only: whoever fills it owns the particles.
pub struct SpatialLookup {
    cells: Vec<Vec<Vec<usize>>>,
    cell_size: u32,
}

impl View for SpatialLookup {
    type V = Grid;

    closed spec fn view(&self) -> Grid {
        Grid {
            cell_size: self.cell_size as nat,
            cells: Seq::new(
                self.cells@.len(),
                |x: int| Seq::new(self.cells@[x]@.len(), |y: int| self.cells@[x]@[y]@),
            ),
        }
    }
}

impl SpatialLookup {
    /// Ties the rows and cells of the vectors to those of the view.
    proof fn lemma_view(&self)
        ensures
            self@.cells.len() == self.cells@.len(),
            self@.cell_size == self.cell_size,
            forall|x: int|
                0 <= x < self.cells@.len() ==> (#[trigger] self.cells@[x])@.len()
                    == self@.cells[x].len(),
            forall|x: int, y: int|
                0 <= x < self.cells@.len() && 0 <= y < self.cells@[x]@.len() ==> (
                #[trigger] self.cells@[x]@[y])@ == self@.cells[x][y],
    {
    }

    /// A grid of `dimensions.0` columns and `dimensions.1` rows of empty
    /// cells.
    pub fn new(cell_size: u32, dimensions: (usize, usize)) -> (lookup: SpatialLookup)
        requires
            cell_size > 0,
            dimensions.0 > 0,
            dimensions.1 > 0,
        ensures
            lookup@ == Grid::empty(cell_size as nat, dimensions.0 as nat, dimensions.1 as nat),
            lookup@.wf(),
    {
        let mut cells: Vec<Vec<Vec<usize>>> = Vec::new();
        let mut x: usize = 0;
        while x < dimensions.0
            invariant
                x <= dimensions.0,
                cells@.len() == x,
                forall|i: int| 0 <= i < x ==> (#[trigger] cells@[i])@.len() == dimensions.1,
                forall|i: int, j: int|
                    0 <= i < x && 0 <= j < dimensions.1 ==> (#[trigger] cells@[i]@[j])@.len() == 0,
            decreases dimensions.0 - x,
        {
            let mut column: Vec<Vec<usize>> = Vec::new();
            let mut y: usize = 0;
            while y < dimensions.1
                invariant
                    y <= dimensions.1,
                    column@.len() == y,
                    forall|j: int| 0 <= j < y ==> (#[trigger] column@[j])@.len() == 0,
                decreases dimensions.1 - y,
            {
                column.push(Vec::new());
                y += 1;
            }
            cells.push(column);
            x += 1;
        }
        let lookup = SpatialLookup { cells, cell_size };
        assert(lookup@.cells =~~= Grid::empty(
            cell_size as nat,
            dimensions.0 as nat,
            dimensions.1 as nat,
        ).cells);
        lookup
    }

    /// The side of a cell.
    pub fn cell_size(&self) -> (size: u32)
        ensures
            size == self@.cell_size,
    {
        self.cell_size
    }

    /// The number of columns and of rows.
    pub fn dimensions(&self) -> (dimensions: (usize, usize))
        requires
            self@.wf(),
        ensures
            dimensions.0 == self@.columns(),
            dimensions.1 == self@.rows(),
    {
        proof {
            self.lemma_view();
        }
        (self.cells.len(), self.cells[0].len())
    }

    /// Empties every cell.
    pub fn clear(&mut self)
        requires
            old(self)@.wf(),
        ensures
            final(self)@ == old(self)@.cleared(),
            final(self)@.wf(),
    {
        proof {
            self.lemma_view();
        }
        let columns = self.cells.len();
        let rows = self.cells[0].len();
        let mut x: usize = 0;
        while x < columns
            invariant
                x <= columns,
                columns == self@.columns(),
                rows == self@.rows(),
                self@.wf(),
                self.cell_size == old(self).cell_size,
                forall|i: int, j: int|
                    0 <= i < x && 0 <= j < rows ==> (#[trigger] self@.cell(i, j)).len() == 0,
            decreases columns - x,
        {
            let mut y: usize = 0;
            while y < rows
                invariant
                    x < columns,
                    y <= rows,
                    columns == self@.columns(),
                    rows == self@.rows(),
                    self@.wf(),
                    self.cell_size == old(self).cell_size,
                    forall|i: int, j: int|
                        0 <= i < x && 0 <= j < rows ==> (#[trigger] self@.cell(i, j)).len() == 0,
                    forall|j: int| 0 <= j < y ==> (#[trigger] self@.cell(x as int, j)).len() == 0,
                decreases rows - y,
            {
                let ghost before = self@;
                proof {
                    self.lemma_view();
                }
                self.cells[x][y].clear();
                proof {
                    self.lemma_view();
                }
                assert forall|i: int, j: int| 0 <= i < x && 0 <= j < rows implies (
                #[trigger] self@.cell(i, j)).len() == 0 by {
                    assert(self@.cell(i, j) == before.cell(i, j));
                }
                assert forall|j: int| 0 <= j <= y implies (#[trigger] self@.cell(
                    x as int,
                    j,
                )).len() == 0 by {
                    if j < y {
                        assert(self@.cell(x as int, j) == before.cell(x as int, j));
                    }
                }
                y += 1;
            }
            x += 1;
        }
        assert forall|i: int, j: int| 0 <= i < columns && 0 <= j < rows implies #[trigger] self@.cells[i][j]
            =~= Seq::<usize>::empty() by {
            assert(self@.cell(i, j).len() == 0);
        }
        assert(self@.cells =~~= old(self)@.cleared().cells);
    }

    /// Files `particle_index` in the cell of `position`, behind the indices
    /// that the cell holds already.
    pub fn add_particle(&mut self, particle_index: usize, position: (i64, i64))
        requires
            old(self)@.wf(),
        ensures
            final(self)@ == old(self)@.add(particle_index, position),
            final(self)@.wf(),
    {
        proof {
            self.lemma_view();
        }
        let x = axis_cell_of(position.0 as i128, self.cell_size, self.cells.len());
        let y = axis_cell_of(position.1 as i128, self.cell_size, self.cells[0].len());
        self.cells[x][y].push(particle_index);
        proof {
            self.lemma_view();
        }
        assert(self@.cells =~~= old(self)@.add(particle_index, position).cells);
    }

    /// The indices filed in the cells within reach of `point`, column by
    /// column and, within a cell, in the order in which they were filed.
    ///
    /// The result holds every particle within `radius` of `point` that was
    /// filed by its position, and may hold others from the same cells.
    pub fn query_radius(&self, point: (i64, i64), radius: i64) -> (neighbors: Vec<usize>)
        requires
            self@.wf(),
        ensures
            neighbors@ == self@.query(point, radius),
    {
        let r: i128 = if radius <= 0 {
            0
        } else {
            radius as i128
        };
        proof {
            self.lemma_view();
        }
        let columns = self.cells.len();
        let rows = self.cells[0].len();
        let x_lo = axis_cell_of(point.0 as i128 - r, self.cell_size, columns);
        let x_hi = axis_cell_of(point.0 as i128 + r, self.cell_size, columns);
        let y_lo = axis_cell_of(point.1 as i128 - r, self.cell_size, rows);
        let y_hi = axis_cell_of(point.1 as i128 + r, self.cell_size, rows);
        proof {
            self@.lemma_reach(point, radius);
        }
        let mut neighbors: Vec<usize> = Vec::new();
        let mut x: usize = x_lo;
        while x <= x_hi
            invariant
                self@.wf(),
                columns == self@.columns(),
                rows == self@.rows(),
                x_hi < columns,
                y_lo <= y_hi < rows,
                x_lo <= x <= x_hi + 1,
                neighbors@ == self@.gather(x_lo as int, x as int, y_lo as int, y_hi + 1),
            decreases x_hi + 1 - x,
        {
            let mut y: usize = y_lo;
            while y <= y_hi
                invariant
                    self@.wf(),
                    columns == self@.columns(),
                    rows == self@.rows(),
                    x < columns,
                    y_lo <= y <= y_hi + 1,
                    y_hi < rows,
                    neighbors@ == self@.gather(x_lo as int, x as int, y_lo as int, y_hi + 1)
                        + self@.gather_column(x as int, y_lo as int, y as int),
                decreases y_hi + 1 - y,
            {
                proof {
                    self.lemma_view();
                }
                let cell = &self.cells[x][y];
                let mut k: usize = 0;
                while k < cell.len()
                    invariant
                        k <= cell@.len(),
                        cell@ == self@.cell(x as int, y as int),
                        neighbors@ == self@.gather(x_lo as int, x as int, y_lo as int, y_hi + 1)
                            + self@.gather_column(x as int, y_lo as int, y as int) + cell@.take(
                            k as int,
                        ),
                    decreases cell@.len() - k,
                {
                    neighbors.push(cell[k]);
                    assert(cell@.take(k as int).push(cell@[k as int]) == cell@.take(k + 1));
                    k += 1;
                }
                assert(cell@.take(k as int) == cell@);
                proof {
                    let done = self@.gather(x_lo as int, x as int, y_lo as int, y_hi + 1);
                    let column = self@.gather_column(x as int, y_lo as int, y as int);
                    assert(done + column + cell@ == done + (column + cell@));
                }
                y += 1;
            }
            x += 1;
        }
        neighbors
    }

    /// A grid of its own with the same cells.
    pub fn copy(&self) -> (lookup: SpatialLookup)
        requires
            self@.wf(),
        ensures
            lookup@ == self@,
    {
        proof {
            self.lemma_view();
        }
        let columns = self.cells.len();
        let rows = self.cells[0].len();
        let mut cells: Vec<Vec<Vec<usize>>> = Vec::new();
        let mut x: usize = 0;
        while x < columns
            invariant
                self@.wf(),
                columns == self@.columns(),
                rows == self@.rows(),
                x <= columns,
                cells@.len() == x,
                forall|i: int| 0 <= i < x ==> (#[trigger] cells@[i])@.len() == rows,
                forall|i: int, j: int|
                    0 <= i < x && 0 <= j < rows ==> (#[trigger] cells@[i]@[j])@ == self@.cell(i, j),
            decreases columns - x,
        {
            let mut column: Vec<Vec<usize>> = Vec::new();
            let mut y: usize = 0;
            while y < rows
                invariant
                    self@.wf(),
                    columns == self@.columns(),
                    rows == self@.rows(),
                    x < columns,
                    y <= rows,
                    column@.len() == y,
                    forall|j: int|
                        0 <= j < y ==> (#[trigger] column@[j])@ == self@.cell(x as int, j),
                decreases rows - y,
            {
                proof {
                    self.lemma_view();
                }
                let cell = &self.cells[x][y];
                let mut indices: Vec<usize> = Vec::new();
                let mut k: usize = 0;
                while k < cell.len()
                    invariant
                        k <= cell@.len(),
                        indices@ == cell@.take(k as int),
                    decreases cell@.len() - k,
                {
                    indices.push(cell[k]);
                    assert(cell@.take(k as int).push(cell@[k as int]) == cell@.take(k + 1));
                    k += 1;
                }
                assert(cell@.take(k as int) == cell@);
                column.push(indices);
                y += 1;
            }
            cells.push(column);
            x += 1;
        }
        let lookup = SpatialLookup { cells, cell_size: self.cell_size };
        assert(lookup@.cells =~~= self@.cells);
        lookup
    }
}

} // verus!
