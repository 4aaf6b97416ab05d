use crate::spatial_lookup::{axis_cell, CellBlock, Grid, SpatialLookup};
use vstd::prelude::*;

verus! {

/// Every element is smaller than the next.
pub open spec fn increasing(s: Seq<usize>) -> bool {
    forall|a: int, b: int| 0 <= a < b < s.len() ==> s[a] < s[b]
}

/// The test that a query applies to leave the particle that asks out of its
/// own neighbours.
pub open spec fn is_other(current_index: Option<usize>) -> spec_fn(usize) -> bool {
    |index: usize| Some(index) != current_index
}

/// The indices `0, 1, .., count - 1`.
pub open spec fn all_indices(count: nat) -> Seq<usize> {
    Seq::new(count, |i: int| i as usize)
}

/// Filtering keeps a sequence free of duplicates, and keeps exactly the
/// elements that pass the test.
pub proof fn lemma_filter_keeps(s: Seq<usize>, pred: spec_fn(usize) -> bool)
    ensures
        s.no_duplicates() ==> s.filter(pred).no_duplicates(),
        forall|e: usize| #[trigger] s.filter(pred).contains(e) <==> s.contains(e) && pred(e),
    decreases s.len(),
{
    reveal(Seq::filter);
    if s.len() > 0 {
        let rest = s.drop_last();
        let last = s.last();
        lemma_filter_keeps(rest, pred);
        assert forall|e: usize| #[trigger] s.filter(pred).contains(e) <==> s.contains(e) && pred(
            e,
        ) by {
            if s.filter(pred).contains(e) {
                let k = choose|k: int| 0 <= k < s.filter(pred).len() && s.filter(pred)[k] == e;
                if pred(last) && k == rest.filter(pred).len() {
                    assert(s[s.len() - 1] == e);
                } else {
                    assert(rest.filter(pred)[k] == e);
                    assert(rest.filter(pred).contains(e));
                    let j = choose|j: int| 0 <= j < rest.len() && rest[j] == e;
                    assert(s[j] == e);
                }
            }
            if s.contains(e) && pred(e) {
                let j = choose|j: int| 0 <= j < s.len() && s[j] == e;
                if j == s.len() - 1 {
                    assert(s.filter(pred)[rest.filter(pred).len() as int] == e);
                } else {
                    assert(rest[j] == e);
                    assert(rest.filter(pred).contains(e));
                    let k = choose|k: int|
                        0 <= k < rest.filter(pred).len() && rest.filter(pred)[k] == e;
                    assert(s.filter(pred)[k] == e);
                }
            }
        }
        if s.no_duplicates() {
            assert(rest.no_duplicates());
            if pred(last) {
                assert forall|i: int, j: int|
                    0 <= i < s.filter(pred).len() && 0 <= j < s.filter(pred).len() && i
                        != j implies s.filter(pred)[i] != s.filter(pred)[j] by {
                    let top = rest.filter(pred).len() as int;
                    if i == top || j == top {
                        let other = if i == top {
                            j
                        } else {
                            i
                        };
                        assert(rest.filter(pred)[other] == s.filter(pred)[other]);
                        assert(rest.filter(pred).contains(s.filter(pred)[other]));
                        assert(rest.contains(s.filter(pred)[other]));
                        let at = choose|at: int|
                            0 <= at < rest.len() && rest[at] == s.filter(pred)[other];
                        assert(s[at] == s.filter(pred)[other]);
                        assert(s[s.len() - 1] == last);
                    } else {
                        assert(rest.filter(pred)[i] == s.filter(pred)[i]);
                        assert(rest.filter(pred)[j] == s.filter(pred)[j]);
                    }
                }
            }
        }
    }
}

/// What a `ParticlesLookup` stands for: the positions of the particles, each
/// known by its place in the sequence, and the grid that files them.
pub struct Lookup {
    pub positions: Seq<(i64, i64)>,
    pub grid: Grid,
}

impl Lookup {
    /// The grid is well formed, and the particles are few enough to be
    /// numbered.
    pub open spec fn shaped(self) -> bool {
        self.grid.wf() && self.positions.len() <= usize::MAX
    }

    /// The lookup is shaped, and its grid files nothing but indices of
    /// particles.
    pub open spec fn wf(self) -> bool {
        &&& self.shaped()
        &&& forall|x: int, y: int, k: int|
            0 <= x < self.grid.columns() && 0 <= y < self.grid.rows() && 0 <= k < self.grid.cell(
                x,
                y,
            ).len() ==> #[trigger] self.grid.cell(x, y)[k] < self.positions.len()
    }

    /// The grid in which the first `count` particles, and no others, are
    /// filed by their positions, one after the other.
    pub open spec fn filed(self, count: nat) -> Grid
        decreases count,
    {
        if count == 0 {
            self.grid.cleared()
        } else {
            self.filed((count - 1) as nat).add((count - 1) as usize, self.positions[count - 1])
        }
    }

    /// The lookup after its cells were rebuilt from the positions.
    pub open spec fn rebuilt(self) -> Lookup {
        Lookup { positions: self.positions, grid: self.filed(self.positions.len()) }
    }

    /// The cells are those that a rebuild from the positions gives.
    pub open spec fn indexed(self) -> bool {
        self.grid == self.filed(self.positions.len())
    }

    /// `cell` lists in growing order the particles among the first `count`
    /// whose position lies in the cell `at`.
    pub open spec fn lists(self, cell: Seq<usize>, at: (int, int), count: nat) -> bool {
        &&& increasing(cell)
        &&& forall|k: int|
            0 <= k < cell.len() ==> (#[trigger] cell[k]) < count && self.grid.cell_of(
                self.positions[cell[k] as int],
            ) == at
        &&& forall|i: int|
            0 <= i < count && self.grid.cell_of(#[trigger] self.positions[i]) == at
                ==> cell.contains(i as usize)
    }

    /// The point that a query is made around: the one given or, without
    /// one, the position of the particle that asks.
    pub open spec fn center(self, point: Option<(i64, i64)>, current_index: Option<usize>) -> (
        i64,
        i64,
    ) {
        match point {
            Some(p) => p,
            None => self.positions[current_index.unwrap() as int],
        }
    }

    /// The radius of a query: the one given or, without one, the side of a
    /// cell.
    pub open spec fn radius(self, radius: Option<i64>) -> i64 {
        match radius {
            Some(r) => r,
            None => self.grid.cell_size as i64,
        }
    }

    /// What a query returns: what the grid files within reach, without the
    /// particle that asks.
    pub open spec fn query(
        self,
        point: Option<(i64, i64)>,
        radius: Option<i64>,
        current_index: Option<usize>,
    ) -> Seq<usize> {
        self.grid.query(self.center(point, current_index), self.radius(radius)).filter(
            is_other(current_index),
        )
    }

    /// Every particle but the one that asks, in order.
    pub open spec fn others(self, current_index: Option<usize>) -> Seq<usize> {
        all_indices(self.positions.len()).filter(is_other(current_index))
    }

    /// Filing the first `count` particles keeps the shape of the grid, and
    /// leaves in every cell, in growing order, the particles that lie in it.
    pub proof fn lemma_filed(self, count: nat)
        requires
            self.shaped(),
            count <= self.positions.len(),
        ensures
            self.filed(count).wf(),
            self.filed(count).cell_size == self.grid.cell_size,
            self.filed(count).columns() == self.grid.columns(),
            self.filed(count).rows() == self.grid.rows(),
            forall|x: int, y: int|
                0 <= x < self.grid.columns() && 0 <= y < self.grid.rows() ==> self.lists(
                    #[trigger] self.filed(count).cell(x, y),
                    (x, y),
                    count,
                ),
        decreases count,
    {
        if count > 0 {
            let before = self.filed((count - 1) as nat);
            let index = (count - 1) as usize;
            let position = self.positions[count - 1];
            let home = self.grid.cell_of(position);
            self.lemma_filed((count - 1) as nat);
            before.lemma_add(index, position);
            assert(before.cell_of(position) == home);
            assert forall|x: int, y: int|
                0 <= x < self.grid.columns() && 0 <= y < self.grid.rows() implies self.lists(
                #[trigger] self.filed(count).cell(x, y),
                (x, y),
                count,
            ) by {
                let old_cell = before.cell(x, y);
                let new_cell = self.filed(count).cell(x, y);
                assert(self.lists(old_cell, (x, y), (count - 1) as nat));
                if (x, y) == home {
                    assert(new_cell == old_cell.push(index));
                    assert(new_cell[old_cell.len() as int] == index);
                    assert forall|i: int|
                        0 <= i < count && self.grid.cell_of(#[trigger] self.positions[i]) == (
                            x,
                            y,
                        ) implies new_cell.contains(i as usize) by {
                        if i < count - 1 {
                            assert(old_cell.contains(i as usize));
                            let k = choose|k: int|
                                0 <= k < old_cell.len() && old_cell[k] == i as usize;
                            assert(new_cell[k] == i as usize);
                        }
                    }
                } else {
                    assert(new_cell == old_cell);
                }
            }
        }
    }

    /// A rebuild makes the lookup well formed and indexed.
    pub proof fn lemma_rebuilt(self)
        requires
            self.shaped(),
        ensures
            self.rebuilt().wf(),
            self.rebuilt().indexed(),
            self.rebuilt().rebuilt() == self.rebuilt(),
    {
        let count = self.positions.len();
        let after = self.rebuilt();
        self.lemma_filed(count);
        assert(after.grid.cleared() == self.grid.cleared());
        self.lemma_same_filing(after, count);
        assert forall|x: int, y: int, k: int|
            0 <= x < after.grid.columns() && 0 <= y < after.grid.rows() && 0 <= k < after.grid.cell(
                x,
                y,
            ).len() implies #[trigger] after.grid.cell(x, y)[k] < after.positions.len() by {
            assert(self.lists(self.filed(count).cell(x, y), (x, y), count));
        }
    }

    /// Two lookups with the same positions and grids of the same shape file
    /// their particles alike.
    proof fn lemma_same_filing(self, other: Lookup, count: nat)
        requires
            self.positions == other.positions,
            self.grid.cleared() == other.grid.cleared(),
        ensures
            self.filed(count) == other.filed(count),
        decreases count,
    {
        if count > 0 {
            self.lemma_same_filing(other, (count - 1) as nat);
        }
    }

    /// In an indexed lookup, a cell holds a particle just when the
    /// particle's position lies in it.
    pub proof fn lemma_indexed_cell(self, x: int, y: int)
        requires
            self.shaped(),
            self.indexed(),
            0 <= x < self.grid.columns(),
            0 <= y < self.grid.rows(),
        ensures
            self.lists(self.grid.cell(x, y), (x, y), self.positions.len()),
    {
        self.lemma_filed(self.positions.len());
        assert(self.lists(
            self.filed(self.positions.len()).cell(x, y),
            (x, y),
            self.positions.len(),
        ));
    }

    /// In an indexed lookup, what a cell holds is a particle whose position
    /// lies in that cell.
    pub proof fn lemma_indexed_home(self, x: int, y: int, index: usize)
        requires
            self.shaped(),
            self.indexed(),
            0 <= x < self.grid.columns(),
            0 <= y < self.grid.rows(),
            self.grid.cell(x, y).contains(index),
        ensures
            index < self.positions.len(),
            self.grid.cell_of(self.positions[index as int]) == (x, y),
    {
        let cell = self.grid.cell(x, y);
        self.lemma_indexed_cell(x, y);
        let k = choose|k: int| 0 <= k < cell.len() && cell[k] == index;
        assert(self.grid.cell_of(self.positions[cell[k] as int]) == (x, y));
    }

    /// In an indexed lookup a stretch of a column gathers no particle
    /// twice.
    proof fn lemma_indexed_column(self, x: int, y_lo: int, y_hi: int)
        requires
            self.shaped(),
            self.indexed(),
            0 <= x < self.grid.columns(),
            0 <= y_lo,
            y_hi <= self.grid.rows(),
        ensures
            self.grid.gather_column(x, y_lo, y_hi).no_duplicates(),
        decreases y_hi - y_lo,
    {
        if y_lo < y_hi {
            let rest = self.grid.gather_column(x, y_lo, y_hi - 1);
            let last = self.grid.cell(x, y_hi - 1);
            self.lemma_indexed_column(x, y_lo, y_hi - 1);
            self.lemma_indexed_cell(x, y_hi - 1);
            assert forall|i: int, j: int| 0 <= i < rest.len() && 0 <= j < last.len() implies rest[i]
                != last[j] by {
                assert(rest.contains(rest[i]));
                assert(last.contains(last[j]));
                let y = self.grid.lemma_gather_column_from(x, y_lo, y_hi - 1, rest[i]);
                self.lemma_indexed_home(x, y, rest[i]);
                self.lemma_indexed_home(x, y_hi - 1, last[j]);
            }
            vstd::seq_lib::lemma_no_dup_in_concat(rest, last);
        }
    }

    /// In an indexed lookup a stretch of columns gathers no particle twice.
    proof fn lemma_indexed_gather(self, x_lo: int, x_hi: int, y_lo: int, y_hi: int)
        requires
            self.shaped(),
            self.indexed(),
            0 <= x_lo,
            x_hi <= self.grid.columns(),
            0 <= y_lo,
            y_hi <= self.grid.rows(),
        ensures
            self.grid.gather(x_lo, x_hi, y_lo, y_hi).no_duplicates(),
        decreases x_hi - x_lo,
    {
        if x_lo < x_hi {
            let rest = self.grid.gather(x_lo, x_hi - 1, y_lo, y_hi);
            let last = self.grid.gather_column(x_hi - 1, y_lo, y_hi);
            self.lemma_indexed_gather(x_lo, x_hi - 1, y_lo, y_hi);
            self.lemma_indexed_column(x_hi - 1, y_lo, y_hi);
            assert forall|i: int, j: int| 0 <= i < rest.len() && 0 <= j < last.len() implies rest[i]
                != last[j] by {
                assert(rest.contains(rest[i]));
                assert(last.contains(last[j]));
                let at = self.grid.lemma_gather_from(x_lo, x_hi - 1, y_lo, y_hi, rest[i]);
                let y = self.grid.lemma_gather_column_from(x_hi - 1, y_lo, y_hi, last[j]);
                self.lemma_indexed_home(at.0, at.1, rest[i]);
                self.lemma_indexed_home(x_hi - 1, y, last[j]);
            }
            vstd::seq_lib::lemma_no_dup_in_concat(rest, last);
        }
    }

    /// In an indexed lookup a block of cells gathers each particle at most
    /// once, and gathers just the particles whose positions lie in one of
    /// its cells.
    pub proof fn lemma_indexed_block(self, block: CellBlock)
        requires
            self.shaped(),
            self.indexed(),
            0 <= block.x_lo,
            block.x_hi < self.grid.columns(),
            0 <= block.y_lo,
            block.y_hi < self.grid.rows(),
        ensures
            self.grid.gather_block(block).no_duplicates(),
            forall|i: usize| #[trigger]
                self.grid.gather_block(block).contains(i) <==> i < self.positions.len()
                    && block.contains(self.grid.cell_of(self.positions[i as int])),
    {
        let found = self.grid.gather_block(block);
        self.lemma_indexed_gather(block.x_lo, block.x_hi + 1, block.y_lo, block.y_hi + 1);
        assert forall|i: usize| #[trigger]
            found.contains(i) <==> i < self.positions.len() && block.contains(
                self.grid.cell_of(self.positions[i as int]),
            ) by {
            if found.contains(i) {
                let at = self.grid.lemma_gather_from(
                    block.x_lo,
                    block.x_hi + 1,
                    block.y_lo,
                    block.y_hi + 1,
                    i,
                );
                self.lemma_indexed_home(at.0, at.1, i);
            }
            if i < self.positions.len() && block.contains(
                self.grid.cell_of(self.positions[i as int]),
            ) {
                let at = self.grid.cell_of(self.positions[i as int]);
                self.lemma_indexed_cell(at.0, at.1);
                assert(self.grid.cell(at.0, at.1).contains(i as int as usize));
                self.grid.lemma_gather_has(
                    block.x_lo,
                    block.x_hi + 1,
                    block.y_lo,
                    block.y_hi + 1,
                    at.0,
                    at.1,
                    i,
                );
            }
        }
    }

    /// Once the cells were rebuilt, a query returns no particle twice, and
    /// returns just the particles, other than the one that asks, whose
    /// positions lie in a cell within reach.
    pub proof fn lemma_query_indexed(
        self,
        point: Option<(i64, i64)>,
        radius: Option<i64>,
        current_index: Option<usize>,
    )
        requires
            self.shaped(),
            self.indexed(),
        ensures
            self.query(point, radius, current_index).no_duplicates(),
            forall|i: usize| #[trigger]
                self.query(point, radius, current_index).contains(i) <==> i < self.positions.len()
                    && Some(i) != current_index && self.grid.reach(
                    self.center(point, current_index),
                    self.radius(radius),
                ).contains(self.grid.cell_of(self.positions[i as int])),
    {
        let block = self.grid.reach(self.center(point, current_index), self.radius(radius));
        self.grid.lemma_reach(self.center(point, current_index), self.radius(radius));
        self.lemma_indexed_block(block);
        lemma_filter_keeps(self.grid.gather_block(block), is_other(current_index));
    }

    /// Once the cells were rebuilt, a query returns every other particle
    /// that is no farther than the radius from the point asked for, along
    /// either axis.
    pub proof fn lemma_query_finds_near(
        self,
        point: Option<(i64, i64)>,
        radius: Option<i64>,
        current_index: Option<usize>,
        i: usize,
    )
        requires
            self.shaped(),
            self.indexed(),
            i < self.positions.len(),
            Some(i) != current_index,
            self.center(point, current_index).0 - self.radius(radius) <= self.positions[i as int].0
                <= self.center(point, current_index).0 + self.radius(radius),
            self.center(point, current_index).1 - self.radius(radius) <= self.positions[i as int].1
                <= self.center(point, current_index).1 + self.radius(radius),
        ensures
            self.query(point, radius, current_index).contains(i),
    {
        self.lemma_query_indexed(point, radius, current_index);
        self.grid.lemma_reach_covers(
            self.center(point, current_index),
            self.radius(radius),
            self.positions[i as int],
        );
    }

    /// Once the cells were rebuilt, a query whose square covers the whole
    /// area of the grid returns every particle exactly once.
    pub proof fn lemma_query_whole_area(self, point: (i64, i64), radius: i64)
        requires
            self.shaped(),
            self.indexed(),
            point.0 - radius <= 0,
            point.1 - radius <= 0,
            point.0 + radius >= self.grid.columns() * self.grid.cell_size - 1,
            point.1 + radius >= self.grid.rows() * self.grid.cell_size - 1,
        ensures
            self.query(Some(point), Some(radius), None).no_duplicates(),
            forall|i: usize| #[trigger]
                self.query(Some(point), Some(radius), None).contains(i) <==> i
                    < self.positions.len(),
            self.query(Some(point), Some(radius), None).len() == self.positions.len(),
    {
        let found = self.query(Some(point), Some(radius), None);
        let block = self.grid.reach(point, radius);
        let size = self.grid.cell_size as int;
        let r: int = if radius <= 0 {
            0
        } else {
            radius as int
        };
        self.lemma_query_indexed(Some(point), Some(radius), None);
        self.grid.lemma_reach(point, radius);
        assert(block.x_lo == 0 && block.y_lo == 0) by (nonlinear_arith)
            requires
                size > 0,
                point.0 - r <= 0,
                point.1 - r <= 0,
                block.x_lo == axis_cell(point.0 - r, size, self.grid.columns() as int),
                block.y_lo == axis_cell(point.1 - r, size, self.grid.rows() as int),
                self.grid.columns() > 0,
                self.grid.rows() > 0,
        {
            if point.0 - r == 0 {
                assert((point.0 - r) / size == 0);
            }
            if point.1 - r == 0 {
                assert((point.1 - r) / size == 0);
            }
        }
        assert(block.x_hi == self.grid.columns() - 1) by (nonlinear_arith)
            requires
                size > 0,
                self.grid.columns() > 0,
                point.0 + r >= self.grid.columns() * size - 1,
                block.x_hi == axis_cell(point.0 + r, size, self.grid.columns() as int),
                block.x_hi < self.grid.columns(),
        {
            assert((point.0 + r) / size >= self.grid.columns() - 1);
        }
        assert(block.y_hi == self.grid.rows() - 1) by (nonlinear_arith)
            requires
                size > 0,
                self.grid.rows() > 0,
                point.1 + r >= self.grid.rows() * size - 1,
                block.y_hi == axis_cell(point.1 + r, size, self.grid.rows() as int),
                block.y_hi < self.grid.rows(),
        {
            assert((point.1 + r) / size >= self.grid.rows() - 1);
        }
        assert forall|i: usize| #[trigger] found.contains(i) <==> i < self.positions.len() by {
            if i < self.positions.len() {
                self.grid.lemma_cell_of(self.positions[i as int]);
            }
        }
        lemma_holds_all(found, self.positions.len());
    }
}

/// A sequence without duplicates that holds just the indices below `count`
/// has `count` elements.
pub proof fn lemma_holds_all(s: Seq<usize>, count: nat)
    requires
        count <= usize::MAX + 1,
        s.no_duplicates(),
        forall|i: usize| #[trigger] s.contains(i) <==> i < count,
    ensures
        s.len() == count,
    decreases count,
{
    if count == 0 {
        if s.len() > 0 {
            assert(s.contains(s[0]));
        }
    } else {
        let top = (count - 1) as usize;
        assert(s.contains(top));
        let at = choose|at: int| 0 <= at < s.len() && s[at] == top;
        let rest = s.remove(at);
        assert forall|i: usize| #[trigger] rest.contains(i) <==> i < count - 1 by {
            if rest.contains(i) {
                let k = choose|k: int| 0 <= k < rest.len() && rest[k] == i;
                if k < at {
                    assert(s[k] == i);
                } else {
                    assert(s[k + 1] == i);
                }
                assert(s.contains(i));
            }
            if i < count - 1 {
                assert(s.contains(i));
                let k = choose|k: int| 0 <= k < s.len() && s[k] == i;
                if k < at {
                    assert(rest[k] == i);
                } else if k > at {
                    assert(rest[k - 1] == i);
                }
            }
        }
        assert(rest.no_duplicates());
        lemma_holds_all(rest, (count - 1) as nat);
    }
}

/// The particles' positions together with the grid that finds the
/// neighbours of a point among them.
///
/// A particle is known by its index in the sequence of positions. The
/// positions may change at any time; the cells follow at the next
/// `update_cells`.
pub struct ParticlesLookup {
    positions: Vec<(i64, i64)>,
    lookup: SpatialLookup,
}

impl View for ParticlesLookup {
    type V = Lookup;

    closed spec fn view(&self) -> Lookup {
        Lookup { positions: self.positions@, grid: self.lookup@ }
    }
}

impl ParticlesLookup {
    /// A lookup over `particles` with a grid of `dimensions.0` columns and
    /// `dimensions.1` rows of empty cells: no particle is filed before the
    /// first `update_cells`.
    pub fn new(particles: Vec<(i64, i64)>, cell_size: u32, dimensions: (usize, usize)) -> (lookup:
        ParticlesLookup)
        requires
            cell_size > 0,
            dimensions.0 > 0,
            dimensions.1 > 0,
        ensures
            lookup@ == (Lookup {
                positions: particles@,
                grid: Grid::empty(cell_size as nat, dimensions.0 as nat, dimensions.1 as nat),
            }),
            lookup@.wf(),
    {
        proof {
            Grid::lemma_empty(cell_size as nat, dimensions.0 as nat, dimensions.1 as nat);
            assert(particles@.len() == particles.len());
        }
        ParticlesLookup { positions: particles, lookup: SpatialLookup::new(cell_size, dimensions) }
    }

    /// The number of particles.
    pub fn len(&self) -> (count: usize)
        ensures
            count == self@.positions.len(),
    {
        self.positions.len()
    }

    /// The position of particle `index`.
    pub fn position(&self, index: usize) -> (position: (i64, i64))
        requires
            index < self@.positions.len(),
        ensures
            position == self@.positions[index as int],
    {
        self.positions[index]
    }

    /// The positions of all particles.
    pub fn positions(&self) -> (positions: &Vec<(i64, i64)>)
        ensures
            positions@ == self@.positions,
    {
        &self.positions
    }

    /// The grid that files the particles.
    pub fn lookup(&self) -> (lookup: &SpatialLookup)
        ensures
            lookup@ == self@.grid,
    {
        &self.lookup
    }

    /// Moves particle `index` to `position`. The cells stay as they are.
    pub fn set_position(&mut self, index: usize, position: (i64, i64))
        requires
            index < old(self)@.positions.len(),
        ensures
            final(self)@ == (Lookup {
                positions: old(self)@.positions.update(index as int, position),
                grid: old(self)@.grid,
            }),
            old(self)@.wf() ==> final(self)@.wf(),
    {
        self.positions[index] = position;
    }

    /// Replaces the particles by `particles` and empties the cells.
    pub fn set_particles(&mut self, particles: Vec<(i64, i64)>)
        requires
            old(self)@.grid.wf(),
        ensures
            final(self)@ == (Lookup { positions: particles@, grid: old(self)@.grid.cleared() }),
            final(self)@.wf(),
    {
        proof {
            assert(particles@.len() == particles.len());
        }
        self.positions = particles;
        self.lookup.clear();
        proof {
            Grid::lemma_empty(
                old(self)@.grid.cell_size,
                old(self)@.grid.columns(),
                old(self)@.grid.rows(),
            );
        }
    }

    /// Rebuilds the cells: empties them, then files every particle, in the
    /// order of the indices, in the cell of its position.
    pub fn update_cells(&mut self)
        requires
            old(self)@.grid.wf(),
        ensures
            final(self)@ == old(self)@.rebuilt(),
            final(self)@.wf(),
            final(self)@.indexed(),
            final(self)@.grid.cell_size == old(self)@.grid.cell_size,
            final(self)@.grid.columns() == old(self)@.grid.columns(),
            final(self)@.grid.rows() == old(self)@.grid.rows(),
    {
        self.lookup.clear();
        let count = self.positions.len();
        let mut index: usize = 0;
        while index < count
            invariant
                index <= count,
                count == self.positions@.len(),
                self.positions@ == old(self).positions@,
                self.lookup@ == old(self)@.filed(index as nat),
                self.lookup@.wf(),
            decreases count - index,
        {
            let position = self.positions[index];
            self.lookup.add_particle(index, position);
            index += 1;
        }
        proof {
            old(self)@.lemma_rebuilt();
            old(self)@.lemma_filed(old(self)@.positions.len());
        }
    }

    /// The neighbour candidates of a point: the particles filed in the
    /// cells within `radius` of `point`, without particle `current_index`.
    ///
    /// Without a `point` the query is made around particle `current_index`;
    /// without a `radius` it reaches as far as a cell is wide.
    pub fn query_radius(
        &self,
        point: Option<(i64, i64)>,
        radius: Option<i64>,
        current_index: Option<usize>,
    ) -> (neighbors: Vec<usize>)
        requires
            self@.wf(),
            point is None ==> current_index is Some && current_index.unwrap()
                < self@.positions.len(),
        ensures
            neighbors@ == self@.query(point, radius, current_index),
            forall|k: int| 0 <= k < neighbors@.len() ==> neighbors@[k] < self@.positions.len(),
    {
        let center = match point {
            Some(p) => p,
            None => match current_index {
                Some(index) => self.positions[index],
                None => (0, 0),
            },
        };
        let reach: i64 = match radius {
            Some(r) => r,
            None => self.lookup.cell_size() as i64,
        };
        let found = self.lookup.query_radius(center, reach);
        let mut neighbors: Vec<usize> = Vec::new();
        let mut k: usize = 0;
        while k < found.len()
            invariant
                k <= found@.len(),
                neighbors@ == found@.take(k as int).filter(is_other(current_index)),
            decreases found@.len() - k,
        {
            let index = found[k];
            let keep = match current_index {
                Some(current) => index != current,
                None => true,
            };
            proof {
                assert(found@.take(k as int).push(index) == found@.take(k + 1));
                found@.take(k as int).lemma_filter_push(index, is_other(current_index));
            }
            if keep {
                neighbors.push(index);
            }
            k += 1;
        }
        proof {
            assert(found@.take(k as int) == found@);
            lemma_filter_keeps(found@, is_other(current_index));
            assert forall|k: int| 0 <= k < neighbors@.len() implies neighbors@[k]
                < self@.positions.len() by {
                assert(neighbors@.contains(neighbors@[k]));
                assert(found@.contains(neighbors@[k]));
                let block = self@.grid.reach(center, reach);
                self@.grid.lemma_reach(center, reach);
                let at = self@.grid.lemma_gather_from(
                    block.x_lo,
                    block.x_hi + 1,
                    block.y_lo,
                    block.y_hi + 1,
                    neighbors@[k],
                );
                let j = choose|j: int|
                    0 <= j < self@.grid.cell(at.0, at.1).len() && self@.grid.cell(at.0, at.1)[j]
                        == neighbors@[k];
                assert(self@.grid.cell(at.0, at.1)[j] < self@.positions.len());
            }
        }
        neighbors
    }

    /// Every particle but `current_index`, in the order of the indices.
    pub fn query_all(&self, current_index: Option<usize>) -> (others: Vec<usize>)
        ensures
            others@ == self@.others(current_index),
    {
        let count = self.positions.len();
        let mut others: Vec<usize> = Vec::new();
        let mut index: usize = 0;
        while index < count
            invariant
                index <= count,
                count == self@.positions.len(),
                others@ == all_indices(index as nat).filter(is_other(current_index)),
            decreases count - index,
        {
            let keep = match current_index {
                Some(current) => index != current,
                None => true,
            };
            proof {
                assert(all_indices(index as nat).push(index) == all_indices((index + 1) as nat));
                all_indices(index as nat).lemma_filter_push(index, is_other(current_index));
            }
            if keep {
                others.push(index);
            }
            index += 1;
        }
        others
    }

    /// A lookup of its own with the same positions and the same cells.
    pub fn copy(&self) -> (lookup: ParticlesLookup)
        requires
            self@.grid.wf(),
        ensures
            lookup@ == self@,
    {
        let count = self.positions.len();
        let mut positions: Vec<(i64, i64)> = Vec::new();
        let mut index: usize = 0;
        while index < count
            invariant
                index <= count,
                count == self.positions@.len(),
                positions@ == self.positions@.take(index as int),
            decreases count - index,
        {
            positions.push(self.positions[index]);
            assert(self.positions@.take(index as int).push(self.positions@[index as int])
                == self.positions@.take(index + 1));
            index += 1;
        }
        assert(self.positions@.take(index as int) == self.positions@);
        ParticlesLookup { positions, lookup: self.lookup.copy() }
    }
}

} // verus!
