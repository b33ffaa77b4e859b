//! The grid: a square, row-major array of cells, neighbor queries, and the
//! generation step.
//!
//! Index `(x, y)` with `0 <= x, y < size` maps to position `y * size + x`.
//! Off-grid neighbors are absent: edges are hard, nothing wraps. One
//! generation rewrites every cell from the previous cell array only, then
//! swaps the new array in whole.

use crate::id::Identifiable;
use crate::material::{first_index_of, material_ids, MaterialColor, MaterialId};
use crate::pattern::{spec_pattern_matches, Pattern, PatternV};
use crate::ruleset::{spec_rule_transformed, spec_step_cell, Ruleset, RulesetV};
use crate::condition::Direction;
use vstd::prelude::*;

verus! {

/// A grid site: exactly one material handle.
#[derive(Debug, Clone, Copy, PartialEq, Eq)]
pub struct Cell {
    pub material_id: MaterialId,
}

impl View for Cell {
    type V = u32;

    open spec fn view(&self) -> u32 {
        self.material_id@
    }
}

impl Cell {
    pub fn new(material_id: MaterialId) -> (c: Self)
        ensures
            c@ == material_id@,
    {
        Cell { material_id }
    }

    /// The display color of this cell: its material's color, or the
    /// default material's color when the handle does not resolve.
    pub fn color(self, ruleset: &Ruleset) -> (r: MaterialColor)
        requires
            ruleset@.materials.len() > 0,
        ensures
            r == spec_display_color(ruleset@, self@),
    {
        match ruleset.materials.get(self.material_id) {
            Some(material) => material.color,
            None => ruleset.materials.default().color,
        }
    }
}

/// The color a cell holding material `id` shows: the first matching
/// material's color, or the default material's color for a dangling handle.
pub open spec fn spec_display_color(rs: RulesetV, id: u32) -> MaterialColor {
    let k = first_index_of(material_ids(rs.materials), id);
    if k == -1 {
        rs.materials[0].color
    } else {
        rs.materials[k].color
    }
}

/// Position of a direction in the fixed neighbor order NW, N, NE, W, E,
/// SW, S, SE.
pub open spec fn spec_dir_index(d: Direction) -> int {
    match d {
        Direction::Northwest => 0,
        Direction::North => 1,
        Direction::Northeast => 2,
        Direction::West => 3,
        Direction::East => 4,
        Direction::Southwest => 5,
        Direction::South => 6,
        Direction::Southeast => 7,
    }
}

/// How many neighbors exist and match the pattern.
pub open spec fn spec_count_matching(nbrs: Seq<Option<u32>>, rs: RulesetV, p: PatternV) -> int
    decreases nbrs.len(),
{
    if nbrs.len() == 0 {
        0
    } else {
        spec_count_matching(nbrs.drop_last(), rs, p) + match nbrs.last() {
            Some(mat) => if spec_pattern_matches(p, rs, mat) {
                1int
            } else {
                0int
            },
            None => 0int,
        }
    }
}

/// The count of matching neighbors lies between 0 and the neighborhood
/// size.
pub proof fn lemma_count_matching_range(nbrs: Seq<Option<u32>>, rs: RulesetV, p: PatternV)
    ensures
        0 <= spec_count_matching(nbrs, rs, p) <= nbrs.len(),
    decreases nbrs.len(),
{
    if nbrs.len() > 0 {
        lemma_count_matching_range(nbrs.drop_last(), rs, p);
    }
}

/// The 8-neighborhood of a cell, in the fixed order NW, N, NE, W, E, SW,
/// S, SE; absent entries are off-grid.
#[derive(Debug, Clone, Copy, PartialEq, Eq)]
pub struct CellNeighbors(pub [Option<Cell>; 8]);

impl View for CellNeighbors {
    type V = Seq<Option<u32>>;

    open spec fn view(&self) -> Seq<Option<u32>> {
        self.0@.map_values(
            |oc: Option<Cell>|
                match oc {
                    Some(c) => Some(c@),
                    None => None,
                },
        )
    }
}

impl CellNeighbors {
    pub fn new(array: [Option<Cell>; 8]) -> (r: Self)
        ensures
            r.0@ == array@,
    {
        CellNeighbors(array)
    }

    /// The neighbor in the given direction, if it exists.
    pub fn in_direction(&self, direction: Direction) -> (r: Option<Cell>)
        ensures
            match r {
                Some(c) => self@[spec_dir_index(direction)] == Some(c@),
                None => self@[spec_dir_index(direction)] is None,
            },
    {
        match direction {
            Direction::Northwest => self.0[0],
            Direction::North => self.0[1],
            Direction::Northeast => self.0[2],
            Direction::West => self.0[3],
            Direction::East => self.0[4],
            Direction::Southwest => self.0[5],
            Direction::South => self.0[6],
            Direction::Southeast => self.0[7],
        }
    }

    /// How many neighbors exist and match the pattern: always in [0, 8].
    pub fn count_matching(&self, ruleset: &Ruleset, pattern: Pattern) -> (count: u8)
        ensures
            count == spec_count_matching(self@, ruleset@, pattern@),
            count <= 8,
    {
        let mut count: u8 = 0;
        let mut k: usize = 0;
        while k < 8
            invariant
                0 <= k <= 8,
                self@.len() == 8,
                count == spec_count_matching(self@.take(k as int), ruleset@, pattern@),
                count <= k,
            decreases 8 - k,
        {
            let entry = self.0[k];
            match entry {
                Some(cell) => {
                    if pattern.matches(ruleset, cell) {
                        count = count + 1;
                    }
                },
                None => {
                },
            }
            proof {
                let taken = self@.take(k as int);
                let taken1 = self@.take(k as int + 1);
                assert(taken1.drop_last() =~= taken);
                assert(taken1.last() == self@[k as int]);
            }
            k = k + 1;
        }
        proof {
            assert(self@.take(8) =~= self@);
        }
        count
    }
}

/// Row-major square cell array together with its own copy of the rule set.
#[derive(Debug, PartialEq, Eq)]
pub struct Grid {
    pub ruleset: Ruleset,
    /// Row-major; every method keeps its length equal to `size * size`,
    /// which `wf` states.
    pub cells: Vec<Cell>,
    pub size: usize,
}

impl Grid {
    /// The cell materials in row-major order.
    pub closed spec fn spec_cells(self) -> Seq<u32> {
        self.cells@.map_values(|c: Cell| c@)
    }

    /// The cell array covers the square exactly.
    pub closed spec fn wf(self) -> bool {
        self.cells@.len() == self.size * self.size
    }

    /// The material of the neighbor at offset `(dx, dy)` from the cell at
    /// `index`, or nothing when that position is off the grid.
    pub open spec fn spec_neighbor(self, index: int, dx: int, dy: int) -> Option<u32> {
        let size = self.size as int;
        let x = index % size + dx;
        let y = index / size + dy;
        if 0 <= x < size && 0 <= y < size {
            Some(self.spec_cells()[y * size + x])
        } else {
            None
        }
    }

    /// The 8-neighborhood of the cell at `index`, in the order NW, N, NE,
    /// W, E, SW, S, SE.
    pub open spec fn spec_neighbors(self, index: int) -> Seq<Option<u32>> {
        seq![
            self.spec_neighbor(index, -1, -1),
            self.spec_neighbor(index, 0, -1),
            self.spec_neighbor(index, 1, -1),
            self.spec_neighbor(index, -1, 0),
            self.spec_neighbor(index, 1, 0),
            self.spec_neighbor(index, -1, 1),
            self.spec_neighbor(index, 0, 1),
            self.spec_neighbor(index, 1, 1),
        ]
    }

    /// A fresh grid: every cell holds the rule set's default material.
    pub fn new(ruleset: Ruleset, size: usize) -> (g: Self)
        requires
            ruleset@.materials.len() > 0,
            size * size <= usize::MAX,
        ensures
            g.wf(),
            g.size == size,
            g.ruleset == ruleset,
            g.spec_cells().len() == size * size,
            forall|i: int|
                0 <= i < size * size ==> g.spec_cells()[i] == ruleset@.materials[0].id,
    {
        let material = ruleset.materials.default();
        let cell = Cell::new(material.id());
        let n = size * size;
        let cells = vec![cell; n];
        let g = Grid { ruleset, cells, size };
        proof {
            assert(forall|i: int| 0 <= i < n ==> g.cells@[i] == cell);
        }
        g
    }

    /// The row-major position of `(x, y)`.
    pub fn cell_index(&self, x: usize, y: usize) -> (r: usize)
        requires
            self.wf(),
            x < self.size,
            y < self.size,
        ensures
            r == y * self.size + x,
            r < self.spec_cells().len(),
    {
        let n = self.cells.len();
        proof {
            assert(y * self.size + x < self.size * self.size) by (nonlinear_arith)
                requires
                    x < self.size,
                    y < self.size,
            ;
        }
        y * self.size + x
    }

    /// The coordinates of a row-major position.
    pub fn cell_coordinates(&self, index: usize) -> (r: (usize, usize))
        requires
            self.size > 0,
        ensures
            r.0 == index % self.size,
            r.1 == index / self.size,
    {
        (index % self.size, index / self.size)
    }

    /// The cell at `(x, y)`, or nothing when out of range.
    pub fn cell_at(&self, x: usize, y: usize) -> (r: Option<Cell>)
        requires
            self.wf(),
        ensures
            x < self.size && y < self.size ==> r == Some(self.cells@[y as int * self.size + x]),
            !(x < self.size && y < self.size) ==> r is None,
    {
        if x < self.size && y < self.size {
            let index = self.cell_index(x, y);
            Some(self.cells[index])
        } else {
            None
        }
    }

    /// Replace the cell at `(x, y)`; out of range changes nothing.
    pub fn set_cell(&mut self, x: usize, y: usize, new: Cell)
        requires
            old(self).wf(),
        ensures
            final(self).wf(),
            final(self).size == old(self).size,
            final(self).ruleset == old(self).ruleset,
            x < old(self).size && y < old(self).size ==> final(self).spec_cells() == old(
                self,
            ).spec_cells().update(y as int * old(self).size + x, new@),
            !(x < old(self).size && y < old(self).size) ==> final(self).spec_cells() == old(
                self,
            ).spec_cells(),
    {
        if x < self.size && y < self.size {
            let index = self.cell_index(x, y);
            self.cells[index] = new;
            proof {
                assert(self.spec_cells() =~= old(self).spec_cells().update(
                    y as int * old(self).size + x,
                    new@,
                ));
            }
        }
    }

    /// The material of the neighbor of cell `index` at offset
    /// `(x_offset, y_offset)`, or nothing when that position is off the
    /// grid.
    pub fn get_neighbor(&self, index: usize, x_offset: isize, y_offset: isize) -> (r: Option<
        Cell,
    >)
        requires
            self.wf(),
            self.size > 0,
            -1 <= x_offset <= 1,
            -1 <= y_offset <= 1,
        ensures
            match r {
                Some(c) => self.spec_neighbor(index as int, x_offset as int, y_offset as int)
                    == Some(c@),
                None => self.spec_neighbor(index as int, x_offset as int, y_offset as int)
                    is None,
            },
    {
        let x = index % self.size;
        let y = index / self.size;
        let nx: Option<usize> = offset_coord(x, x_offset);
        let ny: Option<usize> = offset_coord(y, y_offset);
        match (nx, ny) {
            (Some(nx), Some(ny)) => {
                if nx < self.size && ny < self.size {
                    let i = self.cell_index(nx, ny);
                    Some(self.cells[i])
                } else {
                    None
                }
            },
            _ => None,
        }
    }

    /// The 8-neighborhood of the cell at `index`.
    pub fn neighbors(&self, index: usize) -> (r: CellNeighbors)
        requires
            self.wf(),
            self.size > 0,
        ensures
            r@ == self.spec_neighbors(index as int),
    {
        let array: [Option<Cell>; 8] = [
            self.get_neighbor(index, -1, -1),
            self.get_neighbor(index, 0, -1),
            self.get_neighbor(index, 1, -1),
            self.get_neighbor(index, -1, 0),
            self.get_neighbor(index, 1, 0),
            self.get_neighbor(index, -1, 1),
            self.get_neighbor(index, 0, 1),
            self.get_neighbor(index, 1, 1),
        ];
        let r = CellNeighbors::new(array);
        proof {
            assert(r@ =~= self.spec_neighbors(index as int));
        }
        r
    }

    /// Advance the grid one generation: every cell is rewritten by the
    /// first rule that matches it against the previous generation, or kept
    /// when none does. The new array replaces the old one only after every
    /// cell has been computed from the old one.
    pub fn next_generation(&mut self)
        requires
            old(self).wf(),
        ensures
            final(self).wf(),
            final(self).size == old(self).size,
            final(self).ruleset == old(self).ruleset,
            final(self).spec_cells().len() == old(self).spec_cells().len(),
            forall|i: int|
                0 <= i < old(self).spec_cells().len() ==> final(self).spec_cells()[i]
                    == spec_step_cell(
                    old(self).ruleset@.rules,
                    old(self).ruleset@,
                    old(self).spec_cells()[i],
                    old(self).spec_neighbors(i),
                ),
    {
        let n = self.cells.len();
        let mut new_cells: Vec<Cell> = Vec::new();
        let mut index: usize = 0;
        while index < n
            invariant
                n == self.spec_cells().len(),
                self == old(self),
                self.wf(),
                0 <= index <= n,
                new_cells@.len() == index,
                forall|i: int|
                    0 <= i < index ==> new_cells@[i]@ == spec_step_cell(
                        self.ruleset@.rules,
                        self.ruleset@,
                        self.spec_cells()[i],
                        self.spec_neighbors(i),
                    ),
            decreases n - index,
        {
            proof {
                assert(self.size > 0) by (nonlinear_arith)
                    requires
                        self.spec_cells().len() == self.size * self.size,
                        self.spec_cells().len() > 0,
                ;
            }
            let cell = self.cells[index];
            let new_cell = self.step_cell(cell, index);
            new_cells.push(new_cell);
            index = index + 1;
        }
        self.cells = new_cells;
        proof {
            assert(self.spec_cells().len() == old(self).spec_cells().len());
        }
    }

    /// The cell that the rules yield at `index` for the current
    /// generation: the first matching rule's output, or the old cell.
    fn step_cell(&self, cell: Cell, index: usize) -> (r: Cell)
        requires
            self.wf(),
            self.size > 0,
            index < self.spec_cells().len(),
        ensures
            r@ == spec_step_cell(
                self.ruleset@.rules,
                self.ruleset@,
                cell@,
                self.spec_neighbors(index as int),
            ),
    {
        let n = self.ruleset.rules.len();
        proof {
            assert(self.ruleset@.rules.skip(0) =~= self.ruleset@.rules);
        }
        let mut k: usize = 0;
        while k < n
            invariant
                n == self.ruleset@.rules.len(),
                0 <= k <= n,
                self.wf(),
                self.size > 0,
                index < self.spec_cells().len(),
                spec_step_cell(
                    self.ruleset@.rules,
                    self.ruleset@,
                    cell@,
                    self.spec_neighbors(index as int),
                ) == spec_step_cell(
                    self.ruleset@.rules.skip(k as int),
                    self.ruleset@,
                    cell@,
                    self.spec_neighbors(index as int),
                ),
            decreases n - k,
        {
            let rule = &self.ruleset.rules[k];
            let transformed = rule.transformed(self, cell, index);
            proof {
                let rest = self.ruleset@.rules.skip(k as int);
                assert(rest.len() > 0);
                assert(rest[0] == self.ruleset@.rules[k as int]);
                assert(rest.drop_first() =~= self.ruleset@.rules.skip(k as int + 1));
            }
            match transformed {
                Some(new_cell) => {
                    return new_cell;
                },
                None => {
                },
            }
            k = k + 1;
        }
        proof {
            assert(self.ruleset@.rules.skip(n as int).len() == 0);
        }
        cell
    }

    /// The colors-only snapshot for display.
    pub fn visual_state(&self) -> (r: VisualGridState)
        requires
            self.wf(),
            self.ruleset@.materials.len() > 0,
        ensures
            r.size == self.size,
            r@.len() == self.spec_cells().len(),
            forall|i: int|
                0 <= i < self.spec_cells().len() ==> r@[i] == spec_display_color(
                    self.ruleset@,
                    self.spec_cells()[i],
                ),
    {
        let n = self.cells.len();
        let mut colors: Vec<MaterialColor> = Vec::new();
        let mut k: usize = 0;
        while k < n
            invariant
                n == self.spec_cells().len(),
                0 <= k <= n,
                self.ruleset@.materials.len() > 0,
                colors@.len() == k,
                forall|i: int|
                    0 <= i < k ==> colors@[i] == spec_display_color(
                        self.ruleset@,
                        self.spec_cells()[i],
                    ),
            decreases n - k,
        {
            colors.push(self.cells[k].color(&self.ruleset));
            k = k + 1;
        }
        VisualGridState { size: self.size, cells: colors }
    }

    /// The cells-and-size snapshot for save and load.
    pub fn functional_state(&self) -> (r: FunctionalGridState)
        requires
            self.wf(),
        ensures
            r.wf(),
            r.spec_size() == self.size,
            r@ == self.spec_cells(),
    {
        FunctionalGridState { size: self.size, cells: self.cells.clone() }
    }

    /// Replace size and cells from a snapshot; the rule set is unchanged.
    pub fn load_state(&mut self, state: FunctionalGridState)
        requires
            state.wf(),
        ensures
            final(self).wf(),
            final(self).ruleset == old(self).ruleset,
            final(self).size == state.spec_size(),
            final(self).spec_cells() == state@,
    {
        self.size = state.size;
        self.cells = state.cells;
    }
}

/// An exclusively owned snapshot of a grid's size and cells.
#[derive(Debug, Clone)]
pub struct FunctionalGridState {
    pub size: usize,
    pub cells: Vec<Cell>,
}

impl View for FunctionalGridState {
    type V = Seq<u32>;

    open spec fn view(&self) -> Seq<u32> {
        self.cells@.map_values(|c: Cell| c@)
    }
}

impl FunctionalGridState {
    /// The snapshot covers its square exactly.
    pub closed spec fn wf(self) -> bool {
        self.cells@.len() == self.size * self.size
    }

    pub fn size(&self) -> (r: usize)
        ensures
            r == self.spec_size(),
    {
        self.size
    }

    /// The saved grid size.
    pub closed spec fn spec_size(self) -> usize {
        self.size
    }
}

/// A colors-only snapshot of a grid for display.
#[derive(Debug, Clone, PartialEq, Eq)]
pub struct VisualGridState {
    pub size: usize,
    pub cells: Vec<MaterialColor>,
}

impl View for VisualGridState {
    type V = Seq<MaterialColor>;

    open spec fn view(&self) -> Seq<MaterialColor> {
        self.cells@
    }
}

impl VisualGridState {
    /// The color at the row-major position, if it exists.
    pub fn color_at(&self, index: usize) -> (r: Option<MaterialColor>)
        ensures
            match r {
                Some(c) => index < self@.len() && c == self@[index as int],
                None => index >= self@.len(),
            },
    {
        if index < self.cells.len() {
            Some(self.cells[index])
        } else {
            None
        }
    }

    /// Number of cells in the snapshot.
    pub fn len(&self) -> (r: usize)
        ensures
            r == self@.len(),
    {
        self.cells.len()
    }
}

/// Advance `x` by an offset of at most one step, staying in `usize`.
fn offset_coord(x: usize, offset: isize) -> (r: Option<usize>)
    requires
        -1 <= offset <= 1,
    ensures
        match r {
            Some(v) => v == x + offset,
            None => x + offset < 0 || x + offset > usize::MAX,
        },
{
    if offset < 0 {
        if x == 0 {
            None
        } else {
            Some(x - 1)
        }
    } else if offset == 0 {
        Some(x)
    } else {
        if x == usize::MAX {
            None
        } else {
            Some(x + 1)
        }
    }
}

} // verus!
