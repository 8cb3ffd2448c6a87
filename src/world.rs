use vstd::prelude::*;
use crate::cell::{empty_cell, empty_spec, Cell, Species};
use crate::laws::{conserves, count, lemma_step_conserves_matter};
use crate::rules::{lemma_scan_prefix, rule_step, scan, tick_spec, visit};
use vstd::arithmetic::div_mod::lemma_fundamental_div_mod_converse;

verus! {

/// The mathematical state of a grid: its extents, its generation counter,
/// its cells in row-major order, and whether diagonal slides are strict.
pub struct WorldView {
    pub width: int,
    pub height: int,
    pub generation: u8,
    pub cells: Seq<Cell>,
    pub strict_slide: bool,
}

impl WorldView {
    pub open spec fn wf(self) -> bool {
        &&& 0 < self.width
        &&& 0 < self.height
        &&& self.width * self.height <= i32::MAX
        &&& self.cells.len() == self.width * self.height
    }

    pub open spec fn in_grid(self, x: int, y: int) -> bool {
        0 <= x < self.width && 0 <= y < self.height
    }

    pub open spec fn index(self, x: int, y: int) -> int {
        y * self.width + x
    }

    pub open spec fn at(self, x: int, y: int) -> Cell {
        self.cells[self.index(x, y)]
    }

    /// The species seen at a coordinate; outside the grid everything is wall.
    pub open spec fn species_at(self, x: int, y: int) -> Species {
        if self.in_grid(x, y) {
            self.at(x, y).species
        } else {
            Species::Wall
        }
    }

    /// The stamp that a move during the running pass writes: generation + 1, wrapping.
    pub open spec fn moved_stamp(self) -> u8 {
        ((self.generation + 1) % 256) as u8
    }

    /// A cell written by a move of the pass that is running: (clock - generation) mod 256 == 1.
    pub open spec fn is_moved(self, c: Cell) -> bool {
        (c.clock - self.generation) % 256 == 1
    }

    /// Writes `c` at a coordinate, stamped as moved; a write outside the grid is dropped.
    pub open spec fn put(self, x: int, y: int, c: Cell) -> WorldView {
        if self.in_grid(x, y) {
            WorldView {
                cells: self.cells.update(self.index(x, y), Cell { clock: self.moved_stamp(), ..c }),
                ..self
            }
        } else {
            self
        }
    }

    /// Moves `cell` from (x, y) to (x + dx, y + dy) and leaves `behind` at (x, y).
    pub open spec fn relocate(self, x: int, y: int, dx: int, dy: int, behind: Cell, cell: Cell) -> WorldView {
        self.put(x, y, behind).put(x + dx, y + dy, cell)
    }
}

/// Whether the brush of size `s` at (x, y) covers (px, py): the single cell
/// for size 1, otherwise the square [x - s/2, x + s/2) x [y - s/2, y + s/2).
pub open spec fn brush_covers(x: int, y: int, s: int, px: int, py: int) -> bool {
    if s == 1 {
        px == x && py == y
    } else {
        x - s / 2 <= px < x + s / 2 && y - s / 2 <= py < y + s / 2
    }
}

/// The grid: a flat row-major store of `width * height` cells and a wrapping
/// generation counter.
#[derive(Debug)]
pub struct World {
    width: i32,
    height: i32,
    cell_size: i32,
    cells: Vec<Cell>,
    generation: u8,
    strict_slide: bool,
}

impl View for World {
    type V = WorldView;

    closed spec fn view(&self) -> WorldView {
        WorldView {
            width: self.width as int,
            height: self.height as int,
            generation: self.generation,
            cells: self.cells@,
            strict_slide: self.strict_slide,
        }
    }
}

/// Row-major indexing stays inside the store.
pub proof fn lemma_index_bounds(w: int, h: int, x: int, y: int)
    requires
        0 <= x < w,
        0 <= y < h,
    ensures
        0 <= y * w + x < w * h,
{
    assert(y * w + x < w * h) by (nonlinear_arith)
        requires
            0 <= x < w,
            0 <= y < h,
    ;
    assert(0 <= y * w) by (nonlinear_arith)
        requires
            0 <= y,
            0 <= w,
    ;
}

/// Distinct coordinates of the grid have distinct indices.
pub proof fn lemma_index_injective(w: int, x1: int, y1: int, x2: int, y2: int)
    requires
        0 <= x1 < w,
        0 <= x2 < w,
        0 <= y1,
        0 <= y2,
        y1 * w + x1 == y2 * w + x2,
    ensures
        x1 == x2,
        y1 == y2,
{
    assert(y1 == y2) by (nonlinear_arith)
        requires
            0 <= x1 < w,
            0 <= x2 < w,
            0 <= y1,
            0 <= y2,
            y1 * w + x1 == y2 * w + x2,
    ;
}

impl World {
    /// A grid of `width * height` empty cells at generation 0.
    pub fn new(width: u32, height: u32, size: u32) -> (w: World)
        requires
            0 < width,
            0 < height,
            0 < size <= i32::MAX,
            width * height <= i32::MAX,
        ensures
            w@.wf(),
            w@.width == width,
            w@.height == height,
            w@.generation == 0,
            !w@.strict_slide,
            forall|i: int| 0 <= i < w@.cells.len() ==> w@.cells[i] == empty_spec(),
    {
        proof {
            assert(width <= width * height && height <= width * height && height * width == width * height) by (nonlinear_arith)
                requires
                    0 < width,
                    0 < height,
            ;
        }
        let n: u32 = height * width;
        let mut cells: Vec<Cell> = Vec::new();
        let mut i: u32 = 0;
        while i < n
            invariant
                i <= n,
                cells@.len() == i,
                forall|j: int| 0 <= j < i ==> cells@[j] == empty_spec(),
            decreases n - i,
        {
            cells.push(empty_cell());
            i += 1;
        }
        World {
            width: width as i32,
            height: height as i32,
            cell_size: size as i32,
            cells,
            generation: 0,
            strict_slide: false,
        }
    }

    /// Chooses whether a diagonal slide of sand also needs the cell beside it to be empty.
    pub fn set_strict_slide(&mut self, strict: bool)
        ensures
            final(self)@ == (WorldView { strict_slide: strict, ..old(self)@ }),
    {
        self.strict_slide = strict;
    }

    /// Sets every cell back to the default empty cell; the generation is kept.
    pub fn reset(&mut self)
        requires
            old(self)@.wf(),
        ensures
            final(self)@.wf(),
            final(self)@.width == old(self)@.width,
            final(self)@.height == old(self)@.height,
            final(self)@.generation == old(self)@.generation,
            final(self)@.strict_slide == old(self)@.strict_slide,
            final(self)@.cells.len() == old(self)@.cells.len(),
            forall|i: int| 0 <= i < final(self)@.cells.len() ==> final(self)@.cells[i] == empty_spec(),
    {
        let n: usize = self.cells.len();
        let mut i: usize = 0;
        while i < n
            invariant
                i <= n,
                n == self.cells@.len(),
                self@.wf(),
                self@.width == old(self)@.width,
                self@.height == old(self)@.height,
                self@.generation == old(self)@.generation,
                self@.strict_slide == old(self)@.strict_slide,
                forall|j: int| 0 <= j < i ==> self.cells@[j] == empty_spec(),
            decreases n - i,
        {
            self.cells.set(i, empty_cell());
            i += 1;
        }
    }

    /// The current generation counter.
    pub fn generation(&self) -> (g: u8)
        ensures
            g == self@.generation,
    {
        self.generation
    }

    /// Whether a diagonal slide of sand also needs the cell beside it to be empty.
    pub fn strict_slide(&self) -> (r: bool)
        ensures
            r == self@.strict_slide,
    {
        self.strict_slide
    }

    /// One simulation step: the generation advances, every cell is visited in
    /// column-major order (a cell already moved in this pass is skipped, any
    /// other runs its species' rule with fresh random directions), and the
    /// generation advances again.
    pub fn tick(&mut self)
        requires
            old(self)@.wf(),
        ensures
            exists|draws: Seq<(u32, u32)>|
                draws.len() == old(self)@.width * old(self)@.height
                && final(self)@ == #[trigger] tick_spec(old(self)@, draws),
            final(self)@.wf(),
            final(self)@.width == old(self)@.width,
            final(self)@.height == old(self)@.height,
            final(self)@.strict_slide == old(self)@.strict_slide,
            final(self)@.generation == (old(self)@.generation + 2) % 256,
            forall|sp: Species| count(#[trigger] final(self)@.cells, sp) == count(old(self)@.cells, sp),
            forall|i: int| 0 <= i < old(self)@.cells.len() && (#[trigger] old(self)@.cells[i]).species
                == Species::Wall ==> final(self)@.cells[i] == old(self)@.cells[i],
    {
        let ghost m0 = self@;
        self.generation = self.generation.wrapping_add(1);
        let ghost m1 = self@;
        assert(m1 == WorldView { generation: ((m0.generation + 1) % 256) as u8, ..m0 });
        let ghost mut draws: Seq<(u32, u32)> = Seq::empty();
        let w = self.width;
        let h = self.height;
        let mut x: i32 = 0;
        while x < w
            invariant
                0 <= x <= w,
                w == m1.width,
                h == m1.height,
                m1.wf(),
                draws.len() == x * h,
                self@ == scan(m1, x * h, draws),
                conserves(m1, self@),
            decreases w - x,
        {
            let mut y: i32 = 0;
            while y < h
                invariant
                    0 <= x < w,
                    0 <= y <= h,
                    w == m1.width,
                    h == m1.height,
                    m1.wf(),
                    draws.len() == x * h + y,
                    self@ == scan(m1, x * h + y, draws),
                    conserves(m1, self@),
                decreases h - y,
            {
                let ghost before = self@;
                let ghost k = x * h + y;
                proof {
                    lemma_fundamental_div_mod_converse(k, h as int, x as int, y as int);
                }
                let ghost d0 = draws;
                let cell = self.get_cell(x, y);
                if cell.clock.wrapping_sub(self.generation) != 1 {
                    let api = Api { x, y };
                    cell.update(api, self);
                    proof {
                        let (a, b) = choose|a: u32, b: u32|
                            self@ == #[trigger] rule_step(before, cell.species, x as int, y as int, cell, a, b);
                        lemma_step_conserves_matter(before, x as int, y as int, a, b);
                        draws = draws.push((a, b));
                    }
                } else {
                    proof {
                        draws = draws.push((0u32, 0u32));
                    }
                }
                proof {
                    lemma_scan_prefix(m1, k, d0, draws);
                    assert(self@ == visit(before, x as int, y as int, draws[k].0, draws[k].1));
                }
                y += 1;
            }
            assert(x * h + h == (x + 1) * h) by (nonlinear_arith);
            x += 1;
        }
        self.generation = self.generation.wrapping_add(1);
        assert(w * h == m0.width * m0.height);
        assert(self@ == tick_spec(m0, draws));
    }

    /// Writes `species` into the brush region at (x, y), clipped to the grid.
    /// Without `erase` only empty cells are overwritten. Painted cells carry
    /// the current generation, so they move on the next tick.
    pub fn paint(&mut self, x: u32, y: u32, s: u32, species: Species, erase: bool)
        requires
            old(self)@.wf(),
        ensures
            final(self)@.wf(),
            final(self)@.width == old(self)@.width,
            final(self)@.height == old(self)@.height,
            final(self)@.generation == old(self)@.generation,
            final(self)@.strict_slide == old(self)@.strict_slide,
            forall|px: int, py: int| #[trigger] old(self)@.in_grid(px, py) ==> {
                if brush_covers(x as int, y as int, s as int, px, py)
                    && (erase || old(self)@.at(px, py).species == Species::Empty) {
                    final(self)@.at(px, py).species == species
                        && final(self)@.at(px, py).clock == old(self)@.generation
                } else {
                    final(self)@.at(px, py) == old(self)@.at(px, py)
                }
            },
    {
        let ghost m0 = self@;
        if s == 1 {
            if (x as i64) < (self.width as i64) && (y as i64) < (self.height as i64) {
                self.paint_one(x as i32, y as i32, species, erase);
            }
            return;
        }
        let r: i64 = (s / 2) as i64;
        let w: i64 = self.width as i64;
        let h: i64 = self.height as i64;
        let mut rx: i64 = -r;
        while rx < r
            invariant
                -r <= rx <= r,
                r == s / 2,
                s != 1,
                w == m0.width,
                h == m0.height,
                self@.wf(),
                self@.width == m0.width,
                self@.height == m0.height,
                self@.generation == m0.generation,
                self@.strict_slide == m0.strict_slide,
                forall|px: int, py: int| #[trigger] m0.in_grid(px, py) ==> {
                    if brush_covers(x as int, y as int, s as int, px, py) && px < x + rx
                        && (erase || m0.at(px, py).species == Species::Empty) {
                        self@.at(px, py).species == species && self@.at(px, py).clock == m0.generation
                    } else {
                        self@.at(px, py) == m0.at(px, py)
                    }
                },
            decreases r - rx,
        {
            let mut ry: i64 = -r;
            while ry < r
                invariant
                    -r <= rx < r,
                    -r <= ry <= r,
                    r == s / 2,
                    s != 1,
                    w == m0.width,
                    h == m0.height,
                    self@.wf(),
                    self@.width == m0.width,
                    self@.height == m0.height,
                    self@.generation == m0.generation,
                    self@.strict_slide == m0.strict_slide,
                    forall|px: int, py: int| #[trigger] m0.in_grid(px, py) ==> {
                        if brush_covers(x as int, y as int, s as int, px, py)
                            && (px < x + rx || (px == x + rx && py < y + ry))
                            && (erase || m0.at(px, py).species == Species::Empty) {
                            self@.at(px, py).species == species && self@.at(px, py).clock == m0.generation
                        } else {
                            self@.at(px, py) == m0.at(px, py)
                        }
                    },
                decreases r - ry,
            {
                let px = x as i64 + rx;
                let py = y as i64 + ry;
                let ghost prev = self@;
                if 0 <= px && px < w && 0 <= py && py < h {
                    self.paint_one(px as i32, py as i32, species, erase);
                }
                assert forall|qx: int, qy: int| #[trigger] m0.in_grid(qx, qy) implies {
                    if brush_covers(x as int, y as int, s as int, qx, qy)
                        && (qx < x + rx || (qx == x + rx && qy < y + ry + 1))
                        && (erase || m0.at(qx, qy).species == Species::Empty) {
                        self@.at(qx, qy).species == species && self@.at(qx, qy).clock == m0.generation
                    } else {
                        self@.at(qx, qy) == m0.at(qx, qy)
                    }
                } by {
                    if qx == px && qy == py {
                        assert(prev.at(qx, qy) == m0.at(qx, qy));
                    } else {
                        assert(prev.in_grid(qx, qy));
                    }
                }
                ry += 1;
            }
            rx += 1;
        }
    }

    /// Paints one cell of the grid: always with `erase`, else only where it is empty.
    fn paint_one(&mut self, px: i32, py: i32, species: Species, erase: bool)
        requires
            old(self)@.wf(),
            old(self)@.in_grid(px as int, py as int),
        ensures
            final(self)@.wf(),
            final(self)@.width == old(self)@.width,
            final(self)@.height == old(self)@.height,
            final(self)@.generation == old(self)@.generation,
            final(self)@.strict_slide == old(self)@.strict_slide,
            forall|qx: int, qy: int| #[trigger] old(self)@.in_grid(qx, qy) && (qx != px || qy != py)
                ==> final(self)@.at(qx, qy) == old(self)@.at(qx, qy),
            erase || old(self)@.at(px as int, py as int).species == Species::Empty ==> {
                final(self)@.at(px as int, py as int).species == species
                    && final(self)@.at(px as int, py as int).clock == old(self)@.generation
            },
            !(erase || old(self)@.at(px as int, py as int).species == Species::Empty)
                ==> final(self)@ == old(self)@,
    {
        let i = self.get_index(px, py);
        if erase || self.cells[i].species == Species::Empty {
            let c = Cell::new(species, self.generation);
            self.cells.set(i, c);
            assert forall|qx: int, qy: int| #[trigger] old(self)@.in_grid(qx, qy) && (qx != px || qy != py)
                implies self@.at(qx, qy) == old(self)@.at(qx, qy) by {
                lemma_index_bounds(self.width as int, self.height as int, qx, qy);
                if self@.index(qx, qy) == i {
                    lemma_index_injective(self.width as int, qx, qy, px as int, py as int);
                }
            }
        }
    }

    /// A copy of the cell at (x, y), which must lie on the grid.
    pub fn get_cell(&self, x: i32, y: i32) -> (c: Cell)
        requires
            self@.wf(),
            self@.in_grid(x as int, y as int),
        ensures
            c == self@.at(x as int, y as int),
    {
        let i = self.get_index(x, y);
        self.cells[i]
    }

    fn get_index(&self, x: i32, y: i32) -> (i: usize)
        requires
            self@.wf(),
            self@.in_grid(x as int, y as int),
        ensures
            i == self@.index(x as int, y as int),
            i < self@.cells.len(),
    {
        proof {
            lemma_index_bounds(self.width as int, self.height as int, x as int, y as int);
        }
        ((y * self.width) + x) as usize
    }
}

/// Bounded access to the 3x3 window around the cell at (x, y) during its update.
pub struct Api {
    pub x: i32,
    pub y: i32,
}

impl Api {
    /// The neighbour at offset (dx, dy); outside the grid, a wall stamped with
    /// the current generation.
    pub fn get(&self, world: &World, dx: i32, dy: i32) -> (c: Cell)
        requires
            world@.wf(),
            world@.in_grid(self.x as int, self.y as int),
            -1 <= dx <= 1,
            -1 <= dy <= 1,
        ensures
            world@.in_grid(self.x + dx, self.y + dy) ==> c == world@.at(self.x + dx, self.y + dy),
            !world@.in_grid(self.x + dx, self.y + dy) ==> c.species == Species::Wall
                && c.clock == world@.generation,
            c.species == world@.species_at(self.x + dx, self.y + dy),
    {
        let nx = self.x + dx;
        let ny = self.y + dy;
        if nx < 0 || nx >= world.width || ny < 0 || ny >= world.height {
            return Cell::new(Species::Wall, world.generation);
        }
        world.get_cell(nx, ny)
    }

    /// Writes `c` at offset (dx, dy), stamped with generation + 1; a write
    /// outside the grid is dropped.
    pub fn set(&self, world: &mut World, dx: i32, dy: i32, c: Cell)
        requires
            old(world)@.wf(),
            old(world)@.in_grid(self.x as int, self.y as int),
            -1 <= dx <= 1,
            -1 <= dy <= 1,
        ensures
            final(world)@ == old(world)@.put(self.x + dx, self.y + dy, c),
            final(world)@.wf(),
    {
        let nx = self.x + dx;
        let ny = self.y + dy;
        if nx < 0 || nx >= world.width || ny < 0 || ny >= world.height {
            return;
        }
        let idx = world.get_index(nx, ny);
        let stamp = world.generation.wrapping_add(1);
        world.cells.set(idx, Cell { clock: stamp, ..c });
        assert(world@.cells =~= old(world)@.put(self.x + dx, self.y + dy, c).cells);
    }
}

} // verus!
