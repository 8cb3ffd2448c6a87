use vstd::prelude::*;
use crate::cell::{empty_spec, flow_spec, side_spec, Cell, Species};
use crate::rules::{can_slide, rule_step, sand_step, scan, tick_spec, visit, water_fall};
use crate::world::{lemma_index_bounds, lemma_index_injective, WorldView};
use vstd::arithmetic::div_mod::{lemma_fundamental_div_mod, lemma_mod_pos_bound};

verus! {

/// How many cells of `s` hold species `sp`.
pub open spec fn count(s: Seq<Cell>, sp: Species) -> nat
    decreases s.len(),
{
    if s.len() == 0 {
        0
    } else {
        count(s.drop_last(), sp) + if s.last().species == sp { 1nat } else { 0nat }
    }
}

pub open spec fn one_if(b: bool) -> nat {
    if b { 1 } else { 0 }
}

/// Overwriting one slot changes the count by what left and what came.
pub proof fn lemma_count_update(s: Seq<Cell>, i: int, c: Cell, sp: Species)
    requires
        0 <= i < s.len(),
    ensures
        count(s.update(i, c), sp) + one_if(s[i].species == sp) == count(s, sp) + one_if(c.species == sp),
    decreases s.len(),
{
    let t = s.update(i, c);
    if i == s.len() - 1 {
        assert(t.drop_last() =~= s.drop_last());
    } else {
        assert(t.drop_last() =~= s.drop_last().update(i, c));
        lemma_count_update(s.drop_last(), i, c, sp);
    }
}

/// What a step may do to the grid: keep its shape, keep the count of every
/// species, leave every wall cell as it was, and stamp every slot that it
/// writes as moved in the running pass.
pub open spec fn conserves(m: WorldView, r: WorldView) -> bool {
    &&& r.wf()
    &&& r.width == m.width
    &&& r.height == m.height
    &&& r.generation == m.generation
    &&& r.strict_slide == m.strict_slide
    &&& forall|sp: Species| count(#[trigger] r.cells, sp) == count(m.cells, sp)
    &&& forall|i: int| 0 <= i < m.cells.len() && (#[trigger] m.cells[i]).species == Species::Wall
        ==> r.cells[i] == m.cells[i]
    &&& forall|i: int| 0 <= i < m.cells.len() && #[trigger] r.cells[i] != m.cells[i] ==> m.is_moved(r.cells[i])
}

/// A move between two slots of the grid that swaps their species conserves matter.
proof fn lemma_relocate_conserves(m: WorldView, x: int, y: int, dx: int, dy: int, behind: Cell, cell: Cell)
    requires
        m.wf(),
        m.in_grid(x, y),
        m.in_grid(x + dx, y + dy),
        dx != 0 || dy != 0,
        cell.species == m.at(x, y).species,
        behind.species == m.at(x + dx, y + dy).species,
        cell.species != Species::Wall,
        behind.species != Species::Wall,
    ensures
        conserves(m, m.relocate(x, y, dx, dy, behind, cell)),
{
    crate::world::lemma_index_bounds(m.width, m.height, x, y);
    crate::world::lemma_index_bounds(m.width, m.height, x + dx, y + dy);
    let p = m.index(x, y);
    let q = m.index(x + dx, y + dy);
    if p == q {
        lemma_index_injective(m.width, x, y, x + dx, y + dy);
    }
    let s = m.cells;
    let b = Cell { clock: m.moved_stamp(), ..behind };
    let c = Cell { clock: m.moved_stamp(), ..cell };
    let t1 = s.update(p, b);
    let r = m.relocate(x, y, dx, dy, behind, cell);
    assert(r.cells == t1.update(q, c));
    assert forall|sp: Species| count(#[trigger] r.cells, sp) == count(m.cells, sp) by {
        lemma_count_update(s, p, b, sp);
        lemma_count_update(t1, q, c, sp);
    }
    assert(m.is_moved(b) && m.is_moved(c));
}

proof fn lemma_water_fall_conserves(m: WorldView, x: int, y: int, cell: Cell, order: Seq<int>, rx: int, i: int)
    requires
        m.wf(),
        m.in_grid(x, y),
        cell == m.at(x, y),
        cell.species == Species::Water,
        rx == -1 || rx == 1,
        order.len() == 3,
        forall|j: int| 0 <= j < 3 ==> -1 <= #[trigger] order[j] <= 1,
        0 <= i <= 3,
    ensures
        conserves(m, water_fall(m, x, y, cell, order, rx, i)),
    decreases 3 - i,
{
    if i < 3 {
        if m.species_at(x + order[i], y + 1) == Species::Empty {
            lemma_relocate_conserves(m, x, y, order[i], 1, empty_spec(), cell);
        } else {
            lemma_water_fall_conserves(m, x, y, cell, order, rx, i + 1);
        }
    } else if m.species_at(x + rx, y) == Species::Empty {
        lemma_relocate_conserves(m, x, y, rx, 0, empty_spec(), cell);
    } else if m.species_at(x - rx, y) == Species::Empty {
        lemma_relocate_conserves(m, x, y, -rx, 0, empty_spec(), cell);
    }
}

/// A species rule run on the cell where it stands moves matter around but
/// never creates or destroys it, and never touches a wall.
pub proof fn lemma_step_conserves_matter(m: WorldView, x: int, y: int, side_word: u32, order_word: u32)
    requires
        m.wf(),
        m.in_grid(x, y),
    ensures
        conserves(m, rule_step(m, m.at(x, y).species, x, y, m.at(x, y), side_word, order_word)),
{
    let cell = m.at(x, y);
    let rx = side_spec(side_word);
    match cell.species {
        Species::Sand => {
            if m.species_at(x, y + 1) == Species::Empty {
                lemma_relocate_conserves(m, x, y, 0, 1, empty_spec(), cell);
            } else if can_slide(m, x, y, rx) {
                lemma_relocate_conserves(m, x, y, rx, 1, empty_spec(), cell);
            } else if m.species_at(x, y + 1) == Species::Water {
                lemma_relocate_conserves(m, x, y, 0, 1, m.at(x, y + 1), cell);
            } else if m.species_at(x + rx, y + 1) == Species::Water {
                lemma_relocate_conserves(m, x, y, rx, 1, m.at(x + rx, y + 1), cell);
            }
        },
        Species::Water => {
            let order = flow_spec((order_word % 6) as int);
            lemma_water_fall_conserves(m, x, y, cell, order, rx, 0);
        },
        _ => {},
    }
}

/// Content that a move of the running pass has put into a slot is skipped
/// when the scan reaches that slot, and every slot that a visit writes is
/// stamped as moved in this pass: a rule never moves again what a rule has
/// already moved during the same tick.
pub proof fn lemma_moved_cell_not_moved_again(m: WorldView, x: int, y: int, side_word: u32, order_word: u32)
    requires
        m.wf(),
        m.in_grid(x, y),
    ensures
        m.is_moved(m.at(x, y)) ==> visit(m, x, y, side_word, order_word) == m,
        forall|i: int| 0 <= i < m.cells.len()
            && #[trigger] visit(m, x, y, side_word, order_word).cells[i] != m.cells[i]
            ==> m.is_moved(visit(m, x, y, side_word, order_word).cells[i]),
{
    if !m.is_moved(m.at(x, y)) {
        lemma_step_conserves_matter(m, x, y, side_word, order_word);
    }
}

/// The rule of a cell in the bottom row writes only into the bottom row:
/// sand there never moves, and water there moves only sideways.
pub proof fn lemma_bottom_row_stays_in_row(m: WorldView, x: int, side_word: u32, order_word: u32)
    requires
        m.wf(),
        m.in_grid(x, m.height - 1),
    ensures
        m.at(x, m.height - 1).species == Species::Sand
            ==> rule_step(m, Species::Sand, x, m.height - 1, m.at(x, m.height - 1), side_word, order_word) == m,
        forall|px: int, py: int| #[trigger] m.in_grid(px, py)
            && rule_step(m, m.at(x, m.height - 1).species, x, m.height - 1, m.at(x, m.height - 1),
                side_word, order_word).at(px, py) != m.at(px, py)
            ==> py == m.height - 1,
{
    let y = m.height - 1;
    let cell = m.at(x, y);
    let rx = side_spec(side_word);
    let order = flow_spec((order_word % 6) as int);
    let r = rule_step(m, cell.species, x, y, cell, side_word, order_word);
    assert(!m.in_grid(x, y + 1) && !m.in_grid(x + rx, y + 1));
    assert(sand_step(m, x, y, cell, rx) == m);
    reveal_with_fuel(water_fall, 4);
    assert(water_fall(m, x, y, cell, order, rx, 0) == water_fall(m, x, y, cell, order, rx, 3));
    assert forall|px: int, py: int| #[trigger] m.in_grid(px, py) && r.at(px, py) != m.at(px, py)
        implies py == y by {
        lemma_index_bounds(m.width, m.height, px, py);
        if py != y {
            let i = m.index(px, py);
            assert(i != m.index(x, y)) by {
                if i == m.index(x, y) {
                    lemma_index_injective(m.width, px, py, x, y);
                }
            }
            assert(m.in_grid(x + rx, y) ==> i != m.index(x + rx, y)) by {
                if m.in_grid(x + rx, y) && i == m.index(x + rx, y) {
                    lemma_index_injective(m.width, px, py, x + rx, y);
                }
            }
            assert(m.in_grid(x - rx, y) ==> i != m.index(x - rx, y)) by {
                if m.in_grid(x - rx, y) && i == m.index(x - rx, y) {
                    lemma_index_injective(m.width, px, py, x - rx, y);
                }
            }
            if cell.species == Species::Water {
                let e = empty_spec();
                lemma_index_bounds(m.width, m.height, x, y);
                if m.in_grid(x + rx, y) {
                    lemma_index_bounds(m.width, m.height, x + rx, y);
                }
                if m.in_grid(x - rx, y) {
                    lemma_index_bounds(m.width, m.height, x - rx, y);
                }
                if m.species_at(x + rx, y) == Species::Empty {
                    assert(r == m.put(x, y, e).put(x + rx, y, cell));
                    assert(r.cells[i] == m.cells[i]);
                } else if m.species_at(x - rx, y) == Species::Empty {
                    assert(r == m.put(x, y, e).put(x - rx, y, cell));
                    assert(r.cells[i] == m.cells[i]);
                }
            }
        }
    }
}

/// Every prefix of a pass conserves matter and leaves walls alone.
pub proof fn lemma_scan_conserves(m: WorldView, n: int, draws: Seq<(u32, u32)>)
    requires
        m.wf(),
        0 <= n <= m.width * m.height,
        n <= draws.len(),
    ensures
        conserves(m, scan(m, n, draws)),
    decreases n,
{
    if n > 0 {
        let k = n - 1;
        lemma_scan_conserves(m, k, draws);
        let prev = scan(m, k, draws);
        lemma_fundamental_div_mod(k, m.height);
        lemma_mod_pos_bound(k, m.height);
        let q = k / m.height;
        assert(0 <= q < m.width) by (nonlinear_arith)
            requires
                k == m.height * q + k % m.height,
                0 <= k % m.height < m.height,
                0 <= k < m.width * m.height,
        ;
        if !prev.is_moved(prev.at(q, k % m.height)) {
            lemma_step_conserves_matter(prev, q, k % m.height, draws[k].0, draws[k].1);
        }
    }
}

/// A grid made of walls alone comes out of a tick with the same cells.
pub proof fn lemma_wall_grid_unchanged(m: WorldView, draws: Seq<(u32, u32)>)
    requires
        m.wf(),
        draws.len() == m.width * m.height,
        forall|i: int| 0 <= i < m.cells.len() ==> (#[trigger] m.cells[i]).species == Species::Wall,
    ensures
        tick_spec(m, draws).cells == m.cells,
{
    let opened = WorldView { generation: ((m.generation + 1) % 256) as u8, ..m };
    lemma_scan_conserves(opened, m.width * m.height, draws);
    assert(tick_spec(m, draws).cells =~= m.cells);
}

} // verus!
