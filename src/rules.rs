use vstd::prelude::*;
use crate::cell::{empty_cell, empty_spec, flow_order, flow_spec, random_word, side_of, side_spec, Cell, Species};
use crate::world::{Api, World, WorldView};

verus! {

/// Sand may slide diagonally towards `rx` when that diagonal is empty and,
/// in strict mode, the cell beside it is empty too.
pub open spec fn can_slide(m: WorldView, x: int, y: int, rx: int) -> bool {
    m.species_at(x + rx, y + 1) == Species::Empty
        && (!m.strict_slide || m.species_at(x + rx, y) == Species::Empty)
}

/// One update of a sand cell at (x, y) that leans towards `rx`.
pub open spec fn sand_step(m: WorldView, x: int, y: int, cell: Cell, rx: int) -> WorldView {
    if m.species_at(x, y + 1) == Species::Empty {
        m.relocate(x, y, 0, 1, empty_spec(), cell)
    } else if can_slide(m, x, y, rx) {
        m.relocate(x, y, rx, 1, empty_spec(), cell)
    } else if m.species_at(x, y + 1) == Species::Water {
        m.relocate(x, y, 0, 1, m.at(x, y + 1), cell)
    } else if m.species_at(x + rx, y + 1) == Species::Water {
        m.relocate(x, y, rx, 1, m.at(x + rx, y + 1), cell)
    } else {
        m
    }
}

/// Water tries the downward directions `order[i..]` in turn, then flows sideways.
pub open spec fn water_fall(m: WorldView, x: int, y: int, cell: Cell, order: Seq<int>, rx: int, i: int) -> WorldView
    decreases 3 - i,
{
    if i < 3 {
        if m.species_at(x + order[i], y + 1) == Species::Empty {
            m.relocate(x, y, order[i], 1, empty_spec(), cell)
        } else {
            water_fall(m, x, y, cell, order, rx, i + 1)
        }
    } else if m.species_at(x + rx, y) == Species::Empty {
        m.relocate(x, y, rx, 0, empty_spec(), cell)
    } else if m.species_at(x - rx, y) == Species::Empty {
        m.relocate(x, y, -rx, 0, empty_spec(), cell)
    } else {
        m
    }
}

/// The update that species `sp` makes from (x, y), given the two random words it draws.
pub open spec fn rule_step(m: WorldView, sp: Species, x: int, y: int, cell: Cell, side_word: u32, order_word: u32) -> WorldView {
    match sp {
        Species::Sand => sand_step(m, x, y, cell, side_spec(side_word)),
        Species::Water => water_fall(m, x, y, cell, flow_spec((order_word % 6) as int), side_spec(side_word), 0),
        _ => m,
    }
}

/// One visit of the scan at (x, y): a cell already moved in this pass is
/// skipped, any other runs its species' rule.
pub open spec fn visit(m: WorldView, x: int, y: int, side_word: u32, order_word: u32) -> WorldView {
    if m.is_moved(m.at(x, y)) {
        m
    } else {
        rule_step(m, m.at(x, y).species, x, y, m.at(x, y), side_word, order_word)
    }
}

/// The first `n` visits of one pass in scan order (x outer, y inner), the
/// k-th visit using the k-th pair of random words.
pub open spec fn scan(m: WorldView, n: int, draws: Seq<(u32, u32)>) -> WorldView
    decreases n,
{
    if n <= 0 {
        m
    } else {
        let k = n - 1;
        visit(scan(m, k, draws), k / m.height, k % m.height, draws[k].0, draws[k].1)
    }
}

/// A pass so far depends only on the draws it has used.
pub proof fn lemma_scan_prefix(m: WorldView, n: int, d1: Seq<(u32, u32)>, d2: Seq<(u32, u32)>)
    requires
        0 <= n <= d1.len(),
        n <= d2.len(),
        forall|i: int| 0 <= i < n ==> d1[i] == d2[i],
    ensures
        scan(m, n, d1) == scan(m, n, d2),
    decreases n,
{
    if n > 0 {
        lemma_scan_prefix(m, n - 1, d1, d2);
    }
}

/// One tick: advance the generation, run the full pass, advance it again.
pub open spec fn tick_spec(m: WorldView, draws: Seq<(u32, u32)>) -> WorldView {
    let opened = WorldView { generation: ((m.generation + 1) % 256) as u8, ..m };
    let done = scan(opened, m.width * m.height, draws);
    WorldView { generation: ((m.generation + 2) % 256) as u8, ..done }
}

impl Species {
    /// Runs this species' rule for `cell` at the accessor's position, with the
    /// random draws given as words.
    pub fn update_with(&self, cell: Cell, api: &Api, world: &mut World, side_word: u32, order_word: u32)
        requires
            old(world)@.wf(),
            old(world)@.in_grid(api.x as int, api.y as int),
        ensures
            final(world)@ == rule_step(old(world)@, *self, api.x as int, api.y as int, cell, side_word, order_word),
    {
        match self {
            Species::Empty => {},
            Species::Wall => {},
            Species::Sand => {
                let rx = side_of(side_word);
                update_sand(cell, api, world, rx);
            },
            Species::Water => {
                let order = flow_order(order_word);
                let rx = side_of(side_word);
                update_water(cell, api, world, order, rx);
            },
        }
    }

    /// Runs this species' rule for `cell` at the accessor's position, drawing
    /// its random directions.
    pub fn update(&self, cell: Cell, api: Api, world: &mut World)
        requires
            old(world)@.wf(),
            old(world)@.in_grid(api.x as int, api.y as int),
        ensures
            exists|a: u32, b: u32|
                final(world)@ == #[trigger] rule_step(old(world)@, *self, api.x as int, api.y as int, cell, a, b),
    {
        let order_word = random_word();
        let side_word = random_word();
        self.update_with(cell, &api, world, side_word, order_word);
    }
}

impl Cell {
    /// Runs the rule of this cell's species on this cell at the accessor's position.
    pub fn update(&self, api: Api, world: &mut World)
        requires
            old(world)@.wf(),
            old(world)@.in_grid(api.x as int, api.y as int),
        ensures
            exists|a: u32, b: u32|
                final(world)@ == #[trigger] rule_step(old(world)@, self.species, api.x as int, api.y as int, *self, a, b),
    {
        self.species.update(*self, api, world);
    }
}

fn update_sand(cell: Cell, api: &Api, world: &mut World, rx: i32)
    requires
        old(world)@.wf(),
        old(world)@.in_grid(api.x as int, api.y as int),
        rx == -1 || rx == 1,
    ensures
        final(world)@ == sand_step(old(world)@, api.x as int, api.y as int, cell, rx as int),
{
    let below = api.get(world, 0, 1);
    if below.species == Species::Empty {
        api.set(world, 0, 0, empty_cell());
        api.set(world, 0, 1, cell);
    } else if api.get(world, rx, 1).species == Species::Empty
        && (!world.strict_slide() || api.get(world, rx, 0).species == Species::Empty) {
        api.set(world, 0, 0, empty_cell());
        api.set(world, rx, 1, cell);
    } else if below.species == Species::Water {
        api.set(world, 0, 0, below);
        api.set(world, 0, 1, cell);
    } else {
        let n = api.get(world, rx, 1);
        if n.species == Species::Water {
            api.set(world, 0, 0, n);
            api.set(world, rx, 1, cell);
        }
    }
}

fn update_water(cell: Cell, api: &Api, world: &mut World, order: [i32; 3], rx: i32)
    requires
        old(world)@.wf(),
        old(world)@.in_grid(api.x as int, api.y as int),
        rx == -1 || rx == 1,
        forall|i: int| 0 <= i < 3 ==> -1 <= #[trigger] order@[i] <= 1,
    ensures
        final(world)@ == water_fall(old(world)@, api.x as int, api.y as int, cell,
            order@.map_values(|d: i32| d as int), rx as int, 0),
{
    let ghost m = world@;
    let ghost ord = order@.map_values(|d: i32| d as int);
    let mut i: usize = 0;
    while i < 3
        invariant
            i <= 3,
            world@ == m,
            m == old(world)@,
            m.wf(),
            m.in_grid(api.x as int, api.y as int),
            ord == order@.map_values(|d: i32| d as int),
            forall|j: int| 0 <= j < 3 ==> -1 <= #[trigger] order@[j] <= 1,
            water_fall(m, api.x as int, api.y as int, cell, ord, rx as int, 0)
                == water_fall(m, api.x as int, api.y as int, cell, ord, rx as int, i as int),
        decreases 3 - i,
    {
        let d = order[i];
        assert(ord[i as int] == d as int);
        let n = api.get(world, d, 1);
        if n.species == Species::Empty {
            api.set(world, 0, 0, empty_cell());
            api.set(world, d, 1, cell);
            assert(water_fall(m, api.x as int, api.y as int, cell, ord, rx as int, i as int)
                == m.relocate(api.x as int, api.y as int, d as int, 1, empty_spec(), cell));
            return;
        }
        i += 1;
    }
    if api.get(world, rx, 0).species == Species::Empty {
        api.set(world, 0, 0, empty_cell());
        api.set(world, rx, 0, cell);
    } else if api.get(world, -rx, 0).species == Species::Empty {
        api.set(world, 0, 0, empty_cell());
        api.set(world, -rx, 0, cell);
    }
}

} // verus!
