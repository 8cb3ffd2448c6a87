use vstd::prelude::*;

verus! {

/// The material held by one cell of the grid.
#[derive(Clone, Copy, PartialEq, Eq, Structural, Debug)]
pub enum Species {
    Empty,
    Wall,
    Sand,
    Water,
}

impl Species {
    /// Sand and water move; empty space and walls never do.
    pub open spec fn is_mobile(self) -> bool {
        self == Species::Sand || self == Species::Water
    }
}

/// One slot of the grid: its material, a per-cell random byte, and the
/// generation at which a move last wrote it.
#[derive(Clone, Copy, PartialEq, Eq, Structural, Debug)]
pub struct Cell {
    pub species: Species,
    pub ra: u8,
    pub clock: u8,
}

/// The default cell: empty space with a zero seed and a zero clock.
pub open spec fn empty_spec() -> Cell {
    Cell { species: Species::Empty, ra: 0, clock: 0 }
}

pub fn empty_cell() -> (c: Cell)
    ensures
        c == empty_spec(),
{
    Cell { species: Species::Empty, ra: 0, clock: 0 }
}

/// Relies on rand::random::<u32>: a word drawn from the thread-local generator.
/// Nothing is promised of its value.
#[verifier::external_body]
pub(crate) fn random_word() -> (r: u32) {
    rand::random::<u32>()
}

impl Cell {
    /// A fresh cell of the given species and clock, with a random seed byte.
    pub fn new(species: Species, clock: u8) -> (c: Cell)
        ensures
            c.species == species,
            c.clock == clock,
    {
        let w = random_word();
        Cell { species, ra: (w % 256) as u8, clock }
    }
}

/// The lateral direction that a drawn word selects: even words go left.
pub open spec fn side_spec(word: u32) -> int {
    if word % 2 == 0 { -1 } else { 1 }
}

/// The lateral direction (-1 or +1) selected by a random word.
pub fn side_of(word: u32) -> (r: i32)
    ensures
        r == side_spec(word),
{
    if word % 2 == 0 { -1 } else { 1 }
}

/// The six orders in which water tries its three downward directions.
pub open spec fn flow_spec(k: int) -> Seq<int> {
    if k == 0 {
        seq![-1, 0, 1]
    } else if k == 1 {
        seq![0, -1, 1]
    } else if k == 2 {
        seq![1, -1, 0]
    } else if k == 3 {
        seq![-1, 1, 0]
    } else if k == 4 {
        seq![0, 1, -1]
    } else {
        seq![1, 0, -1]
    }
}

/// The order of downward directions that a drawn word selects, one of six.
pub fn flow_order(word: u32) -> (r: [i32; 3])
    ensures
        r@.map_values(|d: i32| d as int) == flow_spec((word % 6) as int),
{
    let k = word % 6;
    let r: [i32; 3] = if k == 0 {
        [-1, 0, 1]
    } else if k == 1 {
        [0, -1, 1]
    } else if k == 2 {
        [1, -1, 0]
    } else if k == 3 {
        [-1, 1, 0]
    } else if k == 4 {
        [0, 1, -1]
    } else {
        [1, 0, -1]
    };
    assert(r@.map_values(|d: i32| d as int) =~= flow_spec(k as int));
    r
}

} // verus!
