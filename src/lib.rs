//! A falling-sand cellular automaton: a grid of typed cells that evolves one
//! tick at a time under per-species movement rules.
mod cell;
mod laws;
mod rules;
mod world;

pub use cell::{empty_cell, flow_order, side_of, Cell, Species};
pub use world::{Api, World, WorldView};
pub use laws::{
    lemma_bottom_row_stays_in_row, lemma_moved_cell_not_moved_again, lemma_step_conserves_matter,
    lemma_wall_grid_unchanged,
};


