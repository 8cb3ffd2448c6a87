use falling_sand::{empty_cell, flow_order, side_of, Api, Cell, Species, World};

fn species_grid(world: &World, w: i32, h: i32) -> Vec<Species> {
    let mut out = Vec::new();
    for y in 0..h {
        for x in 0..w {
            out.push(world.get_cell(x, y).species);
        }
    }
    out
}

fn count(world: &World, w: i32, h: i32, sp: Species) -> usize {
    species_grid(world, w, h).into_iter().filter(|s| *s == sp).count()
}

#[test]
fn new_world_is_empty() {
    let world = World::new(4, 3, 8);
    for x in 0..4 {
        for y in 0..3 {
            assert_eq!(world.get_cell(x, y), empty_cell());
        }
    }
    assert_eq!(world.generation(), 0);
    assert!(!world.strict_slide());
}

#[test]
fn single_grain_fall() {
    let mut world = World::new(3, 3, 1);
    world.paint(1, 0, 1, Species::Sand, false);
    world.tick();
    assert_eq!(world.get_cell(1, 0).species, Species::Empty);
    assert_eq!(world.get_cell(1, 1).species, Species::Sand);
    world.tick();
    assert_eq!(world.get_cell(1, 1).species, Species::Empty);
    assert_eq!(world.get_cell(1, 2).species, Species::Sand);
    world.tick();
    assert_eq!(world.get_cell(1, 2).species, Species::Sand);
    assert_eq!(count(&world, 3, 3, Species::Sand), 1);
}

#[test]
fn sand_sinks_through_water() {
    let mut world = World::new(1, 3, 1);
    world.paint(0, 0, 1, Species::Sand, false);
    world.paint(0, 1, 1, Species::Water, false);
    world.tick();
    assert_eq!(world.get_cell(0, 0).species, Species::Water);
    assert_eq!(world.get_cell(0, 1).species, Species::Sand);
    assert_eq!(world.get_cell(0, 2).species, Species::Empty);
}

#[test]
fn reset_clears_every_cell() {
    let mut world = World::new(5, 4, 2);
    world.paint(1, 1, 1, Species::Sand, false);
    world.paint(3, 2, 1, Species::Wall, false);
    world.paint(2, 3, 1, Species::Water, false);
    world.tick();
    let g = world.generation();
    world.reset();
    for x in 0..5 {
        for y in 0..4 {
            assert_eq!(world.get_cell(x, y), empty_cell());
        }
    }
    assert_eq!(world.generation(), g);
}

#[test]
fn paint_without_erase_keeps_occupied_cells() {
    let mut world = World::new(3, 3, 1);
    world.paint(0, 0, 1, Species::Sand, false);
    world.paint(2, 2, 1, Species::Wall, false);
    let sand = world.get_cell(0, 0);
    let wall = world.get_cell(2, 2);
    world.paint(0, 0, 1, Species::Sand, false);
    world.paint(2, 2, 1, Species::Sand, false);
    assert_eq!(world.get_cell(0, 0), sand);
    assert_eq!(world.get_cell(2, 2), wall);
}

#[test]
fn paint_with_erase_overwrites() {
    let mut world = World::new(3, 3, 1);
    world.paint(2, 2, 1, Species::Wall, false);
    world.paint(2, 2, 1, Species::Sand, true);
    assert_eq!(world.get_cell(2, 2).species, Species::Sand);
    world.paint(2, 2, 1, Species::Empty, true);
    assert_eq!(world.get_cell(2, 2).species, Species::Empty);
}

#[test]
fn paint_stamps_current_generation() {
    let mut world = World::new(3, 3, 1);
    world.tick();
    assert_eq!(world.generation(), 2);
    world.paint(1, 1, 1, Species::Wall, false);
    assert_eq!(world.get_cell(1, 1).clock, 2);
}

#[test]
fn paint_square_brush_is_clipped() {
    let mut world = World::new(4, 4, 1);
    // size 4: offsets -2..2 around (0, 0), of which only [0, 2) x [0, 2) is on the grid
    world.paint(0, 0, 4, Species::Wall, false);
    let grid = species_grid(&world, 4, 4);
    for y in 0..4 {
        for x in 0..4 {
            let expect = if x < 2 && y < 2 { Species::Wall } else { Species::Empty };
            assert_eq!(grid[(y * 4 + x) as usize], expect);
        }
    }
}

#[test]
fn paint_size_two_covers_two_by_two() {
    let mut world = World::new(4, 4, 1);
    world.paint(2, 2, 2, Species::Wall, false);
    assert_eq!(count(&world, 4, 4, Species::Wall), 4);
    assert_eq!(world.get_cell(1, 1).species, Species::Wall);
    assert_eq!(world.get_cell(2, 2).species, Species::Wall);
    assert_eq!(world.get_cell(3, 3).species, Species::Empty);
}

#[test]
fn paint_size_zero_paints_nothing() {
    let mut world = World::new(3, 3, 1);
    world.paint(1, 1, 0, Species::Wall, false);
    assert_eq!(count(&world, 3, 3, Species::Wall), 0);
}

#[test]
fn paint_off_grid_is_dropped() {
    let mut world = World::new(3, 3, 1);
    world.paint(7, 1, 1, Species::Wall, true);
    world.paint(1, 9, 1, Species::Wall, true);
    assert_eq!(count(&world, 3, 3, Species::Wall), 0);
}

#[test]
fn wall_grid_never_changes() {
    let mut world = World::new(3, 2, 1);
    world.paint(1, 1, 4, Species::Wall, false);
    assert_eq!(count(&world, 3, 2, Species::Wall), 6);
    let before: Vec<Cell> = (0..2).flat_map(|y| (0..3).map(move |x| (x, y))).map(|(x, y)| world.get_cell(x, y)).collect();
    for _ in 0..10 {
        world.tick();
    }
    let after: Vec<Cell> = (0..2).flat_map(|y| (0..3).map(move |x| (x, y))).map(|(x, y)| world.get_cell(x, y)).collect();
    assert_eq!(before, after);
}

#[test]
fn mass_is_conserved() {
    let mut world = World::new(6, 6, 1);
    world.paint(3, 1, 4, Species::Sand, false);
    world.paint(1, 4, 2, Species::Water, false);
    world.paint(5, 5, 1, Species::Wall, false);
    let sand = count(&world, 6, 6, Species::Sand);
    let water = count(&world, 6, 6, Species::Water);
    for _ in 0..20 {
        world.tick();
        assert_eq!(count(&world, 6, 6, Species::Sand), sand);
        assert_eq!(count(&world, 6, 6, Species::Water), water);
        assert_eq!(count(&world, 6, 6, Species::Wall), 1);
        assert_eq!(world.get_cell(5, 5).species, Species::Wall);
    }
}

#[test]
fn bottom_row_grains_stay_in_bottom_row() {
    let mut world = World::new(4, 2, 1);
    world.paint(0, 1, 1, Species::Sand, false);
    world.paint(2, 1, 1, Species::Water, false);
    for _ in 0..10 {
        world.tick();
        assert_eq!(world.get_cell(0, 1).species, Species::Sand);
        for x in 0..4 {
            assert_eq!(world.get_cell(x, 0).species, Species::Empty);
        }
        assert_eq!(count(&world, 4, 2, Species::Water), 1);
    }
}

#[test]
fn water_flows_sideways_on_floor() {
    let mut world = World::new(3, 1, 1);
    world.paint(1, 0, 1, Species::Water, false);
    world.tick();
    assert_eq!(world.get_cell(1, 0).species, Species::Empty);
    assert_eq!(count(&world, 3, 1, Species::Water), 1);
}

#[test]
fn water_boxed_in_stays() {
    let mut world = World::new(3, 1, 1);
    world.paint(0, 0, 1, Species::Wall, false);
    world.paint(2, 0, 1, Species::Wall, false);
    world.paint(1, 0, 1, Species::Water, false);
    world.tick();
    assert_eq!(world.get_cell(1, 0).species, Species::Water);
}

#[test]
fn generation_wraps_around() {
    let mut world = World::new(3, 3, 1);
    for _ in 0..127 {
        world.tick();
    }
    assert_eq!(world.generation(), 254);
    world.paint(1, 0, 1, Species::Sand, false);
    world.tick();
    assert_eq!(world.generation(), 0);
    assert_eq!(world.get_cell(1, 1).species, Species::Sand);
    world.tick();
    assert_eq!(world.generation(), 2);
    assert_eq!(world.get_cell(1, 2).species, Species::Sand);
}

#[test]
fn sand_slides_diagonally_off_a_wall() {
    let mut world = World::new(3, 2, 1);
    world.paint(1, 1, 1, Species::Wall, false);
    world.paint(1, 0, 1, Species::Sand, false);
    world.tick();
    assert_eq!(world.get_cell(1, 0).species, Species::Empty);
    let left = world.get_cell(0, 1).species == Species::Sand;
    let right = world.get_cell(2, 1).species == Species::Sand;
    assert!(left != right);
}

#[test]
fn strict_slide_needs_side_cell_empty() {
    let mut world = World::new(3, 2, 1);
    world.set_strict_slide(true);
    assert!(world.strict_slide());
    world.paint(1, 1, 1, Species::Wall, false);
    world.paint(0, 0, 1, Species::Wall, false);
    world.paint(2, 0, 1, Species::Wall, false);
    world.paint(1, 0, 1, Species::Sand, false);
    world.tick();
    assert_eq!(world.get_cell(1, 0).species, Species::Sand);
}

#[test]
fn loose_slide_ignores_side_cell() {
    let mut world = World::new(3, 2, 1);
    world.paint(1, 1, 1, Species::Wall, false);
    world.paint(0, 0, 1, Species::Wall, false);
    world.paint(2, 0, 1, Species::Wall, false);
    world.paint(1, 0, 1, Species::Sand, false);
    world.tick();
    assert_eq!(world.get_cell(1, 0).species, Species::Empty);
}

#[test]
fn side_of_words() {
    assert_eq!(side_of(0), -1);
    assert_eq!(side_of(7), 1);
    assert_eq!(side_of(u32::MAX), 1);
}

#[test]
fn flow_order_words() {
    assert_eq!(flow_order(0), [-1, 0, 1]);
    assert_eq!(flow_order(1), [0, -1, 1]);
    assert_eq!(flow_order(2), [1, -1, 0]);
    assert_eq!(flow_order(3), [-1, 1, 0]);
    assert_eq!(flow_order(4), [0, 1, -1]);
    assert_eq!(flow_order(5), [1, 0, -1]);
    assert_eq!(flow_order(6), [-1, 0, 1]);
}

#[test]
fn accessor_reads_walls_off_grid() {
    let mut world = World::new(2, 2, 1);
    world.tick();
    let api = Api { x: 0, y: 0 };
    let c = api.get(&world, -1, 0);
    assert_eq!(c.species, Species::Wall);
    assert_eq!(c.clock, world.generation());
    assert_eq!(api.get(&world, 1, 1), world.get_cell(1, 1));
}

#[test]
fn accessor_writes_stamp_and_drop_off_grid() {
    let mut world = World::new(2, 2, 1);
    let api = Api { x: 1, y: 1 };
    let sand = Cell { species: Species::Sand, ra: 9, clock: 0 };
    api.set(&mut world, 1, 0, sand);
    api.set(&mut world, 0, 1, sand);
    assert_eq!(count(&world, 2, 2, Species::Sand), 0);
    api.set(&mut world, -1, -1, sand);
    let c = world.get_cell(0, 0);
    assert_eq!(c.species, Species::Sand);
    assert_eq!(c.ra, 9);
    assert_eq!(c.clock, world.generation().wrapping_add(1));
}

#[test]
fn update_with_water_follows_order() {
    // water at (1, 0) on a 3x2 grid, all below empty; order word 2 tries +1 first
    let mut world = World::new(3, 2, 1);
    world.paint(1, 0, 1, Species::Water, false);
    let cell = world.get_cell(1, 0);
    let api = Api { x: 1, y: 0 };
    Species::Water.update_with(cell, &api, &mut world, 0, 2);
    assert_eq!(world.get_cell(2, 1).species, Species::Water);
    assert_eq!(world.get_cell(1, 0).species, Species::Empty);
}

#[test]
fn update_with_water_sideways_by_side_word() {
    // water on a floor row: nothing below, side word 0 goes left first
    let mut world = World::new(3, 1, 1);
    world.paint(1, 0, 1, Species::Water, false);
    let cell = world.get_cell(1, 0);
    let api = Api { x: 1, y: 0 };
    Species::Water.update_with(cell, &api, &mut world, 0, 0);
    assert_eq!(world.get_cell(0, 0).species, Species::Water);
    assert_eq!(world.get_cell(1, 0).species, Species::Empty);
}

#[test]
fn update_with_sand_diagonal_by_side_word() {
    let mut world = World::new(3, 2, 1);
    world.paint(1, 1, 1, Species::Wall, false);
    world.paint(1, 0, 1, Species::Sand, false);
    let cell = world.get_cell(1, 0);
    let api = Api { x: 1, y: 0 };
    Species::Sand.update_with(cell, &api, &mut world, 1, 0);
    assert_eq!(world.get_cell(2, 1).species, Species::Sand);
    assert_eq!(world.get_cell(0, 1).species, Species::Empty);
}

#[test]
fn update_with_sand_displaces_diagonal_water() {
    let mut world = World::new(3, 2, 1);
    world.paint(1, 1, 1, Species::Wall, false);
    world.paint(0, 1, 1, Species::Water, false);
    world.paint(2, 1, 1, Species::Wall, false);
    world.paint(1, 0, 1, Species::Sand, false);
    let cell = world.get_cell(1, 0);
    let api = Api { x: 1, y: 0 };
    Species::Sand.update_with(cell, &api, &mut world, 0, 0);
    assert_eq!(world.get_cell(0, 1).species, Species::Sand);
    assert_eq!(world.get_cell(1, 0).species, Species::Water);
}

#[test]
fn cell_update_runs_its_species() {
    let mut world = World::new(1, 2, 1);
    world.paint(0, 0, 1, Species::Sand, false);
    let cell = world.get_cell(0, 0);
    cell.update(Api { x: 0, y: 0 }, &mut world);
    assert_eq!(world.get_cell(0, 1).species, Species::Sand);
    assert_eq!(world.get_cell(0, 0).species, Species::Empty);
}

#[test]
fn cell_new_keeps_species_and_clock() {
    let c = Cell::new(Species::Water, 42);
    assert_eq!(c.species, Species::Water);
    assert_eq!(c.clock, 42);
}
