//! Playing in the world: the hotbar, editing blocks, chunk bookkeeping and
//! flowing water.

use voxelcraft::block::Block;
use voxelcraft::chunk::{all_chunks, chunk_of, dirty_columns};
use voxelcraft::hotbar::{select_slot, slot, update_selection, Hotbar, SLOT_COUNT, VISIBLE};
use voxelcraft::interaction::{edit_blocks, edit_target, prune_plant_above};
use voxelcraft::water::{disturb, simulate_water, water_updates, Cell};
use voxelcraft::viewmodel::ViewMode;
use voxelcraft::particles::xorshift;
use voxelcraft::player::cells_stop_player;
use voxelcraft::texture::{atlas_cell, texel_hash, T_WATER};
use voxelcraft::world::{World, FLAT_LEVEL, PLAY_MARGIN, WATER_SOURCE};

#[test]
fn chunk_coordinates_floor_towards_negative() {
    assert_eq!(chunk_of(0, 0), (0, 0));
    assert_eq!(chunk_of(15, 16), (0, 1));
    assert_eq!(chunk_of(-1, -16), (-1, -1));
    assert_eq!(chunk_of(-17, 767), (-2, 47));
    assert_eq!(chunk_of(i32::MIN, i32::MAX), (i32::MIN / 16, i32::MAX / 16));
}

#[test]
fn an_edit_marks_its_chunk_and_the_neighbours() {
    assert_eq!(dirty_columns(16, 31), vec![(1, 1), (1, 1), (0, 1), (1, 2), (1, 1)]);
    let all = all_chunks();
    assert_eq!(all.len(), 48 * 48);
    assert_eq!(all[0], (0, 0));
    assert_eq!(all[49], (1, 1));
    assert_eq!(all[48 * 48 - 1], (47, 47));
}

#[test]
fn the_hotbar_starts_on_grass_and_keeps_the_selection_in_view() {
    let h = Hotbar::default();
    assert_eq!(h.selected, 1);
    assert_eq!(h.block(), Some(Block::Grass));
    assert_eq!(slot(0), None);
    assert_eq!(slot(SLOT_COUNT - 1), Some(Block::Road));
    for selected in 0..SLOT_COUNT {
        let start = Hotbar { selected }.window_start();
        assert!(start <= selected && selected < start + VISIBLE);
        assert!(start + VISIBLE <= SLOT_COUNT);
    }
    assert_eq!(Hotbar { selected: 0 }.window_start(), 0);
    assert_eq!(Hotbar { selected: 4 }.window_start(), 0);
    assert_eq!(Hotbar { selected: 10 }.window_start(), 6);
    assert_eq!(Hotbar { selected: 20 }.window_start(), 12);
}

#[test]
fn digits_pick_visible_cells_and_the_wheel_wraps() {
    let mut h = Hotbar { selected: 10 };
    let mut digits = [false; VISIBLE];
    digits[2] = true;
    select_slot(&mut h, &digits, 0);
    assert_eq!(h.selected, 8, "window starts at 6, third cell");
    // The later of two keys pressed together wins.
    let mut both = [false; VISIBLE];
    both[0] = true;
    both[8] = true;
    select_slot(&mut h, &both, 0);
    assert_eq!(h.selected, 4 + 8);
    // Near the end the pick is clamped to the last slot.
    let mut h = Hotbar { selected: 20 };
    let mut last = [false; VISIBLE];
    last[8] = true;
    select_slot(&mut h, &last, 0);
    assert_eq!(h.selected, 20);
    // The wheel wraps round both ends.
    let mut h = Hotbar { selected: 0 };
    select_slot(&mut h, &[], 1);
    assert_eq!(h.selected, 20);
    select_slot(&mut h, &[], -3);
    assert_eq!(h.selected, 0);
    select_slot(&mut h, &[], -1);
    assert_eq!(h.selected, 1);
}

#[test]
fn the_bar_shows_its_window() {
    let cells = update_selection(&Hotbar { selected: 0 });
    assert_eq!(cells.len(), VISIBLE);
    assert_eq!(cells[0], (true, None));
    assert_eq!(cells[1], (false, Some(Block::Grass)));
    let cells = update_selection(&Hotbar { selected: 10 });
    assert_eq!(cells[4], (true, Some(Block::YellowFlower)));
    assert_eq!(cells[0], (false, Some(Block::Leaves)));
}

fn plain() -> World {
    let mut w = World::empty();
    w.fill_flat(FLAT_LEVEL);
    w
}

const G: i32 = FLAT_LEVEL;

#[test]
fn breaking_and_placing_blocks() {
    let mut w = plain();
    let mut active: Vec<Cell> = Vec::new();
    // Break the grass at (10, G, 10).
    let t = edit_target(&w, (10, G, 10), (10, G + 1, 10), true, false, None);
    assert_eq!(t, (10, G, 10));
    let (dirty, broken) = edit_blocks(&mut w, &mut active, t, true, false, None, false);
    assert_eq!(w.get(10, G, 10), Block::Air);
    assert_eq!(broken, Some(Block::Grass));
    assert_eq!(dirty.len(), 5);
    assert_eq!(active.len(), 7);
    assert_eq!(active[0], (10, G, 10));

    // Place stone in front of the hit block.
    let t = edit_target(&w, (20, G, 20), (20, G + 1, 20), false, true, Some(Block::Stone));
    assert_eq!(t, (20, G + 1, 20));
    let (_, broken) = edit_blocks(&mut w, &mut active, t, false, true, Some(Block::Stone), false);
    assert_eq!(broken, None);
    assert_eq!(w.get(20, G + 1, 20), Block::Stone);

    // Not where the player stands.
    let (dirty, _) = edit_blocks(&mut w, &mut active, (21, G + 1, 21), false, true, Some(Block::Stone), true);
    assert!(dirty.is_empty());
    assert_eq!(w.get(21, G + 1, 21), Block::Air);

    // An empty hand places nothing.
    let (dirty, _) = edit_blocks(&mut w, &mut active, (22, G + 1, 22), false, true, None, false);
    assert!(dirty.is_empty());
}

#[test]
fn plants_need_earth_and_are_replaceable() {
    let mut w = plain();
    let mut active: Vec<Cell> = Vec::new();
    // A flower on grass: fine, even where the player stands.
    let (dirty, _) = edit_blocks(&mut w, &mut active, (5, G + 1, 5), false, true, Some(Block::RedFlower), true);
    assert_eq!(dirty.len(), 5);
    assert_eq!(w.get(5, G + 1, 5), Block::RedFlower);
    // Not on stone.
    w.set(6, G, 6, Block::Stone);
    let (dirty, _) = edit_blocks(&mut w, &mut active, (6, G + 1, 6), false, true, Some(Block::TallGrass), false);
    assert!(dirty.is_empty());
    assert_eq!(w.get(6, G + 1, 6), Block::Air);
    // Aiming at a plant places into its cell.
    let t = edit_target(&w, (5, G + 1, 5), (5, G + 1, 6), false, true, Some(Block::Sand));
    assert_eq!(t, (5, G + 1, 5));
    // Breaking the ground under a plant takes the plant too.
    let (dirty, broken) = edit_blocks(&mut w, &mut active, (5, G, 5), true, false, None, false);
    assert_eq!(broken, Some(Block::Grass));
    assert_eq!(w.get(5, G + 1, 5), Block::Air);
    assert_eq!(dirty.len(), 10);
}

#[test]
fn pruning_only_removes_unsupported_plants() {
    let mut w = plain();
    w.set(3, G + 1, 3, Block::YellowFlower);
    assert!(!prune_plant_above(&mut w, (3, G, 3)), "grass still holds it");
    w.set(3, G, 3, Block::Stone);
    assert!(prune_plant_above(&mut w, (3, G, 3)));
    assert_eq!(w.get(3, G + 1, 3), Block::Air);
    assert!(!prune_plant_above(&mut w, (3, G, 3)));
}

#[test]
fn water_spreads_one_ring_per_step_and_sources_stay() {
    let mut w = plain();
    w.set(50, G + 1, 50, Block::Water);
    let mut active: Vec<Cell> = Vec::new();
    disturb(&mut active, (50, G + 1, 50));
    assert_eq!(active.len(), 7);
    let (next, dirty) = simulate_water(&mut w, active);
    assert_eq!(w.water_level(50, G + 1, 50), WATER_SOURCE);
    for (x, z) in [(51, 50), (49, 50), (50, 51), (50, 49)] {
        assert_eq!(w.get(x, G + 1, z), Block::Water);
        assert_eq!(w.water_level(x, G + 1, z), WATER_SOURCE - 1);
    }
    // The ground under it is untouched; the cell above has nothing to fall from.
    assert_eq!(w.get(50, G, 50), Block::Grass);
    assert_eq!(w.get(50, G + 2, 50), Block::Air);
    assert_eq!(next.len(), 4 * 6);
    assert_eq!(dirty.len(), 4 * 5);

    // The next ring is one lower again, and the diagonal fills from both sides.
    let (next, _) = simulate_water(&mut w, next);
    assert_eq!(w.water_level(52, G + 1, 50), WATER_SOURCE - 2);
    assert_eq!(w.water_level(51, G + 1, 51), WATER_SOURCE - 2);
    assert_eq!(w.water_level(51, G + 1, 50), WATER_SOURCE - 1);
    assert!(!next.is_empty());
}

#[test]
fn water_falls_at_full_strength_and_drains() {
    let mut w = plain();
    // A cell under water but not a source falls at four.
    w.set(60, G + 3, 60, Block::Water);
    let ups = water_updates(&w, &vec![(60, G + 2, 60), (60, G + 3, 60), (60, G, 60)]);
    assert_eq!(ups, vec![((60, G + 2, 60), WATER_SOURCE - 1)]);
    // Flowing water with nothing feeding it dries up.
    let mut w = plain();
    w.set_water_level(70, G + 1, 70, 3);
    let (_, dirty) = simulate_water(&mut w, vec![(70, G + 1, 70)]);
    assert_eq!(w.get(70, G + 1, 70), Block::Air);
    assert_eq!(w.water_level(70, G + 1, 70), 0);
    assert_eq!(dirty.len(), 5);
    // Nothing to visit, nothing to do.
    let (next, dirty) = simulate_water(&mut w, Vec::new());
    assert!(next.is_empty() && dirty.is_empty());
}

#[test]
fn the_view_cycles_through_three_perspectives() {
    let m = ViewMode::default();
    assert!(m.is_first_person());
    assert_eq!(m.next(), ViewMode::ThirdBack);
    assert_eq!(m.next().next(), ViewMode::ThirdFront);
    assert!(!m.next().is_first_person());
    assert_eq!(m.next().next().next(), m);
}

#[test]
fn walls_and_solid_blocks_stop_the_player() {
    let mut w = World::empty();
    w.fill_flat(FLAT_LEVEL);
    let (x, z) = (100, 100);
    // Standing room in the air above the plain.
    assert!(!cells_stop_player(&w, x, x, FLAT_LEVEL + 1, FLAT_LEVEL + 2, z, z));
    // Reaching down into the grass.
    assert!(cells_stop_player(&w, x, x, FLAT_LEVEL, FLAT_LEVEL + 1, z, z));
    // Past the invisible wall near the edge, even in open air.
    assert!(cells_stop_player(&w, PLAY_MARGIN - 1, PLAY_MARGIN, FLAT_LEVEL + 5, FLAT_LEVEL + 5, z, z));
    assert!(!cells_stop_player(&w, PLAY_MARGIN, PLAY_MARGIN, FLAT_LEVEL + 5, FLAT_LEVEL + 5, z, z));
    // A plant does not block.
    w.set(x, FLAT_LEVEL + 1, z, Block::TallGrass);
    assert!(!cells_stop_player(&w, x, x, FLAT_LEVEL + 1, FLAT_LEVEL + 2, z, z));
    // An empty range holds nothing.
    assert!(!cells_stop_player(&w, x, x - 1, 0, 10, z, z));
}

#[test]
fn texel_hash_is_in_thousandths_and_deterministic() {
    assert_eq!(texel_hash(3, 4), 374);
    assert_eq!(texel_hash(-7, 2), 419);
    for x in -20..20 {
        for y in -20..20 {
            assert!(texel_hash(x, y) < 1000);
        }
    }
    assert_eq!(atlas_cell(T_WATER), (1, 1));
    assert_eq!(atlas_cell(21), (1, 5));
}

#[test]
fn the_particle_generator_steps_by_xorshift() {
    let mut s = 1u32;
    assert_eq!(xorshift(&mut s), 270369);
    assert_eq!(s, 270369);
    // A zero state starts from the fixed seed rather than sticking at zero.
    let mut z = 0u32;
    assert_eq!(xorshift(&mut z), 1359758873);
    assert_eq!(xorshift(&mut z), 3761132862);
}

#[test]
fn flowing_water_washes_plants_away() {
    let mut w = World::empty();
    w.fill_flat(FLAT_LEVEL);
    let g = FLAT_LEVEL;
    // A flower with a source right above it is flooded at four.
    w.set(40, g + 1, 40, Block::RedFlower);
    w.set(40, g + 2, 40, Block::Water);
    let (next, _) = simulate_water(&mut w, vec![(40, g + 1, 40)]);
    assert_eq!(w.get(40, g + 1, 40), Block::Water);
    assert_eq!(w.water_level(40, g + 1, 40), WATER_SOURCE - 1);
    assert_eq!(next.len(), 6);
    // A tuft beside nothing but air keeps standing.
    w.set(50, g + 1, 50, Block::TallGrass);
    let (next, _) = simulate_water(&mut w, vec![(50, g + 1, 50)]);
    assert_eq!(w.get(50, g + 1, 50), Block::TallGrass);
    assert!(next.is_empty());
}
