//! The world grid, map generation and the save format.

use voxelcraft::block::{is_opaque, Block};
use voxelcraft::save::{load_world, push_run};
use voxelcraft::world::{
    pseudo_random, MapKind, World, FLAT_LEVEL, SEA_LEVEL, WATER_SOURCE, WORLD_COLUMNS, WORLD_X,
    WORLD_Y, WORLD_Z,
};

fn flat_expected(y: i32) -> Block {
    if y > FLAT_LEVEL {
        Block::Air
    } else if y == FLAT_LEVEL {
        Block::Grass
    } else if y >= FLAT_LEVEL - 3 {
        Block::Dirt
    } else {
        Block::Stone
    }
}

/// A save must come back exactly as it went in.
#[test]
fn a_save_round_trips_exactly() {
    let before = World::generate(MapKind::Joseon, 7, &Vec::new());
    let bytes = before.encode();
    let after = World::decode(&bytes).expect("load failed");
    for z in (0..WORLD_Z).step_by(3) {
        for x in (0..WORLD_X).step_by(3) {
            for y in 0..WORLD_Y {
                assert_eq!(before.get(x, y, z), after.get(x, y, z), "block changed at ({x},{y},{z})");
            }
        }
    }
}

/// Truncated or scrambled saves must be refused, not half-loaded.
#[test]
fn a_corrupt_save_is_refused() {
    let w = World::generate(MapKind::Flat, 1, &Vec::new());
    let good = w.encode();

    // Cut a run out of the middle: the block count no longer adds up.
    let mut short = good.clone();
    short.truncate(good.len() - 3);
    assert!(World::decode(&short).is_none(), "a short file loaded");

    // Claim runs that overrun the world several times over.
    let mut huge = good[..16].to_vec();
    for _ in 0..64 {
        huge.extend_from_slice(&u16::MAX.to_le_bytes());
        huge.push(0);
    }
    assert!(World::decode(&huge).is_none(), "an overlong file loaded");
}

/// The flat map is ground and nothing else, and it can be stood on.
#[test]
fn flat_map_is_empty() {
    let w = World::generate(MapKind::Flat, 1, &Vec::new());
    for z in (0..WORLD_Z).step_by(7) {
        for x in (0..WORLD_X).step_by(7) {
            for y in 0..WORLD_Y {
                let b = w.get(x, y, z);
                let expected = flat_expected(y);
                assert_eq!(b, expected, "unexpected {b:?} at ({x},{y},{z})");
            }
        }
    }
    // And you have to be able to stand on it.
    let (_, sy, _) = w.spawn_column().expect("no spawn on the plain");
    assert_eq!(sy as f32 + 1.9, FLAT_LEVEL as f32 + 1.9, "spawn is not on the plain");
}

#[test]
fn the_save_header_names_the_format_and_dimensions() {
    let w = World::generate(MapKind::Flat, 1, &Vec::new());
    let bytes = w.encode();
    assert_eq!(&bytes[0..4], b"VOX2");
    assert_eq!(i32::from_le_bytes(bytes[4..8].try_into().unwrap()), WORLD_X);
    assert_eq!(i32::from_le_bytes(bytes[8..12].try_into().unwrap()), WORLD_Y);
    assert_eq!(i32::from_le_bytes(bytes[12..16].try_into().unwrap()), WORLD_Z);
    assert_eq!((bytes.len() - 16) % 3, 0);
    // A flat world is a handful of long runs, not a dump of every cell.
    assert!(bytes.len() < 100_000, "save is {} bytes", bytes.len());
}

#[test]
fn a_save_with_a_wrong_magic_is_refused() {
    let w = World::generate(MapKind::Flat, 1, &Vec::new());
    let mut bytes = w.encode();
    bytes[0] = b'X';
    assert!(World::decode(&bytes).is_none());
    assert!(World::decode(&[]).is_none());
}

#[test]
fn saved_water_loads_as_a_source() {
    let mut w = World::empty();
    w.set(10, 10, 10, Block::Water);
    assert!(w.set_water_level(11, 10, 10, 2));
    let back = World::decode(&w.encode()).unwrap();
    assert_eq!(back.get(11, 10, 10), Block::Water);
    assert_eq!(back.water_level(11, 10, 10), WATER_SOURCE);
    assert_eq!(back.water_level(10, 10, 10), WATER_SOURCE);
}

#[test]
fn get_and_set_read_back_and_ignore_the_outside() {
    let mut w = World::empty();
    assert_eq!(w.get(5, 5, 5), Block::Air);
    assert!(w.set(5, 5, 5, Block::Stone));
    assert_eq!(w.get(5, 5, 5), Block::Stone);
    assert!(!w.set(5, 5, 5, Block::Stone), "writing the same block again changed nothing");
    assert!(!w.set(-1, 5, 5, Block::Stone));
    assert!(!w.set(5, WORLD_Y, 5, Block::Stone));
    assert_eq!(w.get(-1, 5, 5), Block::Air);
    assert_eq!(w.get(WORLD_X, 0, 0), Block::Air);
    assert!(w.set(6, 5, 5, Block::Water));
    assert_eq!(w.water_level(6, 5, 5), WATER_SOURCE);
    assert!(w.set(6, 5, 5, Block::Sand));
    assert_eq!(w.water_level(6, 5, 5), 0);
}

#[test]
fn water_level_only_floods_open_cells() {
    let mut w = World::empty();
    w.set(1, 1, 1, Block::Stone);
    assert!(!w.set_water_level(1, 1, 1, 3), "stone took water");
    assert_eq!(w.get(1, 1, 1), Block::Stone);
    w.set(2, 1, 1, Block::RedFlower);
    assert!(w.set_water_level(2, 1, 1, 3), "water did not wash the flower away");
    assert_eq!(w.get(2, 1, 1), Block::Water);
    assert_eq!(w.water_level(2, 1, 1), 3);
    assert!(w.set_water_level(2, 1, 1, 0));
    assert_eq!(w.get(2, 1, 1), Block::Air);
    assert!(!w.set_water_level(2, 1, 1, 0));
    assert!(!w.set_water_level(-3, 1, 1, 4));
}

#[test]
fn surface_is_the_highest_blocking_block() {
    let mut w = World::empty();
    assert_eq!(w.surface_y(3, 3), -1);
    w.set(3, 10, 3, Block::Stone);
    w.set(3, 12, 3, Block::Water);
    w.set(3, 11, 3, Block::TallGrass);
    assert_eq!(w.surface_y(3, 3), 10);
    w.fill_flat(FLAT_LEVEL);
    assert_eq!(w.surface_y(100, 100), FLAT_LEVEL);
}

#[test]
fn map_labels() {
    assert_eq!(MapKind::Meadow.label(), "초원");
    assert_eq!(MapKind::Joseon.label(), "조선");
    assert_eq!(MapKind::Flat.label(), "빈 터");
}

#[test]
fn pseudo_random_values() {
    assert_eq!(pseudo_random(0, 0, 0), 0);
    assert_eq!(pseudo_random(1, 2, 3), 2017);
    assert_eq!(pseudo_random(-5, 7, 42), 764);
    assert_eq!(pseudo_random(100, 200, 1337), 914);
}

#[test]
fn decorating_only_plants_on_grass_above_the_sea() {
    let mut w = World::generate(MapKind::Flat, 1, &Vec::new());
    assert!(!w.has_plants());
    w.decorate(1337);
    assert!(w.has_plants(), "the plain above the sea got no plants");
    let mut plants = 0;
    for z in 0..WORLD_Z {
        for x in 0..WORLD_X {
            for y in 0..WORLD_Y {
                let b = w.get(x, y, z);
                if b != flat_expected(y) {
                    assert!(b.is_plant(), "decorate wrote {b:?}");
                    assert_eq!(y, FLAT_LEVEL + 1);
                    plants += 1;
                }
            }
        }
    }
    // About 28 columns in a hundred get a plant.
    let share = plants as f64 / (WORLD_X * WORLD_Z) as f64;
    assert!(share > 0.2 && share < 0.36, "plant share {share}");

    // Below the waterline nothing grows.
    let mut low = World::empty();
    low.fill_flat(SEA_LEVEL);
    low.decorate(1337);
    assert!(!low.has_plants());
}

#[test]
fn loading_a_save_without_plants_scatters_them_once() {
    let flat = World::generate(MapKind::Flat, 1, &Vec::new());
    let bytes = flat.encode();
    let mut world = World::empty();
    assert!(load_world(&mut world, &bytes));
    assert!(world.has_plants());
    assert_eq!(world.get(0, FLAT_LEVEL, 0), Block::Grass);

    // A world that already has plants comes back exactly as saved.
    let mut planted = World::generate(MapKind::Flat, 1, &Vec::new());
    planted.set(5, FLAT_LEVEL + 1, 5, Block::RedFlower);
    let mut again = World::empty();
    assert!(load_world(&mut again, &planted.encode()));
    assert_eq!(again.get(5, FLAT_LEVEL + 1, 5), Block::RedFlower);
    assert_eq!(again.get(6, FLAT_LEVEL + 1, 6), Block::Air);

    // Garbage leaves the world untouched.
    let mut kept = World::empty();
    kept.set(1, 1, 1, Block::Stone);
    assert!(!load_world(&mut kept, &[1, 2, 3]));
    assert_eq!(kept.get(1, 1, 1), Block::Stone);
}

#[test]
fn the_meadow_follows_its_height_field() {
    // A gentle slope: columns rise from below the sea to well above it.
    let mut heights = vec![0i32; WORLD_COLUMNS];
    for z in 0..WORLD_Z {
        for x in 0..WORLD_X {
            heights[(z * WORLD_X + x) as usize] = 10 + x / 16;
        }
    }
    let w = World::generate(MapKind::Meadow, 3, &heights);
    // Under the sea: sand floor with water up to sea level.
    assert_eq!(w.get(0, 10, 0), Block::Sand);
    assert_eq!(w.get(0, SEA_LEVEL, 0), Block::Water);
    assert_eq!(w.get(0, SEA_LEVEL + 1, 0), Block::Air);
    // High ground: grass over dirt over stone.
    let x = 700;
    let h = 10 + x / 16;
    let top = w.get(x, h, 400);
    assert!(top == Block::Grass || top == Block::Wood, "top is {top:?}");
    assert_eq!(w.get(x, h - 2, 401), Block::Dirt);
    assert_eq!(w.get(x, 0, 400), Block::Stone);
}

#[test]
fn block_ids_round_trip() {
    for id in 0u8..=21 {
        assert_eq!(Block::from_id(id).to_id(), id);
    }
    assert_eq!(Block::from_id(200), Block::Air);
    assert_eq!(Block::Signpost.to_id(), 21);
}

#[test]
fn opacity_and_movement() {
    assert!(is_opaque(Block::Stone));
    assert!(!is_opaque(Block::Water));
    assert!(!is_opaque(Block::Air));
    assert!(Block::Water.is_solid());
    assert!(!Block::Water.blocks_movement());
    assert!(!Block::RedFlower.blocks_movement());
    assert!(Block::Sand.supports_plants());
    assert!(!Block::Stone.supports_plants());
}

/// The plant the two rolls of a column choose, as the meadow documents them.
fn rolled_plant(x: i32, z: i32, seed: u32) -> Block {
    let r = pseudo_random(x, z, seed.wrapping_add(101));
    if r < 300 {
        if pseudo_random(x, z, seed.wrapping_add(202)) < 5000 {
            Block::RedFlower
        } else {
            Block::YellowFlower
        }
    } else if r < 2800 {
        Block::TallGrass
    } else {
        Block::Air
    }
}

#[test]
fn meadow_trees_and_plants_follow_the_rolls() {
    let seed = 7u32;
    let h = 40;
    let heights = vec![h; WORLD_COLUMNS];
    let w = World::generate_meadow(seed, &heights);
    let tree = |x: i32, z: i32| pseudo_random(x, z, seed) < 200;
    let near = |x: i32, z: i32, r: i32| {
        let mut found = false;
        for dz in -r..=r {
            for dx in -r..=r {
                if tree(x + dx, z + dz) {
                    found = true;
                }
            }
        }
        found
    };
    // A lone tree: four blocks of trunk, a crown round the top, nothing past it.
    let mut lone = None;
    'search: for z in 10..WORLD_Z - 10 {
        for x in 10..WORLD_X - 10 {
            if tree(x, z) {
                let mut others = false;
                for dz in -4..=4 {
                    for dx in -4..=4 {
                        if (dx != 0 || dz != 0) && tree(x + dx, z + dz) {
                            others = true;
                        }
                    }
                }
                if !others {
                    lone = Some((x, z));
                    break 'search;
                }
            }
        }
    }
    let (x, z) = lone.expect("a lone tree");
    for y in h + 1..=h + 4 {
        assert_eq!(w.get(x, y, z), Block::Wood);
    }
    assert_eq!(w.get(x, h, z), Block::Grass);
    assert_eq!(w.get(x, h + 5, z), Block::Leaves);
    assert_eq!(w.get(x, h + 6, z), Block::Leaves);
    assert_eq!(w.get(x + 2, h + 5, z), Block::Leaves);
    assert_eq!(w.get(x + 2, h + 5, z + 2), Block::Air);
    assert_eq!(w.get(x, h + 7, z), Block::Air);
    // Under a crown nothing grows; under open sky the rolls decide.
    assert_eq!(w.get(x + 1, h + 1, z), Block::Air);
    let mut checked = 0;
    for z in 10..60 {
        for x in 10..60 {
            if !near(x, z, 2) {
                assert_eq!(w.get(x, h + 1, z), rolled_plant(x, z, seed), "column ({x}, {z})");
                checked += 1;
            }
        }
    }
    assert!(checked > 1000);
}

#[test]
fn a_long_run_splits_into_full_pairs() {
    let mut buf = vec![0u8; 16];
    push_run(&mut buf, 4, 70000);
    assert_eq!(&buf[16..], &[255, 255, 4, 113, 17, 4]);
    push_run(&mut buf, 9, 0);
    assert_eq!(buf.len(), 22);
    push_run(&mut buf, 9, 65535);
    assert_eq!(&buf[22..], &[255, 255, 9]);
}

#[test]
fn a_flat_save_is_one_run_per_kind_of_layer() {
    let w = World::generate(MapKind::Flat, 1, &Vec::new());
    let bytes = w.encode();
    let layer = (WORLD_X * WORLD_Z) as u32;
    let runs = [
        (Block::Stone.to_id(), (FLAT_LEVEL - 3) as u32 * layer),
        (Block::Dirt.to_id(), 3 * layer),
        (Block::Grass.to_id(), layer),
        (Block::Air.to_id(), (WORLD_Y - FLAT_LEVEL - 1) as u32 * layer),
    ];
    let mut expected = bytes[0..16].to_vec();
    for (id, count) in runs {
        let mut left = count;
        while left > 0 {
            let n = left.min(65535);
            expected.extend_from_slice(&[(n % 256) as u8, (n / 256) as u8, id]);
            left -= n;
        }
    }
    assert_eq!(bytes, expected);
}

#[test]
fn decorating_twice_with_one_seed_is_decorating_once() {
    let mut w = World::generate(MapKind::Flat, 1, &Vec::new());
    w.decorate(9);
    let once = w.encode();
    assert!(w.has_plants());
    w.decorate(9);
    assert_eq!(w.encode(), once);
}
