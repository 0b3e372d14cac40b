//! Checks on the Joseon map: that the palace is standing, legible, enterable
//! and fits in the world.

use std::collections::{HashSet, VecDeque};

use voxelcraft::block::Block;
use voxelcraft::joseon::hall::place_residence;
use voxelcraft::joseon::path::{lay_paths, BYPASS_X};
use voxelcraft::joseon::water::lay_hex_roof;
use voxelcraft::joseon::sign::{show_sign_name, sign_name, signposts};
use voxelcraft::joseon::style::{s, BRACKET_TIERS, EAVES};
use voxelcraft::joseon::{
    generate, BIHYEON_Z, COURT_OFFSET_Z, DONGGUNG_RZ, DONGGUNG_X, DONGGUNG_Z, GANGNYEONG_Z,
    GEONCHEONG_RX, GEONCHEONG_X, GEONCHEONG_Z, GEONCHUN_Z, GONNYEONG_Z, GROUND, GYEONGHOE_X,
    GYEONGHOE_Z, GYOTAE_Z, HYANGWON_Z, JAGYEONG_X, JAGYEONG_Z, JANGAN_Z, JASEON_Z, PALACE_NORTH,
    PALACE_SOUTH, PALACE_X, SAJEONG_Z, SOJU_X, SOJU_Z, SUJEONG_X, SUJEONG_Z, TAEWON_HALL_Z,
    TAEWON_RZ, TAEWON_X, TAEWON_Z, YEONGCHU_Z, COURT_Z,
};
use voxelcraft::world::{MapKind, World, PLAY_MARGIN, WATER_SOURCE, WORLD_X, WORLD_Y, WORLD_Z};

fn count_in(w: &World, cx: i32, cz: i32, rx: i32, rz: i32, block: Block) -> u32 {
    let mut n = 0;
    for dz in -rz..=rz {
        for dx in -rx..=rx {
            for y in 0..WORLD_Y {
                if w.get(cx + dx, y, cz + dz) == block {
                    n += 1;
                }
            }
        }
    }
    n
}

/// 무량각 — the king's and queen's halls have no ridge, while 사정전 keeps one.
#[test]
fn checks_sleeping_halls_have_no_ridge() {
    let w = generate(1);
    let (cx, cz) = (WORLD_X / 2, WORLD_Z / 2);
    let crown = |dz: i32| {
        let z = cz + dz;
        let y = (0..WORLD_Y)
            .rev()
            .find(|&y| w.get(cx, y, z) != Block::Air)
            .expect("nothing was built on the axis here");
        w.get(cx, y, z)
    };
    assert_eq!(crown(SAJEONG_Z), Block::RoofRidge, "사정전 lost its ridge");
    assert_eq!(crown(GANGNYEONG_Z), Block::RoofTile, "강녕전 should be 무량각");
    assert_eq!(crown(GYOTAE_Z), Block::RoofTile, "교태전 should be 무량각");
}

/// Every hall the palace is meant to contain has to actually be standing.
#[test]
fn checks_every_hall_is_standing() {
    let w = generate(1);
    let (cx, cz) = (WORLD_X / 2, WORLD_Z / 2);
    for (name, x, z) in [
        ("사정전", cx, cz + SAJEONG_Z),
        ("강녕전", cx, cz + GANGNYEONG_Z),
        ("교태전", cx, cz + GYOTAE_Z),
        ("자경전", cx + JAGYEONG_X, cz + JAGYEONG_Z),
        ("수정전", cx + SUJEONG_X, cz + SUJEONG_Z),
        ("자선당", cx + DONGGUNG_X, cz + DONGGUNG_Z + JASEON_Z),
        ("비현각", cx + DONGGUNG_X, cz + DONGGUNG_Z + BIHYEON_Z),
        ("장안당", cx + GEONCHEONG_X, cz + GEONCHEONG_Z + JANGAN_Z),
        ("곤녕합", cx + GEONCHEONG_X, cz + GEONCHEONG_Z + GONNYEONG_Z),
        ("태원전", cx + TAEWON_X, cz + TAEWON_Z + TAEWON_HALL_Z),
        ("향원정", cx, cz + HYANGWON_Z),
    ] {
        let columns = count_in(&w, x, z, 8, 8, Block::RedPillar);
        let painted = count_in(&w, x, z, 8, 8, Block::Dancheong);
        assert!(columns > 8, "{name} has no columns ({columns})");
        assert!(painted > 8, "{name} has no painted beam ({painted})");
    }
}

/// The throne, its 일월오봉도 screen and its 닫집 canopy are inside 근정전.
#[test]
fn checks_the_throne_hall_has_a_throne() {
    let w = generate(1);
    let (cx, cz) = (WORLD_X / 2, WORLD_Z / 2);
    let hz = cz + COURT_OFFSET_Z - s(2);
    let tz = hz - s(2);
    let floor = GROUND + 3;
    assert_eq!(w.get(cx, floor + 2, tz - s(1)), Block::RedPillar, "the throne seat is missing");
    assert_eq!(
        w.get(cx, floor + 3, tz - s(3)),
        Block::Dancheong,
        "the 일월오봉도 screen is missing"
    );
    assert_eq!(w.get(cx, floor + s(4) + 2, tz), Block::RoofRidge, "the 닫집 canopy is missing");
}

/// The palace has its paint, columns, ridges and stone, and 광화문 is open.
#[test]
fn checks_palace_is_solid_and_enterable() {
    let w = generate(1337);
    let (cx, cz) = (WORLD_X / 2, WORLD_Z / 2);
    for dz in -3..=3 {
        for h in 1..=3 {
            let b = w.get(cx, GROUND + h, cz + PALACE_SOUTH + dz);
            assert_eq!(b, Block::Air, "gate passage blocked at dz={dz} h={h}: {b:?}");
        }
    }
    for b in [Block::Dancheong, Block::RedPillar, Block::RoofRidge, Block::Granite] {
        let n = count_in(&w, cx, cz, PALACE_X + 6, PALACE_SOUTH + 6, b);
        println!("palace {b:?} = {n}");
        assert!(n > 30, "{b:?} barely appears in the palace ({n})");
    }
}

/// Nothing is planted on this map.
#[test]
fn checks_nothing_is_planted() {
    let w = generate(1337);
    let (mut leaves, mut plants) = (0u32, 0u32);
    for z in 0..WORLD_Z {
        for x in 0..WORLD_X {
            for y in 0..WORLD_Y {
                let b = w.get(x, y, z);
                if b == Block::Leaves {
                    leaves += 1;
                }
                if b.is_plant() {
                    plants += 1;
                }
            }
        }
    }
    assert_eq!(leaves, 0, "trees were planted on the Joseon map");
    assert_eq!(plants, 0, "grass or flowers were scattered on the Joseon map");
}

/// 공포 bridges the wall and the eave, stepping out as it rises.
#[test]
fn the_eaves_are_carried_on_brackets() {
    let w = generate(1);
    let (cx, cz) = (WORLD_X / 2, WORLD_Z / 2);
    let hz = cz + COURT_OFFSET_Z - s(2);
    let bx = s(9);
    let beam = GROUND + 3 + s(4);
    for tier in 0..BRACKET_TIERS {
        let y = beam + 1 + tier;
        let out = bx + tier + 1;
        assert!(out < bx + EAVES, "tier {tier} reaches the eave line; nothing is left to cantilever");
        let b = w.get(cx + out, y, hz);
        assert!(
            matches!(b, Block::Dancheong | Block::Wood),
            "no 공포 {out} out at tier {tier}, found {b:?} — the eave has nothing under it"
        );
        assert_eq!(w.get(cx + out + 1, y, hz), Block::Air, "tier {tier} is a solid collar rather than a step");
    }
}

/// You can walk from 광화문 to every hall on a path.
#[test]
fn every_hall_is_on_the_path_network() {
    let w = generate(1);
    let (cx, cz) = (WORLD_X / 2, WORLD_Z / 2);
    let surface = |x: i32, z: i32| {
        [GROUND + 1, GROUND].into_iter().find_map(|y| {
            let b = w.get(x, y, z);
            if b.blocks_movement()
                && !w.get(x, y + 1, z).blocks_movement()
                && !w.get(x, y + 2, z).blocks_movement()
            {
                Some((y, b))
            } else {
                None
            }
        })
    };
    let open = |x: i32, z: i32| {
        surface(x, z).is_some_and(|(_, b)| {
            matches!(b, Block::Granite | Block::Road | Block::Stone | Block::Wood)
        })
    };
    let start = (cx, cz + PALACE_SOUTH);
    assert!(open(start.0, start.1), "광화문 itself is not walkable paving");
    let mut seen = HashSet::new();
    let mut queue = VecDeque::new();
    seen.insert(start);
    queue.push_back(start);
    while let Some((x, z)) = queue.pop_front() {
        for (dx, dz) in [(1, 0), (-1, 0), (0, 1), (0, -1)] {
            let n = (x + dx, z + dz);
            if open(n.0, n.1) && seen.insert(n) {
                queue.push_back(n);
            }
        }
    }
    for (name, x, z) in [
        ("근정전", cx, cz + COURT_OFFSET_Z - s(2) + s(12) + 2),
        ("사정전", cx, cz + SAJEONG_Z + s(4) + 2),
        ("강녕전", cx, cz + GANGNYEONG_Z + s(4) + 2),
        ("교태전", cx, cz + GYOTAE_Z + s(4) + 2),
        ("향원정", cx, cz + HYANGWON_Z + s(9)),
        ("건청궁", cx + GEONCHEONG_X - GEONCHEONG_RX, cz + GEONCHEONG_Z),
        ("태원전", cx + TAEWON_X, cz + TAEWON_Z + TAEWON_RZ),
        ("자경전", cx + JAGYEONG_X, cz + JAGYEONG_Z + s(11)),
        ("동궁", cx + DONGGUNG_X, cz + DONGGUNG_Z + DONGGUNG_RZ),
        ("수정전", cx + SUJEONG_X, cz + SUJEONG_Z + s(8)),
        ("경회루", cx + GYEONGHOE_X + s(7), cz + GYEONGHOE_Z),
    ] {
        assert!(seen.contains(&(x, z)), "{name} is not joined to the path network at ({x},{z})");
    }
}

/// There is a way through the residential quarter that never sets foot on a
/// hall's platform.
#[test]
fn the_halls_can_be_passed_without_crossing_their_terraces() {
    let w = generate(1);
    let (cx, cz) = (WORLD_X / 2, WORLD_Z / 2);
    let on_terrace = |x: i32, z: i32| {
        [(SAJEONG_Z, s(7)), (GANGNYEONG_Z, s(8)), (GYOTAE_Z, s(7))]
            .iter()
            .any(|&(hz, bx)| (x - cx).abs() <= bx + s(2) && (z - (cz + hz)).abs() <= s(4) + s(2))
    };
    let open = |x: i32, z: i32| {
        !on_terrace(x, z)
            && [GROUND + 1, GROUND].into_iter().any(|y| {
                matches!(w.get(x, y, z), Block::Granite | Block::Road | Block::Stone)
                    && !w.get(x, y + 1, z).blocks_movement()
                    && !w.get(x, y + 2, z).blocks_movement()
            })
    };
    let start = (cx, cz + COURT_OFFSET_Z - COURT_Z - s(3));
    let goal = (cx, cz + GYOTAE_Z + s(4) + s(2) + 1);
    assert!(open(start.0, start.1), "the flank junction is not paved");
    let mut seen = HashSet::new();
    let mut queue = VecDeque::new();
    seen.insert(start);
    queue.push_back(start);
    while let Some((x, z)) = queue.pop_front() {
        for (dx, dz) in [(1, 0), (-1, 0), (0, 1), (0, -1)] {
            let n = (x + dx, z + dz);
            if open(n.0, n.1) && seen.insert(n) {
                queue.push_back(n);
            }
        }
    }
    assert!(seen.contains(&goal), "no way past the halls except over their terraces");
}

/// All four gates are ways through the wall.
#[test]
fn every_gate_opens_through_the_wall() {
    let w = generate(1);
    let (cx, cz) = (WORLD_X / 2, WORLD_Z / 2);
    for (name, gx, gz, along_x) in [
        ("광화문", cx, cz + PALACE_SOUTH, true),
        ("영추문", cx - PALACE_X, cz + YEONGCHU_Z, false),
        ("건춘문", cx + PALACE_X, cz + GEONCHUN_Z, false),
        ("신무문", cx, cz - PALACE_NORTH, true),
    ] {
        let standable = |x: i32, z: i32| {
            [GROUND + 1, GROUND].into_iter().any(|y| {
                w.get(x, y, z).blocks_movement()
                    && !w.get(x, y + 1, z).blocks_movement()
                    && !w.get(x, y + 2, z).blocks_movement()
            })
        };
        for d in -s(4)..=s(4) {
            let (x, z) = if along_x { (gx, gz + d) } else { (gx + d, gz) };
            assert!(standable(x, z), "{name}: no way through {d} from the centre of the passage");
        }
    }
}

/// With the four gates sealed, the wall holds all the way round.
#[test]
fn the_wall_holds_between_its_gates() {
    let w = generate(1);
    let (cx, cz) = (WORLD_X / 2, WORLD_Z / 2);
    let gates = [
        (cx, cz + PALACE_SOUTH),
        (cx - PALACE_X, cz + YEONGCHU_Z),
        (cx + PALACE_X, cz + GEONCHUN_Z),
        (cx, cz - PALACE_NORTH),
    ];
    let sealed = |x: i32, z: i32| {
        gates.iter().any(|&(gx, gz)| (x - gx).abs() <= s(9) && (z - gz).abs() <= s(9))
    };
    let standable = |x: i32, z: i32| {
        [GROUND + 1, GROUND].into_iter().any(|y| {
            w.get(x, y, z).blocks_movement()
                && !w.get(x, y + 1, z).blocks_movement()
                && !w.get(x, y + 2, z).blocks_movement()
        })
    };
    let start = (cx + PALACE_X + s(8), cz + PALACE_SOUTH + s(8));
    let mut seen = HashSet::new();
    let mut queue = VecDeque::new();
    seen.insert(start);
    queue.push_back(start);
    while let Some((x, z)) = queue.pop_front() {
        for (dx, dz) in [(1, 0), (-1, 0), (0, 1), (0, -1)] {
            let n = (x + dx, z + dz);
            if (n.0 - cx).abs() > PALACE_X + s(14)
                || n.1 < cz - PALACE_NORTH - s(14)
                || n.1 > cz + PALACE_SOUTH + s(14)
            {
                continue;
            }
            if !sealed(n.0, n.1) && standable(n.0, n.1) && seen.insert(n) {
                queue.push_back(n);
            }
        }
    }
    for (name, x, z) in [
        ("the outer court", cx, cz + PALACE_SOUTH - s(10)),
        ("the west flank", cx - BYPASS_X, cz + COURT_OFFSET_Z),
        ("the rear garden", cx, cz + HYANGWON_Z + s(9)),
    ] {
        assert!(
            !seen.contains(&(x, z)),
            "got into {name} at ({x},{z}) without using a gate — the wall is breached"
        );
    }
}

/// 소주방 is built as service ranges, not as another hall.
#[test]
fn the_kitchens_are_ranges_not_halls() {
    let w = generate(1);
    let (cx, cz) = (WORLD_X / 2, WORLD_Z / 2);
    let (ox, oz) = (cx + SOJU_X, cz + SOJU_Z);
    let mut plaster = 0;
    let mut timber = 0;
    let mut painted = 0;
    for dz in -s(6)..=s(6) {
        for dx in -s(4)..=s(4) {
            for y in GROUND..GROUND + 12 {
                match w.get(ox + dx, y, oz + dz) {
                    Block::Plaster => plaster += 1,
                    Block::Wood => timber += 1,
                    Block::Dancheong => painted += 1,
                    _ => {}
                }
            }
        }
    }
    assert!(plaster > 30, "the ranges have no walls ({plaster})");
    assert!(timber > 20, "the ranges have no timber beam ({timber})");
    assert_eq!(painted, 0, "a service range picked up a 단청 beam");
}

/// Nothing touches the ceiling or the edge of the playable area.
#[test]
fn the_palace_fits_in_the_world() {
    let w = generate(1337);
    let (cx, cz) = (WORLD_X / 2, WORLD_Z / 2);
    let mut highest = 0;
    for z in 0..WORLD_Z {
        for x in 0..WORLD_X {
            for y in (0..WORLD_Y).rev() {
                if w.get(x, y, z) != Block::Air {
                    highest = highest.max(y);
                    break;
                }
            }
        }
    }
    assert!(
        highest < WORLD_Y - 1,
        "something reaches the world ceiling at y={highest}; a roof is being clipped"
    );
    for (name, v, limit) in [
        ("west", cx - PALACE_X, PLAY_MARGIN),
        ("east", WORLD_X - (cx + PALACE_X), PLAY_MARGIN),
        ("north", cz - PALACE_NORTH, PLAY_MARGIN),
        ("south", WORLD_Z - (cz + PALACE_SOUTH), PLAY_MARGIN),
    ] {
        assert!(v > limit, "the {name} wall is {v} from the map edge, inside the {limit}-block margin");
    }
}

/// Every board is named where it stands, and the label shows the name only
/// when the aim rests on a board.
#[test]
fn the_boards_name_what_they_stand_before() {
    let w = generate(1);
    let posts = signposts();
    assert!(!posts.is_empty());
    for (pos, name) in &posts {
        assert_eq!(w.get(pos.0, pos.1, pos.2), Block::Signpost, "{name} has no board");
        assert_eq!(sign_name(*pos), Some(*name));
        assert_eq!(show_sign_name(&w, Some(*pos), false), *name);
        assert_eq!(show_sign_name(&w, Some(*pos), true), "");
    }
    assert_eq!(posts[0].1, "광화문");
    assert_eq!(sign_name((0, 0, 0)), None);
    assert_eq!(show_sign_name(&w, Some((0, GROUND, 0)), false), "");
    assert_eq!(show_sign_name(&w, None, false), "");
}

#[test]
fn the_gate_passages_are_arched() {
    let w = generate(1337);
    let (cx, gz) = (WORLD_X / 2, WORLD_Z / 2 + PALACE_SOUTH);
    for (c, top) in [(-10, 6), (0, 8), (10, 6)] {
        for dz in -6..=6 {
            // Open the whole width below the head.
            for dx in -2..=2 {
                for h in 1..top {
                    assert_eq!(w.get(cx + c + dx, GROUND + h, gz + dz), Block::Air);
                }
            }
            // At the head the middle three stay open and the outermost cells
            // round it off.
            for dx in -1..=1 {
                assert_eq!(w.get(cx + c + dx, GROUND + top, gz + dz), Block::Air);
            }
            assert_eq!(w.get(cx + c - 2, GROUND + top, gz + dz), Block::Granite);
            assert_eq!(w.get(cx + c + 2, GROUND + top, gz + dz), Block::Granite);
            assert_eq!(w.get(cx + c + 3, GROUND + 1, gz + dz), Block::Granite);
        }
    }
}

#[test]
fn the_joseon_map_is_the_palace_for_every_seed() {
    let a = World::generate(MapKind::Joseon, 1, &Vec::new());
    let b = World::generate(MapKind::Joseon, 99, &Vec::new());
    let c = generate(5);
    assert_eq!(a.encode(), b.encode());
    assert_eq!(a.encode(), c.encode());
    let (cx, cz) = (WORLD_X / 2, WORLD_Z / 2);
    for z in cz - PALACE_NORTH..=cz + PALACE_SOUTH {
        for x in cx - PALACE_X..=cx + PALACE_X {
            for y in GROUND - 3..GROUND + 4 {
                let lvl = a.water_level(x, y, z);
                let expect = if a.get(x, y, z) == Block::Water { WATER_SOURCE } else { 0 };
                assert_eq!(lvl, expect);
                assert_eq!(lvl, c.water_level(x, y, z));
            }
        }
    }
}

#[test]
fn builders_take_wide_sizes_and_far_coordinates() {
    // A roof wider than a hundred still crowns with its finial.
    let mut w = World::empty();
    lay_hex_roof(&mut w, 384, 384, 101, 10);
    assert_eq!(w.get(384, 10 + 102, 384), Block::RoofRidge);
    // A hall wider than a hundred stands, with its doorway open.
    let mut w = World::empty();
    place_residence(&mut w, 384, 384, 10, 120, 20, true);
    assert_eq!(w.get(384, 10 + 2, 384 + 20), Block::Air);
    assert_eq!(w.get(384 - 120, 10 + 1, 384), Block::Granite);
    // Paths laid far off the map change nothing in the grid.
    let mut w = World::empty();
    let before = w.encode();
    lay_paths(&mut w, 2_000_000_000, -2_000_000_000, 10);
    assert_eq!(w.encode(), before);
}
