//! Checks on the compact palace: the same legibility checks as the full map,
//! at its own sizes.

use voxelcraft::block::Block;
use voxelcraft::joseon::compact::{
    generate, COURT_OFFSET_Z, DONGGUNG_X, DONGGUNG_Z, GANGNYEONG_Z, GYOTAE_Z, HYANGWON_Z,
    JAGYEONG_X, JAGYEONG_Z, PALACE_SOUTH, PALACE_X, SAJEONG_Z, SUJEONG_X, SUJEONG_Z,
};
use voxelcraft::joseon::GROUND;
use voxelcraft::world::{World, WORLD_X, WORLD_Y, WORLD_Z};

fn count_in(w: &World, cx: i32, cz: i32, rx: i32, rz: i32, block: Block) -> u32 {
    let mut n = 0;
    for dz in -rz..=rz {
        for dx in -rx..=rx {
            for y in 0..WORLD_Y {
                if w.get(cx + dx, y, cz + dz) == block {
                    n += 1;
                }
            }
        }
    }
    n
}

/// 무량각 — the king's and queen's halls have no ridge, while 사정전 keeps one.
#[test]
fn joseon_sleeping_halls_have_no_ridge() {
    let w = generate(1);
    let (cx, cz) = (WORLD_X / 2, WORLD_Z / 2);
    let crown = |dz: i32| {
        let z = cz + dz;
        let y = (0..WORLD_Y)
            .rev()
            .find(|&y| w.get(cx, y, z) != Block::Air)
            .expect("nothing was built on the axis here");
        w.get(cx, y, z)
    };
    assert_eq!(crown(SAJEONG_Z), Block::RoofRidge, "사정전 lost its ridge");
    assert_eq!(crown(GANGNYEONG_Z), Block::RoofTile, "강녕전 should be 무량각");
    assert_eq!(crown(GYOTAE_Z), Block::RoofTile, "교태전 should be 무량각");
}

/// Every hall the palace is meant to contain has to actually be standing.
#[test]
fn joseon_every_hall_is_standing() {
    let w = generate(1);
    let (cx, cz) = (WORLD_X / 2, WORLD_Z / 2);
    for (name, x, z) in [
        ("사정전", cx, cz + SAJEONG_Z),
        ("강녕전", cx, cz + GANGNYEONG_Z),
        ("교태전", cx, cz + GYOTAE_Z),
        ("자경전", cx + JAGYEONG_X, cz + JAGYEONG_Z),
        ("수정전", cx + SUJEONG_X, cz + SUJEONG_Z),
        ("동궁", cx + DONGGUNG_X, cz + DONGGUNG_Z),
        ("향원정", cx, cz + HYANGWON_Z),
    ] {
        let columns = count_in(&w, x, z, 8, 8, Block::RedPillar);
        let painted = count_in(&w, x, z, 8, 8, Block::Dancheong);
        assert!(columns > 8, "{name} has no columns ({columns})");
        assert!(painted > 8, "{name} has no painted beam ({painted})");
    }
}

/// The throne, its 일월오봉도 screen and its 닫집 canopy are inside 근정전.
#[test]
fn joseon_the_throne_hall_has_a_throne() {
    let w = generate(1);
    let (cx, cz) = (WORLD_X / 2, WORLD_Z / 2);
    let hz = cz + COURT_OFFSET_Z - 2;
    let floor = GROUND + 3;
    assert_eq!(w.get(cx, floor + 2, hz - 3), Block::RedPillar, "the throne seat is missing");
    assert_eq!(w.get(cx, floor + 3, hz - 5), Block::Dancheong, "the 일월오봉도 screen is missing");
    assert_eq!(w.get(cx, floor + 6, hz - 2), Block::RoofRidge, "the 닫집 canopy is missing");
}

/// Columns, painted beams, ridges and granite all show in the precinct, and
/// the centre passage of 광화문 is open.
#[test]
fn joseon_palace_is_solid_and_enterable() {
    let w = generate(1337);
    let (cx, cz) = (WORLD_X / 2, WORLD_Z / 2);
    for dz in -3..=3 {
        for h in 1..=3 {
            let b = w.get(cx, GROUND + h, cz + PALACE_SOUTH + dz);
            assert_eq!(b, Block::Air, "gate passage blocked at dz={dz} h={h}: {b:?}");
        }
    }
    for b in [Block::Dancheong, Block::RedPillar, Block::RoofRidge, Block::Granite] {
        let n = count_in(&w, cx, cz, PALACE_X + 6, PALACE_SOUTH + 6, b);
        println!("palace {b:?} = {n}");
        assert!(n > 30, "{b:?} barely appears in the palace ({n})");
    }
}

/// Nothing is planted on this map.
#[test]
fn joseon_nothing_is_planted() {
    let w = generate(1337);
    let (mut leaves, mut plants) = (0u32, 0u32);
    for z in 0..WORLD_Z {
        for x in 0..WORLD_X {
            for y in 0..WORLD_Y {
                let b = w.get(x, y, z);
                if b == Block::Leaves {
                    leaves += 1;
                }
                if b.is_plant() {
                    plants += 1;
                }
            }
        }
    }
    assert_eq!(leaves, 0, "trees were planted on the Joseon map");
    assert_eq!(plants, 0, "grass or flowers were scattered on the Joseon map");
}
