//! Meshing: the greedy opaque mesh, the water faces and the atlas tiles.

use voxelcraft::block::Block;
use voxelcraft::mesh::{build_chunk_meshes, corner_ao, merge_mask, Quad};
use voxelcraft::texture::{block_tile, T_DIRT, T_GRASS_SIDE, T_GRASS_TOP, T_STONE, T_WATER, T_WOOD_SIDE, T_WOOD_TOP};
use voxelcraft::world::{World, FLAT_LEVEL};

fn plain() -> World {
    let mut w = World::empty();
    w.fill_flat(FLAT_LEVEL);
    w
}

fn area(q: &Quad) -> i64 {
    (q.u1 - q.u0) as i64 * (q.v1 - q.v0) as i64
}

#[test]
fn tiles_per_face() {
    assert_eq!(block_tile(Block::Grass, 3), T_GRASS_TOP);
    assert_eq!(block_tile(Block::Grass, 2), T_DIRT);
    assert_eq!(block_tile(Block::Grass, 0), T_GRASS_SIDE);
    assert_eq!(block_tile(Block::Wood, 2), T_WOOD_TOP);
    assert_eq!(block_tile(Block::Wood, 5), T_WOOD_SIDE);
    assert_eq!(block_tile(Block::Water, 1), T_WATER);
    assert_eq!(block_tile(Block::Stone, 4), T_STONE);
}

#[test]
fn a_flat_chunk_is_a_handful_of_quads() {
    let w = plain();
    // Inside the map only the top and the bottom of the slab show.
    let m = build_chunk_meshes(&w, 5, 5);
    assert_eq!(m.opaque.len(), 2);
    let top = m.opaque.iter().find(|q| q.face == 3).unwrap();
    assert_eq!((top.u0, top.u1, top.v0, top.v1), (80, 96, 80, 96));
    assert_eq!(top.plane, FLAT_LEVEL + 1);
    assert_eq!(top.tile, T_GRASS_TOP);
    assert_eq!(top.ao, (3, 3, 3, 3));
    assert!(m.water.is_empty());
    // At the corner of the map the two outer walls show too, in three bands
    // each: stone, dirt, and the grass edge.
    let m = build_chunk_meshes(&w, 0, 0);
    assert_eq!(m.opaque.len(), 8);
    let west: Vec<&Quad> = m.opaque.iter().filter(|q| q.face == 0).collect();
    assert_eq!(west.len(), 3);
    assert_eq!(west.iter().map(|q| area(q)).sum::<i64>(), 16 * (FLAT_LEVEL as i64 + 1));
}

#[test]
fn shading_round_a_block_splits_the_merge_but_covers_every_face_once() {
    let mut w = plain();
    w.set(5, FLAT_LEVEL + 1, 5, Block::Stone);
    let m = build_chunk_meshes(&w, 0, 0);
    let tops: Vec<&Quad> = m.opaque.iter().filter(|q| q.face == 3).collect();
    // 255 grass tops and the stone's own top.
    assert_eq!(tops.iter().map(|q| area(q)).sum::<i64>(), 256);
    // The grass next to the stone is darkened on the corners that touch it.
    let beside = tops
        .iter()
        .find(|q| q.u0 == 6 && q.v0 == 5 && q.u1 == 7 && q.v1 == 6)
        .expect("the face beside the block is drawn on its own");
    assert_eq!(beside.ao, (2, 3, 3, 2));
    assert_eq!(corner_ao(&w, 3, FLAT_LEVEL, 6, 5), (2, 3, 3, 2));
    // No two quads of the same face and layer overlap.
    for (i, a) in m.opaque.iter().enumerate() {
        for b in &m.opaque[i + 1..] {
            if a.face == b.face && a.plane == b.plane {
                let overlap = a.u0 < b.u1 && b.u0 < a.u1 && a.v0 < b.v1 && b.v0 < a.v1;
                assert!(!overlap, "{a:?} overlaps {b:?}");
            }
        }
    }
}

#[test]
fn merging_a_mask_leaves_it_empty() {
    // Two rows: a 3-wide run over a 2-wide run of the same face, then a
    // different face.
    let mut mask: Vec<Option<(u32, u8)>> = vec![None; 32];
    for a in 0..3 {
        mask[a] = Some((1, 3));
    }
    for a in 0..2 {
        mask[16 + a] = Some((1, 3));
    }
    mask[20] = Some((2, 1));
    let mut quads = Vec::new();
    merge_mask(&mut quads, &mut mask, 2, 3, 10, 100, 200);
    assert!(mask.iter().all(|m| m.is_none()));
    let spans: Vec<(i32, i32, i32, i32, u32)> = quads.iter().map(|q| (q.u0, q.u1, q.v0, q.v1, q.tile)).collect();
    assert_eq!(spans, vec![(100, 103, 200, 201, 1), (100, 102, 201, 202, 1), (104, 105, 201, 202, 2)]);
    assert_eq!(quads[2].ao, (1, 1, 1, 1));
}

#[test]
fn water_shows_only_against_air() {
    let mut w = plain();
    // A pool sunk into the plain: only its top faces the air.
    w.set(3, FLAT_LEVEL, 3, Block::Water);
    w.set(4, FLAT_LEVEL, 3, Block::Water);
    // And a lone block of water hanging in the air shows every side.
    w.set(10, FLAT_LEVEL + 5, 10, Block::Water);
    let m = build_chunk_meshes(&w, 0, 0);
    let pool: Vec<_> = m.water.iter().filter(|f| f.y == FLAT_LEVEL).collect();
    assert_eq!(pool.len(), 2);
    assert!(pool.iter().all(|f| f.face == 3 && f.open));
    let lone: Vec<_> = m.water.iter().filter(|f| f.y == FLAT_LEVEL + 5).collect();
    assert_eq!(lone.len(), 6);
}

#[test]
fn the_merge_grows_wide_then_tall_from_the_first_face_left() {
    let a = Some((5u32, 2u8));
    let b = Some((6u32, 2u8));
    let mut mask: Vec<Option<(u32, u8)>> = vec![None; 32];
    for i in 0..3 {
        mask[i] = a;
        mask[16 + i] = a;
    }
    mask[3] = b;
    mask[4] = b;
    mask[16 + 4] = b;
    let mut quads = Vec::new();
    merge_mask(&mut quads, &mut mask, 2, 1, 7, 0, 0);
    let spans: Vec<(i32, i32, i32, i32, u32)> = quads.iter().map(|q| (q.u0, q.u1, q.v0, q.v1, q.tile)).collect();
    assert_eq!(spans, vec![(0, 3, 0, 2, 5), (3, 5, 0, 1, 6), (4, 5, 1, 2, 6)]);
    assert!(quads.iter().all(|q| q.face == 1 && q.plane == 7));
}

#[test]
fn quads_come_in_face_layer_and_scan_order() {
    let mut w = plain();
    w.set(5, FLAT_LEVEL + 1, 5, Block::Stone);
    w.set(9, FLAT_LEVEL + 2, 3, Block::Wood);
    let m = build_chunk_meshes(&w, 0, 0);
    let key = |q: &Quad| {
        let layer = if q.face % 2 == 1 { q.plane - 1 } else { q.plane };
        let uniform = q.ao.0 == q.ao.1 && q.ao.1 == q.ao.2 && q.ao.2 == q.ao.3;
        (q.face, layer, uniform, q.v0, q.u0)
    };
    for pair in m.opaque.windows(2) {
        assert!(key(&pair[0]) < key(&pair[1]), "{:?} then {:?}", pair[0], pair[1]);
    }
    // A face shaded unevenly is drawn on its own.
    assert!(m
        .opaque
        .iter()
        .filter(|q| !(q.ao.0 == q.ao.1 && q.ao.1 == q.ao.2 && q.ao.2 == q.ao.3))
        .all(|q| q.u1 == q.u0 + 1 && q.v1 == q.v0 + 1));
    // Inside the map the bottom of the slab comes before its top.
    let m = build_chunk_meshes(&plain(), 5, 5);
    assert_eq!((m.opaque[0].face, m.opaque[1].face), (2, 3));
}
