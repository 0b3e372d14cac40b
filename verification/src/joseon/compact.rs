//! A compact 경복궁: the same palace at a third of the size, standing on the
//! same bare plain. Every hall, court and pond of the full map is here at its
//! smallest workable size — one-block walls and doors, roofs of three or four
//! courses — which keeps it quick to generate and to walk round in a test.
//!
//! Its builders state, as the full palace's do, exactly what each lays, the
//! box each keeps to, and that they write nothing but built blocks.

use vstd::prelude::*;
use crate::block::Block;
use crate::world::{World, WORLD_X, WORLD_Y, WORLD_Z, flat_block, in_world};
use super::{
    abs, rem_euclid, lay, builds_in, lemma_start, lemma_extend, lemma_column_untouched,
    lemma_crown_kept, lemma_lays_builds, plan_within, fill_column, column_range, column_same_above,
    misses, coord, site, plot, in_box, Area, GROUND,
};
use super::style::{iabs, on_ring, lay_roof, lemma_roof_crown, roof_courses, roof_plan, PALACE_STEP};
use super::hall::{crowned, fill_rect, lay_hall_floor, rect, slab, terrace};
use super::water::{in_hex, lay_hex_roof, hex_roof_area, hex_roof_plan, spec_in_hex};

verus! {

/// Half-width of the walled precinct.
pub const PALACE_X: i32 = 38;
/// How far the precinct runs south and north of its centre.
pub const PALACE_SOUTH: i32 = 30;
pub const PALACE_NORTH: i32 = 94;

/// Half-extents of the 근정전 court, and how far north of the precinct centre
/// it sits.
pub const COURT_X: i32 = 20;
pub const COURT_Z: i32 = 15;
pub const COURT_OFFSET_Z: i32 = -13;

/// The halls behind the throne hall, on the axis.
pub const SAJEONG_Z: i32 = -38;
pub const GANGNYEONG_Z: i32 = -52;
pub const GYOTAE_Z: i32 = -66;
/// 향원정, in the rear garden.
pub const HYANGWON_Z: i32 = -84;
/// The side compounds, between the inner yards and the precinct wall.
pub const JAGYEONG_X: i32 = 30;
pub const JAGYEONG_Z: i32 = -52;
pub const SUJEONG_X: i32 = -30;
pub const SUJEONG_Z: i32 = -36;
pub const DONGGUNG_X: i32 = 30;
pub const DONGGUNG_Z: i32 = -34;

/// Half-extents of the throne hall's two 월대 terraces.
pub const WOLDAE_OUTER_X: i32 = 15;
pub const WOLDAE_OUTER_Z: i32 = 12;
pub const WOLDAE_INNER_X: i32 = 12;
pub const WOLDAE_INNER_Z: i32 = 9;

/// Half-width of the yards behind the throne hall.
pub const INNER_X: i32 = 20;

/// Height of the cloister's colonnade, from its raised floor to the beam.
pub const CLOISTER_H: i32 = 3;

/// Where `compound_wall` may build.
pub open spec fn compound_wall_area(cx: int, cz: int, gy: int, rx: int, rz: int) -> Area {
    (cx - rx, cx + rx, gy + 1, gy + 4, cz - rz, cz + rz)
}

/// What `compound_wall` lays: on every cell of the ring of half-extents
/// `(rx, rz)` round `(cx, cz)` but the three-wide gateway in the middle of its
/// south face, a granite footing, two courses of plaster (the lower one
/// painted on the south face when `flowered`) and the tiled coping.
pub open spec fn compound_wall_plan(cx: int, cz: int, gy: int, rx: int, rz: int, flowered: bool) -> spec_fn(int, int, int) -> Option<Block> {
    |a: int, b: int, c: int|
        if on_ring(a - cx, c - cz, rx, rz) && !(c - cz == rz && iabs(a - cx) <= 1) {
            if b == gy + 1 {
                Some(Block::Granite)
            } else if b == gy + 2 {
                Some(if flowered && c - cz == rz { Block::Dancheong } else { Block::Plaster })
            } else if b == gy + 3 {
                Some(Block::Plaster)
            } else if b == gy + 4 {
                Some(Block::RoofTile)
            } else {
                None
            }
        } else {
            None
        }
}

/// A walled compound round a hall — granite footing, two courses of plaster,
/// tiled coping — with a gateway in its south face. `flowered` paints that
/// face's lower plaster course, as 자경전's 꽃담 is.
#[verifier::loop_isolation(false)]
pub fn compound_wall(world: &mut World, cx: i32, cz: i32, gy: i32, rx: i32, rz: i32, flowered: bool)
    requires
        old(world).wf(),
        coord(cx as int),
        coord(cz as int),
        coord(gy as int),
        0 <= rx <= 500,
        0 <= rz <= 500,
    ensures
        final(world).wf(),
        World::lays(*old(world), *final(world), compound_wall_plan(cx as int, cz as int, gy as int, rx as int, rz as int, flowered)),
        builds_in(*old(world), *final(world), compound_wall_area(cx as int, cz as int, gy as int, rx as int, rz as int)),
{
    let ghost w0 = *world;
    let ghost area = compound_wall_area(cx as int, cz as int, gy as int, rx as int, rz as int);
    let ghost plan = compound_wall_plan(cx as int, cz as int, gy as int, rx as int, rz as int, flowered);
    proof {
        World::lemma_columns_start(w0, plan, cx as int, cz as int, -rz as int, -rx as int);
    }
    let mut dz = -rz;
    while dz <= rz
        invariant
            -rz <= dz <= rz + 1,
            world.wf(),
            World::lays(w0, *world, World::columns(plan, cx as int, cz as int, dz as int, -rx as int)),
        decreases rz + 1 - dz,
    {
        let mut dx = -rx;
        while dx <= rx
            invariant
                -rz <= dz <= rz,
                -rx <= dx <= rx + 1,
                world.wf(),
                World::lays(w0, *world, World::columns(plan, cx as int, cz as int, dz as int, dx as int)),
            decreases rx + 1 - dx,
        {
            let on_edge = abs(dx) == rx || abs(dz) == rz;
            let gateway = dz == rz && abs(dx) <= 1;
            if on_edge && !gateway {
                let painted = flowered && dz == rz;
                let (x, z) = (cx + dx, cz + dz);
                let ghost w1 = *world;
                world.set(x, gy + 1, z, Block::Granite);
                let ghost w2 = *world;
                world.set(x, gy + 2, z, if painted { Block::Dancheong } else { Block::Plaster });
                let ghost w3 = *world;
                world.set(x, gy + 3, z, Block::Plaster);
                let ghost w4 = *world;
                world.set(x, gy + 4, z, Block::RoofTile);
                proof {
                    let (xi, zi) = (x as int, z as int);
                    let c1 = World::single(xi, gy + 1, zi, Block::Granite);
                    let c2 = World::single(xi, gy + 2, zi, if painted { Block::Dancheong } else { Block::Plaster });
                    let c3 = World::single(xi, gy + 3, zi, Block::Plaster);
                    let c4 = World::single(xi, gy + 4, zi, Block::RoofTile);
                    World::lemma_lays_single(w1, w2, xi, gy + 1, zi, Block::Granite);
                    World::lemma_lays_single(w2, w3, xi, gy + 2, zi, if painted { Block::Dancheong } else { Block::Plaster });
                    World::lemma_lays_single(w3, w4, xi, gy + 3, zi, Block::Plaster);
                    World::lemma_lays_single(w4, *world, xi, gy + 4, zi, Block::RoofTile);
                    World::lemma_lays_compose(w1, w2, w3, c1, c2);
                    World::lemma_lays_compose(w1, w3, w4, World::overlay(c1, c2), c3);
                    World::lemma_lays_compose(w1, w4, *world, World::overlay(World::overlay(c1, c2), c3), c4);
                    World::lemma_column_step(w0, w1, *world, plan, World::overlay(World::overlay(World::overlay(c1, c2), c3), c4), cx as int, cz as int, dz as int, dx as int);
                }
            } else {
                proof {
                    World::lemma_column_move(w0, *world, plan, cx as int, cz as int, dz as int, dx as int, dz as int, dx + 1);
                }
            }
            dx = dx + 1;
        }
        proof {
            World::lemma_column_move(w0, *world, plan, cx as int, cz as int, dz as int, dx as int, dz + 1, -rx as int);
        }
        dz = dz + 1;
    }
    proof {
        World::lemma_columns_finish(w0, *world, plan, cx as int, cz as int, dz as int, -rx as int);
        assert(plan_within(plan, area));
        lemma_lays_builds(w0, *world, plan, area);
    }
}

/// Where `place_residence` may build: the platform, projecting two blocks past
/// the walls, and everything up to the roof over it.
pub open spec fn residence_area(cx: int, cz: int, gy: int, bx: int, bz: int) -> Area {
    (cx - bx - 2, cx + bx + 2, gy + 1, gy + 12 + roof_courses(bx + 2, bz + 2, PALACE_STEP as int), cz - bz - 2, cz + bz + 2)
}

/// The height of a hall's crown — the top course of its roof — for a body of
/// half-extents `(bx, bz)` on ground `gy`: walls and beam take six courses,
/// then the roof.
pub open spec fn residence_crown(gy: int, bx: int, bz: int) -> int {
    gy + 7 + roof_courses(bx + 2, bz + 2, PALACE_STEP as int) - 1
}

/// Whether `(dx, dz)` is a post of a wall ring of half-extents `(bx, bz)`
/// with posts every third bay: a corner, or every third cell along a face.
pub open spec fn post3(dx: int, dz: int, bx: int, bz: int) -> bool {
    (iabs(dx) == bx && iabs(dz) == bz) || (dx % 3 == 0 && iabs(dz) == bz) || (dz % 3 == 0 && iabs(dx) == bx)
}

/// The platform and body of a hall of half-extents `(bx, bz)`, column by
/// column: granite over the platform, projecting two past the walls all
/// round, with the air cleared over it to twelve above the ground; round the
/// body's edge walls four high — red pillars at the corners and every third
/// bay, paper doors across the south front and plaster elsewhere, with a
/// doorway three wide and three high in the middle of the front — and the
/// painted beam over them.
pub open spec fn residence_body_plan(cx: int, cz: int, gy: int, bx: int, bz: int) -> spec_fn(int, int, int) -> Option<Block> {
    |a: int, b: int, c: int|
        if iabs(a - cx) <= bx + 2 && iabs(c - cz) <= bz + 2 {
            let ring = on_ring(a - cx, c - cz, bx, bz);
            let door = c - cz == bz && iabs(a - cx) <= 1;
            if b == gy + 1 {
                Some(Block::Granite)
            } else if ring && gy + 2 <= b <= gy + 5 && !(door && b <= gy + 4) {
                Some(if post3(a - cx, c - cz, bx, bz) { Block::RedPillar } else if c - cz == bz { Block::Paper } else { Block::Plaster })
            } else if ring && b == gy + 6 {
                Some(Block::Dancheong)
            } else if gy + 2 <= b <= gy + 12 {
                Some(Block::Air)
            } else {
                None
            }
        } else {
            None
        }
}

/// 드므 — a bronze vat of water on a granite footing at each corner of a
/// hall's platform.
pub open spec fn vats_plan(cx: int, cz: int, gy: int, bx: int, bz: int) -> spec_fn(int, int, int) -> Option<Block> {
    |a: int, b: int, c: int|
        if iabs(a - cx) == bx + 2 && iabs(c - cz) == bz + 2 {
            if b == gy + 2 {
                Some(Block::Granite)
            } else if b == gy + 3 {
                Some(Block::Water)
            } else {
                None
            }
        } else {
            None
        }
}

/// What `place_residence` lays: the platform and body, the timber floor
/// inside the walls, the roof, and the vats.
pub open spec fn residence_plan(cx: int, cz: int, gy: int, bx: int, bz: int, ridged: bool) -> spec_fn(int, int, int) -> Option<Block> {
    World::overlay(
        World::overlay(
            World::overlay(residence_body_plan(cx, cz, gy, bx, bz), slab(cx, cz, bx - 1, bz - 1, gy + 1, Block::Wood)),
            roof_plan(cx, cz, bx + 2, bz + 2, gy + 7, PALACE_STEP as int, ridged),
        ),
        vats_plan(cx, cz, gy, bx, bz),
    )
}

/// Lay the platform and body of a hall column by column.
#[verifier::loop_isolation(false)]
fn residence_body(world: &mut World, cx: i32, cz: i32, gy: i32, bx: i32, bz: i32)
    requires
        old(world).wf(),
        site(cx as int),
        site(cz as int),
        site(gy as int),
        1 <= bx <= 500,
        1 <= bz <= 500,
    ensures
        final(world).wf(),
        World::lays(*old(world), *final(world), residence_body_plan(cx as int, cz as int, gy as int, bx as int, bz as int)),
{
    let body_h: i32 = 4;
    let floor = gy + 2;
    let ghost w0 = *world;
    let ghost plan = residence_body_plan(cx as int, cz as int, gy as int, bx as int, bz as int);
    proof {
        World::lemma_columns_start(w0, plan, cx as int, cz as int, -(bz + 2), -(bx + 2));
    }
    let mut dz = -(bz + 2);
    while dz <= bz + 2
        invariant
            -(bz + 2) <= dz <= bz + 3,
            world.wf(),
            World::lays(w0, *world, World::columns(plan, cx as int, cz as int, dz as int, -(bx + 2))),
        decreases bz + 3 - dz,
    {
        let mut dx = -(bx + 2);
        while dx <= bx + 2
            invariant
                -(bz + 2) <= dz <= bz + 2,
                -(bx + 2) <= dx <= bx + 3,
                world.wf(),
                World::lays(w0, *world, World::columns(plan, cx as int, cz as int, dz as int, dx as int)),
            decreases bx + 3 - dx,
        {
            let (x, z) = (cx + dx, cz + dz);
            let ghost w1 = *world;
            // 기단 — the platform, projecting a little past the walls all
            // round, and the space over it cleared.
            world.set(x, gy + 1, z, Block::Granite);
            let ghost w2 = *world;
            fill_column(world, x, z, gy + 2, gy + body_h + 8, Block::Air);
            let ghost w3 = *world;
            // The walls round the body, with a doorway through the front, and
            // the painted beam over them.
            let ring = abs(dx) <= bx && abs(dz) <= bz && (abs(dx) == bx || abs(dz) == bz);
            let doorway = dz == bz && abs(dx) <= 1;
            let corner = abs(dx) == bx && abs(dz) == bz;
            let post = corner || (rem_euclid(dx, 3) == 0 && abs(dz) == bz) || (rem_euclid(dz, 3) == 0 && abs(dx) == bx);
            let block = if post {
                Block::RedPillar
            } else if dz == bz {
                Block::Paper  // the south front is doors
            } else {
                Block::Plaster
            };
            let wall_from = if doorway { floor + 3 } else { floor };
            let wall_top = if ring { floor + body_h - 1 } else { floor - 1 };
            fill_column(world, x, z, wall_from, wall_top, block);
            let ghost w4 = *world;
            if ring {
                world.set(x, floor + body_h, z, Block::Dancheong);
            }
            proof {
                let footing = World::single(x as int, gy + 1, z as int, Block::Granite);
                let clear = column_range(x as int, z as int, gy + 2, gy + 12, Block::Air);
                let walls = column_range(x as int, z as int, wall_from as int, wall_top as int, block);
                let beam = if ring { World::single(x as int, gy + 6, z as int, Block::Dancheong) } else { World::nothing() };
                World::lemma_lays_single(w1, w2, x as int, gy + 1, z as int, Block::Granite);
                if ring {
                    World::lemma_lays_single(w4, *world, x as int, gy + 6, z as int, Block::Dancheong);
                } else {
                    World::lemma_lays_nothing(w4);
                }
                World::lemma_lays_compose(w1, w2, w3, footing, clear);
                World::lemma_lays_compose(w1, w3, w4, World::overlay(footing, clear), walls);
                World::lemma_lays_compose(w1, w4, *world, World::overlay(World::overlay(footing, clear), walls), beam);
                World::lemma_column_step(w0, w1, *world, plan, World::overlay(World::overlay(World::overlay(footing, clear), walls), beam), cx as int, cz as int, dz as int, dx as int);
            }
            dx = dx + 1;
        }
        proof {
            World::lemma_column_move(w0, *world, plan, cx as int, cz as int, dz as int, dx as int, dz + 1, -(bx + 2));
        }
        dz = dz + 1;
    }
    proof {
        World::lemma_columns_finish(w0, *world, plan, cx as int, cz as int, dz as int, -(bx + 2));
    }
}

/// Set the vats at the four corners of a hall's platform.
fn set_vats(world: &mut World, cx: i32, cz: i32, gy: i32, bx: i32, bz: i32)
    requires
        old(world).wf(),
        site(cx as int),
        site(cz as int),
        site(gy as int),
        1 <= bx <= 500,
        1 <= bz <= 500,
    ensures
        final(world).wf(),
        World::lays(*old(world), *final(world), vats_plan(cx as int, cz as int, gy as int, bx as int, bz as int)),
{
    let ghost w0 = *world;
    let ghost plan = vats_plan(cx as int, cz as int, gy as int, bx as int, bz as int);
    proof {
        World::lemma_columns_start(w0, plan, cx as int, cz as int, -(bz + 2), -(bx + 2));
    }
    let mut sz: i32 = -1;
    while sz <= 1
        invariant
            sz == -1 || sz == 1 || sz == 3,
            site(cx as int),
            site(cz as int),
            site(gy as int),
            1 <= bx <= 500,
            1 <= bz <= 500,
            plan == vats_plan(cx as int, cz as int, gy as int, bx as int, bz as int),
            world.wf(),
            World::lays(w0, *world, World::columns(plan, cx as int, cz as int, if sz == 3 { bz + 3 } else { sz * (bz + 2) }, -(bx + 2))),
        decreases 3 - sz,
    {
        let mut sx: i32 = -1;
        while sx <= 1
            invariant
                sz == -1 || sz == 1,
                sx == -1 || sx == 1 || sx == 3,
                site(cx as int),
                site(cz as int),
                site(gy as int),
                1 <= bx <= 500,
                1 <= bz <= 500,
                plan == vats_plan(cx as int, cz as int, gy as int, bx as int, bz as int),
                world.wf(),
                World::lays(w0, *world, World::columns(plan, cx as int, cz as int, sz * (bz + 2), if sx == 3 { bx + 3 } else { sx * (bx + 2) })),
            decreases 3 - sx,
        {
            let x = cx + sx * (bx + 2);
            let z = cz + sz * (bz + 2);
            let ghost w1 = *world;
            world.set(x, gy + 2, z, Block::Granite);
            let ghost w2 = *world;
            world.set(x, gy + 3, z, Block::Water);
            proof {
                let foot = World::single(x as int, gy + 2, z as int, Block::Granite);
                let vat = World::single(x as int, gy + 3, z as int, Block::Water);
                World::lemma_lays_single(w1, w2, x as int, gy + 2, z as int, Block::Granite);
                World::lemma_lays_single(w2, *world, x as int, gy + 3, z as int, Block::Water);
                World::lemma_lays_compose(w1, w2, *world, foot, vat);
                World::lemma_column_step(w0, w1, *world, plan, World::overlay(foot, vat), cx as int, cz as int, sz * (bz + 2), sx * (bx + 2));
                World::lemma_column_move(w0, *world, plan, cx as int, cz as int, sz * (bz + 2), sx * (bx + 2) + 1, sz * (bz + 2), if sx == 1 { bx + 3 } else { bx + 2 });
            }
            sx = sx + 2;
        }
        proof {
            if sz == -1 {
                assert(sz * (bz + 2) == -(bz + 2)) by (nonlinear_arith)
                    requires
                        sz == -1,
                ;
            } else {
                assert(sz * (bz + 2) == bz + 2) by (nonlinear_arith)
                    requires
                        sz == 1,
                ;
            }
            World::lemma_column_move(w0, *world, plan, cx as int, cz as int, sz * (bz + 2), bx + 3, if sz == 1 { bz + 3 } else { bz + 2 }, -(bx + 2));
        }
        sz = sz + 2;
    }
    proof {
        World::lemma_columns_finish(w0, *world, plan, cx as int, cz as int, bz + 3, -(bx + 2));
    }
}

/// One hall of the residential quarter: a granite platform cleared above, a
/// red-pillared body with plaster walls and paper doors across the south
/// front, a doorway, a painted beam and a tiled roof (ridged or not), with a
/// bronze vat of water at each corner of the platform.
///
/// The crown of its roof over the centre is the white ridge when `ridged`,
/// and plain tile for 무량각; nothing stands over it.
pub fn place_residence(world: &mut World, cx: i32, cz: i32, gy: i32, bx: i32, bz: i32, ridged: bool)
    requires
        old(world).wf(),
        site(cx as int),
        site(cz as int),
        site(gy as int),
        1 <= bx <= 500,
        1 <= bz <= 500,
    ensures
        final(world).wf(),
        World::lays(*old(world), *final(world), residence_plan(cx as int, cz as int, gy as int, bx as int, bz as int, ridged)),
        builds_in(*old(world), *final(world), residence_area(cx as int, cz as int, gy as int, bx as int, bz as int)),
        crowned(*old(world), *final(world), cx as int, cz as int, residence_crown(gy as int, bx as int, bz as int), gy + 12, if ridged {
            Block::RoofRidge
        } else {
            Block::RoofTile
        }),
{
    let ghost w0 = *world;
    let ghost area = residence_area(cx as int, cz as int, gy as int, bx as int, bz as int);
    residence_body(world, cx, cz, gy, bx, bz);
    let ghost w1 = *world;
    lay_hall_floor(world, cx, cz, bx, bz, gy + 1);
    let ghost w2 = *world;
    let beam = gy + 6;
    lay_roof(world, cx, cz, bx, bz, beam + 1, 2, PALACE_STEP, ridged);
    let ghost w3 = *world;
    // 드므 — the bronze vats at a hall's corners, kept full of water as a
    // charm against fire.
    set_vats(world, cx, cz, gy, bx, bz);
    proof {
        let p1 = residence_body_plan(cx as int, cz as int, gy as int, bx as int, bz as int);
        let p2 = slab(cx as int, cz as int, bx - 1, bz - 1, gy + 1, Block::Wood);
        let p3 = roof_plan(cx as int, cz as int, bx + 2, bz + 2, beam + 1, PALACE_STEP as int, ridged);
        let p4 = vats_plan(cx as int, cz as int, gy as int, bx as int, bz as int);
        World::lemma_lays_compose(w0, w1, w2, p1, p2);
        World::lemma_lays_compose(w0, w2, w3, World::overlay(p1, p2), p3);
        World::lemma_lays_compose(w0, w3, *world, World::overlay(World::overlay(p1, p2), p3), p4);
        assert(plan_within(p1, area));
        assert(plan_within(p4, area));
        lemma_lays_builds(w0, w1, p1, area);
        lemma_extend(w0, w1, w2, area, (cx - bx + 1, cx + bx - 1, gy + 1, gy + 1, cz - bz + 1, cz + bz - 1));
        lemma_extend(w0, w2, w3, area, (cx - bx - 2, cx + bx + 2, beam + 1, beam + 1 + roof_courses(bx + 2, bz + 2, PALACE_STEP as int) + 1, cz - bz - 2, cz + bz + 2));
        lemma_lays_builds(w3, *world, p4, area);
        lemma_extend(w0, w3, *world, area, area);
        // What stands over the centre: the roof's crown and nothing above it
        // but the cleared air.
        let crown = residence_crown(gy as int, bx as int, bz as int);
        let total = residence_plan(cx as int, cz as int, gy as int, bx as int, bz as int, ridged);
        reveal(World::lays);
        lemma_roof_crown(cx as int, cz as int, bx + 2, bz + 2, beam + 1, PALACE_STEP as int, ridged, crown);
        world.lemma_cell(cx as int, crown, cz as int);
        assert forall|y: int| y > crown implies #[trigger] world.block_at(cx as int, y, cz as int) == (if y <= gy + 12 {
            Block::Air
        } else {
            w0.block_at(cx as int, y, cz as int)
        }) by {
            lemma_roof_crown(cx as int, cz as int, bx + 2, bz + 2, beam + 1, PALACE_STEP as int, ridged, y);
            w0.lemma_cell(cx as int, y, cz as int);
            world.lemma_cell(cx as int, y, cz as int);
            assert(total(cx as int, y, cz as int) == (if y <= gy + 12 { Some(Block::Air) } else { None }));
        }
    }
}

/// Where `hall_storey` may build.
pub open spec fn storey_area(cx: int, cz: int, bx: int, bz: int, floor: int, height: int) -> Area {
    (cx - bx, cx + bx, floor, floor + height, cz - bz, cz + bz)
}

/// What `hall_storey` lays: round the edge of a body of half-extents
/// `(bx, bz)`, walls `height` high from `floor` — red columns at every corner
/// and every third bay, paper doors across the south front and plaster
/// elsewhere — with a doorway three wide in the middle of the front, three
/// high or the whole storey if lower, and the painted beam on top.
pub open spec fn storey_plan(cx: int, cz: int, bx: int, bz: int, floor: int, height: int) -> spec_fn(int, int, int) -> Option<Block> {
    |a: int, b: int, c: int|
        if on_ring(a - cx, c - cz, bx, bz) {
            let door = c - cz == bz && iabs(a - cx) <= 1;
            if floor <= b < floor + height {
                if door && b < floor + (if 3 < height { 3 } else { height }) {
                    Some(Block::Air)
                } else {
                    Some(if post3(a - cx, c - cz, bx, bz) { Block::RedPillar } else if c - cz == bz { Block::Paper } else { Block::Plaster })
                }
            } else if b == floor + height {
                Some(Block::Dancheong)
            } else {
                None
            }
        } else {
            None
        }
}

/// One storey of a hall: red columns every third bay and at every corner,
/// wall infill between them (paper doors across the south front), a doorway,
/// and a painted beam capping it.
#[verifier::loop_isolation(false)]
pub fn hall_storey(world: &mut World, cx: i32, cz: i32, bx: i32, bz: i32, floor: i32, height: i32)
    requires
        old(world).wf(),
        coord(cx as int),
        coord(cz as int),
        coord(floor as int),
        1 <= bx <= 500,
        1 <= bz <= 500,
        0 <= height <= 500,
    ensures
        final(world).wf(),
        World::lays(*old(world), *final(world), storey_plan(cx as int, cz as int, bx as int, bz as int, floor as int, height as int)),
        builds_in(*old(world), *final(world), storey_area(cx as int, cz as int, bx as int, bz as int, floor as int, height as int)),
{
    let ghost w0 = *world;
    let ghost area = storey_area(cx as int, cz as int, bx as int, bz as int, floor as int, height as int);
    let ghost plan = storey_plan(cx as int, cz as int, bx as int, bz as int, floor as int, height as int);
    // Doorway through the front.
    let door_h = if 3 < height { 3 } else { height };
    proof {
        World::lemma_columns_start(w0, plan, cx as int, cz as int, -bz as int, -bx as int);
    }
    let mut dz = -bz;
    while dz <= bz
        invariant
            -bz <= dz <= bz + 1,
            world.wf(),
            World::lays(w0, *world, World::columns(plan, cx as int, cz as int, dz as int, -bx as int)),
        decreases bz + 1 - dz,
    {
        let mut dx = -bx;
        while dx <= bx
            invariant
                -bz <= dz <= bz,
                -bx <= dx <= bx + 1,
                world.wf(),
                World::lays(w0, *world, World::columns(plan, cx as int, cz as int, dz as int, dx as int)),
            decreases bx + 1 - dx,
        {
            if abs(dx) == bx || abs(dz) == bz {
                let (x, z) = (cx + dx, cz + dz);
                let corner = abs(dx) == bx && abs(dz) == bz;
                let bay = rem_euclid(dx, 3) == 0 && abs(dz) == bz || rem_euclid(dz, 3) == 0 && abs(dx) == bx;
                let block = if corner || bay {
                    Block::RedPillar
                } else if dz == bz {
                    Block::Paper  // the south front is doors
                } else {
                    Block::Plaster
                };
                let doorway = dz == bz && abs(dx) <= 1;
                let open_top = if doorway { door_h } else { 0 };
                let ghost w1 = *world;
                fill_column(world, x, z, floor, floor + open_top - 1, Block::Air);
                let ghost w2 = *world;
                fill_column(world, x, z, floor + open_top, floor + height - 1, block);
                let ghost w3 = *world;
                world.set(x, floor + height, z, Block::Dancheong);
                proof {
                    let door = column_range(x as int, z as int, floor as int, floor + open_top - 1, Block::Air);
                    let walls = column_range(x as int, z as int, floor + open_top, floor + height - 1, block);
                    let beam = World::single(x as int, floor + height, z as int, Block::Dancheong);
                    World::lemma_lays_single(w3, *world, x as int, floor + height, z as int, Block::Dancheong);
                    World::lemma_lays_compose(w1, w2, w3, door, walls);
                    World::lemma_lays_compose(w1, w3, *world, World::overlay(door, walls), beam);
                    World::lemma_column_step(w0, w1, *world, plan, World::overlay(World::overlay(door, walls), beam), cx as int, cz as int, dz as int, dx as int);
                }
            } else {
                proof {
                    World::lemma_column_move(w0, *world, plan, cx as int, cz as int, dz as int, dx as int, dz as int, dx + 1);
                }
            }
            dx = dx + 1;
        }
        proof {
            World::lemma_column_move(w0, *world, plan, cx as int, cz as int, dz as int, dx as int, dz + 1, -bx as int);
        }
        dz = dz + 1;
    }
    proof {
        World::lemma_columns_finish(w0, *world, plan, cx as int, cz as int, dz as int, -bx as int);
        assert(plan_within(plan, area));
        lemma_lays_builds(w0, *world, plan, area);
    }
}

/// Where `place_throne` may build.
pub open spec fn throne_area(cx: int, cz: int, floor: int) -> Area {
    (cx - 3, cx + 3, floor, floor + 6, cz - 3, cz + 1)
}

/// What `place_throne` lays round `(cx, cz)` on the hall floor `floor`: the
/// dais in two steps (7 by 4 at the floor, 5 by 3 above it, flush with its
/// north edge), the seat one north of the centre, the 일월오봉도 screen seven
/// wide behind it from two to four above the floor, the four posts of the
/// 닫집 at the corners two either side and from two north to one south, the
/// canopy's tiled roof over them five above the floor, and its ridge, three
/// long, over the centre.
pub open spec fn throne_plan(cx: int, cz: int, floor: int) -> spec_fn(int, int, int) -> Option<Block> {
    |a: int, b: int, c: int|
        if -2 <= c - cz <= 1 && iabs(a - cx) <= 3 && b == floor {
            Some(Block::Granite)
        } else if -2 <= c - cz <= 0 && iabs(a - cx) <= 2 && b == floor + 1 {
            Some(Block::Granite)
        } else if a == cx && c - cz == -1 && b == floor + 2 {
            Some(Block::RedPillar)
        } else if c - cz == -3 && iabs(a - cx) <= 3 && floor + 2 <= b <= floor + 4 {
            Some(Block::Dancheong)
        } else if iabs(a - cx) == 2 && (c - cz == -2 || c - cz == 1) && floor + 3 <= b <= floor + 4 {
            Some(Block::RedPillar)
        } else if iabs(a - cx) <= 2 && -2 <= c - cz <= 1 && b == floor + 5 {
            Some(Block::RoofTile)
        } else if iabs(a - cx) <= 1 && c == cz && b == floor + 6 {
            Some(Block::RoofRidge)
        } else {
            None
        }
}

/// 어좌 — the throne, on its two-step dais at the north end of the hall, in
/// front of the 일월오봉도 screen and under a 닫집 canopy on four posts. The
/// seat itself is a red pillar one block north of `(cx, cz)`, two above the
/// floor. Each column of it is laid in turn: what stands in one column never
/// shares a cell with another piece.
#[verifier::loop_isolation(false)]
pub fn place_throne(world: &mut World, cx: i32, cz: i32, floor: i32)
    requires
        old(world).wf(),
        coord(cx as int),
        coord(cz as int),
        coord(floor as int),
    ensures
        final(world).wf(),
        World::lays(*old(world), *final(world), throne_plan(cx as int, cz as int, floor as int)),
        builds_in(*old(world), *final(world), throne_area(cx as int, cz as int, floor as int)),
        final(world).block_at(cx as int, floor + 2, cz - 1) == (if in_world(cx as int, floor + 2, cz - 1) { Block::RedPillar } else { Block::Air }),
{
    let ghost w0 = *world;
    let ghost area = throne_area(cx as int, cz as int, floor as int);
    let ghost plan = throne_plan(cx as int, cz as int, floor as int);
    proof {
        World::lemma_columns_start(w0, plan, cx as int, cz as int, -3, -3);
    }
    let mut dz: i32 = -3;
    while dz <= 1
        invariant
            -3 <= dz <= 2,
            world.wf(),
            World::lays(w0, *world, World::columns(plan, cx as int, cz as int, dz as int, -3)),
        decreases 2 - dz,
    {
        let mut dx: i32 = -3;
        while dx <= 3
            invariant
                -3 <= dz <= 1,
                -3 <= dx <= 4,
                world.wf(),
                World::lays(w0, *world, World::columns(plan, cx as int, cz as int, dz as int, dx as int)),
            decreases 4 - dx,
        {
            let (x, z) = (cx + dx, cz + dz);
            let ghost w1 = *world;
            // The dais, stepping up twice.
            let dais = -2 <= dz && dz <= 1;
            fill_column(world, x, z, floor, if dais { floor } else { floor - 1 }, Block::Granite);
            let ghost w2 = *world;
            let step = -2 <= dz && dz <= 0 && abs(dx) <= 2;
            fill_column(world, x, z, floor + 1, if step { floor + 1 } else { floor }, Block::Granite);
            let ghost w3 = *world;
            // The seat.
            let seat = dx == 0 && dz == -1;
            fill_column(world, x, z, floor + 2, if seat { floor + 2 } else { floor + 1 }, Block::RedPillar);
            let ghost w4 = *world;
            // 일월오봉도 — a band of colour filling the wall right behind the
            // seat.
            let screen = dz == -3;
            fill_column(world, x, z, floor + 2, if screen { floor + 4 } else { floor + 1 }, Block::Dancheong);
            let ghost w5 = *world;
            // 닫집 — the canopy, on four posts over the seat.
            let post = abs(dx) == 2 && (dz == -2 || dz == 1);
            fill_column(world, x, z, floor + 3, if post { floor + 4 } else { floor + 2 }, Block::RedPillar);
            let ghost w6 = *world;
            let canopy = abs(dx) <= 2 && -2 <= dz && dz <= 1;
            fill_column(world, x, z, floor + 5, if canopy { floor + 5 } else { floor + 4 }, Block::RoofTile);
            let ghost w7 = *world;
            let ridge = abs(dx) <= 1 && dz == 0;
            fill_column(world, x, z, floor + 6, if ridge { floor + 6 } else { floor + 5 }, Block::RoofRidge);
            proof {
                let (xi, zi) = (x as int, z as int);
                let q1 = column_range(xi, zi, floor as int, if dais { floor as int } else { floor - 1 }, Block::Granite);
                let q2 = column_range(xi, zi, floor + 1, if step { floor + 1 } else { floor as int }, Block::Granite);
                let q3 = column_range(xi, zi, floor + 2, if seat { floor + 2 } else { floor + 1 }, Block::RedPillar);
                let q4 = column_range(xi, zi, floor + 2, if screen { floor + 4 } else { floor + 1 }, Block::Dancheong);
                let q5 = column_range(xi, zi, floor + 3, if post { floor + 4 } else { floor + 2 }, Block::RedPillar);
                let q6 = column_range(xi, zi, floor + 5, if canopy { floor + 5 } else { floor + 4 }, Block::RoofTile);
                let q7 = column_range(xi, zi, floor + 6, if ridge { floor + 6 } else { floor + 5 }, Block::RoofRidge);
                World::lemma_lays_compose(w1, w2, w3, q1, q2);
                World::lemma_lays_compose(w1, w3, w4, World::overlay(q1, q2), q3);
                World::lemma_lays_compose(w1, w4, w5, World::overlay(World::overlay(q1, q2), q3), q4);
                World::lemma_lays_compose(w1, w5, w6, World::overlay(World::overlay(World::overlay(q1, q2), q3), q4), q5);
                World::lemma_lays_compose(w1, w6, w7, World::overlay(World::overlay(World::overlay(World::overlay(q1, q2), q3), q4), q5), q6);
                let col = World::overlay(World::overlay(World::overlay(World::overlay(World::overlay(World::overlay(q1, q2), q3), q4), q5), q6), q7);
                World::lemma_lays_compose(w1, w7, *world, World::overlay(World::overlay(World::overlay(World::overlay(World::overlay(q1, q2), q3), q4), q5), q6), q7);
                World::lemma_column_step(w0, w1, *world, plan, col, cx as int, cz as int, dz as int, dx as int);
            }
            dx = dx + 1;
        }
        proof {
            World::lemma_column_move(w0, *world, plan, cx as int, cz as int, dz as int, dx as int, dz + 1, -3);
        }
        dz = dz + 1;
    }
    proof {
        World::lemma_columns_finish(w0, *world, plan, cx as int, cz as int, dz as int, -3);
        assert(plan_within(plan, area));
        lemma_lays_builds(w0, *world, plan, area);
        reveal(World::lays);
        world.lemma_cell(cx as int, floor + 2, cz - 1);
        assert(plan(cx as int, floor + 2, cz - 1) == Some(Block::RedPillar));
    }
}

/// Where `place_terrace_rails` may build.
pub open spec fn rails_area(cx: int, cz: int, gy: int) -> Area {
    (cx - WOLDAE_OUTER_X, cx + WOLDAE_OUTER_X, gy + 2, gy + 3, cz - WOLDAE_OUTER_Z, cz + WOLDAE_OUTER_Z)
}

/// What `place_terrace_rails` lays: granite on the ring of the outer 월대 a
/// course above the ground and on the ring of the inner one a course higher,
/// each open for the stair 3 either side of the axis in its south face.
pub open spec fn rails_plan(cx: int, cz: int, gy: int) -> spec_fn(int, int, int) -> Option<Block> {
    |a: int, b: int, c: int|
        if (b == gy + 2 && on_ring(a - cx, c - cz, WOLDAE_OUTER_X as int, WOLDAE_OUTER_Z as int)
            && !(c - cz == WOLDAE_OUTER_Z && iabs(a - cx) <= 3)) || (b == gy + 3 && on_ring(
            a - cx,
            c - cz,
            WOLDAE_INNER_X as int,
            WOLDAE_INNER_Z as int,
        ) && !(c - cz == WOLDAE_INNER_Z && iabs(a - cx) <= 3)) {
            Some(Block::Granite)
        } else {
            None
        }
}

/// 난간 — balustrades round both 월대 terraces, open for the stair on the
/// axis of the south face.
#[verifier::loop_isolation(false)]
pub fn place_terrace_rails(world: &mut World, cx: i32, cz: i32, gy: i32)
    requires
        old(world).wf(),
        coord(cx as int),
        coord(cz as int),
        coord(gy as int),
    ensures
        final(world).wf(),
        World::lays(*old(world), *final(world), rails_plan(cx as int, cz as int, gy as int)),
        builds_in(*old(world), *final(world), rails_area(cx as int, cz as int, gy as int)),
{
    let ghost w0 = *world;
    let ghost area = rails_area(cx as int, cz as int, gy as int);
    let ghost plan = rails_plan(cx as int, cz as int, gy as int);
    proof {
        World::lemma_lays_nothing(w0);
        World::lemma_lays_congr(w0, w0, World::nothing(), World::layers(plan, gy + 2, gy + 2));
    }
    let mut ring: i32 = 0;
    while ring < 2
        invariant
            0 <= ring <= 2,
            world.wf(),
            World::lays(w0, *world, World::layers(plan, gy + 2, gy + 2 + ring)),
        decreases 2 - ring,
    {
        let (level, rx, rz) = if ring == 0 {
            (gy + 2, WOLDAE_OUTER_X, WOLDAE_OUTER_Z)
        } else {
            (gy + 3, WOLDAE_INNER_X, WOLDAE_INNER_Z)
        };
        let ghost base = *world;
        proof {
            World::lemma_lays_nothing(base);
            World::lemma_lays_congr(base, base, World::nothing(), World::rows(plan, level as int, cx as int, cz as int, -rz as int, -rx as int));
        }
        let mut dz = -rz;
        while dz <= rz
            invariant
                0 <= ring < 2,
                -rz <= dz <= rz + 1,
                world.wf(),
                World::lays(base, *world, World::rows(plan, level as int, cx as int, cz as int, dz as int, -rx as int)),
            decreases rz + 1 - dz,
        {
            let mut dx = -rx;
            while dx <= rx
                invariant
                    0 <= ring < 2,
                    -rz <= dz <= rz,
                    -rx <= dx <= rx + 1,
                    world.wf(),
                    World::lays(base, *world, World::rows(plan, level as int, cx as int, cz as int, dz as int, dx as int)),
                decreases rx + 1 - dx,
            {
                let on_edge = abs(dx) == rx || abs(dz) == rz;
                // The stair up the south face.
                let stair = dz == rz && abs(dx) <= 3;
                if on_edge && !stair {
                    let ghost prev = *world;
                    world.set(cx + dx, level, cz + dz, Block::Granite);
                    proof {
                        World::lemma_row_set(base, prev, *world, plan, level as int, cx as int, cz as int, dz as int, dx as int, Block::Granite);
                    }
                } else {
                    proof {
                        World::lemma_row_skip(base, *world, plan, level as int, cx as int, cz as int, dz as int, dx as int);
                    }
                }
                dx = dx + 1;
            }
            proof {
                World::lemma_row_move(base, *world, plan, level as int, cx as int, cz as int, dz as int, dx as int, dz + 1, -rx as int);
            }
            dz = dz + 1;
        }
        proof {
            World::lemma_layer_done(w0, base, *world, plan, gy + 2, level as int, cx as int, cz as int, dz as int, -rx as int);
        }
        ring = ring + 1;
    }
    proof {
        assert forall|a: int, b: int, c: int| #[trigger] World::layers(plan, gy + 2, gy + 4)(a, b, c) == plan(a, b, c) by {
        }
        World::lemma_lays_congr(w0, *world, World::layers(plan, gy + 2, gy + 4), plan);
        assert(plan_within(plan, area));
        lemma_lays_builds(w0, *world, plan, area);
    }
}

/// Where `place_throne_hall` may build: the outer 월대 and everything standing
/// on it, up to the crown of the upper roof.
pub open spec fn throne_hall_area(cx: int, cz: int, gy: int) -> Area {
    (cx - WOLDAE_OUTER_X, cx + WOLDAE_OUTER_X, gy + 1, gy + 20, cz - WOLDAE_OUTER_Z, cz + WOLDAE_OUTER_Z)
}

/// What `place_throne_hall` lays, in the order it lays it: the two 월대
/// terraces and their rails, the lower storey, the timber floor inside it,
/// the throne, the lower roof, then the upper storey rising through that
/// roof and its own roof.
pub open spec fn throne_hall_plan(cx: int, cz: int, gy: int) -> spec_fn(int, int, int) -> Option<Block> {
    World::overlay(
        World::overlay(
            World::overlay(
                World::overlay(
                    World::overlay(
                        World::overlay(
                            World::overlay(
                                World::overlay(
                                    slab(cx, cz, WOLDAE_OUTER_X as int, WOLDAE_OUTER_Z as int, gy + 1, Block::Granite),
                                    slab(cx, cz, WOLDAE_INNER_X as int, WOLDAE_INNER_Z as int, gy + 2, Block::Granite),
                                ),
                                rails_plan(cx, cz, gy),
                            ),
                            storey_plan(cx, cz, 9, 6, gy + 3, 4),
                        ),
                        slab(cx, cz, 8, 5, gy + 2, Block::Wood),
                    ),
                    throne_plan(cx, cz - 2, gy + 3),
                ),
                roof_plan(cx, cz, 11, 8, gy + 8, PALACE_STEP as int, true),
            ),
            storey_plan(cx, cz, 6, 4, gy + 11, 3),
        ),
        roof_plan(cx, cz, 8, 6, gy + 15, PALACE_STEP as int, true),
    )
}

/// 근정전 — the throne hall, on two granite 월대 terraces with their rails, the
/// throne inside, and the double roof that gives it its silhouette: an upper
/// storey rising through the lower roof.
pub fn place_throne_hall(world: &mut World, cx: i32, cz: i32, gy: i32)
    requires
        old(world).wf(),
        site(cx as int),
        site(cz as int),
        site(gy as int),
    ensures
        final(world).wf(),
        World::lays(*old(world), *final(world), throne_hall_plan(cx as int, cz as int, gy as int)),
        builds_in(*old(world), *final(world), throne_hall_area(cx as int, cz as int, gy as int)),
        final(world).block_at(cx as int, gy + 5, cz - 3) == (if in_world(cx as int, gy + 5, cz - 3) { Block::RedPillar } else { Block::Air }),
{
    let ghost w0 = *world;
    let ghost area = throne_hall_area(cx as int, cz as int, gy as int);
    proof {
        lemma_start(w0, area);
        World::lemma_lays_nothing(w0);
    }
    let ghost mut acc = World::nothing();
    // 월대 — two stepped terraces, the lower broad enough to walk around.
    let ghost w1 = *world;
    terrace(world, cx, cz, WOLDAE_OUTER_X, WOLDAE_OUTER_Z, gy + 1);
    proof {
        lemma_extend(w0, w1, *world, area, (cx - WOLDAE_OUTER_X, cx + WOLDAE_OUTER_X, gy + 1, gy + 1, cz - WOLDAE_OUTER_Z, cz + WOLDAE_OUTER_Z));
        World::lemma_lays_compose(w0, w1, *world, acc, slab(cx as int, cz as int, WOLDAE_OUTER_X as int, WOLDAE_OUTER_Z as int, gy + 1, Block::Granite));
        acc = World::overlay(acc, slab(cx as int, cz as int, WOLDAE_OUTER_X as int, WOLDAE_OUTER_Z as int, gy + 1, Block::Granite));
    }
    let ghost w1 = *world;
    terrace(world, cx, cz, WOLDAE_INNER_X, WOLDAE_INNER_Z, gy + 2);
    proof {
        lemma_extend(w0, w1, *world, area, (cx - WOLDAE_INNER_X, cx + WOLDAE_INNER_X, gy + 2, gy + 2, cz - WOLDAE_INNER_Z, cz + WOLDAE_INNER_Z));
        World::lemma_lays_compose(w0, w1, *world, acc, slab(cx as int, cz as int, WOLDAE_INNER_X as int, WOLDAE_INNER_Z as int, gy + 2, Block::Granite));
        acc = World::overlay(acc, slab(cx as int, cz as int, WOLDAE_INNER_X as int, WOLDAE_INNER_Z as int, gy + 2, Block::Granite));
    }
    let ghost w1 = *world;
    place_terrace_rails(world, cx, cz, gy);
    proof {
        lemma_extend(w0, w1, *world, area, rails_area(cx as int, cz as int, gy as int));
        World::lemma_lays_compose(w0, w1, *world, acc, rails_plan(cx as int, cz as int, gy as int));
        acc = World::overlay(acc, rails_plan(cx as int, cz as int, gy as int));
    }

    let floor = gy + 3;
    // Lower storey: a colonnade of red pillars with plaster and paper between.
    let ghost w1 = *world;
    hall_storey(world, cx, cz, 9, 6, floor, 4);
    proof {
        lemma_extend(w0, w1, *world, area, storey_area(cx as int, cz as int, 9, 6, floor as int, 4));
        World::lemma_lays_compose(w0, w1, *world, acc, storey_plan(cx as int, cz as int, 9, 6, floor as int, 4));
        acc = World::overlay(acc, storey_plan(cx as int, cz as int, 9, 6, floor as int, 4));
    }
    let ghost w1 = *world;
    lay_hall_floor(world, cx, cz, 9, 6, floor - 1);
    proof {
        lemma_extend(w0, w1, *world, area, (cx - 8, cx + 8, floor - 1, floor - 1, cz - 5, cz + 5));
        World::lemma_lays_compose(w0, w1, *world, acc, slab(cx as int, cz as int, 8, 5, floor - 1, Block::Wood));
        acc = World::overlay(acc, slab(cx as int, cz as int, 8, 5, floor - 1, Block::Wood));
    }
    let ghost w1 = *world;
    place_throne(world, cx, cz - 2, floor);
    proof {
        lemma_extend(w0, w1, *world, area, throne_area(cx as int, cz - 2, floor as int));
        World::lemma_lays_compose(w0, w1, *world, acc, throne_plan(cx as int, cz - 2, floor as int));
        acc = World::overlay(acc, throne_plan(cx as int, cz - 2, floor as int));
    }
    let ghost throned = *world;
    let lower_beam = floor + 4;
    let ghost w1 = *world;
    lay_roof(world, cx, cz, 9, 6, lower_beam + 1, 2, PALACE_STEP, true);
    proof {
        lemma_extend(w0, w1, *world, area, (cx - 11, cx + 11, lower_beam + 1, lower_beam + 1 + roof_courses(11, 8, PALACE_STEP as int) + 1, cz - 8, cz + 8));
        World::lemma_lays_compose(w0, w1, *world, acc, roof_plan(cx as int, cz as int, 11, 8, lower_beam + 1, PALACE_STEP as int, true));
        acc = World::overlay(acc, roof_plan(cx as int, cz as int, 11, 8, lower_beam + 1, PALACE_STEP as int, true));
    }

    // Upper storey rising through the lower roof — the 중층 that makes 근정전
    // read as a throne hall rather than a large shed.
    let upper_floor = lower_beam + 4;
    let ghost w1 = *world;
    hall_storey(world, cx, cz, 6, 4, upper_floor, 3);
    proof {
        lemma_extend(w0, w1, *world, area, storey_area(cx as int, cz as int, 6, 4, upper_floor as int, 3));
        World::lemma_lays_compose(w0, w1, *world, acc, storey_plan(cx as int, cz as int, 6, 4, upper_floor as int, 3));
        acc = World::overlay(acc, storey_plan(cx as int, cz as int, 6, 4, upper_floor as int, 3));
    }
    let upper_beam = upper_floor + 3;
    let ghost w1 = *world;
    lay_roof(world, cx, cz, 6, 4, upper_beam + 1, 2, PALACE_STEP, true);
    proof {
        lemma_extend(w0, w1, *world, area, (cx - 8, cx + 8, upper_beam + 1, upper_beam + 1 + roof_courses(8, 6, PALACE_STEP as int) + 1, cz - 6, cz + 6));
        World::lemma_lays_compose(w0, w1, *world, acc, roof_plan(cx as int, cz as int, 8, 6, upper_beam + 1, PALACE_STEP as int, true));
        acc = World::overlay(acc, roof_plan(cx as int, cz as int, 8, 6, upper_beam + 1, PALACE_STEP as int, true));
        World::lemma_lays_congr(w0, *world, acc, throne_hall_plan(cx as int, cz as int, gy as int));
        // Everything after the throne was laid at or above its roof's first
        // course, clear of the seat two blocks over the floor.
        assert(world.block_at(cx as int, gy + 5, cz - 3) == throned.block_at(cx as int, gy + 5, cz - 3));
    }
}

/// Where `cross_wall` may build.
pub open spec fn cross_wall_area(cx: int, cz: int, gy: int) -> Area {
    (cx - INNER_X, cx + INNER_X, gy + 1, gy + 4, cz, cz)
}

/// What `cross_wall` lays: along the run of half-length `INNER_X` through
/// `(cx, cz)` along X, a granite footing and two courses of plaster but in
/// the gateway three wide on the axis, and the tiled coping right across.
pub open spec fn cross_wall_plan(cx: int, cz: int, gy: int) -> spec_fn(int, int, int) -> Option<Block> {
    |a: int, b: int, c: int|
        if c == cz && iabs(a - cx) <= INNER_X {
            if b == gy + 1 && iabs(a - cx) > 1 {
                Some(Block::Granite)
            } else if gy + 2 <= b <= gy + 3 && iabs(a - cx) > 1 {
                Some(Block::Plaster)
            } else if b == gy + 4 {
                Some(Block::RoofTile)
            } else {
                None
            }
        } else {
            None
        }
}

/// A cross wall dividing one yard from the next, with a gateway on the axis;
/// the coping is carried over the gateway so the wall reads as continuous.
#[verifier::loop_isolation(false)]
pub fn cross_wall(world: &mut World, cx: i32, cz: i32, gy: i32)
    requires
        old(world).wf(),
        coord(cx as int),
        coord(cz as int),
        coord(gy as int),
    ensures
        final(world).wf(),
        World::lays(*old(world), *final(world), cross_wall_plan(cx as int, cz as int, gy as int)),
        builds_in(*old(world), *final(world), cross_wall_area(cx as int, cz as int, gy as int)),
{
    let ghost w0 = *world;
    let ghost area = cross_wall_area(cx as int, cz as int, gy as int);
    let ghost plan = cross_wall_plan(cx as int, cz as int, gy as int);
    proof {
        World::lemma_columns_start(w0, plan, cx as int, cz as int, 0, -INNER_X as int);
    }
    let mut dx = -INNER_X;
    while dx <= INNER_X
        invariant
            -INNER_X <= dx <= INNER_X + 1,
            world.wf(),
            World::lays(w0, *world, World::columns(plan, cx as int, cz as int, 0, dx as int)),
        decreases INNER_X + 1 - dx,
    {
        let x = cx + dx;
        let solid = abs(dx) > 1;
        let ghost w1 = *world;
        fill_column(world, x, cz, gy + 1, if solid { gy + 1 } else { gy }, Block::Granite);
        let ghost w2 = *world;
        fill_column(world, x, cz, gy + 2, if solid { gy + 3 } else { gy + 1 }, Block::Plaster);
        let ghost w3 = *world;
        world.set(x, gy + 4, cz, Block::RoofTile);
        proof {
            let c1 = column_range(x as int, cz as int, gy + 1, if solid { gy + 1 } else { gy as int }, Block::Granite);
            let c2 = column_range(x as int, cz as int, gy + 2, if solid { gy + 3 } else { gy + 1 }, Block::Plaster);
            let c3 = World::single(x as int, gy + 4, cz as int, Block::RoofTile);
            World::lemma_lays_single(w3, *world, x as int, gy + 4, cz as int, Block::RoofTile);
            World::lemma_lays_compose(w1, w2, w3, c1, c2);
            World::lemma_lays_compose(w1, w3, *world, World::overlay(c1, c2), c3);
            World::lemma_column_step(w0, w1, *world, plan, World::overlay(World::overlay(c1, c2), c3), cx as int, cz as int, 0, dx as int);
        }
        dx = dx + 1;
    }
    proof {
        World::lemma_columns_finish(w0, *world, plan, cx as int, cz as int, 0, dx as int);
        assert(plan_within(plan, area));
        lemma_lays_builds(w0, *world, plan, area);
    }
}

/// Where `place_inner_quarters` may build.
pub open spec fn inner_quarters_area(cx: int, cz: int, gy: int) -> Area {
    (cx - INNER_X, cx + INNER_X, gy + 1, gy + 16, cz + GYOTAE_Z - 7, cz + SAJEONG_Z + 12)
}

/// The columns through the centres of 사정전, 강녕전 and 교태전 agree in `a`
/// and `b` above their beams.
pub open spec fn halls_same(a: World, b: World, cx: int, cz: int, gy: int) -> bool {
    &&& column_same_above(a, b, cx, cz + SAJEONG_Z, gy + 6)
    &&& column_same_above(a, b, cx, cz + GANGNYEONG_Z, gy + 6)
    &&& column_same_above(a, b, cx, cz + GYOTAE_Z, gy + 6)
}

/// A building confined to a box that misses those three columns keeps them
/// as they were.
pub proof fn lemma_halls_kept(s: World, a: World, b: World, area: Area, cx: int, cz: int, gy: int)
    requires
        halls_same(s, a, cx, cz, gy),
        builds_in(a, b, area),
        misses(area, cx, cz + SAJEONG_Z, gy + 6),
        misses(area, cx, cz + GANGNYEONG_Z, gy + 6),
        misses(area, cx, cz + GYOTAE_Z, gy + 6),
    ensures
        halls_same(s, b, cx, cz, gy),
{
    lemma_column_untouched(a, b, area, cx, cz + SAJEONG_Z, gy + 6);
    lemma_column_untouched(a, b, area, cx, cz + GANGNYEONG_Z, gy + 6);
    lemma_column_untouched(a, b, area, cx, cz + GYOTAE_Z, gy + 6);
    assert forall|y: int| y > gy + 6 implies #[trigger] b.block_at(cx, y, cz + SAJEONG_Z) == s.block_at(cx, y, cz + SAJEONG_Z) by {
        assert(b.block_at(cx, y, cz + SAJEONG_Z) == a.block_at(cx, y, cz + SAJEONG_Z));
    }
    assert forall|y: int| y > gy + 6 implies #[trigger] b.block_at(cx, y, cz + GANGNYEONG_Z) == s.block_at(cx, y, cz + GANGNYEONG_Z) by {
        assert(b.block_at(cx, y, cz + GANGNYEONG_Z) == a.block_at(cx, y, cz + GANGNYEONG_Z));
    }
    assert forall|y: int| y > gy + 6 implies #[trigger] b.block_at(cx, y, cz + GYOTAE_Z) == s.block_at(cx, y, cz + GYOTAE_Z) by {
        assert(b.block_at(cx, y, cz + GYOTAE_Z) == a.block_at(cx, y, cz + GYOTAE_Z));
    }
}

/// The sequence of halls north of the throne hall, each behind its own cross
/// wall: 사정전, where the king held council (ridged, a hall of state), then
/// 강녕전 and 교태전, where he and the queen slept (무량각, without a ridge),
/// and 아미산 terraced behind the queen's hall, climbing a course a row.
#[verifier::loop_isolation(false)]
pub fn place_inner_quarters(world: &mut World, cx: i32, cz: i32, gy: i32)
    requires
        old(world).wf(),
        plot(cx as int),
        plot(cz as int),
        plot(gy as int),
    ensures
        final(world).wf(),
        World::lays(*old(world), *final(world), inner_quarters_plan(cx as int, cz as int, gy as int)),
        builds_in(*old(world), *final(world), inner_quarters_area(cx as int, cz as int, gy as int)),
        crowned(*old(world), *final(world), cx as int, cz + SAJEONG_Z, residence_crown(gy as int, 7, 4), gy + 12, Block::RoofRidge),
        crowned(*old(world), *final(world), cx as int, cz + GANGNYEONG_Z, residence_crown(gy as int, 8, 4), gy + 12, Block::RoofTile),
        crowned(*old(world), *final(world), cx as int, cz + GYOTAE_Z, residence_crown(gy as int, 7, 4), gy + 12, Block::RoofTile),
{
    let ghost w0 = *world;
    let ghost area = inner_quarters_area(cx as int, cz as int, gy as int);
    let ghost lo = gy + 6;
    let ghost (zs, zg, zy) = (cz + SAJEONG_Z, cz + GANGNYEONG_Z, cz + GYOTAE_Z);
    proof {
        lemma_start(w0, area);
    }
    cross_wall(world, cx, cz + SAJEONG_Z + 12, gy);
    let ghost before_s = *world;
    proof {
        let a = cross_wall_area(cx as int, cz + SAJEONG_Z + 12, gy as int);
        lemma_extend(w0, w0, before_s, area, a);
        lemma_column_untouched(w0, before_s, a, cx as int, zs, lo);
        lemma_column_untouched(w0, before_s, a, cx as int, zg, lo);
        lemma_column_untouched(w0, before_s, a, cx as int, zy, lo);
    }
    place_residence(world, cx, cz + SAJEONG_Z, gy, 7, 4, true);
    let ghost after_s = *world;
    proof {
        let a = residence_area(cx as int, cz + SAJEONG_Z, gy as int, 7, 4);
        lemma_extend(w0, before_s, after_s, area, a);
        lemma_column_untouched(before_s, after_s, a, cx as int, zg, lo);
        lemma_column_untouched(before_s, after_s, a, cx as int, zy, lo);
    }
    cross_wall(world, cx, cz + GANGNYEONG_Z + 8, gy);
    let ghost before_g = *world;
    proof {
        let a = cross_wall_area(cx as int, cz + GANGNYEONG_Z + 8, gy as int);
        lemma_extend(w0, after_s, before_g, area, a);
        lemma_column_untouched(after_s, before_g, a, cx as int, zs, lo);
        lemma_column_untouched(after_s, before_g, a, cx as int, zg, lo);
        lemma_column_untouched(after_s, before_g, a, cx as int, zy, lo);
    }
    place_residence(world, cx, cz + GANGNYEONG_Z, gy, 8, 4, false);
    let ghost after_g = *world;
    proof {
        let a = residence_area(cx as int, cz + GANGNYEONG_Z, gy as int, 8, 4);
        lemma_extend(w0, before_g, after_g, area, a);
        lemma_column_untouched(before_g, after_g, a, cx as int, zs, lo);
        lemma_column_untouched(before_g, after_g, a, cx as int, zy, lo);
    }
    cross_wall(world, cx, cz + GYOTAE_Z + 8, gy);
    let ghost before_y = *world;
    proof {
        let a = cross_wall_area(cx as int, cz + GYOTAE_Z + 8, gy as int);
        lemma_extend(w0, after_g, before_y, area, a);
        lemma_column_untouched(after_g, before_y, a, cx as int, zs, lo);
        lemma_column_untouched(after_g, before_y, a, cx as int, zg, lo);
        lemma_column_untouched(after_g, before_y, a, cx as int, zy, lo);
    }
    place_residence(world, cx, cz + GYOTAE_Z, gy, 7, 4, false);
    let ghost after_y = *world;
    let ghost garden = (cx - 12, cx + 12, gy + 1, gy + 4, cz + GYOTAE_Z - 7, cz + GYOTAE_Z - 4);
    proof {
        let a = residence_area(cx as int, cz + GYOTAE_Z, gy as int, 7, 4);
        lemma_extend(w0, before_y, after_y, area, a);
        lemma_column_untouched(before_y, after_y, a, cx as int, zs, lo);
        lemma_column_untouched(before_y, after_y, a, cx as int, zg, lo);
    }

    // 아미산 — each step is both further north and one course higher, so the
    // ground climbs away from the hall towards the back wall.
    raise_amisan(world, cx, cz, gy);
    proof {
        lemma_column_untouched(after_y, *world, garden, cx as int, zs, lo);
        lemma_column_untouched(after_y, *world, garden, cx as int, zg, lo);
        lemma_column_untouched(after_y, *world, garden, cx as int, zy, lo);
        let wf = *world;
        assert forall|y: int| y > lo implies #[trigger] wf.block_at(cx as int, y, zs) == after_s.block_at(cx as int, y, zs) by {
            assert(wf.block_at(cx as int, y, zs) == after_y.block_at(cx as int, y, zs));
            assert(after_y.block_at(cx as int, y, zs) == before_y.block_at(cx as int, y, zs));
            assert(before_y.block_at(cx as int, y, zs) == after_g.block_at(cx as int, y, zs));
            assert(after_g.block_at(cx as int, y, zs) == before_g.block_at(cx as int, y, zs));
            assert(before_g.block_at(cx as int, y, zs) == after_s.block_at(cx as int, y, zs));
        }
        assert forall|y: int| y > lo implies #[trigger] wf.block_at(cx as int, y, zg) == after_g.block_at(cx as int, y, zg) by {
            assert(wf.block_at(cx as int, y, zg) == after_y.block_at(cx as int, y, zg));
            assert(after_y.block_at(cx as int, y, zg) == before_y.block_at(cx as int, y, zg));
            assert(before_y.block_at(cx as int, y, zg) == after_g.block_at(cx as int, y, zg));
        }
        assert forall|y: int| y > lo implies #[trigger] before_g.block_at(cx as int, y, zg) == w0.block_at(cx as int, y, zg) by {
            assert(before_g.block_at(cx as int, y, zg) == after_s.block_at(cx as int, y, zg));
            assert(after_s.block_at(cx as int, y, zg) == before_s.block_at(cx as int, y, zg));
            assert(before_s.block_at(cx as int, y, zg) == w0.block_at(cx as int, y, zg));
        }
        assert forall|y: int| y > lo implies #[trigger] before_y.block_at(cx as int, y, zy) == w0.block_at(cx as int, y, zy) by {
            assert(before_y.block_at(cx as int, y, zy) == after_g.block_at(cx as int, y, zy));
            assert(after_g.block_at(cx as int, y, zy) == before_g.block_at(cx as int, y, zy));
            assert(before_g.block_at(cx as int, y, zy) == after_s.block_at(cx as int, y, zy));
            assert(after_s.block_at(cx as int, y, zy) == before_s.block_at(cx as int, y, zy));
            assert(before_s.block_at(cx as int, y, zy) == w0.block_at(cx as int, y, zy));
        }
        assert(residence_crown(gy as int, 7, 4) > lo);
        assert(residence_crown(gy as int, 8, 4) > lo);
        lemma_crown_kept(w0, before_s, after_s, wf, cx as int, zs, residence_crown(gy as int, 7, 4), lo, gy + 12, Block::RoofRidge);
        lemma_crown_kept(w0, before_g, after_g, wf, cx as int, zg, residence_crown(gy as int, 8, 4), lo, gy + 12, Block::RoofTile);
        lemma_crown_kept(w0, before_y, after_y, wf, cx as int, zy, residence_crown(gy as int, 7, 4), lo, gy + 12, Block::RoofTile);
        lemma_extend(w0, after_y, wf, area, garden);
        let p1 = cross_wall_plan(cx as int, zs + 12, gy as int);
        let p2 = residence_plan(cx as int, zs, gy as int, 7, 4, true);
        let p3 = cross_wall_plan(cx as int, zg + 8, gy as int);
        let p4 = residence_plan(cx as int, zg, gy as int, 8, 4, false);
        let p5 = cross_wall_plan(cx as int, zy + 8, gy as int);
        let p6 = residence_plan(cx as int, zy, gy as int, 7, 4, false);
        let p7 = amisan_plan(cx as int, cz as int, gy as int);
        World::lemma_lays_compose(w0, before_s, after_s, p1, p2);
        World::lemma_lays_compose(w0, after_s, before_g, World::overlay(p1, p2), p3);
        World::lemma_lays_compose(w0, before_g, after_g, World::overlay(World::overlay(p1, p2), p3), p4);
        World::lemma_lays_compose(w0, after_g, before_y, World::overlay(World::overlay(World::overlay(p1, p2), p3), p4), p5);
        World::lemma_lays_compose(w0, before_y, after_y, World::overlay(World::overlay(World::overlay(World::overlay(p1, p2), p3), p4), p5), p6);
        World::lemma_lays_compose(w0, after_y, wf, World::overlay(World::overlay(World::overlay(World::overlay(World::overlay(p1, p2), p3), p4), p5), p6), p7);
    }
}

/// 아미산 — the terraced garden behind 교태전: four steps, 25 wide, each a
/// block further north and a course higher than the one before, from four
/// north of the hall's centre.
pub open spec fn amisan_plan(cx: int, cz: int, gy: int) -> spec_fn(int, int, int) -> Option<Block> {
    |a: int, b: int, c: int|
        if 0 <= cz + GYOTAE_Z - 4 - c <= 3 && iabs(a - cx) <= 12 && gy + 1 <= b <= gy + 1 + (cz + GYOTAE_Z - 4 - c) {
            Some(Block::Granite)
        } else {
            None
        }
}

/// What `place_inner_quarters` lays, in the order it lays it: for each of
/// 사정전, 강녕전 and 교태전 in turn the cross wall before it and the hall,
/// then 아미산.
pub open spec fn inner_quarters_plan(cx: int, cz: int, gy: int) -> spec_fn(int, int, int) -> Option<Block> {
    World::overlay(
        World::overlay(
            World::overlay(
                World::overlay(
                    World::overlay(
                        World::overlay(cross_wall_plan(cx, cz + SAJEONG_Z + 12, gy), residence_plan(cx, cz + SAJEONG_Z, gy, 7, 4, true)),
                        cross_wall_plan(cx, cz + GANGNYEONG_Z + 8, gy),
                    ),
                    residence_plan(cx, cz + GANGNYEONG_Z, gy, 8, 4, false),
                ),
                cross_wall_plan(cx, cz + GYOTAE_Z + 8, gy),
            ),
            residence_plan(cx, cz + GYOTAE_Z, gy, 7, 4, false),
        ),
        amisan_plan(cx, cz, gy),
    )
}

/// Raise 아미산, from its northmost, highest step forward.
#[verifier::loop_isolation(false)]
fn raise_amisan(world: &mut World, cx: i32, cz: i32, gy: i32)
    requires
        old(world).wf(),
        plot(cx as int),
        plot(cz as int),
        plot(gy as int),
    ensures
        final(world).wf(),
        World::lays(*old(world), *final(world), amisan_plan(cx as int, cz as int, gy as int)),
        builds_in(*old(world), *final(world), (cx - 12, cx + 12, gy + 1, gy + 4, cz + GYOTAE_Z - 7, cz + GYOTAE_Z - 4)),
{
    let ghost w0 = *world;
    let ghost plan = amisan_plan(cx as int, cz as int, gy as int);
    proof {
        World::lemma_columns_start(w0, plan, cx as int, cz as int, GYOTAE_Z - 7, -12);
    }
    let mut step: i32 = 4;
    while step > 0
        invariant
            0 <= step <= 4,
            world.wf(),
            World::lays(w0, *world, World::columns(plan, cx as int, cz as int, GYOTAE_Z - 3 - step, -12)),
        decreases step,
    {
        step = step - 1;
        let dz = GYOTAE_Z - 4 - step;
        let mut dx: i32 = -12;
        while dx <= 12
            invariant
                0 <= step < 4,
                -12 <= dx <= 13,
                dz == GYOTAE_Z - 4 - step,
                world.wf(),
                World::lays(w0, *world, World::columns(plan, cx as int, cz as int, dz as int, dx as int)),
            decreases 13 - dx,
        {
            let ghost w1 = *world;
            fill_column(world, cx + dx, cz + dz, gy + 1, gy + 1 + step, Block::Granite);
            proof {
                World::lemma_column_step(w0, w1, *world, plan, column_range(cx + dx, cz + dz, gy + 1, gy + 1 + step, Block::Granite), cx as int, cz as int, dz as int, dx as int);
            }
            dx = dx + 1;
        }
        proof {
            World::lemma_column_move(w0, *world, plan, cx as int, cz as int, dz as int, dx as int, GYOTAE_Z - 3 - step, -12);
        }
    }
    proof {
        World::lemma_columns_finish(w0, *world, plan, cx as int, cz as int, GYOTAE_Z - 3 - step, -12);
        assert(plan_within(plan, (cx - 12, cx + 12, gy + 1, gy + 4, cz + GYOTAE_Z - 7, cz + GYOTAE_Z - 4)));
        lemma_lays_builds(w0, *world, plan, (cx - 12, cx + 12, gy + 1, gy + 4, cz + GYOTAE_Z - 7, cz + GYOTAE_Z - 4));
    }
}

/// Where `place_jagyeongjeon` may build.
pub open spec fn jagyeongjeon_area(cx: int, cz: int, gy: int) -> Area {
    (cx - 7, cx + 7, gy + 1, gy + 16, cz - 11, cz + 11)
}

/// The 십장생 chimney of 자경전: clay six courses up, a painted course, and a
/// tiled cap, in the yard nine north of the centre.
pub open spec fn chimney_plan(cx: int, cz: int, gy: int) -> spec_fn(int, int, int) -> Option<Block> {
    |a: int, b: int, c: int|
        if a == cx && c == cz - 9 {
            if gy + 1 <= b <= gy + 6 {
                Some(Block::ClayWall)
            } else if b == gy + 7 {
                Some(Block::Dancheong)
            } else if b == gy + 8 {
                Some(Block::RoofTile)
            } else {
                None
            }
        } else {
            None
        }
}

/// What `place_jagyeongjeon` lays: its flowered compound wall, the hall,
/// and the chimney.
pub open spec fn jagyeongjeon_plan(cx: int, cz: int, gy: int) -> spec_fn(int, int, int) -> Option<Block> {
    World::overlay(
        World::overlay(compound_wall_plan(cx, cz, gy, 7, 11, true), residence_plan(cx, cz, gy, 5, 4, true)),
        chimney_plan(cx, cz, gy),
    )
}

/// 자경전 in its own walled compound, its south wall the painted 꽃담, with
/// the tall 십장생 chimney standing in the yard behind the hall.
pub fn place_jagyeongjeon(world: &mut World, cx: i32, cz: i32, gy: i32)
    requires
        old(world).wf(),
        plot(cx as int),
        plot(cz as int),
        plot(gy as int),
    ensures
        final(world).wf(),
        World::lays(*old(world), *final(world), jagyeongjeon_plan(cx as int, cz as int, gy as int)),
        builds_in(*old(world), *final(world), jagyeongjeon_area(cx as int, cz as int, gy as int)),
{
    let ghost w0 = *world;
    let ghost area = jagyeongjeon_area(cx as int, cz as int, gy as int);
    proof {
        lemma_start(w0, area);
    }
    compound_wall(world, cx, cz, gy, 7, 11, true);
    let ghost w1 = *world;
    proof { lemma_extend(w0, w0, w1, area, compound_wall_area(cx as int, cz as int, gy as int, 7, 11)); }
    place_residence(world, cx, cz, gy, 5, 4, true);
    let ghost w2 = *world;
    proof { lemma_extend(w0, w1, w2, area, residence_area(cx as int, cz as int, gy as int, 5, 4)); }

    // 십장생 굴뚝 — the decorated chimney in the yard behind.
    let chimney_z = cz - 9;
    fill_column(world, cx, chimney_z, gy + 1, gy + 6, Block::ClayWall);
    let ghost w3 = *world;
    world.set(cx, gy + 7, chimney_z, Block::Dancheong);
    let ghost w4 = *world;
    world.set(cx, gy + 8, chimney_z, Block::RoofTile);
    proof {
        let c1 = column_range(cx as int, chimney_z as int, gy + 1, gy + 6, Block::ClayWall);
        let c2 = World::single(cx as int, gy + 7, chimney_z as int, Block::Dancheong);
        let c3 = World::single(cx as int, gy + 8, chimney_z as int, Block::RoofTile);
        World::lemma_lays_single(w3, w4, cx as int, gy + 7, chimney_z as int, Block::Dancheong);
        World::lemma_lays_single(w4, *world, cx as int, gy + 8, chimney_z as int, Block::RoofTile);
        World::lemma_lays_compose(w2, w3, w4, c1, c2);
        World::lemma_lays_compose(w2, w4, *world, World::overlay(c1, c2), c3);
        World::lemma_lays_congr(w2, *world, World::overlay(World::overlay(c1, c2), c3), chimney_plan(cx as int, cz as int, gy as int));
        assert(plan_within(chimney_plan(cx as int, cz as int, gy as int), area));
        lemma_lays_builds(w2, *world, chimney_plan(cx as int, cz as int, gy as int), area);
        lemma_extend(w0, w2, *world, area, area);
        let p1 = compound_wall_plan(cx as int, cz as int, gy as int, 7, 11, true);
        let p2 = residence_plan(cx as int, cz as int, gy as int, 5, 4, true);
        World::lemma_lays_compose(w0, w1, w2, p1, p2);
        World::lemma_lays_compose(w0, w2, *world, World::overlay(p1, p2), chimney_plan(cx as int, cz as int, gy as int));
    }
}

/// Where `cloister_run` may build: the walkway either side of the run's line
/// and its roof, one block wider.
pub open spec fn cloister_run_area(cx: int, cz: int, half_len: int, along_x: bool, gy: int) -> Area {
    let ex = if along_x { half_len + 1 } else { 2 };
    let ez = if along_x { 2 } else { half_len + 1 };
    (cx - ex, cx + ex, gy + 1, gy + 10, cz - ez, cz + ez)
}

/// Where `lay_cloister` may build: the four runs round the court.
pub open spec fn cloister_area(cx: int, cz: int, gy: int) -> Area {
    (cx - COURT_X - 2, cx + COURT_X + 2, gy + 1, gy + 10, cz - COURT_Z - 2, cz + COURT_Z + 2)
}

/// What `lay_cloister` lays: the north run, the west run, the south run and
/// the east run, in that order.
pub open spec fn cloister_plan(cx: int, cz: int, gy: int) -> spec_fn(int, int, int) -> Option<Block> {
    World::overlay(
        World::overlay(
            World::overlay(
                cloister_run_plan(cx, cz - COURT_Z, COURT_X as int, true, 1, gy),
                cloister_run_plan(cx - COURT_X, cz, COURT_Z as int, false, 1, gy),
            ),
            cloister_run_plan(cx, cz + COURT_Z, COURT_X as int, true, -1, gy),
        ),
        cloister_run_plan(cx + COURT_X, cz, COURT_Z as int, false, -1, gy),
    )
}

/// Run 회랑 around all four sides of the court.
pub fn lay_cloister(world: &mut World, cx: i32, cz: i32, gy: i32)
    requires
        old(world).wf(),
        plot(cx as int),
        plot(cz as int),
        plot(gy as int),
    ensures
        final(world).wf(),
        World::lays(*old(world), *final(world), cloister_plan(cx as int, cz as int, gy as int)),
        builds_in(*old(world), *final(world), cloister_area(cx as int, cz as int, gy as int)),
{
    let ghost w0 = *world;
    let ghost area = cloister_area(cx as int, cz as int, gy as int);
    let ghost n = cloister_run_plan(cx as int, cz - COURT_Z, COURT_X as int, true, 1, gy as int);
    let ghost wr = cloister_run_plan(cx - COURT_X, cz as int, COURT_Z as int, false, 1, gy as int);
    let ghost sr = cloister_run_plan(cx as int, cz + COURT_Z, COURT_X as int, true, -1, gy as int);
    let ghost er = cloister_run_plan(cx + COURT_X, cz as int, COURT_Z as int, false, -1, gy as int);
    proof {
        lemma_start(w0, area);
        World::lemma_lays_nothing(w0);
    }
    let mut side: i32 = -1;
    while side <= 1
        invariant
            side == -1 || side == 1 || side == 3,
            plot(cx as int),
            plot(cz as int),
            plot(gy as int),
            area == cloister_area(cx as int, cz as int, gy as int),
            n == cloister_run_plan(cx as int, cz - COURT_Z, COURT_X as int, true, 1, gy as int),
            wr == cloister_run_plan(cx - COURT_X, cz as int, COURT_Z as int, false, 1, gy as int),
            sr == cloister_run_plan(cx as int, cz + COURT_Z, COURT_X as int, true, -1, gy as int),
            er == cloister_run_plan(cx + COURT_X, cz as int, COURT_Z as int, false, -1, gy as int),
            world.wf(),
            builds_in(w0, *world, area),
            World::lays(
                w0,
                *world,
                if side == -1 {
                    World::nothing()
                } else if side == 1 {
                    World::overlay(World::overlay(World::nothing(), n), wr)
                } else {
                    World::overlay(World::overlay(World::overlay(World::overlay(World::nothing(), n), wr), sr), er)
                },
            ),
        decreases 3 - side,
    {
        let ghost before = if side == -1 { World::nothing() } else { World::overlay(World::overlay(World::nothing(), n), wr) };
        let ghost w1 = *world;
        cloister_run(world, cx, cz + side * COURT_Z, COURT_X, true, -side, gy);
        let ghost w2 = *world;
        proof { lemma_extend(w0, w1, w2, area, cloister_run_area(cx as int, cz + side * COURT_Z, COURT_X as int, true, gy as int)); }
        cloister_run(world, cx + side * COURT_X, cz, COURT_Z, false, -side, gy);
        proof {
            lemma_extend(w0, w2, *world, area, cloister_run_area(cx + side * COURT_X, cz as int, COURT_Z as int, false, gy as int));
            let p = cloister_run_plan(cx as int, cz + side * COURT_Z, COURT_X as int, true, -side as int, gy as int);
            let q = cloister_run_plan(cx + side * COURT_X, cz as int, COURT_Z as int, false, -side as int, gy as int);
            World::lemma_lays_compose(w0, w1, w2, before, p);
            World::lemma_lays_compose(w0, w2, *world, World::overlay(before, p), q);
        }
        side = side + 2;
    }
    proof {
        World::lemma_lays_congr(
            w0,
            *world,
            World::overlay(World::overlay(World::overlay(World::overlay(World::nothing(), n), wr), sr), er),
            cloister_plan(cx as int, cz as int, gy as int),
        );
    }
}

/// One run of cloister, column by column, in offsets `t` along it and `w`
/// across it: a granite walkway three wide, the air cleared seven over it;
/// on the outer face (away from `inward`) walls three high, red posts every
/// third bay and plaster between; on the court face the posts alone; and the
/// painted beam over both faces.
pub open spec fn cloister_body_plan(cx: int, cz: int, half_len: int, along_x: bool, inward: int, gy: int) -> spec_fn(int, int, int) -> Option<Block> {
    |a: int, b: int, c: int|
        if iabs(World::along(along_x, cx, cz, a, c)) <= half_len && iabs(World::across(along_x, cx, cz, a, c)) <= 1 {
            let t = World::along(along_x, cx, cz, a, c);
            let w = World::across(along_x, cx, cz, a, c);
            let post = t % 3 == 0;
            if b == gy + 1 {
                Some(Block::Granite)
            } else if gy + 2 <= b <= gy + 4 && w == -inward {
                Some(if post { Block::RedPillar } else { Block::Plaster })
            } else if gy + 2 <= b <= gy + 4 && w == inward && post {
                Some(Block::RedPillar)
            } else if b == gy + 5 && iabs(w) == 1 {
                Some(Block::Dancheong)
            } else if gy + 2 <= b <= gy + 8 {
                Some(Block::Air)
            } else {
                None
            }
        } else {
            None
        }
}

/// What `cloister_run` lays: its body, then the one roof over the run.
pub open spec fn cloister_run_plan(cx: int, cz: int, half_len: int, along_x: bool, inward: int, gy: int) -> spec_fn(int, int, int) -> Option<Block> {
    let (bx, bz) = if along_x { (half_len, 1int) } else { (1int, half_len) };
    World::overlay(cloister_body_plan(cx, cz, half_len, along_x, inward, gy), roof_plan(cx, cz, bx + 1, bz + 1, gy + CLOISTER_H + 3, 1, true))
}

/// Lay the body of one run of cloister, column by column.
#[verifier::loop_isolation(false)]
fn cloister_body(world: &mut World, cx: i32, cz: i32, half_len: i32, along_x: bool, inward: i32, gy: i32)
    requires
        old(world).wf(),
        site(cx as int),
        site(cz as int),
        site(gy as int),
        1 <= half_len <= 500,
        inward == -1 || inward == 1,
    ensures
        final(world).wf(),
        World::lays(*old(world), *final(world), cloister_body_plan(cx as int, cz as int, half_len as int, along_x, inward as int, gy as int)),
{
    let ghost w0 = *world;
    let ghost plan = cloister_body_plan(cx as int, cz as int, half_len as int, along_x, inward as int, gy as int);
    proof {
        World::lemma_run_start(w0, plan, along_x, cx as int, cz as int, -half_len as int, -1);
    }
    let mut t = -half_len;
    while t <= half_len
        invariant
            -half_len <= t <= half_len + 1,
            world.wf(),
            World::lays(w0, *world, World::run_scan(plan, along_x, cx as int, cz as int, t as int, -1)),
        decreases half_len + 1 - t,
    {
        let post = rem_euclid(t, 3) == 0;
        let mut w: i32 = -1;
        while w <= 1
            invariant
                -half_len <= t <= half_len,
                -1 <= w <= 2,
                world.wf(),
                World::lays(w0, *world, World::run_scan(plan, along_x, cx as int, cz as int, t as int, w as int)),
            decreases 2 - w,
        {
            let (x, z) = super::gate::run_cell(along_x, cx, cz, t, w);
            let ghost w1 = *world;
            world.set(x, gy + 1, z, Block::Granite);
            let ghost w2 = *world;
            fill_column(world, x, z, gy + 2, gy + CLOISTER_H + 5, Block::Air);
            let ghost w3 = *world;
            // Posts every third bay: the outer face walled between them, the
            // court face left open.
            let outer = w == -inward;
            let inner = w == inward && post;
            let face_top = if outer || inner { gy + CLOISTER_H + 1 } else { gy + 1 };
            fill_column(world, x, z, gy + 2, face_top, if post { Block::RedPillar } else { Block::Plaster });
            let ghost w4 = *world;
            // The painted beam over both faces.
            let face_side = w != 0;
            if face_side {
                world.set(x, gy + CLOISTER_H + 2, z, Block::Dancheong);
            }
            proof {
                let walk = World::single(x as int, gy + 1, z as int, Block::Granite);
                let clear = column_range(x as int, z as int, gy + 2, gy + 8, Block::Air);
                let face = column_range(x as int, z as int, gy + 2, face_top as int, if post { Block::RedPillar } else { Block::Plaster });
                let beam = if face_side { World::single(x as int, gy + 5, z as int, Block::Dancheong) } else { World::nothing() };
                World::lemma_lays_single(w1, w2, x as int, gy + 1, z as int, Block::Granite);
                if face_side {
                    World::lemma_lays_single(w4, *world, x as int, gy + 5, z as int, Block::Dancheong);
                } else {
                    World::lemma_lays_nothing(w4);
                }
                World::lemma_lays_compose(w1, w2, w3, walk, clear);
                World::lemma_lays_compose(w1, w3, w4, World::overlay(walk, clear), face);
                World::lemma_lays_compose(w1, w4, *world, World::overlay(World::overlay(walk, clear), face), beam);
                World::lemma_run_step(w0, w1, *world, plan, World::overlay(World::overlay(World::overlay(walk, clear), face), beam), along_x, cx as int, cz as int, t as int, w as int);
            }
            w = w + 1;
        }
        proof {
            World::lemma_run_move(w0, *world, plan, along_x, cx as int, cz as int, t as int, w as int, t + 1, -1);
        }
        t = t + 1;
    }
    proof {
        World::lemma_run_finish(w0, *world, plan, along_x, cx as int, cz as int, t as int, -1);
    }
}

/// One straight run of cloister: a raised granite walkway three wide, cleared
/// above; posts every third bay on both faces, the outer face walled between
/// them and the court face left open; a painted beam over both faces; and
/// one roof over the whole run. `inward` points at the court.
pub fn cloister_run(world: &mut World, cx: i32, cz: i32, half_len: i32, along_x: bool, inward: i32, gy: i32)
    requires
        old(world).wf(),
        site(cx as int),
        site(cz as int),
        site(gy as int),
        1 <= half_len <= 500,
        inward == -1 || inward == 1,
    ensures
        final(world).wf(),
        World::lays(*old(world), *final(world), cloister_run_plan(cx as int, cz as int, half_len as int, along_x, inward as int, gy as int)),
        builds_in(*old(world), *final(world), cloister_run_area(cx as int, cz as int, half_len as int, along_x, gy as int)),
{
    let ghost w0 = *world;
    let ghost area = cloister_run_area(cx as int, cz as int, half_len as int, along_x, gy as int);
    cloister_body(world, cx, cz, half_len, along_x, inward, gy);
    let ghost w1 = *world;
    // One roof over the whole run; its half-extents are in world space, so
    // they swap with the run's direction.
    let (bx, bz) = if along_x { (half_len, 1) } else { (1, half_len) };
    lay_roof(world, cx, cz, bx, bz, gy + CLOISTER_H + 3, 1, 1, true);
    proof {
        let p1 = cloister_body_plan(cx as int, cz as int, half_len as int, along_x, inward as int, gy as int);
        World::lemma_lays_compose(w0, w1, *world, p1, roof_plan(cx as int, cz as int, bx + 1, bz + 1, gy + CLOISTER_H + 3, 1, true));
        assert(plan_within(p1, area));
        lemma_lays_builds(w0, w1, p1, area);
        lemma_extend(w0, w1, *world, area, (cx - bx - 1, cx + bx + 1, gy + CLOISTER_H + 3, gy + CLOISTER_H + 3 + roof_courses(bx + 1, bz + 1, 1) + 1, cz - bz - 1, cz + bz + 1));
    }
}

/// Where `place_inner_gate` may build.
pub open spec fn inner_gate_area(cx: int, cz: int, gy: int) -> Area {
    (cx - 9, cx + 9, gy + 1, gy + 11, cz - 4, cz + 4)
}

/// The body of 근정문, column by column: a granite floor 15 by 5 with the air
/// cleared nine over it, and round its edge a timber storey four high — red
/// posts every third bay and at the corners and paper between, three
/// doorways three high in each face (the king's, three wide, on the axis and
/// one either side from 4 to 5 off it) — and the painted beam over it.
pub open spec fn inner_gate_body_plan(cx: int, cz: int, gy: int) -> spec_fn(int, int, int) -> Option<Block> {
    |a: int, b: int, c: int|
        if iabs(a - cx) <= 7 && iabs(c - cz) <= 2 {
            let ring = iabs(a - cx) == 7 || iabs(c - cz) == 2;
            let door = iabs(c - cz) == 2 && (iabs(a - cx) <= 1 || (4 <= iabs(a - cx) && iabs(a - cx) <= 5));
            if b == gy + 1 {
                Some(Block::Granite)
            } else if ring && gy + 2 <= b <= gy + 5 && !(door && b <= gy + 4) {
                Some(if (a - cx) % 3 == 0 || (iabs(a - cx) == 7 && iabs(c - cz) == 2) { Block::RedPillar } else { Block::Paper })
            } else if ring && b == gy + 6 {
                Some(Block::Dancheong)
            } else if gy + 2 <= b <= gy + 10 {
                Some(Block::Air)
            } else {
                None
            }
        } else {
            None
        }
}

/// What `place_inner_gate` lays: its body, and the roof over it.
pub open spec fn inner_gate_plan(cx: int, cz: int, gy: int) -> spec_fn(int, int, int) -> Option<Block> {
    World::overlay(inner_gate_body_plan(cx, cz, gy), roof_plan(cx, cz, 9, 4, gy + 7, PALACE_STEP as int, true))
}

/// Lay the body of 근정문 column by column.
#[verifier::loop_isolation(false)]
fn inner_gate_body(world: &mut World, cx: i32, cz: i32, gy: i32)
    requires
        old(world).wf(),
        site(cx as int),
        site(cz as int),
        site(gy as int),
    ensures
        final(world).wf(),
        World::lays(*old(world), *final(world), inner_gate_body_plan(cx as int, cz as int, gy as int)),
{
    let gx: i32 = 7;
    let gz: i32 = 2;
    let body_h: i32 = 4;
    let floor = gy + 2;
    let ghost w0 = *world;
    let ghost plan = inner_gate_body_plan(cx as int, cz as int, gy as int);
    proof {
        World::lemma_columns_start(w0, plan, cx as int, cz as int, -2, -7);
    }
    let mut dz = -gz;
    while dz <= gz
        invariant
            -gz <= dz <= gz + 1,
            world.wf(),
            World::lays(w0, *world, World::columns(plan, cx as int, cz as int, dz as int, -7)),
        decreases gz + 1 - dz,
    {
        let mut dx = -gx;
        while dx <= gx
            invariant
                -gz <= dz <= gz,
                -gx <= dx <= gx + 1,
                world.wf(),
                World::lays(w0, *world, World::columns(plan, cx as int, cz as int, dz as int, dx as int)),
            decreases gx + 1 - dx,
        {
            let (x, z) = (cx + dx, cz + dz);
            let ghost w1 = *world;
            world.set(x, gy + 1, z, Block::Granite);
            let ghost w2 = *world;
            fill_column(world, x, z, gy + 2, gy + body_h + 6, Block::Air);
            let ghost w3 = *world;
            // Three doorways in each face, left open as cleared.
            let ring = abs(dx) == gx || abs(dz) == gz;
            let doorway = abs(dz) == gz && (abs(dx) <= 1 || (4 <= abs(dx) && abs(dx) <= 5));
            let post = rem_euclid(dx, 3) == 0 || (abs(dx) == gx && abs(dz) == gz);
            let wall_from = if doorway { floor + 3 } else { floor };
            let wall_top = if ring { floor + body_h - 1 } else { floor - 1 };
            fill_column(world, x, z, wall_from, wall_top, if post { Block::RedPillar } else { Block::Paper });
            let ghost w4 = *world;
            if ring {
                world.set(x, floor + body_h, z, Block::Dancheong);
            }
            proof {
                let sill = World::single(x as int, gy + 1, z as int, Block::Granite);
                let clear = column_range(x as int, z as int, gy + 2, gy + 10, Block::Air);
                let storey = column_range(x as int, z as int, wall_from as int, wall_top as int, if post { Block::RedPillar } else { Block::Paper });
                let beam = if ring { World::single(x as int, gy + 6, z as int, Block::Dancheong) } else { World::nothing() };
                World::lemma_lays_single(w1, w2, x as int, gy + 1, z as int, Block::Granite);
                if ring {
                    World::lemma_lays_single(w4, *world, x as int, gy + 6, z as int, Block::Dancheong);
                } else {
                    World::lemma_lays_nothing(w4);
                }
                World::lemma_lays_compose(w1, w2, w3, sill, clear);
                World::lemma_lays_compose(w1, w3, w4, World::overlay(sill, clear), storey);
                World::lemma_lays_compose(w1, w4, *world, World::overlay(World::overlay(sill, clear), storey), beam);
                World::lemma_column_step(w0, w1, *world, plan, World::overlay(World::overlay(World::overlay(sill, clear), storey), beam), cx as int, cz as int, dz as int, dx as int);
            }
            dx = dx + 1;
        }
        proof {
            World::lemma_column_move(w0, *world, plan, cx as int, cz as int, dz as int, dx as int, dz + 1, -7);
        }
        dz = dz + 1;
    }
    proof {
        World::lemma_columns_finish(w0, *world, plan, cx as int, cz as int, dz as int, -7);
    }
}

/// 근정문 — the inner gate in the south side of the court: a granite floor
/// cleared above, a timber body open through the middle with three doorways
/// in each face (the king's in the centre, an officials' door either side),
/// a painted beam and a tiled roof.
pub fn place_inner_gate(world: &mut World, cx: i32, cz: i32, gy: i32)
    requires
        old(world).wf(),
        site(cx as int),
        site(cz as int),
        site(gy as int),
    ensures
        final(world).wf(),
        World::lays(*old(world), *final(world), inner_gate_plan(cx as int, cz as int, gy as int)),
        builds_in(*old(world), *final(world), inner_gate_area(cx as int, cz as int, gy as int)),
{
    let gx: i32 = 7;
    let gz: i32 = 2;
    let ghost w0 = *world;
    let ghost area = inner_gate_area(cx as int, cz as int, gy as int);
    inner_gate_body(world, cx, cz, gy);
    let ghost w1 = *world;
    let beam = gy + 6;
    lay_roof(world, cx, cz, gx, gz, beam + 1, 2, PALACE_STEP, true);
    proof {
        let p1 = inner_gate_body_plan(cx as int, cz as int, gy as int);
        World::lemma_lays_compose(w0, w1, *world, p1, roof_plan(cx as int, cz as int, 9, 4, beam + 1, PALACE_STEP as int, true));
        assert(plan_within(p1, area));
        lemma_lays_builds(w0, w1, p1, area);
        lemma_extend(w0, w1, *world, area, (cx - gx - 2, cx + gx + 2, beam + 1, beam + 1 + roof_courses(gx + 2, gz + 2, PALACE_STEP as int) + 1, cz - gz - 2, cz + gz + 2));
    }
}

/// Where `place_rank_stones` may build.
pub open spec fn rank_stones_area(cx: int, cz: int, gy: int) -> Area {
    (cx - 5, cx + 5, gy + 1, gy + 1, cz - COURT_Z + 8, cz + COURT_Z - 5)
}

/// The ranked stones laid so far: those of [`rank_stones_plan`] north of
/// `z`, that is with a larger `z`.
pub open spec fn rank_stones_from(cx: int, cz: int, gy: int, z: int) -> spec_fn(int, int, int) -> Option<Block> {
    |a: int, b: int, c: int|
        if b == gy + 1 && iabs(a - cx) == 5 && z < c <= cz + COURT_Z - 5 && cz - COURT_Z + 8 < c
            && (cz + COURT_Z - 5 - c) % 3 == 0 {
            Some(Block::Granite)
        } else {
            None
        }
}

/// What `place_rank_stones` lays: a granite stone a course above the ground,
/// five either side of the axis, every three blocks from `COURT_Z - 5` south
/// of the court's centre for as long as it stays more than `COURT_Z - 8`
/// north of it.
pub open spec fn rank_stones_plan(cx: int, cz: int, gy: int) -> spec_fn(int, int, int) -> Option<Block> {
    rank_stones_from(cx, cz, gy, cz - COURT_Z + 8)
}

/// 품계석 — the ranked stones officials lined up beside, in two rows down the
/// court flanking the 삼도, every three blocks.
pub fn place_rank_stones(world: &mut World, cx: i32, cz: i32, gy: i32)
    requires
        old(world).wf(),
        coord(cx as int),
        coord(cz as int),
        coord(gy as int),
    ensures
        final(world).wf(),
        World::lays(*old(world), *final(world), rank_stones_plan(cx as int, cz as int, gy as int)),
        builds_in(*old(world), *final(world), rank_stones_area(cx as int, cz as int, gy as int)),
{
    let ghost w0 = *world;
    let ghost area = rank_stones_area(cx as int, cz as int, gy as int);
    proof {
        lemma_start(w0, area);
        World::lemma_lays_nothing(w0);
        World::lemma_lays_congr(w0, w0, World::nothing(), rank_stones_from(cx as int, cz as int, gy as int, cz + COURT_Z - 5));
    }
    let mut z = cz + COURT_Z - 5;
    while z > cz - COURT_Z + 8
        invariant
            coord(cx as int),
            coord(cz as int),
            coord(gy as int),
            cz - COURT_Z + 5 <= z <= cz + COURT_Z - 5,
            (cz + COURT_Z - 5 - z) % 3 == 0,
            area == rank_stones_area(cx as int, cz as int, gy as int),
            world.wf(),
            builds_in(w0, *world, area),
            World::lays(w0, *world, rank_stones_from(cx as int, cz as int, gy as int, z as int)),
        decreases z - (cz - COURT_Z),
    {
        let ghost before = rank_stones_from(cx as int, cz as int, gy as int, z as int);
        let ghost w1 = *world;
        lay(world, cx - 5, gy + 1, z, Block::Granite, Ghost(w0), Ghost(area));
        let ghost w2 = *world;
        lay(world, cx + 5, gy + 1, z, Block::Granite, Ghost(w0), Ghost(area));
        proof {
            let west = World::single(cx - 5, gy + 1, z as int, Block::Granite);
            let east = World::single(cx + 5, gy + 1, z as int, Block::Granite);
            World::lemma_lays_single(w1, w2, cx - 5, gy + 1, z as int, Block::Granite);
            World::lemma_lays_single(w2, *world, cx + 5, gy + 1, z as int, Block::Granite);
            World::lemma_lays_compose(w0, w1, w2, before, west);
            World::lemma_lays_compose(w0, w2, *world, World::overlay(before, west), east);
            let after = rank_stones_from(cx as int, cz as int, gy as int, z - 3);
            assert forall|a: int, b: int, c: int|
                #[trigger] World::overlay(World::overlay(before, west), east)(a, b, c) == after(a, b, c) by {
                if z - 3 < c < z {
                    assert((cz + COURT_Z - 5 - c) % 3 != 0);
                }
            }
            World::lemma_lays_congr(w0, *world, World::overlay(World::overlay(before, west), east), after);
        }
        z = z - 3;
    }
    proof {
        assert forall|a: int, b: int, c: int|
            #[trigger] rank_stones_from(cx as int, cz as int, gy as int, z as int)(a, b, c)
                == rank_stones_plan(cx as int, cz as int, gy as int)(a, b, c) by {
        }
        World::lemma_lays_congr(w0, *world, rank_stones_from(cx as int, cz as int, gy as int, z as int), rank_stones_plan(cx as int, cz as int, gy as int));
    }
}

/// Where `place_gyeonghoeru` may build: the pond, dug below ground, and the
/// pavilion standing over it.
pub open spec fn gyeonghoeru_area(cx: int, cz: int, gy: int) -> Area {
    (cx - 7, cx + 7, gy - 3, gy + 13, cz - 12, cz + 12)
}

/// The pond of 경회루: 7 either side of the centre across and 12 along,
/// dressed granite banks at ground level round the edge, and inside them
/// water three deep on a dirt bed.
pub open spec fn gh_pond_plan(cx: int, cz: int, gy: int) -> spec_fn(int, int, int) -> Option<Block> {
    |a: int, b: int, c: int|
        if iabs(a - cx) <= 7 && iabs(c - cz) <= 12 {
            if iabs(a - cx) == 7 || iabs(c - cz) == 12 {
                if b == gy { Some(Block::Granite) } else { None }
            } else if gy - 2 <= b <= gy {
                Some(Block::Water)
            } else if b == gy - 3 {
                Some(Block::Dirt)
            } else {
                None
            }
        } else {
            None
        }
}

/// The stone forest 경회루 stands on, its timber deck at `gy + 3` with the
/// air cleared eight over it, the open colonnade of red pillars three high at
/// the even offsets round the deck's edge, and the painted beam round the
/// edge four above the deck: column by column, 4 either way of the centre.
pub open spec fn gh_pavilion_plan(cx: int, cz: int, gy: int) -> spec_fn(int, int, int) -> Option<Block> {
    |a: int, b: int, c: int|
        if iabs(a - cx) <= 4 && iabs(c - cz) <= 4 {
            let even = (a - cx) % 2 == 0 && (c - cz) % 2 == 0;
            let edge = iabs(a - cx) == 4 || iabs(c - cz) == 4;
            if gy - 2 <= b <= gy + 2 && even {
                Some(Block::Granite)
            } else if b == gy + 3 {
                Some(Block::Wood)
            } else if gy + 4 <= b <= gy + 6 && edge && even {
                Some(Block::RedPillar)
            } else if b == gy + 7 && edge {
                Some(Block::Dancheong)
            } else if gy + 4 <= b <= gy + 11 {
                Some(Block::Air)
            } else {
                None
            }
        } else {
            None
        }
}

/// The causeway from 경회루 east to the bank: granite at deck height from 5
/// to 7 east of the centre, with the air cleared four over it.
pub open spec fn causeway_plan(cx: int, cz: int, gy: int) -> spec_fn(int, int, int) -> Option<Block> {
    |a: int, b: int, c: int|
        if c == cz && 5 <= a - cx <= 7 {
            if b == gy + 3 {
                Some(Block::Granite)
            } else if gy + 4 <= b <= gy + 7 {
                Some(Block::Air)
            } else {
                None
            }
        } else {
            None
        }
}

/// What `place_gyeonghoeru` lays, in the order it lays it: the pond, the
/// pavilion's stone forest, deck, colonnade and beam, the roof, and the
/// causeway.
pub open spec fn gyeonghoeru_plan(cx: int, cz: int, gy: int) -> spec_fn(int, int, int) -> Option<Block> {
    World::overlay(
        World::overlay(
            World::overlay(gh_pond_plan(cx, cz, gy), gh_pavilion_plan(cx, cz, gy)),
            roof_plan(cx, cz, 6, 6, gy + 8, PALACE_STEP as int, true),
        ),
        causeway_plan(cx, cz, gy),
    )
}

/// Excavate the pond of 경회루, then flood it to a hair below the bank.
#[verifier::loop_isolation(false)]
fn dig_gh_pond(world: &mut World, cx: i32, cz: i32, gy: i32)
    requires
        old(world).wf(),
        site(cx as int),
        site(cz as int),
        site(gy as int),
    ensures
        final(world).wf(),
        World::lays(*old(world), *final(world), gh_pond_plan(cx as int, cz as int, gy as int)),
{
    let pond_x: i32 = 7;
    let pond_z: i32 = 12;
    let depth: i32 = 2;
    let ghost w0 = *world;
    let ghost plan = gh_pond_plan(cx as int, cz as int, gy as int);
    proof {
        World::lemma_columns_start(w0, plan, cx as int, cz as int, -12, -7);
    }
    let mut dz = -pond_z;
    while dz <= pond_z
        invariant
            -pond_z <= dz <= pond_z + 1,
            world.wf(),
            World::lays(w0, *world, World::columns(plan, cx as int, cz as int, dz as int, -7)),
        decreases pond_z + 1 - dz,
    {
        let mut dx = -pond_x;
        while dx <= pond_x
            invariant
                -pond_z <= dz <= pond_z,
                -pond_x <= dx <= pond_x + 1,
                world.wf(),
                World::lays(w0, *world, World::columns(plan, cx as int, cz as int, dz as int, dx as int)),
            decreases pond_x + 1 - dx,
        {
            let (x, z) = (cx + dx, cz + dz);
            let ghost w1 = *world;
            if abs(dx) == pond_x || abs(dz) == pond_z {
                world.set(x, gy, z, Block::Granite);  // dressed stone bank
                proof {
                    World::lemma_lays_single(w1, *world, x as int, gy as int, z as int, Block::Granite);
                    World::lemma_column_step(w0, w1, *world, plan, World::single(x as int, gy as int, z as int, Block::Granite), cx as int, cz as int, dz as int, dx as int);
                }
            } else {
                fill_column(world, x, z, gy - depth, gy, Block::Water);
                let ghost w2 = *world;
                world.set(x, gy - depth - 1, z, Block::Dirt);
                proof {
                    let water = column_range(x as int, z as int, gy - 2, gy as int, Block::Water);
                    let bed = World::single(x as int, gy - 3, z as int, Block::Dirt);
                    World::lemma_lays_single(w2, *world, x as int, gy - 3, z as int, Block::Dirt);
                    World::lemma_lays_compose(w1, w2, *world, water, bed);
                    World::lemma_column_step(w0, w1, *world, plan, World::overlay(water, bed), cx as int, cz as int, dz as int, dx as int);
                }
            }
            dx = dx + 1;
        }
        proof {
            World::lemma_column_move(w0, *world, plan, cx as int, cz as int, dz as int, dx as int, dz + 1, -7);
        }
        dz = dz + 1;
    }
    proof {
        World::lemma_columns_finish(w0, *world, plan, cx as int, cz as int, dz as int, -7);
    }
}

/// Raise the pavilion of 경회루 column by column: its stone pillar where
/// there is one, the deck, the air over it, the colonnade and the beam.
#[verifier::loop_isolation(false)]
fn raise_gh_pavilion(world: &mut World, cx: i32, cz: i32, gy: i32)
    requires
        old(world).wf(),
        site(cx as int),
        site(cz as int),
        site(gy as int),
    ensures
        final(world).wf(),
        World::lays(*old(world), *final(world), gh_pavilion_plan(cx as int, cz as int, gy as int)),
{
    let base_x: i32 = 4;
    let base_z: i32 = 4;
    let depth: i32 = 2;
    let floor = gy + 3;
    let ghost w0 = *world;
    let ghost plan = gh_pavilion_plan(cx as int, cz as int, gy as int);
    proof {
        World::lemma_columns_start(w0, plan, cx as int, cz as int, -4, -4);
    }
    let mut dz = -base_z;
    while dz <= base_z
        invariant
            -base_z <= dz <= base_z + 1,
            world.wf(),
            World::lays(w0, *world, World::columns(plan, cx as int, cz as int, dz as int, -4)),
        decreases base_z + 1 - dz,
    {
        let mut dx = -base_x;
        while dx <= base_x
            invariant
                -base_z <= dz <= base_z,
                -base_x <= dx <= base_x + 1,
                world.wf(),
                World::lays(w0, *world, World::columns(plan, cx as int, cz as int, dz as int, dx as int)),
            decreases base_x + 1 - dx,
        {
            let (x, z) = (cx + dx, cz + dz);
            let even = rem_euclid(dx, 2) == 0 && rem_euclid(dz, 2) == 0;
            let ghost w1 = *world;
            // The stone forest the pavilion stands on.
            fill_column(world, x, z, gy - depth, if even { gy + 2 } else { gy - depth - 1 }, Block::Granite);
            let ghost w2 = *world;
            // Timber deck across the top of them.
            world.set(x, floor, z, Block::Wood);
            let ghost w3 = *world;
            fill_column(world, x, z, floor + 1, floor + 8, Block::Air);
            let ghost w4 = *world;
            // Open colonnade: columns only, no infill.
            let edge = abs(dx) == base_x || abs(dz) == base_z;
            fill_column(world, x, z, floor + 1, if edge && even { floor + 3 } else { floor }, Block::RedPillar);
            let ghost w5 = *world;
            if edge {
                world.set(x, floor + 4, z, Block::Dancheong);
            }
            proof {
                let (xi, zi) = (x as int, z as int);
                let stone = column_range(xi, zi, gy - 2, if even { gy + 2 } else { gy - 3 }, Block::Granite);
                let deck = World::single(xi, gy + 3, zi, Block::Wood);
                let clear = column_range(xi, zi, gy + 4, gy + 11, Block::Air);
                let pillar = column_range(xi, zi, gy + 4, if edge && even { gy + 6 } else { gy + 3 }, Block::RedPillar);
                let beam = if edge { World::single(xi, gy + 7, zi, Block::Dancheong) } else { World::nothing() };
                World::lemma_lays_single(w2, w3, xi, gy + 3, zi, Block::Wood);
                if edge {
                    World::lemma_lays_single(w5, *world, xi, gy + 7, zi, Block::Dancheong);
                } else {
                    World::lemma_lays_nothing(w5);
                }
                World::lemma_lays_compose(w1, w2, w3, stone, deck);
                World::lemma_lays_compose(w1, w3, w4, World::overlay(stone, deck), clear);
                World::lemma_lays_compose(w1, w4, w5, World::overlay(World::overlay(stone, deck), clear), pillar);
                World::lemma_lays_compose(w1, w5, *world, World::overlay(World::overlay(World::overlay(stone, deck), clear), pillar), beam);
                World::lemma_column_step(w0, w1, *world, plan, World::overlay(World::overlay(World::overlay(World::overlay(stone, deck), clear), pillar), beam), cx as int, cz as int, dz as int, dx as int);
            }
            dx = dx + 1;
        }
        proof {
            World::lemma_column_move(w0, *world, plan, cx as int, cz as int, dz as int, dx as int, dz + 1, -4);
        }
        dz = dz + 1;
    }
    proof {
        World::lemma_columns_finish(w0, *world, plan, cx as int, cz as int, dz as int, -4);
    }
}

/// 경회루 — a pond with dressed stone banks, a grid of stone pillars rising
/// out of it, a timber deck across them carrying an open colonnade (columns
/// only, no infill), a painted beam and a roof, and a causeway east to the
/// bank at deck height.
pub fn place_gyeonghoeru(world: &mut World, cx: i32, cz: i32, gy: i32)
    requires
        old(world).wf(),
        site(cx as int),
        site(cz as int),
        site(gy as int),
    ensures
        final(world).wf(),
        World::lays(*old(world), *final(world), gyeonghoeru_plan(cx as int, cz as int, gy as int)),
        builds_in(*old(world), *final(world), gyeonghoeru_area(cx as int, cz as int, gy as int)),
{
    let pond_x: i32 = 7;
    // Half-extents of the pavilion's stone understructure.
    let base_x: i32 = 4;
    let base_z: i32 = 4;
    let ghost w0 = *world;
    let ghost area = gyeonghoeru_area(cx as int, cz as int, gy as int);
    // Excavate, then flood to a hair below the bank.
    dig_gh_pond(world, cx, cz, gy);
    let ghost w1 = *world;
    raise_gh_pavilion(world, cx, cz, gy);
    let ghost w2 = *world;
    let floor = gy + 3;
    let beam = floor + 4;
    lay_roof(world, cx, cz, base_x, base_z, beam + 1, 2, PALACE_STEP, true);
    let ghost w3 = *world;

    // A causeway east to the bank, at deck height, starting beyond the
    // pavilion's own edge so it does not clear the colonnade it joins.
    let ghost plan = causeway_plan(cx as int, cz as int, gy as int);
    proof {
        World::lemma_columns_start(w3, plan, cx as int, cz as int, 0, 5);
    }
    let mut dx = base_x + 1;
    while dx <= pond_x
        invariant
            pond_x == 7,
            base_x == 4,
            base_x + 1 <= dx <= pond_x + 1,
            site(cx as int),
            site(cz as int),
            site(gy as int),
            floor == gy + 3,
            plan == causeway_plan(cx as int, cz as int, gy as int),
            world.wf(),
            World::lays(w3, *world, World::columns(plan, cx as int, cz as int, 0, dx as int)),
        decreases pond_x + 1 - dx,
    {
        let ghost v1 = *world;
        world.set(cx + dx, floor, cz, Block::Granite);
        let ghost v2 = *world;
        fill_column(world, cx + dx, cz, floor + 1, floor + 4, Block::Air);
        proof {
            let deck = World::single(cx + dx, floor as int, cz as int, Block::Granite);
            let clear = column_range(cx + dx, cz as int, floor + 1, floor + 4, Block::Air);
            World::lemma_lays_single(v1, v2, cx + dx, floor as int, cz as int, Block::Granite);
            World::lemma_lays_compose(v1, v2, *world, deck, clear);
            World::lemma_column_step(w3, v1, *world, plan, World::overlay(deck, clear), cx as int, cz as int, 0, dx as int);
        }
        dx = dx + 1;
    }
    proof {
        World::lemma_columns_finish(w3, *world, plan, cx as int, cz as int, 0, dx as int);
        let p1 = gh_pond_plan(cx as int, cz as int, gy as int);
        let p2 = gh_pavilion_plan(cx as int, cz as int, gy as int);
        let p3 = roof_plan(cx as int, cz as int, 6, 6, beam + 1, PALACE_STEP as int, true);
        World::lemma_lays_compose(w0, w1, w2, p1, p2);
        World::lemma_lays_compose(w0, w2, w3, World::overlay(p1, p2), p3);
        World::lemma_lays_compose(w0, w3, *world, World::overlay(World::overlay(p1, p2), p3), plan);
        assert(plan_within(p1, area));
        assert(plan_within(p2, area));
        assert(plan_within(plan, area));
        lemma_lays_builds(w0, w1, p1, area);
        lemma_lays_builds(w1, w2, p2, area);
        lemma_extend(w0, w1, w2, area, area);
        lemma_extend(w0, w2, w3, area, (cx - base_x - 2, cx + base_x + 2, beam + 1, beam + 1 + roof_courses(base_x + 2, base_z + 2, PALACE_STEP as int) + 1, cz - base_z - 2, cz + base_z + 2));
        lemma_lays_builds(w3, *world, plan, area);
        lemma_extend(w0, w3, *world, area, area);
    }
}

/// Where `place_hyangwonjeong` may build: the pond, dug below ground, and the
/// pavilion over it.
pub open spec fn hyangwonjeong_area(cx: int, cz: int, gy: int) -> Area {
    (cx - 9, cx + 9, gy - 3, gy + 11, cz - 9, cz + 9)
}

/// The pond, island and bridge of 향원정, column by column: within 9 of the
/// centre (by the square of the distance) a basin of water three deep on a
/// dirt bed, its outermost band, past 8, the dressed granite rim at ground
/// level; within 4, the island, granite from the pond's floor to the ground
/// with grass over it and the air cleared ten above the ground; and the
/// timber bridge south from 4 to 9, three wide, with the air cleared four
/// over it.
pub open spec fn hw_ground_plan(cx: int, cz: int, gy: int) -> spec_fn(int, int, int) -> Option<Block> {
    |a: int, b: int, c: int|
        if iabs(a - cx) <= 9 && iabs(c - cz) <= 9 {
            let d2 = (a - cx) * (a - cx) + (c - cz) * (c - cz);
            let island = iabs(a - cx) <= 4 && iabs(c - cz) <= 4 && d2 <= 16;
            let bridge = 4 <= c - cz <= 9 && iabs(a - cx) <= 1;
            if bridge && b == gy + 1 {
                Some(Block::Wood)
            } else if bridge && gy + 2 <= b <= gy + 5 {
                Some(Block::Air)
            } else if island && gy - 2 <= b <= gy {
                Some(Block::Granite)
            } else if island && b == gy + 1 {
                Some(Block::Grass)
            } else if island && gy + 2 <= b <= gy + 10 {
                Some(Block::Air)
            } else if d2 <= 81 && d2 > 64 && b == gy {
                Some(Block::Granite)
            } else if d2 <= 64 && gy - 2 <= b <= gy {
                Some(Block::Water)
            } else if d2 <= 64 && b == gy - 3 {
                Some(Block::Dirt)
            } else {
                None
            }
        } else {
            None
        }
}

/// What the pavilion of 향원정 lays from its floor at `gy + 2` up to its
/// beam: a timber floor over the hexagon of radius 3, a red pillar three high
/// at each of its six corners, and a painted beam round its edge four above
/// the floor.
pub open spec fn hw_pavilion_plan(cx: int, cz: int, gy: int) -> spec_fn(int, int, int) -> Option<Block> {
    |a: int, b: int, c: int|
        if b == gy + 2 && spec_in_hex(a - cx, c - cz, 3) {
            Some(Block::Wood)
        } else if gy + 3 <= b <= gy + 5 && spec_in_hex(a - cx, c - cz, 3) && !spec_in_hex(a - cx, c - cz, 2)
            && (iabs(c - cz) == 3 || iabs(a - cx) == 3 - iabs(c - cz) / 2) {
            Some(Block::RedPillar)
        } else if b == gy + 6 && spec_in_hex(a - cx, c - cz, 3) && !spec_in_hex(a - cx, c - cz, 2) {
            Some(Block::Dancheong)
        } else {
            None
        }
}

/// What `place_hyangwonjeong` lays: the pond, island and bridge, the
/// pavilion's frame, and its roof.
pub open spec fn hyangwonjeong_plan(cx: int, cz: int, gy: int) -> spec_fn(int, int, int) -> Option<Block> {
    World::overlay(World::overlay(hw_ground_plan(cx, cz, gy), hw_pavilion_plan(cx, cz, gy)), hex_roof_plan(cx, cz, 3, gy + 7))
}

/// Dig the pond of 향원정, raise its island and lay the bridge, column by
/// column: each column is dug, then raised where the island stands, then
/// bridged where the bridge crosses.
#[verifier::loop_isolation(false)]
fn hw_ground(world: &mut World, cx: i32, cz: i32, gy: i32)
    requires
        old(world).wf(),
        site(cx as int),
        site(cz as int),
        site(gy as int),
    ensures
        final(world).wf(),
        World::lays(*old(world), *final(world), hw_ground_plan(cx as int, cz as int, gy as int)),
{
    let pond_r: i32 = 9;
    let island_r: i32 = 4;
    let depth: i32 = 2;
    let ghost w0 = *world;
    let ghost plan = hw_ground_plan(cx as int, cz as int, gy as int);
    proof {
        World::lemma_columns_start(w0, plan, cx as int, cz as int, -9, -9);
    }
    let mut dz = -pond_r;
    while dz <= pond_r
        invariant
            -pond_r <= dz <= pond_r + 1,
            world.wf(),
            World::lays(w0, *world, World::columns(plan, cx as int, cz as int, dz as int, -9)),
        decreases pond_r + 1 - dz,
    {
        let mut dx = -pond_r;
        while dx <= pond_r
            invariant
                -pond_r <= dz <= pond_r,
                -pond_r <= dx <= pond_r + 1,
                world.wf(),
                World::lays(w0, *world, World::columns(plan, cx as int, cz as int, dz as int, dx as int)),
            decreases pond_r + 1 - dx,
        {
            assert(0 <= dx * dx <= 81 && 0 <= dz * dz <= 81) by (nonlinear_arith)
                requires
                    -9 <= dx <= 9,
                    -9 <= dz <= 9,
            ;
            let d2 = dx * dx + dz * dz;
            let (x, z) = (cx + dx, cz + dz);
            let ghost w1 = *world;
            // The pond: a rounded basin with a dressed stone rim.
            let rim = d2 <= 81 && d2 > 64;
            let basin = d2 <= 64;
            fill_column(world, x, z, gy, if rim { gy } else { gy - 1 }, Block::Granite);
            let ghost w2 = *world;
            fill_column(world, x, z, gy - depth, if basin { gy } else { gy - depth - 1 }, Block::Water);
            let ghost w3 = *world;
            fill_column(world, x, z, gy - depth - 1, if basin { gy - depth - 1 } else { gy - depth - 2 }, Block::Dirt);
            let ghost w4 = *world;
            // The island, standing back out of the water in the middle.
            let island = abs(dx) <= island_r && abs(dz) <= island_r && d2 <= 16;
            fill_column(world, x, z, gy - depth, if island { gy } else { gy - depth - 1 }, Block::Granite);
            let ghost w5 = *world;
            fill_column(world, x, z, gy + 1, if island { gy + 1 } else { gy }, Block::Grass);
            let ghost w6 = *world;
            fill_column(world, x, z, gy + 2, if island { gy + 10 } else { gy + 1 }, Block::Air);
            let ghost w7 = *world;
            // 취향교 — the bridge out to the island, running south to the
            // bank.
            let bridge = island_r <= dz && abs(dx) <= 1;
            fill_column(world, x, z, gy + 1, if bridge { gy + 1 } else { gy }, Block::Wood);
            let ghost w8 = *world;
            fill_column(world, x, z, gy + 2, if bridge { gy + 5 } else { gy + 1 }, Block::Air);
            proof {
                let (xi, zi) = (x as int, z as int);
                let q1 = column_range(xi, zi, gy as int, if rim { gy as int } else { gy - 1 }, Block::Granite);
                let q2 = column_range(xi, zi, gy - 2, if basin { gy as int } else { gy - 3 }, Block::Water);
                let q3 = column_range(xi, zi, gy - 3, if basin { gy - 3 } else { gy - 4 }, Block::Dirt);
                let q4 = column_range(xi, zi, gy - 2, if island { gy as int } else { gy - 3 }, Block::Granite);
                let q5 = column_range(xi, zi, gy + 1, if island { gy + 1 } else { gy as int }, Block::Grass);
                let q6 = column_range(xi, zi, gy + 2, if island { gy + 10 } else { gy + 1 }, Block::Air);
                let q7 = column_range(xi, zi, gy + 1, if bridge { gy + 1 } else { gy as int }, Block::Wood);
                let q8 = column_range(xi, zi, gy + 2, if bridge { gy + 5 } else { gy + 1 }, Block::Air);
                World::lemma_lays_compose(w1, w2, w3, q1, q2);
                World::lemma_lays_compose(w1, w3, w4, World::overlay(q1, q2), q3);
                World::lemma_lays_compose(w1, w4, w5, World::overlay(World::overlay(q1, q2), q3), q4);
                World::lemma_lays_compose(w1, w5, w6, World::overlay(World::overlay(World::overlay(q1, q2), q3), q4), q5);
                World::lemma_lays_compose(w1, w6, w7, World::overlay(World::overlay(World::overlay(World::overlay(q1, q2), q3), q4), q5), q6);
                World::lemma_lays_compose(w1, w7, w8, World::overlay(World::overlay(World::overlay(World::overlay(World::overlay(q1, q2), q3), q4), q5), q6), q7);
                let upto7 = World::overlay(World::overlay(World::overlay(World::overlay(World::overlay(World::overlay(q1, q2), q3), q4), q5), q6), q7);
                World::lemma_lays_compose(w1, w8, *world, upto7, q8);
                World::lemma_column_step(w0, w1, *world, plan, World::overlay(upto7, q8), cx as int, cz as int, dz as int, dx as int);
            }
            dx = dx + 1;
        }
        proof {
            World::lemma_column_move(w0, *world, plan, cx as int, cz as int, dz as int, dx as int, dz + 1, -9);
        }
        dz = dz + 1;
    }
    proof {
        World::lemma_columns_finish(w0, *world, plan, cx as int, cz as int, dz as int, -9);
    }
}

/// Frame the pavilion of 향원정, column by column: its floor, the pillars at
/// its corners and the beam round its edge.
#[verifier::loop_isolation(false)]
fn hw_pavilion(world: &mut World, cx: i32, cz: i32, gy: i32)
    requires
        old(world).wf(),
        site(cx as int),
        site(cz as int),
        site(gy as int),
    ensures
        final(world).wf(),
        World::lays(*old(world), *final(world), hw_pavilion_plan(cx as int, cz as int, gy as int)),
{
    let hex_r: i32 = 3;
    let floor = gy + 2;
    let ghost w0 = *world;
    let ghost plan = hw_pavilion_plan(cx as int, cz as int, gy as int);
    proof {
        World::lemma_columns_start(w0, plan, cx as int, cz as int, -3, -3);
    }
    let mut dz = -hex_r;
    while dz <= hex_r
        invariant
            -hex_r <= dz <= hex_r + 1,
            world.wf(),
            World::lays(w0, *world, World::columns(plan, cx as int, cz as int, dz as int, -3)),
        decreases hex_r + 1 - dz,
    {
        let mut dx = -hex_r;
        while dx <= hex_r
            invariant
                -hex_r <= dz <= hex_r,
                -hex_r <= dx <= hex_r + 1,
                world.wf(),
                World::lays(w0, *world, World::columns(plan, cx as int, cz as int, dz as int, dx as int)),
            decreases hex_r + 1 - dx,
        {
            let (x, z) = (cx + dx, cz + dz);
            if in_hex(dx, dz, hex_r) {
                let ghost w1 = *world;
                world.set(x, floor, z, Block::Wood);
                let ghost w2 = *world;
                let edge = !in_hex(dx, dz, hex_r - 1);
                // A column wherever the hexagon's edge turns — its six
                // corners.
                let corner = edge && (abs(dz) == hex_r || abs(dx) == hex_r - abs(dz) / 2);
                let top = if corner { floor + 3 } else { floor };
                fill_column(world, x, z, floor + 1, top, Block::RedPillar);
                let ghost w3 = *world;
                if edge {
                    world.set(x, floor + 4, z, Block::Dancheong);
                }
                proof {
                    let boards = World::single(x as int, floor as int, z as int, Block::Wood);
                    let pillar = column_range(x as int, z as int, floor + 1, top as int, Block::RedPillar);
                    let beam = if edge { World::single(x as int, floor + 4, z as int, Block::Dancheong) } else { World::nothing() };
                    World::lemma_lays_single(w1, w2, x as int, floor as int, z as int, Block::Wood);
                    if edge {
                        World::lemma_lays_single(w3, *world, x as int, floor + 4, z as int, Block::Dancheong);
                    } else {
                        World::lemma_lays_nothing(w3);
                    }
                    World::lemma_lays_compose(w1, w2, w3, boards, pillar);
                    World::lemma_lays_compose(w1, w3, *world, World::overlay(boards, pillar), beam);
                    World::lemma_column_step(w0, w1, *world, plan, World::overlay(World::overlay(boards, pillar), beam), cx as int, cz as int, dz as int, dx as int);
                }
            } else {
                proof {
                    World::lemma_column_move(w0, *world, plan, cx as int, cz as int, dz as int, dx as int, dz as int, dx + 1);
                }
            }
            dx = dx + 1;
        }
        proof {
            World::lemma_column_move(w0, *world, plan, cx as int, cz as int, dz as int, dx as int, dz + 1, -3);
        }
        dz = dz + 1;
    }
    proof {
        World::lemma_columns_finish(w0, *world, plan, cx as int, cz as int, dz as int, -3);
    }
}

/// 향원정 — a hexagonal pavilion on an island in a round pond with a dressed
/// stone rim, reached by a timber bridge running south to the bank.
pub fn place_hyangwonjeong(world: &mut World, cx: i32, cz: i32, gy: i32)
    requires
        old(world).wf(),
        site(cx as int),
        site(cz as int),
        site(gy as int),
    ensures
        final(world).wf(),
        World::lays(*old(world), *final(world), hyangwonjeong_plan(cx as int, cz as int, gy as int)),
        builds_in(*old(world), *final(world), hyangwonjeong_area(cx as int, cz as int, gy as int)),
{
    let hex_r: i32 = 3;
    let ghost w0 = *world;
    let ghost area = hyangwonjeong_area(cx as int, cz as int, gy as int);
    hw_ground(world, cx, cz, gy);
    let ghost w1 = *world;
    // The pavilion: a hexagonal timber floor, a column at each of its six
    // corners, a painted beam round its edge, and a roof.
    hw_pavilion(world, cx, cz, gy);
    let ghost w2 = *world;
    let beam = gy + 6;
    lay_hex_roof(world, cx, cz, hex_r, beam + 1);
    proof {
        let p1 = hw_ground_plan(cx as int, cz as int, gy as int);
        let p2 = hw_pavilion_plan(cx as int, cz as int, gy as int);
        World::lemma_lays_compose(w0, w1, w2, p1, p2);
        World::lemma_lays_compose(w0, w2, *world, World::overlay(p1, p2), hex_roof_plan(cx as int, cz as int, 3, beam + 1));
        assert(plan_within(p1, area));
        assert(plan_within(p2, area));
        lemma_lays_builds(w0, w1, p1, area);
        lemma_lays_builds(w1, w2, p2, area);
        lemma_extend(w0, w1, w2, area, area);
        lemma_extend(w0, w2, *world, area, hex_roof_area(cx as int, cz as int, 3, beam + 1));
    }
}

/// Where `lay_courtyard` may build.
pub open spec fn courtyard_area(cx: int, cz: int, gy: int) -> Area {
    (cx - PALACE_X, cx + PALACE_X, gy as int, gy + 1, cz + COURT_OFFSET_Z - COURT_Z - 2, cz + PALACE_SOUTH)
}

/// The 삼도 as `lay_courtyard` lays it: from `COURT_OFFSET_Z - 2` north of the
/// centre to the south wall, seven wide — stone lanes either side of a
/// granite centre lane, and a second granite course on the centre lane.
pub open spec fn samdo_plan(cx: int, cz: int, gy: int) -> spec_fn(int, int, int) -> Option<Block> {
    |a: int, b: int, c: int|
        if COURT_OFFSET_Z - 2 <= c - cz <= PALACE_SOUTH && iabs(a - cx) <= 3 {
            if b == gy {
                Some(if a == cx { Block::Granite } else { Block::Stone })
            } else if b == gy + 1 && a == cx {
                Some(Block::Granite)
            } else {
                None
            }
        } else {
            None
        }
}

/// What `lay_courtyard` lays: granite over the ground from
/// `COURT_OFFSET_Z - COURT_Z - 2` north of the centre to the south wall,
/// `PALACE_X` either side of the axis, and the 삼도 over that.
pub open spec fn courtyard_plan(cx: int, cz: int, gy: int) -> spec_fn(int, int, int) -> Option<Block> {
    World::overlay(
        rect(cx - PALACE_X, cx + PALACE_X, cz + COURT_OFFSET_Z - COURT_Z - 2, cz + PALACE_SOUTH, gy, Block::Granite),
        samdo_plan(cx, cz, gy),
    )
}

/// Pave the ceremonial half of the precinct in granite and run the 삼도 — the
/// raised processional way, its centre lane a block proud of the stone lanes
/// either side — from 광화문 up to the throne hall. The residential yards
/// behind keep the bare ground.
#[verifier::loop_isolation(false)]
pub fn lay_courtyard(world: &mut World, cx: i32, cz: i32, gy: i32)
    requires
        old(world).wf(),
        coord(cx as int),
        coord(cz as int),
        coord(gy as int),
    ensures
        final(world).wf(),
        World::lays(*old(world), *final(world), courtyard_plan(cx as int, cz as int, gy as int)),
        builds_in(*old(world), *final(world), courtyard_area(cx as int, cz as int, gy as int)),
{
    let ghost w0 = *world;
    let ghost area = courtyard_area(cx as int, cz as int, gy as int);
    let paved_north = COURT_OFFSET_Z - COURT_Z - 2;
    fill_rect(world, cx - PALACE_X, cz + paved_north, cx + PALACE_X, cz + PALACE_SOUTH, gy, Block::Granite);
    let ghost paved = *world;
    let ghost plan = samdo_plan(cx as int, cz as int, gy as int);
    proof {
        World::lemma_columns_start(paved, plan, cx as int, cz as int, COURT_OFFSET_Z - 2, -3);
    }
    let mut dz = COURT_OFFSET_Z - 2;
    while dz <= PALACE_SOUTH
        invariant
            COURT_OFFSET_Z - 2 <= dz <= PALACE_SOUTH + 1,
            world.wf(),
            World::lays(paved, *world, World::columns(plan, cx as int, cz as int, dz as int, -3)),
        decreases PALACE_SOUTH + 1 - dz,
    {
        let mut dx: i32 = -3;
        while dx <= 3
            invariant
                COURT_OFFSET_Z - 2 <= dz <= PALACE_SOUTH,
                -3 <= dx <= 4,
                world.wf(),
                World::lays(paved, *world, World::columns(plan, cx as int, cz as int, dz as int, dx as int)),
            decreases 4 - dx,
        {
            let ghost w1 = *world;
            if dx == 0 {
                world.set(cx, gy, cz + dz, Block::Granite);
                let ghost w2 = *world;
                world.set(cx, gy + 1, cz + dz, Block::Granite);
                proof {
                    let lane = World::single(cx as int, gy as int, cz + dz, Block::Granite);
                    let raised = World::single(cx as int, gy + 1, cz + dz, Block::Granite);
                    World::lemma_lays_single(w1, w2, cx as int, gy as int, cz + dz, Block::Granite);
                    World::lemma_lays_single(w2, *world, cx as int, gy + 1, cz + dz, Block::Granite);
                    World::lemma_lays_compose(w1, w2, *world, lane, raised);
                    World::lemma_column_step(paved, w1, *world, plan, World::overlay(lane, raised), cx as int, cz as int, dz as int, dx as int);
                }
            } else {
                world.set(cx + dx, gy, cz + dz, Block::Stone);
                proof {
                    World::lemma_lays_single(w1, *world, cx + dx, gy as int, cz + dz, Block::Stone);
                    World::lemma_column_step(paved, w1, *world, plan, World::single(cx + dx, gy as int, cz + dz, Block::Stone), cx as int, cz as int, dz as int, dx as int);
                }
            }
            dx = dx + 1;
        }
        proof {
            World::lemma_column_move(paved, *world, plan, cx as int, cz as int, dz as int, dx as int, dz + 1, -3);
        }
        dz = dz + 1;
    }
    proof {
        World::lemma_columns_finish(paved, *world, plan, cx as int, cz as int, dz as int, -3);
        World::lemma_lays_compose(
            w0,
            paved,
            *world,
            rect(cx - PALACE_X, cx + PALACE_X, cz + paved_north, cz + PALACE_SOUTH, gy as int, Block::Granite),
            plan,
        );
        assert(plan_within(courtyard_plan(cx as int, cz as int, gy as int), area));
        lemma_lays_builds(w0, *world, courtyard_plan(cx as int, cz as int, gy as int), area);
    }
}

/// Where `build_wall` may build: the 담장 along the precinct's edge.
pub open spec fn wall_area(cx: int, cz: int, gy: int) -> Area {
    (cx - PALACE_X, cx + PALACE_X, gy + 1, gy + 4, cz - PALACE_NORTH, cz + PALACE_SOUTH)
}

/// What `build_wall` lays: on every cell of the precinct's edge, `PALACE_X`
/// either side of the axis and from `PALACE_NORTH` behind the centre to
/// `PALACE_SOUTH` before it, but the gap of half-width 7 left in the south
/// face for 광화문, a granite footing, two courses of plaster and the tiled
/// coping.
pub open spec fn wall_plan(cx: int, cz: int, gy: int) -> spec_fn(int, int, int) -> Option<Block> {
    |a: int, b: int, c: int|
        if iabs(a - cx) <= PALACE_X && -PALACE_NORTH <= c - cz <= PALACE_SOUTH
            && (iabs(a - cx) == PALACE_X || c - cz == PALACE_SOUTH || c - cz == -PALACE_NORTH)
            && !(c - cz == PALACE_SOUTH && iabs(a - cx) <= 7) {
            if b == gy + 1 {
                Some(Block::Granite)
            } else if gy + 2 <= b <= gy + 3 {
                Some(Block::Plaster)
            } else if b == gy + 4 {
                Some(Block::RoofTile)
            } else {
                None
            }
        } else {
            None
        }
}

/// The 담장 around the precinct — granite footing, two courses of plaster,
/// tiled coping — left open where 광화문 stands.
#[verifier::loop_isolation(false)]
pub fn build_wall(world: &mut World, cx: i32, cz: i32, gy: i32)
    requires
        old(world).wf(),
        coord(cx as int),
        coord(cz as int),
        coord(gy as int),
    ensures
        final(world).wf(),
        World::lays(*old(world), *final(world), wall_plan(cx as int, cz as int, gy as int)),
        builds_in(*old(world), *final(world), wall_area(cx as int, cz as int, gy as int)),
{
    let ghost w0 = *world;
    let ghost area = wall_area(cx as int, cz as int, gy as int);
    let ghost plan = wall_plan(cx as int, cz as int, gy as int);
    proof {
        World::lemma_columns_start(w0, plan, cx as int, cz as int, -PALACE_NORTH as int, -PALACE_X as int);
    }
    let mut dz = -PALACE_NORTH;
    while dz <= PALACE_SOUTH
        invariant
            -PALACE_NORTH <= dz <= PALACE_SOUTH + 1,
            world.wf(),
            World::lays(w0, *world, World::columns(plan, cx as int, cz as int, dz as int, -PALACE_X as int)),
        decreases PALACE_SOUTH + 1 - dz,
    {
        let mut dx = -PALACE_X;
        while dx <= PALACE_X
            invariant
                -PALACE_NORTH <= dz <= PALACE_SOUTH,
                -PALACE_X <= dx <= PALACE_X + 1,
                world.wf(),
                World::lays(w0, *world, World::columns(plan, cx as int, cz as int, dz as int, dx as int)),
            decreases PALACE_X + 1 - dx,
        {
            let on_side = abs(dx) == PALACE_X;
            let on_end = dz == PALACE_SOUTH || dz == -PALACE_NORTH;
            // Leave the gateway clear.
            if (on_side || on_end) && !(dz == PALACE_SOUTH && abs(dx) <= 7) {
                let (x, z) = (cx + dx, cz + dz);
                let ghost w1 = *world;
                world.set(x, gy + 1, z, Block::Granite);
                let ghost w2 = *world;
                fill_column(world, x, z, gy + 2, gy + 3, Block::Plaster);
                let ghost w3 = *world;
                world.set(x, gy + 4, z, Block::RoofTile);
                proof {
                    let (xi, zi) = (x as int, z as int);
                    let c1 = World::single(xi, gy + 1, zi, Block::Granite);
                    let c2 = column_range(xi, zi, gy + 2, gy + 3, Block::Plaster);
                    let c3 = World::single(xi, gy + 4, zi, Block::RoofTile);
                    World::lemma_lays_single(w1, w2, xi, gy + 1, zi, Block::Granite);
                    World::lemma_lays_single(w3, *world, xi, gy + 4, zi, Block::RoofTile);
                    World::lemma_lays_compose(w1, w2, w3, c1, c2);
                    World::lemma_lays_compose(w1, w3, *world, World::overlay(c1, c2), c3);
                    World::lemma_column_step(w0, w1, *world, plan, World::overlay(World::overlay(c1, c2), c3), cx as int, cz as int, dz as int, dx as int);
                }
            } else {
                proof {
                    World::lemma_column_move(w0, *world, plan, cx as int, cz as int, dz as int, dx as int, dz as int, dx + 1);
                }
            }
            dx = dx + 1;
        }
        proof {
            World::lemma_column_move(w0, *world, plan, cx as int, cz as int, dz as int, dx as int, dz + 1, -PALACE_X as int);
        }
        dz = dz + 1;
    }
    proof {
        World::lemma_columns_finish(w0, *world, plan, cx as int, cz as int, dz as int, -PALACE_X as int);
        assert(plan_within(plan, area));
        lemma_lays_builds(w0, *world, plan, area);
    }
}

/// Where `place_gate` may build.
pub open spec fn gate_area(cx: int, cz: int, gy: int) -> Area {
    (cx - 10, cx + 10, gy + 1, gy + 14, cz - 5, cz + 5)
}

/// How high the passage through 광화문's base is at offset `dx` along it:
/// the king's, four high, one either side of the axis; one three high one
/// either side of 5 off it each way; none elsewhere.
pub open spec fn passage_height(dx: int) -> int {
    if iabs(dx + 5) <= 1 {
        3
    } else if iabs(dx) <= 1 {
        4
    } else if iabs(dx - 5) <= 1 {
        3
    } else {
        0
    }
}

/// The offset of `dx` from the middle of its passage through 광화문.
pub open spec fn passage_offset(dx: int) -> int {
    if iabs(dx + 5) <= 1 {
        dx + 5
    } else if iabs(dx) <= 1 {
        dx
    } else {
        dx - 5
    }
}

/// The body of 광화문, column by column: granite five high over its 17 by 7
/// base, but for the three passages cut through it (each with its top course
/// left either side of its middle, so the opening reads as an arch); round
/// the edge a storey three high over it, red pillars every four along and at
/// the corners and paper between, and the painted beam over that.
pub open spec fn gate_body_plan(cx: int, cz: int, gy: int) -> spec_fn(int, int, int) -> Option<Block> {
    |a: int, b: int, c: int|
        if iabs(a - cx) <= 8 && iabs(c - cz) <= 3 {
            let ring = iabs(a - cx) == 8 || iabs(c - cz) == 3;
            if gy + 1 <= b <= gy + 5 {
                if b <= gy + passage_height(a - cx) && !(b == gy + passage_height(a - cx) && iabs(passage_offset(a - cx)) == 1) {
                    Some(Block::Air)
                } else {
                    Some(Block::Granite)
                }
            } else if ring && gy + 6 <= b <= gy + 8 {
                Some(if (a - cx) % 4 == 0 || (iabs(c - cz) == 3 && iabs(a - cx) == 8) { Block::RedPillar } else { Block::Paper })
            } else if ring && b == gy + 9 {
                Some(Block::Dancheong)
            } else {
                None
            }
        } else {
            None
        }
}

/// What `place_gate` lays: its body, and the roof over it.
pub open spec fn gate_plan(cx: int, cz: int, gy: int) -> spec_fn(int, int, int) -> Option<Block> {
    World::overlay(gate_body_plan(cx, cz, gy), roof_plan(cx, cz, 10, 5, gy + 10, PALACE_STEP as int, true))
}

/// Lay the body of 광화문 column by column.
#[verifier::loop_isolation(false)]
fn gate_body(world: &mut World, cx: i32, cz: i32, gy: i32)
    requires
        old(world).wf(),
        site(cx as int),
        site(cz as int),
        site(gy as int),
    ensures
        final(world).wf(),
        World::lays(*old(world), *final(world), gate_body_plan(cx as int, cz as int, gy as int)),
{
    let gx: i32 = 8;  // half-width
    let gz: i32 = 3;  // half-depth
    let base_h: i32 = 5;
    let floor = gy + base_h + 1;
    let ghost w0 = *world;
    let ghost plan = gate_body_plan(cx as int, cz as int, gy as int);
    proof {
        World::lemma_columns_start(w0, plan, cx as int, cz as int, -3, -8);
    }
    let mut dz = -gz;
    while dz <= gz
        invariant
            -gz <= dz <= gz + 1,
            world.wf(),
            World::lays(w0, *world, World::columns(plan, cx as int, cz as int, dz as int, -8)),
        decreases gz + 1 - dz,
    {
        let mut dx = -gx;
        while dx <= gx
            invariant
                -gz <= dz <= gz,
                -gx <= dx <= gx + 1,
                world.wf(),
                World::lays(w0, *world, World::columns(plan, cx as int, cz as int, dz as int, dx as int)),
            decreases gx + 1 - dx,
        {
            let (x, z) = (cx + dx, cz + dz);
            let ghost w1 = *world;
            fill_column(world, x, z, gy + 1, gy + base_h, Block::Granite);
            let ghost w2 = *world;
            // Three passages through the base. The middle one — the king's —
            // is taller; the top of each is rounded off so the opening reads
            // as an arch.
            let (offset, height) = if abs(dx + 5) <= 1 {
                (dx + 5, 3i32)
            } else if abs(dx) <= 1 {
                (dx, 4i32)
            } else if abs(dx - 5) <= 1 {
                (dx - 5, 3i32)
            } else {
                (0i32, 0i32)
            };
            let arch = if abs(offset) == 1 { gy + height - 1 } else { gy + height };
            fill_column(world, x, z, gy + 1, arch, Block::Air);
            let ghost w3 = *world;
            // The painted storey above: red columns, paper infill.
            let ring = abs(dx) == gx || abs(dz) == gz;
            let post = rem_euclid(dx, 4) == 0 || abs(dz) == gz && abs(dx) == gx;
            let wall_top = if ring { floor + 2 } else { floor - 1 };
            fill_column(world, x, z, floor, wall_top, if post { Block::RedPillar } else { Block::Paper });
            let ghost w4 = *world;
            if ring {
                world.set(x, floor + 3, z, Block::Dancheong);
            }
            proof {
                let stone = column_range(x as int, z as int, gy + 1, gy + 5, Block::Granite);
                let passage = column_range(x as int, z as int, gy + 1, arch as int, Block::Air);
                let storey = column_range(x as int, z as int, gy + 6, wall_top as int, if post { Block::RedPillar } else { Block::Paper });
                let beam = if ring { World::single(x as int, gy + 9, z as int, Block::Dancheong) } else { World::nothing() };
                if ring {
                    World::lemma_lays_single(w4, *world, x as int, gy + 9, z as int, Block::Dancheong);
                } else {
                    World::lemma_lays_nothing(w4);
                }
                World::lemma_lays_compose(w1, w2, w3, stone, passage);
                World::lemma_lays_compose(w1, w3, w4, World::overlay(stone, passage), storey);
                World::lemma_lays_compose(w1, w4, *world, World::overlay(World::overlay(stone, passage), storey), beam);
                World::lemma_column_step(w0, w1, *world, plan, World::overlay(World::overlay(World::overlay(stone, passage), storey), beam), cx as int, cz as int, dz as int, dx as int);
            }
            dx = dx + 1;
        }
        proof {
            World::lemma_column_move(w0, *world, plan, cx as int, cz as int, dz as int, dx as int, dz + 1, -8);
        }
        dz = dz + 1;
    }
    proof {
        World::lemma_columns_finish(w0, *world, plan, cx as int, cz as int, dz as int, -8);
    }
}

/// 광화문 — the main gate: a granite base pierced by three arched passages
/// (the middle one, the king's, taller), carrying a painted timber storey and
/// a tiled roof.
pub fn place_gate(world: &mut World, cx: i32, cz: i32, gy: i32)
    requires
        old(world).wf(),
        site(cx as int),
        site(cz as int),
        site(gy as int),
    ensures
        final(world).wf(),
        World::lays(*old(world), *final(world), gate_plan(cx as int, cz as int, gy as int)),
        builds_in(*old(world), *final(world), gate_area(cx as int, cz as int, gy as int)),
{
    let gx: i32 = 8;
    let gz: i32 = 3;
    let ghost w0 = *world;
    let ghost area = gate_area(cx as int, cz as int, gy as int);
    gate_body(world, cx, cz, gy);
    let ghost w1 = *world;
    let beam = gy + 9;
    lay_roof(world, cx, cz, gx, gz, beam + 1, 2, PALACE_STEP, true);
    proof {
        let p1 = gate_body_plan(cx as int, cz as int, gy as int);
        World::lemma_lays_compose(w0, w1, *world, p1, roof_plan(cx as int, cz as int, 10, 5, beam + 1, PALACE_STEP as int, true));
        assert(plan_within(p1, area));
        lemma_lays_builds(w0, w1, p1, area);
        lemma_extend(w0, w1, *world, area, (cx - gx - 2, cx + gx + 2, beam + 1, beam + 1 + roof_courses(gx + 2, gz + 2, PALACE_STEP as int) + 1, cz - gz - 2, cz + gz + 2));
    }
}

/// The box the whole compact palace is built in, eaves, gate and ponds
/// included.
pub open spec fn palace_area(cx: int, cz: int, gy: int) -> Area {
    (cx - PALACE_X, cx + PALACE_X, gy - 3, gy + 20, cz - PALACE_NORTH, cz + PALACE_SOUTH + 5)
}

/// Part `k` of the compact palace round the centre `(cx, cz)` on ground
/// `gy`, in the order `place_palace` builds them: the paved court and 삼도,
/// the wall, 광화문, the ranked stones, 근정전, the cloister, 근정문, the inner
/// quarters, 경회루, 자경전, 수정전's wall and hall, 동궁's wall and hall, and
/// 향원정.
pub open spec fn palace_part(cx: int, cz: int, gy: int, k: int) -> spec_fn(int, int, int) -> Option<Block> {
    let court_z = cz + COURT_OFFSET_Z;
    if k == 0 {
        courtyard_plan(cx, cz, gy)
    } else if k == 1 {
        wall_plan(cx, cz, gy)
    } else if k == 2 {
        gate_plan(cx, cz + PALACE_SOUTH, gy)
    } else if k == 3 {
        rank_stones_plan(cx, court_z, gy)
    } else if k == 4 {
        throne_hall_plan(cx, court_z - 2, gy)
    } else if k == 5 {
        cloister_plan(cx, court_z, gy)
    } else if k == 6 {
        inner_gate_plan(cx, court_z + COURT_Z, gy)
    } else if k == 7 {
        inner_quarters_plan(cx, cz, gy)
    } else if k == 8 {
        gyeonghoeru_plan(cx - 30, cz - 8, gy)
    } else if k == 9 {
        jagyeongjeon_plan(cx + JAGYEONG_X, cz + JAGYEONG_Z, gy)
    } else if k == 10 {
        compound_wall_plan(cx + SUJEONG_X, cz + SUJEONG_Z, gy, 7, 8, false)
    } else if k == 11 {
        residence_plan(cx + SUJEONG_X, cz + SUJEONG_Z, gy, 5, 4, true)
    } else if k == 12 {
        compound_wall_plan(cx + DONGGUNG_X, cz + DONGGUNG_Z, gy, 7, 8, false)
    } else if k == 13 {
        residence_plan(cx + DONGGUNG_X, cz + DONGGUNG_Z, gy, 5, 4, true)
    } else {
        hyangwonjeong_plan(cx, cz + HYANGWON_Z, gy)
    }
}

/// What building the first `n` parts of the compact palace lays, each over
/// the ones before it.
pub open spec fn palace_upto(cx: int, cz: int, gy: int, n: nat) -> spec_fn(int, int, int) -> Option<Block>
    decreases n,
{
    if n == 0 {
        World::nothing()
    } else {
        World::overlay(palace_upto(cx, cz, gy, (n - 1) as nat), palace_part(cx, cz, gy, n - 1))
    }
}

/// What `place_palace` lays: all 15 parts of the compact palace, in order.
pub open spec fn palace_plan(gy: int) -> spec_fn(int, int, int) -> Option<Block> {
    palace_upto(WORLD_X / 2, WORLD_Z / 2, gy, 15)
}

/// Laying the next part of the compact palace over the parts before it.
proof fn lemma_palace_next(w0: World, a: World, b: World, cx: int, cz: int, gy: int, k: nat)
    requires
        World::lays(w0, a, palace_upto(cx, cz, gy, k)),
        World::lays(a, b, palace_part(cx, cz, gy, k as int)),
    ensures
        World::lays(w0, b, palace_upto(cx, cz, gy, k + 1)),
{
    World::lemma_lays_compose(w0, a, b, palace_upto(cx, cz, gy, k), palace_part(cx, cz, gy, k as int));
}

/// Build the compact 경복궁 at the centre of the map: the paved court and
/// 삼도, the precinct wall and 광화문, the ranked stones, 근정전, the cloister
/// and 근정문, the residential halls behind, 경회루 on its pond, 자경전, 수정전
/// and 동궁 on the flanks, and 향원정 in the rear garden.
pub fn place_palace(world: &mut World, gy: i32)
    requires
        old(world).wf(),
        plot(gy as int),
    ensures
        final(world).wf(),
        World::lays(*old(world), *final(world), palace_plan(gy as int)),
        builds_in(*old(world), *final(world), palace_area(WORLD_X / 2, WORLD_Z / 2, gy as int)),
        crowned(*old(world), *final(world), WORLD_X / 2, WORLD_Z / 2 + SAJEONG_Z, residence_crown(gy as int, 7, 4), gy + 12, Block::RoofRidge),
        crowned(*old(world), *final(world), WORLD_X / 2, WORLD_Z / 2 + GANGNYEONG_Z, residence_crown(gy as int, 8, 4), gy + 12, Block::RoofTile),
        crowned(*old(world), *final(world), WORLD_X / 2, WORLD_Z / 2 + GYOTAE_Z, residence_crown(gy as int, 7, 4), gy + 12, Block::RoofTile),
{
    let (cx, cz) = super::palace_centre();
    let ghost w0 = *world;
    let ghost area = palace_area(cx as int, cz as int, gy as int);
    proof {
        lemma_start(w0, area);
        World::lemma_lays_nothing(w0);
    }
    let ghost lo = gy + 6;
    proof {
        assert(halls_same(w0, w0, cx as int, cz as int, gy as int));
    }
    let ghost w1 = *world;
    lay_courtyard(world, cx, cz, gy);
    proof { lemma_palace_next(w0, w1, *world, cx as int, cz as int, gy as int, 0); }
    proof { lemma_extend(w0, w1, *world, area, courtyard_area(cx as int, cz as int, gy as int)); lemma_halls_kept(w0, w1, *world, courtyard_area(cx as int, cz as int, gy as int), cx as int, cz as int, gy as int); }
    let ghost w1 = *world;
    build_wall(world, cx, cz, gy);
    proof { lemma_palace_next(w0, w1, *world, cx as int, cz as int, gy as int, 1); }
    proof { lemma_extend(w0, w1, *world, area, wall_area(cx as int, cz as int, gy as int)); lemma_halls_kept(w0, w1, *world, wall_area(cx as int, cz as int, gy as int), cx as int, cz as int, gy as int); }
    let ghost w1 = *world;
    place_gate(world, cx, cz + PALACE_SOUTH, gy);
    proof { lemma_palace_next(w0, w1, *world, cx as int, cz as int, gy as int, 2); }
    proof { lemma_extend(w0, w1, *world, area, gate_area(cx as int, cz + PALACE_SOUTH, gy as int)); lemma_halls_kept(w0, w1, *world, gate_area(cx as int, cz + PALACE_SOUTH, gy as int), cx as int, cz as int, gy as int); }

    // The inner court: the ranked stones, 근정전 at the head of it, 회랑 all
    // round, and 근정문 last so the cloister's corners give way to it.
    let court_z = cz + COURT_OFFSET_Z;
    let ghost w1 = *world;
    place_rank_stones(world, cx, court_z, gy);
    proof { lemma_palace_next(w0, w1, *world, cx as int, cz as int, gy as int, 3); }
    proof { lemma_extend(w0, w1, *world, area, rank_stones_area(cx as int, court_z as int, gy as int)); lemma_halls_kept(w0, w1, *world, rank_stones_area(cx as int, court_z as int, gy as int), cx as int, cz as int, gy as int); }
    let ghost w1 = *world;
    place_throne_hall(world, cx, court_z - 2, gy);
    proof { lemma_palace_next(w0, w1, *world, cx as int, cz as int, gy as int, 4); }
    proof { lemma_extend(w0, w1, *world, area, throne_hall_area(cx as int, court_z - 2, gy as int)); lemma_halls_kept(w0, w1, *world, throne_hall_area(cx as int, court_z - 2, gy as int), cx as int, cz as int, gy as int); }
    let ghost w1 = *world;
    lay_cloister(world, cx, court_z, gy);
    proof { lemma_palace_next(w0, w1, *world, cx as int, cz as int, gy as int, 5); }
    proof { lemma_extend(w0, w1, *world, area, cloister_area(cx as int, court_z as int, gy as int)); lemma_halls_kept(w0, w1, *world, cloister_area(cx as int, court_z as int, gy as int), cx as int, cz as int, gy as int); }
    let ghost w1 = *world;
    place_inner_gate(world, cx, court_z + COURT_Z, gy);
    proof { lemma_palace_next(w0, w1, *world, cx as int, cz as int, gy as int, 6); }
    proof { lemma_extend(w0, w1, *world, area, inner_gate_area(cx as int, court_z + COURT_Z, gy as int)); lemma_halls_kept(w0, w1, *world, inner_gate_area(cx as int, court_z + COURT_Z, gy as int), cx as int, cz as int, gy as int); }

    // 침전 — the halls the court lived in, running north behind the throne
    // hall.
    let ghost before_iq = *world;
    place_inner_quarters(world, cx, cz, gy);
    proof { lemma_palace_next(w0, before_iq, *world, cx as int, cz as int, gy as int, 7); }
    let ghost s1 = *world;
    proof {
        lemma_extend(w0, before_iq, s1, area, inner_quarters_area(cx as int, cz as int, gy as int));
        assert(halls_same(s1, s1, cx as int, cz as int, gy as int));
    }

    // 경회루 on its pond west of the axis, 자경전 in the strip to the east.
    let ghost w1 = *world;
    place_gyeonghoeru(world, cx - 30, cz - 8, gy);
    proof { lemma_palace_next(w0, w1, *world, cx as int, cz as int, gy as int, 8); }
    proof { lemma_extend(w0, w1, *world, area, gyeonghoeru_area(cx - 30, cz - 8, gy as int)); lemma_halls_kept(s1, w1, *world, gyeonghoeru_area(cx - 30, cz - 8, gy as int), cx as int, cz as int, gy as int); }
    let ghost w1 = *world;
    place_jagyeongjeon(world, cx + JAGYEONG_X, cz + JAGYEONG_Z, gy);
    proof { lemma_palace_next(w0, w1, *world, cx as int, cz as int, gy as int, 9); }
    proof { lemma_extend(w0, w1, *world, area, jagyeongjeon_area(cx + JAGYEONG_X, cz + JAGYEONG_Z, gy as int)); lemma_halls_kept(s1, w1, *world, jagyeongjeon_area(cx + JAGYEONG_X, cz + JAGYEONG_Z, gy as int), cx as int, cz as int, gy as int); }
    // 수정전 and 동궁 fill the flanks either side of the inner yards.
    let ghost w1 = *world;
    compound_wall(world, cx + SUJEONG_X, cz + SUJEONG_Z, gy, 7, 8, false);
    proof { lemma_palace_next(w0, w1, *world, cx as int, cz as int, gy as int, 10); }
    proof { lemma_extend(w0, w1, *world, area, compound_wall_area(cx + SUJEONG_X, cz + SUJEONG_Z, gy as int, 7, 8)); lemma_halls_kept(s1, w1, *world, compound_wall_area(cx + SUJEONG_X, cz + SUJEONG_Z, gy as int, 7, 8), cx as int, cz as int, gy as int); }
    let ghost w1 = *world;
    place_residence(world, cx + SUJEONG_X, cz + SUJEONG_Z, gy, 5, 4, true);
    proof { lemma_palace_next(w0, w1, *world, cx as int, cz as int, gy as int, 11); }
    proof { lemma_extend(w0, w1, *world, area, residence_area(cx + SUJEONG_X, cz + SUJEONG_Z, gy as int, 5, 4)); lemma_halls_kept(s1, w1, *world, residence_area(cx + SUJEONG_X, cz + SUJEONG_Z, gy as int, 5, 4), cx as int, cz as int, gy as int); }
    let ghost w1 = *world;
    compound_wall(world, cx + DONGGUNG_X, cz + DONGGUNG_Z, gy, 7, 8, false);
    proof { lemma_palace_next(w0, w1, *world, cx as int, cz as int, gy as int, 12); }
    proof { lemma_extend(w0, w1, *world, area, compound_wall_area(cx + DONGGUNG_X, cz + DONGGUNG_Z, gy as int, 7, 8)); lemma_halls_kept(s1, w1, *world, compound_wall_area(cx + DONGGUNG_X, cz + DONGGUNG_Z, gy as int, 7, 8), cx as int, cz as int, gy as int); }
    let ghost w1 = *world;
    place_residence(world, cx + DONGGUNG_X, cz + DONGGUNG_Z, gy, 5, 4, true);
    proof { lemma_palace_next(w0, w1, *world, cx as int, cz as int, gy as int, 13); }
    proof { lemma_extend(w0, w1, *world, area, residence_area(cx + DONGGUNG_X, cz + DONGGUNG_Z, gy as int, 5, 4)); lemma_halls_kept(s1, w1, *world, residence_area(cx + DONGGUNG_X, cz + DONGGUNG_Z, gy as int, 5, 4), cx as int, cz as int, gy as int); }
    // 향원정, the hexagonal pavilion in the rear garden, at the far north.
    let ghost w1 = *world;
    place_hyangwonjeong(world, cx, cz + HYANGWON_Z, gy);
    proof { lemma_palace_next(w0, w1, *world, cx as int, cz as int, gy as int, 14); }
    proof { lemma_extend(w0, w1, *world, area, hyangwonjeong_area(cx as int, cz + HYANGWON_Z, gy as int)); lemma_halls_kept(s1, w1, *world, hyangwonjeong_area(cx as int, cz + HYANGWON_Z, gy as int), cx as int, cz as int, gy as int); }
    proof {
        lemma_crown_kept(w0, before_iq, s1, *world, cx as int, cz + SAJEONG_Z, residence_crown(gy as int, 7, 4), lo, gy + 12, Block::RoofRidge);
        lemma_crown_kept(w0, before_iq, s1, *world, cx as int, cz + GANGNYEONG_Z, residence_crown(gy as int, 8, 4), lo, gy + 12, Block::RoofTile);
        lemma_crown_kept(w0, before_iq, s1, *world, cx as int, cz + GYOTAE_Z, residence_crown(gy as int, 7, 4), lo, gy + 12, Block::RoofTile);
    }
}

/// Generate the compact Joseon map: a bare level plain at `GROUND` with the
/// compact 경복궁 standing on it and nothing else. The seed changes nothing.
///
/// Outside the palace's box the world is exactly the plain; nothing anywhere
/// is a plant or leaves; and the top course of the world is empty. Seen from
/// above, 사정전 keeps its white ridge, while 강녕전 and 교태전 are 무량각:
/// their crowns are plain tile, with nothing over them.
pub fn generate(_seed: u32) -> (w: World)
    ensures
        w.wf(),
        forall|x: int, y: int, z: int|
            #[trigger] w.block_at(x, y, z) == (if in_world(x, y, z) && palace_plan(GROUND as int)(x, y, z) is Some {
                palace_plan(GROUND as int)(x, y, z)->0
            } else if in_world(x, y, z) && y <= GROUND {
                flat_block(GROUND as int, y)
            } else {
                Block::Air
            }),
        w.levels_placed(),
        forall|x: int, y: int, z: int|
            !in_box(x, y, z, WORLD_X / 2 - PALACE_X, WORLD_X / 2 + PALACE_X, GROUND - 3, GROUND + 20, WORLD_Z / 2 - PALACE_NORTH, WORLD_Z / 2 + PALACE_SOUTH + 5)
                ==> #[trigger] w.block_at(x, y, z) == (if in_world(x, y, z) && y <= GROUND { flat_block(GROUND as int, y) } else { Block::Air }),
        forall|x: int, y: int, z: int| !(#[trigger] w.block_at(x, y, z)).is_plant() && !(w.block_at(x, y, z) is Leaves),
        forall|x: int, z: int| #[trigger] w.block_at(x, WORLD_Y - 1, z) == Block::Air,
        w.block_at(WORLD_X / 2, GROUND + 10, WORLD_Z / 2 + SAJEONG_Z) == Block::RoofRidge,
        w.block_at(WORLD_X / 2, GROUND + 10, WORLD_Z / 2 + GANGNYEONG_Z) == Block::RoofTile,
        w.block_at(WORLD_X / 2, GROUND + 10, WORLD_Z / 2 + GYOTAE_Z) == Block::RoofTile,
        forall|y: int|
            y > GROUND + 10 ==> (#[trigger] w.block_at(WORLD_X / 2, y, WORLD_Z / 2 + SAJEONG_Z)) is Air
                && w.block_at(WORLD_X / 2, y, WORLD_Z / 2 + GANGNYEONG_Z) is Air && w.block_at(WORLD_X / 2, y, WORLD_Z / 2 + GYOTAE_Z) is Air,
{
    let mut world = World::empty();
    let ghost bare = world;
    world.fill_flat(GROUND);
    let ghost plain = world;
    place_palace(&mut world, GROUND);
    proof {
        World::lemma_plain_levels(bare, plain, GROUND as int, |x: int, y: int, z: int| true);
        World::lemma_lays_levels(plain, world, palace_plan(GROUND as int));
        assert forall|x: int, y: int, z: int|
            #[trigger] world.block_at(x, y, z) == (if in_world(x, y, z) && palace_plan(GROUND as int)(x, y, z) is Some {
                palace_plan(GROUND as int)(x, y, z)->0
            } else if in_world(x, y, z) && y <= GROUND {
                flat_block(GROUND as int, y)
            } else {
                Block::Air
            }) by {
            reveal(World::lays);
            plain.lemma_cell(x, y, z);
            assert(plain.block_at(x, y, z) == (if in_world(x, y, z) && y <= GROUND { flat_block(GROUND as int, y) } else { Block::Air }));
        }
        assert(residence_crown(GROUND as int, 7, 4) == GROUND + 10);
        assert(residence_crown(GROUND as int, 8, 4) == GROUND + 10);
        assert forall|y: int|
            y > GROUND + 10 implies (#[trigger] world.block_at(WORLD_X / 2, y, WORLD_Z / 2 + SAJEONG_Z)) is Air
                && world.block_at(WORLD_X / 2, y, WORLD_Z / 2 + GANGNYEONG_Z) is Air && world.block_at(WORLD_X / 2, y, WORLD_Z / 2 + GYOTAE_Z) is Air by {
            assert(plain.block_at(WORLD_X / 2, y, WORLD_Z / 2 + SAJEONG_Z) == Block::Air);
            assert(plain.block_at(WORLD_X / 2, y, WORLD_Z / 2 + GANGNYEONG_Z) == Block::Air);
            assert(plain.block_at(WORLD_X / 2, y, WORLD_Z / 2 + GYOTAE_Z) == Block::Air);
        }
        assert forall|x: int, y: int, z: int|
            !(#[trigger] world.block_at(x, y, z)).is_plant() && !(world.block_at(x, y, z) is Leaves) by {
            if world.block_at(x, y, z) != plain.block_at(x, y, z) || world.level_at(x, y, z) != plain.level_at(x, y, z) {
            } else {
                assert(plain.block_at(x, y, z) == world.block_at(x, y, z));
            }
        }
        assert forall|x: int, z: int| #[trigger] world.block_at(x, WORLD_Y - 1, z) == Block::Air by {
            assert(world.block_at(x, WORLD_Y - 1, z) == plain.block_at(x, WORLD_Y - 1, z) || world.level_at(x, WORLD_Y - 1, z) != plain.level_at(x, WORLD_Y - 1, z));
        }
    }
    world
}

} // verus!
