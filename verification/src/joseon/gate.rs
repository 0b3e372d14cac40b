//! The gates and the precinct wall: 광화문, the three lesser gates, the
//! timber gates on the axis, and the corner watchtower.

use vstd::prelude::*;
use crate::block::Block;
use crate::world::World;
use super::{
    abs, rem_euclid, builds_in, lemma_start, lemma_extend, lemma_lays_builds, plan_within,
    fill_column, column_range, coord, site, Area, PALACE_NORTH, PALACE_SOUTH, PALACE_X,
};
use super::style::{
    iabs, brackets_plan, lay_brackets, lay_roof, roof_courses, roof_plan, wall_column, wall_course, BAY,
    BRACKET_TIERS, DOOR_H, EAVES,
    PALACE_STEP, WALL_H,
};

verus! {

/// The world cell at offset `t` along a run and `w` across it, for a run
/// lying along X (`along_x`) or along Z through `(cx, cz)`.
pub fn run_cell(along_x: bool, cx: i32, cz: i32, t: i32, w: i32) -> (r: (i32, i32))
    requires
        coord(cx as int),
        coord(cz as int),
        -1000 <= t <= 1000,
        -1000 <= w <= 1000,
    ensures
        r == (if along_x { ((cx + t) as i32, (cz + w) as i32) } else { ((cx + w) as i32, (cz + t) as i32) }),
{
    if along_x {
        (cx + t, cz + w)
    } else {
        (cx + w, cz + t)
    }
}

/// Where `place_wall_gate` may build.
pub open spec fn wall_gate_area(cx: int, cz: int, gy: int) -> Area {
    (cx - 10, cx + 10, gy + 1, gy + 23, cz - 10, cz + 10)
}

/// The masonry and timber of a lesser gate, column by column, in offsets
/// `t` along the wall and `w` across it: over the 13 by 9 base, granite up to
/// eight above the ground, but for the arched passage five wide through it
/// (clear to seven, to six at its sides); round the base's edge a storey four
/// high over it, red pillars at every bay and at the corners and paper
/// between, and the painted beam over that.
pub open spec fn wall_gate_body_plan(cx: int, cz: int, gy: int, along_x: bool) -> spec_fn(int, int, int) -> Option<Block> {
    |a: int, b: int, c: int|
        if iabs(World::along(along_x, cx, cz, a, c)) <= 6 && iabs(World::across(along_x, cx, cz, a, c)) <= 4 {
            let t = World::along(along_x, cx, cz, a, c);
            let w = World::across(along_x, cx, cz, a, c);
            let ring = iabs(t) == 6 || iabs(w) == 4;
            if gy + 1 <= b <= gy + 8 {
                if iabs(t) <= 2 && b <= gy + 7 && !(b == gy + 7 && iabs(t) == 2) {
                    Some(Block::Air)
                } else {
                    Some(Block::Granite)
                }
            } else if gy + 9 <= b <= gy + 12 && ring {
                Some(if t % 6 == 0 || (iabs(t) == 6 && iabs(w) == 4) { Block::RedPillar } else { Block::Paper })
            } else if b == gy + 13 && ring {
                Some(Block::Dancheong)
            } else {
                None
            }
        } else {
            None
        }
}

/// What `place_wall_gate` lays: its body, then its bracket band and roof
/// over the 6 by 4 body (turned with the wall).
pub open spec fn wall_gate_plan(cx: int, cz: int, gy: int, along_x: bool) -> spec_fn(int, int, int) -> Option<Block> {
    let (bx, bz) = if along_x { (6int, 4int) } else { (4int, 6int) };
    World::overlay(
        World::overlay(wall_gate_body_plan(cx, cz, gy, along_x), brackets_plan(cx, cz, bx, bz, gy + 14)),
        roof_plan(cx, cz, bx + EAVES, bz + EAVES, gy + 14 + BRACKET_TIERS, PALACE_STEP as int, true),
    )
}

/// Lay the body of a lesser gate column by column.
#[verifier::loop_isolation(false)]
fn wall_gate_body(world: &mut World, cx: i32, cz: i32, gy: i32, along_x: bool)
    requires
        old(world).wf(),
        site(cx as int),
        site(cz as int),
        site(gy as int),
    ensures
        final(world).wf(),
        World::lays(*old(world), *final(world), wall_gate_body_plan(cx as int, cz as int, gy as int, along_x)),
{
    // Half-width along the wall, half-depth across it.
    let half: i32 = 6;
    let thick: i32 = 4;
    let base_h: i32 = 8;
    let pass: i32 = 2;
    let floor = gy + base_h + 1;
    let storey_h: i32 = 4;
    let ghost w0 = *world;
    let ghost plan = wall_gate_body_plan(cx as int, cz as int, gy as int, along_x);
    proof {
        World::lemma_run_start(w0, plan, along_x, cx as int, cz as int, -6, -4);
    }
    let mut t = -half;
    while t <= half
        invariant
            -half <= t <= half + 1,
            world.wf(),
            World::lays(w0, *world, World::run_scan(plan, along_x, cx as int, cz as int, t as int, -4)),
        decreases half + 1 - t,
    {
        let mut w = -thick;
        while w <= thick
            invariant
                -half <= t <= half,
                -thick <= w <= thick + 1,
                world.wf(),
                World::lays(w0, *world, World::run_scan(plan, along_x, cx as int, cz as int, t as int, w as int)),
            decreases thick + 1 - w,
        {
            let (x, z) = run_cell(along_x, cx, cz, t, w);
            let ghost w1 = *world;
            // A granite base filling the wall's thickness, then the passage
            // cut back out of it — its head rounded so it reads as an arch —
            // so it takes the place of any 담장 under it.
            fill_column(world, x, z, gy + 1, gy + base_h, Block::Granite);
            let ghost w2 = *world;
            let arch = if abs(t) < pass {
                gy + base_h - 1
            } else if abs(t) == pass {
                gy + base_h - 2
            } else {
                gy
            };
            fill_column(world, x, z, gy + 1, arch, Block::Air);
            let ghost w3 = *world;
            // The painted storey over it, and its beam.
            let ring = abs(t) == half || abs(w) == thick;
            let post = rem_euclid(t, BAY) == 0 || (abs(t) == half && abs(w) == thick);
            let wall_top = if ring { floor + storey_h - 1 } else { floor - 1 };
            fill_column(world, x, z, floor, wall_top, if post { Block::RedPillar } else { Block::Paper });
            let ghost w4 = *world;
            if ring {
                world.set(x, floor + storey_h, z, Block::Dancheong);
            }
            proof {
                let stone = column_range(x as int, z as int, gy + 1, gy + 8, Block::Granite);
                let passage = column_range(x as int, z as int, gy + 1, arch as int, Block::Air);
                let storey = column_range(x as int, z as int, gy + 9, wall_top as int, if post { Block::RedPillar } else { Block::Paper });
                let beam = if ring { World::single(x as int, gy + 13, z as int, Block::Dancheong) } else { World::nothing() };
                if ring {
                    World::lemma_lays_single(w4, *world, x as int, gy + 13, z as int, Block::Dancheong);
                } else {
                    World::lemma_lays_nothing(w4);
                }
                World::lemma_lays_compose(w1, w2, w3, stone, passage);
                World::lemma_lays_compose(w1, w3, w4, World::overlay(stone, passage), storey);
                World::lemma_lays_compose(w1, w4, *world, World::overlay(World::overlay(stone, passage), storey), beam);
                World::lemma_run_step(
                    w0,
                    w1,
                    *world,
                    plan,
                    World::overlay(World::overlay(World::overlay(stone, passage), storey), beam),
                    along_x,
                    cx as int,
                    cz as int,
                    t as int,
                    w as int,
                );
            }
            w = w + 1;
        }
        proof {
            World::lemma_run_move(w0, *world, plan, along_x, cx as int, cz as int, t as int, w as int, t + 1, -4);
        }
        t = t + 1;
    }
    proof {
        World::lemma_run_finish(w0, *world, plan, along_x, cx as int, cz as int, t as int, -4);
    }
}

/// 영추문 / 건춘문 / 신무문 — a lesser gate through the precinct wall: a granite
/// base filling the wall's thickness with one arched passage cut through it,
/// a painted storey over it, and its roof. `along_x` says which way the wall
/// runs here.
pub fn place_wall_gate(world: &mut World, cx: i32, cz: i32, gy: i32, along_x: bool)
    requires
        old(world).wf(),
        site(cx as int),
        site(cz as int),
        site(gy as int),
    ensures
        final(world).wf(),
        World::lays(*old(world), *final(world), wall_gate_plan(cx as int, cz as int, gy as int, along_x)),
        builds_in(*old(world), *final(world), wall_gate_area(cx as int, cz as int, gy as int)),
{
    let half: i32 = 6;
    let thick: i32 = 4;
    let ghost w0 = *world;
    let ghost area = wall_gate_area(cx as int, cz as int, gy as int);
    wall_gate_body(world, cx, cz, gy, along_x);
    let ghost w1 = *world;
    let beam = gy + 13;
    let (bx, bz) = if along_x {
        (half, thick)
    } else {
        (thick, half)
    };
    let eave = lay_brackets(world, cx, cz, bx, bz, beam + 1);
    let ghost w2 = *world;
    lay_roof(world, cx, cz, bx, bz, eave, EAVES, PALACE_STEP, true);
    proof {
        let p1 = wall_gate_body_plan(cx as int, cz as int, gy as int, along_x);
        let p2 = brackets_plan(cx as int, cz as int, bx as int, bz as int, beam + 1);
        let p3 = roof_plan(cx as int, cz as int, bx + EAVES, bz + EAVES, eave as int, PALACE_STEP as int, true);
        World::lemma_lays_compose(w0, w1, w2, p1, p2);
        World::lemma_lays_compose(w0, w2, *world, World::overlay(p1, p2), p3);
        assert(plan_within(p1, area));
        lemma_lays_builds(w0, w1, p1, area);
        lemma_extend(w0, w1, w2, area, (cx - bx - BRACKET_TIERS, cx + bx + BRACKET_TIERS, beam + 1, beam + BRACKET_TIERS, cz - bz - BRACKET_TIERS, cz + bz + BRACKET_TIERS));
        lemma_extend(w0, w2, *world, area, (cx - bx - EAVES, cx + bx + EAVES, eave as int, eave + roof_courses(bx + EAVES, bz + EAVES, PALACE_STEP as int) + 1, cz - bz - EAVES, cz + bz + EAVES));
    }
}

/// Where `place_corner_tower` may build: the base, the stair running north
/// into the precinct, and the pavilion's roof.
pub open spec fn corner_tower_area(cx: int, cz: int, gy: int) -> Area {
    (cx - 9, cx + 9, gy + 1, gy + 29, cz - 20, cz + 9)
}

/// The base and pavilion of 동십자각, column by column: over the 17-square
/// base, granite twelve high; on it, on the ring 5 out from the centre, an
/// open colonnade six high — red pillars at the corners and wherever an
/// offset is a whole number of bays — and the painted beam over it.
pub open spec fn tower_body_plan(cx: int, cz: int, gy: int) -> spec_fn(int, int, int) -> Option<Block> {
    |a: int, b: int, c: int|
        if iabs(a - cx) <= 8 && iabs(c - cz) <= 8 {
            let on_ring = iabs(a - cx) <= 5 && iabs(c - cz) <= 5 && (iabs(a - cx) == 5 || iabs(c - cz) == 5);
            if gy + 1 <= b <= gy + 12 {
                Some(Block::Granite)
            } else if gy + 13 <= b <= gy + 18 && on_ring && ((iabs(a - cx) == 5 && iabs(c - cz) == 5) || (a - cx) % 6 == 0
                || (c - cz) % 6 == 0) {
                Some(Block::RedPillar)
            } else if b == gy + 19 && on_ring {
                Some(Block::Dancheong)
            } else {
                None
            }
        } else {
            None
        }
}

/// The stair of 동십자각: three wide, 6 west of the centre, running north
/// from the base's north face for twelve blocks, each tread a course lower
/// than the one before, from twelve above the ground, with four clear over
/// each tread.
pub open spec fn tower_stair_plan(cx: int, cz: int, gy: int) -> spec_fn(int, int, int) -> Option<Block> {
    |a: int, b: int, c: int|
        if 0 <= cz - 9 - c <= 11 && iabs(a - (cx - 6)) <= 1 {
            if b == gy + 12 - (cz - 9 - c) {
                Some(Block::Granite)
            } else if gy + 13 - (cz - 9 - c) <= b <= gy + 16 - (cz - 9 - c) {
                Some(Block::Air)
            } else {
                None
            }
        } else {
            None
        }
}

/// What `place_corner_tower` lays: the base and pavilion, the stair, then
/// the bracket band and roof over the pavilion.
pub open spec fn corner_tower_plan(cx: int, cz: int, gy: int) -> spec_fn(int, int, int) -> Option<Block> {
    World::overlay(
        World::overlay(World::overlay(tower_body_plan(cx, cz, gy), tower_stair_plan(cx, cz, gy)), brackets_plan(cx, cz, 5, 5, gy + 20)),
        roof_plan(cx, cz, 5 + EAVES, 5 + EAVES, gy + 20 + BRACKET_TIERS, PALACE_STEP as int, true),
    )
}

/// Lay the base of 동십자각 and the pavilion on it, column by column.
#[verifier::loop_isolation(false)]
fn tower_body(world: &mut World, cx: i32, cz: i32, gy: i32)
    requires
        old(world).wf(),
        site(cx as int),
        site(cz as int),
        site(gy as int),
    ensures
        final(world).wf(),
        World::lays(*old(world), *final(world), tower_body_plan(cx as int, cz as int, gy as int)),
{
    let half: i32 = 8;
    let base_h: i32 = 12;
    // How far the pavilion stands in from the edge of the base.
    let inset: i32 = 3;
    let px = half - inset;
    let floor = gy + base_h + 1;
    let ghost w0 = *world;
    let ghost plan = tower_body_plan(cx as int, cz as int, gy as int);
    proof {
        World::lemma_columns_start(w0, plan, cx as int, cz as int, -8, -8);
    }
    let mut dz = -half;
    while dz <= half
        invariant
            -half <= dz <= half + 1,
            world.wf(),
            World::lays(w0, *world, World::columns(plan, cx as int, cz as int, dz as int, -8)),
        decreases half + 1 - dz,
    {
        let mut dx = -half;
        while dx <= half
            invariant
                -half <= dz <= half,
                -half <= dx <= half + 1,
                world.wf(),
                World::lays(w0, *world, World::columns(plan, cx as int, cz as int, dz as int, dx as int)),
            decreases half + 1 - dx,
        {
            let (x, z) = (cx + dx, cz + dz);
            let ghost w1 = *world;
            fill_column(world, x, z, gy + 1, gy + base_h, Block::Granite);
            let ghost w2 = *world;
            // The pavilion: an open colonnade, no infill — it is a lookout.
            let on_ring = abs(dx) <= px && abs(dz) <= px && (abs(dx) == px || abs(dz) == px);
            let corner = abs(dx) == px && abs(dz) == px;
            let post = on_ring && (corner || rem_euclid(dx, BAY) == 0 || rem_euclid(dz, BAY) == 0);
            let top = if post { floor + 5 } else { floor - 1 };
            fill_column(world, x, z, floor, top, Block::RedPillar);
            let ghost w3 = *world;
            if on_ring {
                world.set(x, floor + 6, z, Block::Dancheong);
            }
            proof {
                let stone = column_range(x as int, z as int, gy + 1, gy + 12, Block::Granite);
                let pillar = column_range(x as int, z as int, gy + 13, top as int, Block::RedPillar);
                let beam = if on_ring { World::single(x as int, gy + 19, z as int, Block::Dancheong) } else { World::nothing() };
                if on_ring {
                    World::lemma_lays_single(w3, *world, x as int, gy + 19, z as int, Block::Dancheong);
                } else {
                    World::lemma_lays_nothing(w3);
                }
                World::lemma_lays_compose(w1, w2, w3, stone, pillar);
                World::lemma_lays_compose(w1, w3, *world, World::overlay(stone, pillar), beam);
                World::lemma_column_step(w0, w1, *world, plan, World::overlay(World::overlay(stone, pillar), beam), cx as int, cz as int, dz as int, dx as int);
            }
            dx = dx + 1;
        }
        proof {
            World::lemma_column_move(w0, *world, plan, cx as int, cz as int, dz as int, dx as int, dz + 1, -8);
        }
        dz = dz + 1;
    }
    proof {
        World::lemma_columns_finish(w0, *world, plan, cx as int, cz as int, dz as int, -8);
    }
}

/// Lay the stair of 동십자각, from its foot up to the base.
#[verifier::loop_isolation(false)]
fn tower_stair(world: &mut World, cx: i32, cz: i32, gy: i32)
    requires
        old(world).wf(),
        site(cx as int),
        site(cz as int),
        site(gy as int),
    ensures
        final(world).wf(),
        World::lays(*old(world), *final(world), tower_stair_plan(cx as int, cz as int, gy as int)),
{
    let half: i32 = 8;
    let base_h: i32 = 12;
    let stair_x = cx - half + 2;
    let ghost w0 = *world;
    let ghost plan = tower_stair_plan(cx as int, cz as int, gy as int);
    proof {
        World::lemma_columns_start(w0, plan, cx as int, cz as int, -20, -7);
    }
    let mut step: i32 = base_h;
    while step > 0
        invariant
            0 <= step <= base_h,
            base_h == 12,
            half == 8,
            stair_x == cx - 6,
            world.wf(),
            World::lays(w0, *world, World::columns(plan, cx as int, cz as int, -8 - step, -7)),
        decreases step,
    {
        step = step - 1;
        let z = cz - half - 1 - step;
        let mut dx: i32 = -1;
        while dx <= 1
            invariant
                0 <= step < base_h,
                -1 <= dx <= 2,
                z == cz - half - 1 - step,
                world.wf(),
                World::lays(w0, *world, World::columns(plan, cx as int, cz as int, z - cz, stair_x + dx - cx)),
            decreases 2 - dx,
        {
            let ghost w1 = *world;
            world.set(stair_x + dx, gy + base_h - step, z, Block::Granite);
            let ghost w2 = *world;
            fill_column(world, stair_x + dx, z, gy + base_h - step + 1, gy + base_h - step + 4, Block::Air);
            proof {
                let tread = World::single(stair_x + dx, gy + 12 - step, z as int, Block::Granite);
                let clear = column_range(stair_x + dx, z as int, gy + 13 - step, gy + 16 - step, Block::Air);
                World::lemma_lays_single(w1, w2, stair_x + dx, gy + 12 - step, z as int, Block::Granite);
                World::lemma_lays_compose(w1, w2, *world, tread, clear);
                World::lemma_column_step(w0, w1, *world, plan, World::overlay(tread, clear), cx as int, cz as int, z - cz, stair_x + dx - cx);
            }
            dx = dx + 1;
        }
        proof {
            World::lemma_column_move(w0, *world, plan, cx as int, cz as int, z - cz, stair_x + dx - cx, -8 - step, -7);
        }
    }
    proof {
        World::lemma_columns_finish(w0, *world, plan, cx as int, cz as int, -8 - step, -7);
    }
}

/// 동십자각 — the watchtower on the south-east corner of the wall: a solid
/// granite base higher than the wall, a stair down its inward face, and an
/// open pavilion standing in from the base's edge, leaving a walkway round it.
pub fn place_corner_tower(world: &mut World, cx: i32, cz: i32, gy: i32)
    requires
        old(world).wf(),
        site(cx as int),
        site(cz as int),
        site(gy as int),
    ensures
        final(world).wf(),
        World::lays(*old(world), *final(world), corner_tower_plan(cx as int, cz as int, gy as int)),
        builds_in(*old(world), *final(world), corner_tower_area(cx as int, cz as int, gy as int)),
{
    let px: i32 = 5;
    let ghost w0 = *world;
    let ghost area = corner_tower_area(cx as int, cz as int, gy as int);
    tower_body(world, cx, cz, gy);
    let ghost w1 = *world;
    // A stair down the inward face, so the tower can actually be climbed. It
    // runs north into the precinct, dropping a course a block, set well inside
    // the wall line so it cannot notch the 담장.
    tower_stair(world, cx, cz, gy);
    let ghost w2 = *world;
    let beam = gy + 19;
    let eave = lay_brackets(world, cx, cz, px, px, beam + 1);
    let ghost w3 = *world;
    lay_roof(world, cx, cz, px, px, eave, EAVES, PALACE_STEP, true);
    proof {
        let p1 = tower_body_plan(cx as int, cz as int, gy as int);
        let p2 = tower_stair_plan(cx as int, cz as int, gy as int);
        let p3 = brackets_plan(cx as int, cz as int, 5, 5, beam + 1);
        let p4 = roof_plan(cx as int, cz as int, 5 + EAVES, 5 + EAVES, eave as int, PALACE_STEP as int, true);
        World::lemma_lays_compose(w0, w1, w2, p1, p2);
        World::lemma_lays_compose(w0, w2, w3, World::overlay(p1, p2), p3);
        World::lemma_lays_compose(w0, w3, *world, World::overlay(World::overlay(p1, p2), p3), p4);
        assert(plan_within(p1, area));
        assert(plan_within(p2, area));
        lemma_lays_builds(w0, w1, p1, area);
        lemma_lays_builds(w1, w2, p2, area);
        lemma_extend(w0, w1, w2, area, area);
        lemma_extend(w0, w2, w3, area, (cx - px - BRACKET_TIERS, cx + px + BRACKET_TIERS, beam + 1, beam + BRACKET_TIERS, cz - px - BRACKET_TIERS, cz + px + BRACKET_TIERS));
        lemma_extend(w0, w3, *world, area, (cx - px - EAVES, cx + px + EAVES, eave as int, eave + roof_courses(px + EAVES, px + EAVES, PALACE_STEP as int) + 1, cz - px - EAVES, cz + px + EAVES));
    }
}

/// Where `place_timber_gate` may build.
pub open spec fn timber_gate_area(cx: int, cz: int, gy: int, gx: int, gz: int) -> Area {
    (cx - gx - EAVES, cx + gx + EAVES, gy + 1, gy + 20 + roof_courses(gx + EAVES, gz + EAVES, PALACE_STEP as int), cz - gz - EAVES, cz + gz + EAVES)
}

/// The body of a timber gate of half-extents `(gx, gz)`, column by column:
/// a granite sill, the air cleared twenty over it — the passage through the
/// middle stays open — and round the edge a storey eight high: three
/// doorways six high in each face (the king's, three wide, on the axis, and
/// one each side from 8 to 10 off it), red pillars at every bay and at the
/// corners and paper between, and the painted beam over it.
pub open spec fn timber_gate_body_plan(cx: int, cz: int, gy: int, gx: int, gz: int) -> spec_fn(int, int, int) -> Option<Block> {
    |a: int, b: int, c: int|
        if iabs(a - cx) <= gx && iabs(c - cz) <= gz {
            let ring = iabs(a - cx) == gx || iabs(c - cz) == gz;
            let door = iabs(c - cz) == gz && (iabs(a - cx) <= 2 || (8 <= iabs(a - cx) && iabs(a - cx) <= 10));
            if b == gy + 1 {
                Some(Block::Granite)
            } else if ring && gy + 2 <= b <= gy + 9 && !(door && b <= gy + 7) {
                Some(if (a - cx) % 6 == 0 || (iabs(a - cx) == gx && iabs(c - cz) == gz) { Block::RedPillar } else { Block::Paper })
            } else if ring && b == gy + 10 {
                Some(Block::Dancheong)
            } else if gy + 2 <= b <= gy + 20 {
                Some(Block::Air)
            } else {
                None
            }
        } else {
            None
        }
}

/// What `place_timber_gate` lays: its body, then its bracket band and roof.
pub open spec fn timber_gate_plan(cx: int, cz: int, gy: int, gx: int, gz: int) -> spec_fn(int, int, int) -> Option<Block> {
    World::overlay(
        World::overlay(timber_gate_body_plan(cx, cz, gy, gx, gz), brackets_plan(cx, cz, gx, gz, gy + 11)),
        roof_plan(cx, cz, gx + EAVES, gz + EAVES, gy + 11 + BRACKET_TIERS, PALACE_STEP as int, true),
    )
}

/// Lay the body of a timber gate column by column.
#[verifier::loop_isolation(false)]
fn timber_gate_body(world: &mut World, cx: i32, cz: i32, gy: i32, gx: i32, gz: i32)
    requires
        old(world).wf(),
        site(cx as int),
        site(cz as int),
        site(gy as int),
        1 <= gx <= 500,
        1 <= gz <= 500,
    ensures
        final(world).wf(),
        World::lays(*old(world), *final(world), timber_gate_body_plan(cx as int, cz as int, gy as int, gx as int, gz as int)),
{
    let body_h: i32 = 8;
    let floor = gy + 2;
    let ghost w0 = *world;
    let ghost plan = timber_gate_body_plan(cx as int, cz as int, gy as int, gx as int, gz as int);
    proof {
        World::lemma_columns_start(w0, plan, cx as int, cz as int, -gz as int, -gx as int);
    }
    let mut dz = -gz;
    while dz <= gz
        invariant
            -gz <= dz <= gz + 1,
            world.wf(),
            World::lays(w0, *world, World::columns(plan, cx as int, cz as int, dz as int, -gx as int)),
        decreases gz + 1 - dz,
    {
        let mut dx = -gx;
        while dx <= gx
            invariant
                -gz <= dz <= gz,
                -gx <= dx <= gx + 1,
                world.wf(),
                World::lays(w0, *world, World::columns(plan, cx as int, cz as int, dz as int, dx as int)),
            decreases gx + 1 - dx,
        {
            let (x, z) = (cx + dx, cz + dz);
            let ghost w1 = *world;
            world.set(x, gy + 1, z, Block::Granite);
            let ghost w2 = *world;
            fill_column(world, x, z, gy + 2, gy + body_h + 12, Block::Air);
            let ghost w3 = *world;
            // The passage through the middle stays open; round the edge, three
            // doorways in each face, left open as cleared.
            let ring = abs(dx) == gx || abs(dz) == gz;
            let doorway = abs(dz) == gz && (abs(dx) <= 2 || (8 <= abs(dx) && abs(dx) <= 10));
            let post = rem_euclid(dx, BAY) == 0 || (abs(dx) == gx && abs(dz) == gz);
            let wall_from = if doorway { floor + DOOR_H } else { floor };
            let wall_top = if ring { floor + body_h - 1 } else { floor - 1 };
            fill_column(world, x, z, wall_from, wall_top, if post { Block::RedPillar } else { Block::Paper });
            let ghost w4 = *world;
            if ring {
                world.set(x, floor + body_h, z, Block::Dancheong);
            }
            proof {
                let sill = World::single(x as int, gy + 1, z as int, Block::Granite);
                let clear = column_range(x as int, z as int, gy + 2, gy + 20, Block::Air);
                let storey = column_range(x as int, z as int, wall_from as int, wall_top as int, if post { Block::RedPillar } else { Block::Paper });
                let beam = if ring { World::single(x as int, gy + 10, z as int, Block::Dancheong) } else { World::nothing() };
                World::lemma_lays_single(w1, w2, x as int, gy + 1, z as int, Block::Granite);
                if ring {
                    World::lemma_lays_single(w4, *world, x as int, gy + 10, z as int, Block::Dancheong);
                } else {
                    World::lemma_lays_nothing(w4);
                }
                World::lemma_lays_compose(w1, w2, w3, sill, clear);
                World::lemma_lays_compose(w1, w3, w4, World::overlay(sill, clear), storey);
                World::lemma_lays_compose(w1, w4, *world, World::overlay(World::overlay(sill, clear), storey), beam);
                World::lemma_column_step(w0, w1, *world, plan, World::overlay(World::overlay(World::overlay(sill, clear), storey), beam), cx as int, cz as int, dz as int, dx as int);
            }
            dx = dx + 1;
        }
        proof {
            World::lemma_column_move(w0, *world, plan, cx as int, cz as int, dz as int, dx as int, dz + 1, -gx as int);
        }
        dz = dz + 1;
    }
    proof {
        World::lemma_columns_finish(w0, *world, plan, cx as int, cz as int, dz as int, -gx as int);
    }
}

/// A timber gate on the axis: a granite sill carrying a red-pillared storey
/// with three doorways in each face — the king's in the centre, an officials'
/// door either side — under its own bracketed roof. Both 근정문 and 흥례문 are
/// this building at different sizes.
pub fn place_timber_gate(world: &mut World, cx: i32, cz: i32, gy: i32, gx: i32, gz: i32)
    requires
        old(world).wf(),
        site(cx as int),
        site(cz as int),
        site(gy as int),
        1 <= gx <= 500,
        1 <= gz <= 500,
    ensures
        final(world).wf(),
        World::lays(*old(world), *final(world), timber_gate_plan(cx as int, cz as int, gy as int, gx as int, gz as int)),
        builds_in(*old(world), *final(world), timber_gate_area(cx as int, cz as int, gy as int, gx as int, gz as int)),
{
    let ghost w0 = *world;
    let ghost area = timber_gate_area(cx as int, cz as int, gy as int, gx as int, gz as int);
    timber_gate_body(world, cx, cz, gy, gx, gz);
    let ghost w1 = *world;
    let beam = gy + 10;
    let eave = lay_brackets(world, cx, cz, gx, gz, beam + 1);
    let ghost w2 = *world;
    lay_roof(world, cx, cz, gx, gz, eave, EAVES, PALACE_STEP, true);
    proof {
        let p1 = timber_gate_body_plan(cx as int, cz as int, gy as int, gx as int, gz as int);
        let p2 = brackets_plan(cx as int, cz as int, gx as int, gz as int, beam + 1);
        let p3 = roof_plan(cx as int, cz as int, gx + EAVES, gz + EAVES, eave as int, PALACE_STEP as int, true);
        World::lemma_lays_compose(w0, w1, w2, p1, p2);
        World::lemma_lays_compose(w0, w2, *world, World::overlay(p1, p2), p3);
        assert(plan_within(p1, area));
        lemma_lays_builds(w0, w1, p1, area);
        lemma_extend(w0, w1, w2, area, (cx - gx - BRACKET_TIERS, cx + gx + BRACKET_TIERS, beam + 1, beam + BRACKET_TIERS, cz - gz - BRACKET_TIERS, cz + gz + BRACKET_TIERS));
        lemma_extend(w0, w2, *world, area, (cx - gx - EAVES, cx + gx + EAVES, eave as int, eave + roof_courses(gx + EAVES, gz + EAVES, PALACE_STEP as int) + 1, cz - gz - EAVES, cz + gz + EAVES));
    }
}

/// Where `build_wall` may build: the 담장 along the precinct's edge.
pub open spec fn wall_area(cx: int, cz: int, gy: int) -> Area {
    (cx - PALACE_X, cx + PALACE_X, gy + 1, gy + WALL_H, cz - PALACE_NORTH, cz + PALACE_SOUTH)
}

/// What `build_wall` lays: a 담장 column on every cell of the precinct's edge,
/// `PALACE_X` either side of the axis and from `PALACE_NORTH` behind the
/// centre to `PALACE_SOUTH` before it, but the gap of half-width 14 left in
/// the south face for 광화문.
pub open spec fn wall_plan(cx: int, cz: int, gy: int) -> spec_fn(int, int, int) -> Option<Block> {
    |a: int, b: int, c: int|
        if iabs(a - cx) <= PALACE_X && -PALACE_NORTH <= c - cz <= PALACE_SOUTH
            && (iabs(a - cx) == PALACE_X || c - cz == PALACE_SOUTH || c - cz == -PALACE_NORTH)
            && !(c - cz == PALACE_SOUTH && iabs(a - cx) <= 14) {
            wall_course(gy, b, None)
        } else {
            None
        }
}

/// The 담장 around the precinct: granite footing, plaster body, tiled coping —
/// left open where 광화문 stands.
#[verifier::loop_isolation(false)]
pub fn build_wall(world: &mut World, cx: i32, cz: i32, gy: i32)
    requires
        old(world).wf(),
        site(cx as int),
        site(cz as int),
        site(gy as int),
    ensures
        final(world).wf(),
        World::lays(*old(world), *final(world), wall_plan(cx as int, cz as int, gy as int)),
        builds_in(*old(world), *final(world), wall_area(cx as int, cz as int, gy as int)),
{
    let ghost w0 = *world;
    let ghost area = wall_area(cx as int, cz as int, gy as int);
    let ghost plan = wall_plan(cx as int, cz as int, gy as int);
    proof {
        lemma_start(w0, area);
        World::lemma_lays_nothing(w0);
        World::lemma_lays_congr(w0, w0, World::nothing(), World::columns(plan, cx as int, cz as int, -PALACE_NORTH as int, -PALACE_X as int));
    }
    let mut dz = -PALACE_NORTH;
    while dz <= PALACE_SOUTH
        invariant
            -PALACE_NORTH <= dz <= PALACE_SOUTH + 1,
            world.wf(),
            builds_in(w0, *world, area),
            World::lays(w0, *world, World::columns(plan, cx as int, cz as int, dz as int, -PALACE_X as int)),
        decreases PALACE_SOUTH + 1 - dz,
    {
        let mut dx = -PALACE_X;
        while dx <= PALACE_X
            invariant
                -PALACE_NORTH <= dz <= PALACE_SOUTH,
                -PALACE_X <= dx <= PALACE_X + 1,
                world.wf(),
                builds_in(w0, *world, area),
                World::lays(w0, *world, World::columns(plan, cx as int, cz as int, dz as int, dx as int)),
            decreases PALACE_X + 1 - dx,
        {
            let on_side = abs(dx) == PALACE_X;
            let on_end = dz == PALACE_SOUTH || dz == -PALACE_NORTH;
            // Leave the gateway clear.
            if (on_side || on_end) && !(dz == PALACE_SOUTH && abs(dx) <= 14) {
                let ghost w1 = *world;
                wall_column(world, cx + dx, gy, cz + dz, None);
                proof {
                    lemma_extend(w0, w1, *world, area, (cx + dx, cx + dx, gy + 1, gy + WALL_H, cz + dz, cz + dz));
                    World::lemma_column_step(
                        w0,
                        w1,
                        *world,
                        plan,
                        |a: int, b: int, c: int| if a == cx + dx && c == cz + dz { wall_course(gy as int, b, None) } else { None },
                        cx as int,
                        cz as int,
                        dz as int,
                        dx as int,
                    );
                }
            } else {
                proof {
                    World::lemma_column_move(w0, *world, plan, cx as int, cz as int, dz as int, dx as int, dz as int, dx + 1);
                }
            }
            dx = dx + 1;
        }
        proof {
            World::lemma_column_move(w0, *world, plan, cx as int, cz as int, dz as int, dx as int, dz + 1, -PALACE_X as int);
        }
        dz = dz + 1;
    }
    proof {
        World::lemma_column_move(w0, *world, plan, cx as int, cz as int, dz as int, -PALACE_X as int, 1_000_000_000, 0);
        assert forall|a: int, b: int, c: int| #[trigger] World::columns(plan, cx as int, cz as int, 1_000_000_000, 0)(a, b, c) == plan(a, b, c) by {
        }
        World::lemma_lays_congr(w0, *world, World::columns(plan, cx as int, cz as int, 1_000_000_000, 0), plan);
    }
}

/// Where `place_gate` may build.
pub open spec fn gate_area(cx: int, cz: int, gy: int) -> Area {
    (cx - 20, cx + 20, gy + 1, gy + 28, cz - 10, cz + 10)
}

/// How high the passage through 광화문's base is at offset `dx` along it:
/// the king's, eight high, three either side of the axis; one six high three
/// either side of 10 off it each way; none elsewhere.
pub open spec fn passage_height(dx: int) -> int {
    if iabs(dx + 10) <= 2 {
        6
    } else if iabs(dx) <= 2 {
        8
    } else if iabs(dx - 10) <= 2 {
        6
    } else {
        0
    }
}

/// The offset of `dx` from the middle of its passage through 광화문.
pub open spec fn passage_offset(dx: int) -> int {
    if iabs(dx + 10) <= 2 {
        dx + 10
    } else if iabs(dx) <= 2 {
        dx
    } else {
        dx - 10
    }
}

/// The body of 광화문, column by column: granite ten high over its 33 by 13
/// base, but for the three passages cut through it, each five wide (with
/// the top course left at its two outermost cells, so the opening reads as
/// an arch);
/// round the edge a storey six high over it, red pillars every eight along
/// and at the corners and paper between, and the painted beam over that.
pub open spec fn gate_body_plan(cx: int, cz: int, gy: int) -> spec_fn(int, int, int) -> Option<Block> {
    |a: int, b: int, c: int|
        if iabs(a - cx) <= 16 && iabs(c - cz) <= 6 {
            let ring = iabs(a - cx) == 16 || iabs(c - cz) == 6;
            if gy + 1 <= b <= gy + 10 {
                if b <= gy + passage_height(a - cx) && !(b == gy + passage_height(a - cx) && iabs(passage_offset(a - cx)) == 2) {
                    Some(Block::Air)
                } else {
                    Some(Block::Granite)
                }
            } else if ring && gy + 11 <= b <= gy + 16 {
                Some(if (a - cx) % 8 == 0 || (iabs(c - cz) == 6 && iabs(a - cx) == 16) { Block::RedPillar } else { Block::Paper })
            } else if ring && b == gy + 17 {
                Some(Block::Dancheong)
            } else {
                None
            }
        } else {
            None
        }
}

/// What `place_gate` lays: its body, then its bracket band and roof.
pub open spec fn gate_plan(cx: int, cz: int, gy: int) -> spec_fn(int, int, int) -> Option<Block> {
    World::overlay(
        World::overlay(gate_body_plan(cx, cz, gy), brackets_plan(cx, cz, 16, 6, gy + 18)),
        roof_plan(cx, cz, 16 + EAVES, 6 + EAVES, gy + 18 + BRACKET_TIERS, PALACE_STEP as int, true),
    )
}

/// Lay the body of 광화문 column by column.
#[verifier::loop_isolation(false)]
fn gate_body(world: &mut World, cx: i32, cz: i32, gy: i32)
    requires
        old(world).wf(),
        site(cx as int),
        site(cz as int),
        site(gy as int),
    ensures
        final(world).wf(),
        World::lays(*old(world), *final(world), gate_body_plan(cx as int, cz as int, gy as int)),
{
    let gx: i32 = 16;  // half-width
    let gz: i32 = 6;  // half-depth
    let base_h: i32 = 10;
    let floor = gy + base_h + 1;
    let storey_h: i32 = 6;
    let ghost w0 = *world;
    let ghost plan = gate_body_plan(cx as int, cz as int, gy as int);
    proof {
        World::lemma_columns_start(w0, plan, cx as int, cz as int, -6, -16);
    }
    let mut dz = -gz;
    while dz <= gz
        invariant
            -gz <= dz <= gz + 1,
            world.wf(),
            World::lays(w0, *world, World::columns(plan, cx as int, cz as int, dz as int, -16)),
        decreases gz + 1 - dz,
    {
        let mut dx = -gx;
        while dx <= gx
            invariant
                -gz <= dz <= gz,
                -gx <= dx <= gx + 1,
                world.wf(),
                World::lays(w0, *world, World::columns(plan, cx as int, cz as int, dz as int, dx as int)),
            decreases gx + 1 - dx,
        {
            let (x, z) = (cx + dx, cz + dz);
            let ghost w1 = *world;
            fill_column(world, x, z, gy + 1, gy + base_h, Block::Granite);
            let ghost w2 = *world;
            // Three passages through the base. The middle one — the king's —
            // is taller; the top of each is rounded off so the opening reads
            // as an arch.
            let (offset, height) = if abs(dx + 10) <= 2 {
                (dx + 10, 6i32)
            } else if abs(dx) <= 2 {
                (dx, 8i32)
            } else if abs(dx - 10) <= 2 {
                (dx - 10, 6i32)
            } else {
                (0i32, 0i32)
            };
            let arch = if abs(offset) == 2 { gy + height - 1 } else { gy + height };
            fill_column(world, x, z, gy + 1, arch, Block::Air);
            let ghost w3 = *world;
            // The painted storey above: red columns, dancheong beams, paper
            // infill.
            let ring = abs(dx) == gx || abs(dz) == gz;
            let post = rem_euclid(dx, 8) == 0 || abs(dz) == gz && abs(dx) == gx;
            let wall_top = if ring { floor + storey_h - 1 } else { floor - 1 };
            fill_column(world, x, z, floor, wall_top, if post { Block::RedPillar } else { Block::Paper });
            let ghost w4 = *world;
            if ring {
                world.set(x, floor + storey_h, z, Block::Dancheong);
            }
            proof {
                let stone = column_range(x as int, z as int, gy + 1, gy + 10, Block::Granite);
                let passage = column_range(x as int, z as int, gy + 1, arch as int, Block::Air);
                let storey = column_range(x as int, z as int, gy + 11, wall_top as int, if post { Block::RedPillar } else { Block::Paper });
                let beam = if ring { World::single(x as int, gy + 17, z as int, Block::Dancheong) } else { World::nothing() };
                if ring {
                    World::lemma_lays_single(w4, *world, x as int, gy + 17, z as int, Block::Dancheong);
                } else {
                    World::lemma_lays_nothing(w4);
                }
                World::lemma_lays_compose(w1, w2, w3, stone, passage);
                World::lemma_lays_compose(w1, w3, w4, World::overlay(stone, passage), storey);
                World::lemma_lays_compose(w1, w4, *world, World::overlay(World::overlay(stone, passage), storey), beam);
                World::lemma_column_step(w0, w1, *world, plan, World::overlay(World::overlay(World::overlay(stone, passage), storey), beam), cx as int, cz as int, dz as int, dx as int);
            }
            dx = dx + 1;
        }
        proof {
            World::lemma_column_move(w0, *world, plan, cx as int, cz as int, dz as int, dx as int, dz + 1, -16);
        }
        dz = dz + 1;
    }
    proof {
        World::lemma_columns_finish(w0, *world, plan, cx as int, cz as int, dz as int, -16);
    }
}

/// 광화문 — the main gate: a granite base pierced by three arched passages
/// (the middle one, the king's, taller), carrying a painted timber storey and
/// a tiled roof.
pub fn place_gate(world: &mut World, cx: i32, cz: i32, gy: i32)
    requires
        old(world).wf(),
        site(cx as int),
        site(cz as int),
        site(gy as int),
    ensures
        final(world).wf(),
        World::lays(*old(world), *final(world), gate_plan(cx as int, cz as int, gy as int)),
        builds_in(*old(world), *final(world), gate_area(cx as int, cz as int, gy as int)),
{
    let gx: i32 = 16;
    let gz: i32 = 6;
    let ghost w0 = *world;
    let ghost area = gate_area(cx as int, cz as int, gy as int);
    gate_body(world, cx, cz, gy);
    let ghost w1 = *world;
    let beam = gy + 17;
    let eave = lay_brackets(world, cx, cz, gx, gz, beam + 1);
    let ghost w2 = *world;
    lay_roof(world, cx, cz, gx, gz, eave, EAVES, PALACE_STEP, true);
    proof {
        let p1 = gate_body_plan(cx as int, cz as int, gy as int);
        let p2 = brackets_plan(cx as int, cz as int, 16, 6, beam + 1);
        let p3 = roof_plan(cx as int, cz as int, 16 + EAVES, 6 + EAVES, eave as int, PALACE_STEP as int, true);
        World::lemma_lays_compose(w0, w1, w2, p1, p2);
        World::lemma_lays_compose(w0, w2, *world, World::overlay(p1, p2), p3);
        assert(plan_within(p1, area));
        lemma_lays_builds(w0, w1, p1, area);
        lemma_extend(w0, w1, w2, area, (cx - gx - BRACKET_TIERS, cx + gx + BRACKET_TIERS, beam + 1, beam + BRACKET_TIERS, cz - gz - BRACKET_TIERS, cz + gz + BRACKET_TIERS));
        lemma_extend(w0, w2, *world, area, (cx - gx - EAVES, cx + gx + EAVES, eave as int, eave + roof_courses(gx + EAVES, gz + EAVES, PALACE_STEP as int) + 1, cz - gz - EAVES, cz + gz + EAVES));
    }
}

} // verus!
