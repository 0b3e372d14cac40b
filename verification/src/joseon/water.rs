//! The water of the palace: 향원정 on its island, 금천 and 영제교 across the
//! approach, and 경회루 on its pond.

use vstd::prelude::*;
use crate::block::Block;
use crate::world::World;
use super::{
    abs, rem_euclid, builds_in, lemma_start, lemma_extend, lemma_lays_builds, plan_within,
    fill_column, column_range, coord, site, Area, PALACE_X,
};
use super::style::{
    iabs, brackets_plan, lay_brackets, lay_roof, roof_courses, roof_plan, BRACKET_TIERS, EAVES, PALACE_STEP,
};

verus! {

/// Whether `(dx, dz)` lies inside the hexagon of radius `r`.
pub open spec fn spec_in_hex(dx: int, dz: int, r: int) -> bool {
    iabs(dz) <= r && iabs(dx) <= r - iabs(dz) / 2
}

/// Is `(dx, dz)` inside a hexagon of radius `r`? 향원정 is famously six-sided.
pub fn in_hex(dx: i32, dz: i32, r: i32) -> (inside: bool)
    requires
        -1000 <= dx <= 1000,
        -1000 <= dz <= 1000,
        -1000 <= r <= 1000,
    ensures
        inside == spec_in_hex(dx as int, dz as int, r as int),
{
    abs(dz) <= r && abs(dx) <= r - abs(dz) / 2
}

/// Where `lay_hex_roof` may build.
pub open spec fn hex_roof_area(cx: int, cz: int, r: int, base_y: int) -> Area {
    (cx - r - 1, cx + r + 1, base_y, base_y + r + 1, cz - r - 1, cz + r + 1)
}

/// What `lay_hex_roof` lays: on the course `k` above `base_y`, for `k` up
/// to `r + 1`, the ring of the hexagon of radius `r + 1 - k` that the next
/// hexagon in leaves uncovered, in tile — and the single-block finial at the
/// top, in ridge.
pub open spec fn hex_roof_plan(cx: int, cz: int, r: int, base_y: int) -> spec_fn(int, int, int) -> Option<Block> {
    |a: int, b: int, c: int|
        if 0 <= r + 1 - (b - base_y) <= r + 1 && spec_in_hex(a - cx, c - cz, r + 1 - (b - base_y))
            && !(r + 1 - (b - base_y) > 0 && spec_in_hex(a - cx, c - cz, r - (b - base_y))) {
            Some(if b - base_y == r + 1 { Block::RoofRidge } else { Block::RoofTile })
        } else {
            None
        }
}

/// A stepped roof that keeps the hexagon: each course draws in by one, each
/// band tiling the ring its course leaves uncovered by the course above, up to
/// the single-block finial.
#[verifier::loop_isolation(false)]
pub fn lay_hex_roof(world: &mut World, cx: i32, cz: i32, r: i32, base_y: i32)
    requires
        old(world).wf(),
        coord(cx as int),
        coord(cz as int),
        coord(base_y as int),
        0 <= r <= 500,
    ensures
        final(world).wf(),
        World::lays(*old(world), *final(world), hex_roof_plan(cx as int, cz as int, r as int, base_y as int)),
        builds_in(*old(world), *final(world), hex_roof_area(cx as int, cz as int, r as int, base_y as int)),
{
    let ghost w0 = *world;
    let ghost area = hex_roof_area(cx as int, cz as int, r as int, base_y as int);
    let ghost plan = hex_roof_plan(cx as int, cz as int, r as int, base_y as int);
    proof {
        World::lemma_lays_nothing(w0);
        World::lemma_lays_congr(w0, w0, World::nothing(), World::layers(plan, base_y as int, base_y as int));
    }
    let mut rr = r + 1;  // the eaves overhang by one
    let mut y = base_y;
    while rr >= 0
        invariant
            -1 <= rr <= r + 1,
            y == base_y + (r + 1 - rr),
            world.wf(),
            World::lays(w0, *world, World::layers(plan, base_y as int, y as int)),
        decreases rr + 1,
    {
        let ghost base = *world;
        proof {
            World::lemma_lays_nothing(base);
            World::lemma_lays_congr(base, base, World::nothing(), World::rows(plan, y as int, cx as int, cz as int, -rr as int, -rr as int));
        }
        let mut dz = -rr;
        while dz <= rr
            invariant
                0 <= rr <= r + 1,
                y == base_y + (r + 1 - rr),
                -rr <= dz <= rr + 1,
                world.wf(),
                World::lays(base, *world, World::rows(plan, y as int, cx as int, cz as int, dz as int, -rr as int)),
            decreases rr + 1 - dz,
        {
            let mut dx = -rr;
            while dx <= rr
                invariant
                    0 <= rr <= r + 1,
                    y == base_y + (r + 1 - rr),
                    -rr <= dz <= rr,
                    -rr <= dx <= rr + 1,
                    world.wf(),
                    World::lays(base, *world, World::rows(plan, y as int, cx as int, cz as int, dz as int, dx as int)),
                decreases rr + 1 - dx,
            {
                // Cells covered by the course above are left to it.
                if in_hex(dx, dz, rr) && !(in_hex(dx, dz, rr - 1) && rr > 0) {
                    let tile = if rr == 0 {
                        Block::RoofRidge
                    } else {
                        Block::RoofTile
                    };
                    let ghost prev = *world;
                    world.set(cx + dx, y, cz + dz, tile);
                    proof {
                        World::lemma_row_set(base, prev, *world, plan, y as int, cx as int, cz as int, dz as int, dx as int, tile);
                    }
                } else {
                    proof {
                        World::lemma_row_skip(base, *world, plan, y as int, cx as int, cz as int, dz as int, dx as int);
                    }
                }
                dx = dx + 1;
            }
            proof {
                World::lemma_row_move(base, *world, plan, y as int, cx as int, cz as int, dz as int, dx as int, dz + 1, -rr as int);
            }
            dz = dz + 1;
        }
        proof {
            World::lemma_layer_done(w0, base, *world, plan, base_y as int, y as int, cx as int, cz as int, dz as int, -rr as int);
        }
        y = y + 1;
        rr = rr - 1;
    }
    proof {
        assert forall|a: int, b: int, c: int| #[trigger] World::layers(plan, base_y as int, y as int)(a, b, c) == plan(a, b, c) by {
        }
        World::lemma_lays_congr(w0, *world, World::layers(plan, base_y as int, y as int), plan);
        lemma_lays_builds(w0, *world, plan, area);
    }
}

/// Where `place_hyangwonjeong` may build: the pond, dug below ground, and the
/// pavilion over it.
pub open spec fn hyangwonjeong_area(cx: int, cz: int, gy: int) -> Area {
    (cx - 18, cx + 18, gy - 5, gy + 20, cz - 18, cz + 18)
}

/// The pond of 향원정: within 18 of the centre (by the square of the
/// distance) a basin of water five deep on a dirt bed, except the outermost
/// band, past 17, which is the dressed granite rim at ground level.
pub open spec fn pond_plan(cx: int, cz: int, gy: int) -> spec_fn(int, int, int) -> Option<Block> {
    |a: int, b: int, c: int|
        if iabs(a - cx) <= 18 && iabs(c - cz) <= 18 && (a - cx) * (a - cx) + (c - cz) * (c - cz) <= 324 {
            if (a - cx) * (a - cx) + (c - cz) * (c - cz) > 289 {
                if b == gy { Some(Block::Granite) } else { None }
            } else if gy - 4 <= b <= gy {
                Some(Block::Water)
            } else if b == gy - 5 {
                Some(Block::Dirt)
            } else {
                None
            }
        } else {
            None
        }
}

/// Dig the pond of 향원정.
#[verifier::loop_isolation(false)]
fn dig_pond(world: &mut World, cx: i32, cz: i32, gy: i32)
    requires
        old(world).wf(),
        site(cx as int),
        site(cz as int),
        site(gy as int),
    ensures
        final(world).wf(),
        World::lays(*old(world), *final(world), pond_plan(cx as int, cz as int, gy as int)),
{
    let pond_r: i32 = 18;
    let depth: i32 = 4;
    let ghost w0 = *world;
    let ghost plan = pond_plan(cx as int, cz as int, gy as int);
    proof {
        World::lemma_columns_start(w0, plan, cx as int, cz as int, -18, -18);
    }
    let mut dz = -pond_r;
    while dz <= pond_r
        invariant
            -pond_r <= dz <= pond_r + 1,
            world.wf(),
            World::lays(w0, *world, World::columns(plan, cx as int, cz as int, dz as int, -18)),
        decreases pond_r + 1 - dz,
    {
        let mut dx = -pond_r;
        while dx <= pond_r
            invariant
                -pond_r <= dz <= pond_r,
                -pond_r <= dx <= pond_r + 1,
                world.wf(),
                World::lays(w0, *world, World::columns(plan, cx as int, cz as int, dz as int, dx as int)),
            decreases pond_r + 1 - dx,
        {
            assert(0 <= dx * dx <= 324 && 0 <= dz * dz <= 324) by (nonlinear_arith)
                requires
                    -18 <= dx <= 18,
                    -18 <= dz <= 18,
            ;
            let d2 = dx * dx + dz * dz;
            let (x, z) = (cx + dx, cz + dz);
            let ghost w1 = *world;
            if d2 <= pond_r * pond_r {
                if d2 > (pond_r - 1) * (pond_r - 1) {
                    world.set(x, gy, z, Block::Granite);  // the rim
                    proof {
                        World::lemma_lays_single(w1, *world, x as int, gy as int, z as int, Block::Granite);
                        World::lemma_column_step(w0, w1, *world, plan, World::single(x as int, gy as int, z as int, Block::Granite), cx as int, cz as int, dz as int, dx as int);
                    }
                } else {
                    fill_column(world, x, z, gy - depth, gy, Block::Water);
                    let ghost w2 = *world;
                    world.set(x, gy - depth - 1, z, Block::Dirt);
                    proof {
                        let water = column_range(x as int, z as int, gy - 4, gy as int, Block::Water);
                        let bed = World::single(x as int, gy - 5, z as int, Block::Dirt);
                        World::lemma_lays_single(w2, *world, x as int, gy - 5, z as int, Block::Dirt);
                        World::lemma_lays_compose(w1, w2, *world, water, bed);
                        World::lemma_column_step(w0, w1, *world, plan, World::overlay(water, bed), cx as int, cz as int, dz as int, dx as int);
                    }
                }
            } else {
                proof {
                    World::lemma_column_move(w0, *world, plan, cx as int, cz as int, dz as int, dx as int, dz as int, dx + 1);
                }
            }
            dx = dx + 1;
        }
        proof {
            World::lemma_column_move(w0, *world, plan, cx as int, cz as int, dz as int, dx as int, dz + 1, -18);
        }
        dz = dz + 1;
    }
    proof {
        World::lemma_columns_finish(w0, *world, plan, cx as int, cz as int, dz as int, -18);
    }
}

/// The island of 향원정: within 8 of the centre (by the square of the
/// distance) granite from the pond's floor up to ground level, grass over it,
/// and clear air twenty courses above the ground.
pub open spec fn island_plan(cx: int, cz: int, gy: int) -> spec_fn(int, int, int) -> Option<Block> {
    |a: int, b: int, c: int|
        if iabs(a - cx) <= 8 && iabs(c - cz) <= 8 && (a - cx) * (a - cx) + (c - cz) * (c - cz) <= 64 {
            if gy - 4 <= b <= gy {
                Some(Block::Granite)
            } else if b == gy + 1 {
                Some(Block::Grass)
            } else if gy + 2 <= b <= gy + 20 {
                Some(Block::Air)
            } else {
                None
            }
        } else {
            None
        }
}

/// Raise the island of 향원정 out of its pond.
#[verifier::loop_isolation(false)]
fn raise_island(world: &mut World, cx: i32, cz: i32, gy: i32)
    requires
        old(world).wf(),
        site(cx as int),
        site(cz as int),
        site(gy as int),
    ensures
        final(world).wf(),
        World::lays(*old(world), *final(world), island_plan(cx as int, cz as int, gy as int)),
{
    let island_r: i32 = 8;
    let depth: i32 = 4;
    let ghost w0 = *world;
    let ghost plan = island_plan(cx as int, cz as int, gy as int);
    proof {
        World::lemma_columns_start(w0, plan, cx as int, cz as int, -8, -8);
    }
    let mut dz = -island_r;
    while dz <= island_r
        invariant
            -island_r <= dz <= island_r + 1,
            world.wf(),
            World::lays(w0, *world, World::columns(plan, cx as int, cz as int, dz as int, -8)),
        decreases island_r + 1 - dz,
    {
        let mut dx = -island_r;
        while dx <= island_r
            invariant
                -island_r <= dz <= island_r,
                -island_r <= dx <= island_r + 1,
                world.wf(),
                World::lays(w0, *world, World::columns(plan, cx as int, cz as int, dz as int, dx as int)),
            decreases island_r + 1 - dx,
        {
            assert(0 <= dx * dx <= 64 && 0 <= dz * dz <= 64) by (nonlinear_arith)
                requires
                    -8 <= dx <= 8,
                    -8 <= dz <= 8,
            ;
            if dx * dx + dz * dz <= island_r * island_r {
                let (x, z) = (cx + dx, cz + dz);
                let ghost w1 = *world;
                fill_column(world, x, z, gy - depth, gy, Block::Granite);
                let ghost w2 = *world;
                world.set(x, gy + 1, z, Block::Grass);
                let ghost w3 = *world;
                fill_column(world, x, z, gy + 2, gy + 20, Block::Air);
                proof {
                    let rock = column_range(x as int, z as int, gy - 4, gy as int, Block::Granite);
                    let turf = World::single(x as int, gy + 1, z as int, Block::Grass);
                    let clear = column_range(x as int, z as int, gy + 2, gy + 20, Block::Air);
                    World::lemma_lays_single(w2, w3, x as int, gy + 1, z as int, Block::Grass);
                    World::lemma_lays_compose(w1, w2, w3, rock, turf);
                    World::lemma_lays_compose(w1, w3, *world, World::overlay(rock, turf), clear);
                    World::lemma_column_step(w0, w1, *world, plan, World::overlay(World::overlay(rock, turf), clear), cx as int, cz as int, dz as int, dx as int);
                }
            } else {
                proof {
                    World::lemma_column_move(w0, *world, plan, cx as int, cz as int, dz as int, dx as int, dz as int, dx + 1);
                }
            }
            dx = dx + 1;
        }
        proof {
            World::lemma_column_move(w0, *world, plan, cx as int, cz as int, dz as int, dx as int, dz + 1, -8);
        }
        dz = dz + 1;
    }
    proof {
        World::lemma_columns_finish(w0, *world, plan, cx as int, cz as int, dz as int, -8);
    }
}

/// What the pavilion of 향원정 lays from the floor at `floor` up to its beam:
/// a timber floor over the hexagon of radius 6, a red pillar six high at each
/// of its six corners, and a painted beam round its edge eight above the
/// floor.
pub open spec fn pavilion_plan(cx: int, cz: int, floor: int) -> spec_fn(int, int, int) -> Option<Block> {
    |a: int, b: int, c: int|
        if b == floor && spec_in_hex(a - cx, c - cz, 6) {
            Some(Block::Wood)
        } else if floor + 1 <= b <= floor + 6 && spec_in_hex(a - cx, c - cz, 6) && !spec_in_hex(a - cx, c - cz, 5)
            && (iabs(c - cz) == 6 || iabs(a - cx) == 6 - iabs(c - cz) / 2) {
            Some(Block::RedPillar)
        } else if b == floor + 8 && spec_in_hex(a - cx, c - cz, 6) && !spec_in_hex(a - cx, c - cz, 5) {
            Some(Block::Dancheong)
        } else {
            None
        }
}

/// Frame the pavilion of 향원정, column by column: its floor, the pillars at
/// its corners and the beam round its edge.
#[verifier::loop_isolation(false)]
fn frame_pavilion(world: &mut World, cx: i32, cz: i32, floor: i32)
    requires
        old(world).wf(),
        site(cx as int),
        site(cz as int),
        i32::MIN + 11_000 <= floor <= i32::MAX - 10_900,
    ensures
        final(world).wf(),
        World::lays(*old(world), *final(world), pavilion_plan(cx as int, cz as int, floor as int)),
{
    let hex_r: i32 = 6;
    let ghost w0 = *world;
    let ghost plan = pavilion_plan(cx as int, cz as int, floor as int);
    proof {
        World::lemma_columns_start(w0, plan, cx as int, cz as int, -6, -6);
    }
    let mut dz = -hex_r;
    while dz <= hex_r
        invariant
            -hex_r <= dz <= hex_r + 1,
            world.wf(),
            World::lays(w0, *world, World::columns(plan, cx as int, cz as int, dz as int, -6)),
        decreases hex_r + 1 - dz,
    {
        let mut dx = -hex_r;
        while dx <= hex_r
            invariant
                -hex_r <= dz <= hex_r,
                -hex_r <= dx <= hex_r + 1,
                world.wf(),
                World::lays(w0, *world, World::columns(plan, cx as int, cz as int, dz as int, dx as int)),
            decreases hex_r + 1 - dx,
        {
            let (x, z) = (cx + dx, cz + dz);
            if in_hex(dx, dz, hex_r) {
                let ghost w1 = *world;
                world.set(x, floor, z, Block::Wood);
                let ghost w2 = *world;
                let edge = !in_hex(dx, dz, hex_r - 1);
                // A column wherever the hexagon's edge turns — its six corners.
                let corner = edge && (abs(dz) == hex_r || abs(dx) == hex_r - abs(dz) / 2);
                let top = if corner { floor + 6 } else { floor };
                fill_column(world, x, z, floor + 1, top, Block::RedPillar);
                let ghost w3 = *world;
                if edge {
                    world.set(x, floor + 8, z, Block::Dancheong);
                }
                proof {
                    let boards = World::single(x as int, floor as int, z as int, Block::Wood);
                    let pillar = column_range(x as int, z as int, floor + 1, top as int, Block::RedPillar);
                    let beam = if edge { World::single(x as int, floor + 8, z as int, Block::Dancheong) } else { World::nothing() };
                    World::lemma_lays_single(w1, w2, x as int, floor as int, z as int, Block::Wood);
                    if edge {
                        World::lemma_lays_single(w3, *world, x as int, floor + 8, z as int, Block::Dancheong);
                    } else {
                        World::lemma_lays_nothing(w3);
                    }
                    World::lemma_lays_compose(w1, w2, w3, boards, pillar);
                    World::lemma_lays_compose(w1, w3, *world, World::overlay(boards, pillar), beam);
                    World::lemma_column_step(w0, w1, *world, plan, World::overlay(World::overlay(boards, pillar), beam), cx as int, cz as int, dz as int, dx as int);
                }
            } else {
                proof {
                    World::lemma_column_move(w0, *world, plan, cx as int, cz as int, dz as int, dx as int, dz as int, dx + 1);
                }
            }
            dx = dx + 1;
        }
        proof {
            World::lemma_column_move(w0, *world, plan, cx as int, cz as int, dz as int, dx as int, dz + 1, -6);
        }
        dz = dz + 1;
    }
    proof {
        World::lemma_columns_finish(w0, *world, plan, cx as int, cz as int, dz as int, -6);
    }
}

/// 취향교 — the timber bridge south from the island to the bank, five wide,
/// with the air cleared ten courses over it.
pub open spec fn bridge_plan(cx: int, cz: int, gy: int) -> spec_fn(int, int, int) -> Option<Block> {
    |a: int, b: int, c: int|
        if 8 <= c - cz <= 18 && iabs(a - cx) <= 2 {
            if b == gy + 1 {
                Some(Block::Wood)
            } else if gy + 2 <= b <= gy + 10 {
                Some(Block::Air)
            } else {
                None
            }
        } else {
            None
        }
}

/// Lay 취향교.
#[verifier::loop_isolation(false)]
fn lay_bridge(world: &mut World, cx: i32, cz: i32, gy: i32)
    requires
        old(world).wf(),
        site(cx as int),
        site(cz as int),
        site(gy as int),
    ensures
        final(world).wf(),
        World::lays(*old(world), *final(world), bridge_plan(cx as int, cz as int, gy as int)),
{
    let island_r: i32 = 8;
    let pond_r: i32 = 18;
    let ghost w0 = *world;
    let ghost plan = bridge_plan(cx as int, cz as int, gy as int);
    proof {
        World::lemma_columns_start(w0, plan, cx as int, cz as int, 8, -2);
    }
    let mut dz = island_r;
    while dz <= pond_r
        invariant
            island_r <= dz <= pond_r + 1,
            world.wf(),
            World::lays(w0, *world, World::columns(plan, cx as int, cz as int, dz as int, -2)),
        decreases pond_r + 1 - dz,
    {
        let mut dx: i32 = -2;
        while dx <= 2
            invariant
                island_r <= dz <= pond_r,
                -2 <= dx <= 3,
                world.wf(),
                World::lays(w0, *world, World::columns(plan, cx as int, cz as int, dz as int, dx as int)),
            decreases 3 - dx,
        {
            let (x, z) = (cx + dx, cz + dz);
            let ghost w1 = *world;
            world.set(x, gy + 1, z, Block::Wood);
            let ghost w2 = *world;
            fill_column(world, x, z, gy + 2, gy + 10, Block::Air);
            proof {
                let deck = World::single(x as int, gy + 1, z as int, Block::Wood);
                let clear = column_range(x as int, z as int, gy + 2, gy + 10, Block::Air);
                World::lemma_lays_single(w1, w2, x as int, gy + 1, z as int, Block::Wood);
                World::lemma_lays_compose(w1, w2, *world, deck, clear);
                World::lemma_column_step(w0, w1, *world, plan, World::overlay(deck, clear), cx as int, cz as int, dz as int, dx as int);
            }
            dx = dx + 1;
        }
        proof {
            World::lemma_column_move(w0, *world, plan, cx as int, cz as int, dz as int, dx as int, dz + 1, -2);
        }
        dz = dz + 1;
    }
    proof {
        World::lemma_columns_finish(w0, *world, plan, cx as int, cz as int, dz as int, -2);
    }
}

/// What `place_hyangwonjeong` lays, in the order it lays it: the pond, the
/// island over it, the pavilion's frame, its roof, and the bridge.
pub open spec fn hyangwonjeong_plan(cx: int, cz: int, gy: int) -> spec_fn(int, int, int) -> Option<Block> {
    World::overlay(
        World::overlay(
            World::overlay(World::overlay(pond_plan(cx, cz, gy), island_plan(cx, cz, gy)), pavilion_plan(cx, cz, gy + 2)),
            hex_roof_plan(cx, cz, 6, gy + 11),
        ),
        bridge_plan(cx, cz, gy),
    )
}

/// 향원정 — a hexagonal pavilion on an island in a round pond with a dressed
/// stone rim, reached by a timber bridge running south to the bank.
pub fn place_hyangwonjeong(world: &mut World, cx: i32, cz: i32, gy: i32)
    requires
        old(world).wf(),
        site(cx as int),
        site(cz as int),
        site(gy as int),
    ensures
        final(world).wf(),
        World::lays(*old(world), *final(world), hyangwonjeong_plan(cx as int, cz as int, gy as int)),
        builds_in(*old(world), *final(world), hyangwonjeong_area(cx as int, cz as int, gy as int)),
{
    let hex_r: i32 = 6;
    let ghost w0 = *world;
    // The pond: a rounded basin with a dressed stone rim.
    dig_pond(world, cx, cz, gy);
    let ghost w1 = *world;
    // The island, standing back out of the water in the middle.
    raise_island(world, cx, cz, gy);
    let ghost w2 = *world;
    // The pavilion: a hexagonal timber floor, a column at each of its six
    // corners, a painted beam round its edge, and a roof.
    let floor = gy + 2;
    frame_pavilion(world, cx, cz, floor);
    let ghost w3 = *world;
    let beam = floor + 8;
    lay_hex_roof(world, cx, cz, hex_r, beam + 1);
    let ghost w4 = *world;
    // 취향교 — the bridge out to the island, running south to the bank.
    lay_bridge(world, cx, cz, gy);
    proof {
        let (p1, p2, p3) = (pond_plan(cx as int, cz as int, gy as int), island_plan(cx as int, cz as int, gy as int), pavilion_plan(cx as int, cz as int, floor as int));
        let (p4, p5) = (hex_roof_plan(cx as int, cz as int, 6, beam + 1), bridge_plan(cx as int, cz as int, gy as int));
        World::lemma_lays_compose(w0, w1, w2, p1, p2);
        World::lemma_lays_compose(w0, w2, w3, World::overlay(p1, p2), p3);
        World::lemma_lays_compose(w0, w3, w4, World::overlay(World::overlay(p1, p2), p3), p4);
        World::lemma_lays_compose(w0, w4, *world, World::overlay(World::overlay(World::overlay(p1, p2), p3), p4), p5);
        let area = hyangwonjeong_area(cx as int, cz as int, gy as int);
        assert(plan_within(p1, area));
        assert(plan_within(p2, area));
        assert(plan_within(p3, area));
        assert(plan_within(p5, area));
        lemma_start(w0, area);
        lemma_lays_builds(w0, w1, p1, area);
        lemma_lays_builds(w1, w2, p2, area);
        lemma_extend(w0, w1, w2, area, area);
        lemma_lays_builds(w2, w3, p3, area);
        lemma_extend(w0, w2, w3, area, area);
        lemma_extend(w0, w3, w4, area, hex_roof_area(cx as int, cz as int, 6, beam + 1));
        lemma_lays_builds(w4, *world, p5, area);
        lemma_extend(w0, w4, *world, area, area);
    }
}

/// Where `lay_geumcheon` may build: the channel across the precinct, cut
/// below the pavement, and the bridge deck over it.
pub open spec fn geumcheon_area(cx: int, cz: int, gy: int) -> Area {
    (cx - PALACE_X + 1, cx + PALACE_X - 1, gy - 5, gy + 1, cz - 5, cz + 5)
}

/// The channel of 금천 across the precinct, 167 either side of the axis:
/// granite kerbs at pavement level on its banks five either side of its
/// line, and between them the air cleared at and above the pavement, water
/// four deep below it, and a granite bed under that.
pub open spec fn channel_plan(cx: int, cz: int, gy: int) -> spec_fn(int, int, int) -> Option<Block> {
    |a: int, b: int, c: int|
        if iabs(a - cx) <= PALACE_X - 1 && iabs(c - cz) <= 5 {
            if iabs(c - cz) == 5 {
                if b == gy { Some(Block::Granite) } else { None }
            } else if gy <= b <= gy + 1 {
                Some(Block::Air)
            } else if gy - 4 <= b <= gy - 1 {
                Some(Block::Water)
            } else if b == gy - 5 {
                Some(Block::Granite)
            } else {
                None
            }
        } else {
            None
        }
}

/// 영제교: a granite deck over the channel, 8 either side of the axis and
/// across the kerbs, level with the pavement, with the 삼도's centre lane a
/// course higher on the axis.
pub open spec fn yeongje_plan(cx: int, cz: int, gy: int) -> spec_fn(int, int, int) -> Option<Block> {
    |a: int, b: int, c: int|
        if iabs(a - cx) <= 8 && iabs(c - cz) <= 5 && (b == gy || (b == gy + 1 && a == cx)) {
            Some(Block::Granite)
        } else {
            None
        }
}

/// 금천 — the stream across the entrance, cut below the pavement between
/// dressed granite kerbs on a granite bed, and 영제교, the bridge deck level
/// with the pavement carrying the raised centre lane of the 삼도 over it. Each
/// column is cut and then, where the bridge crosses, decked.
#[verifier::loop_isolation(false)]
pub fn lay_geumcheon(world: &mut World, cx: i32, cz: i32, gy: i32)
    requires
        old(world).wf(),
        coord(cx as int),
        coord(cz as int),
        coord(gy as int),
    ensures
        final(world).wf(),
        World::lays(*old(world), *final(world), World::overlay(channel_plan(cx as int, cz as int, gy as int), yeongje_plan(cx as int, cz as int, gy as int))),
        builds_in(*old(world), *final(world), geumcheon_area(cx as int, cz as int, gy as int)),
{
    // Half-width of the water; the kerb is one further out.
    let channel: i32 = 4;
    let depth: i32 = 4;
    // Half-width of the bridge deck.
    let deck: i32 = 8;
    let ghost w0 = *world;
    let ghost area = geumcheon_area(cx as int, cz as int, gy as int);
    let ghost plan = World::overlay(channel_plan(cx as int, cz as int, gy as int), yeongje_plan(cx as int, cz as int, gy as int));
    proof {
        World::lemma_columns_start(w0, plan, cx as int, cz as int, -5, -(PALACE_X - 1));
    }
    let mut dz = -(channel + 1);
    while dz <= channel + 1
        invariant
            -(channel + 1) <= dz <= channel + 2,
            world.wf(),
            World::lays(w0, *world, World::columns(plan, cx as int, cz as int, dz as int, -(PALACE_X - 1))),
        decreases channel + 2 - dz,
    {
        let mut dx = -(PALACE_X - 1);
        while dx <= PALACE_X - 1
            invariant
                -(channel + 1) <= dz <= channel + 1,
                -(PALACE_X - 1) <= dx <= PALACE_X,
                world.wf(),
                World::lays(w0, *world, World::columns(plan, cx as int, cz as int, dz as int, dx as int)),
            decreases PALACE_X - dx,
        {
            let (x, z) = (cx + dx, cz + dz);
            let ghost w1 = *world;
            let kerb = abs(dz) > channel;
            if kerb {
                world.set(x, gy, z, Block::Granite);  // the kerb
            } else {
                // Cut the channel: open at and above pavement level, water
                // below it.
                fill_column(world, x, z, gy, gy + 1, Block::Air);
                let ghost v1 = *world;
                fill_column(world, x, z, gy - depth, gy - 1, Block::Water);
                let ghost v2 = *world;
                world.set(x, gy - depth - 1, z, Block::Granite);  // dressed bed
                proof {
                    let open = column_range(x as int, z as int, gy as int, gy + 1, Block::Air);
                    let water = column_range(x as int, z as int, gy - 4, gy - 1, Block::Water);
                    let bed = World::single(x as int, gy - 5, z as int, Block::Granite);
                    World::lemma_lays_single(v2, *world, x as int, gy - 5, z as int, Block::Granite);
                    World::lemma_lays_compose(w1, v1, v2, open, water);
                    World::lemma_lays_compose(w1, v2, *world, World::overlay(open, water), bed);
                }
            }
            let ghost w2 = *world;
            // 영제교 — the deck, with the 삼도's raised centre lane carried over
            // it.
            let bridge = abs(dx) <= deck;
            fill_column(world, x, z, gy, if bridge { gy } else { gy - 1 }, Block::Granite);
            let ghost w3 = *world;
            fill_column(world, x, z, gy + 1, if dx == 0 { gy + 1 } else { gy }, Block::Granite);
            proof {
                let (xi, zi) = (x as int, z as int);
                let cut = if kerb {
                    World::single(xi, gy as int, zi, Block::Granite)
                } else {
                    World::overlay(
                        World::overlay(column_range(xi, zi, gy as int, gy + 1, Block::Air), column_range(xi, zi, gy - 4, gy - 1, Block::Water)),
                        World::single(xi, gy - 5, zi, Block::Granite),
                    )
                };
                if kerb {
                    World::lemma_lays_single(w1, w2, xi, gy as int, zi, Block::Granite);
                }
                let d1 = column_range(xi, zi, gy as int, if bridge { gy as int } else { gy - 1 }, Block::Granite);
                let d2 = column_range(xi, zi, gy + 1, if dx == 0 { gy + 1 } else { gy as int }, Block::Granite);
                World::lemma_lays_compose(w1, w2, w3, cut, d1);
                World::lemma_lays_compose(w1, w3, *world, World::overlay(cut, d1), d2);
                World::lemma_column_step(w0, w1, *world, plan, World::overlay(World::overlay(cut, d1), d2), cx as int, cz as int, dz as int, dx as int);
            }
            dx = dx + 1;
        }
        proof {
            World::lemma_column_move(w0, *world, plan, cx as int, cz as int, dz as int, dx as int, dz + 1, -(PALACE_X - 1));
        }
        dz = dz + 1;
    }
    proof {
        World::lemma_columns_finish(w0, *world, plan, cx as int, cz as int, dz as int, -(PALACE_X - 1));
        assert(plan_within(channel_plan(cx as int, cz as int, gy as int), area));
        assert(plan_within(yeongje_plan(cx as int, cz as int, gy as int), area));
        super::lemma_overlay_within(channel_plan(cx as int, cz as int, gy as int), yeongje_plan(cx as int, cz as int, gy as int), area);
        lemma_lays_builds(w0, *world, plan, area);
    }
}

/// Where `place_gyeonghoeru` may build: the pond, dug below ground, and the
/// pavilion standing over it.
pub open spec fn gyeonghoeru_area(cx: int, cz: int, gy: int) -> Area {
    (cx - 14, cx + 14, gy - 5, gy + 25, cz - 24, cz + 24)
}

/// The pond of 경회루: 14 either side of the centre across and 24 along,
/// dressed granite banks at ground level round the edge, and inside them
/// water five deep on a dirt bed.
pub open spec fn gh_pond_plan(cx: int, cz: int, gy: int) -> spec_fn(int, int, int) -> Option<Block> {
    |a: int, b: int, c: int|
        if iabs(a - cx) <= 14 && iabs(c - cz) <= 24 {
            if iabs(a - cx) == 14 || iabs(c - cz) == 24 {
                if b == gy { Some(Block::Granite) } else { None }
            } else if gy - 4 <= b <= gy {
                Some(Block::Water)
            } else if b == gy - 5 {
                Some(Block::Dirt)
            } else {
                None
            }
        } else {
            None
        }
}

/// Excavate the pond of 경회루, then flood it to a hair below the bank.
#[verifier::loop_isolation(false)]
fn dig_gh_pond(world: &mut World, cx: i32, cz: i32, gy: i32)
    requires
        old(world).wf(),
        site(cx as int),
        site(cz as int),
        site(gy as int),
    ensures
        final(world).wf(),
        World::lays(*old(world), *final(world), gh_pond_plan(cx as int, cz as int, gy as int)),
{
    let pond_x: i32 = 14;
    let pond_z: i32 = 24;
    let depth: i32 = 4;
    let ghost w0 = *world;
    let ghost plan = gh_pond_plan(cx as int, cz as int, gy as int);
    proof {
        World::lemma_columns_start(w0, plan, cx as int, cz as int, -24, -14);
    }
    let mut dz = -pond_z;
    while dz <= pond_z
        invariant
            -pond_z <= dz <= pond_z + 1,
            world.wf(),
            World::lays(w0, *world, World::columns(plan, cx as int, cz as int, dz as int, -14)),
        decreases pond_z + 1 - dz,
    {
        let mut dx = -pond_x;
        while dx <= pond_x
            invariant
                -pond_z <= dz <= pond_z,
                -pond_x <= dx <= pond_x + 1,
                world.wf(),
                World::lays(w0, *world, World::columns(plan, cx as int, cz as int, dz as int, dx as int)),
            decreases pond_x + 1 - dx,
        {
            let (x, z) = (cx + dx, cz + dz);
            let ghost w1 = *world;
            if abs(dx) == pond_x || abs(dz) == pond_z {
                world.set(x, gy, z, Block::Granite);  // dressed stone bank
                proof {
                    World::lemma_lays_single(w1, *world, x as int, gy as int, z as int, Block::Granite);
                    World::lemma_column_step(w0, w1, *world, plan, World::single(x as int, gy as int, z as int, Block::Granite), cx as int, cz as int, dz as int, dx as int);
                }
            } else {
                fill_column(world, x, z, gy - depth, gy, Block::Water);
                let ghost w2 = *world;
                world.set(x, gy - depth - 1, z, Block::Dirt);
                proof {
                    let water = column_range(x as int, z as int, gy - 4, gy as int, Block::Water);
                    let bed = World::single(x as int, gy - 5, z as int, Block::Dirt);
                    World::lemma_lays_single(w2, *world, x as int, gy - 5, z as int, Block::Dirt);
                    World::lemma_lays_compose(w1, w2, *world, water, bed);
                    World::lemma_column_step(w0, w1, *world, plan, World::overlay(water, bed), cx as int, cz as int, dz as int, dx as int);
                }
            }
            dx = dx + 1;
        }
        proof {
            World::lemma_column_move(w0, *world, plan, cx as int, cz as int, dz as int, dx as int, dz + 1, -14);
        }
        dz = dz + 1;
    }
    proof {
        World::lemma_columns_finish(w0, *world, plan, cx as int, cz as int, dz as int, -14);
    }
}

/// The stone forest 경회루 stands on: at every even offset within 8 of the
/// centre each way, a granite pillar from the pond's floor to two above the
/// ground.
pub open spec fn forest_plan(cx: int, cz: int, gy: int) -> spec_fn(int, int, int) -> Option<Block> {
    |a: int, b: int, c: int|
        if iabs(a - cx) <= 8 && iabs(c - cz) <= 8 && (a - cx) % 2 == 0 && (c - cz) % 2 == 0 && gy - 4 <= b <= gy + 2 {
            Some(Block::Granite)
        } else {
            None
        }
}

/// Raise the stone forest of 경회루.
#[verifier::loop_isolation(false)]
fn raise_forest(world: &mut World, cx: i32, cz: i32, gy: i32)
    requires
        old(world).wf(),
        site(cx as int),
        site(cz as int),
        site(gy as int),
    ensures
        final(world).wf(),
        World::lays(*old(world), *final(world), forest_plan(cx as int, cz as int, gy as int)),
{
    let base_x: i32 = 8;
    let base_z: i32 = 8;
    let depth: i32 = 4;
    let ghost w0 = *world;
    let ghost plan = forest_plan(cx as int, cz as int, gy as int);
    proof {
        World::lemma_columns_start(w0, plan, cx as int, cz as int, -8, -8);
    }
    let mut dz = -base_z;
    while dz <= base_z
        invariant
            -base_z <= dz <= base_z + 1,
            world.wf(),
            World::lays(w0, *world, World::columns(plan, cx as int, cz as int, dz as int, -8)),
        decreases base_z + 1 - dz,
    {
        let mut dx = -base_x;
        while dx <= base_x
            invariant
                -base_z <= dz <= base_z,
                -base_x <= dx <= base_x + 1,
                world.wf(),
                World::lays(w0, *world, World::columns(plan, cx as int, cz as int, dz as int, dx as int)),
            decreases base_x + 1 - dx,
        {
            if rem_euclid(dx, 2) == 0 && rem_euclid(dz, 2) == 0 {
                let ghost w1 = *world;
                fill_column(world, cx + dx, cz + dz, gy - depth, gy + 2, Block::Granite);
                proof {
                    World::lemma_column_step(w0, w1, *world, plan, column_range(cx + dx, cz + dz, gy - 4, gy + 2, Block::Granite), cx as int, cz as int, dz as int, dx as int);
                }
            } else {
                proof {
                    World::lemma_column_move(w0, *world, plan, cx as int, cz as int, dz as int, dx as int, dz as int, dx + 1);
                }
            }
            dx = dx + 1;
        }
        proof {
            World::lemma_column_move(w0, *world, plan, cx as int, cz as int, dz as int, dx as int, dz + 1, -8);
        }
        dz = dz + 1;
    }
    proof {
        World::lemma_columns_finish(w0, *world, plan, cx as int, cz as int, dz as int, -8);
    }
}

/// The deck of 경회루 at `floor` and what stands on it below the brackets:
/// timber across the 8-either-way square, the air cleared sixteen over it,
/// an open colonnade of red pillars six high at the even offsets round its
/// edge, and a painted beam round the edge eight above the deck.
pub open spec fn deck_plan(cx: int, cz: int, floor: int) -> spec_fn(int, int, int) -> Option<Block> {
    |a: int, b: int, c: int|
        if iabs(a - cx) <= 8 && iabs(c - cz) <= 8 {
            if b == floor {
                Some(Block::Wood)
            } else if floor + 1 <= b <= floor + 6 && (iabs(a - cx) == 8 || iabs(c - cz) == 8) && (a - cx) % 2 == 0
                && (c - cz) % 2 == 0 {
                Some(Block::RedPillar)
            } else if b == floor + 8 && (iabs(a - cx) == 8 || iabs(c - cz) == 8) {
                Some(Block::Dancheong)
            } else if floor + 1 <= b <= floor + 16 {
                Some(Block::Air)
            } else {
                None
            }
        } else {
            None
        }
}

/// Lay the deck of 경회루 column by column: the timber, the air over it, the
/// colonnade — columns only, no infill — and the beam.
#[verifier::loop_isolation(false)]
fn lay_deck(world: &mut World, cx: i32, cz: i32, floor: i32)
    requires
        old(world).wf(),
        site(cx as int),
        site(cz as int),
        i32::MIN + 11_000 <= floor <= i32::MAX - 10_900,
    ensures
        final(world).wf(),
        World::lays(*old(world), *final(world), deck_plan(cx as int, cz as int, floor as int)),
{
    let base_x: i32 = 8;
    let base_z: i32 = 8;
    let ghost w0 = *world;
    let ghost plan = deck_plan(cx as int, cz as int, floor as int);
    proof {
        World::lemma_columns_start(w0, plan, cx as int, cz as int, -8, -8);
    }
    let mut dz = -base_z;
    while dz <= base_z
        invariant
            -base_z <= dz <= base_z + 1,
            world.wf(),
            World::lays(w0, *world, World::columns(plan, cx as int, cz as int, dz as int, -8)),
        decreases base_z + 1 - dz,
    {
        let mut dx = -base_x;
        while dx <= base_x
            invariant
                -base_z <= dz <= base_z,
                -base_x <= dx <= base_x + 1,
                world.wf(),
                World::lays(w0, *world, World::columns(plan, cx as int, cz as int, dz as int, dx as int)),
            decreases base_x + 1 - dx,
        {
            let (x, z) = (cx + dx, cz + dz);
            let ghost w1 = *world;
            world.set(x, floor, z, Block::Wood);
            let ghost w2 = *world;
            fill_column(world, x, z, floor + 1, floor + 16, Block::Air);
            let ghost w3 = *world;
            let edge = abs(dx) == base_x || abs(dz) == base_z;
            let post = edge && rem_euclid(dx, 2) == 0 && rem_euclid(dz, 2) == 0;
            let top = if post { floor + 6 } else { floor };
            fill_column(world, x, z, floor + 1, top, Block::RedPillar);
            let ghost w4 = *world;
            if edge {
                world.set(x, floor + 8, z, Block::Dancheong);
            }
            proof {
                let boards = World::single(x as int, floor as int, z as int, Block::Wood);
                let clear = column_range(x as int, z as int, floor + 1, floor + 16, Block::Air);
                let pillar = column_range(x as int, z as int, floor + 1, top as int, Block::RedPillar);
                let beam = if edge { World::single(x as int, floor + 8, z as int, Block::Dancheong) } else { World::nothing() };
                World::lemma_lays_single(w1, w2, x as int, floor as int, z as int, Block::Wood);
                if edge {
                    World::lemma_lays_single(w4, *world, x as int, floor + 8, z as int, Block::Dancheong);
                } else {
                    World::lemma_lays_nothing(w4);
                }
                World::lemma_lays_compose(w1, w2, w3, boards, clear);
                World::lemma_lays_compose(w1, w3, w4, World::overlay(boards, clear), pillar);
                World::lemma_lays_compose(w1, w4, *world, World::overlay(World::overlay(boards, clear), pillar), beam);
                World::lemma_column_step(w0, w1, *world, plan, World::overlay(World::overlay(World::overlay(boards, clear), pillar), beam), cx as int, cz as int, dz as int, dx as int);
            }
            dx = dx + 1;
        }
        proof {
            World::lemma_column_move(w0, *world, plan, cx as int, cz as int, dz as int, dx as int, dz + 1, -8);
        }
        dz = dz + 1;
    }
    proof {
        World::lemma_columns_finish(w0, *world, plan, cx as int, cz as int, dz as int, -8);
    }
}

/// The causeway from 경회루 east to the bank: granite at deck height `floor`
/// from 9 to 14 east of the centre, with the air cleared eight over it.
pub open spec fn causeway_plan(cx: int, cz: int, floor: int) -> spec_fn(int, int, int) -> Option<Block> {
    |a: int, b: int, c: int|
        if c == cz && 9 <= a - cx <= 14 {
            if b == floor {
                Some(Block::Granite)
            } else if floor + 1 <= b <= floor + 8 {
                Some(Block::Air)
            } else {
                None
            }
        } else {
            None
        }
}

/// What `place_gyeonghoeru` lays, in the order it lays it: the pond, the
/// stone forest in it, the deck with its colonnade and beam, the bracket
/// band, the roof, and the causeway.
pub open spec fn gyeonghoeru_plan(cx: int, cz: int, gy: int) -> spec_fn(int, int, int) -> Option<Block> {
    World::overlay(
        World::overlay(
            World::overlay(
                World::overlay(World::overlay(gh_pond_plan(cx, cz, gy), forest_plan(cx, cz, gy)), deck_plan(cx, cz, gy + 5)),
                brackets_plan(cx, cz, 8, 8, gy + 14),
            ),
            roof_plan(cx, cz, 8 + EAVES, 8 + EAVES, gy + 14 + BRACKET_TIERS, PALACE_STEP as int, true),
        ),
        causeway_plan(cx, cz, gy + 5),
    )
}

/// 경회루 — a pond with dressed stone banks, a grid of stone pillars rising
/// out of it, a timber deck across them carrying an open colonnade (columns
/// only, no infill), a painted beam, the bracket band and a roof, and a
/// causeway east to the bank at deck height.
pub fn place_gyeonghoeru(world: &mut World, cx: i32, cz: i32, gy: i32)
    requires
        old(world).wf(),
        site(cx as int),
        site(cz as int),
        site(gy as int),
    ensures
        final(world).wf(),
        World::lays(*old(world), *final(world), gyeonghoeru_plan(cx as int, cz as int, gy as int)),
        builds_in(*old(world), *final(world), gyeonghoeru_area(cx as int, cz as int, gy as int)),
{
    let pond_x: i32 = 14;
    let depth: i32 = 4;
    // Half-extents of the pavilion's stone understructure.
    let base_x: i32 = 8;
    let base_z: i32 = 8;
    let ghost w0 = *world;
    let ghost area = gyeonghoeru_area(cx as int, cz as int, gy as int);

    // Excavate, then flood to a hair below the bank.
    dig_gh_pond(world, cx, cz, gy);
    let ghost w1 = *world;
    // The stone forest the pavilion stands on.
    raise_forest(world, cx, cz, gy);
    let ghost w2 = *world;
    // Timber deck across the top of them, its colonnade and its beam.
    let floor = gy + depth + 1;
    lay_deck(world, cx, cz, floor);
    let ghost w3 = *world;
    let beam = floor + 8;
    let eave = lay_brackets(world, cx, cz, base_x, base_z, beam + 1);
    let ghost w4 = *world;
    lay_roof(world, cx, cz, base_x, base_z, eave, EAVES, PALACE_STEP, true);
    let ghost w5 = *world;

    // A causeway east to the bank, at deck height, starting beyond the
    // pavilion's own edge so it does not clear the colonnade it joins.
    let ghost plan = causeway_plan(cx as int, cz as int, floor as int);
    proof {
        World::lemma_columns_start(w5, plan, cx as int, cz as int, 0, 9);
    }
    let mut dx = base_x + 1;
    while dx <= pond_x
        invariant
            pond_x == 14,
            base_x == 8,
            base_x + 1 <= dx <= pond_x + 1,
            site(cx as int),
            site(cz as int),
            site(gy as int),
            floor == gy + 5,
            plan == causeway_plan(cx as int, cz as int, floor as int),
            world.wf(),
            World::lays(w5, *world, World::columns(plan, cx as int, cz as int, 0, dx as int)),
        decreases pond_x + 1 - dx,
    {
        let ghost v1 = *world;
        world.set(cx + dx, floor, cz, Block::Granite);
        let ghost v2 = *world;
        fill_column(world, cx + dx, cz, floor + 1, floor + 8, Block::Air);
        proof {
            let deck = World::single(cx + dx, floor as int, cz as int, Block::Granite);
            let clear = column_range(cx + dx, cz as int, floor + 1, floor + 8, Block::Air);
            World::lemma_lays_single(v1, v2, cx + dx, floor as int, cz as int, Block::Granite);
            World::lemma_lays_compose(v1, v2, *world, deck, clear);
            World::lemma_column_step(w5, v1, *world, plan, World::overlay(deck, clear), cx as int, cz as int, 0, dx as int);
        }
        dx = dx + 1;
    }
    proof {
        World::lemma_columns_finish(w5, *world, plan, cx as int, cz as int, 0, dx as int);
        let p1 = gh_pond_plan(cx as int, cz as int, gy as int);
        let p2 = forest_plan(cx as int, cz as int, gy as int);
        let p3 = deck_plan(cx as int, cz as int, floor as int);
        let p4 = brackets_plan(cx as int, cz as int, 8, 8, beam + 1);
        let p5 = roof_plan(cx as int, cz as int, 8 + EAVES, 8 + EAVES, eave as int, PALACE_STEP as int, true);
        World::lemma_lays_compose(w0, w1, w2, p1, p2);
        World::lemma_lays_compose(w0, w2, w3, World::overlay(p1, p2), p3);
        World::lemma_lays_compose(w0, w3, w4, World::overlay(World::overlay(p1, p2), p3), p4);
        World::lemma_lays_compose(w0, w4, w5, World::overlay(World::overlay(World::overlay(p1, p2), p3), p4), p5);
        World::lemma_lays_compose(w0, w5, *world, World::overlay(World::overlay(World::overlay(World::overlay(p1, p2), p3), p4), p5), plan);
        assert(plan_within(p1, area));
        assert(plan_within(p2, area));
        assert(plan_within(p3, area));
        assert(plan_within(plan, area));
        lemma_lays_builds(w0, w1, p1, area);
        lemma_lays_builds(w1, w2, p2, area);
        lemma_extend(w0, w1, w2, area, area);
        lemma_lays_builds(w2, w3, p3, area);
        lemma_extend(w0, w2, w3, area, area);
        lemma_extend(w0, w3, w4, area, (cx - base_x - BRACKET_TIERS, cx + base_x + BRACKET_TIERS, beam + 1, beam + BRACKET_TIERS, cz - base_z - BRACKET_TIERS, cz + base_z + BRACKET_TIERS));
        lemma_extend(w0, w4, w5, area, (cx - base_x - EAVES, cx + base_x + EAVES, eave as int, eave + roof_courses(base_x + EAVES, base_z + EAVES, PALACE_STEP as int) + 1, cz - base_z - EAVES, cz + base_z + EAVES));
        lemma_lays_builds(w5, *world, plan, area);
        lemma_extend(w0, w5, *world, area, area);
    }
}

} // verus!
