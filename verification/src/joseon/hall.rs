//! The halls: the throne hall on its 월대, the residential halls behind it,
//! and the pieces they share.

use vstd::prelude::*;
use crate::block::Block;
use crate::world::{World, in_world};
use super::{
    abs, rem_euclid, lay, builds_in, builds_within, lemma_start, lemma_extend,
    lemma_column_untouched, lemma_lays_builds, plan_within, fill_column, column_range, coord, site,
    plot, extent, in_box, is_built, Area, GYOTAE_Z, GANGNYEONG_Z, SAJEONG_Z, WOLDAE_INNER_X,
    WOLDAE_INNER_Z, WOLDAE_OUTER_X, WOLDAE_OUTER_Z,
};
use super::style::{
    iabs, on_ring, brackets_plan, lay_brackets, lay_roof, roof_courses, roof_plan, wall_column, wall_course, BAY,
    BRACKET_TIERS, DOOR_H, EAVES,
    PALACE_STEP, WALL_H,
};
use super::path::BYPASS_X;

verus! {

/// The rectangle of half-extents `(rx, rz)` round `(cx, cz)` at height `y`,
/// all of it `b`.
pub open spec fn slab(cx: int, cz: int, rx: int, rz: int, y: int, b: Block) -> spec_fn(int, int, int) -> Option<Block> {
    |a: int, c: int, e: int|
        if c == y && iabs(a - cx) <= rx && iabs(e - cz) <= rz { Some(b) } else { None }
}

/// Board the inside of a hall out in timber: every cell strictly inside the
/// walls of a body of half-extents `(bx, bz)`, at height `y`.
pub fn lay_hall_floor(world: &mut World, cx: i32, cz: i32, bx: i32, bz: i32, y: i32)
    requires
        old(world).wf(),
        coord(cx as int),
        coord(cz as int),
        coord(y as int),
        extent(bx as int),
        extent(bz as int),
    ensures
        final(world).wf(),
        World::lays(*old(world), *final(world), slab(cx as int, cz as int, bx - 1, bz - 1, y as int, Block::Wood)),
        builds_within(*old(world), *final(world), cx - bx + 1, cx + bx - 1, y as int, y as int, cz - bz + 1, cz + bz - 1),
{
    fill_slab(world, cx, cz, bx - 1, bz - 1, y, Block::Wood);
}

/// A granite terrace course of half-extents `(rx, rz)` at height `y`.
pub fn terrace(world: &mut World, cx: i32, cz: i32, rx: i32, rz: i32, y: i32)
    requires
        old(world).wf(),
        coord(cx as int),
        coord(cz as int),
        coord(y as int),
        extent(rx as int),
        extent(rz as int),
    ensures
        final(world).wf(),
        World::lays(*old(world), *final(world), slab(cx as int, cz as int, rx as int, rz as int, y as int, Block::Granite)),
        builds_within(*old(world), *final(world), cx - rx, cx + rx, y as int, y as int, cz - rz, cz + rz),
{
    fill_slab(world, cx, cz, rx, rz, y, Block::Granite);
}

/// Fill the rectangle of half-extents `(rx, rz)` round `(cx, cz)` at height
/// `y` with `b`.
fn fill_slab(world: &mut World, cx: i32, cz: i32, rx: i32, rz: i32, y: i32, b: Block)
    requires
        old(world).wf(),
        coord(cx as int),
        coord(cz as int),
        coord(y as int),
        -1 <= rx <= 1000,
        -1 <= rz <= 1000,
        is_built(b),
    ensures
        final(world).wf(),
        World::lays(*old(world), *final(world), slab(cx as int, cz as int, rx as int, rz as int, y as int, b)),
        builds_within(*old(world), *final(world), cx - rx, cx + rx, y as int, y as int, cz - rz, cz + rz),
{
    let ghost w0 = *world;
    fill_rect(world, cx - rx, cz - rz, cx + rx, cz + rz, y, b);
    proof {
        let r = rect(cx - rx, cx + rx, cz - rz, cz + rz, y as int, b);
        let p = slab(cx as int, cz as int, rx as int, rz as int, y as int, b);
        assert forall|a: int, c: int, e: int| #[trigger] r(a, c, e) == p(a, c, e) by {
        }
        World::lemma_lays_congr(w0, *world, r, p);
    }
}

/// The rectangle `[x0, x1] × [z0, z1]` at height `y`, all of it `b`.
pub open spec fn rect(x0: int, x1: int, z0: int, z1: int, y: int, b: Block) -> spec_fn(int, int, int) -> Option<Block> {
    |a: int, c: int, e: int|
        if c == y && x0 <= a <= x1 && z0 <= e <= z1 { Some(b) } else { None }
}

/// Fill the rectangle `[x0, x1] × [z0, z1]` at height `y` with `b`, row by
/// row. An empty rectangle lays nothing.
pub fn fill_rect(world: &mut World, x0: i32, z0: i32, x1: i32, z1: i32, y: i32, b: Block)
    requires
        old(world).wf(),
        x1 < i32::MAX,
        z1 < i32::MAX,
        coord(y as int),
        is_built(b),
    ensures
        final(world).wf(),
        World::lays(*old(world), *final(world), rect(x0 as int, x1 as int, z0 as int, z1 as int, y as int, b)),
        builds_within(*old(world), *final(world), x0 as int, x1 as int, y as int, y as int, z0 as int, z1 as int),
{
    proof { reveal(World::lays); }
    let ghost w0 = *world;
    let ghost plan = rect(x0 as int, x1 as int, z0 as int, z1 as int, y as int, b);
    proof {
        World::lemma_lays_nothing(w0);
        World::lemma_lays_congr(w0, w0, World::nothing(), World::rows(plan, y as int, x0 as int, z0 as int, 0, 0));
    }
    let mut z = z0;
    while z <= z1
        invariant
            world.wf(),
            x1 < i32::MAX,
            z1 < i32::MAX,
            coord(y as int),
            z0 <= z && (z <= z1 + 1 || z == z0),
            plan == rect(x0 as int, x1 as int, z0 as int, z1 as int, y as int, b),
            World::lays(w0, *world, World::rows(plan, y as int, x0 as int, z0 as int, z - z0, 0)),
        decreases z1 + 1 - z,
    {
        let mut x = x0;
        while x <= x1
            invariant
                world.wf(),
                x1 < i32::MAX,
                z1 < i32::MAX,
                coord(y as int),
                z0 <= z <= z1,
                x0 <= x && (x <= x1 + 1 || x == x0),
                plan == rect(x0 as int, x1 as int, z0 as int, z1 as int, y as int, b),
                World::lays(w0, *world, World::rows(plan, y as int, x0 as int, z0 as int, z - z0, x - x0)),
            decreases x1 + 1 - x,
        {
            let ghost prev = *world;
            world.set(x, y, z, b);
            proof {
                World::lemma_row_set(w0, prev, *world, plan, y as int, x0 as int, z0 as int, z - z0, x - x0, b);
            }
            x = x + 1;
        }
        proof {
            World::lemma_row_move(w0, *world, plan, y as int, x0 as int, z0 as int, z - z0, x - x0, z + 1 - z0, 0);
        }
        z = z + 1;
    }
    proof {
        assert forall|a: int, c: int, e: int|
            #[trigger] World::rows(plan, y as int, x0 as int, z0 as int, z - z0, 0)(a, c, e) == plan(a, c, e) by {
        }
        World::lemma_lays_congr(w0, *world, World::rows(plan, y as int, x0 as int, z0 as int, z - z0, 0), plan);
        assert forall|a: int, c: int, e: int|
            (#[trigger] world.block_at(a, c, e) != w0.block_at(a, c, e) || world.level_at(a, c, e) != w0.level_at(a, c, e))
                implies in_box(a, c, e, x0 as int, x1 as int, y as int, y as int, z0 as int, z1 as int) && is_built(world.block_at(a, c, e)) by {
        }
    }
}

/// Where `place_terrace_rails` may build.
pub open spec fn rails_area(cx: int, cz: int, gy: int) -> Area {
    (cx - WOLDAE_OUTER_X, cx + WOLDAE_OUTER_X, gy + 2, gy + 3, cz - WOLDAE_OUTER_Z, cz + WOLDAE_OUTER_Z)
}

/// What `place_terrace_rails` lays: granite on the ring of the outer 월대 a
/// course above the ground and on the ring of the inner one a course higher,
/// each open for the stair `6` either side of the axis in its south face.
pub open spec fn rails_plan(cx: int, cz: int, gy: int) -> spec_fn(int, int, int) -> Option<Block> {
    |a: int, b: int, c: int|
        if (b == gy + 2 && on_ring(a - cx, c - cz, WOLDAE_OUTER_X as int, WOLDAE_OUTER_Z as int)
            && !(c - cz == WOLDAE_OUTER_Z && iabs(a - cx) <= 6)) || (b == gy + 3 && on_ring(
            a - cx,
            c - cz,
            WOLDAE_INNER_X as int,
            WOLDAE_INNER_Z as int,
        ) && !(c - cz == WOLDAE_INNER_Z && iabs(a - cx) <= 6)) {
            Some(Block::Granite)
        } else {
            None
        }
}

/// 난간 — balustrades round both 월대 terraces, open on the axis where the
/// stairs come up the south face.
#[verifier::loop_isolation(false)]
pub fn place_terrace_rails(world: &mut World, cx: i32, cz: i32, gy: i32)
    requires
        old(world).wf(),
        coord(cx as int),
        coord(cz as int),
        coord(gy as int),
    ensures
        final(world).wf(),
        World::lays(*old(world), *final(world), rails_plan(cx as int, cz as int, gy as int)),
        builds_in(*old(world), *final(world), rails_area(cx as int, cz as int, gy as int)),
{
    let ghost w0 = *world;
    let ghost area = rails_area(cx as int, cz as int, gy as int);
    let ghost plan = rails_plan(cx as int, cz as int, gy as int);
    proof {
        lemma_start(w0, area);
        World::lemma_lays_nothing(w0);
        World::lemma_lays_congr(w0, w0, World::nothing(), World::layers(plan, gy + 2, gy + 2));
    }
    let mut ring: i32 = 0;
    while ring < 2
        invariant
            0 <= ring <= 2,
            world.wf(),
            builds_in(w0, *world, area),
            World::lays(w0, *world, World::layers(plan, gy + 2, gy + 2 + ring)),
        decreases 2 - ring,
    {
        let (level, rx, rz) = if ring == 0 {
            (gy + 2, WOLDAE_OUTER_X, WOLDAE_OUTER_Z)
        } else {
            (gy + 3, WOLDAE_INNER_X, WOLDAE_INNER_Z)
        };
        let ghost base = *world;
        proof {
            World::lemma_lays_nothing(base);
            World::lemma_lays_congr(base, base, World::nothing(), World::rows(plan, level as int, cx as int, cz as int, -rz as int, -rx as int));
        }
        let mut dz = -rz;
        while dz <= rz
            invariant
                0 <= ring < 2,
                -rz <= dz <= rz + 1,
                world.wf(),
                builds_in(w0, *world, area),
                World::lays(base, *world, World::rows(plan, level as int, cx as int, cz as int, dz as int, -rx as int)),
            decreases rz + 1 - dz,
        {
            let mut dx = -rx;
            while dx <= rx
                invariant
                    0 <= ring < 2,
                    -rz <= dz <= rz,
                    -rx <= dx <= rx + 1,
                    world.wf(),
                    builds_in(w0, *world, area),
                    World::lays(base, *world, World::rows(plan, level as int, cx as int, cz as int, dz as int, dx as int)),
                decreases rx + 1 - dx,
            {
                if abs(dx) != rx && abs(dz) != rz {
                    proof {
                        World::lemma_row_skip(base, *world, plan, level as int, cx as int, cz as int, dz as int, dx as int);
                    }
                    dx = dx + 1;
                    continue;
                }
                // The stair up the south face.
                if dz == rz && abs(dx) <= 3 * 2 {
                    proof {
                        World::lemma_row_skip(base, *world, plan, level as int, cx as int, cz as int, dz as int, dx as int);
                    }
                    dx = dx + 1;
                    continue;
                }
                let ghost prev = *world;
                lay(world, cx + dx, level, cz + dz, Block::Granite, Ghost(w0), Ghost(area));
                proof {
                    World::lemma_row_set(base, prev, *world, plan, level as int, cx as int, cz as int, dz as int, dx as int, Block::Granite);
                }
                dx = dx + 1;
            }
            proof {
                World::lemma_row_move(base, *world, plan, level as int, cx as int, cz as int, dz as int, dx as int, dz + 1, -rx as int);
            }
            dz = dz + 1;
        }
        proof {
            World::lemma_layer_done(w0, base, *world, plan, gy + 2, level as int, cx as int, cz as int, dz as int, -rx as int);
        }
        ring = ring + 1;
    }
    proof {
        assert forall|a: int, b: int, c: int| #[trigger] World::layers(plan, gy + 2, gy + 4)(a, b, c) == plan(a, b, c) by {
        }
        World::lemma_lays_congr(w0, *world, World::layers(plan, gy + 2, gy + 4), plan);
    }
}

/// Half-width of the yards behind the throne hall.
pub const INNER_X: i32 = 80;

/// The column through `(x, z)` of `after` is crowned at `crown` with
/// `top` (when the crown is in the world) and clear above it up to
/// `clear_top`, and as in `before` beyond.
pub open spec fn crowned(before: World, after: World, x: int, z: int, crown: int, clear_top: int, top: Block) -> bool {
    &&& after.block_at(x, crown, z) == (if in_world(x, crown, z) { top } else { Block::Air })
    &&& clear_above(before, after, x, z, crown, clear_top)
}

/// Where `place_inner_quarters` may build.
pub open spec fn inner_quarters_area(cx: int, cz: int, gy: int) -> Area {
    (cx - INNER_X, cx + INNER_X, gy + 1, gy + 31, cz + GYOTAE_Z - 15, cz + SAJEONG_Z + 24)
}

/// Lay out the sequence of halls north of the throne hall: 사정전 where the
/// king held council (ridged, a hall of state), then 강녕전 and 교태전 where he
/// and the queen slept (무량각, without a ridge), each behind its own cross
/// wall, and 아미산 terraced behind the queen's hall.
#[verifier::loop_isolation(false)]
pub fn place_inner_quarters(world: &mut World, cx: i32, cz: i32, gy: i32)
    requires
        old(world).wf(),
        plot(cx as int),
        plot(cz as int),
        plot(gy as int),
    ensures
        final(world).wf(),
        World::lays(*old(world), *final(world), inner_quarters_plan(cx as int, cz as int, gy as int)),
        builds_in(*old(world), *final(world), inner_quarters_area(cx as int, cz as int, gy as int)),
        crowned(*old(world), *final(world), cx as int, cz + SAJEONG_Z, residence_crown(gy as int, 14, 8), gy + 24, Block::RoofRidge),
        crowned(*old(world), *final(world), cx as int, cz + GANGNYEONG_Z, residence_crown(gy as int, 16, 8), gy + 24, Block::RoofTile),
        crowned(*old(world), *final(world), cx as int, cz + GYOTAE_Z, residence_crown(gy as int, 14, 8), gy + 24, Block::RoofTile),
{
    let ghost w0 = *world;
    let ghost area = inner_quarters_area(cx as int, cz as int, gy as int);
    let ghost lo = gy + 13;
    let ghost (zs, zg, zy) = (cz + SAJEONG_Z, cz + GANGNYEONG_Z, cz + GYOTAE_Z);
    proof {
        lemma_start(w0, area);
    }
    cross_wall(world, cx, cz + SAJEONG_Z + 24, gy);
    let ghost before_s = *world;
    proof {
        let a = cross_wall_area(cx as int, cz + SAJEONG_Z + 24, gy as int);
        lemma_extend(w0, w0, before_s, area, a);
        lemma_column_untouched(w0, before_s, a, cx as int, zs, lo);
        lemma_column_untouched(w0, before_s, a, cx as int, zg, lo);
        lemma_column_untouched(w0, before_s, a, cx as int, zy, lo);
    }
    place_residence(world, cx, cz + SAJEONG_Z, gy, 14, 8, true);
    let ghost after_s = *world;
    proof {
        let a = residence_area(cx as int, cz + SAJEONG_Z, gy as int, 14, 8);
        lemma_extend(w0, before_s, after_s, area, a);
        lemma_column_untouched(before_s, after_s, a, cx as int, zg, lo);
        lemma_column_untouched(before_s, after_s, a, cx as int, zy, lo);
    }

    cross_wall(world, cx, cz + GANGNYEONG_Z + 16, gy);
    let ghost before_g = *world;
    proof {
        let a = cross_wall_area(cx as int, cz + GANGNYEONG_Z + 16, gy as int);
        lemma_extend(w0, after_s, before_g, area, a);
        lemma_column_untouched(after_s, before_g, a, cx as int, zs, lo);
        lemma_column_untouched(after_s, before_g, a, cx as int, zg, lo);
        lemma_column_untouched(after_s, before_g, a, cx as int, zy, lo);
    }
    place_residence(world, cx, cz + GANGNYEONG_Z, gy, 16, 8, false);
    let ghost after_g = *world;
    proof {
        let a = residence_area(cx as int, cz + GANGNYEONG_Z, gy as int, 16, 8);
        lemma_extend(w0, before_g, after_g, area, a);
        lemma_column_untouched(before_g, after_g, a, cx as int, zs, lo);
        lemma_column_untouched(before_g, after_g, a, cx as int, zy, lo);
    }

    cross_wall(world, cx, cz + GYOTAE_Z + 16, gy);
    let ghost before_y = *world;
    proof {
        let a = cross_wall_area(cx as int, cz + GYOTAE_Z + 16, gy as int);
        lemma_extend(w0, after_g, before_y, area, a);
        lemma_column_untouched(after_g, before_y, a, cx as int, zs, lo);
        lemma_column_untouched(after_g, before_y, a, cx as int, zg, lo);
        lemma_column_untouched(after_g, before_y, a, cx as int, zy, lo);
    }
    place_residence(world, cx, cz + GYOTAE_Z, gy, 14, 8, false);
    let ghost after_y = *world;
    proof {
        let a = residence_area(cx as int, cz + GYOTAE_Z, gy as int, 14, 8);
        lemma_extend(w0, before_y, after_y, area, a);
        lemma_column_untouched(before_y, after_y, a, cx as int, zs, lo);
        lemma_column_untouched(before_y, after_y, a, cx as int, zg, lo);
    }

    // 아미산 — each step is both further north and one course higher, so the
    // ground climbs away from the hall towards the back wall.
    raise_amisan(world, cx, cz, gy);
    proof {
        let t = (cx - 24, cx + 24, gy + 1, gy + 8, cz + GYOTAE_Z - 15, cz + GYOTAE_Z - 8);
        lemma_column_untouched(after_y, *world, t, cx as int, zs, lo);
        lemma_column_untouched(after_y, *world, t, cx as int, zg, lo);
        lemma_column_untouched(after_y, *world, t, cx as int, zy, lo);
        let wf = *world;
        assert forall|y: int| y > lo implies #[trigger] wf.block_at(cx as int, y, zs) == after_s.block_at(cx as int, y, zs) by {
            assert(wf.block_at(cx as int, y, zs) == after_y.block_at(cx as int, y, zs));
            assert(after_y.block_at(cx as int, y, zs) == before_y.block_at(cx as int, y, zs));
            assert(before_y.block_at(cx as int, y, zs) == after_g.block_at(cx as int, y, zs));
            assert(after_g.block_at(cx as int, y, zs) == before_g.block_at(cx as int, y, zs));
            assert(before_g.block_at(cx as int, y, zs) == after_s.block_at(cx as int, y, zs));
        }
        assert forall|y: int| y > lo implies #[trigger] wf.block_at(cx as int, y, zg) == after_g.block_at(cx as int, y, zg) by {
            assert(wf.block_at(cx as int, y, zg) == after_y.block_at(cx as int, y, zg));
            assert(after_y.block_at(cx as int, y, zg) == before_y.block_at(cx as int, y, zg));
            assert(before_y.block_at(cx as int, y, zg) == after_g.block_at(cx as int, y, zg));
        }
        assert forall|y: int| y > lo implies #[trigger] before_g.block_at(cx as int, y, zg) == w0.block_at(cx as int, y, zg) by {
            assert(before_g.block_at(cx as int, y, zg) == after_s.block_at(cx as int, y, zg));
            assert(after_s.block_at(cx as int, y, zg) == before_s.block_at(cx as int, y, zg));
            assert(before_s.block_at(cx as int, y, zg) == w0.block_at(cx as int, y, zg));
        }
        assert forall|y: int| y > lo implies #[trigger] before_y.block_at(cx as int, y, zy) == w0.block_at(cx as int, y, zy) by {
            assert(before_y.block_at(cx as int, y, zy) == after_g.block_at(cx as int, y, zy));
            assert(after_g.block_at(cx as int, y, zy) == before_g.block_at(cx as int, y, zy));
            assert(before_g.block_at(cx as int, y, zy) == after_s.block_at(cx as int, y, zy));
            assert(after_s.block_at(cx as int, y, zy) == before_s.block_at(cx as int, y, zy));
            assert(before_s.block_at(cx as int, y, zy) == w0.block_at(cx as int, y, zy));
        }
        assert(residence_crown(gy as int, 14, 8) > lo);
        assert(residence_crown(gy as int, 16, 8) > lo);
        assert(crowned(w0, wf, cx as int, zs, residence_crown(gy as int, 14, 8), gy + 24, Block::RoofRidge));
        assert(crowned(w0, wf, cx as int, zg, residence_crown(gy as int, 16, 8), gy + 24, Block::RoofTile));
        assert(crowned(w0, wf, cx as int, zy, residence_crown(gy as int, 14, 8), gy + 24, Block::RoofTile));
        lemma_extend(w0, after_y, wf, area, t);
        let p1 = cross_wall_plan(cx as int, zs + 24, gy as int);
        let p2 = residence_plan(cx as int, zs, gy as int, 14, 8, true);
        let p3 = cross_wall_plan(cx as int, zg + 16, gy as int);
        let p4 = residence_plan(cx as int, zg, gy as int, 16, 8, false);
        let p5 = cross_wall_plan(cx as int, zy + 16, gy as int);
        let p6 = residence_plan(cx as int, zy, gy as int, 14, 8, false);
        let p7 = amisan_plan(cx as int, cz as int, gy as int);
        World::lemma_lays_compose(w0, before_s, after_s, p1, p2);
        World::lemma_lays_compose(w0, after_s, before_g, World::overlay(p1, p2), p3);
        World::lemma_lays_compose(w0, before_g, after_g, World::overlay(World::overlay(p1, p2), p3), p4);
        World::lemma_lays_compose(w0, after_g, before_y, World::overlay(World::overlay(World::overlay(p1, p2), p3), p4), p5);
        World::lemma_lays_compose(w0, before_y, after_y, World::overlay(World::overlay(World::overlay(World::overlay(p1, p2), p3), p4), p5), p6);
        World::lemma_lays_compose(w0, after_y, wf, World::overlay(World::overlay(World::overlay(World::overlay(World::overlay(p1, p2), p3), p4), p5), p6), p7);
    }
}

/// 아미산 — the terraced garden behind 교태전: eight steps, 49 wide, each a
/// block further north and a course higher than the one before, from eight
/// north of the hall's centre.
pub open spec fn amisan_plan(cx: int, cz: int, gy: int) -> spec_fn(int, int, int) -> Option<Block> {
    |a: int, b: int, c: int|
        if 0 <= cz + GYOTAE_Z - 8 - c <= 7 && iabs(a - cx) <= 24 && gy + 1 <= b <= gy + 1 + (cz + GYOTAE_Z - 8 - c) {
            Some(Block::Granite)
        } else {
            None
        }
}

/// What `place_inner_quarters` lays, in the order it lays it: for each of
/// 사정전, 강녕전 and 교태전 in turn the cross wall before it and the hall,
/// then 아미산.
pub open spec fn inner_quarters_plan(cx: int, cz: int, gy: int) -> spec_fn(int, int, int) -> Option<Block> {
    World::overlay(
        World::overlay(
            World::overlay(
                World::overlay(
                    World::overlay(
                        World::overlay(
                            cross_wall_plan(cx, cz + SAJEONG_Z + 24, gy),
                            residence_plan(cx, cz + SAJEONG_Z, gy, 14, 8, true),
                        ),
                        cross_wall_plan(cx, cz + GANGNYEONG_Z + 16, gy),
                    ),
                    residence_plan(cx, cz + GANGNYEONG_Z, gy, 16, 8, false),
                ),
                cross_wall_plan(cx, cz + GYOTAE_Z + 16, gy),
            ),
            residence_plan(cx, cz + GYOTAE_Z, gy, 14, 8, false),
        ),
        amisan_plan(cx, cz, gy),
    )
}

/// Raise 아미산, from its northmost, highest step forward.
#[verifier::loop_isolation(false)]
fn raise_amisan(world: &mut World, cx: i32, cz: i32, gy: i32)
    requires
        old(world).wf(),
        plot(cx as int),
        plot(cz as int),
        plot(gy as int),
    ensures
        final(world).wf(),
        World::lays(*old(world), *final(world), amisan_plan(cx as int, cz as int, gy as int)),
        builds_in(*old(world), *final(world), (cx - 24, cx + 24, gy + 1, gy + 8, cz + GYOTAE_Z - 15, cz + GYOTAE_Z - 8)),
{
    let ghost w0 = *world;
    let ghost plan = amisan_plan(cx as int, cz as int, gy as int);
    proof {
        World::lemma_columns_start(w0, plan, cx as int, cz as int, GYOTAE_Z - 15, -24);
    }
    let mut step: i32 = 8;
    while step > 0
        invariant
            0 <= step <= 8,
            world.wf(),
            World::lays(w0, *world, World::columns(plan, cx as int, cz as int, GYOTAE_Z - 7 - step, -24)),
        decreases step,
    {
        step = step - 1;
        let dz = GYOTAE_Z - 8 - step;
        let mut dx: i32 = -24;
        while dx <= 24
            invariant
                0 <= step < 8,
                -24 <= dx <= 25,
                dz == GYOTAE_Z - 8 - step,
                world.wf(),
                World::lays(w0, *world, World::columns(plan, cx as int, cz as int, dz as int, dx as int)),
            decreases 25 - dx,
        {
            let ghost w1 = *world;
            fill_column(world, cx + dx, cz + dz, gy + 1, gy + 1 + step, Block::Granite);
            proof {
                World::lemma_column_step(w0, w1, *world, plan, column_range(cx + dx, cz + dz, gy + 1, gy + 1 + step, Block::Granite), cx as int, cz as int, dz as int, dx as int);
            }
            dx = dx + 1;
        }
        proof {
            World::lemma_column_move(w0, *world, plan, cx as int, cz as int, dz as int, dx as int, GYOTAE_Z - 7 - step, -24);
        }
    }
    proof {
        World::lemma_columns_finish(w0, *world, plan, cx as int, cz as int, GYOTAE_Z - 7 - step, -24);
        assert(plan_within(plan, (cx - 24, cx + 24, gy + 1, gy + 8, cz + GYOTAE_Z - 15, cz + GYOTAE_Z - 8)));
        lemma_lays_builds(w0, *world, plan, (cx - 24, cx + 24, gy + 1, gy + 8, cz + GYOTAE_Z - 15, cz + GYOTAE_Z - 8));
    }
}

/// Where `cross_wall` may build.
pub open spec fn cross_wall_area(cx: int, cz: int, gy: int) -> Area {
    (cx - INNER_X, cx + INNER_X, gy + 1, gy + WALL_H, cz, cz)
}

/// What `cross_wall` lays: a 담장 column on every cell of the run of
/// half-length `INNER_X` through `(cx, cz)` along X, but for the gateway
/// three wide on the axis and the 협문 three wide either side `BYPASS_X` off
/// it, which carry the coping alone.
pub open spec fn cross_wall_plan(cx: int, cz: int, gy: int) -> spec_fn(int, int, int) -> Option<Block> {
    |a: int, b: int, c: int|
        if c == cz && iabs(a - cx) <= INNER_X {
            if iabs(a - cx) <= 1 || iabs(iabs(a - cx) - BYPASS_X) <= 1 {
                if b == gy + WALL_H { Some(Block::RoofTile) } else { None }
            } else {
                wall_course(gy, b, None)
            }
        } else {
            None
        }
}

/// A cross wall dividing one yard from the next, with a gateway on the axis and
/// a 협문 either side of it. The coping is carried over the gateways so the
/// wall still reads as one continuous run.
#[verifier::loop_isolation(false)]
pub fn cross_wall(world: &mut World, cx: i32, cz: i32, gy: i32)
    requires
        old(world).wf(),
        site(cx as int),
        site(cz as int),
        site(gy as int),
    ensures
        final(world).wf(),
        World::lays(*old(world), *final(world), cross_wall_plan(cx as int, cz as int, gy as int)),
        builds_in(*old(world), *final(world), cross_wall_area(cx as int, cz as int, gy as int)),
{
    let ghost w0 = *world;
    let ghost area = cross_wall_area(cx as int, cz as int, gy as int);
    let ghost plan = cross_wall_plan(cx as int, cz as int, gy as int);
    proof {
        lemma_start(w0, area);
        World::lemma_lays_nothing(w0);
        World::lemma_lays_congr(w0, w0, World::nothing(), World::columns(plan, cx as int, cz as int, 0, -INNER_X as int));
    }
    let mut dx = -INNER_X;
    while dx <= INNER_X
        invariant
            -INNER_X <= dx <= INNER_X + 1,
            world.wf(),
            builds_in(w0, *world, area),
            World::lays(w0, *world, World::columns(plan, cx as int, cz as int, 0, dx as int)),
        decreases INNER_X + 1 - dx,
    {
        let side_gate = abs(abs(dx) - BYPASS_X) <= 1;
        if abs(dx) <= 1 || side_gate {
            let ghost w1 = *world;
            lay(world, cx + dx, gy + WALL_H, cz, Block::RoofTile, Ghost(w0), Ghost(area));
            proof {
                World::lemma_lays_single(w1, *world, cx + dx, gy + WALL_H, cz as int, Block::RoofTile);
                World::lemma_column_step(
                    w0,
                    w1,
                    *world,
                    plan,
                    World::single(cx + dx, gy + WALL_H, cz as int, Block::RoofTile),
                    cx as int,
                    cz as int,
                    0,
                    dx as int,
                );
            }
            dx = dx + 1;
            continue;
        }
        let ghost w1 = *world;
        wall_column(world, cx + dx, gy, cz, None);
        proof {
            lemma_extend(w0, w1, *world, area, (cx + dx, cx + dx, gy + 1, gy + WALL_H, cz as int, cz as int));
            World::lemma_column_step(
                w0,
                w1,
                *world,
                plan,
                |a: int, b: int, c: int| if a == cx + dx && c == cz { wall_course(gy as int, b, None) } else { None },
                cx as int,
                cz as int,
                0,
                dx as int,
            );
        }
        dx = dx + 1;
    }
    proof {
        World::lemma_column_move(w0, *world, plan, cx as int, cz as int, 0, dx as int, 1_000_000_000, 0);
        assert forall|a: int, b: int, c: int| #[trigger] World::columns(plan, cx as int, cz as int, 1_000_000_000, 0)(a, b, c) == plan(a, b, c) by {
        }
        World::lemma_lays_congr(w0, *world, World::columns(plan, cx as int, cz as int, 1_000_000_000, 0), plan);
    }
}

/// Where `place_residence` may build: the platform, projecting four blocks
/// past the walls, and everything up to the roof over it.
pub open spec fn residence_area(cx: int, cz: int, gy: int, bx: int, bz: int) -> Area {
    (cx - bx - 4, cx + bx + 4, gy + 1, gy + 24 + roof_courses(bx + EAVES, bz + EAVES, PALACE_STEP as int), cz - bz - 4, cz + bz + 4)
}

/// The height of a residential hall's crown — the top course of its roof —
/// for a body of half-extents `(bx, bz)` on ground `gy`: the walls, beam and
/// bracket band take fourteen courses, then the roof.
pub open spec fn residence_crown(gy: int, bx: int, bz: int) -> int {
    gy + 14 + roof_courses(bx + EAVES, bz + EAVES, PALACE_STEP as int) - 1
}

/// Whether the column through `(cx, cz)` above `crown` is what a hall
/// leaves there: air up to `clear_top`, the top of the space cleared over its
/// platform, and `before` above that.
pub open spec fn clear_above(before: World, after: World, cx: int, cz: int, crown: int, clear_top: int) -> bool {
    forall|y: int|
        y > crown ==> #[trigger] after.block_at(cx, y, cz) == (if y <= clear_top {
            Block::Air
        } else {
            before.block_at(cx, y, cz)
        })
}

/// The platform and body of a residential hall of half-extents `(bx, bz)`,
/// column by column: granite over the platform, projecting four past the
/// walls all round, with the air cleared over it to 24 above the ground;
/// round the body's edge walls eight high — red pillars at the corners and
/// every bay along each face, paper doors across the south front and plaster
/// elsewhere, with a doorway three wide and six high in the middle of the
/// front — and the painted beam over them.
pub open spec fn residence_body_plan(cx: int, cz: int, gy: int, bx: int, bz: int) -> spec_fn(int, int, int) -> Option<Block> {
    |a: int, b: int, c: int|
        if iabs(a - cx) <= bx + 4 && iabs(c - cz) <= bz + 4 {
            let ring = iabs(a - cx) <= bx && iabs(c - cz) <= bz && (iabs(a - cx) == bx || iabs(c - cz) == bz);
            let door = c - cz == bz && iabs(a - cx) <= 1;
            let post = (iabs(a - cx) == bx && iabs(c - cz) == bz) || ((a - cx) % 6 == 0 && iabs(c - cz) == bz) || ((c - cz)
                % 6 == 0 && iabs(a - cx) == bx);
            if b == gy + 1 {
                Some(Block::Granite)
            } else if ring && gy + 2 <= b <= gy + 9 && !(door && b <= gy + 7) {
                Some(if post { Block::RedPillar } else if c - cz == bz { Block::Paper } else { Block::Plaster })
            } else if ring && b == gy + 10 {
                Some(Block::Dancheong)
            } else if gy + 2 <= b <= gy + 24 {
                Some(Block::Air)
            } else {
                None
            }
        } else {
            None
        }
}

/// 드므 — a bronze vat of water on a granite footing at each corner of a
/// residential hall's platform.
pub open spec fn vats_plan(cx: int, cz: int, gy: int, bx: int, bz: int) -> spec_fn(int, int, int) -> Option<Block> {
    |a: int, b: int, c: int|
        if iabs(a - cx) == bx + 4 && iabs(c - cz) == bz + 4 {
            if b == gy + 2 {
                Some(Block::Granite)
            } else if b == gy + 3 {
                Some(Block::Water)
            } else {
                None
            }
        } else {
            None
        }
}

/// What `place_residence` lays: the platform and body, the timber floor
/// inside the walls, the bracket band, the roof, and the vats.
pub open spec fn residence_plan(cx: int, cz: int, gy: int, bx: int, bz: int, ridged: bool) -> spec_fn(int, int, int) -> Option<Block> {
    World::overlay(
        World::overlay(
            World::overlay(
                World::overlay(residence_body_plan(cx, cz, gy, bx, bz), slab(cx, cz, bx - 1, bz - 1, gy + 1, Block::Wood)),
                brackets_plan(cx, cz, bx, bz, gy + 11),
            ),
            roof_plan(cx, cz, bx + EAVES, bz + EAVES, gy + 11 + BRACKET_TIERS, PALACE_STEP as int, ridged),
        ),
        vats_plan(cx, cz, gy, bx, bz),
    )
}

/// Lay the platform and body of a residential hall column by column.
#[verifier::loop_isolation(false)]
fn residence_body(world: &mut World, cx: i32, cz: i32, gy: i32, bx: i32, bz: i32)
    requires
        old(world).wf(),
        site(cx as int),
        site(cz as int),
        site(gy as int),
        1 <= bx <= 500,
        1 <= bz <= 500,
    ensures
        final(world).wf(),
        World::lays(*old(world), *final(world), residence_body_plan(cx as int, cz as int, gy as int, bx as int, bz as int)),
{
    let body_h: i32 = 8;
    // How far the 기단 projects past the walls.
    let apron: i32 = 4;
    let floor = gy + 2;
    let ghost w0 = *world;
    let ghost plan = residence_body_plan(cx as int, cz as int, gy as int, bx as int, bz as int);
    proof {
        World::lemma_columns_start(w0, plan, cx as int, cz as int, -(bz + 4), -(bx + 4));
    }
    let mut dz = -(bz + apron);
    while dz <= bz + apron
        invariant
            -(bz + apron) <= dz <= bz + apron + 1,
            world.wf(),
            World::lays(w0, *world, World::columns(plan, cx as int, cz as int, dz as int, -(bx + 4))),
        decreases bz + apron + 1 - dz,
    {
        let mut dx = -(bx + apron);
        while dx <= bx + apron
            invariant
                -(bz + apron) <= dz <= bz + apron,
                -(bx + apron) <= dx <= bx + apron + 1,
                world.wf(),
                World::lays(w0, *world, World::columns(plan, cx as int, cz as int, dz as int, dx as int)),
            decreases bx + apron + 1 - dx,
        {
            let (x, z) = (cx + dx, cz + dz);
            let ghost w1 = *world;
            // 기단 — the platform, projecting a little past the walls all
            // round, and the space over it cleared.
            world.set(x, gy + 1, z, Block::Granite);
            let ghost w2 = *world;
            fill_column(world, x, z, gy + 2, gy + body_h + 16, Block::Air);
            let ghost w3 = *world;
            // The walls round the body — the interior stays open — with a
            // doorway through the front, and the painted beam over them.
            let ring = abs(dx) <= bx && abs(dz) <= bz && (abs(dx) == bx || abs(dz) == bz);
            let doorway = dz == bz && abs(dx) <= 1;
            let corner = abs(dx) == bx && abs(dz) == bz;
            let post = corner || (rem_euclid(dx, BAY) == 0 && abs(dz) == bz) || (rem_euclid(dz, BAY) == 0 && abs(dx) == bx);
            let block = if post {
                Block::RedPillar
            } else if dz == bz {
                Block::Paper  // the south front is doors
            } else {
                Block::Plaster
            };
            let wall_from = if doorway { floor + DOOR_H } else { floor };
            let wall_top = if ring { floor + body_h - 1 } else { floor - 1 };
            fill_column(world, x, z, wall_from, wall_top, block);
            let ghost w4 = *world;
            if ring {
                world.set(x, floor + body_h, z, Block::Dancheong);
            }
            proof {
                let footing = World::single(x as int, gy + 1, z as int, Block::Granite);
                let clear = column_range(x as int, z as int, gy + 2, gy + 24, Block::Air);
                let walls = column_range(x as int, z as int, wall_from as int, wall_top as int, block);
                let beam = if ring { World::single(x as int, gy + 10, z as int, Block::Dancheong) } else { World::nothing() };
                World::lemma_lays_single(w1, w2, x as int, gy + 1, z as int, Block::Granite);
                if ring {
                    World::lemma_lays_single(w4, *world, x as int, gy + 10, z as int, Block::Dancheong);
                } else {
                    World::lemma_lays_nothing(w4);
                }
                World::lemma_lays_compose(w1, w2, w3, footing, clear);
                World::lemma_lays_compose(w1, w3, w4, World::overlay(footing, clear), walls);
                World::lemma_lays_compose(w1, w4, *world, World::overlay(World::overlay(footing, clear), walls), beam);
                World::lemma_column_step(w0, w1, *world, plan, World::overlay(World::overlay(World::overlay(footing, clear), walls), beam), cx as int, cz as int, dz as int, dx as int);
            }
            dx = dx + 1;
        }
        proof {
            World::lemma_column_move(w0, *world, plan, cx as int, cz as int, dz as int, dx as int, dz + 1, -(bx + 4));
        }
        dz = dz + 1;
    }
    proof {
        World::lemma_columns_finish(w0, *world, plan, cx as int, cz as int, dz as int, -(bx + 4));
    }
}

/// Set the vats at the four corners of a residential hall's platform.
fn set_vats(world: &mut World, cx: i32, cz: i32, gy: i32, bx: i32, bz: i32)
    requires
        old(world).wf(),
        site(cx as int),
        site(cz as int),
        site(gy as int),
        1 <= bx <= 500,
        1 <= bz <= 500,
    ensures
        final(world).wf(),
        World::lays(*old(world), *final(world), vats_plan(cx as int, cz as int, gy as int, bx as int, bz as int)),
{
    let apron: i32 = 4;
    let ghost w0 = *world;
    let ghost plan = vats_plan(cx as int, cz as int, gy as int, bx as int, bz as int);
    proof {
        World::lemma_columns_start(w0, plan, cx as int, cz as int, -(bz + 4), -(bx + 4));
    }
    let mut sz: i32 = -1;
    while sz <= 1
        invariant
            sz == -1 || sz == 1 || sz == 3,
            site(cx as int),
            site(cz as int),
            site(gy as int),
            1 <= bx <= 500,
            1 <= bz <= 500,
            apron == 4,
            plan == vats_plan(cx as int, cz as int, gy as int, bx as int, bz as int),
            world.wf(),
            World::lays(w0, *world, World::columns(plan, cx as int, cz as int, if sz == 3 { bz + 5 } else { sz * (bz + 4) }, -(bx + 4))),
        decreases 3 - sz,
    {
        let mut sx: i32 = -1;
        while sx <= 1
            invariant
                sz == -1 || sz == 1,
                sx == -1 || sx == 1 || sx == 3,
                site(cx as int),
                site(cz as int),
                site(gy as int),
                1 <= bx <= 500,
                1 <= bz <= 500,
                apron == 4,
                plan == vats_plan(cx as int, cz as int, gy as int, bx as int, bz as int),
                world.wf(),
                World::lays(w0, *world, World::columns(plan, cx as int, cz as int, sz * (bz + 4), if sx == 3 { bx + 5 } else { sx * (bx + 4) })),
            decreases 3 - sx,
        {
            let x = cx + sx * (bx + apron);
            let z = cz + sz * (bz + apron);
            let ghost w1 = *world;
            world.set(x, gy + 2, z, Block::Granite);
            let ghost w2 = *world;
            world.set(x, gy + 3, z, Block::Water);
            proof {
                let foot = World::single(x as int, gy + 2, z as int, Block::Granite);
                let vat = World::single(x as int, gy + 3, z as int, Block::Water);
                World::lemma_lays_single(w1, w2, x as int, gy + 2, z as int, Block::Granite);
                World::lemma_lays_single(w2, *world, x as int, gy + 3, z as int, Block::Water);
                World::lemma_lays_compose(w1, w2, *world, foot, vat);
                World::lemma_column_step(w0, w1, *world, plan, World::overlay(foot, vat), cx as int, cz as int, sz * (bz + 4), sx * (bx + 4));
                World::lemma_column_move(w0, *world, plan, cx as int, cz as int, sz * (bz + 4), sx * (bx + 4) + 1, sz * (bz + 4), if sx == 1 { bx + 5 } else { bx + 4 });
            }
            sx = sx + 2;
        }
        proof {
            World::lemma_column_move(w0, *world, plan, cx as int, cz as int, sz * (bz + 4), bx + 5, if sz == 1 { bz + 5 } else { bz + 4 }, -(bx + 4));
        }
        sz = sz + 2;
    }
    proof {
        World::lemma_columns_finish(w0, *world, plan, cx as int, cz as int, bz + 5, -(bx + 4));
    }
}

/// One hall of the residential quarter: a granite platform cleared above, a
/// red-pillared body with plaster walls and paper doors across the south
/// front, a doorway, a painted beam, the bracket band and a tiled roof, with
/// a bronze vat of water at each corner of the platform.
///
/// The crown of its roof over the centre is the white ridge when `ridged`,
/// and plain tile for 무량각; nothing stands over it.
pub fn place_residence(world: &mut World, cx: i32, cz: i32, gy: i32, bx: i32, bz: i32, ridged: bool)
    requires
        old(world).wf(),
        site(cx as int),
        site(cz as int),
        site(gy as int),
        1 <= bx <= 500,
        1 <= bz <= 500,
    ensures
        final(world).wf(),
        World::lays(*old(world), *final(world), residence_plan(cx as int, cz as int, gy as int, bx as int, bz as int, ridged)),
        builds_in(*old(world), *final(world), residence_area(cx as int, cz as int, gy as int, bx as int, bz as int)),
        final(world).block_at(cx as int, residence_crown(gy as int, bx as int, bz as int), cz as int) == (if in_world(
            cx as int,
            residence_crown(gy as int, bx as int, bz as int),
            cz as int,
        ) {
            if ridged { Block::RoofRidge } else { Block::RoofTile }
        } else {
            Block::Air
        }),
        clear_above(*old(world), *final(world), cx as int, cz as int, residence_crown(gy as int, bx as int, bz as int), gy + 24),
{
    let ghost w0 = *world;
    let ghost area = residence_area(cx as int, cz as int, gy as int, bx as int, bz as int);
    residence_body(world, cx, cz, gy, bx, bz);
    let ghost w1 = *world;
    lay_hall_floor(world, cx, cz, bx, bz, gy + 1);
    let ghost w2 = *world;
    let beam = gy + 10;
    let eave = lay_brackets(world, cx, cz, bx, bz, beam + 1);
    let ghost w3 = *world;
    lay_roof(world, cx, cz, bx, bz, eave, EAVES, PALACE_STEP, ridged);
    let ghost w4 = *world;
    // 드므 — the bronze vats at a hall's corners, kept full of water as a
    // charm against fire.
    set_vats(world, cx, cz, gy, bx, bz);
    proof {
        let p1 = residence_body_plan(cx as int, cz as int, gy as int, bx as int, bz as int);
        let p2 = slab(cx as int, cz as int, bx - 1, bz - 1, gy + 1, Block::Wood);
        let p3 = brackets_plan(cx as int, cz as int, bx as int, bz as int, beam + 1);
        let p4 = roof_plan(cx as int, cz as int, bx + EAVES, bz + EAVES, eave as int, PALACE_STEP as int, ridged);
        let p5 = vats_plan(cx as int, cz as int, gy as int, bx as int, bz as int);
        World::lemma_lays_compose(w0, w1, w2, p1, p2);
        World::lemma_lays_compose(w0, w2, w3, World::overlay(p1, p2), p3);
        World::lemma_lays_compose(w0, w3, w4, World::overlay(World::overlay(p1, p2), p3), p4);
        World::lemma_lays_compose(w0, w4, *world, World::overlay(World::overlay(World::overlay(p1, p2), p3), p4), p5);
        assert(plan_within(p1, area));
        assert(plan_within(p5, area));
        lemma_lays_builds(w0, w1, p1, area);
        lemma_extend(w0, w1, w2, area, (cx - bx + 1, cx + bx - 1, gy + 1, gy + 1, cz - bz + 1, cz + bz - 1));
        lemma_extend(w0, w2, w3, area, (cx - bx - BRACKET_TIERS, cx + bx + BRACKET_TIERS, beam + 1, beam + BRACKET_TIERS, cz - bz - BRACKET_TIERS, cz + bz + BRACKET_TIERS));
        lemma_extend(w0, w3, w4, area, (cx - bx - EAVES, cx + bx + EAVES, eave as int, eave + roof_courses(bx + EAVES, bz + EAVES, PALACE_STEP as int) + 1, cz - bz - EAVES, cz + bz + EAVES));
        lemma_lays_builds(w4, *world, p5, area);
        lemma_extend(w0, w4, *world, area, area);
        // What stands over the centre: the roof's crown and nothing above it
        // but the cleared air.
        let crown = residence_crown(gy as int, bx as int, bz as int);
        let total = residence_plan(cx as int, cz as int, gy as int, bx as int, bz as int, ridged);
        reveal(World::lays);
        super::style::lemma_roof_crown(cx as int, cz as int, bx + EAVES, bz + EAVES, eave as int, PALACE_STEP as int, ridged, crown);
        w0.lemma_cell(cx as int, crown, cz as int);
        world.lemma_cell(cx as int, crown, cz as int);
        assert(world.block_at(cx as int, crown, cz as int) == (if in_world(cx as int, crown, cz as int) {
            if ridged { Block::RoofRidge } else { Block::RoofTile }
        } else {
            Block::Air
        }));
        assert forall|y: int| y > crown implies #[trigger] world.block_at(cx as int, y, cz as int) == (if y <= gy + 24 {
            Block::Air
        } else {
            w0.block_at(cx as int, y, cz as int)
        }) by {
            super::style::lemma_roof_crown(cx as int, cz as int, bx + EAVES, bz + EAVES, eave as int, PALACE_STEP as int, ridged, y);
            w0.lemma_cell(cx as int, y, cz as int);
            world.lemma_cell(cx as int, y, cz as int);
            assert(total(cx as int, y, cz as int) == (if y <= gy + 24 { Some(Block::Air) } else { None }));
        }
    }
}

/// Where `place_throne_hall` may build: the outer 월대 and everything standing
/// on it, up to the crown of the upper roof.
pub open spec fn throne_hall_area(cx: int, cz: int, gy: int) -> Area {
    (cx - WOLDAE_OUTER_X, cx + WOLDAE_OUTER_X, gy + 1, gy + 37, cz - WOLDAE_OUTER_Z, cz + WOLDAE_OUTER_Z)
}

/// What `place_throne_hall` lays, in the order it lays it: the two 월대
/// terraces and their rails, the lower storey, the timber floor inside it,
/// the throne, the lower bracket band and roof, then the upper storey rising
/// through that roof with its own bracket band and roof.
pub open spec fn throne_hall_plan(cx: int, cz: int, gy: int) -> spec_fn(int, int, int) -> Option<Block> {
    let lower_eave = gy + 12 + BRACKET_TIERS;
    let upper_eave = gy + 26 + BRACKET_TIERS;
    World::overlay(
        World::overlay(
            World::overlay(
                World::overlay(
                    World::overlay(
                        World::overlay(
                            World::overlay(
                                World::overlay(
                                    World::overlay(
                                        World::overlay(
                                            slab(cx, cz, WOLDAE_OUTER_X as int, WOLDAE_OUTER_Z as int, gy + 1, Block::Granite),
                                            slab(cx, cz, WOLDAE_INNER_X as int, WOLDAE_INNER_Z as int, gy + 2, Block::Granite),
                                        ),
                                        rails_plan(cx, cz, gy),
                                    ),
                                    storey_plan(cx, cz, 18, 12, gy + 3, 8),
                                ),
                                slab(cx, cz, 17, 11, gy + 2, Block::Wood),
                            ),
                            throne_plan(cx, cz - 4, gy + 3),
                        ),
                        brackets_plan(cx, cz, 18, 12, gy + 12),
                    ),
                    roof_plan(cx, cz, 18 + EAVES, 12 + EAVES, lower_eave, PALACE_STEP as int, true),
                ),
                storey_plan(cx, cz, 12, 8, gy + 19, 6),
            ),
            brackets_plan(cx, cz, 12, 8, gy + 26),
        ),
        roof_plan(cx, cz, 12 + EAVES, 8 + EAVES, upper_eave, PALACE_STEP as int, true),
    )
}

/// 근정전 — the throne hall, on two granite 월대 terraces, with the throne
/// inside and the double roof that gives it its silhouette: an upper storey
/// rising through the lower roof.
pub fn place_throne_hall(world: &mut World, cx: i32, cz: i32, gy: i32)
    requires
        old(world).wf(),
        site(cx as int),
        site(cz as int),
        site(gy as int),
    ensures
        final(world).wf(),
        World::lays(*old(world), *final(world), throne_hall_plan(cx as int, cz as int, gy as int)),
        builds_in(*old(world), *final(world), throne_hall_area(cx as int, cz as int, gy as int)),
{
    let ghost w0 = *world;
    let ghost area = throne_hall_area(cx as int, cz as int, gy as int);
    proof {
        lemma_start(w0, area);
        World::lemma_lays_nothing(w0);
    }
    let ghost mut acc = World::nothing();
    // 월대 — two stepped terraces, the lower broad enough to walk around.
    let ghost w1 = *world;
    terrace(world, cx, cz, WOLDAE_OUTER_X, WOLDAE_OUTER_Z, gy + 1);
    proof {
        lemma_extend(w0, w1, *world, area, (cx - WOLDAE_OUTER_X, cx + WOLDAE_OUTER_X, gy + 1, gy + 1, cz - WOLDAE_OUTER_Z, cz + WOLDAE_OUTER_Z));
        World::lemma_lays_compose(w0, w1, *world, acc, slab(cx as int, cz as int, WOLDAE_OUTER_X as int, WOLDAE_OUTER_Z as int, gy + 1, Block::Granite));
        acc = World::overlay(acc, slab(cx as int, cz as int, WOLDAE_OUTER_X as int, WOLDAE_OUTER_Z as int, gy + 1, Block::Granite));
    }
    let ghost w1 = *world;
    terrace(world, cx, cz, WOLDAE_INNER_X, WOLDAE_INNER_Z, gy + 2);
    proof {
        lemma_extend(w0, w1, *world, area, (cx - WOLDAE_INNER_X, cx + WOLDAE_INNER_X, gy + 2, gy + 2, cz - WOLDAE_INNER_Z, cz + WOLDAE_INNER_Z));
        World::lemma_lays_compose(w0, w1, *world, acc, slab(cx as int, cz as int, WOLDAE_INNER_X as int, WOLDAE_INNER_Z as int, gy + 2, Block::Granite));
        acc = World::overlay(acc, slab(cx as int, cz as int, WOLDAE_INNER_X as int, WOLDAE_INNER_Z as int, gy + 2, Block::Granite));
    }
    let ghost w1 = *world;
    place_terrace_rails(world, cx, cz, gy);
    proof {
        lemma_extend(w0, w1, *world, area, rails_area(cx as int, cz as int, gy as int));
        World::lemma_lays_compose(w0, w1, *world, acc, rails_plan(cx as int, cz as int, gy as int));
        acc = World::overlay(acc, rails_plan(cx as int, cz as int, gy as int));
    }

    let floor = gy + 3;
    // Lower storey: a colonnade of red pillars with plaster and paper between.
    let ghost w1 = *world;
    hall_storey(world, cx, cz, 18, 12, floor, 8);
    proof {
        lemma_extend(w0, w1, *world, area, storey_area(cx as int, cz as int, 18, 12, floor as int, 8));
        World::lemma_lays_compose(w0, w1, *world, acc, storey_plan(cx as int, cz as int, 18, 12, floor as int, 8));
        acc = World::overlay(acc, storey_plan(cx as int, cz as int, 18, 12, floor as int, 8));
    }
    let ghost w1 = *world;
    lay_hall_floor(world, cx, cz, 18, 12, floor - 1);
    proof {
        lemma_extend(w0, w1, *world, area, (cx - 17, cx + 17, floor - 1, floor - 1, cz - 11, cz + 11));
        World::lemma_lays_compose(w0, w1, *world, acc, slab(cx as int, cz as int, 17, 11, floor - 1, Block::Wood));
        acc = World::overlay(acc, slab(cx as int, cz as int, 17, 11, floor - 1, Block::Wood));
    }
    let ghost w1 = *world;
    place_throne(world, cx, cz - 4, floor);
    proof {
        lemma_extend(w0, w1, *world, area, throne_area(cx as int, cz - 4, floor as int));
        World::lemma_lays_compose(w0, w1, *world, acc, throne_plan(cx as int, cz - 4, floor as int));
        acc = World::overlay(acc, throne_plan(cx as int, cz - 4, floor as int));
    }
    let lower_beam = floor + 8;
    let ghost w1 = *world;
    let lower_eave = lay_brackets(world, cx, cz, 18, 12, lower_beam + 1);
    proof {
        lemma_extend(w0, w1, *world, area, (cx - 18 - BRACKET_TIERS, cx + 18 + BRACKET_TIERS, lower_beam + 1, lower_beam + BRACKET_TIERS, cz - 12 - BRACKET_TIERS, cz + 12 + BRACKET_TIERS));
        World::lemma_lays_compose(w0, w1, *world, acc, brackets_plan(cx as int, cz as int, 18, 12, lower_beam + 1));
        acc = World::overlay(acc, brackets_plan(cx as int, cz as int, 18, 12, lower_beam + 1));
    }
    let ghost w1 = *world;
    lay_roof(world, cx, cz, 18, 12, lower_eave, EAVES, PALACE_STEP, true);
    proof {
        lemma_extend(w0, w1, *world, area, (cx - 18 - EAVES, cx + 18 + EAVES, lower_eave as int, lower_eave + roof_courses(18 + EAVES, 12 + EAVES, PALACE_STEP as int) + 1, cz - 12 - EAVES, cz + 12 + EAVES));
        World::lemma_lays_compose(w0, w1, *world, acc, roof_plan(cx as int, cz as int, 18 + EAVES, 12 + EAVES, lower_eave as int, PALACE_STEP as int, true));
        acc = World::overlay(acc, roof_plan(cx as int, cz as int, 18 + EAVES, 12 + EAVES, lower_eave as int, PALACE_STEP as int, true));
    }

    // Upper storey rising through the lower roof — the 중층 that makes 근정전
    // read as a throne hall rather than a large shed.
    let upper_floor = lower_beam + 8;
    let ghost w1 = *world;
    hall_storey(world, cx, cz, 12, 8, upper_floor, 6);
    proof {
        lemma_extend(w0, w1, *world, area, storey_area(cx as int, cz as int, 12, 8, upper_floor as int, 6));
        World::lemma_lays_compose(w0, w1, *world, acc, storey_plan(cx as int, cz as int, 12, 8, upper_floor as int, 6));
        acc = World::overlay(acc, storey_plan(cx as int, cz as int, 12, 8, upper_floor as int, 6));
    }
    let upper_beam = upper_floor + 6;
    let ghost w1 = *world;
    let upper_eave = lay_brackets(world, cx, cz, 12, 8, upper_beam + 1);
    proof {
        lemma_extend(w0, w1, *world, area, (cx - 12 - BRACKET_TIERS, cx + 12 + BRACKET_TIERS, upper_beam + 1, upper_beam + BRACKET_TIERS, cz - 8 - BRACKET_TIERS, cz + 8 + BRACKET_TIERS));
        World::lemma_lays_compose(w0, w1, *world, acc, brackets_plan(cx as int, cz as int, 12, 8, upper_beam + 1));
        acc = World::overlay(acc, brackets_plan(cx as int, cz as int, 12, 8, upper_beam + 1));
    }
    let ghost w1 = *world;
    lay_roof(world, cx, cz, 12, 8, upper_eave, EAVES, PALACE_STEP, true);
    proof {
        lemma_extend(w0, w1, *world, area, (cx - 12 - EAVES, cx + 12 + EAVES, upper_eave as int, upper_eave + roof_courses(12 + EAVES, 8 + EAVES, PALACE_STEP as int) + 1, cz - 8 - EAVES, cz + 8 + EAVES));
        World::lemma_lays_compose(w0, w1, *world, acc, roof_plan(cx as int, cz as int, 12 + EAVES, 8 + EAVES, upper_eave as int, PALACE_STEP as int, true));
        acc = World::overlay(acc, roof_plan(cx as int, cz as int, 12 + EAVES, 8 + EAVES, upper_eave as int, PALACE_STEP as int, true));
        World::lemma_lays_congr(w0, *world, acc, throne_hall_plan(cx as int, cz as int, gy as int));
    }
}

/// Where `place_throne` may build.
pub open spec fn throne_area(cx: int, cz: int, floor: int) -> Area {
    (cx - 6, cx + 6, floor, floor + 10, cz - 6, cz + 2)
}

/// What `place_throne` lays, round `(cx, cz)` on the hall floor `floor`:
/// the dais in two steps (13 by 7 at the floor, 9 by 5 above it, flush with
/// its north edge), the seat on it two north of the centre, the 일월오봉도
/// screen 13 wide behind it from two to eight above the floor, the four
/// posts of the 닫집 at the corners 4 either side and from 4 north to 2 south,
/// the canopy's tiled roof over them nine above the floor, and its ridge,
/// three long, over the centre.
pub open spec fn throne_plan(cx: int, cz: int, floor: int) -> spec_fn(int, int, int) -> Option<Block> {
    |a: int, b: int, c: int|
        if -4 <= c - cz <= 2 && iabs(a - cx) <= 6 && b == floor {
            Some(Block::Granite)
        } else if -4 <= c - cz <= 0 && iabs(a - cx) <= 4 && b == floor + 1 {
            Some(Block::Granite)
        } else if a == cx && c - cz == -2 && b == floor + 2 {
            Some(Block::RedPillar)
        } else if c - cz == -6 && iabs(a - cx) <= 6 && floor + 2 <= b <= floor + 8 {
            Some(Block::Dancheong)
        } else if iabs(a - cx) == 4 && (c - cz == -4 || c - cz == 2) && floor + 3 <= b <= floor + 8 {
            Some(Block::RedPillar)
        } else if iabs(a - cx) <= 4 && -4 <= c - cz <= 2 && b == floor + 9 {
            Some(Block::RoofTile)
        } else if iabs(a - cx) <= 1 && c == cz && b == floor + 10 {
            Some(Block::RoofRidge)
        } else {
            None
        }
}

/// 어좌 — the throne, on its dais at the north end of the hall, under a 닫집
/// canopy and in front of the 일월오봉도 screen. Each column of it is laid in
/// turn: what stands in one column never shares a cell with another piece.
#[verifier::loop_isolation(false)]
pub fn place_throne(world: &mut World, cx: i32, cz: i32, floor: i32)
    requires
        old(world).wf(),
        coord(cx as int),
        coord(cz as int),
        coord(floor as int),
    ensures
        final(world).wf(),
        World::lays(*old(world), *final(world), throne_plan(cx as int, cz as int, floor as int)),
        builds_in(*old(world), *final(world), throne_area(cx as int, cz as int, floor as int)),
        final(world).block_at(cx as int, floor + 2, cz - 2) == (if crate::world::in_world(cx as int, floor + 2, cz - 2) { Block::RedPillar } else { Block::Air }),
{
    let ghost w0 = *world;
    let ghost area = throne_area(cx as int, cz as int, floor as int);
    let ghost plan = throne_plan(cx as int, cz as int, floor as int);
    proof {
        World::lemma_columns_start(w0, plan, cx as int, cz as int, -6, -6);
    }
    let mut dz: i32 = -6;
    while dz <= 2
        invariant
            -6 <= dz <= 3,
            world.wf(),
            World::lays(w0, *world, World::columns(plan, cx as int, cz as int, dz as int, -6)),
        decreases 3 - dz,
    {
        let mut dx: i32 = -6;
        while dx <= 6
            invariant
                -6 <= dz <= 2,
                -6 <= dx <= 7,
                world.wf(),
                World::lays(w0, *world, World::columns(plan, cx as int, cz as int, dz as int, dx as int)),
            decreases 7 - dx,
        {
            let (x, z) = (cx + dx, cz + dz);
            let ghost w1 = *world;
            // The dais, stepping up twice.
            let dais = -4 <= dz && dz <= 2;
            fill_column(world, x, z, floor, if dais { floor } else { floor - 1 }, Block::Granite);
            let ghost w2 = *world;
            let step = -4 <= dz && dz <= 0 && abs(dx) <= 4;
            fill_column(world, x, z, floor + 1, if step { floor + 1 } else { floor }, Block::Granite);
            let ghost w3 = *world;
            // The seat.
            let seat = dx == 0 && dz == -2;
            fill_column(world, x, z, floor + 2, if seat { floor + 2 } else { floor + 1 }, Block::RedPillar);
            let ghost w4 = *world;
            // 일월오봉도 — the sun, moon and five peaks, a band of colour
            // filling the wall right behind the seat.
            let screen = dz == -6;
            fill_column(world, x, z, floor + 2, if screen { floor + 8 } else { floor + 1 }, Block::Dancheong);
            let ghost w5 = *world;
            // 닫집 — the canopy, on four posts over the seat.
            let post = abs(dx) == 4 && (dz == -4 || dz == 2);
            fill_column(world, x, z, floor + 3, if post { floor + 8 } else { floor + 2 }, Block::RedPillar);
            let ghost w6 = *world;
            let canopy = abs(dx) <= 4 && -4 <= dz && dz <= 2;
            fill_column(world, x, z, floor + 9, if canopy { floor + 9 } else { floor + 8 }, Block::RoofTile);
            let ghost w7 = *world;
            let ridge = abs(dx) <= 1 && dz == 0;
            fill_column(world, x, z, floor + 10, if ridge { floor + 10 } else { floor + 9 }, Block::RoofRidge);
            proof {
                let (xi, zi) = (x as int, z as int);
                let q1 = column_range(xi, zi, floor as int, if dais { floor as int } else { floor - 1 }, Block::Granite);
                let q2 = column_range(xi, zi, floor + 1, if step { floor + 1 } else { floor as int }, Block::Granite);
                let q3 = column_range(xi, zi, floor + 2, if seat { floor + 2 } else { floor + 1 }, Block::RedPillar);
                let q4 = column_range(xi, zi, floor + 2, if screen { floor + 8 } else { floor + 1 }, Block::Dancheong);
                let q5 = column_range(xi, zi, floor + 3, if post { floor + 8 } else { floor + 2 }, Block::RedPillar);
                let q6 = column_range(xi, zi, floor + 9, if canopy { floor + 9 } else { floor + 8 }, Block::RoofTile);
                let q7 = column_range(xi, zi, floor + 10, if ridge { floor + 10 } else { floor + 9 }, Block::RoofRidge);
                World::lemma_lays_compose(w1, w2, w3, q1, q2);
                World::lemma_lays_compose(w1, w3, w4, World::overlay(q1, q2), q3);
                World::lemma_lays_compose(w1, w4, w5, World::overlay(World::overlay(q1, q2), q3), q4);
                World::lemma_lays_compose(w1, w5, w6, World::overlay(World::overlay(World::overlay(q1, q2), q3), q4), q5);
                World::lemma_lays_compose(w1, w6, w7, World::overlay(World::overlay(World::overlay(World::overlay(q1, q2), q3), q4), q5), q6);
                let col = World::overlay(World::overlay(World::overlay(World::overlay(World::overlay(World::overlay(q1, q2), q3), q4), q5), q6), q7);
                World::lemma_lays_compose(w1, w7, *world, World::overlay(World::overlay(World::overlay(World::overlay(World::overlay(q1, q2), q3), q4), q5), q6), q7);
                World::lemma_column_step(w0, w1, *world, plan, col, cx as int, cz as int, dz as int, dx as int);
            }
            dx = dx + 1;
        }
        proof {
            World::lemma_column_move(w0, *world, plan, cx as int, cz as int, dz as int, dx as int, dz + 1, -6);
        }
        dz = dz + 1;
    }
    proof {
        World::lemma_columns_finish(w0, *world, plan, cx as int, cz as int, dz as int, -6);
        assert(plan_within(plan, area));
        lemma_lays_builds(w0, *world, plan, area);
        reveal(World::lays);
        world.lemma_cell(cx as int, floor + 2, cz - 2);
        assert(plan(cx as int, floor + 2, cz - 2) == Some(Block::RedPillar));
    }
}

/// Where `hall_storey` may build.
pub open spec fn storey_area(cx: int, cz: int, bx: int, bz: int, floor: int, height: int) -> Area {
    (cx - bx, cx + bx, floor, floor + height, cz - bz, cz + bz)
}

/// What `hall_storey` lays: round the edge of a body of half-extents
/// `(bx, bz)`, walls `height` high from `floor` — red columns at every corner
/// and every bay along each face, paper doors across the south front and
/// plaster elsewhere — with a doorway three wide in the middle of the front,
/// up to `DOOR_H` high or the whole storey if lower, and the painted beam on
/// top.
pub open spec fn storey_plan(cx: int, cz: int, bx: int, bz: int, floor: int, height: int) -> spec_fn(int, int, int) -> Option<Block> {
    |a: int, b: int, c: int|
        if on_ring(a - cx, c - cz, bx, bz) {
            let door = c - cz == bz && iabs(a - cx) <= 1;
            let post = (iabs(a - cx) == bx && iabs(c - cz) == bz) || ((a - cx) % 6 == 0 && iabs(c - cz) == bz) || ((c - cz)
                % 6 == 0 && iabs(a - cx) == bx);
            if floor <= b < floor + height {
                if door && b < floor + (if DOOR_H < height { DOOR_H as int } else { height }) {
                    Some(Block::Air)
                } else {
                    Some(if post { Block::RedPillar } else if c - cz == bz { Block::Paper } else { Block::Plaster })
                }
            } else if b == floor + height {
                Some(Block::Dancheong)
            } else {
                None
            }
        } else {
            None
        }
}

/// One storey of a palace hall: red columns on a regular bay spacing and at
/// every corner, wall infill between them (paper doors across the south
/// front), a doorway, and a painted beam capping it.
#[verifier::loop_isolation(false)]
pub fn hall_storey(world: &mut World, cx: i32, cz: i32, bx: i32, bz: i32, floor: i32, height: i32)
    requires
        old(world).wf(),
        coord(cx as int),
        coord(cz as int),
        coord(floor as int),
        1 <= bx <= 500,
        1 <= bz <= 500,
        0 <= height <= 500,
    ensures
        final(world).wf(),
        World::lays(*old(world), *final(world), storey_plan(cx as int, cz as int, bx as int, bz as int, floor as int, height as int)),
        builds_in(*old(world), *final(world), storey_area(cx as int, cz as int, bx as int, bz as int, floor as int, height as int)),
{
    let ghost w0 = *world;
    let ghost area = storey_area(cx as int, cz as int, bx as int, bz as int, floor as int, height as int);
    let ghost plan = storey_plan(cx as int, cz as int, bx as int, bz as int, floor as int, height as int);
    let door_h = if DOOR_H < height {
        DOOR_H
    } else {
        height
    };
    proof {
        World::lemma_columns_start(w0, plan, cx as int, cz as int, -bz as int, -bx as int);
    }
    let mut dz = -bz;
    while dz <= bz
        invariant
            -bz <= dz <= bz + 1,
            world.wf(),
            World::lays(w0, *world, World::columns(plan, cx as int, cz as int, dz as int, -bx as int)),
        decreases bz + 1 - dz,
    {
        let mut dx = -bx;
        while dx <= bx
            invariant
                -bz <= dz <= bz,
                -bx <= dx <= bx + 1,
                world.wf(),
                World::lays(w0, *world, World::columns(plan, cx as int, cz as int, dz as int, dx as int)),
            decreases bx + 1 - dx,
        {
            if abs(dx) != bx && abs(dz) != bz {
                proof {
                    World::lemma_column_move(w0, *world, plan, cx as int, cz as int, dz as int, dx as int, dz as int, dx + 1);
                }
                dx = dx + 1;
                continue;
            }
            let (x, z) = (cx + dx, cz + dz);
            // Columns every bay, and at every corner.
            let corner = abs(dx) == bx && abs(dz) == bz;
            let bay = rem_euclid(dx, BAY) == 0 && abs(dz) == bz || rem_euclid(dz, BAY) == 0 && abs(dx) == bx;
            let block = if corner || bay {
                Block::RedPillar
            } else if dz == bz {
                Block::Paper  // the south front is doors
            } else {
                Block::Plaster
            };
            // Doorway through the front.
            let doorway = dz == bz && abs(dx) <= 1;
            let open_top = if doorway { door_h } else { 0 };
            let ghost w1 = *world;
            fill_column(world, x, z, floor, floor + open_top - 1, Block::Air);
            let ghost w2 = *world;
            fill_column(world, x, z, floor + open_top, floor + height - 1, block);
            let ghost w3 = *world;
            world.set(x, floor + height, z, Block::Dancheong);
            proof {
                let door = column_range(x as int, z as int, floor as int, floor + open_top - 1, Block::Air);
                let walls = column_range(x as int, z as int, floor + open_top, floor + height - 1, block);
                let beam = World::single(x as int, floor + height, z as int, Block::Dancheong);
                World::lemma_lays_single(w3, *world, x as int, floor + height, z as int, Block::Dancheong);
                World::lemma_lays_compose(w1, w2, w3, door, walls);
                World::lemma_lays_compose(w1, w3, *world, World::overlay(door, walls), beam);
                World::lemma_column_step(w0, w1, *world, plan, World::overlay(World::overlay(door, walls), beam), cx as int, cz as int, dz as int, dx as int);
            }
            dx = dx + 1;
        }
        proof {
            World::lemma_column_move(w0, *world, plan, cx as int, cz as int, dz as int, dx as int, dz + 1, -bx as int);
        }
        dz = dz + 1;
    }
    proof {
        World::lemma_columns_finish(w0, *world, plan, cx as int, cz as int, dz as int, -bx as int);
        assert(plan_within(plan, area));
        lemma_lays_builds(w0, *world, plan, area);
    }
}

} // verus!
