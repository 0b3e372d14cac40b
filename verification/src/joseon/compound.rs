//! The walled compounds either side of the axis, and the service ranges.

use vstd::prelude::*;
use crate::block::Block;
use crate::world::World;
use super::{
    abs, rem_euclid, builds_in, lemma_start, lemma_extend, lemma_lays_builds, plan_within,
    fill_column, column_range, site, plot, Area, BIHYEON_Z, DONGGUNG_RX, DONGGUNG_RZ, GEONCHEONG_RX,
    GEONCHEONG_RZ, GONNYEONG_Z, HAMHWA_RX, HAMHWA_RZ, HAMHWA_SPREAD, JANGAN_Z, JASEON_Z,
    TAEWON_HALL_Z, TAEWON_RX, TAEWON_RZ,
};
use super::style::{iabs, on_ring, lay_roof, roof_courses, roof_plan, wall_column, wall_course, BAY, WALL_H};
use super::hall::{place_residence, residence_area, residence_plan};

verus! {

/// Where `compound_wall` may build.
pub open spec fn compound_wall_area(cx: int, cz: int, gy: int, rx: int, rz: int) -> Area {
    (cx - rx, cx + rx, gy + 1, gy + WALL_H, cz - rz, cz + rz)
}

/// What `compound_wall` lays: a 담장 column on every cell of the ring of
/// half-extents `(rx, rz)` round `(cx, cz)` but the three-wide gateway in the
/// middle of its south face; with `flowered`, the south face's lowest body
/// course painted.
pub open spec fn compound_wall_plan(cx: int, cz: int, gy: int, rx: int, rz: int, flowered: bool) -> spec_fn(int, int, int) -> Option<Block> {
    |a: int, b: int, c: int|
        if on_ring(a - cx, c - cz, rx, rz) && !(c - cz == rz && iabs(a - cx) <= 1) {
            wall_course(gy, b, if flowered && c - cz == rz { Some(Block::Dancheong) } else { None })
        } else {
            None
        }
}

/// A walled compound around a hall, with a gateway in its south face. Set
/// `flowered` to paint that face's lower course, as 자경전's 꽃담 is.
#[verifier::loop_isolation(false)]
pub fn compound_wall(world: &mut World, cx: i32, cz: i32, gy: i32, rx: i32, rz: i32, flowered: bool)
    requires
        old(world).wf(),
        site(cx as int),
        site(cz as int),
        site(gy as int),
        1 <= rx <= 500,
        1 <= rz <= 500,
    ensures
        final(world).wf(),
        World::lays(*old(world), *final(world), compound_wall_plan(cx as int, cz as int, gy as int, rx as int, rz as int, flowered)),
        builds_in(*old(world), *final(world), compound_wall_area(cx as int, cz as int, gy as int, rx as int, rz as int)),
{
    let ghost w0 = *world;
    let ghost area = compound_wall_area(cx as int, cz as int, gy as int, rx as int, rz as int);
    let ghost plan = compound_wall_plan(cx as int, cz as int, gy as int, rx as int, rz as int, flowered);
    proof {
        lemma_start(w0, area);
        World::lemma_lays_nothing(w0);
        World::lemma_lays_congr(w0, w0, World::nothing(), World::columns(plan, cx as int, cz as int, -rz as int, -rx as int));
    }
    let mut dz = -rz;
    while dz <= rz
        invariant
            -rz <= dz <= rz + 1,
            world.wf(),
            builds_in(w0, *world, area),
            World::lays(w0, *world, World::columns(plan, cx as int, cz as int, dz as int, -rx as int)),
        decreases rz + 1 - dz,
    {
        let mut dx = -rx;
        while dx <= rx
            invariant
                -rz <= dz <= rz,
                -rx <= dx <= rx + 1,
                world.wf(),
                builds_in(w0, *world, area),
                World::lays(w0, *world, World::columns(plan, cx as int, cz as int, dz as int, dx as int)),
            decreases rx + 1 - dx,
        {
            let on_ring = abs(dx) == rx || abs(dz) == rz;
            let gateway = dz == rz && abs(dx) <= 1;
            if on_ring && !gateway {
                let accent = if flowered && dz == rz {
                    Some(Block::Dancheong)
                } else {
                    None
                };
                let ghost w1 = *world;
                wall_column(world, cx + dx, gy, cz + dz, accent);
                proof {
                    lemma_extend(w0, w1, *world, area, (cx + dx, cx + dx, gy + 1, gy + WALL_H, cz + dz, cz + dz));
                    World::lemma_column_step(
                        w0,
                        w1,
                        *world,
                        plan,
                        |a: int, b: int, c: int| if a == cx + dx && c == cz + dz { wall_course(gy as int, b, accent) } else { None },
                        cx as int,
                        cz as int,
                        dz as int,
                        dx as int,
                    );
                }
            } else {
                proof {
                    World::lemma_column_move(w0, *world, plan, cx as int, cz as int, dz as int, dx as int, dz as int, dx + 1);
                }
            }
            dx = dx + 1;
        }
        proof {
            World::lemma_column_move(w0, *world, plan, cx as int, cz as int, dz as int, dx as int, dz + 1, -rx as int);
        }
        dz = dz + 1;
    }
    proof {
        World::lemma_column_move(w0, *world, plan, cx as int, cz as int, dz as int, -rx as int, 1_000_000_000, 0);
        assert forall|a: int, b: int, c: int| #[trigger] World::columns(plan, cx as int, cz as int, 1_000_000_000, 0)(a, b, c) == plan(a, b, c) by {
        }
        World::lemma_lays_congr(w0, *world, World::columns(plan, cx as int, cz as int, 1_000_000_000, 0), plan);
    }
}

/// Where `place_jagyeongjeon` may build: its walled yard.
pub open spec fn jagyeongjeon_area(cx: int, cz: int, gy: int) -> Area {
    (cx - 14, cx + 14, gy + 1, gy + 31, cz - 22, cz + 22)
}

/// The 십장생 chimney of 자경전: clay twelve courses up, a painted course,
/// and a tiled cap, in the yard 18 north of the centre.
pub open spec fn chimney_plan(cx: int, cz: int, gy: int) -> spec_fn(int, int, int) -> Option<Block> {
    |a: int, b: int, c: int|
        if a == cx && c == cz - 18 {
            if gy + 1 <= b <= gy + 12 {
                Some(Block::ClayWall)
            } else if b == gy + 13 {
                Some(Block::Dancheong)
            } else if b == gy + 14 {
                Some(Block::RoofTile)
            } else {
                None
            }
        } else {
            None
        }
}

/// What `place_jagyeongjeon` lays: its flowered compound wall, the hall,
/// and the chimney.
pub open spec fn jagyeongjeon_plan(cx: int, cz: int, gy: int) -> spec_fn(int, int, int) -> Option<Block> {
    World::overlay(
        World::overlay(compound_wall_plan(cx, cz, gy, 14, 22, true), residence_plan(cx, cz, gy, 10, 8, true)),
        chimney_plan(cx, cz, gy),
    )
}

/// 자경전, the dowager queen's hall, in its own walled compound with the 꽃담 —
/// the patterned wall — along its south side, and the tall decorated
/// 십장생 chimney standing in the yard behind.
pub fn place_jagyeongjeon(world: &mut World, cx: i32, cz: i32, gy: i32)
    requires
        old(world).wf(),
        plot(cx as int),
        plot(cz as int),
        plot(gy as int),
    ensures
        final(world).wf(),
        World::lays(*old(world), *final(world), jagyeongjeon_plan(cx as int, cz as int, gy as int)),
        builds_in(*old(world), *final(world), jagyeongjeon_area(cx as int, cz as int, gy as int)),
{
    let ghost w0 = *world;
    let ghost area = jagyeongjeon_area(cx as int, cz as int, gy as int);
    proof {
        lemma_start(w0, area);
    }
    compound_wall(world, cx, cz, gy, 14, 22, true);
    let ghost w1 = *world;
    proof { lemma_extend(w0, w0, w1, area, compound_wall_area(cx as int, cz as int, gy as int, 14, 22)); }
    place_residence(world, cx, cz, gy, 10, 8, true);
    let ghost w2 = *world;
    proof { lemma_extend(w0, w1, w2, area, residence_area(cx as int, cz as int, gy as int, 10, 8)); }

    let chimney_z = cz - 18;
    fill_column(world, cx, chimney_z, gy + 1, gy + 12, Block::ClayWall);
    let ghost w3 = *world;
    world.set(cx, gy + 13, chimney_z, Block::Dancheong);
    let ghost w4 = *world;
    world.set(cx, gy + 14, chimney_z, Block::RoofTile);
    proof {
        let c1 = column_range(cx as int, chimney_z as int, gy + 1, gy + 12, Block::ClayWall);
        let c2 = World::single(cx as int, gy + 13, chimney_z as int, Block::Dancheong);
        let c3 = World::single(cx as int, gy + 14, chimney_z as int, Block::RoofTile);
        World::lemma_lays_single(w3, w4, cx as int, gy + 13, chimney_z as int, Block::Dancheong);
        World::lemma_lays_single(w4, *world, cx as int, gy + 14, chimney_z as int, Block::RoofTile);
        World::lemma_lays_compose(w2, w3, w4, c1, c2);
        World::lemma_lays_compose(w2, w4, *world, World::overlay(c1, c2), c3);
        World::lemma_lays_congr(w2, *world, World::overlay(World::overlay(c1, c2), c3), chimney_plan(cx as int, cz as int, gy as int));
        assert(plan_within(chimney_plan(cx as int, cz as int, gy as int), area));
        lemma_lays_builds(w2, *world, chimney_plan(cx as int, cz as int, gy as int), area);
        lemma_extend(w0, w2, *world, area, area);
        let p1 = compound_wall_plan(cx as int, cz as int, gy as int, 14, 22, true);
        let p2 = residence_plan(cx as int, cz as int, gy as int, 10, 8, true);
        World::lemma_lays_compose(w0, w1, w2, p1, p2);
        World::lemma_lays_compose(w0, w2, *world, World::overlay(p1, p2), chimney_plan(cx as int, cz as int, gy as int));
    }
}

/// Where `place_donggung` may build: its walled yard.
pub open spec fn donggung_area(cx: int, cz: int, gy: int) -> Area {
    (cx - DONGGUNG_RX, cx + DONGGUNG_RX, gy + 1, gy + 30, cz - DONGGUNG_RZ, cz + DONGGUNG_RZ)
}

/// What `place_donggung` lays: its compound wall, then 자선당 and 비현각.
pub open spec fn donggung_plan(cx: int, cz: int, gy: int) -> spec_fn(int, int, int) -> Option<Block> {
    World::overlay(
        World::overlay(
            compound_wall_plan(cx, cz, gy, DONGGUNG_RX as int, DONGGUNG_RZ as int, false),
            residence_plan(cx, cz + JASEON_Z, gy, 6, 6, true),
        ),
        residence_plan(cx, cz + BIHYEON_Z, gy, 6, 6, true),
    )
}

/// 동궁 — 자선당, where the crown prince lived, in front of 비현각, where he was
/// taught, in one walled yard; both smaller than the halls on the axis, and
/// both ridged.
pub fn place_donggung(world: &mut World, cx: i32, cz: i32, gy: i32)
    requires
        old(world).wf(),
        plot(cx as int),
        plot(cz as int),
        plot(gy as int),
    ensures
        final(world).wf(),
        World::lays(*old(world), *final(world), donggung_plan(cx as int, cz as int, gy as int)),
        builds_in(*old(world), *final(world), donggung_area(cx as int, cz as int, gy as int)),
{
    let ghost w0 = *world;
    let ghost area = donggung_area(cx as int, cz as int, gy as int);
    proof {
        lemma_start(w0, area);
    }
    compound_wall(world, cx, cz, gy, DONGGUNG_RX, DONGGUNG_RZ, false);
    let ghost w1 = *world;
    proof { lemma_extend(w0, w0, w1, area, compound_wall_area(cx as int, cz as int, gy as int, DONGGUNG_RX as int, DONGGUNG_RZ as int)); }
    place_residence(world, cx, cz + JASEON_Z, gy, 6, 6, true);
    proof { lemma_extend(w0, w1, *world, area, residence_area(cx as int, cz + JASEON_Z, gy as int, 6, 6)); }
    let ghost w2 = *world;
    place_residence(world, cx, cz + BIHYEON_Z, gy, 6, 6, true);
    proof {
        lemma_extend(w0, w2, *world, area, residence_area(cx as int, cz + BIHYEON_Z, gy as int, 6, 6));
        let p1 = compound_wall_plan(cx as int, cz as int, gy as int, DONGGUNG_RX as int, DONGGUNG_RZ as int, false);
        let p2 = residence_plan(cx as int, cz + JASEON_Z, gy as int, 6, 6, true);
        World::lemma_lays_compose(w0, w1, w2, p1, p2);
        World::lemma_lays_compose(w0, w2, *world, World::overlay(p1, p2), residence_plan(cx as int, cz + BIHYEON_Z, gy as int, 6, 6, true));
    }
}

/// Where `place_taewonjeon` may build: its walled yard.
pub open spec fn taewonjeon_area(cx: int, cz: int, gy: int) -> Area {
    (cx - TAEWON_RX, cx + TAEWON_RX, gy + 1, gy + 31, cz - TAEWON_RZ, cz + TAEWON_RZ)
}

/// What `place_taewonjeon` lays: its compound wall, then the shrine hall.
pub open spec fn taewonjeon_plan(cx: int, cz: int, gy: int) -> spec_fn(int, int, int) -> Option<Block> {
    World::overlay(
        compound_wall_plan(cx, cz, gy, TAEWON_RX as int, TAEWON_RZ as int, false),
        residence_plan(cx, cz + TAEWON_HALL_Z, gy, 12, 8, true),
    )
}

/// 태원전 — the shrine hall, standing alone at the back of a deep walled yard,
/// the whole court in front of it left empty.
pub fn place_taewonjeon(world: &mut World, cx: i32, cz: i32, gy: i32)
    requires
        old(world).wf(),
        plot(cx as int),
        plot(cz as int),
        plot(gy as int),
    ensures
        final(world).wf(),
        World::lays(*old(world), *final(world), taewonjeon_plan(cx as int, cz as int, gy as int)),
        builds_in(*old(world), *final(world), taewonjeon_area(cx as int, cz as int, gy as int)),
{
    let ghost w0 = *world;
    let ghost area = taewonjeon_area(cx as int, cz as int, gy as int);
    proof {
        lemma_start(w0, area);
    }
    compound_wall(world, cx, cz, gy, TAEWON_RX, TAEWON_RZ, false);
    let ghost w1 = *world;
    proof { lemma_extend(w0, w0, w1, area, compound_wall_area(cx as int, cz as int, gy as int, TAEWON_RX as int, TAEWON_RZ as int)); }
    place_residence(world, cx, cz + TAEWON_HALL_Z, gy, 12, 8, true);
    proof {
        lemma_extend(w0, w1, *world, area, residence_area(cx as int, cz + TAEWON_HALL_Z, gy as int, 12, 8));
        World::lemma_lays_compose(
            w0,
            w1,
            *world,
            compound_wall_plan(cx as int, cz as int, gy as int, TAEWON_RX as int, TAEWON_RZ as int, false),
            residence_plan(cx as int, cz + TAEWON_HALL_Z, gy as int, 12, 8, true),
        );
    }
}

/// Where `place_geoncheongung` may build: its walled yard.
pub open spec fn geoncheongung_area(cx: int, cz: int, gy: int) -> Area {
    (cx - GEONCHEONG_RX, cx + GEONCHEONG_RX, gy + 1, gy + 30, cz - GEONCHEONG_RZ, cz + GEONCHEONG_RZ)
}

/// The gateway of 건청궁, cut through its west wall: three wide across the
/// wall's whole height.
pub open spec fn west_gateway_plan(cx: int, cz: int, gy: int) -> spec_fn(int, int, int) -> Option<Block> {
    |a: int, b: int, c: int|
        if a == cx - GEONCHEONG_RX && iabs(c - cz) <= 1 && gy + 1 <= b <= gy + WALL_H { Some(Block::Air) } else { None }
}

/// What `place_geoncheongung` lays: its compound wall, the gateway cut
/// through it, then 장안당 and 곤녕합.
pub open spec fn geoncheongung_plan(cx: int, cz: int, gy: int) -> spec_fn(int, int, int) -> Option<Block> {
    World::overlay(
        World::overlay(
            World::overlay(
                compound_wall_plan(cx, cz, gy, GEONCHEONG_RX as int, GEONCHEONG_RZ as int, false),
                west_gateway_plan(cx, cz, gy),
            ),
            residence_plan(cx, cz + JANGAN_Z, gy, 10, 6, true),
        ),
        residence_plan(cx, cz + GONNYEONG_Z, gy, 10, 6, true),
    )
}

/// 건청궁 — 장안당 and 곤녕합 in a walled yard north-east of 향원정, its
/// gateway cut through the *west* wall onto the garden path.
#[verifier::loop_isolation(false)]
pub fn place_geoncheongung(world: &mut World, cx: i32, cz: i32, gy: i32)
    requires
        old(world).wf(),
        plot(cx as int),
        plot(cz as int),
        plot(gy as int),
    ensures
        final(world).wf(),
        World::lays(*old(world), *final(world), geoncheongung_plan(cx as int, cz as int, gy as int)),
        builds_in(*old(world), *final(world), geoncheongung_area(cx as int, cz as int, gy as int)),
{
    let ghost w0 = *world;
    let ghost area = geoncheongung_area(cx as int, cz as int, gy as int);
    proof {
        lemma_start(w0, area);
    }
    compound_wall(world, cx, cz, gy, GEONCHEONG_RX, GEONCHEONG_RZ, false);
    let ghost w1 = *world;
    proof { lemma_extend(w0, w0, w1, area, compound_wall_area(cx as int, cz as int, gy as int, GEONCHEONG_RX as int, GEONCHEONG_RZ as int)); }

    let gx = cx - GEONCHEONG_RX;
    let ghost gate = west_gateway_plan(cx as int, cz as int, gy as int);
    proof {
        World::lemma_columns_start(w1, gate, gx as int, cz as int, -1, 0);
    }
    let mut dz: i32 = -1;
    while dz <= 1
        invariant
            -1 <= dz <= 2,
            world.wf(),
            World::lays(w1, *world, World::columns(gate, gx as int, cz as int, dz as int, 0)),
        decreases 2 - dz,
    {
        let ghost v = *world;
        fill_column(world, gx, cz + dz, gy + 1, gy + WALL_H, Block::Air);
        proof {
            World::lemma_column_step(w1, v, *world, gate, column_range(gx as int, cz + dz, gy + 1, gy + WALL_H, Block::Air), gx as int, cz as int, dz as int, 0);
            World::lemma_column_move(w1, *world, gate, gx as int, cz as int, dz as int, 1, dz + 1, 0);
        }
        dz = dz + 1;
    }
    let ghost w2 = *world;
    proof {
        World::lemma_columns_finish(w1, w2, gate, gx as int, cz as int, dz as int, 0);
        assert(plan_within(gate, area));
        lemma_lays_builds(w1, w2, gate, area);
        lemma_extend(w0, w1, w2, area, area);
    }

    place_residence(world, cx, cz + JANGAN_Z, gy, 10, 6, true);
    let ghost w3 = *world;
    proof { lemma_extend(w0, w2, w3, area, residence_area(cx as int, cz + JANGAN_Z, gy as int, 10, 6)); }
    place_residence(world, cx, cz + GONNYEONG_Z, gy, 10, 6, true);
    proof {
        lemma_extend(w0, w3, *world, area, residence_area(cx as int, cz + GONNYEONG_Z, gy as int, 10, 6));
        let p1 = compound_wall_plan(cx as int, cz as int, gy as int, GEONCHEONG_RX as int, GEONCHEONG_RZ as int, false);
        let p3 = residence_plan(cx as int, cz + JANGAN_Z, gy as int, 10, 6, true);
        let p4 = residence_plan(cx as int, cz + GONNYEONG_Z, gy as int, 10, 6, true);
        World::lemma_lays_compose(w0, w1, w2, p1, gate);
        World::lemma_lays_compose(w0, w2, w3, World::overlay(p1, gate), p3);
        World::lemma_lays_compose(w0, w3, *world, World::overlay(World::overlay(p1, gate), p3), p4);
    }
}

/// Where `lay_range` may build.
pub open spec fn range_area(cx: int, cz: int, gy: int, half_len: int) -> Area {
    (cx - half_len - 1, cx + half_len + 1, gy + 1, gy + 14, cz - half_len - 1, cz + half_len + 1)
}

/// The body of a 행각 of half-length `half_len`, column by column, in offsets
/// `t` along it and `w` across it: a granite footing three deep, the air
/// cleared thirteen over it, and round its edge walls six high — timber posts
/// every bay and plaster between, but for the doors, open the whole height,
/// halfway between the posts along its inner (`w == -1`) face — and a plain
/// timber beam over all of it.
pub open spec fn range_body_plan(cx: int, cz: int, gy: int, half_len: int, along_x: bool) -> spec_fn(int, int, int) -> Option<Block> {
    |a: int, b: int, c: int|
        if iabs(World::along(along_x, cx, cz, a, c)) <= half_len && iabs(World::across(along_x, cx, cz, a, c)) <= 1 {
            let t = World::along(along_x, cx, cz, a, c);
            let w = World::across(along_x, cx, cz, a, c);
            if b == gy + 1 {
                Some(Block::Granite)
            } else if gy + 2 <= b <= gy + 7 && (iabs(t) == half_len || iabs(w) == 1) && !(w == -1 && t % 6 == 3) {
                Some(if t % 6 == 0 { Block::Wood } else { Block::Plaster })
            } else if b == gy + 8 {
                Some(Block::Wood)
            } else if gy + 2 <= b <= gy + 14 {
                Some(Block::Air)
            } else {
                None
            }
        } else {
            None
        }
}

/// What `lay_range` lays: its body, and the roof straight onto the beam.
pub open spec fn range_plan(cx: int, cz: int, gy: int, half_len: int, along_x: bool) -> spec_fn(int, int, int) -> Option<Block> {
    let (bx, bz) = if along_x { (half_len, 1int) } else { (1int, half_len) };
    World::overlay(range_body_plan(cx, cz, gy, half_len, along_x), roof_plan(cx, cz, bx + 1, bz + 1, gy + 9, 1, true))
}

/// Lay the body of a 행각 column by column.
#[verifier::loop_isolation(false)]
fn range_body(world: &mut World, cx: i32, cz: i32, gy: i32, half_len: i32, along_x: bool)
    requires
        old(world).wf(),
        site(cx as int),
        site(cz as int),
        site(gy as int),
        1 <= half_len <= 500,
    ensures
        final(world).wf(),
        World::lays(*old(world), *final(world), range_body_plan(cx as int, cz as int, gy as int, half_len as int, along_x)),
{
    let depth: i32 = 1;
    let body_h: i32 = 6;
    let floor = gy + 2;
    let ghost w0 = *world;
    let ghost plan = range_body_plan(cx as int, cz as int, gy as int, half_len as int, along_x);
    proof {
        World::lemma_run_start(w0, plan, along_x, cx as int, cz as int, -half_len as int, -1);
    }
    let mut t = -half_len;
    while t <= half_len
        invariant
            -half_len <= t <= half_len + 1,
            world.wf(),
            World::lays(w0, *world, World::run_scan(plan, along_x, cx as int, cz as int, t as int, -1)),
        decreases half_len + 1 - t,
    {
        let mut w = -depth;
        while w <= depth
            invariant
                -half_len <= t <= half_len,
                -depth <= w <= depth + 1,
                world.wf(),
                World::lays(w0, *world, World::run_scan(plan, along_x, cx as int, cz as int, t as int, w as int)),
            decreases depth + 1 - w,
        {
            let (x, z) = super::gate::run_cell(along_x, cx, cz, t, w);
            let ghost w1 = *world;
            world.set(x, gy + 1, z, Block::Granite);
            let ghost w2 = *world;
            fill_column(world, x, z, gy + 2, gy + body_h + 8, Block::Air);
            let ghost w3 = *world;
            let ring = abs(t) == half_len || abs(w) == depth;
            let post = rem_euclid(t, BAY) == 0;
            // Doors all down the length: stores and kitchens opening onto the
            // yard, left open as cleared.
            let door = w == -depth && rem_euclid(t, BAY) == 3;
            let wall_top = if ring && !door { floor + body_h - 1 } else { floor - 1 };
            fill_column(world, x, z, floor, wall_top, if post { Block::Wood } else { Block::Plaster });
            let ghost w4 = *world;
            // A plain beam — no brackets.
            world.set(x, floor + body_h, z, Block::Wood);
            proof {
                let footing = World::single(x as int, gy + 1, z as int, Block::Granite);
                let clear = column_range(x as int, z as int, gy + 2, gy + 14, Block::Air);
                let walls = column_range(x as int, z as int, gy + 2, wall_top as int, if post { Block::Wood } else { Block::Plaster });
                let beam = World::single(x as int, gy + 8, z as int, Block::Wood);
                World::lemma_lays_single(w1, w2, x as int, gy + 1, z as int, Block::Granite);
                World::lemma_lays_single(w4, *world, x as int, gy + 8, z as int, Block::Wood);
                World::lemma_lays_compose(w1, w2, w3, footing, clear);
                World::lemma_lays_compose(w1, w3, w4, World::overlay(footing, clear), walls);
                World::lemma_lays_compose(w1, w4, *world, World::overlay(World::overlay(footing, clear), walls), beam);
                World::lemma_run_step(
                    w0,
                    w1,
                    *world,
                    plan,
                    World::overlay(World::overlay(World::overlay(footing, clear), walls), beam),
                    along_x,
                    cx as int,
                    cz as int,
                    t as int,
                    w as int,
                );
            }
            w = w + 1;
        }
        proof {
            World::lemma_run_move(w0, *world, plan, along_x, cx as int, cz as int, t as int, w as int, t + 1, -1);
        }
        t = t + 1;
    }
    proof {
        World::lemma_run_finish(w0, *world, plan, along_x, cx as int, cz as int, t as int, -1);
    }
}

/// 행각 — a long, low service range, three blocks deep: posts every bay,
/// plaster between, doors all down the length of its inner face, a plain
/// timber beam and a roof straight onto it — no 단청 and no 공포.
pub fn lay_range(world: &mut World, cx: i32, cz: i32, gy: i32, half_len: i32, along_x: bool)
    requires
        old(world).wf(),
        site(cx as int),
        site(cz as int),
        site(gy as int),
        1 <= half_len <= 500,
    ensures
        final(world).wf(),
        World::lays(*old(world), *final(world), range_plan(cx as int, cz as int, gy as int, half_len as int, along_x)),
        builds_in(*old(world), *final(world), range_area(cx as int, cz as int, gy as int, half_len as int)),
{
    let depth: i32 = 1;
    let ghost w0 = *world;
    let ghost area = range_area(cx as int, cz as int, gy as int, half_len as int);
    range_body(world, cx, cz, gy, half_len, along_x);
    let ghost w1 = *world;
    let beam = gy + 8;
    let (bx, bz) = if along_x {
        (half_len, depth)
    } else {
        (depth, half_len)
    };
    lay_roof(world, cx, cz, bx, bz, beam + 1, 1, 1, true);
    proof {
        let p1 = range_body_plan(cx as int, cz as int, gy as int, half_len as int, along_x);
        World::lemma_lays_compose(w0, w1, *world, p1, roof_plan(cx as int, cz as int, bx + 1, bz + 1, beam + 1, 1, true));
        assert(plan_within(p1, area));
        lemma_lays_builds(w0, w1, p1, area);
        lemma_extend(w0, w1, *world, area, (cx - bx - 1, cx + bx + 1, beam + 1, beam + 1 + roof_courses(bx + 1, bz + 1, 1) + 1, cz - bz - 1, cz + bz + 1));
    }
}

/// Where `place_sojubang` may build.
pub open spec fn sojubang_area(cx: int, cz: int, gy: int) -> Area {
    (cx - 9, cx + 15, gy + 1, gy + 14, cz - 15, cz + 11)
}

/// What `place_sojubang` lays: the east range, then the north one.
pub open spec fn sojubang_plan(cx: int, cz: int, gy: int) -> spec_fn(int, int, int) -> Option<Block> {
    World::overlay(range_plan(cx + 4, cz, gy, 10, false), range_plan(cx - 2, cz - 8, gy, 6, true))
}

/// 소주방 — the kitchens: a range down the east side of the yard and one
/// closing its north end, open towards 강녕전.
pub fn place_sojubang(world: &mut World, cx: i32, cz: i32, gy: i32)
    requires
        old(world).wf(),
        plot(cx as int),
        plot(cz as int),
        plot(gy as int),
    ensures
        final(world).wf(),
        World::lays(*old(world), *final(world), sojubang_plan(cx as int, cz as int, gy as int)),
        builds_in(*old(world), *final(world), sojubang_area(cx as int, cz as int, gy as int)),
{
    let ghost w0 = *world;
    let ghost area = sojubang_area(cx as int, cz as int, gy as int);
    proof {
        lemma_start(w0, area);
    }
    // The east range, running the depth of the yard.
    lay_range(world, cx + 4, cz, gy, 10, false);
    let ghost w1 = *world;
    proof { lemma_extend(w0, w0, w1, area, range_area(cx + 4, cz as int, gy as int, 10)); }
    // The north range, closing the top of it.
    lay_range(world, cx - 2, cz - 8, gy, 6, true);
    proof {
        lemma_extend(w0, w1, *world, area, range_area(cx - 2, cz - 8, gy as int, 6));
        World::lemma_lays_compose(w0, w1, *world, range_plan(cx + 4, cz as int, gy as int, 10, false), range_plan(cx - 2, cz - 8, gy as int, 6, true));
    }
}

/// Where `place_hamhwadang` may build: its walled yard.
pub open spec fn hamhwadang_area(cx: int, cz: int, gy: int) -> Area {
    (cx - HAMHWA_RX, cx + HAMHWA_RX, gy + 1, gy + 29, cz - HAMHWA_RZ, cz + HAMHWA_RZ)
}

/// What `place_hamhwadang` lays: its compound wall, then the two halls, west
/// then east.
pub open spec fn hamhwadang_plan(cx: int, cz: int, gy: int) -> spec_fn(int, int, int) -> Option<Block> {
    World::overlay(
        World::overlay(
            compound_wall_plan(cx, cz, gy, HAMHWA_RX as int, HAMHWA_RZ as int, false),
            residence_plan(cx - HAMHWA_SPREAD, cz, gy, 4, 6, true),
        ),
        residence_plan(cx + HAMHWA_SPREAD, cz, gy, 4, 6, true),
    )
}

/// 함화당 and 집경당 — a pair of small halls side by side in one yard, west of
/// the axis.
pub fn place_hamhwadang(world: &mut World, cx: i32, cz: i32, gy: i32)
    requires
        old(world).wf(),
        plot(cx as int),
        plot(cz as int),
        plot(gy as int),
    ensures
        final(world).wf(),
        World::lays(*old(world), *final(world), hamhwadang_plan(cx as int, cz as int, gy as int)),
        builds_in(*old(world), *final(world), hamhwadang_area(cx as int, cz as int, gy as int)),
{
    let ghost w0 = *world;
    let ghost area = hamhwadang_area(cx as int, cz as int, gy as int);
    proof {
        lemma_start(w0, area);
    }
    compound_wall(world, cx, cz, gy, HAMHWA_RX, HAMHWA_RZ, false);
    let ghost w1 = *world;
    proof { lemma_extend(w0, w0, w1, area, compound_wall_area(cx as int, cz as int, gy as int, HAMHWA_RX as int, HAMHWA_RZ as int)); }
    place_residence(world, cx - HAMHWA_SPREAD, cz, gy, 4, 6, true);
    let ghost w2 = *world;
    proof { lemma_extend(w0, w1, w2, area, residence_area(cx - HAMHWA_SPREAD, cz as int, gy as int, 4, 6)); }
    place_residence(world, cx + HAMHWA_SPREAD, cz, gy, 4, 6, true);
    proof {
        lemma_extend(w0, w2, *world, area, residence_area(cx + HAMHWA_SPREAD, cz as int, gy as int, 4, 6));
        let p1 = compound_wall_plan(cx as int, cz as int, gy as int, HAMHWA_RX as int, HAMHWA_RZ as int, false);
        let p2 = residence_plan(cx - HAMHWA_SPREAD, cz as int, gy as int, 4, 6, true);
        World::lemma_lays_compose(w0, w1, w2, p1, p2);
        World::lemma_lays_compose(w0, w2, *world, World::overlay(p1, p2), residence_plan(cx + HAMHWA_SPREAD, cz as int, gy as int, 4, 6, true));
    }
}

} // verus!
