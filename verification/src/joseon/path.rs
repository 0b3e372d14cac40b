//! The cloister round the throne court, the ranked stones, the paved court
//! and the paths between the halls.

use vstd::prelude::*;
use crate::block::Block;
use crate::world::World;
use super::{
    abs, rem_euclid, lay, builds_in, lemma_start, lemma_extend, lemma_lays_builds, plan_within, fill_column,
    column_range, coord, site, plot, is_built, in_box, Area,
    COURT_OFFSET_Z, COURT_X, COURT_Z, DONGGUNG_RZ, DONGGUNG_X, DONGGUNG_Z, GEONCHEONG_RX,
    GEONCHEONG_X, GEONCHEONG_Z, GYOTAE_Z, HAMHWA_RZ, HAMHWA_X, HAMHWA_Z, HYANGWON_Z, JAGYEONG_X,
    JAGYEONG_Z, PALACE_SOUTH, PALACE_X, SOJU_X, SOJU_Z, SUJEONG_X, SUJEONG_Z, TAEWON_RZ,
    TAEWON_X, TAEWON_Z,
};
use super::style::{iabs, lay_roof, roof_courses, roof_plan, BAY};
use super::hall::{fill_rect, rect};

verus! {

/// How far off the axis the 협문 — the side gates — sit, and with them the
/// route that skirts each hall.
pub const BYPASS_X: i32 = 13 * 2;

/// Height of the cloister's colonnade, from its raised floor to the beam.
pub const CLOISTER_H: i32 = 3 * 2;

/// Half-width of the paths through the residential yards.
pub const PATH_W: i32 = 1 * 2;


/// Where `cloister_run` may build: the walkway either side of the run's line
/// and its roof, one block wider.
pub open spec fn cloister_run_area(cx: int, cz: int, half_len: int, along_x: bool, gy: int) -> Area {
    let ex = if along_x { half_len + 4 } else { 4 };
    let ez = if along_x { 4 } else { half_len + 4 };
    (cx - ex, cx + ex, gy + 1, gy + 16, cz - ez, cz + ez)
}

/// Where `lay_cloister` may build: the four runs round the court.
pub open spec fn cloister_area(cx: int, cz: int, gy: int) -> Area {
    (cx - COURT_X - 4, cx + COURT_X + 4, gy + 1, gy + 16, cz - COURT_Z - 4, cz + COURT_Z + 4)
}

/// What `lay_cloister` lays: the north run (gated), the west run, the south
/// run and the east run, in that order.
pub open spec fn cloister_plan(cx: int, cz: int, gy: int) -> spec_fn(int, int, int) -> Option<Block> {
    World::overlay(
        World::overlay(
            World::overlay(
                cloister_run_plan(cx, cz - COURT_Z, COURT_X as int, true, 1, gy, true),
                cloister_run_plan(cx - COURT_X, cz, COURT_Z as int, false, 1, gy, false),
            ),
            cloister_run_plan(cx, cz + COURT_Z, COURT_X as int, true, -1, gy, false),
        ),
        cloister_run_plan(cx + COURT_X, cz, COURT_Z as int, false, -1, gy, false),
    )
}

/// Run 회랑 around all four sides of the court. Only the north run is gated —
/// 사정문, so the axis runs on through the court to 사정전; the south run is
/// opened later by 근정문, which is built over it.
pub fn lay_cloister(world: &mut World, cx: i32, cz: i32, gy: i32)
    requires
        old(world).wf(),
        plot(cx as int),
        plot(cz as int),
        plot(gy as int),
    ensures
        final(world).wf(),
        World::lays(*old(world), *final(world), cloister_plan(cx as int, cz as int, gy as int)),
        builds_in(*old(world), *final(world), cloister_area(cx as int, cz as int, gy as int)),
{
    let ghost w0 = *world;
    let ghost area = cloister_area(cx as int, cz as int, gy as int);
    let ghost n = cloister_run_plan(cx as int, cz - COURT_Z, COURT_X as int, true, 1, gy as int, true);
    let ghost wr = cloister_run_plan(cx - COURT_X, cz as int, COURT_Z as int, false, 1, gy as int, false);
    let ghost sr = cloister_run_plan(cx as int, cz + COURT_Z, COURT_X as int, true, -1, gy as int, false);
    let ghost er = cloister_run_plan(cx + COURT_X, cz as int, COURT_Z as int, false, -1, gy as int, false);
    proof {
        lemma_start(w0, area);
        World::lemma_lays_nothing(w0);
    }
    let mut side: i32 = -1;
    while side <= 1
        invariant
            side == -1 || side == 1 || side == 3,
            plot(cx as int),
            plot(cz as int),
            plot(gy as int),
            area == cloister_area(cx as int, cz as int, gy as int),
            n == cloister_run_plan(cx as int, cz - COURT_Z, COURT_X as int, true, 1, gy as int, true),
            wr == cloister_run_plan(cx - COURT_X, cz as int, COURT_Z as int, false, 1, gy as int, false),
            sr == cloister_run_plan(cx as int, cz + COURT_Z, COURT_X as int, true, -1, gy as int, false),
            er == cloister_run_plan(cx + COURT_X, cz as int, COURT_Z as int, false, -1, gy as int, false),
            world.wf(),
            builds_in(w0, *world, area),
            World::lays(
                w0,
                *world,
                if side == -1 {
                    World::nothing()
                } else if side == 1 {
                    World::overlay(World::overlay(World::nothing(), n), wr)
                } else {
                    World::overlay(World::overlay(World::overlay(World::overlay(World::nothing(), n), wr), sr), er)
                },
            ),
        decreases 3 - side,
    {
        let ghost before = if side == -1 { World::nothing() } else { World::overlay(World::overlay(World::nothing(), n), wr) };
        let gated = side == -1;
        let ghost w1 = *world;
        cloister_run(world, cx, cz + side * COURT_Z, COURT_X, true, -side, gy, gated);
        let ghost w2 = *world;
        proof { lemma_extend(w0, w1, w2, area, cloister_run_area(cx as int, cz + side * COURT_Z, COURT_X as int, true, gy as int)); }
        cloister_run(world, cx + side * COURT_X, cz, COURT_Z, false, -side, gy, false);
        proof {
            lemma_extend(w0, w2, *world, area, cloister_run_area(cx + side * COURT_X, cz as int, COURT_Z as int, false, gy as int));
            let p = cloister_run_plan(cx as int, cz + side * COURT_Z, COURT_X as int, true, -side as int, gy as int, gated);
            let q = cloister_run_plan(cx + side * COURT_X, cz as int, COURT_Z as int, false, -side as int, gy as int, false);
            World::lemma_lays_compose(w0, w1, w2, before, p);
            World::lemma_lays_compose(w0, w2, *world, World::overlay(before, p), q);
        }
        side = side + 2;
    }
    proof {
        World::lemma_lays_congr(
            w0,
            *world,
            World::overlay(World::overlay(World::overlay(World::overlay(World::nothing(), n), wr), sr), er),
            cloister_plan(cx as int, cz as int, gy as int),
        );
    }
}

/// One run of cloister, column by column, in offsets `t` along it and `w`
/// across it: a granite walkway seven wide, the air cleared fifteen over it;
/// on the outer face (away from `inward`) walls six high, red posts every bay
/// and plaster between, but where `gated` cuts the doorway seven wide at the
/// middle; on the court face the posts alone; and the painted beam over both
/// faces.
pub open spec fn cloister_body_plan(
    cx: int,
    cz: int,
    half_len: int,
    along_x: bool,
    inward: int,
    gy: int,
    gated: bool,
) -> spec_fn(int, int, int) -> Option<Block> {
    |a: int, b: int, c: int|
        if iabs(World::along(along_x, cx, cz, a, c)) <= half_len && iabs(World::across(along_x, cx, cz, a, c)) <= 3 {
            let t = World::along(along_x, cx, cz, a, c);
            let w = World::across(along_x, cx, cz, a, c);
            let post = t % 6 == 0;
            let doorway = gated && iabs(t) < 4;
            if b == gy + 1 {
                Some(Block::Granite)
            } else if gy + 2 <= b <= gy + 7 && w == -inward * 3 && !doorway {
                Some(if post { Block::RedPillar } else { Block::Plaster })
            } else if gy + 2 <= b <= gy + 7 && w == inward * 3 && post && !doorway {
                Some(Block::RedPillar)
            } else if b == gy + 8 && iabs(w) == 3 {
                Some(Block::Dancheong)
            } else if gy + 2 <= b <= gy + 16 {
                Some(Block::Air)
            } else {
                None
            }
        } else {
            None
        }
}

/// What `cloister_run` lays: its body, then the one roof over the run.
pub open spec fn cloister_run_plan(
    cx: int,
    cz: int,
    half_len: int,
    along_x: bool,
    inward: int,
    gy: int,
    gated: bool,
) -> spec_fn(int, int, int) -> Option<Block> {
    let (bx, bz) = if along_x { (half_len, 3int) } else { (3int, half_len) };
    World::overlay(
        cloister_body_plan(cx, cz, half_len, along_x, inward, gy, gated),
        roof_plan(cx, cz, bx + 1, bz + 1, gy + CLOISTER_H + 3, 1, true),
    )
}

/// Lay the body of one run of cloister, column by column.
#[verifier::loop_isolation(false)]
fn cloister_body(world: &mut World, cx: i32, cz: i32, half_len: i32, along_x: bool, inward: i32, gy: i32, gated: bool)
    requires
        old(world).wf(),
        site(cx as int),
        site(cz as int),
        site(gy as int),
        1 <= half_len <= 500,
        inward == -1 || inward == 1,
    ensures
        final(world).wf(),
        World::lays(*old(world), *final(world), cloister_body_plan(cx as int, cz as int, half_len as int, along_x, inward as int, gy as int, gated)),
{
    // Half-width of the walkway.
    let half_w: i32 = 3;
    let ghost w0 = *world;
    let ghost plan = cloister_body_plan(cx as int, cz as int, half_len as int, along_x, inward as int, gy as int, gated);
    proof {
        World::lemma_run_start(w0, plan, along_x, cx as int, cz as int, -half_len as int, -3);
    }
    let mut t = -half_len;
    while t <= half_len
        invariant
            -half_len <= t <= half_len + 1,
            world.wf(),
            World::lays(w0, *world, World::run_scan(plan, along_x, cx as int, cz as int, t as int, -3)),
        decreases half_len + 1 - t,
    {
        // Posts every bay: the outer face walled between them, the court face
        // left open.
        let post = rem_euclid(t, BAY) == 0;
        // The gateway through the outer face; its jambs stay.
        let doorway = gated && abs(t) < 4;
        let mut w = -half_w;
        while w <= half_w
            invariant
                -half_len <= t <= half_len,
                -half_w <= w <= half_w + 1,
                world.wf(),
                World::lays(w0, *world, World::run_scan(plan, along_x, cx as int, cz as int, t as int, w as int)),
            decreases half_w + 1 - w,
        {
            // A raised granite walkway centred on the court boundary.
            let (x, z) = super::gate::run_cell(along_x, cx, cz, t, w);
            let ghost w1 = *world;
            world.set(x, gy + 1, z, Block::Granite);
            let ghost w2 = *world;
            fill_column(world, x, z, gy + 2, gy + CLOISTER_H + 10, Block::Air);
            let ghost w3 = *world;
            let outer = w == -inward * half_w && !doorway;
            let inner = w == inward * half_w && post && !doorway;
            let face_top = if outer || inner { gy + CLOISTER_H + 1 } else { gy + 1 };
            fill_column(world, x, z, gy + 2, face_top, if post { Block::RedPillar } else { Block::Plaster });
            let ghost w4 = *world;
            // Painted beam over both faces.
            let face_side = abs(w) == half_w;
            if face_side {
                world.set(x, gy + CLOISTER_H + 2, z, Block::Dancheong);
            }
            proof {
                let walk = World::single(x as int, gy + 1, z as int, Block::Granite);
                let clear = column_range(x as int, z as int, gy + 2, gy + 16, Block::Air);
                let face = column_range(x as int, z as int, gy + 2, face_top as int, if post { Block::RedPillar } else { Block::Plaster });
                let beam = if face_side { World::single(x as int, gy + 8, z as int, Block::Dancheong) } else { World::nothing() };
                World::lemma_lays_single(w1, w2, x as int, gy + 1, z as int, Block::Granite);
                if face_side {
                    World::lemma_lays_single(w4, *world, x as int, gy + 8, z as int, Block::Dancheong);
                } else {
                    World::lemma_lays_nothing(w4);
                }
                World::lemma_lays_compose(w1, w2, w3, walk, clear);
                World::lemma_lays_compose(w1, w3, w4, World::overlay(walk, clear), face);
                World::lemma_lays_compose(w1, w4, *world, World::overlay(World::overlay(walk, clear), face), beam);
                World::lemma_run_step(
                    w0,
                    w1,
                    *world,
                    plan,
                    World::overlay(World::overlay(World::overlay(walk, clear), face), beam),
                    along_x,
                    cx as int,
                    cz as int,
                    t as int,
                    w as int,
                );
            }
            w = w + 1;
        }
        proof {
            World::lemma_run_move(w0, *world, plan, along_x, cx as int, cz as int, t as int, w as int, t + 1, -3);
        }
        t = t + 1;
    }
    proof {
        World::lemma_run_finish(w0, *world, plan, along_x, cx as int, cz as int, t as int, -3);
    }
}

/// One straight run of cloister: a raised granite walkway, solid on the outer
/// face (walled between posts every bay), an open colonnade on the court
/// side, a painted beam over both faces, and one roof over the whole run.
/// `inward` points at the court; `gated` cuts a doorway through the outer
/// face at the middle of the run, leaving its jambs.
pub fn cloister_run(
    world: &mut World,
    cx: i32,
    cz: i32,
    half_len: i32,
    along_x: bool,
    inward: i32,
    gy: i32,
    gated: bool,
)
    requires
        old(world).wf(),
        site(cx as int),
        site(cz as int),
        site(gy as int),
        1 <= half_len <= 500,
        inward == -1 || inward == 1,
    ensures
        final(world).wf(),
        World::lays(*old(world), *final(world), cloister_run_plan(cx as int, cz as int, half_len as int, along_x, inward as int, gy as int, gated)),
        builds_in(*old(world), *final(world), cloister_run_area(cx as int, cz as int, half_len as int, along_x, gy as int)),
{
    let half_w: i32 = 3;
    let ghost w0 = *world;
    let ghost area = cloister_run_area(cx as int, cz as int, half_len as int, along_x, gy as int);
    cloister_body(world, cx, cz, half_len, along_x, inward, gy, gated);
    let ghost w1 = *world;
    // One roof over the whole run, at a pitch of 1 — a corridor this narrow
    // would be capped in a single course at the palace step of 2.
    let (bx, bz) = if along_x {
        (half_len, half_w)
    } else {
        (half_w, half_len)
    };
    lay_roof(world, cx, cz, bx, bz, gy + CLOISTER_H + 3, 1, 1, true);
    proof {
        let p1 = cloister_body_plan(cx as int, cz as int, half_len as int, along_x, inward as int, gy as int, gated);
        World::lemma_lays_compose(w0, w1, *world, p1, roof_plan(cx as int, cz as int, bx + 1, bz + 1, gy + CLOISTER_H + 3, 1, true));
        assert(plan_within(p1, area));
        lemma_lays_builds(w0, w1, p1, area);
        lemma_extend(w0, w1, *world, area, (cx - bx - 1, cx + bx + 1, gy + CLOISTER_H + 3, gy + CLOISTER_H + 3 + roof_courses(bx + 1, bz + 1, 1) + 1, cz - bz - 1, cz + bz + 1));
    }
}

/// Where `place_rank_stones` may build.
pub open spec fn rank_stones_area(cx: int, cz: int, gy: int) -> Area {
    (cx - 10, cx + 10, gy + 1, gy + 1, cz - COURT_Z + 16, cz + COURT_Z - 10)
}

/// The ranked stones laid so far: those of [`rank_stones_plan`] north of
/// `z`, that is with a larger `z`.
pub open spec fn rank_stones_from(cx: int, cz: int, gy: int, z: int) -> spec_fn(int, int, int) -> Option<Block> {
    |a: int, b: int, c: int|
        if b == gy + 1 && iabs(a - cx) == 10 && z < c <= cz + COURT_Z - 10 && cz - COURT_Z + 16 < c
            && (cz + COURT_Z - 10 - c) % 6 == 0 {
            Some(Block::Granite)
        } else {
            None
        }
}

/// What `place_rank_stones` lays: a granite stone a course above the ground,
/// ten either side of the axis, every six blocks from `COURT_Z - 10` south of
/// the court's centre for as long as it stays more than `COURT_Z - 16` north
/// of it.
pub open spec fn rank_stones_plan(cx: int, cz: int, gy: int) -> spec_fn(int, int, int) -> Option<Block> {
    rank_stones_from(cx, cz, gy, cz - COURT_Z + 16)
}

/// 품계석 — the ranked stones officials lined up beside, in two rows down the
/// court flanking the 삼도, every six blocks.
pub fn place_rank_stones(world: &mut World, cx: i32, cz: i32, gy: i32)
    requires
        old(world).wf(),
        coord(cx as int),
        coord(cz as int),
        coord(gy as int),
    ensures
        final(world).wf(),
        World::lays(*old(world), *final(world), rank_stones_plan(cx as int, cz as int, gy as int)),
        builds_in(*old(world), *final(world), rank_stones_area(cx as int, cz as int, gy as int)),
{
    let ghost w0 = *world;
    let ghost area = rank_stones_area(cx as int, cz as int, gy as int);
    proof {
        lemma_start(w0, area);
        World::lemma_lays_nothing(w0);
        World::lemma_lays_congr(w0, w0, World::nothing(), rank_stones_from(cx as int, cz as int, gy as int, cz + COURT_Z - 10));
    }
    let mut z = cz + COURT_Z - 10;
    while z > cz - COURT_Z + 16
        invariant
            coord(cx as int),
            coord(cz as int),
            coord(gy as int),
            cz - COURT_Z + 10 <= z <= cz + COURT_Z - 10,
            (cz + COURT_Z - 10 - z) % 6 == 0,
            area == rank_stones_area(cx as int, cz as int, gy as int),
            world.wf(),
            builds_in(w0, *world, area),
            World::lays(w0, *world, rank_stones_from(cx as int, cz as int, gy as int, z as int)),
        decreases z - (cz - COURT_Z),
    {
        let ghost before = rank_stones_from(cx as int, cz as int, gy as int, z as int);
        let ghost w1 = *world;
        lay(world, cx - 10, gy + 1, z, Block::Granite, Ghost(w0), Ghost(area));
        let ghost w2 = *world;
        lay(world, cx + 10, gy + 1, z, Block::Granite, Ghost(w0), Ghost(area));
        proof {
            let west = World::single(cx - 10, gy + 1, z as int, Block::Granite);
            let east = World::single(cx + 10, gy + 1, z as int, Block::Granite);
            World::lemma_lays_single(w1, w2, cx - 10, gy + 1, z as int, Block::Granite);
            World::lemma_lays_single(w2, *world, cx + 10, gy + 1, z as int, Block::Granite);
            World::lemma_lays_compose(w0, w1, w2, before, west);
            World::lemma_lays_compose(w0, w2, *world, World::overlay(before, west), east);
            let after = rank_stones_from(cx as int, cz as int, gy as int, z - 6);
            assert forall|a: int, b: int, c: int|
                #[trigger] World::overlay(World::overlay(before, west), east)(a, b, c) == after(a, b, c) by {
                if z - 6 < c < z {
                    assert((cz + COURT_Z - 10 - c) % 6 != 0);
                }
            }
            World::lemma_lays_congr(w0, *world, World::overlay(World::overlay(before, west), east), after);
        }
        z = z - 6;
    }
    proof {
        assert forall|a: int, b: int, c: int|
            #[trigger] rank_stones_from(cx as int, cz as int, gy as int, z as int)(a, b, c)
                == rank_stones_plan(cx as int, cz as int, gy as int)(a, b, c) by {
        }
        World::lemma_lays_congr(w0, *world, rank_stones_from(cx as int, cz as int, gy as int, z as int), rank_stones_plan(cx as int, cz as int, gy as int));
    }
}

/// Where `lay_courtyard` may build.
pub open spec fn courtyard_area(cx: int, cz: int, gy: int) -> Area {
    (cx - PALACE_X, cx + PALACE_X, gy as int, gy + 1, cz + COURT_OFFSET_Z - COURT_Z - 4, cz + PALACE_SOUTH)
}

/// The 삼도 as `lay_courtyard` lays it: from `COURT_OFFSET_Z - 4` north of
/// the centre to the south wall, thirteen wide — stone lanes either side of
/// a granite centre lane, and a second granite course on the centre lane.
pub open spec fn samdo_plan(cx: int, cz: int, gy: int) -> spec_fn(int, int, int) -> Option<Block> {
    |a: int, b: int, c: int|
        if COURT_OFFSET_Z - 4 <= c - cz <= PALACE_SOUTH && iabs(a - cx) <= 6 {
            if b == gy {
                Some(if a == cx { Block::Granite } else { Block::Stone })
            } else if b == gy + 1 && a == cx {
                Some(Block::Granite)
            } else {
                None
            }
        } else {
            None
        }
}

/// What `lay_courtyard` lays: granite over the ground from
/// `COURT_OFFSET_Z - COURT_Z - 4` north of the centre to the south wall,
/// `PALACE_X` either side of the axis, and the 삼도 over that.
pub open spec fn courtyard_plan(cx: int, cz: int, gy: int) -> spec_fn(int, int, int) -> Option<Block> {
    World::overlay(
        rect(cx - PALACE_X, cx + PALACE_X, cz + COURT_OFFSET_Z - COURT_Z - 4, cz + PALACE_SOUTH, gy, Block::Granite),
        samdo_plan(cx, cz, gy),
    )
}

/// Pave the ceremonial half of the precinct in granite and run the 삼도 — the
/// raised processional way, its centre lane a block proud of the stone lanes
/// either side — from 광화문 up to the throne hall.
#[verifier::loop_isolation(false)]
pub fn lay_courtyard(world: &mut World, cx: i32, cz: i32, gy: i32)
    requires
        old(world).wf(),
        coord(cx as int),
        coord(cz as int),
        coord(gy as int),
    ensures
        final(world).wf(),
        World::lays(*old(world), *final(world), courtyard_plan(cx as int, cz as int, gy as int)),
        builds_in(*old(world), *final(world), courtyard_area(cx as int, cz as int, gy as int)),
{
    let ghost w0 = *world;
    let ghost area = courtyard_area(cx as int, cz as int, gy as int);
    let paved_north = COURT_OFFSET_Z - COURT_Z - 4;
    fill_rect(world, cx - PALACE_X, cz + paved_north, cx + PALACE_X, cz + PALACE_SOUTH, gy, Block::Granite);
    let ghost paved = *world;
    let ghost plan = samdo_plan(cx as int, cz as int, gy as int);
    proof {
        World::lemma_lays_nothing(paved);
        World::lemma_lays_congr(paved, paved, World::nothing(), World::columns(plan, cx as int, cz as int, COURT_OFFSET_Z - 4, -6));
    }
    let mut dz = COURT_OFFSET_Z - 4;
    while dz <= PALACE_SOUTH
        invariant
            COURT_OFFSET_Z - 4 <= dz <= PALACE_SOUTH + 1,
            world.wf(),
            builds_in(w0, *world, area),
            World::lays(paved, *world, World::columns(plan, cx as int, cz as int, dz as int, -6)),
        decreases PALACE_SOUTH + 1 - dz,
    {
        let mut dx: i32 = -6;
        while dx <= 6
            invariant
                COURT_OFFSET_Z - 4 <= dz <= PALACE_SOUTH,
                -6 <= dx <= 7,
                world.wf(),
                builds_in(w0, *world, area),
                World::lays(paved, *world, World::columns(plan, cx as int, cz as int, dz as int, dx as int)),
            decreases 7 - dx,
        {
            // The centre lane sits a block proud of the two flanking it.
            let block = if dx == 0 {
                Block::Granite
            } else {
                Block::Stone
            };
            let ghost w1 = *world;
            world.set(cx + dx, gy, cz + dz, block);
            let ghost w2 = *world;
            proof {
                World::lemma_lays_single(w1, w2, cx + dx, gy as int, cz + dz, block);
            }
            if dx == 0 {
                world.set(cx + dx, gy + 1, cz + dz, Block::Granite);
                proof {
                    World::lemma_lays_single(w2, *world, cx + dx, gy + 1, cz + dz, Block::Granite);
                    World::lemma_lays_compose(
                        w1,
                        w2,
                        *world,
                        World::single(cx + dx, gy as int, cz + dz, block),
                        World::single(cx + dx, gy + 1, cz + dz, Block::Granite),
                    );
                    World::lemma_column_step(
                        paved,
                        w1,
                        *world,
                        plan,
                        World::overlay(World::single(cx + dx, gy as int, cz + dz, block), World::single(cx + dx, gy + 1, cz + dz, Block::Granite)),
                        cx as int,
                        cz as int,
                        dz as int,
                        dx as int,
                    );
                }
            } else {
                proof {
                    World::lemma_column_step(paved, w1, *world, plan, World::single(cx + dx, gy as int, cz + dz, block), cx as int, cz as int, dz as int, dx as int);
                }
            }
            dx = dx + 1;
        }
        proof {
            World::lemma_column_move(paved, *world, plan, cx as int, cz as int, dz as int, dx as int, dz + 1, -6);
        }
        dz = dz + 1;
    }
    proof {
        World::lemma_column_move(paved, *world, plan, cx as int, cz as int, dz as int, -6, 1_000_000_000, 0);
        assert forall|a: int, b: int, c: int| #[trigger] World::columns(plan, cx as int, cz as int, 1_000_000_000, 0)(a, b, c) == plan(a, b, c) by {
        }
        World::lemma_lays_congr(paved, *world, World::columns(plan, cx as int, cz as int, 1_000_000_000, 0), plan);
        World::lemma_lays_compose(
            w0,
            paved,
            *world,
            rect(cx - PALACE_X, cx + PALACE_X, cz + paved_north, cz + PALACE_SOUTH, gy as int, Block::Granite),
            plan,
        );
        assert forall|a: int, b: int, c: int|
            (#[trigger] world.block_at(a, b, c) != w0.block_at(a, b, c) || world.level_at(a, b, c) != w0.level_at(a, b, c))
                implies in_box(a, b, c, area.0, area.1, area.2, area.3, area.4, area.5) && is_built(world.block_at(a, b, c)) by {
        }
    }
}

/// `min(a, b)`.
pub open spec fn imin(a: int, b: int) -> int {
    if a < b { a } else { b }
}

/// `max(a, b)`.
pub open spec fn imax(a: int, b: int) -> int {
    if a < b { b } else { a }
}

/// Where `pave` may build: the run from `(x0, z0)` to `(x1, z1)` at height
/// `gy`, widened by `PATH_W` either side across its direction.
pub open spec fn pave_area(gy: int, x0: int, z0: int, x1: int, z1: int) -> Area {
    let (wx, wz) = if x0 == x1 { (PATH_W as int, 0int) } else { (0int, PATH_W as int) };
    (imin(x0, x1) - wx, imax(x0, x1) + wx, gy, gy, imin(z0, z1) - wz, imax(z0, z1) + wz)
}

/// What `pave` lays: `block` over the whole of [`pave_area`].
pub open spec fn pave_plan(gy: int, x0: int, z0: int, x1: int, z1: int, block: Block) -> spec_fn(int, int, int) -> Option<Block> {
    let a = pave_area(gy, x0, z0, x1, z1);
    rect(a.0, a.1, a.4, a.5, gy, block)
}

/// Pave a straight run at ground level, from `(x0, z0)` to `(x1, z1)`, one of
/// the two axes constant — palace paths turn square corners. Everything is
/// written at `gy` and nothing above it, so a path laid after the buildings
/// can only replace the ground *under* a structure, never cut through one.
/// The run is widened by `PATH_W` across its direction, so what is paved is
/// the rectangle from one widened end to the other.
pub fn pave(world: &mut World, gy: i32, x0: i32, z0: i32, x1: i32, z1: i32, block: Block)
    requires
        old(world).wf(),
        coord(gy as int),
        coord(x0 as int),
        coord(z0 as int),
        coord(x1 as int),
        coord(z1 as int),
        x0 == x1 || z0 == z1,
        is_built(block),
    ensures
        final(world).wf(),
        World::lays(*old(world), *final(world), pave_plan(gy as int, x0 as int, z0 as int, x1 as int, z1 as int, block)),
        builds_in(*old(world), *final(world), pave_area(gy as int, x0 as int, z0 as int, x1 as int, z1 as int)),
{
    let (lo_x, hi_x) = if x0 < x1 { (x0, x1) } else { (x1, x0) };
    let (lo_z, hi_z) = if z0 < z1 { (z0, z1) } else { (z1, z0) };
    // Widen across whichever axis the run is *not* travelling along.
    let (wx, wz) = if x0 == x1 {
        (PATH_W, 0i32)
    } else {
        (0i32, PATH_W)
    };
    fill_rect(world, lo_x - wx, lo_z - wz, hi_x + wx, hi_z + wz, gy, block);
}

/// One paved run: its two ends `(x0, z0)` and `(x1, z1)`, and what it is
/// paved in.
pub type Run = (int, int, int, int, Block);

/// What paving the first `n` of `runs` at `gy` lays, each run over the ones
/// before it.
pub open spec fn runs_plan(gy: int, runs: Seq<Run>, n: nat) -> spec_fn(int, int, int) -> Option<Block>
    decreases n,
{
    if n == 0 {
        World::nothing()
    } else {
        let r = runs[n - 1];
        World::overlay(runs_plan(gy, runs, (n - 1) as nat), pave_plan(gy, r.0, r.1, r.2, r.3, r.4))
    }
}

/// Pave the next of `runs` as part of a building confined to `area` that
/// contains it.
fn pave_part(
    world: &mut World,
    gy: i32,
    x0: i32,
    z0: i32,
    x1: i32,
    z1: i32,
    block: Block,
    Ghost(w0): Ghost<World>,
    Ghost(area): Ghost<Area>,
    Ghost(runs): Ghost<Seq<Run>>,
    Ghost(k): Ghost<nat>,
)
    requires
        old(world).wf(),
        coord(gy as int),
        coord(x0 as int),
        coord(z0 as int),
        coord(x1 as int),
        coord(z1 as int),
        x0 == x1 || z0 == z1,
        is_built(block),
        builds_in(w0, *old(world), area),
        super::area_within(pave_area(gy as int, x0 as int, z0 as int, x1 as int, z1 as int), area),
        k < runs.len(),
        runs[k as int] == (x0 as int, z0 as int, x1 as int, z1 as int, block),
        World::lays(w0, *old(world), runs_plan(gy as int, runs, k)),
    ensures
        final(world).wf(),
        builds_in(w0, *final(world), area),
        World::lays(w0, *final(world), runs_plan(gy as int, runs, k + 1)),
{
    let ghost w1 = *world;
    pave(world, gy, x0, z0, x1, z1, block);
    proof {
        lemma_extend(w0, w1, *world, area, pave_area(gy as int, x0 as int, z0 as int, x1 as int, z1 as int));
        World::lemma_lays_compose(w0, w1, *world, runs_plan(gy as int, runs, k), pave_plan(gy as int, x0 as int, z0 as int, x1 as int, z1 as int, block));
    }
}

/// Where `lay_paths` may build: ground level across the residential
/// quarter and out to the side compounds.
pub open spec fn paths_area(cx: int, cz: int, gy: int) -> Area {
    (cx - 138, cx + 138, gy, gy, cz - 285, cz + 12)
}

/// The runs `lay_paths` paves round the palace centre `(cx, cz)`, in the
/// order it paves them: the granite spine, the two flanking routes, the
/// garden run, the spurs to 자경전, 동궁 and 수정전, and the ways to 소주방,
/// 함화당, 태원전 and 경회루.
pub open spec fn path_runs(cx: int, cz: int) -> Seq<Run> {
    let court_north = cz + COURT_OFFSET_Z - COURT_Z;
    let spine_end = cz + GYOTAE_Z + 10;
    let flank_south = cz + COURT_OFFSET_Z - COURT_Z - 6;
    let flank_north = cz + GYOTAE_Z + 13;
    let west = cx - BYPASS_X;
    let east = cx + BYPASS_X;
    let round_x = cx + 32;
    let pond_z = cz + HYANGWON_Z + 18;
    let gc_z = cz + GEONCHEONG_Z;
    let jg = (cx + JAGYEONG_X, cz + JAGYEONG_Z + 22);
    let dg = (cx + DONGGUNG_X, cz + DONGGUNG_Z + DONGGUNG_RZ);
    let sj = (cx + SUJEONG_X, cz + SUJEONG_Z + 16);
    let hh_x = cx + HAMHWA_X;
    let hh_gate = cz + HAMHWA_Z + HAMHWA_RZ;
    let tw_x = cx + TAEWON_X;
    let bank_x = cx - 46;
    let below_pond = cz + 10;
    seq![
        (cx, court_north, cx, spine_end, Block::Granite),
        (cx, flank_south, west, flank_south, Block::Road),
        (west, flank_south, west, flank_north, Block::Road),
        (west, flank_north, cx, flank_north, Block::Road),
        (cx, flank_south, east, flank_south, Block::Road),
        (east, flank_south, east, flank_north, Block::Road),
        (east, flank_north, cx, flank_north, Block::Road),
        (cx, spine_end, round_x, spine_end, Block::Road),
        (round_x, spine_end, round_x, gc_z, Block::Road),
        (round_x, pond_z, cx, pond_z, Block::Road),
        (round_x, gc_z, cx + GEONCHEONG_X - GEONCHEONG_RX, gc_z, Block::Road),
        (cx, jg.1 + 8, jg.0, jg.1 + 8, Block::Road),
        (jg.0, jg.1 + 8, jg.0, jg.1, Block::Road),
        (cx, dg.1 + 8, dg.0, dg.1 + 8, Block::Road),
        (dg.0, dg.1 + 8, dg.0, dg.1, Block::Road),
        (cx, sj.1 + 8, sj.0, sj.1 + 8, Block::Road),
        (sj.0, sj.1 + 8, sj.0, sj.1, Block::Road),
        (east, cz + SOJU_Z, cx + SOJU_X - 4, cz + SOJU_Z, Block::Road),
        (west, hh_gate + 8, hh_x, hh_gate + 8, Block::Road),
        (hh_x, hh_gate + 8, hh_x, hh_gate, Block::Road),
        (west, flank_north, tw_x, flank_north, Block::Road),
        (tw_x, flank_north, tw_x, cz + TAEWON_Z + TAEWON_RZ, Block::Road),
        (cx, below_pond, bank_x, below_pond, Block::Road),
        (bank_x, below_pond, bank_x, cz - 16, Block::Road),
    ]
}

/// What `lay_paths` lays: every one of [`path_runs`] paved in turn.
pub open spec fn paths_plan(cx: int, cz: int, gy: int) -> spec_fn(int, int, int) -> Option<Block> {
    runs_plan(gy, path_runs(cx, cz), 24)
}

/// Link the halls together. The spine carries 어도 in dressed granite from
/// the court north through every cross-wall gateway to 교태전; the flanking
/// routes run the length of the residential quarter past each hall through
/// the 협문 and tie back into the spine at both ends; the garden run turns off
/// in front of 교태전 and comes back to the axis at the pond, going on north to
/// 건청궁; and beaten-earth spurs run out to every compound, reaching each
/// gateway from a clear latitude below it.
pub fn lay_paths(world: &mut World, cx: i32, cz: i32, gy: i32)
    requires
        old(world).wf(),
        site(cx as int),
        site(cz as int),
        site(gy as int),
    ensures
        final(world).wf(),
        World::lays(*old(world), *final(world), paths_plan(cx as int, cz as int, gy as int)),
        builds_in(*old(world), *final(world), paths_area(cx as int, cz as int, gy as int)),
{
    let ghost w0 = *world;
    let ghost area = paths_area(cx as int, cz as int, gy as int);
    let ghost runs = path_runs(cx as int, cz as int);
    proof {
        lemma_start(w0, area);
        World::lemma_lays_nothing(w0);
    }
    let court_north = cz + COURT_OFFSET_Z - COURT_Z;

    // The spine: out through 사정문 and north past each hall in turn, stopping
    // in front of 교태전, the last hall on the axis.
    let spine_end = cz + GYOTAE_Z + 8 + 2;
    pave_part(world, gy, cx, court_north, cx, spine_end, Block::Granite, Ghost(w0), Ghost(area), Ghost(runs), Ghost(0));

    // The flanking routes, down both flanks and tied back in front of a
    // platform at both ends.
    let flank_south = cz + COURT_OFFSET_Z - COURT_Z - 6;
    let flank_north = cz + GYOTAE_Z + 8 + 4 + 1;
    let mut side: i32 = -1;
    while side <= 1
        invariant
            side == -1 || side == 1 || side == 3,
            site(cx as int),
            site(cz as int),
            site(gy as int),
            flank_south == cz + COURT_OFFSET_Z - COURT_Z - 6,
            flank_north == cz + GYOTAE_Z + 8 + 4 + 1,
            area == paths_area(cx as int, cz as int, gy as int),
            runs == path_runs(cx as int, cz as int),
            world.wf(),
            builds_in(w0, *world, area),
            World::lays(w0, *world, runs_plan(gy as int, runs, (1 + 3 * (side + 1) / 2) as nat)),
        decreases 3 - side,
    {
        let ghost k: nat = (1 + 3 * (side + 1) / 2) as nat;
        let fx = cx + side * BYPASS_X;
        pave_part(world, gy, cx, flank_south, fx, flank_south, Block::Road, Ghost(w0), Ghost(area), Ghost(runs), Ghost(k));
        pave_part(world, gy, fx, flank_south, fx, flank_north, Block::Road, Ghost(w0), Ghost(area), Ghost(runs), Ghost(k + 1));
        pave_part(world, gy, fx, flank_north, cx, flank_north, Block::Road, Ghost(w0), Ghost(area), Ghost(runs), Ghost(k + 2));
        side = side + 2;
    }

    // On to the rear garden, round 교태전's east flank and back to the axis at
    // the pond, and on north to 건청궁's west gateway.
    let round_x = cx + 32;
    let pond_z = cz + HYANGWON_Z + 18;
    let gc_z = cz + GEONCHEONG_Z;
    pave_part(world, gy, cx, spine_end, round_x, spine_end, Block::Road, Ghost(w0), Ghost(area), Ghost(runs), Ghost(7));
    pave_part(world, gy, round_x, spine_end, round_x, gc_z, Block::Road, Ghost(w0), Ghost(area), Ghost(runs), Ghost(8));
    pave_part(world, gy, round_x, pond_z, cx, pond_z, Block::Road, Ghost(w0), Ghost(area), Ghost(runs), Ghost(9));
    pave_part(world, gy, round_x, gc_z, cx + GEONCHEONG_X - GEONCHEONG_RX, gc_z, Block::Road, Ghost(w0), Ghost(area), Ghost(runs), Ghost(10));

    // Spurs to the compounds either side, each running out along a clear
    // latitude below its compound and turning north into the gateway.
    let mut i: i32 = 0;
    while i < 3
        invariant
            0 <= i <= 3,
            site(cx as int),
            site(cz as int),
            site(gy as int),
            area == paths_area(cx as int, cz as int, gy as int),
            runs == path_runs(cx as int, cz as int),
            world.wf(),
            builds_in(w0, *world, area),
            World::lays(w0, *world, runs_plan(gy as int, runs, (11 + 2 * i) as nat)),
        decreases 3 - i,
    {
        let (gate_x, gate_z) = if i == 0 {
            (cx + JAGYEONG_X, cz + JAGYEONG_Z + 22)  // 자경전
        } else if i == 1 {
            (cx + DONGGUNG_X, cz + DONGGUNG_Z + DONGGUNG_RZ)  // 동궁
        } else {
            (cx + SUJEONG_X, cz + SUJEONG_Z + 16)  // 수정전
        };
        let approach = gate_z + 8;
        let ghost k: nat = (11 + 2 * i) as nat;
        pave_part(world, gy, cx, approach, gate_x, approach, Block::Road, Ghost(w0), Ghost(area), Ghost(runs), Ghost(k));
        pave_part(world, gy, gate_x, approach, gate_x, gate_z, Block::Road, Ghost(w0), Ghost(area), Ghost(runs), Ghost(k + 1));
        i = i + 1;
    }

    // 소주방's yard, off the east flank.
    pave_part(world, gy, cx + BYPASS_X, cz + SOJU_Z, cx + SOJU_X - 4, cz + SOJU_Z, Block::Road, Ghost(w0), Ghost(area), Ghost(runs), Ghost(17));

    // 함화당's yard, off the west flank.
    let hh_x = cx + HAMHWA_X;
    let hh_gate = cz + HAMHWA_Z + HAMHWA_RZ;
    let hh_approach = hh_gate + 8;
    pave_part(world, gy, cx - BYPASS_X, hh_approach, hh_x, hh_approach, Block::Road, Ghost(w0), Ghost(area), Ghost(runs), Ghost(18));
    pave_part(world, gy, hh_x, hh_approach, hh_x, hh_gate, Block::Road, Ghost(w0), Ghost(area), Ghost(runs), Ghost(19));

    // 태원전, off the north end of the west flank.
    let tw_x = cx + TAEWON_X;
    let tw_gate = cz + TAEWON_Z + TAEWON_RZ;
    pave_part(world, gy, cx - BYPASS_X, flank_north, tw_x, flank_north, Block::Road, Ghost(w0), Ghost(area), Ghost(runs), Ghost(20));
    pave_part(world, gy, tw_x, flank_north, tw_x, tw_gate, Block::Road, Ghost(w0), Ghost(area), Ghost(runs), Ghost(21));

    // 경회루: round from the south courtyard and up the pond's east bank, the
    // west cloister being unbroken at this latitude.
    let bank_x = cx - 60 + 14;
    let below_pond = cz - 16 + 24 + 2;
    pave_part(world, gy, cx, below_pond, bank_x, below_pond, Block::Road, Ghost(w0), Ghost(area), Ghost(runs), Ghost(22));
    pave_part(world, gy, bank_x, below_pond, bank_x, cz - 16, Block::Road, Ghost(w0), Ghost(area), Ghost(runs), Ghost(23));
}

} // verus!
