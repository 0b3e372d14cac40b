//! The shared vocabulary of the palace: its two scales, the roof builder, the
//! bracket sets under the eaves, and the course-by-course wall.

use vstd::prelude::*;
use crate::block::Block;
use crate::world::{World};
use super::{abs, builds_within, coord, extent, is_built, rem_euclid};

verus! {

/// Scale a *building* — a hall's half-extents, a wall's height, an eave's
/// reach.
pub fn s(n: i32) -> (r: i32)
    requires
        -1000 <= n <= 1000,
    ensures
        r == n * 2,
{
    n * 2
}

/// Scale a *distance* — where a building stands, how wide a yard is, how far
/// the wall runs. Larger than `s` on purpose: buildings close to their real
/// size want the ground between them close to its real size too.
pub fn d(n: i32) -> (r: i32)
    requires
        0 <= n <= 1000,
    ensures
        r == n * 7 / 2,
{
    n * 7 / 2
}

/// Palace roofs step in 2 per course, the shallow 1:2 pitch of a real
/// 기와지붕.
pub const PALACE_STEP: i32 = 2;

/// Height of every 담장 in the palace, from footing to coping.
pub const WALL_H: i32 = 4 * 2;

/// 주칸 — the spacing of the columns along a hall's front.
pub const BAY: i32 = 3 * 2;

/// Clear height of a doorway.
pub const DOOR_H: i32 = 3 * 2;

/// 처마 — how far a hall's eaves project past its walls.
pub const EAVES: i32 = 2 * 2;

/// How many courses of 공포 stand between the beam and the eaves: one fewer
/// than the eave's reach, leaving the eave itself to cantilever the last block.
pub const BRACKET_TIERS: i32 = EAVES - 1;

/// Spacing of the bracket sets along a run.
pub const BRACKET_SPACING: i32 = 2;

/// `|v|`.
pub open spec fn iabs(v: int) -> int {
    if v < 0 { -v } else { v }
}

/// Whether the offset `(dx, dz)` lies on the ring of half-extents `(rx, rz)`:
/// inside the rectangle and on its edge.
pub open spec fn on_ring(dx: int, dz: int, rx: int, rz: int) -> bool {
    iabs(dx) <= rx && iabs(dz) <= rz && (iabs(dx) == rx || iabs(dz) == rz)
}

/// How many courses a roof over eave half-extents `(ex, ez)` takes when each
/// course draws in by `step`: courses are laid while both half-extents are
/// still nonnegative.
pub open spec fn roof_courses(ex: int, ez: int, step: int) -> int {
    let m = if ex < ez { ex } else { ez };
    if m < 0 { 0 } else { m / step + 1 }
}

/// What course `k` of such a roof lays at offset `(dx, dz)` from its centre:
/// a band `step` wide inside the course's edge, or the whole remaining area on
/// the crowning course, which is ridge when the roof is ridged and tile
/// otherwise.
pub open spec fn roof_course_block(ex: int, ez: int, step: int, ridged: bool, k: int, dx: int, dz: int) -> Option<Block> {
    let rx = ex - k * step;
    let rz = ez - k * step;
    let last = rx - step < 0 || rz - step < 0;
    if iabs(dx) <= rx && iabs(dz) <= rz && (iabs(dx) > rx - step || iabs(dz) > rz - step || last) {
        Some(if last && ridged { Block::RoofRidge } else { Block::RoofTile })
    } else {
        None
    }
}

/// What `lay_roof` leaves at `(x, y, z)`: the four lifted eave corners one
/// course up, and otherwise the course at that height.
pub open spec fn roof_block(
    cx: int,
    cz: int,
    ex: int,
    ez: int,
    base_y: int,
    step: int,
    ridged: bool,
    x: int,
    y: int,
    z: int,
) -> Option<Block> {
    let dx = x - cx;
    let dz = z - cz;
    if y == base_y + 1 && iabs(dx) == ex && iabs(dz) == ez {
        Some(Block::RoofRidge)
    } else if base_y <= y < base_y + roof_courses(ex, ez, step) {
        roof_course_block(ex, ez, step, ridged, y - base_y, dx, dz)
    } else {
        None
    }
}

/// Courses stop exactly when the draw-in would take either half-extent below
/// zero.
proof fn lemma_roof_courses(ex: int, ez: int, step: int, k: int)
    requires
        step >= 1,
        k >= 0,
        ex >= 0,
        ez >= 0,
        ex - k * step < 0 || ez - k * step < 0,
        k == 0 || (ex - (k - 1) * step >= 0 && ez - (k - 1) * step >= 0),
    ensures
        k == roof_courses(ex, ez, step),
{
    let m = if ex < ez { ex } else { ez };
    assert(m - k * step < 0);
    assert(k >= 1);
    assert(m - (k - 1) * step >= 0);
    assert(k == m / step + 1) by (nonlinear_arith)
        requires
            m >= 0,
            step >= 1,
            k >= 1,
            m - k * step < 0,
            m - (k - 1) * step >= 0,
    ;
}

/// The `ridged` flag decides a roof's crown: the crowning course is ridge
/// right across the centre of a ridged roof and plain tile on a 무량각, and
/// nothing of the roof stands above the crown over the centre.
pub proof fn lemma_roof_crown(cx: int, cz: int, ex: int, ez: int, base_y: int, step: int, ridged: bool, y: int)
    requires
        ex >= 1,
        ez >= 1,
        1 <= step,
    ensures
        roof_courses(ex, ez, step) >= 1,
        roof_block(cx, cz, ex, ez, base_y, step, ridged, cx, base_y + roof_courses(ex, ez, step) - 1, cz)
            == Some(if ridged { Block::RoofRidge } else { Block::RoofTile }),
        y >= base_y + roof_courses(ex, ez, step) ==> roof_block(cx, cz, ex, ez, base_y, step, ridged, cx, y, cz) is None,
{
    let m = if ex < ez { ex } else { ez };
    let k = roof_courses(ex, ez, step) - 1;
    assert(k == m / step);
    assert(k * step <= m < k * step + step) by (nonlinear_arith)
        requires
            k == m / step,
            m >= 1,
            1 <= step,
    ;
    assert(ex - k * step >= 0 && ez - k * step >= 0);
    assert(ex - k * step - step < 0 || ez - k * step - step < 0);
}

/// The roof courses laid below height `top`.
pub open spec fn roof_courses_below(
    cx: int,
    cz: int,
    ex: int,
    ez: int,
    base_y: int,
    step: int,
    ridged: bool,
    top: int,
) -> spec_fn(int, int, int) -> Option<Block> {
    |x: int, y: int, z: int|
        if base_y <= y < top {
            roof_course_block(ex, ez, step, ridged, y - base_y, x - cx, z - cz)
        } else {
            None
        }
}

/// The part of course `y` laid before the cursor `(dx, dz)`, row by row.
pub open spec fn roof_course_part(
    cx: int,
    cz: int,
    ex: int,
    ez: int,
    base_y: int,
    step: int,
    ridged: bool,
    y: int,
    dz: int,
    dx: int,
) -> spec_fn(int, int, int) -> Option<Block> {
    |x: int, yy: int, z: int|
        if yy == y && (z - cz < dz || (z - cz == dz && x - cx < dx)) {
            roof_course_block(ex, ez, step, ridged, y - base_y, x - cx, z - cz)
        } else {
            None
        }
}

/// The whole of the roof [`roof_block`] describes, as a plan.
pub open spec fn roof_plan(cx: int, cz: int, ex: int, ez: int, base_y: int, step: int, ridged: bool) -> spec_fn(int, int, int) -> Option<Block> {
    |x: int, y: int, z: int| roof_block(cx, cz, ex, ez, base_y, step, ridged, x, y, z)
}

/// Lay a hipped 기와 roof over a body of half-extents `(bx, bz)` centred on
/// `(cx, cz)`, starting at `base_y`. Returns the level just above the ridge.
///
/// `step` is how much each course draws in, `overhang` how far the eaves
/// project past the body, and `ridged` whether the crown gets the white
/// 양성바름 ridge (it does not for 무량각). The four corners of the eaves are
/// lifted a course, the 추녀 sweep.
#[verifier::spinoff_prover]
#[verifier::rlimit(50)]
pub fn lay_roof(
    world: &mut World,
    cx: i32,
    cz: i32,
    bx: i32,
    bz: i32,
    base_y: i32,
    overhang: i32,
    step: i32,
    ridged: bool,
) -> (top: i32)
    requires
        old(world).wf(),
        coord(cx as int),
        coord(cz as int),
        coord(base_y as int),
        extent(bx as int),
        extent(bz as int),
        extent(overhang as int),
        1 <= step,
    ensures
        final(world).wf(),
        top == base_y + roof_courses(bx + overhang, bz + overhang, step as int),
        World::lays(*old(world), *final(world), roof_plan(cx as int, cz as int, bx + overhang, bz + overhang, base_y as int, step as int, ridged)),
        builds_within(
            *old(world),
            *final(world),
            cx - bx - overhang,
            cx + bx + overhang,
            base_y as int,
            base_y + roof_courses(bx + overhang, bz + overhang, step as int) + 1,
            cz - bz - overhang,
            cz + bz + overhang,
        ),
{
    proof { reveal(World::lays); }
    let ghost w0 = *world;
    let ex = bx + overhang;
    let ez = bz + overhang;
    let mut rx = ex;
    let mut rz = ez;
    let mut y = base_y;
    let ghost mut k: int = 0;
    let ghost below = |top: int| roof_courses_below(cx as int, cz as int, ex as int, ez as int, base_y as int, step as int, ridged, top);
    proof {
        World::lemma_lays_nothing(w0);
        World::lemma_lays_congr(w0, w0, World::nothing(), below(base_y as int));
    }

    // Draw in until *either* axis runs out.
    while rx >= 0 && rz >= 0
        invariant
            world.wf(),
            coord(cx as int),
            coord(cz as int),
            coord(base_y as int),
            ex == bx + overhang,
            ez == bz + overhang,
            0 <= ex <= 2000,
            0 <= ez <= 2000,
            1 <= step,
            k >= 0,
            y == base_y + k,
            rx == ex - k * step,
            rz == ez - k * step,
            k == 0 || (ex - (k - 1) * step >= 0 && ez - (k - 1) * step >= 0),
            rx >= -step,
            rz >= -step,
            k <= 2001,
            below == (|top: int| roof_courses_below(cx as int, cz as int, ex as int, ez as int, base_y as int, step as int, ridged, top)),
            World::lays(w0, *world, below(y as int)),
        decreases rx + step,
    {
        // Whether this is the crowning course: testing `== 0` would skip the
        // ridge whenever `step` strides past zero.
        let last = rx - step < 0 || rz - step < 0;
        let inner_x = rx - step;
        let inner_z = rz - step;
        let ghost before_course = *world;
        let ghost part = |dz: int, dx: int| roof_course_part(cx as int, cz as int, ex as int, ez as int, base_y as int, step as int, ridged, y as int, dz, dx);
        let mut dz = -rz;
        proof {
            World::lemma_lays_nothing(before_course);
            World::lemma_lays_congr(before_course, before_course, World::nothing(), part(dz as int, -rx as int));
        }
        while dz <= rz
            invariant
                world.wf(),
                coord(cx as int),
                coord(cz as int),
                coord(base_y as int),
                0 <= rx <= 2000,
                0 <= rz <= 2000,
                -rz <= dz <= rz + 1,
                inner_x == rx - step,
                inner_z == rz - step,
                last == (rx - step < 0 || rz - step < 0),
                y == base_y + k,
                rx == ex - k * step,
                rz == ez - k * step,
                1 <= step,
                part == (|dz: int, dx: int| roof_course_part(cx as int, cz as int, ex as int, ez as int, base_y as int, step as int, ridged, y as int, dz, dx)),
                World::lays(before_course, *world, part(dz as int, -rx as int)),
            decreases rz + 1 - dz,
        {
            let mut dx = -rx;
            while dx <= rx
                invariant
                    world.wf(),
                    coord(cx as int),
                    coord(cz as int),
                    coord(base_y as int),
                    0 <= rx <= 2000,
                    0 <= rz <= 2000,
                    -rz <= dz <= rz,
                    -rx <= dx <= rx + 1,
                    inner_x == rx - step,
                    inner_z == rz - step,
                    last == (rx - step < 0 || rz - step < 0),
                    y == base_y + k,
                    rx == ex - k * step,
                    rz == ez - k * step,
                    1 <= step,
                    part == (|dz: int, dx: int| roof_course_part(cx as int, cz as int, ex as int, ez as int, base_y as int, step as int, ridged, y as int, dz, dx)),
                    World::lays(before_course, *world, part(dz as int, dx as int)),
                decreases rx + 1 - dx,
            {
                let ghost prev = *world;
                let in_band = abs(dx) > inner_x || abs(dz) > inner_z;
                if in_band || last {
                    // The crown is the white 양성바름 ridge; everything below
                    // it is plain dark tile.
                    let tile = if last && ridged {
                        Block::RoofRidge
                    } else {
                        Block::RoofTile
                    };
                    world.set(cx + dx, y, cz + dz, tile);
                    proof {
                        let cell = World::single((cx + dx) as int, y as int, (cz + dz) as int, tile);
                        World::lemma_lays_single(prev, *world, (cx + dx) as int, y as int, (cz + dz) as int, tile);
                        World::lemma_lays_compose(before_course, prev, *world, part(dz as int, dx as int), cell);
                        assert forall|a: int, b: int, c: int|
                            #[trigger] World::overlay(part(dz as int, dx as int), cell)(a, b, c)
                                == part(dz as int, dx + 1)(a, b, c) by {
                        }
                        World::lemma_lays_congr(before_course, *world, World::overlay(part(dz as int, dx as int), cell), part(dz as int, dx + 1));
                    }
                } else {
                    proof {
                        assert forall|a: int, b: int, c: int|
                            #[trigger] part(dz as int, dx as int)(a, b, c)
                                == part(dz as int, dx + 1)(a, b, c) by {
                        }
                        World::lemma_lays_congr(before_course, *world, part(dz as int, dx as int), part(dz as int, dx + 1));
                    }
                }
                dx = dx + 1;
            }
            proof {
                assert forall|a: int, b: int, c: int|
                    #[trigger] part(dz as int, dx as int)(a, b, c)
                        == part(dz + 1, -rx as int)(a, b, c) by {
                }
                World::lemma_lays_congr(before_course, *world, part(dz as int, dx as int), part(dz + 1, -rx as int));
            }
            dz = dz + 1;
        }
        proof {
            World::lemma_lays_compose(w0, before_course, *world, below(y as int), part(dz as int, -rx as int));
            assert forall|a: int, b: int, c: int|
                #[trigger] World::overlay(below(y as int), part(dz as int, -rx as int))(a, b, c)
                    == below(y + 1)(a, b, c) by {
            }
            World::lemma_lays_congr(w0, *world, World::overlay(below(y as int), part(dz as int, -rx as int)), below(y + 1));
        }
        y = y + 1;
        rx = rx - step;
        rz = rz - step;
        proof {
            assert((k + 1) * step == k * step + step) by (nonlinear_arith);
            assert(k <= 2000) by (nonlinear_arith)
                requires
                    k * step <= 2000,
                    step >= 1,
                    k >= 0,
            ;
            k = k + 1;
        }
    }
    proof {
        lemma_roof_courses(ex as int, ez as int, step as int, k);
    }

    // 추녀 — lift the four corners of the eaves. A ridgeless roof still has
    // these: it is the 용마루 that is missing, not the corner rafters.
    let ghost w1 = *world;
    world.set(cx - ex, base_y + 1, cz - ez, Block::RoofRidge);
    let ghost w2 = *world;
    world.set(cx - ex, base_y + 1, cz + ez, Block::RoofRidge);
    let ghost w3 = *world;
    world.set(cx + ex, base_y + 1, cz - ez, Block::RoofRidge);
    let ghost w4 = *world;
    world.set(cx + ex, base_y + 1, cz + ez, Block::RoofRidge);
    proof {
        let yy = base_y + 1;
        let c1 = World::single(cx - ex, yy, cz - ez, Block::RoofRidge);
        let c2 = World::single(cx - ex, yy, cz + ez, Block::RoofRidge);
        let c3 = World::single(cx + ex, yy, cz - ez, Block::RoofRidge);
        let c4 = World::single(cx + ex, yy, cz + ez, Block::RoofRidge);
        World::lemma_lays_single(w1, w2, cx - ex, yy, cz - ez, Block::RoofRidge);
        World::lemma_lays_single(w2, w3, cx - ex, yy, cz + ez, Block::RoofRidge);
        World::lemma_lays_single(w3, w4, cx + ex, yy, cz - ez, Block::RoofRidge);
        World::lemma_lays_single(w4, *world, cx + ex, yy, cz + ez, Block::RoofRidge);
        let p0 = below(y as int);
        World::lemma_lays_compose(w0, w1, w2, p0, c1);
        let p1 = World::overlay(p0, c1);
        World::lemma_lays_compose(w0, w2, w3, p1, c2);
        let p2 = World::overlay(p1, c2);
        World::lemma_lays_compose(w0, w3, w4, p2, c3);
        let p3 = World::overlay(p2, c3);
        World::lemma_lays_compose(w0, w4, *world, p3, c4);
        let p4 = World::overlay(p3, c4);
        let plan = |x: int, y: int, z: int|
            roof_block(cx as int, cz as int, ex as int, ez as int, base_y as int, step as int, ridged, x, y, z);
        assert forall|a: int, b: int, c: int| #[trigger] p4(a, b, c) == plan(a, b, c) by {
        }
        World::lemma_lays_congr(w0, *world, p4, plan);
        assert forall|a: int, b: int, c: int|
            (#[trigger] world.block_at(a, b, c) != w0.block_at(a, b, c) || world.level_at(a, b, c) != w0.level_at(a, b, c))
                implies super::in_box(a, b, c, cx - ex, cx + ex, base_y as int, y + 1, cz - ez, cz + ez)
                && is_built(world.block_at(a, b, c)) by {
        }
    }
    y
}

/// What tier `tier` of the bracket band lays at offset `(dx, dz)`: a ring one
/// block further out than the body for each tier, painted where a bracket set
/// sits — every `BRACKET_SPACING` along the run, and always at the corners —
/// and plain timber between.
pub open spec fn bracket_block(bx: int, bz: int, tier: int, dx: int, dz: int) -> Option<Block> {
    let ex = bx + tier + 1;
    let ez = bz + tier + 1;
    let on_x_run = iabs(dz) == ez;
    let on_z_run = iabs(dx) == ex;
    let along = if on_x_run { dx } else { dz };
    if iabs(dx) <= ex && iabs(dz) <= ez && (on_x_run || on_z_run) {
        Some(if (on_x_run && on_z_run) || along % BRACKET_SPACING as int == 0 { Block::Dancheong } else { Block::Wood })
    } else {
        None
    }
}

/// The whole bracket band of a body of half-extents `(bx, bz)` centred on
/// `(cx, cz)`, its first tier at `base_y`.
pub open spec fn brackets_plan(cx: int, cz: int, bx: int, bz: int, base_y: int) -> spec_fn(int, int, int) -> Option<Block> {
    |x: int, y: int, z: int|
        if base_y <= y < base_y + BRACKET_TIERS {
            bracket_block(bx, bz, y - base_y, x - cx, z - cz)
        } else {
            None
        }
}

/// 공포 — the stepped bracket sets that carry the eaves out past the wall.
///
/// Each course steps out one block and is drawn as a ring, painted where a
/// bracket set sits and left as plain timber between; corners are always
/// painted. Returns the level the roof should start at.
pub fn lay_brackets(world: &mut World, cx: i32, cz: i32, bx: i32, bz: i32, base_y: i32) -> (top: i32)
    requires
        old(world).wf(),
        coord(cx as int),
        coord(cz as int),
        coord(base_y as int),
        extent(bx as int),
        extent(bz as int),
    ensures
        final(world).wf(),
        top == base_y + BRACKET_TIERS,
        World::lays(*old(world), *final(world), brackets_plan(cx as int, cz as int, bx as int, bz as int, base_y as int)),
        builds_within(
            *old(world),
            *final(world),
            cx - bx - BRACKET_TIERS,
            cx + bx + BRACKET_TIERS,
            base_y as int,
            base_y + BRACKET_TIERS - 1,
            cz - bz - BRACKET_TIERS,
            cz + bz + BRACKET_TIERS,
        ),
{
    proof { reveal(World::lays); }
    let ghost w0 = *world;
    let ghost plan = brackets_plan(cx as int, cz as int, bx as int, bz as int, base_y as int);
    proof {
        World::lemma_lays_nothing(w0);
        World::lemma_lays_congr(w0, w0, World::nothing(), World::layers(plan, base_y as int, base_y as int));
    }
    let mut tier: i32 = 0;
    while tier < BRACKET_TIERS
        invariant
            world.wf(),
            coord(cx as int),
            coord(cz as int),
            coord(base_y as int),
            extent(bx as int),
            extent(bz as int),
            0 <= tier <= BRACKET_TIERS,
            plan == brackets_plan(cx as int, cz as int, bx as int, bz as int, base_y as int),
            World::lays(w0, *world, World::layers(plan, base_y as int, base_y + tier)),
        decreases BRACKET_TIERS - tier,
    {
        let ex = bx + tier + 1;
        let ez = bz + tier + 1;
        let y = base_y + tier;
        let ghost base = *world;
        proof {
            World::lemma_lays_nothing(base);
            World::lemma_lays_congr(base, base, World::nothing(), World::rows(plan, y as int, cx as int, cz as int, -ez as int, -ex as int));
        }
        let mut dz = -ez;
        while dz <= ez
            invariant
                world.wf(),
                coord(cx as int),
                coord(cz as int),
                coord(base_y as int),
                extent(bx as int),
                extent(bz as int),
                0 <= tier < BRACKET_TIERS,
                ex == bx + tier + 1,
                ez == bz + tier + 1,
                y == base_y + tier,
                -ez <= dz <= ez + 1,
                plan == brackets_plan(cx as int, cz as int, bx as int, bz as int, base_y as int),
                World::lays(base, *world, World::rows(plan, y as int, cx as int, cz as int, dz as int, -ex as int)),
            decreases ez + 1 - dz,
        {
            let mut dx = -ex;
            while dx <= ex
                invariant
                    world.wf(),
                    coord(cx as int),
                    coord(cz as int),
                    coord(base_y as int),
                    extent(bx as int),
                    extent(bz as int),
                    0 <= tier < BRACKET_TIERS,
                    ex == bx + tier + 1,
                    ez == bz + tier + 1,
                    y == base_y + tier,
                    -ez <= dz <= ez,
                    -ex <= dx <= ex + 1,
                    plan == brackets_plan(cx as int, cz as int, bx as int, bz as int, base_y as int),
                    World::lays(base, *world, World::rows(plan, y as int, cx as int, cz as int, dz as int, dx as int)),
                decreases ex + 1 - dx,
            {
                let on_x_run = abs(dz) == ez;
                let on_z_run = abs(dx) == ex;
                if !on_x_run && !on_z_run {
                    // The middle is the hall's ceiling, not brackets.
                    proof {
                        World::lemma_row_skip(base, *world, plan, y as int, cx as int, cz as int, dz as int, dx as int);
                    }
                    dx = dx + 1;
                    continue;
                }
                // Measure the rhythm along whichever run this cell belongs to.
                let along = if on_x_run {
                    dx
                } else {
                    dz
                };
                let bracket = (on_x_run && on_z_run) || rem_euclid(along, BRACKET_SPACING) == 0;
                let block = if bracket {
                    Block::Dancheong
                } else {
                    Block::Wood
                };
                let ghost prev = *world;
                world.set(cx + dx, y, cz + dz, block);
                proof {
                    World::lemma_row_set(base, prev, *world, plan, y as int, cx as int, cz as int, dz as int, dx as int, block);
                }
                dx = dx + 1;
            }
            proof {
                World::lemma_row_move(base, *world, plan, y as int, cx as int, cz as int, dz as int, dx as int, dz + 1, -ex as int);
            }
            dz = dz + 1;
        }
        proof {
            World::lemma_layer_done(w0, base, *world, plan, base_y as int, y as int, cx as int, cz as int, dz as int, -ex as int);
        }
        tier = tier + 1;
    }
    proof {
        assert forall|x: int, y: int, z: int| #[trigger] World::layers(plan, base_y as int, base_y + tier)(x, y, z) == plan(x, y, z) by {
        }
        World::lemma_lays_congr(w0, *world, World::layers(plan, base_y as int, base_y + tier), plan);
    }
    base_y + BRACKET_TIERS
}

/// What a 담장 column laid from footing `gy` holds at height `y`: a granite
/// footing, the plaster body (its lowest course replaced by `accent` where one
/// is given), and the tiled coping.
pub open spec fn wall_course(gy: int, y: int, accent: Option<Block>) -> Option<Block> {
    if y == gy + 1 {
        Some(Block::Granite)
    } else if y == gy + 2 {
        Some(if accent is Some { accent->0 } else { Block::Plaster })
    } else if gy + 3 <= y < gy + WALL_H {
        Some(Block::Plaster)
    } else if y == gy + WALL_H {
        Some(Block::RoofTile)
    } else {
        None
    }
}

/// Lay one course-by-course 담장 cell: granite footing, plaster body, tiled
/// coping. `accent` replaces the lowest body course, which is where 자경전's
/// 꽃담 carries its pattern.
pub fn wall_column(world: &mut World, x: i32, gy: i32, z: i32, accent: Option<Block>)
    requires
        old(world).wf(),
        coord(x as int),
        coord(gy as int),
        coord(z as int),
        accent matches Some(b) ==> is_built(b),
    ensures
        final(world).wf(),
        World::lays(
            *old(world),
            *final(world),
            |a: int, b: int, c: int| if a == x && c == z { wall_course(gy as int, b, accent) } else { None },
        ),
        builds_within(*old(world), *final(world), x as int, x as int, gy + 1, gy + WALL_H, z as int, z as int),
{
    proof { reveal(World::lays); }
    let ghost w0 = *world;
    let ghost plan = |a: int, b: int, c: int| if a == x && c == z { wall_course(gy as int, b, accent) } else { None };
    proof {
        World::lemma_lays_nothing(w0);
        World::lemma_lays_congr(w0, w0, World::nothing(), World::layers(plan, gy + 1, gy + 1));
    }
    let mut h: i32 = 1;
    while h <= WALL_H
        invariant
            world.wf(),
            coord(x as int),
            coord(gy as int),
            coord(z as int),
            1 <= h <= WALL_H + 1,
            plan == (|a: int, b: int, c: int| if a == x && c == z { wall_course(gy as int, b, accent) } else { None }),
            World::lays(w0, *world, World::layers(plan, gy + 1, gy + h)),
        decreases WALL_H + 1 - h,
    {
        let block = if h == 1 {
            Block::Granite
        } else if h == 2 {
            match accent {
                Some(b) => b,
                None => Block::Plaster,
            }
        } else if h < WALL_H {
            Block::Plaster
        } else {
            Block::RoofTile
        };
        let ghost prev = *world;
        world.set(x, gy + h, z, block);
        proof {
            let cell = World::single(x as int, gy + h, z as int, block);
            World::lemma_lays_single(prev, *world, x as int, gy + h, z as int, block);
            World::lemma_lays_compose(w0, prev, *world, World::layers(plan, gy + 1, gy + h), cell);
            assert forall|a: int, b: int, c: int|
                #[trigger] World::overlay(World::layers(plan, gy + 1, gy + h), cell)(a, b, c)
                    == World::layers(plan, gy + 1, gy + h + 1)(a, b, c) by {
            }
            World::lemma_lays_congr(w0, *world, World::overlay(World::layers(plan, gy + 1, gy + h), cell), World::layers(plan, gy + 1, gy + h + 1));
        }
        h = h + 1;
    }
    proof {
        assert forall|a: int, b: int, c: int| #[trigger] World::layers(plan, gy + 1, gy + h)(a, b, c) == plan(a, b, c) by {
        }
        World::lemma_lays_congr(w0, *world, World::layers(plan, gy + 1, gy + h), plan);
    }
}

} // verus!
