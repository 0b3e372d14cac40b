//! The Joseon map: 경복궁 standing on a bare level plain.
//!
//! The palace runs south to north along one axis, as the real one does — the
//! ceremonial buildings at the south end, the ones the court lived in behind:
//!
//! ```text
//!                        신무문   (north gate)
//!                        향원정   (hexagonal pavilion, on its island)   건청궁
//!                        아미산   (terraced garden)
//!              함원전   교태전   흠경각 ┐ 무량각 — the king's and
//!    영추문   수정전     강녕전          ┘ queen's halls have no ridge  자경전
//!                                                                  건춘문
//!                        사정전   (the council hall)               동궁
//!                        근정전   (throne hall, on its 월대)
//!         회랑 ┌──────────────┐ 회랑     경회루 ── on its pond
//!              │  품계석 ∙ ∙  │
//!              └──── 근정문 ──┘
//!                      │  삼도 (the raised processional way)
//!                    영제교   (over 금천, the stream across the approach)
//!                    흥례문
//!                    광화문   (main gate, in the south wall)
//! ```
//!
//! Every builder here states exactly what it lays: a plan naming the block
//! each cell it touches ends up holding, laid over the world as it was
//! (`World::lays`), a composite builder's plan being its parts' plans laid
//! one over the other in the order it builds them. Each also states the box
//! it keeps to, and that it writes nothing but built blocks (never a plant,
//! never leaves).

use vstd::prelude::*;
use crate::block::Block;
use crate::world::{World, FLAT_LEVEL, WORLD_X, WORLD_Y, WORLD_Z, flat_block, in_world};
use self::compound::{
    compound_wall, compound_wall_area, donggung_area, geoncheongung_area, hamhwadang_area,
    jagyeongjeon_area, place_donggung, place_geoncheongung, place_hamhwadang, place_jagyeongjeon,
    place_sojubang, place_taewonjeon, sojubang_area, taewonjeon_area,
};
use self::gate::{
    build_wall, corner_tower_area, gate_area, place_corner_tower, place_gate, place_timber_gate,
    place_wall_gate, timber_gate_area, wall_area, wall_gate_area,
};
use self::hall::{
    crowned, inner_quarters_area, place_inner_quarters, place_residence, place_throne_hall,
    residence_area, residence_crown, throne_hall_area,
};
use self::path::{
    cloister_area, courtyard_area, lay_cloister, lay_courtyard, lay_paths, paths_area,
    place_rank_stones, rank_stones_area,
};
use self::sign::{place_signposts, signposts_area};
use self::water::{
    geumcheon_area, gyeonghoeru_area, hyangwonjeong_area, lay_geumcheon, place_gyeonghoeru,
    place_hyangwonjeong,
};

pub mod compact;
pub mod compound;
pub mod gate;
pub mod hall;
pub mod path;
pub mod sign;
pub mod style;
pub mod water;

verus! {

/// The level everything is built on. Shared with the blank map so the two flat
/// worlds sit at the same height.
pub const GROUND: i32 = FLAT_LEVEL;

// --- the layout, as offsets from the precinct centre ------------------------
// Building sizes are scaled by two (`style::s`) and the distances between them
// by seven halves (`style::d`); the constants below are written out with the
// same arithmetic.

/// Half-width of the walled palace precinct.
pub const PALACE_X: i32 = 168;
/// How far the precinct runs south of its centre.
pub const PALACE_SOUTH: i32 = 105;
/// How far the precinct runs north of its centre.
pub const PALACE_NORTH: i32 = 350;

/// Half-extents of the 근정전 court, the cloistered inner yard.
pub const COURT_X: i32 = 87;
pub const COURT_Z: i32 = 52;
/// How far north of the precinct centre that court sits.
pub const COURT_OFFSET_Z: i32 = -(45);

/// The halls behind the throne hall, on the axis.
pub const SAJEONG_Z: i32 = -(133);
pub const GANGNYEONG_Z: i32 = -(182);
pub const GYOTAE_Z: i32 = -(231);
/// 향원정, in the rear garden.
pub const HYANGWON_Z: i32 = -(294);

/// 함원전 and 흠경각, either side of 교태전.
pub const HAMWON_X: i32 = -(49);
pub const HEUMGYEONG_X: i32 = 49;
pub const FLANKING_HALL_Z: i32 = -(227);

/// 집옥재, east of 건청궁.
pub const JIPOK_X: i32 = 147;
pub const JIPOK_Z: i32 = -(283);

/// 건청궁, in the quarter north-east of the pond, and its yard.
pub const GEONCHEONG_X: i32 = 94;
pub const GEONCHEONG_Z: i32 = -(283);
pub const GEONCHEONG_RX: i32 = 31;
pub const GEONCHEONG_RZ: i32 = 56;

/// 장안당 in front of 곤녕합, as offsets from 건청궁's centre.
pub const JANGAN_Z: i32 = -(28);
pub const GONNYEONG_Z: i32 = 28;

/// 태원전, in the north-west quarter, and its yard.
pub const TAEWON_X: i32 = -(119);
pub const TAEWON_Z: i32 = -(266);
pub const TAEWON_RX: i32 = 38;
pub const TAEWON_RZ: i32 = 49;
/// The shrine hall stands deep in its yard, at the back of the court.
pub const TAEWON_HALL_Z: i32 = -(21);

/// 함화당 and 집경당, in the west-central ground, and their yard.
pub const HAMHWA_X: i32 = -(119);
pub const HAMHWA_Z: i32 = -(185);
pub const HAMHWA_RX: i32 = 38;
pub const HAMHWA_RZ: i32 = 24;
/// How far each of the pair stands from the middle of their yard.
pub const HAMHWA_SPREAD: i32 = 8;

/// The side compounds, in the outermost band.
pub const JAGYEONG_X: i32 = 136;
pub const JAGYEONG_Z: i32 = -(182);
pub const SUJEONG_X: i32 = -(136);
pub const SUJEONG_Z: i32 = -(126);
pub const DONGGUNG_X: i32 = 136;
pub const DONGGUNG_RX: i32 = 24;
pub const DONGGUNG_RZ: i32 = 52;
pub const DONGGUNG_Z: i32 = -(63);
/// 자선당 in front of 비현각, as offsets from 동궁's centre.
pub const JASEON_Z: i32 = -(28);
pub const BIHYEON_Z: i32 = 28;

/// Half-extents of the throne hall's two 월대 terraces.
pub const WOLDAE_OUTER_X: i32 = 15 * 2;
pub const WOLDAE_OUTER_Z: i32 = 12 * 2;
pub const WOLDAE_INNER_X: i32 = 12 * 2;
pub const WOLDAE_INNER_Z: i32 = 9 * 2;

/// Where 영추문 and 건춘문 stand in the flank walls.
pub const YEONGCHU_Z: i32 = -(84);
pub const GEONCHUN_Z: i32 = -(133);

/// 경회루, on its pond in the strip west of the court.
pub const GYEONGHOE_X: i32 = -(126);
pub const GYEONGHOE_Z: i32 = -(28);

/// 소주방, the kitchens, in the strip east of 강녕전.
pub const SOJU_X: i32 = 94;
pub const SOJU_Z: i32 = -(182);

/// 흥례문, midway up the approach, and 금천 with 영제교 over it just inside.
pub const HEUNGNYE_Z: i32 = 70;
pub const GEUMCHEON_Z: i32 = 42;

// --- what the builders may do ------------------------------------------------

/// A block the palace lays: masonry, timber, tile, paper, earth, water or air —
/// never a plant and never leaves.
pub open spec fn is_built(b: Block) -> bool {
    !b.is_plant() && !(b is Leaves)
}

/// Whether `(x, y, z)` lies in the box `[x0, x1] × [y0, y1] × [z0, z1]`.
pub open spec fn in_box(x: int, y: int, z: int, x0: int, x1: int, y0: int, y1: int, z0: int, z1: int) -> bool {
    x0 <= x <= x1 && y0 <= y <= y1 && z0 <= z <= z1
}

/// `after` differs from `before` only inside the box, and every cell that
/// changed now holds a built block.
pub open spec fn builds_within(
    before: World,
    after: World,
    x0: int,
    x1: int,
    y0: int,
    y1: int,
    z0: int,
    z1: int,
) -> bool {
    forall|x: int, y: int, z: int|
        #![trigger after.block_at(x, y, z)]
        #![trigger after.level_at(x, y, z)]
        (after.block_at(x, y, z) != before.block_at(x, y, z) || after.level_at(x, y, z)
            != before.level_at(x, y, z)) ==> in_box(x, y, z, x0, x1, y0, y1, z0, z1) && is_built(
            after.block_at(x, y, z),
        )
}

/// A coordinate far enough from the limits of `i32` that a building's offsets
/// around it (its half-extents, eaves and heights, each at most
/// [`extent`]'s bound) cannot overflow.
pub open spec fn coord(v: int) -> bool {
    i32::MIN + 10_000 <= v <= i32::MAX - 10_000
}

/// A coordinate a building made of smaller pieces may stand at: its pieces,
/// offset from it by less than a thousand, still satisfy [`coord`].
pub open spec fn site(v: int) -> bool {
    i32::MIN + 11_000 <= v <= i32::MAX - 11_000
}

/// A coordinate a compound of buildings may stand at: its buildings, offset
/// from it by less than a thousand, still satisfy [`site`].
pub open spec fn plot(v: int) -> bool {
    i32::MIN + 12_000 <= v <= i32::MAX - 12_000
}

/// A building half-extent or height.
pub open spec fn extent(v: int) -> bool {
    0 <= v <= 1000
}

/// Building within a box, then within another, builds within any box holding
/// both.
pub proof fn lemma_builds_trans(
    a: World,
    b: World,
    c: World,
    p: (int, int, int, int, int, int),
    q: (int, int, int, int, int, int),
    r: (int, int, int, int, int, int),
)
    requires
        builds_within(a, b, p.0, p.1, p.2, p.3, p.4, p.5),
        builds_within(b, c, q.0, q.1, q.2, q.3, q.4, q.5),
        r.0 <= p.0 && p.1 <= r.1 && r.2 <= p.2 && p.3 <= r.3 && r.4 <= p.4 && p.5 <= r.5,
        r.0 <= q.0 && q.1 <= r.1 && r.2 <= q.2 && q.3 <= r.3 && r.4 <= q.4 && q.5 <= r.5,
    ensures
        builds_within(a, c, r.0, r.1, r.2, r.3, r.4, r.5),
{
    assert forall|x: int, y: int, z: int|
        (c.block_at(x, y, z) != a.block_at(x, y, z) || c.level_at(x, y, z) != a.level_at(x, y, z))
            implies in_box(x, y, z, r.0, r.1, r.2, r.3, r.4, r.5) && is_built(
            #[trigger] c.block_at(x, y, z),
        ) by {
        if c.block_at(x, y, z) != b.block_at(x, y, z) || c.level_at(x, y, z) != b.level_at(x, y, z) {
        } else {
            assert(b.block_at(x, y, z) != a.block_at(x, y, z) || b.level_at(x, y, z) != a.level_at(
                x,
                y,
                z,
            ));
        }
    }
}

/// A box `[x0, x1] × [y0, y1] × [z0, z1]`, as the tuple `(x0, x1, y0, y1, z0,
/// z1)`.
pub type Area = (int, int, int, int, int, int);

/// `inner` lies inside `outer`.
pub open spec fn area_within(inner: Area, outer: Area) -> bool {
    outer.0 <= inner.0 && inner.1 <= outer.1 && outer.2 <= inner.2 && inner.3 <= outer.3 && outer.4
        <= inner.4 && inner.5 <= outer.5
}

/// `builds_within` over a box given as an [`Area`].
pub open spec fn builds_in(before: World, after: World, a: Area) -> bool {
    builds_within(before, after, a.0, a.1, a.2, a.3, a.4, a.5)
}

/// A building confined to `sub`, put up as part of one confined to `area`
/// that contains it, keeps the whole within `area`.
pub proof fn lemma_extend(w0: World, w1: World, w2: World, area: Area, sub: Area)
    requires
        builds_in(w0, w1, area),
        builds_in(w1, w2, sub),
        area_within(sub, area),
    ensures
        builds_in(w0, w2, area),
{
    lemma_builds_trans(w0, w1, w2, area, sub, area);
}

/// Nothing built yet is within any box.
pub proof fn lemma_start(w0: World, area: Area)
    ensures
        builds_in(w0, w0, area),
{
}

/// `a` and `b` agree on the column through `(x, z)` above height `lo`.
pub open spec fn column_same_above(a: World, b: World, x: int, z: int, lo: int) -> bool {
    forall|y: int| y > lo ==> #[trigger] b.block_at(x, y, z) == a.block_at(x, y, z)
}

/// A building confined to a box leaves alone every column it misses, and
/// every column above its top.
pub proof fn lemma_column_untouched(a: World, b: World, area: Area, x: int, z: int, lo: int)
    requires
        builds_in(a, b, area),
        x < area.0 || x > area.1 || z < area.4 || z > area.5 || area.3 <= lo,
    ensures
        column_same_above(a, b, x, z, lo),
{
    assert forall|y: int| y > lo implies #[trigger] b.block_at(x, y, z) == a.block_at(x, y, z) by {
        if b.block_at(x, y, z) != a.block_at(x, y, z) {
            assert(in_box(x, y, z, area.0, area.1, area.2, area.3, area.4, area.5));
        }
    }
}

/// The columns through the centres of 사정전, 강녕전 and 교태전 agree in `a`
/// and `b` above their bracket bands.
pub open spec fn halls_same(a: World, b: World, cx: int, cz: int, gy: int) -> bool {
    &&& column_same_above(a, b, cx, cz + SAJEONG_Z, gy + 13)
    &&& column_same_above(a, b, cx, cz + GANGNYEONG_Z, gy + 13)
    &&& column_same_above(a, b, cx, cz + GYOTAE_Z, gy + 13)
}

/// Whether a box misses the column through `(x, z)` above `lo`.
pub open spec fn misses(area: Area, x: int, z: int, lo: int) -> bool {
    x < area.0 || x > area.1 || z < area.4 || z > area.5 || area.3 <= lo
}

/// A building confined to a box that misses those three columns keeps them
/// as they were.
pub proof fn lemma_halls_kept(s: World, a: World, b: World, area: Area, cx: int, cz: int, gy: int)
    requires
        halls_same(s, a, cx, cz, gy),
        builds_in(a, b, area),
        misses(area, cx, cz + SAJEONG_Z, gy + 13),
        misses(area, cx, cz + GANGNYEONG_Z, gy + 13),
        misses(area, cx, cz + GYOTAE_Z, gy + 13),
    ensures
        halls_same(s, b, cx, cz, gy),
{
    lemma_column_untouched(a, b, area, cx, cz + SAJEONG_Z, gy + 13);
    lemma_column_untouched(a, b, area, cx, cz + GANGNYEONG_Z, gy + 13);
    lemma_column_untouched(a, b, area, cx, cz + GYOTAE_Z, gy + 13);
    assert forall|y: int| y > gy + 13 implies #[trigger] b.block_at(cx, y, cz + SAJEONG_Z) == s.block_at(cx, y, cz + SAJEONG_Z) by {
        assert(b.block_at(cx, y, cz + SAJEONG_Z) == a.block_at(cx, y, cz + SAJEONG_Z));
    }
    assert forall|y: int| y > gy + 13 implies #[trigger] b.block_at(cx, y, cz + GANGNYEONG_Z) == s.block_at(cx, y, cz + GANGNYEONG_Z) by {
        assert(b.block_at(cx, y, cz + GANGNYEONG_Z) == a.block_at(cx, y, cz + GANGNYEONG_Z));
    }
    assert forall|y: int| y > gy + 13 implies #[trigger] b.block_at(cx, y, cz + GYOTAE_Z) == s.block_at(cx, y, cz + GYOTAE_Z) by {
        assert(b.block_at(cx, y, cz + GYOTAE_Z) == a.block_at(cx, y, cz + GYOTAE_Z));
    }
}

/// Whether `(x, z)` lies in the footprint of the box `area`.
pub open spec fn xz_in(area: Area, x: int, z: int) -> bool {
    area.0 <= x <= area.1 && area.4 <= z <= area.5
}

/// Whether `(x, z)` is on the precinct wall round the centre `(cx, cz)` clear
/// of its openings: on the ring the wall runs along, and outside the
/// footprints of 광화문 (which fills the wall's gap), the three lesser gates
/// and the corner tower.
pub open spec fn open_wall(cx: int, cz: int, gy: int, x: int, z: int) -> bool {
    &&& style::iabs(x - cx) <= PALACE_X && -PALACE_NORTH <= z - cz <= PALACE_SOUTH
    &&& (style::iabs(x - cx) == PALACE_X || z - cz == PALACE_SOUTH || z - cz == -PALACE_NORTH)
    &&& !xz_in(gate_area(cx, cz + PALACE_SOUTH, gy), x, z)
    &&& !xz_in(wall_gate_area(cx - PALACE_X, cz + YEONGCHU_Z, gy), x, z)
    &&& !xz_in(wall_gate_area(cx + PALACE_X, cz + GEONCHUN_Z, gy), x, z)
    &&& !xz_in(wall_gate_area(cx, cz - PALACE_NORTH, gy), x, z)
    &&& !xz_in(corner_tower_area(cx + PALACE_X, cz + PALACE_SOUTH, gy), x, z)
}

/// The open stretches of the precinct wall, from footing to coping, agree in
/// `s` and `w`.
pub open spec fn wall_kept(s: World, w: World, cx: int, cz: int, gy: int) -> bool {
    forall|x: int, y: int, z: int|
        open_wall(cx, cz, gy, x, z) && gy + 1 <= y <= gy + style::WALL_H ==> #[trigger] w.block_at(x, y, z) == s.block_at(x, y, z)
}

/// Whether a box leaves the open stretches of the precinct wall alone: it
/// lies below or above the wall, strictly inside the ring, or off the ring's
/// open stretches.
pub open spec fn spares_wall(area: Area, cx: int, cz: int, gy: int) -> bool {
    ||| area.3 < gy + 1
    ||| area.2 > gy + style::WALL_H
    ||| (cx - PALACE_X < area.0 && area.1 < cx + PALACE_X && cz - PALACE_NORTH < area.4 && area.5 < cz + PALACE_SOUTH)
    ||| forall|x: int, z: int| open_wall(cx, cz, gy, x, z) ==> !xz_in(area, x, z)
}

/// A building confined to a box that spares the wall keeps its open
/// stretches as they were.
pub proof fn lemma_wall_kept(s: World, a: World, b: World, area: Area, cx: int, cz: int, gy: int)
    requires
        wall_kept(s, a, cx, cz, gy),
        builds_in(a, b, area),
        spares_wall(area, cx, cz, gy),
    ensures
        wall_kept(s, b, cx, cz, gy),
{
    assert forall|x: int, y: int, z: int|
        open_wall(cx, cz, gy, x, z) && gy + 1 <= y <= gy + style::WALL_H implies #[trigger] b.block_at(x, y, z) == s.block_at(x, y, z) by {
        if b.block_at(x, y, z) != a.block_at(x, y, z) {
            assert(in_box(x, y, z, area.0, area.1, area.2, area.3, area.4, area.5));
            assert(xz_in(area, x, z));
        }
        assert(a.block_at(x, y, z) == s.block_at(x, y, z));
    }
}

/// The name boards, standing inside the ring, keep the wall's open stretches
/// as they were.
proof fn lemma_wall_kept_signs(s: World, a: World, b: World, gy: int)
    requires
        wall_kept(s, a, WORLD_X / 2, WORLD_Z / 2, gy),
        World::lays(a, b, sign::signposts_plan(gy, sign::sign_table().len())),
    ensures
        wall_kept(s, b, WORLD_X / 2, WORLD_Z / 2, gy),
{
    reveal(World::lays);
    assert forall|x: int, y: int, z: int|
        open_wall(WORLD_X / 2, WORLD_Z / 2, gy, x, z) && gy + 1 <= y <= gy + style::WALL_H implies #[trigger] b.block_at(x, y, z) == s.block_at(x, y, z) by {
        sign::lemma_boards_off_wall(gy, sign::sign_table().len(), x, y, z);
        assert(b.block_at(x, y, z) == a.block_at(x, y, z));
    }
}

/// The name boards, none of them on the axis, keep the columns through the
/// halls' centres as they were.
proof fn lemma_halls_kept_signs(s: World, a: World, b: World, gy: int)
    requires
        halls_same(s, a, WORLD_X / 2, WORLD_Z / 2, gy),
        World::lays(a, b, sign::signposts_plan(gy, sign::sign_table().len())),
    ensures
        halls_same(s, b, WORLD_X / 2, WORLD_Z / 2, gy),
{
    reveal(World::lays);
    let (cx, cz) = (WORLD_X / 2, WORLD_Z / 2);
    assert forall|y: int| y > gy + 13 implies #[trigger] b.block_at(cx as int, y, cz + SAJEONG_Z) == s.block_at(cx as int, y, cz + SAJEONG_Z) by {
        sign::lemma_boards_off_axis(gy, sign::sign_table().len(), y, cz + SAJEONG_Z);
        assert(b.block_at(cx as int, y, cz + SAJEONG_Z) == a.block_at(cx as int, y, cz + SAJEONG_Z));
    }
    assert forall|y: int| y > gy + 13 implies #[trigger] b.block_at(cx as int, y, cz + GANGNYEONG_Z) == s.block_at(cx as int, y, cz + GANGNYEONG_Z) by {
        sign::lemma_boards_off_axis(gy, sign::sign_table().len(), y, cz + GANGNYEONG_Z);
        assert(b.block_at(cx as int, y, cz + GANGNYEONG_Z) == a.block_at(cx as int, y, cz + GANGNYEONG_Z));
    }
    assert forall|y: int| y > gy + 13 implies #[trigger] b.block_at(cx as int, y, cz + GYOTAE_Z) == s.block_at(cx as int, y, cz + GYOTAE_Z) by {
        sign::lemma_boards_off_axis(gy, sign::sign_table().len(), y, cz + GYOTAE_Z);
        assert(b.block_at(cx as int, y, cz + GYOTAE_Z) == a.block_at(cx as int, y, cz + GYOTAE_Z));
    }
}

/// Once the wall is laid and its open stretches are kept, they stand as its
/// courses: granite footing, plaster body, tiled coping.
proof fn lemma_wall_stands(before: World, sw: World, last: World, gy: int)
    requires
        World::lays(before, sw, gate::wall_plan(WORLD_X / 2, WORLD_Z / 2, gy)),
        wall_kept(sw, last, WORLD_X / 2, WORLD_Z / 2, gy),
    ensures
        forall|x: int, y: int, z: int|
            in_world(x, y, z) && open_wall(WORLD_X / 2, WORLD_Z / 2, gy, x, z) && gy + 1 <= y <= gy + style::WALL_H ==> #[trigger] last.block_at(x, y, z)
                == style::wall_course(gy, y, None)->0,
{
    reveal(World::lays);
    assert forall|x: int, y: int, z: int|
        in_world(x, y, z) && open_wall(WORLD_X / 2, WORLD_Z / 2, gy, x, z) && gy + 1 <= y <= gy + style::WALL_H implies #[trigger] last.block_at(x, y, z)
            == style::wall_course(gy, y, None)->0 by {
        assert(last.block_at(x, y, z) == sw.block_at(x, y, z));
        assert(gate::wall_plan(WORLD_X / 2, WORLD_Z / 2, gy)(x, y, z) == style::wall_course(gy, y, None));
    }
}

/// A crown and the clear column over it survive everything built around them
/// that leaves the column alone, before and after.
pub proof fn lemma_crown_kept(
    s0: World,
    before: World,
    after: World,
    last: World,
    x: int,
    z: int,
    crown: int,
    lo: int,
    clear_top: int,
    top: Block,
)
    requires
        column_same_above(s0, before, x, z, lo),
        crowned(before, after, x, z, crown, clear_top, top),
        column_same_above(after, last, x, z, lo),
        crown > lo,
    ensures
        crowned(s0, last, x, z, crown, clear_top, top),
{
    assert(last.block_at(x, crown, z) == after.block_at(x, crown, z));
    assert forall|y: int| y > crown implies #[trigger] last.block_at(x, y, z) == (if y <= clear_top {
        Block::Air
    } else {
        s0.block_at(x, y, z)
    }) by {
        assert(last.block_at(x, y, z) == after.block_at(x, y, z));
        assert(before.block_at(x, y, z) == s0.block_at(x, y, z));
    }
}

/// Anything agrees with itself on every column.
pub proof fn lemma_halls_same_refl(a: World, cx: int, cz: int, gy: int)
    ensures
        halls_same(a, a, cx, cz, gy),
{
}

/// Lay one block of a building confined to `area`: the world changes at that
/// cell alone, and the building stays within its box.
pub(crate) fn lay(
    world: &mut World,
    x: i32,
    y: i32,
    z: i32,
    b: Block,
    Ghost(w0): Ghost<World>,
    Ghost(area): Ghost<Area>,
)
    requires
        old(world).wf(),
        is_built(b),
        in_box(x as int, y as int, z as int, area.0, area.1, area.2, area.3, area.4, area.5),
        builds_in(w0, *old(world), area),
    ensures
        final(world).wf(),
        builds_in(w0, *final(world), area),
        World::replaced(*old(world), *final(world), x as int, y as int, z as int, b, crate::world::placed_level(b)),
{
    world.set(x, y, z, b);
    proof {
        let w1 = *old(world);
        let w2 = *world;
        assert forall|a: int, c: int, e: int|
            (#[trigger] w2.block_at(a, c, e) != w0.block_at(a, c, e) || w2.level_at(a, c, e) != w0.level_at(a, c, e))
                implies in_box(a, c, e, area.0, area.1, area.2, area.3, area.4, area.5) && is_built(w2.block_at(a, c, e)) by {
            if a == x && c == y && e == z {
                w1.lemma_cell(a, c, e);
            } else {
                assert(w2.block_at(a, c, e) == w1.block_at(a, c, e));
                assert(w1.block_at(a, c, e) != w0.block_at(a, c, e) || w1.level_at(a, c, e) != w0.level_at(a, c, e));
            }
        }
    }
}

/// The cells of the column through `(x, z)` from height `y0` up to `y1`, all
/// of them `b`.
pub open spec fn column_range(x: int, z: int, y0: int, y1: int, b: Block) -> spec_fn(int, int, int) -> Option<Block> {
    |a: int, c: int, e: int| if a == x && e == z && y0 <= c <= y1 { Some(b) } else { None }
}

/// Fill the column through `(x, z)` from `y0` up to `y1` with `b`, bottom
/// up; nothing when `y1 < y0`.
pub fn fill_column(world: &mut World, x: i32, z: i32, y0: i32, y1: i32, b: Block)
    requires
        old(world).wf(),
        y1 < i32::MAX,
    ensures
        final(world).wf(),
        World::lays(*old(world), *final(world), column_range(x as int, z as int, y0 as int, y1 as int, b)),
{
    let ghost w0 = *world;
    let ghost plan = column_range(x as int, z as int, y0 as int, y1 as int, b);
    proof {
        World::lemma_lays_nothing(w0);
        World::lemma_lays_congr(w0, w0, World::nothing(), World::layers(plan, y0 as int, y0 as int));
    }
    let mut y = y0;
    while y <= y1
        invariant
            world.wf(),
            y1 < i32::MAX,
            y0 <= y && (y <= y1 + 1 || y == y0),
            plan == column_range(x as int, z as int, y0 as int, y1 as int, b),
            World::lays(w0, *world, World::layers(plan, y0 as int, y as int)),
        decreases y1 + 1 - y,
    {
        let ghost prev = *world;
        world.set(x, y, z, b);
        proof {
            let cell = World::single(x as int, y as int, z as int, b);
            World::lemma_lays_single(prev, *world, x as int, y as int, z as int, b);
            World::lemma_lays_compose(w0, prev, *world, World::layers(plan, y0 as int, y as int), cell);
            assert forall|a: int, c: int, e: int|
                #[trigger] World::overlay(World::layers(plan, y0 as int, y as int), cell)(a, c, e)
                    == World::layers(plan, y0 as int, y + 1)(a, c, e) by {
            }
            World::lemma_lays_congr(w0, *world, World::overlay(World::layers(plan, y0 as int, y as int), cell), World::layers(plan, y0 as int, y + 1));
        }
        y = y + 1;
    }
    proof {
        assert forall|a: int, c: int, e: int| #[trigger] World::layers(plan, y0 as int, y as int)(a, c, e) == plan(a, c, e) by {
        }
        World::lemma_lays_congr(w0, *world, World::layers(plan, y0 as int, y as int), plan);
    }
}

/// Every cell `plan` names in the world lies in the box `area` and is a
/// built block.
pub open spec fn plan_within(plan: spec_fn(int, int, int) -> Option<Block>, area: Area) -> bool {
    forall|x: int, y: int, z: int|
        #![trigger plan(x, y, z)]
        crate::world::in_world(x, y, z) && plan(x, y, z) is Some ==> in_box(x, y, z, area.0, area.1, area.2, area.3, area.4, area.5)
            && is_built(plan(x, y, z)->0)
}

/// Two plans within a box lay, one over the other, within it.
pub proof fn lemma_overlay_within(p: spec_fn(int, int, int) -> Option<Block>, q: spec_fn(int, int, int) -> Option<Block>, area: Area)
    requires
        plan_within(p, area),
        plan_within(q, area),
    ensures
        plan_within(World::overlay(p, q), area),
{
    assert forall|x: int, y: int, z: int|
        crate::world::in_world(x, y, z) && #[trigger] World::overlay(p, q)(x, y, z) is Some implies in_box(
            x,
            y,
            z,
            area.0,
            area.1,
            area.2,
            area.3,
            area.4,
            area.5,
        ) && is_built(World::overlay(p, q)(x, y, z)->0) by {
        assert(p(x, y, z) == p(x, y, z));
        assert(q(x, y, z) == q(x, y, z));
    }
}

/// Laying a plan that names only built blocks, and only inside a box, builds
/// within that box.
pub proof fn lemma_lays_builds(a: World, b: World, plan: spec_fn(int, int, int) -> Option<Block>, area: Area)
    requires
        World::lays(a, b, plan),
        plan_within(plan, area),
    ensures
        builds_in(a, b, area),
{
    reveal(World::lays);
    assert forall|x: int, y: int, z: int|
        (#[trigger] b.block_at(x, y, z) != a.block_at(x, y, z) || b.level_at(x, y, z) != a.level_at(x, y, z))
            implies in_box(x, y, z, area.0, area.1, area.2, area.3, area.4, area.5) && is_built(b.block_at(x, y, z)) by {
        assert(plan(x, y, z) == plan(x, y, z));
    }
}

/// The absolute value of `v`.
pub fn abs(v: i32) -> (r: i32)
    requires
        v > i32::MIN,
    ensures
        r == (if v < 0 { -v } else { v as int }),
{
    if v < 0 {
        -v
    } else {
        v
    }
}

/// The Euclidean remainder of `v` by `m`: always in `0..m`, and what `%` means
/// in contracts.
pub fn rem_euclid(v: i32, m: i32) -> (r: i32)
    requires
        0 < m <= 64,
        -1_000_000 <= v <= 1_000_000,
    ensures
        r == v % m,
        0 <= r < m,
{
    let shifted: i32 = v + m * 1_000_000;
    proof {
        vstd::arithmetic::div_mod::lemma_mod_multiples_vanish(1_000_000, v as int, m as int);
        assert(shifted == m * 1_000_000 + v);
    }
    shifted % m
}

/// Where the palace stands in the world: at the centre of the map.
pub fn palace_centre() -> (c: (i32, i32))
    ensures
        c.0 == WORLD_X / 2 && c.1 == WORLD_Z / 2,
{
    (WORLD_X / 2, WORLD_Z / 2)
}

/// The box the whole palace is built in, eaves, gates and ponds included.
pub open spec fn palace_area(cx: int, cz: int, gy: int) -> Area {
    (
        cx - PALACE_X - 10,
        cx + PALACE_X + 10,
        if gy - 5 < GROUND + 2 { gy - 5 } else { GROUND + 2 },
        if gy + 37 < GROUND + 2 { GROUND + 2 } else { gy + 37 },
        cz - PALACE_NORTH - 10,
        cz + PALACE_SOUTH + 10,
    )
}

/// Part `k` of the palace round the centre `(cx, cz)` on ground `gy`, in
/// the order `place_palace` builds them: the paved court and 삼도, the wall,
/// 광화문, 영추문, 건춘문, 신무문, 동십자각, 흥례문, 금천 and 영제교, the
/// ranked stones, 근정전, the cloister, 근정문, the inner quarters, 경회루,
/// 자경전, 수정전's wall and hall, 동궁, 향원정, 건청궁, 태원전, 함원전, 흠경각,
/// 함화당, 소주방, the paths and the name boards.
pub open spec fn palace_part(cx: int, cz: int, gy: int, k: int) -> spec_fn(int, int, int) -> Option<Block> {
    let court_z = cz + COURT_OFFSET_Z;
    if k == 0 {
        path::courtyard_plan(cx, cz, gy)
    } else if k == 1 {
        gate::wall_plan(cx, cz, gy)
    } else if k == 2 {
        gate::gate_plan(cx, cz + PALACE_SOUTH, gy)
    } else if k == 3 {
        gate::wall_gate_plan(cx - PALACE_X, cz + YEONGCHU_Z, gy, false)
    } else if k == 4 {
        gate::wall_gate_plan(cx + PALACE_X, cz + GEONCHUN_Z, gy, false)
    } else if k == 5 {
        gate::wall_gate_plan(cx, cz - PALACE_NORTH, gy, true)
    } else if k == 6 {
        gate::corner_tower_plan(cx + PALACE_X, cz + PALACE_SOUTH, gy)
    } else if k == 7 {
        gate::timber_gate_plan(cx, cz + HEUNGNYE_Z, gy, 16, 4)
    } else if k == 8 {
        World::overlay(water::channel_plan(cx, cz + GEUMCHEON_Z, gy), water::yeongje_plan(cx, cz + GEUMCHEON_Z, gy))
    } else if k == 9 {
        path::rank_stones_plan(cx, court_z, gy)
    } else if k == 10 {
        hall::throne_hall_plan(cx, court_z - 4, gy)
    } else if k == 11 {
        path::cloister_plan(cx, court_z, gy)
    } else if k == 12 {
        gate::timber_gate_plan(cx, court_z + COURT_Z, gy, 14, 4)
    } else if k == 13 {
        hall::inner_quarters_plan(cx, cz, gy)
    } else if k == 14 {
        water::gyeonghoeru_plan(cx + GYEONGHOE_X, cz + GYEONGHOE_Z, gy)
    } else if k == 15 {
        compound::jagyeongjeon_plan(cx + JAGYEONG_X, cz + JAGYEONG_Z, gy)
    } else if k == 16 {
        compound::compound_wall_plan(cx + SUJEONG_X, cz + SUJEONG_Z, gy, 14, 16, false)
    } else if k == 17 {
        hall::residence_plan(cx + SUJEONG_X, cz + SUJEONG_Z, gy, 10, 8, true)
    } else if k == 18 {
        compound::donggung_plan(cx + DONGGUNG_X, cz + DONGGUNG_Z, gy)
    } else if k == 19 {
        water::hyangwonjeong_plan(cx, cz + HYANGWON_Z, gy)
    } else if k == 20 {
        compound::geoncheongung_plan(cx + GEONCHEONG_X, cz + GEONCHEONG_Z, gy)
    } else if k == 21 {
        compound::taewonjeon_plan(cx + TAEWON_X, cz + TAEWON_Z, gy)
    } else if k == 22 {
        hall::residence_plan(cx + HAMWON_X, cz + FLANKING_HALL_Z, gy, 4, 4, true)
    } else if k == 23 {
        hall::residence_plan(cx + HEUMGYEONG_X, cz + FLANKING_HALL_Z, gy, 4, 4, true)
    } else if k == 24 {
        compound::hamhwadang_plan(cx + HAMHWA_X, cz + HAMHWA_Z, gy)
    } else if k == 25 {
        compound::sojubang_plan(cx + SOJU_X, cz + SOJU_Z, gy)
    } else if k == 26 {
        path::paths_plan(cx, cz, gy)
    } else {
        sign::signposts_plan(gy, sign::sign_table().len())
    }
}

/// What building the first `n` parts of the palace lays, each over the ones
/// before it.
pub open spec fn palace_upto(cx: int, cz: int, gy: int, n: nat) -> spec_fn(int, int, int) -> Option<Block>
    decreases n,
{
    if n == 0 {
        World::nothing()
    } else {
        World::overlay(palace_upto(cx, cz, gy, (n - 1) as nat), palace_part(cx, cz, gy, n - 1))
    }
}

/// What `place_palace` lays: all 28 parts of the palace, in order.
pub open spec fn palace_plan(gy: int) -> spec_fn(int, int, int) -> Option<Block> {
    palace_upto(WORLD_X / 2, WORLD_Z / 2, gy, 28)
}

/// Laying the next part of the palace over the parts before it.
proof fn lemma_palace_next(w0: World, a: World, b: World, cx: int, cz: int, gy: int, k: nat)
    requires
        World::lays(w0, a, palace_upto(cx, cz, gy, k)),
        World::lays(a, b, palace_part(cx, cz, gy, k as int)),
    ensures
        World::lays(w0, b, palace_upto(cx, cz, gy, k + 1)),
{
    World::lemma_lays_compose(w0, a, b, palace_upto(cx, cz, gy, k), palace_part(cx, cz, gy, k as int));
}

/// Build 경복궁 around the palace centre: the paved court and 삼도, the
/// precinct wall with 광화문 and the three lesser gates and the corner tower,
/// 흥례문 and 금천 on the approach, the cloistered court with its ranked stones,
/// 근정전 and 근정문, the residential halls behind, the compounds and ponds on
/// the flanks, the paths between them all, and the name boards last. The
/// boards stand at a fixed height, two over `GROUND`, whatever ground `gy`
/// the rest is built on.
#[verifier::spinoff_prover]
#[verifier::rlimit(100)]
pub fn place_palace(world: &mut World, gy: i32)
    requires
        old(world).wf(),
        plot(gy as int),
    ensures
        final(world).wf(),
        World::lays(*old(world), *final(world), palace_plan(gy as int)),
        builds_in(*old(world), *final(world), palace_area(WORLD_X / 2, WORLD_Z / 2, gy as int)),
        crowned(*old(world), *final(world), WORLD_X / 2, WORLD_Z / 2 + SAJEONG_Z, residence_crown(gy as int, 14, 8), gy + 24, Block::RoofRidge),
        crowned(*old(world), *final(world), WORLD_X / 2, WORLD_Z / 2 + GANGNYEONG_Z, residence_crown(gy as int, 16, 8), gy + 24, Block::RoofTile),
        crowned(*old(world), *final(world), WORLD_X / 2, WORLD_Z / 2 + GYOTAE_Z, residence_crown(gy as int, 14, 8), gy + 24, Block::RoofTile),
        forall|x: int, y: int, z: int|
            in_world(x, y, z) && open_wall(WORLD_X / 2, WORLD_Z / 2, gy as int, x, z) && gy + 1 <= y <= gy + style::WALL_H ==> #[trigger] final(world).block_at(x, y, z)
                == style::wall_course(gy as int, y, None)->0,
{
    let (cx, cz) = palace_centre();
    let ghost w0 = *world;
    let ghost area = palace_area(cx as int, cz as int, gy as int);
    proof {
        lemma_start(w0, area);
        lemma_halls_same_refl(w0, cx as int, cz as int, gy as int);
        World::lemma_lays_nothing(w0);
    }
    let ghost w1 = *world;
    lay_courtyard(world, cx, cz, gy);
    proof { lemma_palace_next(w0, w1, *world, cx as int, cz as int, gy as int, 0); }
    proof { lemma_extend(w0, w1, *world, area, courtyard_area(cx as int, cz as int, gy as int)); lemma_halls_kept(w0, w1, *world, courtyard_area(cx as int, cz as int, gy as int), cx as int, cz as int, gy as int); }
    let ghost w1 = *world;
    let ghost before_wall = *world;
    build_wall(world, cx, cz, gy);
    let ghost sw = *world;
    proof { lemma_palace_next(w0, w1, *world, cx as int, cz as int, gy as int, 1); }
    proof { lemma_extend(w0, w1, *world, area, wall_area(cx as int, cz as int, gy as int)); lemma_halls_kept(w0, w1, *world, wall_area(cx as int, cz as int, gy as int), cx as int, cz as int, gy as int); }
    let ghost w1 = *world;
    place_gate(world, cx, cz + PALACE_SOUTH, gy);
    proof { lemma_palace_next(w0, w1, *world, cx as int, cz as int, gy as int, 2); }
    proof { lemma_extend(w0, w1, *world, area, gate_area(cx as int, cz + PALACE_SOUTH, gy as int)); lemma_halls_kept(w0, w1, *world, gate_area(cx as int, cz + PALACE_SOUTH, gy as int), cx as int, cz as int, gy as int); lemma_wall_kept(sw, w1, *world, gate_area(cx as int, cz + PALACE_SOUTH, gy as int), cx as int, cz as int, gy as int); }
    // The three lesser gates, so the precinct is not a walled box with one
    // door: 영추문, 건춘문, 신무문.
    let ghost w1 = *world;
    place_wall_gate(world, cx - PALACE_X, cz + YEONGCHU_Z, gy, false);
    proof { lemma_palace_next(w0, w1, *world, cx as int, cz as int, gy as int, 3); }
    proof { lemma_extend(w0, w1, *world, area, wall_gate_area(cx - PALACE_X, cz + YEONGCHU_Z, gy as int)); lemma_halls_kept(w0, w1, *world, wall_gate_area(cx - PALACE_X, cz + YEONGCHU_Z, gy as int), cx as int, cz as int, gy as int); lemma_wall_kept(sw, w1, *world, wall_gate_area(cx - PALACE_X, cz + YEONGCHU_Z, gy as int), cx as int, cz as int, gy as int); }
    let ghost w1 = *world;
    place_wall_gate(world, cx + PALACE_X, cz + GEONCHUN_Z, gy, false);
    proof { lemma_palace_next(w0, w1, *world, cx as int, cz as int, gy as int, 4); }
    proof { lemma_extend(w0, w1, *world, area, wall_gate_area(cx + PALACE_X, cz + GEONCHUN_Z, gy as int)); lemma_halls_kept(w0, w1, *world, wall_gate_area(cx + PALACE_X, cz + GEONCHUN_Z, gy as int), cx as int, cz as int, gy as int); lemma_wall_kept(sw, w1, *world, wall_gate_area(cx + PALACE_X, cz + GEONCHUN_Z, gy as int), cx as int, cz as int, gy as int); }
    let ghost w1 = *world;
    place_wall_gate(world, cx, cz - PALACE_NORTH, gy, true);
    proof { lemma_palace_next(w0, w1, *world, cx as int, cz as int, gy as int, 5); }
    proof { lemma_extend(w0, w1, *world, area, wall_gate_area(cx as int, cz - PALACE_NORTH, gy as int)); lemma_halls_kept(w0, w1, *world, wall_gate_area(cx as int, cz - PALACE_NORTH, gy as int), cx as int, cz as int, gy as int); lemma_wall_kept(sw, w1, *world, wall_gate_area(cx as int, cz - PALACE_NORTH, gy as int), cx as int, cz as int, gy as int); }
    // 동십자각, on the corner the wall turns at.
    let ghost w1 = *world;
    place_corner_tower(world, cx + PALACE_X, cz + PALACE_SOUTH, gy);
    proof { lemma_palace_next(w0, w1, *world, cx as int, cz as int, gy as int, 6); }
    proof { lemma_extend(w0, w1, *world, area, corner_tower_area(cx + PALACE_X, cz + PALACE_SOUTH, gy as int)); lemma_halls_kept(w0, w1, *world, corner_tower_area(cx + PALACE_X, cz + PALACE_SOUTH, gy as int), cx as int, cz as int, gy as int); lemma_wall_kept(sw, w1, *world, corner_tower_area(cx + PALACE_X, cz + PALACE_SOUTH, gy as int), cx as int, cz as int, gy as int); }

    let court_z = cz + COURT_OFFSET_Z;
    // The outer approach: 흥례문 partway up it, then 금천 and 영제교.
    let ghost w1 = *world;
    place_timber_gate(world, cx, cz + HEUNGNYE_Z, gy, 16, 4);
    proof { lemma_palace_next(w0, w1, *world, cx as int, cz as int, gy as int, 7); }
    proof { lemma_extend(w0, w1, *world, area, timber_gate_area(cx as int, cz + HEUNGNYE_Z, gy as int, 16, 4)); lemma_halls_kept(w0, w1, *world, timber_gate_area(cx as int, cz + HEUNGNYE_Z, gy as int, 16, 4), cx as int, cz as int, gy as int); lemma_wall_kept(sw, w1, *world, timber_gate_area(cx as int, cz + HEUNGNYE_Z, gy as int, 16, 4), cx as int, cz as int, gy as int); }
    let ghost w1 = *world;
    lay_geumcheon(world, cx, cz + GEUMCHEON_Z, gy);
    proof { lemma_palace_next(w0, w1, *world, cx as int, cz as int, gy as int, 8); }
    proof { lemma_extend(w0, w1, *world, area, geumcheon_area(cx as int, cz + GEUMCHEON_Z, gy as int)); lemma_halls_kept(w0, w1, *world, geumcheon_area(cx as int, cz + GEUMCHEON_Z, gy as int), cx as int, cz as int, gy as int); lemma_wall_kept(sw, w1, *world, geumcheon_area(cx as int, cz + GEUMCHEON_Z, gy as int), cx as int, cz as int, gy as int); }

    // The inner court: the ranked stones, 근정전 at the head of it, 회랑 all
    // the way round, and 근정문 over the cloister's south run.
    let ghost w1 = *world;
    place_rank_stones(world, cx, court_z, gy);
    proof { lemma_palace_next(w0, w1, *world, cx as int, cz as int, gy as int, 9); }
    proof { lemma_extend(w0, w1, *world, area, rank_stones_area(cx as int, court_z as int, gy as int)); lemma_halls_kept(w0, w1, *world, rank_stones_area(cx as int, court_z as int, gy as int), cx as int, cz as int, gy as int); lemma_wall_kept(sw, w1, *world, rank_stones_area(cx as int, court_z as int, gy as int), cx as int, cz as int, gy as int); }
    let ghost w1 = *world;
    place_throne_hall(world, cx, court_z - 4, gy);
    proof { lemma_palace_next(w0, w1, *world, cx as int, cz as int, gy as int, 10); }
    proof { lemma_extend(w0, w1, *world, area, throne_hall_area(cx as int, court_z - 4, gy as int)); lemma_halls_kept(w0, w1, *world, throne_hall_area(cx as int, court_z - 4, gy as int), cx as int, cz as int, gy as int); lemma_wall_kept(sw, w1, *world, throne_hall_area(cx as int, court_z - 4, gy as int), cx as int, cz as int, gy as int); }
    let ghost w1 = *world;
    lay_cloister(world, cx, court_z, gy);
    proof { lemma_palace_next(w0, w1, *world, cx as int, cz as int, gy as int, 11); }
    proof { lemma_extend(w0, w1, *world, area, cloister_area(cx as int, court_z as int, gy as int)); lemma_halls_kept(w0, w1, *world, cloister_area(cx as int, court_z as int, gy as int), cx as int, cz as int, gy as int); lemma_wall_kept(sw, w1, *world, cloister_area(cx as int, court_z as int, gy as int), cx as int, cz as int, gy as int); }
    let ghost w1 = *world;
    place_timber_gate(world, cx, court_z + COURT_Z, gy, 14, 4);
    proof { lemma_palace_next(w0, w1, *world, cx as int, cz as int, gy as int, 12); }
    proof { lemma_extend(w0, w1, *world, area, timber_gate_area(cx as int, court_z + COURT_Z, gy as int, 14, 4)); lemma_halls_kept(w0, w1, *world, timber_gate_area(cx as int, court_z + COURT_Z, gy as int, 14, 4), cx as int, cz as int, gy as int); lemma_wall_kept(sw, w1, *world, timber_gate_area(cx as int, court_z + COURT_Z, gy as int, 14, 4), cx as int, cz as int, gy as int); }

    // 침전 — the halls the court lived in, running north behind the throne
    // hall.
    let ghost before_iq = *world;
    place_inner_quarters(world, cx, cz, gy);
    proof { lemma_palace_next(w0, before_iq, *world, cx as int, cz as int, gy as int, 13); }
    let ghost s1 = *world;
    proof {
        lemma_extend(w0, before_iq, s1, area, inner_quarters_area(cx as int, cz as int, gy as int));
        lemma_halls_same_refl(s1, cx as int, cz as int, gy as int);
        lemma_wall_kept(sw, before_iq, s1, inner_quarters_area(cx as int, cz as int, gy as int), cx as int, cz as int, gy as int);
    }

    // 경회루 on its pond west of the court, 자경전 in the strip to the east.
    let ghost w1 = *world;
    place_gyeonghoeru(world, cx + GYEONGHOE_X, cz + GYEONGHOE_Z, gy);
    proof { lemma_palace_next(w0, w1, *world, cx as int, cz as int, gy as int, 14); }
    proof { lemma_extend(w0, w1, *world, area, gyeonghoeru_area(cx + GYEONGHOE_X, cz + GYEONGHOE_Z, gy as int)); lemma_halls_kept(s1, w1, *world, gyeonghoeru_area(cx + GYEONGHOE_X, cz + GYEONGHOE_Z, gy as int), cx as int, cz as int, gy as int); lemma_wall_kept(sw, w1, *world, gyeonghoeru_area(cx + GYEONGHOE_X, cz + GYEONGHOE_Z, gy as int), cx as int, cz as int, gy as int); }
    let ghost w1 = *world;
    place_jagyeongjeon(world, cx + JAGYEONG_X, cz + JAGYEONG_Z, gy);
    proof { lemma_palace_next(w0, w1, *world, cx as int, cz as int, gy as int, 15); }
    proof { lemma_extend(w0, w1, *world, area, jagyeongjeon_area(cx + JAGYEONG_X, cz + JAGYEONG_Z, gy as int)); lemma_halls_kept(s1, w1, *world, jagyeongjeon_area(cx + JAGYEONG_X, cz + JAGYEONG_Z, gy as int), cx as int, cz as int, gy as int); lemma_wall_kept(sw, w1, *world, jagyeongjeon_area(cx + JAGYEONG_X, cz + JAGYEONG_Z, gy as int), cx as int, cz as int, gy as int); }
    // 수정전 and 동궁 fill the flanks either side of the inner yards.
    let ghost w1 = *world;
    compound_wall(world, cx + SUJEONG_X, cz + SUJEONG_Z, gy, 14, 16, false);
    proof { lemma_palace_next(w0, w1, *world, cx as int, cz as int, gy as int, 16); }
    proof { lemma_extend(w0, w1, *world, area, compound_wall_area(cx + SUJEONG_X, cz + SUJEONG_Z, gy as int, 14, 16)); lemma_halls_kept(s1, w1, *world, compound_wall_area(cx + SUJEONG_X, cz + SUJEONG_Z, gy as int, 14, 16), cx as int, cz as int, gy as int); lemma_wall_kept(sw, w1, *world, compound_wall_area(cx + SUJEONG_X, cz + SUJEONG_Z, gy as int, 14, 16), cx as int, cz as int, gy as int); }
    let ghost w1 = *world;
    place_residence(world, cx + SUJEONG_X, cz + SUJEONG_Z, gy, 10, 8, true);
    proof { lemma_palace_next(w0, w1, *world, cx as int, cz as int, gy as int, 17); }
    proof { lemma_extend(w0, w1, *world, area, residence_area(cx + SUJEONG_X, cz + SUJEONG_Z, gy as int, 10, 8)); lemma_halls_kept(s1, w1, *world, residence_area(cx + SUJEONG_X, cz + SUJEONG_Z, gy as int, 10, 8), cx as int, cz as int, gy as int); lemma_wall_kept(sw, w1, *world, residence_area(cx + SUJEONG_X, cz + SUJEONG_Z, gy as int, 10, 8), cx as int, cz as int, gy as int); }
    let ghost w1 = *world;
    place_donggung(world, cx + DONGGUNG_X, cz + DONGGUNG_Z, gy);
    proof { lemma_palace_next(w0, w1, *world, cx as int, cz as int, gy as int, 18); }
    proof { lemma_extend(w0, w1, *world, area, donggung_area(cx + DONGGUNG_X, cz + DONGGUNG_Z, gy as int)); lemma_halls_kept(s1, w1, *world, donggung_area(cx + DONGGUNG_X, cz + DONGGUNG_Z, gy as int), cx as int, cz as int, gy as int); lemma_wall_kept(sw, w1, *world, donggung_area(cx + DONGGUNG_X, cz + DONGGUNG_Z, gy as int), cx as int, cz as int, gy as int); }
    // 향원정 in the rear garden, 건청궁 in the corner beyond it.
    let ghost w1 = *world;
    place_hyangwonjeong(world, cx, cz + HYANGWON_Z, gy);
    proof { lemma_palace_next(w0, w1, *world, cx as int, cz as int, gy as int, 19); }
    proof { lemma_extend(w0, w1, *world, area, hyangwonjeong_area(cx as int, cz + HYANGWON_Z, gy as int)); lemma_halls_kept(s1, w1, *world, hyangwonjeong_area(cx as int, cz + HYANGWON_Z, gy as int), cx as int, cz as int, gy as int); lemma_wall_kept(sw, w1, *world, hyangwonjeong_area(cx as int, cz + HYANGWON_Z, gy as int), cx as int, cz as int, gy as int); }
    let ghost w1 = *world;
    place_geoncheongung(world, cx + GEONCHEONG_X, cz + GEONCHEONG_Z, gy);
    proof { lemma_palace_next(w0, w1, *world, cx as int, cz as int, gy as int, 20); }
    proof { lemma_extend(w0, w1, *world, area, geoncheongung_area(cx + GEONCHEONG_X, cz + GEONCHEONG_Z, gy as int)); lemma_halls_kept(s1, w1, *world, geoncheongung_area(cx + GEONCHEONG_X, cz + GEONCHEONG_Z, gy as int), cx as int, cz as int, gy as int); lemma_wall_kept(sw, w1, *world, geoncheongung_area(cx + GEONCHEONG_X, cz + GEONCHEONG_Z, gy as int), cx as int, cz as int, gy as int); }
    // 태원전, in the matching corner to the west.
    let ghost w1 = *world;
    place_taewonjeon(world, cx + TAEWON_X, cz + TAEWON_Z, gy);
    proof { lemma_palace_next(w0, w1, *world, cx as int, cz as int, gy as int, 21); }
    proof { lemma_extend(w0, w1, *world, area, taewonjeon_area(cx + TAEWON_X, cz + TAEWON_Z, gy as int)); lemma_halls_kept(s1, w1, *world, taewonjeon_area(cx + TAEWON_X, cz + TAEWON_Z, gy as int), cx as int, cz as int, gy as int); lemma_wall_kept(sw, w1, *world, taewonjeon_area(cx + TAEWON_X, cz + TAEWON_Z, gy as int), cx as int, cz as int, gy as int); }
    // 함원전 and 흠경각, either side of 교태전 in its own yard.
    let ghost w1 = *world;
    place_residence(world, cx + HAMWON_X, cz + FLANKING_HALL_Z, gy, 4, 4, true);
    proof { lemma_palace_next(w0, w1, *world, cx as int, cz as int, gy as int, 22); }
    proof { lemma_extend(w0, w1, *world, area, residence_area(cx + HAMWON_X, cz + FLANKING_HALL_Z, gy as int, 4, 4)); lemma_halls_kept(s1, w1, *world, residence_area(cx + HAMWON_X, cz + FLANKING_HALL_Z, gy as int, 4, 4), cx as int, cz as int, gy as int); lemma_wall_kept(sw, w1, *world, residence_area(cx + HAMWON_X, cz + FLANKING_HALL_Z, gy as int, 4, 4), cx as int, cz as int, gy as int); }
    let ghost w1 = *world;
    place_residence(world, cx + HEUMGYEONG_X, cz + FLANKING_HALL_Z, gy, 4, 4, true);
    proof { lemma_palace_next(w0, w1, *world, cx as int, cz as int, gy as int, 23); }
    proof { lemma_extend(w0, w1, *world, area, residence_area(cx + HEUMGYEONG_X, cz + FLANKING_HALL_Z, gy as int, 4, 4)); lemma_halls_kept(s1, w1, *world, residence_area(cx + HEUMGYEONG_X, cz + FLANKING_HALL_Z, gy as int, 4, 4), cx as int, cz as int, gy as int); lemma_wall_kept(sw, w1, *world, residence_area(cx + HEUMGYEONG_X, cz + FLANKING_HALL_Z, gy as int, 4, 4), cx as int, cz as int, gy as int); }
    // 함화당 and 집경당 in the west-central ground; 소주방 behind 강녕전.
    let ghost w1 = *world;
    place_hamhwadang(world, cx + HAMHWA_X, cz + HAMHWA_Z, gy);
    proof { lemma_palace_next(w0, w1, *world, cx as int, cz as int, gy as int, 24); }
    proof { lemma_extend(w0, w1, *world, area, hamhwadang_area(cx + HAMHWA_X, cz + HAMHWA_Z, gy as int)); lemma_halls_kept(s1, w1, *world, hamhwadang_area(cx + HAMHWA_X, cz + HAMHWA_Z, gy as int), cx as int, cz as int, gy as int); lemma_wall_kept(sw, w1, *world, hamhwadang_area(cx + HAMHWA_X, cz + HAMHWA_Z, gy as int), cx as int, cz as int, gy as int); }
    let ghost w1 = *world;
    place_sojubang(world, cx + SOJU_X, cz + SOJU_Z, gy);
    proof { lemma_palace_next(w0, w1, *world, cx as int, cz as int, gy as int, 25); }
    proof { lemma_extend(w0, w1, *world, area, sojubang_area(cx + SOJU_X, cz + SOJU_Z, gy as int)); lemma_halls_kept(s1, w1, *world, sojubang_area(cx + SOJU_X, cz + SOJU_Z, gy as int), cx as int, cz as int, gy as int); lemma_wall_kept(sw, w1, *world, sojubang_area(cx + SOJU_X, cz + SOJU_Z, gy as int), cx as int, cz as int, gy as int); }

    // Last, so every gateway it has to meet is already standing; paths are
    // laid at ground level only.
    let ghost w1 = *world;
    lay_paths(world, cx, cz, gy);
    proof { lemma_palace_next(w0, w1, *world, cx as int, cz as int, gy as int, 26); }
    proof { lemma_extend(w0, w1, *world, area, paths_area(cx as int, cz as int, gy as int)); lemma_halls_kept(s1, w1, *world, paths_area(cx as int, cz as int, gy as int), cx as int, cz as int, gy as int); lemma_wall_kept(sw, w1, *world, paths_area(cx as int, cz as int, gy as int), cx as int, cz as int, gy as int); }
    // The boards last of all, so nothing laid afterwards can bury one.
    let ghost w1 = *world;
    place_signposts(world, gy);
    proof { lemma_palace_next(w0, w1, *world, cx as int, cz as int, gy as int, 27); }
    proof { lemma_extend(w0, w1, *world, area, signposts_area(gy as int)); lemma_halls_kept_signs(s1, w1, *world, gy as int); lemma_wall_kept_signs(sw, w1, *world, gy as int); }
    proof {
        lemma_wall_stands(before_wall, sw, *world, gy as int);
        lemma_crown_kept(w0, before_iq, s1, *world, cx as int, cz + SAJEONG_Z, residence_crown(gy as int, 14, 8), gy + 13, gy + 24, Block::RoofRidge);
        lemma_crown_kept(w0, before_iq, s1, *world, cx as int, cz + GANGNYEONG_Z, residence_crown(gy as int, 16, 8), gy + 13, gy + 24, Block::RoofTile);
        lemma_crown_kept(w0, before_iq, s1, *world, cx as int, cz + GYOTAE_Z, residence_crown(gy as int, 14, 8), gy + 13, gy + 24, Block::RoofTile);
    }
}

/// The block the Joseon map holds at `(x, y, z)`: the palace wherever its
/// plan lays something, the level plain under it everywhere else, and air
/// above and outside the grid.
pub open spec fn joseon_cell(x: int, y: int, z: int) -> Block {
    if in_world(x, y, z) && palace_plan(GROUND as int)(x, y, z) is Some {
        palace_plan(GROUND as int)(x, y, z)->0
    } else if in_world(x, y, z) && y <= GROUND {
        flat_block(GROUND as int, y)
    } else {
        Block::Air
    }
}

/// Generate the Joseon map: a bare level plain at `GROUND` with 경복궁
/// standing on it and nothing else. The seed changes nothing.
///
/// Outside the palace's box the world is exactly the plain; the precinct
/// wall holds between its gates, its open stretches standing whole from
/// footing to coping; nothing anywhere is a plant or leaves; and the top course of the world is empty, so no roof
/// is clipped by the ceiling. Seen from above, 사정전, the council hall,
/// keeps its white ridge, while 강녕전 and 교태전, where the king and queen
/// slept, are 무량각: their crowns are plain tile, with nothing over them.
pub fn generate(seed: u32) -> (w: World)
    ensures
        w.wf(),
        forall|x: int, y: int, z: int| #[trigger] w.block_at(x, y, z) == joseon_cell(x, y, z),
        w.levels_placed(),
        forall|x: int, y: int, z: int|
            open_wall(WORLD_X / 2, WORLD_Z / 2, GROUND as int, x, z) && GROUND + 1 <= y <= GROUND + style::WALL_H ==> {
                &&& #[trigger] w.block_at(x, y, z) == style::wall_course(GROUND as int, y, None)->0
                &&& w.block_at(x, y, z).spec_blocks_movement()
            },
        forall|x: int, y: int, z: int|
            !in_box(x, y, z, WORLD_X / 2 - PALACE_X - 10, WORLD_X / 2 + PALACE_X + 10, GROUND - 5, GROUND + 37, WORLD_Z / 2 - PALACE_NORTH - 10, WORLD_Z / 2 + PALACE_SOUTH + 10)
                ==> #[trigger] w.block_at(x, y, z) == (if in_world(x, y, z) && y <= GROUND { flat_block(GROUND as int, y) } else { Block::Air }),
        forall|x: int, y: int, z: int| !(#[trigger] w.block_at(x, y, z)).is_plant() && !(w.block_at(x, y, z) is Leaves),
        forall|x: int, z: int| #[trigger] w.block_at(x, WORLD_Y - 1, z) == Block::Air,
        w.block_at(WORLD_X / 2, GROUND + 20, WORLD_Z / 2 + SAJEONG_Z) == Block::RoofRidge,
        w.block_at(WORLD_X / 2, GROUND + 20, WORLD_Z / 2 + GANGNYEONG_Z) == Block::RoofTile,
        w.block_at(WORLD_X / 2, GROUND + 20, WORLD_Z / 2 + GYOTAE_Z) == Block::RoofTile,
        forall|y: int|
            y > GROUND + 20 ==> (#[trigger] w.block_at(WORLD_X / 2, y, WORLD_Z / 2 + SAJEONG_Z)) is Air
                && w.block_at(WORLD_X / 2, y, WORLD_Z / 2 + GANGNYEONG_Z) is Air && w.block_at(WORLD_X / 2, y, WORLD_Z / 2 + GYOTAE_Z) is Air,
{
    let mut world = World::empty();
    let ghost bare = world;
    world.fill_flat(GROUND);
    let ghost plain = world;
    place_palace(&mut world, GROUND);
    proof {
        World::lemma_plain_levels(bare, plain, GROUND as int, |x: int, y: int, z: int| true);
        World::lemma_lays_levels(plain, world, palace_plan(GROUND as int));
        assert forall|x: int, y: int, z: int|
            #[trigger] world.block_at(x, y, z) == (if in_world(x, y, z) && palace_plan(GROUND as int)(x, y, z) is Some {
                palace_plan(GROUND as int)(x, y, z)->0
            } else if in_world(x, y, z) && y <= GROUND {
                flat_block(GROUND as int, y)
            } else {
                Block::Air
            }) by {
            reveal(World::lays);
            plain.lemma_cell(x, y, z);
            assert(plain.block_at(x, y, z) == (if in_world(x, y, z) && y <= GROUND { flat_block(GROUND as int, y) } else { Block::Air }));
        }
        assert(residence_crown(GROUND as int, 14, 8) == GROUND + 20);
        assert(residence_crown(GROUND as int, 16, 8) == GROUND + 20);
        assert forall|y: int|
            y > GROUND + 20 implies (#[trigger] world.block_at(WORLD_X / 2, y, WORLD_Z / 2 + SAJEONG_Z)) is Air
                && world.block_at(WORLD_X / 2, y, WORLD_Z / 2 + GANGNYEONG_Z) is Air && world.block_at(WORLD_X / 2, y, WORLD_Z / 2 + GYOTAE_Z) is Air by {
            assert(plain.block_at(WORLD_X / 2, y, WORLD_Z / 2 + SAJEONG_Z) == Block::Air);
            assert(plain.block_at(WORLD_X / 2, y, WORLD_Z / 2 + GANGNYEONG_Z) == Block::Air);
            assert(plain.block_at(WORLD_X / 2, y, WORLD_Z / 2 + GYOTAE_Z) == Block::Air);
        }
        assert forall|x: int, y: int, z: int|
            !(#[trigger] world.block_at(x, y, z)).is_plant() && !(world.block_at(x, y, z) is Leaves) by {
            if world.block_at(x, y, z) != plain.block_at(x, y, z) || world.level_at(x, y, z) != plain.level_at(x, y, z) {
            } else {
                assert(plain.block_at(x, y, z) == world.block_at(x, y, z));
            }
        }
        assert forall|x: int, z: int| #[trigger] world.block_at(x, WORLD_Y - 1, z) == Block::Air by {
            assert(world.block_at(x, WORLD_Y - 1, z) == plain.block_at(x, WORLD_Y - 1, z) || world.level_at(x, WORLD_Y - 1, z) != plain.level_at(x, WORLD_Y - 1, z));
        }
    }
    world
}

} // verus!
