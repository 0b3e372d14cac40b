//! 푯말 — the name boards standing in front of the buildings.
//!
//! The names live in a table keyed by the board's own position rather than
//! being attached to the buildings, which keeps them working across a save:
//! worlds are stored as blocks and nothing else, and since the layout is
//! fixed, the positions are enough to find the names again.

use vstd::prelude::*;
use crate::block::Block;
use crate::world::{World, WORLD_X, WORLD_Z};
use super::{
    lay, builds_in, lemma_start, Area, COURT_OFFSET_Z, COURT_Z, DONGGUNG_RZ, DONGGUNG_X,
    DONGGUNG_Z, FLANKING_HALL_Z, GANGNYEONG_Z, GEONCHEONG_RX, GEONCHEONG_X, GEONCHEONG_Z,
    GEONCHUN_Z, GEUMCHEON_Z, GROUND, GYEONGHOE_X, GYEONGHOE_Z, GYOTAE_Z, HAMHWA_RZ, HAMHWA_X,
    HAMHWA_Z, HAMWON_X, HEUMGYEONG_X, HEUNGNYE_Z, HYANGWON_Z, JAGYEONG_X, JAGYEONG_Z, JIPOK_X,
    JIPOK_Z, PALACE_NORTH, PALACE_SOUTH, PALACE_X, SAJEONG_Z, SOJU_X, SOJU_Z, SUJEONG_X,
    SUJEONG_Z, TAEWON_RZ, TAEWON_X, TAEWON_Z, YEONGCHU_Z,
};

verus! {

/// Where each board stands and what it says, as offsets from the precinct
/// centre: the axis south to north, the gates through the cross walls, the
/// halls, the compounds either side (each beside its own gateway), the water
/// and the wall.
pub open spec fn sign_table() -> Seq<(int, int, &'static str)> {
    seq![
        (8, PALACE_SOUTH - 10, "광화문"),
        (8, HEUNGNYE_Z + 8, "흥례문"),
        (8, GEUMCHEON_Z + 10, "영제교"),
        (8, COURT_OFFSET_Z + COURT_Z + 6, "근정문"),
        (22, COURT_OFFSET_Z - 4 + 24 + 2, "근정전"),
        (6, SAJEONG_Z + 24 - 10, "사정문"),
        (6, GANGNYEONG_Z + 16 - 2, "향오문"),
        (6, GYOTAE_Z + 16 - 2, "양의문"),
        (18, SAJEONG_Z + 8 + 6, "사정전"),
        (18, GANGNYEONG_Z + 8 + 6, "강녕전"),
        (18, GYOTAE_Z + 8 + 6, "교태전"),
        (8, GYOTAE_Z - 8 - 10, "아미산"),
        (8, HYANGWON_Z + 18 + 2, "향원정"),
        (HAMWON_X - 8, FLANKING_HALL_Z as int, "함원전"),
        (HEUMGYEONG_X + 8, FLANKING_HALL_Z as int, "흠경각"),
        (JAGYEONG_X + 8, JAGYEONG_Z + 22 + 2, "자경전"),
        (SUJEONG_X + 8, SUJEONG_Z + 16 + 2, "수정전"),
        (DONGGUNG_X + 8, DONGGUNG_Z + DONGGUNG_RZ + 2, "동궁"),
        (HAMHWA_X + 8, HAMHWA_Z + HAMHWA_RZ + 2, "함화당"),
        (TAEWON_X + 8, TAEWON_Z + TAEWON_RZ + 2, "태원전"),
        (GEONCHEONG_X - GEONCHEONG_RX - 2, GEONCHEONG_Z + 6, "건청궁"),
        (JIPOK_X as int, JIPOK_Z + 16, "집옥재"),
        (SOJU_X - 10, SOJU_Z as int, "소주방"),
        (GYEONGHOE_X + 14 + 2, GYEONGHOE_Z as int, "경회루"),
        (-PALACE_X + 6, YEONGCHU_Z + 8, "영추문"),
        (PALACE_X - 6, GEONCHUN_Z + 8, "건춘문"),
        (8, -PALACE_NORTH + 8, "신무문"),
        (PALACE_X - 10, PALACE_SOUTH - 12, "동십자각"),
    ]
}

/// The board table, in the order the boards are placed.
fn table() -> (v: Vec<(i32, i32, &'static str)>)
    ensures
        v@.len() == sign_table().len(),
        forall|i: int|
            0 <= i < v@.len() ==> (#[trigger] v@[i]).0 as int == sign_table()[i].0 && v@[i].1 as int
                == sign_table()[i].1 && v@[i].2 == sign_table()[i].2,
{
    let mut v: Vec<(i32, i32, &'static str)> = Vec::new();
    v.push((8, PALACE_SOUTH - 10, "광화문"));
    v.push((8, HEUNGNYE_Z + 8, "흥례문"));
    v.push((8, GEUMCHEON_Z + 10, "영제교"));
    v.push((8, COURT_OFFSET_Z + COURT_Z + 6, "근정문"));
    v.push((22, COURT_OFFSET_Z - 4 + 24 + 2, "근정전"));
    v.push((6, SAJEONG_Z + 24 - 10, "사정문"));
    v.push((6, GANGNYEONG_Z + 16 - 2, "향오문"));
    v.push((6, GYOTAE_Z + 16 - 2, "양의문"));
    v.push((18, SAJEONG_Z + 8 + 6, "사정전"));
    v.push((18, GANGNYEONG_Z + 8 + 6, "강녕전"));
    v.push((18, GYOTAE_Z + 8 + 6, "교태전"));
    v.push((8, GYOTAE_Z - 8 - 10, "아미산"));
    v.push((8, HYANGWON_Z + 18 + 2, "향원정"));
    v.push((HAMWON_X - 8, FLANKING_HALL_Z, "함원전"));
    v.push((HEUMGYEONG_X + 8, FLANKING_HALL_Z, "흠경각"));
    v.push((JAGYEONG_X + 8, JAGYEONG_Z + 22 + 2, "자경전"));
    v.push((SUJEONG_X + 8, SUJEONG_Z + 16 + 2, "수정전"));
    v.push((DONGGUNG_X + 8, DONGGUNG_Z + DONGGUNG_RZ + 2, "동궁"));
    v.push((HAMHWA_X + 8, HAMHWA_Z + HAMHWA_RZ + 2, "함화당"));
    v.push((TAEWON_X + 8, TAEWON_Z + TAEWON_RZ + 2, "태원전"));
    v.push((GEONCHEONG_X - GEONCHEONG_RX - 2, GEONCHEONG_Z + 6, "건청궁"));
    v.push((JIPOK_X, JIPOK_Z + 16, "집옥재"));
    v.push((SOJU_X - 10, SOJU_Z, "소주방"));
    v.push((GYEONGHOE_X + 14 + 2, GYEONGHOE_Z, "경회루"));
    v.push((-PALACE_X + 6, YEONGCHU_Z + 8, "영추문"));
    v.push((PALACE_X - 6, GEONCHUN_Z + 8, "건춘문"));
    v.push((8, -PALACE_NORTH + 8, "신무문"));
    v.push((PALACE_X - 10, PALACE_SOUTH - 12, "동십자각"));
    v
}

/// Every board in world coordinates — beside the precinct centre, two above
/// the ground — paired with its name.
pub fn signposts() -> (v: Vec<((i32, i32, i32), &'static str)>)
    ensures
        v@.len() == sign_table().len(),
        forall|i: int|
            0 <= i < v@.len() ==> #[trigger] v@[i] == ((
                (WORLD_X / 2 + sign_table()[i].0) as i32,
                (GROUND + 2) as i32,
                (WORLD_Z / 2 + sign_table()[i].1) as i32,
            ), sign_table()[i].2),
{
    let cx = WORLD_X / 2;
    let cz = WORLD_Z / 2;
    let t = table();
    let mut v: Vec<((i32, i32, i32), &'static str)> = Vec::new();
    let mut i: usize = 0;
    while i < t.len()
        invariant
            t@.len() == sign_table().len(),
            forall|k: int|
                0 <= k < t@.len() ==> (#[trigger] t@[k]).0 as int == sign_table()[k].0 && t@[k].1 as int
                    == sign_table()[k].1 && t@[k].2 == sign_table()[k].2,
            cx == WORLD_X / 2,
            cz == WORLD_Z / 2,
            0 <= i <= t@.len(),
            v@.len() == i,
            forall|k: int|
                0 <= k < i ==> #[trigger] v@[k] == ((
                    (WORLD_X / 2 + sign_table()[k].0) as i32,
                    (GROUND + 2) as i32,
                    (WORLD_Z / 2 + sign_table()[k].1) as i32,
                ), sign_table()[k].2),
        decreases t@.len() - i,
    {
        let (dx, dz, name) = t[i];
        v.push(((cx + dx, GROUND + 2, cz + dz), name));
        i = i + 1;
    }
    v
}

/// Where `place_signposts` may build: the precinct, from the ground course up
/// to the boards.
pub open spec fn signposts_area(gy: int) -> Area {
    (
        WORLD_X / 2 - PALACE_X,
        WORLD_X / 2 + PALACE_X,
        if gy + 1 < GROUND + 2 { gy + 1 } else { GROUND + 2 },
        if gy + 1 < GROUND + 2 { GROUND + 2 } else { gy + 1 },
        WORLD_Z / 2 - PALACE_NORTH,
        WORLD_Z / 2 + PALACE_SOUTH,
    )
}

/// What standing the first `n` boards of the table up lays, each over the
/// ones before it: for each, a timber post a course above `gy` and the board
/// where [`board_pos`] puts it.
pub open spec fn signposts_plan(gy: int, n: nat) -> spec_fn(int, int, int) -> Option<Block>
    decreases n,
{
    if n == 0 {
        World::nothing()
    } else {
        let p = board_pos(n - 1);
        World::overlay(
            signposts_plan(gy, (n - 1) as nat),
            World::overlay(World::single(p.0 as int, gy + 1, p.2 as int, Block::Wood), World::single(p.0 as int, p.1 as int, p.2 as int, Block::Signpost)),
        )
    }
}

/// Stand every board up: the post, then the board on top of it. Runs last,
/// after the paths, so a post set on paving is not later erased by it.
pub fn place_signposts(world: &mut World, gy: i32)
    requires
        old(world).wf(),
        gy < i32::MAX,
    ensures
        final(world).wf(),
        World::lays(*old(world), *final(world), signposts_plan(gy as int, sign_table().len())),
        builds_in(*old(world), *final(world), signposts_area(gy as int)),
{
    let ghost w0 = *world;
    let ghost area = signposts_area(gy as int);
    proof {
        lemma_start(w0, area);
        World::lemma_lays_nothing(w0);
    }
    let posts = signposts();
    let mut i: usize = 0;
    while i < posts.len()
        invariant
            gy < i32::MAX,
            0 <= i <= posts@.len(),
            posts@.len() == sign_table().len(),
            forall|k: int|
                0 <= k < posts@.len() ==> #[trigger] posts@[k] == ((
                    (WORLD_X / 2 + sign_table()[k].0) as i32,
                    (GROUND + 2) as i32,
                    (WORLD_Z / 2 + sign_table()[k].1) as i32,
                ), sign_table()[k].2),
            area == signposts_area(gy as int),
            world.wf(),
            builds_in(w0, *world, area),
            World::lays(w0, *world, signposts_plan(gy as int, i as nat)),
        decreases posts@.len() - i,
    {
        let (pos, _name) = posts[i];
        proof {
            assert(-PALACE_X <= sign_table()[i as int].0 <= PALACE_X);
            assert(-PALACE_NORTH <= sign_table()[i as int].1 <= PALACE_SOUTH);
            assert(pos == board_pos(i as int));
        }
        let ghost w1 = *world;
        lay(world, pos.0, gy + 1, pos.2, Block::Wood, Ghost(w0), Ghost(area));
        let ghost w2 = *world;
        lay(world, pos.0, pos.1, pos.2, Block::Signpost, Ghost(w0), Ghost(area));
        proof {
            let post = World::single(pos.0 as int, gy + 1, pos.2 as int, Block::Wood);
            let board = World::single(pos.0 as int, pos.1 as int, pos.2 as int, Block::Signpost);
            World::lemma_lays_single(w1, w2, pos.0 as int, gy + 1, pos.2 as int, Block::Wood);
            World::lemma_lays_single(w2, *world, pos.0 as int, pos.1 as int, pos.2 as int, Block::Signpost);
            World::lemma_lays_compose(w1, w2, *world, post, board);
            World::lemma_lays_compose(w0, w1, *world, signposts_plan(gy as int, i as nat), World::overlay(post, board));
        }
        i = i + 1;
    }
}

/// Where board `i` of the table stands in the world.
pub open spec fn board_pos(i: int) -> (i32, i32, i32) {
    ((WORLD_X / 2 + sign_table()[i].0) as i32, (GROUND + 2) as i32, (WORLD_Z / 2 + sign_table()[i].1) as i32)
}

/// The ground plan's footprint `(x0, x1, z0, z1)` of a building box.
pub open spec fn foot(a: Area) -> (int, int, int, int) {
    (a.0, a.1, a.4, a.5)
}

/// Where the palace's plan puts the building or feature a board may name, as
/// its footprint in offsets from the precinct centre: each gate, hall,
/// compound and pond where [`super::place_palace`] builds it, within the box
/// its builder is confined to.
pub open spec fn named_site(name: Seq<char>) -> Option<(int, int, int, int)> {
    if name == "광화문"@ {
        Some(foot(super::gate::gate_area(0, PALACE_SOUTH as int, 0)))
    } else     if name == "흥례문"@ {
        Some(foot(super::gate::timber_gate_area(0, HEUNGNYE_Z as int, 0, 16, 4)))
    } else     if name == "영제교"@ {
        Some(foot(super::water::geumcheon_area(0, GEUMCHEON_Z as int, 0)))
    } else     if name == "근정문"@ {
        Some(foot(super::gate::timber_gate_area(0, COURT_OFFSET_Z + COURT_Z, 0, 14, 4)))
    } else     if name == "근정전"@ {
        Some(foot(super::hall::throne_hall_area(0, COURT_OFFSET_Z - 4, 0)))
    } else     if name == "사정문"@ {
        Some(foot(super::hall::cross_wall_area(0, SAJEONG_Z + 24, 0)))
    } else     if name == "향오문"@ {
        Some(foot(super::hall::cross_wall_area(0, GANGNYEONG_Z + 16, 0)))
    } else     if name == "양의문"@ {
        Some(foot(super::hall::cross_wall_area(0, GYOTAE_Z + 16, 0)))
    } else     if name == "사정전"@ {
        Some(foot(super::hall::residence_area(0, SAJEONG_Z as int, 0, 14, 8)))
    } else     if name == "강녕전"@ {
        Some(foot(super::hall::residence_area(0, GANGNYEONG_Z as int, 0, 16, 8)))
    } else     if name == "교태전"@ {
        Some(foot(super::hall::residence_area(0, GYOTAE_Z as int, 0, 14, 8)))
    } else     if name == "아미산"@ {
        Some((-24, 24, GYOTAE_Z - 15, GYOTAE_Z - 8))
    } else     if name == "향원정"@ {
        Some(foot(super::water::hyangwonjeong_area(0, HYANGWON_Z as int, 0)))
    } else     if name == "함원전"@ {
        Some(foot(super::hall::residence_area(HAMWON_X as int, FLANKING_HALL_Z as int, 0, 4, 4)))
    } else     if name == "흠경각"@ {
        Some(foot(super::hall::residence_area(HEUMGYEONG_X as int, FLANKING_HALL_Z as int, 0, 4, 4)))
    } else     if name == "자경전"@ {
        Some(foot(super::compound::jagyeongjeon_area(JAGYEONG_X as int, JAGYEONG_Z as int, 0)))
    } else     if name == "수정전"@ {
        Some(foot(super::compound::compound_wall_area(SUJEONG_X as int, SUJEONG_Z as int, 0, 14, 16)))
    } else     if name == "동궁"@ {
        Some(foot(super::compound::donggung_area(DONGGUNG_X as int, DONGGUNG_Z as int, 0)))
    } else     if name == "함화당"@ {
        Some(foot(super::compound::hamhwadang_area(HAMHWA_X as int, HAMHWA_Z as int, 0)))
    } else     if name == "태원전"@ {
        Some(foot(super::compound::taewonjeon_area(TAEWON_X as int, TAEWON_Z as int, 0)))
    } else     if name == "건청궁"@ {
        Some(foot(super::compound::geoncheongung_area(GEONCHEONG_X as int, GEONCHEONG_Z as int, 0)))
    } else     if name == "집옥재"@ {
        Some((JIPOK_X as int, JIPOK_X as int, JIPOK_Z as int, JIPOK_Z as int))
    } else     if name == "소주방"@ {
        Some(foot(super::compound::sojubang_area(SOJU_X as int, SOJU_Z as int, 0)))
    } else     if name == "경회루"@ {
        Some(foot(super::water::gyeonghoeru_area(GYEONGHOE_X as int, GYEONGHOE_Z as int, 0)))
    } else     if name == "영추문"@ {
        Some(foot(super::gate::wall_gate_area(-PALACE_X, YEONGCHU_Z as int, 0)))
    } else     if name == "건춘문"@ {
        Some(foot(super::gate::wall_gate_area(PALACE_X as int, GEONCHUN_Z as int, 0)))
    } else     if name == "신무문"@ {
        Some(foot(super::gate::wall_gate_area(0, -PALACE_NORTH, 0)))
    } else     if name == "동십자각"@ {
        Some(foot(super::gate::corner_tower_area(PALACE_X as int, PALACE_SOUTH as int, 0)))
    } else {
        None
    }
}

/// Whether board `i` of the table stands by the building it names: within
/// sixteen blocks of that building's footprint.
pub open spec fn board_by_its_building(i: int) -> bool {
    let (dx, dz, name) = sign_table()[i];
    match named_site(name@) {
        Some(f) => f.0 - 16 <= dx <= f.1 + 16 && f.2 - 16 <= dz <= f.3 + 16,
        None => false,
    }
}

/// Every board names a building of the palace and stands by that very
/// building: 사정전's board before 사정전, 강녕전's before 강녕전, and so on
/// for every gate, hall, compound and pond. A board naming a building that
/// stands elsewhere in the plan would fail this.
pub proof fn lemma_boards_stand_by_their_buildings(i: int)
    requires
        0 <= i < sign_table().len(),
    ensures
        board_by_its_building(i),
{
    reveal_strlit("광화문");
    reveal_strlit("흥례문");
    reveal_strlit("영제교");
    reveal_strlit("근정문");
    reveal_strlit("근정전");
    reveal_strlit("사정문");
    reveal_strlit("향오문");
    reveal_strlit("양의문");
    reveal_strlit("사정전");
    reveal_strlit("강녕전");
    reveal_strlit("교태전");
    reveal_strlit("아미산");
    reveal_strlit("향원정");
    reveal_strlit("함원전");
    reveal_strlit("흠경각");
    reveal_strlit("자경전");
    reveal_strlit("수정전");
    reveal_strlit("동궁");
    reveal_strlit("함화당");
    reveal_strlit("태원전");
    reveal_strlit("건청궁");
    reveal_strlit("집옥재");
    reveal_strlit("소주방");
    reveal_strlit("경회루");
    reveal_strlit("영추문");
    reveal_strlit("건춘문");
    reveal_strlit("신무문");
    reveal_strlit("동십자각");
    // The names are told apart by their characters.
    assert("광화문"@[0] != "흥례문"@[0]);
    assert("광화문"@[0] != "영제교"@[0]);
    assert("흥례문"@[0] != "영제교"@[0]);
    assert("광화문"@[0] != "근정문"@[0]);
    assert("흥례문"@[0] != "근정문"@[0]);
    assert("영제교"@[0] != "근정문"@[0]);
    assert("광화문"@[0] != "근정전"@[0]);
    assert("흥례문"@[0] != "근정전"@[0]);
    assert("영제교"@[0] != "근정전"@[0]);
    assert("근정문"@[2] != "근정전"@[2]);
    assert("광화문"@[0] != "사정문"@[0]);
    assert("흥례문"@[0] != "사정문"@[0]);
    assert("영제교"@[0] != "사정문"@[0]);
    assert("근정문"@[0] != "사정문"@[0]);
    assert("근정전"@[0] != "사정문"@[0]);
    assert("광화문"@[0] != "향오문"@[0]);
    assert("흥례문"@[0] != "향오문"@[0]);
    assert("영제교"@[0] != "향오문"@[0]);
    assert("근정문"@[0] != "향오문"@[0]);
    assert("근정전"@[0] != "향오문"@[0]);
    assert("사정문"@[0] != "향오문"@[0]);
    assert("광화문"@[0] != "양의문"@[0]);
    assert("흥례문"@[0] != "양의문"@[0]);
    assert("영제교"@[0] != "양의문"@[0]);
    assert("근정문"@[0] != "양의문"@[0]);
    assert("근정전"@[0] != "양의문"@[0]);
    assert("사정문"@[0] != "양의문"@[0]);
    assert("향오문"@[0] != "양의문"@[0]);
    assert("광화문"@[0] != "사정전"@[0]);
    assert("흥례문"@[0] != "사정전"@[0]);
    assert("영제교"@[0] != "사정전"@[0]);
    assert("근정문"@[0] != "사정전"@[0]);
    assert("근정전"@[0] != "사정전"@[0]);
    assert("사정문"@[2] != "사정전"@[2]);
    assert("향오문"@[0] != "사정전"@[0]);
    assert("양의문"@[0] != "사정전"@[0]);
    assert("광화문"@[0] != "강녕전"@[0]);
    assert("흥례문"@[0] != "강녕전"@[0]);
    assert("영제교"@[0] != "강녕전"@[0]);
    assert("근정문"@[0] != "강녕전"@[0]);
    assert("근정전"@[0] != "강녕전"@[0]);
    assert("사정문"@[0] != "강녕전"@[0]);
    assert("향오문"@[0] != "강녕전"@[0]);
    assert("양의문"@[0] != "강녕전"@[0]);
    assert("사정전"@[0] != "강녕전"@[0]);
    assert("광화문"@[0] != "교태전"@[0]);
    assert("흥례문"@[0] != "교태전"@[0]);
    assert("영제교"@[0] != "교태전"@[0]);
    assert("근정문"@[0] != "교태전"@[0]);
    assert("근정전"@[0] != "교태전"@[0]);
    assert("사정문"@[0] != "교태전"@[0]);
    assert("향오문"@[0] != "교태전"@[0]);
    assert("양의문"@[0] != "교태전"@[0]);
    assert("사정전"@[0] != "교태전"@[0]);
    assert("강녕전"@[0] != "교태전"@[0]);
    assert("광화문"@[0] != "아미산"@[0]);
    assert("흥례문"@[0] != "아미산"@[0]);
    assert("영제교"@[0] != "아미산"@[0]);
    assert("근정문"@[0] != "아미산"@[0]);
    assert("근정전"@[0] != "아미산"@[0]);
    assert("사정문"@[0] != "아미산"@[0]);
    assert("향오문"@[0] != "아미산"@[0]);
    assert("양의문"@[0] != "아미산"@[0]);
    assert("사정전"@[0] != "아미산"@[0]);
    assert("강녕전"@[0] != "아미산"@[0]);
    assert("교태전"@[0] != "아미산"@[0]);
    assert("광화문"@[0] != "향원정"@[0]);
    assert("흥례문"@[0] != "향원정"@[0]);
    assert("영제교"@[0] != "향원정"@[0]);
    assert("근정문"@[0] != "향원정"@[0]);
    assert("근정전"@[0] != "향원정"@[0]);
    assert("사정문"@[0] != "향원정"@[0]);
    assert("향오문"@[1] != "향원정"@[1]);
    assert("양의문"@[0] != "향원정"@[0]);
    assert("사정전"@[0] != "향원정"@[0]);
    assert("강녕전"@[0] != "향원정"@[0]);
    assert("교태전"@[0] != "향원정"@[0]);
    assert("아미산"@[0] != "향원정"@[0]);
    assert("광화문"@[0] != "함원전"@[0]);
    assert("흥례문"@[0] != "함원전"@[0]);
    assert("영제교"@[0] != "함원전"@[0]);
    assert("근정문"@[0] != "함원전"@[0]);
    assert("근정전"@[0] != "함원전"@[0]);
    assert("사정문"@[0] != "함원전"@[0]);
    assert("향오문"@[0] != "함원전"@[0]);
    assert("양의문"@[0] != "함원전"@[0]);
    assert("사정전"@[0] != "함원전"@[0]);
    assert("강녕전"@[0] != "함원전"@[0]);
    assert("교태전"@[0] != "함원전"@[0]);
    assert("아미산"@[0] != "함원전"@[0]);
    assert("향원정"@[0] != "함원전"@[0]);
    assert("광화문"@[0] != "흠경각"@[0]);
    assert("흥례문"@[0] != "흠경각"@[0]);
    assert("영제교"@[0] != "흠경각"@[0]);
    assert("근정문"@[0] != "흠경각"@[0]);
    assert("근정전"@[0] != "흠경각"@[0]);
    assert("사정문"@[0] != "흠경각"@[0]);
    assert("향오문"@[0] != "흠경각"@[0]);
    assert("양의문"@[0] != "흠경각"@[0]);
    assert("사정전"@[0] != "흠경각"@[0]);
    assert("강녕전"@[0] != "흠경각"@[0]);
    assert("교태전"@[0] != "흠경각"@[0]);
    assert("아미산"@[0] != "흠경각"@[0]);
    assert("향원정"@[0] != "흠경각"@[0]);
    assert("함원전"@[0] != "흠경각"@[0]);
    assert("광화문"@[0] != "자경전"@[0]);
    assert("흥례문"@[0] != "자경전"@[0]);
    assert("영제교"@[0] != "자경전"@[0]);
    assert("근정문"@[0] != "자경전"@[0]);
    assert("근정전"@[0] != "자경전"@[0]);
    assert("사정문"@[0] != "자경전"@[0]);
    assert("향오문"@[0] != "자경전"@[0]);
    assert("양의문"@[0] != "자경전"@[0]);
    assert("사정전"@[0] != "자경전"@[0]);
    assert("강녕전"@[0] != "자경전"@[0]);
    assert("교태전"@[0] != "자경전"@[0]);
    assert("아미산"@[0] != "자경전"@[0]);
    assert("향원정"@[0] != "자경전"@[0]);
    assert("함원전"@[0] != "자경전"@[0]);
    assert("흠경각"@[0] != "자경전"@[0]);
    assert("광화문"@[0] != "수정전"@[0]);
    assert("흥례문"@[0] != "수정전"@[0]);
    assert("영제교"@[0] != "수정전"@[0]);
    assert("근정문"@[0] != "수정전"@[0]);
    assert("근정전"@[0] != "수정전"@[0]);
    assert("사정문"@[0] != "수정전"@[0]);
    assert("향오문"@[0] != "수정전"@[0]);
    assert("양의문"@[0] != "수정전"@[0]);
    assert("사정전"@[0] != "수정전"@[0]);
    assert("강녕전"@[0] != "수정전"@[0]);
    assert("교태전"@[0] != "수정전"@[0]);
    assert("아미산"@[0] != "수정전"@[0]);
    assert("향원정"@[0] != "수정전"@[0]);
    assert("함원전"@[0] != "수정전"@[0]);
    assert("흠경각"@[0] != "수정전"@[0]);
    assert("자경전"@[0] != "수정전"@[0]);
    assert("광화문"@.len() != "동궁"@.len());
    assert("흥례문"@.len() != "동궁"@.len());
    assert("영제교"@.len() != "동궁"@.len());
    assert("근정문"@.len() != "동궁"@.len());
    assert("근정전"@.len() != "동궁"@.len());
    assert("사정문"@.len() != "동궁"@.len());
    assert("향오문"@.len() != "동궁"@.len());
    assert("양의문"@.len() != "동궁"@.len());
    assert("사정전"@.len() != "동궁"@.len());
    assert("강녕전"@.len() != "동궁"@.len());
    assert("교태전"@.len() != "동궁"@.len());
    assert("아미산"@.len() != "동궁"@.len());
    assert("향원정"@.len() != "동궁"@.len());
    assert("함원전"@.len() != "동궁"@.len());
    assert("흠경각"@.len() != "동궁"@.len());
    assert("자경전"@.len() != "동궁"@.len());
    assert("수정전"@.len() != "동궁"@.len());
    assert("광화문"@[0] != "함화당"@[0]);
    assert("흥례문"@[0] != "함화당"@[0]);
    assert("영제교"@[0] != "함화당"@[0]);
    assert("근정문"@[0] != "함화당"@[0]);
    assert("근정전"@[0] != "함화당"@[0]);
    assert("사정문"@[0] != "함화당"@[0]);
    assert("향오문"@[0] != "함화당"@[0]);
    assert("양의문"@[0] != "함화당"@[0]);
    assert("사정전"@[0] != "함화당"@[0]);
    assert("강녕전"@[0] != "함화당"@[0]);
    assert("교태전"@[0] != "함화당"@[0]);
    assert("아미산"@[0] != "함화당"@[0]);
    assert("향원정"@[0] != "함화당"@[0]);
    assert("함원전"@[1] != "함화당"@[1]);
    assert("흠경각"@[0] != "함화당"@[0]);
    assert("자경전"@[0] != "함화당"@[0]);
    assert("수정전"@[0] != "함화당"@[0]);
    assert("동궁"@.len() != "함화당"@.len());
    assert("광화문"@[0] != "태원전"@[0]);
    assert("흥례문"@[0] != "태원전"@[0]);
    assert("영제교"@[0] != "태원전"@[0]);
    assert("근정문"@[0] != "태원전"@[0]);
    assert("근정전"@[0] != "태원전"@[0]);
    assert("사정문"@[0] != "태원전"@[0]);
    assert("향오문"@[0] != "태원전"@[0]);
    assert("양의문"@[0] != "태원전"@[0]);
    assert("사정전"@[0] != "태원전"@[0]);
    assert("강녕전"@[0] != "태원전"@[0]);
    assert("교태전"@[0] != "태원전"@[0]);
    assert("아미산"@[0] != "태원전"@[0]);
    assert("향원정"@[0] != "태원전"@[0]);
    assert("함원전"@[0] != "태원전"@[0]);
    assert("흠경각"@[0] != "태원전"@[0]);
    assert("자경전"@[0] != "태원전"@[0]);
    assert("수정전"@[0] != "태원전"@[0]);
    assert("동궁"@.len() != "태원전"@.len());
    assert("함화당"@[0] != "태원전"@[0]);
    assert("광화문"@[0] != "건청궁"@[0]);
    assert("흥례문"@[0] != "건청궁"@[0]);
    assert("영제교"@[0] != "건청궁"@[0]);
    assert("근정문"@[0] != "건청궁"@[0]);
    assert("근정전"@[0] != "건청궁"@[0]);
    assert("사정문"@[0] != "건청궁"@[0]);
    assert("향오문"@[0] != "건청궁"@[0]);
    assert("양의문"@[0] != "건청궁"@[0]);
    assert("사정전"@[0] != "건청궁"@[0]);
    assert("강녕전"@[0] != "건청궁"@[0]);
    assert("교태전"@[0] != "건청궁"@[0]);
    assert("아미산"@[0] != "건청궁"@[0]);
    assert("향원정"@[0] != "건청궁"@[0]);
    assert("함원전"@[0] != "건청궁"@[0]);
    assert("흠경각"@[0] != "건청궁"@[0]);
    assert("자경전"@[0] != "건청궁"@[0]);
    assert("수정전"@[0] != "건청궁"@[0]);
    assert("동궁"@.len() != "건청궁"@.len());
    assert("함화당"@[0] != "건청궁"@[0]);
    assert("태원전"@[0] != "건청궁"@[0]);
    assert("광화문"@[0] != "집옥재"@[0]);
    assert("흥례문"@[0] != "집옥재"@[0]);
    assert("영제교"@[0] != "집옥재"@[0]);
    assert("근정문"@[0] != "집옥재"@[0]);
    assert("근정전"@[0] != "집옥재"@[0]);
    assert("사정문"@[0] != "집옥재"@[0]);
    assert("향오문"@[0] != "집옥재"@[0]);
    assert("양의문"@[0] != "집옥재"@[0]);
    assert("사정전"@[0] != "집옥재"@[0]);
    assert("강녕전"@[0] != "집옥재"@[0]);
    assert("교태전"@[0] != "집옥재"@[0]);
    assert("아미산"@[0] != "집옥재"@[0]);
    assert("향원정"@[0] != "집옥재"@[0]);
    assert("함원전"@[0] != "집옥재"@[0]);
    assert("흠경각"@[0] != "집옥재"@[0]);
    assert("자경전"@[0] != "집옥재"@[0]);
    assert("수정전"@[0] != "집옥재"@[0]);
    assert("동궁"@.len() != "집옥재"@.len());
    assert("함화당"@[0] != "집옥재"@[0]);
    assert("태원전"@[0] != "집옥재"@[0]);
    assert("건청궁"@[0] != "집옥재"@[0]);
    assert("광화문"@[0] != "소주방"@[0]);
    assert("흥례문"@[0] != "소주방"@[0]);
    assert("영제교"@[0] != "소주방"@[0]);
    assert("근정문"@[0] != "소주방"@[0]);
    assert("근정전"@[0] != "소주방"@[0]);
    assert("사정문"@[0] != "소주방"@[0]);
    assert("향오문"@[0] != "소주방"@[0]);
    assert("양의문"@[0] != "소주방"@[0]);
    assert("사정전"@[0] != "소주방"@[0]);
    assert("강녕전"@[0] != "소주방"@[0]);
    assert("교태전"@[0] != "소주방"@[0]);
    assert("아미산"@[0] != "소주방"@[0]);
    assert("향원정"@[0] != "소주방"@[0]);
    assert("함원전"@[0] != "소주방"@[0]);
    assert("흠경각"@[0] != "소주방"@[0]);
    assert("자경전"@[0] != "소주방"@[0]);
    assert("수정전"@[0] != "소주방"@[0]);
    assert("동궁"@.len() != "소주방"@.len());
    assert("함화당"@[0] != "소주방"@[0]);
    assert("태원전"@[0] != "소주방"@[0]);
    assert("건청궁"@[0] != "소주방"@[0]);
    assert("집옥재"@[0] != "소주방"@[0]);
    assert("광화문"@[0] != "경회루"@[0]);
    assert("흥례문"@[0] != "경회루"@[0]);
    assert("영제교"@[0] != "경회루"@[0]);
    assert("근정문"@[0] != "경회루"@[0]);
    assert("근정전"@[0] != "경회루"@[0]);
    assert("사정문"@[0] != "경회루"@[0]);
    assert("향오문"@[0] != "경회루"@[0]);
    assert("양의문"@[0] != "경회루"@[0]);
    assert("사정전"@[0] != "경회루"@[0]);
    assert("강녕전"@[0] != "경회루"@[0]);
    assert("교태전"@[0] != "경회루"@[0]);
    assert("아미산"@[0] != "경회루"@[0]);
    assert("향원정"@[0] != "경회루"@[0]);
    assert("함원전"@[0] != "경회루"@[0]);
    assert("흠경각"@[0] != "경회루"@[0]);
    assert("자경전"@[0] != "경회루"@[0]);
    assert("수정전"@[0] != "경회루"@[0]);
    assert("동궁"@.len() != "경회루"@.len());
    assert("함화당"@[0] != "경회루"@[0]);
    assert("태원전"@[0] != "경회루"@[0]);
    assert("건청궁"@[0] != "경회루"@[0]);
    assert("집옥재"@[0] != "경회루"@[0]);
    assert("소주방"@[0] != "경회루"@[0]);
    assert("광화문"@[0] != "영추문"@[0]);
    assert("흥례문"@[0] != "영추문"@[0]);
    assert("영제교"@[1] != "영추문"@[1]);
    assert("근정문"@[0] != "영추문"@[0]);
    assert("근정전"@[0] != "영추문"@[0]);
    assert("사정문"@[0] != "영추문"@[0]);
    assert("향오문"@[0] != "영추문"@[0]);
    assert("양의문"@[0] != "영추문"@[0]);
    assert("사정전"@[0] != "영추문"@[0]);
    assert("강녕전"@[0] != "영추문"@[0]);
    assert("교태전"@[0] != "영추문"@[0]);
    assert("아미산"@[0] != "영추문"@[0]);
    assert("향원정"@[0] != "영추문"@[0]);
    assert("함원전"@[0] != "영추문"@[0]);
    assert("흠경각"@[0] != "영추문"@[0]);
    assert("자경전"@[0] != "영추문"@[0]);
    assert("수정전"@[0] != "영추문"@[0]);
    assert("동궁"@.len() != "영추문"@.len());
    assert("함화당"@[0] != "영추문"@[0]);
    assert("태원전"@[0] != "영추문"@[0]);
    assert("건청궁"@[0] != "영추문"@[0]);
    assert("집옥재"@[0] != "영추문"@[0]);
    assert("소주방"@[0] != "영추문"@[0]);
    assert("경회루"@[0] != "영추문"@[0]);
    assert("광화문"@[0] != "건춘문"@[0]);
    assert("흥례문"@[0] != "건춘문"@[0]);
    assert("영제교"@[0] != "건춘문"@[0]);
    assert("근정문"@[0] != "건춘문"@[0]);
    assert("근정전"@[0] != "건춘문"@[0]);
    assert("사정문"@[0] != "건춘문"@[0]);
    assert("향오문"@[0] != "건춘문"@[0]);
    assert("양의문"@[0] != "건춘문"@[0]);
    assert("사정전"@[0] != "건춘문"@[0]);
    assert("강녕전"@[0] != "건춘문"@[0]);
    assert("교태전"@[0] != "건춘문"@[0]);
    assert("아미산"@[0] != "건춘문"@[0]);
    assert("향원정"@[0] != "건춘문"@[0]);
    assert("함원전"@[0] != "건춘문"@[0]);
    assert("흠경각"@[0] != "건춘문"@[0]);
    assert("자경전"@[0] != "건춘문"@[0]);
    assert("수정전"@[0] != "건춘문"@[0]);
    assert("동궁"@.len() != "건춘문"@.len());
    assert("함화당"@[0] != "건춘문"@[0]);
    assert("태원전"@[0] != "건춘문"@[0]);
    assert("건청궁"@[1] != "건춘문"@[1]);
    assert("집옥재"@[0] != "건춘문"@[0]);
    assert("소주방"@[0] != "건춘문"@[0]);
    assert("경회루"@[0] != "건춘문"@[0]);
    assert("영추문"@[0] != "건춘문"@[0]);
    assert("광화문"@[0] != "신무문"@[0]);
    assert("흥례문"@[0] != "신무문"@[0]);
    assert("영제교"@[0] != "신무문"@[0]);
    assert("근정문"@[0] != "신무문"@[0]);
    assert("근정전"@[0] != "신무문"@[0]);
    assert("사정문"@[0] != "신무문"@[0]);
    assert("향오문"@[0] != "신무문"@[0]);
    assert("양의문"@[0] != "신무문"@[0]);
    assert("사정전"@[0] != "신무문"@[0]);
    assert("강녕전"@[0] != "신무문"@[0]);
    assert("교태전"@[0] != "신무문"@[0]);
    assert("아미산"@[0] != "신무문"@[0]);
    assert("향원정"@[0] != "신무문"@[0]);
    assert("함원전"@[0] != "신무문"@[0]);
    assert("흠경각"@[0] != "신무문"@[0]);
    assert("자경전"@[0] != "신무문"@[0]);
    assert("수정전"@[0] != "신무문"@[0]);
    assert("동궁"@.len() != "신무문"@.len());
    assert("함화당"@[0] != "신무문"@[0]);
    assert("태원전"@[0] != "신무문"@[0]);
    assert("건청궁"@[0] != "신무문"@[0]);
    assert("집옥재"@[0] != "신무문"@[0]);
    assert("소주방"@[0] != "신무문"@[0]);
    assert("경회루"@[0] != "신무문"@[0]);
    assert("영추문"@[0] != "신무문"@[0]);
    assert("건춘문"@[0] != "신무문"@[0]);
    assert("광화문"@.len() != "동십자각"@.len());
    assert("흥례문"@.len() != "동십자각"@.len());
    assert("영제교"@.len() != "동십자각"@.len());
    assert("근정문"@.len() != "동십자각"@.len());
    assert("근정전"@.len() != "동십자각"@.len());
    assert("사정문"@.len() != "동십자각"@.len());
    assert("향오문"@.len() != "동십자각"@.len());
    assert("양의문"@.len() != "동십자각"@.len());
    assert("사정전"@.len() != "동십자각"@.len());
    assert("강녕전"@.len() != "동십자각"@.len());
    assert("교태전"@.len() != "동십자각"@.len());
    assert("아미산"@.len() != "동십자각"@.len());
    assert("향원정"@.len() != "동십자각"@.len());
    assert("함원전"@.len() != "동십자각"@.len());
    assert("흠경각"@.len() != "동십자각"@.len());
    assert("자경전"@.len() != "동십자각"@.len());
    assert("수정전"@.len() != "동십자각"@.len());
    assert("동궁"@.len() != "동십자각"@.len());
    assert("함화당"@.len() != "동십자각"@.len());
    assert("태원전"@.len() != "동십자각"@.len());
    assert("건청궁"@.len() != "동십자각"@.len());
    assert("집옥재"@.len() != "동십자각"@.len());
    assert("소주방"@.len() != "동십자각"@.len());
    assert("경회루"@.len() != "동십자각"@.len());
    assert("영추문"@.len() != "동십자각"@.len());
    assert("건춘문"@.len() != "동십자각"@.len());
    assert("신무문"@.len() != "동십자각"@.len());
    assert(sign_table().len() == 28);
    assert(board_by_its_building(0));
    assert(board_by_its_building(1));
    assert(board_by_its_building(2));
    assert(board_by_its_building(3));
    assert(board_by_its_building(4));
    assert(board_by_its_building(5));
    assert(board_by_its_building(6));
    assert(board_by_its_building(7));
    assert(board_by_its_building(8));
    assert(board_by_its_building(9));
    assert(board_by_its_building(10));
    assert(board_by_its_building(11));
    assert(board_by_its_building(12));
    assert(board_by_its_building(13));
    assert(board_by_its_building(14));
    assert(board_by_its_building(15));
    assert(board_by_its_building(16));
    assert(board_by_its_building(17));
    assert(board_by_its_building(18));
    assert(board_by_its_building(19));
    assert(board_by_its_building(20));
    assert(board_by_its_building(21));
    assert(board_by_its_building(22));
    assert(board_by_its_building(23));
    assert(board_by_its_building(24));
    assert(board_by_its_building(25));
    assert(board_by_its_building(26));
    assert(board_by_its_building(27));
}

/// Every board stands strictly inside the precinct wall.
pub proof fn lemma_boards_inside(i: int)
    requires
        0 <= i < sign_table().len(),
    ensures
        -PALACE_X < sign_table()[i].0 < PALACE_X,
        -PALACE_NORTH < sign_table()[i].1 < PALACE_SOUTH,
{
    assert(sign_table().len() == 28);
    assert(sign_table()[0].1 > -PALACE_NORTH && sign_table()[0].1 < PALACE_SOUTH && sign_table()[0].0 > -PALACE_X && sign_table()[0].0 < PALACE_X);
    assert(sign_table()[1].1 > -PALACE_NORTH && sign_table()[1].1 < PALACE_SOUTH && sign_table()[1].0 > -PALACE_X && sign_table()[1].0 < PALACE_X);
    assert(sign_table()[2].1 > -PALACE_NORTH && sign_table()[2].1 < PALACE_SOUTH && sign_table()[2].0 > -PALACE_X && sign_table()[2].0 < PALACE_X);
    assert(sign_table()[3].1 > -PALACE_NORTH && sign_table()[3].1 < PALACE_SOUTH && sign_table()[3].0 > -PALACE_X && sign_table()[3].0 < PALACE_X);
    assert(sign_table()[4].1 > -PALACE_NORTH && sign_table()[4].1 < PALACE_SOUTH && sign_table()[4].0 > -PALACE_X && sign_table()[4].0 < PALACE_X);
    assert(sign_table()[5].1 > -PALACE_NORTH && sign_table()[5].1 < PALACE_SOUTH && sign_table()[5].0 > -PALACE_X && sign_table()[5].0 < PALACE_X);
    assert(sign_table()[6].1 > -PALACE_NORTH && sign_table()[6].1 < PALACE_SOUTH && sign_table()[6].0 > -PALACE_X && sign_table()[6].0 < PALACE_X);
    assert(sign_table()[7].1 > -PALACE_NORTH && sign_table()[7].1 < PALACE_SOUTH && sign_table()[7].0 > -PALACE_X && sign_table()[7].0 < PALACE_X);
    assert(sign_table()[8].1 > -PALACE_NORTH && sign_table()[8].1 < PALACE_SOUTH && sign_table()[8].0 > -PALACE_X && sign_table()[8].0 < PALACE_X);
    assert(sign_table()[9].1 > -PALACE_NORTH && sign_table()[9].1 < PALACE_SOUTH && sign_table()[9].0 > -PALACE_X && sign_table()[9].0 < PALACE_X);
    assert(sign_table()[10].1 > -PALACE_NORTH && sign_table()[10].1 < PALACE_SOUTH && sign_table()[10].0 > -PALACE_X && sign_table()[10].0 < PALACE_X);
    assert(sign_table()[11].1 > -PALACE_NORTH && sign_table()[11].1 < PALACE_SOUTH && sign_table()[11].0 > -PALACE_X && sign_table()[11].0 < PALACE_X);
    assert(sign_table()[12].1 > -PALACE_NORTH && sign_table()[12].1 < PALACE_SOUTH && sign_table()[12].0 > -PALACE_X && sign_table()[12].0 < PALACE_X);
    assert(sign_table()[13].1 > -PALACE_NORTH && sign_table()[13].1 < PALACE_SOUTH && sign_table()[13].0 > -PALACE_X && sign_table()[13].0 < PALACE_X);
    assert(sign_table()[14].1 > -PALACE_NORTH && sign_table()[14].1 < PALACE_SOUTH && sign_table()[14].0 > -PALACE_X && sign_table()[14].0 < PALACE_X);
    assert(sign_table()[15].1 > -PALACE_NORTH && sign_table()[15].1 < PALACE_SOUTH && sign_table()[15].0 > -PALACE_X && sign_table()[15].0 < PALACE_X);
    assert(sign_table()[16].1 > -PALACE_NORTH && sign_table()[16].1 < PALACE_SOUTH && sign_table()[16].0 > -PALACE_X && sign_table()[16].0 < PALACE_X);
    assert(sign_table()[17].1 > -PALACE_NORTH && sign_table()[17].1 < PALACE_SOUTH && sign_table()[17].0 > -PALACE_X && sign_table()[17].0 < PALACE_X);
    assert(sign_table()[18].1 > -PALACE_NORTH && sign_table()[18].1 < PALACE_SOUTH && sign_table()[18].0 > -PALACE_X && sign_table()[18].0 < PALACE_X);
    assert(sign_table()[19].1 > -PALACE_NORTH && sign_table()[19].1 < PALACE_SOUTH && sign_table()[19].0 > -PALACE_X && sign_table()[19].0 < PALACE_X);
    assert(sign_table()[20].1 > -PALACE_NORTH && sign_table()[20].1 < PALACE_SOUTH && sign_table()[20].0 > -PALACE_X && sign_table()[20].0 < PALACE_X);
    assert(sign_table()[21].1 > -PALACE_NORTH && sign_table()[21].1 < PALACE_SOUTH && sign_table()[21].0 > -PALACE_X && sign_table()[21].0 < PALACE_X);
    assert(sign_table()[22].1 > -PALACE_NORTH && sign_table()[22].1 < PALACE_SOUTH && sign_table()[22].0 > -PALACE_X && sign_table()[22].0 < PALACE_X);
    assert(sign_table()[23].1 > -PALACE_NORTH && sign_table()[23].1 < PALACE_SOUTH && sign_table()[23].0 > -PALACE_X && sign_table()[23].0 < PALACE_X);
    assert(sign_table()[24].1 > -PALACE_NORTH && sign_table()[24].1 < PALACE_SOUTH && sign_table()[24].0 > -PALACE_X && sign_table()[24].0 < PALACE_X);
    assert(sign_table()[25].1 > -PALACE_NORTH && sign_table()[25].1 < PALACE_SOUTH && sign_table()[25].0 > -PALACE_X && sign_table()[25].0 < PALACE_X);
    assert(sign_table()[26].1 > -PALACE_NORTH && sign_table()[26].1 < PALACE_SOUTH && sign_table()[26].0 > -PALACE_X && sign_table()[26].0 < PALACE_X);
    assert(sign_table()[27].1 > -PALACE_NORTH && sign_table()[27].1 < PALACE_SOUTH && sign_table()[27].0 > -PALACE_X && sign_table()[27].0 < PALACE_X);
}

/// No board stands on the palace's axis.
pub proof fn lemma_boards_off_axis_at(i: int)
    requires
        0 <= i < sign_table().len(),
    ensures
        sign_table()[i].0 != 0,
{
    assert(sign_table().len() == 28);
    assert(sign_table()[0].0 != 0);
    assert(sign_table()[1].0 != 0);
    assert(sign_table()[2].0 != 0);
    assert(sign_table()[3].0 != 0);
    assert(sign_table()[4].0 != 0);
    assert(sign_table()[5].0 != 0);
    assert(sign_table()[6].0 != 0);
    assert(sign_table()[7].0 != 0);
    assert(sign_table()[8].0 != 0);
    assert(sign_table()[9].0 != 0);
    assert(sign_table()[10].0 != 0);
    assert(sign_table()[11].0 != 0);
    assert(sign_table()[12].0 != 0);
    assert(sign_table()[13].0 != 0);
    assert(sign_table()[14].0 != 0);
    assert(sign_table()[15].0 != 0);
    assert(sign_table()[16].0 != 0);
    assert(sign_table()[17].0 != 0);
    assert(sign_table()[18].0 != 0);
    assert(sign_table()[19].0 != 0);
    assert(sign_table()[20].0 != 0);
    assert(sign_table()[21].0 != 0);
    assert(sign_table()[22].0 != 0);
    assert(sign_table()[23].0 != 0);
    assert(sign_table()[24].0 != 0);
    assert(sign_table()[25].0 != 0);
    assert(sign_table()[26].0 != 0);
    assert(sign_table()[27].0 != 0);
}

/// Standing the first `n` boards up lays nothing on the palace's axis.
pub proof fn lemma_boards_off_axis(gy: int, n: nat, y: int, z: int)
    requires
        n <= sign_table().len(),
    ensures
        signposts_plan(gy, n)(WORLD_X / 2, y, z) is None,
    decreases n,
{
    if n > 0 {
        lemma_boards_off_axis(gy, (n - 1) as nat, y, z);
        lemma_boards_off_axis_at(n - 1);
        lemma_boards_inside(n - 1);
        let p = board_pos(n - 1);
        assert(p.0 as int == WORLD_X / 2 + sign_table()[n - 1].0);
    }
}

/// Standing the first `n` boards up lays nothing on the ring of the precinct
/// wall: the posts and boards all stand inside it.
pub proof fn lemma_boards_off_wall(gy: int, n: nat, x: int, y: int, z: int)
    requires
        n <= sign_table().len(),
        x == WORLD_X / 2 - PALACE_X || x == WORLD_X / 2 + PALACE_X || z == WORLD_Z / 2 + PALACE_SOUTH || z == WORLD_Z / 2 - PALACE_NORTH,
    ensures
        signposts_plan(gy, n)(x, y, z) is None,
    decreases n,
{
    if n > 0 {
        lemma_boards_off_wall(gy, (n - 1) as nat, x, y, z);
        lemma_boards_inside(n - 1);
        let p = board_pos(n - 1);
        assert(p.0 as int == WORLD_X / 2 + sign_table()[n - 1].0);
        assert(p.2 as int == WORLD_Z / 2 + sign_table()[n - 1].1);
    }
}

/// The name of the board at `pos` among the first `n` boards of the table:
/// the last of them standing there, as a lookup table built from the list
/// keeps the last entry for a position.
pub open spec fn name_among(pos: (i32, i32, i32), n: int) -> Option<&'static str>
    decreases n,
{
    if n <= 0 {
        None
    } else if board_pos(n - 1) == pos {
        Some(sign_table()[n - 1].2)
    } else {
        name_among(pos, n - 1)
    }
}

/// The name on the board standing at `pos`, if one does.
pub fn sign_name(pos: (i32, i32, i32)) -> (r: Option<&'static str>)
    ensures
        r == name_among(pos, sign_table().len() as int),
{
    let posts = signposts();
    let mut found: Option<&'static str> = None;
    let mut i: usize = 0;
    while i < posts.len()
        invariant
            0 <= i <= posts@.len(),
            posts@.len() == sign_table().len(),
            forall|k: int|
                0 <= k < posts@.len() ==> #[trigger] posts@[k] == ((
                    (WORLD_X / 2 + sign_table()[k].0) as i32,
                    (GROUND + 2) as i32,
                    (WORLD_Z / 2 + sign_table()[k].1) as i32,
                ), sign_table()[k].2),
            found == name_among(pos, i as int),
        decreases posts@.len() - i,
    {
        let (p, name) = posts[i];
        if p.0 == pos.0 && p.1 == pos.1 && p.2 == pos.2 {
            found = Some(name);
        }
        i = i + 1;
    }
    found
}

/// What the label under the crosshair says: the name of the board the aim
/// rests on (`hit`, the block the view ray stopped at), and nothing while a
/// menu has the focus, when the aim is on nothing, or when what it rests on
/// is not a board with a name.
pub fn show_sign_name(world: &World, hit: Option<(i32, i32, i32)>, ui_focused: bool) -> (r: &'static str)
    requires
        world.wf(),
    ensures
        r == (match hit {
            Some(p) => if !ui_focused && world.block_at(p.0 as int, p.1 as int, p.2 as int) is Signpost {
                match name_among(p, sign_table().len() as int) {
                    Some(n) => n,
                    None => "",
                }
            } else {
                ""
            },
            None => "",
        }),
{
    if ui_focused {
        return "";
    }
    match hit {
        Some(p) => {
            if world.get(p.0, p.1, p.2) != Block::Signpost {
                return "";
            }
            match sign_name(p) {
                Some(n) => n,
                None => "",
            }
        },
        None => "",
    }
}

} // verus!
