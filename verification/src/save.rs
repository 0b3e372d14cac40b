//! The save format: a world serialised as `VOX2`, the grid's dimensions, then
//! the blocks run-length encoded as `(count: u16, id: u8)` pairs.
//!
//! These worlds are almost entirely air above a plain, so nearly all of a raw
//! dump is one byte repeated. Runs cap at `u16::MAX` and simply continue in
//! the next pair.

use vstd::prelude::*;
use crate::block::Block;
use crate::world::World;

verus! {

/// The sixteen bytes every save starts with: the magic `VOX2`, then the
/// grid's dimensions `768`, `128`, `768` as little-endian `i32`s.
pub open spec fn save_header() -> Seq<u8> {
    seq![86u8, 79u8, 88u8, 50u8, 0u8, 3u8, 0u8, 0u8, 128u8, 0u8, 0u8, 0u8, 0u8, 3u8, 0u8, 0u8]
}

/// The run length a pair starting at `body[0]` carries: a little-endian
/// `u16`.
pub open spec fn run_length(body: Seq<u8>) -> nat {
    (body[0] + 256 * body[1]) as nat
}

/// The ids a run-length body stands for: each `(count, id)` pair expands to
/// `count` copies of `id`, in order. Trailing bytes short of a pair stand for
/// nothing.
pub open spec fn rle_expand(body: Seq<u8>) -> Seq<u8>
    decreases body.len(),
{
    if body.len() < 3 {
        Seq::empty()
    } else {
        Seq::new(run_length(body), |i: int| body[2]) + rle_expand(body.subrange(3, body.len() as int))
    }
}

/// The three bytes of one pair.
pub open spec fn pair_bytes(count: nat, id: u8) -> Seq<u8> {
    seq![(count % 256) as u8, (count / 256) as u8, id]
}

/// The pairs that encode a run of `count` copies of `id`: a full pair of
/// `u16::MAX` blocks at a time, then one for what is left.
pub open spec fn run_pairs(count: nat, id: u8) -> Seq<u8>
    decreases count,
{
    if count == 0 {
        Seq::empty()
    } else {
        let n: nat = if count < 65535 { count } else { 65535 };
        pair_bytes(n, id) + run_pairs((count - n) as nat, id)
    }
}

/// The maximal runs of `ids`, in order: each a value and how many times in a
/// row it stands there.
pub open spec fn runs_of(ids: Seq<u8>) -> Seq<(u8, nat)>
    decreases ids.len(),
{
    if ids.len() == 0 {
        Seq::empty()
    } else {
        let r = runs_of(ids.drop_last());
        let x = ids.last();
        if r.len() > 0 && r.last().0 == x {
            r.update(r.len() - 1, (x, r.last().1 + 1))
        } else {
            r.push((x, 1nat))
        }
    }
}

/// The pairs that encode `runs`, one run after another.
pub open spec fn runs_bytes(runs: Seq<(u8, nat)>) -> Seq<u8>
    decreases runs.len(),
{
    if runs.len() == 0 {
        Seq::empty()
    } else {
        runs_bytes(runs.drop_last()) + run_pairs(runs.last().1, runs.last().0)
    }
}

/// Expanding a body made of whole pairs followed by more bytes expands the
/// pairs and then the rest.
pub proof fn lemma_rle_append(a: Seq<u8>, b: Seq<u8>)
    requires
        a.len() % 3 == 0,
    ensures
        rle_expand(a + b) == rle_expand(a) + rle_expand(b),
    decreases a.len(),
{
    if a.len() == 0 {
        assert(a + b =~= b);
        assert(rle_expand(a) =~= Seq::<u8>::empty());
        assert(rle_expand(a) + rle_expand(b) =~= rle_expand(b));
    } else {
        let rest = a.subrange(3, a.len() as int);
        lemma_rle_append(rest, b);
        assert((a + b).subrange(3, (a + b).len() as int) =~= rest + b);
        assert((a + b)[0] == a[0] && (a + b)[1] == a[1] && (a + b)[2] == a[2]);
        let run = Seq::new(run_length(a), |i: int| a[2]);
        assert(rle_expand(a + b) =~= run + (rle_expand(rest) + rle_expand(b)));
        assert(rle_expand(a) + rle_expand(b) =~= run + rle_expand(rest) + rle_expand(b));
    }
}

/// One pair expands to its run.
pub proof fn lemma_rle_pair(count: nat, id: u8)
    requires
        count <= 65535,
    ensures
        rle_expand(pair_bytes(count, id)) =~= Seq::new(count, |i: int| id),
{
    let p = pair_bytes(count, id);
    assert(run_length(p) == count);
    assert(p.subrange(3, 3) =~= Seq::<u8>::empty());
    assert(rle_expand(p.subrange(3, 3)) =~= Seq::<u8>::empty());
}

/// Appends the pairs for a run of `count` copies of `id` to `buf`, one pair
/// per `u16::MAX` blocks of the run.
pub fn push_run(buf: &mut Vec<u8>, id: u8, count: u32)
    requires
        old(buf)@.len() % 3 == 1,
        old(buf)@.len() >= 16,
    ensures
        final(buf)@ == old(buf)@ + run_pairs(count as nat, id),
        final(buf)@.len() % 3 == 1,
        final(buf)@.len() >= old(buf)@.len(),
        final(buf)@.subrange(0, old(buf)@.len() as int) == old(buf)@,
        rle_expand(final(buf)@.subrange(16, final(buf)@.len() as int)) =~= rle_expand(old(buf)@.subrange(16, old(buf)@.len() as int))
            + Seq::new(count as nat, |i: int| id),
{
    let ghost start = buf@;
    let mut left: u32 = count;
    while left > 0
        invariant
            left <= count,
            buf@.len() % 3 == 1,
            buf@.len() >= start.len(),
            buf@.subrange(0, start.len() as int) == start,
            buf@ + run_pairs(left as nat, id) == start + run_pairs(count as nat, id),
            start.len() % 3 == 1,
            start.len() >= 16,
            rle_expand(buf@.subrange(16, buf@.len() as int)) =~= rle_expand(start.subrange(16, start.len() as int))
                + Seq::new((count - left) as nat, |i: int| id),
        decreases left,
    {
        let n: u32 = if left < 65535 {
            left
        } else {
            65535
        };
        let ghost before = buf@;
        buf.push((n % 256) as u8);
        buf.push((n / 256) as u8);
        buf.push(id);
        proof {
            let pair = pair_bytes(n as nat, id);
            assert(buf@ =~= before + pair);
            assert(run_pairs(left as nat, id) == pair + run_pairs((left - n) as nat, id));
            assert(buf@ + run_pairs((left - n) as nat, id) =~= before + run_pairs(left as nat, id));
            assert(buf@.subrange(0, start.len() as int) =~= before.subrange(0, start.len() as int));
            {
                let body = before.subrange(16, before.len() as int);
                assert(buf@.subrange(16, buf@.len() as int) =~= body + pair);
                assert(body.len() % 3 == 0);
                lemma_rle_append(body, pair);
                lemma_rle_pair(n as nat, id);
                assert(Seq::new((count - left) as nat, |i: int| id) + Seq::new(n as nat, |i: int| id)
                    =~= Seq::new((count - (left - n)) as nat, |i: int| id));
            }
        }
        left = left - n;
    }
    assert(buf@ + run_pairs(0, id) =~= buf@);
}

/// The seed plants are scattered with on a world loaded without any.
pub const LOAD_DECORATION_SEED: u32 = 1337;

/// Load a save's bytes into `world`. Returns whether they held a valid save;
/// when they do not, the world is left as it was.
///
/// A save made before plants existed has none anywhere, so a loaded world
/// without a single plant gets them scattered once. `decorate` only fills air
/// above grass, so nothing already built is disturbed; and after the next save
/// the world has plants, so this never fires for it again and plants the
/// player pulled up stay gone.
pub fn load_world(world: &mut World, data: &[u8]) -> (loaded: bool)
    requires
        old(world).wf(),
    ensures
        final(world).wf(),
        loaded == World::save_valid(data@),
        !loaded ==> *final(world) == *old(world),
        loaded ==> exists|w: World|
            #![trigger World::loads_as(data@, w)]
            World::loads_as(data@, w) && if exists|x: int, y: int, z: int| #[trigger] w.block_at(x, y, z).is_plant() {
                World::same(w, *final(world))
            } else {
                World::lays(w, *final(world), World::decoration_plan(w, LOAD_DECORATION_SEED))
            },
{
    match World::decode(data) {
        Some(mut loaded) => {
            let ghost w = loaded;
            if !loaded.has_plants() {
                loaded.decorate(LOAD_DECORATION_SEED);
            }
            *world = loaded;
            assert(World::loads_as(data@, w));
            true
        },
        None => false,
    }
}

} // verus!
