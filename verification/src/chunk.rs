//! Chunk columns: the 16×16 footprints the world is meshed and redrawn in,
//! and which of them an edit makes stale.

use vstd::prelude::*;
use crate::world::{CHUNK_SIZE, WORLD_X, WORLD_Z};

verus! {

/// The chunk coordinate of a block coordinate: floor division by the chunk
/// size, so negative coordinates fall in negative chunks.
pub fn chunk_coord(v: i32) -> (c: i32)
    ensures
        c == v / CHUNK_SIZE,
{
    if v >= 0 {
        v / CHUNK_SIZE
    } else {
        // -(v + 1) is the mirror of v about -1/2, and never overflows.
        let m = -(v + 1);
        proof {
            let q = m / 16;
            let r = m % 16;
            assert(m == 16 * q + r && 0 <= r < 16) by (nonlinear_arith)
                requires
                    q == m / 16,
                    r == m % 16,
                    m >= 0,
            ;
            assert(v == 16 * (-q - 1) + (15 - r));
            vstd::arithmetic::div_mod::lemma_fundamental_div_mod_converse(v as int, 16, -q - 1, 15 - r);
        }
        -(m / CHUNK_SIZE) - 1
    }
}

/// Convert a world block X/Z to its chunk coordinate.
pub fn chunk_of(x: i32, z: i32) -> (c: (i32, i32))
    ensures
        c.0 == x / CHUNK_SIZE,
        c.1 == z / CHUNK_SIZE,
{
    (chunk_coord(x), chunk_coord(z))
}

/// The offsets of a column and its four neighbours, in the order they are
/// marked.
pub open spec fn cross_offsets() -> Seq<(int, int)> {
    seq![(0, 0), (1, 0), (-1, 0), (0, 1), (0, -1)]
}

/// The chunk columns an edit at `(x, z)` makes stale: the edited one and the
/// chunks of its four neighbours, since an edit on a chunk border changes the
/// faces the neighbouring chunk shows.
pub open spec fn stale_columns(x: int, z: int) -> Seq<(i32, i32)> {
    cross_offsets().map_values(|o: (int, int)| (((x + o.0) / 16) as i32, ((z + o.1) / 16) as i32))
}

/// The chunk columns made stale by an edit at `(x, z)`, in
/// [`stale_columns`] order.
pub fn dirty_columns(x: i32, z: i32) -> (cols: Vec<(i32, i32)>)
    requires
        i32::MIN < x < i32::MAX,
        i32::MIN < z < i32::MAX,
    ensures
        cols@ == stale_columns(x as int, z as int),
{
    let v = vec![
        chunk_of(x, z),
        chunk_of(x + 1, z),
        chunk_of(x - 1, z),
        chunk_of(x, z + 1),
        chunk_of(x, z - 1),
    ];
    assert(v@ =~= stale_columns(x as int, z as int));
    v
}

/// Every chunk column of the world, row by row: what has to be redrawn when
/// the whole world is replaced.
pub open spec fn every_column() -> Seq<(i32, i32)> {
    Seq::new((48 * 48) as nat, |i: int| ((i % 48) as i32, (i / 48) as i32))
}

/// Every chunk column of the world, in [`every_column`] order.
pub fn all_chunks() -> (cols: Vec<(i32, i32)>)
    ensures
        cols@ == every_column(),
        WORLD_X / CHUNK_SIZE == 48 && WORLD_Z / CHUNK_SIZE == 48,
{
    let n: i32 = WORLD_X / CHUNK_SIZE;
    let mut cols: Vec<(i32, i32)> = Vec::new();
    let mut cz: i32 = 0;
    while cz < WORLD_Z / CHUNK_SIZE
        invariant
            n == 48,
            0 <= cz <= 48,
            cols@.len() == cz * 48,
            forall|i: int| 0 <= i < cols@.len() ==> #[trigger] cols@[i] == every_column()[i],
        decreases 48 - cz,
    {
        let mut cx: i32 = 0;
        while cx < n
            invariant
                n == 48,
                0 <= cz < 48,
                0 <= cx <= 48,
                cols@.len() == cz * 48 + cx,
                forall|i: int| 0 <= i < cols@.len() ==> #[trigger] cols@[i] == every_column()[i],
            decreases 48 - cx,
        {
            proof {
                let i = cz * 48 + cx;
                assert(i % 48 == cx && i / 48 == cz) by (nonlinear_arith)
                    requires
                        i == cz * 48 + cx,
                        0 <= cx < 48,
                        0 <= cz,
                ;
            }
            cols.push((cx, cz));
            cx = cx + 1;
        }
        cz = cz + 1;
    }
    assert(cols@ =~= every_column());
    cols
}

} // verus!
