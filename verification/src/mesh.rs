//! Meshing a chunk column: which faces are drawn, with which tile and shading.
//!
//! Opaque blocks are *greedy-meshed*: per face direction and layer, the
//! exposed faces that share a tile and a uniform ambient-occlusion level are
//! merged into the largest rectangles the scan finds, so flat terrain is a
//! handful of quads rather than one per block face. A face whose four corners
//! are shaded differently is drawn on its own. Water is drawn face by face,
//! and only against air.
//!
//! The quads are stated over the world: every exposed face of an opaque block
//! in the column is drawn by exactly one quad, with its own tile and corner
//! shading, and nothing else is drawn; and each quad is the one the greedy
//! scan takes, in the order it takes them. Turning quads into vertices, which is
//! floating point, happens beside the renderer.

use vstd::prelude::*;
use crate::block::{Block, is_opaque, opaque};
use crate::texture::{block_tile, tile_of};
use crate::world::{World, CHUNK_SIZE, WORLD_Y};

verus! {

/// A face that may merge with its neighbours: its tile and its ambient
/// occlusion level, uniform over the face.
pub type Mergeable = (u32, u8);

/// One quad of the opaque mesh: on face direction `face` (0 = -X, 1 = +X,
/// 2 = -Y, 3 = +Y, 4 = -Z, 5 = +Z), lying on the plane `plane` across the
/// face's axis, spanning `[u0, u1) × [v0, v1)` along the face's two in-plane
/// axes, showing atlas tile `tile` with the ambient occlusion level (0, the
/// darkest, to 3, unshaded) of each corner in the order `(u0, v0)`,
/// `(u1, v0)`, `(u1, v1)`, `(u0, v1)`.
#[derive(Clone, Copy, Debug)]
pub struct Quad {
    pub face: usize,
    pub plane: i32,
    pub u0: i32,
    pub u1: i32,
    pub v0: i32,
    pub v1: i32,
    pub tile: u32,
    pub ao: (u8, u8, u8, u8),
}

/// The layer of blocks a quad's faces belong to: a face on the high side of
/// its block lies on the plane above the block.
pub open spec fn layer_of(q: Quad) -> int {
    if q.face % 2 == 1 { q.plane - 1 } else { q.plane as int }
}

/// Whether `q` spans the in-plane position `(u, v)`.
pub open spec fn in_rect(q: Quad, u: int, v: int) -> bool {
    q.u0 <= u < q.u1 && q.v0 <= v < q.v1
}

/// Whether one of the quads from index `from` on spans `(u, v)`.
pub open spec fn covered(qs: Seq<Quad>, from: int, u: int, v: int) -> bool {
    exists|k: int| from <= k < qs.len() && #[trigger] in_rect(qs[k], u, v)
}

/// Whether one of the quads from index `from` up to, not including, `to`
/// spans `(u, v)`.
pub open spec fn covered_between(qs: Seq<Quad>, from: int, to: int, u: int, v: int) -> bool {
    exists|k: int| from <= k < to && #[trigger] in_rect(qs[k], u, v)
}

/// What the mask `m0` (at in-plane origin `(min_u, min_v)`) still holds at
/// `(a, b)` once the quads from index `from` up to `to` are cleared from it.
pub open spec fn mask_left(
    qs: Seq<Quad>,
    from: int,
    to: int,
    m0: Seq<Option<Mergeable>>,
    min_u: int,
    min_v: int,
    a: int,
    b: int,
) -> Option<Mergeable> {
    if covered_between(qs, from, to, min_u + a, min_v + b) {
        None
    } else {
        mask_at(m0, a, b)
    }
}

/// Whether the quad at index `k` is the rectangle the greedy scan takes next
/// from what the mask `m0`, `ext_v` rows deep, still holds once the quads
/// before it (from index `from` on) are cleared: it starts at the first face
/// left in scan order (row by row, each row from its low end), runs along
/// its row as far as the same face goes, and then up over as many whole rows
/// of that face as follow.
pub open spec fn greedy_next(qs: Seq<Quad>, from: int, k: int, m0: Seq<Option<Mergeable>>, ext_v: int, min_u: int, min_v: int) -> bool {
    let q = qs[k];
    let (a0, a1, b0, b1) = (q.u0 - min_u, q.u1 - min_u, q.v0 - min_v, q.v1 - min_v);
    let face = Some((q.tile, q.ao.0));
    &&& forall|a: int, b: int|
        0 <= a < 16 && 0 <= b < ext_v && (b < b0 || (b == b0 && a < a0)) ==> #[trigger] mask_left(qs, from, k, m0, min_u, min_v, a, b) is None
    &&& (a1 == 16 || mask_left(qs, from, k, m0, min_u, min_v, a1, b0) != face)
    &&& (b1 == ext_v || exists|a: int| a0 <= a < a1 && #[trigger] mask_left(qs, from, k, m0, min_u, min_v, a, b1) != face)
}

/// Where a quad starts in the scan of a mask at in-plane origin `(min_u,
/// min_v)`: row by row, each row a chunk wide.
pub open spec fn scan_pos(q: Quad, min_u: int, min_v: int) -> int {
    (q.v0 - min_v) * 16 + (q.u0 - min_u)
}

/// The mergeable face at `(a, b)` of a mask whose rows are a chunk wide.
pub open spec fn mask_at(m: Seq<Option<Mergeable>>, a: int, b: int) -> Option<Mergeable> {
    m[b * 16 + a]
}

/// A quad is spanned by one more quad than before exactly where that quad
/// spans.
proof fn lemma_covered_push(qs: Seq<Quad>, from: int, q: Quad, u: int, v: int)
    requires
        0 <= from <= qs.len(),
    ensures
        covered(qs.push(q), from, u, v) == (covered(qs, from, u, v) || in_rect(q, u, v)),
{
    let qs2 = qs.push(q);
    if covered(qs, from, u, v) {
        let k = choose|k: int| from <= k < qs.len() && #[trigger] in_rect(qs[k], u, v);
        assert(qs2[k] == qs[k]);
    }
    if in_rect(q, u, v) {
        assert(qs2[qs.len() as int] == q);
    }
    if covered(qs2, from, u, v) {
        let k = choose|k: int| from <= k < qs2.len() && #[trigger] in_rect(qs2[k], u, v);
        if k < qs.len() {
            assert(qs2[k] == qs[k]);
        }
    }
}

/// Whether mask entry `m` holds exactly the mergeable face `c`.
fn same_face(m: Option<Mergeable>, c: Mergeable) -> (r: bool)
    ensures
        r == (m == Some(c)),
{
    match m {
        Some(d) => d.0 == c.0 && d.1 == c.1,
        None => false,
    }
}

/// Greedy merge over a mask of mergeable faces, a chunk wide and `ext_v` rows
/// deep: scanning row by row, grow each face found into a run as wide as
/// possible, then as tall as whole matching rows allow; emit one quad for the
/// rectangle onto `quads`, and clear it from the mask.
///
/// The new quads face `f` on `plane`, at the mask's origin `(min_u, min_v)`;
/// each spans only faces the mask held, all alike, and shows their tile with
/// their occlusion level at every corner; no two overlap; together they span
/// every face the mask held; each is the rectangle the scan takes next from
/// what the quads before it left (see [`greedy_next`]); and the mask is left
/// empty.
#[verifier::loop_isolation(false)]
#[verifier::rlimit(40)]
pub fn merge_mask(
    quads: &mut Vec<Quad>,
    mask: &mut Vec<Option<Mergeable>>,
    ext_v: i32,
    f: usize,
    plane: i32,
    min_u: i32,
    min_v: i32,
)
    requires
        old(mask)@.len() == 16 * ext_v,
        1 <= ext_v <= 128,
        i32::MIN <= min_u <= i32::MAX - 16,
        i32::MIN <= min_v <= i32::MAX - ext_v,
    ensures
        final(mask)@.len() == old(mask)@.len(),
        forall|i: int| 0 <= i < final(mask)@.len() ==> #[trigger] final(mask)@[i] is None,
        final(quads)@.len() >= old(quads)@.len(),
        final(quads)@.subrange(0, old(quads)@.len() as int) == old(quads)@,
        forall|k: int| old(quads)@.len() <= k < final(quads)@.len() ==> {
            let q = #[trigger] final(quads)@[k];
            &&& q.face == f && q.plane == plane
            &&& min_u <= q.u0 < q.u1 <= min_u + 16
            &&& min_v <= q.v0 < q.v1 <= min_v + ext_v
        },
        forall|k: int, u: int, v: int|
            old(quads)@.len() <= k < final(quads)@.len() && #[trigger] in_rect(final(quads)@[k], u, v)
                ==> {
                let q = final(quads)@[k];
                mask_at(old(mask)@, u - min_u, v - min_v) == Some((q.tile, q.ao.0))
                    && q.ao == (q.ao.0, q.ao.0, q.ao.0, q.ao.0)
            },
        forall|j: int, k: int, u: int, v: int|
            old(quads)@.len() <= j < k < final(quads)@.len() ==> !(#[trigger] in_rect(final(quads)@[j], u, v)
                && #[trigger] in_rect(final(quads)@[k], u, v)),
        forall|a: int, b: int|
            0 <= a < 16 && 0 <= b < ext_v && (#[trigger] mask_at(old(mask)@, a, b)) is Some ==> covered(
                final(quads)@,
                old(quads)@.len() as int,
                min_u + a,
                min_v + b,
            ),
        forall|k: int|
            old(quads)@.len() <= k < final(quads)@.len() ==> #[trigger] greedy_next(
                final(quads)@,
                old(quads)@.len() as int,
                k,
                old(mask)@,
                ext_v as int,
                min_u as int,
                min_v as int,
            ),
        forall|j: int, k: int|
            old(quads)@.len() <= j < k < final(quads)@.len() ==> scan_pos(#[trigger] final(quads)@[j], min_u as int, min_v as int)
                < scan_pos(#[trigger] final(quads)@[k], min_u as int, min_v as int),
{
    let ghost m0 = mask@;
    let ghost q0 = quads@.len() as int;
    proof {
        assert(quads@.subrange(0, q0) =~= old(quads)@);
        assert forall|a: int, b: int| 0 <= a < 16 && 0 <= b < ext_v implies #[trigger] mask_at(mask@, a, b) == (if covered(quads@, q0, min_u + a, min_v + b) {
            None
        } else {
            mask_at(m0, a, b)
        }) by {
            if covered(quads@, q0, min_u + a, min_v + b) {
                let k = choose|k: int| q0 <= k < quads@.len() && #[trigger] in_rect(quads@[k], min_u + a, min_v + b);
            }
        }
    }
    let mut iv: i32 = 0;
    while iv < ext_v
        invariant
            0 <= iv <= ext_v,
            merging(quads@, mask@, m0, q0, old(quads)@, ext_v as int, f, plane, min_u as int, min_v as int),
            forall|a: int, b: int| 0 <= a < 16 && 0 <= b < iv ==> #[trigger] mask_at(mask@, a, b) is None,
        decreases ext_v - iv,
    {
        let mut iu: i32 = 0;
        while iu < 16
            invariant
                0 <= iv < ext_v,
                0 <= iu <= 16,
                merging(quads@, mask@, m0, q0, old(quads)@, ext_v as int, f, plane, min_u as int, min_v as int),
                forall|a: int, b: int|
                    0 <= a < 16 && (0 <= b < iv || (b == iv && a < iu)) ==> #[trigger] mask_at(mask@, a, b) is None,
            decreases 16 - iu,
        {
            let idx = (iv * 16 + iu) as usize;
            match mask[idx] {
                None => {
                    iu = iu + 1;
                },
                Some(cell) => {
                    let w = merge_one(quads, mask, ext_v, f, plane, min_u, min_v, iu, iv, cell, Ghost(m0), Ghost(q0));
                    iu = iu + w;
                },
            }
        }
        iv = iv + 1;
    }
    proof {
        assert forall|i: int| 0 <= i < mask@.len() implies #[trigger] mask@[i] is None by {
            let b = i / 16;
            let a = i % 16;
            assert(mask_at(mask@, a, b) is None);
        }
        assert forall|a: int, b: int|
            0 <= a < 16 && 0 <= b < ext_v && (#[trigger] mask_at(m0, a, b)) is Some implies covered(
                quads@,
                q0,
                min_u + a,
                min_v + b,
            ) by {
            assert(mask_at(mask@, a, b) is None);
        }
        lemma_greedy_ordered(quads@, q0, m0, ext_v as int, min_u as int, min_v as int);
    }
}

/// The state the greedy merge keeps between rectangles: the quads emitted so
/// far (from index `q0` on) face `f` on `plane`, lie in the mask's bounds,
/// span only faces the original mask `m0` held, all alike, with their tile
/// and level, and do not overlap; and the mask holds exactly what `m0` held
/// where no quad spans yet, and nothing where one does.
spec fn merging(
    quads: Seq<Quad>,
    mask: Seq<Option<Mergeable>>,
    m0: Seq<Option<Mergeable>>,
    q0: int,
    start: Seq<Quad>,
    ext_v: int,
    f: usize,
    plane: i32,
    min_u: int,
    min_v: int,
) -> bool {
    &&& mask.len() == m0.len() == 16 * ext_v
    &&& 1 <= ext_v <= 128
    &&& i32::MIN <= min_u <= i32::MAX - 16
    &&& i32::MIN <= min_v <= i32::MAX - ext_v
    &&& q0 == start.len()
    &&& quads.len() >= q0
    &&& quads.subrange(0, q0) == start
    &&& forall|k: int| q0 <= k < quads.len() ==> {
        let q = #[trigger] quads[k];
        &&& q.face == f && q.plane == plane
        &&& min_u <= q.u0 < q.u1 <= min_u + 16
        &&& min_v <= q.v0 < q.v1 <= min_v + ext_v
    }
    &&& forall|k: int, u: int, v: int|
        q0 <= k < quads.len() && #[trigger] in_rect(quads[k], u, v) ==> {
            let q = quads[k];
            mask_at(m0, u - min_u, v - min_v) == Some((q.tile, q.ao.0)) && q.ao == (q.ao.0, q.ao.0, q.ao.0, q.ao.0)
        }
    &&& forall|j: int, k: int, u: int, v: int|
        q0 <= j < k < quads.len() ==> !(#[trigger] in_rect(quads[j], u, v) && #[trigger] in_rect(quads[k], u, v))
    &&& forall|a: int, b: int|
        0 <= a < 16 && 0 <= b < ext_v ==> #[trigger] mask_at(mask, a, b) == (if covered(quads, q0, min_u + a, min_v + b) {
            None
        } else {
            mask_at(m0, a, b)
        })
    &&& forall|k: int| q0 <= k < quads.len() ==> #[trigger] greedy_next(quads, q0, k, m0, ext_v, min_u, min_v)
}

/// Merge the run starting at `(iu, iv)`, which holds `cell`: grow it as wide
/// as matching faces go, then as tall as whole matching rows go; emit its
/// quad and clear it from the mask. Returns the run's width.
#[verifier::loop_isolation(false)]
#[verifier::rlimit(60)]
fn merge_one(
    quads: &mut Vec<Quad>,
    mask: &mut Vec<Option<Mergeable>>,
    ext_v: i32,
    f: usize,
    plane: i32,
    min_u: i32,
    min_v: i32,
    iu: i32,
    iv: i32,
    cell: Mergeable,
    Ghost(m0): Ghost<Seq<Option<Mergeable>>>,
    Ghost(q0): Ghost<int>,
) -> (w: i32)
    requires
        merging(old(quads)@, old(mask)@, m0, q0, old(quads)@.subrange(0, q0), ext_v as int, f, plane, min_u as int, min_v as int),
        0 <= iu < 16,
        0 <= iv < ext_v,
        mask_at(old(mask)@, iu as int, iv as int) == Some(cell),
        forall|a: int, b: int|
            0 <= a < 16 && (0 <= b < iv || (b == iv && a < iu)) ==> #[trigger] mask_at(old(mask)@, a, b) is None,
    ensures
        1 <= w <= 16 - iu,
        merging(final(quads)@, final(mask)@, m0, q0, old(quads)@.subrange(0, q0), ext_v as int, f, plane, min_u as int, min_v as int),
        forall|a: int, b: int|
            0 <= a < 16 && (0 <= b < iv || (b == iv && a < iu + w)) ==> #[trigger] mask_at(final(mask)@, a, b) is None,
{
    let ghost start = old(quads)@.subrange(0, q0);
    // Grow the run along U.
    let mut w: i32 = 1;
    while iu + w < 16 && same_face(mask[(iv * 16 + iu + w) as usize], cell)
        invariant
            1 <= w <= 16 - iu,
            mask@ == old(mask)@,
            forall|k: int| 0 <= k < w ==> #[trigger] mask_at(mask@, iu + k, iv as int) == Some(cell),
        decreases 16 - iu - w,
    {
        w = w + 1;
    }
    let ghost wide = iu + w == 16 || mask_at(mask@, iu + w, iv as int) != Some(cell);
    assert(wide);
    // Grow it along V, one whole row at a time.
    let mut h: i32 = 1;
    let mut growing = true;
    while growing && iv + h < ext_v
        invariant
            1 <= h <= ext_v - iv,
            mask@ == old(mask)@,
            forall|dv: int, k: int| 0 <= dv < h && 0 <= k < w ==> #[trigger] mask_at(mask@, iu + k, iv + dv) == Some(cell),
            !growing ==> exists|k: int| 0 <= k < w && #[trigger] mask_at(mask@, iu + k, iv + h) != Some(cell),
        decreases (if growing { ext_v - iv - h + 1 } else { 0 }),
    {
        let mut k: i32 = 0;
        let mut ok = true;
        while ok && k < w
            invariant
                0 <= k <= w,
                1 <= h < ext_v - iv,
                ok ==> forall|j: int| 0 <= j < k ==> #[trigger] mask_at(mask@, iu + j, iv + h) == Some(cell),
                !ok ==> 1 <= k && mask_at(mask@, iu + k - 1, iv + h) != Some(cell),
            decreases w - k,
        {
            ok = same_face(mask[((iv + h) * 16 + iu + k) as usize], cell);
            k = k + 1;
        }
        if ok {
            proof {
                assert forall|dv: int, j: int| 0 <= dv < h + 1 && 0 <= j < w implies #[trigger] mask_at(mask@, iu + j, iv + dv) == Some(cell) by {
                    if dv == h as int {
                        assert(mask_at(mask@, iu + j, iv + h) == Some(cell));
                    }
                }
            }
            h = h + 1;
        } else {
            proof {
                let j = k - 1;
                assert(0 <= j < w && mask_at(mask@, iu + j, iv + h) != Some(cell));
            }
            growing = false;
        }
    }
    let q = Quad {
        face: f,
        plane,
        u0: min_u + iu,
        u1: min_u + iu + w,
        v0: min_v + iv,
        v1: min_v + iv + h,
        tile: cell.0,
        ao: (cell.1, cell.1, cell.1, cell.1),
    };
    let ghost before = quads@;
    quads.push(q);
    proof {
        lemma_rect_fresh(before, mask@, m0, q0, start, ext_v as int, f, plane, min_u as int, min_v as int, q, iu as int, iv as int, w as int, h as int, cell);
        lemma_greedy_fresh(before, mask@, m0, q0, start, ext_v as int, f, plane, min_u as int, min_v as int, q, iu as int, iv as int, w as int, h as int, cell);
    }
    // Consume the merged rectangle.
    let ghost pre = mask@;
    let mut dv: i32 = 0;
    while dv < h
        invariant
            0 <= dv <= h,
            mask@.len() == pre.len(),
            forall|a: int, b: int|
                0 <= a < 16 && 0 <= b < ext_v ==> #[trigger] mask_at(mask@, a, b) == (if iu <= a < iu + w && iv <= b < iv + dv {
                    None
                } else {
                    mask_at(pre, a, b)
                }),
        decreases h - dv,
    {
        let mut du: i32 = 0;
        while du < w
            invariant
                0 <= dv < h,
                0 <= du <= w,
                mask@.len() == pre.len(),
                forall|a: int, b: int|
                    0 <= a < 16 && 0 <= b < ext_v ==> #[trigger] mask_at(mask@, a, b) == (if (iu <= a < iu + w && iv <= b < iv + dv) || (b == iv + dv && iu <= a < iu + du) {
                        None
                    } else {
                        mask_at(pre, a, b)
                    }),
            decreases w - du,
        {
            let i = ((iv + dv) * 16 + iu + du) as usize;
            let ghost m1 = mask@;
            mask.set(i, None);
            proof {
                assert forall|a: int, b: int| 0 <= a < 16 && 0 <= b < ext_v implies #[trigger] mask_at(mask@, a, b) == (if (iu <= a < iu + w && iv <= b < iv + dv) || (b == iv + dv && iu <= a < iu + du + 1) {
                    None
                } else {
                    mask_at(pre, a, b)
                }) by {
                    if b * 16 + a != i as int {
                        assert(mask_at(mask@, a, b) == mask_at(m1, a, b));
                    }
                }
            }
            du = du + 1;
        }
        dv = dv + 1;
    }
    proof {
        let qs = quads@;
        assert forall|a: int, b: int| 0 <= a < 16 && 0 <= b < ext_v implies #[trigger] mask_at(mask@, a, b) == (if covered(qs, q0, min_u + a, min_v + b) {
            None
        } else {
            mask_at(m0, a, b)
        }) by {
            lemma_covered_push(before, q0, q, min_u + a, min_v + b);
        }
    }
    w
}

/// A rectangle of faces the mask still holds, all alike, overlaps no quad
/// emitted so far and spans only faces the original mask held; so pushing its
/// quad keeps the emitted quads sound and disjoint.
proof fn lemma_rect_fresh(
    before: Seq<Quad>,
    mask: Seq<Option<Mergeable>>,
    m0: Seq<Option<Mergeable>>,
    q0: int,
    start: Seq<Quad>,
    ext_v: int,
    f: usize,
    plane: i32,
    min_u: int,
    min_v: int,
    q: Quad,
    iu: int,
    iv: int,
    w: int,
    h: int,
    cell: Mergeable,
)
    requires
        merging(before, mask, m0, q0, start, ext_v, f, plane, min_u, min_v),
        0 <= iu && 1 <= w && iu + w <= 16,
        0 <= iv && 1 <= h && iv + h <= ext_v,
        forall|dv: int, k: int| 0 <= dv < h && 0 <= k < w ==> #[trigger] mask_at(mask, iu + k, iv + dv) == Some(cell),
        q == (Quad {
            face: f,
            plane,
            u0: (min_u + iu) as i32,
            u1: (min_u + iu + w) as i32,
            v0: (min_v + iv) as i32,
            v1: (min_v + iv + h) as i32,
            tile: cell.0,
            ao: (cell.1, cell.1, cell.1, cell.1),
        }),
    ensures
        ({
            let qs = before.push(q);
            &&& qs.subrange(0, q0) == start
            &&& forall|k: int| q0 <= k < qs.len() ==> {
                let p = #[trigger] qs[k];
                &&& p.face == f && p.plane == plane
                &&& min_u <= p.u0 < p.u1 <= min_u + 16
                &&& min_v <= p.v0 < p.v1 <= min_v + ext_v
            }
            &&& forall|k: int, u: int, v: int|
                q0 <= k < qs.len() && #[trigger] in_rect(qs[k], u, v) ==> {
                    let p = qs[k];
                    mask_at(m0, u - min_u, v - min_v) == Some((p.tile, p.ao.0)) && p.ao == (p.ao.0, p.ao.0, p.ao.0, p.ao.0)
                }
            &&& forall|j: int, k: int, u: int, v: int|
                q0 <= j < k < qs.len() ==> !(#[trigger] in_rect(qs[j], u, v) && #[trigger] in_rect(qs[k], u, v))
        }),
{
    let qs = before.push(q);
    let n = before.len() as int;
    assert(qs[n] == q);
    assert(qs.subrange(0, q0) =~= before.subrange(0, q0));
    assert forall|k: int| q0 <= k < qs.len() implies {
        let p = #[trigger] qs[k];
        &&& p.face == f && p.plane == plane
        &&& min_u <= p.u0 < p.u1 <= min_u + 16
        &&& min_v <= p.v0 < p.v1 <= min_v + ext_v
    } by {
        if k < n {
            assert(qs[k] == before[k]);
        }
    }
    assert forall|k: int, u: int, v: int|
        q0 <= k < qs.len() && #[trigger] in_rect(qs[k], u, v) implies {
            let p = qs[k];
            mask_at(m0, u - min_u, v - min_v) == Some((p.tile, p.ao.0)) && p.ao == (p.ao.0, p.ao.0, p.ao.0, p.ao.0)
        } by {
        if k < n {
            assert(qs[k] == before[k]);
        } else {
            let a = u - min_u;
            let b = v - min_v;
            assert(mask_at(mask, iu + (a - iu), iv + (b - iv)) == Some(cell));
            if covered(before, q0, u, v) {
                assert(mask_at(mask, a, b) is None);
            }
        }
    }
    assert forall|j: int, k: int, u: int, v: int|
        q0 <= j < k < qs.len() implies !(#[trigger] in_rect(qs[j], u, v) && #[trigger] in_rect(qs[k], u, v)) by {
        if k < n {
            assert(qs[k] == before[k]);
            assert(qs[j] == before[j]);
        } else if in_rect(qs[j], u, v) && in_rect(qs[k], u, v) {
            assert(qs[j] == before[j]);
            let a = u - min_u;
            let b = v - min_v;
            assert(mask_at(mask, iu + (a - iu), iv + (b - iv)) == Some(cell));
            assert(covered(before, q0, u, v));
        }
    }
}

/// The rectangle the scan grows from the first face left in the mask, as
/// wide and then as tall as that face goes, is the greedy scan's next quad;
/// and the quads before it keep being what the scan took.
proof fn lemma_greedy_fresh(
    before: Seq<Quad>,
    mask: Seq<Option<Mergeable>>,
    m0: Seq<Option<Mergeable>>,
    q0: int,
    start: Seq<Quad>,
    ext_v: int,
    f: usize,
    plane: i32,
    min_u: int,
    min_v: int,
    q: Quad,
    iu: int,
    iv: int,
    w: int,
    h: int,
    cell: Mergeable,
)
    requires
        merging(before, mask, m0, q0, start, ext_v, f, plane, min_u, min_v),
        0 <= iu && 1 <= w && iu + w <= 16,
        0 <= iv && 1 <= h && iv + h <= ext_v,
        forall|a: int, b: int|
            0 <= a < 16 && (0 <= b < iv || (b == iv && a < iu)) ==> #[trigger] mask_at(mask, a, b) is None,
        iu + w == 16 || mask_at(mask, iu + w, iv) != Some(cell),
        iv + h == ext_v || exists|k: int| 0 <= k < w && #[trigger] mask_at(mask, iu + k, iv + h) != Some(cell),
        q == (Quad {
            face: f,
            plane,
            u0: (min_u + iu) as i32,
            u1: (min_u + iu + w) as i32,
            v0: (min_v + iv) as i32,
            v1: (min_v + iv + h) as i32,
            tile: cell.0,
            ao: (cell.1, cell.1, cell.1, cell.1),
        }),
    ensures
        forall|k: int| q0 <= k < before.len() + 1 ==> #[trigger] greedy_next(before.push(q), q0, k, m0, ext_v, min_u, min_v),
{
    let qs = before.push(q);
    let n = before.len() as int;
    assert forall|k: int, a: int, b: int| q0 <= k <= n implies #[trigger] mask_left(qs, q0, k, m0, min_u, min_v, a, b)
        == mask_left(before, q0, k, m0, min_u, min_v, a, b) by {
        let (u, v) = (min_u + a, min_v + b);
        if covered_between(qs, q0, k, u, v) {
            let j = choose|j: int| q0 <= j < k && #[trigger] in_rect(qs[j], u, v);
            assert(qs[j] == before[j]);
        }
        if covered_between(before, q0, k, u, v) {
            let j = choose|j: int| q0 <= j < k && #[trigger] in_rect(before[j], u, v);
            assert(qs[j] == before[j]);
            assert(in_rect(qs[j], u, v));
        }
    }
    assert forall|k: int| q0 <= k < n + 1 implies #[trigger] greedy_next(qs, q0, k, m0, ext_v, min_u, min_v) by {
        if k < n {
            let p = before[k];
            assert(qs[k] == p);
            assert(greedy_next(before, q0, k, m0, ext_v, min_u, min_v));
            let (a0, a1, b0, b1) = (p.u0 - min_u, p.u1 - min_u, p.v0 - min_v, p.v1 - min_v);
            let face = Some((p.tile, p.ao.0));
            assert(mask_left(qs, q0, k, m0, min_u, min_v, a1, b0) == mask_left(before, q0, k, m0, min_u, min_v, a1, b0));
            if b1 != ext_v {
                let a = choose|a: int| a0 <= a < a1 && #[trigger] mask_left(before, q0, k, m0, min_u, min_v, a, b1) != face;
                assert(mask_left(qs, q0, k, m0, min_u, min_v, a, b1) == mask_left(before, q0, k, m0, min_u, min_v, a, b1));
            }
        } else {
            assert(qs[n] == q);
            assert forall|a: int, b: int| 0 <= a < 16 && 0 <= b < ext_v implies #[trigger] mask_left(before, q0, n, m0, min_u, min_v, a, b)
                == mask_at(mask, a, b) by {
                assert(covered_between(before, q0, n, min_u + a, min_v + b) == covered(before, q0, min_u + a, min_v + b));
            }
            assert forall|a: int, b: int|
                0 <= a < 16 && 0 <= b < ext_v && (b < iv || (b == iv && a < iu)) implies #[trigger] mask_left(qs, q0, n, m0, min_u, min_v, a, b) is None by {
                assert(mask_left(qs, q0, n, m0, min_u, min_v, a, b) == mask_left(before, q0, n, m0, min_u, min_v, a, b));
            }
            if iu + w != 16 {
                assert(mask_left(qs, q0, n, m0, min_u, min_v, iu + w, iv) == mask_left(before, q0, n, m0, min_u, min_v, iu + w, iv));
            }
            if iv + h != ext_v {
                let k0 = choose|k0: int| 0 <= k0 < w && #[trigger] mask_at(mask, iu + k0, iv + h) != Some(cell);
                assert(mask_left(qs, q0, n, m0, min_u, min_v, iu + k0, iv + h) == mask_left(before, q0, n, m0, min_u, min_v, iu + k0, iv + h));
                assert(mask_left(qs, q0, n, m0, min_u, min_v, iu + k0, iv + h) != Some((q.tile, q.ao.0)));
            }
        }
    }
}

/// Each rectangle the greedy scan takes starts further along the scan than
/// the one before: its first face was still left when the one before was
/// taken, so it lies past that one's start.
proof fn lemma_greedy_ordered(qs: Seq<Quad>, q0: int, m0: Seq<Option<Mergeable>>, ext_v: int, min_u: int, min_v: int)
    requires
        0 <= q0 <= qs.len(),
        m0.len() == 16 * ext_v,
        forall|k: int| q0 <= k < qs.len() ==> {
            let q = #[trigger] qs[k];
            &&& min_u <= q.u0 < q.u1 <= min_u + 16
            &&& min_v <= q.v0 < q.v1 <= min_v + ext_v
        },
        forall|k: int, u: int, v: int|
            q0 <= k < qs.len() && #[trigger] in_rect(qs[k], u, v) ==> mask_at(m0, u - min_u, v - min_v) == Some((qs[k].tile, qs[k].ao.0)),
        forall|j: int, k: int, u: int, v: int|
            q0 <= j < k < qs.len() ==> !(#[trigger] in_rect(qs[j], u, v) && #[trigger] in_rect(qs[k], u, v)),
        forall|k: int| q0 <= k < qs.len() ==> #[trigger] greedy_next(qs, q0, k, m0, ext_v, min_u, min_v),
    ensures
        forall|j: int, k: int|
            q0 <= j < k < qs.len() ==> scan_pos(#[trigger] qs[j], min_u, min_v) < scan_pos(#[trigger] qs[k], min_u, min_v),
{
    assert forall|j: int, k: int| q0 <= j < k < qs.len() implies scan_pos(#[trigger] qs[j], min_u, min_v) < scan_pos(#[trigger] qs[k], min_u, min_v) by {
        let (qj, qk) = (qs[j], qs[k]);
        let (u, v) = (qk.u0 as int, qk.v0 as int);
        assert(in_rect(qk, u, v));
        if scan_pos(qk, min_u, min_v) <= scan_pos(qj, min_u, min_v) {
            if u == qj.u0 && v == qj.v0 {
                assert(in_rect(qj, u, v));
            } else {
                assert(greedy_next(qs, q0, j, m0, ext_v, min_u, min_v));
                assert(mask_left(qs, q0, j, m0, min_u, min_v, u - min_u, v - min_v) is None);
                assert(mask_at(m0, u - min_u, v - min_v) is Some);
                let i = choose|i: int| q0 <= i < j && #[trigger] in_rect(qs[i], min_u + (u - min_u), min_v + (v - min_v));
                assert(in_rect(qs[i], u, v));
            }
        }
    }
}

/// The block position at layer `la` across face direction `f`'s axis and at
/// `(u, v)` along its two in-plane axes: ±X faces lie in Z (along U) and Y
/// (along V); ±Y faces in X and Z; ±Z faces in X and Y.
pub open spec fn place(f: int, la: int, u: int, v: int) -> (int, int, int) {
    if f < 2 {
        (la, v, u)
    } else if f < 4 {
        (u, la, v)
    } else {
        (u, v, la)
    }
}

/// The block at face-local position `(la, u, v)` for face direction `f`.
pub open spec fn block_in(w: World, f: int, la: int, u: int, v: int) -> Block {
    let p = place(f, la, u, v);
    w.block_at(p.0, p.1, p.2)
}

/// Which way face direction `f` points along its axis.
pub open spec fn face_sign(f: int) -> int {
    if f % 2 == 1 { 1 } else { -1 }
}

/// Whether the `f` face of the block at `(la, u, v)` shows: the block is
/// opaque and its neighbour on that side is not (air, water, or a plant).
pub open spec fn exposed(w: World, f: int, la: int, u: int, v: int) -> bool {
    opaque(block_in(w, f, la, u, v)) && !opaque(block_in(w, f, la + face_sign(f), u, v))
}

/// 1 for an opaque block, 0 for anything else.
pub open spec fn solid_count(w: World, f: int, la: int, u: int, v: int) -> int {
    if opaque(block_in(w, f, la, u, v)) { 1 } else { 0 }
}

/// The ambient occlusion level of the corner of the `f` face of the block at
/// `(la, u, v)` that lies towards `(du, dv)`: darkened by each opaque block
/// among the two edge neighbours and the diagonal one in the layer just
/// outside the face, and fully dark when both edge neighbours are opaque.
pub open spec fn corner_level(w: World, f: int, la: int, u: int, v: int, du: int, dv: int) -> u8 {
    let a = la + face_sign(f);
    let s1 = solid_count(w, f, a, u + du, v);
    let s2 = solid_count(w, f, a, u, v + dv);
    let c = solid_count(w, f, a, u + du, v + dv);
    if s1 == 1 && s2 == 1 { 0 } else { (3 - (s1 + s2 + c)) as u8 }
}

/// The occlusion levels of the four corners of a face, in the order
/// `(u0, v0)`, `(u1, v0)`, `(u1, v1)`, `(u0, v1)`.
pub open spec fn face_ao(w: World, f: int, la: int, u: int, v: int) -> (u8, u8, u8, u8) {
    (
        corner_level(w, f, la, u, v, -1, -1),
        corner_level(w, f, la, u, v, 1, -1),
        corner_level(w, f, la, u, v, 1, 1),
        corner_level(w, f, la, u, v, -1, 1),
    )
}

/// Whether `q` draws the `f` face of the block at face-local `(la, u, v)`.
pub open spec fn draws(q: Quad, f: int, la: int, u: int, v: int) -> bool {
    q.face == f && layer_of(q) == la && in_rect(q, u, v)
}

/// Whether `q` draws that face correctly: the face shows, and `q` has its
/// block's tile for that side and its corner shading.
pub open spec fn draws_right(w: World, q: Quad, f: int, la: int, u: int, v: int) -> bool {
    &&& exposed(w, f, la, u, v)
    &&& q.tile == tile_of(block_in(w, f, la, u, v), f)
    &&& q.ao == face_ao(w, f, la, u, v)
}

/// A coordinate whose neighbours fit comfortably in an `i32`.
pub open spec fn roomy(v: int) -> bool {
    i32::MIN < v < i32::MAX
}

/// The block at face-local position `(la, u, v)` for face direction `f`.
fn local_block(world: &World, f: usize, la: i32, u: i32, v: i32) -> (b: Block)
    requires
        world.wf(),
        f < 6,
    ensures
        b == block_in(*world, f as int, la as int, u as int, v as int),
{
    if f < 2 {
        world.get(la, v, u)
    } else if f < 4 {
        world.get(u, la, v)
    } else {
        world.get(u, v, la)
    }
}

/// Whether the block at a face-local position is opaque, as 0 or 1.
fn solid_at(world: &World, f: usize, la: i32, u: i32, v: i32) -> (n: u8)
    requires
        world.wf(),
        f < 6,
    ensures
        n == solid_count(*world, f as int, la as int, u as int, v as int),
{
    if is_opaque(local_block(world, f, la, u, v)) {
        1
    } else {
        0
    }
}

/// Ambient occlusion for the four corners of the `f` face of the block at
/// face-local `(la, u, v)` (see [`face_ao`]), as levels from 0, the darkest,
/// to 3.
pub fn corner_ao(world: &World, f: usize, la: i32, u: i32, v: i32) -> (ao: (u8, u8, u8, u8))
    requires
        world.wf(),
        f < 6,
        roomy(la as int),
        roomy(u as int),
        roomy(v as int),
    ensures
        ao == face_ao(*world, f as int, la as int, u as int, v as int),
{
    let a = if f % 2 == 1 {
        la + 1
    } else {
        la - 1
    };
    let mut out: [u8; 4] = [3; 4];
    let mut i: usize = 0;
    while i < 4
        invariant
            world.wf(),
            f < 6,
            roomy(la as int) && roomy(u as int) && roomy(v as int),
            a == la + face_sign(f as int),
            0 <= i <= 4,
            i > 0 ==> out[0] == corner_level(*world, f as int, la as int, u as int, v as int, -1, -1),
            i > 1 ==> out[1] == corner_level(*world, f as int, la as int, u as int, v as int, 1, -1),
            i > 2 ==> out[2] == corner_level(*world, f as int, la as int, u as int, v as int, 1, 1),
            i > 3 ==> out[3] == corner_level(*world, f as int, la as int, u as int, v as int, -1, 1),
        decreases 4 - i,
    {
        let (du, dv): (i32, i32) = if i == 0 {
            (-1, -1)
        } else if i == 1 {
            (1, -1)
        } else if i == 2 {
            (1, 1)
        } else {
            (-1, 1)
        };
        let s1 = solid_at(world, f, a, u + du, v);
        let s2 = solid_at(world, f, a, u, v + dv);
        let cc = solid_at(world, f, a, u + du, v + dv);
        // Two opaque edges fully occlude the corner, whatever the diagonal.
        let level = if s1 == 1 && s2 == 1 {
            0
        } else {
            3 - (s1 + s2 + cc)
        };
        out[i] = level;
        i = i + 1;
    }
    (out[0], out[1], out[2], out[3])
}

/// Whether a face's four corners are shaded alike, so it may merge.
pub open spec fn uniform(ao: (u8, u8, u8, u8)) -> bool {
    ao.0 == ao.1 && ao.1 == ao.2 && ao.2 == ao.3
}

/// What the greedy mask holds for the `f` face of the block at `(la, u, v)`:
/// the face's tile and level when it shows and its corners are shaded alike,
/// and nothing otherwise.
pub open spec fn mask_cell(w: World, f: int, la: int, u: int, v: int) -> Option<Mergeable> {
    if exposed(w, f, la, u, v) && uniform(face_ao(w, f, la, u, v)) {
        Some((tile_of(block_in(w, f, la, u, v), f), face_ao(w, f, la, u, v).0))
    } else {
        None
    }
}

/// The greedy mask of layer `la` of face direction `f`, `ext_v` rows deep at
/// in-plane origin `(min_u, min_v)`: each position holds its face's
/// mergeable tile and level (see [`mask_cell`]).
pub open spec fn layer_mask(w: World, f: int, la: int, min_u: int, min_v: int, ext_v: int) -> Seq<Option<Mergeable>> {
    Seq::new((16 * ext_v) as nat, |i: int| mask_cell(w, f, la, min_u + i % 16, min_v + i / 16))
}

/// Whether one of the quads before index `k` on face direction `f` and plane
/// `plane` spans `(u, v)`.
pub open spec fn covered_on(qs: Seq<Quad>, k: int, f: usize, plane: i32, u: int, v: int) -> bool {
    exists|j: int| 0 <= j < k && qs[j].face == f && qs[j].plane == plane && #[trigger] in_rect(qs[j], u, v)
}

/// What the mask `m0` of the layer of the quad at index `k` still holds at
/// `(a, b)` once the quads before it in that layer are cleared from it.
pub open spec fn layer_left(qs: Seq<Quad>, k: int, m0: Seq<Option<Mergeable>>, min_u: int, min_v: int, a: int, b: int) -> Option<Mergeable> {
    if covered_on(qs, k, qs[k].face, qs[k].plane, min_u + a, min_v + b) {
        None
    } else {
        mask_at(m0, a, b)
    }
}

/// Whether the quad at index `k` is the rectangle the greedy scan of its
/// layer's mask `m0` takes next, given the quads before it in that layer
/// (see [`greedy_next`]).
pub open spec fn greedy_on(qs: Seq<Quad>, k: int, m0: Seq<Option<Mergeable>>, ext_v: int, min_u: int, min_v: int) -> bool {
    let q = qs[k];
    let (a0, a1, b0, b1) = (q.u0 - min_u, q.u1 - min_u, q.v0 - min_v, q.v1 - min_v);
    let face = Some((q.tile, q.ao.0));
    &&& forall|a: int, b: int|
        0 <= a < 16 && 0 <= b < ext_v && (b < b0 || (b == b0 && a < a0)) ==> #[trigger] layer_left(qs, k, m0, min_u, min_v, a, b) is None
    &&& (a1 == 16 || layer_left(qs, k, m0, min_u, min_v, a1, b0) != face)
    &&& (b1 == ext_v || exists|a: int| a0 <= a < a1 && #[trigger] layer_left(qs, k, m0, min_u, min_v, a, b1) != face)
}

/// Where a quad comes in its layer: the faces drawn on their own first, then
/// the merged rectangles, each in scan order of where it starts.
pub open spec fn layer_order(q: Quad, min_u: int, min_v: int) -> int {
    (if uniform(q.ao) { 2048int } else { 0int }) + scan_pos(q, min_u, min_v)
}

/// The layer mask holds, at each position, that position's mergeable face.
proof fn lemma_layer_mask(w: World, f: int, la: int, min_u: int, min_v: int, ext_v: int, a: int, b: int)
    requires
        0 <= a < 16,
        0 <= b < ext_v,
    ensures
        mask_at(layer_mask(w, f, la, min_u, min_v, ext_v), a, b) == mask_cell(w, f, la, min_u + a, min_v + b),
{
    assert((b * 16 + a) % 16 == a && (b * 16 + a) / 16 == b) by (nonlinear_arith)
        requires
            0 <= a < 16,
            0 <= b,
    ;
    assert(b * 16 + a < 16 * ext_v) by (nonlinear_arith)
        requires
            0 <= a < 16,
            0 <= b < ext_v,
    ;
}

/// A layer meshed as its faces drawn on their own, in scan order, followed by
/// the greedy merge of its mask: each merged rectangle is the one the scan of
/// the layer's mask takes next given the quads before it in the layer, and
/// the quads come in layer order.
proof fn lemma_layer_exact(
    w: World,
    qs: Seq<Quad>,
    q0: int,
    q1: int,
    f: usize,
    la: int,
    plane: i32,
    min_u: int,
    min_v: int,
    ext_v: int,
)
    requires
        0 <= q0 <= q1 <= qs.len(),
        1 <= ext_v <= 128,
        plane == (if f % 2 == 1 { la + 1 } else { la }),
        forall|j: int| 0 <= j < q0 ==> !((#[trigger] qs[j]).face == f && layer_of(qs[j]) == la),
        forall|k: int| q0 <= k < qs.len() ==> {
            let q = #[trigger] qs[k];
            &&& q.face == f && q.plane == plane
            &&& min_u <= q.u0 < q.u1 <= min_u + 16
            &&& min_v <= q.v0 < q.v1 <= min_v + ext_v
        },
        forall|k: int| q0 <= k < q1 ==> {
            let q = #[trigger] qs[k];
            !uniform(q.ao) && q.u1 == q.u0 + 1 && q.v1 == q.v0 + 1
        },
        forall|k: int, u: int, v: int| q0 <= k < q1 && #[trigger] in_rect(qs[k], u, v) ==> !uniform(face_ao(w, f as int, la, u, v)),
        forall|j: int, k: int| q0 <= j < k < q1 ==> scan_pos(#[trigger] qs[j], min_u, min_v) < scan_pos(#[trigger] qs[k], min_u, min_v),
        forall|k: int, u: int, v: int|
            q1 <= k < qs.len() && #[trigger] in_rect(qs[k], u, v) ==> {
                let q = qs[k];
                mask_at(layer_mask(w, f as int, la, min_u, min_v, ext_v), u - min_u, v - min_v) == Some((q.tile, q.ao.0)) && q.ao == (
                    q.ao.0,
                    q.ao.0,
                    q.ao.0,
                    q.ao.0,
                )
            },
        forall|k: int|
            q1 <= k < qs.len() ==> #[trigger] greedy_next(qs, q1, k, layer_mask(w, f as int, la, min_u, min_v, ext_v), ext_v, min_u, min_v),
        forall|j: int, k: int| q1 <= j < k < qs.len() ==> scan_pos(#[trigger] qs[j], min_u, min_v) < scan_pos(#[trigger] qs[k], min_u, min_v),
    ensures
        forall|k: int| q0 <= k < qs.len() ==> {
            let q = #[trigger] qs[k];
            if uniform(q.ao) {
                greedy_on(qs, k, layer_mask(w, f as int, la, min_u, min_v, ext_v), ext_v, min_u, min_v)
            } else {
                q.u1 == q.u0 + 1 && q.v1 == q.v0 + 1
            }
        },
        forall|j: int, k: int| q0 <= j < k < qs.len() ==> layer_order(#[trigger] qs[j], min_u, min_v) < layer_order(#[trigger] qs[k], min_u, min_v),
{
    let m0 = layer_mask(w, f as int, la, min_u, min_v, ext_v);
    assert forall|k: int| q1 <= k < qs.len() implies uniform((#[trigger] qs[k]).ao) by {
        assert(in_rect(qs[k], qs[k].u0 as int, qs[k].v0 as int));
    }
    assert forall|k: int, a: int, b: int| q1 <= k < qs.len() implies #[trigger] layer_left(qs, k, m0, min_u, min_v, a, b)
        == mask_left(qs, q1, k, m0, min_u, min_v, a, b) by {
        let (u, v) = (min_u + a, min_v + b);
        if covered_between(qs, q1, k, u, v) {
            let j = choose|j: int| q1 <= j < k && #[trigger] in_rect(qs[j], u, v);
            assert(qs[j].face == f && qs[j].plane == plane);
        }
        if covered_on(qs, k, qs[k].face, qs[k].plane, u, v) {
            let j = choose|j: int| 0 <= j < k && qs[j].face == qs[k].face && qs[j].plane == qs[k].plane && #[trigger] in_rect(qs[j], u, v);
            if j < q0 {
                assert(layer_of(qs[j]) == la);
            } else if j < q1 {
                assert(!uniform(face_ao(w, f as int, la, u, v)));
                lemma_layer_mask(w, f as int, la, min_u, min_v, ext_v, a, b);
            }
        }
    }
    assert forall|k: int| q0 <= k < qs.len() implies {
        let q = #[trigger] qs[k];
        if uniform(q.ao) {
            greedy_on(qs, k, m0, ext_v, min_u, min_v)
        } else {
            q.u1 == q.u0 + 1 && q.v1 == q.v0 + 1
        }
    } by {
        if k >= q1 {
            let p = qs[k];
            assert(greedy_next(qs, q1, k, m0, ext_v, min_u, min_v));
            let (a0, a1, b0, b1) = (p.u0 - min_u, p.u1 - min_u, p.v0 - min_v, p.v1 - min_v);
            let face = Some((p.tile, p.ao.0));
            assert(layer_left(qs, k, m0, min_u, min_v, a1, b0) == mask_left(qs, q1, k, m0, min_u, min_v, a1, b0));
            if b1 != ext_v {
                let a = choose|a: int| a0 <= a < a1 && #[trigger] mask_left(qs, q1, k, m0, min_u, min_v, a, b1) != face;
                assert(layer_left(qs, k, m0, min_u, min_v, a, b1) == mask_left(qs, q1, k, m0, min_u, min_v, a, b1));
            }
        }
    }
    assert forall|j: int, k: int| q0 <= j < k < qs.len() implies layer_order(#[trigger] qs[j], min_u, min_v) < layer_order(#[trigger] qs[k], min_u, min_v) by {
        assert(0 <= scan_pos(qs[j], min_u, min_v) < 2048) by (nonlinear_arith)
            requires
                min_u <= qs[j].u0 < min_u + 16,
                min_v <= qs[j].v0 < min_v + ext_v,
                ext_v <= 128,
        ;
        assert(0 <= scan_pos(qs[k], min_u, min_v) < 2048) by (nonlinear_arith)
            requires
                min_u <= qs[k].u0 < min_u + 16,
                min_v <= qs[k].v0 < min_v + ext_v,
                ext_v <= 128,
        ;
    }
}

/// Quads spanning a position keep spanning it when more quads are added.
proof fn lemma_covered_grow(qs: Seq<Quad>, qs2: Seq<Quad>, from: int, u: int, v: int)
    requires
        0 <= from,
        qs.len() <= qs2.len(),
        qs2.subrange(0, qs.len() as int) == qs,
        covered(qs, from, u, v),
    ensures
        covered(qs2, from, u, v),
{
    let k = choose|k: int| from <= k < qs.len() && #[trigger] in_rect(qs[k], u, v);
    assert(qs2[k] == qs2.subrange(0, qs.len() as int)[k]);
}

/// Mesh one layer `la` of face direction `f` over the `16 × ext_v` face
/// positions from `(min_u, min_v)`: build the mask of mergeable faces,
/// drawing each shown face whose corners are shaded differently on its own
/// as it is found, then greedily merge the mask.
///
/// The quads added all lie in this layer and range; each draws only faces
/// that show, with their tile and shading; no two overlap; and together they
/// draw every face of the layer that shows. `mask` is scratch space, empty
/// before and after.
#[verifier::loop_isolation(false)]
#[verifier::rlimit(60)]
fn mesh_layer(
    world: &World,
    quads: &mut Vec<Quad>,
    mask: &mut Vec<Option<Mergeable>>,
    f: usize,
    la: i32,
    min_u: i32,
    min_v: i32,
    ext_v: i32,
)
    requires
        world.wf(),
        f < 6,
        1 <= ext_v <= 128,
        old(mask)@.len() == 16 * ext_v,
        forall|i: int| 0 <= i < old(mask)@.len() ==> #[trigger] old(mask)@[i] is None,
        roomy(la as int),
        i32::MIN < min_u && min_u + 16 < i32::MAX,
        i32::MIN < min_v && min_v + ext_v < i32::MAX,
        forall|j: int| 0 <= j < old(quads)@.len() ==> !((#[trigger] old(quads)@[j]).face == f && layer_of(old(quads)@[j]) == la),
    ensures
        final(mask)@.len() == old(mask)@.len(),
        forall|i: int| 0 <= i < final(mask)@.len() ==> #[trigger] final(mask)@[i] is None,
        final(quads)@.len() >= old(quads)@.len(),
        final(quads)@.subrange(0, old(quads)@.len() as int) == old(quads)@,
        forall|k: int| old(quads)@.len() <= k < final(quads)@.len() ==> {
            let q = #[trigger] final(quads)@[k];
            &&& q.face == f && layer_of(q) == la
            &&& min_u <= q.u0 < q.u1 <= min_u + 16
            &&& min_v <= q.v0 < q.v1 <= min_v + ext_v
        },
        forall|k: int, u: int, v: int|
            old(quads)@.len() <= k < final(quads)@.len() && #[trigger] in_rect(final(quads)@[k], u, v)
                ==> draws_right(*world, final(quads)@[k], f as int, la as int, u, v),
        forall|j: int, k: int, u: int, v: int|
            old(quads)@.len() <= j < k < final(quads)@.len() ==> !(#[trigger] in_rect(final(quads)@[j], u, v)
                && #[trigger] in_rect(final(quads)@[k], u, v)),
        forall|u: int, v: int|
            min_u <= u < min_u + 16 && min_v <= v < min_v + ext_v && #[trigger] exposed(*world, f as int, la as int, u, v)
                ==> covered(final(quads)@, old(quads)@.len() as int, u, v),
        forall|k: int| old(quads)@.len() <= k < final(quads)@.len() ==> {
            let q = #[trigger] final(quads)@[k];
            if uniform(q.ao) {
                greedy_on(final(quads)@, k, layer_mask(*world, f as int, la as int, min_u as int, min_v as int, ext_v as int), ext_v as int, min_u as int, min_v as int)
            } else {
                q.u1 == q.u0 + 1 && q.v1 == q.v0 + 1
            }
        },
        forall|j: int, k: int|
            old(quads)@.len() <= j < k < final(quads)@.len() ==> layer_order(#[trigger] final(quads)@[j], min_u as int, min_v as int)
                < layer_order(#[trigger] final(quads)@[k], min_u as int, min_v as int),
{
    let ghost q0 = quads@.len() as int;
    let plane = if f % 2 == 1 {
        la + 1
    } else {
        la
    };
    let mut iv: i32 = 0;
    while iv < ext_v
        invariant
            0 <= iv <= ext_v,
            mask@.len() == 16 * ext_v,
            quads@.len() >= q0,
            quads@.subrange(0, q0) == old(quads)@,
            forall|k: int| q0 <= k < quads@.len() ==> {
                let q = #[trigger] quads@[k];
                &&& q.face == f && q.plane == plane
                &&& min_u <= q.u0 < q.u1 <= min_u + 16
                &&& min_v <= q.v0 < q.v1 <= min_v + ext_v
            },
            forall|k: int, u: int, v: int|
                q0 <= k < quads@.len() && #[trigger] in_rect(quads@[k], u, v) ==> {
                    &&& draws_right(*world, quads@[k], f as int, la as int, u, v)
                    &&& !uniform(face_ao(*world, f as int, la as int, u, v))
                    &&& v - min_v < iv
                },
            forall|j: int, k: int, u: int, v: int|
                q0 <= j < k < quads@.len() ==> !(#[trigger] in_rect(quads@[j], u, v) && #[trigger] in_rect(quads@[k], u, v)),
            forall|a: int, b: int|
                0 <= a < 16 && 0 <= b < ext_v ==> #[trigger] mask_at(mask@, a, b) == (if b < iv {
                    mask_cell(*world, f as int, la as int, min_u + a, min_v + b)
                } else {
                    None
                }),
            forall|a: int, b: int|
                0 <= a < 16 && 0 <= b < iv && #[trigger] exposed(*world, f as int, la as int, min_u + a, min_v + b)
                    && !uniform(face_ao(*world, f as int, la as int, min_u + a, min_v + b)) ==> covered(quads@, q0, min_u + a, min_v + b),
            forall|k: int| q0 <= k < quads@.len() ==> {
                let q = #[trigger] quads@[k];
                &&& !uniform(q.ao) && q.u1 == q.u0 + 1 && q.v1 == q.v0 + 1
                &&& scan_pos(q, min_u as int, min_v as int) < iv * 16
            },
            forall|j: int, k: int|
                q0 <= j < k < quads@.len() ==> scan_pos(#[trigger] quads@[j], min_u as int, min_v as int) < scan_pos(#[trigger] quads@[k], min_u as int, min_v as int),
        decreases ext_v - iv,
    {
        let mut iu: i32 = 0;
        while iu < 16
            invariant
                0 <= iv < ext_v,
                0 <= iu <= 16,
                mask@.len() == 16 * ext_v,
                quads@.len() >= q0,
                quads@.subrange(0, q0) == old(quads)@,
                forall|k: int| q0 <= k < quads@.len() ==> {
                    let q = #[trigger] quads@[k];
                    &&& q.face == f && q.plane == plane
                    &&& min_u <= q.u0 < q.u1 <= min_u + 16
                    &&& min_v <= q.v0 < q.v1 <= min_v + ext_v
                },
                forall|k: int, u: int, v: int|
                    q0 <= k < quads@.len() && #[trigger] in_rect(quads@[k], u, v) ==> {
                        &&& draws_right(*world, quads@[k], f as int, la as int, u, v)
                        &&& !uniform(face_ao(*world, f as int, la as int, u, v))
                        &&& (v - min_v < iv || (v - min_v == iv && u - min_u < iu))
                    },
                forall|j: int, k: int, u: int, v: int|
                    q0 <= j < k < quads@.len() ==> !(#[trigger] in_rect(quads@[j], u, v) && #[trigger] in_rect(quads@[k], u, v)),
                forall|a: int, b: int|
                    0 <= a < 16 && 0 <= b < ext_v ==> #[trigger] mask_at(mask@, a, b) == (if b < iv || (b == iv && a < iu) {
                        mask_cell(*world, f as int, la as int, min_u + a, min_v + b)
                    } else {
                        None
                    }),
                forall|a: int, b: int|
                    0 <= a < 16 && (0 <= b < iv || (b == iv && a < iu)) && #[trigger] exposed(*world, f as int, la as int, min_u + a, min_v + b)
                        && !uniform(face_ao(*world, f as int, la as int, min_u + a, min_v + b)) ==> covered(quads@, q0, min_u + a, min_v + b),
                forall|k: int| q0 <= k < quads@.len() ==> {
                    let q = #[trigger] quads@[k];
                    &&& !uniform(q.ao) && q.u1 == q.u0 + 1 && q.v1 == q.v0 + 1
                    &&& scan_pos(q, min_u as int, min_v as int) < iv * 16 + iu
                },
                forall|j: int, k: int|
                    q0 <= j < k < quads@.len() ==> scan_pos(#[trigger] quads@[j], min_u as int, min_v as int) < scan_pos(#[trigger] quads@[k], min_u as int, min_v as int),
            decreases 16 - iu,
        {
            let u = min_u + iu;
            let v = min_v + iv;
            let idx = (iv * 16 + iu) as usize;
            let block = local_block(world, f, la, u, v);
            let nb = if f % 2 == 1 {
                la + 1
            } else {
                la - 1
            };
            let ghost before = quads@;
            let ghost m1 = mask@;
            // Shown only where the neighbour along the face normal is not
            // opaque (air, water or a plant).
            if is_opaque(block) && !is_opaque(local_block(world, f, nb, u, v)) {
                let tile = block_tile(block, f);
                let ao = corner_ao(world, f, la, u, v);
                if ao.0 == ao.1 && ao.1 == ao.2 && ao.2 == ao.3 {
                    mask.set(idx, Some((tile, ao.0)));
                } else {
                    // Shading that varies across the face cannot be stretched
                    // over a merge: draw this face on its own.
                    let q = Quad { face: f, plane, u0: u, u1: u + 1, v0: v, v1: v + 1, tile, ao };
                    quads.push(q);
                    proof {
                        let n = before.len() as int;
                        assert(quads@[n] == q);
                        assert forall|k: int| q0 <= k < n implies #[trigger] quads@[k] == before[k] by {}
                        assert(quads@.subrange(0, q0) =~= before.subrange(0, q0));
                        lemma_covered_push(before, q0, q, u as int, v as int);
                        assert forall|a: int, b: int|
                            0 <= a < 16 && (0 <= b < iv || (b == iv && a < iu + 1)) && #[trigger] exposed(*world, f as int, la as int, min_u + a, min_v + b)
                                && !uniform(face_ao(*world, f as int, la as int, min_u + a, min_v + b)) implies covered(quads@, q0, min_u + a, min_v + b) by {
                            lemma_covered_push(before, q0, q, min_u + a, min_v + b);
                        }
                    }
                }
            }
            proof {
                assert forall|a: int, b: int| 0 <= a < 16 && 0 <= b < ext_v implies #[trigger] mask_at(mask@, a, b) == (if b < iv || (b == iv && a < iu + 1) {
                    mask_cell(*world, f as int, la as int, min_u + a, min_v + b)
                } else {
                    None
                }) by {
                    if b * 16 + a != idx as int {
                        assert(mask_at(mask@, a, b) == mask_at(m1, a, b));
                    }
                }
            }
            iu = iu + 1;
        }
        iv = iv + 1;
    }
    let ghost q1 = quads@.len() as int;
    let ghost mid = quads@;
    let ghost m0 = mask@;
    proof {
        let lm = layer_mask(*world, f as int, la as int, min_u as int, min_v as int, ext_v as int);
        assert forall|i: int| 0 <= i < m0.len() implies m0[i] == lm[i] by {
            let a = i % 16;
            let b = i / 16;
            assert(i == b * 16 + a && 0 <= a < 16 && 0 <= b < ext_v) by (nonlinear_arith)
                requires
                    0 <= i < 16 * ext_v,
                    a == i % 16,
                    b == i / 16,
            ;
            assert(mask_at(m0, a, b) == mask_cell(*world, f as int, la as int, min_u + a, min_v + b));
        }
        assert(m0 =~= lm);
    }
    merge_mask(quads, mask, ext_v, f, plane, min_u, min_v);
    proof {
        let qs = quads@;
        assert forall|k: int| q0 <= k < q1 implies #[trigger] qs[k] == mid[k] by {
            assert(qs.subrange(0, q1)[k] == mid[k]);
        }
        assert(qs.subrange(0, q0) =~= mid.subrange(0, q0));
        assert forall|k: int, u: int, v: int|
            q0 <= k < qs.len() && #[trigger] in_rect(qs[k], u, v) implies draws_right(*world, qs[k], f as int, la as int, u, v) by {
            if k >= q1 {
                assert(mask_at(m0, u - min_u, v - min_v) == Some((qs[k].tile, qs[k].ao.0)));
            }
        }
        assert forall|j: int, k: int, u: int, v: int|
            q0 <= j < k < qs.len() implies !(#[trigger] in_rect(qs[j], u, v) && #[trigger] in_rect(qs[k], u, v)) by {
            if j < q1 && k >= q1 && in_rect(qs[j], u, v) && in_rect(qs[k], u, v) {
                assert(mask_at(m0, u - min_u, v - min_v) == Some((qs[k].tile, qs[k].ao.0)));
                assert(!uniform(face_ao(*world, f as int, la as int, u, v)));
            }
        }
        assert forall|u: int, v: int|
            min_u <= u < min_u + 16 && min_v <= v < min_v + ext_v && #[trigger] exposed(*world, f as int, la as int, u, v)
                implies covered(qs, q0, u, v) by {
            let a = u - min_u;
            let b = v - min_v;
            if uniform(face_ao(*world, f as int, la as int, u, v)) {
                assert(mask_at(m0, a, b) is Some);
                assert(covered(qs, q1, min_u + a, min_v + b));
                let k = choose|k: int| q1 <= k < qs.len() && #[trigger] in_rect(qs[k], u, v);
                assert(in_rect(qs[k], u, v));
            } else {
                assert(covered(mid, q0, min_u + a, min_v + b));
                lemma_covered_grow(mid, qs, q0, u, v);
            }
        }
        assert forall|j: int| 0 <= j < q0 implies !((#[trigger] qs[j]).face == f && layer_of(qs[j]) == la) by {
            assert(qs.subrange(0, q0)[j] == qs[j]);
            assert(old(quads)@[j] == qs[j]);
        }
        lemma_layer_exact(*world, qs, q0, q1, f, la as int, plane, min_u as int, min_v as int, ext_v as int);
    }
}

/// Where the faces of face direction `f` of the chunk column at block origin
/// `(ox, oz)` lie, face-locally: the first layer and how many layers there
/// are, then the origin of the in-plane positions and how many rows deep
/// they run (they are always a chunk wide).
pub open spec fn frame(f: int, ox: int, oz: int) -> (int, int, int, int, int) {
    if f < 2 {
        (ox, 16, oz, 0, 128)
    } else if f < 4 {
        (0, 128, ox, oz, 16)
    } else {
        (oz, 16, ox, 0, 128)
    }
}

/// Whether face-local `(la, u, v)` of face direction `f` is a block of the
/// chunk column at block origin `(ox, oz)`.
pub open spec fn in_column(f: int, ox: int, oz: int, la: int, u: int, v: int) -> bool {
    let fr = frame(f, ox, oz);
    fr.0 <= la < fr.0 + fr.1 && fr.2 <= u < fr.2 + 16 && fr.3 <= v < fr.3 + fr.4
}

/// Whether one of `qs` draws the `f` face of the block at `(la, u, v)`.
pub open spec fn drawn(qs: Seq<Quad>, f: int, la: int, u: int, v: int) -> bool {
    exists|k: int| 0 <= k < qs.len() && #[trigger] draws(qs[k], f, la, u, v)
}

/// Whether layer `la` of face direction `f2` is meshed once the scan has
/// reached layer index `li` of face direction `f`.
pub open spec fn meshed(ox: int, oz: int, f: int, li: int, f2: int, la: int) -> bool {
    f2 < f || (f2 == f && frame(f2, ox, oz).0 <= la < frame(f2, ox, oz).0 + li)
}

/// The frame of face direction `f` (see [`frame`]).
fn face_frame(f: usize, ox: i32, oz: i32) -> (fr: (i32, i32, i32, i32, i32))
    requires
        f < 6,
    ensures
        fr.0 == frame(f as int, ox as int, oz as int).0,
        fr.1 == frame(f as int, ox as int, oz as int).1,
        fr.2 == frame(f as int, ox as int, oz as int).2,
        fr.3 == frame(f as int, ox as int, oz as int).3,
        fr.4 == frame(f as int, ox as int, oz as int).4,
{
    if f < 2 {
        (ox, 16, oz, 0, 128)
    } else if f < 4 {
        (0, 128, ox, oz, 16)
    } else {
        (oz, 16, ox, 0, 128)
    }
}

/// `quads` mesh the opaque blocks of the chunk column at block origin
/// `(ox, oz)`: every quad draws only faces of blocks in the column that show,
/// each with its block's tile for that side and its own corner shading; no
/// face is drawn by two quads; and every face of an opaque block in the
/// column whose neighbour is not opaque is drawn.
pub open spec fn opaque_mesh(w: World, ox: int, oz: int, quads: Seq<Quad>) -> bool {
    &&& forall|k: int| 0 <= k < quads.len() ==> (#[trigger] quads[k]).face < 6
    &&& forall|k: int, u: int, v: int|
        0 <= k < quads.len() && #[trigger] in_rect(quads[k], u, v) ==> {
            let q = quads[k];
            &&& in_column(q.face as int, ox, oz, layer_of(q), u, v)
            &&& draws_right(w, q, q.face as int, layer_of(q), u, v)
        }
    &&& forall|j: int, k: int, f: int, la: int, u: int, v: int|
        0 <= j < k < quads.len() ==> !(#[trigger] draws(quads[j], f, la, u, v) && #[trigger] draws(quads[k], f, la, u, v))
    &&& forall|f: int, la: int, u: int, v: int|
        0 <= f < 6 && in_column(f, ox, oz, la, u, v) && #[trigger] exposed(w, f, la, u, v) ==> drawn(quads, f, la, u, v)
}

/// Where a quad comes in the mesh of the chunk column at block origin
/// `(ox, oz)`: face direction by face direction, layer by layer, and within a
/// layer in layer order (see [`layer_order`]).
pub open spec fn mesh_order(ox: int, oz: int, q: Quad) -> int {
    let fr = frame(q.face as int, ox, oz);
    (q.face * 128 + (layer_of(q) - fr.0)) * 4096 + layer_order(q, fr.2, fr.3)
}

/// How the quad at index `k` of `quads` was made: a face whose corners are
/// shaded differently is drawn on its own, one block face; every other quad
/// is the rectangle the greedy scan of its layer's mask takes next, given the
/// quads before it in that layer.
pub open spec fn made_greedily(w: World, ox: int, oz: int, quads: Seq<Quad>, k: int) -> bool {
    let q = quads[k];
    let fr = frame(q.face as int, ox, oz);
    if uniform(q.ao) {
        greedy_on(quads, k, layer_mask(w, q.face as int, layer_of(q), fr.2, fr.3, fr.4), fr.4, fr.2, fr.3)
    } else {
        q.u1 == q.u0 + 1 && q.v1 == q.v0 + 1
    }
}

/// What the greedy scan of a layer takes next stays so when more quads are
/// added after it.
proof fn lemma_greedy_on_prefix(qs: Seq<Quad>, qs2: Seq<Quad>, k: int, m0: Seq<Option<Mergeable>>, ext_v: int, min_u: int, min_v: int)
    requires
        0 <= k < qs.len() <= qs2.len(),
        qs2.subrange(0, qs.len() as int) == qs,
        greedy_on(qs, k, m0, ext_v, min_u, min_v),
    ensures
        greedy_on(qs2, k, m0, ext_v, min_u, min_v),
{
    assert forall|j: int| 0 <= j < qs.len() implies #[trigger] qs2[j] == qs[j] by {
        assert(qs2.subrange(0, qs.len() as int)[j] == qs2[j]);
    }
    let p = qs[k];
    assert(qs2[k] == p);
    assert forall|a: int, b: int| #[trigger] layer_left(qs2, k, m0, min_u, min_v, a, b) == layer_left(qs, k, m0, min_u, min_v, a, b) by {
        let (u, v) = (min_u + a, min_v + b);
        if covered_on(qs2, k, p.face, p.plane, u, v) {
            let j = choose|j: int| 0 <= j < k && qs2[j].face == p.face && qs2[j].plane == p.plane && #[trigger] in_rect(qs2[j], u, v);
            assert(qs2[j] == qs[j]);
        }
        if covered_on(qs, k, p.face, p.plane, u, v) {
            let j = choose|j: int| 0 <= j < k && qs[j].face == p.face && qs[j].plane == p.plane && #[trigger] in_rect(qs[j], u, v);
            assert(qs2[j] == qs[j]);
            assert(in_rect(qs2[j], u, v));
        }
    }
    let (a0, a1, b0, b1) = (p.u0 - min_u, p.u1 - min_u, p.v0 - min_v, p.v1 - min_v);
    let face = Some((p.tile, p.ao.0));
    assert(layer_left(qs2, k, m0, min_u, min_v, a1, b0) == layer_left(qs, k, m0, min_u, min_v, a1, b0));
    if b1 != ext_v {
        let a = choose|a: int| a0 <= a < a1 && #[trigger] layer_left(qs, k, m0, min_u, min_v, a, b1) != face;
        assert(layer_left(qs2, k, m0, min_u, min_v, a, b1) == layer_left(qs, k, m0, min_u, min_v, a, b1));
    }
}

/// Adding the quads of layer `la` (index `li`) of face direction `f`, made
/// and ordered as [`mesh_layer`] makes them, keeps every quad made greedily
/// and all of them in mesh order, all before the next layer.
proof fn lemma_layer_ordered(w: World, before: Seq<Quad>, after: Seq<Quad>, ox: int, oz: int, f: int, li: int, la: int)
    requires
        0 <= f < 6,
        0 <= li < frame(f, ox, oz).1,
        la == frame(f, ox, oz).0 + li,
        after.len() >= before.len(),
        after.subrange(0, before.len() as int) == before,
        forall|k: int| 0 <= k < before.len() ==> made_greedily(w, ox, oz, before, k),
        forall|j: int, k: int|
            0 <= j < k < before.len() ==> mesh_order(ox, oz, #[trigger] before[j]) < mesh_order(ox, oz, #[trigger] before[k]),
        forall|k: int| 0 <= k < before.len() ==> 0 <= mesh_order(ox, oz, #[trigger] before[k]) < (f * 128 + li) * 4096,
        forall|k: int| before.len() <= k < after.len() ==> {
            let q = #[trigger] after[k];
            &&& q.face == f && layer_of(q) == la
            &&& frame(f, ox, oz).2 <= q.u0 < q.u1 <= frame(f, ox, oz).2 + 16
            &&& frame(f, ox, oz).3 <= q.v0 < q.v1 <= frame(f, ox, oz).3 + frame(f, ox, oz).4
        },
        forall|k: int| before.len() <= k < after.len() ==> {
            let q = #[trigger] after[k];
            if uniform(q.ao) {
                greedy_on(after, k, layer_mask(w, f, la, frame(f, ox, oz).2, frame(f, ox, oz).3, frame(f, ox, oz).4), frame(f, ox, oz).4, frame(f, ox, oz).2, frame(f, ox, oz).3)
            } else {
                q.u1 == q.u0 + 1 && q.v1 == q.v0 + 1
            }
        },
        forall|j: int, k: int|
            before.len() <= j < k < after.len() ==> layer_order(#[trigger] after[j], frame(f, ox, oz).2, frame(f, ox, oz).3)
                < layer_order(#[trigger] after[k], frame(f, ox, oz).2, frame(f, ox, oz).3),
    ensures
        forall|k: int| 0 <= k < after.len() ==> made_greedily(w, ox, oz, after, k),
        forall|j: int, k: int|
            0 <= j < k < after.len() ==> mesh_order(ox, oz, #[trigger] after[j]) < mesh_order(ox, oz, #[trigger] after[k]),
        forall|k: int| 0 <= k < after.len() ==> 0 <= mesh_order(ox, oz, #[trigger] after[k]) < (f * 128 + li + 1) * 4096,
{
    let n = before.len() as int;
    let fr = frame(f, ox, oz);
    assert forall|k: int| 0 <= k < n implies #[trigger] after[k] == before[k] by {
        assert(after.subrange(0, n)[k] == after[k]);
    }
    assert forall|k: int| n <= k < after.len() implies (f * 128 + li) * 4096 <= mesh_order(ox, oz, #[trigger] after[k]) < (f * 128 + li + 1) * 4096 by {
        let q = after[k];
        assert(0 <= scan_pos(q, fr.2, fr.3) < 2048) by (nonlinear_arith)
            requires
                fr.2 <= q.u0 < fr.2 + 16,
                fr.3 <= q.v0 < fr.3 + fr.4,
                fr.4 <= 128,
        ;
    }
    assert forall|k: int| 0 <= k < after.len() implies made_greedily(w, ox, oz, after, k) by {
        if k < n {
            assert(made_greedily(w, ox, oz, before, k));
            let q = before[k];
            let fq = frame(q.face as int, ox, oz);
            if uniform(q.ao) {
                lemma_greedy_on_prefix(before, after, k, layer_mask(w, q.face as int, layer_of(q), fq.2, fq.3, fq.4), fq.4, fq.2, fq.3);
            }
        }
    }
    assert forall|j: int, k: int|
        0 <= j < k < after.len() implies mesh_order(ox, oz, #[trigger] after[j]) < mesh_order(ox, oz, #[trigger] after[k]) by {
        if k < n {
        } else if j < n {
        } else {
            assert(layer_order(after[j], fr.2, fr.3) < layer_order(after[k], fr.2, fr.3));
        }
    }
}

/// Greedy-mesh the opaque blocks of the chunk column at block origin
/// `(ox, oz)`, one face direction and one layer at a time.
///
/// Every quad draws only faces of blocks in the column that show, each with
/// its block's tile for that side and its own corner shading; no face is
/// drawn twice; and every face of an opaque block in the column whose
/// neighbour is not opaque is drawn. Each quad is a face whose corners are
/// shaded differently, drawn on its own, or the rectangle the greedy scan of
/// its layer takes next (see [`made_greedily`]); and the quads come face
/// direction by face direction, layer by layer, the faces drawn on their own
/// before the merged rectangles, each in scan order (see [`mesh_order`]).
pub fn build_opaque(world: &World, ox: i32, oz: i32) -> (quads: Vec<Quad>)
    requires
        world.wf(),
        i32::MIN < ox && ox + 16 < i32::MAX,
        i32::MIN < oz && oz + 16 < i32::MAX,
    ensures
        opaque_mesh(*world, ox as int, oz as int, quads@),
        forall|k: int| 0 <= k < quads@.len() ==> made_greedily(*world, ox as int, oz as int, quads@, k),
        forall|j: int, k: int|
            0 <= j < k < quads@.len() ==> mesh_order(ox as int, oz as int, #[trigger] quads@[j]) < mesh_order(ox as int, oz as int, #[trigger] quads@[k]),
{
    let mut quads: Vec<Quad> = Vec::new();
    let mut f: usize = 0;
    while f < 6
        invariant
            world.wf(),
            i32::MIN < ox && ox + 16 < i32::MAX,
            i32::MIN < oz && oz + 16 < i32::MAX,
            0 <= f <= 6,
            forall|k: int| 0 <= k < quads@.len() ==> meshed(ox as int, oz as int, f as int, 0, (#[trigger] quads@[k]).face as int, layer_of(quads@[k])),
            forall|k: int| 0 <= k < quads@.len() ==> (#[trigger] quads@[k]).face < 6,
            forall|k: int, u: int, v: int|
                0 <= k < quads@.len() && #[trigger] in_rect(quads@[k], u, v) ==> {
                    let q = quads@[k];
                    &&& in_column(q.face as int, ox as int, oz as int, layer_of(q), u, v)
                    &&& draws_right(*world, q, q.face as int, layer_of(q), u, v)
                },
            forall|j: int, k: int, f2: int, la: int, u: int, v: int|
                0 <= j < k < quads@.len() ==> !(#[trigger] draws(quads@[j], f2, la, u, v) && #[trigger] draws(quads@[k], f2, la, u, v)),
            forall|f2: int, la: int, u: int, v: int|
                0 <= f2 < 6 && in_column(f2, ox as int, oz as int, la, u, v) && meshed(ox as int, oz as int, f as int, 0, f2, la)
                    && #[trigger] exposed(*world, f2, la, u, v) ==> drawn(quads@, f2, la, u, v),
            forall|k: int| 0 <= k < quads@.len() ==> made_greedily(*world, ox as int, oz as int, quads@, k),
            forall|j: int, k: int|
                0 <= j < k < quads@.len() ==> mesh_order(ox as int, oz as int, #[trigger] quads@[j]) < mesh_order(ox as int, oz as int, #[trigger] quads@[k]),
            forall|k: int| 0 <= k < quads@.len() ==> 0 <= mesh_order(ox as int, oz as int, #[trigger] quads@[k]) < (f * 128) * 4096,
        decreases 6 - f,
    {
        let (min_a, ext_a, min_u, min_v, ext_v) = face_frame(f, ox, oz);
        let mut mask: Vec<Option<Mergeable>> = vec![None; (16 * ext_v) as usize];
        proof {
            assert forall|i: int| 0 <= i < mask@.len() implies #[trigger] mask@[i] is None by {
                assert(cloned(None::<Mergeable>, mask@[i]));
            }
        }
        let mut li: i32 = 0;
        while li < ext_a
            invariant
                world.wf(),
                i32::MIN < ox && ox + 16 < i32::MAX,
                i32::MIN < oz && oz + 16 < i32::MAX,
                0 <= f < 6,
                min_a == frame(f as int, ox as int, oz as int).0,
                ext_a == frame(f as int, ox as int, oz as int).1,
                min_u == frame(f as int, ox as int, oz as int).2,
                min_v == frame(f as int, ox as int, oz as int).3,
                ext_v == frame(f as int, ox as int, oz as int).4,
                0 <= li <= ext_a,
                mask@.len() == 16 * ext_v,
                forall|i: int| 0 <= i < mask@.len() ==> #[trigger] mask@[i] is None,
                forall|k: int| 0 <= k < quads@.len() ==> meshed(ox as int, oz as int, f as int, li as int, (#[trigger] quads@[k]).face as int, layer_of(quads@[k])),
                forall|k: int| 0 <= k < quads@.len() ==> (#[trigger] quads@[k]).face < 6,
                forall|k: int, u: int, v: int|
                    0 <= k < quads@.len() && #[trigger] in_rect(quads@[k], u, v) ==> {
                        let q = quads@[k];
                        &&& in_column(q.face as int, ox as int, oz as int, layer_of(q), u, v)
                        &&& draws_right(*world, q, q.face as int, layer_of(q), u, v)
                    },
                forall|j: int, k: int, f2: int, la: int, u: int, v: int|
                    0 <= j < k < quads@.len() ==> !(#[trigger] draws(quads@[j], f2, la, u, v) && #[trigger] draws(quads@[k], f2, la, u, v)),
                forall|f2: int, la: int, u: int, v: int|
                    0 <= f2 < 6 && in_column(f2, ox as int, oz as int, la, u, v) && meshed(ox as int, oz as int, f as int, li as int, f2, la)
                        && #[trigger] exposed(*world, f2, la, u, v) ==> drawn(quads@, f2, la, u, v),
                forall|k: int| 0 <= k < quads@.len() ==> made_greedily(*world, ox as int, oz as int, quads@, k),
                forall|j: int, k: int|
                    0 <= j < k < quads@.len() ==> mesh_order(ox as int, oz as int, #[trigger] quads@[j]) < mesh_order(ox as int, oz as int, #[trigger] quads@[k]),
                forall|k: int| 0 <= k < quads@.len() ==> 0 <= mesh_order(ox as int, oz as int, #[trigger] quads@[k]) < (f * 128 + li) * 4096,
            decreases ext_a - li,
        {
            let la = min_a + li;
            let ghost before = quads@;
            let ghost n = quads@.len() as int;
            mesh_layer(world, &mut quads, &mut mask, f, la, min_u, min_v, ext_v);
            proof {
                lemma_layer_added(*world, before, quads@, ox as int, oz as int, f as int, li as int, la as int);
                lemma_layer_ordered(*world, before, quads@, ox as int, oz as int, f as int, li as int, la as int);
            }
            li = li + 1;
        }
        proof {
            assert(ext_a <= 128);
        }
        f = f + 1;
    }
    quads
}

/// Adding the quads of layer `la` (index `li`) of face direction `f`, as
/// [`mesh_layer`] describes them, to quads that mesh the layers before it
/// meshes the layers up to and including it.
proof fn lemma_layer_added(w: World, before: Seq<Quad>, after: Seq<Quad>, ox: int, oz: int, f: int, li: int, la: int)
    requires
        0 <= f < 6,
        0 <= li < frame(f, ox, oz).1,
        la == frame(f, ox, oz).0 + li,
        after.len() >= before.len(),
        after.subrange(0, before.len() as int) == before,
        forall|k: int| 0 <= k < before.len() ==> meshed(ox, oz, f, li, (#[trigger] before[k]).face as int, layer_of(before[k])),
        forall|k: int| 0 <= k < before.len() ==> (#[trigger] before[k]).face < 6,
        forall|k: int, u: int, v: int|
            0 <= k < before.len() && #[trigger] in_rect(before[k], u, v) ==> {
                let q = before[k];
                &&& in_column(q.face as int, ox, oz, layer_of(q), u, v)
                &&& draws_right(w, q, q.face as int, layer_of(q), u, v)
            },
        forall|j: int, k: int, f2: int, la2: int, u: int, v: int|
            0 <= j < k < before.len() ==> !(#[trigger] draws(before[j], f2, la2, u, v) && #[trigger] draws(before[k], f2, la2, u, v)),
        forall|f2: int, la2: int, u: int, v: int|
            0 <= f2 < 6 && in_column(f2, ox, oz, la2, u, v) && meshed(ox, oz, f, li, f2, la2)
                && #[trigger] exposed(w, f2, la2, u, v) ==> drawn(before, f2, la2, u, v),
        // What the layer's quads are.
        forall|k: int| before.len() <= k < after.len() ==> {
            let q = #[trigger] after[k];
            &&& q.face == f && layer_of(q) == la
            &&& frame(f, ox, oz).2 <= q.u0 < q.u1 <= frame(f, ox, oz).2 + 16
            &&& frame(f, ox, oz).3 <= q.v0 < q.v1 <= frame(f, ox, oz).3 + frame(f, ox, oz).4
        },
        forall|k: int, u: int, v: int|
            before.len() <= k < after.len() && #[trigger] in_rect(after[k], u, v) ==> draws_right(w, after[k], f, la, u, v),
        forall|j: int, k: int, u: int, v: int|
            before.len() <= j < k < after.len() ==> !(#[trigger] in_rect(after[j], u, v) && #[trigger] in_rect(after[k], u, v)),
        forall|u: int, v: int|
            frame(f, ox, oz).2 <= u < frame(f, ox, oz).2 + 16 && frame(f, ox, oz).3 <= v < frame(f, ox, oz).3 + frame(f, ox, oz).4
                && #[trigger] exposed(w, f, la, u, v) ==> covered(after, before.len() as int, u, v),
    ensures
        forall|k: int| 0 <= k < after.len() ==> meshed(ox, oz, f, li + 1, (#[trigger] after[k]).face as int, layer_of(after[k])),
        forall|k: int| 0 <= k < after.len() ==> (#[trigger] after[k]).face < 6,
        forall|k: int, u: int, v: int|
            0 <= k < after.len() && #[trigger] in_rect(after[k], u, v) ==> {
                let q = after[k];
                &&& in_column(q.face as int, ox, oz, layer_of(q), u, v)
                &&& draws_right(w, q, q.face as int, layer_of(q), u, v)
            },
        forall|j: int, k: int, f2: int, la2: int, u: int, v: int|
            0 <= j < k < after.len() ==> !(#[trigger] draws(after[j], f2, la2, u, v) && #[trigger] draws(after[k], f2, la2, u, v)),
        forall|f2: int, la2: int, u: int, v: int|
            0 <= f2 < 6 && in_column(f2, ox, oz, la2, u, v) && meshed(ox, oz, f, li + 1, f2, la2)
                && #[trigger] exposed(w, f2, la2, u, v) ==> drawn(after, f2, la2, u, v),
{
    let n = before.len() as int;
    assert forall|k: int| 0 <= k < n implies #[trigger] after[k] == before[k] by {
        assert(after.subrange(0, n)[k] == after[k]);
    }
    assert forall|k: int| 0 <= k < after.len() implies meshed(ox, oz, f, li + 1, (#[trigger] after[k]).face as int, layer_of(after[k])) by {
        if k < n {
            assert(after[k] == before[k]);
        }
    }
    assert forall|k: int| 0 <= k < after.len() implies (#[trigger] after[k]).face < 6 by {
        if k < n {
            assert(after[k] == before[k]);
        }
    }
    assert forall|k: int, u: int, v: int|
        0 <= k < after.len() && #[trigger] in_rect(after[k], u, v) implies {
            let q = after[k];
            &&& in_column(q.face as int, ox, oz, layer_of(q), u, v)
            &&& draws_right(w, q, q.face as int, layer_of(q), u, v)
        } by {
        if k < n {
            assert(after[k] == before[k]);
        }
    }
    assert forall|j: int, k: int, f2: int, la2: int, u: int, v: int|
        0 <= j < k < after.len() implies !(#[trigger] draws(after[j], f2, la2, u, v) && #[trigger] draws(after[k], f2, la2, u, v)) by {
        if k < n {
            assert(after[k] == before[k]);
            assert(after[j] == before[j]);
        } else if j < n {
            assert(after[j] == before[j]);
        }
    }
    assert forall|f2: int, la2: int, u: int, v: int|
        0 <= f2 < 6 && in_column(f2, ox, oz, la2, u, v) && meshed(ox, oz, f, li + 1, f2, la2)
            && #[trigger] exposed(w, f2, la2, u, v) implies drawn(after, f2, la2, u, v) by {
        if meshed(ox, oz, f, li, f2, la2) {
            assert(drawn(before, f2, la2, u, v));
            let k = choose|k: int| 0 <= k < before.len() && #[trigger] draws(before[k], f2, la2, u, v);
            assert(after[k] == before[k]);
            assert(draws(after[k], f2, la2, u, v));
        } else {
            assert(f2 == f && la2 == la);
            assert(covered(after, n, u, v));
            let k = choose|k: int| n <= k < after.len() && #[trigger] in_rect(after[k], u, v);
            assert(draws(after[k], f2, la2, u, v));
        }
    }
}

/// One face of the water mesh: the `face` side (in the mesh's face order) of
/// the water block at `(x, y, z)`; `open` when the block has no water above
/// it, so its top edge is the free surface the waves move.
#[derive(Clone, Copy, Debug, PartialEq, Eq, Structural)]
pub struct WaterFace {
    pub x: i32,
    pub y: i32,
    pub z: i32,
    pub face: usize,
    pub open: bool,
}

/// The block next to `(x, y, z)` on side `f`.
pub open spec fn beside(f: int, x: int, y: int, z: int) -> (int, int, int) {
    if f == 0 {
        (x - 1, y, z)
    } else if f == 1 {
        (x + 1, y, z)
    } else if f == 2 {
        (x, y - 1, z)
    } else if f == 3 {
        (x, y + 1, z)
    } else if f == 4 {
        (x, y, z - 1)
    } else {
        (x, y, z + 1)
    }
}

/// Whether the `f` side of `(x, y, z)` is a water face that shows: the block
/// is water and its neighbour on that side is air — so no face is drawn
/// against the lakebed or between two water blocks.
pub open spec fn water_shows(w: World, f: int, x: int, y: int, z: int) -> bool {
    let n = beside(f, x, y, z);
    w.block_at(x, y, z) is Water && w.block_at(n.0, n.1, n.2) is Air
}

/// The scan position of a face in a chunk column at block origin `(ox, oz)`:
/// layer by layer, row by row, block by block, side by side.
pub open spec fn scan_key(ox: int, oz: int, x: int, y: int, z: int, f: int) -> int {
    ((y * 16 + (z - oz)) * 16 + (x - ox)) * 6 + f
}

/// `faces` are the water faces of the chunk column at block origin
/// `(ox, oz)`: each is a side of a water block in the column that faces air,
/// flagged `open` exactly when there is no water above the block; they come
/// in scan order, so none is listed twice; and every such side is listed.
pub open spec fn water_mesh(w: World, ox: int, oz: int, faces: Seq<WaterFace>) -> bool {
    &&& forall|k: int| 0 <= k < faces.len() ==> {
        let wf = #[trigger] faces[k];
        &&& wf.face < 6
        &&& ox <= wf.x < ox + 16 && 0 <= wf.y < WORLD_Y && oz <= wf.z < oz + 16
        &&& water_shows(w, wf.face as int, wf.x as int, wf.y as int, wf.z as int)
        &&& wf.open == !(w.block_at(wf.x as int, wf.y + 1, wf.z as int) is Water)
    }
    &&& forall|j: int, k: int|
        0 <= j < k < faces.len() ==> scan_key(ox, oz, faces[j].x as int, faces[j].y as int, faces[j].z as int, faces[j].face as int)
            < scan_key(ox, oz, faces[k].x as int, faces[k].y as int, faces[k].z as int, faces[k].face as int)
    &&& forall|f: int, x: int, y: int, z: int|
        0 <= f < 6 && ox <= x < ox + 16 && 0 <= y < WORLD_Y && oz <= z < oz + 16 && #[trigger] water_shows(w, f, x, y, z)
            ==> exists|k: int| 0 <= k < faces.len() && #[trigger] faces[k] == (WaterFace {
                x: x as i32,
                y: y as i32,
                z: z as i32,
                face: f as usize,
                open: !(w.block_at(x, y + 1, z) is Water),
            })
}

/// The water faces of the chunk column at block origin `(ox, oz)`, in scan
/// order: every side of a water block that faces air, each once, flagged
/// `open` when there is no water above the block.
pub fn build_water(world: &World, ox: i32, oz: i32) -> (faces: Vec<WaterFace>)
    requires
        world.wf(),
        i32::MIN < ox && ox + 16 < i32::MAX,
        i32::MIN < oz && oz + 16 < i32::MAX,
    ensures
        water_mesh(*world, ox as int, oz as int, faces@),
{
    let mut faces: Vec<WaterFace> = Vec::new();
    let mut ly: i32 = 0;
    while ly < WORLD_Y
        invariant
            world.wf(),
            i32::MIN < ox && ox + 16 < i32::MAX,
            i32::MIN < oz && oz + 16 < i32::MAX,
            0 <= ly <= WORLD_Y,
            water_scan(*world, faces@, ox as int, oz as int, scan_key(ox as int, oz as int, ox as int, ly as int, oz as int, 0)),
        decreases WORLD_Y - ly,
    {
        let mut lz: i32 = 0;
        while lz < 16
            invariant
                world.wf(),
                i32::MIN < ox && ox + 16 < i32::MAX,
                i32::MIN < oz && oz + 16 < i32::MAX,
                0 <= ly < WORLD_Y,
                0 <= lz <= 16,
                water_scan(*world, faces@, ox as int, oz as int, scan_key(ox as int, oz as int, ox as int, ly as int, oz + lz, 0)),
            decreases 16 - lz,
        {
            let mut lx: i32 = 0;
            while lx < 16
                invariant
                    world.wf(),
                    i32::MIN < ox && ox + 16 < i32::MAX,
                    i32::MIN < oz && oz + 16 < i32::MAX,
                    0 <= ly < WORLD_Y,
                    0 <= lz < 16,
                    0 <= lx <= 16,
                    water_scan(*world, faces@, ox as int, oz as int, scan_key(ox as int, oz as int, ox + lx, ly as int, oz + lz, 0)),
                decreases 16 - lx,
            {
                water_block_faces(world, &mut faces, ox, oz, ox + lx, ly, oz + lz);
                lx = lx + 1;
            }
            lz = lz + 1;
        }
        ly = ly + 1;
    }
    faces
}

/// The faces found so far by the water scan, which has reached scan position
/// `cur`: each shows, lies in the column and is flagged right; they come in
/// scan order, all before `cur`; and every face before `cur` that shows is
/// among them.
spec fn water_scan(w: World, faces: Seq<WaterFace>, ox: int, oz: int, cur: int) -> bool {
    &&& forall|k: int| 0 <= k < faces.len() ==> {
        let wf = #[trigger] faces[k];
        &&& wf.face < 6
        &&& ox <= wf.x < ox + 16 && 0 <= wf.y < WORLD_Y && oz <= wf.z < oz + 16
        &&& water_shows(w, wf.face as int, wf.x as int, wf.y as int, wf.z as int)
        &&& wf.open == !(w.block_at(wf.x as int, wf.y + 1, wf.z as int) is Water)
        &&& scan_key(ox, oz, wf.x as int, wf.y as int, wf.z as int, wf.face as int) < cur
    }
    &&& forall|j: int, k: int|
        0 <= j < k < faces.len() ==> scan_key(ox, oz, faces[j].x as int, faces[j].y as int, faces[j].z as int, faces[j].face as int)
            < scan_key(ox, oz, faces[k].x as int, faces[k].y as int, faces[k].z as int, faces[k].face as int)
    &&& forall|f: int, x: int, y: int, z: int|
        0 <= f < 6 && ox <= x < ox + 16 && 0 <= y < WORLD_Y && oz <= z < oz + 16 && scan_key(ox, oz, x, y, z, f) < cur
            && #[trigger] water_shows(w, f, x, y, z) ==> exists|k: int| 0 <= k < faces.len() && #[trigger] faces[k] == (WaterFace {
                x: x as i32,
                y: y as i32,
                z: z as i32,
                face: f as usize,
                open: !(w.block_at(x, y + 1, z) is Water),
            })
}

/// Scan the six sides of the block at `(x, y, z)` for water faces.
#[verifier::loop_isolation(false)]
fn water_block_faces(world: &World, faces: &mut Vec<WaterFace>, ox: i32, oz: i32, x: i32, y: i32, z: i32)
    requires
        world.wf(),
        i32::MIN < ox && ox + 16 < i32::MAX,
        i32::MIN < oz && oz + 16 < i32::MAX,
        ox <= x < ox + 16,
        0 <= y < WORLD_Y,
        oz <= z < oz + 16,
        water_scan(*world, old(faces)@, ox as int, oz as int, scan_key(ox as int, oz as int, x as int, y as int, z as int, 0)),
    ensures
        water_scan(*world, final(faces)@, ox as int, oz as int, scan_key(ox as int, oz as int, x as int, y as int, z as int, 6)),
{
    let ghost key0 = scan_key(ox as int, oz as int, x as int, y as int, z as int, 0);
    let is_water = world.get(x, y, z) == Block::Water;
    let open = world.get(x, y + 1, z) != Block::Water;
    let mut f: usize = 0;
    while f < 6
        invariant
            0 <= f <= 6,
            is_water == (world.block_at(x as int, y as int, z as int) is Water),
            open == !(world.block_at(x as int, y + 1, z as int) is Water),
            water_scan(*world, faces@, ox as int, oz as int, key0 + f),
        decreases 6 - f,
    {
        let (nx, ny, nz) = if f == 0 {
            (x - 1, y, z)
        } else if f == 1 {
            (x + 1, y, z)
        } else if f == 2 {
            (x, y - 1, z)
        } else if f == 3 {
            (x, y + 1, z)
        } else if f == 4 {
            (x, y, z - 1)
        } else {
            (x, y, z + 1)
        };
        let ghost before = faces@;
        // A water face shows only against air.
        if is_water && world.get(nx, ny, nz) == Block::Air {
            let wf = WaterFace { x, y, z, face: f, open };
            faces.push(wf);
            proof {
                let n = before.len() as int;
                assert(faces@[n] == wf);
                assert forall|k: int| 0 <= k < n implies #[trigger] faces@[k] == before[k] by {}
                assert forall|f2: int, x2: int, y2: int, z2: int|
                    0 <= f2 < 6 && ox <= x2 < ox + 16 && 0 <= y2 < WORLD_Y && oz <= z2 < oz + 16 && scan_key(ox as int, oz as int, x2, y2, z2, f2) < key0 + f + 1
                        && #[trigger] water_shows(*world, f2, x2, y2, z2) implies exists|k: int| 0 <= k < faces@.len() && #[trigger] faces@[k] == (WaterFace {
                            x: x2 as i32,
                            y: y2 as i32,
                            z: z2 as i32,
                            face: f2 as usize,
                            open: !(world.block_at(x2, y2 + 1, z2) is Water),
                        }) by {
                    if scan_key(ox as int, oz as int, x2, y2, z2, f2) < key0 + f {
                        let k = choose|k: int| 0 <= k < before.len() && #[trigger] before[k] == (WaterFace {
                            x: x2 as i32,
                            y: y2 as i32,
                            z: z2 as i32,
                            face: f2 as usize,
                            open: !(world.block_at(x2, y2 + 1, z2) is Water),
                        });
                        assert(faces@[k] == before[k]);
                    } else {
                        assert(x2 == x && y2 == y && z2 == z && f2 == f);
                        assert(faces@[n] == wf);
                    }
                }
            }
        } else {
            proof {
                assert forall|f2: int, x2: int, y2: int, z2: int|
                    0 <= f2 < 6 && ox <= x2 < ox + 16 && 0 <= y2 < WORLD_Y && oz <= z2 < oz + 16 && scan_key(ox as int, oz as int, x2, y2, z2, f2) < key0 + f + 1
                        && #[trigger] water_shows(*world, f2, x2, y2, z2) implies exists|k: int| 0 <= k < faces@.len() && #[trigger] faces@[k] == (WaterFace {
                            x: x2 as i32,
                            y: y2 as i32,
                            z: z2 as i32,
                            face: f2 as usize,
                            open: !(world.block_at(x2, y2 + 1, z2) is Water),
                        }) by {
                    if scan_key(ox as int, oz as int, x2, y2, z2, f2) == key0 + f {
                        assert(x2 == x && y2 == y && z2 == z && f2 == f);
                    }
                }
            }
        }
        f = f + 1;
    }
}

/// The meshes of a chunk column: the opaque quads and the water faces.
pub struct ChunkMeshes {
    pub opaque: Vec<Quad>,
    pub water: Vec<WaterFace>,
}

/// Mesh the chunk column `(cx, cz)`: its opaque blocks greedily (see
/// [`build_opaque`]) and its water face by face (see [`build_water`]).
pub fn build_chunk_meshes(world: &World, cx: i32, cz: i32) -> (m: ChunkMeshes)
    requires
        world.wf(),
        i32::MIN / CHUNK_SIZE < cx < i32::MAX / CHUNK_SIZE,
        i32::MIN / CHUNK_SIZE < cz < i32::MAX / CHUNK_SIZE,
    ensures
        opaque_mesh(*world, cx * 16, cz * 16, m.opaque@),
        forall|k: int| #![trigger m.opaque@[k]] 0 <= k < m.opaque@.len() ==> made_greedily(*world, cx * 16, cz * 16, m.opaque@, k),
        forall|j: int, k: int|
            0 <= j < k < m.opaque@.len() ==> mesh_order(cx * 16, cz * 16, #[trigger] m.opaque@[j]) < mesh_order(cx * 16, cz * 16, #[trigger] m.opaque@[k]),
        water_mesh(*world, cx * 16, cz * 16, m.water@),
{
    let ox = cx * CHUNK_SIZE;
    let oz = cz * CHUNK_SIZE;
    ChunkMeshes { opaque: build_opaque(world, ox, oz), water: build_water(world, ox, oz) }
}

} // verus!
