use vstd::prelude::*;
use vstd::arithmetic::div_mod::{lemma_fundamental_div_mod, lemma_fundamental_div_mod_converse};
use vstd::laws_eq::obeys_concrete_eq;
use vstd::pervasive::strictly_cloned;

verus! {

/// Position of voxel `(x, y, z)` in a flat buffer laid out in (x, y, z) order,
/// for a model `w` voxels wide and `h` voxels high.
pub open spec fn flat_index(x: int, y: int, z: int, w: int, h: int) -> int {
    x + y * w + z * w * h
}

/// The flat index of an in-range voxel lies below `w * h * d`.
pub proof fn lemma_flat_index_bound(x: int, y: int, z: int, w: int, h: int, d: int)
    requires
        0 <= x < w,
        0 <= y < h,
        0 <= z < d,
    ensures
        0 <= flat_index(x, y, z, w, h) < w * h * d,
        flat_index(x, y, z, w, h) <= flat_index(w - 1, h - 1, d - 1, w, h),
        flat_index(w - 1, h - 1, d - 1, w, h) == w * h * d - 1,
{
    assert(0 <= y * w <= (h - 1) * w) by (nonlinear_arith)
        requires 0 <= y < h, 0 < w;
    assert(0 <= z * w * h <= (d - 1) * w * h) by (nonlinear_arith)
        requires 0 <= z < d, 0 < w, 0 < h;
    assert((w - 1) + (h - 1) * w + (d - 1) * w * h == w * h * d - 1) by (nonlinear_arith);
}

/// Splitting a flat index back into coordinates recovers them.
pub proof fn lemma_flat_index_split(x: int, y: int, z: int, w: int, h: int)
    requires
        0 <= x < w,
        0 <= y < h,
        0 <= z,
    ensures
        flat_index(x, y, z, w, h) / (w * h) == z,
        flat_index(x, y, z, w, h) % (w * h) == x + y * w,
        (x + y * w) / w == y,
        (x + y * w) % w == x,
{
    assert(0 <= x + y * w < w * h) by (nonlinear_arith)
        requires 0 <= x < w, 0 <= y < h;
    assert(z * w * h == z * (w * h)) by (nonlinear_arith);
    lemma_fundamental_div_mod_converse(flat_index(x, y, z, w, h), w * h, z, x + y * w);
    lemma_fundamental_div_mod_converse(x + y * w, w, y, x);
}

/// Coordinates `(x, y, z)` of the voxel at flat position `i` in a model `w` voxels
/// wide and `h` voxels high.
pub open spec fn voxel_coords(i: int, w: int, h: int) -> (int, int, int) {
    ((i % (w * h)) % w, (i % (w * h)) / w, i / (w * h))
}

/// Turning in-range coordinates into a flat index and back gives the same
/// coordinates.
pub proof fn law_coords_of_index(x: int, y: int, z: int, w: int, h: int)
    requires
        0 <= x < w,
        0 <= y < h,
        0 <= z,
    ensures
        voxel_coords(flat_index(x, y, z, w, h), w, h) == (x, y, z),
{
    lemma_flat_index_split(x, y, z, w, h);
}

/// Turning a flat index into coordinates and back gives the same index, and the
/// coordinates lie inside the model.
pub proof fn law_index_of_coords(i: int, w: int, h: int)
    requires
        0 <= i,
        0 < w,
        0 < h,
    ensures
        flat_index(voxel_coords(i, w, h).0, voxel_coords(i, w, h).1, voxel_coords(i, w, h).2, w, h)
            == i,
        0 <= voxel_coords(i, w, h).0 < w,
        0 <= voxel_coords(i, w, h).1 < h,
        0 <= voxel_coords(i, w, h).2,
{
    let a = w * h;
    assert(a > 0) by (nonlinear_arith)
        requires w > 0, h > 0, a == w * h;
    lemma_fundamental_div_mod(i, a);
    let r = i % a;
    lemma_fundamental_div_mod(r, w);
    let z = i / a;
    let y = r / w;
    assert(z >= 0) by (nonlinear_arith)
        requires i >= 0, a > 0, z == i / a;
    assert(y >= 0) by (nonlinear_arith)
        requires r >= 0, w > 0, y == r / w;
    assert(y < h) by (nonlinear_arith)
        requires r < w * h, r >= 0, w > 0, y == r / w, r == w * y + r % w, r % w >= 0;
    assert(z * w * h == a * z) by (nonlinear_arith)
        requires a == w * h;
    assert(y * w == w * y) by (nonlinear_arith);
}

/// A flat position inside a `w` x `h` x `d` buffer has in-range coordinates that map
/// back to it.
pub proof fn lemma_coords_in_range(i: int, w: int, h: int, d: int)
    requires
        0 <= i < w * h * d,
        0 <= w,
        0 <= h,
        0 <= d,
    ensures
        0 <= voxel_coords(i, w, h).0 < w,
        0 <= voxel_coords(i, w, h).1 < h,
        0 <= voxel_coords(i, w, h).2 < d,
        flat_index(voxel_coords(i, w, h).0, voxel_coords(i, w, h).1, voxel_coords(i, w, h).2, w, h)
            == i,
{
    let a = w * h;
    assert(a > 0 && w > 0 && h > 0) by (nonlinear_arith)
        requires 0 <= i < w * h * d, w >= 0, h >= 0, d >= 0, a == w * h;
    law_index_of_coords(i, w, h);
    assert(i / a < d) by (nonlinear_arith)
        requires 0 <= i < a * d, a > 0, a == w * h;
    assert(w * h * d == a * d) by (nonlinear_arith)
        requires a == w * h;
}

/// Flat index of voxel `(x, y, z)` in a model `width` wide and `height` high.
pub fn three_to_one(x: usize, y: usize, z: usize, width: usize, height: usize) -> (index: usize)
    requires
        z * width <= usize::MAX,
        x + y * width + z * width * height <= usize::MAX,
    ensures
        index == flat_index(x as int, y as int, z as int, width as int, height as int),
{
    assert(0 <= y * width <= x + y * width + z * width * height) by (nonlinear_arith);
    assert(0 <= z * width * height) by (nonlinear_arith);
    x + y * width + z * width * height
}

/// Coordinates `(x, y, z)` of the voxel at flat `index` in a model `width` wide and
/// `height` high.
pub fn one_to_three(index: usize, width: usize, height: usize) -> (xyz: (usize, usize, usize))
    requires
        0 < width * height <= usize::MAX,
    ensures
        (xyz.0 as int, xyz.1 as int, xyz.2 as int) == voxel_coords(
            index as int,
            width as int,
            height as int,
        ),
{
    assert(width > 0) by (nonlinear_arith)
        requires 0 < width * height, height >= 0;
    let area = width * height;
    let z = index / area;
    let index = index % area;
    let y = index / width;
    let x = index % width;
    (x, y, z)
}


/// `clone` on `P` hands back a value equal to the one it was called on.
pub open spec fn clones_exactly<P: Clone>() -> bool {
    forall|a: P, b: P| #[trigger] strictly_cloned(a, b) ==> a == b
}

/// `==` on `P` is plain equality of values, and `clone` copies a value exactly:
/// the voxel types that the algorithms here are stated for (integers, colours, ...).
pub open spec fn plain_voxel<P: PartialEq + Clone>() -> bool {
    &&& obeys_concrete_eq::<P>()
    &&& clones_exactly::<P>()
}

/// The 2D Scale2x rule checked on the three axis planes of one output corner:
/// `nx`, `ny`, `nz` are the neighbours the corner points toward, `ox`, `oy`, `oz`
/// those it points away from, and `c` the centre voxel.
pub open spec fn corner_rule<P>(nx: P, ny: P, nz: P, ox: P, oy: P, oz: P, c: P) -> P {
    if nx == ny && ny != oy && nx != ox {
        nx
    } else if nx == nz && nz != oz && nx != ox {
        nx
    } else if ny == nz && nz != oz && ny != oy {
        ny
    } else {
        c
    }
}

/// Sub-voxel `(bx, by, bz)` (each 0 or 1) of the 2x2x2 block a voxel with the given
/// centre and face neighbours becomes.
pub open spec fn block_corner<P>(
    c: P,
    up: P,
    left: P,
    down: P,
    right: P,
    forward: P,
    back: P,
    bx: int,
    by: int,
    bz: int,
) -> P {
    corner_rule(
        if bx == 0 { left } else { right },
        if by == 0 { up } else { down },
        if bz == 0 { back } else { forward },
        if bx == 0 { right } else { left },
        if by == 0 { down } else { up },
        if bz == 0 { forward } else { back },
        c,
    )
}

fn scale2x_corner<P: Eq + Clone>(nx: &P, ny: &P, nz: &P, ox: &P, oy: &P, oz: &P, c: &P) -> (r: P)
    ensures
        plain_voxel::<P>() ==> r == corner_rule(*nx, *ny, *nz, *ox, *oy, *oz, *c),
{
    proof {
        reveal(obeys_concrete_eq);
    }
    if nx == ny && ny != oy && nx != ox {
        let r = nx.clone();
        assert(strictly_cloned(*nx, r));
        return r;
    }
    if nx == nz && nz != oz && nx != ox {
        let r = nx.clone();
        assert(strictly_cloned(*nx, r));
        return r;
    }
    if ny == nz && nz != oz && ny != oy {
        let r = ny.clone();
        assert(strictly_cloned(*ny, r));
        return r;
    }
    let r = c.clone();
    assert(strictly_cloned(*c, r));
    r
}

/// The eight sub-voxels of the block for one source voxel, in the order
/// (0,0,0), (1,0,0), (0,1,0), (1,1,0), (0,0,1), (1,0,1), (0,1,1), (1,1,1).
fn calculate_scale2x_block<P: Eq + Clone>(
    center: &P,
    up: &P,
    left: &P,
    down: &P,
    right: &P,
    forward: &P,
    back: &P,
) -> (r: (P, P, P, P, P, P, P, P))
    ensures
        plain_voxel::<P>() ==> {
            let k = |bx: int, by: int, bz: int|
                block_corner(*center, *up, *left, *down, *right, *forward, *back, bx, by, bz);
            &&& r.0 == k(0, 0, 0)
            &&& r.1 == k(1, 0, 0)
            &&& r.2 == k(0, 1, 0)
            &&& r.3 == k(1, 1, 0)
            &&& r.4 == k(0, 0, 1)
            &&& r.5 == k(1, 0, 1)
            &&& r.6 == k(0, 1, 1)
            &&& r.7 == k(1, 1, 1)
        },
{
    let c = center;
    (
        scale2x_corner(left, up, back, right, down, forward, c),
        scale2x_corner(right, up, back, left, down, forward, c),
        scale2x_corner(left, down, back, right, up, forward, c),
        scale2x_corner(right, down, back, left, up, forward, c),
        scale2x_corner(left, up, forward, right, down, back, c),
        scale2x_corner(right, up, forward, left, down, back, c),
        scale2x_corner(left, down, forward, right, up, back, c),
        scale2x_corner(right, down, forward, left, up, back, c),
    )
}

/// Offset of sub-voxel `(bx, by, bz)` from the block origin in an output buffer
/// `width` wide and `height` high.
pub open spec fn block_offset(bx: int, by: int, bz: int, width: int, height: int) -> int {
    bx + by * width + bz * width * height
}

/// Writes the 2x2x2 block for one source voxel at `pos` into `scaled`.
fn apply_scale2x_block<P: Eq + Clone>(
    scaled: &mut Vec<P>,
    pos: usize,
    width: usize,
    height: usize,
    pixels: (&P, &P, &P, &P, &P, &P, &P),
)
    requires
        2 <= width,
        2 <= height,
        pos + width * height + width + 1 < old(scaled)@.len(),
    ensures
        final(scaled)@.len() == old(scaled)@.len(),
        forall|i: int|
            0 <= i < old(scaled)@.len() && !(exists|bx: int, by: int, bz: int|
                0 <= bx < 2 && 0 <= by < 2 && 0 <= bz < 2 && i == pos + block_offset(
                    bx,
                    by,
                    bz,
                    width as int,
                    height as int,
                )) ==> #[trigger] final(scaled)@[i] == old(scaled)@[i],
        plain_voxel::<P>() ==> forall|bx: int, by: int, bz: int|
            0 <= bx < 2 && 0 <= by < 2 && 0 <= bz < 2 ==> #[trigger] final(scaled)@[pos
                + block_offset(bx, by, bz, width as int, height as int)] == block_corner(
                *pixels.0,
                *pixels.1,
                *pixels.2,
                *pixels.3,
                *pixels.4,
                *pixels.5,
                *pixels.6,
                bx,
                by,
                bz,
            ),
{
    assert(0 <= width * height) by (nonlinear_arith);
    assert(scaled@.len() == scaled.len());
    let block_pixels = calculate_scale2x_block(
        pixels.0,
        pixels.1,
        pixels.2,
        pixels.3,
        pixels.4,
        pixels.5,
        pixels.6,
    );
    let area = width * height;
    let ghost old_scaled = scaled@;
    scaled.set(pos, block_pixels.0);
    scaled.set(pos + 1, block_pixels.1);
    scaled.set(pos + width, block_pixels.2);
    scaled.set(pos + width + 1, block_pixels.3);
    scaled.set(pos + area, block_pixels.4);
    scaled.set(pos + area + 1, block_pixels.5);
    scaled.set(pos + area + width, block_pixels.6);
    scaled.set(pos + area + width + 1, block_pixels.7);
    proof {
        let w = width as int;
        let h = height as int;
        assert forall|bx: int, by: int, bz: int|
            0 <= bx < 2 && 0 <= by < 2 && 0 <= bz < 2 implies block_offset(bx, by, bz, w, h) == bx
                + (if by == 1 { w } else { 0 }) + (if bz == 1 { w * h } else { 0 }) by {
            assert(by * w == (if by == 1 { w } else { 0 })) by (nonlinear_arith)
                requires 0 <= by < 2;
            assert(bz * w * h == (if bz == 1 { w * h } else { 0 })) by (nonlinear_arith)
                requires 0 <= bz < 2;
        }
        assert forall|i: int|
            0 <= i < old_scaled.len() && !(exists|bx: int, by: int, bz: int|
                0 <= bx < 2 && 0 <= by < 2 && 0 <= bz < 2 && i == pos + block_offset(
                    bx,
                    by,
                    bz,
                    w,
                    h,
                )) implies #[trigger] scaled@[i] == old_scaled[i] by {
            assert(i != pos + block_offset(0, 0, 0, w, h));
            assert(i != pos + block_offset(1, 0, 0, w, h));
            assert(i != pos + block_offset(0, 1, 0, w, h));
            assert(i != pos + block_offset(1, 1, 0, w, h));
            assert(i != pos + block_offset(0, 0, 1, w, h));
            assert(i != pos + block_offset(1, 0, 1, w, h));
            assert(i != pos + block_offset(0, 1, 1, w, h));
            assert(i != pos + block_offset(1, 1, 1, w, h));
        }
        assert(w * h >= 2 * w) by (nonlinear_arith)
            requires h >= 2, w >= 0;
        if plain_voxel::<P>() {
            assert forall|bx: int, by: int, bz: int|
                0 <= bx < 2 && 0 <= by < 2 && 0 <= bz < 2 implies #[trigger] scaled@[pos
                    + block_offset(bx, by, bz, w, h)] == block_corner(
                    *pixels.0,
                    *pixels.1,
                    *pixels.2,
                    *pixels.3,
                    *pixels.4,
                    *pixels.5,
                    *pixels.6,
                    bx,
                    by,
                    bz,
                ) by {
                if bx == 0 && by == 0 && bz == 0 {
                } else if bx == 1 && by == 0 && bz == 0 {
                } else if bx == 0 && by == 1 && bz == 0 {
                } else if bx == 1 && by == 1 && bz == 0 {
                } else if bx == 0 && by == 0 && bz == 1 {
                } else if bx == 1 && by == 0 && bz == 1 {
                } else if bx == 0 && by == 1 && bz == 1 {
                } else {
                }
            }
        }
    }
}


/// The voxel at `(x, y, z)` of a `w` x `h` x `d` buffer, or `empty` outside it.
pub open spec fn voxel_or_empty<P>(
    buf: Seq<P>,
    w: int,
    h: int,
    d: int,
    empty: P,
    x: int,
    y: int,
    z: int,
) -> P {
    if 0 <= x < w && 0 <= y < h && 0 <= z < d {
        buf[flat_index(x, y, z, w, h)]
    } else {
        empty
    }
}

/// Sub-voxel `(bx, by, bz)` of the block that source voxel `(x, y, z)` becomes
/// under Scale2x; neighbours outside the buffer count as `empty`.
pub open spec fn scale2x_block_voxel<P>(
    buf: Seq<P>,
    w: int,
    h: int,
    d: int,
    empty: P,
    x: int,
    y: int,
    z: int,
    bx: int,
    by: int,
    bz: int,
) -> P {
    let at = |dx: int, dy: int, dz: int| voxel_or_empty(buf, w, h, d, empty, x + dx, y + dy, z + dz);
    block_corner(
        at(0, 0, 0),
        at(0, -1, 0),
        at(-1, 0, 0),
        at(0, 1, 0),
        at(1, 0, 0),
        at(0, 0, 1),
        at(0, 0, -1),
        bx,
        by,
        bz,
    )
}

/// Voxel `(x, y, z)` of the Scale2x upscale of a `w` x `h` x `d` buffer.
pub open spec fn scale2x_voxel<P>(
    buf: Seq<P>,
    w: int,
    h: int,
    d: int,
    empty: P,
    x: int,
    y: int,
    z: int,
) -> P {
    scale2x_block_voxel(buf, w, h, d, empty, x / 2, y / 2, z / 2, x % 2, y % 2, z % 2)
}

/// The whole Scale2x upscale of a `w` x `h` x `d` buffer, in (x, y, z) order.
pub open spec fn scale2x_seq<P>(buf: Seq<P>, w: int, h: int, d: int, empty: P) -> Seq<P> {
    Seq::new(
        ((2 * w) * (2 * h) * (2 * d)) as nat,
        |i: int|
            {
                let c = voxel_coords(i, 2 * w, 2 * h);
                scale2x_voxel(buf, w, h, d, empty, c.0, c.1, c.2)
            },
    )
}

/// The doubled sizes of a `w` x `h` x `d` buffer, and the products computed
/// from them, fit in `usize`.
pub open spec fn scale2x_fits(w: int, h: int, d: int) -> bool {
    &&& 2 * w <= usize::MAX
    &&& 2 * h <= usize::MAX
    &&& 2 * d <= usize::MAX
    &&& (2 * w) * (2 * h) <= usize::MAX
    &&& (2 * w) * (2 * h) * (2 * d) <= usize::MAX
}

/// Block `(bx, by, bz)` comes before block `(cx, cy, cz)` in (x, y, z) scan order.
pub open spec fn block_before(bx: int, by: int, bz: int, cx: int, cy: int, cz: int) -> bool {
    bz < cz || (bz == cz && (by < cy || (by == cy && bx < cx)))
}

/// `s` holds the Scale2x result for every block before `(cx, cy, cz)` and `empty`
/// everywhere else.
pub open spec fn scaled_before<P>(
    s: Seq<P>,
    buf: Seq<P>,
    w: int,
    h: int,
    d: int,
    empty: P,
    cx: int,
    cy: int,
    cz: int,
) -> bool {
    forall|x: int, y: int, z: int|
        0 <= x < 2 * w && 0 <= y < 2 * h && 0 <= z < 2 * d ==> #[trigger] s[flat_index(
            x,
            y,
            z,
            2 * w,
            2 * h,
        )] == if block_before(x / 2, y / 2, z / 2, cx, cy, cz) {
            scale2x_voxel(buf, w, h, d, empty, x, y, z)
        } else {
            empty
        }
}

pub proof fn lemma_flat_index_injective(x1: int, y1: int, z1: int, x2: int, y2: int, z2: int, w: int, h: int)
    requires
        0 <= x1 < w,
        0 <= y1 < h,
        0 <= z1,
        0 <= x2 < w,
        0 <= y2 < h,
        0 <= z2,
        flat_index(x1, y1, z1, w, h) == flat_index(x2, y2, z2, w, h),
    ensures
        x1 == x2,
        y1 == y2,
        z1 == z2,
{
    lemma_flat_index_split(x1, y1, z1, w, h);
    lemma_flat_index_split(x2, y2, z2, w, h);
}

proof fn lemma_block_positions(x: int, y: int, z: int, w: int, h: int)
    ensures
        forall|bx: int, by: int, bz: int|
            #[trigger] flat_index(2 * x + bx, 2 * y + by, 2 * z + bz, w, h) == flat_index(
                2 * x,
                2 * y,
                2 * z,
                w,
                h,
            ) + block_offset(bx, by, bz, w, h),
{
    assert forall|bx: int, by: int, bz: int|
        #[trigger] flat_index(2 * x + bx, 2 * y + by, 2 * z + bz, w, h) == flat_index(
            2 * x,
            2 * y,
            2 * z,
            w,
            h,
        ) + block_offset(bx, by, bz, w, h) by {
        assert((2 * y + by) * w == 2 * y * w + by * w) by (nonlinear_arith);
        assert((2 * z + bz) * w * h == 2 * z * w * h + bz * w * h) by (nonlinear_arith);
    }
}

proof fn lemma_scaled_before_moves<P>(
    s: Seq<P>,
    buf: Seq<P>,
    w: int,
    h: int,
    d: int,
    empty: P,
    c1: (int, int, int),
    c2: (int, int, int),
)
    requires
        scaled_before(s, buf, w, h, d, empty, c1.0, c1.1, c1.2),
        forall|bx: int, by: int, bz: int|
            0 <= bx < w && 0 <= by < h && 0 <= bz < d ==> #[trigger] block_before(
                bx,
                by,
                bz,
                c1.0,
                c1.1,
                c1.2,
            ) == block_before(bx, by, bz, c2.0, c2.1, c2.2),
    ensures
        scaled_before(s, buf, w, h, d, empty, c2.0, c2.1, c2.2),
{
    assert forall|x: int, y: int, z: int|
        0 <= x < 2 * w && 0 <= y < 2 * h && 0 <= z < 2 * d implies #[trigger] s[flat_index(
            x,
            y,
            z,
            2 * w,
            2 * h,
        )] == if block_before(x / 2, y / 2, z / 2, c2.0, c2.1, c2.2) {
            scale2x_voxel(buf, w, h, d, empty, x, y, z)
        } else {
            empty
        } by {
        assert(block_before(x / 2, y / 2, z / 2, c1.0, c1.1, c1.2) == block_before(
            x / 2,
            y / 2,
            z / 2,
            c2.0,
            c2.1,
            c2.2,
        ));
    }
}

proof fn lemma_scale2x_step<P>(
    s: Seq<P>,
    s2: Seq<P>,
    buf: Seq<P>,
    w: int,
    h: int,
    d: int,
    empty: P,
    x: int,
    y: int,
    z: int,
    ww: int,
    hh: int,
)
    requires
        ww == 2 * w,
        hh == 2 * h,
        0 <= x < w,
        0 <= y < h,
        0 <= z < d,
        s.len() == (2 * w) * (2 * h) * (2 * d),
        s2.len() == s.len(),
        scaled_before(s, buf, w, h, d, empty, x, y, z),
        forall|i: int|
            0 <= i < s.len() && !(exists|bx: int, by: int, bz: int|
                0 <= bx < 2 && 0 <= by < 2 && 0 <= bz < 2 && i == flat_index(
                    2 * x,
                    2 * y,
                    2 * z,
                    ww,
                    hh,
                ) + #[trigger] block_offset(bx, by, bz, ww, hh)) ==> #[trigger] s2[i] == s[i],
        forall|bx: int, by: int, bz: int|
            0 <= bx < 2 && 0 <= by < 2 && 0 <= bz < 2 ==> s2[flat_index(
                2 * x,
                2 * y,
                2 * z,
                ww,
                hh,
            ) + #[trigger] block_offset(bx, by, bz, ww, hh)] == scale2x_block_voxel(
                buf,
                w,
                h,
                d,
                empty,
                x,
                y,
                z,
                bx,
                by,
                bz,
            ),
    ensures
        scaled_before(s2, buf, w, h, d, empty, x + 1, y, z),
{
    lemma_block_positions(x, y, z, ww, hh);
    assert forall|xx: int, yy: int, zz: int|
        0 <= xx < 2 * w && 0 <= yy < 2 * h && 0 <= zz < 2 * d implies #[trigger] s2[flat_index(
            xx,
            yy,
            zz,
            2 * w,
            2 * h,
        )] == if block_before(xx / 2, yy / 2, zz / 2, x + 1, y, z) {
            scale2x_voxel(buf, w, h, d, empty, xx, yy, zz)
        } else {
            empty
        } by {
        let p = flat_index(xx, yy, zz, ww, hh);
        lemma_flat_index_bound(xx, yy, zz, ww, hh, 2 * d);
        if xx / 2 == x && yy / 2 == y && zz / 2 == z {
            let bx = xx % 2;
            let by = yy % 2;
            let bz = zz % 2;
            assert(flat_index(2 * x + bx, 2 * y + by, 2 * z + bz, ww, hh) == p);
            assert(s2[flat_index(2 * x, 2 * y, 2 * z, ww, hh) + block_offset(bx, by, bz, ww, hh)]
                == scale2x_block_voxel(buf, w, h, d, empty, x, y, z, bx, by, bz));
        } else {
            if exists|bx: int, by: int, bz: int|
                0 <= bx < 2 && 0 <= by < 2 && 0 <= bz < 2 && p == flat_index(
                    2 * x,
                    2 * y,
                    2 * z,
                    ww,
                    hh,
                ) + block_offset(bx, by, bz, ww, hh) {
                let (bx, by, bz) = choose|bx: int, by: int, bz: int|
                    0 <= bx < 2 && 0 <= by < 2 && 0 <= bz < 2 && p == flat_index(
                        2 * x,
                        2 * y,
                        2 * z,
                        ww,
                        hh,
                    ) + block_offset(bx, by, bz, ww, hh);
                assert(flat_index(2 * x + bx, 2 * y + by, 2 * z + bz, ww, hh) == p);
                lemma_flat_index_injective(xx, yy, zz, 2 * x + bx, 2 * y + by, 2 * z + bz, ww, hh);
                assert(false);
            }
            assert(s2[p] == s[p]);
        }
    }
}

/// Upscales a `width` x `height` x `depth` voxel buffer (in (x, y, z) order) by two
/// with the 3D Scale2x rule: each voxel becomes a 2x2x2 block whose corners take the
/// value of a neighbour where two neighbours they point toward agree on one of the
/// three axis planes (and differ from the opposite ones), and the voxel's own value
/// elsewhere. Voxels outside the buffer count as `empty`.
pub fn scale2x<P: Eq + Clone>(
    buf: &[P],
    width: usize,
    height: usize,
    depth: usize,
    empty: &P,
) -> (res: (usize, usize, usize, Vec<P>))
    requires
        width * height * depth <= buf@.len(),
        scale2x_fits(width as int, height as int, depth as int),
    ensures
        res.0 == 2 * width,
        res.1 == 2 * height,
        res.2 == 2 * depth,
        res.3@.len() == res.0 * res.1 * res.2,
        plain_voxel::<P>() ==> forall|x: int, y: int, z: int|
            0 <= x < res.0 && 0 <= y < res.1 && 0 <= z < res.2 ==> #[trigger] res.3@[flat_index(
                x,
                y,
                z,
                res.0 as int,
                res.1 as int,
            )] == scale2x_voxel(
                buf@,
                width as int,
                height as int,
                depth as int,
                *empty,
                x,
                y,
                z,
            ),
        plain_voxel::<P>() ==> res.3@ == scale2x_seq(
            buf@,
            width as int,
            height as int,
            depth as int,
            *empty,
        ),
{
    let ghost w = width as int;
    let ghost h = height as int;
    let ghost d = depth as int;
    let width2 = width * 2;
    let height2 = height * 2;
    let depth2 = depth * 2;
    let fill = empty.clone();
    let mut scaled = vec![fill; width2 * height2 * depth2];
    proof {
        assert(w * h * d <= (2 * w) * (2 * h) * (2 * d)) by (nonlinear_arith)
            requires w >= 0, h >= 0, d >= 0;
        if plain_voxel::<P>() {
            assert(strictly_cloned(*empty, fill));
            assert forall|x: int, y: int, z: int|
                0 <= x < 2 * w && 0 <= y < 2 * h && 0 <= z < 2 * d implies #[trigger] scaled@[flat_index(
                    x,
                    y,
                    z,
                    2 * w,
                    2 * h,
                )] == if block_before(x / 2, y / 2, z / 2, 0, 0, 0) {
                    scale2x_voxel(buf@, w, h, d, *empty, x, y, z)
                } else {
                    *empty
                } by {
                lemma_flat_index_bound(x, y, z, 2 * w, 2 * h, 2 * d);
                assert(strictly_cloned(fill, scaled@[flat_index(x, y, z, 2 * w, 2 * h)]));
            }
        }
    }
    for z in 0..depth
        invariant
            w == width,
            h == height,
            d == depth,
            width2 == 2 * w,
            height2 == 2 * h,
            depth2 == 2 * d,
            w * h * d <= buf@.len(),
            w * h * d <= usize::MAX,
            scale2x_fits(w, h, d),
            scaled@.len() == width2 * height2 * depth2,
            plain_voxel::<P>() ==> scaled_before(scaled@, buf@, w, h, d, *empty, 0, 0, z as int),
    {
        for y in 0..height
            invariant
                w == width,
                h == height,
                d == depth,
                0 <= z < d,
                width2 == 2 * w,
                height2 == 2 * h,
                depth2 == 2 * d,
                w * h * d <= buf@.len(),
                w * h * d <= usize::MAX,
                scale2x_fits(w, h, d),
                scaled@.len() == width2 * height2 * depth2,
                plain_voxel::<P>() ==> scaled_before(
                    scaled@,
                    buf@,
                    w,
                    h,
                    d,
                    *empty,
                    0,
                    y as int,
                    z as int,
                ),
        {
            for x in 0..width
                invariant
                    w == width,
                    h == height,
                    d == depth,
                    0 <= z < d,
                    0 <= y < h,
                    width2 == 2 * w,
                    height2 == 2 * h,
                    depth2 == 2 * d,
                    w * h * d <= buf@.len(),
                    w * h * d <= usize::MAX,
                    scale2x_fits(w, h, d),
                    scaled@.len() == width2 * height2 * depth2,
                    plain_voxel::<P>() ==> scaled_before(
                        scaled@,
                        buf@,
                        w,
                        h,
                        d,
                        *empty,
                        x as int,
                        y as int,
                        z as int,
                    ),
            {
                proof {
                    lemma_in_range_index_fits(x as int, y as int, z as int, w, h, d);
                }
                let center = &buf[three_to_one(x, y, z, width, height)];
                let up = if y > 0 {
                    proof {
                        lemma_in_range_index_fits(x as int, y - 1, z as int, w, h, d);
                    }
                    &buf[three_to_one(x, y - 1, z, width, height)]
                } else {
                    empty
                };
                let down = if y < height - 1 {
                    proof {
                        lemma_in_range_index_fits(x as int, y + 1, z as int, w, h, d);
                    }
                    &buf[three_to_one(x, y + 1, z, width, height)]
                } else {
                    empty
                };
                let left = if x > 0 {
                    proof {
                        lemma_in_range_index_fits(x - 1, y as int, z as int, w, h, d);
                    }
                    &buf[three_to_one(x - 1, y, z, width, height)]
                } else {
                    empty
                };
                let right = if x < width - 1 {
                    proof {
                        lemma_in_range_index_fits(x + 1, y as int, z as int, w, h, d);
                    }
                    &buf[three_to_one(x + 1, y, z, width, height)]
                } else {
                    empty
                };
                let forward = if z < depth - 1 {
                    proof {
                        lemma_in_range_index_fits(x as int, y as int, z + 1, w, h, d);
                    }
                    &buf[three_to_one(x, y, z + 1, width, height)]
                } else {
                    empty
                };
                let back = if z > 0 {
                    proof {
                        lemma_in_range_index_fits(x as int, y as int, z - 1, w, h, d);
                    }
                    &buf[three_to_one(x, y, z - 1, width, height)]
                } else {
                    empty
                };
                proof {
                    lemma_in_range_index_fits(2 * x, 2 * y, 2 * z, 2 * w, 2 * h, 2 * d);
                    lemma_in_range_index_fits(2 * x + 1, 2 * y + 1, 2 * z + 1, 2 * w, 2 * h, 2 * d);
                    lemma_block_positions(x as int, y as int, z as int, 2 * w, 2 * h);
                    assert(flat_index(2 * x + 1, 2 * y + 1, 2 * z + 1, 2 * w, 2 * h) == flat_index(
                        2 * x,
                        2 * y,
                        2 * z,
                        2 * w,
                        2 * h,
                    ) + block_offset(1, 1, 1, 2 * w, 2 * h));
                    assert(block_offset(1, 1, 1, 2 * w, 2 * h) == (2 * w) * (2 * h) + 2 * w + 1);
                }
                let ghost before = scaled@;
                let pos = three_to_one(x * 2, y * 2, z * 2, width2, height2);
                apply_scale2x_block(
                    &mut scaled,
                    pos,
                    width2,
                    height2,
                    (center, up, left, down, right, forward, back),
                );
                proof {
                    if plain_voxel::<P>() {
                        let at = |dx: int, dy: int, dz: int|
                            voxel_or_empty(buf@, w, h, d, *empty, x + dx, y + dy, z + dz);
                        assert(*center == at(0, 0, 0));
                        assert(*up == at(0, -1, 0));
                        assert(*left == at(-1, 0, 0));
                        assert(*down == at(0, 1, 0));
                        assert(*right == at(1, 0, 0));
                        assert(*forward == at(0, 0, 1));
                        assert(*back == at(0, 0, -1));
                        lemma_scale2x_step(
                            before,
                            scaled@,
                            buf@,
                            w,
                            h,
                            d,
                            *empty,
                            x as int,
                            y as int,
                            z as int,
                            width2 as int,
                            height2 as int,
                        );
                    }
                }
            }
            proof {
                if plain_voxel::<P>() {
                    lemma_scaled_before_moves(
                        scaled@,
                        buf@,
                        w,
                        h,
                        d,
                        *empty,
                        (w, y as int, z as int),
                        (0, y + 1, z as int),
                    );
                }
            }
        }
        proof {
            if plain_voxel::<P>() {
                lemma_scaled_before_moves(
                    scaled@,
                    buf@,
                    w,
                    h,
                    d,
                    *empty,
                    (0, h, z as int),
                    (0, 0, z + 1),
                );
            }
        }
    }
    proof {
        if plain_voxel::<P>() {
            assert forall|x: int, y: int, z: int|
                0 <= x < 2 * w && 0 <= y < 2 * h && 0 <= z < 2 * d implies #[trigger] scaled@[flat_index(
                    x,
                    y,
                    z,
                    2 * w,
                    2 * h,
                )] == scale2x_voxel(buf@, w, h, d, *empty, x, y, z) by {
                assert(block_before(x / 2, y / 2, z / 2, 0, 0, d));
            }
            let target = scale2x_seq(buf@, w, h, d, *empty);
            assert forall|i: int| 0 <= i < scaled@.len() implies #[trigger] scaled@[i] == target[i] by {
                lemma_coords_in_range(i, 2 * w, 2 * h, 2 * d);
                let c = voxel_coords(i, 2 * w, 2 * h);
                assert(scaled@[flat_index(c.0, c.1, c.2, 2 * w, 2 * h)] == scale2x_voxel(
                    buf@,
                    w,
                    h,
                    d,
                    *empty,
                    c.0,
                    c.1,
                    c.2,
                ));
            }
            assert(scaled@ =~= target);
        }
    }
    (width2, height2, depth2, scaled)
}

/// A voxel of the buffer, or `empty`, is one of the values `value` may take.
pub open spec fn is_buffer_value<P>(buf: Seq<P>, w: int, h: int, d: int, empty: P, value: P) -> bool {
    value == empty || exists|i: int| 0 <= i < w * h * d && #[trigger] buf[i] == value
}

proof fn lemma_voxel_or_empty_is_buffer_value<P>(
    buf: Seq<P>,
    w: int,
    h: int,
    d: int,
    empty: P,
    x: int,
    y: int,
    z: int,
)
    ensures
        is_buffer_value(buf, w, h, d, empty, voxel_or_empty(buf, w, h, d, empty, x, y, z)),
{
    if 0 <= x < w && 0 <= y < h && 0 <= z < d {
        lemma_flat_index_bound(x, y, z, w, h, d);
        let i = flat_index(x, y, z, w, h);
        assert(buf[i] == voxel_or_empty(buf, w, h, d, empty, x, y, z));
    }
}

/// Scale2x introduces no new colours: every voxel of the upscale is a voxel of the
/// source buffer or the `empty` value.
pub proof fn law_scale2x_no_new_values<P>(
    buf: Seq<P>,
    w: int,
    h: int,
    d: int,
    empty: P,
    x: int,
    y: int,
    z: int,
)
    requires
        0 <= x < 2 * w,
        0 <= y < 2 * h,
        0 <= z < 2 * d,
    ensures
        is_buffer_value(buf, w, h, d, empty, scale2x_voxel(buf, w, h, d, empty, x, y, z)),
{
    let (bx, by, bz) = (x / 2, y / 2, z / 2);
    let at = |dx: int, dy: int, dz: int| voxel_or_empty(buf, w, h, d, empty, bx + dx, by + dy, bz + dz);
    lemma_voxel_or_empty_is_buffer_value(buf, w, h, d, empty, bx, by, bz);
    lemma_voxel_or_empty_is_buffer_value(buf, w, h, d, empty, bx - 1, by, bz);
    lemma_voxel_or_empty_is_buffer_value(buf, w, h, d, empty, bx + 1, by, bz);
    lemma_voxel_or_empty_is_buffer_value(buf, w, h, d, empty, bx, by - 1, bz);
    lemma_voxel_or_empty_is_buffer_value(buf, w, h, d, empty, bx, by + 1, bz);
    lemma_voxel_or_empty_is_buffer_value(buf, w, h, d, empty, bx, by, bz - 1);
    lemma_voxel_or_empty_is_buffer_value(buf, w, h, d, empty, bx, by, bz + 1);
    assert(at(0, 0, 0) == voxel_or_empty(buf, w, h, d, empty, bx, by, bz));
    assert(at(-1, 0, 0) == voxel_or_empty(buf, w, h, d, empty, bx - 1, by, bz));
    assert(at(1, 0, 0) == voxel_or_empty(buf, w, h, d, empty, bx + 1, by, bz));
    assert(at(0, -1, 0) == voxel_or_empty(buf, w, h, d, empty, bx, by - 1, bz));
    assert(at(0, 1, 0) == voxel_or_empty(buf, w, h, d, empty, bx, by + 1, bz));
    assert(at(0, 0, -1) == voxel_or_empty(buf, w, h, d, empty, bx, by, bz - 1));
    assert(at(0, 0, 1) == voxel_or_empty(buf, w, h, d, empty, bx, by, bz + 1));
}

/// A voxel whose six face neighbours all equal it becomes a 2x2x2 block of that
/// same value.
pub proof fn law_scale2x_keeps_uniform_neighbourhood<P>(
    buf: Seq<P>,
    w: int,
    h: int,
    d: int,
    empty: P,
    x: int,
    y: int,
    z: int,
)
    requires
        0 <= x < 2 * w,
        0 <= y < 2 * h,
        0 <= z < 2 * d,
        ({
            let (bx, by, bz) = (x / 2, y / 2, z / 2);
            let c = voxel_or_empty(buf, w, h, d, empty, bx, by, bz);
            &&& voxel_or_empty(buf, w, h, d, empty, bx - 1, by, bz) == c
            &&& voxel_or_empty(buf, w, h, d, empty, bx + 1, by, bz) == c
            &&& voxel_or_empty(buf, w, h, d, empty, bx, by - 1, bz) == c
            &&& voxel_or_empty(buf, w, h, d, empty, bx, by + 1, bz) == c
            &&& voxel_or_empty(buf, w, h, d, empty, bx, by, bz - 1) == c
            &&& voxel_or_empty(buf, w, h, d, empty, bx, by, bz + 1) == c
        }),
    ensures
        scale2x_voxel(buf, w, h, d, empty, x, y, z) == voxel_or_empty(
            buf,
            w,
            h,
            d,
            empty,
            x / 2,
            y / 2,
            z / 2,
        ),
{
}

/// A buffer one voxel deep is upscaled layer by layer with the 2D Scale2x rule in
/// the XY plane: each corner of a pixel's 2x2 block takes the value of the two
/// neighbours it points toward when they agree and differ from the neighbours
/// opposite them, and the pixel's own value otherwise (outside pixels are `empty`).
pub proof fn law_scale2x_xy_plane<P>(buf: Seq<P>, w: int, h: int, empty: P, x: int, y: int, z: int)
    requires
        0 <= x < 2 * w,
        0 <= y < 2 * h,
        0 <= z < 2,
    ensures
        ({
            let (px, py) = (x / 2, y / 2);
            let pix = |i: int, j: int|
                if 0 <= i < w && 0 <= j < h {
                    buf[i + j * w]
                } else {
                    empty
                };
            let a = if x % 2 == 0 { pix(px - 1, py) } else { pix(px + 1, py) };
            let a_opp = if x % 2 == 0 { pix(px + 1, py) } else { pix(px - 1, py) };
            let b = if y % 2 == 0 { pix(px, py - 1) } else { pix(px, py + 1) };
            let b_opp = if y % 2 == 0 { pix(px, py + 1) } else { pix(px, py - 1) };
            scale2x_voxel(buf, w, h, 1, empty, x, y, z) == if a == b && b != b_opp && a != a_opp {
                a
            } else {
                pix(px, py)
            }
        }),
{
    let (px, py, pz) = (x / 2, y / 2, z / 2);
    assert(pz == 0);
    let at = |dx: int, dy: int, dz: int| voxel_or_empty(buf, w, h, 1, empty, px + dx, py + dy, pz + dz);
    assert(at(0, 0, 1) == empty);
    assert(at(0, 0, -1) == empty);
    assert forall|i: int, j: int| 0 <= i < w && 0 <= j < h implies flat_index(i, j, 0, w, h) == i + j * w by {
        assert(0 * w * h == 0) by (nonlinear_arith);
    }
}

/// A buffer one voxel high is upscaled slice by slice with the 2D Scale2x rule in
/// the XZ plane: each corner of a pixel's 2x2 block takes the value of the two
/// neighbours it points toward when they agree and differ from the neighbours
/// opposite them, and the pixel's own value otherwise (outside pixels are `empty`).
pub proof fn law_scale2x_xz_plane<P>(buf: Seq<P>, w: int, d: int, empty: P, x: int, y: int, z: int)
    requires
        0 <= x < 2 * w,
        0 <= y < 2,
        0 <= z < 2 * d,
    ensures
        ({
            let (px, pz) = (x / 2, z / 2);
            let pix = |i: int, k: int|
                if 0 <= i < w && 0 <= k < d {
                    buf[i + k * w]
                } else {
                    empty
                };
            let a = if x % 2 == 0 { pix(px - 1, pz) } else { pix(px + 1, pz) };
            let a_opp = if x % 2 == 0 { pix(px + 1, pz) } else { pix(px - 1, pz) };
            let b = if z % 2 == 0 { pix(px, pz - 1) } else { pix(px, pz + 1) };
            let b_opp = if z % 2 == 0 { pix(px, pz + 1) } else { pix(px, pz - 1) };
            scale2x_voxel(buf, w, 1, d, empty, x, y, z) == if a == b && b != b_opp && a != a_opp {
                a
            } else {
                pix(px, pz)
            }
        }),
{
    let (px, py, pz) = (x / 2, y / 2, z / 2);
    assert(py == 0);
    let at = |dx: int, dy: int, dz: int| voxel_or_empty(buf, w, 1, d, empty, px + dx, py + dy, pz + dz);
    assert(at(0, 1, 0) == empty);
    assert(at(0, -1, 0) == empty);
    assert forall|i: int, k: int| 0 <= i < w && 0 <= k < d implies flat_index(i, 0, k, w, 1) == i + k * w by {
        assert(k * w * 1 == k * w) by (nonlinear_arith);
    }
}

/// A buffer one voxel wide is upscaled slice by slice with the 2D Scale2x rule in
/// the YZ plane: each corner of a pixel's 2x2 block takes the value of the two
/// neighbours it points toward when they agree and differ from the neighbours
/// opposite them, and the pixel's own value otherwise (outside pixels are `empty`).
pub proof fn law_scale2x_yz_plane<P>(buf: Seq<P>, h: int, d: int, empty: P, x: int, y: int, z: int)
    requires
        0 <= x < 2,
        0 <= y < 2 * h,
        0 <= z < 2 * d,
    ensures
        ({
            let (py, pz) = (y / 2, z / 2);
            let pix = |j: int, k: int|
                if 0 <= j < h && 0 <= k < d {
                    buf[j + k * h]
                } else {
                    empty
                };
            let a = if y % 2 == 0 { pix(py - 1, pz) } else { pix(py + 1, pz) };
            let a_opp = if y % 2 == 0 { pix(py + 1, pz) } else { pix(py - 1, pz) };
            let b = if z % 2 == 0 { pix(py, pz - 1) } else { pix(py, pz + 1) };
            let b_opp = if z % 2 == 0 { pix(py, pz + 1) } else { pix(py, pz - 1) };
            scale2x_voxel(buf, 1, h, d, empty, x, y, z) == if a == b && b != b_opp && a != a_opp {
                a
            } else {
                pix(py, pz)
            }
        }),
{
    let (px, py, pz) = (x / 2, y / 2, z / 2);
    assert(px == 0);
    let at = |dx: int, dy: int, dz: int| voxel_or_empty(buf, 1, h, d, empty, px + dx, py + dy, pz + dz);
    assert(at(1, 0, 0) == empty);
    assert(at(-1, 0, 0) == empty);
    assert forall|j: int, k: int| 0 <= j < h && 0 <= k < d implies flat_index(0, j, k, 1, h) == j + k * h by {
        assert(j * 1 == j && k * 1 * h == k * h) by (nonlinear_arith);
    }
}

/// A `w` x `h` x `d` buffer with its y and z axes exchanged: a `w` x `d` x `h`
/// buffer whose voxel `(x, z, y)` is voxel `(x, y, z)` of `buf`.
pub open spec fn swap_yz<P>(buf: Seq<P>, w: int, h: int, d: int) -> Seq<P> {
    Seq::new(
        (w * d * h) as nat,
        |i: int|
            {
                let c = voxel_coords(i, w, d);
                buf[flat_index(c.0, c.2, c.1, w, h)]
            },
    )
}

/// A `w` x `h` x `d` buffer with its x and z axes exchanged: a `d` x `h` x `w`
/// buffer whose voxel `(z, y, x)` is voxel `(x, y, z)` of `buf`.
pub open spec fn swap_xz<P>(buf: Seq<P>, w: int, h: int, d: int) -> Seq<P> {
    Seq::new(
        (d * h * w) as nat,
        |i: int|
            {
                let c = voxel_coords(i, d, h);
                buf[flat_index(c.2, c.1, c.0, w, h)]
            },
    )
}

/// Scale2x treats the y and z axes alike: upscaling the buffer with y and z
/// exchanged gives the upscale with y and z exchanged.
pub proof fn law_scale2x_symmetric_yz<P>(
    buf: Seq<P>,
    w: int,
    h: int,
    d: int,
    empty: P,
    x: int,
    y: int,
    z: int,
)
    requires
        0 <= x < 2 * w,
        0 <= y < 2 * h,
        0 <= z < 2 * d,
    ensures
        scale2x_voxel(swap_yz(buf, w, h, d), w, d, h, empty, x, z, y) == scale2x_voxel(
            buf,
            w,
            h,
            d,
            empty,
            x,
            y,
            z,
        ),
{
    let s = swap_yz(buf, w, h, d);
    assert forall|i: int, j: int, k: int|
        #![trigger voxel_or_empty(buf, w, h, d, empty, i, j, k)]
        voxel_or_empty(s, w, d, h, empty, i, k, j) == voxel_or_empty(buf, w, h, d, empty, i, j, k) by {
        if 0 <= i < w && 0 <= j < h && 0 <= k < d {
            lemma_flat_index_bound(i, k, j, w, d, h);
            law_coords_of_index(i, k, j, w, d);
        }
    }
    let (px, py, pz) = (x / 2, y / 2, z / 2);
    assert(voxel_or_empty(s, w, d, h, empty, px, pz, py) == voxel_or_empty(buf, w, h, d, empty, px, py, pz));
    assert(voxel_or_empty(s, w, d, h, empty, px - 1, pz, py) == voxel_or_empty(buf, w, h, d, empty, px - 1, py, pz));
    assert(voxel_or_empty(s, w, d, h, empty, px + 1, pz, py) == voxel_or_empty(buf, w, h, d, empty, px + 1, py, pz));
    assert(voxel_or_empty(s, w, d, h, empty, px, pz, py - 1) == voxel_or_empty(buf, w, h, d, empty, px, py - 1, pz));
    assert(voxel_or_empty(s, w, d, h, empty, px, pz, py + 1) == voxel_or_empty(buf, w, h, d, empty, px, py + 1, pz));
    assert(voxel_or_empty(s, w, d, h, empty, px, pz - 1, py) == voxel_or_empty(buf, w, h, d, empty, px, py, pz - 1));
    assert(voxel_or_empty(s, w, d, h, empty, px, pz + 1, py) == voxel_or_empty(buf, w, h, d, empty, px, py, pz + 1));
}

/// Scale2x treats the x and z axes alike: upscaling the buffer with x and z
/// exchanged gives the upscale with x and z exchanged.
pub proof fn law_scale2x_symmetric_xz<P>(
    buf: Seq<P>,
    w: int,
    h: int,
    d: int,
    empty: P,
    x: int,
    y: int,
    z: int,
)
    requires
        0 <= x < 2 * w,
        0 <= y < 2 * h,
        0 <= z < 2 * d,
    ensures
        scale2x_voxel(swap_xz(buf, w, h, d), d, h, w, empty, z, y, x) == scale2x_voxel(
            buf,
            w,
            h,
            d,
            empty,
            x,
            y,
            z,
        ),
{
    let s = swap_xz(buf, w, h, d);
    assert forall|i: int, j: int, k: int|
        #![trigger voxel_or_empty(buf, w, h, d, empty, i, j, k)]
        voxel_or_empty(s, d, h, w, empty, k, j, i) == voxel_or_empty(buf, w, h, d, empty, i, j, k) by {
        if 0 <= i < w && 0 <= j < h && 0 <= k < d {
            lemma_flat_index_bound(k, j, i, d, h, w);
            law_coords_of_index(k, j, i, d, h);
        }
    }
    let (px, py, pz) = (x / 2, y / 2, z / 2);
    assert(voxel_or_empty(s, d, h, w, empty, pz, py, px) == voxel_or_empty(buf, w, h, d, empty, px, py, pz));
    assert(voxel_or_empty(s, d, h, w, empty, pz, py, px - 1) == voxel_or_empty(buf, w, h, d, empty, px - 1, py, pz));
    assert(voxel_or_empty(s, d, h, w, empty, pz, py, px + 1) == voxel_or_empty(buf, w, h, d, empty, px + 1, py, pz));
    assert(voxel_or_empty(s, d, h, w, empty, pz, py - 1, px) == voxel_or_empty(buf, w, h, d, empty, px, py - 1, pz));
    assert(voxel_or_empty(s, d, h, w, empty, pz, py + 1, px) == voxel_or_empty(buf, w, h, d, empty, px, py + 1, pz));
    assert(voxel_or_empty(s, d, h, w, empty, pz - 1, py, px) == voxel_or_empty(buf, w, h, d, empty, px, py, pz - 1));
    assert(voxel_or_empty(s, d, h, w, empty, pz + 1, py, px) == voxel_or_empty(buf, w, h, d, empty, px, py, pz + 1));
}

/// A voxel in range has an index that `three_to_one` computes without overflow.
proof fn lemma_in_range_index_fits(x: int, y: int, z: int, w: int, h: int, d: int)
    requires
        0 <= x < w,
        0 <= y < h,
        0 <= z < d,
        w * h * d <= usize::MAX,
    ensures
        z * w <= usize::MAX,
        0 <= flat_index(x, y, z, w, h) < w * h * d,
{
    lemma_flat_index_bound(x, y, z, w, h, d);
    assert(z * w <= z * w * h) by (nonlinear_arith)
        requires z >= 0, w >= 0, h >= 1;
}

} // verus!
