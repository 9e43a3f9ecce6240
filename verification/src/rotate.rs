use vstd::prelude::*;
use vstd::pervasive::strictly_cloned;
use vstd::arithmetic::div_mod::lemma_fundamental_div_mod;
use crate::scale2x::{block_before, clones_exactly, flat_index, lemma_flat_index_bound, lemma_flat_index_injective};

verus! {

/// A rotation axis.
pub enum Axis {
    X,
    Y,
    Z,
}

/// Size along one axis after downscaling by `factor`: `size / factor`, but at least 1.
pub open spec fn shrunk_size(size: int, factor: int) -> int {
    if size / factor > 1 {
        size / factor
    } else {
        1
    }
}

/// Index in the source buffer of the voxel that output voxel `(x, y, z)` of a
/// downscale by `factor` samples.
pub open spec fn downscale_source_index(x: int, y: int, z: int, w: int, h: int, factor: int) -> int {
    flat_index(x * factor, y * factor, z * factor, w, h)
}

/// The conditions under which `downscale` reads only inside a buffer of `len`
/// voxels and computes every index without overflow.
pub open spec fn downscale_fits(len: int, w: int, h: int, d: int, factor: int) -> bool {
    let nw = shrunk_size(w, factor);
    let nh = shrunk_size(h, factor);
    let nd = shrunk_size(d, factor);
    &&& factor > 0
    &&& len > 0
    &&& nw * nh * nd <= usize::MAX
    &&& (nd - 1) * factor * w <= usize::MAX
    &&& downscale_source_index(nw - 1, nh - 1, nd - 1, w, h, factor) < len
}

/// Downscaling by a factor of 1 keeps every size of at least 1 and samples each
/// voxel at its own position.
pub proof fn law_downscale_by_one(w: int, h: int, d: int, x: int, y: int, z: int)
    requires
        w >= 1,
        h >= 1,
        d >= 1,
    ensures
        shrunk_size(w, 1) == w,
        shrunk_size(h, 1) == h,
        shrunk_size(d, 1) == d,
        downscale_source_index(x, y, z, w, h, 1) == flat_index(x, y, z, w, h),
{
}

/// `s` holds the downscaled voxel at every output position before `(cx, cy, cz)`.
pub open spec fn downscaled_before<P>(
    s: Seq<P>,
    buf: Seq<P>,
    w: int,
    h: int,
    factor: int,
    nw: int,
    nh: int,
    nd: int,
    cx: int,
    cy: int,
    cz: int,
) -> bool {
    forall|x: int, y: int, z: int|
        0 <= x < nw && 0 <= y < nh && 0 <= z < nd && block_before(x, y, z, cx, cy, cz)
            ==> #[trigger] s[flat_index(x, y, z, nw, nh)] == buf[downscale_source_index(
            x,
            y,
            z,
            w,
            h,
            factor,
        )]
}

/// Sampling positions of in-range output voxels stay at or below the last one.
proof fn lemma_source_index_bound(x: int, y: int, z: int, w: int, h: int, d: int, factor: int)
    requires
        factor > 0,
        w >= 0,
        h >= 0,
        0 <= x < shrunk_size(w, factor),
        0 <= y < shrunk_size(h, factor),
        0 <= z < shrunk_size(d, factor),
    ensures
        0 <= x * factor,
        0 <= y * factor,
        0 <= z * factor,
        x * factor <= w,
        y * factor <= h,
        d >= 0 ==> z * factor <= d,
        y * factor * w <= downscale_source_index(x, y, z, w, h, factor),
        z * factor * w <= (shrunk_size(d, factor) - 1) * factor * w,
        0 <= z * factor * w * h <= downscale_source_index(x, y, z, w, h, factor),
        downscale_source_index(x, y, z, w, h, factor) <= downscale_source_index(
            shrunk_size(w, factor) - 1,
            shrunk_size(h, factor) - 1,
            shrunk_size(d, factor) - 1,
            w,
            h,
            factor,
        ),
{
    let nw = shrunk_size(w, factor);
    let nh = shrunk_size(h, factor);
    let nd = shrunk_size(d, factor);
    assert(0 <= x * factor <= (nw - 1) * factor) by (nonlinear_arith)
        requires 0 <= x <= nw - 1, factor > 0;
    assert(0 <= y * factor * w <= (nh - 1) * factor * w) by (nonlinear_arith)
        requires 0 <= y <= nh - 1, factor > 0, w >= 0;
    assert(0 <= z * factor * w <= (nd - 1) * factor * w) by (nonlinear_arith)
        requires 0 <= z <= nd - 1, factor > 0, w >= 0;
    assert(0 <= z * factor * w * h <= (nd - 1) * factor * w * h) by (nonlinear_arith)
        requires 0 <= z <= nd - 1, factor > 0, w >= 0, h >= 0;
    assert(0 <= y * factor);
    assert(0 <= z * factor);
    lemma_scaled_coordinate_fits(x, w, factor);
    lemma_scaled_coordinate_fits(y, h, factor);
    if d >= 0 {
        lemma_scaled_coordinate_fits(z, d, factor);
    }
}

proof fn lemma_scaled_coordinate_fits(x: int, size: int, factor: int)
    requires
        factor > 0,
        size >= 0,
        0 <= x < shrunk_size(size, factor),
    ensures
        x * factor <= size,
{
    if size / factor > 1 {
        lemma_fundamental_div_mod(size, factor);
        assert(x * factor <= (size / factor - 1) * factor) by (nonlinear_arith)
            requires x <= size / factor - 1, factor > 0;
        assert((size / factor - 1) * factor == factor * (size / factor) - factor) by (nonlinear_arith);
        assert(size % factor >= 0);
    } else {
        assert(x == 0);
        assert(x * factor == 0);
    }
}

/// Downscales a `width` x `height` x `depth` voxel buffer (in (x, y, z) order) by
/// `factor`, sampling every `factor`-th voxel along each axis. Each output size is
/// `size / factor`, but at least 1.
pub fn downscale<P: Clone>(
    buf: &[P],
    width: usize,
    height: usize,
    depth: usize,
    factor: usize,
) -> (res: (usize, usize, usize, Vec<P>))
    requires
        downscale_fits(buf@.len() as int, width as int, height as int, depth as int, factor as int),
    ensures
        res.0 == shrunk_size(width as int, factor as int),
        res.1 == shrunk_size(height as int, factor as int),
        res.2 == shrunk_size(depth as int, factor as int),
        res.3@.len() == res.0 * res.1 * res.2,
        clones_exactly::<P>() ==> forall|x: int, y: int, z: int|
            0 <= x < res.0 && 0 <= y < res.1 && 0 <= z < res.2 ==> #[trigger] res.3@[flat_index(
                x,
                y,
                z,
                res.0 as int,
                res.1 as int,
            )] == buf@[downscale_source_index(
                x,
                y,
                z,
                width as int,
                height as int,
                factor as int,
            )],
{
    let ghost w = width as int;
    let ghost h = height as int;
    let ghost f = factor as int;
    let new_width = (width / factor).max(1);
    let new_height = (height / factor).max(1);
    let new_depth = (depth / factor).max(1);
    let ghost nw = new_width as int;
    let ghost nh = new_height as int;
    let ghost nd = new_depth as int;
    assert(nw * nh <= nw * nh * nd) by (nonlinear_arith)
        requires nw >= 1, nh >= 1, nd >= 1;
    let len = buf.len();
    let mut scaled = vec![buf[0].clone(); new_width * new_height * new_depth];
    for z in 0..new_depth
        invariant
            w == width,
            h == height,
            f == factor,
            nw == new_width,
            nh == new_height,
            nd == new_depth,
            nw == shrunk_size(w, f),
            nh == shrunk_size(h, f),
            nd == shrunk_size(depth as int, f),
            downscale_fits(buf@.len() as int, w, h, depth as int, f),
            nw * nh <= usize::MAX,
            len == buf@.len(),
            scaled@.len() == nw * nh * nd,
            clones_exactly::<P>() ==> downscaled_before(scaled@, buf@, w, h, f, nw, nh, nd, 0, 0, z as int),
    {
        for y in 0..new_height
            invariant
                w == width,
                h == height,
                f == factor,
                nw == new_width,
                nh == new_height,
                nd == new_depth,
                nw == shrunk_size(w, f),
                nh == shrunk_size(h, f),
                nd == shrunk_size(depth as int, f),
                downscale_fits(buf@.len() as int, w, h, depth as int, f),
                nw * nh <= usize::MAX,
            len == buf@.len(),
                0 <= z < nd,
                scaled@.len() == nw * nh * nd,
                clones_exactly::<P>() ==> downscaled_before(scaled@, buf@, w, h, f, nw, nh, nd, 0, y as int, z as int),
        {
            for x in 0..new_width
                invariant
                    w == width,
                    h == height,
                    f == factor,
                    nw == new_width,
                    nh == new_height,
                    nd == new_depth,
                    nw == shrunk_size(w, f),
                    nh == shrunk_size(h, f),
                    nd == shrunk_size(depth as int, f),
                    downscale_fits(buf@.len() as int, w, h, depth as int, f),
                    nw * nh <= usize::MAX,
            len == buf@.len(),
                    0 <= z < nd,
                    0 <= y < nh,
                    scaled@.len() == nw * nh * nd,
                    clones_exactly::<P>() ==> downscaled_before(scaled@, buf@, w, h, f, nw, nh, nd, x as int, y as int, z as int),
            {
                proof {
                    lemma_source_index_bound(x as int, y as int, z as int, w, h, depth as int, f);
                    lemma_flat_index_bound(x as int, y as int, z as int, nw, nh, nd);
                    assert(0 <= z * nw <= z * nw * nh) by (nonlinear_arith)
                        requires z >= 0, nw >= 0, nh >= 1;
                    assert(0 <= y * nw <= flat_index(x as int, y as int, z as int, nw, nh)) by (nonlinear_arith)
                        requires y >= 0, nw >= 0, x >= 0, z * nw * nh >= 0;
                }
                let src_x = x * factor;
                let src_y = y * factor;
                let src_z = z * factor;
                let src_idx = src_z * width * height + src_y * width + src_x;
                let dst_idx = z * new_width * new_height + y * new_width + x;
                let ghost before = scaled@;
                let v = buf[src_idx].clone();
                scaled.set(dst_idx, v);
                proof {
                    if clones_exactly::<P>() {
                        assert(strictly_cloned(buf@[src_idx as int], v));
                        assert forall|xx: int, yy: int, zz: int|
                            0 <= xx < nw && 0 <= yy < nh && 0 <= zz < nd && block_before(xx, yy, zz, x + 1, y as int, z as int)
                                implies #[trigger] scaled@[flat_index(xx, yy, zz, nw, nh)] == buf@[downscale_source_index(
                                xx,
                                yy,
                                zz,
                                w,
                                h,
                                f,
                            )] by {
                            lemma_flat_index_bound(xx, yy, zz, nw, nh, nd);
                            if !(xx == x && yy == y && zz == z) {
                                if flat_index(xx, yy, zz, nw, nh) == dst_idx {
                                    lemma_flat_index_injective(xx, yy, zz, x as int, y as int, z as int, nw, nh);
                                }
                                assert(before[flat_index(xx, yy, zz, nw, nh)] == buf@[downscale_source_index(
                                    xx,
                                    yy,
                                    zz,
                                    w,
                                    h,
                                    f,
                                )]);
                            }
                        }
                    }
                }
            }
        }
    }
    (new_width, new_height, new_depth, scaled)
}

} // verus!
