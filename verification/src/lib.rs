//! Voxel art rotation with the rotsprite approach: upscale with a 3D Scale2x,
//! rotate at the higher resolution, then downscale again.

pub mod flatten_vox;
pub mod rotate;
pub mod scale2x;

pub use crate::flatten_vox::{
    colors_to_vox_model, flatten_vox_model, flattened_voxels_colors_to_voxels, ModelSize, MyVoxel,
    PaletteVoxel, VoxData, VoxModel,
};
pub use crate::rotate::{downscale, Axis};
pub use crate::scale2x::{one_to_three, scale2x, three_to_one};

use vstd::prelude::*;
use vstd::arithmetic::power::lemma_pow0;
use vstd::arithmetic::power2::{lemma_pow2_unfold, pow2};
use crate::rotate::{downscale_source_index, shrunk_size};
use crate::scale2x::{
    flat_index, law_coords_of_index, plain_voxel, scale2x_block_voxel, scale2x_fits, scale2x_seq,
};

verus! {

/// Why a voxel buffer cannot be rotated.
#[derive(Debug, PartialEq, Eq, Structural)]
pub enum Error {
    /// The buffer's length is not a multiple of the width it was given with.
    ImageSizeMismatch,
}

/// Default number of Scale2x passes (3 passes = 8x upscale).
pub const DEFAULT_SCALE_PASSES: u32 = 3;

/// `2^n`: how much `n` Scale2x passes enlarge each side.
pub open spec fn scale_factor(n: nat) -> nat
    decreases n,
{
    if n == 0 {
        1
    } else {
        2 * scale_factor((n - 1) as nat)
    }
}

/// The number of Scale2x passes that `scale_passes` asks for.
pub open spec fn passes_wanted(scale_passes: Option<u32>) -> nat {
    match scale_passes {
        Some(n) => n as nat,
        None => DEFAULT_SCALE_PASSES as nat,
    }
}

/// `buf` after `n` Scale2x passes, starting from a `w` x `h` x `d` buffer.
pub open spec fn scale2x_repeated<P>(buf: Seq<P>, w: int, h: int, d: int, empty: P, n: nat) -> Seq<P>
    decreases n,
{
    if n == 0 {
        buf
    } else {
        let k = scale_factor((n - 1) as nat);
        scale2x_seq(scale2x_repeated(buf, w, h, d, empty, (n - 1) as nat), w * k, h * k, d * k, empty)
    }
}

/// `n` Scale2x passes over a buffer of `len` voxels sized `w` x `h` x `d` read
/// inside it and compute every size without overflow.
pub open spec fn upscale_fits(len: int, w: int, h: int, d: int, n: nat) -> bool {
    n > 0 ==> {
        let k = scale_factor((n - 1) as nat);
        &&& w * h * d <= len
        &&& scale2x_fits(w * k, h * k, d * k)
    }
}

proof fn lemma_scale_factor_positive(n: nat)
    ensures
        scale_factor(n) >= 1,
    decreases n,
{
    if n > 0 {
        lemma_scale_factor_positive((n - 1) as nat);
    }
}

proof fn lemma_scale_factor_monotone(i: nat, n: nat)
    requires
        i <= n,
    ensures
        scale_factor(i) <= scale_factor(n),
    decreases n,
{
    if i < n {
        lemma_scale_factor_monotone(i, (n - 1) as nat);
        lemma_scale_factor_positive((n - 1) as nat);
    }
}

proof fn lemma_scale2x_fits_smaller(w: int, h: int, d: int, a: int, b: int)
    requires
        0 <= w,
        0 <= h,
        0 <= d,
        1 <= a <= b,
        scale2x_fits(w * b, h * b, d * b),
    ensures
        scale2x_fits(w * a, h * a, d * a),
{
    assert(w * a <= w * b && h * a <= h * b && d * a <= d * b) by (nonlinear_arith)
        requires 0 <= w, 0 <= h, 0 <= d, 1 <= a <= b;
    let (wa, ha, da, wb, hb, db) = (w * a, h * a, d * a, w * b, h * b, d * b);
    assert((2 * wa) * (2 * ha) <= (2 * wb) * (2 * hb)) by (nonlinear_arith)
        requires 0 <= wa <= wb, 0 <= ha <= hb;
    assert((2 * wa) * (2 * ha) * (2 * da) <= (2 * wb) * (2 * hb) * (2 * db)) by (nonlinear_arith)
        requires 0 <= wa <= wb, 0 <= ha <= hb, 0 <= da <= db;
    assert(0 <= wa && 0 <= ha && 0 <= da) by (nonlinear_arith)
        requires 0 <= w, 0 <= h, 0 <= d, 1 <= a, wa == w * a, ha == h * a, da == d * a;
}

/// The integer part of a rotation: checks the buffer against `width`, then runs
/// the Scale2x passes that `scale_passes` asks for (3 when `None`). On success it
/// returns the upscaled sizes and buffer, and the factor `2^passes` by which the
/// rotated result is to be downscaled again.
pub fn rotvoxel_upscale<P: Eq + Clone>(
    buf: &[P],
    empty: &P,
    width: usize,
    height: usize,
    depth: usize,
    scale_passes: Option<u32>,
) -> (res: Result<(usize, usize, usize, Vec<P>, usize), Error>)
    requires
        width > 0,
        buf@.len() % (width as nat) == 0 ==> upscale_fits(
            buf@.len() as int,
            width as int,
            height as int,
            depth as int,
            passes_wanted(scale_passes),
        ),
    ensures
        buf@.len() % (width as nat) != 0 <==> res == Err::<(usize, usize, usize, Vec<P>, usize), Error>(
            Error::ImageSizeMismatch,
        ),
        res matches Ok((sw, sh, sd, scaled, factor)) ==> {
            let n = passes_wanted(scale_passes);
            &&& factor == scale_factor(n)
            &&& sw == width * factor
            &&& sh == height * factor
            &&& sd == depth * factor
            &&& plain_voxel::<P>() ==> scaled@ == scale2x_repeated(
                buf@,
                width as int,
                height as int,
                depth as int,
                *empty,
                n,
            )
        },
        res matches Ok((sw, sh, sd, scaled, factor)) ==> {
            &&& scale_passes matches Some(n) ==> {
                &&& factor == pow2(n as nat)
                &&& sw == width * pow2(n as nat)
                &&& sh == height * pow2(n as nat)
                &&& sd == depth * pow2(n as nat)
                &&& plain_voxel::<P>() ==> scaled@ == scale2x_repeated(
                    buf@,
                    width as int,
                    height as int,
                    depth as int,
                    *empty,
                    n as nat,
                )
            }
            &&& scale_passes is None ==> {
                &&& factor == 8
                &&& sw == width * 8
                &&& sh == height * 8
                &&& sd == depth * 8
                &&& plain_voxel::<P>() ==> scaled@ == scale2x_repeated(
                    buf@,
                    width as int,
                    height as int,
                    depth as int,
                    *empty,
                    3,
                )
            }
        },
{
    let len = buf.len();
    if len % width != 0 {
        return Err(Error::ImageSizeMismatch);
    }
    let passes = match scale_passes {
        Some(p) => p,
        None => DEFAULT_SCALE_PASSES,
    };
    let ghost n = passes as nat;
    let ghost (w, h, d) = (width as int, height as int, depth as int);
    let mut scaled: Vec<P> = Vec::new();
    for i in 0..len
        invariant
            len == buf@.len(),
            scaled@.len() == i,
            plain_voxel::<P>() ==> scaled@ == buf@.subrange(0, i as int),
    {
        let v = buf[i].clone();
        proof {
            assert(vstd::pervasive::strictly_cloned(buf@[i as int], v));
        }
        scaled.push(v);
    }
    let mut sw = width;
    let mut sh = height;
    let mut sd = depth;
    let mut factor: usize = 1;
    for pass in 0..passes
        invariant
            n == passes,
            n == passes_wanted(scale_passes),
            w == width,
            h == height,
            d == depth,
            w > 0,
            upscale_fits(len as int, w, h, d, n),
            factor == scale_factor(pass as nat),
            sw == w * factor,
            sh == h * factor,
            sd == d * factor,
            pass < passes ==> sw * sh * sd <= scaled@.len(),
            plain_voxel::<P>() ==> scaled@ == scale2x_repeated(buf@, w, h, d, *empty, pass as nat),
    {
        proof {
            let k = scale_factor(pass as nat);
            let kn = scale_factor((n - 1) as nat);
            lemma_scale_factor_positive(pass as nat);
            lemma_scale_factor_monotone(pass as nat, (n - 1) as nat);
            lemma_scale2x_fits_smaller(w, h, d, k as int, kn as int);
            assert(w * k * 2 == w * (2 * k) && h * k * 2 == h * (2 * k) && d * k * 2 == d * (2 * k))
                by (nonlinear_arith);
            assert(k <= w * k) by (nonlinear_arith)
                requires w >= 1, k >= 1;
        }
        let result = scale2x(scaled.as_slice(), sw, sh, sd, empty);
        sw = result.0;
        sh = result.1;
        sd = result.2;
        scaled = result.3;
        factor = factor * 2;
    }
    proof {
        law_scale_factor_is_power_of_two(n);
        if let Some(p) = scale_passes {
            law_passes_wanted(p);
        } else {
            assert(scale_factor(3) == 8) by {
                reveal_with_fuel(scale_factor, 4);
            }
        }
    }
    Ok((sw, sh, sd, scaled, factor))
}

/// `n` Scale2x passes enlarge each side by `2^n`.
pub proof fn law_scale_factor_is_power_of_two(n: nat)
    ensures
        scale_factor(n) == pow2(n),
    decreases n,
{
    if n == 0 {
        lemma_pow0(2);
    } else {
        law_scale_factor_is_power_of_two((n - 1) as nat);
        lemma_pow2_unfold(n);
    }
}

/// Each pass upscales the result of the passes before it with Scale2x at the
/// sizes those passes reached, `2^n` times the starting ones, and after `n + 1`
/// passes the buffer holds `8^(n + 1)` times as many voxels.
pub proof fn law_scale2x_repeated_step<P>(buf: Seq<P>, w: int, h: int, d: int, empty: P, n: nat)
    requires
        0 <= w,
        0 <= h,
        0 <= d,
    ensures
        scale2x_repeated(buf, w, h, d, empty, n + 1) == scale2x_seq(
            scale2x_repeated(buf, w, h, d, empty, n),
            w * pow2(n),
            h * pow2(n),
            d * pow2(n),
            empty,
        ),
        scale2x_repeated(buf, w, h, d, empty, n + 1).len() == (w * pow2(n + 1)) * (h * pow2(n + 1)) * (
        d * pow2(n + 1)),
{
    law_scale_factor_is_power_of_two(n);
    law_scale_factor_is_power_of_two(n + 1);
    lemma_pow2_unfold(n + 1);
    let k = pow2(n) as int;
    assert(0 <= 2 * (w * k) && 0 <= 2 * (h * k) && 0 <= 2 * (d * k)) by (nonlinear_arith)
        requires 0 <= w, 0 <= h, 0 <= d, k >= 0;
    assert(2 * (w * k) == w * (2 * k) && 2 * (h * k) == h * (2 * k) && 2 * (d * k) == d * (2 * k))
        by (nonlinear_arith);
    assert((2 * (w * k)) * (2 * (h * k)) * (2 * (d * k)) >= 0) by (nonlinear_arith)
        requires 0 <= w * k, 0 <= h * k, 0 <= d * k;
}

/// Asking for `n` Scale2x passes runs exactly `n` passes; asking for none runs
/// three.
pub proof fn law_passes_wanted(n: u32)
    ensures
        passes_wanted(Some(n)) == n as nat,
        passes_wanted(None) == 3,
{
}


/// Downscaling by the factor of `n` Scale2x passes brings a side of at least one
/// voxel back to its size.
pub proof fn law_downscale_restores_size(size: int, n: nat)
    requires
        size >= 1,
    ensures
        shrunk_size(size * scale_factor(n), scale_factor(n) as int) == size,
{
    let k = scale_factor(n) as int;
    lemma_scale_factor_positive(n);
    assert((size * k) / k == size) by (nonlinear_arith)
        requires k >= 1;
}

/// Downscaling a Scale2x upscale by 2 gives back the sizes it started from, and each
/// voxel it keeps is the first sub-voxel, `(0, 0, 0)`, of the block that the
/// source voxel at the same position became.
pub proof fn law_downscale_samples_first_sub_voxel<P>(
    buf: Seq<P>,
    w: int,
    h: int,
    d: int,
    empty: P,
    x: int,
    y: int,
    z: int,
)
    requires
        0 <= x < w,
        0 <= y < h,
        0 <= z < d,
    ensures
        shrunk_size(2 * w, 2) == w,
        shrunk_size(2 * h, 2) == h,
        shrunk_size(2 * d, 2) == d,
        0 <= downscale_source_index(x, y, z, 2 * w, 2 * h, 2) < scale2x_seq(buf, w, h, d, empty).len(),
        scale2x_seq(buf, w, h, d, empty)[downscale_source_index(x, y, z, 2 * w, 2 * h, 2)]
            == scale2x_block_voxel(buf, w, h, d, empty, x, y, z, 0, 0, 0),
{
    let i = downscale_source_index(x, y, z, 2 * w, 2 * h, 2);
    assert(i == flat_index(2 * x, 2 * y, 2 * z, 2 * w, 2 * h));
    law_coords_of_index(2 * x, 2 * y, 2 * z, 2 * w, 2 * h);
    crate::scale2x::lemma_flat_index_bound(2 * x, 2 * y, 2 * z, 2 * w, 2 * h, 2 * d);
}

} // verus!
