use vstd::prelude::*;
use std::collections::HashMap;
use crate::scale2x::{
    flat_index, lemma_coords_in_range, lemma_flat_index_bound, one_to_three, three_to_one, voxel_coords,
};

verus! {

broadcast use vstd::std_specs::hash::group_hash_axioms;

/// Size of a palette model along each axis.
#[derive(Debug, Clone, Copy, PartialEq, Eq)]
pub struct ModelSize {
    pub x: u32,
    pub y: u32,
    pub z: u32,
}

/// A voxel of a palette model: its position and its index into the palette.
#[derive(Debug, Clone, Copy, PartialEq, Eq)]
pub struct PaletteVoxel {
    pub x: u8,
    pub y: u8,
    pub z: u8,
    pub i: u8,
}

/// A model of a `.vox` scene: its size and the voxels that are set.
#[derive(Debug, Clone)]
pub struct VoxModel {
    pub size: ModelSize,
    pub voxels: Vec<PaletteVoxel>,
}

/// What the flattening reads of a `.vox` scene: its models and its palette of
/// RGBA colours.
#[derive(Debug, Clone)]
pub struct VoxData {
    pub models: Vec<VoxModel>,
    pub palette: Vec<[u8; 4]>,
}

/// A coloured voxel at a position.
#[derive(Debug, Clone, Copy, PartialEq, Eq)]
pub struct MyVoxel {
    pub x: usize,
    pub y: usize,
    pub z: usize,
    pub color: [u8; 4],
}

/// The fully transparent colour that unset voxels get.
pub open spec fn transparent() -> [u8; 4] {
    [0u8, 0u8, 0u8, 0u8]
}

/// The colours of a `sx` x `sy` x `sz` model in (x, y, z) order after painting
/// `voxels` one after the other with their palette colours onto a transparent
/// buffer: a later voxel at the same position wins.
pub open spec fn painted_model(
    voxels: Seq<PaletteVoxel>,
    palette: Seq<[u8; 4]>,
    sx: int,
    sy: int,
    sz: int,
) -> Seq<[u8; 4]>
    decreases voxels.len(),
{
    if voxels.len() == 0 {
        Seq::new((sx * sy * sz) as nat, |i: int| transparent())
    } else {
        let v = voxels.last();
        painted_model(voxels.drop_last(), palette, sx, sy, sz).update(
            flat_index(v.x as int, v.y as int, v.z as int, sx, sy),
            palette[v.i as int],
        )
    }
}

/// A model can be flattened against a palette of `palette_len` colours: its size
/// product fits in `u32`, and each voxel names a palette entry and lies inside
/// the flattened buffer.
pub open spec fn model_fits(model: VoxModel, palette_len: int) -> bool {
    let (sx, sy, sz) = (model.size.x as int, model.size.y as int, model.size.z as int);
    &&& sx * sy <= u32::MAX
    &&& sx * sy * sz <= u32::MAX
    &&& forall|j: int|
        0 <= j < model.voxels@.len() ==> {
            let v = #[trigger] model.voxels@[j];
            &&& (v.i as int) < palette_len
            &&& flat_index(v.x as int, v.y as int, v.z as int, sx, sy) < sx * sy * sz
        }
}

/// Flattens every model of `vox_data` into a buffer of RGBA colours in (x, y, z)
/// order: unset voxels are transparent, set voxels take their palette colour.
pub fn flatten_vox_model(vox_data: &VoxData) -> (res: Vec<Vec<[u8; 4]>>)
    requires
        forall|m: int|
            0 <= m < vox_data.models@.len() ==> model_fits(
                #[trigger] vox_data.models@[m],
                vox_data.palette@.len() as int,
            ),
    ensures
        res@.len() == vox_data.models@.len(),
        forall|m: int|
            0 <= m < res@.len() ==> {
                let model = vox_data.models@[m];
                #[trigger] res@[m]@ == painted_model(
                    model.voxels@,
                    vox_data.palette@,
                    model.size.x as int,
                    model.size.y as int,
                    model.size.z as int,
                )
            },
{
    let mut result: Vec<Vec<[u8; 4]>> = Vec::new();
    let n_models = vox_data.models.len();
    for m in 0..n_models
        invariant
            n_models == vox_data.models@.len(),
            forall|k: int|
                0 <= k < vox_data.models@.len() ==> model_fits(
                    #[trigger] vox_data.models@[k],
                    vox_data.palette@.len() as int,
                ),
            result@.len() == m,
            forall|k: int|
                0 <= k < m ==> {
                    let model = vox_data.models@[k];
                    #[trigger] result@[k]@ == painted_model(
                        model.voxels@,
                        vox_data.palette@,
                        model.size.x as int,
                        model.size.y as int,
                        model.size.z as int,
                    )
                },
    {
        let model = &vox_data.models[m];
        assert(model_fits(*model, vox_data.palette@.len() as int));
        let colors = flatten_one_model(model, &vox_data.palette);
        result.push(colors);
    }
    result
}

fn flatten_one_model(model: &VoxModel, palette: &Vec<[u8; 4]>) -> (res: Vec<[u8; 4]>)
    requires
        model_fits(*model, palette@.len() as int),
    ensures
        res@ == painted_model(
            model.voxels@,
            palette@,
            model.size.x as int,
            model.size.y as int,
            model.size.z as int,
        ),
{
    let ghost (sx, sy, sz) = (model.size.x as int, model.size.y as int, model.size.z as int);
    let total = (model.size.x * model.size.y * model.size.z) as usize;
    // start out completely transparent
    let mut colors: Vec<[u8; 4]> = Vec::new();
    for i in 0..total
        invariant
            colors@.len() == i,
            forall|j: int| 0 <= j < i ==> #[trigger] colors@[j] == transparent(),
    {
        colors.push([0u8, 0u8, 0u8, 0u8]);
    }
    assert(colors@ =~= painted_model(model.voxels@.take(0), palette@, sx, sy, sz));
    let n_voxels = model.voxels.len();
    for j in 0..n_voxels
        invariant
            n_voxels == model.voxels@.len(),
            model_fits(*model, palette@.len() as int),
            sx == model.size.x,
            sy == model.size.y,
            sz == model.size.z,
            colors@.len() == sx * sy * sz,
            colors@ == painted_model(model.voxels@.take(j as int), palette@, sx, sy, sz),
    {
        let voxel = model.voxels[j];
        assert(model.voxels@[j as int] == voxel);
        assert(model.voxels@.take(j + 1).drop_last() =~= model.voxels@.take(j as int));
        proof {
            let (x, y, z) = (voxel.x as int, voxel.y as int, voxel.z as int);
            assert(flat_index(x, y, z, sx, sy) < sx * sy * sz);
            assert(sx >= 1 && sy >= 1) by (nonlinear_arith)
                requires
                    x >= 0,
                    y >= 0,
                    z >= 0,
                    sx >= 0,
                    sy >= 0,
                    sz >= 0,
                    x + y * sx + z * sx * sy < sx * sy * sz;
            assert(0 <= y * sx && 0 <= z * sx * sy && z * sx <= z * sx * sy) by (nonlinear_arith)
                requires y >= 0, z >= 0, sx >= 1, sy >= 1;
        }
        let index = three_to_one(
            voxel.x as usize,
            voxel.y as usize,
            voxel.z as usize,
            model.size.x as usize,
            model.size.y as usize,
        );
        let color = palette[voxel.i as usize];
        colors.set(index, color);
    }
    assert(model.voxels@.take(n_voxels as int) =~= model.voxels@);
    colors
}

/// Any voxel in `colors` that is not fully transparent (alpha not 0).
pub open spec fn has_opaque(colors: Seq<[u8; 4]>) -> bool {
    exists|i: int| 0 <= i < colors.len() && #[trigger] colors[i][3] != 0
}

/// The voxels of a `w`-wide, `h`-high colour buffer whose alpha is not 0, in
/// buffer order, each with its coordinates and colour.
pub open spec fn opaque_voxels(colors: Seq<[u8; 4]>, w: int, h: int) -> Seq<MyVoxel>
    decreases colors.len(),
{
    if colors.len() == 0 {
        seq![]
    } else {
        let i = colors.len() - 1;
        let prev = opaque_voxels(colors.drop_last(), w, h);
        if colors[i][3] == 0 {
            prev
        } else {
            let c = voxel_coords(i, w, h);
            prev.push(MyVoxel { x: c.0 as usize, y: c.1 as usize, z: c.2 as usize, color: colors[i] })
        }
    }
}

/// Every voxel that unflattening yields is opaque and sits at the position in the
/// buffer whose colour it carries; the voxels come in buffer order.
pub proof fn law_opaque_voxels_sit_at_their_colors(colors: Seq<[u8; 4]>, w: int, h: int)
    requires
        0 < w,
        0 < h,
        colors.len() <= usize::MAX,
    ensures
        forall|k: int|
            0 <= k < opaque_voxels(colors, w, h).len() ==> {
                let v = #[trigger] opaque_voxels(colors, w, h)[k];
                let i = flat_index(v.x as int, v.y as int, v.z as int, w, h);
                &&& 0 <= i < colors.len()
                &&& colors[i] == v.color
                &&& v.color[3] != 0
            },
        forall|k1: int, k2: int|
            0 <= k1 < k2 < opaque_voxels(colors, w, h).len() ==> flat_index(
                opaque_voxels(colors, w, h)[k1].x as int,
                opaque_voxels(colors, w, h)[k1].y as int,
                opaque_voxels(colors, w, h)[k1].z as int,
                w,
                h,
            ) < flat_index(
                opaque_voxels(colors, w, h)[k2].x as int,
                opaque_voxels(colors, w, h)[k2].y as int,
                opaque_voxels(colors, w, h)[k2].z as int,
                w,
                h,
            ),
    decreases colors.len(),
{
    if colors.len() > 0 {
        let prefix = colors.drop_last();
        law_opaque_voxels_sit_at_their_colors(prefix, w, h);
        let i = colors.len() - 1;
        crate::scale2x::law_index_of_coords(i, w, h);
        let c = voxel_coords(i, w, h);
        assert(0 <= c.0 <= i && 0 <= c.1 <= i && 0 <= c.2 <= i) by (nonlinear_arith)
            requires
                0 <= c.0 < w,
                0 <= c.1 < h,
                0 <= c.2,
                c.0 + c.1 * w + c.2 * w * h == i,
                w >= 1,
                h >= 1;
        let all = opaque_voxels(colors, w, h);
        let before = opaque_voxels(prefix, w, h);
        assert forall|k: int| 0 <= k < before.len() implies {
            let v = #[trigger] all[k];
            let j = flat_index(v.x as int, v.y as int, v.z as int, w, h);
            &&& 0 <= j < colors.len()
            &&& colors[j] == v.color
            &&& v.color[3] != 0
            &&& j < i
        } by {
            assert(all[k] == before[k]);
        }
    }
}

/// Unflattening keeps every voxel that is not transparent: there are exactly as
/// many voxels as buffer entries whose alpha is not 0, and for each such entry a
/// voxel with its coordinates and its colour.
pub proof fn law_opaque_voxels_complete(colors: Seq<[u8; 4]>, w: int, h: int)
    ensures
        opaque_voxels(colors, w, h).len() == colors.filter(|c: [u8; 4]| c[3] != 0).len(),
        forall|i: int|
            0 <= i < colors.len() && #[trigger] colors[i][3] != 0 ==> exists|k: int|
                0 <= k < opaque_voxels(colors, w, h).len() && opaque_voxels(colors, w, h)[k] == (MyVoxel {
                    x: voxel_coords(i, w, h).0 as usize,
                    y: voxel_coords(i, w, h).1 as usize,
                    z: voxel_coords(i, w, h).2 as usize,
                    color: colors[i],
                }),
    decreases colors.len(),
{
    reveal(Seq::filter);
    if colors.len() > 0 {
        let prefix = colors.drop_last();
        law_opaque_voxels_complete(prefix, w, h);
        let all = opaque_voxels(colors, w, h);
        let before = opaque_voxels(prefix, w, h);
        assert forall|k: int| 0 <= k < before.len() implies all[k] == before[k] by {}
        let last = colors.len() - 1;
        assert forall|i: int|
            0 <= i < colors.len() && #[trigger] colors[i][3] != 0 implies exists|k: int|
                0 <= k < all.len() && all[k] == (MyVoxel {
                    x: voxel_coords(i, w, h).0 as usize,
                    y: voxel_coords(i, w, h).1 as usize,
                    z: voxel_coords(i, w, h).2 as usize,
                    color: colors[i],
                }) by {
            if i < last {
                assert(prefix[i] == colors[i]);
                assert(prefix[i][3] != 0);
                let k = choose|k: int|
                    0 <= k < before.len() && before[k] == (MyVoxel {
                        x: voxel_coords(i, w, h).0 as usize,
                        y: voxel_coords(i, w, h).1 as usize,
                        z: voxel_coords(i, w, h).2 as usize,
                        color: prefix[i],
                    });
                assert(all[k] == before[k]);
            } else {
                assert(all[before.len() as int] == (MyVoxel {
                    x: voxel_coords(i, w, h).0 as usize,
                    y: voxel_coords(i, w, h).1 as usize,
                    z: voxel_coords(i, w, h).2 as usize,
                    color: colors[i],
                }));
            }
        }
    }
}

/// A palette index that the lookup finds holds the colour looked up, and no later
/// entry holds it (for palettes of at most 256 entries, whose indices fit in `u8`).
pub proof fn law_palette_lookup_finds_last(palette: Seq<[u8; 4]>, color: [u8; 4])
    requires
        palette.len() <= 256,
    ensures
        palette_lookup(palette, color) matches Some(i) ==> {
            &&& (i as int) < palette.len()
            &&& palette[i as int] == color
            &&& forall|j: int| i < j < palette.len() ==> palette[j] != color
        },
        palette_lookup(palette, color) is None ==> forall|j: int|
            0 <= j < palette.len() ==> palette[j] != color,
    decreases palette.len(),
{
    if palette.len() > 0 {
        let prefix = palette.drop_last();
        law_palette_lookup_finds_last(prefix, color);
        assert forall|j: int| 0 <= j < prefix.len() implies palette[j] == prefix[j] by {}
        assert(palette[palette.len() - 1] == palette.last());
    }
}

/// Turns a flat colour buffer `width` wide and `height` high back into a list of
/// voxels, leaving out the fully transparent ones (alpha 0).
pub fn flattened_voxels_colors_to_voxels(
    flattened_voxels: &Vec<[u8; 4]>,
    width: usize,
    height: usize,
) -> (res: Vec<MyVoxel>)
    requires
        has_opaque(flattened_voxels@) ==> 0 < width * height <= usize::MAX,
    ensures
        res@ == opaque_voxels(flattened_voxels@, width as int, height as int),
        res@.len() == flattened_voxels@.filter(|c: [u8; 4]| c[3] != 0).len(),
        forall|i: int|
            0 <= i < flattened_voxels@.len() && #[trigger] flattened_voxels@[i][3] != 0 ==> exists|k: int|
                0 <= k < res@.len() && res@[k] == (MyVoxel {
                    x: voxel_coords(i, width as int, height as int).0 as usize,
                    y: voxel_coords(i, width as int, height as int).1 as usize,
                    z: voxel_coords(i, width as int, height as int).2 as usize,
                    color: flattened_voxels@[i],
                }),
{
    proof {
        law_opaque_voxels_complete(flattened_voxels@, width as int, height as int);
    }
    let mut result = Vec::<MyVoxel>::new();
    let n = flattened_voxels.len();
    for i in 0..n
        invariant
            n == flattened_voxels@.len(),
            has_opaque(flattened_voxels@) ==> 0 < width * height <= usize::MAX,
            result@ == opaque_voxels(flattened_voxels@.take(i as int), width as int, height as int),
    {
        let voxel_color = flattened_voxels[i];
        assert(flattened_voxels@.take(i + 1).drop_last() =~= flattened_voxels@.take(i as int));
        assert(flattened_voxels@.take(i + 1)[i as int] == voxel_color);
        // skip transparent voxels
        if voxel_color[3] != 0 {
            assert(flattened_voxels@[i as int][3] != 0);
            let (x, y, z) = one_to_three(i, width, height);
            result.push(MyVoxel { x, y, z, color: voxel_color });
        }
    }
    assert(flattened_voxels@.take(n as int) =~= flattened_voxels@);
    result
}


/// A colour as one integer key, `0xRRGGBBAA`.
pub open spec fn color_key(c: [u8; 4]) -> u32 {
    (c[0] as int * 0x1000000 + c[1] as int * 0x10000 + c[2] as int * 0x100 + c[3] as int) as u32
}

/// Distinct colours have distinct keys.
proof fn lemma_color_key_injective(a: [u8; 4], b: [u8; 4])
    requires
        color_key(a) == color_key(b),
    ensures
        a == b,
{
    assert(a =~= b);
}

/// The palette index of `color`: the last position at which `palette` holds it
/// (truncated to `u8`), or `None` when the palette does not hold it.
pub open spec fn palette_lookup(palette: Seq<[u8; 4]>, color: [u8; 4]) -> Option<u8>
    decreases palette.len(),
{
    if palette.len() == 0 {
        None
    } else if palette.last() == color {
        Some((palette.len() - 1) as u8)
    } else {
        palette_lookup(palette.drop_last(), color)
    }
}

/// The palette voxels of `voxels`: each voxel whose colour the palette holds,
/// with its coordinates truncated to `u8` and its palette index; the others are
/// left out.
pub open spec fn palette_voxels(voxels: Seq<MyVoxel>, palette: Seq<[u8; 4]>) -> Seq<PaletteVoxel>
    decreases voxels.len(),
{
    if voxels.len() == 0 {
        seq![]
    } else {
        let v = voxels.last();
        let prev = palette_voxels(voxels.drop_last(), palette);
        match palette_lookup(palette, v.color) {
            Some(i) => prev.push(PaletteVoxel { x: v.x as u8, y: v.y as u8, z: v.z as u8, i }),
            None => prev,
        }
    }
}

/// The palette lookup finds a colour exactly when the palette holds it.
pub proof fn law_palette_lookup_finds_held_colors(palette: Seq<[u8; 4]>, color: [u8; 4])
    ensures
        palette_lookup(palette, color) is Some <==> palette.contains(color),
    decreases palette.len(),
{
    if palette.len() > 0 {
        let prefix = palette.drop_last();
        law_palette_lookup_finds_held_colors(prefix, color);
        assert forall|j: int| 0 <= j < prefix.len() implies palette[j] == prefix[j] by {}
        if palette.contains(color) && palette.last() != color {
            let j = choose|j: int| 0 <= j < palette.len() && palette[j] == color;
            assert(j != palette.len() - 1);
            assert(prefix[j] == color);
        }
    }
}

proof fn lemma_palette_voxels_push(voxels: Seq<MyVoxel>, v: MyVoxel, palette: Seq<[u8; 4]>)
    ensures
        palette_voxels(voxels.push(v), palette) == match palette_lookup(palette, v.color) {
            Some(i) => palette_voxels(voxels, palette).push(
                PaletteVoxel { x: v.x as u8, y: v.y as u8, z: v.z as u8, i },
            ),
            None => palette_voxels(voxels, palette),
        },
{
    assert(voxels.push(v).drop_last() =~= voxels);
}

/// Building a palette model keeps every voxel whose colour is opaque and held by
/// the palette, whatever other voxels share that colour: there are exactly as many
/// palette voxels as such buffer entries, and for each such entry a palette voxel
/// with its coordinates and the palette index of its colour.
pub proof fn law_palette_model_complete(colors: Seq<[u8; 4]>, w: int, h: int, palette: Seq<[u8; 4]>)
    ensures
        palette_voxels(opaque_voxels(colors, w, h), palette).len() == colors.filter(
            |c: [u8; 4]| c[3] != 0 && palette.contains(c),
        ).len(),
        forall|i: int|
            0 <= i < colors.len() && #[trigger] colors[i][3] != 0 && palette.contains(colors[i])
                ==> exists|k: int|
                0 <= k < palette_voxels(opaque_voxels(colors, w, h), palette).len()
                    && palette_voxels(opaque_voxels(colors, w, h), palette)[k] == (PaletteVoxel {
                    x: voxel_coords(i, w, h).0 as usize as u8,
                    y: voxel_coords(i, w, h).1 as usize as u8,
                    z: voxel_coords(i, w, h).2 as usize as u8,
                    i: palette_lookup(palette, colors[i])->0,
                }),
    decreases colors.len(),
{
    reveal(Seq::filter);
    if colors.len() > 0 {
        let prefix = colors.drop_last();
        law_palette_model_complete(prefix, w, h, palette);
        let last = colors.len() - 1;
        let c = colors[last];
        law_palette_lookup_finds_held_colors(palette, c);
        let ov = opaque_voxels(prefix, w, h);
        let before = palette_voxels(ov, palette);
        let all = palette_voxels(opaque_voxels(colors, w, h), palette);
        let lv = MyVoxel {
            x: voxel_coords(last, w, h).0 as usize,
            y: voxel_coords(last, w, h).1 as usize,
            z: voxel_coords(last, w, h).2 as usize,
            color: c,
        };
        if c[3] != 0 {
            assert(opaque_voxels(colors, w, h) == ov.push(lv));
            lemma_palette_voxels_push(ov, lv, palette);
        }
        assert forall|k: int| 0 <= k < before.len() implies all[k] == before[k] by {}
        assert forall|i: int|
            0 <= i < colors.len() && #[trigger] colors[i][3] != 0 && palette.contains(colors[i])
                implies exists|k: int|
                0 <= k < all.len() && all[k] == (PaletteVoxel {
                    x: voxel_coords(i, w, h).0 as usize as u8,
                    y: voxel_coords(i, w, h).1 as usize as u8,
                    z: voxel_coords(i, w, h).2 as usize as u8,
                    i: palette_lookup(palette, colors[i])->0,
                }) by {
            if i < last {
                assert(prefix[i] == colors[i]);
                assert(prefix[i][3] != 0);
                let k = choose|k: int|
                    0 <= k < before.len() && before[k] == (PaletteVoxel {
                        x: voxel_coords(i, w, h).0 as usize as u8,
                        y: voxel_coords(i, w, h).1 as usize as u8,
                        z: voxel_coords(i, w, h).2 as usize as u8,
                        i: palette_lookup(palette, prefix[i])->0,
                    });
                assert(all[k] == before[k]);
            } else {
                assert(all[before.len() as int] == (PaletteVoxel {
                    x: voxel_coords(i, w, h).0 as usize as u8,
                    y: voxel_coords(i, w, h).1 as usize as u8,
                    z: voxel_coords(i, w, h).2 as usize as u8,
                    i: palette_lookup(palette, colors[i])->0,
                }));
            }
        }
    }
}

/// The colour-key map that inserting the palette entries in order builds.
spec fn palette_key_map(palette: Seq<[u8; 4]>) -> Map<u32, u8>
    decreases palette.len(),
{
    if palette.len() == 0 {
        Map::empty()
    } else {
        palette_key_map(palette.drop_last()).insert(
            color_key(palette.last()),
            (palette.len() - 1) as u8,
        )
    }
}

proof fn lemma_palette_key_map(palette: Seq<[u8; 4]>, color: [u8; 4])
    ensures
        palette_key_map(palette).contains_key(color_key(color)) <==> palette_lookup(
            palette,
            color,
        ) is Some,
        palette_key_map(palette).contains_key(color_key(color)) ==> palette_lookup(
            palette,
            color,
        ) == Some(palette_key_map(palette)[color_key(color)]),
    decreases palette.len(),
{
    if palette.len() > 0 {
        lemma_palette_key_map(palette.drop_last(), color);
        if color_key(palette.last()) == color_key(color) {
            lemma_color_key_injective(palette.last(), color);
        }
    }
}

fn color_key_of(c: &[u8; 4]) -> (k: u32)
    ensures
        k == color_key(*c),
{
    (c[0] as u32) * 0x1000000 + (c[1] as u32) * 0x10000 + (c[2] as u32) * 0x100 + (c[3] as u32)
}

/// Builds a palette model of size `width` x `height` x `depth` (truncated to
/// `u32`) from a flat colour buffer: each voxel that is not transparent and whose
/// colour the palette holds becomes a palette voxel with the last palette index
/// of that colour; the others are dropped.
pub fn colors_to_vox_model(
    colors: &Vec<[u8; 4]>,
    width: usize,
    height: usize,
    depth: usize,
    palette: &Vec<[u8; 4]>,
) -> (res: VoxModel)
    requires
        has_opaque(colors@) ==> 0 < width * height <= usize::MAX,
    ensures
        res.size == (ModelSize { x: width as u32, y: height as u32, z: depth as u32 }),
        res.voxels@ == palette_voxels(
            opaque_voxels(colors@, width as int, height as int),
            palette@,
        ),
        res.voxels@.len() == colors@.filter(|c: [u8; 4]| c[3] != 0 && palette@.contains(c)).len(),
        forall|i: int|
            0 <= i < colors@.len() && #[trigger] colors@[i][3] != 0 && palette@.contains(colors@[i])
                ==> exists|k: int|
                0 <= k < res.voxels@.len() && res.voxels@[k] == (PaletteVoxel {
                    x: voxel_coords(i, width as int, height as int).0 as usize as u8,
                    y: voxel_coords(i, width as int, height as int).1 as usize as u8,
                    z: voxel_coords(i, width as int, height as int).2 as usize as u8,
                    i: palette_lookup(palette@, colors@[i])->0,
                }),
{
    let unflattened = flattened_voxels_colors_to_voxels(colors, width, height);

    // Build a reverse palette lookup
    let mut color_to_palette_index: HashMap<u32, u8> = HashMap::new();
    let n_colors = palette.len();
    for i in 0..n_colors
        invariant
            n_colors == palette@.len(),
            color_to_palette_index@ == palette_key_map(palette@.take(i as int)),
    {
        assert(palette@.take(i + 1).drop_last() =~= palette@.take(i as int));
        let key = color_key_of(&palette[i]);
        color_to_palette_index.insert(key, i as u8);
    }
    assert(palette@.take(n_colors as int) =~= palette@);

    let mut voxels: Vec<PaletteVoxel> = Vec::new();
    let n_voxels = unflattened.len();
    for j in 0..n_voxels
        invariant
            n_voxels == unflattened@.len(),
            color_to_palette_index@ == palette_key_map(palette@),
            voxels@ == palette_voxels(unflattened@.take(j as int), palette@),
    {
        let v = unflattened[j];
        assert(unflattened@.take(j + 1).drop_last() =~= unflattened@.take(j as int));
        assert(unflattened@.take(j + 1).last() == v);
        proof {
            lemma_palette_key_map(palette@, v.color);
        }
        let key = color_key_of(&v.color);
        match color_to_palette_index.get(&key) {
            Some(i) => {
                voxels.push(PaletteVoxel { x: v.x as u8, y: v.y as u8, z: v.z as u8, i: *i });
            },
            None => {},
        }
    }
    assert(unflattened@.take(n_voxels as int) =~= unflattened@);
    proof {
        law_palette_model_complete(colors@, width as int, height as int, palette@);
        let (w, h) = (width as int, height as int);
        assert forall|i: int|
            0 <= i < colors@.len() && #[trigger] colors@[i][3] != 0 && palette@.contains(colors@[i])
                implies exists|k: int|
                0 <= k < voxels@.len() && voxels@[k] == (PaletteVoxel {
                    x: voxel_coords(i, w, h).0 as usize as u8,
                    y: voxel_coords(i, w, h).1 as usize as u8,
                    z: voxel_coords(i, w, h).2 as usize as u8,
                    i: palette_lookup(palette@, colors@[i])->0,
                }) by {
            assert(voxels@ == palette_voxels(opaque_voxels(colors@, w, h), palette@));
        }
    }
    let res = VoxModel {
        size: ModelSize { x: width as u32, y: height as u32, z: depth as u32 },
        voxels,
    };
    assert(res.voxels@ == voxels@);
    assert(forall|i: int|
        0 <= i < colors@.len() && #[trigger] colors@[i][3] != 0 && palette@.contains(colors@[i])
            ==> exists|k: int|
            0 <= k < res.voxels@.len() && res.voxels@[k] == (PaletteVoxel {
                x: voxel_coords(i, width as int, height as int).0 as usize as u8,
                y: voxel_coords(i, width as int, height as int).1 as usize as u8,
                z: voxel_coords(i, width as int, height as int).2 as usize as u8,
                i: palette_lookup(palette@, colors@[i])->0,
            }));
    res
}

} // verus!
