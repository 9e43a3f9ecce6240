use rotvoxel::{
    colors_to_vox_model, flatten_vox_model, flattened_voxels_colors_to_voxels, ModelSize, PaletteVoxel,
    VoxData, VoxModel,
};

fn sample_data() -> VoxData {
    VoxData {
        models: vec![
            VoxModel {
                size: ModelSize { x: 2, y: 2, z: 1 },
                voxels: vec![
                    PaletteVoxel { x: 0, y: 0, z: 0, i: 1 },
                    PaletteVoxel { x: 1, y: 1, z: 0, i: 2 },
                    PaletteVoxel { x: 1, y: 1, z: 0, i: 0 },
                ],
            },
            VoxModel { size: ModelSize { x: 1, y: 1, z: 2 }, voxels: vec![PaletteVoxel { x: 0, y: 0, z: 1, i: 2 }] },
        ],
        palette: vec![[10, 20, 30, 255], [1, 2, 3, 4], [9, 9, 9, 9]],
    }
}

#[test]
fn flatten_paints_palette_colors() {
    let flat = flatten_vox_model(&sample_data());
    assert_eq!(flat.len(), 2);
    // later voxels at the same position win
    assert_eq!(flat[0], vec![[1, 2, 3, 4], [0, 0, 0, 0], [0, 0, 0, 0], [10, 20, 30, 255]]);
    assert_eq!(flat[1], vec![[0, 0, 0, 0], [9, 9, 9, 9]]);
}

#[test]
fn flatten_empty_model_is_transparent() {
    let data = VoxData {
        models: vec![VoxModel { size: ModelSize { x: 2, y: 1, z: 2 }, voxels: vec![] }],
        palette: vec![],
    };
    assert_eq!(flatten_vox_model(&data), vec![vec![[0u8; 4]; 4]]);
}

#[test]
fn unflatten_skips_transparent() {
    let colors = vec![[1, 1, 1, 1], [5, 5, 5, 0], [0, 0, 0, 0], [2, 2, 2, 2], [0, 0, 0, 0], [3, 3, 3, 3]];
    let voxels = flattened_voxels_colors_to_voxels(&colors, 2, 1);
    assert_eq!(voxels.len(), 3);
    assert_eq!((voxels[0].x, voxels[0].y, voxels[0].z, voxels[0].color), (0, 0, 0, [1, 1, 1, 1]));
    assert_eq!((voxels[1].x, voxels[1].y, voxels[1].z, voxels[1].color), (1, 0, 1, [2, 2, 2, 2]));
    assert_eq!((voxels[2].x, voxels[2].y, voxels[2].z, voxels[2].color), (1, 0, 2, [3, 3, 3, 3]));
}

#[test]
fn unflatten_all_transparent_with_zero_size() {
    let colors = vec![[0u8, 0, 0, 0]; 3];
    assert!(flattened_voxels_colors_to_voxels(&colors, 0, 0).is_empty());
}

#[test]
fn flatten_then_back_to_model() {
    let data = sample_data();
    let flat = flatten_vox_model(&data);
    let model = colors_to_vox_model(&flat[0], 2, 2, 1, &data.palette);
    assert_eq!(model.size, ModelSize { x: 2, y: 2, z: 1 });
    assert_eq!(
        model.voxels,
        vec![PaletteVoxel { x: 0, y: 0, z: 0, i: 1 }, PaletteVoxel { x: 1, y: 1, z: 0, i: 0 }]
    );
}

#[test]
fn model_uses_last_palette_index_and_drops_unknown_colors() {
    let palette = vec![[7, 7, 7, 7], [8, 8, 8, 8], [7, 7, 7, 7]];
    let colors = vec![[7, 7, 7, 7], [6, 6, 6, 6], [8, 8, 8, 8], [0, 0, 0, 0]];
    let model = colors_to_vox_model(&colors, 4, 1, 1, &palette);
    assert_eq!(
        model.voxels,
        vec![PaletteVoxel { x: 0, y: 0, z: 0, i: 2 }, PaletteVoxel { x: 2, y: 0, z: 0, i: 1 }]
    );
}

#[test]
fn model_truncates_sizes_and_coordinates() {
    let mut colors = vec![[0u8; 4]; 300];
    colors[299] = [4, 4, 4, 4];
    let palette = vec![[4, 4, 4, 4]];
    let model = colors_to_vox_model(&colors, 300, 1, 1, &palette);
    assert_eq!(model.size, ModelSize { x: 300, y: 1, z: 1 });
    assert_eq!(model.voxels, vec![PaletteVoxel { x: 299u32 as u8, y: 0, z: 0, i: 0 }]);
}
