use rotvoxel::{downscale, scale2x, three_to_one};

#[test]
fn scale2x_single_voxel_fills_block() {
    let (w, h, d, out) = scale2x(&[5u32], 1, 1, 1, &0);
    assert_eq!((w, h, d), (2, 2, 2));
    assert_eq!(out, vec![5u32; 8]);
}

#[test]
fn scale2x_row_is_nearest_neighbour() {
    let (w, h, d, out) = scale2x(&[1u32, 2], 2, 1, 1, &0);
    assert_eq!((w, h, d), (4, 2, 2));
    assert_eq!(out, vec![1, 1, 2, 2, 1, 1, 2, 2, 1, 1, 2, 2, 1, 1, 2, 2]);
}

#[test]
fn scale2x_empty_sizes() {
    let (w, h, d, out) = scale2x::<u32>(&[], 0, 3, 2, &7);
    assert_eq!((w, h, d), (0, 6, 4));
    assert!(out.is_empty());
}

#[test]
fn scale2x_smooths_diagonal_edge() {
    // one layer, 3 x 3:
    // 2 2 0
    // 2 1 0
    // 0 0 0
    let buf = [2u32, 2, 0, 2, 1, 0, 0, 0, 0];
    let (w, h, d, out) = scale2x(&buf, 3, 3, 1, &0);
    assert_eq!((w, h, d), (6, 6, 2));
    assert_eq!(out.len(), 72);
    // the centre voxel's corner toward the two equal neighbours takes their value
    assert_eq!(out[three_to_one(2, 2, 0, w, h)], 2);
    assert_eq!(out[three_to_one(2, 2, 1, w, h)], 2);
    // the corners toward one equal neighbour pair only keep the centre
    assert_eq!(out[three_to_one(3, 2, 0, w, h)], 1);
    assert_eq!(out[three_to_one(2, 3, 0, w, h)], 1);
    // the corner toward the empty right and down neighbours takes their value
    assert_eq!(out[three_to_one(3, 3, 0, w, h)], 0);
    assert_eq!(out[three_to_one(3, 3, 1, w, h)], 0);
    // the outer corner of the top-left voxel is rounded off to empty
    assert_eq!(out[three_to_one(0, 0, 0, w, h)], 0);
    assert_eq!(out[three_to_one(1, 1, 0, w, h)], 2);
}

#[test]
fn scale2x_introduces_no_new_values() {
    let buf = [3u32, 4, 4, 3, 9, 4, 3, 3, 9, 9, 4, 3];
    let (_, _, _, out) = scale2x(&buf, 3, 2, 2, &0);
    assert_eq!(out.len(), 96);
    for v in out {
        assert!(v == 0 || buf.contains(&v));
    }
}

#[test]
fn scale2x_keeps_uniform_interior() {
    // a 3 x 3 x 3 cube of 6: the centre voxel has six equal neighbours
    let buf = [6u32; 27];
    let (w, h, _, out) = scale2x(&buf, 3, 3, 3, &0);
    for z in 2..4 {
        for y in 2..4 {
            for x in 2..4 {
                assert_eq!(out[three_to_one(x, y, z, w, h)], 6);
            }
        }
    }
}

#[test]
fn scale2x_ignores_extra_voxels() {
    let (_, _, _, a) = scale2x(&[1u32, 2], 2, 1, 1, &0);
    let (_, _, _, b) = scale2x(&[1u32, 2, 9, 9], 2, 1, 1, &0);
    assert_eq!(a, b);
}

#[test]
fn downscale_by_two_samples_every_other_voxel() {
    // 4 x 2 x 2
    let buf: Vec<u32> = (0..16).collect();
    let (w, h, d, out) = downscale(&buf, 4, 2, 2, 2);
    assert_eq!((w, h, d), (2, 1, 1));
    assert_eq!(out, vec![0, 2]);
}

#[test]
fn downscale_by_one_is_identity() {
    let buf: Vec<u32> = (0..24).collect();
    let (w, h, d, out) = downscale(&buf, 4, 3, 2, 1);
    assert_eq!((w, h, d), (4, 3, 2));
    assert_eq!(out, buf);
}

#[test]
fn downscale_keeps_at_least_one_voxel() {
    let buf = [7u32, 8, 9];
    let (w, h, d, out) = downscale(&buf, 3, 1, 1, 8);
    assert_eq!((w, h, d), (1, 1, 1));
    assert_eq!(out, vec![7]);
}

#[test]
fn downscale_exact_formula() {
    // 6 x 4 x 3 by factor 2: output 3 x 2 x 1, sampling (2x, 2y, 0)
    let buf: Vec<u32> = (0..72).collect();
    let (w, h, d, out) = downscale(&buf, 6, 4, 3, 2);
    assert_eq!((w, h, d), (3, 2, 1));
    assert_eq!(out, vec![0, 2, 4, 12, 14, 16]);
}

#[test]
fn downscale_of_scale2x_restores_size_and_samples_first_corner() {
    let buf = [2u32, 2, 0, 2, 1, 0, 0, 0, 0];
    let (sw, sh, sd, up) = scale2x(&buf, 3, 3, 1, &0);
    let (w, h, d, back) = downscale(&up, sw, sh, sd, 2);
    assert_eq!((w, h, d), (3, 3, 1));
    for y in 0..3 {
        for x in 0..3 {
            assert_eq!(back[three_to_one(x, y, 0, w, h)], up[three_to_one(2 * x, 2 * y, 0, sw, sh)]);
        }
    }
    // the rounded corner of the top-left voxel is what comes back there
    assert_eq!(back[0], 0);
    assert_eq!(back[three_to_one(1, 1, 0, w, h)], 2);
}
