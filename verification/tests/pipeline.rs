use rotvoxel::{downscale, rotvoxel_upscale, scale2x, Axis, Error};

#[test]
fn upscale_rejects_size_mismatch() {
    let buf = [1u32, 2, 3];
    assert_eq!(rotvoxel_upscale(&buf, &0, 2, 1, 1, None), Err(Error::ImageSizeMismatch));
}

#[test]
fn upscale_with_no_passes_copies() {
    let buf = [1u32, 2, 3, 4];
    let (w, h, d, out, factor) = rotvoxel_upscale(&buf, &0, 2, 2, 1, Some(0)).unwrap();
    assert_eq!((w, h, d, factor), (2, 2, 1, 1));
    assert_eq!(out, buf.to_vec());
}

#[test]
fn upscale_default_is_three_passes() {
    let buf = [1u32, 2];
    let (w, h, d, out, factor) = rotvoxel_upscale(&buf, &0, 2, 1, 1, None).unwrap();
    assert_eq!(factor, 8);
    assert_eq!((w, h, d), (16, 8, 8));
    assert_eq!(out.len(), 16 * 8 * 8);
    let (w2, h2, d2, once) = scale2x(&buf, 2, 1, 1, &0);
    let (w3, h3, d3, twice) = scale2x(&once, w2, h2, d2, &0);
    let (_, _, _, thrice) = scale2x(&twice, w3, h3, d3, &0);
    assert_eq!(out, thrice);
}

#[test]
fn upscale_one_pass_is_scale2x() {
    let buf = [2u32, 2, 0, 2, 1, 0, 0, 0, 0];
    let (w, h, d, out, factor) = rotvoxel_upscale(&buf, &0, 3, 3, 1, Some(1)).unwrap();
    assert_eq!(factor, 2);
    let expected = scale2x(&buf, 3, 3, 1, &0);
    assert_eq!((w, h, d, out), expected);
}

#[test]
fn upscale_then_downscale_restores_size() {
    let buf = [1u32, 2, 3, 4, 5, 6];
    let (w, h, d, out, factor) = rotvoxel_upscale(&buf, &0, 3, 2, 1, Some(2)).unwrap();
    let (w2, h2, d2, back) = downscale(&out, w, h, d, factor);
    assert_eq!((w2, h2, d2), (3, 2, 1));
    assert_eq!(back.len(), 6);
}

#[test]
fn error_compares_equal() {
    assert_eq!(Error::ImageSizeMismatch, Error::ImageSizeMismatch);
    let axes = [Axis::X, Axis::Y, Axis::Z];
    assert_eq!(axes.len(), 3);
}
