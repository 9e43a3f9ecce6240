use rotvoxel::{one_to_three, three_to_one};

#[test]
fn three_to_one_formula() {
    assert_eq!(three_to_one(0, 0, 0, 4, 3), 0);
    assert_eq!(three_to_one(3, 0, 0, 4, 3), 3);
    assert_eq!(three_to_one(1, 2, 0, 4, 3), 9);
    assert_eq!(three_to_one(1, 2, 5, 4, 3), 1 + 2 * 4 + 5 * 12);
}

#[test]
fn one_to_three_formula() {
    assert_eq!(one_to_three(0, 4, 3), (0, 0, 0));
    assert_eq!(one_to_three(9, 4, 3), (1, 2, 0));
    assert_eq!(one_to_three(69, 4, 3), (1, 2, 5));
    assert_eq!(one_to_three(11, 4, 3), (3, 2, 0));
    assert_eq!(one_to_three(12, 4, 3), (0, 0, 1));
}

#[test]
fn index_round_trips() {
    let (w, h) = (5, 3);
    for z in 0..4 {
        for y in 0..h {
            for x in 0..w {
                let i = three_to_one(x, y, z, w, h);
                assert_eq!(one_to_three(i, w, h), (x, y, z));
            }
        }
    }
    for i in 0..60 {
        let (x, y, z) = one_to_three(i, w, h);
        assert!(x < w && y < h);
        assert_eq!(three_to_one(x, y, z, w, h), i);
    }
}
