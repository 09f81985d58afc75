use wump::bitmatrix::Vec2d;

#[test]
fn new_matrix_is_blank() {
    let m = Vec2d::new(3, 5);
    assert_eq!(m.height(), 3);
    assert_eq!(m.width(), 5);
    for i in 0..3 {
        for j in 0..5 {
            assert!(!m.get(i, j));
        }
    }
    let empty = Vec2d::new(0, 4);
    assert_eq!(empty.height(), 0);
    assert_eq!(empty.width(), 4);
}

#[test]
fn set_changes_one_bit() {
    let mut m = Vec2d::new(4, 3);
    m.set(2, 1, true);
    m.set(3, 2, true);
    for i in 0..4 {
        for j in 0..3 {
            assert_eq!(m.get(i, j), (i, j) == (2, 1) || (i, j) == (3, 2));
        }
    }
    m.set(2, 1, false);
    assert!(!m.get(2, 1));
    assert!(m.get(3, 2));
}
