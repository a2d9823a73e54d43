use ami::{BBox, BCube, Vec3};

fn v(x: i64, y: i64, z: i64) -> Vec3 {
    Vec3::new(x, y, z)
}

fn corners(b: &BBox) -> Vec<Vec3> {
    let mut out = Vec::new();
    for &x in &[b.min.x, b.max.x] {
        for &y in &[b.min.y, b.max.y] {
            for &z in &[b.min.z, b.max.z] {
                out.push(v(x, y, z));
            }
        }
    }
    out
}

#[test]
fn empty_cube_is_sentinel() {
    let c = BCube::empty();
    assert_eq!(c.center, v(0, 0, 0));
    assert_eq!(c.half_len, -1);
    assert!(!c.contains(v(0, 0, 0)));
}

#[test]
fn new_cube_has_unit_half_length() {
    let c = BCube::new(v(3, -4, 5));
    assert_eq!(c.center, v(3, -4, 5));
    assert_eq!(c.half_len, 1);
}

#[test]
fn contains_is_half_open() {
    let c = BCube::new(v(0, 0, 0));
    assert!(c.contains(v(0, 0, 0)));
    assert!(c.contains(v(-1, -1, -1)));
    assert!(!c.contains(v(1, 0, 0)));
    assert!(!c.contains(v(0, 1, 0)));
    assert!(!c.contains(v(0, 0, 1)));
    assert!(!c.contains(v(-2, 0, 0)));
}

#[test]
fn extend_toward_max_corner() {
    let mut c = BCube::new(v(0, 0, 0));
    c.extend(BBox::new(v(1, 1, 1), v(2, 2, 2)));
    assert_eq!(c.center, v(1, 1, 1));
    assert_eq!(c.half_len, 2);
    assert!(c.contains(v(2, 2, 2)));
    assert!(c.contains(v(-1, -1, -1)));
    assert!(!c.contains(v(3, 0, 0)));
}

#[test]
fn extend_toward_min_corner() {
    let mut c = BCube::new(v(0, 0, 0));
    c.extend(BBox::new(v(-2, -2, -2), v(-1, -1, -1)));
    assert_eq!(c.center, v(-1, -1, -1));
    assert_eq!(c.half_len, 2);
    assert!(c.contains(v(-3, -3, -3)));
    assert!(!c.contains(v(1, 0, 0)));
}

#[test]
fn extend_decides_each_axis_alone() {
    let mut c = BCube::new(v(0, 0, 0));
    c.extend(BBox::new(v(1, -2, 0), v(2, -1, 0)));
    assert_eq!(c.center, v(1, -1, -1));
    assert_eq!(c.half_len, 2);
}

#[test]
fn extend_tie_goes_to_minimum_side() {
    let mut c = BCube::new(v(10, 10, 10));
    c.extend(BBox::new(v(9, 9, 9), v(11, 11, 11)));
    assert_eq!(c.center, v(9, 9, 9));
    assert_eq!(c.half_len, 2);
}

#[test]
fn bcube_sides_compares_midpoints() {
    let c = BCube::new(v(0, 0, 0));
    let b = BBox::new(v(-5, -1, 0), v(6, 1, 0));
    assert_eq!(b.bcube_sides(c), (true, false, false));
}

#[test]
fn sequence_of_extends_keeps_every_box() {
    let mut c = BCube::new(v(0, 0, 0));
    let boxes = [
        BBox::new(v(0, 0, 0), v(1, 1, 1)),
        BBox::new(v(-3, 1, 0), v(-2, 2, 1)),
        BBox::new(v(2, -4, -3), v(4, -2, 0)),
        BBox::new(v(5, 5, 5), v(8, 8, 8)),
    ];
    let mut seen: Vec<BBox> = Vec::new();
    for b in boxes.iter() {
        c.extend(*b);
        seen.push(*b);
        for s in seen.iter() {
            for p in corners(s) {
                assert!(c.contains(p), "{:?} lost {:?}", c, p);
            }
        }
    }
    assert_eq!(c.half_len, 16);
}

#[test]
fn extending_by_a_contained_box_still_doubles() {
    let mut c = BCube::new(v(0, 0, 0));
    c.extend(BBox::new(v(-1, -1, -1), v(0, 0, 0)));
    assert_eq!(c.half_len, 2);
    assert_eq!(c.center, v(-1, -1, -1));
    assert!(c.contains(v(-1, -1, -1)));
    assert!(c.contains(v(0, 0, 0)));
}

#[test]
fn point_pair_and_bbox() {
    let c = BCube { center: v(1, 2, 3), half_len: 4 };
    assert_eq!(c.to_point_pair(), (v(5, 6, 7), v(-3, -2, -1)));
    let b = c.to_bbox();
    assert_eq!(b.min, v(-3, -2, -1));
    assert_eq!(b.max, v(5, 6, 7));
}

#[test]
fn all_points_are_center_and_face_midpoints() {
    let c = BCube { center: v(1, 2, 3), half_len: 2 };
    assert_eq!(
        c.all_points(),
        [v(1, 2, 3), v(3, 2, 3), v(1, 4, 3), v(1, 2, 5), v(-1, 2, 3), v(1, 0, 3), v(1, 2, 1)]
    );
}

#[test]
fn pn_pair_along_x() {
    let c = BCube { center: v(0, 0, 0), half_len: 1 };
    let (n, p) = c.pn_pair_from_normal(v(1, 0, 0));
    assert_eq!(p.x, 1);
    assert_eq!(n.x, -1);
    assert_eq!(p, v(1, 1, 1));
    assert_eq!(n, v(-1, -1, -1));
}

#[test]
fn pn_pair_follows_each_sign() {
    let c = BCube { center: v(10, 20, 30), half_len: 5 };
    let (n, p) = c.pn_pair_from_normal(v(-2, 3, -1));
    assert_eq!(p, v(5, 25, 25));
    assert_eq!(n, v(15, 15, 35));
}

#[test]
fn extend_encloses_box_wider_than_cube() {
    let mut c = BCube { center: v(0, 0, 0), half_len: 2 };
    let b = BBox::new(v(-2, -5, 0), v(5, 1, 1));
    c.extend(b);
    assert_eq!(c.center, v(2, -2, 2));
    assert_eq!(c.half_len, 4);
    for p in corners(&b) {
        assert!(c.contains(p), "{:?} misses {:?}", c, p);
    }
}

#[test]
fn centered_tie_leaves_max_face_outside() {
    let mut c = BCube::new(v(0, 0, 0));
    c.extend(BBox::new(v(-1, 0, 0), v(1, 0, 0)));
    assert_eq!(c.center, v(-1, -1, -1));
    assert!(c.contains(v(-1, 0, 0)));
    assert!(!c.contains(v(1, 0, 0)));
}
