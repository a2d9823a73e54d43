use ami::{Frustum, Mat4, Plane, Vec3, Vec4};

fn v(x: i64, y: i64, z: i64) -> Vec3 {
    Vec3::new(x, y, z)
}

const ID: [i64; 16] = [1, 0, 0, 0, 0, 1, 0, 0, 0, 0, 1, 0, 0, 0, 0, 1];

fn counting() -> Mat4 {
    Mat4([1, 2, 3, 4, 5, 6, 7, 8, 9, 10, 11, 12, 13, 14, 15, 16])
}

#[test]
fn identity_entries() {
    assert_eq!(Mat4::identity().0, ID);
}

#[test]
fn product_by_rows_and_columns() {
    let b = Mat4([2, 0, 1, 0, 0, 1, 0, 3, 1, 1, 1, 1, 0, 2, 0, 1]);
    assert_eq!(counting().mul(b).0, [5, 13, 4, 13, 17, 29, 12, 33, 29, 45, 20, 53, 41, 61, 28, 73]);
    assert_eq!(counting().matrix(b.0).0, counting().mul(b).0);
}

#[test]
fn identity_is_neutral() {
    assert_eq!(Mat4::identity().mul(counting()).0, counting().0);
    assert_eq!(counting().mul(Mat4::identity()).0, counting().0);
}

#[test]
fn product_is_not_commutative() {
    let s = Mat4::identity().scale(2, 3, 4);
    let t = Mat4::identity().translate(1, 1, 1);
    assert_ne!(s.mul(t).0, t.mul(s).0);
}

#[test]
fn product_is_associative() {
    let a = Mat4::identity().scale(2, 1, 3).translate(1, -2, 5);
    let b = Mat4::identity().rotate(0, 1, 1);
    let c = counting();
    assert_eq!(a.mul(b).mul(c).0, a.mul(b.mul(c)).0);
}

#[test]
fn scale_then_translate() {
    let m = Mat4::identity().scale(2, 2, 2).translate(1, 2, 3);
    assert_eq!(m.0, [2, 0, 0, 0, 0, 2, 0, 0, 0, 0, 2, 0, 1, 2, 3, 1]);
    assert_eq!(m.transform_point(v(1, 1, 1)), v(3, 4, 5));
}

#[test]
fn translate_then_scale() {
    let m = Mat4::identity().translate(1, 2, 3).scale(2, 2, 2);
    assert_eq!(m.transform_point(v(1, 1, 1)), v(4, 6, 8));
}

#[test]
fn rotate_quarter_turn_about_z() {
    let m = Mat4::identity().rotate(0, 0, 1);
    assert_eq!(m.0, [-1, 0, 0, 0, 0, -1, 0, 0, 0, 0, 1, 0, 0, 0, 0, 1]);
    assert_eq!(m.transform_point(v(1, 0, 0)), v(-1, 0, 0));
}

#[test]
fn rotate_about_x_and_y() {
    assert_eq!(Mat4::identity().rotate(1, 0, 0).0, [1, 0, 0, 0, 0, -1, 0, 0, 0, 0, -1, 0, 0, 0, 0, 1]);
    assert_eq!(Mat4::identity().rotate(0, 1, 0).0, [-1, 0, 0, 0, 0, 1, 0, 0, 0, 0, -1, 0, 0, 0, 0, 1]);
    assert_eq!(Mat4::identity().rotate(1, 1, 0).0, [-1, 0, 0, 0, 0, -1, 0, 0, 0, 0, 1, 0, 0, 0, 0, 1]);
}

#[test]
fn rotate_by_two_quarters_and_negative_angles() {
    assert_eq!(Mat4::identity().rotate(0, 0, 2).0, ID);
    assert_eq!(Mat4::identity().rotate(0, 0, -1).0, Mat4::identity().rotate(0, 0, 3).0);
}

#[test]
fn vec4_direction_ignores_translation() {
    let m = Mat4::identity().translate(5, 6, 7);
    assert_eq!(m.transform_vec4(Vec4::new(1, 2, 3, 0)), Vec4::new(1, 2, 3, 0));
    assert_eq!(m.transform_vec4(Vec4::new(1, 2, 3, 1)), Vec4::new(6, 8, 10, 1));
    assert_eq!(m.transform_vec4(Vec4::new(1, 2, 3, 2)), Vec4::new(11, 14, 17, 2));
}

#[test]
fn transform_dir_skips_translation() {
    let m = Mat4::identity().scale(2, 3, 4).translate(9, 9, 9);
    assert_eq!(m.transform_dir(v(1, 1, 1)), v(2, 3, 4));
    assert_eq!(m.transform_point(v(1, 1, 1)), v(11, 12, 13));
}

#[test]
fn point_round_trip() {
    let m = Mat4::identity().rotate(0, 0, 1).translate(4, 5, 6);
    let inv = Mat4::identity().translate(-4, -5, -6).rotate(0, 0, -1);
    assert_eq!(m.mul(inv).0, ID);
    let p = v(7, -3, 2);
    assert_eq!(inv.transform_point(m.transform_point(p)), p);
    let w = Vec4::new(7, -3, 2, 5);
    assert_eq!(inv.transform_vec4(m.transform_vec4(w)), w);
}

#[test]
fn plane_under_rotation_keeps_offset() {
    let m = Mat4::identity().rotate(1, 0, 0);
    let p = Plane { facing: v(0, 1, 0), offset: 4 };
    let r = m.transform_plane(p);
    assert_eq!(r.offset, 4);
    assert_eq!(r.facing, m.transform_dir(v(0, 1, 0)));
    assert_eq!(r.facing, v(0, -1, 0));
}

#[test]
fn plane_translated_along_normal() {
    let p = Plane { facing: v(0, 0, 1), offset: 2 };
    let r = Mat4::identity().translate(0, 0, 5).transform_plane(p);
    assert_eq!(r.facing, v(0, 0, 1));
    assert_eq!(r.offset, 7);
}

#[test]
fn plane_translated_against_normal() {
    let p = Plane { facing: v(1, 0, 0), offset: 2 };
    let r = Mat4::identity().translate(-3, 0, 0).transform_plane(p);
    assert_eq!(r.offset, -1);
}

#[test]
fn plane_translated_across_normal() {
    let p = Plane { facing: v(0, 1, 0), offset: 2 };
    let r = Mat4::identity().translate(6, 0, -4).transform_plane(p);
    assert_eq!(r.offset, 2);
}

#[test]
fn plane_translated_at_an_angle() {
    let p = Plane { facing: v(0, 0, 1), offset: 1 };
    let r = Mat4::identity().translate(3, 4, 2).transform_plane(p);
    assert_eq!(r.offset, 3);
}

#[test]
fn plane_points_follow_the_plane() {
    let p = Plane { facing: v(0, 1, 0), offset: 3 };
    let m = Mat4::identity().rotate(0, 0, 1).translate(2, 5, -1);
    let q = v(8, 3, -2);
    let r = m.transform_plane(p);
    let moved = m.transform_point(q);
    let f = r.facing;
    assert_eq!(f.x * moved.x + f.y * moved.y + f.z * moved.z, r.offset);
}

#[test]
fn frustum_moves_only_its_center() {
    let f = Frustum { center: v(1, 2, 3), radius: 10, wfov: 90, hfov: 60, xrot: 5, yrot: 7 };
    let r = Mat4::identity().translate(1, 1, 1).transform_frustum(f);
    assert_eq!(r, Frustum { center: v(2, 3, 4), ..f });
}

#[test]
fn rotations_are_signed_axis_flips() {
    for x in -2..3 {
        for y in -2..3 {
            for z in -2..3 {
                let m = Mat4::identity().rotate(x, y, z).0;
                for i in 0..16 {
                    if i % 5 != 0 {
                        assert_eq!(m[i], 0);
                    }
                }
                assert_eq!(m[15], 1);
                assert_eq!(m[0] * m[5] * m[10], 1);
            }
        }
    }
}
