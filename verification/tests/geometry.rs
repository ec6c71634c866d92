//! Box arithmetic, the slab test, and exact sphere intersections.

use raytracer::aabb::{surrounding_box, Aabb};
use raytracer::fixed::FP_ONE;
use raytracer::sphere::Sphere;
use raytracer::vec3::{Dimm, Point, Ray, Vec3};

fn fp(units: i64) -> i64 {
    units * FP_ONE
}

fn boxed(min: (i64, i64, i64), max: (i64, i64, i64)) -> Aabb {
    Aabb {
        min: Point(Vec3::new(min.0, min.1, min.2)),
        max: Point(Vec3::new(max.0, max.1, max.2)),
    }
}

#[test]
fn combine_two_identical_boxes() {
    let b1 = boxed((0, 0, 0), (fp(1), fp(1), fp(1)));
    let r = surrounding_box(&b1, &b1);
    assert_eq!(r, b1);
}

#[test]
fn combine_two_overlapping_boxes() {
    let b1 = boxed((-fp(1) / 2, -fp(1) / 2, -fp(1) / 2), (fp(1), fp(1), fp(1)));
    let b2 = boxed((0, 0, 0), (fp(2), fp(2), fp(2)));
    let r = surrounding_box(&b1, &b2);
    let expected = boxed((-fp(1) / 2, -fp(1) / 2, -fp(1) / 2), (fp(2), fp(2), fp(2)));
    assert_eq!(r, expected);
}

#[test]
fn combine_fully_contained_box() {
    let b1 = boxed((fp(1) / 2, fp(1) / 2, fp(1) / 2), (fp(1), fp(1), fp(1)));
    let b2 = boxed((0, 0, 0), (fp(2), fp(2), fp(2)));
    let r = surrounding_box(&b1, &b2);
    assert_eq!(r, b2);
}

#[test]
fn union_is_commutative() {
    let b1 = boxed((-fp(3), 0, fp(1)), (fp(1), fp(2), fp(5)));
    let b2 = boxed((0, -fp(4), fp(2)), (fp(2), fp(2), fp(9)));
    assert_eq!(surrounding_box(&b1, &b2), surrounding_box(&b2, &b1));
}

#[test]
fn check_hit() {
    let b1 = boxed((fp(1), -fp(1), -fp(1)), (fp(2), fp(1), fp(1)));
    let r = Ray::new(Point(Vec3::new(0, 0, 0)), Vec3::new(fp(1), 0, 0));
    assert!(b1.hit2(&r, 0, fp(16000)));
}

#[test]
fn check_miss() {
    let b1 = boxed((fp(1), -fp(1), -fp(1)), (fp(2), fp(1), fp(1)));
    let r = Ray::new(Point(Vec3::new(0, fp(2), fp(2))), Vec3::new(fp(1), 0, 0));
    assert!(!b1.hit2(&r, 0, fp(16000)));
}

#[test]
fn check_graze() {
    // A ray sliding along the box's face, through the shared coordinate.
    let b1 = boxed((fp(1), -fp(1), -fp(1)), (fp(2), fp(1), fp(1)));
    let r = Ray::new(Point(Vec3::new(0, fp(1), fp(1))), Vec3::new(fp(1), 0, 0));
    assert!(b1.hit2(&r, 0, fp(16000)));
}

#[test]
fn check_graze_corner() {
    let _b1 = boxed((fp(1) + 7, -fp(1), -fp(1)), (fp(2), fp(1) + 7, fp(1) + 7));
    let _r = Ray::new(Point(Vec3::new(0, 0, 0)), Vec3::new(fp(1), fp(1), fp(1)));
}

#[test]
fn sphere_hit_exact_distance() {
    // Origin at zero, direction one unit toward -z, sphere ten units out
    // with radius one half: the near surface lies exactly 9.5 units away.
    let s = Sphere {
        center: Point(Vec3::new(0, 0, -fp(10))),
        radius: fp(1) / 2,
    };
    let r = Ray::new(Point(Vec3::new(0, 0, 0)), Vec3::new(0, 0, -fp(1)));
    let rec = s.hit(&r, 0, fp(16000)).expect("the ray aims at the sphere");
    assert_eq!(rec.t, 9 * FP_ONE + FP_ONE / 2);
    assert!(rec.front_face);
    // The outward normal at the near pole points back along +z.
    assert_eq!(rec.normal.z, FP_ONE);
}

#[test]
fn sphere_miss_leaves_none() {
    let s = Sphere {
        center: Point(Vec3::new(0, 0, -fp(10))),
        radius: fp(1) / 2,
    };
    let r = Ray::new(Point(Vec3::new(0, 0, 0)), Vec3::new(fp(1), 0, 0));
    assert!(s.hit(&r, 0, fp(16000)).is_none());
}

#[test]
fn sphere_hit_respects_window() {
    let s = Sphere {
        center: Point(Vec3::new(0, 0, -fp(10))),
        radius: fp(1) / 2,
    };
    let r = Ray::new(Point(Vec3::new(0, 0, 0)), Vec3::new(0, 0, -fp(1)));
    // The hit at 9.5 units falls outside a window that ends at 9 units.
    assert!(s.hit(&r, 0, fp(9)).is_none());
    // And outside a window that starts past both surface crossings.
    assert!(s.hit(&r, fp(11), fp(16000)).is_none());
}

#[test]
fn dimm_axis_numbers() {
    assert_eq!(Dimm::X.dimm_num(), 0);
    assert_eq!(Dimm::Y.dimm_num(), 1);
    assert_eq!(Dimm::Z.dimm_num(), 2);
}
