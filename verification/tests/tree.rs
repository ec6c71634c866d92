//! The bounding-volume hierarchy against the exhaustive linear scan.

use raytracer::bvh::{BboxTree, BboxTreeWorkspace};
use raytracer::fixed::FP_ONE;
use raytracer::material::{Lambertian, MaterialType};
use raytracer::object::GeometricObject;
use raytracer::scene::{HitList, SceneObject};
use raytracer::sphere::Sphere;
use raytracer::texture::{ConstantTexture, SceneTexture};
use raytracer::vec3::{Color, Point, Ray, Vec3};

fn fp(units: i64) -> i64 {
    units * FP_ONE
}

fn sphere_at(x: i64, y: i64, z: i64, radius: i64) -> Sphere {
    Sphere {
        center: Point(Vec3::new(x, y, z)),
        radius,
    }
}

fn gray() -> MaterialType {
    MaterialType::Lambertian(Lambertian::new(SceneTexture::Solid(ConstantTexture {
        color: Color(Vec3::new(FP_ONE / 2, FP_ONE / 2, FP_ONE / 2)),
    })))
}

fn far() -> i64 {
    fp(16000)
}

#[test]
fn emptybbox() {
    let empty_tree = BboxTree::new(vec![]);
    let mut stack = BboxTreeWorkspace::default();
    let r = Ray::new(Point(Vec3::new(0, 0, 0)), Vec3::new(fp(1), 0, 0));
    assert!(empty_tree.hit_workspace(&mut stack, &r, 0, far()).is_none());
}

#[test]
fn miss_single_obj() {
    let tree = BboxTree::new(vec![GeometricObject::Sphere(sphere_at(0, 0, -fp(10),
        fp(1) / 2))]);
    let mut stack = BboxTreeWorkspace::default();
    let r = Ray::new(Point(Vec3::new(0, 0, 0)), Vec3::new(fp(1), 0, 0));
    assert!(tree.hit_workspace(&mut stack, &r, 0, far()).is_none());
}

#[test]
fn hit_single_obj() {
    let sphere = sphere_at(0, 0, -fp(10), fp(1) / 2);
    let tree = BboxTree::new(vec![GeometricObject::Sphere(sphere)]);
    let mut stack = BboxTreeWorkspace::default();
    let r = Ray::new(Point(Vec3::new(0, 0, 0)), Vec3::new(0, 0, -fp(1)));
    let (idx, rec) = tree.hit_workspace(&mut stack, &r, 0, far()).expect("hit expected");
    assert_eq!(idx, 0);
    assert_eq!(*tree.leaf(idx), GeometricObject::Sphere(sphere));
    assert_eq!(rec.t, 9 * FP_ONE + FP_ONE / 2);
}

#[test]
fn hit_box_but_not_obj() {
    // The ray pierces the sphere's bounding box near a corner without
    // touching the sphere itself.
    let sphere = sphere_at(0, 0, -fp(2), fp(1));
    let tree = BboxTree::new(vec![GeometricObject::Sphere(sphere)]);
    let mut stack = BboxTreeWorkspace::default();
    let r = Ray::new(Point(Vec3::new(0, 0, 0)), Vec3::new(58982, 58982, -fp(1) - 32768));
    let bbox = GeometricObject::Sphere(sphere).bounding_box().unwrap();
    assert!(bbox.hit2(&r, 0, far()), "bad test setup, the box should be crossed");
    assert!(tree.hit_workspace(&mut stack, &r, 0, far()).is_none());
}

#[test]
fn hit_first_sphere_in_chain() {
    // A hundred spheres in a line along -z: the nearest one wins.
    let mut objs = Vec::new();
    for idx in 1..=100i64 {
        objs.push(GeometricObject::Sphere(sphere_at(0, 0, -fp(2) * idx, fp(1))));
    }
    let tree = BboxTree::new(objs);
    let mut stack = BboxTreeWorkspace::default();
    let r = Ray::new(Point(Vec3::new(0, 0, 0)), Vec3::new(0, 0, -fp(1)));
    let (idx, rec) = tree.hit_workspace(&mut stack, &r, 0, far()).expect("hit expected");
    assert_eq!(idx, 0);
    assert_eq!(rec.t, fp(1));
}

#[test]
fn hit_obj_behind_first_box() {
    // The near sphere's box is crossed but missed; the far sphere is hit.
    let near = sphere_at(0, 0, -fp(2), fp(1));
    let far_sphere = sphere_at(fp(2), fp(2), -fp(4), fp(1));
    let tree = BboxTree::new(vec![GeometricObject::Sphere(near),
        GeometricObject::Sphere(far_sphere)]);
    let mut stack = BboxTreeWorkspace::default();
    let r = Ray::new(Point(Vec3::new(0, 0, 0)), Vec3::new(58982, 58982, -fp(1) - 32768));
    let (idx, _) = tree.hit_workspace(&mut stack, &r, 0, far()).expect("hit expected");
    assert_eq!(idx, 1);
}

#[test]
fn traversal_agrees_with_linear_scan() {
    // A scattered cloud of spheres: for several rays, the tree's nearest
    // distance must equal the exhaustive scan's.
    let mut geos = Vec::new();
    let mut objs = Vec::new();
    let mut seed: i64 = 12345;
    for _ in 0..60 {
        seed = (seed.wrapping_mul(1103515245).wrapping_add(12345)) % 100000;
        let x = (seed % 9) - 4;
        seed = (seed.wrapping_mul(1103515245).wrapping_add(12345)) % 100000;
        let y = (seed % 9) - 4;
        seed = (seed.wrapping_mul(1103515245).wrapping_add(12345)) % 100000;
        let z = -((seed % 16).abs()) - 2;
        let s = sphere_at(fp(x), fp(y), fp(z), fp(1) / 2);
        geos.push(GeometricObject::Sphere(s));
        objs.push(SceneObject {
            geometry: GeometricObject::Sphere(s),
            material: gray(),
        });
    }
    let tree = BboxTree::new(geos);
    let list = HitList { objects: objs };
    let mut stack = BboxTreeWorkspace::default();
    for dx in -3..=3i64 {
        for dy in -3..=3i64 {
            let r = Ray::new(Point(Vec3::new(0, 0, 0)),
                Vec3::new(dx * 17000, dy * 17000, -fp(1)));
            let by_tree = tree.hit_workspace(&mut stack, &r, 1, far());
            let by_scan = list.hit(&r, 1, far());
            match (by_tree, by_scan) {
                (None, None) => {},
                (Some((_, a)), Some((_, b))) => assert_eq!(a.t, b.t),
                (a, b) => panic!("tree {:?} but scan {:?}", a.map(|p| p.1.t),
                    b.map(|p| p.1.t)),
            }
        }
    }
}

#[test]
fn traversal_stays_inside_window() {
    let tree = BboxTree::new(vec![GeometricObject::Sphere(sphere_at(0, 0, -fp(10),
        fp(1) / 2))]);
    let mut stack = BboxTreeWorkspace::default();
    let r = Ray::new(Point(Vec3::new(0, 0, 0)), Vec3::new(0, 0, -fp(1)));
    // The true hit lies at 9.5 units; a window ending at 9 must miss it.
    assert!(tree.hit_workspace(&mut stack, &r, 0, fp(9)).is_none());
    // And a window starting at 10 lies beyond the far crossing at 10.5?
    // No: the far crossing is at 10.5, inside [10, far); it must be found
    // and reported within the window.
    let (_, rec) = tree.hit_workspace(&mut stack, &r, fp(10), far()).expect("far side");
    assert!(rec.t >= fp(10));
    assert_eq!(rec.t, 10 * FP_ONE + FP_ONE / 2);
}

#[test]
fn workspace_is_reusable() {
    let tree = BboxTree::new(vec![GeometricObject::Sphere(sphere_at(0, 0, -fp(10),
        fp(1) / 2))]);
    let mut stack = BboxTreeWorkspace::default();
    let hit_ray = Ray::new(Point(Vec3::new(0, 0, 0)), Vec3::new(0, 0, -fp(1)));
    let miss_ray = Ray::new(Point(Vec3::new(0, 0, 0)), Vec3::new(fp(1), 0, 0));
    for _ in 0..3 {
        assert!(tree.hit_workspace(&mut stack, &hit_ray, 0, far()).is_some());
        assert!(tree.hit_workspace(&mut stack, &miss_ray, 0, far()).is_none());
    }
}
