//! Scenes: objects paired with materials, the linear fallback list, the
//! finalized tree, and the sky.

use vstd::prelude::*;

use crate::bvh::{
    all_cands, cand_member, prefix_cands, tree_wf, BboxTree, BboxTreeWorkspace,
};
use crate::hit::best_of;
use crate::fixed::FP_ONE;
use crate::hit::{lemma_best_of_concat, HitRecord};
use crate::material::{mat_wf, MaterialType};
use crate::object::{geo_cands, geo_wf, GeometricObject};
use crate::sphere::ray_wf;
use crate::vec3::{
    sv_add, sv_bounded, sv_scale, sv_zero, Color, Ray, R3, V3, Vec3, PROD_LIMIT,
};

verus! {

/// One scene object: a shape and how it responds to light.
pub struct SceneObject {
    pub geometry: GeometricObject,
    pub material: MaterialType,
}

pub open spec fn sobj_wf(o: SceneObject) -> bool {
    geo_wf(o.geometry) && mat_wf(o.material)
}

/// The geometries of a list of scene objects.
pub open spec fn scene_geos(objs: Seq<SceneObject>) -> Seq<GeometricObject> {
    objs.map_values(|o: SceneObject| o.geometry)
}

/// A plain list of objects tested linearly — the fallback for shapes
/// without a finite bounding box.
pub struct HitList {
    pub objects: Vec<SceneObject>,
}

impl Default for HitList {
    /// An empty list.
    fn default() -> (r: Self)
        ensures
            r.objects@.len() == 0,
    {
        HitList { objects: Vec::new() }
    }
}

impl HitList {
    /// The nearest hit over all objects, by exhaustive scan; the reference
    /// the tree traversal is measured against.
    pub fn hit(&self, ray: &Ray, t_min: i64, t_max: i64) -> (res: Option<(usize, HitRecord)>)
        requires
            forall|k: int| 0 <= k < self.objects@.len() ==> sobj_wf(#[trigger] self.objects@[
                k]),
            ray_wf(ray@),
            -(PROD_LIMIT as int) <= t_min <= PROD_LIMIT as int,
            -(PROD_LIMIT as int) <= t_max <= PROD_LIMIT as int,
        ensures
            match res {
                Some((idx, rec)) => {
                    &&& idx < self.objects@.len()
                    &&& best_of(all_cands(scene_geos(self.objects@), ray@), t_min as int,
                        t_max as int) == Some(rec@)
                    &&& cand_member(geo_cands(self.objects@[idx as int].geometry, ray@), rec@)
                    &&& t_min as int <= rec@.t <= t_max as int
                },
                None => best_of(all_cands(scene_geos(self.objects@), ray@), t_min as int,
                    t_max as int) is None,
            },
    {
        let ghost geos = scene_geos(self.objects@);
        let ghost rm = ray@;
        let ghost tmin = t_min as int;
        let ghost tmax = t_max as int;
        let mut closest: Option<(usize, HitRecord)> = None;
        let mut i: usize = 0;
        proof {
            assert(best_of(prefix_cands(geos, rm, 0), tmin, tmax) is None);
        }
        while i < self.objects.len()
            invariant
                forall|k: int| 0 <= k < self.objects@.len() ==> sobj_wf(
                    #[trigger] self.objects@[k]),
                ray_wf(rm),
                rm == ray@,
                tmin == t_min as int,
                tmax == t_max as int,
                -(PROD_LIMIT as int) <= t_min <= PROD_LIMIT as int,
                -(PROD_LIMIT as int) <= t_max <= PROD_LIMIT as int,
                geos == scene_geos(self.objects@),
                i <= self.objects@.len(),
                match closest {
                    Some((idx, rec)) => {
                        &&& idx < i
                        &&& best_of(prefix_cands(geos, rm, i as int), tmin, tmax)
                            == Some(rec@)
                        &&& cand_member(geo_cands(self.objects@[idx as int].geometry, rm),
                            rec@)
                        &&& tmin <= rec@.t <= tmax
                    },
                    None => best_of(prefix_cands(geos, rm, i as int), tmin, tmax) is None,
                },
            decreases self.objects@.len() - i,
        {
            let sub = self.objects[i].geometry.hit(ray, t_min, t_max);
            proof {
                lemma_best_of_concat(prefix_cands(geos, rm, i as int), geo_cands(geos[
                    i as int], rm), tmin, tmax);
                assert(geos[i as int] == self.objects@[i as int].geometry);
                crate::hit::lemma_best_of_props(geo_cands(geos[i as int], rm), tmin, tmax);
            }
            if let Some(rec) = sub {
                let replace = match &closest {
                    Some((_, cur)) => rec.t < cur.t,
                    None => true,
                };
                if replace {
                    closest = Some((i, rec));
                }
            }
            i = i + 1;
        }
        closest
    }
}

/// The environment light behind every escaped ray.
#[derive(Clone, Copy, Debug)]
pub enum SkyBox {
    /// A vertical white-to-blue gradient.
    Above,
    /// One color everywhere.
    Flat(Color),
    /// No environment light at all.
    Dark,
}

/// The gradient endpoint colors (fixed point).
pub open spec fn sky_white() -> V3 {
    V3 { x: FP_ONE as int, y: FP_ONE as int, z: FP_ONE as int }
}

pub open spec fn sky_blue() -> V3 {
    V3 { x: FP_ONE as int / 2, y: 45875, z: FP_ONE as int }
}

/// The sky color of a ray: a gradient over the unit direction's height,
/// a constant, or black.
pub open spec fn sky_value(sb: SkyBox, r: R3) -> V3 {
    match sb {
        SkyBox::Above => {
            let unit = crate::vec3::sv_unit(r.dir);
            let t = crate::fixed::floor_div(unit.y + FP_ONE as int, 2);
            sv_add(sv_scale(sky_white(), FP_ONE as int - t), sv_scale(sky_blue(), t))
        },
        SkyBox::Flat(c) => c@,
        SkyBox::Dark => sv_zero(),
    }
}

/// Sky colors the contracts accept.
pub open spec fn sky_wf(sb: SkyBox) -> bool {
    match sb {
        SkyBox::Flat(c) => sv_bounded(c@, 0x1_0000_0000),
        _ => true,
    }
}

impl SkyBox {
    /// The background light of an escaped ray.
    pub fn background(&self, r: &Ray) -> (res: Color)
        requires
            sky_wf(*self),
            ray_wf(r@),
        ensures
            res@ == sky_value(*self, r@),
            sv_bounded(res@, 0x1_0000_0000),
    {
        match self {
            SkyBox::Above => {
                let unit = r.direction.unit();
                let t = (unit.y + FP_ONE) / 2;
                proof {
                    assert(unit@.y + FP_ONE as int >= 0);
                    assert(t == crate::fixed::floor_div(unit@.y + FP_ONE as int, 2));
                    assert(0 <= t <= FP_ONE);
                    crate::vec3::lemma_scale_fits(sky_white().x, FP_ONE as int - t, 65536,
                        65536);
                    crate::vec3::lemma_scale_fits(sky_blue().x, t as int, 65536, 65536);
                    crate::vec3::lemma_scale_fits(sky_blue().y, t as int, 65536, 65536);
                    crate::vec3::lemma_scale_result(sky_white().x, FP_ONE as int - t, 65536,
                        65536, 65536);
                    crate::vec3::lemma_scale_result(sky_white().y, FP_ONE as int - t, 65536,
                        65536, 65536);
                    crate::vec3::lemma_scale_result(sky_white().z, FP_ONE as int - t, 65536,
                        65536, 65536);
                    crate::vec3::lemma_scale_result(sky_blue().x, t as int, 65536, 65536,
                        65536);
                    crate::vec3::lemma_scale_result(sky_blue().y, t as int, 65536, 65536,
                        65536);
                    crate::vec3::lemma_scale_result(sky_blue().z, t as int, 65536, 65536,
                        65536);
                }
                let white = Vec3::new(FP_ONE, FP_ONE, FP_ONE);
                let blue = Vec3::new(FP_ONE / 2, 45875, FP_ONE);
                let a = white.scale(FP_ONE - t);
                let b = blue.scale(t);
                Color(a.add(&b))
            },
            SkyBox::Flat(c) => *c,
            SkyBox::Dark => Color(Vec3::new(0, 0, 0)),
        }
    }
}

/// A finalized scene: immutable, tree-backed, queryable.
pub struct Scene {
    pub skybox: SkyBox,
    pub objects: HitList,
    pub tree: BboxTree,
    pub materials: Vec<MaterialType>,
}

/// Scene well-formedness.  Every shape of this renderer carries a finite
/// box, so the linear fallback list stays empty and the tree answers every
/// query.
pub open spec fn scene_wf(s: Scene) -> bool {
    &&& tree_wf(s.tree)
    &&& s.objects.objects@.len() == 0
    &&& s.materials@.len() == s.tree.leaves@.len()
    &&& forall|k: int| 0 <= k < s.materials@.len() ==> mat_wf(#[trigger] s.materials@[k])
    &&& sky_wf(s.skybox)
}

impl Scene {
    /// The nearest hit in the scene, using the caller's traversal stack.
    pub fn hit_workspace(&self, hit_stack: &mut BboxTreeWorkspace, ray: &Ray, t_min: i64,
        t_max: i64) -> (res: Option<(usize, HitRecord)>)
        requires
            scene_wf(*self),
            ray_wf(ray@),
            -(PROD_LIMIT as int) <= t_min <= PROD_LIMIT as int,
            -(PROD_LIMIT as int) <= t_max <= PROD_LIMIT as int,
            t_min < t_max,
        ensures
            match res {
                Some((idx, rec)) => {
                    &&& idx < self.tree.leaves@.len()
                    &&& cand_member(geo_cands(self.tree.leaves@[idx as int], ray@), rec@)
                    &&& t_min as int <= rec@.t <= t_max as int
                    &&& match best_of(all_cands(self.tree.leaves@, ray@), t_min as int,
                        t_max as int) {
                        Some(b) => rec@.t == b.t,
                        None => false,
                    }
                },
                None => best_of(all_cands(self.tree.leaves@, ray@), t_min as int,
                    t_max as int) is None,
            },
    {
        self.tree.hit_workspace(hit_stack, ray, t_min, t_max)
    }

    /// The number of objects in the scene.
    pub fn len(&self) -> (r: usize)
        ensures
            r == self.tree.leaves@.len(),
    {
        self.tree.len()
    }
}

/// Accumulates objects, then finalizes them into a tree-backed scene.
pub struct SceneBuilder {
    pub skybox: SkyBox,
    pub objects: Vec<SceneObject>,
}

impl Default for SceneBuilder {
    /// An empty builder under the gradient sky.
    fn default() -> (r: Self)
        ensures
            r.objects@.len() == 0,
            r.skybox is Above,
    {
        SceneBuilder { skybox: SkyBox::Above, objects: Vec::new() }
    }
}

impl SceneBuilder {
    /// Chooses the environment light.
    pub fn set_skybox(&mut self, skybox: SkyBox)
        ensures
            final(self).skybox == skybox,
            final(self).objects == old(self).objects,
    {
        self.skybox = skybox;
    }

    /// Adds one object with its material.
    pub fn add(&mut self, g: GeometricObject, m: MaterialType)
        requires
            geo_wf(g),
            mat_wf(m),
        ensures
            final(self).objects@ == old(self).objects@.push(SceneObject {
                geometry: g,
                material: m,
            }),
            final(self).skybox == old(self).skybox,
    {
        self.objects.push(SceneObject { geometry: g, material: m });
    }

    /// The one-way transition from buildable to queryable: builds the tree
    /// over every object's geometry.
    pub fn finalize(self) -> (s: Scene)
        requires
            forall|k: int| 0 <= k < self.objects@.len() ==> sobj_wf(#[trigger] self.objects@[
                k]),
            sky_wf(self.skybox),
        ensures
            scene_wf(s),
            s.tree.leaves@ == scene_geos(self.objects@),
            s.skybox == self.skybox,
            forall|k: int| 0 <= k < self.objects@.len() ==> s.materials@[k]
                == (#[trigger] self.objects@[k]).material,
    {
        let ghost objs = self.objects@;
        let mut geos: Vec<GeometricObject> = Vec::new();
        let mut materials: Vec<MaterialType> = Vec::new();
        let mut objects = self.objects;
        while objects.len() > 0
            invariant
                forall|k: int| 0 <= k < objs.len() ==> sobj_wf(#[trigger] objs[k]),
                geos@.len() == materials@.len(),
                geos@.len() + objects@.len() == objs.len(),
                forall|k: int| 0 <= k < objects@.len() ==> (#[trigger] objects@[k]) == objs[
                    geos@.len() + k],
                forall|k: int| 0 <= k < geos@.len() ==> (#[trigger] geos@[k]) == objs[
                    k].geometry,
                forall|k: int| 0 <= k < materials@.len() ==> (#[trigger] materials@[k])
                    == objs[k].material,
            decreases objects@.len(),
        {
            let o = objects.remove(0);
            geos.push(o.geometry);
            materials.push(o.material);
        }
        let ghost i = objs.len();
        proof {
            assert(geos@ =~= scene_geos(objs));
            assert forall|k: int| 0 <= k < geos@.len() implies geo_wf(#[trigger] geos@[k]) by {
                assert(geos@[k] == objs[k].geometry);
            }
        }
        let tree = BboxTree::new(geos);
        Scene { skybox: self.skybox, objects: HitList::default(), tree, materials }
    }
}

} // verus!
