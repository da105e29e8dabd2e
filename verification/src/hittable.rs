//! The surface abstraction: hit records with the front-face normal
//! convention, the arena that holds every surface of a scene, and the
//! recursive intersection, bounding-box and sampling-density queries
//! over it. Children sit at smaller arena indices than their parents,
//! so the surface graph is acyclic by construction.

use vstd::prelude::*;
use crate::aabb::{
    aabb_hit_spec, aabb_in_range, merge_spec, surrounding_box, AabbV, AABB, BOX_BOUND,
};
use crate::arrect::{BoxObject, XYRect, XZRect, YZRect};
use crate::constant_medium::ConstantMedium;
use crate::fx::{
    clamp_spec, fx_mul_spec, fx_mul, floor_div_i128, lemma_div_range, COORD_BOUND, RAY_BOUND,
    SCALE, T_EPSILON, T_MAX_FX,
};
use crate::hittable_list::HittableList;
use crate::material::{material_wf, Material};
use crate::moving_sphere::{moving_sphere_hit_spec, moving_sphere_wf, MovingSphere};
use crate::ray::{ray_in_range, Ray, RayV};
use crate::sphere::{sphere_box_spec, sphere_hit_spec, sphere_wf, Sphere};
use crate::vec3::{
    dot_spec, dot_wide_spec, in_range, v3_add, v3_neg, v3_sub, Point3, V3, Vec3, DOT_LIMIT,
};
#[allow(unused_imports)]
use vstd::arithmetic::div_mod::{lemma_div_is_ordered, lemma_div_pos_is_pos};

verus! {

/// Mathematical model of a hit record.
pub ghost struct HitV {
    pub p: V3,
    pub normal: V3,
    pub mat_ptr: int,
    pub t: int,
    pub u: int,
    pub v: int,
    pub front_face: bool,
}

/// One successful intersection: point, oriented normal, material handle
/// (an index into the scene's material table), parameter, texture
/// coordinates and the side flag.
#[derive(Clone, Copy, PartialEq, Eq, Structural, Debug)]
pub struct HitRecord {
    pub p: Point3,
    pub normal: Vec3,
    pub mat_ptr: usize,
    pub t: i64,
    pub u: i64,
    pub v: i64,
    pub front_face: bool,
}

impl View for HitRecord {
    type V = HitV;

    open spec fn view(&self) -> HitV {
        HitV {
            p: self.p@,
            normal: self.normal@,
            mat_ptr: self.mat_ptr as int,
            t: self.t as int,
            u: self.u as int,
            v: self.v as int,
            front_face: self.front_face,
        }
    }
}

/// The view of an optional record.
pub open spec fn opt_hit_view(o: Option<HitRecord>) -> Option<HitV> {
    match o {
        Some(h) => Some(h@),
        None => None,
    }
}

/// Reorient an outward normal against the incoming ray.
pub open spec fn set_face_normal_spec(h: HitV, r: RayV, outward: V3) -> HitV {
    let ff = dot_spec(r.dir, outward) < 0;
    HitV {
        normal: if ff {
            outward
        } else {
            v3_neg(outward)
        },
        front_face: ff,
        ..h
    }
}

/// Negating one side negates the raw dot product.
pub proof fn lemma_dot_wide_neg(a: V3, b: V3)
    ensures
        dot_wide_spec(a, v3_neg(b)) == -dot_wide_spec(a, b),
{
    assert(a.x * (-b.x) == -(a.x * b.x) && a.y * (-b.y) == -(a.y * b.y) && a.z * (-b.z) == -(a.z
        * b.z)) by (nonlinear_arith);
}

/// The reoriented normal always opposes the ray: its fixed-point dot
/// product with the ray direction is never positive.
pub proof fn lemma_face_normal_opposes(h: HitV, r: RayV, outward: V3)
    ensures
        dot_spec(r.dir, set_face_normal_spec(h, r, outward).normal) <= 0,
{
    let ff = dot_spec(r.dir, outward) < 0;
    if !ff {
        lemma_dot_wide_neg(r.dir, outward);
        let w = dot_wide_spec(r.dir, outward);
        if w < 0 {
            lemma_div_is_ordered(w, -1, SCALE as int);
            assert((-1int) / 65536int == -1) by (nonlinear_arith);
        }
        assert(w >= 0);
        lemma_div_is_ordered(-w, 0, SCALE as int);
        assert(0int / 65536int == 0) by (nonlinear_arith);
    }
}

impl HitRecord {
    /// Store the outward normal oriented against the ray and remember
    /// which side was struck.
    pub fn set_face_normal(&mut self, ray: &Ray, outward_normal: &Vec3)
        requires
            in_range(ray@.dir, DOT_LIMIT as int),
            in_range(outward_normal@, DOT_LIMIT as int),
        ensures
            final(self)@ == set_face_normal_spec(old(self)@, ray@, outward_normal@),
            dot_spec(ray@.dir, final(self)@.normal) <= 0,
    {
        proof {
            lemma_face_normal_opposes(old(self)@, ray@, outward_normal@);
        }
        self.front_face = Vec3::dot(ray.dir, *outward_normal) < 0;
        self.normal = if self.front_face {
            *outward_normal
        } else {
            outward_normal.neg()
        };
    }
}

/// Shift a surface's intersections by an offset.
#[derive(Clone, Copy, PartialEq, Eq, Structural, Debug)]
pub struct Translate {
    pub ptr: usize,
    pub offset: Vec3,
}

impl Translate {
    pub fn new(p: usize, offset: Vec3) -> (t: Translate)
        ensures
            t.ptr == p,
            t.offset == offset,
    {
        Translate { ptr: p, offset }
    }
}

/// Rotate a surface about the vertical axis; the world-space box is
/// precomputed at construction.
#[derive(Clone, Copy, PartialEq, Eq, Structural, Debug)]
pub struct RotateY {
    pub ptr: usize,
    pub sin_theta: i64,
    pub cos_theta: i64,
    pub hasbox: bool,
    pub bbox: AABB,
}

/// Invert the front-face flag of every hit.
#[derive(Clone, Copy, PartialEq, Eq, Structural, Debug)]
pub struct FlipFace {
    pub ptr: usize,
}

impl FlipFace {
    pub fn new(p: usize) -> (f: FlipFace)
        ensures
            f.ptr == p,
    {
        FlipFace { ptr: p }
    }
}

/// A fixed binary split over two child surfaces with their merged box.
#[derive(Clone, Copy, PartialEq, Eq, Structural, Debug)]
pub struct BvhNode {
    pub left: usize,
    pub right: usize,
    pub boox: AABB,
}

/// One surface of the scene. Children are indices into the arena that
/// holds every surface; a child always sits at a smaller index than its
/// parent, so the tree is immutable and recursion is grounded.
pub enum Surface {
    Sphere(Sphere),
    MovingSphere(MovingSphere),
    XYRect(XYRect),
    XZRect(XZRect),
    YZRect(YZRect),
    BoxObject(BoxObject),
    Translate(Translate),
    RotateY(RotateY),
    FlipFace(FlipFace),
    ConstantMedium(ConstantMedium),
    List(HittableList),
    BvhNode(BvhNode),
}

/// The scene's surfaces and the material table their handles point into.
pub struct SurfaceSet {
    pub surfaces: Vec<Surface>,
    pub materials: Vec<Material>,
}

/// Structural well-formedness of one node at its position.
pub open spec fn node_wf(s: &Surface, idx: int, nmats: int) -> bool {
    match s {
        Surface::Sphere(sp) => sphere_wf(sp.center@, sp.radius as int) && (sp.mat_ptr as int)
            < nmats,
        Surface::MovingSphere(m) => moving_sphere_wf(*m) && (m.mat_ptr as int) < nmats,
        Surface::XYRect(rc) => rc.wf() && (rc.mp as int) < nmats,
        Surface::XZRect(rc) => rc.wf() && (rc.mp as int) < nmats,
        Surface::YZRect(rc) => rc.wf() && (rc.mp as int) < nmats,
        Surface::BoxObject(b) => in_range(b.box_min@, COORD_BOUND as int) && in_range(
            b.box_max@,
            COORD_BOUND as int,
        ) && (b.slides as int) < idx,
        Surface::Translate(t) => (t.ptr as int) < idx && in_range(t.offset@, COORD_BOUND as int),
        Surface::RotateY(rt) => (rt.ptr as int) < idx && -SCALE <= rt.sin_theta <= SCALE
            && -SCALE <= rt.cos_theta <= SCALE && aabb_in_range(rt.bbox@),
        Surface::FlipFace(f) => (f.ptr as int) < idx,
        Surface::ConstantMedium(c) => (c.boundary as int) < idx && (c.phase_function as int)
            < nmats && 1 <= c.density <= COORD_BOUND,
        Surface::List(l) => forall|k: int|
            0 <= k < l.objects@.len() ==> (#[trigger] l.objects@[k] as int) < idx,
        Surface::BvhNode(b) => (b.left as int) < idx && (b.right as int) < idx && aabb_in_range(
            b.boox@,
        ),
    }
}

/// The whole arena is well formed.
pub open spec fn set_wf(s: &SurfaceSet) -> bool {
    &&& forall|i: int|
        0 <= i < s.surfaces@.len() ==> node_wf(&s.surfaces@[i], i, s.materials@.len() as int)
    &&& forall|m: int| 0 <= m < s.materials@.len() ==> material_wf(&s.materials@[m])
}

/// The ray a translated surface sees.
pub open spec fn moved_ray_spec(r: RayV, offset: V3) -> RayV {
    RayV { orig: v3_sub(r.orig, offset), dir: r.dir, tm: r.tm }
}

/// Bound on hit points carried through decorators; transforms saturate
/// into it so that nested decorators stay within machine range.
pub const HIT_P_BOUND: i64 = 0x40_0000_0000_0000;

/// Componentwise saturation.
pub open spec fn v3_clamp_spec(v: V3, b: int) -> V3 {
    V3 {
        x: clamp_spec(v.x, -b, b),
        y: clamp_spec(v.y, -b, b),
        z: clamp_spec(v.z, -b, b),
    }
}

/// A hit of the inner surface, carried back out of the translation.
pub open spec fn translate_out_spec(inner: Option<HitV>, moved: RayV, offset: V3) -> Option<
    HitV,
> {
    match inner {
        None => None,
        Some(h) => Some(
            set_face_normal_spec(
                HitV { p: v3_clamp_spec(v3_add(h.p, offset), HIT_P_BOUND as int), ..h },
                moved,
                h.normal,
            ),
        ),
    }
}

/// Rotate a vector into object space (by the angle's inverse).
pub open spec fn rot_in_spec(c: int, s: int, v: V3) -> V3 {
    V3 {
        x: fx_mul_spec(c, v.x) - fx_mul_spec(s, v.z),
        y: v.y,
        z: fx_mul_spec(s, v.x) + fx_mul_spec(c, v.z),
    }
}

/// Rotate a vector back into world space.
pub open spec fn rot_out_spec(c: int, s: int, v: V3) -> V3 {
    V3 {
        x: fx_mul_spec(c, v.x) + fx_mul_spec(s, v.z),
        y: v.y,
        z: -fx_mul_spec(s, v.x) + fx_mul_spec(c, v.z),
    }
}

pub open spec fn rotated_ray_spec(rt: &RotateY, r: RayV) -> RayV {
    RayV {
        orig: rot_in_spec(rt.cos_theta as int, rt.sin_theta as int, r.orig),
        dir: rot_in_spec(rt.cos_theta as int, rt.sin_theta as int, r.dir),
        tm: r.tm,
    }
}

pub open spec fn rotate_out_spec(rt: &RotateY, inner: Option<HitV>, rotated: RayV) -> Option<
    HitV,
> {
    match inner {
        None => None,
        Some(h) => Some(
            set_face_normal_spec(
                HitV {
                    p: v3_clamp_spec(
                        rot_out_spec(rt.cos_theta as int, rt.sin_theta as int, h.p),
                        HIT_P_BOUND as int,
                    ),
                    ..h
                },
                rotated,
                v3_clamp_spec(
                    rot_out_spec(rt.cos_theta as int, rt.sin_theta as int, h.normal),
                    0x8000_0000,
                ),
            ),
        ),
    }
}

pub open spec fn flip_out_spec(inner: Option<HitV>) -> Option<HitV> {
    match inner {
        None => None,
        Some(h) => Some(HitV { front_face: !h.front_face, ..h }),
    }
}

/// The deterministic intersection of the surface at `idx`, strictly
/// inside `(tmin, tmax)`. The participating medium draws a random
/// free-flight distance, so its result is not a function of the inputs;
/// this spec gives it no value, and the executable contract is gated on
/// `medium_free`.
pub open spec fn spec_hit(ns: Seq<Surface>, idx: int, r: RayV, tmin: int, tmax: int) -> Option<
    HitV,
>
    decreases idx, 1int, 0int,
{
    if 0 <= idx < ns.len() {
        match ns[idx] {
            Surface::Sphere(s) => sphere_hit_spec(
                s.center@,
                s.radius as int,
                s.mat_ptr as int,
                r,
                tmin,
                tmax,
            ),
            Surface::MovingSphere(m) => moving_sphere_hit_spec(m, r, tmin, tmax),
            Surface::XYRect(rc) => rc.hit_spec(r, tmin, tmax),
            Surface::XZRect(rc) => rc.hit_spec(r, tmin, tmax),
            Surface::YZRect(rc) => rc.hit_spec(r, tmin, tmax),
            Surface::BoxObject(b) => if (b.slides as int) < idx {
                spec_hit(ns, b.slides as int, r, tmin, tmax)
            } else {
                None
            },
            Surface::Translate(t) => if (t.ptr as int) < idx {
                let moved = moved_ray_spec(r, t.offset@);
                if ray_in_range(moved) {
                    translate_out_spec(
                        spec_hit(ns, t.ptr as int, moved, tmin, tmax),
                        moved,
                        t.offset@,
                    )
                } else {
                    None
                }
            } else {
                None
            },
            Surface::RotateY(rt) => if (rt.ptr as int) < idx {
                let rotated = rotated_ray_spec(&rt, r);
                if ray_in_range(rotated) {
                    rotate_out_spec(&rt, spec_hit(ns, rt.ptr as int, rotated, tmin, tmax),
                        rotated)
                } else {
                    None
                }
            } else {
                None
            },
            Surface::FlipFace(f) => if (f.ptr as int) < idx {
                flip_out_spec(spec_hit(ns, f.ptr as int, r, tmin, tmax))
            } else {
                None
            },
            Surface::ConstantMedium(_) => None,
            Surface::List(l) => spec_hit_list(ns, l.objects@, idx, r, tmin, tmax),
            Surface::BvhNode(b) => if (b.left as int) < idx && (b.right as int) < idx {
                if !aabb_hit_spec(b.boox@, r, tmin, tmax) {
                    None
                } else {
                    let lres = spec_hit(ns, b.left as int, r, tmin, tmax);
                    let shrunk = match lres {
                        Some(h) => h.t,
                        None => tmax,
                    };
                    let rres = spec_hit(ns, b.right as int, r, tmin, shrunk);
                    match rres {
                        Some(h) => Some(h),
                        None => lres,
                    }
                }
            } else {
                None
            },
        }
    } else {
        None
    }
}

/// The nearest hit over a list of children, front to back, shrinking the
/// upper bound past each hit as the linear scan does.
pub open spec fn spec_hit_list(
    ns: Seq<Surface>,
    objs: Seq<usize>,
    bound: int,
    r: RayV,
    tmin: int,
    tmax: int,
) -> Option<HitV>
    decreases bound, 0int, objs.len(),
{
    if objs.len() == 0 {
        None
    } else {
        let first = if (objs[0] as int) < bound && bound >= 0 {
            spec_hit(ns, objs[0] as int, r, tmin, tmax)
        } else {
            None
        };
        match first {
            Some(h) => {
                let rest = spec_hit_list(ns, objs.drop_first(), bound, r, tmin, h.t);
                match rest {
                    Some(h2) => Some(h2),
                    None => Some(h),
                }
            },
            None => spec_hit_list(ns, objs.drop_first(), bound, r, tmin, tmax),
        }
    }
}

/// No participating medium beneath this surface: its intersections are a
/// pure function of the ray and interval.
pub open spec fn medium_free(ns: Seq<Surface>, idx: int) -> bool
    decreases idx, 1int, 0int,
{
    if 0 <= idx < ns.len() {
        match ns[idx] {
            Surface::Sphere(_) => true,
            Surface::MovingSphere(_) => true,
            Surface::XYRect(_) => true,
            Surface::XZRect(_) => true,
            Surface::YZRect(_) => true,
            Surface::BoxObject(b) => (b.slides as int) < idx && medium_free(ns, b.slides as int),
            Surface::Translate(t) => (t.ptr as int) < idx && medium_free(ns, t.ptr as int),
            Surface::RotateY(rt) => (rt.ptr as int) < idx && medium_free(ns, rt.ptr as int),
            Surface::FlipFace(f) => (f.ptr as int) < idx && medium_free(ns, f.ptr as int),
            Surface::ConstantMedium(_) => false,
            Surface::List(l) => medium_free_list(ns, l.objects@, idx),
            Surface::BvhNode(b) => (b.left as int) < idx && (b.right as int) < idx
                && medium_free(ns, b.left as int) && medium_free(ns, b.right as int),
        }
    } else {
        true
    }
}

pub open spec fn medium_free_list(ns: Seq<Surface>, objs: Seq<usize>, bound: int) -> bool
    decreases bound, 0int, objs.len(),
{
    if objs.len() == 0 {
        true
    } else {
        ((objs[0] as int) < bound && bound >= 0 && medium_free(ns, objs[0] as int))
            && medium_free_list(ns, objs.drop_first(), bound)
    }
}

/// The enclosing box of the surface at `idx` over a time interval, or
/// nothing for an unboundable surface (an empty list, or a rotation
/// whose inner surface had no box).
pub open spec fn spec_box(ns: Seq<Surface>, idx: int, t0: int, t1: int) -> Option<AabbV>
    decreases idx, 1int, 0int,
{
    if 0 <= idx < ns.len() {
        match ns[idx] {
            Surface::Sphere(s) => Some(sphere_box_spec(s.center@, s.radius as int)),
            Surface::MovingSphere(m) => Some(
                merge_spec(
                    sphere_box_spec(
                        crate::moving_sphere::moving_center_spec(m, t0),
                        m.radius as int,
                    ),
                    sphere_box_spec(
                        crate::moving_sphere::moving_center_spec(m, t1),
                        m.radius as int,
                    ),
                ),
            ),
            Surface::XYRect(rc) => Some(
                AabbV {
                    minimum: V3 { x: rc.x0 as int, y: rc.y0 as int, z: rc.k - 66 },
                    maximum: V3 { x: rc.x1 as int, y: rc.y1 as int, z: rc.k + 66 },
                },
            ),
            Surface::XZRect(rc) => Some(
                AabbV {
                    minimum: V3 { x: rc.x0 as int, y: rc.k - 66, z: rc.z0 as int },
                    maximum: V3 { x: rc.x1 as int, y: rc.k + 66, z: rc.z1 as int },
                },
            ),
            Surface::YZRect(rc) => Some(
                AabbV {
                    minimum: V3 { x: rc.k - 66, y: rc.y0 as int, z: rc.z0 as int },
                    maximum: V3 { x: rc.k + 66, y: rc.y1 as int, z: rc.z1 as int },
                },
            ),
            Surface::BoxObject(b) => Some(
                AabbV { minimum: b.box_min@, maximum: b.box_max@ },
            ),
            Surface::Translate(t) => if (t.ptr as int) < idx {
                match spec_box(ns, t.ptr as int, t0, t1) {
                    None => None,
                    Some(bx) => Some(
                        AabbV {
                            minimum: v3_clamp_spec(
                                v3_add(bx.minimum, t.offset@),
                                BOX_BOUND as int,
                            ),
                            maximum: v3_clamp_spec(
                                v3_add(bx.maximum, t.offset@),
                                BOX_BOUND as int,
                            ),
                        },
                    ),
                }
            } else {
                None
            },
            Surface::RotateY(rt) => if rt.hasbox {
                Some(rt.bbox@)
            } else {
                None
            },
            Surface::FlipFace(f) => if (f.ptr as int) < idx {
                spec_box(ns, f.ptr as int, t0, t1)
            } else {
                None
            },
            Surface::ConstantMedium(c) => if (c.boundary as int) < idx {
                spec_box(ns, c.boundary as int, t0, t1)
            } else {
                None
            },
            Surface::List(l) => if l.objects@.len() == 0 {
                None
            } else {
                let first = if (l.objects@[0] as int) < idx {
                    spec_box(ns, l.objects@[0] as int, t0, t1)
                } else {
                    None
                };
                match first {
                    None => None,
                    Some(b0) => spec_box_list(ns, l.objects@.drop_first(), idx, t0, t1, b0),
                }
            },
            Surface::BvhNode(b) => Some(b.boox@),
        }
    } else {
        None
    }
}

/// Fold the children's boxes into an accumulator, left to right.
pub open spec fn spec_box_list(
    ns: Seq<Surface>,
    objs: Seq<usize>,
    bound: int,
    t0: int,
    t1: int,
    acc: AabbV,
) -> Option<AabbV>
    decreases bound, 0int, objs.len(),
{
    if objs.len() == 0 {
        Some(acc)
    } else {
        let first = if (objs[0] as int) < bound && bound >= 0 {
            spec_box(ns, objs[0] as int, t0, t1)
        } else {
            None
        };
        match first {
            None => None,
            Some(b) => spec_box_list(ns, objs.drop_first(), bound, t0, t1, merge_spec(acc, b)),
        }
    }
}

/// The material handle of a produced record is valid, and its parameter
/// and coordinates stay within machine range.
pub open spec fn hit_out_ok(res: Option<HitRecord>, nmats: int, tmin: int, tmax: int) -> bool {
    match res {
        None => true,
        Some(h) => {
            &&& 0 <= h.mat_ptr < nmats
            &&& tmin <= h.t <= tmax
            &&& in_range(h@.p, HIT_P_BOUND as int)
            &&& in_range(h@.normal, 0x8000_0000)
        },
    }
}

/// Componentwise saturation, executable.
fn v3_clamp(v: &Vec3, b: i64) -> (r: Vec3)
    requires
        0 <= b,
    ensures
        r@ == v3_clamp_spec(v@, b as int),
        in_range(r@, b as int),
{
    Vec3::new(
        crate::fx::clamp(v.x, -b, b),
        crate::fx::clamp(v.y, -b, b),
        crate::fx::clamp(v.z, -b, b),
    )
}

impl SurfaceSet {
    pub fn new() -> (s: SurfaceSet)
        ensures
            set_wf(&s),
            s.surfaces@.len() == 0,
            s.materials@.len() == 0,
    {
        SurfaceSet { surfaces: Vec::new(), materials: Vec::new() }
    }

    /// Register a material; surfaces refer to it by the returned handle.
    pub fn add_material(&mut self, m: Material) -> (id: usize)
        requires
            set_wf(old(self)),
            material_wf(&m),
        ensures
            set_wf(final(self)),
            id == old(self).materials@.len(),
            final(self).materials@ == old(self).materials@.push(m),
            final(self).surfaces@ == old(self).surfaces@,
    {
        let id = self.materials.len();
        self.materials.push(m);
        proof {
            assert forall|i: int|
                0 <= i < self.surfaces@.len() implies node_wf(
                &self.surfaces@[i],
                i,
                self.materials@.len() as int,
            ) by {
                lemma_node_wf_more_mats(&self.surfaces@[i], i,
                    old(self).materials@.len() as int, self.materials@.len() as int);
            }
        }
        id
    }

    /// Append a surface whose children and material handles are already
    /// in the arena.
    pub fn push_surface(&mut self, s: Surface) -> (id: usize)
        requires
            set_wf(old(self)),
            node_wf(&s, old(self).surfaces@.len() as int, old(self).materials@.len() as int),
        ensures
            set_wf(final(self)),
            id == old(self).surfaces@.len(),
            final(self).surfaces@ == old(self).surfaces@.push(s),
            final(self).materials@ == old(self).materials@,
    {
        let id = self.surfaces.len();
        self.surfaces.push(s);
        id
    }

    /// The nearest intersection of the surface at `idx` strictly inside
    /// `(t_min, t_max)`; exact for medium-free surfaces, and always a
    /// usable record.
    pub fn hit(&self, idx: usize, ray: &Ray, t_min: i64, t_max: i64) -> (res: Option<
        HitRecord,
    >)
        requires
            set_wf(self),
            idx < self.surfaces@.len(),
            ray_in_range(ray@),
            -T_MAX_FX <= t_min <= T_MAX_FX,
            -T_MAX_FX <= t_max <= T_MAX_FX,
        ensures
            hit_out_ok(res, self.materials@.len() as int, t_min as int, t_max as int),
            medium_free(self.surfaces@, idx as int) ==> opt_hit_view(res) == spec_hit(
                self.surfaces@,
                idx as int,
                ray@,
                t_min as int,
                t_max as int,
            ),
        decreases idx, 1int, 0int,
    {
        match &self.surfaces[idx] {
            Surface::Sphere(s) => {
                let sp = *s;
                sp.hit(ray, t_min, t_max)
            },
            Surface::MovingSphere(m) => {
                let ms = *m;
                ms.hit(ray, t_min, t_max)
            },
            Surface::XYRect(rc) => {
                let r2 = *rc;
                r2.hit(ray, t_min, t_max)
            },
            Surface::XZRect(rc) => {
                let r2 = *rc;
                r2.hit(ray, t_min, t_max)
            },
            Surface::YZRect(rc) => {
                let r2 = *rc;
                r2.hit(ray, t_min, t_max)
            },
            Surface::BoxObject(b) => {
                let inner = b.slides;
                self.hit(inner, ray, t_min, t_max)
            },
            Surface::Translate(t) => {
                let off = t.offset;
                let inner = t.ptr;
                let new_orig = ray.orig.minus(&off);
                let moved = Ray::new(&new_orig, &ray.dir, ray.tm);
                if moved.orig.x > crate::fx::RAY_BOUND || moved.orig.x < -crate::fx::RAY_BOUND
                    || moved.orig.y > crate::fx::RAY_BOUND || moved.orig.y
                    < -crate::fx::RAY_BOUND || moved.orig.z > crate::fx::RAY_BOUND
                    || moved.orig.z < -crate::fx::RAY_BOUND {
                    return None;
                }
                match self.hit(inner, &moved, t_min, t_max) {
                    None => None,
                    Some(rec0) => {
                        let mut rec = rec0;
                        let shifted = rec.p.plus(&off);
                        rec.p = v3_clamp(&shifted, HIT_P_BOUND);
                        let outward = rec0.normal;
                        rec.set_face_normal(&moved, &outward);
                        Some(rec)
                    },
                }
            },
            Surface::RotateY(rt) => {
                let r0 = *rt;
                let inner = r0.ptr;
                proof {
                    lemma_rot_in_range(r0.cos_theta as int, r0.sin_theta as int, ray@.orig,
                        RAY_BOUND as int);
                    lemma_rot_in_range(r0.cos_theta as int, r0.sin_theta as int, ray@.dir,
                        RAY_BOUND as int);
                }
                let ro = rot_in(&r0, &ray.orig);
                let rd = rot_in(&r0, &ray.dir);
                let rotated = Ray::new(&ro, &rd, ray.tm);
                if ro.x > crate::fx::RAY_BOUND || ro.x < -crate::fx::RAY_BOUND || ro.y
                    > crate::fx::RAY_BOUND || ro.y < -crate::fx::RAY_BOUND || ro.z
                    > crate::fx::RAY_BOUND || ro.z < -crate::fx::RAY_BOUND || rd.x
                    > crate::fx::RAY_BOUND || rd.x < -crate::fx::RAY_BOUND || rd.y
                    > crate::fx::RAY_BOUND || rd.y < -crate::fx::RAY_BOUND || rd.z
                    > crate::fx::RAY_BOUND || rd.z < -crate::fx::RAY_BOUND {
                    return None;
                }
                match self.hit(inner, &rotated, t_min, t_max) {
                    None => None,
                    Some(rec0) => {
                        let mut rec = rec0;
                        proof {
                            lemma_rot_out_range(r0.cos_theta as int, r0.sin_theta as int,
                                rec0@.p, HIT_P_BOUND as int);
                            lemma_rot_out_range(r0.cos_theta as int, r0.sin_theta as int,
                                rec0@.normal, 0x8000_0000);
                        }
                        let rp = rot_out(&r0, &rec0.p);
                        let rn = rot_out(&r0, &rec0.normal);
                        rec.p = v3_clamp(&rp, HIT_P_BOUND);
                        let outward = v3_clamp(&rn, 0x8000_0000);
                        rec.set_face_normal(&rotated, &outward);
                        Some(rec)
                    },
                }
            },
            Surface::FlipFace(f) => {
                let inner = f.ptr;
                match self.hit(inner, ray, t_min, t_max) {
                    None => None,
                    Some(rec0) => {
                        let mut rec = rec0;
                        rec.front_face = !rec.front_face;
                        Some(rec)
                    },
                }
            },
            Surface::ConstantMedium(c) => {
                let cm = *c;
                self.medium_hit(&cm, idx, ray, t_min, t_max)
            },
            Surface::List(l) => {
                let ghost ns = self.surfaces@;
                let ghost objs = l.objects@;
                let mut closest: i64 = t_max;
                let mut best: Option<HitRecord> = None;
                let mut k: usize = 0;
                proof {
                    assert(objs.skip(0) =~= objs);
                }
                while k < l.objects.len()
                    invariant
                        set_wf(self),
                        idx < self.surfaces@.len(),
                        self.surfaces@[idx as int] == Surface::List(*l),
                        self.surfaces@ == ns,
                        l.objects@ == objs,
                        ray_in_range(ray@),
                        -T_MAX_FX <= t_min <= T_MAX_FX,
                        -T_MAX_FX <= t_max <= T_MAX_FX,
                        k <= objs.len(),
                        t_min <= closest <= t_max || (best is None && closest == t_max),
                        -T_MAX_FX <= closest <= T_MAX_FX,
                        hit_out_ok(best, self.materials@.len() as int, t_min as int,
                            t_max as int),
                        medium_free(ns, idx as int) ==> (match spec_hit_list(ns,
                            objs.skip(k as int), idx as int, ray@, t_min as int,
                            closest as int) {
                            Some(h2) => Some(h2),
                            None => opt_hit_view(best),
                        }) == spec_hit_list(ns, objs, idx as int, ray@, t_min as int,
                            t_max as int),
                        medium_free(ns, idx as int) ==> medium_free_list(ns,
                            objs.skip(k as int), idx as int),
                        medium_free(ns, idx as int) ==> (match best {
                            Some(b) => closest == b.t,
                            None => closest == t_max,
                        }),
                    decreases objs.len() - k,
                {
                    let child = l.objects[k];
                    proof {
                        assert(objs.skip(k as int)[0] == objs[k as int]);
                        assert((child as int) < idx as int);
                    }
                    let sub = self.hit(child, ray, t_min, closest);
                    proof {
                        assert(objs.skip(k as int).drop_first() =~= objs.skip(k as int + 1));
                    }
                    match sub {
                        Some(rec) => {
                            closest = rec.t;
                            best = Some(rec);
                        },
                        None => {},
                    }
                    k = k + 1;
                }
                proof {
                    assert(objs.skip(objs.len() as int) =~= Seq::<usize>::empty());
                }
                best
            },
            Surface::BvhNode(b) => {
                let node = *b;
                if !node.boox.hit(ray, t_min, t_max) {
                    return None;
                }
                let lres = self.hit(node.left, ray, t_min, t_max);
                let shrunk: i64 = match &lres {
                    Some(h) => h.t,
                    None => t_max,
                };
                let rres = self.hit(node.right, ray, t_min, shrunk);
                match rres {
                    Some(h) => Some(h),
                    None => lres,
                }
            },
        }
    }

    /// Scattering inside a constant-density medium: the two boundary
    /// crossings bracket a chord, and a random free-flight distance
    /// decides whether a scattering event happens inside it. The chord
    /// and the record's deterministic fields are pinned for every
    /// outcome; only whether the free flight ends inside the chord is
    /// left to the draw.
    fn medium_hit(&self, cm: &ConstantMedium, idx: usize, ray: &Ray, t_min: i64, t_max: i64)
        -> (res: Option<HitRecord>)
        requires
            set_wf(self),
            idx < self.surfaces@.len(),
            self.surfaces@[idx as int] == Surface::ConstantMedium(*cm),
            ray_in_range(ray@),
            -T_MAX_FX <= t_min <= T_MAX_FX,
            -T_MAX_FX <= t_max <= T_MAX_FX,
        ensures
            hit_out_ok(res, self.materials@.len() as int, t_min as int, t_max as int),
            match res {
                Some(rec) => rec.mat_ptr == cm.phase_function && rec.front_face
                    && rec@.normal == (V3 { x: SCALE as int, y: 0, z: 0 }) && rec.u == 0
                    && rec.v == 0 && rec@.p == crate::ray::ray_at_spec(ray@, rec.t as int),
                None => true,
            },
            medium_free(self.surfaces@, cm.boundary as int) ==> (match medium_chord_spec(
                self.surfaces@,
                cm.boundary as int,
                ray@,
                t_min as int,
                t_max as int,
            ) {
                None => res is None,
                Some(chord) => match res {
                    Some(rec) => chord.0 <= rec.t <= chord.1,
                    None => true,
                },
            }),
        decreases idx, 0int, 0int,
    {
        let boundary = cm.boundary;
        let rec1 = match self.hit(boundary, ray, -T_MAX_FX, T_MAX_FX) {
            None => {
                return None;
            },
            Some(r) => r,
        };
        if rec1.t + T_EPSILON > T_MAX_FX {
            return None;
        }
        let rec2 = match self.hit(boundary, ray, rec1.t + T_EPSILON, T_MAX_FX) {
            None => {
                return None;
            },
            Some(r) => r,
        };
        let mut t1 = rec1.t;
        let mut t2 = rec2.t;
        if t1 < t_min {
            t1 = t_min;
        }
        if t2 > t_max {
            t2 = t_max;
        }
        if t1 >= t2 {
            return None;
        }
        if t1 < 0 {
            t1 = 0;
        }
        if t1 >= t2 {
            return None;
        }
        let ray_length = ray.dir.length();
        if ray_length <= 0 {
            return None;
        }
        proof {
            assert(0 <= ((t2 - t1) as int) * (ray_length as int)
                <= 0x200_0000_0000int * 0x2_0000_0000) by (nonlinear_arith)
                requires
                    0 <= (t2 - t1) as int <= 0x200_0000_0000,
                    0 <= ray_length as int <= 0x2_0000_0000;
        }
        let dist_inside = floor_div_i128(
            ((t2 - t1) as i128) * (ray_length as i128),
            SCALE as i128,
        );
        let u = crate::rng::random_f() + 1;
        let neg_ln = crate::fx::neg_ln_unit(u);
        proof {
            crate::fx::lemma_div_bounds(neg_ln as int * (SCALE as int), cm.density as int);
            assert(0 <= neg_ln as int * (SCALE as int) <= 772242int * 65536)
                by (nonlinear_arith)
                requires 0 <= neg_ln as int <= 772242;
        }
        let hit_distance = crate::fx::fx_div(neg_ln, cm.density);
        if (hit_distance as i128) > dist_inside {
            return None;
        }
        proof {
            crate::fx::lemma_div_bounds(hit_distance as int * (SCALE as int),
                ray_length as int);
            assert(0 <= hit_distance as int * (SCALE as int)
                <= 0x4000_0000_0000_0000_0000) by (nonlinear_arith)
                requires 0 <= hit_distance as int <= 0x7fff_ffff_ffff;
        }
        let step = floor_div_i128((hit_distance as i128) * (SCALE as i128),
            ray_length as i128);
        let t_cand: i128 = (t1 as i128) + step;
        let t: i64 = if t_cand > t2 as i128 {
            t2
        } else {
            t_cand as i64
        };
        let p = ray.at(t);
        let mut rec = HitRecord {
            p,
            normal: Vec3::new(SCALE, 0, 0),
            mat_ptr: cm.phase_function,
            t,
            u: 0,
            v: 0,
            front_face: true,
        };
        Some(rec)
    }
}

/// View of an optional box.
pub open spec fn opt_box_view(o: Option<AABB>) -> Option<AabbV> {
    match o {
        Some(b) => Some(b@),
        None => None,
    }
}

impl SurfaceSet {
    /// The enclosing box over a time interval; exact against `spec_box`,
    /// and always within coordinate range when present.
    pub fn bounding_box(&self, idx: usize, time0: i64, time1: i64) -> (res: Option<AABB>)
        requires
            set_wf(self),
            idx < self.surfaces@.len(),
            -T_MAX_FX <= time0 <= T_MAX_FX,
            -T_MAX_FX <= time1 <= T_MAX_FX,
        ensures
            opt_box_view(res) == spec_box(self.surfaces@, idx as int, time0 as int,
                time1 as int),
            match res {
                Some(b) => aabb_in_range(b@),
                None => true,
            },
        decreases idx, 1int, 0int,
    {
        match &self.surfaces[idx] {
            Surface::Sphere(s) => {
                let sp = *s;
                Some(sp.bounding_box())
            },
            Surface::MovingSphere(m) => {
                let ms = *m;
                Some(ms.bounding_box(time0, time1))
            },
            Surface::XYRect(rc) => {
                let r2 = *rc;
                Some(r2.bounding_box())
            },
            Surface::XZRect(rc) => {
                let r2 = *rc;
                Some(r2.bounding_box())
            },
            Surface::YZRect(rc) => {
                let r2 = *rc;
                Some(r2.bounding_box())
            },
            Surface::BoxObject(b) => Some(AABB::new(&b.box_min, &b.box_max)),
            Surface::Translate(t) => {
                let off = t.offset;
                let inner = t.ptr;
                match self.bounding_box(inner, time0, time1) {
                    None => None,
                    Some(bx) => {
                        let mn = bx.minimum.plus(&off);
                        let mx = bx.maximum.plus(&off);
                        Some(
                            AABB {
                                minimum: v3_clamp(&mn, crate::aabb::BOX_BOUND),
                                maximum: v3_clamp(&mx, crate::aabb::BOX_BOUND),
                            },
                        )
                    },
                }
            },
            Surface::RotateY(rt) => {
                if rt.hasbox {
                    Some(rt.bbox)
                } else {
                    None
                }
            },
            Surface::FlipFace(f) => {
                let inner = f.ptr;
                self.bounding_box(inner, time0, time1)
            },
            Surface::ConstantMedium(c) => {
                let inner = c.boundary;
                self.bounding_box(inner, time0, time1)
            },
            Surface::List(l) => {
                let ghost ns = self.surfaces@;
                let ghost objs = l.objects@;
                if l.objects.len() == 0 {
                    return None;
                }
                let first = l.objects[0];
                proof {
                    assert((first as int) < idx as int);
                }
                let mut out = match self.bounding_box(first, time0, time1) {
                    None => {
                        return None;
                    },
                    Some(b0) => b0,
                };
                let mut k: usize = 1;
                proof {
                    assert(objs.skip(1) =~= objs.drop_first());
                }
                while k < l.objects.len()
                    invariant
                        set_wf(self),
                        idx < self.surfaces@.len(),
                        self.surfaces@[idx as int] == Surface::List(*l),
                        self.surfaces@ == ns,
                        l.objects@ == objs,
                        -T_MAX_FX <= time0 <= T_MAX_FX,
                        -T_MAX_FX <= time1 <= T_MAX_FX,
                        1 <= k <= objs.len(),
                        aabb_in_range(out@),
                        spec_box_list(ns, objs.skip(k as int), idx as int, time0 as int,
                            time1 as int, out@) == spec_box(ns, idx as int, time0 as int,
                            time1 as int),
                    decreases objs.len() - k,
                {
                    let child = l.objects[k];
                    proof {
                        assert(objs.skip(k as int)[0] == objs[k as int]);
                        assert((child as int) < idx as int);
                        assert(objs.skip(k as int).drop_first() =~= objs.skip(k as int + 1));
                    }
                    match self.bounding_box(child, time0, time1) {
                        None => {
                            return None;
                        },
                        Some(cb) => {
                            out = surrounding_box(&out, &cb);
                        },
                    }
                    k = k + 1;
                }
                proof {
                    assert(objs.skip(objs.len() as int) =~= Seq::<usize>::empty());
                }
                Some(out)
            },
            Surface::BvhNode(b) => Some(b.boox),
        }
    }

    /// One rotated, saturated corner of a box: corner `m` picks the
    /// maximum on an axis when the matching bit of `m` is set.
    pub open spec fn rotated_corner_spec(bx: AabbV, c: int, s: int, m: int) -> V3 {
        let p = V3 {
            x: if m % 2 == 1 {
                bx.maximum.x
            } else {
                bx.minimum.x
            },
            y: if (m / 2) % 2 == 1 {
                bx.maximum.y
            } else {
                bx.minimum.y
            },
            z: if (m / 4) % 2 == 1 {
                bx.maximum.z
            } else {
                bx.minimum.z
            },
        };
        v3_clamp_spec(rot_out_spec(c, s, p), BOX_BOUND as int)
    }

    /// The envelope of the first `m` rotated corners, grown from the
    /// saturating extremes.
    pub open spec fn rotate_envelope_spec(bx: AabbV, c: int, s: int, m: int) -> (V3, V3)
        decreases m,
    {
        if m <= 0 {
            (
                V3 {
                    x: BOX_BOUND as int,
                    y: BOX_BOUND as int,
                    z: BOX_BOUND as int,
                },
                V3 {
                    x: -(BOX_BOUND as int),
                    y: -(BOX_BOUND as int),
                    z: -(BOX_BOUND as int),
                },
            )
        } else {
            let prev = Self::rotate_envelope_spec(bx, c, s, m - 1);
            let t = Self::rotated_corner_spec(bx, c, s, m - 1);
            (
                V3 {
                    x: if prev.0.x < t.x {
                        prev.0.x
                    } else {
                        t.x
                    },
                    y: if prev.0.y < t.y {
                        prev.0.y
                    } else {
                        t.y
                    },
                    z: if prev.0.z < t.z {
                        prev.0.z
                    } else {
                        t.z
                    },
                },
                V3 {
                    x: if prev.1.x > t.x {
                        prev.1.x
                    } else {
                        t.x
                    },
                    y: if prev.1.y > t.y {
                        prev.1.y
                    } else {
                        t.y
                    },
                    z: if prev.1.z > t.z {
                        prev.1.z
                    } else {
                        t.z
                    },
                },
            )
        }
    }

    /// Rotate an existing surface about the vertical axis by an angle in
    /// turns; computes the world-space box by rotating the inner box's
    /// corners and taking their envelope, as the construction-time step
    /// of the decorator. The contract pins the pushed node: its child,
    /// the sine and cosine of the wrapped angle, and the corner
    /// envelope of the inner box (or the absence of one).
    pub fn add_rotate_y(&mut self, ptr: usize, angle_turns: i64) -> (id: usize)
        requires
            set_wf(old(self)),
            ptr < old(self).surfaces@.len(),
        ensures
            set_wf(final(self)),
            id == old(self).surfaces@.len(),
            final(self).surfaces@.len() == old(self).surfaces@.len() + 1,
            final(self).materials@ == old(self).materials@,
            forall|i: int|
                0 <= i < old(self).surfaces@.len() ==> final(self).surfaces@[i] == old(
                    self,
                ).surfaces@[i],
            ({
                let wrapped = angle_turns as int % (SCALE as int);
                let c = crate::fx::cos_turns_spec(wrapped);
                let s = crate::fx::sin_turns_spec(wrapped);
                match final(self).surfaces@[id as int] {
                    Surface::RotateY(rt) => rt.ptr == ptr && rt.sin_theta == s
                        && rt.cos_theta == c && (match spec_box(
                        old(self).surfaces@,
                        ptr as int,
                        0,
                        SCALE as int,
                    ) {
                        Some(bx) => {
                            let env = Self::rotate_envelope_spec(bx, c, s, 8);
                            rt.hasbox && rt.bbox@.minimum == env.0 && rt.bbox@.maximum
                                == env.1
                        },
                        None => !rt.hasbox,
                    }),
                    _ => false,
                }
            }),
    {
        let turns = crate::fx::wrap_turns(angle_turns);
        let sin_theta = crate::fx::sin_turns(turns);
        let cos_theta = crate::fx::cos_turns(turns);
        let inner_box = self.bounding_box(ptr, 0, SCALE);
        let (hasbox, bbox) = match inner_box {
            None => (
                false,
                AABB::new(&Vec3::zero(), &Vec3::zero()),
            ),
            Some(bx) => {
                let mut mn = Vec3::new(crate::aabb::BOX_BOUND, crate::aabb::BOX_BOUND,
                    crate::aabb::BOX_BOUND);
                let mut mx = Vec3::new(-crate::aabb::BOX_BOUND, -crate::aabb::BOX_BOUND,
                    -crate::aabb::BOX_BOUND);
                let mut corner: usize = 0;
                while corner < 8
                    invariant
                        in_range(mn@, crate::aabb::BOX_BOUND as int),
                        in_range(mx@, crate::aabb::BOX_BOUND as int),
                        aabb_in_range(bx@),
                        -SCALE <= sin_theta <= SCALE,
                        -SCALE <= cos_theta <= SCALE,
                        corner <= 8,
                        (mn@, mx@) == Self::rotate_envelope_spec(bx@, cos_theta as int,
                            sin_theta as int, corner as int),
                    decreases 8 - corner,
                {
                    let cx = if corner % 2 == 1 {
                        bx.maximum.x
                    } else {
                        bx.minimum.x
                    };
                    let cy = if (corner / 2) % 2 == 1 {
                        bx.maximum.y
                    } else {
                        bx.minimum.y
                    };
                    let cz = if (corner / 4) % 2 == 1 {
                        bx.maximum.z
                    } else {
                        bx.minimum.z
                    };
                    let rt_tmp = RotateY {
                        ptr,
                        sin_theta,
                        cos_theta,
                        hasbox: false,
                        bbox: AABB::new(&Vec3::zero(), &Vec3::zero()),
                    };
                    proof {
                        lemma_rot_in_range(cos_theta as int, sin_theta as int,
                            V3 { x: cx as int, y: cy as int, z: cz as int },
                            crate::aabb::BOX_BOUND as int);
                    }
                    let rc = rot_out(&rt_tmp, &Vec3::new(cx, cy, cz));
                    let tester = v3_clamp(&rc, crate::aabb::BOX_BOUND);
                    mn = Vec3::new(
                        crate::fx::fmin(mn.x, tester.x),
                        crate::fx::fmin(mn.y, tester.y),
                        crate::fx::fmin(mn.z, tester.z),
                    );
                    mx = Vec3::new(
                        crate::fx::fmax(mx.x, tester.x),
                        crate::fx::fmax(mx.y, tester.y),
                        crate::fx::fmax(mx.z, tester.z),
                    );
                    corner = corner + 1;
                }
                (true, AABB::new(&mn, &mx))
            },
        };
        let node = RotateY { ptr, sin_theta, cos_theta, hasbox, bbox };
        self.push_surface(Surface::RotateY(node))
    }

    /// Assemble a closed box from six rectangles: the rectangles and the
    /// list holding them enter the arena first, then the box node. The
    /// contract pins every pushed node: the six faces of the cuboid with
    /// this material, the list over exactly those six, and the box node
    /// over the given corners.
    pub fn add_box(&mut self, p0: &Point3, p1: &Point3, mat: usize) -> (id: usize)
        requires
            set_wf(old(self)),
            mat < old(self).materials@.len(),
            in_range(p0@, COORD_BOUND as int),
            in_range(p1@, COORD_BOUND as int),
            p0@.x < p1@.x,
            p0@.y < p1@.y,
            p0@.z < p1@.z,
        ensures
            set_wf(final(self)),
            final(self).materials@ == old(self).materials@,
            id < final(self).surfaces@.len(),
            id == old(self).surfaces@.len() + 7,
            final(self).surfaces@.len() == old(self).surfaces@.len() + 8,
            forall|i: int|
                0 <= i < old(self).surfaces@.len() ==> final(self).surfaces@[i] == old(
                    self,
                ).surfaces@[i],
            ({
                let nsf = final(self).surfaces@;
                let base = old(self).surfaces@.len() as int;
                &&& nsf[base] == Surface::XYRect(
                    XYRect { mp: mat, x0: p0.x, x1: p1.x, y0: p0.y, y1: p1.y, k: p1.z },
                )
                &&& nsf[base + 1] == Surface::XYRect(
                    XYRect { mp: mat, x0: p0.x, x1: p1.x, y0: p0.y, y1: p1.y, k: p0.z },
                )
                &&& nsf[base + 2] == Surface::XZRect(
                    XZRect { mp: mat, x0: p0.x, x1: p1.x, z0: p0.z, z1: p1.z, k: p1.y },
                )
                &&& nsf[base + 3] == Surface::XZRect(
                    XZRect { mp: mat, x0: p0.x, x1: p1.x, z0: p0.z, z1: p1.z, k: p0.y },
                )
                &&& nsf[base + 4] == Surface::YZRect(
                    YZRect { mp: mat, y0: p0.y, y1: p1.y, z0: p0.z, z1: p1.z, k: p1.x },
                )
                &&& nsf[base + 5] == Surface::YZRect(
                    YZRect { mp: mat, y0: p0.y, y1: p1.y, z0: p0.z, z1: p1.z, k: p0.x },
                )
                &&& (match nsf[base + 6] {
                    Surface::List(l) => l.objects@ =~= seq![
                        base as usize,
                        (base + 1) as usize,
                        (base + 2) as usize,
                        (base + 3) as usize,
                        (base + 4) as usize,
                        (base + 5) as usize,
                    ],
                    _ => false,
                })
                &&& nsf[id as int] == Surface::BoxObject(
                    BoxObject { box_min: *p0, box_max: *p1, slides: (base + 6) as usize },
                )
            }),
    {
        let s1 = self.push_surface(
            Surface::XYRect(crate::arrect::XYRect::new(p0.x, p1.x, p0.y, p1.y, p1.z, mat)),
        );
        let s2 = self.push_surface(
            Surface::XYRect(crate::arrect::XYRect::new(p0.x, p1.x, p0.y, p1.y, p0.z, mat)),
        );
        let s3 = self.push_surface(
            Surface::XZRect(crate::arrect::XZRect::new(p0.x, p1.x, p0.z, p1.z, p1.y, mat)),
        );
        let s4 = self.push_surface(
            Surface::XZRect(crate::arrect::XZRect::new(p0.x, p1.x, p0.z, p1.z, p0.y, mat)),
        );
        let s5 = self.push_surface(
            Surface::YZRect(crate::arrect::YZRect::new(p0.y, p1.y, p0.z, p1.z, p1.x, mat)),
        );
        let s6 = self.push_surface(
            Surface::YZRect(crate::arrect::YZRect::new(p0.y, p1.y, p0.z, p1.z, p0.x, mat)),
        );
        let mut slides = HittableList::new();
        slides.add(s1);
        slides.add(s2);
        slides.add(s3);
        slides.add(s4);
        slides.add(s5);
        slides.add(s6);
        let lid = self.push_surface(Surface::List(slides));
        self.push_surface(
            Surface::BoxObject(crate::arrect::BoxObject::new(*p0, *p1, lid)),
        )
    }
}

/// The sampling density a surface assigns to the direction `v` from the
/// origin `o`: meaningful for light-shaped surfaces (the sphere and the
/// horizontal rectangle), averaged over lists, carried through the
/// translation and rotation decorators, zero elsewhere.
pub open spec fn spec_pdf_value(ns: Seq<Surface>, idx: int, o: V3, v: V3) -> int
    decreases idx, 1int, 0int,
{
    if 0 <= idx < ns.len() {
        match ns[idx] {
            Surface::Sphere(s) => crate::sphere::sphere_pdf_spec(
                s.center@,
                s.radius as int,
                s.mat_ptr as int,
                o,
                v,
            ),
            Surface::XZRect(rc) => crate::arrect::xz_pdf_spec(&rc, o, v),
            Surface::Translate(t) => if (t.ptr as int) < idx {
                let o2 = v3_sub(o, t.offset@);
                if in_range(o2, RAY_BOUND as int) {
                    spec_pdf_value(ns, t.ptr as int, o2, v)
                } else {
                    0
                }
            } else {
                0
            },
            Surface::RotateY(rt) => if (rt.ptr as int) < idx {
                let o2 = rot_in_spec(rt.cos_theta as int, rt.sin_theta as int, o);
                let v2 = rot_in_spec(rt.cos_theta as int, rt.sin_theta as int, v);
                if in_range(o2, RAY_BOUND as int) && in_range(v2, RAY_BOUND as int) {
                    spec_pdf_value(ns, rt.ptr as int, o2, v2)
                } else {
                    0
                }
            } else {
                0
            },
            Surface::List(l) => if l.objects@.len() == 0 {
                0
            } else {
                spec_pdf_list(ns, l.objects@, idx, o, v, (SCALE as int) / (
                l.objects@.len() as int), 0)
            },
            _ => 0,
        }
    } else {
        0
    }
}

/// Fold the children's densities, each weighted by the reciprocal count,
/// saturating the accumulator.
pub open spec fn spec_pdf_list(
    ns: Seq<Surface>,
    objs: Seq<usize>,
    bound: int,
    o: V3,
    v: V3,
    w: int,
    acc: int,
) -> int
    decreases bound, 0int, objs.len(),
{
    if objs.len() == 0 {
        acc
    } else {
        let pv = if (objs[0] as int) < bound && bound >= 0 {
            spec_pdf_value(ns, objs[0] as int, o, v)
        } else {
            0
        };
        let acc2 = clamp_spec(acc + fx_mul_spec(pv, w), 0, 0x4000_0000_0000_0000);
        spec_pdf_list(ns, objs.drop_first(), bound, o, v, w, acc2)
    }
}

impl SurfaceSet {
    /// The sampling density toward the surface at `idx`; exact against
    /// `spec_pdf_value` and never negative.
    pub fn pdf_value(&self, idx: usize, o: &Point3, v: &Vec3) -> (pdf: i64)
        requires
            set_wf(self),
            idx < self.surfaces@.len(),
            in_range(o@, RAY_BOUND as int),
            in_range(v@, RAY_BOUND as int),
        ensures
            pdf == spec_pdf_value(self.surfaces@, idx as int, o@, v@),
            0 <= pdf <= 0x4000_0000_0000_0000,
        decreases idx, 1int, 0int,
    {
        match &self.surfaces[idx] {
            Surface::Sphere(s) => {
                let sp = *s;
                sp.pdf_value(o, v)
            },
            Surface::XZRect(rc) => {
                let r2 = *rc;
                r2.pdf_value(o, v)
            },
            Surface::Translate(t) => {
                let off = t.offset;
                let inner = t.ptr;
                let o2 = o.minus(&off);
                if o2.x > crate::fx::RAY_BOUND || o2.x < -crate::fx::RAY_BOUND || o2.y
                    > crate::fx::RAY_BOUND || o2.y < -crate::fx::RAY_BOUND || o2.z
                    > crate::fx::RAY_BOUND || o2.z < -crate::fx::RAY_BOUND {
                    return 0;
                }
                self.pdf_value(inner, &o2, v)
            },
            Surface::RotateY(rt) => {
                let r0 = *rt;
                let inner = r0.ptr;
                proof {
                    lemma_rot_in_range(r0.cos_theta as int, r0.sin_theta as int, o@,
                        RAY_BOUND as int);
                    lemma_rot_in_range(r0.cos_theta as int, r0.sin_theta as int, v@,
                        RAY_BOUND as int);
                }
                let o2 = rot_in(&r0, o);
                let v2 = rot_in(&r0, v);
                if o2.x > crate::fx::RAY_BOUND || o2.x < -crate::fx::RAY_BOUND || o2.y
                    > crate::fx::RAY_BOUND || o2.y < -crate::fx::RAY_BOUND || o2.z
                    > crate::fx::RAY_BOUND || o2.z < -crate::fx::RAY_BOUND || v2.x
                    > crate::fx::RAY_BOUND || v2.x < -crate::fx::RAY_BOUND || v2.y
                    > crate::fx::RAY_BOUND || v2.y < -crate::fx::RAY_BOUND || v2.z
                    > crate::fx::RAY_BOUND || v2.z < -crate::fx::RAY_BOUND {
                    return 0;
                }
                self.pdf_value(inner, &o2, &v2)
            },
            Surface::List(l) => {
                let ghost ns = self.surfaces@;
                let ghost objs = l.objects@;
                if l.objects.len() == 0 {
                    return 0;
                }
                let w = floor_div_i128(SCALE as i128, l.objects.len() as i128) as i64;
                proof {
                    crate::fx::lemma_div_bounds(SCALE as int, l.objects@.len() as int);
                    assert(objs.skip(0) =~= objs);
                    assert(node_wf(&self.surfaces@[idx as int], idx as int,
                        self.materials@.len() as int));
                    assert forall|kk: int|
                        0 <= kk < objs.len() implies ((#[trigger] objs[kk]) as int)
                        < idx as int by {
                        assert(l.objects@[kk] == objs[kk]);
                    }
                }
                let mut sum: i64 = 0;
                let mut k: usize = 0;
                while k < l.objects.len()
                    invariant
                        set_wf(self),
                        idx < self.surfaces@.len(),
                        self.surfaces@[idx as int] == Surface::List(*l),
                        self.surfaces@ == ns,
                        l.objects@ == objs,
                        objs.len() >= 1,
                        in_range(o@, RAY_BOUND as int),
                        in_range(v@, RAY_BOUND as int),
                        k <= objs.len(),
                        0 <= w <= SCALE,
                        0 <= sum <= 0x4000_0000_0000_0000,
                        forall|kk: int|
                            0 <= kk < objs.len() ==> ((#[trigger] objs[kk]) as int)
                                < idx as int,
                        spec_pdf_list(ns, objs.skip(k as int), idx as int, o@, v@, w as int,
                            sum as int) == spec_pdf_list(ns, objs, idx as int, o@, v@,
                            w as int, 0),
                    decreases objs.len() - k,
                {
                    let child = l.objects[k];
                    proof {
                        assert(node_wf(&ns[idx as int], idx as int,
                            self.materials@.len() as int));
                        assert(ns[idx as int] == Surface::List(*l));
                        assert((l.objects@[k as int] as int) < idx as int);
                        assert(objs.skip(k as int)[0] == objs[k as int]);
                        assert((child as int) < idx as int);
                        assert(objs.skip(k as int).drop_first() =~= objs.skip(k as int + 1));
                    }
                    let pv = self.pdf_value(child, o, v);
                    proof {
                        crate::vec3::lemma_prod_bound(pv as int, w as int,
                            0x4000_0000_0000_0000, 65536int);
                        lemma_div_range(pv as int * (w as int),
                            0x4000_0000_0000_0000_0000, SCALE as int);
                        assert(0 <= pv as int * (w as int)) by (nonlinear_arith)
                            requires 0 <= pv as int && 0 <= w as int;
                        lemma_div_pos_is_pos(pv as int * (w as int), SCALE as int);
                    }
                    let step = crate::fx::fx_mul(pv, w);
                    let cand: i128 = (sum as i128) + (step as i128);
                    sum = if cand < 0 {
                        0
                    } else if cand > 0x4000_0000_0000_0000i128 {
                        0x4000_0000_0000_0000
                    } else {
                        cand as i64
                    };
                    k = k + 1;
                }
                proof {
                    assert(objs.skip(objs.len() as int) =~= Seq::<usize>::empty());
                }
                sum
            },
            _ => 0,
        }
    }

    /// A direction sampled toward the surface at `idx`, within bounds
    /// for every draw; a rectangle's sample always reaches the
    /// rectangle. Surfaces without a sampling rule give a fixed unit
    /// direction.
    pub fn random(&self, idx: usize, o: &Point3) -> (dir: Vec3)
        requires
            set_wf(self),
            idx < self.surfaces@.len(),
            in_range(o@, RAY_BOUND as int),
        ensures
            in_range(dir@, 0x4000_0000),
            match self.surfaces@[idx as int] {
                Surface::XZRect(rc) => dir@.y == rc.k - o@.y && rc.x0 <= o@.x + dir@.x
                    <= rc.x1 && rc.z0 <= o@.z + dir@.z <= rc.z1,
                _ => true,
            },
        decreases idx, 1int, 0int,
    {
        match &self.surfaces[idx] {
            Surface::Sphere(s) => {
                let sp = *s;
                sp.random(o)
            },
            Surface::XZRect(rc) => {
                let r2 = *rc;
                r2.random(o)
            },
            Surface::Translate(t) => {
                let off = t.offset;
                let inner = t.ptr;
                let o2 = o.minus(&off);
                if o2.x > crate::fx::RAY_BOUND || o2.x < -crate::fx::RAY_BOUND || o2.y
                    > crate::fx::RAY_BOUND || o2.y < -crate::fx::RAY_BOUND || o2.z
                    > crate::fx::RAY_BOUND || o2.z < -crate::fx::RAY_BOUND {
                    return Vec3::new(SCALE, 0, 0);
                }
                self.random(inner, &o2)
            },
            Surface::RotateY(rt) => {
                let r0 = *rt;
                let inner = r0.ptr;
                proof {
                    lemma_rot_in_range(r0.cos_theta as int, r0.sin_theta as int, o@,
                        RAY_BOUND as int);
                }
                let o2 = rot_in(&r0, o);
                if o2.x > crate::fx::RAY_BOUND || o2.x < -crate::fx::RAY_BOUND || o2.y
                    > crate::fx::RAY_BOUND || o2.y < -crate::fx::RAY_BOUND || o2.z
                    > crate::fx::RAY_BOUND || o2.z < -crate::fx::RAY_BOUND {
                    return Vec3::new(SCALE, 0, 0);
                }
                let d = self.random(inner, &o2);
                proof {
                    lemma_rot_out_range(r0.cos_theta as int, r0.sin_theta as int, d@,
                        0x4000_0000);
                }
                let back = rot_out(&r0, &d);
                v3_clamp(&back, 0x4000_0000)
            },
            Surface::List(l) => {
                if l.objects.len() == 0 || l.objects.len() > 65535 {
                    return Vec3::new(SCALE, 0, 0);
                }
                let pick = random_u_m_local(l.objects.len());
                let child = l.objects[pick];
                proof {
                    assert(node_wf(&self.surfaces@[idx as int], idx as int,
                        self.materials@.len() as int));
                    assert((child as int) < idx as int);
                }
                self.random(child, o)
            },
            _ => Vec3::new(SCALE, 0, 0),
        }
    }
}

/// A uniform index below the given length.
fn random_u_m_local(len: usize) -> (r: usize)
    requires
        1 <= len <= 65535,
    ensures
        r < len,
{
    crate::rng::random_u_m(0, len as u16) as usize
}

/// The round trip of translations: a surface translated by an offset and
/// back intersects exactly as the surface itself, for every ray whose
/// shifted forms stay in range, whenever the inner hit is a front-face
/// record with a strictly opposing normal and an in-range point. (A
/// grazing or back-face record is re-oriented by each decorator layer,
/// so its face flag need not survive the trip.)
pub proof fn lemma_translate_round_trip(
    ns: Seq<Surface>,
    outer: int,
    inner: int,
    target: int,
    t_out: Translate,
    t_in: Translate,
    r: RayV,
    tmin: int,
    tmax: int,
)
    requires
        0 <= target < inner < outer < ns.len(),
        ns[outer] == Surface::Translate(t_out),
        ns[inner] == Surface::Translate(t_in),
        t_out.ptr == inner,
        t_in.ptr == target,
        t_out.offset@ == v3_neg(t_in.offset@),
        ray_in_range(r),
        ray_in_range(moved_ray_spec(r, t_out.offset@)),
        match spec_hit(ns, target, r, tmin, tmax) {
            Some(h) => h.front_face && dot_spec(r.dir, h.normal) < 0 && in_range(
                h.p,
                HIT_P_BOUND as int - COORD_BOUND as int,
            ) && in_range(t_in.offset@, COORD_BOUND as int),
            None => true,
        },
    ensures
        spec_hit(ns, outer, r, tmin, tmax) == spec_hit(ns, target, r, tmin, tmax),
{
    let moved1 = moved_ray_spec(r, t_out.offset@);
    let moved2 = moved_ray_spec(moved1, t_in.offset@);
    assert(moved2 == r);
    assert(ray_in_range(moved2));
    match spec_hit(ns, target, r, tmin, tmax) {
        None => {
            assert(spec_hit(ns, inner, moved1, tmin, tmax) is None);
        },
        Some(h) => {
            let h1 = HitV { p: v3_clamp_spec(v3_add(h.p, t_in.offset@), HIT_P_BOUND as int),
                ..h };
            assert(v3_clamp_spec(v3_add(h.p, t_in.offset@), HIT_P_BOUND as int) == v3_add(
                h.p,
                t_in.offset@,
            ));
            assert(dot_spec(moved2.dir, h.normal) < 0);
            assert(spec_hit(ns, inner, moved1, tmin, tmax) == Some(
                set_face_normal_spec(h1, moved2, h.normal),
            ));
            let h1f = set_face_normal_spec(h1, moved2, h.normal);
            assert(h1f.normal == h.normal && h1f.front_face == h.front_face);
            let h2 = HitV {
                p: v3_clamp_spec(v3_add(h1f.p, t_out.offset@), HIT_P_BOUND as int),
                ..h1f
            };
            assert(v3_add(v3_add(h.p, t_in.offset@), t_out.offset@) == h.p);
            assert(h2.p == h.p);
            let h2f = set_face_normal_spec(h2, moved1, h1f.normal);
            assert(spec_hit(ns, outer, r, tmin, tmax) == Some(h2f));
            assert(h2f == h);
        },
    }
}

/// A surface's box does not depend on arena entries above it: extending
/// the arena preserves it.
pub proof fn lemma_spec_box_prefix(ns1: Seq<Surface>, ns2: Seq<Surface>, idx: int, t0: int,
    t1: int)
    requires
        0 <= idx < ns1.len(),
        ns1.len() <= ns2.len(),
        forall|i: int| 0 <= i < ns1.len() ==> ns2[i] == ns1[i],
    ensures
        spec_box(ns2, idx, t0, t1) == spec_box(ns1, idx, t0, t1),
    decreases idx, 1int, 0int,
{
    match ns1[idx] {
        Surface::BoxObject(b) => {
            if (b.slides as int) < idx {
                lemma_spec_box_prefix(ns1, ns2, b.slides as int, t0, t1);
            }
        },
        Surface::Translate(t) => {
            if (t.ptr as int) < idx {
                lemma_spec_box_prefix(ns1, ns2, t.ptr as int, t0, t1);
            }
        },
        Surface::FlipFace(f) => {
            if (f.ptr as int) < idx {
                lemma_spec_box_prefix(ns1, ns2, f.ptr as int, t0, t1);
            }
        },
        Surface::ConstantMedium(c) => {
            if (c.boundary as int) < idx {
                lemma_spec_box_prefix(ns1, ns2, c.boundary as int, t0, t1);
            }
        },
        Surface::List(l) => {
            if l.objects@.len() > 0 {
                if (l.objects@[0] as int) < idx {
                    lemma_spec_box_prefix(ns1, ns2, l.objects@[0] as int, t0, t1);
                    match spec_box(ns1, l.objects@[0] as int, t0, t1) {
                        None => {},
                        Some(b0) => {
                            lemma_spec_box_list_prefix(ns1, ns2, l.objects@.drop_first(),
                                idx, t0, t1, b0);
                        },
                    }
                }
            }
        },
        _ => {},
    }
}

pub proof fn lemma_spec_box_list_prefix(
    ns1: Seq<Surface>,
    ns2: Seq<Surface>,
    objs: Seq<usize>,
    bound: int,
    t0: int,
    t1: int,
    acc: AabbV,
)
    requires
        0 <= bound <= ns1.len(),
        ns1.len() <= ns2.len(),
        forall|i: int| 0 <= i < ns1.len() ==> ns2[i] == ns1[i],
    ensures
        spec_box_list(ns2, objs, bound, t0, t1, acc) == spec_box_list(ns1, objs, bound, t0,
            t1, acc),
    decreases bound, 0int, objs.len(),
{
    if objs.len() > 0 {
        if (objs[0] as int) < bound {
            lemma_spec_box_prefix(ns1, ns2, objs[0] as int, t0, t1);
            match spec_box(ns1, objs[0] as int, t0, t1) {
                None => {},
                Some(b) => {
                    lemma_spec_box_list_prefix(ns1, ns2, objs.drop_first(), bound, t0, t1,
                        merge_spec(acc, b));
                },
            }
        }
    }
}

/// The clamped chord a ray cuts through a medium's boundary: the two
/// boundary crossings, pulled into the query interval and the forward
/// half-line, or nothing when no such chord survives.
pub open spec fn medium_chord_spec(ns: Seq<Surface>, b: int, r: RayV, t_min: int, t_max: int)
    -> Option<(int, int)> {
    match spec_hit(ns, b, r, -(T_MAX_FX as int), T_MAX_FX as int) {
        None => None,
        Some(h1) => if h1.t + T_EPSILON as int > T_MAX_FX as int {
            None
        } else {
            match spec_hit(ns, b, r, h1.t + T_EPSILON as int, T_MAX_FX as int) {
                None => None,
                Some(h2) => {
                    let t1a = if h1.t < t_min {
                        t_min
                    } else {
                        h1.t
                    };
                    let t2a = if h2.t > t_max {
                        t_max
                    } else {
                        h2.t
                    };
                    if t1a >= t2a {
                        None
                    } else {
                        let t1b = if t1a < 0 {
                            0
                        } else {
                            t1a
                        };
                        if t1b >= t2a {
                            None
                        } else {
                            Some((t1b, t2a))
                        }
                    }
                },
            }
        },
    }
}

/// Appending materials cannot invalidate a node.
proof fn lemma_node_wf_more_mats(s: &Surface, idx: int, n0: int, n1: int)
    requires
        node_wf(s, idx, n0),
        n0 <= n1,
    ensures
        node_wf(s, idx, n1),
{
}

/// Rotation of an in-range vector stays within twice the range.
proof fn lemma_rot_in_range(c: int, s: int, v: V3, b: int)
    requires
        -(SCALE as int) <= c <= SCALE as int,
        -(SCALE as int) <= s <= SCALE as int,
        in_range(v, b),
        0 <= b <= 0x100_0000_0000_0000,
    ensures
        -0x100_0000_0000_0000_0000 <= c * v.x <= 0x100_0000_0000_0000_0000,
        -0x100_0000_0000_0000_0000 <= s * v.x <= 0x100_0000_0000_0000_0000,
        -0x100_0000_0000_0000_0000 <= c * v.z <= 0x100_0000_0000_0000_0000,
        -0x100_0000_0000_0000_0000 <= s * v.z <= 0x100_0000_0000_0000_0000,
        in_range(rot_in_spec(c, s, v), 2 * b + 2),
        in_range(rot_out_spec(c, s, v), 2 * b + 2),
{
    assert(-(65536int * b) <= c * v.x <= 65536int * b && -(65536int * b) <= s * v.x
        <= 65536int * b && -(65536int * b) <= c * v.z <= 65536int * b && -(65536int * b) <= s
        * v.z <= 65536int * b) by (nonlinear_arith)
        requires
            -65536 <= c <= 65536,
            -65536 <= s <= 65536,
            -b <= v.x <= b,
            -b <= v.z <= b,
            0 <= b;
    assert(65536int * b <= 0x100_0000_0000_0000_0000) by (nonlinear_arith)
        requires 0 <= b <= 0x100_0000_0000_0000;
    lemma_div_range(c * v.x, 65536int * b, SCALE as int);
    lemma_div_range(s * v.x, 65536int * b, SCALE as int);
    lemma_div_range(c * v.z, 65536int * b, SCALE as int);
    lemma_div_range(s * v.z, 65536int * b, SCALE as int);
    assert((65536int * b) / 65536int == b) by (nonlinear_arith)
        requires 0 <= b;
}

proof fn lemma_rot_out_range(c: int, s: int, v: V3, b: int)
    requires
        -(SCALE as int) <= c <= SCALE as int,
        -(SCALE as int) <= s <= SCALE as int,
        in_range(v, b),
        0 <= b <= 0x100_0000_0000_0000,
    ensures
        -0x100_0000_0000_0000_0000 <= c * v.x <= 0x100_0000_0000_0000_0000,
        -0x100_0000_0000_0000_0000 <= s * v.x <= 0x100_0000_0000_0000_0000,
        -0x100_0000_0000_0000_0000 <= c * v.z <= 0x100_0000_0000_0000_0000,
        -0x100_0000_0000_0000_0000 <= s * v.z <= 0x100_0000_0000_0000_0000,
        in_range(rot_out_spec(c, s, v), 2 * b + 2),
{
    lemma_rot_in_range(c, s, v, b);
}

/// Rotate into object space, executable.
fn rot_in(rt: &RotateY, v: &Vec3) -> (r: Vec3)
    requires
        -SCALE <= rt.sin_theta <= SCALE,
        -SCALE <= rt.cos_theta <= SCALE,
        -0x100_0000_0000_0000_0000 <= rt.cos_theta as int * v@.x
            <= 0x100_0000_0000_0000_0000,
        -0x100_0000_0000_0000_0000 <= rt.sin_theta as int * v@.x
            <= 0x100_0000_0000_0000_0000,
        -0x100_0000_0000_0000_0000 <= rt.cos_theta as int * v@.z
            <= 0x100_0000_0000_0000_0000,
        -0x100_0000_0000_0000_0000 <= rt.sin_theta as int * v@.z
            <= 0x100_0000_0000_0000_0000,
    ensures
        r@ == rot_in_spec(rt.cos_theta as int, rt.sin_theta as int, v@),
{
    proof {
        lemma_div_range(rt.cos_theta as int * v@.x, 0x100_0000_0000_0000_0000, SCALE as int);
        lemma_div_range(rt.sin_theta as int * v@.x, 0x100_0000_0000_0000_0000, SCALE as int);
        lemma_div_range(rt.cos_theta as int * v@.z, 0x100_0000_0000_0000_0000, SCALE as int);
        lemma_div_range(rt.sin_theta as int * v@.z, 0x100_0000_0000_0000_0000, SCALE as int);
        vstd::arithmetic::div_mod::lemma_div_multiples_vanish(0x100_0000_0000_0000int,
            65536int);
        assert(65536int * 0x100_0000_0000_0000int == 0x100_0000_0000_0000_0000int);
    }
    Vec3::new(
        fx_mul(rt.cos_theta, v.x) - fx_mul(rt.sin_theta, v.z),
        v.y,
        fx_mul(rt.sin_theta, v.x) + fx_mul(rt.cos_theta, v.z),
    )
}

/// Rotate back into world space, executable.
fn rot_out(rt: &RotateY, v: &Vec3) -> (r: Vec3)
    requires
        -SCALE <= rt.sin_theta <= SCALE,
        -SCALE <= rt.cos_theta <= SCALE,
        -0x100_0000_0000_0000_0000 <= rt.cos_theta as int * v@.x
            <= 0x100_0000_0000_0000_0000,
        -0x100_0000_0000_0000_0000 <= rt.sin_theta as int * v@.x
            <= 0x100_0000_0000_0000_0000,
        -0x100_0000_0000_0000_0000 <= rt.cos_theta as int * v@.z
            <= 0x100_0000_0000_0000_0000,
        -0x100_0000_0000_0000_0000 <= rt.sin_theta as int * v@.z
            <= 0x100_0000_0000_0000_0000,
    ensures
        r@ == rot_out_spec(rt.cos_theta as int, rt.sin_theta as int, v@),
{
    proof {
        lemma_div_range(rt.cos_theta as int * v@.x, 0x100_0000_0000_0000_0000, SCALE as int);
        lemma_div_range(rt.sin_theta as int * v@.x, 0x100_0000_0000_0000_0000, SCALE as int);
        lemma_div_range(rt.cos_theta as int * v@.z, 0x100_0000_0000_0000_0000, SCALE as int);
        lemma_div_range(rt.sin_theta as int * v@.z, 0x100_0000_0000_0000_0000, SCALE as int);
        vstd::arithmetic::div_mod::lemma_div_multiples_vanish(0x100_0000_0000_0000int,
            65536int);
        assert(65536int * 0x100_0000_0000_0000int == 0x100_0000_0000_0000_0000int);
    }
    Vec3::new(
        fx_mul(rt.cos_theta, v.x) + fx_mul(rt.sin_theta, v.z),
        v.y,
        -fx_mul(rt.sin_theta, v.x) + fx_mul(rt.cos_theta, v.z),
    )
}

} // verus!
