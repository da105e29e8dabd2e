//! Axis-aligned bounding boxes: the slab intersection test and the merge
//! of two boxes, with the containment law of the merge.

use vstd::prelude::*;
use crate::fx::{ceil_div_i128, div_ceil, floor_div_i128, SCALE, T_MAX_FX};
use crate::ray::{ray_in_range, Ray, RayV};
use crate::vec3::{in_range, Point3, V3, Vec3};

verus! {

/// Bound on the coordinates of any stored bounding box.
pub const BOX_BOUND: i64 = 0x4000_0000_0000;

/// Mathematical model of a box: two corners.
pub ghost struct AabbV {
    pub minimum: V3,
    pub maximum: V3,
}

#[derive(Clone, Copy, PartialEq, Eq, Structural, Debug)]
pub struct AABB {
    pub minimum: Point3,
    pub maximum: Point3,
}

impl View for AABB {
    type V = AabbV;

    open spec fn view(&self) -> AabbV {
        AabbV { minimum: self.minimum@, maximum: self.maximum@ }
    }
}

/// A legitimately constructed box: no corner crossing.
pub open spec fn aabb_wf(b: AabbV) -> bool {
    b.minimum.x <= b.maximum.x && b.minimum.y <= b.maximum.y && b.minimum.z <= b.maximum.z
}

/// Corners within the coordinate bound the slab test accepts.
pub open spec fn aabb_in_range(b: AabbV) -> bool {
    in_range(b.minimum, BOX_BOUND as int) && in_range(b.maximum, BOX_BOUND as int)
}

/// `outer` encloses `inner` entirely.
pub open spec fn box_contains_box(outer: AabbV, inner: AabbV) -> bool {
    outer.minimum.x <= inner.minimum.x && inner.maximum.x <= outer.maximum.x
        && outer.minimum.y <= inner.minimum.y && inner.maximum.y <= outer.maximum.y
        && outer.minimum.z <= inner.minimum.z && inner.maximum.z <= outer.maximum.z
}

/// The smallest box containing both arguments.
pub open spec fn merge_spec(a: AabbV, b: AabbV) -> AabbV {
    AabbV {
        minimum: V3 {
            x: if a.minimum.x < b.minimum.x { a.minimum.x } else { b.minimum.x },
            y: if a.minimum.y < b.minimum.y { a.minimum.y } else { b.minimum.y },
            z: if a.minimum.z < b.minimum.z { a.minimum.z } else { b.minimum.z },
        },
        maximum: V3 {
            x: if a.maximum.x > b.maximum.x { a.maximum.x } else { b.maximum.x },
            y: if a.maximum.y > b.maximum.y { a.maximum.y } else { b.maximum.y },
            z: if a.maximum.z > b.maximum.z { a.maximum.z } else { b.maximum.z },
        },
    }
}

/// The entry parameter of the ray into one slab, rounded down.
pub open spec fn axis_lo(mn: int, mx: int, o: int, d: int) -> int {
    if d > 0 {
        ((mn - o) * (SCALE as int)) / d
    } else {
        ((o - mx) * (SCALE as int)) / (-d)
    }
}

/// The exit parameter of the ray out of one slab, rounded up.
pub open spec fn axis_hi(mn: int, mx: int, o: int, d: int) -> int {
    if d > 0 {
        div_ceil((mx - o) * (SCALE as int), d)
    } else {
        div_ceil((o - mn) * (SCALE as int), -d)
    }
}

/// Fold one slab into the running parameter interval: whether the ray can
/// still be inside, and the narrowed interval.
pub open spec fn slab_spec(mn: int, mx: int, o: int, d: int, t_min: int, t_max: int) -> (
    bool,
    int,
    int,
) {
    if d == 0 {
        (mn <= o <= mx && t_min < t_max, t_min, t_max)
    } else {
        let lo = axis_lo(mn, mx, o, d);
        let hi = axis_hi(mn, mx, o, d);
        let nt_min = if lo > t_min { lo } else { t_min };
        let nt_max = if hi < t_max { hi } else { t_max };
        (nt_min < nt_max, nt_min, nt_max)
    }
}

/// The three-slab test: true when the parameter interval survives every
/// axis. Lower edges round down and upper edges round up, so the test
/// only widens, never narrows, the true interval.
pub open spec fn aabb_hit_spec(b: AabbV, r: RayV, t_min: int, t_max: int) -> bool {
    let (ax, lx, hx) = slab_spec(b.minimum.x, b.maximum.x, r.orig.x, r.dir.x, t_min, t_max);
    if !ax {
        false
    } else {
        let (ay, ly, hy) = slab_spec(b.minimum.y, b.maximum.y, r.orig.y, r.dir.y, lx, hx);
        if !ay {
            false
        } else {
            let (az, lz, hz) = slab_spec(b.minimum.z, b.maximum.z, r.orig.z, r.dir.z, ly, hy);
            az
        }
    }
}

/// One exec slab step; exact against `slab_spec`.
fn slab_axis(mn: i64, mx: i64, o: i64, d: i64, t_min: i64, t_max: i64) -> (res: (bool, i64, i64))
    requires
        -BOX_BOUND <= mn <= BOX_BOUND,
        -BOX_BOUND <= mx <= BOX_BOUND,
        -0x2000_0000 <= o <= 0x2000_0000,
        -0x2000_0000 <= d <= 0x2000_0000,
        -0x1_0000_0000_0000_0000 <= t_min <= 0x1_0000_0000_0000_0000,
        -0x1_0000_0000_0000_0000 <= t_max <= 0x1_0000_0000_0000_0000,
    ensures
        (res.0, res.1 as int, res.2 as int) == slab_spec(
            mn as int,
            mx as int,
            o as int,
            d as int,
            t_min as int,
            t_max as int,
        ),
        -0x1_0000_0000_0000_0000 <= res.1 <= 0x1_0000_0000_0000_0000,
        -0x1_0000_0000_0000_0000 <= res.2 <= 0x1_0000_0000_0000_0000,
{
    if d == 0 {
        (mn <= o && o <= mx && t_min < t_max, t_min, t_max)
    } else {
        let (lo_num, hi_num, den): (i64, i64, i64) = if d > 0 {
            (mn - o, mx - o, d)
        } else {
            (o - mx, o - mn, -d)
        };
        proof {
            assert(-0x4000_2000_0000_0000 <= lo_num as int * (SCALE as int)
                <= 0x4000_2000_0000_0000
                && -0x4000_2000_0000_0000 <= hi_num as int * (SCALE as int)
                <= 0x4000_2000_0000_0000) by (nonlinear_arith)
                requires
                    -0x4000_2000_0000 <= lo_num as int <= 0x4000_2000_0000,
                    -0x4000_2000_0000 <= hi_num as int <= 0x4000_2000_0000;
        }
        let lo_wide = floor_div_i128((lo_num as i128) * (SCALE as i128), den as i128);
        let hi_wide = ceil_div_i128((hi_num as i128) * (SCALE as i128), den as i128);
        let lo = lo_wide as i64;
        let hi = hi_wide as i64;
        let nt_min = if lo > t_min {
            lo
        } else {
            t_min
        };
        let nt_max = if hi < t_max {
            hi
        } else {
            t_max
        };
        (nt_min < nt_max, nt_min, nt_max)
    }
}

impl AABB {
    pub fn new(a: &Point3, b: &Point3) -> (r: AABB)
        ensures
            r@ == (AabbV { minimum: a@, maximum: b@ }),
    {
        AABB {
            minimum: Vec3::new(a.x, a.y, a.z),
            maximum: Vec3::new(b.x, b.y, b.z),
        }
    }

    pub fn min(&self) -> (r: Point3)
        ensures
            r@ == self@.minimum,
    {
        self.minimum
    }

    pub fn max(&self) -> (r: Point3)
        ensures
            r@ == self@.maximum,
    {
        self.maximum
    }

    /// The slab test over the interval `(t_mini, t_maxi)`.
    pub fn hit(&self, ray: &Ray, t_mini: i64, t_maxi: i64) -> (res: bool)
        requires
            aabb_in_range(self@),
            ray_in_range(ray@),
            -T_MAX_FX <= t_mini <= T_MAX_FX,
            -T_MAX_FX <= t_maxi <= T_MAX_FX,
        ensures
            res == aabb_hit_spec(self@, ray@, t_mini as int, t_maxi as int),
    {
        let (ax, lx, hx) = slab_axis(
            self.minimum.x,
            self.maximum.x,
            ray.orig.x,
            ray.dir.x,
            t_mini,
            t_maxi,
        );
        if !ax {
            return false;
        }
        let (ay, ly, hy) = slab_axis(self.minimum.y, self.maximum.y, ray.orig.y, ray.dir.y, lx, hx);
        if !ay {
            return false;
        }
        let (az, _lz, _hz) = slab_axis(
            self.minimum.z,
            self.maximum.z,
            ray.orig.z,
            ray.dir.z,
            ly,
            hy,
        );
        az
    }
}

/// The merged box: componentwise minima and maxima.
pub fn surrounding_box(box0: &AABB, box1: &AABB) -> (r: AABB)
    ensures
        r@ == merge_spec(box0@, box1@),
{
    AABB {
        minimum: Vec3 {
            x: crate::fx::fmin(box0.minimum.x, box1.minimum.x),
            y: crate::fx::fmin(box0.minimum.y, box1.minimum.y),
            z: crate::fx::fmin(box0.minimum.z, box1.minimum.z),
        },
        maximum: Vec3 {
            x: crate::fx::fmax(box0.maximum.x, box1.maximum.x),
            y: crate::fx::fmax(box0.maximum.y, box1.maximum.y),
            z: crate::fx::fmax(box0.maximum.z, box1.maximum.z),
        },
    }
}

/// The merge of two boxes contains both entirely, and is minimal: any box
/// containing both contains the merge.
pub proof fn lemma_merge_contains_and_minimal(a: AabbV, b: AabbV)
    ensures
        box_contains_box(merge_spec(a, b), a),
        box_contains_box(merge_spec(a, b), b),
        forall|c: AabbV|
            box_contains_box(c, a) && box_contains_box(c, b) ==> box_contains_box(
                c,
                #[trigger] merge_spec(a, b),
            ),
        aabb_wf(a) && aabb_wf(b) ==> aabb_wf(merge_spec(a, b)),
{
}

} // verus!
