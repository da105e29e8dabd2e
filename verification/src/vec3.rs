//! Three-component fixed-point vectors, used for points, directions and
//! colors alike. The ghost model `V3` carries the components as unbounded
//! integers; every operation is stated exactly over that model.

use vstd::prelude::*;
use crate::fx::{SCALE, div_floor, floor_div_i128, fx_mul, fx_mul_spec, is_sqrt_floor, isqrt_u128, lemma_sqrt_floor_unique, sqrt_floor};
#[allow(unused_imports)]
use vstd::arithmetic::div_mod::{lemma_div_is_ordered, lemma_div_pos_is_pos};

verus! {

/// Mathematical model of a vector: unbounded integer components.
pub ghost struct V3 {
    pub x: int,
    pub y: int,
    pub z: int,
}

#[derive(Clone, Copy, PartialEq, Eq, Structural, Debug)]
pub struct Vec3 {
    pub x: i64,
    pub y: i64,
    pub z: i64,
}

/// Points and colors share the vector representation.
pub type Point3 = Vec3;

pub type Color = Vec3;

impl View for Vec3 {
    type V = V3;

    open spec fn view(&self) -> V3 {
        V3 { x: self.x as int, y: self.y as int, z: self.z as int }
    }
}

/// Every component within a symmetric bound.
pub open spec fn in_range(v: V3, b: int) -> bool {
    -b <= v.x <= b && -b <= v.y <= b && -b <= v.z <= b
}

pub open spec fn v3_add(a: V3, b: V3) -> V3 {
    V3 { x: a.x + b.x, y: a.y + b.y, z: a.z + b.z }
}

pub open spec fn v3_sub(a: V3, b: V3) -> V3 {
    V3 { x: a.x - b.x, y: a.y - b.y, z: a.z - b.z }
}

pub open spec fn v3_neg(a: V3) -> V3 {
    V3 { x: -a.x, y: -a.y, z: -a.z }
}

/// The raw sum of component products, before scaling down: the dot
/// product at scale `SCALE * SCALE`.
pub open spec fn dot_wide_spec(a: V3, b: V3) -> int {
    a.x * b.x + a.y * b.y + a.z * b.z
}

/// The fixed-point dot product.
pub open spec fn dot_spec(a: V3, b: V3) -> int {
    dot_wide_spec(a, b) / (SCALE as int)
}

pub open spec fn v3_scale(a: V3, k: int) -> V3 {
    V3 {
        x: fx_mul_spec(a.x, k),
        y: fx_mul_spec(a.y, k),
        z: fx_mul_spec(a.z, k),
    }
}

/// Componentwise fixed-point product.
pub open spec fn v3_elemul(a: V3, b: V3) -> V3 {
    V3 {
        x: fx_mul_spec(a.x, b.x),
        y: fx_mul_spec(a.y, b.y),
        z: fx_mul_spec(a.z, b.z),
    }
}

pub open spec fn v3_cross(a: V3, b: V3) -> V3 {
    V3 {
        x: (a.y * b.z - a.z * b.y) / (SCALE as int),
        y: (a.z * b.x - a.x * b.z) / (SCALE as int),
        z: (a.x * b.y - a.y * b.x) / (SCALE as int),
    }
}

/// The length of a vector, in the same fixed-point scale as its
/// components: the floor square root of the raw self dot product.
pub open spec fn length_spec(a: V3) -> int {
    sqrt_floor(dot_wide_spec(a, a))
}

/// The unit vector in the direction of `a`.
pub open spec fn unit_spec(a: V3) -> V3 {
    let len = length_spec(a);
    V3 {
        x: div_floor(a.x * (SCALE as int), len),
        y: div_floor(a.y * (SCALE as int), len),
        z: div_floor(a.z * (SCALE as int), len),
    }
}

pub open spec fn v3_zero() -> V3 {
    V3 { x: 0, y: 0, z: 0 }
}

/// Generous componentwise bound under which all i128 intermediates of the
/// operations below stay in range.
pub const VEC_LIMIT: i64 = 0x100_0000_0000_0000;

/// Componentwise bound for products whose results must fit an i64.
pub const DOT_LIMIT: i64 = 0x8000_0000;

impl Vec3 {
    pub fn new(x: i64, y: i64, z: i64) -> (r: Vec3)
        ensures
            r@ == (V3 { x: x as int, y: y as int, z: z as int }),
    {
        Vec3 { x, y, z }
    }

    pub fn zero() -> (r: Vec3)
        ensures
            r@ == v3_zero(),
    {
        Vec3 { x: 0, y: 0, z: 0 }
    }

    pub fn ones() -> (r: Vec3)
        ensures
            r@ == (V3 { x: SCALE as int, y: SCALE as int, z: SCALE as int }),
    {
        Vec3 { x: SCALE, y: SCALE, z: SCALE }
    }

    pub fn plus(&self, o: &Vec3) -> (r: Vec3)
        requires
            in_range(self@, VEC_LIMIT as int),
            in_range(o@, VEC_LIMIT as int),
        ensures
            r@ == v3_add(self@, o@),
    {
        Vec3 { x: self.x + o.x, y: self.y + o.y, z: self.z + o.z }
    }

    pub fn minus(&self, o: &Vec3) -> (r: Vec3)
        requires
            in_range(self@, VEC_LIMIT as int),
            in_range(o@, VEC_LIMIT as int),
        ensures
            r@ == v3_sub(self@, o@),
    {
        Vec3 { x: self.x - o.x, y: self.y - o.y, z: self.z - o.z }
    }

    pub fn neg(&self) -> (r: Vec3)
        requires
            in_range(self@, VEC_LIMIT as int),
        ensures
            r@ == v3_neg(self@),
    {
        Vec3 { x: -self.x, y: -self.y, z: -self.z }
    }

    /// The raw dot product at double scale, exact in 128 bits.
    pub fn dot_wide(a: &Vec3, b: &Vec3) -> (r: i128)
        requires
            in_range(a@, VEC_LIMIT as int),
            in_range(b@, VEC_LIMIT as int),
        ensures
            r == dot_wide_spec(a@, b@),
            -0x3_0000_0000_0000_0000_0000_0000_0000 <= r <= 0x3_0000_0000_0000_0000_0000_0000_0000,
    {
        proof {
            assert(-0x1_0000_0000_0000_0000_0000_0000_0000
                <= a@.x * b@.x <= 0x1_0000_0000_0000_0000_0000_0000_0000
                && -0x1_0000_0000_0000_0000_0000_0000_0000
                <= a@.y * b@.y <= 0x1_0000_0000_0000_0000_0000_0000_0000
                && -0x1_0000_0000_0000_0000_0000_0000_0000
                <= a@.z * b@.z <= 0x1_0000_0000_0000_0000_0000_0000_0000)
                by (nonlinear_arith)
                requires
                    in_range(a@, 0x100_0000_0000_0000),
                    in_range(b@, 0x100_0000_0000_0000);
        }
        (a.x as i128) * (b.x as i128) + (a.y as i128) * (b.y as i128)
            + (a.z as i128) * (b.z as i128)
    }

    /// The fixed-point dot product.
    pub fn dot(a: Vec3, b: Vec3) -> (r: i64)
        requires
            in_range(a@, DOT_LIMIT as int),
            in_range(b@, DOT_LIMIT as int),
        ensures
            r == dot_spec(a@, b@),
            -0xc000_0000_0000 <= r <= 0xc000_0000_0000,
    {
        let wide = Vec3::dot_wide(&a, &b);
        proof {
            assert(-0xc000_0000_0000_0000 <= wide as int <= 0xc000_0000_0000_0000)
                by (nonlinear_arith)
                requires
                    wide as int == dot_wide_spec(a@, b@),
                    in_range(a@, 0x8000_0000),
                    in_range(b@, 0x8000_0000);
            lemma_div_is_ordered(-0xc000_0000_0000_0000, wide as int, SCALE as int);
            lemma_div_is_ordered(wide as int, 0xc000_0000_0000_0000, SCALE as int);
            assert((-0xc000_0000_0000_0000int) / 65536int == -0xc000_0000_0000int
                && 0xc000_0000_0000_0000int / 65536int == 0xc000_0000_0000int)
                by (nonlinear_arith);
        }
        floor_div_i128(wide, SCALE as i128) as i64
    }

    /// The fixed-point squared length.
    pub fn squared_length(&self) -> (r: i64)
        requires
            in_range(self@, DOT_LIMIT as int),
        ensures
            r == dot_spec(self@, self@),
            0 <= r <= 0xc000_0000_0000,
    {
        proof {
            lemma_self_dot_nonneg(self@);
            lemma_div_pos_is_pos(dot_wide_spec(self@, self@), SCALE as int);
        }
        Vec3::dot(*self, *self)
    }

    /// The fixed-point length: floor square root of the raw self product.
    pub fn length(&self) -> (r: i64)
        requires
            in_range(self@, DOT_LIMIT as int),
        ensures
            r == length_spec(self@),
            0 <= r <= 0x2_0000_0000,
    {
        proof {
            lemma_self_dot_nonneg(self@);
        }
        let wide = Vec3::dot_wide(self, self);
        proof {
            assert(wide as int <= 0xc000_0000_0000_0000) by (nonlinear_arith)
                requires
                    wide as int == dot_wide_spec(self@, self@),
                    in_range(self@, 0x8000_0000);
        }
        let r = isqrt_u128(wide as u128);
        proof {
            let n = dot_wide_spec(self@, self@);
            lemma_sqrt_floor_unique(n, r as int);
            if r > 0x2_0000_0000 {
                assert((0x2_0000_0000 + 1) * (0x2_0000_0000 + 1)
                    > 0xc000_0000_0000_0000int) by (nonlinear_arith);
                assert(r as int * r as int >= (0x2_0000_0000 + 1)
                    * (0x2_0000_0000 + 1)) by (nonlinear_arith)
                    requires r as int > 0x2_0000_0000;
            }
        }
        r as i64
    }

    /// Scale by a fixed-point factor, componentwise.
    pub fn scale(&self, k: i64) -> (r: Vec3)
        requires
            -0x4000_0000_0000_0000_0000 <= self@.x * k <= 0x4000_0000_0000_0000_0000,
            -0x4000_0000_0000_0000_0000 <= self@.y * k <= 0x4000_0000_0000_0000_0000,
            -0x4000_0000_0000_0000_0000 <= self@.z * k <= 0x4000_0000_0000_0000_0000,
        ensures
            r@ == v3_scale(self@, k as int),
    {
        Vec3 { x: fx_mul(self.x, k), y: fx_mul(self.y, k), z: fx_mul(self.z, k) }
    }

    /// Componentwise product of two colors.
    pub fn elemul(a: Vec3, b: Vec3) -> (r: Vec3)
        requires
            -0x4000_0000_0000_0000_0000 <= a@.x * b@.x <= 0x4000_0000_0000_0000_0000,
            -0x4000_0000_0000_0000_0000 <= a@.y * b@.y <= 0x4000_0000_0000_0000_0000,
            -0x4000_0000_0000_0000_0000 <= a@.z * b@.z <= 0x4000_0000_0000_0000_0000,
        ensures
            r@ == v3_elemul(a@, b@),
    {
        Vec3 { x: fx_mul(a.x, b.x), y: fx_mul(a.y, b.y), z: fx_mul(a.z, b.z) }
    }

    pub fn cross(a: Vec3, b: Vec3) -> (r: Vec3)
        requires
            in_range(a@, DOT_LIMIT as int),
            in_range(b@, DOT_LIMIT as int),
        ensures
            r@ == v3_cross(a@, b@),
            in_range(r@, 0x8000_0000_0000),
    {
        proof {
            lemma_cross_bounds(a@, b@);
        }
        let x = floor_div_i128(
            (a.y as i128) * (b.z as i128) - (a.z as i128) * (b.y as i128),
            SCALE as i128,
        ) as i64;
        let y = floor_div_i128(
            (a.z as i128) * (b.x as i128) - (a.x as i128) * (b.z as i128),
            SCALE as i128,
        ) as i64;
        let z = floor_div_i128(
            (a.x as i128) * (b.y as i128) - (a.y as i128) * (b.x as i128),
            SCALE as i128,
        ) as i64;
        Vec3 { x, y, z }
    }

    /// The unit vector of a nonzero vector; components end up in
    /// `[-SCALE, SCALE]`.
    pub fn unit(&self) -> (r: Vec3)
        requires
            in_range(self@, DOT_LIMIT as int),
            self@ != v3_zero(),
        ensures
            r@ == unit_spec(self@),
            in_range(r@, SCALE as int),
    {
        proof {
            lemma_self_dot_nonneg(self@);
            lemma_nonzero_dot_pos(self@);
        }
        let len = self.length();
        proof {
            let n = dot_wide_spec(self@, self@);
            assert(is_sqrt_floor(n, length_spec(self@))) by {
                lemma_sqrt_floor_exists(n);
            }
            lemma_unit_component(self@.x, len as int, n);
            lemma_unit_component(self@.y, len as int, n);
            lemma_unit_component(self@.z, len as int, n);
        }
        let x = floor_div_i128((self.x as i128) * (SCALE as i128), len as i128) as i64;
        let y = floor_div_i128((self.y as i128) * (SCALE as i128), len as i128) as i64;
        let z = floor_div_i128((self.z as i128) * (SCALE as i128), len as i128) as i64;
        Vec3 { x, y, z }
    }
}

/// A vector's raw self dot product is a sum of squares, and bounds each
/// component's square.
pub proof fn lemma_self_dot_nonneg(a: V3)
    ensures
        dot_wide_spec(a, a) >= 0,
        a.x * a.x <= dot_wide_spec(a, a),
        a.y * a.y <= dot_wide_spec(a, a),
        a.z * a.z <= dot_wide_spec(a, a),
{
    assert(a.x * a.x >= 0 && a.y * a.y >= 0 && a.z * a.z >= 0) by (nonlinear_arith);
}

/// A nonzero vector has a positive raw self dot product.
pub proof fn lemma_nonzero_dot_pos(a: V3)
    requires
        a != v3_zero(),
    ensures
        dot_wide_spec(a, a) >= 1,
{
    assert(a.x * a.x >= 0 && a.y * a.y >= 0 && a.z * a.z >= 0) by (nonlinear_arith);
    assert(a.x != 0 ==> a.x * a.x >= 1) by (nonlinear_arith);
    assert(a.y != 0 ==> a.y * a.y >= 1) by (nonlinear_arith);
    assert(a.z != 0 ==> a.z * a.z >= 1) by (nonlinear_arith);
}

proof fn lemma_sqrt_floor_exists(n: int)
    requires
        n >= 0,
    ensures
        is_sqrt_floor(n, sqrt_floor(n)),
{
    let r = sqrt_floor_witness(n, 0);
    lemma_sqrt_floor_unique(n, r);
}

/// Builds the floor square root by counting up; serves only as the
/// existence witness for `sqrt_floor`.
proof fn sqrt_floor_witness(n: int, lo: int) -> (r: int)
    requires
        0 <= lo,
        lo * lo <= n,
    ensures
        is_sqrt_floor(n, r),
    decreases n - lo * lo,
{
    if (lo + 1) * (lo + 1) > n {
        lo
    } else {
        assert((lo + 1) * (lo + 1) > lo * lo) by (nonlinear_arith)
            requires lo >= 0;
        sqrt_floor_witness(n, lo + 1)
    }
}

/// A product of two scalars within bounds whose product of bounds is
/// within the range `fx_mul` accepts.
pub proof fn lemma_prod_bound(x: int, y: int, bx: int, by: int)
    requires
        -bx <= x <= bx,
        -by <= y <= by,
        0 <= bx,
        0 <= by,
        bx * by <= 0x4000_0000_0000_0000_0000,
    ensures
        -0x4000_0000_0000_0000_0000 <= x * y <= 0x4000_0000_0000_0000_0000,
{
    assert(-(bx * by) <= x * y <= bx * by) by (nonlinear_arith)
        requires
            -bx <= x <= bx,
            -by <= y <= by,
            0 <= bx,
            0 <= by;
}

/// Componentwise products of vectors within the given bounds are accepted
/// by `scale` and `elemul`.
pub proof fn lemma_v3_prod_bound(a: V3, b: V3, ba: int, bb: int)
    requires
        in_range(a, ba),
        in_range(b, bb),
        0 <= ba,
        0 <= bb,
        ba * bb <= 0x4000_0000_0000_0000_0000,
    ensures
        -0x4000_0000_0000_0000_0000 <= a.x * b.x <= 0x4000_0000_0000_0000_0000,
        -0x4000_0000_0000_0000_0000 <= a.y * b.y <= 0x4000_0000_0000_0000_0000,
        -0x4000_0000_0000_0000_0000 <= a.z * b.z <= 0x4000_0000_0000_0000_0000,
{
    lemma_prod_bound(a.x, b.x, ba, bb);
    lemma_prod_bound(a.y, b.y, ba, bb);
    lemma_prod_bound(a.z, b.z, ba, bb);
}

proof fn lemma_cross_bounds(a: V3, b: V3)
    requires
        in_range(a, DOT_LIMIT as int),
        in_range(b, DOT_LIMIT as int),
    ensures
        -0x4000_0000_0000_0000 <= a.y * b.z <= 0x4000_0000_0000_0000,
        -0x4000_0000_0000_0000 <= a.z * b.y <= 0x4000_0000_0000_0000,
        -0x4000_0000_0000_0000 <= a.z * b.x <= 0x4000_0000_0000_0000,
        -0x4000_0000_0000_0000 <= a.x * b.z <= 0x4000_0000_0000_0000,
        -0x4000_0000_0000_0000 <= a.x * b.y <= 0x4000_0000_0000_0000,
        -0x4000_0000_0000_0000 <= a.y * b.x <= 0x4000_0000_0000_0000,
        -0x8000_0000_0000_0000 <= a.y * b.z - a.z * b.y <= 0x8000_0000_0000_0000,
        -0x8000_0000_0000_0000 <= a.z * b.x - a.x * b.z <= 0x8000_0000_0000_0000,
        -0x8000_0000_0000_0000 <= a.x * b.y - a.y * b.x <= 0x8000_0000_0000_0000,
        -0x8000_0000_0000 <= (a.y * b.z - a.z * b.y) / (SCALE as int) <= 0x8000_0000_0000,
        -0x8000_0000_0000 <= (a.z * b.x - a.x * b.z) / (SCALE as int) <= 0x8000_0000_0000,
        -0x8000_0000_0000 <= (a.x * b.y - a.y * b.x) / (SCALE as int) <= 0x8000_0000_0000,
{
    assert(-0x4000_0000_0000_0000 <= a.y * b.z <= 0x4000_0000_0000_0000
        && -0x4000_0000_0000_0000 <= a.z * b.y <= 0x4000_0000_0000_0000
        && -0x4000_0000_0000_0000 <= a.z * b.x <= 0x4000_0000_0000_0000
        && -0x4000_0000_0000_0000 <= a.x * b.z <= 0x4000_0000_0000_0000
        && -0x4000_0000_0000_0000 <= a.x * b.y <= 0x4000_0000_0000_0000
        && -0x4000_0000_0000_0000 <= a.y * b.x <= 0x4000_0000_0000_0000)
        by (nonlinear_arith)
        requires
            in_range(a, 0x8000_0000),
            in_range(b, 0x8000_0000);
    lemma_wide_div_i64(a.y * b.z - a.z * b.y);
    lemma_wide_div_i64(a.z * b.x - a.x * b.z);
    lemma_wide_div_i64(a.x * b.y - a.y * b.x);
}

proof fn lemma_wide_div_i64(n: int)
    requires
        -0x8000_0000_0000_0000 <= n <= 0x8000_0000_0000_0000,
    ensures
        -0x8000_0000_0000 <= n / (SCALE as int) <= 0x8000_0000_0000,
{
    lemma_div_is_ordered(-0x8000_0000_0000_0000, n, SCALE as int);
    lemma_div_is_ordered(n, 0x8000_0000_0000_0000, SCALE as int);
    assert((-0x8000_0000_0000_0000int) / 65536int == -0x8000_0000_0000
        && 0x8000_0000_0000_0000int / 65536int == 0x8000_0000_0000)
        by (nonlinear_arith);
}

/// A component of the scaled-up vector divided by the length stays within
/// one unit: the core bound behind `unit`.
proof fn lemma_unit_component(c: int, len: int, n: int)
    requires
        is_sqrt_floor(n, len),
        n >= 1,
        c * c <= n,
    ensures
        len >= 1,
        -(SCALE as int) <= (c * (SCALE as int)) / len <= SCALE as int,
        -(SCALE as int) <= div_floor(c * (SCALE as int), len) <= SCALE as int,
{
    if len < 1 {
        assert(len == 0);
        assert((len + 1) * (len + 1) == 1) by (nonlinear_arith)
            requires len == 0;
        assert(n < 1);
    }
    assert(-len <= c <= len) by (nonlinear_arith)
        requires
            c * c <= n,
            n < (len + 1) * (len + 1),
            len >= 0;
    assert(c * (SCALE as int) <= len * (SCALE as int)) by (nonlinear_arith)
        requires c <= len;
    assert(-(len * (SCALE as int)) <= c * (SCALE as int)) by (nonlinear_arith)
        requires -len <= c;
    lemma_div_is_ordered(-(len * (SCALE as int)), c * (SCALE as int), len);
    lemma_div_is_ordered(c * (SCALE as int), len * (SCALE as int), len);
    assert((len * 65536int) / len == 65536 && (-(len * 65536int)) / len == -65536)
        by (nonlinear_arith)
        requires len >= 1;
}

} // verus!
