//! Perlin-style gradient noise over a permuted integer lattice. The
//! contracts bound the noise amplitude; the generator's tables are random
//! by construction, so nothing finer can be promised of their content
//! than their shape.

use vstd::prelude::*;
use crate::fx::{clamp_spec, floor_div_i128, fx_mul, fx_mul_spec, lemma_div_bounds,
    lemma_div_range, SCALE};
use crate::rng::{random_f, random_u_m};
use crate::vec3::{V3, Color, Point3, Vec3, in_range};
#[allow(unused_imports)]
use vstd::arithmetic::div_mod::{lemma_mod_division_less_than_divisor};

verus! {

/// The lattice size: 256 cells on each axis.
pub const POINT_COUNT: i32 = 256;

#[derive(Clone, Debug)]
pub struct Perlin {
    pub ranvec: Vec<Color>,
    pub perm_x: Vec<i32>,
    pub perm_y: Vec<i32>,
    pub perm_z: Vec<i32>,
}

/// A permutation table of the right shape: 256 entries, each a lattice
/// index.
pub open spec fn perm_wf(p: Seq<i32>) -> bool {
    p.len() == 256 && forall|i: int| 0 <= i < 256 ==> 0 <= #[trigger] p[i] < 256
}

pub open spec fn perlin_wf(p: &Perlin) -> bool {
    &&& p.ranvec@.len() == 256
    &&& forall|i: int| 0 <= i < 256 ==> in_range(#[trigger] p.ranvec@[i]@, SCALE as int)
    &&& perm_wf(p.perm_x@)
    &&& perm_wf(p.perm_y@)
    &&& perm_wf(p.perm_z@)
}

/// The smoothstep weight `t (3 - 2 t) t`, saturated at one unit.
pub open spec fn smooth_spec(t: int) -> int {
    let t2 = fx_mul_spec(t, t);
    let r = fx_mul_spec(t2, 3 * SCALE as int - 2 * t);
    if r > SCALE as int {
        SCALE as int
    } else {
        r
    }
}

/// The weight of corner 0 or 1 along one axis.
pub open spec fn corner_weight_spec(idx: int, s: int) -> int {
    if idx == 1 {
        s
    } else {
        SCALE as int - s
    }
}

/// The contribution of corner `m` (bit-coded axes) to the trilinear
/// interpolation.
pub open spec fn interp_term_spec(cv: Seq<Vec3>, u: int, v: int, w: int, m: int) -> int {
    let i = m / 4;
    let j = (m % 4) / 2;
    let k = m % 2;
    let wa = corner_weight_spec(i, smooth_spec(u));
    let wb = corner_weight_spec(j, smooth_spec(v));
    let wc = corner_weight_spec(k, smooth_spec(w));
    let wv = V3 {
        x: u - (if i == 1 {
            SCALE as int
        } else {
            0
        }),
        y: v - (if j == 1 {
            SCALE as int
        } else {
            0
        }),
        z: w - (if k == 1 {
            SCALE as int
        } else {
            0
        }),
    };
    let d = crate::vec3::dot_spec(cv[m]@, wv);
    fx_mul_spec(fx_mul_spec(fx_mul_spec(wa, wb), wc), d)
}

/// The first `m` corner contributions folded with saturation.
pub open spec fn interp_partial_spec(cv: Seq<Vec3>, u: int, v: int, w: int, m: int) -> int
    decreases m,
{
    if m <= 0 {
        0
    } else {
        let acc = interp_partial_spec(cv, u, v, w, m - 1);
        clamp_spec(acc + interp_term_spec(cv, u, v, w, m - 1), -24 * SCALE as int, 24
            * SCALE as int)
    }
}

/// Which lattice cell a coordinate falls in (wrapped to the table) and
/// the fractional offset within it.
pub open spec fn lattice_cell_spec(x: int) -> (int, int) {
    let cell = x / (SCALE as int);
    (cell % 256, x - cell * (SCALE as int))
}

/// The gradient at one lattice corner: the permutation tables of the
/// three axes folded into one table index.
pub open spec fn noise_corner_spec(p: &Perlin, ci: int, cj: int, ck: int, m: int) -> Vec3 {
    let xi = (ci + m / 4) % 256;
    let yi = (cj + (m % 4) / 2) % 256;
    let zi = (ck + m % 2) % 256;
    p.ranvec@[((p.perm_x@[xi] ^ p.perm_y@[yi]) ^ p.perm_z@[zi]) as int]
}

/// The interpolated noise at a point: the eight wrapped corner
/// gradients blended with the smoothed cell offsets.
pub open spec fn noise_spec(p: &Perlin, pt: V3) -> int {
    let cu = lattice_cell_spec(pt.x);
    let cv2 = lattice_cell_spec(pt.y);
    let cw = lattice_cell_spec(pt.z);
    let corners = Seq::new(8, |m: int| noise_corner_spec(p, cu.0, cv2.0, cw.0, m));
    interp_partial_spec(corners, cu.1, cv2.1, cw.1, 8)
}

/// The remaining octaves of turbulence from state `(pt, weight, acc)`
/// at octave `i`: saturated accumulation, halving weight, doubling the
/// point while it stays in range.
pub open spec fn turb_partial_spec(p: &Perlin, pt: V3, weight: int, acc: int, i: int,
    depth: int) -> int
    decreases depth - i,
{
    if i >= depth {
        acc
    } else {
        let n = noise_spec(p, pt);
        let acc2 = clamp_spec(acc + fx_mul_spec(weight, n), -48 * SCALE as int, 48
            * SCALE as int);
        let pt2 = V3 {
            x: if pt.x > 0x800_0000_0000 || pt.x < -0x800_0000_0000 {
                pt.x
            } else {
                2 * pt.x
            },
            y: if pt.y > 0x800_0000_0000 || pt.y < -0x800_0000_0000 {
                pt.y
            } else {
                2 * pt.y
            },
            z: if pt.z > 0x800_0000_0000 || pt.z < -0x800_0000_0000 {
                pt.z
            } else {
                2 * pt.z
            },
        };
        turb_partial_spec(p, pt2, weight / 2, acc2, i + 1, depth)
    }
}

impl Perlin {
    /// Fresh tables: 256 random gradient vectors and three permutations.
    pub fn new() -> (p: Perlin)
        ensures
            perlin_wf(&p),
    {
        let mut random_vector: Vec<Color> = Vec::new();
        let mut i: usize = 0;
        while i < 256
            invariant
                i <= 256,
                random_vector@.len() == i,
                forall|k: int| 0 <= k < i ==> in_range(#[trigger] random_vector@[k]@,
                    SCALE as int),
            decreases 256 - i,
        {
            let x = 2 * random_f() - SCALE;
            let y = 2 * random_f() - SCALE;
            let z = 2 * random_f() - SCALE;
            random_vector.push(Vec3::new(x, y, z));
            i = i + 1;
        }
        Perlin {
            ranvec: random_vector,
            perm_x: Perlin::perlin_generate_perm(),
            perm_y: Perlin::perlin_generate_perm(),
            perm_z: Perlin::perlin_generate_perm(),
        }
    }

    /// Shuffle the table in place by random swaps below each position;
    /// the entries are rearranged, never replaced.
    pub fn permute(p: &mut Vec<i32>, n: i32)
        requires
            old(p)@.len() == n,
            1 <= n <= 256,
        ensures
            final(p)@.len() == n,
            final(p)@.to_multiset() == old(p)@.to_multiset(),
    {
        let mut i: i32 = n - 1;
        while i >= 1
            invariant
                -1 <= i <= n - 1,
                p@.len() == n,
                1 <= n <= 256,
                p@.to_multiset() == old(p)@.to_multiset(),
            decreases i,
        {
            let target = random_u_m(0, i as u16);
            let iu = i as usize;
            let tu = target as usize;
            let a = p[iu];
            let b = p[tu];
            proof {
                p@.to_multiset_ensures();
            }
            let ghost before = p@;
            p[iu] = b;
            p[tu] = a;
            proof {
                lemma_swap_multiset(before, p@, iu as int, tu as int);
            }
            i = i - 1;
        }
    }

    /// The identity table shuffled: a permutation of `0 .. 256`.
    pub fn perlin_generate_perm() -> (r: Vec<i32>)
        ensures
            perm_wf(r@),
    {
        let mut rani: Vec<i32> = Vec::new();
        let mut i: i32 = 0;
        while i < 256
            invariant
                0 <= i <= 256,
                rani@.len() == i,
                forall|k: int| 0 <= k < i ==> #[trigger] rani@[k] == k,
            decreases 256 - i,
        {
            rani.push(i);
            i = i + 1;
        }
        let ghost ident = rani@;
        Perlin::permute(&mut rani, 256);
        proof {
            assert forall|k: int| 0 <= k < 256 implies 0 <= #[trigger] rani@[k] < 256 by {
                lemma_multiset_range(rani@, ident, k);
            }
        }
        rani
    }

    /// Smooth interpolated noise at a point; exact against
    /// `noise_spec`, with bounded amplitude.
    pub fn noise(&self, p: &Point3) -> (r: i64)
        requires
            perlin_wf(self),
            in_range(p@, 0x1000_0000_0000),
        ensures
            r == noise_spec(self, p@),
            -24 * SCALE <= r <= 24 * SCALE,
    {
        let iu = lattice_cell(p.x);
        let jv = lattice_cell(p.y);
        let kw = lattice_cell(p.z);
        let u = iu.1;
        let v = jv.1;
        let w = kw.1;
        let mut c: Vec<Color> = Vec::new();
        let mut di: usize = 0;
        while di < 2
            invariant
                di <= 2,
                c@.len() == 4 * di,
                perlin_wf(self),
                0 <= iu.0 < 256 && 0 <= jv.0 < 256 && 0 <= kw.0 < 256,
                forall|k: int| 0 <= k < c@.len() ==> in_range(#[trigger] c@[k]@, SCALE as int),
                forall|q: int|
                    0 <= q < c@.len() ==> #[trigger] c@[q] == noise_corner_spec(self,
                        iu.0 as int, jv.0 as int, kw.0 as int, q),
            decreases 2 - di,
        {
            let mut dj: usize = 0;
            while dj < 2
                invariant
                    dj <= 2,
                    c@.len() == 4 * di + 2 * dj,
                    perlin_wf(self),
                    0 <= iu.0 < 256 && 0 <= jv.0 < 256 && 0 <= kw.0 < 256,
                    di < 2,
                    forall|k: int| 0 <= k < c@.len() ==> in_range(#[trigger] c@[k]@,
                        SCALE as int),
                    forall|q: int|
                        0 <= q < c@.len() ==> #[trigger] c@[q] == noise_corner_spec(self,
                            iu.0 as int, jv.0 as int, kw.0 as int, q),
                decreases 2 - dj,
            {
                let mut dk: usize = 0;
                while dk < 2
                    invariant
                        dk <= 2,
                        c@.len() == 4 * di + 2 * dj + dk,
                        perlin_wf(self),
                        0 <= iu.0 < 256 && 0 <= jv.0 < 256 && 0 <= kw.0 < 256,
                        di < 2 && dj < 2,
                        forall|k: int| 0 <= k < c@.len() ==> in_range(#[trigger] c@[k]@,
                            SCALE as int),
                        forall|q: int|
                            0 <= q < c@.len() ==> #[trigger] c@[q] == noise_corner_spec(
                                self, iu.0 as int, jv.0 as int, kw.0 as int, q),
                    decreases 2 - dk,
                {
                    let xi = (iu.0 as usize + di) % 256;
                    let yi = (jv.0 as usize + dj) % 256;
                    let zi = (kw.0 as usize + dk) % 256;
                    let px = self.perm_x[xi];
                    let py = self.perm_y[yi];
                    let pz = self.perm_z[zi];
                    let idx = (px ^ py) ^ pz;
                    proof {
                        assert((0 <= px < 256 && 0 <= py < 256 && 0 <= pz < 256) ==> (0 <= ((px
                            ^ py) ^ pz) < 256)) by (bit_vector);
                        let m = 4 * di as int + 2 * dj as int + dk as int;
                        assert(m / 4 == di as int && (m % 4) / 2 == dj as int && m % 2
                            == dk as int) by (nonlinear_arith)
                            requires
                                m == 4 * di as int + 2 * dj as int + dk as int,
                                0 <= di as int && (di as int) < 2,
                                0 <= dj as int && (dj as int) < 2,
                                0 <= dk as int && (dk as int) < 2;
                    }
                    c.push(self.ranvec[idx as usize]);
                    dk = dk + 1;
                }
                dj = dj + 1;
            }
            di = di + 1;
        }
        proof {
            let corners = Seq::new(8, |m: int| noise_corner_spec(self,
                lattice_cell_spec(p@.x).0, lattice_cell_spec(p@.y).0,
                lattice_cell_spec(p@.z).0, m));
            assert(c@ =~= corners);
        }
        perlin_interp(&c, u, v, w)
    }

    /// Layered noise: octaves at doubling frequency and halving weight,
    /// folded to a nonnegative turbulence value.
    pub fn turb(&self, p: &Point3, depth: u16) -> (r: i64)
        requires
            perlin_wf(self),
            in_range(p@, 0x2000_0000),
            depth <= 16,
        ensures
            r == ({
                let t = turb_partial_spec(self, p@, SCALE as int, 0, 0, depth as int);
                if t < 0 {
                    -t
                } else {
                    t
                }
            }),
            0 <= r <= 48 * SCALE,
    {
        let mut accum: i64 = 0;
        let mut temp = Vec3::new(p.x, p.y, p.z);
        let mut weight: i64 = SCALE;
        let mut i: u16 = 0;
        while i < depth
            invariant
                i <= depth <= 16,
                perlin_wf(self),
                in_range(temp@, 0x1000_0000_0000),
                0 <= weight <= SCALE,
                -48 * SCALE <= accum <= 48 * SCALE,
                turb_partial_spec(self, temp@, weight as int, accum as int, i as int,
                    depth as int) == turb_partial_spec(self, p@, SCALE as int, 0, 0,
                    depth as int),
            decreases depth - i,
        {
            let n = self.noise(&temp);
            proof {
                assert(-(65536int * (24 * 65536)) <= weight as int * n as int
                    <= 65536int * (24 * 65536)) by (nonlinear_arith)
                    requires
                        0 <= weight as int <= 65536,
                        -(24 * 65536) <= n as int <= 24 * 65536;
                lemma_div_range(weight as int * n as int, 65536int * (24 * 65536), SCALE as int);
                assert((65536int * (24 * 65536)) / 65536int == 24 * 65536int)
                    by (nonlinear_arith);
            }
            let octave = fx_mul(weight, n);
            accum = if accum + octave > 48 * SCALE {
                48 * SCALE
            } else if accum + octave < -48 * SCALE {
                -48 * SCALE
            } else {
                accum + octave
            };
            weight = floor_div_i128(weight as i128, 2) as i64;
            proof {
                lemma_div_bounds(weight as int, 1);
            }
            let tx = if temp.x > 0x800_0000_0000 || temp.x < -0x800_0000_0000 {
                temp.x
            } else {
                2 * temp.x
            };
            let ty = if temp.y > 0x800_0000_0000 || temp.y < -0x800_0000_0000 {
                temp.y
            } else {
                2 * temp.y
            };
            let tz = if temp.z > 0x800_0000_0000 || temp.z < -0x800_0000_0000 {
                temp.z
            } else {
                2 * temp.z
            };
            temp = Vec3::new(tx, ty, tz);
            i = i + 1;
        }
        if accum < 0 {
            -accum
        } else {
            accum
        }
    }
}

/// Which lattice cell a coordinate falls in, and the fractional offset
/// within it.
fn lattice_cell(x: i64) -> (r: (i32, i64))
    requires
        -0x1000_0000_0000 <= x <= 0x1000_0000_0000,
    ensures
        0 <= r.0 < 256,
        0 <= r.1 < SCALE,
        r.0 as int == lattice_cell_spec(x as int).0,
        r.1 as int == lattice_cell_spec(x as int).1,
{
    let cell_wide = floor_div_i128(x as i128, SCALE as i128);
    proof {
        lemma_div_bounds(x as int, SCALE as int);
        lemma_mod_division_less_than_divisor(cell_wide as int, 256);
    }
    let cell = cell_wide as i64;
    let frac = x - cell * SCALE;
    proof {
        vstd::arithmetic::div_mod::lemma_fundamental_div_mod(x as int, SCALE as int);
        lemma_mod_division_less_than_divisor(x as int, SCALE as int);
    }
    let cm = match cell.checked_rem_euclid(256) {
        Some(c) => c,
        None => 0,
    };
    (cm as i32, frac)
}

/// Trilinear interpolation of the eight corner gradients with smoothed
/// weights; bounded by the corner count times the gradient amplitude.
pub fn perlin_interp(c: &Vec<Color>, u: i64, v: i64, w: i64) -> (r: i64)
    requires
        c@.len() == 8,
        forall|k: int| 0 <= k < 8 ==> in_range(#[trigger] c@[k]@, SCALE as int),
        0 <= u < SCALE,
        0 <= v < SCALE,
        0 <= w < SCALE,
    ensures
        r == interp_partial_spec(c@, u as int, v as int, w as int, 8),
        -24 * SCALE <= r <= 24 * SCALE,
{
    let uu = smooth(u);
    let vv = smooth(v);
    let ww = smooth(w);
    let mut accum: i64 = 0;
    let mut i: usize = 0;
    while i < 2
        invariant
            i <= 2,
            c@.len() == 8,
            forall|k: int| 0 <= k < 8 ==> in_range(#[trigger] c@[k]@, SCALE as int),
            0 <= u < SCALE && 0 <= v < SCALE && 0 <= w < SCALE,
            uu == smooth_spec(u as int) && vv == smooth_spec(v as int) && ww == smooth_spec(
                w as int,
            ),
            0 <= uu <= SCALE && 0 <= vv <= SCALE && 0 <= ww <= SCALE,
            -24 * SCALE <= accum <= 24 * SCALE,
            accum == interp_partial_spec(c@, u as int, v as int, w as int, 4 * i as int),
        decreases 2 - i,
    {
        let mut j: usize = 0;
        while j < 2
            invariant
                i < 2,
                j <= 2,
                c@.len() == 8,
                forall|k: int| 0 <= k < 8 ==> in_range(#[trigger] c@[k]@, SCALE as int),
                0 <= u < SCALE && 0 <= v < SCALE && 0 <= w < SCALE,
                uu == smooth_spec(u as int) && vv == smooth_spec(v as int) && ww
                    == smooth_spec(w as int),
                0 <= uu <= SCALE && 0 <= vv <= SCALE && 0 <= ww <= SCALE,
                -24 * SCALE <= accum <= 24 * SCALE,
                accum == interp_partial_spec(c@, u as int, v as int, w as int, 4
                    * i as int + 2 * j as int),
            decreases 2 - j,
        {
            let mut k: usize = 0;
            while k < 2
                invariant
                    i < 2,
                    j < 2,
                    k <= 2,
                    c@.len() == 8,
                    forall|m: int| 0 <= m < 8 ==> in_range(#[trigger] c@[m]@, SCALE as int),
                    0 <= u < SCALE && 0 <= v < SCALE && 0 <= w < SCALE,
                    uu == smooth_spec(u as int) && vv == smooth_spec(v as int) && ww
                        == smooth_spec(w as int),
                    0 <= uu <= SCALE && 0 <= vv <= SCALE && 0 <= ww <= SCALE,
                    -24 * SCALE <= accum <= 24 * SCALE,
                    accum == interp_partial_spec(c@, u as int, v as int, w as int, 4
                        * i as int + 2 * j as int + k as int),
                decreases 2 - k,
            {
                let wa = corner_weight(i, uu);
                let wb = corner_weight(j, vv);
                let wc = corner_weight(k, ww);
                let corner = c[4 * i + 2 * j + k];
                let wv = Vec3::new(
                    u - if i == 1 { SCALE } else { 0 },
                    v - if j == 1 { SCALE } else { 0 },
                    w - if k == 1 { SCALE } else { 0 },
                );
                let d = Vec3::dot(corner, wv);
                proof {
                    lemma_term_bounds(wa as int, wb as int, wc as int, d as int);
                    let m = 4 * i as int + 2 * j as int + k as int;
                    assert(m / 4 == i as int && (m % 4) / 2 == j as int && m % 2
                        == k as int) by (nonlinear_arith)
                        requires
                            m == 4 * i as int + 2 * j as int + k as int,
                            0 <= i as int && (i as int) < 2,
                            0 <= j as int && (j as int) < 2,
                            0 <= k as int && (k as int) < 2;
                }
                let t1 = fx_mul(wa, wb);
                let t2 = fx_mul(t1, wc);
                let term = fx_mul(t2, d);
                proof {
                    assert(term == interp_term_spec(c@, u as int, v as int, w as int, 4
                        * i as int + 2 * j as int + k as int));
                }
                accum = if accum + term > 24 * SCALE {
                    24 * SCALE
                } else if accum + term < -24 * SCALE {
                    -24 * SCALE
                } else {
                    accum + term
                };
                k = k + 1;
            }
            j = j + 1;
        }
        i = i + 1;
    }
    accum
}

/// The smoothstep weight `t * t * (3 - 2 t)` in fixed point.
fn smooth(t: i64) -> (r: i64)
    requires
        0 <= t < SCALE,
    ensures
        r == smooth_spec(t as int),
        0 <= r <= SCALE,
{
    proof {
        assert(0 <= t as int * t as int && t as int * t as int <= 65536int * 65536)
            by (nonlinear_arith)
            requires 0 <= t as int <= 65536;
        lemma_div_range(t as int * t as int, 65536int * 65536, SCALE as int);
        assert((65536int * 65536) / 65536int == 65536) by (nonlinear_arith);
        lemma_div_pos_is_pos_local(t as int * t as int);
    }
    let t2 = fx_mul(t, t);
    proof {
        assert(0 <= t2 as int * ((3 * SCALE - 2 * t) as int)
            && t2 as int * ((3 * SCALE - 2 * t) as int) <= 65536int * (3 * 65536))
            by (nonlinear_arith)
            requires
                0 <= t2 as int <= 65536,
                65536 <= (3 * SCALE - 2 * t) as int <= 3 * 65536,
        ;
        lemma_div_range(t2 as int * ((3 * SCALE - 2 * t) as int), 65536int * (3 * 65536),
            SCALE as int);
        assert((65536int * (3 * 65536)) / 65536int == 3 * 65536int) by (nonlinear_arith);
        lemma_div_pos_is_pos_local(t2 as int * ((3 * SCALE - 2 * t) as int));
    }
    let r = fx_mul(t2, 3 * SCALE - 2 * t);
    if r > SCALE {
        SCALE
    } else {
        r
    }
}

proof fn lemma_div_pos_is_pos_local(n: int)
    requires
        n >= 0,
    ensures
        n / (SCALE as int) >= 0,
{
    vstd::arithmetic::div_mod::lemma_div_pos_is_pos(n, SCALE as int);
}

/// Pick the weight for corner index 0 or 1.
fn corner_weight(idx: usize, s: i64) -> (r: i64)
    requires
        idx < 2,
        0 <= s <= SCALE,
    ensures
        r == corner_weight_spec(idx as int, s as int),
        0 <= r <= SCALE,
{
    if idx == 1 {
        s
    } else {
        SCALE - s
    }
}

/// The chained fixed-point products of bounded weights stay within what
/// `fx_mul` accepts.
proof fn lemma_term_bounds(wa: int, wb: int, wc: int, d: int)
    requires
        0 <= wa <= SCALE as int,
        0 <= wb <= SCALE as int,
        0 <= wc <= SCALE as int,
        -0xc000_0000_0000 <= d <= 0xc000_0000_0000,
    ensures
        0 <= wa * wb <= 0x4000_0000_0000_0000_0000,
        0 <= ((wa * wb) / (SCALE as int)) * wc <= 0x4000_0000_0000_0000_0000,
        -0x4000_0000_0000_0000_0000 <= (((wa * wb) / (SCALE as int)) * wc / (SCALE as int)) * d
            <= 0x4000_0000_0000_0000_0000,
{
    assert(0 <= wa * wb <= 65536int * 65536) by (nonlinear_arith)
        requires 0 <= wa <= 65536 && 0 <= wb <= 65536;
    lemma_div_range(wa * wb, 65536int * 65536, SCALE as int);
    assert((65536int * 65536) / 65536int == 65536) by (nonlinear_arith);
    vstd::arithmetic::div_mod::lemma_div_pos_is_pos(wa * wb, SCALE as int);
    let p1 = (wa * wb) / (SCALE as int);
    assert(0 <= p1 * wc <= 65536int * 65536) by (nonlinear_arith)
        requires 0 <= p1 <= 65536 && 0 <= wc <= 65536;
    lemma_div_range(p1 * wc, 65536int * 65536, SCALE as int);
    vstd::arithmetic::div_mod::lemma_div_pos_is_pos(p1 * wc, SCALE as int);
    let p2 = p1 * wc / (SCALE as int);
    assert(-0x10000_0000_0000_0000 <= p2 * d <= 0x10000_0000_0000_0000) by (nonlinear_arith)
        requires 0 <= p2 <= 65536 && -0xc000_0000_0000 <= d <= 0xc000_0000_0000;
}

/// A value drawn from the rearranged identity table is a lattice index.
proof fn lemma_multiset_range(s: Seq<i32>, ident: Seq<i32>, k: int)
    requires
        s.len() == 256,
        ident.len() == 256,
        forall|i: int| 0 <= i < 256 ==> #[trigger] ident[i] == i,
        0 <= k < 256,
        s.to_multiset() == ident.to_multiset(),
    ensures
        0 <= s[k] < 256,
{
    s.to_multiset_ensures();
    ident.to_multiset_ensures();
    assert(s.contains(s[k]));
    assert(s.to_multiset().contains(s[k]));
    assert(ident.to_multiset().contains(s[k]));
    assert(ident.contains(s[k]));
    let j = choose|j: int| 0 <= j < ident.len() && ident[j] == s[k];
    assert(ident[j] == j);
}

/// Swapping two positions preserves the multiset of entries.
proof fn lemma_swap_multiset(before: Seq<i32>, after: Seq<i32>, i: int, t: int)
    requires
        0 <= t < before.len(),
        0 <= i < before.len(),
        after == before.update(i, before[t]).update(t, before[i]),
    ensures
        after.to_multiset() == before.to_multiset(),
{
    if i == t {
        assert(after =~= before);
    } else {
        broadcast use vstd::multiset::group_multiset_axioms;

        let mid = before.update(i, before[t]);
        before.to_multiset_ensures();
        mid.to_multiset_ensures();
        vstd::seq_lib::to_multiset_update(before, i, before[t]);
        vstd::seq_lib::to_multiset_update(mid, t, before[i]);
        assert(mid[t] == before[t]);
        assert(before.contains(before[i]));
        assert(before.to_multiset().count(before[i]) > 0);
        assert(mid.contains(mid[i]));
        assert(mid.to_multiset().count(before[t]) > 0);
        assert forall|x: i32| after.to_multiset().count(x) == before.to_multiset().count(x) by {
        }
        assert(after.to_multiset() =~= before.to_multiset());
    }
}

} // verus!
