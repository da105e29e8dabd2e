//! Textures: solid colors, the checker pattern, gradient-noise marble and
//! image-backed lookups. Values are exact except where noise enters;
//! noise values are bounded into the color range.

use vstd::prelude::*;
use crate::fx::{SCALE, clamp_spec, fx_mul, fx_mul_spec, lemma_div_range, sin_turns, sin_turns_spec, wrap_turns};
use crate::perlin::{perlin_wf, Perlin};
use crate::vec3::{in_range, Color, Point3, V3, Vec3};
#[allow(unused_imports)]
use vstd::arithmetic::div_mod::{lemma_div_pos_is_pos};

verus! {

/// Upper bound on any texture color component (4096 units of radiance).
pub const CLR_MAX: i64 = 0x1000_0000;

/// Bound on the points textures are sampled at.
pub const TEX_P_BOUND: i64 = 0x1000_0000_0000;

/// Reciprocal of two pi in fixed point: converts radians to turns.
pub const INV_TAU_FX: i64 = 10430;

#[derive(Clone, Copy, PartialEq, Eq, Structural, Debug)]
pub struct SolidColor {
    pub color_value: Color,
}

pub struct CheckerTexture {
    pub odd: std::boxed::Box<Texture>,
    pub even: std::boxed::Box<Texture>,
}

#[derive(Clone, Debug)]
pub struct NoiseTexture {
    pub noise: Perlin,
    pub scale: i64,
}

/// Image data as a row-major table of colors; decoding happens outside
/// the library, which sees only plain values.
#[derive(Clone, Debug)]
pub struct ImageTexture {
    pub data: Vec<Color>,
    pub width: usize,
    pub height: usize,
}

pub enum Texture {
    Solid(SolidColor),
    Checker(CheckerTexture),
    Noise(NoiseTexture),
    Image(ImageTexture),
}

/// Every color a texture can produce lies in `[0, CLR_MAX]` per
/// component.
pub open spec fn color_wf(c: V3) -> bool {
    0 <= c.x <= CLR_MAX as int && 0 <= c.y <= CLR_MAX as int && 0 <= c.z <= CLR_MAX as int
}

pub open spec fn texture_wf(t: &Texture) -> bool
    decreases t,
{
    match t {
        Texture::Solid(s) => color_wf(s.color_value@),
        Texture::Checker(c) => texture_wf(&c.odd) && texture_wf(&c.even),
        Texture::Noise(n) => perlin_wf(&n.noise) && 0 <= n.scale <= 0x100_0000,
        Texture::Image(im) => {
            &&& 1 <= im.width <= 0x1_0000
            &&& 1 <= im.height <= 0x1_0000
            &&& im.data@.len() == im.width * im.height
            &&& forall|i: int| 0 <= i < im.data@.len() ==> color_wf(#[trigger] im.data@[i]@)
        },
    }
}

/// The checker sign: the product of the three coordinate sines.
pub open spec fn checker_sines_spec(p: V3) -> int {
    let sx = sin_turns_spec(fx_mul_spec(p.x, 104308) % (SCALE as int));
    let sy = sin_turns_spec(fx_mul_spec(p.y, 104308) % (SCALE as int));
    let sz = sin_turns_spec(fx_mul_spec(p.z, 104308) % (SCALE as int));
    fx_mul_spec(fx_mul_spec(sx, sy), sz)
}

/// Which pixel an image lookup reads.
pub open spec fn image_index_spec(im: &ImageTexture, u: int, v: int) -> int {
    let uc = clamp_spec(u, 0, SCALE as int);
    let vc = (SCALE as int) - clamp_spec(v, 0, SCALE as int);
    let i0 = (uc * (im.width as int)) / (SCALE as int);
    let j0 = (vc * (im.height as int)) / (SCALE as int);
    let i = if i0 >= im.width as int {
        im.width as int - 1
    } else {
        i0
    };
    let j = if j0 >= im.height as int {
        im.height as int - 1
    } else {
        j0
    };
    j * (im.width as int) + i
}

/// The grey marble shade at a point: a sine of the scaled depth plus
/// ten turbulence octaves, lifted into the unit color range.
pub open spec fn noise_value_spec(n: &NoiseTexture, p: V3) -> int {
    let base = fx_mul_spec(n.scale as int, p.z);
    let tp = V3 {
        x: clamp_spec(p.x, -0x2000_0000, 0x2000_0000),
        y: clamp_spec(p.y, -0x2000_0000, 0x2000_0000),
        z: clamp_spec(p.z, -0x2000_0000, 0x2000_0000),
    };
    let t0 = crate::perlin::turb_partial_spec(&n.noise, tp, SCALE as int, 0, 0, 7);
    let tu = if t0 < 0 {
        -t0
    } else {
        t0
    };
    let arg = base + 10 * tu;
    let turns = fx_mul_spec(arg, INV_TAU_FX as int) % (SCALE as int);
    let half = (SCALE as int + sin_turns_spec(turns)) / 2;
    clamp_spec(half, 0, SCALE as int)
}

/// What a texture returns.
pub open spec fn texture_value_spec(t: &Texture, u: int, v: int, p: V3) -> V3
    decreases t,
{
    match t {
        Texture::Solid(s) => s.color_value@,
        Texture::Checker(c) => if checker_sines_spec(p) < 0 {
            texture_value_spec(&c.odd, u, v, p)
        } else {
            texture_value_spec(&c.even, u, v, p)
        },
        Texture::Noise(n) => {
            let g = noise_value_spec(n, p);
            V3 { x: g, y: g, z: g }
        },
        Texture::Image(im) => im.data@[image_index_spec(im, u, v)]@,
    }
}

impl SolidColor {
    pub fn new(red: i64, green: i64, blue: i64) -> (s: SolidColor)
        ensures
            s.color_value@ == (V3 { x: red as int, y: green as int, z: blue as int }),
    {
        SolidColor { color_value: Vec3::new(red, green, blue) }
    }

    pub fn new_with_color(c: Color) -> (s: SolidColor)
        ensures
            s.color_value == c,
    {
        SolidColor { color_value: c }
    }
}

impl CheckerTexture {
    pub fn new(o: Texture, e: Texture) -> (c: CheckerTexture)
        ensures
            c.odd == o,
            c.even == e,
    {
        CheckerTexture { odd: std::boxed::Box::new(o), even: std::boxed::Box::new(e) }
    }
}

impl NoiseTexture {
    pub fn new(s: i64, noise: Perlin) -> (n: NoiseTexture)
        ensures
            n.scale == s,
            n.noise == noise,
    {
        NoiseTexture { noise, scale: s }
    }
}

impl ImageTexture {
    pub fn new(data: Vec<Color>, width: usize, height: usize) -> (im: ImageTexture)
        ensures
            im.data == data,
            im.width == width,
            im.height == height,
    {
        ImageTexture { data, width, height }
    }
}

impl Texture {
    /// Sample the texture at coordinates `(u, v)` and point `p`. The
    /// result is a well-formed color; for noise-free textures it is
    /// pinned exactly.
    pub fn value(&self, u: i64, v: i64, p: &Point3) -> (r: Color)
        requires
            texture_wf(self),
            in_range(p@, TEX_P_BOUND as int),
        ensures
            color_wf(r@),
            r@ == texture_value_spec(self, u as int, v as int, p@),
        decreases self,
    {
        match self {
            Texture::Solid(s) => s.color_value,
            Texture::Checker(c) => {
                let sines = checker_sines(p);
                if sines < 0 {
                    c.odd.value(u, v, p)
                } else {
                    c.even.value(u, v, p)
                }
            },
            Texture::Noise(n) => {
                proof {
                    assert(-(0x100_0000int * 0x1000_0000_0000)
                        <= n.scale as int * p@.z <= 0x100_0000int * 0x1000_0000_0000)
                        by (nonlinear_arith)
                        requires
                            0 <= n.scale as int <= 0x100_0000,
                            -0x1000_0000_0000 <= p@.z <= 0x1000_0000_0000;
                    lemma_div_range(n.scale as int * p@.z, 0x100_0000int * 0x1000_0000_0000,
                        SCALE as int);
                    assert((0x100_0000int * 0x1000_0000_0000) / 65536int
                        == 0x10_0000_0000_0000int) by (nonlinear_arith);
                }
                let base = fx_mul(n.scale, p.z);
                let tp = Vec3::new(
                    crate::fx::clamp(p.x, -0x2000_0000, 0x2000_0000),
                    crate::fx::clamp(p.y, -0x2000_0000, 0x2000_0000),
                    crate::fx::clamp(p.z, -0x2000_0000, 0x2000_0000),
                );
                let tu = n.noise.turb(&tp, 7);
                let arg = base + 10 * tu;
                proof {
                    assert(-0x4000_0000_0000_0000_0000 <= arg as int * (INV_TAU_FX as int)
                        <= 0x4000_0000_0000_0000_0000) by (nonlinear_arith)
                        requires -0x20_0000_0000_0000 <= arg as int <= 0x20_0000_0000_0000;
                }
                let turns = wrap_turns(fx_mul(arg, INV_TAU_FX));
                let s = sin_turns(turns);
                let half = crate::fx::floor_div_i128((SCALE + s) as i128, 2) as i64;
                proof {
                    crate::fx::lemma_div_bounds((SCALE + s) as int, 2);
                }
                let hc = if half > SCALE {
                    SCALE
                } else if half < 0 {
                    0
                } else {
                    half
                };
                Vec3::new(hc, hc, hc)
            },
            Texture::Image(im) => {
                let uc = crate::fx::clamp(u, 0, SCALE);
                let vc = SCALE - crate::fx::clamp(v, 0, SCALE);
                proof {
                    assert(0 <= uc as int * (im.width as int)
                        <= 65536int * 0x1_0000) by (nonlinear_arith)
                        requires
                            0 <= uc as int <= 65536,
                            1 <= im.width as int <= 0x1_0000;
                    assert(0 <= vc as int * (im.height as int)
                        <= 65536int * 0x1_0000) by (nonlinear_arith)
                        requires
                            0 <= vc as int <= 65536,
                            1 <= im.height as int <= 0x1_0000;
                    lemma_div_range(uc as int * (im.width as int), 65536int * 0x1_0000,
                        SCALE as int);
                    lemma_div_range(vc as int * (im.height as int), 65536int * 0x1_0000,
                        SCALE as int);
                    lemma_div_pos_is_pos(uc as int * (im.width as int), SCALE as int);
                    lemma_div_pos_is_pos(vc as int * (im.height as int), SCALE as int);
                }
                let i0 = crate::fx::floor_div_i128(
                    (uc as i128) * (im.width as i128),
                    SCALE as i128,
                ) as usize;
                let j0 = crate::fx::floor_div_i128(
                    (vc as i128) * (im.height as i128),
                    SCALE as i128,
                ) as usize;
                let i = if i0 >= im.width {
                    im.width - 1
                } else {
                    i0
                };
                let j = if j0 >= im.height {
                    im.height - 1
                } else {
                    j0
                };
                proof {
                    assert(j * im.width + i < im.width * im.height) by (nonlinear_arith)
                        requires
                            0 <= i < im.width as int,
                            0 <= j < im.height as int,
                            1 <= im.width,
                            1 <= im.height;
                    assert(im.width * im.height <= 0x1_0000int * 0x1_0000) by (nonlinear_arith)
                        requires im.width <= 0x1_0000 && im.height <= 0x1_0000
                            && im.width >= 0 && im.height >= 0;
                }
                im.data[j * im.width + i]
            },
        }
    }
}

/// The exec checker sign; exact against `checker_sines_spec`.
fn checker_sines(p: &Point3) -> (r: i64)
    requires
        in_range(p@, TEX_P_BOUND as int),
    ensures
        r == checker_sines_spec(p@),
{
    let sx = sin_of_scaled(p.x);
    let sy = sin_of_scaled(p.y);
    let sz = sin_of_scaled(p.z);
    proof {
        assert(-(65536int * 65536) <= sx as int * sy as int <= 65536int * 65536)
            by (nonlinear_arith)
            requires -65536 <= sx as int <= 65536 && -65536 <= sy as int <= 65536;
        lemma_div_range(sx as int * sy as int, 65536int * 65536, SCALE as int);
        assert((65536int * 65536) / 65536int == 65536) by (nonlinear_arith);
    }
    let sxy = fx_mul(sx, sy);
    proof {
        assert(-(2 * 65536int * 65536) <= sxy as int * sz as int <= 2 * 65536int * 65536)
            by (nonlinear_arith)
            requires -2 * 65536 <= sxy as int <= 2 * 65536 && -65536 <= sz as int <= 65536;
    }
    fx_mul(sxy, sz)
}

/// The sine of a coordinate scaled by ten radians per unit.
fn sin_of_scaled(x: i64) -> (r: i64)
    requires
        -TEX_P_BOUND <= x <= TEX_P_BOUND,
    ensures
        r == sin_turns_spec(fx_mul_spec(x as int, 104308) % (SCALE as int)),
        -SCALE <= r <= SCALE,
{
    proof {
        assert(-(0x1000_0000_0000int * 104308) <= x as int * 104308
            <= 0x1000_0000_0000int * 104308) by (nonlinear_arith)
            requires -0x1000_0000_0000 <= x as int <= 0x1000_0000_0000;
    }
    let scaled = fx_mul(x, 104308);
    let turns = wrap_turns(scaled);
    sin_turns(turns)
}

} // verus!
