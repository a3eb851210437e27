//! Scattering materials: Lambertian diffuse, fuzzy metal, and clear
//! dielectric. Dispatch is a closed sum type; each variant's scatter
//! behaviour is stated exactly, with the random draws it consumes
//! existentially quantified.

use vstd::prelude::*;

use crate::fx::{fxdiv_s, fxmul_s, sqrt_s, FX_ONE};
use crate::ray::Ray;
use crate::vec3::{
    add_s, dot_s, lemma_dot_mag, lemma_fxmul_mag, lemma_mul_mag, lemma_tdiv_mag, near_zero_s,
    neg_s, norm2_s, reflect_s, refract_s, scale_s, unit_fits, unit_s, Vec3, V3,
};

verus! {

/// Color channels are fixed-point values in [0, 1].
pub open spec fn color_fits(c: V3) -> bool {
    &&& 0 <= c.x <= FX_ONE as int
    &&& 0 <= c.y <= FX_ONE as int
    &&& 0 <= c.z <= FX_ONE as int
}

#[derive(Clone, Copy, Debug)]
pub struct Lambertian {
    pub albedo: Vec3,
}

impl Lambertian {
    pub fn new(albedo: Vec3) -> (r: Lambertian)
        ensures
            r.albedo == albedo,
    {
        Lambertian { albedo }
    }
}

#[derive(Clone, Copy, Debug)]
pub struct Metal {
    pub albedo: Vec3,
    pub fuzz: i64,
}

impl Metal {
    /// Fuzz is a roughness and is clamped into [0, 1].
    pub fn new(albedo: Vec3, fuzz: i64) -> (r: Metal)
        ensures
            r.albedo == albedo,
            r.fuzz == if fuzz < 0 {
                0
            } else if fuzz < FX_ONE {
                fuzz
            } else {
                FX_ONE
            },
            0 <= r.fuzz <= FX_ONE,
    {
        Metal {
            albedo,
            fuzz: if fuzz < 0 {
                0
            } else if fuzz < FX_ONE {
                fuzz
            } else {
                FX_ONE
            },
        }
    }
}

#[derive(Clone, Copy, Debug)]
pub struct Dielectric {
    pub ir: i64,
}

impl Dielectric {
    pub fn new(index_of_refraction: i64) -> (r: Dielectric)
        ensures
            r.ir == index_of_refraction,
    {
        Dielectric { ir: index_of_refraction }
    }
}

#[derive(Clone, Copy, Debug)]
pub enum Material {
    Lambertian(Lambertian),
    Metal(Metal),
    Dielectric(Dielectric),
}

/// The color attenuation a material applies to scattered light: its
/// albedo, or plain white for the colorless dielectric.
pub open spec fn attenuation_s(m: Material) -> V3 {
    match m {
        Material::Lambertian(l) => l.albedo@,
        Material::Metal(mt) => mt.albedo@,
        Material::Dielectric(d) => V3 { x: FX_ONE as int, y: FX_ONE as int, z: FX_ONE as int },
    }
}

/// What every material stored in a scene satisfies: colors are genuine
/// colors, fuzz lies in [0, 1], and the refractive index is positive and,
/// as the machine representation forces, within [1/8, 8].
pub open spec fn mat_wf(m: Material) -> bool {
    match m {
        Material::Lambertian(l) => color_fits(l.albedo@),
        Material::Metal(mt) => color_fits(mt.albedo@) && 0 <= mt.fuzz <= FX_ONE as int,
        Material::Dielectric(d) => FX_ONE as int / 8 <= d.ir as int <= 8 * FX_ONE as int,
    }
}

/// What `random_unit_vector` guarantees of its draws: components within
/// the unit and squared raw length within a few scale units of one.
pub open spec fn unit_sample(u: V3) -> bool {
    &&& -(FX_ONE as int) <= u.x <= FX_ONE as int
    &&& -(FX_ONE as int) <= u.y <= FX_ONE as int
    &&& -(FX_ONE as int) <= u.z <= FX_ONE as int
    &&& 0x1000_0000_0000_0000 - 7 * 0x4000_0000 <= norm2_s(u) <= 0x1000_0000_0000_0000 + 11
        * 0x4000_0000
}

/// Diffuse scatter direction: normal plus a unit sample, falling back to
/// the bare normal when the sum cancels to near zero.
pub open spec fn lambertian_dir_s(normal: V3, u: V3) -> V3 {
    let d = add_s(normal, u);
    if near_zero_s(d) {
        normal
    } else {
        d
    }
}

/// Metallic scatter direction: the mirror reflection plus fuzz times a
/// unit sample.
pub open spec fn metal_dir_s(dir: V3, normal: V3, fuzz: int, u: V3) -> V3 {
    add_s(reflect_s(dir, normal), scale_s(u, fuzz))
}

/// Schlick's reflectance approximation, in fixed point.
pub open spec fn schlick_s(cos: int, ratio: int) -> int {
    let r0 = fxdiv_s((FX_ONE as int) - ratio, (FX_ONE as int) + ratio);
    let r00 = fxmul_s(r0, r0);
    let p = (FX_ONE as int) - cos;
    let p2 = fxmul_s(p, p);
    let p5 = fxmul_s(fxmul_s(p2, p2), p);
    r00 + fxmul_s((FX_ONE as int) - r00, p5)
}

/// The refraction ratio a dielectric uses: the reciprocal of its index
/// when the ray strikes the front face, the index itself when it exits.
pub open spec fn dielectric_ratio_s(ir: int, front: bool) -> int {
    if front {
        fxdiv_s(FX_ONE as int, ir)
    } else {
        ir
    }
}

/// The cosine term of the dielectric: the incident unit direction
/// against the normal, capped at one.
pub open spec fn dielectric_cos_s(ud: V3, normal: V3) -> int {
    let d = dot_s(neg_s(ud), normal);
    if d < FX_ONE as int {
        d
    } else {
        FX_ONE as int
    }
}

/// The sine term, sqrt(1 - cos^2), clamped below at zero.
pub open spec fn dielectric_sin_s(cos: int) -> int {
    let inner0 = (FX_ONE as int) - fxmul_s(cos, cos);
    let inner = if inner0 < 0 {
        0
    } else {
        inner0
    };
    sqrt_s(inner * (FX_ONE as int))
}

/// Dielectric scatter direction, given the uniform draw q in [0, 1):
/// total internal reflection forces a mirror reflection; otherwise the
/// ray reflects when Schlick's reflectance exceeds the draw and refracts
/// when it does not.
pub open spec fn dielectric_dir_s(ir: int, front: bool, ud: V3, normal: V3, q: int) -> V3 {
    let ratio = dielectric_ratio_s(ir, front);
    let cos = dielectric_cos_s(ud, normal);
    let sin = dielectric_sin_s(cos);
    if fxmul_s(ratio, sin) > FX_ONE as int || schlick_s(cos, ratio) > q {
        reflect_s(ud, normal)
    } else {
        refract_s(ud, normal, ratio)
    }
}

/// The scatter results a material admits on an incident direction and
/// hit record, over the random draws each variant consumes: whether the
/// ray continues at all, and the direction it takes. The diffuse and
/// the dielectric always continue; the metal continues exactly when its
/// fuzzed reflection leaves the surface.
pub open spec fn scatter_ok(
    m: Material,
    in_dir: V3,
    rec: crate::hittable::HitV,
    ok: bool,
    d: V3,
) -> bool {
    match m {
        Material::Lambertian(l) => {
            &&& ok == true
            &&& exists|u: V3| unit_sample(u) && d == lambertian_dir_s(rec.normal, u)
        },
        Material::Metal(mt) => {
            &&& exists|u: V3|
                unit_sample(u) && d == metal_dir_s(in_dir, rec.normal, mt.fuzz as int, u)
            &&& ok == (dot_s(d, rec.normal) > 0)
        },
        Material::Dielectric(dd) => {
            &&& ok == true
            &&& exists|q: int|
                0 <= q < FX_ONE as int && d == dielectric_dir_s(
                    dd.ir as int,
                    rec.front_face,
                    unit_s(in_dir),
                    rec.normal,
                    q,
                )
        },
    }
}

impl Material {
    /// How an incident ray continues after striking a surface with this
    /// material: whether it scatters at all, the color attenuation, and
    /// the scattered ray, which always starts at the hit point. The
    /// random draws each variant consumes are existentially quantified;
    /// everything else is exact.
    pub fn scatter(&self, r_in: &Ray, rec: &crate::hittable::HitRecord) -> (res: (bool, Vec3, Ray))
        requires
            mat_wf(*self),
            crate::hittable::ray_wf(r_in@),
            norm2_s(r_in.direction@) >= FX_ONE,
            unit_fits(rec.normal@),
            crate::hittable::pos_fits(rec.p@),
        ensures
            res.2.origin == rec.p,
            scatter_ok(*self, r_in.direction@, rec@, res.0, res.2.direction@),
            match *self {
                Material::Lambertian(l) => {
                    &&& res.0 == true
                    &&& res.1 == l.albedo
                    &&& exists|u: V3|
                        unit_sample(u) && res.2.direction@ == lambertian_dir_s(rec.normal@, u)
                },
                Material::Metal(m) => {
                    &&& res.1 == m.albedo
                    &&& exists|u: V3|
                        unit_sample(u) && res.2.direction@ == metal_dir_s(
                            r_in.direction@,
                            rec.normal@,
                            m.fuzz as int,
                            u,
                        )
                    &&& res.0 == (dot_s(res.2.direction@, rec.normal@) > 0)
                    &&& m.fuzz == 0 ==> res.2.direction@ == reflect_s(r_in.direction@, rec.normal@)
                },
                Material::Dielectric(d) => {
                    &&& res.0 == true
                    &&& res.1@ == (V3 { x: FX_ONE as int, y: FX_ONE as int, z: FX_ONE as int })
                    &&& exists|q: int|
                        0 <= q < FX_ONE as int && res.2.direction@ == dielectric_dir_s(
                            d.ir as int,
                            rec.front_face,
                            unit_s(r_in.direction@),
                            rec.normal@,
                            q,
                        )
                    &&& {
                        let ud = unit_s(r_in.direction@);
                        let ratio = dielectric_ratio_s(d.ir as int, rec.front_face);
                        fxmul_s(ratio, dielectric_sin_s(dielectric_cos_s(ud, rec.normal@)))
                            > FX_ONE as int ==> res.2.direction@ == reflect_s(ud, rec.normal@)
                    }
                },
            },
    {
        match self {
            Material::Lambertian(l) => {
                let u = crate::vec3::random_unit_vector();
                let d0 = rec.normal.add(&u);
                let dir = if d0.near_zero() {
                    rec.normal
                } else {
                    d0
                };
                proof {
                    assert(unit_sample(u@) && dir@ == lambertian_dir_s(rec.normal@, u@));
                    assert(scatter_ok(*self, r_in.direction@, rec@, true, dir@));
                }
                (true, l.albedo, Ray::new(rec.p, dir))
            },
            Material::Metal(m) => {
                let reflected = crate::vec3::reflect(&r_in.direction, &rec.normal);
                let u = crate::vec3::random_unit_vector();
                proof {
                    lemma_fxmul_mag(u@.x, m.fuzz as int, 0x8000_0000int, 0x4000_0000int);
                    lemma_fxmul_mag(u@.y, m.fuzz as int, 0x8000_0000int, 0x4000_0000int);
                    lemma_fxmul_mag(u@.z, m.fuzz as int, 0x8000_0000int, 0x4000_0000int);
                }
                let fuzzed = u.mul_scalar(m.fuzz);
                let dir = reflected.add(&fuzzed);
                proof {
                    lemma_dot_mag(dir@, rec.normal@, 0x2_0001_0000_0000int, 0x8000_0000int);
                    assert(unit_sample(u@) && dir@ == metal_dir_s(
                        r_in.direction@,
                        rec.normal@,
                        m.fuzz as int,
                        u@,
                    ));
                    if m.fuzz == 0 {
                        lemma_scale_zero(u@);
                    }
                }
                let scattered = crate::vec3::dot(&dir, &rec.normal) > 0;
                proof {
                    assert(scatter_ok(*self, r_in.direction@, rec@, scattered, dir@));
                }
                (scattered, m.albedo, Ray::new(rec.p, dir))
            },
            Material::Dielectric(d) => {
                let ratio = if rec.front_face {
                    proof {
                        lemma_recip_bounds(d.ir as int);
                    }
                    crate::fx::fxdiv(FX_ONE, d.ir)
                } else {
                    d.ir
                };
                let ud = crate::vec3::unit_vector(&r_in.direction);
                proof {
                    lemma_dot_mag(neg_s(ud@), rec.normal@, 0x4000_0000int, 0x8000_0000int);
                }
                let mut cos = crate::vec3::dot(&ud.neg(), &rec.normal);
                if cos > FX_ONE {
                    cos = FX_ONE;
                }
                proof {
                    lemma_fxmul_mag(cos as int, cos as int, 0x1_8000_0000int, 0x1_8000_0000int);
                }
                let inner0 = FX_ONE - crate::fx::fxmul(cos, cos);
                let inner = if inner0 < 0 {
                    0
                } else {
                    inner0
                };
                proof {
                    lemma_mul_mag(inner as int, FX_ONE as int, 0x10_0000_0000int, 0x4000_0000int);
                    assert(0 <= (inner as int) * (FX_ONE as int)) by (nonlinear_arith)
                        requires
                            inner >= 0,
                    ;
                    crate::fx::lemma_sqrt_at_most(
                        (inner as int) * (FX_ONE as int),
                        0x2_0000_0000int,
                    );
                    crate::fx::lemma_sqrt_props((inner as int) * (FX_ONE as int));
                }
                let sin = crate::fx::fx_sqrt(inner);
                proof {
                    lemma_fxmul_mag(ratio as int, sin as int, 0x2_0000_0000int, 0x2_0000_0000int);
                }
                let cannot_refract = crate::fx::fxmul(ratio, sin) > FX_ONE;
                let refl = reflectance_exec(cos, ratio);
                let q = crate::utils::random_double();
                let dir = if cannot_refract || refl > q {
                    crate::vec3::reflect(&ud, &rec.normal)
                } else {
                    crate::vec3::refract(&ud, &rec.normal, ratio)
                };
                proof {
                    assert(0 <= q && q < FX_ONE && dir@ == dielectric_dir_s(
                        d.ir as int,
                        rec.front_face,
                        unit_s(r_in.direction@),
                        rec.normal@,
                        q as int,
                    ));
                    assert(exists|qq: int|
                        0 <= qq < FX_ONE as int && dir@ == dielectric_dir_s(
                            d.ir as int,
                            rec@.front_face,
                            unit_s(r_in.direction@),
                            rec@.normal,
                            qq,
                        )) by {
                        assert(0 <= q && q < FX_ONE && dir@ == dielectric_dir_s(
                            d.ir as int,
                            rec@.front_face,
                            unit_s(r_in.direction@),
                            rec@.normal,
                            q as int,
                        ));
                    }
                    assert(scatter_ok(*self, r_in.direction@, rec@, true, dir@));
                }
                (true, Vec3::new(FX_ONE, FX_ONE, FX_ONE), Ray::new(rec.p, dir))
            },
        }
    }
}

/// Scaling by zero yields the zero vector.
proof fn lemma_scale_zero(u: V3)
    ensures
        scale_s(u, 0) == (V3 { x: 0, y: 0, z: 0 }),
{
    assert(u.x * 0 == 0) by (nonlinear_arith);
    assert(u.y * 0 == 0) by (nonlinear_arith);
    assert(u.z * 0 == 0) by (nonlinear_arith);
}

/// The reciprocal of an index in [1/8, 8] lies in (0, 8].
proof fn lemma_recip_bounds(ir: int)
    requires
        (FX_ONE as int) / 8 <= ir <= 8 * (FX_ONE as int),
    ensures
        (FX_ONE as int) / 8 <= fxdiv_s(FX_ONE as int, ir) <= 8 * (FX_ONE as int),
{
    vstd::arithmetic::div_mod::lemma_div_is_ordered_by_denominator(
        0x4000_0000int * 0x4000_0000int,
        0x800_0000int,
        ir,
    );
    assert(0x4000_0000int * 0x4000_0000int / 0x800_0000int == 8 * 0x4000_0000int)
        by (nonlinear_arith);
    vstd::arithmetic::div_mod::lemma_div_is_ordered_by_denominator(
        0x4000_0000int * 0x4000_0000int,
        ir,
        8 * 0x4000_0000int,
    );
    assert(0x4000_0000int * 0x4000_0000int / (8 * 0x4000_0000int) == 0x800_0000int)
        by (nonlinear_arith);
}

/// Schlick's reflectance, computed exactly as schlick_s states it.
fn reflectance_exec(cos: i64, ratio: i64) -> (r: i64)
    requires
        (FX_ONE as int) / 8 <= ratio <= 8 * (FX_ONE as int),
        -6 * (FX_ONE as int) <= cos <= FX_ONE as int,
    ensures
        r == schlick_s(cos as int, ratio as int),
{
    proof {
        lemma_schlick_r0_fits(ratio as int);
    }
    let r0a = crate::fx::fxdiv(FX_ONE - ratio, FX_ONE + ratio);
    proof {
        lemma_fxmul_mag(r0a as int, r0a as int, 0x2_0000_0000int, 0x2_0000_0000int);
    }
    let r00 = crate::fx::fxmul(r0a, r0a);
    let p = FX_ONE - cos;
    proof {
        lemma_fxmul_mag(p as int, p as int, 0x1_c000_0000int, 0x1_c000_0000int);
        lemma_fxmul_mag(
            fxmul_s(p as int, p as int),
            fxmul_s(p as int, p as int),
            0xc_4000_0000int,
            0xc_4000_0000int,
        );
        lemma_fxmul_mag(
            fxmul_s(fxmul_s(p as int, p as int), fxmul_s(p as int, p as int)),
            p as int,
            0x258_4000_0000int,
            0x1_c000_0000int,
        );
    }
    let p2 = crate::fx::fxmul(p, p);
    let p4 = crate::fx::fxmul(p2, p2);
    let p5 = crate::fx::fxmul(p4, p);
    proof {
        lemma_fxmul_mag(
            (FX_ONE as int) - r00,
            fxmul_s(fxmul_s(fxmul_s(p as int, p as int), fxmul_s(p as int, p as int)), p as int),
            0x10_4000_0000int,
            0x1069c0000000int,
        );
    }
    let tail = crate::fx::fxmul(FX_ONE - r00, p5);
    r00 + tail
}

/// The Schlick base term (1 - ratio) / (1 + ratio) stays within [-8, 8].
proof fn lemma_schlick_r0_fits(ratio: int)
    requires
        0x800_0000int <= ratio <= 8 * 0x4000_0000int,
    ensures
        -8 * (FX_ONE as int) <= fxdiv_s((FX_ONE as int) - ratio, (FX_ONE as int) + ratio) <= 8 * (
        FX_ONE as int),
{
    let b = (FX_ONE as int) + ratio;
    assert(-(b * (8 * 0x4000_0000int)) <= ((0x4000_0000int) - ratio) * 0x4000_0000int <= b * (8
        * 0x4000_0000int)) by (nonlinear_arith)
        requires
            b == 0x4000_0000int + ratio && 0x800_0000int <= ratio <= 8 * 0x4000_0000int,
    ;
    lemma_tdiv_mag(((FX_ONE as int) - ratio) * (FX_ONE as int), b, b * (8 * (FX_ONE as int)));
    vstd::arithmetic::div_mod::lemma_div_multiples_vanish(8 * (FX_ONE as int), b);
}

} // verus!
