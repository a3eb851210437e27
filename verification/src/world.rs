//! Scene construction: the procedurally generated random scene, and the
//! text scene description, one sphere per line:
//! `x y z radius material_type [params...]`. Malformed lines are
//! skipped; a ground sphere is always present.

use vstd::prelude::*;

use crate::fx::{fxmul, fxmul_s, tdiv, tdiv_i128, FX_ONE};
use crate::hittable::{HittableList, Sphere, POS_MAX};
use crate::material::{color_fits, Dielectric, Lambertian, Material, Metal};
use crate::utils::random_double;
use crate::vec3::{
    length_s, lemma_fxmul_mag, lemma_mul_nonneg, lemma_tdiv_mag, norm2_s, sub_s, Vec3, V3,
};

verus! {

/// 0.2, 0.5, 0.8, 0.9 and 0.95 in raw fixed-point form.
pub const C02: i64 = 214748365;

pub const C05: i64 = 0x2000_0000;

pub const C08: i64 = 858993459;

pub const C09: i64 = 966367642;

pub const C095: i64 = 1020054733;

/// 1.5 and 1000 in raw fixed-point form.
pub const C15: i64 = 0x6000_0000;

pub const C1000: i64 = 1000i64 * 0x4000_0000i64;

/// The gray ground sphere every scene carries.
pub open spec fn ground_sphere_s() -> Sphere {
    Sphere {
        center: Vec3 { x: 0, y: (-C1000) as i64, z: 0 },
        radius: C1000,
        mat: Material::Lambertian(Lambertian { albedo: Vec3 { x: C05, y: C05, z: C05 } }),
    }
}

fn ground_sphere() -> (r: Sphere)
    ensures
        r == ground_sphere_s(),
        r.wf(),
{
    Sphere::new(
        Vec3 { x: 0, y: -C1000, z: 0 },
        C1000,
        Material::Lambertian(Lambertian::new(Vec3 { x: C05, y: C05, z: C05 })),
    )
}

/// The anchor every small sphere must keep its distance from: the
/// center of the front feature sphere, dropped to grid height.
pub open spec fn grid_anchor_s() -> V3 {
    V3 { x: 4 * (FX_ONE as int), y: C02 as int, z: 0 }
}

/// The materials the grid draws: a diffuse ball of any color, a light
/// metal with fuzz at most one half, or glass of index 1.5.
pub open spec fn small_mat_ok(m: Material) -> bool {
    match m {
        Material::Lambertian(l) => color_fits(l.albedo@),
        Material::Metal(mt) => {
            &&& C05 as int <= mt.albedo.x <= FX_ONE as int
            &&& C05 as int <= mt.albedo.y <= FX_ONE as int
            &&& C05 as int <= mt.albedo.z <= FX_ONE as int
            &&& 0 <= mt.fuzz <= C05 as int
        },
        Material::Dielectric(d) => d.ir == C15,
    }
}

/// The coordinates grid cell a admits along its axis: the cell's draw
/// jitters by 0.9 at most, so its box spans [a, a + 0.9).
pub open spec fn in_cell(c: int, a: int) -> bool {
    a * (FX_ONE as int) <= c < a * (FX_ONE as int) + C09 as int
}

/// Whether a sphere's center rests in the box of grid cell (a, b).
pub open spec fn sphere_in_cell(sp: Sphere, a: int, b: int) -> bool {
    in_cell(sp.center.x as int, a) && in_cell(sp.center.z as int, b)
}

/// A cell whose whole box keeps more than 0.9 from the anchor: every
/// draw within it passes the distance test, so the scene owes the cell
/// a sphere. Only the four cells around the anchor can come closer.
pub open spec fn cell_clear(a: int, b: int) -> bool {
    !(3 <= a <= 4 && -1 <= b <= 0)
}

/// The shape of every small grid sphere: radius 0.2, resting at grid
/// height inside the box of one cell of the 22 by 22 grid, more than
/// 0.9 from the anchor, with one of the grid's materials.
pub open spec fn small_sphere_ok(sp: Sphere) -> bool {
    &&& sp.radius == C02
    &&& sp.center.y == C02
    &&& exists|a: int, b: int|
        -11 <= a < 11 && -11 <= b < 11 && #[trigger] sphere_in_cell(sp, a, b)
    &&& length_s(sub_s(sp.center@, grid_anchor_s())) > C09 as int
    &&& small_mat_ok(sp.mat)
}

/// The three large feature spheres, in the order they are added.
pub open spec fn feature_glass_s() -> Sphere {
    Sphere {
        center: Vec3 { x: 0, y: FX_ONE, z: 0 },
        radius: FX_ONE,
        mat: Material::Dielectric(Dielectric { ir: C15 }),
    }
}

pub open spec fn feature_diffuse_s() -> Sphere {
    Sphere {
        center: Vec3 { x: ((-4) * (FX_ONE as int)) as i64, y: FX_ONE, z: 0 },
        radius: FX_ONE,
        mat: Material::Lambertian(
            Lambertian { albedo: Vec3 { x: 429496730, y: 214748365, z: 107374182 } },
        ),
    }
}

pub open spec fn feature_metal_s() -> Sphere {
    Sphere {
        center: Vec3 { x: (4 * (FX_ONE as int)) as i64, y: FX_ONE, z: 0 },
        radius: FX_ONE,
        mat: Material::Metal(
            Metal { albedo: Vec3 { x: 751619277, y: 644245094, z: 536870912 }, fuzz: 0 },
        ),
    }
}

/// The grid of small random spheres plus the three large feature
/// spheres, over the ground: a diffuse, a metallic or a glass ball at
/// each grid cell not too close to the front feature sphere. The result
/// always starts with the ground sphere, ends with the three feature
/// spheres, every sphere between them has the grid shape, and every
/// cell whose box keeps clear of the anchor is populated, whatever the
/// draws came to.
pub fn random_scene() -> (r: HittableList)
    ensures
        r.wf(),
        4 <= r.objects@.len() <= 488,
        r.objects@[0] == ground_sphere_s(),
        forall|k: int|
            1 <= k < r.objects@.len() - 3 ==> small_sphere_ok(#[trigger] r.objects@[k]),
        forall|a: int, b: int|
            -11 <= a < 11 && -11 <= b < 11 && #[trigger] cell_clear(a, b) ==> exists|k: int|
                1 <= k < r.objects@.len() - 3 && sphere_in_cell(#[trigger] r.objects@[k], a, b),
        r.objects@[r.objects@.len() - 3] == feature_glass_s(),
        r.objects@[r.objects@.len() - 2] == feature_diffuse_s(),
        r.objects@[r.objects@.len() - 1] == feature_metal_s(),
{
    let mut world = HittableList::new();
    world.add(ground_sphere());

    let mut a: i64 = -11;
    while a < 11
        invariant
            -11 <= a <= 11,
            world.wf(),
            world.objects@.len() >= 1,
            world.objects@[0] == ground_sphere_s(),
            world.objects@.len() <= 1 + (a + 11) * 22,
            forall|k: int|
                1 <= k < world.objects@.len() ==> small_sphere_ok(#[trigger] world.objects@[k]),
            forall|a2: int, b2: int|
                -11 <= a2 < a && -11 <= b2 < 11 && #[trigger] cell_clear(a2, b2)
                    ==> exists|k: int|
                    1 <= k < world.objects@.len() && sphere_in_cell(
                        #[trigger] world.objects@[k],
                        a2,
                        b2,
                    ),
        decreases 11 - a,
    {
        let mut b: i64 = -11;
        while b < 11
            invariant
                -11 <= a < 11,
                -11 <= b <= 11,
                world.wf(),
                world.objects@.len() >= 1,
                world.objects@[0] == ground_sphere_s(),
                world.objects@.len() <= 1 + (a + 11) * 22 + (b + 11),
                forall|k: int|
                    1 <= k < world.objects@.len() ==> small_sphere_ok(
                        #[trigger] world.objects@[k],
                    ),
                forall|a2: int, b2: int|
                    ((-11 <= a2 < a && -11 <= b2 < 11) || (a2 == a && -11 <= b2 < b))
                        && #[trigger] cell_clear(a2, b2) ==> exists|k: int|
                        1 <= k < world.objects@.len() && sphere_in_cell(
                            #[trigger] world.objects@[k],
                            a2,
                            b2,
                        ),
            decreases 11 - b,
        {
            let choose_mat = random_double();
            proof {
                lemma_fxmul_mag(C09 as int, 0x4000_0000int, 0x4000_0000int, 0x4000_0000int);
                lemma_jitter_09();
            }
            let jx = fxmul(C09, random_double());
            let jz = fxmul(C09, random_double());
            let cx = a * FX_ONE + jx;
            let cz = b * FX_ONE + jz;
            let center = Vec3 { x: cx, y: C02, z: cz };
            let anchor = Vec3 { x: 4 * FX_ONE, y: C02, z: 0 };
            let d = center.sub(&anchor);
            let ghost prevobjs = world.objects@;
            if d.length() > C09 {
                let mat = if choose_mat < C08 {
                    proof {
                        lemma_rand_product_color();
                    }
                    let albedo = Vec3 {
                        x: fxmul(random_double(), random_double()),
                        y: fxmul(random_double(), random_double()),
                        z: fxmul(random_double(), random_double()),
                    };
                    Material::Lambertian(Lambertian::new(albedo))
                } else if choose_mat < C095 {
                    proof {
                        lemma_half_one_plus_rand();
                    }
                    let albedo = Vec3 {
                        x: fxmul(C05, FX_ONE + random_double()),
                        y: fxmul(C05, FX_ONE + random_double()),
                        z: fxmul(C05, FX_ONE + random_double()),
                    };
                    let fuzz = fxmul(C05, random_double());
                    Material::Metal(Metal::new(albedo, fuzz))
                } else {
                    Material::Dielectric(Dielectric::new(C15))
                };
                let sp = Sphere::new(center, C02, mat);
                proof {
                    assert(sphere_in_cell(sp, a as int, b as int));
                    assert(small_sphere_ok(sp));
                }
                world.add(sp);
                proof {
                    assert forall|a2: int, b2: int|
                        ((-11 <= a2 < a && -11 <= b2 < 11) || (a2 == a && -11 <= b2 < b + 1))
                            && #[trigger] cell_clear(a2, b2) implies exists|k: int|
                        1 <= k < world.objects@.len() && sphere_in_cell(
                            #[trigger] world.objects@[k],
                            a2,
                            b2,
                        ) by {
                        if a2 == a as int && b2 == b as int {
                            let n = prevobjs.len() as int;
                            assert(world.objects@[n] == sp);
                            assert(sphere_in_cell(world.objects@[n], a2, b2));
                        } else {
                            let k = choose|k: int|
                                1 <= k < prevobjs.len() && sphere_in_cell(
                                    #[trigger] prevobjs[k],
                                    a2,
                                    b2,
                                );
                            assert(world.objects@[k] == prevobjs[k]);
                            assert(sphere_in_cell(world.objects@[k], a2, b2));
                        }
                    }
                }
            } else {
                proof {
                    if cell_clear(a as int, b as int) {
                        lemma_clear_cell_far(a as int, b as int, jx as int, jz as int);
                        assert(d@ == (V3 {
                            x: (a as int - 4) * (FX_ONE as int) + jx as int,
                            y: 0,
                            z: (b as int) * (FX_ONE as int) + jz as int,
                        }));
                        assert(false);
                    }
                }
            }
            b = b + 1;
        }
        a = a + 1;
    }

    let ghost gridobjs = world.objects@;

    let material1 = Material::Dielectric(Dielectric::new(C15));
    let s1 = Sphere::new(Vec3 { x: 0, y: FX_ONE, z: 0 }, FX_ONE, material1);
    world.add(s1);
    let ghost o1 = world.objects@;

    let material2 = Material::Lambertian(
        Lambertian::new(Vec3 { x: 429496730, y: 214748365, z: 107374182 }),
    );
    let s2 = Sphere::new(Vec3 { x: -4 * FX_ONE, y: FX_ONE, z: 0 }, FX_ONE, material2);
    world.add(s2);
    let ghost o2 = world.objects@;

    let material3 = Material::Metal(
        Metal::new(Vec3 { x: 751619277, y: 644245094, z: 536870912 }, 0),
    );
    let s3 = Sphere::new(Vec3 { x: 4 * FX_ONE, y: FX_ONE, z: 0 }, FX_ONE, material3);
    world.add(s3);
    proof {
        assert forall|a2: int, b2: int|
            -11 <= a2 < 11 && -11 <= b2 < 11 && #[trigger] cell_clear(a2, b2) implies exists|
            k: int,
        |
            1 <= k < world.objects@.len() - 3 && sphere_in_cell(
                #[trigger] world.objects@[k],
                a2,
                b2,
            ) by {
            let k = choose|k: int|
                1 <= k < gridobjs.len() && sphere_in_cell(#[trigger] gridobjs[k], a2, b2);
            assert(o1[k] == gridobjs[k]);
            assert(o2[k] == o1[k]);
            assert(world.objects@[k] == o2[k]);
            assert(sphere_in_cell(world.objects@[k], a2, b2));
        }
    }
    world
}

/// Products of two uniform samples in [0, 1) are colors.
proof fn lemma_rand_product_color()
    ensures
        forall|x: int, y: int|
            0 <= x < FX_ONE as int && 0 <= y < FX_ONE as int ==> 0 <= #[trigger] fxmul_s(x, y)
                <= FX_ONE as int,
{
    assert forall|x: int, y: int|
        0 <= x < FX_ONE as int && 0 <= y < FX_ONE as int implies 0 <= #[trigger] fxmul_s(x, y)
        <= FX_ONE as int by {
        lemma_mul_nonneg(x, y);
        crate::fx::lemma_tdiv_nonneg(x * y, FX_ONE as int);
        lemma_fxmul_mag(x, y, 0x4000_0000int, 0x4000_0000int);
    }
}

/// Half of (one plus a uniform sample in [0, 1)) lies in [1/2, 1], and
/// half of such a sample lies in [0, 1/2].
proof fn lemma_half_one_plus_rand()
    ensures
        forall|y: int|
            0 <= y < FX_ONE as int ==> C05 as int <= #[trigger] fxmul_s(
                C05 as int,
                FX_ONE as int + y,
            ) <= FX_ONE as int,
        forall|y: int|
            0 <= y < FX_ONE as int ==> 0 <= #[trigger] fxmul_s(C05 as int, y) <= C05 as int,
{
    assert forall|y: int|
        0 <= y < FX_ONE as int implies C05 as int <= #[trigger] fxmul_s(
        C05 as int,
        FX_ONE as int + y,
    ) <= FX_ONE as int by {
        crate::fx::lemma_tdiv_monotone(
            0x2000_0000int * 0x4000_0000int,
            0x2000_0000int * (0x4000_0000int + y),
            0x4000_0000int,
        );
        crate::fx::lemma_tdiv_monotone(
            0x2000_0000int * (0x4000_0000int + y),
            0x4000_0000int * 0x4000_0000int,
            0x4000_0000int,
        );
        vstd::arithmetic::div_mod::lemma_div_multiples_vanish(0x2000_0000int, 0x4000_0000int);
        vstd::arithmetic::div_mod::lemma_div_multiples_vanish(0x4000_0000int, 0x4000_0000int);
        assert(0x2000_0000int * 0x4000_0000int == 0x4000_0000int * 0x2000_0000int)
            by (nonlinear_arith);
        assert(0x4000_0000int * 0x4000_0000int == 0x4000_0000int * 0x4000_0000int);
    }
    assert forall|y: int|
        0 <= y < FX_ONE as int implies 0 <= #[trigger] fxmul_s(C05 as int, y) <= C05 as int by {
        lemma_mul_nonneg(C05 as int, y);
        crate::fx::lemma_tdiv_nonneg(C05 as int * y, FX_ONE as int);
        crate::fx::lemma_tdiv_monotone(
            0x2000_0000int * y,
            0x2000_0000int * 0x4000_0000int,
            0x4000_0000int,
        );
        vstd::arithmetic::div_mod::lemma_div_multiples_vanish(0x2000_0000int, 0x4000_0000int);
        assert(0x2000_0000int * 0x4000_0000int == 0x4000_0000int * 0x2000_0000int)
            by (nonlinear_arith);
    }
}

/// A 0.9-scaled uniform sample in [0, 1) stays within [0, 0.9).
proof fn lemma_jitter_09()
    ensures
        forall|y: int|
            0 <= y < FX_ONE as int ==> 0 <= #[trigger] fxmul_s(C09 as int, y) < C09 as int,
{
    assert forall|y: int|
        0 <= y < FX_ONE as int implies 0 <= #[trigger] fxmul_s(C09 as int, y) < C09 as int by {
        lemma_mul_nonneg(C09 as int, y);
        crate::fx::lemma_tdiv_nonneg(966367642int * y, FX_ONE as int);
        crate::fx::lemma_tdiv_monotone(
            966367642int * y,
            966367642int * (0x4000_0000int - 1),
            0x4000_0000int,
        );
        assert(966367642int * (0x4000_0000int - 1) == (966367642int - 1) * 0x4000_0000int + (
        0x4000_0000int - 966367642int)) by (nonlinear_arith);
        vstd::arithmetic::div_mod::lemma_fundamental_div_mod_converse(
            966367642int * (0x4000_0000int - 1),
            0x4000_0000int,
            966367642int - 1,
            0x4000_0000int - 966367642int,
        );
    }
}

/// Every draw in the box of a clear cell keeps more than 0.9 from the
/// anchor: along some axis the whole box lies at least one unit away,
/// and one far coordinate already pushes the distance past 0.9.
proof fn lemma_clear_cell_far(a: int, b: int, jx: int, jz: int)
    requires
        -11 <= a < 11,
        -11 <= b < 11,
        cell_clear(a, b),
        0 <= jx < C09 as int,
        0 <= jz < C09 as int,
    ensures
        length_s(
            V3 {
                x: (a - 4) * (FX_ONE as int) + jx,
                y: 0,
                z: b * (FX_ONE as int) + jz,
            },
        ) > C09 as int,
{
    let dx = (a - 4) * (FX_ONE as int) + jx;
    let dz = b * (FX_ONE as int) + jz;
    let d = V3 { x: dx, y: 0, z: dz };
    assert(dx * dx >= 0 && dz * dz >= 0) by (nonlinear_arith);
    assert(dx <= -(FX_ONE as int) || dx >= FX_ONE as int || dz <= -(FX_ONE as int) || dz
        >= FX_ONE as int) by {
        if 3 <= a <= 4 {
            assert(b <= -2 || b >= 1);
            if b >= 1 {
                assert(dz >= FX_ONE as int) by (nonlinear_arith)
                    requires
                        b >= 1 && dz == b * (FX_ONE as int) + jz && jz >= 0,
                ;
            } else {
                assert(dz <= -(FX_ONE as int)) by (nonlinear_arith)
                    requires
                        b <= -2 && dz == b * (FX_ONE as int) + jz && jz < C09 as int,
                ;
            }
        } else {
            if a >= 5 {
                assert(dx >= FX_ONE as int) by (nonlinear_arith)
                    requires
                        a >= 5 && dx == (a - 4) * (FX_ONE as int) + jx && jx >= 0,
                ;
            } else {
                assert(dx <= -(FX_ONE as int)) by (nonlinear_arith)
                    requires
                        a <= 2 && dx == (a - 4) * (FX_ONE as int) + jx && jx < C09 as int,
                ;
            }
        }
    }
    assert(norm2_s(d) >= (C09 as int + 1) * (C09 as int + 1)) by (nonlinear_arith)
        requires
            norm2_s(d) == dx * dx + 0 * 0 + dz * dz,
            dx * dx >= 0 && dz * dz >= 0,
            dx <= -(FX_ONE as int) || dx >= FX_ONE as int || dz <= -(FX_ONE as int) || dz
                >= FX_ONE as int,
    ;
    crate::fx::lemma_sqrt_at_least(norm2_s(d), C09 as int + 1);
}

/// Byte classes of the scene text: blanks and digits.
pub open spec fn is_space(c: u8) -> bool {
    c == 32 || c == 9 || c == 13
}

pub open spec fn is_digit(c: u8) -> bool {
    48 <= c <= 57
}

/// First index at or after i that is not a blank.
pub open spec fn scan_ws_s(s: Seq<u8>, i: int) -> int
    decreases s.len() - i,
{
    if 0 <= i < s.len() && is_space(s[i]) {
        scan_ws_s(s, i + 1)
    } else {
        i
    }
}

/// First index at or after i that is a blank, or the end.
pub open spec fn scan_tok_s(s: Seq<u8>, i: int) -> int
    decreases s.len() - i,
{
    if 0 <= i < s.len() && !is_space(s[i]) {
        scan_tok_s(s, i + 1)
    } else {
        i
    }
}

fn scan_ws(s: &Vec<u8>, i: usize) -> (r: usize)
    requires
        i <= s@.len(),
    ensures
        r == scan_ws_s(s@, i as int),
        i <= r <= s@.len(),
    decreases s@.len() - i,
{
    if i < s.len() && (s[i] == 32 || s[i] == 9 || s[i] == 13) {
        scan_ws(s, i + 1)
    } else {
        i
    }
}

fn scan_tok(s: &Vec<u8>, i: usize) -> (r: usize)
    requires
        i <= s@.len(),
    ensures
        r == scan_tok_s(s@, i as int),
        i <= r <= s@.len(),
    decreases s@.len() - i,
{
    if i < s.len() && !(s[i] == 32 || s[i] == 9 || s[i] == 13) {
        scan_tok(s, i + 1)
    } else {
        i
    }
}

/// Digits of the integer part, accumulated left to right; accumulation
/// stops (leaving the index on a digit) once the value passes 100000,
/// which no scene coordinate reaches.
pub open spec fn scan_int_s(s: Seq<u8>, i: int, end: int, acc: int) -> (int, int)
    decreases end - i,
{
    if 0 <= i < end <= s.len() && is_digit(s[i]) && acc <= 100000 {
        scan_int_s(s, i + 1, end, acc * 10 + (s[i] - 48))
    } else {
        (i, acc)
    }
}

fn scan_int(s: &Vec<u8>, i: usize, end: usize, acc: i64) -> (r: (usize, i64))
    requires
        i <= end <= s@.len(),
        0 <= acc <= 1000009,
    ensures
        (r.0 as int, r.1 as int) == scan_int_s(s@, i as int, end as int, acc as int),
        i <= r.0 <= end,
        0 <= r.1 <= 1000009,
    decreases end - i,
{
    if i < end && 48 <= s[i] && s[i] <= 57 && acc <= 100000 {
        scan_int(s, i + 1, end, acc * 10 + ((s[i] - 48) as i64))
    } else {
        (i, acc)
    }
}

/// Digits of the fractional part: the first nine are accumulated with
/// their scale, the rest are consumed unchanged.
pub open spec fn scan_frac_s(s: Seq<u8>, i: int, end: int, acc: int, pw: int) -> (int, int, int)
    decreases end - i,
{
    if 0 <= i < end <= s.len() && is_digit(s[i]) {
        if pw <= 100000000 {
            scan_frac_s(s, i + 1, end, acc * 10 + (s[i] - 48), pw * 10)
        } else {
            scan_frac_s(s, i + 1, end, acc, pw)
        }
    } else {
        (i, acc, pw)
    }
}

fn scan_frac(s: &Vec<u8>, i: usize, end: usize, acc: i64, pw: i64) -> (r: (usize, i64, i64))
    requires
        i <= end <= s@.len(),
        1 <= pw <= 1000000000,
        0 <= acc < pw,
    ensures
        (r.0 as int, r.1 as int, r.2 as int) == scan_frac_s(
            s@,
            i as int,
            end as int,
            acc as int,
            pw as int,
        ),
        i <= r.0 <= end,
        1 <= r.2 <= 1000000000,
        0 <= r.1 < r.2,
    decreases end - i,
{
    if i < end && 48 <= s[i] && s[i] <= 57 {
        if pw <= 100000000 {
            scan_frac(s, i + 1, end, acc * 10 + ((s[i] - 48) as i64), pw * 10)
        } else {
            scan_frac(s, i + 1, end, acc, pw)
        }
    } else {
        (i, acc, pw)
    }
}

/// The fixed-point value of the token s[st..en]: an optional minus, an
/// integer part, and optionally a dot with at least one fractional
/// digit; anything else is no number.
pub open spec fn parse_fx_s(s: Seq<u8>, st: int, en: int) -> Option<int> {
    if !(0 <= st <= en <= s.len()) {
        None
    } else {
        let neg = st < en && s[st] == 45;
        let start = if neg {
            st + 1
        } else {
            st
        };
        let (i1, ip) = scan_int_s(s, start, en, 0);
        let mag = if i1 == start {
            None
        } else if i1 == en {
            Some(ip * (FX_ONE as int))
        } else if s[i1] == 46 && i1 + 1 < en {
            let (i2, fp, pw) = scan_frac_s(s, i1 + 1, en, 0, 1);
            if i2 == en && i2 > i1 + 1 {
                Some(ip * (FX_ONE as int) + tdiv(fp * (FX_ONE as int), pw))
            } else {
                None
            }
        } else {
            None
        };
        match mag {
            Some(v) => Some(
                if neg {
                    -v
                } else {
                    v
                },
            ),
            None => None,
        }
    }
}

/// Parses the token s[st..en] as a fixed-point number, exactly as
/// parse_fx_s states.
pub fn parse_fx(s: &Vec<u8>, st: usize, en: usize) -> (r: Option<i64>)
    requires
        st <= en <= s@.len(),
    ensures
        match r {
            Some(v) => parse_fx_s(s@, st as int, en as int) == Some(v as int) && -0x10_0000_0000_0000 <= v <= 0x10_0000_0000_0000,
            None => parse_fx_s(s@, st as int, en as int) is None,
        },
{
    let neg = st < en && s[st] == 45;
    let start = if neg {
        st + 1
    } else {
        st
    };
    let (i1, ip) = scan_int(s, start, en, 0);
    let mag: Option<i64> = if i1 == start {
        None
    } else if i1 == en {
        Some(ip * FX_ONE)
    } else if s[i1] == 46 && i1 + 1 < en {
        let (i2, fp, pw) = scan_frac(s, i1 + 1, en, 0, 1);
        if i2 == en && i2 > i1 + 1 {
            proof {
                lemma_tdiv_mag(fp as int * (FX_ONE as int), pw as int, 0x1000_0000_0000_0000int);
                crate::fx::lemma_tdiv_nonneg(fp as int * (FX_ONE as int), pw as int);
                crate::fx::lemma_tdiv_monotone(
                    fp as int * (FX_ONE as int),
                    pw as int * (FX_ONE as int),
                    pw as int,
                );
                vstd::arithmetic::div_mod::lemma_div_multiples_vanish(FX_ONE as int, pw as int);
                assert(fp as int * (FX_ONE as int) <= pw as int * (FX_ONE as int))
                    by (nonlinear_arith)
                    requires
                        0 <= fp < pw,
                ;
                assert(fp as int * (FX_ONE as int) <= 0x1000_0000_0000_0000int)
                    by (nonlinear_arith)
                    requires
                        0 <= fp <= 1000000000,
                ;
            }
            let frac = tdiv_i128((fp as i128) * (FX_ONE as i128), pw as i128) as i64;
            Some(ip * FX_ONE + frac)
        } else {
            None
        }
    } else {
        None
    };
    match mag {
        Some(v) => Some(
            if neg {
                -v
            } else {
                v
            },
        ),
        None => None,
    }
}

/// Parses the token s[st..en] as a number, falling back to a default
/// where the token is no number.
pub fn parse_fx_or(s: &Vec<u8>, st: usize, en: usize, default: i64) -> (r: i64)
    requires
        st <= en <= s@.len(),
        -0x10_0000_0000_0000 <= default <= 0x10_0000_0000_0000,
    ensures
        r as int == (match parse_fx_s(s@, st as int, en as int) {
            Some(v) => v,
            None => default as int,
        }),
        -0x10_0000_0000_0000 <= r <= 0x10_0000_0000_0000,
{
    match parse_fx(s, st, en) {
        Some(v) => v,
        None => default,
    }
}

pub open spec fn num_or_s(s: Seq<u8>, st: int, en: int, d: int) -> int {
    match parse_fx_s(s, st, en) {
        Some(v) => v,
        None => d,
    }
}

/// The keyword tokens, byte for byte: "lambertian", "metal",
/// "dielectric".
pub open spec fn is_lambertian_at(s: Seq<u8>, st: int, en: int) -> bool {
    &&& en - st == 10
    &&& s[st] == 108
    &&& s[st + 1] == 97
    &&& s[st + 2] == 109
    &&& s[st + 3] == 98
    &&& s[st + 4] == 101
    &&& s[st + 5] == 114
    &&& s[st + 6] == 116
    &&& s[st + 7] == 105
    &&& s[st + 8] == 97
    &&& s[st + 9] == 110
}

pub open spec fn is_metal_at(s: Seq<u8>, st: int, en: int) -> bool {
    &&& en - st == 5
    &&& s[st] == 109
    &&& s[st + 1] == 101
    &&& s[st + 2] == 116
    &&& s[st + 3] == 97
    &&& s[st + 4] == 108
}

pub open spec fn is_dielectric_at(s: Seq<u8>, st: int, en: int) -> bool {
    &&& en - st == 10
    &&& s[st] == 100
    &&& s[st + 1] == 105
    &&& s[st + 2] == 101
    &&& s[st + 3] == 108
    &&& s[st + 4] == 101
    &&& s[st + 5] == 99
    &&& s[st + 6] == 116
    &&& s[st + 7] == 114
    &&& s[st + 8] == 105
    &&& s[st + 9] == 99
}

fn is_kw_lambertian(s: &Vec<u8>, st: usize, en: usize) -> (r: bool)
    requires
        st <= en <= s@.len(),
    ensures
        r == is_lambertian_at(s@, st as int, en as int),
{
    en - st == 10 && s[st] == 108 && s[st + 1] == 97 && s[st + 2] == 109 && s[st + 3] == 98
        && s[st + 4] == 101 && s[st + 5] == 114 && s[st + 6] == 116 && s[st + 7] == 105 && s[st
        + 8] == 97 && s[st + 9] == 110
}

fn is_kw_metal(s: &Vec<u8>, st: usize, en: usize) -> (r: bool)
    requires
        st <= en <= s@.len(),
    ensures
        r == is_metal_at(s@, st as int, en as int),
{
    en - st == 5 && s[st] == 109 && s[st + 1] == 101 && s[st + 2] == 116 && s[st + 3] == 97
        && s[st + 4] == 108
}

fn is_kw_dielectric(s: &Vec<u8>, st: usize, en: usize) -> (r: bool)
    requires
        st <= en <= s@.len(),
    ensures
        r == is_dielectric_at(s@, st as int, en as int),
{
    en - st == 10 && s[st] == 100 && s[st + 1] == 105 && s[st + 2] == 101 && s[st + 3] == 108
        && s[st + 4] == 101 && s[st + 5] == 99 && s[st + 6] == 116 && s[st + 7] == 114 && s[st
        + 8] == 105 && s[st + 9] == 99
}

/// Whether a sphere parsed from a line may enter a scene.
pub open spec fn sphere_ok_s(sp: Sphere) -> bool {
    sp.wf()
}

fn sphere_ok(sp: &Sphere) -> (r: bool)
    ensures
        r == sphere_ok_s(*sp),
{
    let mat_ok = match sp.mat {
        Material::Lambertian(l) => 0 <= l.albedo.x && l.albedo.x <= FX_ONE && 0 <= l.albedo.y
            && l.albedo.y <= FX_ONE && 0 <= l.albedo.z && l.albedo.z <= FX_ONE,
        Material::Metal(m) => 0 <= m.albedo.x && m.albedo.x <= FX_ONE && 0 <= m.albedo.y
            && m.albedo.y <= FX_ONE && 0 <= m.albedo.z && m.albedo.z <= FX_ONE && 0 <= m.fuzz
            && m.fuzz <= FX_ONE,
        Material::Dielectric(d) => FX_ONE / 8 <= d.ir && d.ir <= 8 * FX_ONE,
    };
    let cx = sp.center.x as i128;
    let cy = sp.center.y as i128;
    let cz = sp.center.z as i128;
    let rad = sp.radius as i128;
    let pm = POS_MAX as i128;
    mat_ok && 0 < sp.radius && -pm <= cx - rad && cx + rad <= pm && -pm <= cy - rad && cy + rad
        <= pm && -pm <= cz - rad && cz + rad <= pm
}

/// One scene line: `x y z radius material_type [params...]`. A blank
/// line, a comment, a missing token, an unknown material or a sphere
/// that no scene may hold gives nothing; a malformed number falls back
/// to its default, as the renderer's defaults prescribe.
pub open spec fn parse_line_s(s: Seq<u8>) -> Option<Sphere> {
    let i0 = scan_ws_s(s, 0);
    if i0 >= s.len() || s[i0] == 35 {
        None
    } else {
        let j0 = scan_tok_s(s, i0);
        let x = num_or_s(s, i0, j0, 0);
        let i1 = scan_ws_s(s, j0);
        let j1 = scan_tok_s(s, i1);
        let y = num_or_s(s, i1, j1, 0);
        let i2 = scan_ws_s(s, j1);
        let j2 = scan_tok_s(s, i2);
        let z = num_or_s(s, i2, j2, 0);
        let i3 = scan_ws_s(s, j2);
        let j3 = scan_tok_s(s, i3);
        let radius = num_or_s(s, i3, j3, C02 as int);
        let i4 = scan_ws_s(s, j3);
        let j4 = scan_tok_s(s, i4);
        if i1 >= s.len() || i2 >= s.len() || i3 >= s.len() || i4 >= s.len() {
            None
        } else {
            let i5 = scan_ws_s(s, j4);
            let j5 = scan_tok_s(s, i5);
            let i6 = scan_ws_s(s, j5);
            let j6 = scan_tok_s(s, i6);
            let i7 = scan_ws_s(s, j6);
            let j7 = scan_tok_s(s, i7);
            let i8 = scan_ws_s(s, j7);
            let j8 = scan_tok_s(s, i8);
            let mat: Option<Material> = if is_lambertian_at(s, i4, j4) {
                if i7 >= s.len() {
                    None
                } else {
                    Some(
                        Material::Lambertian(
                            Lambertian {
                                albedo: Vec3 {
                                    x: num_or_s(s, i5, j5, C05 as int) as i64,
                                    y: num_or_s(s, i6, j6, C05 as int) as i64,
                                    z: num_or_s(s, i7, j7, C05 as int) as i64,
                                },
                            },
                        ),
                    )
                }
            } else if is_metal_at(s, i4, j4) {
                if i8 >= s.len() {
                    None
                } else {
                    Some(
                        Material::Metal(
                            Metal {
                                albedo: Vec3 {
                                    x: num_or_s(s, i5, j5, C05 as int) as i64,
                                    y: num_or_s(s, i6, j6, C05 as int) as i64,
                                    z: num_or_s(s, i7, j7, C05 as int) as i64,
                                },
                                fuzz: num_or_s(s, i8, j8, 0) as i64,
                            },
                        ),
                    )
                }
            } else if is_dielectric_at(s, i4, j4) {
                if i5 >= s.len() {
                    None
                } else {
                    Some(Material::Dielectric(Dielectric { ir: num_or_s(s, i5, j5, C15 as int) as i64 }))
                }
            } else {
                None
            };
            match mat {
                Some(m) => {
                    let sp = Sphere {
                        center: Vec3 { x: x as i64, y: y as i64, z: z as i64 },
                        radius: radius as i64,
                        mat: m,
                    };
                    if sphere_ok_s(sp) {
                        Some(sp)
                    } else {
                        None
                    }
                },
                None => None,
            }
        }
    }
}

/// Parses one scene line, exactly as parse_line_s states; a sphere it
/// yields is always fit to enter a scene.
pub fn parse_scene_line(s: &Vec<u8>) -> (r: Option<Sphere>)
    ensures
        match r {
            Some(sp) => parse_line_s(s@) == Some(sp) && sp.wf(),
            None => parse_line_s(s@) is None,
        },
{
    let i0 = scan_ws(s, 0);
    if i0 >= s.len() || s[i0] == 35 {
        return None;
    }
    let j0 = scan_tok(s, i0);
    let x = parse_fx_or(s, i0, j0, 0);
    let i1 = scan_ws(s, j0);
    let j1 = scan_tok(s, i1);
    let y = parse_fx_or(s, i1, j1, 0);
    let i2 = scan_ws(s, j1);
    let j2 = scan_tok(s, i2);
    let z = parse_fx_or(s, i2, j2, 0);
    let i3 = scan_ws(s, j2);
    let j3 = scan_tok(s, i3);
    let radius = parse_fx_or(s, i3, j3, C02);
    let i4 = scan_ws(s, j3);
    let j4 = scan_tok(s, i4);
    if i1 >= s.len() || i2 >= s.len() || i3 >= s.len() || i4 >= s.len() {
        return None;
    }
    let i5 = scan_ws(s, j4);
    let j5 = scan_tok(s, i5);
    let i6 = scan_ws(s, j5);
    let j6 = scan_tok(s, i6);
    let i7 = scan_ws(s, j6);
    let j7 = scan_tok(s, i7);
    let i8 = scan_ws(s, j7);
    let j8 = scan_tok(s, i8);
    let mat: Option<Material> = if is_kw_lambertian(s, i4, j4) {
        if i7 >= s.len() {
            None
        } else {
            Some(
                Material::Lambertian(
                    Lambertian {
                        albedo: Vec3 {
                            x: parse_fx_or(s, i5, j5, C05),
                            y: parse_fx_or(s, i6, j6, C05),
                            z: parse_fx_or(s, i7, j7, C05),
                        },
                    },
                ),
            )
        }
    } else if is_kw_metal(s, i4, j4) {
        if i8 >= s.len() {
            None
        } else {
            Some(
                Material::Metal(
                    Metal {
                        albedo: Vec3 {
                            x: parse_fx_or(s, i5, j5, C05),
                            y: parse_fx_or(s, i6, j6, C05),
                            z: parse_fx_or(s, i7, j7, C05),
                        },
                        fuzz: parse_fx_or(s, i8, j8, 0),
                    },
                ),
            )
        }
    } else if is_kw_dielectric(s, i4, j4) {
        if i5 >= s.len() {
            None
        } else {
            Some(Material::Dielectric(Dielectric { ir: parse_fx_or(s, i5, j5, C15) }))
        }
    } else {
        None
    };
    match mat {
        Some(m) => {
            let sp = Sphere { center: Vec3 { x, y, z }, radius, mat: m };
            if sphere_ok(&sp) {
                Some(sp)
            } else {
                None
            }
        },
        None => None,
    }
}

/// The scene the given description lines denote: the ground sphere,
/// then each line's sphere in order, with unusable lines skipped.
pub open spec fn world_lines_s(lines: Seq<Vec<u8>>, k: int) -> Seq<Sphere>
    decreases k,
{
    if k <= 0 {
        seq![ground_sphere_s()]
    } else {
        world_lines_s(lines, k - 1) + (match parse_line_s(lines[k - 1]@) {
            Some(sp) => seq![sp],
            None => Seq::empty(),
        })
    }
}

/// Builds the scene a text description denotes: always the ground
/// sphere first, then one sphere per parsable line, in order.
pub fn create_world_from_lines(lines: &Vec<Vec<u8>>) -> (r: HittableList)
    ensures
        r.wf(),
        r.objects@.len() >= 1,
        r.objects@ == world_lines_s(lines@, lines@.len() as int),
{
    let mut world = HittableList::new();
    world.add(ground_sphere());
    proof {
        assert(world.objects@ =~= world_lines_s(lines@, 0));
    }
    let n = lines.len();
    let mut k: usize = 0;
    while k < n
        invariant
            0 <= k <= n,
            n == lines@.len(),
            world.wf(),
            world.objects@.len() >= 1,
            world.objects@ == world_lines_s(lines@, k as int),
        decreases n - k,
    {
        match parse_scene_line(&lines[k]) {
            Some(sp) => {
                world.add(sp);
            },
            None => {},
        }
        k = k + 1;
        proof {
            assert(world.objects@ =~= world_lines_s(lines@, k as int));
        }
    }
    world
}

} // verus!
