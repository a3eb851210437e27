//! Surfaces a ray can strike: the sphere primitive and the scene list,
//! which finds the nearest hit among its members.
//!
//! `Sphere::hit` solves the quadratic that a ray substituted into the
//! sphere equation yields; its contract says the result equals the spec
//! mirror `sphere_hit_s`, which states every rounding step exactly. The
//! scene list's contract pins the nearest-hit semantics: the record
//! returned is some member's hit, and no member hits closer.

use vstd::prelude::*;

use crate::fx::{
    fxdiv_s, fxmul_s, isqrt_u128, lemma_sqrt_at_most, lemma_sqrt_props, sqrt_s, tdiv_i128, FX_ONE,
};
use crate::material::{mat_wf, Material};
use crate::ray::{at_s, Ray, RayV};
use crate::utils::Interval;
use crate::vec3::{
    dir_fits, divide_s, dot_s, len2_s, lemma_dot_mag, lemma_fxmul_mag, lemma_mul_mag,
    lemma_sq_nonneg, lemma_tdiv_mag, neg_s, norm2_s, sub_s, unit_fits, Vec3, COORD_MAX, DIR_MAX,
    V3,
};

verus! {

/// Scene geometry (sphere centers, hit points, ray origins) stays within
/// this raw bound (16384 in value).
pub const POS_MAX: i64 = 0x1000_0000_0000;

/// Hits farther than this raw parameter (about half a million units) are
/// ignored; any scene within POS_MAX is hit far closer.
pub const T_CAP: i64 = 0x2_0000_0000_0000;

pub open spec fn pos_fits(v: V3) -> bool {
    &&& -POS_MAX <= v.x <= POS_MAX
    &&& -POS_MAX <= v.y <= POS_MAX
    &&& -POS_MAX <= v.z <= POS_MAX
}

/// What the intersection routines ask of a ray.
pub open spec fn ray_wf(r: RayV) -> bool {
    pos_fits(r.orig) && dir_fits(r.dir)
}

/// The mathematical value of a hit record.
pub ghost struct HitV {
    pub p: V3,
    pub normal: V3,
    pub t: int,
    pub front_face: bool,
    pub mat: Material,
}

#[derive(Clone, Copy, Debug)]
pub struct HitRecord {
    pub p: Vec3,
    pub normal: Vec3,
    pub t: i64,
    pub front_face: bool,
    pub mat: Material,
}

impl View for HitRecord {
    type V = HitV;

    open spec fn view(&self) -> HitV {
        HitV {
            p: self.p@,
            normal: self.normal@,
            t: self.t as int,
            front_face: self.front_face,
            mat: self.mat,
        }
    }
}

pub open spec fn opt_rec_v(o: Option<HitRecord>) -> Option<HitV> {
    match o {
        Some(rec) => Some(rec@),
        None => None,
    }
}

#[derive(Clone, Copy, Debug)]
pub struct Sphere {
    pub center: Vec3,
    pub radius: i64,
    pub mat: Material,
}

impl Sphere {
    /// A sphere a scene may hold: positive radius, wholly inside the
    /// coordinate bound, with a well-formed material.
    pub open spec fn wf(self) -> bool {
        &&& 0 < self.radius
        &&& -POS_MAX <= self.center.x - self.radius
        &&& self.center.x + self.radius <= POS_MAX
        &&& -POS_MAX <= self.center.y - self.radius
        &&& self.center.y + self.radius <= POS_MAX
        &&& -POS_MAX <= self.center.z - self.radius
        &&& self.center.z + self.radius <= POS_MAX
        &&& mat_wf(self.mat)
    }

    pub fn new(center: Vec3, radius: i64, mat: Material) -> (r: Sphere)
        ensures
            r.center == center,
            r.radius == radius,
            r.mat == mat,
    {
        Sphere { center, radius, mat }
    }
}

/// The record a sphere hit at parameter t yields, if the hit point is
/// representable: the point, the outward normal flipped to oppose the
/// ray, and the sphere's material.
#[verifier::opaque]
pub open spec fn sphere_rec_s(sp: Sphere, ry: RayV, t: int) -> Option<HitV> {
    let p = at_s(ry, t);
    if !pos_fits(p) {
        None
    } else {
        let diff = sub_s(p, sp.center@);
        if !(-2 * sp.radius <= diff.x <= 2 * sp.radius && -2 * sp.radius <= diff.y <= 2
            * sp.radius && -2 * sp.radius <= diff.z <= 2 * sp.radius) {
            None
        } else {
            let outward = divide_s(diff, sp.radius as int);
            let front = dot_s(ry.dir, outward) < 0;
            Some(
                HitV {
                    p,
                    normal: if front {
                        outward
                    } else {
                        neg_s(outward)
                    },
                    t,
                    front_face: front,
                    mat: sp.mat,
                },
            )
        }
    }
}

/// The quadratic solve: a is the squared direction length, h the
/// half-coefficient, c the offset term; a nonnegative discriminant gives
/// the two roots, of which the smaller is preferred if the interval
/// admits it.
#[verifier::opaque]
pub open spec fn sphere_hit_s(sp: Sphere, ry: RayV, tmin: int, tmax: int) -> Option<HitV> {
    let oc = sub_s(sp.center@, ry.orig);
    let a = dot_s(ry.dir, ry.dir);
    let h = dot_s(ry.dir, oc);
    let c = len2_s(oc) - fxmul_s(sp.radius as int, sp.radius as int);
    let disc = fxmul_s(h, h) - fxmul_s(a, c);
    if a <= 0 || disc < 0 {
        None
    } else {
        let sq = sqrt_s(disc * (FX_ONE as int));
        let r1 = fxdiv_s(h - sq, a);
        let r2 = fxdiv_s(h + sq, a);
        if tmin <= r1 && r1 <= tmax && r1 <= T_CAP as int {
            sphere_rec_s(sp, ry, r1)
        } else if tmin <= r2 && r2 <= tmax && r2 <= T_CAP as int {
            sphere_rec_s(sp, ry, r2)
        } else {
            None
        }
    }
}

impl Sphere {
    /// Nearest intersection of the ray with this sphere inside the
    /// interval, exactly as sphere_hit_s states it.
    pub fn hit(&self, r: &Ray, ray_t: Interval) -> (res: Option<HitRecord>)
        requires
            self.wf(),
            ray_wf(r@),
            0 <= ray_t.min,
        ensures
            opt_rec_v(res) == sphere_hit_s(*self, r@, ray_t.min as int, ray_t.max as int),
            match res {
                Some(rec) => {
                    &&& ray_t.min <= rec.t <= ray_t.max
                    &&& rec.t <= T_CAP
                    &&& pos_fits(rec.p@)
                    &&& unit_fits(rec.normal@)
                    &&& rec.mat == self.mat
                },
                None => true,
            },
    {
        proof {
            reveal(sphere_hit_s);
        }
        let oc = self.center.sub(&r.origin);
        proof {
            lemma_dot_mag(r.direction@, r.direction@, DIR_MAX as int, DIR_MAX as int);
            lemma_dot_mag(r.direction@, oc@, DIR_MAX as int, COORD_MAX as int);
            lemma_dot_mag(oc@, oc@, COORD_MAX as int, COORD_MAX as int);
            lemma_tdiv_mag(
                norm2_s(oc@),
                FX_ONE as int,
                3 * ((COORD_MAX as int) * (COORD_MAX as int)),
            );
            lemma_fxmul_mag(self.radius as int, self.radius as int, POS_MAX as int, POS_MAX as int);
            lemma_sq_nonneg(r.direction.x as int);
            lemma_sq_nonneg(r.direction.y as int);
            lemma_sq_nonneg(r.direction.z as int);
            crate::fx::lemma_tdiv_nonneg(norm2_s(r.direction@), FX_ONE as int);
        }
        let a = crate::vec3::dot(&r.direction, &r.direction);
        let h = crate::vec3::dot(&r.direction, &oc);
        let rr = crate::fx::fxmul(self.radius, self.radius);
        let c = oc.length_squared() - rr;
        proof {
            lemma_mul_mag(h as int, h as int, 0xc00_0000_0000_0000int, 0xc00_0000_0000_0000int);
            lemma_mul_mag(a as int, c as int, 0x300_0000_0000_0000int, 0x3400_0000_0000_0000int);
            lemma_tdiv_mag(
                (h as int) * (h as int),
                FX_ONE as int,
                0xc00_0000_0000_0000int * 0xc00_0000_0000_0000int,
            );
            lemma_tdiv_mag(
                (a as int) * (c as int),
                FX_ONE as int,
                0x300_0000_0000_0000int * 0x3400_0000_0000_0000int,
            );
        }
        let t1 = tdiv_i128((h as i128) * (h as i128), FX_ONE as i128);
        let t2 = tdiv_i128((a as i128) * (c as i128), FX_ONE as i128);
        let disc: i128 = t1 - t2;
        if a <= 0 || disc < 0 {
            return None;
        }
        proof {
            lemma_mul_mag(disc as int, FX_ONE as int, 0x8_0000_0000_0000_0000_0000_0000int, FX_ONE as int);
            lemma_sqrt_at_most(
                (disc as int) * (FX_ONE as int),
                0x4000_0000_0000_0000int,
            );
            lemma_sqrt_props((disc as int) * (FX_ONE as int));
        }
        let sq = isqrt_u128((disc as u128) * (FX_ONE as u128));
        let sqw = sq as i128;
        proof {
            lemma_mul_mag(
                (h as int) - (sqw as int),
                FX_ONE as int,
                0x5000_0000_0000_0000int,
                FX_ONE as int,
            );
            lemma_mul_mag(
                (h as int) + (sqw as int),
                FX_ONE as int,
                0x5000_0000_0000_0000int,
                FX_ONE as int,
            );
        }
        let r1 = tdiv_i128(((h as i128) - sqw) * (FX_ONE as i128), a as i128);
        let r2 = tdiv_i128(((h as i128) + sqw) * (FX_ONE as i128), a as i128);
        let lo = ray_t.min as i128;
        let hi = ray_t.max as i128;
        if lo <= r1 && r1 <= hi && r1 <= T_CAP as i128 {
            self.make_record(r, r1 as i64)
        } else if lo <= r2 && r2 <= hi && r2 <= T_CAP as i128 {
            self.make_record(r, r2 as i64)
        } else {
            None
        }
    }

    fn make_record(&self, r: &Ray, t: i64) -> (res: Option<HitRecord>)
        requires
            self.wf(),
            ray_wf(r@),
            0 <= t <= T_CAP,
        ensures
            opt_rec_v(res) == sphere_rec_s(*self, r@, t as int),
            match res {
                Some(rec) => {
                    &&& rec.t == t
                    &&& pos_fits(rec.p@)
                    &&& unit_fits(rec.normal@)
                    &&& rec.mat == self.mat
                },
                None => true,
            },
    {
        proof {
            reveal(sphere_rec_s);
            lemma_fxmul_mag(r.direction.x as int, t as int, DIR_MAX as int, T_CAP as int);
            lemma_fxmul_mag(r.direction.y as int, t as int, DIR_MAX as int, T_CAP as int);
            lemma_fxmul_mag(r.direction.z as int, t as int, DIR_MAX as int, T_CAP as int);
        }
        let p = r.at(t);
        if p.x < -POS_MAX || p.x > POS_MAX || p.y < -POS_MAX || p.y > POS_MAX || p.z < -POS_MAX
            || p.z > POS_MAX {
            return None;
        }
        let diff = p.sub(&self.center);
        let two_r = 2 * self.radius;
        if diff.x < -two_r || diff.x > two_r || diff.y < -two_r || diff.y > two_r || diff.z
            < -two_r || diff.z > two_r {
            return None;
        }
        proof {
            lemma_div_by_radius(diff.x as int, self.radius as int);
            lemma_div_by_radius(diff.y as int, self.radius as int);
            lemma_div_by_radius(diff.z as int, self.radius as int);
        }
        let outward = diff.div_scalar(self.radius);
        proof {
            lemma_dot_mag(r.direction@, outward@, DIR_MAX as int, 2 * FX_ONE as int);
        }
        let front = crate::vec3::dot(&r.direction, &outward) < 0;
        let normal = if front {
            outward
        } else {
            outward.neg()
        };
        Some(HitRecord { p, normal, t, front_face: front, mat: self.mat })
    }
}

/// A difference no longer than twice the radius divides by the radius to
/// at most twice the unit.
proof fn lemma_div_by_radius(c: int, rad: int)
    requires
        rad >= 1,
        -2 * rad <= c <= 2 * rad,
    ensures
        -2 * (FX_ONE as int) <= fxdiv_s(c, rad) <= 2 * (FX_ONE as int),
{
    assert(-(rad * 0x8000_0000int) <= c * 0x4000_0000int <= rad * 0x8000_0000int)
        by (nonlinear_arith)
        requires
            rad >= 1 && -2 * rad <= c <= 2 * rad,
    ;
    lemma_tdiv_mag(c * (FX_ONE as int), rad, rad * (2 * FX_ONE as int));
    vstd::arithmetic::div_mod::lemma_div_multiples_vanish(2 * FX_ONE as int, rad);
}

/// How a sphere's hit responds to widening or narrowing the far end of
/// the interval: a hit stays the same hit under a wider interval, and a
/// hit within a narrower bound is already the narrower interval's hit.
pub proof fn lemma_sphere_hit_widen(sp: Sphere, ry: RayV, tmin: int, t1: int, t2: int)
    requires
        t1 <= t2,
    ensures
        match sphere_hit_s(sp, ry, tmin, t1) {
            Some(rec) => sphere_hit_s(sp, ry, tmin, t2) == Some(rec),
            None => true,
        },
        match sphere_hit_s(sp, ry, tmin, t2) {
            Some(rec) => tmin <= rec.t <= t2 && (rec.t <= t1 ==> sphere_hit_s(sp, ry, tmin, t1)
                == Some(rec)),
            None => sphere_hit_s(sp, ry, tmin, t1) is None,
        },
{
    reveal(sphere_hit_s);
    reveal(sphere_rec_s);
    let oc = sub_s(sp.center@, ry.orig);
    let a = dot_s(ry.dir, ry.dir);
    let h = dot_s(ry.dir, oc);
    let c = len2_s(oc) - fxmul_s(sp.radius as int, sp.radius as int);
    let disc = fxmul_s(h, h) - fxmul_s(a, c);
    if a <= 0 || disc < 0 {
    } else {
        let sq = sqrt_s(disc * (FX_ONE as int));
        lemma_sqrt_props(disc * (FX_ONE as int));
        crate::fx::lemma_tdiv_monotone((h - sq) * (FX_ONE as int), (h + sq) * (FX_ONE as int), a);
        let r1 = fxdiv_s(h - sq, a);
        let r2 = fxdiv_s(h + sq, a);
        assert(r1 <= r2);
        match sphere_rec_s(sp, ry, r1) {
            Some(rec) => {
                assert(rec.t == r1);
            },
            None => {},
        }
        match sphere_rec_s(sp, ry, r2) {
            Some(rec) => {
                assert(rec.t == r2);
            },
            None => {},
        }
    }
}

/// No member of the scene intersects the ray within the interval.
pub open spec fn all_miss_s(spheres: Seq<Sphere>, ry: RayV, tmin: int, tmax: int) -> bool {
    forall|k: int|
        0 <= k < spheres.len() ==> (#[trigger] sphere_hit_s(spheres[k], ry, tmin, tmax)) is None
}

/// What the scene-level search promises: the returned record is some
/// member's hit over the full interval, and no member hits nearer; a
/// miss means no member hits at all.
pub open spec fn scene_hit_post(
    spheres: Seq<Sphere>,
    ry: RayV,
    tmin: int,
    tmax: int,
    res: Option<HitV>,
) -> bool {
    match res {
        Some(rec) => {
            &&& exists|i: int|
                0 <= i < spheres.len() && #[trigger] sphere_hit_s(spheres[i], ry, tmin, tmax)
                    == Some(rec)
            &&& forall|j: int|
                0 <= j < spheres.len() ==> (match #[trigger] sphere_hit_s(
                    spheres[j],
                    ry,
                    tmin,
                    tmax,
                ) {
                    Some(other) => other.t >= rec.t,
                    None => true,
                })
        },
        None => all_miss_s(spheres, ry, tmin, tmax),
    }
}

/// An ordered collection of spheres, hit by delegating to each member
/// while tightening the admissible interval to the closest hit so far.
pub struct HittableList {
    pub objects: Vec<Sphere>,
}

impl HittableList {
    pub open spec fn wf(self) -> bool {
        forall|i: int| 0 <= i < self.objects@.len() ==> (#[trigger] self.objects@[i]).wf()
    }

    pub fn new() -> (r: HittableList)
        ensures
            r.objects@.len() == 0,
            r.wf(),
    {
        HittableList { objects: Vec::new() }
    }

    pub fn add(&mut self, sp: Sphere)
        requires
            sp.wf(),
            old(self).wf(),
        ensures
            final(self).objects@ == old(self).objects@.push(sp),
            final(self).wf(),
    {
        self.objects.push(sp);
        proof {
            assert forall|i: int| 0 <= i < self.objects@.len() implies (#[trigger] self.objects@[i]).wf() by {
                if i < self.objects@.len() - 1 {
                    assert(old(self).objects@[i].wf());
                }
            }
        }
    }

    pub fn len(&self) -> (r: usize)
        ensures
            r == self.objects@.len(),
    {
        self.objects.len()
    }

    /// The nearest hit among all members within the interval.
    pub fn hit(&self, r: &Ray, ray_t: Interval) -> (res: Option<HitRecord>)
        requires
            self.wf(),
            ray_wf(r@),
            0 <= ray_t.min,
        ensures
            scene_hit_post(self.objects@, r@, ray_t.min as int, ray_t.max as int, opt_rec_v(res)),
            match res {
                Some(rec) => {
                    &&& ray_t.min <= rec.t <= ray_t.max
                    &&& rec.t <= T_CAP
                    &&& pos_fits(rec.p@)
                    &&& unit_fits(rec.normal@)
                    &&& mat_wf(rec.mat)
                },
                None => true,
            },
    {
        let mut result: Option<HitRecord> = None;
        let mut closest: i64 = ray_t.max;
        let n = self.objects.len();
        let mut k: usize = 0;
        while k < n
            invariant
                0 <= k <= n,
                n == self.objects@.len(),
                self.wf(),
                ray_wf(r@),
                0 <= ray_t.min,
                closest <= ray_t.max,
                match opt_rec_v(result) {
                    Some(rec) => {
                        &&& closest == rec.t
                        &&& ray_t.min <= rec.t <= ray_t.max
                        &&& rec.t <= T_CAP as int
                        &&& pos_fits(rec.p)
                        &&& unit_fits(rec.normal)
                        &&& mat_wf(rec.mat)
                        &&& exists|i: int|
                            0 <= i < k && #[trigger] sphere_hit_s(
                                self.objects@[i],
                                r@,
                                ray_t.min as int,
                                ray_t.max as int,
                            ) == Some(rec)
                        &&& forall|j: int|
                            0 <= j < k ==> (match #[trigger] sphere_hit_s(
                                self.objects@[j],
                                r@,
                                ray_t.min as int,
                                ray_t.max as int,
                            ) {
                                Some(other) => other.t >= rec.t,
                                None => true,
                            })
                    },
                    None => {
                        &&& closest == ray_t.max
                        &&& forall|j: int|
                            0 <= j < k ==> (#[trigger] sphere_hit_s(
                                self.objects@[j],
                                r@,
                                ray_t.min as int,
                                ray_t.max as int,
                            )) is None
                    },
                },
            decreases n - k,
        {
            let sp = self.objects[k];
            let attempt = sp.hit(r, Interval::new(ray_t.min, closest));
            proof {
                lemma_sphere_hit_widen(sp, r@, ray_t.min as int, closest as int, ray_t.max as int);
            }
            match attempt {
                Some(rec) => {
                    closest = rec.t;
                    result = Some(rec);
                },
                None => {},
            }
            k = k + 1;
        }
        result
    }
}

/// The nearest-hit search is insensitive to insertion order: when two
/// spheres both hit a ray, at distinct distances, any result meeting
/// the search's contract — under either insertion order — is exactly
/// the closer sphere's record.
pub proof fn lemma_nearest_hit_order_independent(
    s1: Sphere,
    s2: Sphere,
    ry: RayV,
    tmin: int,
    tmax: int,
    rec1: HitV,
    rec2: HitV,
    res_a: Option<HitV>,
    res_b: Option<HitV>,
)
    requires
        sphere_hit_s(s1, ry, tmin, tmax) == Some(rec1),
        sphere_hit_s(s2, ry, tmin, tmax) == Some(rec2),
        rec1.t < rec2.t,
        scene_hit_post(seq![s1, s2], ry, tmin, tmax, res_a),
        scene_hit_post(seq![s2, s1], ry, tmin, tmax, res_b),
    ensures
        res_a == Some(rec1),
        res_b == Some(rec1),
{
    let sa = seq![s1, s2];
    let sb = seq![s2, s1];
    assert(sa[0] == s1 && sa[1] == s2 && sa.len() == 2);
    assert(sb[0] == s2 && sb[1] == s1 && sb.len() == 2);
    match res_a {
        Some(rec) => {
            let i = choose|i: int|
                0 <= i < sa.len() && #[trigger] sphere_hit_s(sa[i], ry, tmin, tmax) == Some(rec);
            assert(sphere_hit_s(sa[0], ry, tmin, tmax) == Some(rec1));
            assert(sphere_hit_s(sa[1], ry, tmin, tmax) == Some(rec2));
            if i == 1 {
                assert(rec == rec2);
                assert(rec1.t >= rec.t);
                assert(false);
            }
            assert(rec == rec1);
        },
        None => {
            assert(sphere_hit_s(sa[0], ry, tmin, tmax) is None);
            assert(false);
        },
    }
    match res_b {
        Some(rec) => {
            let i = choose|i: int|
                0 <= i < sb.len() && #[trigger] sphere_hit_s(sb[i], ry, tmin, tmax) == Some(rec);
            assert(sphere_hit_s(sb[0], ry, tmin, tmax) == Some(rec2));
            assert(sphere_hit_s(sb[1], ry, tmin, tmax) == Some(rec1));
            if i == 0 {
                assert(rec == rec2);
                assert(rec1.t >= rec.t);
                assert(false);
            }
            assert(rec == rec1);
        },
        None => {
            assert(sphere_hit_s(sb[1], ry, tmin, tmax) is None);
            assert(false);
        },
    }
}

/// A ray whose line passes the center farther out than the radius
/// misses: over exact integers, with a = d.d, h = d.oc and the squared
/// perpendicular offset written through its multiple a.(oc.oc) - h^2,
/// an offset beyond the radius makes the discriminant negative.
pub proof fn lemma_perpendicular_miss(d: V3, oc: V3, rad: int)
    requires
        crate::vec3::idot(d, d) > 0,
        crate::vec3::idot(d, d) * crate::vec3::idot(oc, oc) - crate::vec3::idot(d, oc)
            * crate::vec3::idot(d, oc) > crate::vec3::idot(d, d) * (rad * rad),
    ensures
        crate::vec3::idot(d, oc) * crate::vec3::idot(d, oc) - crate::vec3::idot(d, d) * (
        crate::vec3::idot(oc, oc) - rad * rad) < 0,
{
    let a = crate::vec3::idot(d, d);
    let h = crate::vec3::idot(d, oc);
    let c = crate::vec3::idot(oc, oc);
    assert(a * (c - rad * rad) == a * c - a * (rad * rad)) by (nonlinear_arith);
    assert(h * h - a * (c - rad * rad) < 0);
}

/// A ray aimed straight at a sphere's center hits at exactly the
/// distance to the surface, and the stored normal points back along the
/// ray, parallel to (hit point - center). Stated for whole-unit
/// distances k and radii m, where every fixed-point step is exact.
pub proof fn lemma_head_on_hit(sp: Sphere, k: int, m: int)
    requires
        0 < m < k,
        k + m <= 16384,
        sp.center@ == (V3 { x: 0, y: 0, z: -(k * 0x4000_0000) }),
        sp.radius as int == m * 0x4000_0000,
    ensures
        sphere_hit_s(
            sp,
            RayV { orig: V3 { x: 0, y: 0, z: 0 }, dir: V3 { x: 0, y: 0, z: -0x4000_0000 } },
            0,
            T_CAP as int,
        ) == Some(
            HitV {
                p: V3 { x: 0, y: 0, z: -((k - m) * 0x4000_0000) },
                normal: V3 { x: 0, y: 0, z: 0x4000_0000 },
                t: (k - m) * 0x4000_0000,
                front_face: true,
                mat: sp.mat,
            },
        ),
{
    reveal(sphere_hit_s);
    reveal(sphere_rec_s);
    let ry = RayV { orig: V3 { x: 0, y: 0, z: 0 }, dir: V3 { x: 0, y: 0, z: -0x4000_0000 } };
    let oc = sub_s(sp.center@, ry.orig);
    let kr = k * 0x4000_0000int;
    let mr = m * 0x4000_0000int;
    assert(oc == (V3 { x: 0, y: 0, z: -kr }));
    vstd::arithmetic::div_mod::lemma_div_basics_1(0x4000_0000int);
    // a = |d|^2 = 1, exactly.
    vstd::arithmetic::div_mod::lemma_div_multiples_vanish(0x4000_0000int, 0x4000_0000int);
    assert((-0x4000_0000int) * (-0x4000_0000int) == 0x4000_0000int * 0x4000_0000int)
        by (nonlinear_arith);
    assert(0int * 0int == 0) by (nonlinear_arith);
    let a = dot_s(ry.dir, ry.dir);
    assert(a == 0x4000_0000int);
    // h = d . oc = k, exactly.
    assert((-0x4000_0000int) * (-kr) == 0x4000_0000int * kr) by (nonlinear_arith);
    vstd::arithmetic::div_mod::lemma_div_multiples_vanish(kr, 0x4000_0000int);
    let h = dot_s(ry.dir, oc);
    assert(h == kr);
    // |oc|^2 and the radius square, exactly.
    let kk = k * kr;
    let mm = m * mr;
    assert((-kr) * (-kr) == 0x4000_0000int * kk) by (nonlinear_arith)
        requires
            kr == k * 0x4000_0000int && kk == k * kr,
    ;
    vstd::arithmetic::div_mod::lemma_div_multiples_vanish(kk, 0x4000_0000int);
    assert(len2_s(oc) == kk);
    assert(mr * mr == 0x4000_0000int * mm) by (nonlinear_arith)
        requires
            mr == m * 0x4000_0000int && mm == m * mr,
    ;
    vstd::arithmetic::div_mod::lemma_div_multiples_vanish(mm, 0x4000_0000int);
    assert(fxmul_s(sp.radius as int, sp.radius as int) == mm);
    let c = len2_s(oc) - fxmul_s(sp.radius as int, sp.radius as int);
    // The discriminant is the squared radius, exactly.
    assert(kr * kr == 0x4000_0000int * kk) by (nonlinear_arith)
        requires
            kr == k * 0x4000_0000int && kk == k * kr,
    ;
    assert(fxmul_s(h, h) == kk);
    assert(0x4000_0000int * c == 0x4000_0000int * (kk - mm)) by (nonlinear_arith)
        requires
            c == kk - mm,
    ;
    vstd::arithmetic::div_mod::lemma_div_multiples_vanish(kk - mm, 0x4000_0000int);
    assert(fxmul_s(a, c) == kk - mm);
    let disc = fxmul_s(h, h) - fxmul_s(a, c);
    assert(disc == mm);
    assert(m * mr >= m) by (nonlinear_arith)
        requires
            m >= 1 && mr == m * 0x4000_0000int,
    ;
    // Its square root is the raw radius, exactly.
    assert(mm * 0x4000_0000int == mr * mr) by (nonlinear_arith)
        requires
            mr == m * 0x4000_0000int && mm == m * mr,
    ;
    assert(mr * mr < (mr + 1) * (mr + 1)) by (nonlinear_arith)
        requires
            mr >= 1,
    ;
    crate::fx::lemma_sqrt_unique(mm * 0x4000_0000int, mr);
    let sq = sqrt_s(disc * (FX_ONE as int));
    assert(sq == mr);
    // The near root is the distance to the surface, exactly.
    assert((h - sq) * 0x4000_0000int == 0x4000_0000int * ((k - m) * 0x4000_0000int))
        by (nonlinear_arith)
        requires
            h == k * 0x4000_0000int && sq == m * 0x4000_0000int,
    ;
    vstd::arithmetic::div_mod::lemma_div_multiples_vanish(
        (k - m) * 0x4000_0000int,
        0x4000_0000int,
    );
    let t = (k - m) * 0x4000_0000int;
    assert(fxdiv_s(h - sq, a) == t);
    assert(0 <= t && t <= T_CAP as int) by (nonlinear_arith)
        requires
            t == (k - m) * 0x4000_0000int && 0 < m < k && k + m <= 16384,
    ;
    // The hit record: the point one radius short of the center, the
    // outward normal back along the ray.
    let p = at_s(ry, t);
    assert(0int * t == 0) by (nonlinear_arith);
    assert((-0x4000_0000int) * t == -(0x4000_0000int * t)) by (nonlinear_arith);
    vstd::arithmetic::div_mod::lemma_div_multiples_vanish(t, 0x4000_0000int);
    assert(fxmul_s(ry.dir.z, t) == -t) by {
        crate::fx::lemma_tdiv_flip(0x4000_0000int * t, -0x4000_0000int);
    }
    assert(p == (V3 { x: 0, y: 0, z: -t }));
    assert(pos_fits(p)) by (nonlinear_arith)
        requires
            p.x == 0 && p.y == 0 && p.z == -((k - m) * 0x4000_0000int) && 0 < m < k && k + m
                <= 16384,
    ;
    let diff = sub_s(p, sp.center@);
    assert(diff == (V3 { x: 0, y: 0, z: mr })) by (nonlinear_arith)
        requires
            diff.x == 0 && diff.y == 0 && diff.z == -((k - m) * 0x4000_0000int) + k
                * 0x4000_0000int && mr == m * 0x4000_0000int,
    ;
    assert(mr <= 2 * sp.radius);
    assert(0int * 0x4000_0000int == 0) by (nonlinear_arith);
    vstd::arithmetic::div_mod::lemma_div_multiples_vanish(0x4000_0000int, mr);
    let outward = divide_s(diff, sp.radius as int);
    assert(fxdiv_s(0, mr) == 0) by {
        vstd::arithmetic::div_mod::lemma_div_basics_1(mr);
    }
    assert(outward == (V3 { x: 0, y: 0, z: 0x4000_0000int }));
    assert((-0x4000_0000int) * 0x4000_0000int == -(0x4000_0000int * 0x4000_0000int))
        by (nonlinear_arith);
    assert(0x4000_0000int * 0x4000_0000int / 0x4000_0000int == 0x4000_0000int) by {
        vstd::arithmetic::div_mod::lemma_div_multiples_vanish(0x4000_0000int, 0x4000_0000int);
    }
    assert(dot_s(ry.dir, outward) == -0x4000_0000int) by {
        crate::fx::lemma_tdiv_flip(0x4000_0000int * 0x4000_0000int, -0x4000_0000int);
    }
    assert(sphere_rec_s(sp, ry, t) == Some(
        HitV {
            p: V3 { x: 0, y: 0, z: -((k - m) * 0x4000_0000) },
            normal: V3 { x: 0, y: 0, z: 0x4000_0000 },
            t: (k - m) * 0x4000_0000,
            front_face: true,
            mat: sp.mat,
        },
    ));
}

} // verus!
