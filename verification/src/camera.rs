//! The camera: render configuration, derived viewport and lens geometry,
//! per-pixel sample rays, the recursive color integrator, and the
//! sequential scanline renderer. One scanline is the unit of work a
//! caller may schedule however it likes through `render_row`.

use vstd::prelude::*;

use crate::fx::{fxmul, fxmul_s, lemma_tdiv_nonneg, tdiv, tdiv_i128, FX_ONE};
use crate::hittable::{pos_fits, ray_wf, HitV, HittableList, Sphere, POS_MAX};
use crate::image::Image;
use crate::material::{color_fits, Material};
use crate::ray::{Ray, RayV};
use crate::utils::{tan_half, Interval, INFINITY};
use crate::vec3::{
    add_s, cross_s, dir_fits, dot_s, fits_v3, lemma_fxmul_mag, lemma_mul_mag, lemma_sq_nonneg,
    lemma_tdiv_mag, mul_s, norm2_s, scale_s, sub_s, unit_s, Vec3, DIR_MAX, V3,
};

verus! {

/// Intersections closer than this (0.001 in value) are ignored, so a
/// scattered ray cannot strike the surface it just left.
pub const SHADOW_EPS: i64 = 1073742;

/// One half, in raw fixed-point form.
pub const HALF_ONE: i64 = 0x2000_0000;

/// The sky gradient's blue endpoint: (0.5, 0.7, 1.0).
pub const SKY_G: i64 = 751619277;

/// Cap on the derived viewport height (1024 in value); a configuration
/// within config_wf stays far below it.
pub const VIEW_H_CAP: i64 = 0x100_0000_0000;

/// Cap on the width/height pixel ratio (16 in value).
pub const WOH_CAP: i64 = 0x4_0000_0000;

pub struct Camera {
    pub aspect_ratio: i64,
    pub image_width: usize,
    pub samples_per_pixel: usize,
    pub max_depth: usize,
    pub vfov: i64,
    pub look_from: Vec3,
    pub look_at: Vec3,
    pub vup: Vec3,
    pub defocus_angle: i64,
    pub focus_dist: i64,
    pub image_height: usize,
    pub pixel_samples_scale: i64,
    pub center: Vec3,
    pub pixel00_loc: Vec3,
    pub pixel_delta_u: Vec3,
    pub pixel_delta_v: Vec3,
    pub u: Vec3,
    pub v: Vec3,
    pub w: Vec3,
    pub defocus_disk_u: Vec3,
    pub defocus_disk_v: Vec3,
}

/// Bounds a configuration must respect: positive sizes, angles within
/// the representable range, positions within a 1024-unit box, an up
/// vector of roughly unit length that is not parallel to the view
/// direction, and distinct look-from and look-at points.
pub open spec fn small_pos(v: V3) -> bool {
    &&& -0x100_0000_0000 <= v.x <= 0x100_0000_0000
    &&& -0x100_0000_0000 <= v.y <= 0x100_0000_0000
    &&& -0x100_0000_0000 <= v.z <= 0x100_0000_0000
}

/// A jitter offset inside the pixel footprint.
pub open spec fn jitter_point(ox: int, oy: int) -> bool {
    &&& -(HALF_ONE as int) <= ox < HALF_ONE as int
    &&& -(HALF_ONE as int) <= oy < HALF_ONE as int
}

/// A point strictly inside the unit lens disk, as the disk sampler
/// draws it.
pub open spec fn disk_point(px: int, py: int) -> bool {
    &&& -(FX_ONE as int) <= px < FX_ONE as int
    &&& -(FX_ONE as int) <= py < FX_ONE as int
    &&& crate::vec3::len2_s(V3 { x: px, y: py, z: 0 }) < FX_ONE as int
}

/// The component-wise sum of a sequence of sample colors.
pub open spec fn color_sum_s(samples: Seq<V3>) -> V3
    decreases samples.len(),
{
    if samples.len() == 0 {
        V3 { x: 0, y: 0, z: 0 }
    } else {
        add_s(color_sum_s(samples.drop_last()), samples.last())
    }
}

/// The viewport height: twice the half-angle tangent times the focus
/// distance, clamped into [0, VIEW_H_CAP].
pub open spec fn viewport_h_of(vfov: int, focus: int) -> int {
    let vh = fxmul_s(2 * crate::utils::tan_half_s(vfov), focus);
    if vh > VIEW_H_CAP as int {
        VIEW_H_CAP as int
    } else if vh < 0 {
        0
    } else {
        vh
    }
}

/// The width-over-height pixel ratio, clamped at WOH_CAP.
pub open spec fn woh_of(width: int, height: int) -> int {
    let q = tdiv(width * (FX_ONE as int), height);
    if q > WOH_CAP as int {
        WOH_CAP as int
    } else {
        q
    }
}

/// The pixel grid a camera derives: the per-pixel deltas along the
/// viewport edges, and the world location of pixel (0, 0)'s center.
#[verifier::opaque]
pub open spec fn grid_s(
    u: V3,
    v: V3,
    w: V3,
    center: V3,
    focus: int,
    vfov: int,
    width: int,
    height: int,
) -> (V3, V3, V3) {
    let vh = viewport_h_of(vfov, focus);
    let vw = fxmul_s(vh, woh_of(width, height));
    let vu = scale_s(u, vw);
    let vv = scale_s(v, -vh);
    let pdu = crate::vec3::divn_s(vu, width);
    let pdv = crate::vec3::divn_s(vv, height);
    let upper_left = sub_s(
        sub_s(sub_s(center, scale_s(w, focus)), crate::vec3::divn_s(vu, 2)),
        crate::vec3::divn_s(vv, 2),
    );
    (pdu, pdv, add_s(upper_left, scale_s(add_s(pdu, pdv), HALF_ONE as int)))
}

/// The defocus disk basis: u and v scaled by the lens radius
/// focus_dist times the half-angle tangent of the defocus angle.
#[verifier::opaque]
pub open spec fn defocus_disk_s(u: V3, v: V3, focus: int, angle: int) -> (V3, V3) {
    let rd = fxmul_s(focus, crate::utils::tan_half_s(angle));
    (scale_s(u, rd), scale_s(v, rd))
}

impl Camera {
    pub open spec fn config_wf(self) -> bool {
        &&& 0x800_0000 <= self.aspect_ratio <= 0x2_0000_0000
        &&& 1 <= self.image_width <= 4096
        &&& 1 <= self.samples_per_pixel <= 0x10000
        &&& self.max_depth <= 200
        &&& 0 < self.vfov <= 0x28_0000_0000
        &&& small_pos(self.look_from@)
        &&& small_pos(self.look_at@)
        &&& crate::vec3::unit_fits(self.vup@)
        &&& norm2_s(sub_s(self.look_from@, self.look_at@)) >= 1
        &&& norm2_s(cross_s(self.vup@, unit_s(sub_s(self.look_from@, self.look_at@)))) >= 1
        &&& 0 <= self.defocus_angle <= 0x28_0000_0000
        &&& 0 < self.focus_dist <= 0x20_0000_0000
    }

    /// The derived image height: width over aspect ratio, at least one.
    pub open spec fn image_height_s(self) -> int {
        let h = tdiv(self.image_width * (FX_ONE as int), self.aspect_ratio as int);
        if h < 1 {
            1
        } else {
            h
        }
    }

    pub open spec fn w_basis_s(self) -> V3 {
        unit_s(sub_s(self.look_from@, self.look_at@))
    }

    pub open spec fn u_basis_s(self) -> V3 {
        unit_s(cross_s(self.vup@, self.w_basis_s()))
    }

    pub open spec fn v_basis_s(self) -> V3 {
        cross_s(self.w_basis_s(), self.u_basis_s())
    }

    /// The derived pixel grid: (delta u, delta v, pixel (0,0) location),
    /// by the formulas derive_grid computes.
    pub open spec fn grid_mirror_s(self) -> (V3, V3, V3) {
        grid_s(
            self.u_basis_s(),
            self.v_basis_s(),
            self.w_basis_s(),
            self.look_from@,
            self.focus_dist as int,
            self.vfov as int,
            self.image_width as int,
            self.image_height_s(),
        )
    }

    /// The derived defocus disk basis, by the formulas derive_defocus
    /// computes.
    pub open spec fn defocus_mirror_s(self) -> (V3, V3) {
        defocus_disk_s(
            self.u_basis_s(),
            self.v_basis_s(),
            self.focus_dist as int,
            self.defocus_angle as int,
        )
    }

    /// Everything `initialize` establishes: the derived fields equal
    /// their formulas and carry the bounds the sampling code needs.
    pub open spec fn derived_ok(self) -> bool {
        &&& self.config_wf()
        &&& self.image_height == self.image_height_s()
        &&& 1 <= self.image_height <= 0x8000
        &&& self.pixel_samples_scale == tdiv(FX_ONE as int, self.samples_per_pixel as int)
        &&& 0 <= self.pixel_samples_scale <= FX_ONE
        &&& self.center == self.look_from
        &&& self.w@ == self.w_basis_s()
        &&& self.u@ == self.u_basis_s()
        &&& self.v@ == self.v_basis_s()
        &&& crate::vec3::unit_fits(self.w@)
        &&& crate::vec3::unit_fits(self.u@)
        &&& -0x2_0000_0000 <= self.v.x <= 0x2_0000_0000
        &&& -0x2_0000_0000 <= self.v.y <= 0x2_0000_0000
        &&& -0x2_0000_0000 <= self.v.z <= 0x2_0000_0000
        &&& self.pixel_delta_u@ == self.grid_mirror_s().0
        &&& self.pixel_delta_v@ == self.grid_mirror_s().1
        &&& self.pixel00_loc@ == self.grid_mirror_s().2
        &&& self.defocus_disk_u@ == self.defocus_mirror_s().0
        &&& self.defocus_disk_v@ == self.defocus_mirror_s().1
        &&& -0x10_0000_0000_0000 <= self.pixel00_loc.x <= 0x10_0000_0000_0000
        &&& -0x10_0000_0000_0000 <= self.pixel00_loc.y <= 0x10_0000_0000_0000
        &&& -0x10_0000_0000_0000 <= self.pixel00_loc.z <= 0x10_0000_0000_0000
        &&& -0x8000_0000_0000 <= self.pixel_delta_u.x <= 0x8000_0000_0000
        &&& -0x8000_0000_0000 <= self.pixel_delta_u.y <= 0x8000_0000_0000
        &&& -0x8000_0000_0000 <= self.pixel_delta_u.z <= 0x8000_0000_0000
        &&& -0x800_0000_0000 <= self.pixel_delta_v.x <= 0x800_0000_0000
        &&& -0x800_0000_0000 <= self.pixel_delta_v.y <= 0x800_0000_0000
        &&& -0x800_0000_0000 <= self.pixel_delta_v.z <= 0x800_0000_0000
        &&& -0x800_0000_0000 <= self.defocus_disk_u.x <= 0x800_0000_0000
        &&& -0x800_0000_0000 <= self.defocus_disk_u.y <= 0x800_0000_0000
        &&& -0x800_0000_0000 <= self.defocus_disk_u.z <= 0x800_0000_0000
        &&& -0x800_0000_0000 <= self.defocus_disk_v.x <= 0x800_0000_0000
        &&& -0x800_0000_0000 <= self.defocus_disk_v.y <= 0x800_0000_0000
        &&& -0x800_0000_0000 <= self.defocus_disk_v.z <= 0x800_0000_0000
        &&& pos_fits(self.center@)
    }

    /// The defaults: a square aspect, a small image, and a camera at the
    /// origin looking down the negative z axis.
    pub fn new() -> (r: Camera)
        ensures
            r.config_wf(),
            r.aspect_ratio == FX_ONE,
            r.image_width == 100,
            r.samples_per_pixel == 10,
            r.max_depth == 10,
            r.vfov == 90 * FX_ONE,
            r.look_from@ == (V3 { x: 0, y: 0, z: 0 }),
            r.look_at@ == (V3 { x: 0, y: 0, z: -(FX_ONE as int) }),
            r.vup@ == (V3 { x: 0, y: FX_ONE as int, z: 0 }),
            r.defocus_angle == 0,
            r.focus_dist == 10 * FX_ONE,
            r.image_height == 0,
            r.pixel_samples_scale == 0,
            r.center@ == (V3 { x: 0, y: 0, z: 0 }),
            r.pixel00_loc@ == (V3 { x: 0, y: 0, z: 0 }),
            r.pixel_delta_u@ == (V3 { x: 0, y: 0, z: 0 }),
            r.pixel_delta_v@ == (V3 { x: 0, y: 0, z: 0 }),
            r.u@ == (V3 { x: 0, y: 0, z: 0 }),
            r.v@ == (V3 { x: 0, y: 0, z: 0 }),
            r.w@ == (V3 { x: 0, y: 0, z: 0 }),
            r.defocus_disk_u@ == (V3 { x: 0, y: 0, z: 0 }),
            r.defocus_disk_v@ == (V3 { x: 0, y: 0, z: 0 }),
    {
        let c = Camera {
            aspect_ratio: FX_ONE,
            image_width: 100,
            samples_per_pixel: 10,
            max_depth: 10,
            vfov: 90 * FX_ONE,
            look_from: Vec3 { x: 0, y: 0, z: 0 },
            look_at: Vec3 { x: 0, y: 0, z: -FX_ONE },
            vup: Vec3 { x: 0, y: FX_ONE, z: 0 },
            defocus_angle: 0,
            focus_dist: 10 * FX_ONE,
            image_height: 0,
            pixel_samples_scale: 0,
            center: Vec3 { x: 0, y: 0, z: 0 },
            pixel00_loc: Vec3 { x: 0, y: 0, z: 0 },
            pixel_delta_u: Vec3 { x: 0, y: 0, z: 0 },
            pixel_delta_v: Vec3 { x: 0, y: 0, z: 0 },
            u: Vec3 { x: 0, y: 0, z: 0 },
            v: Vec3 { x: 0, y: 0, z: 0 },
            w: Vec3 { x: 0, y: 0, z: 0 },
            defocus_disk_u: Vec3 { x: 0, y: 0, z: 0 },
            defocus_disk_v: Vec3 { x: 0, y: 0, z: 0 },
        };
        proof {
            lemma_config_wf_default(c);
        }
        c
    }

    /// Whether this configuration meets every bound config_wf asks,
    /// exactly: a caller can test a configuration before initialize
    /// and render instead of trusting it.
    pub fn config_ok(&self) -> (r: bool)
        ensures
            r == self.config_wf(),
    {
        if !(0x800_0000 <= self.aspect_ratio && self.aspect_ratio <= 0x2_0000_0000) {
            return false;
        }
        if !(1 <= self.image_width && self.image_width <= 4096) {
            return false;
        }
        if !(1 <= self.samples_per_pixel && self.samples_per_pixel <= 0x10000) {
            return false;
        }
        if !(self.max_depth <= 200) {
            return false;
        }
        if !(0 < self.vfov && self.vfov <= 0x28_0000_0000) {
            return false;
        }
        if !(-0x100_0000_0000 <= self.look_from.x && self.look_from.x <= 0x100_0000_0000
            && -0x100_0000_0000 <= self.look_from.y && self.look_from.y <= 0x100_0000_0000
            && -0x100_0000_0000 <= self.look_from.z && self.look_from.z <= 0x100_0000_0000) {
            return false;
        }
        if !(-0x100_0000_0000 <= self.look_at.x && self.look_at.x <= 0x100_0000_0000
            && -0x100_0000_0000 <= self.look_at.y && self.look_at.y <= 0x100_0000_0000
            && -0x100_0000_0000 <= self.look_at.z && self.look_at.z <= 0x100_0000_0000) {
            return false;
        }
        if !(-0x8000_0000 <= self.vup.x && self.vup.x <= 0x8000_0000 && -0x8000_0000
            <= self.vup.y && self.vup.y <= 0x8000_0000 && -0x8000_0000 <= self.vup.z
            && self.vup.z <= 0x8000_0000) {
            return false;
        }
        if !(0 <= self.defocus_angle && self.defocus_angle <= 0x28_0000_0000) {
            return false;
        }
        if !(0 < self.focus_dist && self.focus_dist <= 0x20_0000_0000) {
            return false;
        }
        let d = self.look_from.sub(&self.look_at);
        proof {
            lemma_nonzero_norm2(d@);
        }
        if d.x == 0 && d.y == 0 && d.z == 0 {
            return false;
        }
        let w = crate::vec3::unit_vector(&d);
        let c = crate::vec3::cross(&self.vup, &w);
        proof {
            lemma_nonzero_norm2(c@);
        }
        !(c.x == 0 && c.y == 0 && c.z == 0)
    }

    /// Derives the image height, the camera basis, the viewport deltas,
    /// the location of pixel (0, 0) and the defocus disk from the
    /// configuration.
    pub fn initialize(&mut self)
        requires
            old(self).config_wf(),
        ensures
            final(self).aspect_ratio == old(self).aspect_ratio,
            final(self).image_width == old(self).image_width,
            final(self).samples_per_pixel == old(self).samples_per_pixel,
            final(self).max_depth == old(self).max_depth,
            final(self).vfov == old(self).vfov,
            final(self).look_from == old(self).look_from,
            final(self).look_at == old(self).look_at,
            final(self).vup == old(self).vup,
            final(self).defocus_angle == old(self).defocus_angle,
            final(self).focus_dist == old(self).focus_dist,
            final(self).derived_ok(),
    {
        proof {
            lemma_tdiv_nonneg(self.image_width * (FX_ONE as int), self.aspect_ratio as int);
            lemma_tdiv_mag(
                self.image_width * (FX_ONE as int),
                self.aspect_ratio as int,
                0x1000_4000_0000_0000int,
            );
        }
        let ihw = tdiv_i128(
            (self.image_width as i128) * (FX_ONE as i128),
            self.aspect_ratio as i128,
        );
        let ih0 = ihw as i64;
        let image_height: usize = if ih0 < 1 {
            1usize
        } else {
            proof {
                lemma_height_small(self.image_width as int, self.aspect_ratio as int, ih0 as int);
            }
            ih0 as usize
        };
        self.image_height = image_height;

        proof {
            lemma_tdiv_nonneg(FX_ONE as int, self.samples_per_pixel as int);
            lemma_tdiv_mag(FX_ONE as int, self.samples_per_pixel as int, FX_ONE as int);
        }
        self.pixel_samples_scale = tdiv_i128(
            FX_ONE as i128,
            self.samples_per_pixel as i128,
        ) as i64;
        self.center = self.look_from;

        let (w, u, v) = derive_basis(self.look_from, self.look_at, self.vup);
        self.w = w;
        self.u = u;
        self.v = v;

        let (pdu, pdv, p00) = derive_grid(
            u,
            v,
            w,
            self.center,
            self.focus_dist,
            self.vfov,
            self.image_width,
            self.image_height,
        );
        self.pixel_delta_u = pdu;
        self.pixel_delta_v = pdv;
        self.pixel00_loc = p00;

        let (ddu, ddv) = derive_defocus(u, v, self.focus_dist, self.defocus_angle);
        self.defocus_disk_u = ddu;
        self.defocus_disk_v = ddv;
    }
}

/// The orthonormal camera basis: w toward the viewer, u to the right,
/// v upward in the image plane.
fn derive_basis(look_from: Vec3, look_at: Vec3, vup: Vec3) -> (r: (Vec3, Vec3, Vec3))
    requires
        small_pos(look_from@),
        small_pos(look_at@),
        crate::vec3::unit_fits(vup@),
        norm2_s(sub_s(look_from@, look_at@)) >= 1,
        norm2_s(cross_s(vup@, unit_s(sub_s(look_from@, look_at@)))) >= 1,
    ensures
        r.0@ == unit_s(sub_s(look_from@, look_at@)),
        r.1@ == unit_s(cross_s(vup@, unit_s(sub_s(look_from@, look_at@)))),
        r.2@ == cross_s(r.0@, r.1@),
        crate::vec3::unit_fits(r.0@),
        crate::vec3::unit_fits(r.1@),
        -0x2_0000_0000 <= r.2.x <= 0x2_0000_0000,
        -0x2_0000_0000 <= r.2.y <= 0x2_0000_0000,
        -0x2_0000_0000 <= r.2.z <= 0x2_0000_0000,
{
    let lfla = look_from.sub(&look_at);
    let w = crate::vec3::unit_vector(&lfla);
    let cuw = crate::vec3::cross(&vup, &w);
    proof {
        lemma_cross_small(vup@, w@);
    }
    let u = crate::vec3::unit_vector(&cuw);
    let v = crate::vec3::cross(&w, &u);
    proof {
        lemma_cross_small(w@, u@);
    }
    (w, u, v)
}

/// The per-pixel viewport deltas and the location of pixel (0, 0).
#[verifier::rlimit(100)]
fn derive_grid(
    u: Vec3,
    v: Vec3,
    w: Vec3,
    center: Vec3,
    focus_dist: i64,
    vfov: i64,
    image_width: usize,
    image_height: usize,
) -> (r: (Vec3, Vec3, Vec3))
    requires
        crate::vec3::unit_fits(u@),
        crate::vec3::unit_fits(w@),
        -0x2_0000_0000 <= v.x <= 0x2_0000_0000,
        -0x2_0000_0000 <= v.y <= 0x2_0000_0000,
        -0x2_0000_0000 <= v.z <= 0x2_0000_0000,
        small_pos(center@),
        0 < focus_dist <= 0x20_0000_0000,
        0 < vfov <= 0x28_0000_0000,
        1 <= image_width <= 4096,
        1 <= image_height <= 0x8000,
    ensures
        (r.0@, r.1@, r.2@) == grid_s(
            u@,
            v@,
            w@,
            center@,
            focus_dist as int,
            vfov as int,
            image_width as int,
            image_height as int,
        ),
        -0x8000_0000_0000 <= r.0.x <= 0x8000_0000_0000,
        -0x8000_0000_0000 <= r.0.y <= 0x8000_0000_0000,
        -0x8000_0000_0000 <= r.0.z <= 0x8000_0000_0000,
        -0x800_0000_0000 <= r.1.x <= 0x800_0000_0000,
        -0x800_0000_0000 <= r.1.y <= 0x800_0000_0000,
        -0x800_0000_0000 <= r.1.z <= 0x800_0000_0000,
        -0x10_0000_0000_0000 <= r.2.x <= 0x10_0000_0000_0000,
        -0x10_0000_0000_0000 <= r.2.y <= 0x10_0000_0000_0000,
        -0x10_0000_0000_0000 <= r.2.z <= 0x10_0000_0000_0000,
{
    proof {
        reveal(grid_s);
    }
    let h = tan_half(vfov);
    proof {
        lemma_fxmul_mag(2 * h as int, focus_dist as int, 0x4_0000_0000int, 0x20_0000_0000int);
    }
    let vh0 = fxmul(2 * h, focus_dist);
    let viewport_height = if vh0 > VIEW_H_CAP {
        VIEW_H_CAP
    } else if vh0 < 0 {
        0
    } else {
        vh0
    };

    proof {
        lemma_tdiv_nonneg(image_width * (FX_ONE as int), image_height as int);
        lemma_tdiv_mag(
            image_width * (FX_ONE as int),
            image_height as int,
            0x1000_4000_0000_0000int,
        );
    }
    let wohw = tdiv_i128((image_width as i128) * (FX_ONE as i128), image_height as i128);
    let woh = if wohw > WOH_CAP as i128 {
        WOH_CAP
    } else {
        wohw as i64
    };
    proof {
        lemma_fxmul_mag(viewport_height as int, woh as int, 0x100_0000_0000int, 0x4_0000_0000int);
    }
    let viewport_width = fxmul(viewport_height, woh);

    proof {
        lemma_scale_small(u@, viewport_width as int, 0x1000_0000_0000int);
        lemma_scale_small(v@, -viewport_height as int, 0x100_0000_0000int);
    }
    let viewport_u = u.mul_scalar(viewport_width);
    let viewport_v = v.mul_scalar(-viewport_height);

    proof {
        crate::fx::lemma_tdiv_shrinks(viewport_u.x as int, image_width as int);
        crate::fx::lemma_tdiv_shrinks(viewport_u.y as int, image_width as int);
        crate::fx::lemma_tdiv_shrinks(viewport_u.z as int, image_width as int);
        crate::fx::lemma_tdiv_shrinks(viewport_v.x as int, image_height as int);
        crate::fx::lemma_tdiv_shrinks(viewport_v.y as int, image_height as int);
        crate::fx::lemma_tdiv_shrinks(viewport_v.z as int, image_height as int);
    }
    let pdu = viewport_u.div_count(image_width as i64);
    let pdv = viewport_v.div_count(image_height as i64);

    proof {
        lemma_scale_small(w@, focus_dist as int, 0x20_0000_0000int);
    }
    let wf = w.mul_scalar(focus_dist);
    proof {
        crate::fx::lemma_tdiv_shrinks(viewport_u.x as int, 2);
        crate::fx::lemma_tdiv_shrinks(viewport_u.y as int, 2);
        crate::fx::lemma_tdiv_shrinks(viewport_u.z as int, 2);
        crate::fx::lemma_tdiv_shrinks(viewport_v.x as int, 2);
        crate::fx::lemma_tdiv_shrinks(viewport_v.y as int, 2);
        crate::fx::lemma_tdiv_shrinks(viewport_v.z as int, 2);
    }
    let vu_half = viewport_u.div_count(2);
    let vv_half = viewport_v.div_count(2);
    let upper_left = center.sub(&wf).sub(&vu_half).sub(&vv_half);
    proof {
        lemma_fxmul_mag(
            pdu.x as int + pdv.x as int,
            HALF_ONE as int,
            0x1_0000_0000_0000int,
            HALF_ONE as int,
        );
        lemma_fxmul_mag(
            pdu.y as int + pdv.y as int,
            HALF_ONE as int,
            0x1_0000_0000_0000int,
            HALF_ONE as int,
        );
        lemma_fxmul_mag(
            pdu.z as int + pdv.z as int,
            HALF_ONE as int,
            0x1_0000_0000_0000int,
            HALF_ONE as int,
        );
    }
    let pd_sum = pdu.add(&pdv);
    let half_delta = pd_sum.mul_scalar(HALF_ONE);
    let pixel00 = upper_left.add(&half_delta);
    (pdu, pdv, pixel00)
}

/// The defocus disk basis: the camera's u and v scaled by the lens
/// radius.
fn derive_defocus(u: Vec3, v: Vec3, focus_dist: i64, defocus_angle: i64) -> (r: (Vec3, Vec3))
    requires
        crate::vec3::unit_fits(u@),
        -0x2_0000_0000 <= v.x <= 0x2_0000_0000,
        -0x2_0000_0000 <= v.y <= 0x2_0000_0000,
        -0x2_0000_0000 <= v.z <= 0x2_0000_0000,
        0 < focus_dist <= 0x20_0000_0000,
        0 <= defocus_angle <= 0x28_0000_0000,
    ensures
        (r.0@, r.1@) == defocus_disk_s(u@, v@, focus_dist as int, defocus_angle as int),
        -0x800_0000_0000 <= r.0.x <= 0x800_0000_0000,
        -0x800_0000_0000 <= r.0.y <= 0x800_0000_0000,
        -0x800_0000_0000 <= r.0.z <= 0x800_0000_0000,
        -0x800_0000_0000 <= r.1.x <= 0x800_0000_0000,
        -0x800_0000_0000 <= r.1.y <= 0x800_0000_0000,
        -0x800_0000_0000 <= r.1.z <= 0x800_0000_0000,
{
    proof {
        reveal(defocus_disk_s);
    }
    let dt = tan_half(defocus_angle);
    proof {
        lemma_fxmul_mag(focus_dist as int, dt as int, 0x20_0000_0000int, 0x2_0000_0000int);
    }
    let defocus_radius = fxmul(focus_dist, dt);
    proof {
        lemma_scale_small(u@, defocus_radius as int, 0x100_0000_0000int);
        lemma_scale_small(v@, defocus_radius as int, 0x100_0000_0000int);
    }
    (u.mul_scalar(defocus_radius), v.mul_scalar(defocus_radius))
}

/// The default configuration meets the bounds: the camera sits at the
/// origin, looks down the negative z axis, and its up vector is the
/// y axis.
proof fn lemma_config_wf_default(c: Camera)
    requires
        c.look_from@ == (V3 { x: 0, y: 0, z: 0 }),
        c.look_at@ == (V3 { x: 0, y: 0, z: -(FX_ONE as int) }),
        c.vup@ == (V3 { x: 0, y: FX_ONE as int, z: 0 }),
    ensures
        norm2_s(sub_s(c.look_from@, c.look_at@)) >= 1,
        norm2_s(cross_s(c.vup@, unit_s(sub_s(c.look_from@, c.look_at@)))) >= 1,
{
    let d = sub_s(c.look_from@, c.look_at@);
    assert(d.x == 0 && d.y == 0 && d.z == 0x4000_0000int);
    assert(0int * 0int == 0 && 0int * 0x4000_0000int == 0 && 0x4000_0000int * 0int == 0
        && 0x4000_0000int * 0x4000_0000int == 0x1000_0000_0000_0000int && (0x4000_0000int + 1) * (
    0x4000_0000int + 1) > 0x1000_0000_0000_0000int) by (nonlinear_arith);
    assert(norm2_s(d) == 0x1000_0000_0000_0000int);
    crate::fx::lemma_sqrt_unique(0x1000_0000_0000_0000int, 0x4000_0000int);
    vstd::arithmetic::div_mod::lemma_div_multiples_vanish(0x4000_0000int, 0x4000_0000int);
    vstd::arithmetic::div_mod::lemma_div_basics_1(0x4000_0000int);
    let w = unit_s(d);
    assert(w.x == 0 && w.y == 0 && w.z == 0x4000_0000int);
    let cr = cross_s(c.vup@, w);
    assert(cr.x == 0x4000_0000int && cr.y == 0 && cr.z == 0);
    assert(norm2_s(cr) == 0x1000_0000_0000_0000int);
}

/// A vector is the zero vector exactly when its squared raw length is
/// below one.
proof fn lemma_nonzero_norm2(v: V3)
    ensures
        (v.x == 0 && v.y == 0 && v.z == 0) <==> norm2_s(v) < 1,
{
    lemma_sq_nonneg(v.x);
    lemma_sq_nonneg(v.y);
    lemma_sq_nonneg(v.z);
    if v.x == 0 && v.y == 0 && v.z == 0 {
        assert(v.x * v.x == 0 && v.y * v.y == 0 && v.z * v.z == 0) by (nonlinear_arith)
            requires
                v.x == 0 && v.y == 0 && v.z == 0,
        ;
    } else {
        if v.x != 0 {
            assert(v.x * v.x >= 1) by (nonlinear_arith)
                requires
                    v.x != 0,
            ;
        } else if v.y != 0 {
            assert(v.y * v.y >= 1) by (nonlinear_arith)
                requires
                    v.y != 0,
            ;
        } else {
            assert(v.z * v.z >= 1) by (nonlinear_arith)
                requires
                    v.z != 0,
            ;
        }
    }
}

/// The derived height of a configuration within bounds stays at most
/// 32768: at most 4096 pixels of width over an aspect of at least 1/8.
proof fn lemma_height_small(width: int, aspect: int, h: int)
    requires
        1 <= width <= 4096,
        0x800_0000 <= aspect,
        h == tdiv(width * 0x4000_0000, aspect),
    ensures
        h <= 0x8000,
{
    vstd::arithmetic::div_mod::lemma_div_is_ordered_by_denominator(
        width * 0x4000_0000,
        0x800_0000,
        aspect,
    );
    vstd::arithmetic::div_mod::lemma_div_is_ordered(
        width * 0x4000_0000,
        4096int * 0x4000_0000int,
        0x800_0000int,
    );
}

/// Scaling a vector of small components (at most eight) by t stays
/// within eight times t's magnitude.
proof fn lemma_scale_small(u: V3, t: int, m: int)
    requires
        0 <= m,
        -m <= t <= m,
        -0x2_0000_0000 <= u.x <= 0x2_0000_0000,
        -0x2_0000_0000 <= u.y <= 0x2_0000_0000,
        -0x2_0000_0000 <= u.z <= 0x2_0000_0000,
    ensures
        -8 * m <= fxmul_s(u.x, t) <= 8 * m,
        -8 * m <= fxmul_s(u.y, t) <= 8 * m,
        -8 * m <= fxmul_s(u.z, t) <= 8 * m,
{
    lemma_fxmul_mag(u.x, t, 0x2_0000_0000int, m);
    lemma_fxmul_mag(u.y, t, 0x2_0000_0000int, m);
    lemma_fxmul_mag(u.z, t, 0x2_0000_0000int, m);
    vstd::arithmetic::div_mod::lemma_div_multiples_vanish(8 * m, 0x4000_0000int);
    assert(0x2_0000_0000int * m == 0x4000_0000int * (8 * m));
}

/// The cross product of two vectors of components at most two in value
/// stays within eight per component.
proof fn lemma_cross_small(a: V3, b: V3)
    requires
        -0x8000_0000 <= a.x <= 0x8000_0000,
        -0x8000_0000 <= a.y <= 0x8000_0000,
        -0x8000_0000 <= a.z <= 0x8000_0000,
        -0x8000_0000 <= b.x <= 0x8000_0000,
        -0x8000_0000 <= b.y <= 0x8000_0000,
        -0x8000_0000 <= b.z <= 0x8000_0000,
    ensures
        -0x2_0000_0000 <= cross_s(a, b).x <= 0x2_0000_0000,
        -0x2_0000_0000 <= cross_s(a, b).y <= 0x2_0000_0000,
        -0x2_0000_0000 <= cross_s(a, b).z <= 0x2_0000_0000,
        fits_v3(cross_s(a, b)),
{
    lemma_mul_mag(a.y, b.z, 0x8000_0000int, 0x8000_0000int);
    lemma_mul_mag(a.z, b.y, 0x8000_0000int, 0x8000_0000int);
    lemma_mul_mag(a.z, b.x, 0x8000_0000int, 0x8000_0000int);
    lemma_mul_mag(a.x, b.z, 0x8000_0000int, 0x8000_0000int);
    lemma_mul_mag(a.x, b.y, 0x8000_0000int, 0x8000_0000int);
    lemma_mul_mag(a.y, b.x, 0x8000_0000int, 0x8000_0000int);
    lemma_tdiv_mag(a.y * b.z - a.z * b.y, FX_ONE as int, 0x8000_0000_0000_0000int);
    lemma_tdiv_mag(a.z * b.x - a.x * b.z, FX_ONE as int, 0x8000_0000_0000_0000int);
    lemma_tdiv_mag(a.x * b.y - a.y * b.x, FX_ONE as int, 0x8000_0000_0000_0000int);
}

/// The sky gradient: white blended toward blue by half of (y + 1) of the
/// unit direction; a direction below the representable resolution gives
/// plain white.
pub open spec fn background_s(dir: V3) -> V3 {
    if norm2_s(dir) < 1 {
        V3 { x: FX_ONE as int, y: FX_ONE as int, z: FX_ONE as int }
    } else {
        let ud = unit_s(dir);
        let a = fxmul_s(HALF_ONE as int, ud.y + FX_ONE as int);
        add_s(
            scale_s(
                V3 { x: FX_ONE as int, y: FX_ONE as int, z: FX_ONE as int },
                FX_ONE as int - a,
            ),
            scale_s(V3 { x: HALF_ONE as int, y: SKY_G as int, z: FX_ONE as int }, a),
        )
    }
}

fn background(r: &Ray) -> (c: Vec3)
    requires
        dir_fits(r.direction@),
    ensures
        c@ == background_s(r.direction@),
        0 <= c.x <= FX_ONE,
        0 <= c.y <= FX_ONE,
        0 <= c.z <= FX_ONE,
{
    let len = r.direction.length();
    if len < 1 {
        proof {
            assert(len == 0);
            assert(norm2_s(r.direction@) < (0 + 1) * (0 + 1));
            assert(norm2_s(r.direction@) < 1);
        }
        Vec3 { x: FX_ONE, y: FX_ONE, z: FX_ONE }
    } else {
        proof {
            assert(1 <= len * len) by (nonlinear_arith)
                requires
                    len >= 1,
            ;
            assert(norm2_s(r.direction@) >= 1);
        }
        let ud = crate::vec3::unit_vector(&r.direction);
        proof {
            lemma_fxmul_mag(HALF_ONE as int, ud.y as int + FX_ONE as int, 0x2000_0000int, 0x8000_0000int);
            crate::vec3::lemma_mul_nonneg(HALF_ONE as int, ud.y as int + FX_ONE as int);
            lemma_tdiv_nonneg((HALF_ONE as int) * (ud.y as int + FX_ONE as int), FX_ONE as int);
        }
        let a = fxmul(HALF_ONE, ud.y + FX_ONE);
        proof {
            lemma_blend_channel(FX_ONE as int, a as int);
            lemma_blend_channel(HALF_ONE as int, a as int);
            lemma_blend_channel(SKY_G as int, a as int);
            vstd::arithmetic::div_mod::lemma_div_multiples_vanish(
                FX_ONE as int - a,
                0x4000_0000int,
            );
        }
        let white = Vec3 { x: FX_ONE, y: FX_ONE, z: FX_ONE };
        let blue = Vec3 { x: HALF_ONE, y: SKY_G, z: FX_ONE };
        let c1 = white.mul_scalar(FX_ONE - a);
        let c2 = blue.mul_scalar(a);
        c1.add(&c2)
    }
}

/// A color channel at most one, scaled by a blend weight in [0, 1],
/// stays within the weight.
proof fn lemma_blend_channel(ch: int, a: int)
    requires
        0 <= ch <= 0x4000_0000,
        0 <= a <= 0x4000_0000,
    ensures
        0 <= fxmul_s(ch, a) <= a,
        0 <= fxmul_s(0x4000_0000, 0x4000_0000int - a) == 0x4000_0000 - a,
{
    crate::vec3::lemma_mul_nonneg(ch, a);
    lemma_tdiv_nonneg(ch * a, FX_ONE as int);
    assert(ch * a <= 0x4000_0000int * a) by (nonlinear_arith)
        requires
            0 <= a && 0 <= ch <= 0x4000_0000int,
    ;
    crate::fx::lemma_tdiv_monotone(ch * a, 0x4000_0000int * a, FX_ONE as int);
    vstd::arithmetic::div_mod::lemma_div_multiples_vanish(a, 0x4000_0000int);
    vstd::arithmetic::div_mod::lemma_div_multiples_vanish(
        0x4000_0000int - a,
        0x4000_0000int,
    );
    lemma_tdiv_nonneg(0x4000_0000int * (0x4000_0000int - a), 0x4000_0000int);
    crate::vec3::lemma_mul_nonneg(0x4000_0000int, 0x4000_0000int - a);
}

/// Two row-major cells of a row of the given width coincide only when
/// their coordinates do.
proof fn lemma_row_major_distinct(w: int, i1: int, j1: int, i2: int, j2: int)
    by (nonlinear_arith)
    requires
        0 <= i1 < w,
        0 <= i2 < w,
        0 <= j1,
        0 <= j2,
        !(i1 == i2 && j1 == j2),
    ensures
        j1 * w + i1 != j2 * w + i2,
{
}

/// An admissible outcome of the color integrator on a ray with the
/// given bounce budget: black with the budget exhausted; the sky
/// gradient of the ray's direction when it escapes every sphere; on a
/// hit, the surface attenuation times an admissible outcome of a
/// scattered ray the material itself admits — black exactly when the
/// material absorbs the ray or its scattered direction leaves the
/// representable range.
pub open spec fn outcome_ok(objects: Seq<Sphere>, ry: RayV, depth: int, c: V3) -> bool
    decreases depth,
{
    if depth <= 0 {
        c == (V3 { x: 0, y: 0, z: 0 })
    } else if crate::hittable::all_miss_s(objects, ry, SHADOW_EPS as int, INFINITY as int) {
        c == background_s(ry.dir)
    } else {
        exists|rec: HitV, ok: bool, d: V3|
            #![trigger crate::material::scatter_ok(rec.mat, ry.dir, rec, ok, d)]
            {
                &&& crate::hittable::scene_hit_post(
                    objects,
                    ry,
                    SHADOW_EPS as int,
                    INFINITY as int,
                    Some(rec),
                )
                &&& crate::material::scatter_ok(rec.mat, ry.dir, rec, ok, d)
                &&& if !ok || !dir_fits(d) {
                    c == (V3 { x: 0, y: 0, z: 0 })
                } else {
                    exists|sub: V3|
                        #![trigger mul_s(crate::material::attenuation_s(rec.mat), sub)]
                        {
                            &&& outcome_ok(objects, RayV { orig: rec.p, dir: d }, depth - 1, sub)
                            &&& c == mul_s(crate::material::attenuation_s(rec.mat), sub)
                        }
                }
            }
    }
}

/// A hit implies the ray's direction was long enough to intersect
/// anything: its squared raw length is at least the scale.
proof fn lemma_hit_dir_nonzero(
    spheres: Seq<Sphere>,
    ry: RayV,
    tmin: int,
    tmax: int,
    rec: HitV,
)
    requires
        crate::hittable::scene_hit_post(spheres, ry, tmin, tmax, Some(rec)),
    ensures
        norm2_s(ry.dir) >= FX_ONE,
        spheres.len() > 0,
        !crate::hittable::all_miss_s(spheres, ry, tmin, tmax),
{
    reveal(crate::hittable::sphere_hit_s);
    let i = choose|i: int|
        0 <= i < spheres.len() && #[trigger] crate::hittable::sphere_hit_s(
            spheres[i],
            ry,
            tmin,
            tmax,
        ) == Some(rec);
    assert(dot_s(ry.dir, ry.dir) >= 1);
    lemma_sq_nonneg(ry.dir.x);
    lemma_sq_nonneg(ry.dir.y);
    lemma_sq_nonneg(ry.dir.z);
    if norm2_s(ry.dir) < FX_ONE {
        vstd::arithmetic::div_mod::lemma_basic_div(norm2_s(ry.dir), FX_ONE as int);
        assert(false);
    }
}

impl Camera {
    /// A random offset within the pixel footprint.
    fn sample_square(&self) -> (r: Vec3)
        ensures
            -HALF_ONE <= r.x < HALF_ONE,
            -HALF_ONE <= r.y < HALF_ONE,
            r.z == 0,
    {
        Vec3 {
            x: crate::rng::random_raw(-HALF_ONE, HALF_ONE),
            y: crate::rng::random_raw(-HALF_ONE, HALF_ONE),
            z: 0,
        }
    }

    /// A random point on the defocus lens disk.
    #[verifier::rlimit(60)]
    fn defocus_disk_sample(&self) -> (r: Vec3)
        requires
            self.derived_ok(),
        ensures
            pos_fits(r@),
            exists|px: int, py: int| disk_point(px, py) && r@ == #[trigger] self.disk_origin_s(
                px,
                py,
            ),
    {
        let p = crate::vec3::random_in_unit_disk();
        proof {
            lemma_fxmul_mag(self.defocus_disk_u.x as int, p.x as int, 0x800_0000_0000int, 0x4000_0000int);
            lemma_fxmul_mag(self.defocus_disk_u.y as int, p.x as int, 0x800_0000_0000int, 0x4000_0000int);
            lemma_fxmul_mag(self.defocus_disk_u.z as int, p.x as int, 0x800_0000_0000int, 0x4000_0000int);
            lemma_fxmul_mag(self.defocus_disk_v.x as int, p.y as int, 0x800_0000_0000int, 0x4000_0000int);
            lemma_fxmul_mag(self.defocus_disk_v.y as int, p.y as int, 0x800_0000_0000int, 0x4000_0000int);
            lemma_fxmul_mag(self.defocus_disk_v.z as int, p.y as int, 0x800_0000_0000int, 0x4000_0000int);
        }
        let a = self.defocus_disk_u.mul_scalar(p.x);
        let b = self.defocus_disk_v.mul_scalar(p.y);
        let q = self.center.add(&a).add(&b);
        let r = if q.x < -POS_MAX || q.x > POS_MAX || q.y < -POS_MAX || q.y > POS_MAX || q.z
            < -POS_MAX || q.z > POS_MAX {
            self.center
        } else {
            q
        };
        proof {
            assert(disk_point(p@.x, p@.y) && r@ == self.disk_origin_s(p@.x, p@.y));
        }
        r
    }

    /// A randomly jittered camera ray through pixel (i, j): the pixel
    /// center offset within its footprint, shot from the camera center
    /// or, with a positive defocus angle, from the lens disk. A
    /// direction beyond the representable cap falls back to straight
    /// ahead.
    #[verifier::rlimit(100)]
    fn get_ray(&self, i: usize, j: usize) -> (r: Ray)
        requires
            self.derived_ok(),
            i < self.image_width,
            j < self.image_height,
        ensures
            ray_wf(r@),
            self.defocus_angle <= 0 ==> r.origin == self.center,
            exists|ox: int, oy: int, px: int, py: int|
                #![trigger jitter_point(ox, oy), disk_point(px, py)]
                {
                    &&& jitter_point(ox, oy)
                    &&& disk_point(px, py)
                    &&& r.origin@ == (if self.defocus_angle <= 0 {
                        self.center@
                    } else {
                        self.disk_origin_s(px, py)
                    })
                    &&& r.direction@ == self.ray_dir_s(i as int, j as int, ox, oy, r.origin@)
                },
    {
        let offset = self.sample_square();
        let ifx = (i as i64) * FX_ONE + offset.x;
        let jfx = (j as i64) * FX_ONE + offset.y;
        proof {
            lemma_fxmul_mag(self.pixel_delta_u.x as int, ifx as int, 0x8000_0000_0000int, 0x800_0000_0000int);
            lemma_fxmul_mag(self.pixel_delta_u.y as int, ifx as int, 0x8000_0000_0000int, 0x800_0000_0000int);
            lemma_fxmul_mag(self.pixel_delta_u.z as int, ifx as int, 0x8000_0000_0000int, 0x800_0000_0000int);
            lemma_fxmul_mag(self.pixel_delta_v.x as int, jfx as int, 0x800_0000_0000int, 0x8000_4000_0000int);
            lemma_fxmul_mag(self.pixel_delta_v.y as int, jfx as int, 0x800_0000_0000int, 0x8000_4000_0000int);
            lemma_fxmul_mag(self.pixel_delta_v.z as int, jfx as int, 0x800_0000_0000int, 0x8000_4000_0000int);
        }
        let px = self.pixel_delta_u.mul_scalar(ifx);
        let py = self.pixel_delta_v.mul_scalar(jfx);
        let sample = self.pixel00_loc.add(&px).add(&py);
        let origin = if self.defocus_angle <= 0 {
            self.center
        } else {
            self.defocus_disk_sample()
        };
        let dir = sample.sub(&origin);
        let dir = if dir.x < -DIR_MAX || dir.x > DIR_MAX || dir.y < -DIR_MAX || dir.y > DIR_MAX
            || dir.z < -DIR_MAX || dir.z > DIR_MAX {
            Vec3 { x: 0, y: 0, z: -FX_ONE }
        } else {
            dir
        };
        let r = Ray { origin, direction: dir };
        proof {
            assert(jitter_point(offset.x as int, offset.y as int));
            if self.defocus_angle <= 0 {
                assert(disk_point(0, 0)) by {
                    assert(0int * 0int == 0) by (nonlinear_arith);
                    vstd::arithmetic::div_mod::lemma_div_basics_1(FX_ONE as int);
                }
                assert(r.direction@ == self.ray_dir_s(
                    i as int,
                    j as int,
                    offset.x as int,
                    offset.y as int,
                    r.origin@,
                ));
            } else {
                let (px, py) = choose|px: int, py: int|
                    disk_point(px, py) && origin@ == #[trigger] self.disk_origin_s(px, py);
                assert(r.direction@ == self.ray_dir_s(
                    i as int,
                    j as int,
                    offset.x as int,
                    offset.y as int,
                    r.origin@,
                ));
            }
        }
        r
    }

    /// The sample direction through pixel (i, j): the pixel center
    /// offset by the jitter (ox, oy), minus the given ray origin; a
    /// direction beyond the representable cap falls back to straight
    /// ahead.
    pub open spec fn ray_dir_s(self, i: int, j: int, ox: int, oy: int, origin: V3) -> V3 {
        let sample = add_s(
            add_s(
                self.pixel00_loc@,
                scale_s(self.pixel_delta_u@, i * (FX_ONE as int) + ox),
            ),
            scale_s(self.pixel_delta_v@, j * (FX_ONE as int) + oy),
        );
        let dir = sub_s(sample, origin);
        if !dir_fits(dir) {
            V3 { x: 0, y: 0, z: -(FX_ONE as int) }
        } else {
            dir
        }
    }

    /// The lens point the disk draw (px, py) selects: the center offset
    /// along the defocus basis, falling back to the center itself where
    /// the offset would leave the scene box.
    pub open spec fn disk_origin_s(self, px: int, py: int) -> V3 {
        let q = add_s(
            add_s(self.center@, scale_s(self.defocus_disk_u@, px)),
            scale_s(self.defocus_disk_v@, py),
        );
        if !pos_fits(q) {
            self.center@
        } else {
            q
        }
    }

    /// One admissible per-pixel sample: an admissible outcome of the
    /// integrator, at the configured bounce budget, on some jittered
    /// ray of pixel (i, j) — a color in [0, 1]^3, tied through
    /// outcome_ok to that ray's hits and scattered paths, and in
    /// particular equal to the sky gradient of the ray's direction
    /// whenever the ray misses every sphere of the scene.
    #[verifier::opaque]
    pub open spec fn sample_ok(self, objects: Seq<Sphere>, i: int, j: int, v: V3) -> bool {
        exists|ox: int, oy: int, px: int, py: int|
            #![trigger jitter_point(ox, oy), disk_point(px, py)]
            {
                &&& jitter_point(ox, oy)
                &&& disk_point(px, py)
                &&& {
                    let org = if self.defocus_angle <= 0 {
                        self.center@
                    } else {
                        self.disk_origin_s(px, py)
                    };
                    let dir = self.ray_dir_s(i, j, ox, oy, org);
                    &&& 0 <= v.x <= FX_ONE as int
                    &&& 0 <= v.y <= FX_ONE as int
                    &&& 0 <= v.z <= FX_ONE as int
                    &&& outcome_ok(
                        objects,
                        RayV { orig: org, dir: dir },
                        self.max_depth as int,
                        v,
                    )
                }
            }
    }

    /// An admissible rendered pixel: the per-sample scale times the sum
    /// of samples_per_pixel admissible samples of pixel (i, j).
    #[verifier::opaque]
    pub open spec fn pixel_ok(self, objects: Seq<Sphere>, i: int, j: int, pv: V3) -> bool {
        exists|samples: Seq<V3>|
            #![trigger color_sum_s(samples)]
            {
                &&& samples.len() == self.samples_per_pixel
                &&& (forall|k: int|
                    0 <= k < samples.len() ==> self.sample_ok(
                        objects,
                        i,
                        j,
                        #[trigger] samples[k],
                    ))
                &&& pv == scale_s(color_sum_s(samples), self.pixel_samples_scale as int)
            }
    }

    /// The deterministic, un-jittered ray through the center of pixel
    /// (i, j), shot from the camera center.
    pub open spec fn primary_ray_s(self, i: int, j: int) -> RayV {
        RayV { orig: self.center@, dir: self.ray_dir_s(i, j, 0, 0, self.center@) }
    }

    #[verifier::rlimit(100)]
    pub fn primary_ray(&self, i: usize, j: usize) -> (r: Ray)
        requires
            self.derived_ok(),
            i < self.image_width,
            j < self.image_height,
        ensures
            r@ == self.primary_ray_s(i as int, j as int),
            ray_wf(r@),
            r.origin == self.center,
    {
        let ifx = (i as i64) * FX_ONE;
        let jfx = (j as i64) * FX_ONE;
        proof {
            lemma_fxmul_mag(self.pixel_delta_u.x as int, ifx as int, 0x8000_0000_0000int, 0x800_0000_0000int);
            lemma_fxmul_mag(self.pixel_delta_u.y as int, ifx as int, 0x8000_0000_0000int, 0x800_0000_0000int);
            lemma_fxmul_mag(self.pixel_delta_u.z as int, ifx as int, 0x8000_0000_0000int, 0x800_0000_0000int);
            lemma_fxmul_mag(self.pixel_delta_v.x as int, jfx as int, 0x800_0000_0000int, 0x8000_4000_0000int);
            lemma_fxmul_mag(self.pixel_delta_v.y as int, jfx as int, 0x800_0000_0000int, 0x8000_4000_0000int);
            lemma_fxmul_mag(self.pixel_delta_v.z as int, jfx as int, 0x800_0000_0000int, 0x8000_4000_0000int);
        }
        let px = self.pixel_delta_u.mul_scalar(ifx);
        let py = self.pixel_delta_v.mul_scalar(jfx);
        let sample = self.pixel00_loc.add(&px).add(&py);
        let dir = sample.sub(&self.center);
        let dir = if dir.x < -DIR_MAX || dir.x > DIR_MAX || dir.y < -DIR_MAX || dir.y > DIR_MAX
            || dir.z < -DIR_MAX || dir.z > DIR_MAX {
            Vec3 { x: 0, y: 0, z: -FX_ONE }
        } else {
            dir
        };
        Ray { origin: self.center, direction: dir }
    }

    /// The depth-bounded recursive integrator. With the bounce budget
    /// exhausted it yields black; on a hit it delegates to the surface's
    /// material and attenuates the scattered ray's color; a ray that
    /// escapes the scene yields the sky gradient. Every channel stays a
    /// color in [0, 1], and the result is always an admissible outcome
    /// of this ray: on a hit it is tied, through the material's own
    /// scatter relation, to the recursive value of a scattered ray the
    /// material admits.
    #[verifier::rlimit(100)]
    pub fn ray_color(&self, r: &Ray, depth: usize, world: &HittableList) -> (c: Vec3)
        requires
            world.wf(),
            ray_wf(r@),
        ensures
            0 <= c.x <= FX_ONE,
            0 <= c.y <= FX_ONE,
            0 <= c.z <= FX_ONE,
            outcome_ok(world.objects@, r@, depth as int, c@),
            depth == 0 ==> c@ == (V3 { x: 0, y: 0, z: 0 }),
            depth >= 1 && crate::hittable::all_miss_s(
                world.objects@,
                r@,
                SHADOW_EPS as int,
                INFINITY as int,
            ) ==> c@ == background_s(r.direction@),
        decreases depth,
    {
        if depth == 0 {
            return Vec3 { x: 0, y: 0, z: 0 };
        }
        let hit = world.hit(r, Interval::new(SHADOW_EPS, INFINITY));
        match hit {
            Some(rec) => {
                proof {
                    lemma_hit_dir_nonzero(
                        world.objects@,
                        r@,
                        SHADOW_EPS as int,
                        INFINITY as int,
                        rec@,
                    );
                }
                let (ok, att, scattered) = rec.mat.scatter(r, &rec);
                if !ok {
                    proof {
                        assert(crate::material::scatter_ok(
                            rec@.mat,
                            r@.dir,
                            rec@,
                            ok,
                            scattered.direction@,
                        ));
                        assert(crate::hittable::scene_hit_post(
                            world.objects@,
                            r@,
                            SHADOW_EPS as int,
                            INFINITY as int,
                            Some(rec@),
                        ));
                        assert(outcome_ok(
                            world.objects@,
                            r@,
                            depth as int,
                            V3 { x: 0, y: 0, z: 0 },
                        ));
                    }
                    return Vec3 { x: 0, y: 0, z: 0 };
                }
                let d = scattered.direction;
                if d.x < -DIR_MAX || d.x > DIR_MAX || d.y < -DIR_MAX || d.y > DIR_MAX || d.z
                    < -DIR_MAX || d.z > DIR_MAX {
                    proof {
                        assert(crate::material::scatter_ok(
                            rec@.mat,
                            r@.dir,
                            rec@,
                            ok,
                            scattered.direction@,
                        ));
                        assert(!dir_fits(scattered.direction@));
                        assert(crate::hittable::scene_hit_post(
                            world.objects@,
                            r@,
                            SHADOW_EPS as int,
                            INFINITY as int,
                            Some(rec@),
                        ));
                        assert(outcome_ok(
                            world.objects@,
                            r@,
                            depth as int,
                            V3 { x: 0, y: 0, z: 0 },
                        ));
                    }
                    return Vec3 { x: 0, y: 0, z: 0 };
                }
                let rc = self.ray_color(&scattered, depth - 1, world);
                proof {
                    assert(color_fits(att@) && att@ == crate::material::attenuation_s(rec.mat))
                        by {
                        match rec.mat {
                            Material::Lambertian(l) => {},
                            Material::Metal(m) => {},
                            Material::Dielectric(dd) => {},
                        }
                    }
                    lemma_blend_channel(att.x as int, rc.x as int);
                    lemma_blend_channel(att.y as int, rc.y as int);
                    lemma_blend_channel(att.z as int, rc.z as int);
                    assert(crate::material::scatter_ok(
                        rec@.mat,
                        r@.dir,
                        rec@,
                        ok,
                        scattered.direction@,
                    ));
                    assert(scattered@ == (RayV { orig: rec@.p, dir: scattered.direction@ }));
                    assert(outcome_ok(
                        world.objects@,
                        scattered@,
                        depth as int - 1,
                        rc@,
                    ));
                    let wit = mul_s(crate::material::attenuation_s(rec@.mat), rc@);
                    assert(outcome_ok(world.objects@, r@, depth as int, wit));
                }
                att.mul(&rc)
            },
            None => background(r),
        }
    }

    /// Renders one scanline into a fresh row buffer: for each pixel,
    /// the average of samples_per_pixel jittered samples. Rows are
    /// independent, so a caller may compute them in any order or in
    /// parallel and assemble the image afterwards.
    #[verifier::rlimit(100)]
    pub fn render_row(&self, world: &HittableList, j: usize) -> (row: Vec<Vec3>)
        requires
            self.derived_ok(),
            world.wf(),
            j < self.image_height,
        ensures
            row@.len() == self.image_width,
            forall|k: int|
                0 <= k < row@.len() ==> 0 <= (#[trigger] row@[k]).x <= FX_ONE && 0 <= row@[k].y
                    <= FX_ONE && 0 <= row@[k].z <= FX_ONE,
            forall|k: int|
                0 <= k < row@.len() ==> self.pixel_ok(
                    world.objects@,
                    k,
                    j as int,
                    (#[trigger] row@[k])@,
                ),
    {
        let mut row: Vec<Vec3> = Vec::new();
        let mut i: usize = 0;
        while i < self.image_width
            invariant
                self.derived_ok(),
                world.wf(),
                j < self.image_height,
                0 <= i <= self.image_width,
                row@.len() == i,
                forall|k: int|
                    0 <= k < row@.len() ==> 0 <= (#[trigger] row@[k]).x <= FX_ONE && 0 <= row@[k].y
                        <= FX_ONE && 0 <= row@[k].z <= FX_ONE,
                forall|k: int|
                    0 <= k < row@.len() ==> self.pixel_ok(
                        world.objects@,
                        k,
                        j as int,
                        (#[trigger] row@[k])@,
                    ),
            decreases self.image_width - i,
        {
            let mut pixel_color = Vec3 { x: 0, y: 0, z: 0 };
            let mut s: usize = 0;
            let ghost mut samples: Seq<V3> = Seq::empty();
            while s < self.samples_per_pixel
                invariant
                    self.derived_ok(),
                    world.wf(),
                    j < self.image_height,
                    i < self.image_width,
                    0 <= s <= self.samples_per_pixel,
                    0 <= pixel_color.x <= s * (FX_ONE as int),
                    0 <= pixel_color.y <= s * (FX_ONE as int),
                    0 <= pixel_color.z <= s * (FX_ONE as int),
                    samples.len() == s,
                    pixel_color@ == color_sum_s(samples),
                    forall|k: int|
                        0 <= k < samples.len() ==> self.sample_ok(
                            world.objects@,
                            i as int,
                            j as int,
                            #[trigger] samples[k],
                        ),
                decreases self.samples_per_pixel - s,
            {
                let ray = self.get_ray(i, j);
                let sample = self.ray_color(&ray, self.max_depth, world);
                proof {
                    assert((s + 1) * (FX_ONE as int) == s * (FX_ONE as int) + FX_ONE)
                        by (nonlinear_arith);
                    let (ox, oy, px, py) = choose|ox: int, oy: int, px: int, py: int|
                        #![trigger jitter_point(ox, oy), disk_point(px, py)]
                        {
                            &&& jitter_point(ox, oy)
                            &&& disk_point(px, py)
                            &&& ray.origin@ == (if self.defocus_angle <= 0 {
                                self.center@
                            } else {
                                self.disk_origin_s(px, py)
                            })
                            &&& ray.direction@ == self.ray_dir_s(
                                i as int,
                                j as int,
                                ox,
                                oy,
                                ray.origin@,
                            )
                        };
                    reveal(Camera::sample_ok);
                    assert(self.sample_ok(world.objects@, i as int, j as int, sample@));
                }
                pixel_color = pixel_color.add(&sample);
                proof {
                    let prev = samples;
                    samples = samples.push(sample@);
                    assert(samples.drop_last() =~= prev);
                    assert(color_sum_s(samples) == add_s(color_sum_s(prev), sample@));
                }
                s = s + 1;
            }
            proof {
                lemma_average_in_range(
                    pixel_color@,
                    self.samples_per_pixel as int,
                    self.pixel_samples_scale as int,
                );
            }
            let pixel = pixel_color.mul_scalar(self.pixel_samples_scale);
            proof {
                reveal(Camera::pixel_ok);
                let wit = color_sum_s(samples);
                assert(self.pixel_ok(world.objects@, i as int, j as int, pixel@));
            }
            row.push(pixel);
            i = i + 1;
        }
        row
    }

    /// Renders the whole image, sequentially, one scanline at a time:
    /// every pixel is the scaled sum of that pixel's admissible samples.
    pub fn render(&mut self, world: &HittableList) -> (img: Image)
        requires
            old(self).config_wf(),
            world.wf(),
        ensures
            final(self).derived_ok(),
            img.wf(),
            img.width == final(self).image_width,
            img.height == final(self).image_height,
            forall|ii: int, jj: int|
                0 <= ii < img.width && 0 <= jj < img.height ==> final(self).pixel_ok(
                    world.objects@,
                    ii,
                    jj,
                    (#[trigger] img.pixels@[jj * (img.width as int) + ii])@,
                ),
    {
        self.initialize();
        proof {
            assert(self.image_width * self.image_height <= 0x1000_0000) by (nonlinear_arith)
                requires
                    1 <= self.image_width <= 4096 && 1 <= self.image_height <= 0x8000,
            ;
        }
        let mut img = Image::new(self.image_width, self.image_height);
        let mut j: usize = 0;
        while j < self.image_height
            invariant
                self.derived_ok(),
                world.wf(),
                img.wf(),
                img.width == self.image_width,
                img.height == self.image_height,
                0 <= j <= self.image_height,
                forall|ii: int, jj: int|
                    0 <= ii < img.width && 0 <= jj < j ==> self.pixel_ok(
                        world.objects@,
                        ii,
                        jj,
                        (#[trigger] img.pixels@[jj * (img.width as int) + ii])@,
                    ),
            decreases self.image_height - j,
        {
            let row = self.render_row(world, j);
            let mut i: usize = 0;
            while i < self.image_width
                invariant
                    self.derived_ok(),
                    world.wf(),
                    img.wf(),
                    img.width == self.image_width,
                    img.height == self.image_height,
                    j < self.image_height,
                    row@.len() == self.image_width,
                    0 <= i <= self.image_width,
                    forall|ii: int, jj: int|
                        0 <= ii < img.width && 0 <= jj < j ==> self.pixel_ok(
                            world.objects@,
                            ii,
                            jj,
                            (#[trigger] img.pixels@[jj * (img.width as int) + ii])@,
                        ),
                    forall|k: int|
                        0 <= k < row@.len() ==> self.pixel_ok(
                            world.objects@,
                            k,
                            j as int,
                            (#[trigger] row@[k])@,
                        ),
                    forall|ii: int|
                        0 <= ii < i ==> self.pixel_ok(
                            world.objects@,
                            ii,
                            j as int,
                            (#[trigger] img.pixels@[(j as int) * (img.width as int) + ii])@,
                        ),
                decreases self.image_width - i,
            {
                let ghost prev = img.pixels@;
                let ghost w = img.width as int;
                let ghost idx = (j as int) * w + (i as int);
                img.set_pixel(i, j, row[i]);
                proof {
                    assert(img.pixels@ == prev.update(idx, row@[i as int]));
                    assert(0 <= idx && idx < w * (img.height as int)) by (nonlinear_arith)
                        requires
                            idx == (j as int) * w + (i as int) && 0 <= i < w && 0 <= j
                                < img.height,
                    ;
                    assert forall|ii: int, jj: int|
                        0 <= ii < img.width && 0 <= jj < j implies self.pixel_ok(
                        world.objects@,
                        ii,
                        jj,
                        (#[trigger] img.pixels@[jj * (img.width as int) + ii])@,
                    ) by {
                        lemma_row_major_distinct(w, ii, jj, i as int, j as int);
                        assert(0 <= jj * w + ii && jj * w + ii < w * (img.height as int))
                            by (nonlinear_arith)
                            requires
                                0 <= ii < w && 0 <= jj < img.height,
                        ;
                        assert(prev.update(idx, row@[i as int])[jj * w + ii] == prev[jj * w
                            + ii]);
                    }
                    assert forall|ii: int| 0 <= ii < i + 1 implies self.pixel_ok(
                        world.objects@,
                        ii,
                        j as int,
                        (#[trigger] img.pixels@[(j as int) * (img.width as int) + ii])@,
                    ) by {
                        assert(0 <= (j as int) * w + ii && (j as int) * w + ii < w * (
                        img.height as int)) by (nonlinear_arith)
                            requires
                                0 <= ii < w && 0 <= j < img.height,
                        ;
                        if ii < i {
                            lemma_row_major_distinct(w, ii, j as int, i as int, j as int);
                            assert(prev.update(idx, row@[i as int])[(j as int) * w + ii]
                                == prev[(j as int) * w + ii]);
                        } else {
                            assert(prev.update(idx, row@[i as int])[(j as int) * w + ii]
                                == row@[i as int]);
                        }
                    }
                }
                i = i + 1;
            }
            j = j + 1;
        }
        img
    }
}

/// The average of at most spp full-intensity samples, scaled by the
/// reciprocal of spp, is again a color channel in [0, 1].
proof fn lemma_average_in_range(acc: V3, spp: int, scale: int)
    requires
        1 <= spp,
        scale == tdiv(FX_ONE as int, spp),
        0 <= acc.x <= spp * (FX_ONE as int),
        0 <= acc.y <= spp * (FX_ONE as int),
        0 <= acc.z <= spp * (FX_ONE as int),
    ensures
        0 <= fxmul_s(acc.x, scale) <= FX_ONE,
        0 <= fxmul_s(acc.y, scale) <= FX_ONE,
        0 <= fxmul_s(acc.z, scale) <= FX_ONE,
{
    vstd::arithmetic::div_mod::lemma_fundamental_div_mod(0x4000_0000int, spp);
    vstd::arithmetic::div_mod::lemma_mod_bound(0x4000_0000int, spp);
    vstd::arithmetic::div_mod::lemma_div_pos_is_pos(0x4000_0000int, spp);
    assert(spp * scale <= 0x4000_0000int);
    lemma_average_channel(acc.x, spp, scale);
    lemma_average_channel(acc.y, spp, scale);
    lemma_average_channel(acc.z, spp, scale);
}

proof fn lemma_average_channel(a: int, spp: int, scale: int)
    requires
        1 <= spp,
        0 <= scale,
        spp * scale <= 0x4000_0000,
        0 <= a <= spp * 0x4000_0000,
    ensures
        0 <= fxmul_s(a, scale) <= 0x4000_0000,
{
    assert(0 <= a * scale <= 0x4000_0000int * 0x4000_0000int) by (nonlinear_arith)
        requires
            1 <= spp && 0 <= scale && spp * scale <= 0x4000_0000int && 0 <= a && a <= spp
                * 0x4000_0000int,
    ;
    lemma_tdiv_nonneg(a * scale, FX_ONE as int);
    crate::vec3::lemma_tdiv_mag(a * scale, FX_ONE as int, 0x4000_0000int * 0x4000_0000int);
    vstd::arithmetic::div_mod::lemma_div_multiples_vanish(0x4000_0000int, 0x4000_0000int);
    assert(0x4000_0000int * 0x4000_0000int == 0x4000_0000int * 0x4000_0000int);
}

} // verus!
