//! A ray: origin plus direction, with parametric point evaluation.

use vstd::prelude::*;

use crate::fx::fxmul_s;
use crate::vec3::{add_s, fits64, scale_s, Vec3, V3};

verus! {

/// The mathematical value of a ray.
pub ghost struct RayV {
    pub orig: V3,
    pub dir: V3,
}

#[derive(Clone, Copy, Debug, PartialEq, Eq, Structural)]
pub struct Ray {
    pub origin: Vec3,
    pub direction: Vec3,
}

impl View for Ray {
    type V = RayV;

    open spec fn view(&self) -> RayV {
        RayV { orig: self.origin@, dir: self.direction@ }
    }
}

/// The point origin + t * direction.
pub open spec fn at_s(r: RayV, t: int) -> V3 {
    add_s(r.orig, scale_s(r.dir, t))
}

impl Ray {
    pub fn new(origin: Vec3, direction: Vec3) -> (r: Ray)
        ensures
            r.origin == origin,
            r.direction == direction,
    {
        Ray { origin, direction }
    }

    pub fn origin(&self) -> (r: Vec3)
        ensures
            r == self.origin,
    {
        self.origin
    }

    pub fn direction(&self) -> (r: Vec3)
        ensures
            r == self.direction,
    {
        self.direction
    }

    pub fn at(&self, t: i64) -> (r: Vec3)
        requires
            fits64(fxmul_s(self.direction.x as int, t as int)),
            fits64(fxmul_s(self.direction.y as int, t as int)),
            fits64(fxmul_s(self.direction.z as int, t as int)),
            fits64(self.origin.x + fxmul_s(self.direction.x as int, t as int)),
            fits64(self.origin.y + fxmul_s(self.direction.y as int, t as int)),
            fits64(self.origin.z + fxmul_s(self.direction.z as int, t as int)),
        ensures
            r@ == at_s(self@, t as int),
    {
        let d = self.direction.mul_scalar(t);
        self.origin.add(&d)
    }
}

} // verus!
