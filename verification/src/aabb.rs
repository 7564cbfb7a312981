//! An axis-aligned bounding box, kept as a plain pair of corner points.

use vstd::prelude::*;
use crate::vec3::Vec3;

verus! {

#[allow(non_camel_case_types)]
pub struct aabb {
    pub minimum: Vec3,
    pub maximum: Vec3,
}

impl aabb {
    pub fn new(a: Vec3, b: Vec3) -> (r: aabb)
        ensures
            r.minimum == a,
            r.maximum == b,
    {
        aabb { minimum: a, maximum: b }
    }

    pub fn min(&self) -> (r: Vec3)
        ensures
            r == self.minimum,
    {
        self.minimum
    }

    pub fn max(&self) -> (r: Vec3)
        ensures
            r == self.maximum,
    {
        self.maximum
    }
}

} // verus!
