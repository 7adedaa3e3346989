//! Opaque linear-algebra values that travel through the managers untouched.

use vstd::prelude::*;

verus! {

/// `glam::Mat4`, a 4x4 matrix of single-precision numbers. Nothing in this
/// crate looks inside one; it is stored and handed back as it came.
#[verifier::external_type_specification]
#[verifier::external_body]
pub struct ExMat4(glam::Mat4);

/// `glam::Vec3`, three single-precision numbers.
#[verifier::external_type_specification]
#[verifier::external_body]
pub struct ExVec3(glam::Vec3);

/// `glam::Vec4`, four single-precision numbers.
#[verifier::external_type_specification]
#[verifier::external_body]
pub struct ExVec4(glam::Vec4);

/// A world-space bounding sphere, packed the way the culling shader reads it:
/// centre in the first three lanes, radius in the fourth.
#[derive(Clone, Copy, Debug, PartialEq)]
pub struct BoundingSphere {
    pub packed: glam::Vec4,
}

/// A half-open range `start..end` of elements in a shared buffer.
#[derive(Clone, Copy, Debug, PartialEq, Eq, Structural)]
pub struct IndexRange {
    pub start: usize,
    pub end: usize,
}

impl IndexRange {
    /// The number of elements in the range.
    pub open spec fn spec_len(self) -> int {
        self.end - self.start
    }

    /// `start` does not lie behind `end`.
    pub open spec fn wf(self) -> bool {
        self.start <= self.end
    }

    /// The two ranges share no element.
    pub open spec fn disjoint(self, other: IndexRange) -> bool {
        self.end <= other.start || other.end <= self.start || self.start == self.end
            || other.start == other.end
    }

    /// The number of elements in the range.
    pub fn len(&self) -> (len: usize)
        requires
            self.wf(),
        ensures
            len == self.spec_len(),
    {
        self.end - self.start
    }
}

} // verus!
