//! Object-space transforms over fixed-point scalars: a translation vector
//! and a per-axis scale. What needs trigonometry or real division lives with
//! the rendering shell, outside this library.

use vstd::prelude::*;

verus! {

/// One unit of the fixed-point scale representation.
pub const SCALE_ONE: i64 = 65536;

/// A homogeneous translation vector with fixed-point components.
#[derive(Debug, Clone, Copy, PartialEq, Eq)]
pub struct Translation {
    pub x: i64,
    pub y: i64,
    pub z: i64,
    pub w: i64,
}

impl Translation {
    /// The translation that moves nothing.
    pub fn zero() -> (r: Self)
        ensures
            r.x == 0 && r.y == 0 && r.z == 0 && r.w == 0,
    {
        Translation { x: 0, y: 0, z: 0, w: 0 }
    }

    /// The translation that undoes this one: every component negated.
    pub fn inverse(&self) -> (r: Self)
        requires
            self.x > i64::MIN,
            self.y > i64::MIN,
            self.z > i64::MIN,
            self.w > i64::MIN,
        ensures
            r.x == -self.x && r.y == -self.y && r.z == -self.z && r.w == -self.w,
    {
        Translation { x: -self.x, y: -self.y, z: -self.z, w: -self.w }
    }
}

/// A scale could not be read as one scalar: its axes differ.
#[derive(Debug, Clone, Copy, PartialEq, Eq)]
pub enum F32TryFromScaleError {
    NotAndUnidirectionalVector,
}

/// A per-axis scale with fixed-point components, where `SCALE_ONE` scales
/// by one.
#[derive(Debug, Clone, Copy, PartialEq, Eq)]
pub struct Scale {
    pub x: i64,
    pub y: i64,
    pub z: i64,
}

impl Scale {
    /// The scale that changes nothing: one on every axis.
    pub fn zero() -> (r: Self)
        ensures
            r.x == SCALE_ONE && r.y == SCALE_ONE && r.z == SCALE_ONE,
    {
        Scale { x: SCALE_ONE, y: SCALE_ONE, z: SCALE_ONE }
    }

    /// The single scalar a uniform scale applies, rejected exactly when the
    /// axes differ.
    pub fn try_uniform(&self) -> (r: Result<i64, F32TryFromScaleError>)
        ensures
            match r {
                Ok(v) => self.x == self.y && self.y == self.z && v == self.x,
                Err(e) => !(self.x == self.y && self.y == self.z) && e
                    == F32TryFromScaleError::NotAndUnidirectionalVector,
            },
    {
        if self.x == self.y && self.y == self.z {
            Ok(self.x)
        } else {
            Err(F32TryFromScaleError::NotAndUnidirectionalVector)
        }
    }
}

} // verus!
