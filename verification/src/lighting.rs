//! The branches of the reflection model: which of its three terms a surface
//! point receives.

use vstd::prelude::*;
use crate::scalar::Scalar;

verus! {

/// The terms of the reflection model that make up the colour of a point. The
/// ambient term is always among them.
#[derive(Clone, Copy, Debug, PartialEq, Eq)]
pub enum Terms {
    /// The light is behind the surface: ambient alone.
    Ambient,
    /// The light is in front, its reflection points away from the eye:
    /// ambient and diffuse.
    AmbientDiffuse,
    /// Ambient, diffuse and specular.
    All,
}

impl Terms {
    /// Whether the diffuse term is among them.
    pub open spec fn diffuse(self) -> bool {
        self != Terms::Ambient
    }

    /// Whether the specular term is among them.
    pub open spec fn specular(self) -> bool {
        self == Terms::All
    }

    /// Whether the diffuse term is among them.
    pub fn has_diffuse(&self) -> (r: bool)
        ensures
            r == self.diffuse(),
    {
        match self {
            Terms::Ambient => false,
            Terms::AmbientDiffuse => true,
            Terms::All => true,
        }
    }

    /// Whether the specular term is among them.
    pub fn has_specular(&self) -> (r: bool)
        ensures
            r == self.specular(),
    {
        match self {
            Terms::Ambient => false,
            Terms::AmbientDiffuse => false,
            Terms::All => true,
        }
    }
}

/// The terms that a point receives, from the two cosines that the model
/// compares with zero: `light_dot_normal`, between the direction to the light
/// and the surface normal, and `reflect_dot_eye`, between the reflected light
/// and the direction to the eye. A negative `light_dot_normal` leaves ambient
/// alone, whatever the other cosine is; otherwise a `reflect_dot_eye` at or
/// below zero leaves out the specular term.
pub open spec fn terms_for(light_dot_normal: Scalar, reflect_dot_eye: Scalar) -> Terms {
    if light_dot_normal.negative() {
        Terms::Ambient
    } else if reflect_dot_eye.non_positive() {
        Terms::AmbientDiffuse
    } else {
        Terms::All
    }
}

/// The terms of the reflection model that a point receives.
pub fn lit_terms(light_dot_normal: Scalar, reflect_dot_eye: Scalar) -> (terms: Terms)
    ensures
        terms == terms_for(light_dot_normal, reflect_dot_eye),
        light_dot_normal.negative() ==> !terms.diffuse() && !terms.specular(),
{
    if light_dot_normal.is_negative() {
        Terms::Ambient
    } else if reflect_dot_eye.is_non_positive() {
        Terms::AmbientDiffuse
    } else {
        Terms::All
    }
}

} // verus!
