//! Light components for lighting the scene

use vstd::prelude::*;

verus! {

/// A light source: its color, how strong it is and how fast it fades.
/// What kind of light it is depends on the other components of its entity.
pub struct Light<V, T> {
    pub color: V,
    pub intensity: T,
    pub attenuation: T,
}

/// The direction a light shines in.
pub struct Direction<V>(pub V);

/// The cone of a spot light.
pub struct Cone<T> {
    pub blend: T,
    pub angle: T,
}

} // verus!
