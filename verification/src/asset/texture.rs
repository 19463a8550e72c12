//! A texture as the renderer refers to it: by its id in the registry and, once
//! it has been uploaded, by the name the graphics context gave it.

use vstd::prelude::*;

verus! {

/// A texture reference.
#[derive(Clone, Copy, Debug, PartialEq, Eq)]
pub struct Texture {
    /// Id of the texture in the asset registry.
    pub id: usize,
    /// Name of the texture object in the graphics context; none before it is constructed.
    pub texture: Option<u32>,
}

} // verus!
