//! The internal representation of a mesh with its geometry and various properties

use vstd::prelude::*;

verus! {

pub struct StaticMesh<T> {
    pub geometry: Vec<T>,
}

pub struct SkinnedMesh<T> {
    pub static_mesh: StaticMesh<T>,
    pub weights: Vec<T>,
}

/// Anything that has a geometry.
pub trait Mesh<T> {
    /// The geometry.
    spec fn geometry_view(&self) -> Seq<T>;

    fn geometry(&self) -> (geometry: &[T])
        ensures
            geometry@ == self.geometry_view(),
    ;
}

impl<T> Mesh<T> for StaticMesh<T> {
    open spec fn geometry_view(&self) -> Seq<T> {
        self.geometry@
    }

    fn geometry(&self) -> (geometry: &[T]) {
        self.geometry.as_slice()
    }
}

impl<T> Mesh<T> for SkinnedMesh<T> {
    open spec fn geometry_view(&self) -> Seq<T> {
        self.static_mesh.geometry@
    }

    fn geometry(&self) -> (geometry: &[T]) {
        self.static_mesh.geometry()
    }
}

} // verus!
