//! The internal representation of a mesh with its geometry and various properties

use vstd::prelude::*;

verus! {

pub struct StaticMeshData<T> {
    pub geometry: Vec<T>,
}

pub struct SkinnedMeshData<T> {
    pub static_mesh: StaticMeshData<T>,
    pub weights: Vec<T>,
}

pub enum MeshData<T> {
    Static(StaticMeshData<T>),
    Skinned(SkinnedMeshData<T>),
}

impl<T> MeshData<T> {
    /// The geometry of the mesh, skinned or not.
    pub open spec fn geometry_view(&self) -> Seq<T> {
        match self {
            MeshData::Skinned(m) => m.static_mesh.geometry@,
            MeshData::Static(m) => m.geometry@,
        }
    }

    pub fn geometry(&self) -> (geometry: &[T])
        ensures
            geometry@ == self.geometry_view(),
    {
        match self {
            MeshData::Skinned(m) => m.static_mesh.geometry.as_slice(),
            MeshData::Static(m) => m.geometry.as_slice(),
        }
    }
}

} // verus!
