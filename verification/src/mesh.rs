//! Representation of a mesh in a scene: mesh data and the material instance it is drawn with.

pub mod mesh_data;

use vstd::prelude::*;
use crate::component::mesh::MeshID;
use crate::renderer::buffer::Buffer;
use crate::renderer::light_repository::LightConfiguration;
use crate::renderer::material::{Material, MaterialInstance};
use crate::renderer::mesh_data::MeshData;

verus! {

/// A mesh of a scene. Links some `MeshData` to some `MaterialInstance`.
pub struct Mesh<T> {
    /// `MeshData` in use for this mesh, containing the vertex data.
    data: MeshData<T>,
    /// `MaterialInstance` to use to render this mesh in the 3d scene
    material: MaterialInstance<T>,
    /// Identifier for the mesh, given out when the mesh is registered.
    id: Option<MeshID>,
}

impl<T> Mesh<T> {
    pub closed spec fn data_view(&self) -> MeshData<T> {
        self.data
    }

    pub closed spec fn material_view(&self) -> MaterialInstance<T> {
        self.material
    }

    pub closed spec fn id_view(&self) -> Option<MeshID> {
        self.id
    }

    /// Constructor. Uses a `MeshData` instance and a `MaterialInstance`
    pub fn new(data: MeshData<T>, material: MaterialInstance<T>) -> (mesh: Mesh<T>)
        ensures
            mesh.data_view() == data,
            mesh.material_view() == material,
            mesh.id_view().is_none(),
    {
        Mesh { data, material, id: None }
    }

    /// Returns a slice of the buffers of the mesh data
    pub fn get_buffers(&self) -> (buffers: &[Buffer<T>])
        ensures
            buffers@ == self.data_view().buffers_view(),
    {
        self.data.get_buffers()
    }

    /// Returns the number of vertices in this `Mesh`'s `Buffer`s.
    pub fn get_vertex_count(&self) -> (count: i32)
        ensures
            count == self.data_view().vertex_count_view(),
    {
        self.data.get_vertex_count()
    }

    /// The material instance of the mesh.
    pub fn get_material(&self) -> (material: &MaterialInstance<T>)
        ensures
            *material == self.material_view(),
    {
        &self.material
    }

    /// Lookup for this Mesh attributes locations, going though every underlying
    /// buffer, and for the uniform locations of its material instance and of the
    /// parent material. Should be done at initialization time before any rendering starts.
    ///
    /// The attributes come first: mesh data that has not been looked up registers
    /// the name of each of its buffers with the parent, which asks
    /// `attribute_query` for each name it has not cached. Then the parent and the
    /// instance ask `uniform_query` for each uniform that has not been looked up.
    /// A query that nothing is left to ask of is not called.
    pub fn lookup_locations<FA: Fn(u32, &str) -> i32, FU: Fn(u32, &str) -> Option<u32>>(
        &mut self,
        parent: &mut Material<T>,
        attribute_query: &FA,
        uniform_query: &FU,
        lights: &LightConfiguration,
    )
        requires
            old(parent).wf(),
            old(self).material_view().wf(),
            !old(self).data_view().lookup_done_view() ==> forall|name: &str| #[trigger]
                attribute_query.requires((old(parent).program_view(), name)),
            !(old(self).material_view().settled() && old(parent).settled()) ==> forall|name: &str| #[trigger]
                uniform_query.requires((old(parent).program_view(), name)),
        ensures
            final(parent).wf(),
            final(self).material_view().wf(),
            final(self).id_view() == old(self).id_view(),
            final(self).data_view().lookup_done_view(),
            final(self).data_view().buffers_view() == old(self).data_view().buffers_view(),
            final(self).data_view().vertex_count_view() == old(self).data_view().vertex_count_view(),
            final(self).data_view().id_view() == old(self).data_view().id_view(),
            final(self).material_view().settled(),
            final(self).material_view().id_view() == old(self).material_view().id_view(),
            final(self).material_view().parent_id_view() == old(self).material_view().parent_id_view(),
            final(self).material_view().uniform_names() == old(self).material_view().uniform_names(),
            final(parent).settled(),
            final(parent).program_view() == old(parent).program_view(),
            final(parent).id_view() == old(parent).id_view(),
            final(parent).uniform_names() == old(parent).uniform_names(),
            exists|middle: Material<T>| #[trigger]
                old(self).attributes_step(old(parent), &middle, attribute_query) && final(parent).looked_up(
                    &middle,
                    uniform_query,
                    *lights,
                ),
            forall|i: int|
                0 <= i < old(self).material_view().uniforms().len() ==> (
                #[trigger] final(self).material_view().uniforms()[i]).looked_up(
                    &old(self).material_view().uniforms()[i],
                    uniform_query,
                    old(parent).program_view(),
                ),
    {
        self.data.lookup_locations(attribute_query, parent);
        let ghost middle = *parent;
        assert(middle.program_view() == old(parent).program_view());
        assert(old(self).attributes_step(old(parent), &middle, attribute_query));
        self.material.lookup_locations(parent, uniform_query, lights);
    }

    /// What the attribute lookup of this mesh makes of the parent material `before`:
    /// mesh data that was looked up already leaves it as it is; other mesh data
    /// registers the name of each of its buffers, with the location that `query` answered.
    pub open spec fn attributes_step<F: Fn(u32, &str) -> i32>(
        &self,
        before: &Material<T>,
        after: &Material<T>,
        query: &F,
    ) -> bool {
        if self.data_view().lookup_done_view() {
            *after == *before
        } else {
            self.data_view().attributes_registered(before, after, query)
        }
    }

    /// Getter for this `Mesh`'s ID.
    pub fn get_id(&self) -> (id: Option<MeshID>)
        ensures
            id == self.id_view(),
    {
        self.id
    }

    /// Getter for the private `id` attribute. If it doesn't exist yet, it is
    /// supplied by the caller and set directly.
    pub fn get_or_set_id(&mut self, default: MeshID) -> (id: MeshID)
        ensures
            final(self).data_view() == old(self).data_view(),
            final(self).material_view() == old(self).material_view(),
            old(self).id_view().is_some() ==> id == old(self).id_view().unwrap() && final(self).id_view() == old(
                self,
            ).id_view(),
            old(self).id_view().is_none() ==> id == default && final(self).id_view() == Some(default),
    {
        match self.id {
            Some(id) => id,
            None => {
                self.id = Some(default);
                default
            },
        }
    }
}

} // verus!
