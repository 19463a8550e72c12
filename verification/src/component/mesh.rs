//! Representation of a mesh in a scene

use vstd::prelude::*;
use vstd::string::*;
use crate::asset::asset_registry::AssetRegistry;
use crate::renderer::light_repository::LightConfiguration;

verus! {

/// What is reported for a mesh whose material is not registered.
pub const MATERIAL_NOT_FOUND: &'static str = "Material could not be found. Has it been registered yet?";

/// What is reported for a mesh whose material instance is not registered.
pub const MATERIAL_INSTANCE_NOT_FOUND: &'static str =
    "Material Instance could not be found. Has it been registered yet?";

/// Typedef for `MeshID` to ensure correct handling of `Mesh` ids with type checking.
pub type MeshID = u32;

/// Mesh component for an entity in the 3D scene.
/// Links some `MeshData` to some `MaterialInstance`, each named by its index in the asset registry.
#[derive(Clone, Copy, Debug, PartialEq, Eq)]
pub struct Mesh {
    pub material: usize,
    pub material_instance: usize,
    pub mesh_data: usize,
}

impl Mesh {
    /// Constructor. Uses a `MeshData` id, a `MaterialInstance` id and the id of the instance's parent material.
    pub fn new(mesh_data_id: usize, material_instance_id: usize, material_id: usize) -> (mesh: Mesh)
        ensures
            mesh.mesh_data == mesh_data_id,
            mesh.material_instance == material_instance_id,
            mesh.material == material_id,
    {
        Mesh { mesh_data: mesh_data_id, material: material_id, material_instance: material_instance_id }
    }

    /// Getter for the material instance
    pub fn get_material_instance_id(&self) -> (id: &usize)
        ensures
            *id == self.material_instance,
    {
        &self.material_instance
    }

    /// Getter for the material
    pub fn get_material_id(&self) -> (id: &usize)
        ensures
            *id == self.material,
    {
        &self.material
    }

    /// Getter for mesh_data
    pub fn get_mesh_data_id(&self) -> (id: &usize)
        ensures
            *id == self.mesh_data,
    {
        &self.mesh_data
    }

    /// Fetches all the uniform and attribute locations that drawing this mesh
    /// takes: those of its material, those of the buffers of its mesh data in
    /// that material, and those of its material instance and of the parent of
    /// that instance. The program of a material is built once, when the
    /// material is made, and is not built again here.
    ///
    /// A mesh whose material is not registered is reported before anything is
    /// looked up; one whose material instance is not registered is reported after
    /// the lookups for its material. Mesh data that is not registered is passed over.
    pub fn compile_material<T, FU: Fn(u32, &str) -> Option<u32>, FA: Fn(u32, &str) -> i32>(
        &self,
        registry: &mut AssetRegistry<T>,
        uniform_query: &FU,
        attribute_query: &FA,
        light_config: &LightConfiguration,
    ) -> (result: Result<(), String>)
        requires
            old(registry).wf(),
            forall|program: u32, name: &str| #[trigger] uniform_query.requires((program, name)),
            forall|program: u32, name: &str| #[trigger] attribute_query.requires((program, name)),
        ensures
            final(registry).wf(),
            result.is_err() == self.complaint(old(registry)).is_some(),
            result.is_err() ==> result.unwrap_err()@ == self.complaint(old(registry)).unwrap(),
            self.prepared(old(registry), final(registry), uniform_query, attribute_query, *light_config),
    {
        if !registry.lookup_material_locations(self.material, uniform_query, light_config) {
            return Err(String::from_str(MATERIAL_NOT_FOUND));
        }
        let ghost first = *registry;
        registry.lookup_mesh_data_locations(self.mesh_data, self.material, attribute_query);
        let ghost second = *registry;
        if !registry.lookup_material_instance_locations(self.material_instance, uniform_query, light_config) {
            proof {
                assert(self.mesh_data_step(&first, &second, attribute_query));
                assert(self.material_instance_step(&second, registry, uniform_query, *light_config));
            }
            return Err(String::from_str(MATERIAL_INSTANCE_NOT_FOUND));
        }
        proof {
            assert(self.mesh_data_step(&first, &second, attribute_query));
            assert(self.material_instance_step(&second, registry, uniform_query, *light_config));
        }
        Ok(())
    }

    /// Whether `after` is `before` once this mesh was prepared. Without its
    /// material nothing is done. With it, the locations of the material are looked
    /// up, then those of the mesh data, then those of the material instance.
    pub open spec fn prepared<T, FU: Fn(u32, &str) -> Option<u32>, FA: Fn(u32, &str) -> i32>(
        &self,
        before: &AssetRegistry<T>,
        after: &AssetRegistry<T>,
        uniform_query: &FU,
        attribute_query: &FA,
        lights: LightConfiguration,
    ) -> bool {
        if self.material >= before.materials().len() {
            *after == *before
        } else {
            exists|first: AssetRegistry<T>, second: AssetRegistry<T>|
                {
                    &&& #[trigger] first.material_located(before, self.material as int, uniform_query, lights)
                    &&& #[trigger] self.mesh_data_step(&first, &second, attribute_query)
                    &&& self.material_instance_step(&second, after, uniform_query, lights)
                }
        }
    }

    /// The step of the preparation that concerns the mesh data: where it is
    /// registered, its attribute locations are looked up in the material; where
    /// it is not, nothing changes.
    pub open spec fn mesh_data_step<T, F: Fn(u32, &str) -> i32>(
        &self,
        before: &AssetRegistry<T>,
        after: &AssetRegistry<T>,
        query: &F,
    ) -> bool {
        if self.mesh_data < before.meshes().len() {
            after.mesh_data_located(before, self.mesh_data as int, self.material as int, query)
        } else {
            *after == *before
        }
    }

    /// The step of the preparation that concerns the material instance: where it
    /// is registered, the locations of its uniforms and of those of its parent
    /// are looked up; where it is not, nothing changes.
    pub open spec fn material_instance_step<T, F: Fn(u32, &str) -> Option<u32>>(
        &self,
        before: &AssetRegistry<T>,
        after: &AssetRegistry<T>,
        query: &F,
        lights: LightConfiguration,
    ) -> bool {
        if self.material_instance < before.instances().len() {
            after.material_instance_located(before, self.material_instance as int, query, lights)
        } else {
            *after == *before
        }
    }

    /// What preparing this mesh reports: a missing material first, then a missing
    /// material instance; mesh data that is missing is passed over in silence.
    pub open spec fn complaint<T>(&self, registry: &AssetRegistry<T>) -> Option<Seq<char>> {
        if self.material >= registry.materials().len() {
            Some(MATERIAL_NOT_FOUND@)
        } else if self.material_instance >= registry.instances().len() {
            Some(MATERIAL_INSTANCE_NOT_FOUND@)
        } else {
            None
        }
    }
}

/// MeshComponent is a Mesh reference used to reference an actual mesh in a scene.
/// It is used to find associated Meshes when rendering needs to start.
#[derive(Clone, Copy, Debug, PartialEq, Eq)]
pub struct MeshComponent {
    pub mesh_id: MeshID,
}

} // verus!
