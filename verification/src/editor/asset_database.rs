//! Asset Database module.

use vstd::prelude::*;
use crate::asset::material::Material;
use crate::asset::mesh::Mesh;

verus! {

/// AssetDatabase is meant to store asset information in the editor, and hold loaded instances.
pub struct AssetDatabase<T> {
    loaded_meshes: Vec<Mesh<T>>,
    loaded_materials: Vec<Material>,
}

impl<T> AssetDatabase<T> {
    pub closed spec fn meshes(&self) -> Seq<Mesh<T>> {
        self.loaded_meshes@
    }

    pub closed spec fn materials(&self) -> Seq<Material> {
        self.loaded_materials@
    }

    /// Creates a new empty `AssetDatabase`
    pub fn new() -> (database: AssetDatabase<T>)
        ensures
            database.meshes().len() == 0,
            database.materials().len() == 0,
    {
        AssetDatabase { loaded_meshes: Vec::new(), loaded_materials: Vec::new() }
    }

    /// Takes in the meshes that were imported from one document, once they are
    /// constructed, behind the meshes that are loaded already.
    pub fn import_collada_mesh(&mut self, meshes: Vec<Mesh<T>>)
        ensures
            final(self).meshes() == old(self).meshes() + meshes@,
            final(self).materials() == old(self).materials(),
    {
        let mut meshes = meshes;
        self.loaded_meshes.append(&mut meshes);
    }

    /// Takes in a material, once it is constructed, and returns its index.
    pub fn create_material(&mut self, material: Material) -> (index: usize)
        ensures
            final(self).materials() == old(self).materials().push(material),
            final(self).meshes() == old(self).meshes(),
            index == old(self).materials().len(),
    {
        self.loaded_materials.push(material);
        self.loaded_materials.len() - 1
    }

    /// The loaded meshes.
    pub fn get_meshes(&self) -> (meshes: &Vec<Mesh<T>>)
        ensures
            meshes@ == self.meshes(),
    {
        &self.loaded_meshes
    }

    /// The loaded materials.
    pub fn get_materials(&self) -> (materials: &Vec<Material>)
        ensures
            materials@ == self.materials(),
    {
        &self.loaded_materials
    }
}

} // verus!
