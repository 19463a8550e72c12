//! Central asset registration object, associated with an instance of the engine.
//!
//! The registry owns every mesh data, material, material instance and texture.
//! Each is found by the id it was registered under, or by the index that the
//! registration returned; nothing is ever taken out again.

use vstd::prelude::*;
use vstd::string::*;
use crate::asset::texture::Texture;
use crate::error::Error;
use crate::renderer::light_repository::LightConfiguration;
use crate::renderer::material::{
    units_assigned, Material, MaterialInstance, INSTANCE_TEXTURE_UNITS, SHARED_TEXTURE_UNITS,
};
use crate::renderer::mesh_data::MeshData;
use crate::renderer::uniform::Uniform;
use crate::util::text::same_text;

verus! {

/// Something that is registered under an id of its own.
pub trait Identified {
    /// The id.
    spec fn own_id(&self) -> Seq<char>;

    /// Whether the asset's own invariant holds.
    spec fn sound(&self) -> bool;

    /// The id, as text.
    fn id_text(&self) -> (id: &str)
        ensures
            id@ == self.own_id(),
    ;
}

impl<T> Identified for Material<T> {
    open spec fn own_id(&self) -> Seq<char> {
        self.id_view()
    }

    open spec fn sound(&self) -> bool {
        self.wf()
    }

    fn id_text(&self) -> (id: &str) {
        self.get_id()
    }
}

impl<T> Identified for MaterialInstance<T> {
    open spec fn own_id(&self) -> Seq<char> {
        self.id_view()
    }

    open spec fn sound(&self) -> bool {
        self.wf()
    }

    fn id_text(&self) -> (id: &str) {
        self.get_id()
    }
}

impl<T> Identified for MeshData<T> {
    open spec fn own_id(&self) -> Seq<char> {
        self.id_view()
    }

    open spec fn sound(&self) -> bool {
        true
    }

    fn id_text(&self) -> (id: &str) {
        self.get_id()
    }
}

/// The ids of a list of assets, in the order of the list.
pub open spec fn ids_of<X: Identified>(items: Seq<X>) -> Seq<Seq<char>> {
    Seq::new(items.len(), |i: int| items[i].own_id())
}

/// A list of assets in which no id occurs twice and every asset is sound.
pub open spec fn shelf_ok<X: Identified>(items: Seq<X>) -> bool {
    &&& ids_of(items).no_duplicates()
    &&& forall|i: int| 0 <= i < items.len() ==> (#[trigger] items[i]).sound()
}

/// The list once `item` has been registered: in the place of the asset that had
/// its id, or behind all others where the id is new.
pub open spec fn shelved<X: Identified>(items: Seq<X>, item: X) -> Seq<X> {
    if ids_of(items).contains(item.own_id()) {
        items.update(ids_of(items).index_of(item.own_id()), item)
    } else {
        items.push(item)
    }
}

/// The index under which `item` is registered in `shelved(items, item)`.
pub open spec fn shelf_index<X: Identified>(items: Seq<X>, item: X) -> int {
    if ids_of(items).contains(item.own_id()) {
        ids_of(items).index_of(item.own_id())
    } else {
        items.len() as int
    }
}

/// Registering keeps the ids that were there, each at its index.
pub proof fn lemma_shelved<X: Identified>(items: Seq<X>, item: X)
    requires
        shelf_ok(items),
        item.sound(),
    ensures
        shelf_ok(shelved(items, item)),
        0 <= shelf_index(items, item) < shelved(items, item).len(),
        shelved(items, item)[shelf_index(items, item)] == item,
        ids_of(shelved(items, item)) == (if ids_of(items).contains(item.own_id()) {
            ids_of(items)
        } else {
            ids_of(items).push(item.own_id())
        }),
        forall|id: Seq<char>| ids_of(items).contains(id) ==> #[trigger] ids_of(shelved(items, item)).contains(id),
{
    let ids = ids_of(items);
    let after = shelved(items, item);
    if ids.contains(item.own_id()) {
        let at = ids.index_of(item.own_id());
        assert(ids[at] == item.own_id());
        assert(ids_of(after) =~= ids);
    } else {
        assert(ids_of(after) =~= ids.push(item.own_id()));
        assert forall|id: Seq<char>| ids.contains(id) implies #[trigger] ids_of(after).contains(id) by {
            let k = choose|k: int| 0 <= k < ids.len() && ids[k] == id;
            assert(ids_of(after)[k] == id);
        }
    }
}

/// The index of the asset registered under `id`.
fn find_by_id<X: Identified>(items: &Vec<X>, id: &str) -> (found: Option<usize>)
    requires
        ids_of(items@).no_duplicates(),
    ensures
        found.is_some() == ids_of(items@).contains(id@),
        found.is_some() ==> found.unwrap() == ids_of(items@).index_of(id@) && found.unwrap() < items@.len(),
{
    let ghost ids = ids_of(items@);
    let mut i: usize = 0;
    while i < items.len()
        invariant
            0 <= i <= items@.len(),
            ids == ids_of(items@),
            ids.no_duplicates(),
            forall|k: int| 0 <= k < i ==> ids[k] != id@,
        decreases items@.len() - i,
    {
        if same_text(items[i].id_text(), id) {
            proof {
                assert(ids[i as int] == id@);
                let at = ids.index_of(id@);
                assert(ids[at] == id@);
            }
            return Some(i);
        }
        i += 1;
    }
    proof {
        if ids.contains(id@) {
            let k = choose|k: int| 0 <= k < ids.len() && ids[k] == id@;
            assert(false);
        }
    }
    None
}

/// Registers `item`: in the place of the asset that had its id, or behind all others.
fn shelve<X: Identified>(items: &mut Vec<X>, item: X) -> (index: usize)
    requires
        shelf_ok(old(items)@),
        item.sound(),
    ensures
        final(items)@ == shelved(old(items)@, item),
        index == shelf_index(old(items)@, item),
        shelf_ok(final(items)@),
{
    proof {
        lemma_shelved(items@, item);
    }
    match find_by_id(items, item.id_text()) {
        Some(index) => {
            items[index] = item;
            index
        },
        None => {
            items.push(item);
            items.len() - 1
        },
    }
}

/// The ids of a list of textures, in the order of the list.
pub open spec fn texture_ids(textures: Seq<Texture>) -> Seq<usize> {
    Seq::new(textures.len(), |i: int| textures[i].id)
}

/// The registry of the assets of one engine.
pub struct AssetRegistry<T> {
    mesh_data: Vec<MeshData<T>>,
    materials: Vec<Material<T>>,
    material_instances: Vec<MaterialInstance<T>>,
    textures: Vec<Texture>,
}

impl<T> AssetRegistry<T> {
    /// The registered mesh data, by index.
    pub closed spec fn meshes(&self) -> Seq<MeshData<T>> {
        self.mesh_data@
    }

    /// The registered materials, by index.
    pub closed spec fn materials(&self) -> Seq<Material<T>> {
        self.materials@
    }

    /// The registered material instances, by index.
    pub closed spec fn instances(&self) -> Seq<MaterialInstance<T>> {
        self.material_instances@
    }

    /// The registered textures, by index.
    pub closed spec fn textures(&self) -> Seq<Texture> {
        self.textures@
    }

    /// Whether a material is registered under `id`.
    pub open spec fn has_material(&self, id: Seq<char>) -> bool {
        ids_of(self.materials()).contains(id)
    }

    /// Whether a material instance is registered under `id`.
    pub open spec fn has_instance(&self, id: Seq<char>) -> bool {
        ids_of(self.instances()).contains(id)
    }

    /// Whether mesh data is registered under `id`.
    pub open spec fn has_mesh_data(&self, id: Seq<char>) -> bool {
        ids_of(self.meshes()).contains(id)
    }

    /// The invariant of the registry: within each kind of asset no id is registered
    /// twice, every asset is sound, and the parent of every material instance is
    /// a registered material.
    pub open spec fn wf(&self) -> bool {
        &&& shelf_ok(self.meshes())
        &&& shelf_ok(self.materials())
        &&& shelf_ok(self.instances())
        &&& texture_ids(self.textures()).no_duplicates()
        &&& forall|i: int|
            0 <= i < self.instances().len() ==> self.has_material(
                (#[trigger] self.instances()[i]).parent_id_view(),
            )
    }

    /// An empty registry.
    pub fn new() -> (registry: AssetRegistry<T>)
        ensures
            registry.wf(),
            registry.meshes().len() == 0,
            registry.materials().len() == 0,
            registry.instances().len() == 0,
            registry.textures().len() == 0,
    {
        AssetRegistry {
            mesh_data: Vec::new(),
            materials: Vec::new(),
            material_instances: Vec::new(),
            textures: Vec::new(),
        }
    }

    /// Registers mesh data under its id and returns its index: the index that the
    /// id had, or a new one.
    pub fn register_mesh_data(&mut self, mesh_data: MeshData<T>) -> (index: usize)
        requires
            old(self).wf(),
        ensures
            final(self).wf(),
            final(self).meshes() == shelved(old(self).meshes(), mesh_data),
            index == shelf_index(old(self).meshes(), mesh_data),
            final(self).materials() == old(self).materials(),
            final(self).instances() == old(self).instances(),
            final(self).textures() == old(self).textures(),
    {
        shelve(&mut self.mesh_data, mesh_data)
    }

    /// Registers a material under its id and returns its index: the index that the
    /// id had, or a new one.
    pub fn register_material(&mut self, material: Material<T>) -> (index: usize)
        requires
            old(self).wf(),
            material.wf(),
        ensures
            final(self).wf(),
            final(self).materials() == shelved(old(self).materials(), material),
            index == shelf_index(old(self).materials(), material),
            final(self).meshes() == old(self).meshes(),
            final(self).instances() == old(self).instances(),
            final(self).textures() == old(self).textures(),
    {
        proof {
            lemma_shelved(self.materials@, material);
        }
        shelve(&mut self.materials, material)
    }

    /// Registers a material instance under its id and returns its index: the index
    /// that the id had, or a new one. The parent material must be registered
    /// already: where it is not, the answer is `Error::MissingParent`, with the id
    /// of the instance and the id of the parent that it names, and the registry
    /// stays as it is.
    pub fn register_material_instance(&mut self, instance: MaterialInstance<T>) -> (result: Result<usize, Error>)
        requires
            old(self).wf(),
            instance.wf(),
        ensures
            final(self).wf(),
            !old(self).has_material(instance.parent_id_view()) ==> {
                &&& result matches Err(Error::MissingParent { instance: refused, parent: missing })
                    && refused@ == instance.id_view() && missing@ == instance.parent_id_view()
                &&& *final(self) == *old(self)
            },
            old(self).has_material(instance.parent_id_view()) ==> {
                &&& result == Ok::<usize, Error>(shelf_index(old(self).instances(), instance) as usize)
                &&& final(self).instances() == shelved(old(self).instances(), instance)
                &&& final(self).meshes() == old(self).meshes()
                &&& final(self).materials() == old(self).materials()
                &&& final(self).textures() == old(self).textures()
            },
    {
        let parent_id = instance.get_parent_id();
        if find_by_id(&self.materials, parent_id.as_str()).is_none() {
            return Err(Error::MissingParent { instance: String::from_str(instance.get_id()), parent: parent_id });
        }
        proof {
            lemma_shelved(self.material_instances@, instance);
        }
        let index = shelve(&mut self.material_instances, instance);
        proof {
            let before = old(self).instances();
            assert forall|i: int| 0 <= i < self.instances().len() implies self.has_material(
                (#[trigger] self.instances()[i]).parent_id_view(),
            ) by {
                if self.instances()[i] != instance {
                    assert(before[i] == self.instances()[i]);
                }
            }
        }
        Ok(index)
    }

    /// Registers a texture under its id and returns its index: the index that the
    /// id had, or a new one.
    pub fn register_texture(&mut self, texture: Texture) -> (index: usize)
        requires
            old(self).wf(),
        ensures
            final(self).wf(),
            final(self).meshes() == old(self).meshes(),
            final(self).materials() == old(self).materials(),
            final(self).instances() == old(self).instances(),
            texture_ids(old(self).textures()).contains(texture.id) ==> {
                &&& index == texture_ids(old(self).textures()).index_of(texture.id)
                &&& final(self).textures() == old(self).textures().update(index as int, texture)
            },
            !texture_ids(old(self).textures()).contains(texture.id) ==> {
                &&& index == old(self).textures().len()
                &&& final(self).textures() == old(self).textures().push(texture)
            },
    {
        let ghost ids = texture_ids(self.textures@);
        match self.texture_index(texture.id) {
            Some(index) => {
                self.textures[index] = texture;
                assert(texture_ids(self.textures@) =~= ids);
                index
            },
            None => {
                self.textures.push(texture);
                assert(texture_ids(self.textures@) =~= ids.push(texture.id));
                self.textures.len() - 1
            },
        }
    }

    /// The index of the texture registered under `id`.
    pub fn texture_index(&self, id: usize) -> (found: Option<usize>)
        requires
            texture_ids(self.textures()).no_duplicates(),
        ensures
            found.is_some() == texture_ids(self.textures()).contains(id),
            found.is_some() ==> found.unwrap() == texture_ids(self.textures()).index_of(id) && found.unwrap()
                < self.textures().len(),
    {
        let ghost ids = texture_ids(self.textures@);
        let mut i: usize = 0;
        while i < self.textures.len()
            invariant
                0 <= i <= self.textures@.len(),
                ids == texture_ids(self.textures@),
                ids.no_duplicates(),
                forall|k: int| 0 <= k < i ==> ids[k] != id,
            decreases self.textures@.len() - i,
        {
            if self.textures[i].id == id {
                proof {
                    assert(ids[i as int] == id);
                    let at = ids.index_of(id);
                    assert(ids[at] == id);
                }
                return Some(i);
            }
            i += 1;
        }
        proof {
            if ids.contains(id) {
                let k = choose|k: int| 0 <= k < ids.len() && ids[k] == id;
                assert(false);
            }
        }
        None
    }

    /// The index of the material registered under `id`.
    pub fn material_index(&self, id: &str) -> (found: Option<usize>)
        requires
            self.wf(),
        ensures
            found.is_some() == self.has_material(id@),
            found.is_some() ==> found.unwrap() == ids_of(self.materials()).index_of(id@) && found.unwrap()
                < self.materials().len(),
    {
        find_by_id(&self.materials, id)
    }

    /// The index of the material instance registered under `id`.
    pub fn material_instance_index(&self, id: &str) -> (found: Option<usize>)
        requires
            self.wf(),
        ensures
            found.is_some() == self.has_instance(id@),
            found.is_some() ==> found.unwrap() == ids_of(self.instances()).index_of(id@) && found.unwrap()
                < self.instances().len(),
    {
        find_by_id(&self.material_instances, id)
    }

    /// The index of the mesh data registered under `id`.
    pub fn mesh_data_index(&self, id: &str) -> (found: Option<usize>)
        requires
            self.wf(),
        ensures
            found.is_some() == self.has_mesh_data(id@),
            found.is_some() ==> found.unwrap() == ids_of(self.meshes()).index_of(id@) && found.unwrap()
                < self.meshes().len(),
    {
        find_by_id(&self.mesh_data, id)
    }

    /// The mesh data registered under `id`; none where there is none.
    pub fn get_mesh_data(&self, id: &str) -> (found: Option<&MeshData<T>>)
        requires
            self.wf(),
        ensures
            found.is_some() == self.has_mesh_data(id@),
            found.is_some() ==> *found.unwrap() == self.meshes()[ids_of(self.meshes()).index_of(id@)],
    {
        match find_by_id(&self.mesh_data, id) {
            Some(i) => Some(&self.mesh_data[i]),
            None => None,
        }
    }

    /// The material registered under `id`; none where there is none.
    pub fn get_material(&self, id: &str) -> (found: Option<&Material<T>>)
        requires
            self.wf(),
        ensures
            found.is_some() == self.has_material(id@),
            found.is_some() ==> *found.unwrap() == self.materials()[ids_of(self.materials()).index_of(id@)],
    {
        match find_by_id(&self.materials, id) {
            Some(i) => Some(&self.materials[i]),
            None => None,
        }
    }

    /// The material instance registered under `id`; none where there is none.
    pub fn get_material_instance(&self, id: &str) -> (found: Option<&MaterialInstance<T>>)
        requires
            self.wf(),
        ensures
            found.is_some() == self.has_instance(id@),
            found.is_some() ==> *found.unwrap() == self.instances()[ids_of(self.instances()).index_of(id@)],
    {
        match find_by_id(&self.material_instances, id) {
            Some(i) => Some(&self.material_instances[i]),
            None => None,
        }
    }

    /// The texture registered under `id`; none where there is none.
    pub fn get_texture(&self, id: usize) -> (found: Option<&Texture>)
        requires
            self.wf(),
        ensures
            found.is_some() == texture_ids(self.textures()).contains(id),
            found.is_some() ==> *found.unwrap() == self.textures()[texture_ids(self.textures()).index_of(id)],
    {
        match self.texture_index(id) {
            Some(i) => Some(&self.textures[i]),
            None => None,
        }
    }

    /// The mesh data registered at `index`; none where the index was never given out.
    pub fn get_mesh_data_with_index(&self, index: usize) -> (found: Option<&MeshData<T>>)
        ensures
            found.is_some() == (index < self.meshes().len()),
            found.is_some() ==> *found.unwrap() == self.meshes()[index as int],
    {
        if index < self.mesh_data.len() {
            Some(&self.mesh_data[index])
        } else {
            None
        }
    }

    /// The material registered at `index`; none where the index was never given out.
    pub fn get_material_with_index(&self, index: usize) -> (found: Option<&Material<T>>)
        ensures
            found.is_some() == (index < self.materials().len()),
            found.is_some() ==> *found.unwrap() == self.materials()[index as int],
    {
        if index < self.materials.len() {
            Some(&self.materials[index])
        } else {
            None
        }
    }

    /// The material instance registered at `index`; none where the index was never given out.
    pub fn get_material_instance_with_index(&self, index: usize) -> (found: Option<&MaterialInstance<T>>)
        ensures
            found.is_some() == (index < self.instances().len()),
            found.is_some() ==> *found.unwrap() == self.instances()[index as int],
    {
        if index < self.material_instances.len() {
            Some(&self.material_instances[index])
        } else {
            None
        }
    }
}


/// Replacing an asset by one with the same id keeps the ids as they are.
pub proof fn lemma_same_id_update<X: Identified>(items: Seq<X>, at: int, item: X)
    requires
        0 <= at < items.len(),
        item.own_id() == items[at].own_id(),
    ensures
        ids_of(items.update(at, item)) == ids_of(items),
{
    assert(ids_of(items.update(at, item)) =~= ids_of(items));
}

impl<T> AssetRegistry<T> {
    /// Whether this registry is `before` after the locations of the global
    /// uniforms and of the shared uniforms of the material at `material` were
    /// looked up with `query`.
    pub open spec fn material_located<F: Fn(u32, &str) -> Option<u32>>(
        &self,
        before: &AssetRegistry<T>,
        material: int,
        query: &F,
        lights: LightConfiguration,
    ) -> bool {
        &&& 0 <= material < before.materials().len()
        &&& self.meshes() == before.meshes()
        &&& self.instances() == before.instances()
        &&& self.textures() == before.textures()
        &&& self.materials() == before.materials().update(material, self.materials()[material])
        &&& self.materials()[material].looked_up(&before.materials()[material], query, lights)
        &&& self.materials()[material].settled()
    }

    /// Whether this registry is `before` after the attribute locations of the
    /// buffers of the mesh data at `mesh_data` were looked up, with `query`, in
    /// the material at `material`. Mesh data whose locations were looked up
    /// before leaves the material as it is.
    pub open spec fn mesh_data_located<F: Fn(u32, &str) -> i32>(
        &self,
        before: &AssetRegistry<T>,
        mesh_data: int,
        material: int,
        query: &F,
    ) -> bool {
        let mesh_before = before.meshes()[mesh_data];
        let mesh_after = self.meshes()[mesh_data];
        let material_before = before.materials()[material];
        let material_after = self.materials()[material];
        &&& 0 <= material < before.materials().len()
        &&& 0 <= mesh_data < before.meshes().len()
        &&& self.instances() == before.instances()
        &&& self.textures() == before.textures()
        &&& self.materials() == before.materials().update(material, material_after)
        &&& self.meshes() == before.meshes().update(mesh_data, mesh_after)
        &&& mesh_after.lookup_done_view()
        &&& mesh_after.id_view() == mesh_before.id_view()
        &&& mesh_after.buffers_view() == mesh_before.buffers_view()
        &&& mesh_after.vertex_count_view() == mesh_before.vertex_count_view()
        &&& mesh_before.lookup_done_view() ==> material_after == material_before
        &&& !mesh_before.lookup_done_view() ==> mesh_before.attributes_registered(
            &material_before,
            &material_after,
            query,
        )
    }

    /// Whether this registry is `before` after the locations of the uniforms of
    /// the material instance at `instance`, and those of its parent material,
    /// were looked up with `query`.
    pub open spec fn material_instance_located<F: Fn(u32, &str) -> Option<u32>>(
        &self,
        before: &AssetRegistry<T>,
        instance: int,
        query: &F,
        lights: LightConfiguration,
    ) -> bool {
        let parent = ids_of(before.materials()).index_of(before.instances()[instance].parent_id_view());
        let instance_before = before.instances()[instance];
        let instance_after = self.instances()[instance];
        &&& 0 <= instance < before.instances().len()
        &&& 0 <= parent < before.materials().len()
        &&& self.meshes() == before.meshes()
        &&& self.textures() == before.textures()
        &&& self.materials() == before.materials().update(parent, self.materials()[parent])
        &&& self.instances() == before.instances().update(instance, instance_after)
        &&& self.materials()[parent].looked_up(&before.materials()[parent], query, lights)
        &&& self.materials()[parent].settled()
        &&& instance_after.settled()
        &&& instance_after.id_view() == instance_before.id_view()
        &&& instance_after.parent_id_view() == instance_before.parent_id_view()
        &&& instance_after.uniform_names() == instance_before.uniform_names()
        &&& forall|i: int|
            0 <= i < instance_before.uniforms().len() ==> (#[trigger] instance_after.uniforms()[i]).looked_up(
                &instance_before.uniforms()[i],
                query,
                before.materials()[parent].program_view(),
            )
    }

    /// Looks up the locations of the global uniforms and of the shared uniforms of
    /// the material at `material`. Returns false, and changes nothing, where no
    /// material is registered there.
    pub fn lookup_material_locations<F: Fn(u32, &str) -> Option<u32>>(
        &mut self,
        material: usize,
        query: &F,
        lights: &LightConfiguration,
    ) -> (found: bool)
        requires
            old(self).wf(),
            forall|program: u32, name: &str| #[trigger] query.requires((program, name)),
        ensures
            final(self).wf(),
            found == (material < old(self).materials().len()),
            !found ==> *final(self) == *old(self),
            found ==> final(self).material_located(old(self), material as int, query, *lights),
    {
        if material >= self.materials.len() {
            return false;
        }
        let ghost before = self.materials@;
        self.materials[material].lookup_locations(query, lights);
        proof {
            assert(self.materials@ =~= before.update(material as int, self.materials@[material as int]));
            lemma_same_id_update(before, material as int, self.materials@[material as int]);
            assert forall|i: int| 0 <= i < self.materials@.len() implies (#[trigger] self.materials@[i]).sound() by {
                if i != material {
                    assert(before[i].sound());
                }
            }
        }
        true
    }

    /// Looks up, in the material at `material`, the attribute locations of the
    /// buffers of the mesh data at `mesh_data`. Returns false, and changes nothing,
    /// where either is not registered.
    pub fn lookup_mesh_data_locations<F: Fn(u32, &str) -> i32>(
        &mut self,
        mesh_data: usize,
        material: usize,
        query: &F,
    ) -> (found: bool)
        requires
            old(self).wf(),
            forall|program: u32, name: &str| #[trigger] query.requires((program, name)),
        ensures
            final(self).wf(),
            found == (material < old(self).materials().len() && mesh_data < old(self).meshes().len()),
            !found ==> *final(self) == *old(self),
            found ==> final(self).mesh_data_located(old(self), mesh_data as int, material as int, query),
    {
        if material >= self.materials.len() || mesh_data >= self.mesh_data.len() {
            return false;
        }
        let ghost materials_before = self.materials@;
        let ghost meshes_before = self.mesh_data@;
        let target = &mut self.materials[material];
        let mesh = &mut self.mesh_data[mesh_data];
        mesh.lookup_locations(query, target);
        proof {
            let material_after = self.materials@[material as int];
            let mesh_after = self.mesh_data@[mesh_data as int];
            assert(self.materials@ =~= materials_before.update(material as int, material_after));
            assert(self.mesh_data@ =~= meshes_before.update(mesh_data as int, mesh_after));
            assert(material_after.id_view() == materials_before[material as int].id_view());
            lemma_same_id_update(materials_before, material as int, material_after);
            lemma_same_id_update(meshes_before, mesh_data as int, mesh_after);
            assert forall|i: int| 0 <= i < self.materials@.len() implies (#[trigger] self.materials@[i]).sound() by {
                if i != material {
                    assert(materials_before[i].sound());
                }
            }
        }
        true
    }

    /// Looks up the locations of the uniforms of the material instance at
    /// `instance` and those of its parent material. Returns false, and changes
    /// nothing, where no material instance is registered there.
    pub fn lookup_material_instance_locations<F: Fn(u32, &str) -> Option<u32>>(
        &mut self,
        instance: usize,
        query: &F,
        lights: &LightConfiguration,
    ) -> (found: bool)
        requires
            old(self).wf(),
            forall|program: u32, name: &str| #[trigger] query.requires((program, name)),
        ensures
            final(self).wf(),
            found == (instance < old(self).instances().len()),
            !found ==> *final(self) == *old(self),
            found ==> final(self).material_instance_located(old(self), instance as int, query, *lights),
    {
        if instance >= self.material_instances.len() {
            return false;
        }
        let parent_id = self.material_instances[instance].get_parent_id();
        assert(self.has_material(self.instances()[instance as int].parent_id_view()));
        let parent = find_by_id(&self.materials, parent_id.as_str()).unwrap();
        let ghost materials_before = self.materials@;
        let ghost instances_before = self.material_instances@;
        let target = &mut self.materials[parent];
        let own = &mut self.material_instances[instance];
        own.lookup_locations(target, query, lights);
        proof {
            let material_after = self.materials@[parent as int];
            let instance_after = self.material_instances@[instance as int];
            assert(self.materials@ =~= materials_before.update(parent as int, material_after));
            assert(self.material_instances@ =~= instances_before.update(instance as int, instance_after));
            lemma_same_id_update(materials_before, parent as int, material_after);
            lemma_same_id_update(instances_before, instance as int, instance_after);
            assert forall|i: int| 0 <= i < self.materials@.len() implies (#[trigger] self.materials@[i]).sound() by {
                if i != parent {
                    assert(materials_before[i].sound());
                }
            }
            assert forall|i: int| 0 <= i < self.material_instances@.len() implies (
            #[trigger] self.material_instances@[i]).sound() by {
                if i != instance {
                    assert(instances_before[i].sound());
                }
            }
            assert forall|i: int| 0 <= i < self.instances().len() implies self.has_material(
                (#[trigger] self.instances()[i]).parent_id_view(),
            ) by {
                if i != instance {
                    assert(instances_before[i] == self.instances()[i]);
                }
                assert(old(self).has_material(instances_before[i].parent_id_view()));
            }
        }
        true
    }

    /// Gives the texture uniforms of the material instance at `instance`, and the
    /// shared texture uniforms of its parent material, their texture units: no
    /// unit is taken twice among the uniforms that are bound for one draw call.
    /// Returns false, and changes nothing, where no material instance is
    /// registered there.
    pub fn assign_texture_indexes(&mut self, instance: usize) -> (found: bool)
        requires
            old(self).wf(),
        ensures
            final(self).wf(),
            found == (instance < old(self).instances().len()),
            !found ==> *final(self) == *old(self),
            found ==> {
                let parent = ids_of(old(self).materials()).index_of(
                    old(self).instances()[instance as int].parent_id_view(),
                );
                &&& 0 <= parent < old(self).materials().len()
                &&& final(self).meshes() == old(self).meshes()
                &&& final(self).textures() == old(self).textures()
                &&& final(self).materials() == old(self).materials().update(parent, final(self).materials()[parent])
                &&& final(self).instances() == old(self).instances().update(
                    instance as int,
                    final(self).instances()[instance as int],
                )
                &&& final(self).materials()[parent].same_but_uniforms(&old(self).materials()[parent])
                &&& final(self).materials()[parent].uniform_names() == old(self).materials()[parent].uniform_names()
                &&& units_assigned(
                    final(self).materials()[parent].uniforms(),
                    old(self).materials()[parent].uniforms(),
                    0,
                    SHARED_TEXTURE_UNITS,
                )
                &&& final(self).instances()[instance as int].id_view() == old(self).instances()[instance as int].id_view()
                &&& final(self).instances()[instance as int].parent_id_view() == old(
                    self,
                ).instances()[instance as int].parent_id_view()
                &&& final(self).instances()[instance as int].uniform_names() == old(
                    self,
                ).instances()[instance as int].uniform_names()
                &&& units_assigned(
                    final(self).instances()[instance as int].uniforms(),
                    old(self).instances()[instance as int].uniforms(),
                    SHARED_TEXTURE_UNITS,
                    INSTANCE_TEXTURE_UNITS,
                )
            },
    {
        if instance >= self.material_instances.len() {
            return false;
        }
        let parent_id = self.material_instances[instance].get_parent_id();
        assert(self.has_material(self.instances()[instance as int].parent_id_view()));
        let parent = find_by_id(&self.materials, parent_id.as_str()).unwrap();
        let ghost materials_before = self.materials@;
        let ghost instances_before = self.material_instances@;
        self.materials[parent].assign_texture_indexes();
        self.material_instances[instance].assign_texture_indexes();
        proof {
            let material_after = self.materials@[parent as int];
            let instance_after = self.material_instances@[instance as int];
            assert(self.materials@ =~= materials_before.update(parent as int, material_after));
            assert(self.material_instances@ =~= instances_before.update(instance as int, instance_after));
            lemma_same_id_update(materials_before, parent as int, material_after);
            lemma_same_id_update(instances_before, instance as int, instance_after);
            assert forall|i: int| 0 <= i < self.materials@.len() implies (#[trigger] self.materials@[i]).sound() by {
                if i != parent {
                    assert(materials_before[i].sound());
                }
            }
            assert forall|i: int| 0 <= i < self.material_instances@.len() implies (
            #[trigger] self.material_instances@[i]).sound() by {
                if i != instance {
                    assert(instances_before[i].sound());
                }
            }
            assert forall|i: int| 0 <= i < self.instances().len() implies self.has_material(
                (#[trigger] self.instances()[i]).parent_id_view(),
            ) by {
                if i != instance {
                    assert(instances_before[i] == self.instances()[i]);
                }
                assert(old(self).has_material(instances_before[i].parent_id_view()));
            }
        }
        true
    }

    /// Sets a uniform through the material instance at `instance`: on its parent
    /// material, for all the instances of that parent, where the parent shares a
    /// uniform of that name; on the instance alone otherwise. Returns false, and
    /// changes nothing, where no material instance is registered there.
    pub fn set_instance_uniform(&mut self, instance: usize, uniform: Uniform<T>) -> (found: bool)
        requires
            old(self).wf(),
        ensures
            final(self).wf(),
            found == (instance < old(self).instances().len()),
            !found ==> *final(self) == *old(self),
            found ==> {
                let parent = ids_of(old(self).materials()).index_of(
                    old(self).instances()[instance as int].parent_id_view(),
                );
                let shared = old(self).materials()[parent].uniform_names().contains(uniform.name_view());
                &&& 0 <= parent < old(self).materials().len()
                &&& final(self).meshes() == old(self).meshes()
                &&& final(self).textures() == old(self).textures()
                &&& final(self).materials().len() == old(self).materials().len()
                &&& final(self).instances().len() == old(self).instances().len()
                &&& forall|i: int|
                    0 <= i < old(self).materials().len() && (i != parent || !shared)
                        ==> #[trigger] final(self).materials()[i] == old(self).materials()[i]
                &&& forall|i: int|
                    0 <= i < old(self).instances().len() && (i != instance || shared)
                        ==> #[trigger] final(self).instances()[i] == old(self).instances()[i]
                &&& shared ==> {
                    &&& final(self).materials()[parent].same_but_uniforms(&old(self).materials()[parent])
                    &&& final(self).materials()[parent].uniform_names() == old(self).materials()[parent].uniform_names()
                    &&& final(self).materials()[parent].uniforms() == old(self).materials()[parent].uniforms().update(
                        old(self).materials()[parent].uniform_names().index_of(uniform.name_view()),
                        uniform,
                    )
                }
                &&& !shared ==> {
                    let own_before = old(self).instances()[instance as int];
                    let own_after = final(self).instances()[instance as int];
                    &&& own_after.id_view() == own_before.id_view()
                    &&& own_after.parent_id_view() == own_before.parent_id_view()
                    &&& own_after.uniform_names() == crate::util::name_map::names_with(
                        own_before.uniform_names(),
                        uniform.name_view(),
                    )
                    &&& own_after.uniforms() == crate::util::name_map::values_with(
                        own_before.uniform_names(),
                        own_before.uniforms(),
                        uniform.name_view(),
                        uniform,
                    )
                }
            },
    {
        if instance >= self.material_instances.len() {
            return false;
        }
        let parent_id = self.material_instances[instance].get_parent_id();
        assert(self.has_material(self.instances()[instance as int].parent_id_view()));
        let parent = find_by_id(&self.materials, parent_id.as_str()).unwrap();
        let ghost materials_before = self.materials@;
        let ghost instances_before = self.material_instances@;
        let target = &mut self.materials[parent];
        let own = &mut self.material_instances[instance];
        own.set_uniform(target, uniform);
        proof {
            let material_after = self.materials@[parent as int];
            let instance_after = self.material_instances@[instance as int];
            assert(self.materials@ =~= materials_before.update(parent as int, material_after));
            assert(self.material_instances@ =~= instances_before.update(instance as int, instance_after));
            lemma_same_id_update(materials_before, parent as int, material_after);
            lemma_same_id_update(instances_before, instance as int, instance_after);
            assert forall|i: int| 0 <= i < self.materials@.len() implies (#[trigger] self.materials@[i]).sound() by {
                if i != parent {
                    assert(materials_before[i].sound());
                }
            }
            assert forall|i: int| 0 <= i < self.material_instances@.len() implies (
            #[trigger] self.material_instances@[i]).sound() by {
                if i != instance {
                    assert(instances_before[i].sound());
                }
            }
            assert forall|i: int| 0 <= i < self.instances().len() implies self.has_material(
                (#[trigger] self.instances()[i]).parent_id_view(),
            ) by {
                if i != instance {
                    assert(instances_before[i] == self.instances()[i]);
                }
                assert(old(self).has_material(instances_before[i].parent_id_view()));
            }
        }
        true
    }
}

} // verus!
