//! The scene: a tree of transforms, the meshes attached to them, and the
//! passes that turn both into the commands of a frame.

pub mod component;
pub mod transform;

use vstd::prelude::*;
use crate::component::light::{Cone, Direction, Light};
use crate::component::mesh::Mesh;
use crate::renderer::light_repository::{LightConfiguration, LightRepository};
use crate::renderer::renderer::{frame_plan, RenderCommand, Renderer};
use crate::scene::transform::{SceneTree, TransformId};
use crate::system::lighting_system::{directional_of, point_of, spot_of, LightSource, LightingSystem};
use crate::system::rendering_system::{sorted, MaterialGroup, Renderable, RenderingSystem};
use crate::system::scene_graph_system::SceneGraphSystem;

verus! {

/// The kinds of asset files a scene takes in.
#[derive(Clone, Copy, Debug, PartialEq, Eq)]
pub enum FileType {
    WMesh,
    WMaterial,
    WMatInstance,
}

impl FileType {
    /// The number that stands for the kind of file towards the host.
    pub open spec fn code_of(self) -> u32 {
        match self {
            FileType::WMesh => 1,
            FileType::WMaterial => 2,
            FileType::WMatInstance => 3,
        }
    }

    /// The number that stands for the kind of file towards the host.
    pub fn code(&self) -> (code: u32)
        ensures
            code == self.code_of(),
    {
        match self {
            FileType::WMesh => 1,
            FileType::WMaterial => 2,
            FileType::WMatInstance => 3,
        }
    }

    /// The kind of file that a number stands for, if any.
    pub fn from_code(code: u32) -> (file_type: Option<FileType>)
        ensures
            file_type.is_some() == (1 <= code <= 3),
            file_type.is_some() ==> file_type.unwrap().code_of() == code,
    {
        if code == 1 {
            Some(FileType::WMesh)
        } else if code == 2 {
            Some(FileType::WMaterial)
        } else if code == 3 {
            Some(FileType::WMatInstance)
        } else {
            None
        }
    }
}

/// A mesh of the scene: the mesh component, the transform that places it, and
/// whether it is to be updated and rendered.
#[derive(Clone, Copy, Debug, PartialEq, Eq)]
pub struct SceneMesh {
    pub mesh: Mesh,
    pub transform: TransformId,
    pub enabled: bool,
}

/// An enabled light of the scene: the light, what makes it a light of its kind,
/// and the transform that places it, if it has one.
pub struct SceneLight<V, T> {
    pub light: Light<V, T>,
    pub direction: Option<Direction<V>>,
    pub cone: Option<Cone<T>>,
    pub transform: Option<TransformId>,
}

/// Whether `source` is `light` as the lighting pass takes it: the same light,
/// direction and cone, and for a position in the world a result of `position_of`
/// on the world matrix of its transform. A light without a transform has no
/// position, and neither has one whose transform is dead or stale.
pub open spec fn placed<V, M, T, FP: Fn(&M) -> V>(
    tree: &SceneTree<V, M>,
    position_of: &FP,
    light: SceneLight<V, T>,
    source: LightSource<V, T>,
) -> bool {
    &&& source.light == light.light
    &&& source.direction == light.direction
    &&& source.cone == light.cone
    &&& match light.transform {
        Some(transform) => if crate::renderer::renderer::ready(tree, transform) {
            source.world_position.is_some() && position_of.ensures(
                (&tree.nodes()[transform.index as int].matrix_view(),),
                source.world_position.unwrap(),
            )
        } else {
            source.world_position.is_none()
        },
        None => source.world_position.is_none(),
    }
}

/// Whether `sources` are `lights` as the lighting pass takes them, one for one.
pub open spec fn all_placed<V, M, T, FP: Fn(&M) -> V>(
    tree: &SceneTree<V, M>,
    position_of: &FP,
    lights: Seq<SceneLight<V, T>>,
    sources: Seq<LightSource<V, T>>,
) -> bool {
    &&& sources.len() == lights.len()
    &&& forall|i: int| 0 <= i < lights.len() ==> placed(tree, position_of, lights[i], #[trigger] sources[i])
}

/// The enabled meshes among `meshes`, in their order, as the rendering pass takes them.
pub open spec fn enabled_of(meshes: Seq<SceneMesh>) -> Seq<Renderable>
    decreases meshes.len(),
{
    if meshes.len() == 0 {
        Seq::empty()
    } else if meshes.last().enabled {
        enabled_of(meshes.drop_last()).push(
            Renderable { mesh: meshes.last().mesh, transform: meshes.last().transform },
        )
    } else {
        enabled_of(meshes.drop_last())
    }
}

/// A scene: the tree of its transforms, its meshes, the lights of the current
/// frame and, once it is initialized, its renderer.
pub struct Scene<V, M, T> {
    tree: SceneTree<V, M>,
    meshes: Vec<SceneMesh>,
    /// The rendering pass with the renderer; none before the scene is initialized.
    rendering_system: Option<RenderingSystem<T>>,
    scene_graph_system: SceneGraphSystem,
    lighting_system: LightingSystem,
    light_repository: LightRepository<V, T>,
    light_configuration: LightConfiguration,
}

impl<V, M, T> Scene<V, M, T> {
    pub closed spec fn tree(&self) -> SceneTree<V, M> {
        self.tree
    }

    pub closed spec fn meshes(&self) -> Seq<SceneMesh> {
        self.meshes@
    }

    pub closed spec fn renderer(&self) -> Option<Renderer<T>> {
        match self.rendering_system {
            Some(system) => Some(system.renderer_view()),
            None => None,
        }
    }

    pub closed spec fn lights(&self) -> LightRepository<V, T> {
        self.light_repository
    }

    pub closed spec fn light_configuration(&self) -> LightConfiguration {
        self.light_configuration
    }

    /// The invariant of the scene: its tree and, if it has one, the registry of its renderer are well formed.
    pub open spec fn wf(&self) -> bool {
        &&& self.tree().wf()
        &&& self.renderer().is_some() ==> self.renderer().unwrap().registry().wf()
    }

    /// Constructor. Initializes a new `Scene` without transforms, meshes, lights or renderer.
    pub fn new() -> (scene: Scene<V, M, T>)
        ensures
            scene.wf(),
            scene.tree().nodes().len() == 0,
            scene.meshes().len() == 0,
            scene.renderer().is_none(),
            scene.lights().ambiant.is_none(),
            scene.lights().directional@.len() == 0,
            scene.lights().point@.len() == 0,
            scene.lights().spot@.len() == 0,
    {
        Scene {
            tree: SceneTree::new(),
            meshes: Vec::new(),
            rendering_system: None,
            scene_graph_system: SceneGraphSystem::new(),
            lighting_system: LightingSystem,
            light_repository: LightRepository::new(),
            light_configuration: LightConfiguration { directional: 0, point: 0, spot: 0 },
        }
    }

    /// Initializes the renderer for this scene. A scene that has a renderer keeps
    /// it: the second renderer is given back.
    pub fn initialize(&mut self, renderer: Renderer<T>) -> (refused: Option<Renderer<T>>)
        requires
            old(self).wf(),
            renderer.registry().wf(),
        ensures
            final(self).wf(),
            final(self).tree() == old(self).tree(),
            final(self).meshes() == old(self).meshes(),
            final(self).lights() == old(self).lights(),
            final(self).light_configuration() == old(self).light_configuration(),
            old(self).renderer().is_some() ==> refused == Some(renderer) && final(self).renderer() == old(
                self,
            ).renderer(),
            old(self).renderer().is_none() ==> refused.is_none() && final(self).renderer() == Some(renderer),
    {
        if self.rendering_system.is_some() {
            return Some(renderer);
        }
        self.rendering_system = Some(RenderingSystem::new(renderer));
        None
    }

    /// Whether the scene has a renderer.
    pub fn is_initialized(&self) -> (initialized: bool)
        ensures
            initialized == self.renderer().is_some(),
    {
        self.rendering_system.is_some()
    }

    /// The tree of the transforms of the scene.
    pub fn get_tree(&self) -> (tree: &SceneTree<V, M>)
        ensures
            *tree == self.tree(),
    {
        &self.tree
    }

    /// The renderer of the scene, once it is initialized.
    pub fn get_renderer(&self) -> (renderer: Option<&Renderer<T>>)
        ensures
            renderer.is_some() == self.renderer().is_some(),
            renderer.is_some() ==> *renderer.unwrap() == self.renderer().unwrap(),
    {
        match &self.rendering_system {
            Some(system) => Some(system.get_renderer()),
            None => None,
        }
    }

    /// The renderer of the scene, to register assets with, once it is initialized.
    pub fn get_renderer_mut(&mut self) -> (renderer: Option<&mut Renderer<T>>)
        ensures
            renderer.is_some() == old(self).renderer().is_some(),
            renderer.is_some() ==> {
                &&& *renderer.unwrap() == old(self).renderer().unwrap()
                &&& final(self).renderer() == Some(*final(renderer.unwrap()))
            },
            renderer.is_none() ==> final(self).renderer().is_none(),
            final(self).tree() == old(self).tree(),
            final(self).meshes() == old(self).meshes(),
            final(self).lights() == old(self).lights(),
            final(self).light_configuration() == old(self).light_configuration(),
    {
        match &mut self.rendering_system {
            Some(system) => Some(system.get_renderer_mut()),
            None => None,
        }
    }

    /// The lights of the last frame.
    pub fn get_light_repository(&self) -> (repository: &LightRepository<V, T>)
        ensures
            *repository == self.lights(),
    {
        &self.light_repository
    }

    /// The meshes of the scene.
    pub fn get_meshes(&self) -> (meshes: &Vec<SceneMesh>)
        ensures
            meshes@ == self.meshes(),
    {
        &self.meshes
    }

    /// Creates an entity with a mesh, a transform of its own at the root of the
    /// scene, and the enabled flag, and returns the id of its transform. The mesh
    /// data and the material instance are found by the ids they are registered
    /// under; the attribute locations of the mesh data are looked up in the
    /// parent material of the instance. `translation`, `rotation` and `scale`
    /// are the local values of the new transform, and `matrix` the value of its
    /// world matrix for as long as it is dirty and not to be read.
    ///
    /// Nothing is created, and nothing changes, where the scene has no renderer or
    /// one of the two ids is not registered.
    pub fn create_mesh_entity<FA: Fn(u32, &str) -> i32>(
        &mut self,
        mesh_data_id: &str,
        material_instance_id: &str,
        translation: V,
        rotation: V,
        scale: V,
        matrix: M,
        attribute_query: &FA,
    ) -> (entity: Option<TransformId>)
        requires
            old(self).wf(),
            forall|program: u32, name: &str| #[trigger] attribute_query.requires((program, name)),
        ensures
            final(self).wf(),
            final(self).lights() == old(self).lights(),
            final(self).light_configuration() == old(self).light_configuration(),
            final(self).renderer().is_some() == old(self).renderer().is_some(),
            entity.is_some() == old(self).can_create(mesh_data_id@, material_instance_id@),
            entity.is_none() ==> *final(self) == *old(self),
            entity.is_some() ==> {
                let registry = old(self).renderer().unwrap().registry();
                let after = final(self).renderer().unwrap().registry();
                let mesh_data = crate::asset::asset_registry::ids_of(registry.meshes()).index_of(mesh_data_id@);
                let instance = crate::asset::asset_registry::ids_of(registry.instances()).index_of(
                    material_instance_id@,
                );
                let material = crate::asset::asset_registry::ids_of(registry.materials()).index_of(
                    registry.instances()[instance].parent_id_view(),
                );
                &&& final(self).tree().appended(&old(self).tree(), None, entity.unwrap())
                &&& final(self).tree().nodes()[entity.unwrap().index as int].translation_view() == translation
                &&& final(self).tree().nodes()[entity.unwrap().index as int].rotation_view() == rotation
                &&& final(self).tree().nodes()[entity.unwrap().index as int].scale_view() == scale
                &&& final(self).meshes() == old(self).meshes().push(
                    SceneMesh {
                        mesh: Mesh {
                            material: material as usize,
                            material_instance: instance as usize,
                            mesh_data: mesh_data as usize,
                        },
                        transform: entity.unwrap(),
                        enabled: true,
                    },
                )
                &&& after.mesh_data_located(&registry, mesh_data, material, attribute_query)
                &&& final(self).renderer().unwrap().size_view() == old(self).renderer().unwrap().size_view()
            },
    {
        let found = match &self.rendering_system {
            None => None,
            Some(system) => {
                let registry = system.get_renderer().get_asset_registry();
                match (registry.mesh_data_index(mesh_data_id), registry.material_instance_index(material_instance_id)) {
                    (Some(mesh_data), Some(instance)) => {
                        let parent_id = registry.get_material_instance_with_index(instance).unwrap().get_parent_id();
                        assert(registry.has_material(registry.instances()[instance as int].parent_id_view()));
                        let material = registry.material_index(parent_id.as_str()).unwrap();
                        Some((mesh_data, instance, material))
                    },
                    _ => None,
                }
            },
        };
        match found {
            None => None,
            Some((mesh_data, instance, material)) => {
                match &mut self.rendering_system {
                    Some(system) => {
                        let registry = system.get_renderer_mut().get_asset_registry_mut();
                        registry.lookup_mesh_data_locations(mesh_data, material, attribute_query);
                    },
                    None => {},
                }
                let entity = self.tree.append_new(None, translation, rotation, scale, matrix);
                self.meshes.push(
                    SceneMesh {
                        mesh: Mesh::new(mesh_data, instance, material),
                        transform: entity.unwrap(),
                        enabled: true,
                    },
                );
                entity
            },
        }
    }

    /// Whether a mesh entity can be created: the scene has a renderer, and mesh
    /// data and a material instance are registered under the two ids.
    pub open spec fn can_create(&self, mesh_data_id: Seq<char>, material_instance_id: Seq<char>) -> bool {
        &&& self.renderer().is_some()
        &&& self.renderer().unwrap().registry().has_mesh_data(mesh_data_id)
        &&& self.renderer().unwrap().registry().has_instance(material_instance_id)
    }

    /// Whether two scenes differ in nothing but their trees.
    pub open spec fn same_but_tree(&self, other: &Scene<V, M, T>) -> bool {
        &&& self.meshes() == other.meshes()
        &&& self.renderer() == other.renderer()
        &&& self.lights() == other.lights()
        &&& self.light_configuration() == other.light_configuration()
    }

    /// Sets the local translation of the transform of an entity.
    /// Returns false, and changes nothing, where the entity has no living transform.
    pub fn set_transform_translation(&mut self, entity: TransformId, new_translation: V) -> (found: bool)
        requires
            old(self).wf(),
        ensures
            final(self).wf(),
            final(self).same_but_tree(old(self)),
            found == old(self).tree().alive(entity.index as int),
            !found ==> final(self).tree() == old(self).tree(),
            found ==> {
                &&& final(self).tree().touched(&old(self).tree(), entity.index as int)
                &&& final(self).tree().nodes()[entity.index as int].translation_view() == new_translation
                &&& final(self).tree().nodes()[entity.index as int].rotation_view() == old(
                    self,
                ).tree().nodes()[entity.index as int].rotation_view()
                &&& final(self).tree().nodes()[entity.index as int].scale_view() == old(
                    self,
                ).tree().nodes()[entity.index as int].scale_view()
            },
    {
        self.tree.set_translation(entity, new_translation)
    }

    /// Sets the local rotation of the transform of an entity.
    /// Returns false, and changes nothing, where the entity has no living transform.
    pub fn set_transform_rotation(&mut self, entity: TransformId, new_rotation: V) -> (found: bool)
        requires
            old(self).wf(),
        ensures
            final(self).wf(),
            final(self).same_but_tree(old(self)),
            found == old(self).tree().alive(entity.index as int),
            !found ==> final(self).tree() == old(self).tree(),
            found ==> {
                &&& final(self).tree().touched(&old(self).tree(), entity.index as int)
                &&& final(self).tree().nodes()[entity.index as int].rotation_view() == new_rotation
                &&& final(self).tree().nodes()[entity.index as int].translation_view() == old(
                    self,
                ).tree().nodes()[entity.index as int].translation_view()
                &&& final(self).tree().nodes()[entity.index as int].scale_view() == old(
                    self,
                ).tree().nodes()[entity.index as int].scale_view()
            },
    {
        self.tree.set_rotation(entity, new_rotation)
    }

    /// Sets the local scale of the transform of an entity.
    /// Returns false, and changes nothing, where the entity has no living transform.
    pub fn set_transform_scale(&mut self, entity: TransformId, new_scale: V) -> (found: bool)
        requires
            old(self).wf(),
        ensures
            final(self).wf(),
            final(self).same_but_tree(old(self)),
            found == old(self).tree().alive(entity.index as int),
            !found ==> final(self).tree() == old(self).tree(),
            found ==> {
                &&& final(self).tree().touched(&old(self).tree(), entity.index as int)
                &&& final(self).tree().nodes()[entity.index as int].scale_view() == new_scale
                &&& final(self).tree().nodes()[entity.index as int].translation_view() == old(
                    self,
                ).tree().nodes()[entity.index as int].translation_view()
                &&& final(self).tree().nodes()[entity.index as int].rotation_view() == old(
                    self,
                ).tree().nodes()[entity.index as int].rotation_view()
            },
    {
        self.tree.set_scale(entity, new_scale)
    }

    /// Sets the three local values of the transform of an entity at once.
    /// Returns false, and changes nothing, where the entity has no living transform.
    pub fn set_transform(
        &mut self,
        entity: TransformId,
        new_translation: V,
        new_rotation: V,
        new_scale: V,
    ) -> (found: bool)
        requires
            old(self).wf(),
        ensures
            final(self).wf(),
            final(self).same_but_tree(old(self)),
            found == old(self).tree().alive(entity.index as int),
            !found ==> final(self).tree() == old(self).tree(),
            found ==> {
                &&& final(self).tree().touched(&old(self).tree(), entity.index as int)
                &&& final(self).tree().nodes()[entity.index as int].translation_view() == new_translation
                &&& final(self).tree().nodes()[entity.index as int].rotation_view() == new_rotation
                &&& final(self).tree().nodes()[entity.index as int].scale_view() == new_scale
            },
    {
        if !self.tree.set_translation(entity, new_translation) {
            return false;
        }
        self.tree.set_rotation(entity, new_rotation);
        self.tree.set_scale(entity, new_scale);
        proof {
            let n = entity.index as int;
            assert forall|i: int| 0 <= i < old(self).tree().nodes().len() && i != n implies #[trigger] self.tree().nodes()[i]
                == old(self).tree().nodes()[i] by {}
        }
        true
    }

    /// Puts the transform of an entity under that of another, as its last child.
    /// Returns false, and changes nothing, where one of the two has no living
    /// transform, or where the parent is the entity itself or lies below it.
    pub fn set_parent(&mut self, entity: TransformId, parent: TransformId) -> (found: bool)
        requires
            old(self).wf(),
        ensures
            final(self).wf(),
            final(self).same_but_tree(old(self)),
            found == old(self).tree().can_reparent(entity, Some(parent)),
            !found ==> final(self).tree() == old(self).tree(),
            found ==> final(self).tree().reparented(&old(self).tree(), entity, Some(parent)),
    {
        self.tree.set_parent(entity, Some(parent))
    }

    /// Enables or disables a mesh of the scene. Returns false where the scene has no such mesh.
    pub fn set_mesh_enabled(&mut self, index: usize, enabled: bool) -> (found: bool)
        requires
            old(self).wf(),
        ensures
            final(self).wf(),
            final(self).tree() == old(self).tree(),
            final(self).renderer() == old(self).renderer(),
            final(self).lights() == old(self).lights(),
            final(self).light_configuration() == old(self).light_configuration(),
            found == (index < old(self).meshes().len()),
            !found ==> final(self).meshes() == old(self).meshes(),
            found ==> final(self).meshes() == old(self).meshes().update(
                index as int,
                SceneMesh {
                    mesh: old(self).meshes()[index as int].mesh,
                    transform: old(self).meshes()[index as int].transform,
                    enabled,
                },
            ),
    {
        if index >= self.meshes.len() {
            return false;
        }
        self.meshes[index].enabled = enabled;
        assert(self.meshes@ =~= old(self).meshes().update(
            index as int,
            SceneMesh {
                mesh: old(self).meshes()[index as int].mesh,
                transform: old(self).meshes()[index as int].transform,
                enabled,
            },
        ));
        true
    }

    /// The enabled meshes of the scene, in their order.
    fn enabled_meshes(&self) -> (renderables: Vec<Renderable>)
        ensures
            renderables@ == enabled_of(self.meshes()),
    {
        let mut renderables: Vec<Renderable> = Vec::new();
        let mut i: usize = 0;
        while i < self.meshes.len()
            invariant
                0 <= i <= self.meshes@.len(),
                renderables@ == enabled_of(self.meshes@.take(i as int)),
            decreases self.meshes@.len() - i,
        {
            proof {
                let done = self.meshes@.take(i as int + 1);
                assert(done.drop_last() =~= self.meshes@.take(i as int));
                assert(done.last() == self.meshes@[i as int]);
            }
            if self.meshes[i].enabled {
                renderables.push(Renderable { mesh: self.meshes[i].mesh, transform: self.meshes[i].transform });
            }
            i += 1;
        }
        assert(self.meshes@.take(self.meshes@.len() as int) =~= self.meshes@);
        renderables
    }

    /// Finds the position in the world of each light that has a transform.
    fn place_lights<FP: Fn(&M) -> V>(&self, lights: Vec<SceneLight<V, T>>, position_of: &FP) -> (sources: Vec<
        LightSource<V, T>,
    >)
        requires
            forall|matrix: &M| #[trigger] position_of.requires((matrix,)),
        ensures
            all_placed(&self.tree(), position_of, lights@, sources@),
    {
        let mut sources: Vec<LightSource<V, T>> = Vec::new();
        let ghost all = lights@;
        for light in it: lights
            invariant
                it.seq() == all,
                forall|matrix: &M| #[trigger] position_of.requires((matrix,)),
                sources@.len() == it.index(),
                forall|i: int|
                    0 <= i < it.index() ==> placed(&self.tree(), position_of, all[i], #[trigger] sources@[i]),
        {
            let ghost before = sources@;
            let SceneLight { light: carried, direction, cone, transform } = light;
            let world_position = match transform {
                Some(id) => match self.tree.get_world_matrix(id) {
                    Ok(matrix) => Some(position_of(matrix)),
                    Err(_) => None,
                },
                None => None,
            };
            sources.push(LightSource { light: carried, direction, cone, world_position });
            proof {
                assert forall|i: int| 0 <= i < it.index() + 1 implies placed(
                    &self.tree(),
                    position_of,
                    all[i],
                    #[trigger] sources@[i],
                ) by {
                    if i < it.index() {
                        assert(sources@[i] == before[i]);
                    }
                }
            }
        }
        sources
    }

    /// What a frame leaves behind and hands out: the tree is refreshed, the lights
    /// are those of this frame, placed where the refreshed tree puts them, and the
    /// commands draw the enabled meshes, grouped, on the refreshed tree.
    pub open spec fn updated<
        FC: Fn(Option<&M>, &V, &V, &V) -> M,
        FP: Fn(&M) -> V,
        FM: Fn(Light<V, T>, &Light<V, T>) -> Light<V, T>,
    >(
        &self,
        before: &Scene<V, M, T>,
        lights: Seq<SceneLight<V, T>>,
        compose: &FC,
        position_of: &FP,
        darkness: Light<V, T>,
        merge: &FM,
        commands: Seq<RenderCommand>,
    ) -> bool {
        &&& self.meshes() == before.meshes()
        &&& self.renderer() == before.renderer()
        &&& self.tree().refreshed(&before.tree(), compose)
        &&& exists|sources: Seq<LightSource<V, T>>|
            {
                &&& #[trigger] all_placed(&self.tree(), position_of, lights, sources)
                &&& LightingSystem::gathered(&self.lights(), sources, darkness, merge)
                &&& self.light_configuration().directional == directional_of(sources).len()
                &&& self.light_configuration().point == point_of(sources).len()
                &&& self.light_configuration().spot == spot_of(sources).len()
            }
        &&& exists|groups: Seq<MaterialGroup>| #[trigger]
            sorted(groups, enabled_of(before.meshes())) && commands == frame_plan(
                &before.renderer().unwrap().registry(),
                &self.tree(),
                groups,
            )
    }

    /// Function to be called each frame. The passes run in a fixed order: the
    /// graph pass brings the world matrices up to date, the lighting pass gathers
    /// the lights of the frame, placed by the fresh world matrices, and the
    /// rendering pass lists the commands that draw the enabled meshes. A scene
    /// without a renderer does nothing and hands out no commands.
    pub fn update<
        FC: Fn(Option<&M>, &V, &V, &V) -> M,
        FP: Fn(&M) -> V,
        FM: Fn(Light<V, T>, &Light<V, T>) -> Light<V, T>,
    >(
        &mut self,
        lights: Vec<SceneLight<V, T>>,
        compose: &FC,
        position_of: &FP,
        darkness: Light<V, T>,
        merge: &FM,
    ) -> (commands: Option<Vec<RenderCommand>>)
        requires
            old(self).wf(),
            forall|pw: Option<&M>, t: &V, r: &V, s: &V| #[trigger] compose.requires((pw, t, r, s)),
            forall|matrix: &M| #[trigger] position_of.requires((matrix,)),
            forall|so_far: Light<V, T>, light: &Light<V, T>| #[trigger] merge.requires((so_far, light)),
        ensures
            final(self).wf(),
            commands.is_some() == old(self).renderer().is_some(),
            commands.is_none() ==> *final(self) == *old(self),
            commands.is_some() ==> final(self).updated(
                old(self),
                lights@,
                compose,
                position_of,
                darkness,
                merge,
                commands.unwrap()@,
            ),
    {
        if self.rendering_system.is_none() {
            return None;
        }
        self.scene_graph_system.run(&mut self.tree, compose);
        let sources = self.place_lights(lights, position_of);
        let ghost placed_sources = sources@;
        self.lighting_system.run(
            sources,
            &mut self.light_repository,
            &mut self.light_configuration,
            darkness,
            merge,
        );
        let renderables = self.enabled_meshes();
        let commands = match &mut self.rendering_system {
            Some(system) => system.run(&renderables, &self.tree),
            None => Vec::new(),
        };
        assert(all_placed(&self.tree(), position_of, lights@, placed_sources));
        Some(commands)
    }
}

} // verus!
