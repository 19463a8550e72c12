//! The renderer: it owns the asset registry and turns the sorted meshes of a
//! frame into the list of commands that draws them.
//!
//! The list is made so that the graphics context changes state as seldom as
//! possible: a material is put to use once per pass, mesh data is bound once
//! per group, and the uniforms of a material instance are uploaded only when
//! the instance changes from one mesh to the next. Whatever a mesh refers to
//! and the registry does not have is reported in the list and left out: the
//! frame goes on with the rest.

use vstd::prelude::*;
use crate::asset::asset_registry::AssetRegistry;
use crate::scene::transform::{SceneTree, TransformId};
use crate::system::rendering_system::{MaterialGroup, MeshDataGroup, SortedMeshes};

verus! {

/// Why a part of the frame was left out.
#[derive(Clone, Copy, Debug, PartialEq, Eq)]
pub enum RenderError {
    /// No material is registered at this index: its whole group is left out.
    MissingMaterial(usize),
    /// No mesh data is registered at this index: its whole group is left out.
    MissingMeshData(usize),
    /// No material instance is registered at this index: the mesh is left out.
    MissingMaterialInstance(usize),
    /// The transform is dead or its world matrix is stale: the mesh is left out.
    StaleTransform(TransformId),
}

/// One step of drawing a frame.
#[derive(Clone, Copy, Debug, PartialEq, Eq)]
pub enum RenderCommand {
    /// Clear the color and depth buffers, enable face culling and depth testing.
    BeginFrame,
    /// Put the program of the material to use and upload its shared uniforms,
    /// the camera matrices and the lights of the frame.
    UseMaterial { material: usize },
    /// Bind every buffer of the mesh data to its attribute in the material.
    BindMeshData { material: usize, mesh_data: usize },
    /// Upload the uniforms of the material instance.
    SetInstanceUniforms { instance: usize },
    /// Upload the world matrix of the transform and draw the vertices.
    Draw { material: usize, mesh_data: usize, transform: TransformId, vertex_count: i32 },
    /// Log the error; nothing is drawn for it.
    Report { error: RenderError },
}

/// Whether the world matrix of `transform` can be read.
pub open spec fn ready<V, M>(tree: &SceneTree<V, M>, transform: TransformId) -> bool {
    tree.alive(transform.index as int) && !tree.nodes()[transform.index as int].is_dirty()
}

/// The commands for one mesh. `previous` is the material instance whose
/// uniforms are uploaded at this point, if any.
pub open spec fn entry_plan<T, V, M>(
    registry: &AssetRegistry<T>,
    tree: &SceneTree<V, M>,
    material: usize,
    mesh_data: usize,
    previous: Option<usize>,
    entry: (usize, TransformId),
) -> Seq<RenderCommand> {
    if entry.0 >= registry.instances().len() {
        seq![RenderCommand::Report { error: RenderError::MissingMaterialInstance(entry.0) }]
    } else {
        (if previous != Some(entry.0) {
            seq![RenderCommand::SetInstanceUniforms { instance: entry.0 }]
        } else {
            Seq::empty()
        }) + (if ready(tree, entry.1) {
            seq![
                RenderCommand::Draw {
                    material,
                    mesh_data,
                    transform: entry.1,
                    vertex_count: registry.meshes()[mesh_data as int].vertex_count_view(),
                },
            ]
        } else {
            seq![RenderCommand::Report { error: RenderError::StaleTransform(entry.1) }]
        })
    }
}

/// The material instance whose uniforms are uploaded after the commands for
/// `entries`: the last one among them that is registered.
pub open spec fn instance_after<T>(registry: &AssetRegistry<T>, entries: Seq<(usize, TransformId)>) -> Option<usize>
    decreases entries.len(),
{
    if entries.len() == 0 {
        None
    } else if entries.last().0 < registry.instances().len() {
        Some(entries.last().0)
    } else {
        instance_after(registry, entries.drop_last())
    }
}

/// The commands for the meshes of one group, one mesh after the other.
pub open spec fn entries_plan<T, V, M>(
    registry: &AssetRegistry<T>,
    tree: &SceneTree<V, M>,
    material: usize,
    mesh_data: usize,
    entries: Seq<(usize, TransformId)>,
) -> Seq<RenderCommand>
    decreases entries.len(),
{
    if entries.len() == 0 {
        Seq::empty()
    } else {
        entries_plan(registry, tree, material, mesh_data, entries.drop_last()) + entry_plan(
            registry,
            tree,
            material,
            mesh_data,
            instance_after(registry, entries.drop_last()),
            entries.last(),
        )
    }
}

/// The commands for the meshes of one material and one mesh data.
pub open spec fn mesh_group_plan<T, V, M>(
    registry: &AssetRegistry<T>,
    tree: &SceneTree<V, M>,
    material: usize,
    group: MeshDataGroup,
) -> Seq<RenderCommand> {
    if group.mesh_data >= registry.meshes().len() {
        seq![RenderCommand::Report { error: RenderError::MissingMeshData(group.mesh_data) }]
    } else {
        seq![RenderCommand::BindMeshData { material, mesh_data: group.mesh_data }] + entries_plan(
            registry,
            tree,
            material,
            group.mesh_data,
            group.instances@,
        )
    }
}

/// The commands for the groups of one material, one group after the other.
pub open spec fn mesh_groups_plan<T, V, M>(
    registry: &AssetRegistry<T>,
    tree: &SceneTree<V, M>,
    material: usize,
    groups: Seq<MeshDataGroup>,
) -> Seq<RenderCommand>
    decreases groups.len(),
{
    if groups.len() == 0 {
        Seq::empty()
    } else {
        mesh_groups_plan(registry, tree, material, groups.drop_last()) + mesh_group_plan(
            registry,
            tree,
            material,
            groups.last(),
        )
    }
}

/// The commands for the meshes of one material in one pass. Opaque materials
/// are drawn in the first pass, transparent ones in the second; a material that
/// is not registered is reported in the first.
pub open spec fn material_group_plan<T, V, M>(
    registry: &AssetRegistry<T>,
    tree: &SceneTree<V, M>,
    transparent: bool,
    group: MaterialGroup,
) -> Seq<RenderCommand> {
    if group.material >= registry.materials().len() {
        if transparent {
            Seq::empty()
        } else {
            seq![RenderCommand::Report { error: RenderError::MissingMaterial(group.material) }]
        }
    } else if registry.materials()[group.material as int].transparent_view() != transparent {
        Seq::empty()
    } else {
        seq![RenderCommand::UseMaterial { material: group.material }] + mesh_groups_plan(
            registry,
            tree,
            group.material,
            group.meshes@,
        )
    }
}

/// The commands of one pass, one material after the other.
pub open spec fn pass_plan<T, V, M>(
    registry: &AssetRegistry<T>,
    tree: &SceneTree<V, M>,
    transparent: bool,
    groups: Seq<MaterialGroup>,
) -> Seq<RenderCommand>
    decreases groups.len(),
{
    if groups.len() == 0 {
        Seq::empty()
    } else {
        pass_plan(registry, tree, transparent, groups.drop_last()) + material_group_plan(
            registry,
            tree,
            transparent,
            groups.last(),
        )
    }
}

/// The commands of one frame: the opaque pass, then the transparent pass.
pub open spec fn frame_plan<T, V, M>(
    registry: &AssetRegistry<T>,
    tree: &SceneTree<V, M>,
    groups: Seq<MaterialGroup>,
) -> Seq<RenderCommand> {
    seq![RenderCommand::BeginFrame] + pass_plan(registry, tree, false, groups) + pass_plan(
        registry,
        tree,
        true,
        groups,
    )
}

/// The renderer of one scene.
pub struct Renderer<T> {
    asset_registry: AssetRegistry<T>,
    /// Width and height of the drawing surface, in pixels.
    size: (u32, u32),
}

impl<T> Renderer<T> {
    pub closed spec fn registry(&self) -> AssetRegistry<T> {
        self.asset_registry
    }

    pub closed spec fn size_view(&self) -> (u32, u32) {
        self.size
    }

    /// A renderer over the given assets, for a drawing surface of the given size.
    pub fn new(asset_registry: AssetRegistry<T>, width: u32, height: u32) -> (renderer: Renderer<T>)
        ensures
            renderer.registry() == asset_registry,
            renderer.size_view() == (width, height),
    {
        Renderer { asset_registry, size: (width, height) }
    }

    /// The assets of the renderer.
    pub fn get_asset_registry(&self) -> (registry: &AssetRegistry<T>)
        ensures
            *registry == self.registry(),
    {
        &self.asset_registry
    }

    /// The assets of the renderer, to register more or to look locations up.
    pub fn get_asset_registry_mut(&mut self) -> (registry: &mut AssetRegistry<T>)
        ensures
            *registry == old(self).registry(),
            final(self).registry() == *final(registry),
            final(self).size_view() == old(self).size_view(),
    {
        &mut self.asset_registry
    }

    /// Takes the size at which the drawing surface is displayed. Returns whether
    /// it differs from the size so far: the viewport and the aspect ratio of
    /// the camera are then to be set anew.
    pub fn resize_canvas(&mut self, display_width: u32, display_height: u32) -> (changed: bool)
        ensures
            changed == (old(self).size_view() != (display_width, display_height)),
            final(self).size_view() == (display_width, display_height),
            final(self).registry() == old(self).registry(),
    {
        let changed = self.size.0 != display_width || self.size.1 != display_height;
        self.size = (display_width, display_height);
        changed
    }

    /// Lists the commands that draw the sorted meshes of a frame.
    pub fn render_objects<V, M>(&self, sorted_meshes: &SortedMeshes, tree: &SceneTree<V, M>) -> (commands: Vec<
        RenderCommand,
    >)
        ensures
            commands@ == frame_plan(&self.registry(), tree, sorted_meshes@),
    {
        let mut commands: Vec<RenderCommand> = Vec::new();
        commands.push(RenderCommand::BeginFrame);
        self.render_pass(&mut commands, sorted_meshes, tree, false);
        self.render_pass(&mut commands, sorted_meshes, tree, true);
        commands
    }

    /// Adds the commands of one pass.
    fn render_pass<V, M>(
        &self,
        commands: &mut Vec<RenderCommand>,
        sorted_meshes: &SortedMeshes,
        tree: &SceneTree<V, M>,
        transparent: bool,
    )
        ensures
            final(commands)@ == old(commands)@ + pass_plan(&self.registry(), tree, transparent, sorted_meshes@),
    {
        let ghost start = commands@;
        let mut i: usize = 0;
        while i < sorted_meshes.len()
            invariant
                0 <= i <= sorted_meshes@.len(),
                commands@ == start + pass_plan(&self.registry(), tree, transparent, sorted_meshes@.take(i as int)),
            decreases sorted_meshes@.len() - i,
        {
            let ghost so_far = commands@;
            let group = &sorted_meshes[i];
            proof {
                let done = sorted_meshes@.take(i as int + 1);
                assert(done.drop_last() =~= sorted_meshes@.take(i as int));
                assert(done.last() == *group);
            }
            match self.asset_registry.get_material_with_index(group.material) {
                None => {
                    if !transparent {
                        commands.push(
                            RenderCommand::Report { error: RenderError::MissingMaterial(group.material) },
                        );
                    }
                },
                Some(material) => {
                    if material.is_transparent() == transparent {
                        commands.push(RenderCommand::UseMaterial { material: group.material });
                        self.render_mesh_groups(commands, group, tree);
                    }
                },
            }
            assert(commands@ =~= so_far + material_group_plan(&self.registry(), tree, transparent, *group));
            assert(commands@ =~= start + pass_plan(
                &self.registry(),
                tree,
                transparent,
                sorted_meshes@.take(i as int + 1),
            ));
            i += 1;
        }
        assert(sorted_meshes@.take(sorted_meshes@.len() as int) =~= sorted_meshes@);
    }

    /// Adds the commands for the groups of one material.
    fn render_mesh_groups<V, M>(&self, commands: &mut Vec<RenderCommand>, group: &MaterialGroup, tree: &SceneTree<V, M>)
        ensures
            final(commands)@ == old(commands)@ + mesh_groups_plan(
                &self.registry(),
                tree,
                group.material,
                group.meshes@,
            ),
    {
        let ghost start = commands@;
        let mut j: usize = 0;
        while j < group.meshes.len()
            invariant
                0 <= j <= group.meshes@.len(),
                commands@ == start + mesh_groups_plan(
                    &self.registry(),
                    tree,
                    group.material,
                    group.meshes@.take(j as int),
                ),
            decreases group.meshes@.len() - j,
        {
            let ghost so_far = commands@;
            let meshes = &group.meshes[j];
            proof {
                let done = group.meshes@.take(j as int + 1);
                assert(done.drop_last() =~= group.meshes@.take(j as int));
                assert(done.last() == *meshes);
            }
            match self.asset_registry.get_mesh_data_with_index(meshes.mesh_data) {
                None => {
                    commands.push(RenderCommand::Report { error: RenderError::MissingMeshData(meshes.mesh_data) });
                },
                Some(mesh_data) => {
                    commands.push(
                        RenderCommand::BindMeshData { material: group.material, mesh_data: meshes.mesh_data },
                    );
                    self.render_entries(commands, group.material, meshes, mesh_data.get_vertex_count(), tree);
                },
            }
            assert(commands@ =~= so_far + mesh_group_plan(&self.registry(), tree, group.material, *meshes));
            assert(commands@ =~= start + mesh_groups_plan(
                &self.registry(),
                tree,
                group.material,
                group.meshes@.take(j as int + 1),
            ));
            j += 1;
        }
        assert(group.meshes@.take(group.meshes@.len() as int) =~= group.meshes@);
    }

    /// Adds the commands for the meshes of one group.
    fn render_entries<V, M>(
        &self,
        commands: &mut Vec<RenderCommand>,
        material: usize,
        group: &MeshDataGroup,
        vertex_count: i32,
        tree: &SceneTree<V, M>,
    )
        requires
            group.mesh_data < self.registry().meshes().len(),
            vertex_count == self.registry().meshes()[group.mesh_data as int].vertex_count_view(),
        ensures
            final(commands)@ == old(commands)@ + entries_plan(
                &self.registry(),
                tree,
                material,
                group.mesh_data,
                group.instances@,
            ),
    {
        let ghost start = commands@;
        let mut previous: Option<usize> = None;
        let mut k: usize = 0;
        while k < group.instances.len()
            invariant
                0 <= k <= group.instances@.len(),
                group.mesh_data < self.registry().meshes().len(),
                vertex_count == self.registry().meshes()[group.mesh_data as int].vertex_count_view(),
                previous == instance_after(&self.registry(), group.instances@.take(k as int)),
                commands@ == start + entries_plan(
                    &self.registry(),
                    tree,
                    material,
                    group.mesh_data,
                    group.instances@.take(k as int),
                ),
            decreases group.instances@.len() - k,
        {
            let ghost so_far = commands@;
            let (instance, transform) = group.instances[k];
            proof {
                let done = group.instances@.take(k as int + 1);
                assert(done.drop_last() =~= group.instances@.take(k as int));
                assert(done.last() == (instance, transform));
            }
            match self.asset_registry.get_material_instance_with_index(instance) {
                None => {
                    commands.push(
                        RenderCommand::Report { error: RenderError::MissingMaterialInstance(instance) },
                    );
                },
                Some(_) => {
                    let changed = match previous {
                        Some(p) => p != instance,
                        None => true,
                    };
                    if changed {
                        commands.push(RenderCommand::SetInstanceUniforms { instance });
                    }
                    previous = Some(instance);
                    match tree.get_world_matrix(transform) {
                        Ok(_) => {
                            commands.push(
                                RenderCommand::Draw { material, mesh_data: group.mesh_data, transform, vertex_count },
                            );
                        },
                        Err(_) => {
                            commands.push(RenderCommand::Report { error: RenderError::StaleTransform(transform) });
                        },
                    }
                },
            }
            assert(commands@ =~= so_far + entry_plan(
                &self.registry(),
                tree,
                material,
                group.mesh_data,
                instance_after(&self.registry(), group.instances@.take(k as int)),
                (instance, transform),
            ));
            assert(commands@ =~= start + entries_plan(
                &self.registry(),
                tree,
                material,
                group.mesh_data,
                group.instances@.take(k as int + 1),
            ));
            k += 1;
        }
        assert(group.instances@.take(group.instances@.len() as int) =~= group.instances@);
    }
}

} // verus!
