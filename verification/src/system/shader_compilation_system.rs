//! The pass that prepares the materials of the meshes of a scene for drawing.

use vstd::prelude::*;
use vstd::string::*;
use crate::component::mesh::{Mesh, MATERIAL_INSTANCE_NOT_FOUND, MATERIAL_NOT_FOUND};
use crate::util::regexp::texts;
use crate::asset::asset_registry::AssetRegistry;
use crate::renderer::light_repository::LightConfiguration;
use crate::renderer::renderer::Renderer;

verus! {

/// The pass that looks up, for every mesh, the locations that drawing it takes.
pub struct ShaderCompilationSystem<T> {
    renderer: Renderer<T>,
}

impl<T> ShaderCompilationSystem<T> {
    pub closed spec fn renderer_view(&self) -> Renderer<T> {
        self.renderer
    }

    pub fn new(renderer: Renderer<T>) -> (system: ShaderCompilationSystem<T>)
        ensures
            system.renderer_view() == renderer,
    {
        ShaderCompilationSystem { renderer }
    }

    /// Gives the renderer back.
    pub fn into_renderer(self) -> (renderer: Renderer<T>)
        ensures
            renderer == self.renderer_view(),
    {
        self.renderer
    }

    /// Runs the pass over the meshes of the scene and returns what is to be
    /// logged: one message for each mesh that could not be prepared, in the order
    /// of the meshes. A mesh that cannot be prepared does not stop the others.
    pub fn run<FU: Fn(u32, &str) -> Option<u32>, FA: Fn(u32, &str) -> i32>(
        &mut self,
        meshes: &Vec<Mesh>,
        light_config: &LightConfiguration,
        uniform_query: &FU,
        attribute_query: &FA,
    ) -> (log: Vec<String>)
        requires
            old(self).renderer_view().registry().wf(),
            forall|program: u32, name: &str| #[trigger] uniform_query.requires((program, name)),
            forall|program: u32, name: &str| #[trigger] attribute_query.requires((program, name)),
        ensures
            final(self).renderer_view().registry().wf(),
            final(self).renderer_view().size_view() == old(self).renderer_view().size_view(),
            final(self).renderer_view().registry().materials().len() == old(self).renderer_view().registry().materials().len(),
            final(self).renderer_view().registry().meshes().len() == old(self).renderer_view().registry().meshes().len(),
            final(self).renderer_view().registry().instances().len() == old(
                self,
            ).renderer_view().registry().instances().len(),
            texts(log@) == complaints(
                meshes@,
                old(self).renderer_view().registry().materials().len(),
                old(self).renderer_view().registry().instances().len(),
            ),
            all_prepared(
                meshes@,
                old(self).renderer_view().registry(),
                final(self).renderer_view().registry(),
                uniform_query,
                attribute_query,
                *light_config,
            ),
    {
        let ghost materials = self.renderer_view().registry().materials().len();
        let ghost instances = self.renderer_view().registry().instances().len();
        let mut log: Vec<String> = Vec::new();
        let registry = self.renderer.get_asset_registry_mut();
        let mut i: usize = 0;
        while i < meshes.len()
            invariant
                0 <= i <= meshes@.len(),
                registry.wf(),
                registry.materials().len() == materials,
                registry.instances().len() == instances,
                registry.meshes().len() == old(self).renderer_view().registry().meshes().len(),
                forall|program: u32, name: &str| #[trigger] uniform_query.requires((program, name)),
                forall|program: u32, name: &str| #[trigger] attribute_query.requires((program, name)),
                texts(log@) == complaints(meshes@.take(i as int), materials, instances),
                all_prepared(
                    meshes@.take(i as int),
                    old(self).renderer_view().registry(),
                    *registry,
                    uniform_query,
                    attribute_query,
                    *light_config,
                ),
            decreases meshes@.len() - i,
        {
            proof {
                let done = meshes@.take(i as int + 1);
                assert(done.drop_last() =~= meshes@.take(i as int));
                assert(done.last() == meshes@[i as int]);
            }
            let ghost so_far = texts(log@);
            let ghost middle = *registry;
            match meshes[i].compile_material(registry, uniform_query, attribute_query, light_config) {
                Err(message) => {
                    log.push(message);
                    assert(texts(log@) =~= so_far.push(message@));
                },
                Ok(_) => {
                    assert(texts(log@) =~= so_far);
                },
            }
            assert(meshes@[i as int].prepared(&middle, registry, uniform_query, attribute_query, *light_config));
            i += 1;
        }
        assert(meshes@.take(meshes@.len() as int) =~= meshes@);
        log
    }
}

/// Whether `after` is `before` once every mesh of a list was prepared, from the
/// first to the last.
pub open spec fn all_prepared<T, FU: Fn(u32, &str) -> Option<u32>, FA: Fn(u32, &str) -> i32>(
    meshes: Seq<Mesh>,
    before: AssetRegistry<T>,
    after: AssetRegistry<T>,
    uniform_query: &FU,
    attribute_query: &FA,
    lights: LightConfiguration,
) -> bool
    decreases meshes.len(),
{
    if meshes.len() == 0 {
        after == before
    } else {
        exists|middle: AssetRegistry<T>|
            {
                &&& all_prepared(meshes.drop_last(), before, middle, uniform_query, attribute_query, lights)
                &&& #[trigger] meshes.last().prepared(&middle, &after, uniform_query, attribute_query, lights)
            }
    }
}

/// What is logged for a list of meshes when a registry has `materials`
/// materials and `instances` material instances: one message for each mesh whose
/// material or material instance is not registered, in the order of the meshes.
/// A missing material is reported before a missing material instance.
pub open spec fn complaints(meshes: Seq<Mesh>, materials: nat, instances: nat) -> Seq<Seq<char>>
    decreases meshes.len(),
{
    if meshes.len() == 0 {
        Seq::empty()
    } else if meshes.last().material >= materials {
        complaints(meshes.drop_last(), materials, instances).push(MATERIAL_NOT_FOUND@)
    } else if meshes.last().material_instance >= instances {
        complaints(meshes.drop_last(), materials, instances).push(MATERIAL_INSTANCE_NOT_FOUND@)
    } else {
        complaints(meshes.drop_last(), materials, instances)
    }
}

} // verus!
