use wtvr3d::asset::asset_registry::AssetRegistry;
use wtvr3d::component::mesh::{Mesh, MeshComponent};
use wtvr3d::component::transform::{DirtyTransform, Enabled, TransformParent};
use wtvr3d::renderer::light_repository::LightConfiguration;
use wtvr3d::renderer::material::{Material, MaterialInstance, ProgramBuild};
use wtvr3d::renderer::mesh_data::MeshData;
use wtvr3d::renderer::renderer::{RenderCommand, RenderError, Renderer};
use wtvr3d::scene::component::camera::Camera;
use wtvr3d::scene::component::{ComponentBehaviour, ComponentId};
use wtvr3d::scene::transform::{SceneTree, TransformId};
use wtvr3d::system::rendering_system::{sort_meshes, Renderable, RenderingSystem};
use wtvr3d::system::scene_graph_system::SceneGraphSystem;
use wtvr3d::system::shader_compilation_system::ShaderCompilationSystem;

type V3 = (f32, f32, f32);
type Tree = SceneTree<V3, V3>;

fn compose(parent: Option<&V3>, t: &V3, _r: &V3, _s: &V3) -> V3 {
    match parent {
        Some(p) => (p.0 + t.0, p.1 + t.1, p.2 + t.2),
        None => *t,
    }
}

fn material(id: &str, program: u32, transparent: bool) -> Material<f32> {
    let build = ProgramBuild::start().advance(Ok(1)).advance(Ok(2)).advance(Ok(program));
    let mut m = Material::new(build, id).ok().unwrap();
    m.set_transparent(transparent);
    m
}

/// materials 0 (opaque), 1 (transparent), 2 (opaque); mesh data 0 and 1; instances 0, 1 of material 0, 2 of material 1
fn registry() -> AssetRegistry<f32> {
    let mut registry = AssetRegistry::new();
    registry.register_material(material("stone", 10, false));
    registry.register_material(material("glass", 11, true));
    registry.register_material(material("wood", 12, false));
    registry.register_mesh_data(MeshData::new("cube".to_string(), 36));
    registry.register_mesh_data(MeshData::new("ball".to_string(), 240));
    registry.register_material_instance(MaterialInstance::new("stone", "grey")).unwrap();
    registry.register_material_instance(MaterialInstance::new("stone", "red")).unwrap();
    registry.register_material_instance(MaterialInstance::new("glass", "clear")).unwrap();
    registry
}

fn tree_of(n: usize) -> (Tree, Vec<TransformId>) {
    let mut tree = SceneTree::new();
    let mut ids = Vec::new();
    for i in 0..n {
        ids.push(tree.append_new(None, (i as f32, 0.0, 0.0), (0.0, 0.0, 0.0), (1.0, 1.0, 1.0), (0.0, 0.0, 0.0)).unwrap());
    }
    tree.refresh(&compose);
    (tree, ids)
}

fn renderable(material: usize, mesh_data: usize, instance: usize, transform: TransformId) -> Renderable {
    Renderable { mesh: Mesh::new(mesh_data, instance, material), transform }
}

fn draws(commands: &[RenderCommand]) -> usize {
    commands.iter().filter(|c| matches!(c, RenderCommand::Draw { .. })).count()
}

fn reports(commands: &[RenderCommand]) -> usize {
    commands.iter().filter(|c| matches!(c, RenderCommand::Report { .. })).count()
}

#[test]
fn draw_grouping_round_trip() {
    let t = TransformId { index: 0 };
    // 9 meshes, 3 materials, 4 mesh data
    let keys = [(2, 7), (0, 1), (2, 7), (1, 1), (0, 3), (0, 1), (2, 9), (1, 1), (2, 7)];
    let renderables: Vec<Renderable> = keys
        .iter()
        .enumerate()
        .map(|(i, (m, d))| renderable(*m, *d, i, TransformId { index: t.index + i }))
        .collect();
    let groups = sort_meshes(&renderables);
    assert_eq!(groups.len(), 3);
    let total: usize = groups.iter().map(|g| g.meshes.iter().map(|d| d.instances.len()).sum::<usize>()).sum();
    assert_eq!(total, 9);
    let mut materials: Vec<usize> = groups.iter().map(|g| g.material).collect();
    materials.sort();
    assert_eq!(materials, vec![0, 1, 2]);
    for group in &groups {
        let mut seen = Vec::new();
        for leaf in &group.meshes {
            assert!(!seen.contains(&leaf.mesh_data));
            seen.push(leaf.mesh_data);
            let expected: Vec<(usize, TransformId)> = renderables
                .iter()
                .filter(|r| r.mesh.material == group.material && r.mesh.mesh_data == leaf.mesh_data)
                .map(|r| (r.mesh.material_instance, r.transform))
                .collect();
            assert!(!expected.is_empty());
            assert_eq!(leaf.instances, expected);
        }
    }
    assert_eq!(sort_meshes(&vec![]).len(), 0);
}

#[test]
fn frame_binds_each_state_once() {
    let (tree, ids) = tree_of(6);
    let renderer = Renderer::new(registry(), 800, 600);
    let renderables = vec![
        renderable(0, 0, 0, ids[0]),
        renderable(1, 0, 2, ids[1]),
        renderable(0, 0, 0, ids[2]),
        renderable(0, 1, 1, ids[3]),
        renderable(0, 0, 1, ids[4]),
        renderable(0, 0, 1, ids[5]),
    ];
    let groups = sort_meshes(&renderables);
    let commands = renderer.render_objects(&groups, &tree);
    let draw = |material, mesh_data, transform, vertex_count| RenderCommand::Draw {
        material,
        mesh_data,
        transform,
        vertex_count,
    };
    assert_eq!(
        commands,
        vec![
            RenderCommand::BeginFrame,
            // opaque first
            RenderCommand::UseMaterial { material: 0 },
            RenderCommand::BindMeshData { material: 0, mesh_data: 0 },
            RenderCommand::SetInstanceUniforms { instance: 0 },
            draw(0, 0, ids[0], 36),
            draw(0, 0, ids[2], 36),
            RenderCommand::SetInstanceUniforms { instance: 1 },
            draw(0, 0, ids[4], 36),
            draw(0, 0, ids[5], 36),
            RenderCommand::BindMeshData { material: 0, mesh_data: 1 },
            RenderCommand::SetInstanceUniforms { instance: 1 },
            draw(0, 1, ids[3], 240),
            // transparent second
            RenderCommand::UseMaterial { material: 1 },
            RenderCommand::BindMeshData { material: 1, mesh_data: 0 },
            RenderCommand::SetInstanceUniforms { instance: 2 },
            draw(1, 0, ids[1], 36),
        ]
    );
}

#[test]
fn soft_failure_on_missing_render_time_asset() {
    let (tree, ids) = tree_of(2);
    let mut system = RenderingSystem::new(Renderer::new(registry(), 800, 600));
    let renderables = vec![renderable(0, 0, 0, ids[0]), renderable(0, 5, 0, ids[1])];
    let commands = system.run(&renderables, &tree);
    assert_eq!(draws(&commands), 1);
    assert_eq!(reports(&commands), 1);
    assert!(commands.contains(&RenderCommand::Report { error: RenderError::MissingMeshData(5) }));
    assert!(commands.contains(&RenderCommand::Draw {
        material: 0,
        mesh_data: 0,
        transform: ids[0],
        vertex_count: 36
    }));
}

#[test]
fn whatever_is_missing_is_reported_and_left_out() {
    let (mut tree, ids) = tree_of(6);
    let renderer = Renderer::new(registry(), 800, 600);
    tree.set_translation(ids[3], (0.0, 1.0, 0.0));
    tree.destroy(ids[4]);
    let renderables = vec![
        renderable(7, 0, 0, ids[0]),
        renderable(7, 1, 0, ids[1]),
        renderable(2, 0, 9, ids[2]),
        renderable(2, 0, 0, ids[3]),
        renderable(2, 0, 0, ids[4]),
        renderable(2, 0, 0, ids[5]),
    ];
    let commands = renderer.render_objects(&sort_meshes(&renderables), &tree);
    assert_eq!(
        commands,
        vec![
            RenderCommand::BeginFrame,
            RenderCommand::Report { error: RenderError::MissingMaterial(7) },
            RenderCommand::UseMaterial { material: 2 },
            RenderCommand::BindMeshData { material: 2, mesh_data: 0 },
            RenderCommand::Report { error: RenderError::MissingMaterialInstance(9) },
            RenderCommand::SetInstanceUniforms { instance: 0 },
            RenderCommand::Report { error: RenderError::StaleTransform(ids[3]) },
            RenderCommand::Report { error: RenderError::StaleTransform(ids[4]) },
            RenderCommand::Draw { material: 2, mesh_data: 0, transform: ids[5], vertex_count: 36 },
        ]
    );
    assert_eq!(draws(&commands), 1);
    assert_eq!(reports(&commands), 4);
}

#[test]
fn empty_frame_only_begins() {
    let (tree, _) = tree_of(0);
    let renderer = Renderer::new(registry(), 1, 1);
    assert_eq!(renderer.render_objects(&sort_meshes(&vec![]), &tree), vec![RenderCommand::BeginFrame]);
}

#[test]
fn resize_reports_a_change_of_size() {
    let mut renderer = Renderer::new(registry(), 800, 600);
    assert!(!renderer.resize_canvas(800, 600));
    assert!(renderer.resize_canvas(1024, 600));
    assert!(!renderer.resize_canvas(1024, 600));
    assert!(renderer.resize_canvas(1024, 768));
    assert_eq!(renderer.get_asset_registry().get_material_with_index(1).unwrap().get_id(), "glass");
    renderer.get_asset_registry_mut().register_material(material("iron", 13, false));
    assert!(renderer.get_asset_registry().get_material("iron").is_some());
}

#[test]
fn scene_graph_system_runs_the_pass() {
    let mut tree: Tree = SceneTree::new();
    let root = tree.append_new(None, (1.0, 1.0, 1.0), (0.0, 0.0, 0.0), (1.0, 1.0, 1.0), (0.0, 0.0, 0.0)).unwrap();
    let child = tree.append_new(Some(root), (1.0, 2.0, 3.0), (0.0, 0.0, 0.0), (1.0, 1.0, 1.0), (0.0, 0.0, 0.0)).unwrap();
    let mut system = SceneGraphSystem::new();
    system.run(&mut tree, &compose);
    assert_eq!(tree.get_world_matrix(child), Ok(&(2.0, 3.0, 4.0)));
}

#[test]
fn shader_compilation_system_logs_one_message_per_unprepared_mesh() {
    let uniforms = |program: u32, name: &str| Some(program + name.len() as u32);
    let attributes = |program: u32, name: &str| program as i32 + name.len() as i32;
    let mut system = ShaderCompilationSystem::new(Renderer::new(registry(), 1, 1));
    let meshes = vec![Mesh::new(0, 0, 0), Mesh::new(0, 0, 8), Mesh::new(1, 8, 1), Mesh::new(3, 2, 1)];
    let log = system.run(&meshes, &LightConfiguration::default(), &uniforms, &attributes);
    assert_eq!(
        log,
        vec![
            "Material could not be found. Has it been registered yet?".to_string(),
            "Material Instance could not be found. Has it been registered yet?".to_string(),
        ]
    );
    let renderer = system.into_renderer();
    assert!(renderer.get_asset_registry().get_material_with_index(0).unwrap().is_settled());
    assert!(renderer.get_asset_registry().get_material_with_index(1).unwrap().is_settled());
    assert!(!renderer.get_asset_registry().get_material_with_index(2).unwrap().is_settled());
    let mut rendering = RenderingSystem::new(renderer);
    rendering.get_renderer_mut().resize_canvas(2, 2);
    assert!(rendering.get_renderer().get_asset_registry().get_mesh_data("cube").is_some());
    let _ = rendering.into_renderer();
}

#[test]
fn camera_projection_is_recomputed_when_active_and_dirty() {
    let calls = std::cell::Cell::new(0u32);
    let perspective = |fov: &f32, aspect: &f32, near: &f32, far: &f32| {
        calls.set(calls.get() + 1);
        [*fov, *aspect, *near, *far]
    };
    let mut camera = Camera::new(1.0f32, 1.5, 0.1, 100.0, &perspective);
    assert_eq!(calls.get(), 1);
    assert_eq!(camera.get_projection(), Some(&[1.0, 1.5, 0.1, 100.0]));
    assert_eq!(camera.get_parent(), None);
    camera.set_parent(TransformId { index: 3 });
    assert_eq!(camera.get_parent(), Some(TransformId { index: 3 }));
    camera.set_fov(2.0);
    assert_eq!(camera.get_projection(), None);
    // not active: the frame leaves it alone
    camera.refresh(&perspective);
    assert_eq!(calls.get(), 1);
    assert_eq!(camera.get_projection(), None);
    camera.enable();
    camera.set_aspect_ratio(2.0);
    camera.set_near_z(1.0);
    camera.set_far_z(10.0);
    camera.refresh(&perspective);
    assert_eq!(calls.get(), 2);
    assert_eq!(camera.get_projection(), Some(&[2.0, 2.0, 1.0, 10.0]));
    camera.refresh(&perspective);
    assert_eq!(calls.get(), 2);
    camera.disable();
    camera.set_fov(3.0);
    camera.refresh(&perspective);
    assert_eq!(calls.get(), 2);
    camera.recalculate_matrix(&perspective);
    assert_eq!(camera.get_projection(), Some(&[3.0, 2.0, 1.0, 10.0]));
    camera.initialize();
    camera.start();
    camera.update();
    camera.destroy();
}

#[test]
fn small_components() {
    assert_eq!(Enabled::default(), Enabled);
    assert_eq!(DirtyTransform::default(), DirtyTransform);
    let mut parent = TransformParent::new(4);
    assert_eq!(parent.parent_entity(), 4);
    parent.set_parent(9);
    assert_eq!(parent.parent_entity(), 9);
    assert_eq!(MeshComponent { mesh_id: 3 }.mesh_id, 3);
    assert_eq!(ComponentId { index: 2 }, ComponentId { index: 2 });
    assert_eq!(LightConfiguration::default(), LightConfiguration { directional: 0, point: 0, spot: 0 });
}
