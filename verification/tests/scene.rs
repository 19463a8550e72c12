use wtvr3d::asset::asset_registry::AssetRegistry;
use wtvr3d::component::light::Light;
use wtvr3d::renderer::buffer::Buffer;
use wtvr3d::renderer::material::{Material, MaterialInstance, ProgramBuild};
use wtvr3d::renderer::mesh_data::MeshData;
use wtvr3d::renderer::renderer::{RenderCommand, Renderer};
use wtvr3d::renderer::shader_data_type::ShaderDataType;
use wtvr3d::scene::transform::TransformId;
use wtvr3d::scene::{FileType, Scene, SceneLight};

type V3 = (f32, f32, f32);
type S = Scene<V3, V3, f32>;

const ZERO: V3 = (0.0, 0.0, 0.0);
const ONE: V3 = (1.0, 1.0, 1.0);

fn compose(parent: Option<&V3>, t: &V3, _r: &V3, _s: &V3) -> V3 {
    match parent {
        Some(p) => (p.0 + t.0, p.1 + t.1, p.2 + t.2),
        None => *t,
    }
}

fn merge(so_far: Light<V3, f32>, l: &Light<V3, f32>) -> Light<V3, f32> {
    Light {
        color: (
            so_far.color.0 * so_far.intensity + l.color.0 * l.intensity,
            so_far.color.1 * so_far.intensity + l.color.1 * l.intensity,
            so_far.color.2 * so_far.intensity + l.color.2 * l.intensity,
        ),
        intensity: so_far.intensity + l.intensity,
        attenuation: so_far.attenuation,
    }
}

fn position_of(matrix: &V3) -> V3 {
    (matrix.0, matrix.1, matrix.2 + 100.0)
}

fn darkness() -> Light<V3, f32> {
    Light { color: ZERO, intensity: 0.0, attenuation: 0.0 }
}

fn attributes(program: u32, name: &str) -> i32 {
    (program + name.len() as u32) as i32
}

fn renderer() -> Renderer<f32> {
    let mut registry = AssetRegistry::new();
    let build = ProgramBuild::start().advance(Ok(1)).advance(Ok(2)).advance(Ok(30));
    registry.register_material(Material::new(build, "stone").ok().unwrap());
    let mut cube = MeshData::new("cube".to_string(), 36);
    cube.push_buffer(Buffer::new("a_position", ShaderDataType::Vector3, vec![0.0; 9], None));
    registry.register_mesh_data(cube);
    registry.register_material_instance(MaterialInstance::new("stone", "grey")).unwrap();
    Renderer::new(registry, 640, 480)
}

fn create(scene: &mut S, at: V3) -> Option<TransformId> {
    scene.create_mesh_entity("cube", "grey", at, ZERO, ONE, ZERO, &attributes)
}

#[test]
fn file_type_codes() {
    assert_eq!(FileType::WMesh.code(), 1);
    assert_eq!(FileType::WMaterial.code(), 2);
    assert_eq!(FileType::WMatInstance.code(), 3);
    assert_eq!(FileType::from_code(1), Some(FileType::WMesh));
    assert_eq!(FileType::from_code(2), Some(FileType::WMaterial));
    assert_eq!(FileType::from_code(3), Some(FileType::WMatInstance));
    assert_eq!(FileType::from_code(0), None);
    assert_eq!(FileType::from_code(4), None);
}

#[test]
fn scene_without_renderer_creates_and_draws_nothing() {
    let mut scene: S = Scene::new();
    assert!(!scene.is_initialized());
    assert_eq!(create(&mut scene, ZERO), None);
    assert_eq!(scene.update(vec![], &compose, &position_of, darkness(), &merge), None);
    assert_eq!(scene.get_tree().len(), 0);
    assert!(scene.get_renderer().is_none());
    assert!(scene.get_renderer_mut().is_none());
}

#[test]
fn scene_keeps_its_first_renderer() {
    let mut scene: S = Scene::new();
    assert!(scene.initialize(renderer()).is_none());
    assert!(scene.is_initialized());
    let second = Renderer::new(AssetRegistry::new(), 1, 1);
    assert!(scene.initialize(second).is_some());
    assert!(scene.get_renderer().unwrap().get_asset_registry().get_material("stone").is_some());
}

#[test]
fn mesh_entities_need_registered_assets() {
    let mut scene: S = Scene::new();
    scene.initialize(renderer());
    assert_eq!(scene.create_mesh_entity("ball", "grey", ZERO, ZERO, ONE, ZERO, &attributes), None);
    assert_eq!(scene.create_mesh_entity("cube", "red", ZERO, ZERO, ONE, ZERO, &attributes), None);
    assert_eq!(scene.get_meshes().len(), 0);
    assert_eq!(scene.get_tree().len(), 0);
    let entity = create(&mut scene, (1.0, 2.0, 3.0)).unwrap();
    assert_eq!(entity, TransformId { index: 0 });
    assert_eq!(scene.get_meshes().len(), 1);
    assert!(scene.get_meshes()[0].enabled);
    assert_eq!(scene.get_meshes()[0].transform, entity);
    assert_eq!(*scene.get_meshes()[0].mesh.get_mesh_data_id(), 0);
    assert_eq!(*scene.get_meshes()[0].mesh.get_material_id(), 0);
    assert_eq!(*scene.get_meshes()[0].mesh.get_material_instance_id(), 0);
    // the attribute of the buffer was looked up in the parent material
    let material = scene.get_renderer().unwrap().get_asset_registry().get_material("stone").unwrap();
    assert_eq!(material.get_attribute_location("a_position"), Some(40));
    assert_eq!(*scene.get_tree().get(entity).unwrap().get_position(), (1.0, 2.0, 3.0));
}

#[test]
fn one_frame_runs_the_three_passes_in_order() {
    let mut scene: S = Scene::new();
    scene.initialize(renderer());
    let parent = create(&mut scene, (1.0, 0.0, 0.0)).unwrap();
    let child = create(&mut scene, (0.0, 2.0, 0.0)).unwrap();
    let hidden = create(&mut scene, (0.0, 0.0, 3.0)).unwrap();
    assert!(scene.set_parent(child, parent));
    assert!(!scene.set_parent(parent, child));
    assert!(scene.set_mesh_enabled(2, false));
    assert!(!scene.set_mesh_enabled(3, false));
    let lights = vec![
        SceneLight {
            light: Light { color: (1.0, 1.0, 1.0), intensity: 2.0, attenuation: 0.0 },
            direction: None,
            cone: None,
            transform: None,
        },
        // a light on the child: it shines from where this frame puts the child
        SceneLight {
            light: Light { color: (1.0, 0.0, 0.0), intensity: 1.0, attenuation: 0.5 },
            direction: None,
            cone: None,
            transform: Some(child),
        },
        // a light on a transform that does not exist has no place and adds to the ambiant light
        SceneLight {
            light: Light { color: (1.0, 1.0, 1.0), intensity: 1.0, attenuation: 0.0 },
            direction: None,
            cone: None,
            transform: Some(TransformId { index: 77 }),
        },
    ];
    let commands = scene.update(lights, &compose, &position_of, darkness(), &merge).unwrap();
    assert_eq!(
        commands,
        vec![
            RenderCommand::BeginFrame,
            RenderCommand::UseMaterial { material: 0 },
            RenderCommand::BindMeshData { material: 0, mesh_data: 0 },
            RenderCommand::SetInstanceUniforms { instance: 0 },
            RenderCommand::Draw { material: 0, mesh_data: 0, transform: parent, vertex_count: 36 },
            RenderCommand::Draw { material: 0, mesh_data: 0, transform: child, vertex_count: 36 },
        ]
    );
    // the graph pass came first: the world matrices are those of this frame
    assert_eq!(scene.get_tree().get_world_matrix(child), Ok(&(1.0, 2.0, 0.0)));
    assert_eq!(scene.get_tree().get_world_matrix(hidden), Ok(&(0.0, 0.0, 3.0)));
    assert_eq!(scene.get_light_repository().ambiant.as_ref().unwrap().intensity, 3.0);
    assert_eq!(scene.get_light_repository().point.len(), 1);
    assert_eq!(scene.get_light_repository().point[0].1, (1.0, 2.0, 100.0));
    assert_eq!(scene.get_light_repository().point[0].0.attenuation, 0.5);

    // a frame without lights forgets the lights of the last one
    assert!(scene.set_transform(parent, (5.0, 0.0, 0.0), ZERO, ONE));
    assert!(scene.set_transform_translation(hidden, (0.0, 0.0, 4.0)));
    assert!(scene.set_transform_rotation(hidden, (0.5, 0.0, 0.0)));
    assert!(scene.set_transform_scale(hidden, (2.0, 2.0, 2.0)));
    assert!(!scene.set_transform(TransformId { index: 9 }, ZERO, ZERO, ONE));
    assert!(!scene.set_transform_translation(TransformId { index: 9 }, ZERO));
    let commands = scene.update(vec![], &compose, &position_of, darkness(), &merge).unwrap();
    assert_eq!(commands.len(), 6);
    assert!(scene.get_light_repository().ambiant.is_none());
    assert_eq!(scene.get_tree().get_world_matrix(child), Ok(&(5.0, 2.0, 0.0)));
    assert_eq!(scene.get_tree().get_world_matrix(hidden), Ok(&(0.0, 0.0, 4.0)));
    assert_eq!(*scene.get_tree().get(hidden).unwrap().get_scale(), (2.0, 2.0, 2.0));
    scene.get_renderer_mut().unwrap().resize_canvas(10, 10);
}
