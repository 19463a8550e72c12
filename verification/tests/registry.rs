use wtvr3d::asset::asset_registry::AssetRegistry;
use wtvr3d::asset::texture::Texture;
use wtvr3d::component::mesh::Mesh;
use wtvr3d::error::Error;
use wtvr3d::renderer::buffer::{AttributeBinding, AttributePointer, Buffer};
use wtvr3d::renderer::light_repository::LightConfiguration;
use wtvr3d::renderer::material::{Material, MaterialInstance, ProgramBuild};
use wtvr3d::renderer::mesh_data::MeshData;
use wtvr3d::renderer::shader_data_type::ShaderDataType;
use wtvr3d::renderer::uniform::Uniform;
use wtvr3d::renderer::value::RendererValue;

fn material(id: &str, program: u32) -> Material<f32> {
    let build = ProgramBuild::start().advance(Ok(1)).advance(Ok(2)).advance(Ok(program));
    Material::new(build, id).ok().unwrap()
}

fn mesh_data(id: &str, names: &[&str]) -> MeshData<f32> {
    let mut data = MeshData::new(id.to_string(), 36);
    for name in names {
        data.push_buffer(Buffer::new(name, ShaderDataType::Vector3, vec![0.0; 9], None));
    }
    data
}

#[test]
fn registering_an_instance_without_its_parent_fails_and_adds_nothing() {
    let mut registry: AssetRegistry<f32> = AssetRegistry::new();
    let orphan = MaterialInstance::new("nowhere", "orphan");
    assert_eq!(
        registry.register_material_instance(orphan),
        Err(Error::MissingParent { instance: "orphan".to_string(), parent: "nowhere".to_string() })
    );
    assert!(registry.get_material_instance("orphan").is_none());
    assert!(registry.get_material_instance_with_index(0).is_none());
    assert_eq!(registry.material_instance_index("orphan"), None);

    assert_eq!(registry.register_material(material("stone", 1)), 0);
    assert_eq!(registry.register_material_instance(MaterialInstance::new("stone", "wall")), Ok(0));
    assert_eq!(
        registry.register_material_instance(MaterialInstance::new("wood", "door")),
        Err(Error::MissingParent { instance: "door".to_string(), parent: "wood".to_string() })
    );
    assert!(registry.get_material_instance("wall").is_some());
    assert!(registry.get_material_instance("door").is_none());
    assert!(registry.get_material_instance_with_index(1).is_none());
}

#[test]
fn assets_are_found_by_id_and_by_index() {
    let mut registry: AssetRegistry<f32> = AssetRegistry::new();
    assert_eq!(registry.register_material(material("a", 1)), 0);
    assert_eq!(registry.register_material(material("b", 2)), 1);
    assert_eq!(registry.register_mesh_data(mesh_data("cube", &["a_position"])), 0);
    assert_eq!(registry.register_mesh_data(mesh_data("ball", &[])), 1);
    assert_eq!(registry.register_material_instance(MaterialInstance::new("b", "b1")), Ok(0));
    assert_eq!(registry.register_material_instance(MaterialInstance::new("a", "a1")), Ok(1));
    assert_eq!(registry.register_texture(Texture { id: 40, texture: None }), 0);
    assert_eq!(registry.register_texture(Texture { id: 41, texture: Some(3) }), 1);

    assert_eq!(registry.get_material("b").unwrap().get_program(), 2);
    assert_eq!(registry.get_material_with_index(0).unwrap().get_id(), "a");
    assert!(registry.get_material("c").is_none());
    assert!(registry.get_material_with_index(2).is_none());
    assert_eq!(registry.material_index("b"), Some(1));
    assert_eq!(registry.get_mesh_data("ball").unwrap().get_id(), "ball");
    assert_eq!(registry.get_mesh_data_with_index(0).unwrap().get_vertex_count(), 36);
    assert!(registry.get_mesh_data("cone").is_none());
    assert!(registry.get_mesh_data_with_index(2).is_none());
    assert_eq!(registry.mesh_data_index("ball"), Some(1));
    assert_eq!(registry.get_material_instance("a1").unwrap().get_parent_id(), "a");
    assert_eq!(registry.get_material_instance_with_index(0).unwrap().get_id(), "b1");
    assert_eq!(registry.get_texture(41), Some(&Texture { id: 41, texture: Some(3) }));
    assert_eq!(registry.get_texture(42), None);
    assert_eq!(registry.texture_index(40), Some(0));
}

#[test]
fn registering_an_id_again_keeps_its_index() {
    let mut registry: AssetRegistry<f32> = AssetRegistry::new();
    assert_eq!(registry.register_material(material("a", 1)), 0);
    assert_eq!(registry.register_material(material("b", 2)), 1);
    assert_eq!(registry.register_material(material("a", 3)), 0);
    assert_eq!(registry.get_material("a").unwrap().get_program(), 3);
    assert!(registry.get_material_with_index(2).is_none());
    assert_eq!(registry.register_mesh_data(mesh_data("cube", &[])), 0);
    assert_eq!(registry.register_mesh_data(mesh_data("cube", &["a_position"])), 0);
    assert_eq!(registry.get_mesh_data("cube").unwrap().get_buffers().len(), 1);
    assert_eq!(registry.register_texture(Texture { id: 5, texture: None }), 0);
    assert_eq!(registry.register_texture(Texture { id: 5, texture: Some(9) }), 0);
    assert_eq!(registry.get_texture(5).unwrap().texture, Some(9));
    assert_eq!(registry.register_material_instance(MaterialInstance::new("a", "i")), Ok(0));
    assert_eq!(registry.register_material_instance(MaterialInstance::new("b", "i")), Ok(0));
    assert_eq!(registry.get_material_instance("i").unwrap().get_parent_id(), "b");
}

#[test]
fn instance_uniforms_set_through_the_registry() {
    let mut registry: AssetRegistry<f32> = AssetRegistry::new();
    let mut parent = material("parent", 1);
    parent.set_uniform(Uniform::new("u_shared", RendererValue::Float(1.0)));
    registry.register_material(parent);
    registry.register_material(material("other", 2));
    registry.register_material_instance(MaterialInstance::new("parent", "i")).unwrap();
    assert!(registry.set_instance_uniform(0, Uniform::new("u_shared", RendererValue::Float(2.0))));
    assert!(registry.set_instance_uniform(0, Uniform::new("u_own", RendererValue::Float(3.0))));
    assert!(!registry.set_instance_uniform(1, Uniform::new("u_own", RendererValue::Float(3.0))));
    assert_eq!(registry.get_material("parent").unwrap().uniform_count(), 1);
    assert!(matches!(
        registry.get_material("parent").unwrap().uniform_at(0).get_value(),
        RendererValue::Float(v) if *v == 2.0
    ));
    assert_eq!(registry.get_material("other").unwrap().uniform_count(), 0);
    assert_eq!(registry.get_material_instance("i").unwrap().uniform_count(), 1);
    assert_eq!(registry.get_material_instance("i").unwrap().uniform_at(0).get_name(), "u_own");
}

#[test]
fn mesh_data_lookup_registers_each_buffer_once() {
    let asked = std::cell::RefCell::new(Vec::new());
    let query = |program: u32, name: &str| {
        asked.borrow_mut().push(format!("{}:{}", program, name));
        asked.borrow().len() as i32
    };
    let mut m = material("m", 6);
    let mut cube = mesh_data("cube", &["a_position", "a_normal", "a_position"]);
    let mut ball = mesh_data("ball", &["a_normal", "a_tex_coordinates"]);
    cube.lookup_locations(&query, &mut m);
    assert_eq!(*asked.borrow(), vec!["6:a_position", "6:a_normal"]);
    assert_eq!(m.get_attribute_location("a_position"), Some(1));
    assert_eq!(m.get_attribute_location("a_normal"), Some(2));
    ball.lookup_locations(&query, &mut m);
    assert_eq!(asked.borrow().len(), 3);
    assert_eq!(m.get_attribute_location("a_normal"), Some(2));
    assert_eq!(m.get_attribute_location("a_tex_coordinates"), Some(3));
    cube.lookup_locations(&query, &mut m);
    ball.lookup_locations(&query, &mut m);
    assert_eq!(asked.borrow().len(), 3);
    // once done, a mesh data asks nothing even of a material that knows nothing
    let mut fresh = material("fresh", 7);
    cube.lookup_locations(&query, &mut fresh);
    assert_eq!(asked.borrow().len(), 3);
    assert_eq!(fresh.get_attribute_location("a_position"), None);
    assert_eq!(cube.get_buffer("a_normal").unwrap().get_attribute_name(), "a_normal");
    assert!(cube.get_buffer("a_color").is_none());
    assert_eq!(cube.get_id(), "cube");
}

#[test]
fn compile_material_reports_what_is_missing() {
    let uniforms = |program: u32, name: &str| Some(program + name.len() as u32);
    let attributes = |program: u32, name: &str| program as i32 + name.len() as i32;
    let lights = LightConfiguration { directional: 1, point: 0, spot: 0 };
    let mut registry: AssetRegistry<f32> = AssetRegistry::new();
    registry.register_material(material("m", 100));
    registry.register_mesh_data(mesh_data("cube", &["a_position"]));
    registry.register_material_instance(MaterialInstance::new("m", "i")).unwrap();

    let no_material = Mesh::new(0, 0, 4);
    assert_eq!(
        no_material.compile_material(&mut registry, &uniforms, &attributes, &lights),
        Err("Material could not be found. Has it been registered yet?".to_string())
    );
    assert!(!registry.get_material_with_index(0).unwrap().is_settled());

    let no_instance = Mesh::new(0, 3, 0);
    assert_eq!(
        no_instance.compile_material(&mut registry, &uniforms, &attributes, &lights),
        Err("Material Instance could not be found. Has it been registered yet?".to_string())
    );
    assert!(registry.get_material_with_index(0).unwrap().is_settled());
    assert_eq!(registry.get_material_with_index(0).unwrap().get_attribute_location("a_position"), Some(110));

    let no_mesh_data = Mesh::new(9, 0, 0);
    assert_eq!(no_mesh_data.compile_material(&mut registry, &uniforms, &attributes, &lights), Ok(()));
    let complete = Mesh::new(0, 0, 0);
    assert_eq!(complete.compile_material(&mut registry, &uniforms, &attributes, &lights), Ok(()));
    assert_eq!(*complete.get_mesh_data_id(), 0);
    assert_eq!(*complete.get_material_id(), 0);
    assert_eq!(*complete.get_material_instance_id(), 0);
}

#[test]
fn buffer_construction_and_binding() {
    let mut b: Buffer<f32> = Buffer::new("a_position", ShaderDataType::Vector3, vec![0.0; 9], Some(vec![0, 1, 2]));
    assert_eq!(b.get_attribute_name(), "a_position");
    assert!(b.needs_index_buffer());
    assert!(!b.is_constructed());
    assert_eq!(b.enable_and_bind_attribute(2), Err(Error::UnconstructedValue));
    assert_eq!(b.construct(None, Some(8)), Err(Error::UnconstructedValue));
    assert_eq!(b.construct(Some(7), None), Err(Error::UnconstructedValue));
    assert!(!b.is_constructed());
    assert_eq!(b.construct(Some(7), Some(8)), Ok(()));
    assert!(b.is_constructed());
    b.set_layout(12, 4);
    assert_eq!(
        b.enable_and_bind_attribute(2),
        Ok(AttributeBinding {
            array_buffer: 7,
            element_array_buffer: Some(8),
            pointer: AttributePointer {
                location: 2,
                size: 3,
                number_type: 5126,
                normalized: false,
                stride: 12,
                offset: 4,
            },
        })
    );
    assert_eq!(b.enable_and_bind_attribute(-1), Err(Error::UnresolvedLocation));
    b.clean();
    assert!(b.get_data().is_none());
    assert!(b.get_indexes_data().is_none());
    assert!(b.is_constructed());
    // without data there is nothing to construct
    assert_eq!(b.construct(Some(1), Some(2)), Err(Error::MissingData));

    let mut plain: Buffer<f32> = Buffer::new("a_uv", ShaderDataType::Vector2, vec![0.5; 4], Some(vec![]));
    assert!(!plain.needs_index_buffer());
    assert_eq!(plain.get_data().unwrap().len(), 4);
    assert_eq!(plain.construct(Some(3), Some(99)), Ok(()));
    let binding = plain.enable_and_bind_attribute(0).unwrap();
    assert_eq!(binding.element_array_buffer, None);
    assert_eq!(binding.pointer.size, 2);
    assert_eq!(binding.pointer.stride, 0);
}

#[test]
fn mesh_data_constructs_and_cleans_its_buffers() {
    let next = std::cell::Cell::new(0u32);
    let create = || {
        next.set(next.get() + 1);
        Some(next.get())
    };
    let mut data: MeshData<f32> = MeshData::new("cube".to_string(), 3);
    data.push_buffer(Buffer::new("a_position", ShaderDataType::Vector3, vec![0.0; 9], Some(vec![0, 1, 2])));
    data.push_buffer(Buffer::new("a_normal", ShaderDataType::Vector3, vec![0.0; 9], None));
    assert_eq!(data.construct(&create), Ok(()));
    assert_eq!(next.get(), 3);
    assert_eq!(data.get_buffers()[0].get_buffer_object(), Some(1));
    assert_eq!(data.get_buffers()[0].get_index_buffer_object(), Some(2));
    assert_eq!(data.get_buffers()[1].get_buffer_object(), Some(3));
    assert_eq!(data.get_buffers()[1].get_index_buffer_object(), None);
    data.clean();
    assert!(data.get_buffers()[0].get_data().is_none());
    assert!(data.get_buffers()[0].get_indexes_data().is_none());
    assert!(data.get_buffers()[1].get_data().is_none());
    assert_eq!(data.get_buffers()[0].get_attribute_name(), "a_position");
    assert_eq!(data.get_buffers()[0].get_buffer_object(), Some(1));
    assert_eq!(data.get_buffers()[0].get_index_buffer_object(), Some(2));
    assert!(data.get_buffers()[1].is_constructed());
    // without data there is nothing left to construct
    assert_eq!(data.construct(&create), Err(Error::MissingData));

    let failing = || None;
    let mut other: MeshData<f32> = MeshData::new("ball".to_string(), 3);
    other.push_buffer(Buffer::new("a_position", ShaderDataType::Vector3, vec![0.0; 9], None));
    assert_eq!(other.construct(&failing), Err(Error::UnconstructedValue));
    assert!(!other.get_buffers()[0].is_constructed());
}

#[test]
fn texture_units_are_assigned_through_the_registry() {
    let tex = |name: &str| Uniform::new(name, RendererValue::Texture(Texture { id: 0, texture: Some(1) }));
    let mut registry: AssetRegistry<f32> = AssetRegistry::new();
    let mut parent = material("parent", 1);
    parent.set_uniform(tex("u_shared"));
    registry.register_material(parent);
    registry.register_material_instance(MaterialInstance::new("parent", "i")).unwrap();
    assert!(registry.set_instance_uniform(0, tex("u_own")));
    assert!(registry.assign_texture_indexes(0));
    assert!(!registry.assign_texture_indexes(1));
    assert_eq!(registry.get_material("parent").unwrap().uniform_at(0).get_texture_index(), Some(0));
    assert_eq!(registry.get_material_instance("i").unwrap().uniform_at(0).get_texture_index(), Some(4));
}
