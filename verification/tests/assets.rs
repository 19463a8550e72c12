use std::cell::Cell;
use wtvr3d::asset::material::{Material, ShaderValueType};
use wtvr3d::asset::mesh::{Buffer, BufferData, BufferDataType, Mesh};
use wtvr3d::asset::mesh_deserializer::{
    check_indexes, deindex_buffers, deindex_triangle_in, get_buffer_with_name, make_mesh_data_from, FileBuffer,
    FileValue, MeshFile, Triangle,
};
use wtvr3d::editor::asset_database::AssetDatabase;
use wtvr3d::error::W3DError;
use wtvr3d::renderer::shader_data_type::ShaderDataType;
use wtvr3d::util::regexp::Matches;

fn found(glsl_type: &str, name: &str) -> Matches {
    Matches {
        global: format!("in {} {};", glsl_type, name),
        groups: vec![glsl_type.to_string(), name.to_string()],
    }
}

fn asset_material() -> Material {
    Material::new("water".to_string(), "void main() {}".to_string(), "void main() {}".to_string(), true, false)
}

#[test]
fn matches_are_recorded_after_each_element() {
    let elements = vec!["in vec3 a_position;".to_string(), "vec3".to_string(), "a_position".to_string()];
    let records = Matches::snapshots(&elements);
    assert_eq!(records.len(), 3);
    assert_eq!(records[0].global, "in vec3 a_position;");
    assert!(records[0].groups.is_empty());
    assert_eq!(records[1].global, "in vec3 a_position;");
    assert_eq!(records[1].groups, vec!["vec3"]);
    assert_eq!(records[2].groups, vec!["vec3", "a_position"]);
    assert_eq!(Matches::snapshots(&vec![]).len(), 0);
    let copy = records[2].clone();
    assert_eq!(copy.global, records[2].global);
    assert_eq!(copy.groups, records[2].groups);
}

#[test]
fn material_takes_names_from_declarations() {
    let mut m = asset_material();
    m.set_attribute_and_uniform_names(
        &vec![found("vec3", "a_position"), found("vec2", "a_tex_coordinates")],
        &vec![found("mat4", "u_world_transform")],
        &vec![found("sampler2D", "u_texture"), found("samplerCube", "u_sky")],
    );
    let attributes = m.get_attributes();
    assert_eq!(attributes.len(), 2);
    assert_eq!(attributes[0].name, "a_position");
    assert_eq!(attributes[0].value_type, ShaderValueType::Vec3);
    assert_eq!(attributes[0].location, None);
    assert_eq!(attributes[1].name, "a_tex_coordinates");
    assert_eq!(attributes[1].value_type, ShaderValueType::Vec2);
    let uniforms = m.get_uniforms();
    assert_eq!(uniforms.len(), 3);
    assert_eq!(uniforms[0].name, "u_world_transform");
    assert_eq!(uniforms[0].value_type, ShaderValueType::Mat4);
    assert_eq!(uniforms[1].name, "u_texture");
    assert_eq!(uniforms[1].value_type, ShaderValueType::Sampler2D);
    assert_eq!(uniforms[2].value_type, ShaderValueType::Unimplemented);
    // a material that has names keeps them
    m.set_attribute_and_uniform_names(&vec![found("float", "a_other")], &vec![], &vec![]);
    assert_eq!(m.get_attributes().len(), 2);
    assert_eq!(m.get_uniforms().len(), 3);
}

#[test]
fn shader_and_program_errors_name_the_material() {
    let m = asset_material();
    assert_eq!(m.compile_shader(Some(3), true, None).ok(), Some(3));
    assert_eq!(
        m.compile_shader(None, true, None).err().unwrap().message(),
        "Shader could not be created., Generated for : water"
    );
    assert_eq!(
        m.compile_shader(Some(3), false, Some("0:1 bad".to_string())).err().unwrap().message(),
        "Compilation failed for shader, Generated for : water, Description : 0:1 bad"
    );
    assert_eq!(
        m.compile_shader(Some(3), false, None).err().unwrap().message(),
        "Compilation failed for shader, Generated for : water"
    );
    assert_eq!(m.link_program(Some(4), true, Some("note".to_string())).ok(), Some(4));
    assert_eq!(
        m.link_program(None, false, None).err().unwrap().message(),
        "Could not create WebGL Program, Generated for : water"
    );
    assert_eq!(
        m.link_program(Some(4), false, Some("ld".to_string())).err().unwrap().message(),
        "Linking failed for WebGLProgram, Generated for : water, Description : ld"
    );
}

#[test]
fn material_construct_looks_every_location_up() {
    let attributes = |program: u32, name: &str| if name == "a_gone" { -1 } else { (program + name.len() as u32) as i32 };
    let uniforms = |program: u32, name: &str| if name == "u_gone" { None } else { Some(program * 2 + name.len() as u32) };
    let mut m = asset_material();
    assert!(!m.is_constructed());
    assert_eq!(m.get_name(), "water");
    assert_eq!(
        m.get_attrib_locations(&attributes).err().unwrap().message(),
        "Trying to get attribute location without program, Generated for : water"
    );
    assert_eq!(
        m.get_uniform_locations(&uniforms).err().unwrap().message(),
        "Trying to get uniform location without program, Generated for : water"
    );
    m.set_attribute_and_uniform_names(
        &vec![found("vec3", "a_position"), found("vec3", "a_normal")],
        &vec![found("mat4", "u_view")],
        &vec![found("vec4", "u_color")],
    );
    // a program that was not built: the error is handed on, nothing changes
    let failed = m.construct(Err(W3DError::new("Linking failed for WebGLProgram", None)), &attributes, &uniforms, true);
    assert_eq!(failed.err().unwrap().message(), "Linking failed for WebGLProgram");
    assert!(!m.is_constructed());
    assert!(m.get_vertex_shader().is_some());

    assert!(m.construct(Ok(100), &attributes, &uniforms, false).is_ok());
    assert!(m.is_constructed());
    assert_eq!(m.get_program(), Some(&100));
    assert_eq!(m.get_attributes()[0].location, Some(110));
    assert_eq!(m.get_attributes()[1].location, Some(108));
    assert_eq!(m.get_uniforms()[0].location, Some(206));
    assert_eq!(m.get_uniforms()[1].location, Some(207));
    assert!(m.get_vertex_shader().is_some());
    assert!(m.get_fragment_shader().is_some());
    assert!(m.construct(Ok(100), &attributes, &uniforms, true).is_ok());
    assert!(m.get_vertex_shader().is_none());
    assert!(m.get_fragment_shader().is_none());
    assert_eq!(
        m.construct(Ok(100), &attributes, &uniforms, true).err().unwrap().message(),
        "Missing shader for material, Generated for : water"
    );
}

#[test]
fn material_lookup_stops_at_the_first_missing_location() {
    let asked = Cell::new(0u32);
    let attributes = |_program: u32, name: &str| {
        asked.set(asked.get() + 1);
        if name == "a_gone" {
            -1
        } else {
            7
        }
    };
    let uniforms = |_program: u32, name: &str| if name == "u_gone" { None } else { Some(9) };
    let mut m = asset_material();
    m.set_attribute_and_uniform_names(
        &vec![found("vec3", "a_position"), found("vec3", "a_gone"), found("vec3", "a_normal")],
        &vec![found("mat4", "u_view"), found("mat4", "u_gone")],
        &vec![],
    );
    let result = m.construct(Ok(1), &attributes, &uniforms, true);
    assert_eq!(result.err().unwrap().message(), "Attribute Location was not found, Generated for : water");
    assert_eq!(asked.get(), 2);
    assert_eq!(m.get_attributes()[0].location, Some(7));
    assert_eq!(m.get_attributes()[1].location, None);
    assert_eq!(m.get_attributes()[2].location, None);
    assert_eq!(m.get_uniforms()[0].location, None);
    // the program is there, the sources are kept
    assert!(m.is_constructed());
    assert!(m.get_vertex_shader().is_some());

    let fine = |_program: u32, _name: &str| 5;
    assert_eq!(
        m.get_locations(&fine, &uniforms).err().unwrap().message(),
        "Uniform Location was not found, Generated for : water"
    );
    assert_eq!(m.get_attributes()[1].location, Some(5));
    assert_eq!(m.get_uniforms()[0].location, Some(9));
    assert_eq!(m.get_uniforms()[1].location, None);
}

#[test]
fn asset_buffer_life_cycle() {
    let mut positions: Buffer<f32> = Buffer::new_from_f32_data("a_position".to_string(), vec![0.0; 9], 3);
    let mut indexes: Buffer<f32> = Buffer::new_from_u32_data(String::new(), vec![0, 1, 2], 3);
    assert_eq!(positions.get_attribute_name(), "a_position");
    assert_eq!(positions.get_data_size(), 3);
    assert!(matches!(positions.get_data(), Some(BufferData::F32(d)) if d.len() == 9));
    assert!(matches!(indexes.get_data(), Some(BufferData::U32(d)) if *d == vec![0, 1, 2]));
    assert_eq!(
        positions.bind().err().unwrap().message(),
        "Trying to bind an unconstructed buffer, Generated for : a_position"
    );
    assert_eq!(
        positions.construct(None).err().unwrap().message(),
        "Could not construct buffer, Generated for : a_position"
    );
    assert!(!positions.is_constructed());
    assert_eq!(positions.construct(Some(5)).ok(), Some(34962));
    assert_eq!(indexes.construct(Some(6)).ok(), Some(34963));
    assert_eq!(positions.bind().ok(), Some((34962, 5)));
    assert_eq!(indexes.bind().ok(), Some((34963, 6)));
    positions.clean();
    assert!(positions.get_data().is_none());
    assert!(positions.is_constructed());
    assert_eq!(
        positions.construct(Some(8)).err().unwrap().message(),
        "Trying to construct buffer without data, Generated for : a_position"
    );
    assert_eq!(positions.bind().ok(), Some((34962, 5)));
    assert_eq!(positions.deconstruct(), Some(5));
    assert_eq!(positions.deconstruct(), None);
    assert!(!positions.is_constructed());
    assert_eq!(BufferDataType::Vertex.get_target(), 34962);
    assert_eq!(BufferDataType::Index.get_target(), 34963);
}

fn asset_mesh() -> Mesh<f32> {
    Mesh::new(
        "cube".to_string(),
        Buffer::new_from_f32_data("a_position".to_string(), vec![0.0; 9], 3),
        Some(Buffer::new_from_u32_data(String::new(), vec![0, 1, 2], 3)),
        Some(Buffer::new_from_f32_data("a_normal".to_string(), vec![0.0; 9], 3)),
        None,
        Some(Buffer::new_from_f32_data("a_tex_coordinates".to_string(), vec![0.0; 6], 2)),
        None,
    )
}

#[test]
fn asset_mesh_constructs_its_buffers_in_order() {
    let next = Cell::new(10u32);
    let create = || {
        next.set(next.get() + 1);
        Some(next.get())
    };
    let mut mesh = asset_mesh();
    assert_eq!(mesh.get_name(), "cube");
    assert!(!mesh.is_constructed());
    assert!(mesh.construct(&create).is_ok());
    assert!(mesh.is_constructed());
    assert_eq!(next.get(), 14);
    assert_eq!(mesh.get_positions().bind().ok(), Some((34962, 11)));
    assert_eq!(mesh.get_indexes().unwrap().bind().ok(), Some((34963, 12)));
    assert_eq!(mesh.get_uvs().unwrap().bind().ok(), Some((34962, 13)));
    assert_eq!(mesh.get_normals().unwrap().bind().ok(), Some((34962, 14)));
    assert!(mesh.get_joint_weights().is_none());
    assert!(mesh.get_tangeants().is_none());
    mesh.clean();
    assert!(mesh.get_positions().get_data().is_none());
    assert!(mesh.get_normals().unwrap().get_data().is_none());
    assert!(mesh.is_constructed());
    assert_eq!(mesh.deconstruct(), vec![11, 12, 13, 14]);
    assert!(!mesh.is_constructed());
    assert_eq!(mesh.deconstruct(), Vec::<u32>::new());
}

#[test]
fn asset_mesh_construction_stops_at_the_first_failure() {
    let next = Cell::new(0u32);
    let create = || {
        next.set(next.get() + 1);
        if next.get() == 3 {
            None
        } else {
            Some(next.get())
        }
    };
    let mut mesh = asset_mesh();
    let result = mesh.construct(&create);
    assert_eq!(result.err().unwrap().message(), "Could not construct buffer, Generated for : a_tex_coordinates");
    assert_eq!(next.get(), 3);
    assert!(mesh.is_constructed());
    assert!(mesh.get_indexes().unwrap().is_constructed());
    assert!(!mesh.get_uvs().unwrap().is_constructed());
    assert!(!mesh.get_normals().unwrap().is_constructed());
    assert_eq!(mesh.deconstruct(), vec![1, 2]);
}

#[test]
fn asset_database_hands_out_indexes() {
    let mut database: AssetDatabase<f32> = AssetDatabase::new();
    assert_eq!(database.create_material(asset_material()), 0);
    assert_eq!(database.create_material(asset_material()), 1);
    database.import_collada_mesh(vec![asset_mesh(), asset_mesh()]);
    database.import_collada_mesh(vec![asset_mesh()]);
    assert_eq!(database.get_materials().len(), 2);
    assert_eq!(database.get_meshes().len(), 3);
}

fn mesh_file() -> MeshFile<f32> {
    MeshFile {
        buffers: vec![
            FileBuffer {
                name: "normals".to_string(),
                data_type: ShaderDataType::Vector3,
                data: FileValue::F32Array(vec![0.0, 0.0, 1.0, 0.0, 1.0, 0.0]),
            },
            FileBuffer {
                name: "vertices".to_string(),
                data_type: ShaderDataType::Vector3,
                data: FileValue::F32Array(vec![
                    0.0, 0.1, 0.2, 1.0, 1.1, 1.2, 2.0, 2.1, 2.2, 3.0, 3.1, 3.2,
                ]),
            },
            FileBuffer {
                name: "tex_coordinates".to_string(),
                data_type: ShaderDataType::Vector2,
                data: FileValue::F32Array(vec![0.0, 0.5, 1.0, 1.5, 2.0, 2.5]),
            },
            FileBuffer {
                name: "vertices".to_string(),
                data_type: ShaderDataType::Vector3,
                data: FileValue::F32Array(vec![9.0; 12]),
            },
        ],
        triangles: vec![
            Triangle { vertices: (0, 1, 2), normals: Some((0, 0, 0)), uv: Some((0, 1, 2)) },
            Triangle { vertices: (2, 1, 3), normals: Some((1, 1, 0)), uv: None },
        ],
    }
}

#[test]
fn buffers_are_laid_out_corner_after_corner() {
    let file = mesh_file();
    assert!(check_indexes(&file));
    let (buffers, vertex_count) = deindex_buffers(&file.buffers, &file.triangles);
    assert_eq!(vertex_count, 6);
    assert_eq!(buffers.len(), 3);
    assert_eq!(buffers[0].get_attribute_name(), "vertices");
    assert_eq!(buffers[1].get_attribute_name(), "normals");
    assert_eq!(buffers[2].get_attribute_name(), "tex_coordinates");
    assert_eq!(
        buffers[0].get_data().unwrap(),
        &vec![0.0, 0.1, 0.2, 1.0, 1.1, 1.2, 2.0, 2.1, 2.2, 2.0, 2.1, 2.2, 1.0, 1.1, 1.2, 3.0, 3.1, 3.2]
    );
    assert_eq!(
        buffers[1].get_data().unwrap(),
        &vec![0.0, 0.0, 1.0, 0.0, 0.0, 1.0, 0.0, 0.0, 1.0, 0.0, 1.0, 0.0, 0.0, 1.0, 0.0, 0.0, 0.0, 1.0]
    );
    assert_eq!(buffers[2].get_data().unwrap(), &vec![0.0, 0.5, 1.0, 1.5, 2.0, 2.5]);
    assert!(!buffers[0].is_constructed());
    assert!(!buffers[0].needs_index_buffer());
    assert_eq!(buffers[0].enable_and_bind_attribute(0).err(), Some(wtvr3d::error::Error::UnconstructedValue));

    let mesh_data = make_mesh_data_from("cube".to_string(), &file);
    assert_eq!(mesh_data.get_id(), "cube");
    assert_eq!(mesh_data.get_vertex_count(), 6);
    assert_eq!(mesh_data.get_buffers().len(), 3);
    assert_eq!(mesh_data.get_buffer("normals").unwrap().get_data().unwrap().len(), 18);
    assert_eq!(mesh_data.get_buffer("vertices").unwrap().get_data().unwrap().len(), 18);
    assert_eq!(mesh_data.get_buffer("tex_coordinates").unwrap().get_data().unwrap().len(), 6);
    assert!(mesh_data.get_buffer("a_normal").is_none());
}

#[test]
fn buffers_are_found_by_name_and_indexes_are_checked() {
    let mut file = mesh_file();
    let first = get_buffer_with_name(&file.buffers, "vertices").unwrap();
    assert!(matches!(&first.data, FileValue::F32Array(d) if d[1] == 0.1));
    assert!(get_buffer_with_name(&file.buffers, "colors").is_none());
    file.triangles.push(Triangle { vertices: (0, 1, 4), normals: None, uv: None });
    assert!(!check_indexes(&file));
    file.triangles.pop();
    file.triangles.push(Triangle { vertices: (0, 1, 3), normals: Some((0, 2, 0)), uv: None });
    assert!(!check_indexes(&file));
    file.triangles.pop();
    file.triangles.push(Triangle { vertices: (0, 1, 3), normals: None, uv: Some((3, 0, 0)) });
    assert!(!check_indexes(&file));
    file.triangles.pop();
    file.triangles.push(Triangle { vertices: (3, 3, 3), normals: Some((1, 1, 1)), uv: Some((2, 2, 2)) });
    assert!(check_indexes(&file));

    // no buffer of that kind, or a buffer without scalars: nothing is laid out, nothing is checked
    let bare: MeshFile<f32> = MeshFile {
        buffers: vec![FileBuffer {
            name: "vertices".to_string(),
            data_type: ShaderDataType::Vector3,
            data: FileValue::U32Array(vec![1, 2, 3]),
        }],
        triangles: vec![Triangle { vertices: (7, 8, 9), normals: Some((7, 8, 9)), uv: None }],
    };
    assert!(check_indexes(&bare));
    let (buffers, vertex_count) = deindex_buffers(&bare.buffers, &bare.triangles);
    assert_eq!(vertex_count, 0);
    assert!(buffers[0].get_data().unwrap().is_empty());
    let mut out = vec![1.0f32];
    deindex_triangle_in(None, &get_buffer_with_name(&file.buffers, "vertices"), &mut out);
    deindex_triangle_in(Some((0, 0, 0)), &None::<&FileBuffer<f32>>, &mut out);
    assert_eq!(out, vec![1.0]);
    deindex_triangle_in(Some((3, 0, 3)), &get_buffer_with_name(&file.buffers, "vertices"), &mut out);
    assert_eq!(out, vec![1.0, 3.0, 3.1, 3.2, 0.0, 0.1, 0.2, 3.0, 3.1, 3.2]);
}

#[test]
fn material_without_declarations_has_nothing_to_ask() {
    let attributes = |_program: u32, _name: &str| -> i32 { panic!("no attribute to ask for") };
    let uniforms = |_program: u32, _name: &str| -> Option<u32> { panic!("no uniform to ask for") };
    let mut m = asset_material();
    assert_eq!(m.get_attributes().len(), 0);
    assert_eq!(m.get_uniforms().len(), 0);
    assert!(m.construct(Ok(3), &attributes, &uniforms, false).is_ok());
    assert_eq!(m.get_program(), Some(&3));
    assert!(m.get_locations(&attributes, &uniforms).is_ok());
    assert!(m.get_vertex_shader().is_some());
}
