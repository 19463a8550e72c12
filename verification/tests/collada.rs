use wtvr3d::asset::mesh::BufferData;
use wtvr3d::importers::collada::{
    gather_indexes, reindex_objects, zeros, ColladaMesh, ColladaTriangle, RawColladaData,
};
use wtvr3d::mesh::mesh_data::{MeshData as OldMeshData, SkinnedMeshData, StaticMeshData};
use wtvr3d::mesh::Mesh as OwnedMesh;
use wtvr3d::renderer::buffer::Buffer;
use wtvr3d::renderer::light_repository::LightConfiguration;
use wtvr3d::renderer::material::{Material, MaterialInstance, ProgramBuild};
use wtvr3d::renderer::mesh::{Mesh as Geometry, SkinnedMesh, StaticMesh};
use wtvr3d::renderer::mesh_data::MeshData;
use wtvr3d::renderer::shader_data_type::ShaderDataType;

fn triangle() -> ColladaTriangle<[f32; 3]> {
    ColladaTriangle { vertices: (4, 5, 6), normals: Some((10, 11, 12)), uvs: Some((20, 21, 22)), tangeant: None }
}

#[test]
fn triangle_finds_normal_and_uv_by_vertex() {
    let t = triangle();
    assert_eq!(t.get_normal_for_vertex(4), Some(10));
    assert_eq!(t.get_normal_for_vertex(5), Some(11));
    assert_eq!(t.get_normal_for_vertex(6), Some(12));
    assert_eq!(t.get_normal_for_vertex(7), None);
    assert_eq!(t.get_uv_for_vertex(4), Some(20));
    assert_eq!(t.get_uv_for_vertex(5), Some(21));
    assert_eq!(t.get_uv_for_vertex(6), Some(22));
    assert_eq!(t.get_uv_for_vertex(0), None);
    let bare: ColladaTriangle<[f32; 3]> =
        ColladaTriangle { vertices: (4, 4, 6), normals: None, uvs: None, tangeant: None };
    assert_eq!(bare.get_normal_for_vertex(4), None);
    assert_eq!(bare.get_uv_for_vertex(6), None);
    // with a vertex at two corners the first corner answers
    let twice: ColladaTriangle<[f32; 3]> =
        ColladaTriangle { vertices: (4, 4, 6), normals: Some((1, 2, 3)), uvs: None, tangeant: None };
    assert_eq!(twice.get_normal_for_vertex(4), Some(1));
}

#[test]
fn triangle_replaces_the_first_matching_index() {
    let mut t = triangle();
    t.replace_vertex(5, 50);
    assert_eq!(t.vertices, (4, 50, 6));
    t.replace_vertex(9, 90);
    assert_eq!(t.vertices, (4, 50, 6));
    t.replace_normal(12, 120);
    assert_eq!(t.normals, Some((10, 11, 120)));
    t.replace_uv(20, 200);
    assert_eq!(t.uvs, Some((200, 21, 22)));
    t.replace_uv(7, 8);
    assert_eq!(t.uvs, Some((200, 21, 22)));
    let mut same: ColladaTriangle<[f32; 3]> =
        ColladaTriangle { vertices: (1, 1, 1), normals: None, uvs: None, tangeant: None };
    same.replace_vertex(1, 2);
    assert_eq!(same.vertices, (2, 1, 1));
    same.replace_normal(1, 2);
    same.replace_uv(1, 2);
    assert_eq!(same.normals, None);
    assert_eq!(same.uvs, None);
}

#[test]
fn raw_data_duplicates_a_vertex_with_all_it_has() {
    let mut data = RawColladaData::new(
        &[0.0f32, 0.1, 0.2, 1.0, 1.1, 1.2],
        Some(&[0.0, 0.0, 1.0]),
        Some(&[0.5, 0.5, 0.25, 0.75]),
        Some(&[0.1, 0.2, 0.3, 0.4, 0.5, 0.6, 0.7, 0.8]),
    );
    assert!(!data.mono_index);
    assert!(data.tangeants.is_none());
    assert_eq!(data.duplicate_vertex(1), 2);
    assert_eq!(data.vertices, vec![0.0, 0.1, 0.2, 1.0, 1.1, 1.2, 1.0, 1.1, 1.2]);
    assert_eq!(
        data.joint_weights,
        Some(vec![0.1, 0.2, 0.3, 0.4, 0.5, 0.6, 0.7, 0.8, 0.5, 0.6, 0.7, 0.8])
    );
    assert_eq!(data.normals, Some(vec![0.0, 0.0, 1.0]));
    data.tangeants = Some(vec![7.0, 7.1, 7.2, 8.0, 8.1, 8.2, 9.0, 9.1, 9.2]);
    assert_eq!(data.duplicate_vertex(0), 3);
    assert_eq!(data.tangeants.as_ref().unwrap()[9..], [7.0, 7.1, 7.2]);
    assert_eq!(data.vertices.len(), 12);
    assert_eq!(data.get_vertex_at(3), [0.0, 0.1, 0.2]);
    assert_eq!(data.get_vertex_at(1), [1.0, 1.1, 1.2]);
    assert_eq!(data.get_uv_at(1), Some([0.25, 0.75]));
}

#[test]
fn raw_data_compares_normals_and_uvs_by_value() {
    let same = |a: &f32, b: &f32| a == b;
    let data = RawColladaData::new(
        &[0.0f32; 3],
        Some(&[0.0, 0.0, 1.0, 0.0, 1.0, 0.0, 0.0, 0.0, 1.0]),
        Some(&[0.5, 0.5, 0.5, 0.25, 0.5, 0.5]),
        None,
    );
    assert!(data.normals_are_equal(0, 2, &same));
    assert!(!data.normals_are_equal(0, 1, &same));
    assert!(data.normals_are_equal(1, 1, &same));
    assert!(data.uvs_are_equal(0, 2, &same));
    assert!(!data.uvs_are_equal(0, 1, &same));
    let bare = RawColladaData::new(&[0.0f32; 3], None, None, None);
    assert!(!bare.normals_are_equal(0, 0, &same));
    assert!(!bare.uvs_are_equal(0, 0, &same));
    assert_eq!(bare.get_uv_at(0), None);
    assert_eq!(zeros(3, 0.0f32), vec![0.0, 0.0, 0.0]);
    assert_eq!(zeros(0, 1u8), Vec::<u8>::new());
}

#[test]
fn geometry_of_static_and_skinned_meshes() {
    let plain = StaticMesh { geometry: vec![1.0f32, 2.0] };
    assert_eq!(plain.geometry(), &[1.0, 2.0]);
    let skinned = SkinnedMesh { static_mesh: StaticMesh { geometry: vec![3.0f32] }, weights: vec![0.5] };
    assert_eq!(skinned.geometry(), &[3.0]);
    let plain = OldMeshData::Static(StaticMeshData { geometry: vec![1.0f32, 2.0] });
    assert_eq!(plain.geometry(), &[1.0, 2.0]);
    let skinned = OldMeshData::Skinned(SkinnedMeshData {
        static_mesh: StaticMeshData { geometry: vec![3.0f32] },
        weights: vec![0.5],
    });
    assert_eq!(skinned.geometry(), &[3.0]);
}

#[test]
fn owned_mesh_takes_an_id_once_and_looks_its_locations_up() {
    let mut data: MeshData<f32> = MeshData::new("cube".to_string(), 36);
    data.push_buffer(Buffer::new("a_position", ShaderDataType::Vector3, vec![0.0; 9], None));
    let build = ProgramBuild::start().advance(Ok(1)).advance(Ok(2)).advance(Ok(3));
    let mut parent: Material<f32> = Material::new(build, "m").ok().unwrap();
    let mut mesh = OwnedMesh::new(data, MaterialInstance::new("m", "i"));
    assert_eq!(mesh.get_id(), None);
    assert_eq!(mesh.get_or_set_id(7), 7);
    assert_eq!(mesh.get_or_set_id(8), 7);
    assert_eq!(mesh.get_id(), Some(7));
    assert_eq!(mesh.get_vertex_count(), 36);
    assert_eq!(mesh.get_buffers().len(), 1);
    assert_eq!(mesh.get_material().get_id(), "i");
    let attributes = |program: u32, name: &str| (program + name.len() as u32) as i32;
    let uniforms = |program: u32, name: &str| Some(program + name.len() as u32);
    mesh.lookup_locations(&mut parent, &attributes, &uniforms, &LightConfiguration::default());
    assert_eq!(parent.get_attribute_location("a_position"), Some(13));
    assert!(parent.is_settled());
}

fn corner(vertices: (usize, usize, usize), normals: (usize, usize, usize), uvs: (usize, usize, usize)) -> ColladaTriangle<[f32; 3]> {
    ColladaTriangle { vertices, normals: Some(normals), uvs: Some(uvs), tangeant: None }
}

/// Two triangles that share the edge 1-2. The normals of vertex 1 differ in
/// value between the two, those of vertex 2 are equal in value under two indexes.
fn two_triangles() -> ColladaMesh<f32> {
    ColladaMesh {
        triangles: vec![corner((0, 1, 2), (0, 0, 0), (0, 1, 2)), corner((2, 1, 3), (2, 1, 1), (2, 1, 3))],
        data: RawColladaData::new(
            &[0.0, 0.0, 0.0, 1.0, 0.0, 0.0, 0.0, 1.0, 0.0, 1.0, 1.0, 0.0],
            Some(&[0.0, 0.0, 1.0, 0.0, 1.0, 0.0, 0.0, 0.0, 1.0]),
            Some(&[0.0, 0.0, 1.0, 0.0, 0.0, 1.0, 1.0, 1.0]),
            None,
        ),
    }
}

fn positions(mesh: &ColladaMesh<f32>) -> Vec<[f32; 3]> {
    let mut all = Vec::new();
    for t in &mesh.triangles {
        for v in [t.vertices.0, t.vertices.1, t.vertices.2] {
            all.push(mesh.data.get_vertex_at(v));
        }
    }
    all
}

#[test]
fn triangles_are_listed_by_the_vertices_they_hold() {
    let mesh = two_triangles();
    assert!(mesh.check());
    assert_eq!(
        mesh.triangle_indexes_by_vertex_index(),
        vec![vec![0], vec![0, 1], vec![0, 1], vec![1]]
    );
    let twice: ColladaMesh<f32> = ColladaMesh {
        triangles: vec![ColladaTriangle { vertices: (0, 0, 1), normals: None, uvs: None, tangeant: None }],
        data: RawColladaData::new(&[0.0; 6], None, None, None),
    };
    assert_eq!(twice.triangle_indexes_by_vertex_index(), vec![vec![0, 0], vec![0]]);
}

#[test]
fn a_mesh_is_checked_before_it_is_worked_on() {
    let mut mesh = two_triangles();
    mesh.triangles[1].vertices.2 = 4;
    assert!(!mesh.check());
    let mut mesh = two_triangles();
    mesh.triangles[0].normals = Some((0, 3, 0));
    assert!(!mesh.check());
    let mut mesh = two_triangles();
    mesh.triangles[0].uvs = Some((0, 4, 0));
    assert!(!mesh.check());
    let mut mesh = two_triangles();
    mesh.data.vertices.push(0.0);
    assert!(!mesh.check());
    let mut mesh = two_triangles();
    mesh.data.tangeants = Some(vec![0.0; 9]);
    assert!(!mesh.check());
    mesh.data.tangeants = Some(vec![0.0; 12]);
    assert!(mesh.check());
    mesh.data.joint_weights = Some(vec![0.0; 12]);
    assert!(!mesh.check());
    mesh.data.joint_weights = Some(vec![0.0; 16]);
    assert!(mesh.check());
    // indexes of values that the mesh does not have at all are not looked at
    mesh.data.normals = None;
    mesh.triangles[0].normals = Some((50, 50, 50));
    assert!(mesh.check());
}

#[test]
fn simplify_indexes_duplicates_only_where_values_differ() {
    let same = |a: &f32, b: &f32| a == b;
    let mut mesh = two_triangles();
    let before = positions(&mesh);
    mesh.simplify_indexes(&same);
    // every corner lies where it lay
    assert_eq!(positions(&mesh), before);
    assert_eq!(mesh.triangles.len(), 2);
    // vertex 1 has normal 0 in the first triangle and normal 1, of another value, in the
    // second: the second triangle gets a copy of the vertex
    assert_eq!(mesh.data.vertices.len(), 15);
    assert_eq!(mesh.triangles[0].vertices, (0, 1, 2));
    assert_eq!(mesh.triangles[1].vertices, (2, 4, 3));
    assert_eq!(mesh.data.get_vertex_at(4), [1.0, 0.0, 0.0]);
    // vertex 2 has normal 0 in the first triangle and normal 2, of the same value, in the
    // second: the second triangle takes the index of the first
    assert_eq!(mesh.triangles[0].normals, Some((0, 0, 0)));
    assert_eq!(mesh.triangles[1].normals, Some((0, 1, 1)));
    assert_eq!(mesh.triangles[1].uvs, Some((2, 1, 3)));
    assert_eq!(mesh.data.normals.as_ref().unwrap().len(), 9);
    assert!(mesh.check());
    // a second run finds nothing to do
    mesh.simplify_indexes(&same);
    assert_eq!(mesh.data.vertices.len(), 15);
    assert_eq!(mesh.triangles[1].vertices, (2, 4, 3));
}

#[test]
fn simplify_indexes_looks_at_texture_coordinates_too() {
    let same = |a: &f32, b: &f32| a == b;
    let mut mesh = ColladaMesh {
        triangles: vec![corner((0, 1, 2), (0, 0, 0), (0, 1, 2)), corner((0, 2, 1), (0, 0, 0), (3, 2, 0))],
        data: RawColladaData::new(
            &[0.0, 0.0, 0.0, 1.0, 0.0, 0.0, 0.0, 1.0, 0.0],
            Some(&[0.0, 0.0, 1.0]),
            Some(&[0.0, 0.0, 1.0, 0.0, 0.0, 1.0, 0.0, 0.0]),
            None,
        ),
    };
    let before = positions(&mesh);
    mesh.simplify_indexes(&same);
    assert_eq!(positions(&mesh), before);
    // vertex 0: uv 0 and uv 3 are equal in value, the second triangle takes uv 0
    // vertex 1: uv 1 and uv 0 differ, the second triangle gets its own vertex
    assert_eq!(mesh.triangles[1].uvs, Some((0, 2, 0)));
    assert_eq!(mesh.triangles[1].vertices, (0, 2, 3));
    assert_eq!(mesh.data.vertices.len(), 12);
}

#[test]
fn indexes_are_gathered_from_the_last_corner_that_holds_a_vertex() {
    let triangles = vec![corner((0, 1, 2), (5, 6, 7), (0, 1, 2)), corner((2, 1, 3), (8, 9, 4), (2, 1, 3))];
    let (normals, uvs) = gather_indexes(&triangles, 5);
    assert_eq!(normals, vec![Some(5), Some(9), Some(8), Some(4), None]);
    assert_eq!(uvs, vec![Some(0), Some(1), Some(2), Some(3), None]);
    let twice: Vec<ColladaTriangle<[f32; 3]>> = vec![corner((1, 1, 1), (5, 6, 7), (0, 1, 2))];
    assert_eq!(gather_indexes(&twice, 2).0, vec![None, Some(7)]);
    let bare: Vec<ColladaTriangle<[f32; 3]>> =
        vec![ColladaTriangle { vertices: (0, 0, 0), normals: None, uvs: None, tangeant: None }];
    assert_eq!(gather_indexes(&bare, 1), (vec![None], vec![None]));
}

#[test]
fn objects_are_laid_out_by_index() {
    let objects = vec![0.0f32, 0.1, 1.0, 1.1, 2.0, 2.1];
    assert_eq!(
        reindex_objects(&objects, &vec![Some(2), Some(0), Some(2), None], 2),
        vec![2.0, 2.1, 0.0, 0.1, 2.0, 2.1]
    );
    assert_eq!(reindex_objects(&objects, &vec![None, None], 2), Vec::<f32>::new());
    assert_eq!(reindex_objects(&objects, &vec![Some(1)], 3), vec![1.1, 2.0, 2.1]);
}

#[test]
fn collada_mesh_becomes_a_mesh_with_one_index_per_corner() {
    let same = |a: &f32, b: &f32| a == b;
    let mut mesh = two_triangles();
    mesh.simplify_indexes(&same);
    let asset = mesh.to_mesh("quad");
    assert_eq!(asset.get_name(), "quad");
    assert_eq!(asset.get_positions().get_attribute_name(), "a_position");
    assert!(matches!(asset.get_positions().get_data(), Some(BufferData::F32(d)) if d.len() == 15));
    assert!(matches!(
        asset.get_indexes().unwrap().get_data(),
        Some(BufferData::U32(d)) if *d == vec![0, 1, 2, 2, 4, 3]
    ));
    assert_eq!(asset.get_indexes().unwrap().get_attribute_name(), "");
    // the normal of each vertex is that of the corner that holds it
    match asset.get_normals().unwrap().get_data() {
        Some(BufferData::F32(d)) => assert_eq!(
            *d,
            vec![0.0, 0.0, 1.0, 0.0, 0.0, 1.0, 0.0, 0.0, 1.0, 0.0, 1.0, 0.0, 0.0, 1.0, 0.0]
        ),
        _ => panic!("the mesh has normals"),
    }
    assert_eq!(asset.get_normals().unwrap().get_attribute_name(), "a_normal");
    match asset.get_uvs().unwrap().get_data() {
        Some(BufferData::F32(d)) => assert_eq!(*d, vec![0.0, 0.0, 1.0, 0.0, 0.0, 1.0, 1.0, 1.0, 1.0, 0.0]),
        _ => panic!("the mesh has texture coordinates"),
    }
    assert_eq!(asset.get_uvs().unwrap().get_data_size(), 2);
    assert!(asset.get_tangeants().is_none());
    assert!(asset.get_joint_weights().is_none());
    let raw = RawColladaData::new_mono_from_multi_indexed(&mesh.data, &mesh.triangles);
    assert!(raw.mono_index);
    assert_eq!(raw.vertices, mesh.data.vertices);
}

#[test]
fn an_index_is_taken_at_the_first_corner_that_has_it() {
    let same = |a: &f32, b: &f32| a == b;
    // both triangles are flat: one normal index for all three corners, and the
    // two normals are equal in value
    let mut mesh: ColladaMesh<f32> = ColladaMesh {
        triangles: vec![
            ColladaTriangle { vertices: (0, 1, 2), normals: Some((0, 0, 0)), uvs: None, tangeant: None },
            ColladaTriangle { vertices: (2, 1, 3), normals: Some((1, 1, 1)), uvs: None, tangeant: None },
        ],
        data: RawColladaData::new(
            &[0.0, 0.0, 0.0, 1.0, 0.0, 0.0, 0.0, 1.0, 0.0, 1.0, 1.0, 0.0],
            Some(&[0.0, 0.0, 1.0, 0.0, 0.0, 1.0]),
            None,
            None,
        ),
    };
    assert!(mesh.check());
    mesh.simplify_indexes(&same);
    // for vertex 1 the second triangle takes the index 0 in the place of its
    // index 1, at the first corner that has the index 1; for vertex 2 it then
    // has the index 0 already
    assert_eq!(mesh.triangles[0].normals, Some((0, 0, 0)));
    assert_eq!(mesh.triangles[1].normals, Some((0, 1, 1)));
    assert_eq!(mesh.triangles[1].vertices, (2, 1, 3));
    assert_eq!(mesh.data.vertices.len(), 12);
    assert!(mesh.check());
}
