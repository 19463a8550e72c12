//! Turns the contents of a mesh file into mesh data.
//!
//! A mesh file holds named buffers and a list of triangles; each corner of a
//! triangle names, by index, one vector of the vertex buffer and, where the
//! mesh has them, one of the normal buffer and one of the texture coordinate
//! buffer. The renderer draws without indexes, so the buffers are laid out
//! anew: corner after corner, each with the vectors it names.

use vstd::prelude::*;
use vstd::string::*;
use crate::renderer::buffer::Buffer;
use crate::renderer::mesh_data::MeshData;
use crate::renderer::shader_data_type::ShaderDataType;
use crate::util::text::same_text;

verus! {

/// Name of the vertex buffer in a mesh file.
pub const FILE_VERTICES: &'static str = "vertices";

/// Name of the normal buffer in a mesh file.
pub const FILE_NORMALS: &'static str = "normals";

/// Name of the texture coordinate buffer in a mesh file.
pub const FILE_TEX_COORDINATES: &'static str = "tex_coordinates";

/// The data of a buffer of a mesh file.
pub enum FileValue<T> {
    F32Array(Vec<T>),
    U32Array(Vec<u32>),
}

/// A named buffer of a mesh file.
pub struct FileBuffer<T> {
    pub name: String,
    pub data_type: ShaderDataType,
    pub data: FileValue<T>,
}

/// A triangle of a mesh file: for each of its three corners the index of its
/// vertex and, where the mesh has them, of its normal and of its texture coordinates.
#[derive(Clone, Copy, Debug, PartialEq, Eq)]
pub struct Triangle {
    pub vertices: (u32, u32, u32),
    pub normals: Option<(u32, u32, u32)>,
    pub uv: Option<(u32, u32, u32)>,
}

/// The contents of a mesh file.
pub struct MeshFile<T> {
    pub buffers: Vec<FileBuffer<T>>,
    pub triangles: Vec<Triangle>,
}

/// The vector at `index` of a buffer of vectors of `size` scalars.
pub open spec fn vector_at<T>(data: Seq<T>, size: int, index: int) -> Seq<T> {
    data.subrange(size * index, size * (index + 1))
}

/// Whether a buffer of vectors of `size` scalars has a vector at `index`.
pub open spec fn has_vector<T>(data: Seq<T>, size: int, index: int) -> bool {
    0 <= size * index && size * (index + 1) <= data.len()
}

/// The scalars of a buffer, where it holds scalars.
pub open spec fn scalars<T>(buffer: FileBuffer<T>) -> Option<Seq<T>> {
    match buffer.data {
        FileValue::F32Array(data) => Some(data@),
        _ => None,
    }
}

/// What one triangle adds to a buffer that is laid out anew: the vectors of
/// its three corners, or nothing where the triangle has no indexes of this
/// kind, the mesh no buffer of this kind, or the buffer no scalars.
pub open spec fn corners<T>(indexes: Option<(u32, u32, u32)>, buffer: Option<FileBuffer<T>>) -> Seq<T> {
    if indexes.is_some() && buffer.is_some() && scalars(buffer.unwrap()).is_some() {
        let data = scalars(buffer.unwrap()).unwrap();
        let size = buffer.unwrap().data_type.size();
        vector_at(data, size, indexes.unwrap().0 as int) + vector_at(data, size, indexes.unwrap().1 as int)
            + vector_at(data, size, indexes.unwrap().2 as int)
    } else {
        Seq::empty()
    }
}

/// Whether the corners that `indexes` name are vectors of `buffer`.
pub open spec fn corners_exist<T>(indexes: Option<(u32, u32, u32)>, buffer: Option<FileBuffer<T>>) -> bool {
    indexes.is_some() && buffer.is_some() && scalars(buffer.unwrap()).is_some() ==> {
        let data = scalars(buffer.unwrap()).unwrap();
        let size = buffer.unwrap().data_type.size();
        &&& has_vector(data, size, indexes.unwrap().0 as int)
        &&& has_vector(data, size, indexes.unwrap().1 as int)
        &&& has_vector(data, size, indexes.unwrap().2 as int)
    }
}

/// Adds the vector at `index` of `data` to `data_vec`.
fn push_vector<T: Copy>(data: &Vec<T>, size: usize, index: u32, data_vec: &mut Vec<T>)
    requires
        has_vector(data@, size as int, index as int),
    ensures
        final(data_vec)@ == old(data_vec)@ + vector_at(data@, size as int, index as int),
{
    let length = data.len();
    assert(size * index <= size * (index + 1) <= length) by (nonlinear_arith)
        requires
            size * (index + 1) <= length,
            size >= 0,
            index >= 0,
    ;
    assert(size * index + size == size * (index + 1)) by (nonlinear_arith);
    let start = size * (index as usize);
    let end = start + size;
    let mut j = start;
    while j < end
        invariant
            start <= j <= end <= data@.len(),
            data_vec@ == old(data_vec)@ + data@.subrange(start as int, j as int),
        decreases end - j,
    {
        data_vec.push(data[j]);
        assert(data_vec@ =~= old(data_vec)@ + data@.subrange(start as int, j as int + 1));
        j += 1;
    }
    assert(data_vec@ =~= old(data_vec)@ + vector_at(data@, size as int, index as int));
}

/// Adds the vectors of the three corners of a triangle to a buffer that is laid
/// out anew. Nothing is added where the triangle has no indexes of this kind,
/// the mesh no buffer of this kind, or the buffer no scalars.
pub fn deindex_triangle_in<T: Copy>(
    data: Option<(u32, u32, u32)>,
    buffer: &Option<&FileBuffer<T>>,
    data_vec: &mut Vec<T>,
)
    requires
        corners_exist(data, clone_opt(*buffer)),
    ensures
        final(data_vec)@ == old(data_vec)@ + corners(data, clone_opt(*buffer)),
{
    match data {
        Some((a, b, c)) => {
            match buffer {
                Some(file_buffer) => {
                    match &file_buffer.data {
                        FileValue::F32Array(scalars) => {
                            let size = file_buffer.data_type.get_size() as usize;
                            push_vector(scalars, size, a, data_vec);
                            push_vector(scalars, size, b, data_vec);
                            push_vector(scalars, size, c, data_vec);
                            assert(data_vec@ =~= old(data_vec)@ + corners(data, clone_opt(*buffer)));
                        },
                        _ => {
                            assert(data_vec@ =~= old(data_vec)@ + corners(data, clone_opt(*buffer)));
                        },
                    }
                },
                None => {
                    assert(data_vec@ =~= old(data_vec)@ + corners(data, clone_opt(*buffer)));
                },
            }
        },
        None => {
            assert(data_vec@ =~= old(data_vec)@ + corners(data, clone_opt(*buffer)));
        },
    }
}

/// The buffer behind an optional reference.
pub open spec fn clone_opt<T>(buffer: Option<&FileBuffer<T>>) -> Option<FileBuffer<T>> {
    match buffer {
        Some(b) => Some(*b),
        None => None,
    }
}

/// The names of a list of buffers, in the order of the list.
pub open spec fn file_buffer_names<T>(buffers: Seq<FileBuffer<T>>) -> Seq<Seq<char>> {
    Seq::new(buffers.len(), |i: int| buffers[i].name@)
}

/// The first buffer called `name`, if there is one.
pub open spec fn buffer_named<T>(buffers: Seq<FileBuffer<T>>, name: Seq<char>) -> Option<FileBuffer<T>> {
    match file_buffer_names(buffers).index_of_first(name) {
        Some(i) => Some(buffers[i]),
        None => None,
    }
}

/// The first buffer with the given name.
pub fn get_buffer_with_name<'a, T>(buffers: &'a [FileBuffer<T>], name: &str) -> (found: Option<&'a FileBuffer<T>>)
    ensures
        clone_opt(found) == buffer_named(buffers@, name@),
{
    let ghost names = file_buffer_names(buffers@);
    proof {
        names.index_of_first_ensures(name@);
    }
    let mut i: usize = 0;
    while i < buffers.len()
        invariant
            0 <= i <= buffers@.len(),
            names == file_buffer_names(buffers@),
            forall|k: int| 0 <= k < i ==> names[k] != name@,
        decreases buffers@.len() - i,
    {
        if same_text(buffers[i].name.as_str(), name) {
            proof {
                assert(names[i as int] == name@);
                names.index_of_first_ensures(name@);
                let at = names.index_of_first(name@);
                if at.unwrap() != i as int {
                    assert(names[at.unwrap()] == name@);
                }
            }
            return Some(&buffers[i]);
        }
        i += 1;
    }
    proof {
        names.index_of_first_ensures(name@);
        if names.contains(name@) {
            let k = choose|k: int| 0 <= k < names.len() && names[k] == name@;
            assert(false);
        }
    }
    None
}

/// A buffer laid out anew for a list of triangles: corner after corner, triangle
/// after triangle. `pick` tells which indexes of a triangle the buffer goes by.
pub open spec fn deindexed<T>(
    triangles: Seq<Triangle>,
    buffer: Option<FileBuffer<T>>,
    pick: spec_fn(Triangle) -> Option<(u32, u32, u32)>,
) -> Seq<T>
    decreases triangles.len(),
{
    if triangles.len() == 0 {
        Seq::empty()
    } else {
        deindexed(triangles.drop_last(), buffer, pick) + corners(pick(triangles.last()), buffer)
    }
}

/// The vertex indexes of a triangle.
pub open spec fn vertex_indexes(triangle: Triangle) -> Option<(u32, u32, u32)> {
    Some(triangle.vertices)
}

/// The normal indexes of a triangle.
pub open spec fn normal_indexes(triangle: Triangle) -> Option<(u32, u32, u32)> {
    triangle.normals
}

/// The texture coordinate indexes of a triangle.
pub open spec fn uv_indexes(triangle: Triangle) -> Option<(u32, u32, u32)> {
    triangle.uv
}

/// Whether every index of every triangle names a vector of the buffer it goes by.
pub open spec fn indexes_in_range<T>(buffers: Seq<FileBuffer<T>>, triangles: Seq<Triangle>) -> bool {
    forall|i: int|
        0 <= i < triangles.len() ==> {
            &&& corners_exist(Some((#[trigger] triangles[i]).vertices), buffer_named(buffers, FILE_VERTICES@))
            &&& corners_exist(triangles[i].normals, buffer_named(buffers, FILE_NORMALS@))
            &&& corners_exist(triangles[i].uv, buffer_named(buffers, FILE_TEX_COORDINATES@))
        }
}

/// Lays the vertex, normal and texture coordinate buffers of a mesh file out anew,
/// corner after corner, and counts the vertices: a third of the scalars of the
/// new vertex buffer. The three buffers come back in this order, each under the
/// name that the mesh file has for it, ready to be constructed.
pub fn deindex_buffers<T: Copy>(buffers: &[FileBuffer<T>], triangles: &[Triangle]) -> (result: (
    Vec<Buffer<T>>,
    i32,
))
    requires
        indexes_in_range(buffers@, triangles@),
    ensures
        result.0@.len() == 3,
        result.0@[0].name_view() == FILE_VERTICES@,
        result.0@[1].name_view() == FILE_NORMALS@,
        result.0@[2].name_view() == FILE_TEX_COORDINATES@,
        result.0@[0].vector_size() == 3,
        result.0@[1].vector_size() == 3,
        result.0@[2].vector_size() == 2,
        forall|i: int|
            0 <= i < 3 ==> {
                &&& (#[trigger] result.0@[i]).value_view().is_none()
                &&& result.0@[i].indexes_view().is_none()
                &&& result.0@[i].indexes_data_view().is_none()
                &&& result.0@[i].data_view().is_some()
            },
        result.0@[0].data_view().unwrap()@ == deindexed(
            triangles@,
            buffer_named(buffers@, FILE_VERTICES@),
            |t: Triangle| vertex_indexes(t),
        ),
        result.0@[1].data_view().unwrap()@ == deindexed(
            triangles@,
            buffer_named(buffers@, FILE_NORMALS@),
            |t: Triangle| normal_indexes(t),
        ),
        result.0@[2].data_view().unwrap()@ == deindexed(
            triangles@,
            buffer_named(buffers@, FILE_TEX_COORDINATES@),
            |t: Triangle| uv_indexes(t),
        ),
        result.1 == ((result.0@[0].data_view().unwrap()@.len() / 3) as i32),
{
    let vertex_buffer = get_buffer_with_name(buffers, FILE_VERTICES);
    let normals_buffer = get_buffer_with_name(buffers, FILE_NORMALS);
    let uv_buffer = get_buffer_with_name(buffers, FILE_TEX_COORDINATES);
    let mut vertex_data: Vec<T> = Vec::new();
    let mut normals_data: Vec<T> = Vec::new();
    let mut uv_data: Vec<T> = Vec::new();
    let ghost by_vertex = |t: Triangle| vertex_indexes(t);
    let ghost by_normal = |t: Triangle| normal_indexes(t);
    let ghost by_uv = |t: Triangle| uv_indexes(t);
    let mut i: usize = 0;
    while i < triangles.len()
        invariant
            0 <= i <= triangles@.len(),
            indexes_in_range(buffers@, triangles@),
            clone_opt(vertex_buffer) == buffer_named(buffers@, FILE_VERTICES@),
            clone_opt(normals_buffer) == buffer_named(buffers@, FILE_NORMALS@),
            clone_opt(uv_buffer) == buffer_named(buffers@, FILE_TEX_COORDINATES@),
            by_vertex == (|t: Triangle| vertex_indexes(t)),
            by_normal == (|t: Triangle| normal_indexes(t)),
            by_uv == (|t: Triangle| uv_indexes(t)),
            vertex_data@ == deindexed(triangles@.take(i as int), clone_opt(vertex_buffer), by_vertex),
            normals_data@ == deindexed(triangles@.take(i as int), clone_opt(normals_buffer), by_normal),
            uv_data@ == deindexed(triangles@.take(i as int), clone_opt(uv_buffer), by_uv),
        decreases triangles@.len() - i,
    {
        let triangle = triangles[i];
        proof {
            let done = triangles@.take(i as int + 1);
            assert(done.drop_last() =~= triangles@.take(i as int));
            assert(done.last() == triangle);
            assert(by_vertex(triangle) == Some(triangle.vertices));
            assert(by_normal(triangle) == triangle.normals);
            assert(by_uv(triangle) == triangle.uv);
        }
        deindex_triangle_in(Some(triangle.vertices), &vertex_buffer, &mut vertex_data);
        deindex_triangle_in(triangle.normals, &normals_buffer, &mut normals_data);
        deindex_triangle_in(triangle.uv, &uv_buffer, &mut uv_data);
        i += 1;
    }
    assert(triangles@.take(triangles@.len() as int) =~= triangles@);
    let vertex_count = #[verifier::truncate]
    ((vertex_data.len() / 3) as i32);
    let real_v_buffer_data = Buffer::new(FILE_VERTICES, ShaderDataType::Vector3, vertex_data, None);
    let real_n_buffer_data = Buffer::new(FILE_NORMALS, ShaderDataType::Vector3, normals_data, None);
    let real_u_buffer_data = Buffer::new(FILE_TEX_COORDINATES, ShaderDataType::Vector2, uv_data, None);
    let mut result: Vec<Buffer<T>> = Vec::new();
    result.push(real_v_buffer_data);
    result.push(real_n_buffer_data);
    result.push(real_u_buffer_data);
    (result, vertex_count)
}

/// Whether every index of every triangle of a mesh file names a vector of the
/// buffer it goes by: only then can the file be turned into mesh data.
pub fn check_indexes<T>(mesh_file: &MeshFile<T>) -> (valid: bool)
    ensures
        valid == indexes_in_range(mesh_file.buffers@, mesh_file.triangles@),
{
    let vertex_buffer = get_buffer_with_name(mesh_file.buffers.as_slice(), FILE_VERTICES);
    let normals_buffer = get_buffer_with_name(mesh_file.buffers.as_slice(), FILE_NORMALS);
    let uv_buffer = get_buffer_with_name(mesh_file.buffers.as_slice(), FILE_TEX_COORDINATES);
    let mut i: usize = 0;
    while i < mesh_file.triangles.len()
        invariant
            0 <= i <= mesh_file.triangles@.len(),
            clone_opt(vertex_buffer) == buffer_named(mesh_file.buffers@, FILE_VERTICES@),
            clone_opt(normals_buffer) == buffer_named(mesh_file.buffers@, FILE_NORMALS@),
            clone_opt(uv_buffer) == buffer_named(mesh_file.buffers@, FILE_TEX_COORDINATES@),
            indexes_in_range(mesh_file.buffers@, mesh_file.triangles@.take(i as int)),
        decreases mesh_file.triangles@.len() - i,
    {
        let triangle = mesh_file.triangles[i];
        if !has_corners(Some(triangle.vertices), &vertex_buffer) || !has_corners(
            triangle.normals,
            &normals_buffer,
        ) || !has_corners(triangle.uv, &uv_buffer) {
            return false;
        }
        proof {
            let done = mesh_file.triangles@.take(i as int + 1);
            assert forall|k: int| 0 <= k < done.len() implies {
                &&& corners_exist(
                    Some((#[trigger] done[k]).vertices),
                    buffer_named(mesh_file.buffers@, FILE_VERTICES@),
                )
                &&& corners_exist(done[k].normals, buffer_named(mesh_file.buffers@, FILE_NORMALS@))
                &&& corners_exist(done[k].uv, buffer_named(mesh_file.buffers@, FILE_TEX_COORDINATES@))
            } by {
                if k < i {
                    assert(done[k] == mesh_file.triangles@.take(i as int)[k]);
                }
            }
        }
        i += 1;
    }
    assert(mesh_file.triangles@.take(mesh_file.triangles@.len() as int) =~= mesh_file.triangles@);
    true
}

/// Whether the corners that `indexes` name are vectors of `buffer`.
fn has_corners<T>(indexes: Option<(u32, u32, u32)>, buffer: &Option<&FileBuffer<T>>) -> (exist: bool)
    ensures
        exist == corners_exist(indexes, clone_opt(*buffer)),
{
    match indexes {
        Some((a, b, c)) => {
            match buffer {
                Some(file_buffer) => {
                    match &file_buffer.data {
                        FileValue::F32Array(scalars) => {
                            let size = file_buffer.data_type.get_size() as usize;
                            has_vector_at(scalars, size, a) && has_vector_at(scalars, size, b) && has_vector_at(
                                scalars,
                                size,
                                c,
                            )
                        },
                        _ => true,
                    }
                },
                None => true,
            }
        },
        None => true,
    }
}

/// Whether `data` has a vector of `size` scalars at `index`.
fn has_vector_at<T>(data: &Vec<T>, size: usize, index: u32) -> (has: bool)
    requires
        1 <= size <= 16,
    ensures
        has == has_vector(data@, size as int, index as int),
{
    assert(size * (index + 1) <= 16 * 0x1_0000_0000) by (nonlinear_arith)
        requires
            1 <= size <= 16,
            0 <= index <= 0xffff_ffff,
    ;
    assert(0 <= size * index) by (nonlinear_arith)
        requires
            size >= 0,
            index >= 0,
    ;
    let wanted: u64 = (size as u64) * (index as u64 + 1);
    wanted <= data.len() as u64
}

/// Makes mesh data of the contents of a mesh file, under the given id.
pub fn make_mesh_data_from<T: Copy>(id: String, mesh_file: &MeshFile<T>) -> (mesh_data: MeshData<T>)
    requires
        indexes_in_range(mesh_file.buffers@, mesh_file.triangles@),
    ensures
        mesh_data.id_view() == id@,
        !mesh_data.lookup_done_view(),
        mesh_data.buffers_view().len() == 3,
        mesh_data.buffers_view()[0].name_view() == FILE_VERTICES@,
        mesh_data.buffers_view()[1].name_view() == FILE_NORMALS@,
        mesh_data.buffers_view()[2].name_view() == FILE_TEX_COORDINATES@,
        mesh_data.buffers_view()[0].data_view().is_some(),
        mesh_data.buffers_view()[0].data_view().unwrap()@ == deindexed(
            mesh_file.triangles@,
            buffer_named(mesh_file.buffers@, FILE_VERTICES@),
            |t: Triangle| vertex_indexes(t),
        ),
        mesh_data.buffers_view()[1].data_view().is_some(),
        mesh_data.buffers_view()[1].data_view().unwrap()@ == deindexed(
            mesh_file.triangles@,
            buffer_named(mesh_file.buffers@, FILE_NORMALS@),
            |t: Triangle| normal_indexes(t),
        ),
        mesh_data.buffers_view()[2].data_view().is_some(),
        mesh_data.buffers_view()[2].data_view().unwrap()@ == deindexed(
            mesh_file.triangles@,
            buffer_named(mesh_file.buffers@, FILE_TEX_COORDINATES@),
            |t: Triangle| uv_indexes(t),
        ),
        mesh_data.vertex_count_view() == ((mesh_data.buffers_view()[0].data_view().unwrap()@.len() / 3) as i32),
{
    let (buffers, vertex_count) = deindex_buffers(mesh_file.buffers.as_slice(), mesh_file.triangles.as_slice());
    let mut mesh_data = MeshData::new(id, vertex_count);
    let ghost all = buffers@;
    for buffer in it: buffers
        invariant
            it.seq() == all,
            mesh_data.id_view() == id@,
            !mesh_data.lookup_done_view(),
            mesh_data.vertex_count_view() == vertex_count,
            mesh_data.buffers_view() == all.take(it.index() as int),
    {
        mesh_data.push_buffer(buffer);
        assert(all.take(it.index() as int + 1) =~= all.take(it.index() as int).push(buffer));
    }
    assert(all.take(all.len() as int) =~= all);
    mesh_data
}

} // verus!
