//! The data of a Collada mesh on its way to becoming a mesh of the engine.
//!
//! A Collada mesh indexes its vertices, normals and texture coordinates
//! separately: each corner of a triangle names one of each. The engine uses one
//! index per corner, so a vertex that two triangles use with different normals
//! or texture coordinates has to be duplicated. This module holds the triangles
//! and the raw data, and the steps that change indexes and duplicate vertices.

use vstd::prelude::*;
use vstd::slice::slice_to_vec;
use vstd::string::*;
use crate::asset::mesh::{Buffer, Mesh};

verus! {

/// A triangle: for each of its three corners the index of its vertex and,
/// where the mesh has them, of its normal and of its texture coordinates.
pub struct ColladaTriangle<V> {
    pub vertices: (usize, usize, usize),
    pub normals: Option<(usize, usize, usize)>,
    pub uvs: Option<(usize, usize, usize)>,
    pub tangeant: Option<V>,
}

/// The part of `trio` that stands at the corner of `vertices` that holds `index`:
/// the first such corner, if there is one.
pub open spec fn at_corner(vertices: (usize, usize, usize), trio: (usize, usize, usize), index: usize) -> Option<
    usize,
> {
    if index == vertices.0 {
        Some(trio.0)
    } else if index == vertices.1 {
        Some(trio.1)
    } else if index == vertices.2 {
        Some(trio.2)
    } else {
        None
    }
}

/// `trio` with `new_index` in the place of the first part that equals `old_index`.
pub open spec fn replaced(trio: (usize, usize, usize), old_index: usize, new_index: usize) -> (usize, usize, usize) {
    if old_index == trio.0 {
        (new_index, trio.1, trio.2)
    } else if old_index == trio.1 {
        (trio.0, new_index, trio.2)
    } else if old_index == trio.2 {
        (trio.0, trio.1, new_index)
    } else {
        trio
    }
}

/// `triangle` once it has taken the index `agreed` in the place of `index`: among
/// its normals where `by_normal` holds, among its texture coordinates where it
/// does not. A triangle without such indexes is as it was.
pub open spec fn agreeing<V>(triangle: ColladaTriangle<V>, index: usize, agreed: usize, by_normal: bool) -> ColladaTriangle<
    V,
> {
    if by_normal {
        ColladaTriangle {
            normals: match triangle.normals {
                Some(trio) => Some(replaced(trio, index, agreed)),
                None => None,
            },
            ..triangle
        }
    } else {
        ColladaTriangle {
            uvs: match triangle.uvs {
                Some(trio) => Some(replaced(trio, index, agreed)),
                None => None,
            },
            ..triangle
        }
    }
}

/// The index that a triangle has for the vertex `vert`, at the first corner
/// that holds it: the index of its normal where `by_normal` holds, that of its
/// texture coordinates where it does not.
pub open spec fn index_for<V>(triangle: ColladaTriangle<V>, vert: usize, by_normal: bool) -> Option<usize> {
    match (if by_normal {
        triangle.normals
    } else {
        triangle.uvs
    }) {
        Some(trio) => at_corner(triangle.vertices, trio, vert),
        None => None,
    }
}

/// `triangle` with the vertex `copy` at the first corner that holds the vertex `vert`.
pub open spec fn moved<V>(triangle: ColladaTriangle<V>, vert: usize, copy: usize) -> ColladaTriangle<V> {
    ColladaTriangle { vertices: replaced(triangle.vertices, vert, copy), ..triangle }
}

/// Replaces the first part of `trio` that equals `old_index` by `new_index`.
fn replace_in(trio: (usize, usize, usize), old_index: usize, new_index: usize) -> (result: (usize, usize, usize))
    ensures
        result == replaced(trio, old_index, new_index),
{
    if old_index == trio.0 {
        (new_index, trio.1, trio.2)
    } else if old_index == trio.1 {
        (trio.0, new_index, trio.2)
    } else if old_index == trio.2 {
        (trio.0, trio.1, new_index)
    } else {
        trio
    }
}

impl<V> ColladaTriangle<V> {
    /// The index of the normal at the corner that holds the vertex `index`.
    pub fn get_normal_for_vertex(&self, index: usize) -> (normal: Option<usize>)
        ensures
            normal == (match self.normals {
                Some(trio) => at_corner(self.vertices, trio, index),
                None => None,
            }),
    {
        match self.normals {
            Some(trio) => {
                if index == self.vertices.0 {
                    Some(trio.0)
                } else if index == self.vertices.1 {
                    Some(trio.1)
                } else if index == self.vertices.2 {
                    Some(trio.2)
                } else {
                    None
                }
            },
            None => None,
        }
    }

    /// The index of the texture coordinates at the corner that holds the vertex `index`.
    pub fn get_uv_for_vertex(&self, index: usize) -> (uv: Option<usize>)
        ensures
            uv == (match self.uvs {
                Some(trio) => at_corner(self.vertices, trio, index),
                None => None,
            }),
    {
        match self.uvs {
            Some(trio) => {
                if index == self.vertices.0 {
                    Some(trio.0)
                } else if index == self.vertices.1 {
                    Some(trio.1)
                } else if index == self.vertices.2 {
                    Some(trio.2)
                } else {
                    None
                }
            },
            None => None,
        }
    }

    /// Puts the vertex `new_index` at the first corner that holds the vertex `old_index`.
    pub fn replace_vertex(&mut self, old_index: usize, new_index: usize)
        ensures
            final(self).vertices == replaced(old(self).vertices, old_index, new_index),
            final(self).normals == old(self).normals,
            final(self).uvs == old(self).uvs,
            final(self).tangeant == old(self).tangeant,
    {
        self.vertices = replace_in(self.vertices, old_index, new_index);
    }

    /// Puts the texture coordinates `new_index` at the first corner that holds `old_index`.
    pub fn replace_uv(&mut self, old_index: usize, new_index: usize)
        ensures
            final(self).uvs == (match old(self).uvs {
                Some(trio) => Some(replaced(trio, old_index, new_index)),
                None => None,
            }),
            final(self).vertices == old(self).vertices,
            final(self).normals == old(self).normals,
            final(self).tangeant == old(self).tangeant,
    {
        match self.uvs {
            Some(trio) => {
                self.uvs = Some(replace_in(trio, old_index, new_index));
            },
            None => {},
        }
    }

    /// Puts the normal `new_index` at the first corner that holds `old_index`.
    pub fn replace_normal(&mut self, old_index: usize, new_index: usize)
        ensures
            final(self).normals == (match old(self).normals {
                Some(trio) => Some(replaced(trio, old_index, new_index)),
                None => None,
            }),
            final(self).vertices == old(self).vertices,
            final(self).uvs == old(self).uvs,
            final(self).tangeant == old(self).tangeant,
    {
        match self.normals {
            Some(trio) => {
                self.normals = Some(replace_in(trio, old_index, new_index));
            },
            None => {},
        }
    }
}

/// The raw data of a mesh: three scalars for each vertex, normal and tangeant,
/// two for each pair of texture coordinates, four for the joint weights of a vertex.
pub struct RawColladaData<T> {
    pub vertices: Vec<T>,
    pub normals: Option<Vec<T>>,
    pub uvs: Option<Vec<T>>,
    pub joint_weights: Option<Vec<T>>,
    pub tangeants: Option<Vec<T>>,
    pub mono_index: bool,
}

/// The scalars behind an optional list.
pub open spec fn scalars_of<T>(list: Option<Vec<T>>) -> Option<Seq<T>> {
    match list {
        Some(v) => Some(v@),
        None => None,
    }
}

/// Copies an optional slice.
fn copy_of<T: Copy>(slice: Option<&[T]>) -> (copy: Option<Vec<T>>)
    ensures
        copy.is_some() == slice.is_some(),
        copy.is_some() ==> copy.unwrap()@ == slice.unwrap()@,
{
    match slice {
        Some(values) => Some(slice_to_vec(values)),
        None => None,
    }
}

impl<T: Copy> RawColladaData<T> {
    /// Raw data with one index for each kind of value, without tangeants.
    pub fn new(vertices: &[T], normals: Option<&[T]>, uvs: Option<&[T]>, joint_weights: Option<&[T]>) -> (data:
        RawColladaData<T>)
        ensures
            data.vertices@ == vertices@,
            data.normals.is_some() == normals.is_some(),
            data.normals.is_some() ==> data.normals.unwrap()@ == normals.unwrap()@,
            data.uvs.is_some() == uvs.is_some(),
            data.uvs.is_some() ==> data.uvs.unwrap()@ == uvs.unwrap()@,
            data.joint_weights.is_some() == joint_weights.is_some(),
            data.joint_weights.is_some() ==> data.joint_weights.unwrap()@ == joint_weights.unwrap()@,
            data.tangeants.is_none(),
            !data.mono_index,
    {
        RawColladaData {
            vertices: slice_to_vec(vertices),
            normals: copy_of(normals),
            uvs: copy_of(uvs),
            joint_weights: copy_of(joint_weights),
            tangeants: None,
            mono_index: false,
        }
    }

    /// Whether this data is `before` with a copy of the vertex `index` behind all
    /// others: of its coordinates and, where the mesh has them, of its tangeant
    /// and of its joint weights. Normals and texture coordinates are as they were.
    pub open spec fn with_copy_of(&self, before: &RawColladaData<T>, index: usize) -> bool {
        &&& self.vertices@ == before.vertices@ + before.vertices@.subrange(index * 3, index * 3 + 3)
        &&& scalars_of(self.tangeants) == (match before.tangeants {
            Some(t) => Some(t@ + t@.subrange(index * 3, index * 3 + 3)),
            None => None,
        })
        &&& scalars_of(self.joint_weights) == (match before.joint_weights {
            Some(w) => Some(w@ + w@.subrange(index * 4, index * 4 + 4)),
            None => None,
        })
        &&& scalars_of(self.normals) == scalars_of(before.normals)
        &&& scalars_of(self.uvs) == scalars_of(before.uvs)
        &&& self.mono_index == before.mono_index
    }

    /// Whether `equal` is an answer that comparing the normals at two indexes by
    /// `same`, scalar by scalar, can give. A mesh without normals has no equal normals.
    pub open spec fn normals_judged<E: Fn(&T, &T) -> bool>(
        &self,
        index1: usize,
        index2: usize,
        same: &E,
        equal: bool,
    ) -> bool {
        match self.normals {
            None => !equal,
            Some(list) => {
                let normals = list@;
                if equal {
                    same.ensures((&normals[index1 * 3], &normals[index2 * 3]), true) && same.ensures(
                        (&normals[index1 * 3 + 1], &normals[index2 * 3 + 1]),
                        true,
                    ) && same.ensures((&normals[index1 * 3 + 2], &normals[index2 * 3 + 2]), true)
                } else {
                    same.ensures((&normals[index1 * 3], &normals[index2 * 3]), false) || same.ensures(
                        (&normals[index1 * 3 + 1], &normals[index2 * 3 + 1]),
                        false,
                    ) || same.ensures((&normals[index1 * 3 + 2], &normals[index2 * 3 + 2]), false)
                }
            },
        }
    }

    /// Whether `equal` is an answer that comparing the texture coordinates at two
    /// indexes by `same`, scalar by scalar, can give. A mesh without texture
    /// coordinates has no equal pairs.
    pub open spec fn uvs_judged<E: Fn(&T, &T) -> bool>(
        &self,
        index1: usize,
        index2: usize,
        same: &E,
        equal: bool,
    ) -> bool {
        match self.uvs {
            None => !equal,
            Some(list) => {
                let uvs = list@;
                if equal {
                    same.ensures((&uvs[index1 * 2], &uvs[index2 * 2]), true) && same.ensures(
                        (&uvs[index1 * 2 + 1], &uvs[index2 * 2 + 1]),
                        true,
                    )
                } else {
                    same.ensures((&uvs[index1 * 2], &uvs[index2 * 2]), false) || same.ensures(
                        (&uvs[index1 * 2 + 1], &uvs[index2 * 2 + 1]),
                        false,
                    )
                }
            },
        }
    }

    /// Whether the vertex `index` has all its values: three coordinates and, where
    /// the mesh has them, three scalars of tangeant and four joint weights.
    pub open spec fn has_vertex(&self, index: usize) -> bool {
        &&& index * 3 + 2 < self.vertices@.len()
        &&& self.tangeants.is_some() ==> index * 3 + 2 < self.tangeants.unwrap()@.len()
        &&& self.joint_weights.is_some() ==> index * 4 + 3 < self.joint_weights.unwrap()@.len()
    }

    /// Adds a copy of the vertex `index` behind all others and returns the index of
    /// the copy. The copy has the coordinates of the vertex and, where the mesh has
    /// them, its tangeant and its joint weights.
    pub fn duplicate_vertex(&mut self, index: usize) -> (new_index: usize)
        requires
            old(self).has_vertex(index),
        ensures
            new_index == old(self).vertices@.len() / 3,
            final(self).vertices@ == old(self).vertices@ + old(self).vertices@.subrange(index * 3, index * 3 + 3),
            scalars_of(final(self).tangeants) == (match old(self).tangeants {
                Some(t) => Some(t@ + t@.subrange(index * 3, index * 3 + 3)),
                None => None,
            }),
            scalars_of(final(self).joint_weights) == (match old(self).joint_weights {
                Some(w) => Some(w@ + w@.subrange(index * 4, index * 4 + 4)),
                None => None,
            }),
            scalars_of(final(self).normals) == scalars_of(old(self).normals),
            scalars_of(final(self).uvs) == scalars_of(old(self).uvs),
            final(self).mono_index == old(self).mono_index,
            final(self).with_copy_of(old(self), index),
    {
        let new_index = self.vertices.len() / 3;
        let x = self.vertices[index * 3];
        let y = self.vertices[index * 3 + 1];
        let z = self.vertices[index * 3 + 2];
        self.vertices.push(x);
        self.vertices.push(y);
        self.vertices.push(z);
        assert(self.vertices@ =~= old(self).vertices@ + old(self).vertices@.subrange(index * 3, index * 3 + 3));
        match &mut self.tangeants {
            Some(tangeants) => {
                let ghost before = tangeants@;
                let length = tangeants.len();
                let x = tangeants[index * 3];
                let y = tangeants[index * 3 + 1];
                let z = tangeants[index * 3 + 2];
                tangeants.push(x);
                tangeants.push(y);
                tangeants.push(z);
                assert(tangeants@ =~= before + before.subrange(index * 3, index * 3 + 3));
            },
            None => {},
        }
        match &mut self.joint_weights {
            Some(joint_weights) => {
                let ghost before = joint_weights@;
                let length = joint_weights.len();
                let a = joint_weights[index * 4];
                let b = joint_weights[index * 4 + 1];
                let c = joint_weights[index * 4 + 2];
                let d = joint_weights[index * 4 + 3];
                joint_weights.push(a);
                joint_weights.push(b);
                joint_weights.push(c);
                joint_weights.push(d);
                assert(joint_weights@ =~= before + before.subrange(index * 4, index * 4 + 4));
            },
            None => {},
        }
        new_index
    }

    /// Whether two pairs of texture coordinates are the same, by the given
    /// comparison of scalars. A mesh without texture coordinates has no equal pairs.
    pub fn uvs_are_equal<E: Fn(&T, &T) -> bool>(&self, index1: usize, index2: usize, same: &E) -> (equal: bool)
        requires
            forall|a: &T, b: &T| #[trigger] same.requires((a, b)),
            self.uvs.is_some() ==> index1 * 2 + 1 < self.uvs.unwrap()@.len() && index2 * 2 + 1
                < self.uvs.unwrap()@.len(),
        ensures
            self.uvs_judged(index1, index2, same, equal),
            self.uvs.is_none() ==> !equal,
            self.uvs.is_some() ==> {
                let uvs = self.uvs.unwrap()@;
                &&& equal ==> same.ensures((&uvs[index1 * 2], &uvs[index2 * 2]), true) && same.ensures(
                    (&uvs[index1 * 2 + 1], &uvs[index2 * 2 + 1]),
                    true,
                )
                &&& !equal ==> same.ensures((&uvs[index1 * 2], &uvs[index2 * 2]), false) || same.ensures(
                    (&uvs[index1 * 2 + 1], &uvs[index2 * 2 + 1]),
                    false,
                )
            },
    {
        match &self.uvs {
            Some(uvs) => {
                let length = uvs.len();
                same(&uvs[index1 * 2], &uvs[index2 * 2]) && same(&uvs[index1 * 2 + 1], &uvs[index2 * 2 + 1])
            },
            None => false,
        }
    }

    /// Whether two normals are the same, by the given comparison of scalars.
    /// A mesh without normals has no equal normals.
    pub fn normals_are_equal<E: Fn(&T, &T) -> bool>(&self, index1: usize, index2: usize, same: &E) -> (equal: bool)
        requires
            forall|a: &T, b: &T| #[trigger] same.requires((a, b)),
            self.normals.is_some() ==> index1 * 3 + 2 < self.normals.unwrap()@.len() && index2 * 3 + 2
                < self.normals.unwrap()@.len(),
        ensures
            self.normals_judged(index1, index2, same, equal),
            self.normals.is_none() ==> !equal,
            self.normals.is_some() ==> {
                let normals = self.normals.unwrap()@;
                &&& equal ==> same.ensures((&normals[index1 * 3], &normals[index2 * 3]), true) && same.ensures(
                    (&normals[index1 * 3 + 1], &normals[index2 * 3 + 1]),
                    true,
                ) && same.ensures((&normals[index1 * 3 + 2], &normals[index2 * 3 + 2]), true)
                &&& !equal ==> same.ensures((&normals[index1 * 3], &normals[index2 * 3]), false) || same.ensures(
                    (&normals[index1 * 3 + 1], &normals[index2 * 3 + 1]),
                    false,
                ) || same.ensures((&normals[index1 * 3 + 2], &normals[index2 * 3 + 2]), false)
            },
    {
        match &self.normals {
            Some(normals) => {
                let length = normals.len();
                same(&normals[index1 * 3], &normals[index2 * 3]) && same(
                    &normals[index1 * 3 + 1],
                    &normals[index2 * 3 + 1],
                ) && same(&normals[index1 * 3 + 2], &normals[index2 * 3 + 2])
            },
            None => false,
        }
    }

    /// The three coordinates of the vertex `i`.
    pub fn get_vertex_at(&self, i: usize) -> (vertex: [T; 3])
        requires
            i * 3 + 2 < self.vertices@.len(),
        ensures
            vertex@ == self.vertices@.subrange(i * 3, i * 3 + 3),
    {
        let length = self.vertices.len();
        let vertex = [self.vertices[i * 3], self.vertices[i * 3 + 1], self.vertices[i * 3 + 2]];
        assert(vertex@ =~= self.vertices@.subrange(i * 3, i * 3 + 3));
        vertex
    }

    /// The two texture coordinates at `i`, if the mesh has texture coordinates.
    pub fn get_uv_at(&self, i: usize) -> (uv: Option<[T; 2]>)
        requires
            self.uvs.is_some() ==> i * 2 + 1 < self.uvs.unwrap()@.len(),
        ensures
            uv.is_some() == self.uvs.is_some(),
            uv.is_some() ==> uv.unwrap()@ == self.uvs.unwrap()@.subrange(i * 2, i * 2 + 2),
    {
        match &self.uvs {
            Some(uvs) => {
                let length = uvs.len();
                let uv = [uvs[i * 2], uvs[i * 2 + 1]];
                assert(uv@ =~= uvs@.subrange(i * 2, i * 2 + 2));
                Some(uv)
            },
            None => None,
        }
    }
}

/// A list of `size` copies of `zero`.
pub fn zeros<T: Copy>(size: usize, zero: T) -> (zero_vec: Vec<T>)
    ensures
        zero_vec@ == Seq::new(size as nat, |i: int| zero),
{
    let mut zero_vec: Vec<T> = Vec::with_capacity(size);
    let mut i: usize = 0;
    while i < size
        invariant
            0 <= i <= size,
            zero_vec@ == Seq::new(i as nat, |k: int| zero),
        decreases size - i,
    {
        zero_vec.push(zero);
        assert(zero_vec@ =~= Seq::new((i + 1) as nat, |k: int| zero));
        i += 1;
    }
    zero_vec
}


/// Name of the position buffer of an imported mesh.
pub const POSITION_ATTRIBUTE: &'static str = "a_position";

/// Name of the normal buffer of an imported mesh.
pub const NORMAL_ATTRIBUTE: &'static str = "a_normal";

/// Name of the texture coordinate buffer of an imported mesh.
pub const UV_ATTRIBUTE: &'static str = "a_tex_coordinates";

/// Name of the tangeant buffer of an imported mesh.
pub const TANGEANT_ATTRIBUTE: &'static str = "a_tangeant";

/// The index that the last corner holding the vertex `v` has in `pick`ed trios:
/// later triangles go before earlier ones, and within a triangle the third
/// corner goes before the second and the second before the first.
pub open spec fn last_index_for<V>(
    triangles: Seq<ColladaTriangle<V>>,
    pick: spec_fn(ColladaTriangle<V>) -> Option<(usize, usize, usize)>,
    v: usize,
) -> Option<usize>
    decreases triangles.len(),
{
    if triangles.len() == 0 {
        None
    } else {
        let last = triangles.last();
        match pick(last) {
            Some(trio) => if v == last.vertices.2 {
                Some(trio.2)
            } else if v == last.vertices.1 {
                Some(trio.1)
            } else if v == last.vertices.0 {
                Some(trio.0)
            } else {
                last_index_for(triangles.drop_last(), pick, v)
            },
            None => last_index_for(triangles.drop_last(), pick, v),
        }
    }
}

/// The normal indexes of a triangle.
pub open spec fn normals_of<V>(triangle: ColladaTriangle<V>) -> Option<(usize, usize, usize)> {
    triangle.normals
}

/// The texture coordinate indexes of a triangle.
pub open spec fn uvs_of<V>(triangle: ColladaTriangle<V>) -> Option<(usize, usize, usize)> {
    triangle.uvs
}

/// Whether the three vertices of every triangle are among the first `count` vertices.
pub open spec fn vertices_below<V>(triangles: Seq<ColladaTriangle<V>>, count: usize) -> bool {
    forall|i: int|
        0 <= i < triangles.len() ==> (#[trigger] triangles[i]).vertices.0 < count && triangles[i].vertices.1
            < count && triangles[i].vertices.2 < count
}

/// Puts `value` at `key`, over what was there.
fn put(indexes: &mut Vec<Option<usize>>, key: usize, value: usize)
    requires
        key < old(indexes)@.len(),
    ensures
        final(indexes)@ == old(indexes)@.update(key as int, Some(value)),
{
    indexes[key] = Some(value);
}

/// For each of the first `vertex_count` vertices, the normal index and the
/// texture coordinate index of the last corner that holds it; none for a vertex
/// that no triangle with such indexes holds.
pub fn gather_indexes<V>(triangles: &Vec<ColladaTriangle<V>>, vertex_count: usize) -> (result: (
    Vec<Option<usize>>,
    Vec<Option<usize>>,
))
    requires
        vertices_below(triangles@, vertex_count),
    ensures
        result.0@.len() == vertex_count,
        result.1@.len() == vertex_count,
        forall|v: int|
            0 <= v < vertex_count ==> #[trigger] result.0@[v] == last_index_for(
                triangles@,
                |t: ColladaTriangle<V>| normals_of(t),
                v as usize,
            ),
        forall|v: int|
            0 <= v < vertex_count ==> #[trigger] result.1@[v] == last_index_for(
                triangles@,
                |t: ColladaTriangle<V>| uvs_of(t),
                v as usize,
            ),
{
    let ghost by_normal = |t: ColladaTriangle<V>| normals_of(t);
    let ghost by_uv = |t: ColladaTriangle<V>| uvs_of(t);
    let mut normals: Vec<Option<usize>> = Vec::new();
    let mut uvs: Vec<Option<usize>> = Vec::new();
    while normals.len() < vertex_count
        invariant
            normals@.len() <= vertex_count,
            uvs@.len() == normals@.len(),
            forall|v: int| 0 <= v < normals@.len() ==> normals@[v].is_none() && uvs@[v].is_none(),
        decreases vertex_count - normals.len(),
    {
        normals.push(None);
        uvs.push(None);
    }
    let mut i: usize = 0;
    while i < triangles.len()
        invariant
            0 <= i <= triangles@.len(),
            vertices_below(triangles@, vertex_count),
            normals@.len() == vertex_count,
            uvs@.len() == vertex_count,
            by_normal == (|t: ColladaTriangle<V>| normals_of(t)),
            by_uv == (|t: ColladaTriangle<V>| uvs_of(t)),
            forall|v: int|
                0 <= v < vertex_count ==> #[trigger] normals@[v] == last_index_for(
                    triangles@.take(i as int),
                    by_normal,
                    v as usize,
                ),
            forall|v: int|
                0 <= v < vertex_count ==> #[trigger] uvs@[v] == last_index_for(
                    triangles@.take(i as int),
                    by_uv,
                    v as usize,
                ),
        decreases triangles@.len() - i,
    {
        let triangle = &triangles[i];
        proof {
            let done = triangles@.take(i as int + 1);
            assert(done.drop_last() =~= triangles@.take(i as int));
            assert(done.last() == *triangle);
            assert(by_normal(*triangle) == triangle.normals);
            assert(by_uv(*triangle) == triangle.uvs);
        }
        match triangle.normals {
            Some(normal_indexes) => {
                put(&mut normals, triangle.vertices.0, normal_indexes.0);
                put(&mut normals, triangle.vertices.1, normal_indexes.1);
                put(&mut normals, triangle.vertices.2, normal_indexes.2);
            },
            None => {},
        }
        match triangle.uvs {
            Some(uv_indexes) => {
                put(&mut uvs, triangle.vertices.0, uv_indexes.0);
                put(&mut uvs, triangle.vertices.1, uv_indexes.1);
                put(&mut uvs, triangle.vertices.2, uv_indexes.2);
            },
            None => {},
        }
        i += 1;
    }
    assert(triangles@.take(triangles@.len() as int) =~= triangles@);
    (normals, uvs)
}

/// The number of entries at the start of a list that are filled.
pub open spec fn filled_prefix(indexes: Seq<Option<usize>>) -> nat
    decreases indexes.len(),
{
    if indexes.len() == 0 || indexes[0].is_none() {
        0
    } else {
        1 + filled_prefix(indexes.drop_first())
    }
}

/// Whether objects of `object_size` scalars can be laid out anew by `indexes`:
/// the filled entries come first, and each names an object that is there.
pub open spec fn can_reindex<T>(objects: Seq<T>, indexes: Seq<Option<usize>>, object_size: usize) -> bool {
    &&& object_size > 0
    &&& forall|v: int| filled_prefix(indexes) <= v < indexes.len() ==> indexes[v].is_none()
    &&& forall|v: int|
        0 <= v < filled_prefix(indexes) ==> object_size * ((#[trigger] indexes[v]).unwrap() + 1) <= objects.len()
    &&& object_size * filled_prefix(indexes) <= usize::MAX
}

/// The first `count` entries of a list with a filled prefix of at least `count` are filled.
pub proof fn lemma_filled_prefix(indexes: Seq<Option<usize>>, v: int)
    requires
        0 <= v < filled_prefix(indexes),
    ensures
        v < indexes.len(),
        indexes[v].is_some(),
    decreases v,
{
    if v > 0 {
        lemma_filled_prefix(indexes.drop_first(), v - 1);
    }
}

/// Counts the entries at the start of a list that are filled.
fn count_filled(indexes: &Vec<Option<usize>>) -> (count: usize)
    ensures
        count == filled_prefix(indexes@),
        count <= indexes@.len(),
{
    let mut count: usize = 0;
    assert(indexes@.subrange(0, indexes@.len() as int) =~= indexes@);
    while count < indexes.len() && indexes[count].is_some()
        invariant
            0 <= count <= indexes@.len(),
            filled_prefix(indexes@) == count + filled_prefix(indexes@.subrange(count as int, indexes@.len() as int)),
        decreases indexes@.len() - count,
    {
        proof {
            let rest = indexes@.subrange(count as int, indexes@.len() as int);
            assert(rest[0] == indexes@[count as int]);
            assert(rest.drop_first() =~= indexes@.subrange(count as int + 1, indexes@.len() as int));
        }
        count += 1;
    }
    proof {
        let rest = indexes@.subrange(count as int, indexes@.len() as int);
        if count < indexes@.len() {
            assert(rest[0] == indexes@[count as int]);
        }
        assert(indexes@.subrange(0, indexes@.len() as int) =~= indexes@);
    }
    count
}

/// Lays a list of objects of `object_size` scalars out anew: the object at
/// position `v` of the new list is the object that `indexes` names for `v`.
/// The new list has an object for each filled entry at the start of `indexes`.
pub fn reindex_objects<T: Copy>(objects: &Vec<T>, indexes: &Vec<Option<usize>>, object_size: usize) -> (result: Vec<
    T,
>)
    requires
        can_reindex(objects@, indexes@, object_size),
    ensures
        result@.len() == object_size * filled_prefix(indexes@),
        forall|v: int, k: int|
            0 <= v < filled_prefix(indexes@) && 0 <= k < object_size ==> #[trigger] result@[object_size * v + k]
                == objects@[object_size * indexes@[v].unwrap() + k],
{
    let count = count_filled(indexes);
    let mut result: Vec<T> = Vec::new();
    let mut v: usize = 0;
    while v < count
        invariant
            0 <= v <= count,
            count == filled_prefix(indexes@),
            count <= indexes@.len(),
            can_reindex(objects@, indexes@, object_size),
            result@.len() == object_size * v,
            forall|w: int, k: int|
                0 <= w < v && 0 <= k < object_size ==> #[trigger] result@[object_size * w + k]
                    == objects@[object_size * indexes@[w].unwrap() + k],
        decreases count - v,
    {
        proof {
            lemma_filled_prefix(indexes@, v as int);
        }
        let from = indexes[v].unwrap();
        let length = objects.len();
        assert(object_size * from + object_size == object_size * (from + 1)) by (nonlinear_arith);
        assert(0 <= object_size * from) by (nonlinear_arith)
            requires
                object_size >= 0,
                from >= 0,
        ;
        let start = object_size * from;
        let ghost before = result@;
        let mut k: usize = 0;
        while k < object_size
            invariant
                0 <= k <= object_size,
                start == object_size * from,
                start + object_size <= objects@.len(),
                objects@.len() == length,
                result@.len() == before.len() + k,
                before.len() == object_size * v,
                forall|x: int| 0 <= x < before.len() ==> result@[x] == before[x],
                forall|j: int| 0 <= j < k ==> #[trigger] result@[before.len() + j] == objects@[start + j],
            decreases object_size - k,
        {
            result.push(objects[start + k]);
            k += 1;
        }
        proof {
            assert(object_size * v + object_size == object_size * (v + 1)) by (nonlinear_arith);
            assert forall|w: int, j: int| 0 <= w < v + 1 && 0 <= j < object_size implies #[trigger] result@[object_size
                * w + j] == objects@[object_size * indexes@[w].unwrap() + j] by {
                if w < v {
                    assert(object_size * w + j < object_size * v) by (nonlinear_arith)
                        requires
                            0 <= w < v,
                            0 <= j < object_size,
                    ;
                    assert(before[object_size * w + j] == objects@[object_size * indexes@[w].unwrap() + j]);
                } else {
                    assert(result@[before.len() + j] == objects@[start + j]);
                }
            }
        }
        v += 1;
    }
    result
}

/// Whether `object_size * (index + 1)` scalars fit in `length`.
fn fits(object_size: usize, index: usize, length: usize) -> (fine: bool)
    requires
        object_size > 0,
    ensures
        fine == (object_size * (index + 1) <= length),
{
    let objects = length / object_size;
    proof {
        let whole = (length / object_size) as int;
        assert(object_size * whole <= length < object_size * (whole + 1)) by (nonlinear_arith)
            requires
                object_size > 0,
                length >= 0,
                whole == length as int / object_size as int,
        ;
        if index < objects {
            assert(object_size * (index + 1) <= object_size * whole) by (nonlinear_arith)
                requires
                    object_size > 0,
                    index + 1 <= whole,
            ;
        } else {
            assert(object_size * (index + 1) >= object_size * (whole + 1)) by (nonlinear_arith)
                requires
                    object_size > 0,
                    index + 1 >= whole + 1,
            ;
        }
    }
    index < objects
}

/// Whether objects of `object_size` scalars can be laid out anew by `indexes`.
pub fn check_reindex<T>(objects: &Vec<T>, indexes: &Vec<Option<usize>>, object_size: usize) -> (fine: bool)
    ensures
        fine == can_reindex(objects@, indexes@, object_size),
{
    if object_size == 0 {
        return false;
    }
    let count = count_filled(indexes);
    let most = usize::MAX / object_size;
    proof {
        let whole = (usize::MAX / object_size) as int;
        assert(object_size * whole <= usize::MAX < object_size * (whole + 1)) by (nonlinear_arith)
            requires
                object_size > 0,
                whole == usize::MAX as int / object_size as int,
        ;
        if count <= most {
            assert(object_size * count <= object_size * whole) by (nonlinear_arith)
                requires
                    object_size > 0,
                    0 <= count <= whole,
            ;
        } else {
            assert(object_size * count >= object_size * (whole + 1)) by (nonlinear_arith)
                requires
                    object_size > 0,
                    count >= whole + 1,
            ;
        }
    }
    if count > most {
        return false;
    }
    let mut v: usize = 0;
    while v < count
        invariant
            0 <= v <= count,
            object_size > 0,
            count == filled_prefix(indexes@),
            count <= indexes@.len(),
            forall|w: int|
                0 <= w < v ==> object_size * ((#[trigger] indexes@[w]).unwrap() + 1) <= objects@.len(),
        decreases count - v,
    {
        proof {
            lemma_filled_prefix(indexes@, v as int);
        }
        if !fits(object_size, indexes[v].unwrap(), objects.len()) {
            return false;
        }
        v += 1;
    }
    let mut w: usize = count;
    while w < indexes.len()
        invariant
            count <= w <= indexes@.len(),
            count == filled_prefix(indexes@),
            forall|x: int| count <= x < w ==> indexes@[x].is_none(),
        decreases indexes@.len() - w,
    {
        if indexes[w].is_some() {
            return false;
        }
        w += 1;
    }
    true
}

/// A Collada mesh: its triangles and its raw data.
pub struct ColladaMesh<T> {
    pub triangles: Vec<ColladaTriangle<[T; 3]>>,
    pub data: RawColladaData<T>,
}

/// The number of vertices of a list of coordinates.
pub open spec fn vertex_count_of<T>(vertices: Seq<T>) -> int {
    vertices.len() as int / 3
}

impl<T: Copy> RawColladaData<T> {
    /// Whether the data can be laid out anew with one index for all kinds of
    /// values: every triangle holds vertices that are there, and the vertices
    /// that have a normal, or texture coordinates, are the first ones.
    pub open spec fn can_become_mono(&self, triangles: Seq<ColladaTriangle<[T; 3]>>) -> bool {
        let count = vertex_count_of(self.vertices@) as usize;
        &&& vertices_below(triangles, count)
        &&& self.normals.is_some() ==> can_reindex(
            self.normals.unwrap()@,
            Seq::new(
                count as nat,
                |v: int| last_index_for(triangles, |t: ColladaTriangle<[T; 3]>| normals_of(t), v as usize),
            ),
            3,
        )
        &&& self.uvs.is_some() ==> can_reindex(
            self.uvs.unwrap()@,
            Seq::new(
                count as nat,
                |v: int| last_index_for(triangles, |t: ColladaTriangle<[T; 3]>| uvs_of(t), v as usize),
            ),
            2,
        )
    }

    /// Whether `now` holds the normals laid out by vertex: for each vertex that
    /// has one, the normal of the last corner that holds the vertex.
    pub open spec fn normals_relaid(&self, triangles: Seq<ColladaTriangle<[T; 3]>>, now: Seq<T>) -> bool {
        let indexes = Seq::new(
            vertex_count_of(self.vertices@) as nat,
            |v: int| last_index_for(triangles, |t: ColladaTriangle<[T; 3]>| normals_of(t), v as usize),
        );
        &&& now.len() == 3 * filled_prefix(indexes)
        &&& forall|v: int, k: int|
            0 <= v < filled_prefix(indexes) && 0 <= k < 3 ==> #[trigger] now[3 * v + k] == self.normals.unwrap()@[3
                * indexes[v].unwrap() + k]
    }

    /// Whether `now` holds the texture coordinates laid out by vertex: for each
    /// vertex that has them, those of the last corner that holds the vertex.
    pub open spec fn uvs_relaid(&self, triangles: Seq<ColladaTriangle<[T; 3]>>, now: Seq<T>) -> bool {
        let indexes = Seq::new(
            vertex_count_of(self.vertices@) as nat,
            |v: int| last_index_for(triangles, |t: ColladaTriangle<[T; 3]>| uvs_of(t), v as usize),
        );
        &&& now.len() == 2 * filled_prefix(indexes)
        &&& forall|v: int, k: int|
            0 <= v < filled_prefix(indexes) && 0 <= k < 2 ==> #[trigger] now[2 * v + k] == self.uvs.unwrap()@[2
                * indexes[v].unwrap() + k]
    }

    /// Whether the data can be laid out anew with one index for all kinds of values.
    pub fn check_mono(&self, triangles: &Vec<ColladaTriangle<[T; 3]>>) -> (fine: bool)
        ensures
            fine == self.can_become_mono(triangles@),
    {
        let count = self.vertices.len() / 3;
        let mut i: usize = 0;
        while i < triangles.len()
            invariant
                0 <= i <= triangles@.len(),
                count == vertex_count_of(self.vertices@),
                vertices_below(triangles@.take(i as int), count),
            decreases triangles@.len() - i,
        {
            let t = &triangles[i];
            if t.vertices.0 >= count || t.vertices.1 >= count || t.vertices.2 >= count {
                assert(!vertices_below(triangles@, count)) by {
                    assert(triangles@[i as int] == *t);
                }
                return false;
            }
            proof {
                let done = triangles@.take(i as int + 1);
                assert forall|k: int| 0 <= k < done.len() implies (#[trigger] done[k]).vertices.0 < count
                    && done[k].vertices.1 < count && done[k].vertices.2 < count by {
                    if k < i {
                        assert(done[k] == triangles@.take(i as int)[k]);
                    }
                }
            }
            i += 1;
        }
        assert(triangles@.take(triangles@.len() as int) =~= triangles@);
        let (normals_hash, uvs_hash) = gather_indexes(triangles, count);
        proof {
            assert(normals_hash@ =~= Seq::new(
                count as nat,
                |v: int| last_index_for(triangles@, |t: ColladaTriangle<[T; 3]>| normals_of(t), v as usize),
            ));
            assert(uvs_hash@ =~= Seq::new(
                count as nat,
                |v: int| last_index_for(triangles@, |t: ColladaTriangle<[T; 3]>| uvs_of(t), v as usize),
            ));
        }
        let normals_fine = match &self.normals {
            Some(normals) => check_reindex(normals, &normals_hash, 3),
            None => true,
        };
        let uvs_fine = match &self.uvs {
            Some(uvs) => check_reindex(uvs, &uvs_hash, 2),
            None => true,
        };
        normals_fine && uvs_fine
    }

    /// Lays the normals and the texture coordinates out anew, so that the index
    /// of a vertex is also the index of its normal and of its texture
    /// coordinates: those of the last corner that holds the vertex. The
    /// vertices, the joint weights and the tangeants stay as they are.
    pub fn new_mono_from_multi_indexed(
        multi: &RawColladaData<T>,
        triangles: &Vec<ColladaTriangle<[T; 3]>>,
    ) -> (data: RawColladaData<T>)
        requires
            multi.can_become_mono(triangles@),
        ensures
            data.mono_index,
            data.vertices@ == multi.vertices@,
            scalars_of(data.joint_weights) == scalars_of(multi.joint_weights),
            scalars_of(data.tangeants) == scalars_of(multi.tangeants),
            data.normals.is_some() == multi.normals.is_some(),
            data.uvs.is_some() == multi.uvs.is_some(),
            data.normals.is_some() ==> multi.normals_relaid(triangles@, data.normals.unwrap()@),
            data.uvs.is_some() ==> multi.uvs_relaid(triangles@, data.uvs.unwrap()@),
    {
        let vertex_count = multi.vertices.len() / 3;
        let (normals_hash, uvs_hash) = gather_indexes(triangles, vertex_count);
        proof {
            assert(normals_hash@ =~= Seq::new(
                vertex_count as nat,
                |v: int| last_index_for(triangles@, |t: ColladaTriangle<[T; 3]>| normals_of(t), v as usize),
            ));
            assert(uvs_hash@ =~= Seq::new(
                vertex_count as nat,
                |v: int| last_index_for(triangles@, |t: ColladaTriangle<[T; 3]>| uvs_of(t), v as usize),
            ));
        }
        let normals = match &multi.normals {
            Some(vec) => Some(reindex_objects(vec, &normals_hash, 3)),
            None => None,
        };
        let uvs = match &multi.uvs {
            Some(vec) => Some(reindex_objects(vec, &uvs_hash, 2)),
            None => None,
        };
        RawColladaData {
            vertices: slice_to_vec(multi.vertices.as_slice()),
            normals,
            uvs,
            joint_weights: match &multi.joint_weights {
                Some(vec) => Some(slice_to_vec(vec.as_slice())),
                None => None,
            },
            tangeants: match &multi.tangeants {
                Some(vec) => Some(slice_to_vec(vec.as_slice())),
                None => None,
            },
            mono_index: true,
        }
    }
}

/// The vertex indexes of a list of triangles, three for each triangle, as the
/// graphics context takes them.
pub open spec fn index_list<V>(triangles: Seq<ColladaTriangle<V>>) -> Seq<u32>
    decreases triangles.len(),
{
    if triangles.len() == 0 {
        Seq::empty()
    } else {
        index_list(triangles.drop_last()).push(triangles.last().vertices.0 as u32).push(
            triangles.last().vertices.1 as u32,
        ).push(triangles.last().vertices.2 as u32)
    }
}


/// The triangles that hold the vertex `v`, by their position in the list: one
/// entry for each corner that holds it, in the order of the triangles.
pub open spec fn holders<V>(triangles: Seq<ColladaTriangle<V>>, v: usize) -> Seq<usize>
    decreases triangles.len(),
{
    if triangles.len() == 0 {
        Seq::empty()
    } else {
        let last = triangles.last();
        let at = (triangles.len() - 1) as usize;
        holders(triangles.drop_last(), v) + (if last.vertices.0 == v {
            seq![at]
        } else {
            Seq::empty()
        }) + (if last.vertices.1 == v {
            seq![at]
        } else {
            Seq::empty()
        }) + (if last.vertices.2 == v {
            seq![at]
        } else {
            Seq::empty()
        })
    }
}

/// Every holder of a vertex is a triangle of the list.
pub proof fn lemma_holders_in_range<V>(triangles: Seq<ColladaTriangle<V>>, v: usize, k: int)
    requires
        0 <= k < holders(triangles, v).len(),
    ensures
        0 <= holders(triangles, v)[k] < triangles.len(),
    decreases triangles.len(),
{
    if triangles.len() > 0 {
        let rest = holders(triangles.drop_last(), v);
        if k < rest.len() {
            lemma_holders_in_range(triangles.drop_last(), v, k);
        }
    }
}

impl<T: Copy> RawColladaData<T> {
    /// Number of vertices.
    pub open spec fn vertex_count(&self) -> int {
        vertex_count_of(self.vertices@)
    }

    /// Whether every vertex has all its values: the coordinates come in threes,
    /// and where the mesh has tangeants or joint weights it has them for every vertex.
    pub open spec fn aligned(&self) -> bool {
        &&& self.vertices@.len() % 3 == 0
        &&& self.tangeants.is_some() ==> self.tangeants.unwrap()@.len() == self.vertices@.len()
        &&& self.joint_weights.is_some() ==> self.joint_weights.unwrap()@.len() * 3 == self.vertices@.len() * 4
    }

    /// Whether the mesh has a normal at `index`, if it has normals at all.
    pub open spec fn has_normal(&self, index: usize) -> bool {
        self.normals.is_some() ==> index * 3 + 2 < self.normals.unwrap()@.len()
    }

    /// Whether the mesh has texture coordinates at `index`, if it has any at all.
    pub open spec fn has_uv(&self, index: usize) -> bool {
        self.uvs.is_some() ==> index * 2 + 1 < self.uvs.unwrap()@.len()
    }

    /// The coordinates of the vertex `v`.
    pub open spec fn position(&self, v: usize) -> Seq<T> {
        self.vertices@.subrange(v * 3, v * 3 + 3)
    }

    /// Whether the values of a triangle are all there.
    pub open spec fn holds(&self, triangle: ColladaTriangle<[T; 3]>) -> bool {
        &&& triangle.vertices.0 < self.vertex_count()
        &&& triangle.vertices.1 < self.vertex_count()
        &&& triangle.vertices.2 < self.vertex_count()
        &&& triangle.normals.is_some() ==> self.has_normal(triangle.normals.unwrap().0) && self.has_normal(
            triangle.normals.unwrap().1,
        ) && self.has_normal(triangle.normals.unwrap().2)
        &&& triangle.uvs.is_some() ==> self.has_uv(triangle.uvs.unwrap().0) && self.has_uv(
            triangle.uvs.unwrap().1,
        ) && self.has_uv(triangle.uvs.unwrap().2)
    }

    /// Whether the values of a triangle are all there.
    pub fn check_triangle(&self, triangle: &ColladaTriangle<[T; 3]>) -> (holds: bool)
        ensures
            holds == self.holds(*triangle),
    {
        let count = self.vertices.len() / 3;
        if triangle.vertices.0 >= count || triangle.vertices.1 >= count || triangle.vertices.2 >= count {
            return false;
        }
        let normals_fine = match (&triangle.normals, &self.normals) {
            (Some(trio), Some(normals)) => {
                let limit = normals.len() / 3;
                trio.0 < limit && trio.1 < limit && trio.2 < limit
            },
            _ => true,
        };
        let uvs_fine = match (&triangle.uvs, &self.uvs) {
            (Some(trio), Some(uvs)) => {
                let limit = uvs.len() / 2;
                trio.0 < limit && trio.1 < limit && trio.2 < limit
            },
            _ => true,
        };
        normals_fine && uvs_fine
    }

    /// Whether every vertex has all its values.
    pub fn check_aligned(&self) -> (aligned: bool)
        ensures
            aligned == self.aligned(),
    {
        let length = self.vertices.len();
        if length % 3 != 0 {
            return false;
        }
        let tangeants_fine = match &self.tangeants {
            Some(tangeants) => tangeants.len() == length,
            None => true,
        };
        let weights_fine = match &self.joint_weights {
            Some(weights) => {
                let per_vertex = weights.len() / 4;
                weights.len() % 4 == 0 && per_vertex == length / 3
            },
            None => true,
        };
        tangeants_fine && weights_fine
    }
}

impl<T: Copy> ColladaMesh<T> {
    /// Whether the mesh is whole: every vertex has all its values, and the values of every triangle are there.
    pub open spec fn sound(&self) -> bool {
        &&& self.data.aligned()
        &&& forall|i: int| 0 <= i < self.triangles@.len() ==> self.data.holds(#[trigger] self.triangles@[i])
    }

    /// Whether the mesh is whole.
    pub fn check(&self) -> (sound: bool)
        ensures
            sound == self.sound(),
    {
        if !self.data.check_aligned() {
            return false;
        }
        let mut i: usize = 0;
        while i < self.triangles.len()
            invariant
                0 <= i <= self.triangles@.len(),
                forall|k: int| 0 <= k < i ==> self.data.holds(#[trigger] self.triangles@[k]),
            decreases self.triangles@.len() - i,
        {
            if !self.data.check_triangle(&self.triangles[i]) {
                return false;
            }
            i += 1;
        }
        true
    }

    /// For each vertex, the triangles that hold it.
    pub fn triangle_indexes_by_vertex_index(&self) -> (result: Vec<Vec<usize>>)
        requires
            self.sound(),
        ensures
            result@.len() == self.data.vertex_count(),
            forall|v: int| 0 <= v < result@.len() ==> (#[trigger] result@[v])@ == holders(self.triangles@, v as usize),
    {
        let count = self.data.vertices.len() / 3;
        let mut result: Vec<Vec<usize>> = Vec::new();
        while result.len() < count
            invariant
                result@.len() <= count,
                forall|v: int| 0 <= v < result@.len() ==> (#[trigger] result@[v])@.len() == 0,
            decreases count - result.len(),
        {
            result.push(Vec::new());
        }
        let mut i: usize = 0;
        while i < self.triangles.len()
            invariant
                0 <= i <= self.triangles@.len(),
                self.sound(),
                count == self.data.vertex_count(),
                result@.len() == count,
                forall|v: int|
                    0 <= v < count ==> (#[trigger] result@[v])@ == holders(self.triangles@.take(i as int), v as usize),
            decreases self.triangles@.len() - i,
        {
            let ghost before = result@;
            let triangle = &self.triangles[i];
            assert(self.data.holds(self.triangles@[i as int]));
            proof {
                let done = self.triangles@.take(i as int + 1);
                assert(done.drop_last() =~= self.triangles@.take(i as int));
                assert(done.last() == *triangle);
            }
            Self::insert_in_hashmap_vec(triangle.vertices.0, i, &mut result);
            Self::insert_in_hashmap_vec(triangle.vertices.1, i, &mut result);
            Self::insert_in_hashmap_vec(triangle.vertices.2, i, &mut result);
            assert forall|v: int| 0 <= v < count implies (#[trigger] result@[v])@ == holders(
                self.triangles@.take(i as int + 1),
                v as usize,
            ) by {
                assert(before[v]@ == holders(self.triangles@.take(i as int), v as usize));
                assert(result@[v]@ =~= holders(self.triangles@.take(i as int + 1), v as usize));
            }
            i += 1;
        }
        assert(self.triangles@.take(self.triangles@.len() as int) =~= self.triangles@);
        result
    }

    /// Adds a triangle to the triangles that hold the vertex `key`.
    fn insert_in_hashmap_vec(key: usize, value: usize, map: &mut Vec<Vec<usize>>)
        requires
            key < old(map)@.len(),
        ensures
            final(map)@.len() == old(map)@.len(),
            final(map)@[key as int]@ == old(map)@[key as int]@.push(value),
            forall|v: int| 0 <= v < old(map)@.len() && v != key ==> #[trigger] final(map)@[v] == old(map)@[v],
    {
        map[key].push(value);
    }

    /// Whether every triangle is where it was: the mesh has the same triangles
    /// in number, each corner lies where it lay, and the normals and the texture
    /// coordinates are the same lists. Vertices may have been added behind those
    /// that were there.
    pub open spec fn same_shape(&self, before: &ColladaMesh<T>) -> bool {
        &&& self.triangles@.len() == before.triangles@.len()
        &&& self.data.mono_index == before.data.mono_index
        &&& scalars_of(self.data.normals) == scalars_of(before.data.normals)
        &&& scalars_of(self.data.uvs) == scalars_of(before.data.uvs)
        &&& before.data.vertices@.len() <= self.data.vertices@.len()
        &&& self.data.vertices@.subrange(0, before.data.vertices@.len() as int) == before.data.vertices@
        &&& self.data.tangeants.is_some() == before.data.tangeants.is_some()
        &&& self.data.joint_weights.is_some() == before.data.joint_weights.is_some()
        &&& forall|i: int|
            0 <= i < before.triangles@.len() ==> {
                &&& self.data.position((#[trigger] self.triangles@[i]).vertices.0) == before.data.position(
                    before.triangles@[i].vertices.0,
                )
                &&& self.data.position(self.triangles@[i].vertices.1) == before.data.position(
                    before.triangles@[i].vertices.1,
                )
                &&& self.data.position(self.triangles@[i].vertices.2) == before.data.position(
                    before.triangles@[i].vertices.2,
                )
                &&& self.triangles@[i].tangeant == before.triangles@[i].tangeant
                &&& self.triangles@[i].normals.is_some() == before.triangles@[i].normals.is_some()
                &&& self.triangles@[i].uvs.is_some() == before.triangles@[i].uvs.is_some()
            }
    }

    /// Whether this mesh is `before` after the triangle at `at` took the index
    /// `agreed` in the place of `index`; the data is as it was.
    pub open spec fn took_index(
        &self,
        before: &ColladaMesh<T>,
        at: usize,
        index: usize,
        agreed: usize,
        by_normal: bool,
    ) -> bool {
        &&& self.data == before.data
        &&& self.triangles@ == before.triangles@.update(
            at as int,
            agreeing(before.triangles@[at as int], index, agreed, by_normal),
        )
    }

    /// Whether this mesh is `before` after the triangle at `at` got a copy of the
    /// vertex `vert` for itself: the copy stands behind all other vertices, and
    /// the triangle holds it at the first corner that held `vert`.
    pub open spec fn got_own_vertex(&self, before: &ColladaMesh<T>, at: usize, vert: usize) -> bool {
        &&& self.data.with_copy_of(&before.data, vert)
        &&& self.triangles@ == before.triangles@.update(
            at as int,
            moved(before.triangles@[at as int], vert, (before.data.vertices@.len() / 3) as usize),
        )
    }

    /// Whether `equal` is an answer that comparing the values at two indexes by
    /// `same` can give: the normals where `by_normal` holds, the texture
    /// coordinates where it does not.
    pub open spec fn judged<E: Fn(&T, &T) -> bool>(
        &self,
        index1: usize,
        index2: usize,
        same: &E,
        by_normal: bool,
        equal: bool,
    ) -> bool {
        if by_normal {
            self.data.normals_judged(index1, index2, same, equal)
        } else {
            self.data.uvs_judged(index1, index2, same, equal)
        }
    }

    /// One visit: what becomes of the mesh `before` when the triangle at `at` is
    /// asked for its index for the vertex `vert`, `reference` being the index
    /// that the triangles before it settled on, and `settled` the one they have
    /// settled on afterwards.
    ///
    /// A triangle without an index for the vertex changes nothing. The first
    /// triangle with one sets the reference. A later triangle with the same
    /// index changes nothing. One with another index is compared by `same`:
    /// where the values are judged equal, the triangle takes the reference in
    /// the place of its index; where they are not, it gets a copy of the vertex.
    pub open spec fn visited<E: Fn(&T, &T) -> bool>(
        &self,
        before: &ColladaMesh<T>,
        at: usize,
        vert: usize,
        reference: Option<usize>,
        settled: Option<usize>,
        same: &E,
        by_normal: bool,
    ) -> bool {
        match index_for(before.triangles@[at as int], vert, by_normal) {
            None => *self == *before && settled == reference,
            Some(index) => match reference {
                None => *self == *before && settled == Some(index),
                Some(agreed) => {
                    &&& settled == reference
                    &&& if agreed == index {
                        *self == *before
                    } else {
                        ||| before.judged(index, agreed, same, by_normal, true) && self.took_index(
                            before,
                            at,
                            index,
                            agreed,
                            by_normal,
                        )
                        ||| before.judged(index, agreed, same, by_normal, false) && self.got_own_vertex(
                            before,
                            at,
                            vert,
                        )
                    }
                },
            },
        }
    }

    /// Whether this mesh is `before` after the triangles at `holders` were
    /// visited for the vertex `vert`, one after the other, and `settled` is the
    /// index that they settled on.
    pub open spec fn visited_all<E: Fn(&T, &T) -> bool>(
        &self,
        before: &ColladaMesh<T>,
        holders: Seq<usize>,
        vert: usize,
        settled: Option<usize>,
        same: &E,
        by_normal: bool,
    ) -> bool
        decreases holders.len(),
    {
        if holders.len() == 0 {
            *self == *before && settled.is_none()
        } else {
            exists|mid: ColladaMesh<T>, reference: Option<usize>|
                {
                    &&& mid.visited_all(before, holders.drop_last(), vert, reference, same, by_normal)
                    &&& #[trigger] self.visited(&mid, holders.last(), vert, reference, settled, same, by_normal)
                }
        }
    }

    /// Whether this mesh is `before` after the first `reached` vertices were gone
    /// through in their order, each with the triangles that held it in `entry`.
    pub open spec fn unified_up_to<E: Fn(&T, &T) -> bool>(
        &self,
        before: &ColladaMesh<T>,
        entry: Seq<ColladaTriangle<[T; 3]>>,
        reached: int,
        same: &E,
        by_normal: bool,
    ) -> bool
        decreases reached,
    {
        if reached <= 0 {
            *self == *before
        } else {
            exists|mid: ColladaMesh<T>, settled: Option<usize>|
                {
                    &&& mid.unified_up_to(before, entry, reached - 1, same, by_normal)
                    &&& #[trigger] self.visited_all(
                        &mid,
                        holders(entry, (reached - 1) as usize),
                        (reached - 1) as usize,
                        settled,
                        same,
                        by_normal,
                    )
                }
        }
    }

    /// Whether this mesh is `before` after one pass over its vertices: over the
    /// normals where `by_normal` holds, over the texture coordinates where it
    /// does not. The vertices that `before` has are gone through in their
    /// order, each with the triangles that hold it in `before`, in the order of
    /// the triangles; a vertex that the pass adds is not gone through.
    pub open spec fn unified<E: Fn(&T, &T) -> bool>(&self, before: &ColladaMesh<T>, same: &E, by_normal: bool) -> bool {
        self.unified_up_to(before, before.triangles@, before.data.vertex_count(), same, by_normal)
    }

    /// Goes through the triangles that hold each vertex and makes them agree on
    /// one normal (`by_normal`) or on one pair of texture coordinates for it. The
    /// first triangle sets the index for the vertex. A later triangle that has
    /// another index for it takes that index if the two name equal values; if
    /// they do not, the triangle gets a copy of the vertex for itself.
    fn unify<E: Fn(&T, &T) -> bool>(&mut self, same: &E, by_normal: bool)
        requires
            old(self).sound(),
            forall|a: &T, b: &T| #[trigger] same.requires((a, b)),
        ensures
            final(self).sound(),
            final(self).same_shape(old(self)),
            final(self).unified(old(self), same, by_normal),
    {
        let index_map = self.triangle_indexes_by_vertex_index();
        let ghost before = *self;
        proof {
            assert forall|v: int, k: int| 0 <= v < index_map@.len() && 0 <= k < index_map@[v]@.len() implies (
            #[trigger] index_map@[v]@[k]) < self.triangles@.len() by {
                lemma_holders_in_range(self.triangles@, v as usize, k);
            }
            assert(self.data.vertices@.subrange(0, self.data.vertices@.len() as int) =~= self.data.vertices@);
        }
        let mut vert: usize = 0;
        while vert < index_map.len()
            invariant
                0 <= vert <= index_map@.len(),
                index_map@.len() <= self.data.vertex_count(),
                forall|a: &T, b: &T| #[trigger] same.requires((a, b)),
                forall|v: int, k: int|
                    0 <= v < index_map@.len() && 0 <= k < index_map@[v]@.len() ==> (#[trigger] index_map@[v]@[k])
                        < self.triangles@.len(),
                before.sound(),
                self.sound(),
                self.same_shape(&before),
                index_map@.len() == before.data.vertex_count(),
                forall|v: int|
                    0 <= v < index_map@.len() ==> (#[trigger] index_map@[v])@ == holders(before.triangles@, v as usize),
                self.unified_up_to(&before, before.triangles@, vert as int, same, by_normal),
            decreases index_map@.len() - vert,
        {
            let ghost start = *self;
            let mut reference: Option<usize> = None;
            let mut k: usize = 0;
            assert(index_map@[vert as int]@.take(0) =~= Seq::<usize>::empty());
            while k < index_map[vert].len()
                invariant
                    self.visited_all(&start, index_map@[vert as int]@.take(k as int), vert, reference, same, by_normal),
                    start.unified_up_to(&before, before.triangles@, vert as int, same, by_normal),
                    index_map@.len() == before.data.vertex_count(),
                    index_map@[vert as int]@ == holders(before.triangles@, vert),
                    0 <= k <= index_map@[vert as int]@.len(),
                    0 <= vert < index_map@.len(),
                    index_map@.len() <= self.data.vertex_count(),
                    forall|a: &T, b: &T| #[trigger] same.requires((a, b)),
                    forall|v: int, j: int|
                        0 <= v < index_map@.len() && 0 <= j < index_map@[v]@.len() ==> (#[trigger] index_map@[v]@[j])
                            < self.triangles@.len(),
                    before.sound(),
                    self.sound(),
                    self.same_shape(&before),
                    reference.is_some() ==> (if by_normal {
                        self.data.has_normal(reference.unwrap())
                    } else {
                        self.data.has_uv(reference.unwrap())
                    }),
                decreases index_map@[vert as int]@.len() - k,
            {
                let at = index_map[vert][k];
                let ghost mid = *self;
                let ghost reference_before = reference;
                proof {
                    let done = index_map@[vert as int]@.take(k as int + 1);
                    assert(done.drop_last() =~= index_map@[vert as int]@.take(k as int));
                    assert(done.last() == at);
                }
                assert(self.data.holds(self.triangles@[at as int]));
                let found = if by_normal {
                    self.triangles[at].get_normal_for_vertex(vert)
                } else {
                    self.triangles[at].get_uv_for_vertex(vert)
                };
                match found {
                    Some(index) => {
                        match reference {
                            Some(agreed) => {
                                if agreed != index {
                                    let equal = if by_normal {
                                        self.data.normals_are_equal(index, agreed, same)
                                    } else {
                                        self.data.uvs_are_equal(index, agreed, same)
                                    };
                                    if !equal {
                                        self.give_own_vertex(Ghost(before), at, vert);
                                    } else {
                                        self.take_index(Ghost(before), at, index, agreed, by_normal);
                                    }
                                }
                            },
                            None => {
                                reference = Some(index);
                            },
                        }
                    },
                    None => {},
                }
                assert(self.visited(&mid, at, vert, reference_before, reference, same, by_normal));
                k += 1;
            }
            assert(index_map@[vert as int]@.take(index_map@[vert as int]@.len() as int) =~= index_map@[vert as int]@);
            assert(self.visited_all(
                &start,
                holders(before.triangles@, (vert as int + 1 - 1) as usize),
                (vert as int + 1 - 1) as usize,
                reference,
                same,
                by_normal,
            ));
            assert(self.unified_up_to(&before, before.triangles@, vert as int + 1, same, by_normal));
            vert += 1;
        }
    }

    /// Gives the triangle at `at` a copy of the vertex `vert` in the place of `vert`.
    fn give_own_vertex(&mut self, Ghost(before): Ghost<ColladaMesh<T>>, at: usize, vert: usize)
        requires
            old(self).sound(),
            old(self).same_shape(&before),
            at < old(self).triangles@.len(),
            vert < old(self).data.vertex_count(),
        ensures
            final(self).sound(),
            final(self).same_shape(&before),
            final(self).data.vertex_count() == old(self).data.vertex_count() + 1,
            scalars_of(final(self).data.normals) == scalars_of(old(self).data.normals),
            scalars_of(final(self).data.uvs) == scalars_of(old(self).data.uvs),
            final(self).got_own_vertex(old(self), at, vert),
    {
        let ghost prior = *self;
        let copy = self.data.duplicate_vertex(vert);
        self.triangles[at].replace_vertex(vert, copy);
        proof {
            assert(self.triangles@ =~= prior.triangles@.update(at as int, moved(prior.triangles@[at as int], vert, copy)));
            let was = prior.data.vertices@;
            let now = self.data.vertices@;
            assert(now.subrange(0, before.data.vertices@.len() as int) =~= before.data.vertices@) by {
                assert(was.subrange(0, before.data.vertices@.len() as int) == before.data.vertices@);
            }
            assert forall|v: usize| v < prior.data.vertex_count() implies #[trigger] self.data.position(v)
                =~= prior.data.position(v) by {}
            assert(self.data.position(copy) =~= prior.data.position(vert));
            assert forall|i: int| 0 <= i < self.triangles@.len() implies self.data.holds(
                #[trigger] self.triangles@[i],
            ) by {
                assert(prior.data.holds(prior.triangles@[i]));
            }
            assert forall|i: int| 0 <= i < before.triangles@.len() implies {
                &&& self.data.position((#[trigger] self.triangles@[i]).vertices.0) == before.data.position(
                    before.triangles@[i].vertices.0,
                )
                &&& self.data.position(self.triangles@[i].vertices.1) == before.data.position(
                    before.triangles@[i].vertices.1,
                )
                &&& self.data.position(self.triangles@[i].vertices.2) == before.data.position(
                    before.triangles@[i].vertices.2,
                )
                &&& self.triangles@[i].tangeant == before.triangles@[i].tangeant
                &&& self.triangles@[i].normals.is_some() == before.triangles@[i].normals.is_some()
                &&& self.triangles@[i].uvs.is_some() == before.triangles@[i].uvs.is_some()
            } by {
                assert(prior.data.holds(prior.triangles@[i]));
                let t = prior.triangles@[i];
                assert(prior.data.position(t.vertices.0) == before.data.position(before.triangles@[i].vertices.0));
                assert(self.data.position(t.vertices.0) == prior.data.position(t.vertices.0));
                assert(self.data.position(t.vertices.1) == prior.data.position(t.vertices.1));
                assert(self.data.position(t.vertices.2) == prior.data.position(t.vertices.2));
            }
        }
    }

    /// Lets the triangle at `at` take the index `agreed` in the place of `index`.
    fn take_index(&mut self, Ghost(before): Ghost<ColladaMesh<T>>, at: usize, index: usize, agreed: usize, by_normal: bool)
        requires
            old(self).sound(),
            old(self).same_shape(&before),
            at < old(self).triangles@.len(),
            by_normal ==> old(self).data.has_normal(agreed),
            !by_normal ==> old(self).data.has_uv(agreed),
        ensures
            final(self).sound(),
            final(self).same_shape(&before),
            final(self).data == old(self).data,
            final(self).triangles@ == old(self).triangles@.update(
                at as int,
                agreeing(old(self).triangles@[at as int], index, agreed, by_normal),
            ),
    {
        let ghost prior = *self;
        if by_normal {
            self.triangles[at].replace_normal(index, agreed);
        } else {
            self.triangles[at].replace_uv(index, agreed);
        }
        proof {
            assert(self.triangles@ =~= prior.triangles@.update(
                at as int,
                agreeing(prior.triangles@[at as int], index, agreed, by_normal),
            ));
            assert forall|i: int| 0 <= i < self.triangles@.len() implies self.data.holds(
                #[trigger] self.triangles@[i],
            ) by {
                assert(prior.data.holds(prior.triangles@[i]));
            }
            assert forall|i: int| 0 <= i < before.triangles@.len() implies {
                &&& self.data.position((#[trigger] self.triangles@[i]).vertices.0) == before.data.position(
                    before.triangles@[i].vertices.0,
                )
                &&& self.data.position(self.triangles@[i].vertices.1) == before.data.position(
                    before.triangles@[i].vertices.1,
                )
                &&& self.data.position(self.triangles@[i].vertices.2) == before.data.position(
                    before.triangles@[i].vertices.2,
                )
                &&& self.triangles@[i].tangeant == before.triangles@[i].tangeant
                &&& self.triangles@[i].normals.is_some() == before.triangles@[i].normals.is_some()
                &&& self.triangles@[i].uvs.is_some() == before.triangles@[i].uvs.is_some()
            } by {
                let t = prior.triangles@[i];
                assert(prior.data.position(t.vertices.0) == before.data.position(before.triangles@[i].vertices.0));
            }
        }
    }

    /// Prepares the mesh for one index per corner, in two passes: one over the
    /// normals, then one over the texture coordinates. A pass goes through the
    /// vertices and, for each, through the triangles that hold it. The first
    /// triangle sets the index for the vertex; a later one with another index
    /// takes that index where `same` judges the values equal, and gets a copy of
    /// the vertex where it does not. Every triangle stays where it was.
    pub fn simplify_indexes<E: Fn(&T, &T) -> bool>(&mut self, same: &E)
        requires
            old(self).sound(),
            forall|a: &T, b: &T| #[trigger] same.requires((a, b)),
        ensures
            final(self).sound(),
            final(self).same_shape(old(self)),
            exists|middle: ColladaMesh<T>| #[trigger]
                middle.unified(old(self), same, true) && final(self).unified(&middle, same, false),
    {
        self.unify(same, true);
        let ghost middle = *self;
        self.unify(same, false);
        assert(middle.unified(old(self), same, true) && self.unified(&middle, same, false));
        proof {
            let first = old(self).data.vertices@;
            assert(self.data.vertices@.subrange(0, first.len() as int) =~= first) by {
                assert(middle.data.vertices@.subrange(0, first.len() as int) == first);
                assert(self.data.vertices@.subrange(0, middle.data.vertices@.len() as int) == middle.data.vertices@);
            }
        }
    }

    /// Makes a mesh of the engine of this mesh: positions, normals, texture
    /// coordinates and tangeants as far as the mesh has them, laid out with one
    /// index per corner, and the indexes of the corners, three for each triangle.
    pub fn to_mesh(&self, name: &str) -> (mesh: Mesh<T>)
        requires
            self.data.can_become_mono(self.triangles@),
        ensures
            mesh.name_view() == name@,
            mesh.positions_view().name_view() == POSITION_ATTRIBUTE@,
            mesh.positions_view().data_size_view() == 3,
            mesh.positions_view().value_view().is_none(),
            mesh.indexes_view().is_some(),
            mesh.indexes_view().unwrap().data_size_view() == 3,
            mesh.indexes_view().unwrap().name_view() == Seq::<char>::empty(),
            mesh.normals_view().is_some() == self.data.normals.is_some(),
            mesh.normals_view().is_some() ==> mesh.normals_view().unwrap().name_view() == NORMAL_ATTRIBUTE@,
            mesh.uvs_view().is_some() == self.data.uvs.is_some(),
            mesh.uvs_view().is_some() ==> mesh.uvs_view().unwrap().name_view() == UV_ATTRIBUTE@,
            mesh.tangeants_view().is_some() == self.data.tangeants.is_some(),
            mesh.tangeants_view().is_some() ==> mesh.tangeants_view().unwrap().name_view() == TANGEANT_ATTRIBUTE@,
            mesh.joint_weights_view().is_none(),
            index_data(mesh.indexes_view().unwrap()) == Some(index_list(self.triangles@)),
            mesh.indexes_view().unwrap().value_view().is_none(),
            vertex_data(mesh.positions_view()) == Some(self.data.vertices@),
            mesh.normals_view().is_some() ==> {
                let buffer = mesh.normals_view().unwrap();
                &&& buffer.data_size_view() == 3
                &&& buffer.value_view().is_none()
                &&& vertex_data(buffer).is_some()
                &&& self.data.normals_relaid(self.triangles@, vertex_data(buffer).unwrap())
            },
            mesh.uvs_view().is_some() ==> {
                let buffer = mesh.uvs_view().unwrap();
                &&& buffer.data_size_view() == 2
                &&& buffer.value_view().is_none()
                &&& vertex_data(buffer).is_some()
                &&& self.data.uvs_relaid(self.triangles@, vertex_data(buffer).unwrap())
            },
            mesh.tangeants_view().is_some() ==> {
                let buffer = mesh.tangeants_view().unwrap();
                &&& buffer.data_size_view() == 3
                &&& buffer.value_view().is_none()
                &&& vertex_data(buffer) == Some(self.data.tangeants.unwrap()@)
            },
    {
        let reindexed_data = RawColladaData::new_mono_from_multi_indexed(&self.data, &self.triangles);
        let vertex_buffer = Buffer::new_from_f32_data(String::from_str(POSITION_ATTRIBUTE), reindexed_data.vertices, 3);
        let normals_buffer = match reindexed_data.normals {
            Some(normals) => Some(Buffer::new_from_f32_data(String::from_str(NORMAL_ATTRIBUTE), normals, 3)),
            None => None,
        };
        let uv_buffer = match reindexed_data.uvs {
            Some(uvs) => Some(Buffer::new_from_f32_data(String::from_str(UV_ATTRIBUTE), uvs, 2)),
            None => None,
        };
        let tangeants_buffer = match reindexed_data.tangeants {
            Some(tangeants) => Some(
                Buffer::new_from_f32_data(String::from_str(TANGEANT_ATTRIBUTE), tangeants, 3),
            ),
            None => None,
        };
        let mut indexes: Vec<u32> = Vec::new();
        let mut i: usize = 0;
        while i < self.triangles.len()
            invariant
                0 <= i <= self.triangles@.len(),
                indexes@ == index_list(self.triangles@.take(i as int)),
            decreases self.triangles@.len() - i,
        {
            let tri = &self.triangles[i];
            proof {
                let done = self.triangles@.take(i as int + 1);
                assert(done.drop_last() =~= self.triangles@.take(i as int));
                assert(done.last() == *tri);
            }
            indexes.push(#[verifier::truncate] (tri.vertices.0 as u32));
            indexes.push(#[verifier::truncate] (tri.vertices.1 as u32));
            indexes.push(#[verifier::truncate] (tri.vertices.2 as u32));
            i += 1;
        }
        assert(self.triangles@.take(self.triangles@.len() as int) =~= self.triangles@);
        let indexes_buffer = Buffer::new_from_u32_data(String::new(), indexes, 3);
        Mesh::new(
            String::from_str(name),
            vertex_buffer,
            Some(indexes_buffer),
            normals_buffer,
            None,
            uv_buffer,
            tangeants_buffer,
        )
    }
}

/// The indexes a buffer holds, if it holds indexes.
pub open spec fn index_data<T>(buffer: Buffer<T>) -> Option<Seq<u32>> {
    match buffer.data_view() {
        Some(crate::asset::mesh::BufferData::U32(data)) => Some(data@),
        _ => None,
    }
}

/// The scalars a buffer holds, if it holds scalars.
pub open spec fn vertex_data<T>(buffer: Buffer<T>) -> Option<Seq<T>> {
    match buffer.data_view() {
        Some(crate::asset::mesh::BufferData::F32(data)) => Some(data@),
        _ => None,
    }
}

} // verus!
