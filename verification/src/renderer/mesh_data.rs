//! Representation of mesh data with its vertices and all buffer data.

use vstd::prelude::*;
use vstd::string::*;
use crate::error::Error;
use crate::renderer::buffer::Buffer;
use crate::renderer::material::Material;
use crate::util::text::same_text;

verus! {

/// Whether `location` is an answer of `query` for the attribute called `name` in `program`.
pub open spec fn attribute_answered<F: Fn(u32, &str) -> i32>(
    query: &F,
    program: u32,
    name: Seq<char>,
    location: i32,
) -> bool {
    exists|text: &str| text@ == name && #[trigger] query.ensures((program, text), location)
}

/// The names of a list of buffers, in the order of the list.
pub open spec fn buffer_names<T>(buffers: Seq<Buffer<T>>) -> Seq<Seq<char>> {
    Seq::new(buffers.len(), |i: int| buffers[i].name_view())
}

/// Mesh data as the union of its `Buffers` and the number of vertices in the mesh
pub struct MeshData<T> {
    /// Unique identifier for this MeshData
    id: String,
    /// Vector of the buffers associated with this mesh: vertex positions, weights, etc.
    buffers: Vec<Buffer<T>>,
    /// Number of vertices in the buffers, duplicates included.
    vertex_count: i32,
    /// Set once the attribute locations have been looked up, to avoid doing it each frame.
    lookup_done: bool,
}

impl<T> MeshData<T> {
    pub closed spec fn id_view(&self) -> Seq<char> {
        self.id@
    }

    pub closed spec fn buffers_view(&self) -> Seq<Buffer<T>> {
        self.buffers@
    }

    pub closed spec fn vertex_count_view(&self) -> i32 {
        self.vertex_count
    }

    pub closed spec fn lookup_done_view(&self) -> bool {
        self.lookup_done
    }

    /// Constructor. The `vertex count` must be the number of vertices in the buffers, including duplicates.
    pub fn new(id: String, vertex_count: i32) -> (mesh_data: MeshData<T>)
        ensures
            mesh_data.id_view() == id@,
            mesh_data.buffers_view().len() == 0,
            mesh_data.vertex_count_view() == vertex_count,
            !mesh_data.lookup_done_view(),
    {
        MeshData { id, buffers: Vec::new(), vertex_count, lookup_done: false }
    }

    /// Add a buffer to this `MeshData`
    pub fn push_buffer(&mut self, buffer: Buffer<T>)
        ensures
            final(self).buffers_view() == old(self).buffers_view().push(buffer),
            final(self).id_view() == old(self).id_view(),
            final(self).vertex_count_view() == old(self).vertex_count_view(),
            final(self).lookup_done_view() == old(self).lookup_done_view(),
    {
        self.buffers.push(buffer);
    }

    /// Returns a slice of the available buffers
    pub fn get_buffers(&self) -> (buffers: &[Buffer<T>])
        ensures
            buffers@ == self.buffers_view(),
    {
        self.buffers.as_slice()
    }

    /// The first buffer with the given attribute name.
    pub fn get_buffer(&self, name: &str) -> (buffer: Option<&Buffer<T>>)
        ensures
            buffer.is_some() == buffer_names(self.buffers_view()).contains(name@),
            buffer.is_some() ==> {
                let at = buffer_names(self.buffers_view()).index_of_first(name@).unwrap();
                *buffer.unwrap() == self.buffers_view()[at]
            },
    {
        let ghost names = buffer_names(self.buffers_view());
        let mut i: usize = 0;
        while i < self.buffers.len()
            invariant
                0 <= i <= self.buffers@.len(),
                names == buffer_names(self.buffers_view()),
                forall|k: int| 0 <= k < i ==> names[k] != name@,
            decreases self.buffers@.len() - i,
        {
            if same_text(self.buffers[i].get_attribute_name(), name) {
                proof {
                    assert(names[i as int] == name@);
                    names.index_of_first_ensures(name@);
                    let at = names.index_of_first(name@);
                    assert(at.is_some());
                    if at.unwrap() != i as int {
                        assert(names[at.unwrap()] == name@);
                    }
                }
                return Some(&self.buffers[i]);
            }
            i += 1;
        }
        proof {
            if names.contains(name@) {
                let k = choose|k: int| 0 <= k < names.len() && names[k] == name@;
                assert(false);
            }
        }
        None
    }

    /// Whether `after` is `before` constructed with buffer objects that `create`
    /// handed out: one for the data and, where the buffer is indexed, one for its
    /// indexes.
    pub open spec fn built_with<F: Fn() -> Option<u32>>(before: &Buffer<T>, after: &Buffer<T>, create: &F) -> bool {
        &&& after.same_contents(before)
        &&& before.data_view().is_some()
        &&& after.value_view().is_some()
        &&& create.ensures((), after.value_view())
        &&& if before.indexed() {
            after.indexes_view().is_some() && create.ensures((), after.indexes_view())
        } else {
            after.indexes_view().is_none()
        }
    }

    /// Whether a buffer cannot be constructed with what `create` hands out, and
    /// `error` says why: it has no data, or `create` handed out nothing for its
    /// data or for its indexes.
    pub open spec fn fails_with<F: Fn() -> Option<u32>>(before: &Buffer<T>, create: &F, error: Error) -> bool {
        if before.data_view().is_none() {
            error == Error::MissingData
        } else {
            &&& error == Error::UnconstructedValue
            &&& create.ensures((), None)
        }
    }

    /// What constructing leaves behind where it got as far as buffer `reached`:
    /// every buffer before it is constructed, every other buffer is as before.
    pub open spec fn constructed_up_to<F: Fn() -> Option<u32>>(
        &self,
        before: &MeshData<T>,
        create: &F,
        reached: int,
    ) -> bool {
        &&& self.id_view() == before.id_view()
        &&& self.vertex_count_view() == before.vertex_count_view()
        &&& self.lookup_done_view() == before.lookup_done_view()
        &&& self.buffers_view().len() == before.buffers_view().len()
        &&& forall|i: int|
            0 <= i < reached ==> Self::built_with(&before.buffers_view()[i], &#[trigger] self.buffers_view()[i], create)
        &&& forall|i: int|
            reached <= i < before.buffers_view().len() ==> #[trigger] self.buffers_view()[i]
                == before.buffers_view()[i]
    }

    /// Constructs the buffers of the mesh data, from the first to the last, each
    /// with a buffer object that `create` hands out and, where the buffer is
    /// indexed, with a second one for its indexes. The first buffer that cannot
    /// be constructed ends the construction with its error; the buffers before
    /// it stay constructed, the others are as they were.
    pub fn construct<F: Fn() -> Option<u32>>(&mut self, create: &F) -> (result: Result<(), Error>)
        requires
            create.requires(()),
        ensures
            result.is_ok() ==> final(self).constructed_up_to(old(self), create, old(self).buffers_view().len() as int),
            result.is_err() ==> exists|reached: int|
                0 <= reached < old(self).buffers_view().len() && #[trigger] final(self).constructed_up_to(
                    old(self),
                    create,
                    reached,
                ) && Self::fails_with(&old(self).buffers_view()[reached], create, result.unwrap_err()),
    {
        let mut i: usize = 0;
        while i < self.buffers.len()
            invariant
                0 <= i <= self.buffers@.len(),
                create.requires(()),
                self.constructed_up_to(old(self), create, i as int),
            decreases self.buffers@.len() - i,
        {
            let ghost prior = *self;
            let vertex_buffer = create();
            let index_buffer = if self.buffers[i].needs_index_buffer() {
                create()
            } else {
                None
            };
            let buffer = &mut self.buffers[i];
            match buffer.construct(vertex_buffer, index_buffer) {
                Err(e) => {
                    proof {
                        assert(self.buffers@ =~= prior.buffers@);
                        assert(self.constructed_up_to(old(self), create, i as int));
                        assert(Self::fails_with(&old(self).buffers_view()[i as int], create, e));
                    }
                    return Err(e);
                },
                Ok(_) => {},
            }
            proof {
                assert forall|k: int| 0 <= k < i + 1 implies Self::built_with(
                    &old(self).buffers_view()[k],
                    &#[trigger] self.buffers_view()[k],
                    create,
                ) by {
                    if k < i {
                        assert(self.buffers_view()[k] == prior.buffers_view()[k]);
                    } else {
                        assert(prior.buffers_view()[k] == old(self).buffers_view()[k]);
                    }
                }
                assert forall|k: int| i + 1 <= k < old(self).buffers_view().len() implies #[trigger] self.buffers_view()[k]
                    == old(self).buffers_view()[k] by {
                    assert(self.buffers_view()[k] == prior.buffers_view()[k]);
                }
            }
            i += 1;
        }
        Ok(())
    }

    /// Drops the raw data of every buffer, the index data with it; the names,
    /// the buffer objects and the layout of the buffers stay.
    pub fn clean(&mut self)
        ensures
            final(self).id_view() == old(self).id_view(),
            final(self).vertex_count_view() == old(self).vertex_count_view(),
            final(self).lookup_done_view() == old(self).lookup_done_view(),
            final(self).buffers_view().len() == old(self).buffers_view().len(),
            forall|i: int|
                0 <= i < old(self).buffers_view().len() ==> (#[trigger] final(self).buffers_view()[i]).cleaned(
                    &old(self).buffers_view()[i],
                ),
    {
        let mut i: usize = 0;
        while i < self.buffers.len()
            invariant
                0 <= i <= self.buffers@.len(),
                self.id == old(self).id,
                self.vertex_count == old(self).vertex_count,
                self.lookup_done == old(self).lookup_done,
                self.buffers@.len() == old(self).buffers@.len(),
                forall|k: int| i <= k < self.buffers@.len() ==> #[trigger] self.buffers@[k] == old(self).buffers@[k],
                forall|k: int| 0 <= k < i ==> (#[trigger] self.buffers@[k]).cleaned(&old(self).buffers@[k]),
            decreases self.buffers@.len() - i,
        {
            let buffer = &mut self.buffers[i];
            buffer.clean();
            i += 1;
        }
    }

    /// Returns the number of vertices for this `MeshData`'s Buffers.
    pub fn get_vertex_count(&self) -> (count: i32)
        ensures
            count == self.vertex_count_view(),
    {
        self.vertex_count
    }

    /// Getter for `id`
    pub fn get_id(&self) -> (id: &str)
        ensures
            id@ == self.id_view(),
    {
        self.id.as_str()
    }

    /// What a lookup leaves in the material: a location for the attribute of every
    /// buffer. The locations that were cached are the same and come first; each new
    /// one is an answer of `query` for its name.
    pub open spec fn attributes_registered<F: Fn(u32, &str) -> i32, U>(
        &self,
        before: &Material<U>,
        after: &Material<U>,
        query: &F,
    ) -> bool {
        let was = before.attribute_names().len() as int;
        &&& after.same_but_attributes(before)
        &&& was <= after.attribute_names().len()
        &&& after.attribute_names().take(was) == before.attribute_names()
        &&& after.attribute_values().take(was) == before.attribute_values()
        &&& forall|k: int|
            was <= k < after.attribute_names().len() ==> {
                &&& buffer_names(self.buffers_view()).contains(#[trigger] after.attribute_names()[k])
                &&& attribute_answered(
                    query,
                    before.program_view(),
                    after.attribute_names()[k],
                    after.attribute_values()[k],
                )
            }
        &&& forall|i: int|
            0 <= i < self.buffers_view().len() ==> after.has_attribute(
                #[trigger] self.buffers_view()[i].name_view(),
            )
    }

    /// Looks up the attribute location of every buffer of this mesh data in the
    /// material. It is done once in the life of the mesh data: a second lookup asks
    /// nothing and changes nothing. A location that the material has cached is
    /// not asked for.
    pub fn lookup_locations<F: Fn(u32, &str) -> i32, U>(&mut self, query: &F, material: &mut Material<U>)
        requires
            old(material).wf(),
            !old(self).lookup_done_view() ==> forall|name: &str| #[trigger]
                query.requires((old(material).program_view(), name)),
        ensures
            final(material).wf(),
            final(self).lookup_done_view(),
            final(self).id_view() == old(self).id_view(),
            final(self).buffers_view() == old(self).buffers_view(),
            final(self).vertex_count_view() == old(self).vertex_count_view(),
            old(self).lookup_done_view() ==> *final(material) == *old(material),
            !old(self).lookup_done_view() ==> old(self).attributes_registered(old(material), final(material), query),
    {
        if self.lookup_done {
            return;
        }
        let ghost was = material.attribute_names().len() as int;
        let mut i: usize = 0;
        while i < self.buffers.len()
            invariant
                0 <= i <= self.buffers@.len(),
                *self == *old(self),
                material.wf(),
                old(material).wf(),
                forall|name: &str| #[trigger] query.requires((old(material).program_view(), name)),
                was == old(material).attribute_names().len(),
                material.same_but_attributes(old(material)),
                was <= material.attribute_names().len(),
                material.attribute_names().take(was) == old(material).attribute_names(),
                material.attribute_values().take(was) == old(material).attribute_values(),
                forall|k: int|
                    was <= k < material.attribute_names().len() ==> {
                        &&& buffer_names(self.buffers_view()).contains(#[trigger] material.attribute_names()[k])
                        &&& attribute_answered(
                            query,
                            old(material).program_view(),
                            material.attribute_names()[k],
                            material.attribute_values()[k],
                        )
                    },
                forall|j: int|
                    0 <= j < i ==> material.has_attribute(#[trigger] self.buffers_view()[j].name_view()),
            decreases self.buffers@.len() - i,
        {
            let ghost prior = *material;
            let name = self.buffers[i].get_attribute_name();
            material.register_new_attribute_location(query, name);
            proof {
                let names = buffer_names(self.buffers_view());
                assert(names[i as int] == name@);
                if prior.has_attribute(name@) {
                } else {
                    let n = prior.attribute_names().len() as int;
                    assert(material.attribute_names()[n] == name@);
                    assert(material.attribute_names().take(was) =~= prior.attribute_names().take(was));
                    assert(material.attribute_values().take(was) =~= material.attribute_values().drop_last().take(
                        was,
                    ));
                    assert forall|k: int| was <= k < material.attribute_names().len() implies {
                        &&& names.contains(#[trigger] material.attribute_names()[k])
                        &&& attribute_answered(
                            query,
                            old(material).program_view(),
                            material.attribute_names()[k],
                            material.attribute_values()[k],
                        )
                    } by {
                        if k < n {
                            assert(prior.attribute_names()[k] == material.attribute_names()[k]);
                            assert(material.attribute_values().drop_last()[k] == material.attribute_values()[k]);
                        }
                    }
                }
                assert forall|j: int| 0 <= j < i + 1 implies material.has_attribute(
                    #[trigger] self.buffers_view()[j].name_view(),
                ) by {
                    if j < i {
                        let wanted = self.buffers_view()[j].name_view();
                        assert(prior.has_attribute(wanted));
                        let k = choose|k: int|
                            0 <= k < prior.attribute_names().len() && prior.attribute_names()[k] == wanted;
                        assert(material.attribute_names()[k] == wanted);
                    }
                }
            }
            i += 1;
        }
        self.lookup_done = true;
    }
}

} // verus!
