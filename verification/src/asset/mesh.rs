//! Module for everything constituting a Mesh: its buffers, as raw data and as
//! buffer objects of the graphics context.

use vstd::prelude::*;
use vstd::string::*;
use crate::error::W3DError;

verus! {

/// The target that vertex data is bound to, as the graphics context names it.
pub const ARRAY_BUFFER: u32 = 34962;

/// The target that index data is bound to, as the graphics context names it.
pub const ELEMENT_ARRAY_BUFFER: u32 = 34963;

/// Reason of the error for binding a buffer that has no buffer object.
pub const UNCONSTRUCTED_BUFFER: &'static str = "Trying to bind an unconstructed buffer";

/// Reason of the error for a buffer object that could not be created.
pub const BUFFER_NOT_CREATED: &'static str = "Could not construct buffer";

/// Reason of the error for constructing a buffer whose data is gone.
pub const BUFFER_WITHOUT_DATA: &'static str = "Trying to construct buffer without data";

/// The raw data of a buffer: scalars of vertices, or indexes.
pub enum BufferData<T> {
    F32(Vec<T>),
    U32(Vec<u32>),
}

/// What a buffer holds.
#[derive(Clone, Copy, Debug, PartialEq, Eq)]
pub enum BufferDataType {
    Vertex,
    Index,
}

impl BufferDataType {
    /// The target that data of this type is bound to.
    pub open spec fn target(self) -> u32 {
        match self {
            BufferDataType::Vertex => ARRAY_BUFFER,
            BufferDataType::Index => ELEMENT_ARRAY_BUFFER,
        }
    }

    /// The target that data of this type is bound to.
    pub fn get_target(&self) -> (target: u32)
        ensures
            target == self.target(),
    {
        match self {
            BufferDataType::Vertex => ARRAY_BUFFER,
            BufferDataType::Index => ELEMENT_ARRAY_BUFFER,
        }
    }
}

/// Buffer wrapper object; represents vertex data, index data, normals, etc.
pub struct Buffer<T> {
    /// Name of the attribute for that buffer
    attribute_name: String,
    /// Buffer object for that buffer. Constructed value.
    value: Option<u32>,
    /// Data type. Useful for when the data is cleaned up
    data_type: BufferDataType,
    /// Size of unit data in number of elements (3 for a three-component vector, etc.)
    data_size: usize,
    /// Actual mesh data. May be cleaned once the buffer object is created.
    data: Option<BufferData<T>>,
}

impl<T> Buffer<T> {
    pub closed spec fn name_view(&self) -> Seq<char> {
        self.attribute_name@
    }

    pub closed spec fn value_view(&self) -> Option<u32> {
        self.value
    }

    pub closed spec fn data_type_view(&self) -> BufferDataType {
        self.data_type
    }

    pub closed spec fn data_size_view(&self) -> usize {
        self.data_size
    }

    pub closed spec fn data_view(&self) -> Option<BufferData<T>> {
        self.data
    }

    /// Whether two buffers differ in nothing but their buffer object.
    pub open spec fn same_but_value(&self, other: &Buffer<T>) -> bool {
        &&& self.name_view() == other.name_view()
        &&& self.data_type_view() == other.data_type_view()
        &&& self.data_size_view() == other.data_size_view()
        &&& self.data_view() == other.data_view()
    }

    /// A buffer of vertex data.
    pub fn new_from_f32_data(attribute_name: String, data: Vec<T>, data_size: usize) -> (buffer: Buffer<T>)
        ensures
            buffer.name_view() == attribute_name@,
            buffer.value_view().is_none(),
            buffer.data_size_view() == data_size,
            buffer.data_type_view() == BufferDataType::Vertex,
            buffer.data_view() == Some(BufferData::F32(data)),
    {
        Buffer {
            attribute_name,
            value: None,
            data_size,
            data_type: BufferDataType::Vertex,
            data: Some(BufferData::F32(data)),
        }
    }

    /// A buffer of indexes.
    pub fn new_from_u32_data(attribute_name: String, data: Vec<u32>, data_size: usize) -> (buffer: Buffer<T>)
        ensures
            buffer.name_view() == attribute_name@,
            buffer.value_view().is_none(),
            buffer.data_size_view() == data_size,
            buffer.data_type_view() == BufferDataType::Index,
            buffer.data_view() == Some(BufferData::<T>::U32(data)),
    {
        Buffer {
            attribute_name,
            value: None,
            data_size,
            data_type: BufferDataType::Index,
            data: Some(BufferData::U32(data)),
        }
    }

    pub fn get_attribute_name(&self) -> (name: &str)
        ensures
            name@ == self.name_view(),
    {
        self.attribute_name.as_str()
    }

    /// The raw data, as long as it is kept.
    pub fn get_data(&self) -> (data: Option<&BufferData<T>>)
        ensures
            data.is_some() == self.data_view().is_some(),
            data.is_some() ==> *data.unwrap() == self.data_view().unwrap(),
    {
        self.data.as_ref()
    }

    /// Size of unit data in number of elements.
    pub fn get_data_size(&self) -> (size: usize)
        ensures
            size == self.data_size_view(),
    {
        self.data_size
    }

    /// Says what to bind: the buffer object, and the target for its type of data.
    /// A buffer that is not constructed cannot be bound.
    pub fn bind(&self) -> (result: Result<(u32, u32), W3DError>)
        ensures
            self.value_view().is_some() ==> result == Ok::<(u32, u32), W3DError>(
                (self.data_type_view().target(), self.value_view().unwrap()),
            ),
            self.value_view().is_none() ==> {
                &&& result.is_err()
                &&& result.unwrap_err().reason_view() == UNCONSTRUCTED_BUFFER@
                &&& result.unwrap_err().source_view().is_some()
                &&& result.unwrap_err().source_view().unwrap()@ == self.name_view()
                &&& result.unwrap_err().description_view().is_none()
            },
    {
        let gl_data_type = self.data_type.get_target();
        match self.value {
            Some(buffer) => Ok((gl_data_type, buffer)),
            None => Err(W3DError::new(UNCONSTRUCTED_BUFFER, Some(self.attribute_name.clone()))),
        }
    }

    /// The target that the data of this buffer is to be uploaded to: that of
    /// vertex data for scalars, that of index data for indexes.
    pub open spec fn upload_target(&self) -> u32 {
        match self.data_view() {
            Some(BufferData::U32(_)) => ELEMENT_ARRAY_BUFFER,
            _ => ARRAY_BUFFER,
        }
    }

    /// Takes the buffer object that was created for this buffer and says which
    /// target its data is to be uploaded to. Fails where no buffer object could be
    /// created, and where the data is gone; the buffer then stays as it is.
    pub fn construct(&mut self, created: Option<u32>) -> (result: Result<u32, W3DError>)
        ensures
            final(self).same_but_value(old(self)),
            created.is_some() && old(self).data_view().is_some() ==> {
                &&& result == Ok::<u32, W3DError>(old(self).upload_target())
                &&& final(self).value_view() == created
            },
            !(created.is_some() && old(self).data_view().is_some()) ==> {
                &&& *final(self) == *old(self)
                &&& result.is_err()
                &&& result.unwrap_err().reason_view() == (if created.is_none() {
                    BUFFER_NOT_CREATED@
                } else {
                    BUFFER_WITHOUT_DATA@
                })
                &&& result.unwrap_err().source_view().is_some()
                &&& result.unwrap_err().source_view().unwrap()@ == old(self).name_view()
                &&& result.unwrap_err().description_view().is_none()
            },
    {
        if created.is_none() {
            return Err(W3DError::new(BUFFER_NOT_CREATED, Some(self.attribute_name.clone())));
        }
        let target = match &self.data {
            Some(BufferData::F32(_)) => ARRAY_BUFFER,
            Some(BufferData::U32(_)) => ELEMENT_ARRAY_BUFFER,
            None => {
                return Err(W3DError::new(BUFFER_WITHOUT_DATA, Some(self.attribute_name.clone())));
            },
        };
        self.value = created;
        Ok(target)
    }

    pub fn is_constructed(&self) -> (constructed: bool)
        ensures
            constructed == self.value_view().is_some(),
    {
        self.value.is_some()
    }

    /// Gives up the buffer object, which is to be deleted.
    pub fn deconstruct(&mut self) -> (deleted: Option<u32>)
        ensures
            deleted == old(self).value_view(),
            final(self).value_view().is_none(),
            final(self).same_but_value(old(self)),
    {
        let deleted = self.value;
        self.value = None;
        deleted
    }

    /// Whether this buffer is `before` with its raw data dropped: the data is
    /// gone, the name, the buffer object, the type and the size of the data are
    /// as they were.
    pub open spec fn cleaned(&self, before: &Buffer<T>) -> bool {
        &&& self.data_view().is_none()
        &&& self.name_view() == before.name_view()
        &&& self.value_view() == before.value_view()
        &&& self.data_type_view() == before.data_type_view()
        &&& self.data_size_view() == before.data_size_view()
    }

    /// Drops the raw data.
    pub fn clean(&mut self)
        ensures
            final(self).cleaned(old(self)),
    {
        self.data = None;
    }
}

/// A mesh as an asset: the buffer of its positions and the buffers it may have beside it.
pub struct Mesh<T> {
    /// Name of the mesh for debugging purposes
    name: String,
    /// Vertex position Buffer
    positions: Buffer<T>,
    /// Vertex index Buffer
    indexes: Option<Buffer<T>>,
    /// Vertex normals buffer
    normals: Option<Buffer<T>>,
    /// Vertex skeletal weights buffer
    joint_weights: Option<Buffer<T>>,
    /// UV data for the mesh
    uvs: Option<Buffer<T>>,
    /// Pre-computed Tangeants for the mesh
    tangeants: Option<Buffer<T>>,
}

/// Whether an optional buffer has a buffer object; a buffer that is not there has none.
pub open spec fn constructed<T>(buffer: Option<Buffer<T>>) -> bool {
    buffer.is_some() && buffer.unwrap().value_view().is_some()
}

/// Whether an optional buffer, where it is there, has a buffer object that
/// `create` handed out.
pub open spec fn handed_out<T, F: Fn() -> Option<u32>>(buffer: Option<Buffer<T>>, create: &F) -> bool {
    buffer.is_some() ==> buffer.unwrap().value_view().is_some() && create.ensures((), buffer.unwrap().value_view())
}

/// Whether `after` is `before` constructed with a buffer object that `create`
/// handed out. A buffer that is not there takes none and stays away.
pub open spec fn built_with<T, F: Fn() -> Option<u32>>(
    before: Option<Buffer<T>>,
    after: Option<Buffer<T>>,
    create: &F,
) -> bool {
    match before {
        None => after.is_none(),
        Some(buffer) => {
            &&& after.is_some()
            &&& after.unwrap().same_but_value(&buffer)
            &&& buffer.data_view().is_some()
            &&& after.unwrap().value_view().is_some()
            &&& create.ensures((), after.unwrap().value_view())
        },
    }
}

/// Whether `error` says why the buffer `before` cannot be constructed with what
/// `create` hands out: `create` handed out nothing, or it handed out a buffer
/// object and the buffer has no data left. The error names the buffer.
pub open spec fn refused_with<T, F: Fn() -> Option<u32>>(before: Option<Buffer<T>>, create: &F, error: W3DError) -> bool {
    &&& before.is_some()
    &&& error.source_view().is_some()
    &&& error.source_view().unwrap()@ == before.unwrap().name_view()
    &&& error.description_view().is_none()
    &&& {
        ||| error.reason_view() == BUFFER_NOT_CREATED@ && create.ensures((), None)
        ||| {
            &&& error.reason_view() == BUFFER_WITHOUT_DATA@
            &&& before.unwrap().data_view().is_none()
            &&& exists|object: u32| create.ensures((), Some(object))
        }
    }
}

/// Whether `after` is `before` with its raw data dropped; a buffer that is not
/// there stays away.
pub open spec fn without_data<T>(before: Option<Buffer<T>>, after: Option<Buffer<T>>) -> bool {
    match before {
        None => after.is_none(),
        Some(buffer) => after.is_some() && after.unwrap().cleaned(&buffer),
    }
}

/// Whether an optional buffer still holds raw data.
pub open spec fn holds_data<T>(buffer: Option<Buffer<T>>) -> bool {
    buffer.is_some() && buffer.unwrap().data_view().is_some()
}

/// Whether two optional buffers differ in nothing but their buffer object.
pub open spec fn same_but_value<T>(now: Option<Buffer<T>>, before: Option<Buffer<T>>) -> bool {
    now.is_some() == before.is_some() && (now.is_some() ==> now.unwrap().same_but_value(&before.unwrap()))
}

impl<T> Mesh<T> {
    pub closed spec fn name_view(&self) -> Seq<char> {
        self.name@
    }

    pub closed spec fn positions_view(&self) -> Buffer<T> {
        self.positions
    }

    pub closed spec fn indexes_view(&self) -> Option<Buffer<T>> {
        self.indexes
    }

    pub closed spec fn normals_view(&self) -> Option<Buffer<T>> {
        self.normals
    }

    pub closed spec fn joint_weights_view(&self) -> Option<Buffer<T>> {
        self.joint_weights
    }

    pub closed spec fn uvs_view(&self) -> Option<Buffer<T>> {
        self.uvs
    }

    pub closed spec fn tangeants_view(&self) -> Option<Buffer<T>> {
        self.tangeants
    }

    /// Whether two meshes differ in nothing but the buffer objects of their buffers.
    pub open spec fn same_but_values(&self, other: &Mesh<T>) -> bool {
        &&& self.name_view() == other.name_view()
        &&& self.positions_view().same_but_value(&other.positions_view())
        &&& same_but_value(self.indexes_view(), other.indexes_view())
        &&& same_but_value(self.normals_view(), other.normals_view())
        &&& same_but_value(self.joint_weights_view(), other.joint_weights_view())
        &&& same_but_value(self.uvs_view(), other.uvs_view())
        &&& same_but_value(self.tangeants_view(), other.tangeants_view())
    }

    pub fn new(
        name: String,
        positions: Buffer<T>,
        indexes: Option<Buffer<T>>,
        normals: Option<Buffer<T>>,
        joint_weights: Option<Buffer<T>>,
        uvs: Option<Buffer<T>>,
        tangeants: Option<Buffer<T>>,
    ) -> (mesh: Mesh<T>)
        ensures
            mesh.name_view() == name@,
            mesh.positions_view() == positions,
            mesh.indexes_view() == indexes,
            mesh.normals_view() == normals,
            mesh.joint_weights_view() == joint_weights,
            mesh.uvs_view() == uvs,
            mesh.tangeants_view() == tangeants,
    {
        Mesh { name, positions, indexes, normals, joint_weights, uvs, tangeants }
    }

    /// Constructs a buffer that may not be there: one buffer object is asked of
    /// `create` for a buffer that is there, none for one that is not.
    fn construct_buffer<F: Fn() -> Option<u32>>(buffer: &mut Option<Buffer<T>>, create: &F) -> (result: Result<
        (),
        W3DError,
    >)
        requires
            create.requires(()),
        ensures
            same_but_value(*final(buffer), *old(buffer)),
            old(buffer).is_none() ==> result.is_ok() && *final(buffer) == *old(buffer),
            result.is_ok() ==> built_with(*old(buffer), *final(buffer), create),
            old(buffer).is_some() && result.is_ok() ==> {
                &&& constructed(*final(buffer))
                &&& create.ensures((), final(buffer).unwrap().value_view())
            },
            result.is_err() ==> *final(buffer) == *old(buffer) && refused_with(
                *old(buffer),
                create,
                result.unwrap_err(),
            ),
            old(buffer).is_some() && result.is_err() ==> {
                &&& final(buffer).unwrap().value_view() == old(buffer).unwrap().value_view()
                &&& !holds_data(*old(buffer)) || create.ensures((), None)
            },
            old(buffer).is_some() && !holds_data(*old(buffer)) ==> result.is_err(),
    {
        match buffer {
            Some(buf) => {
                let created = create();
                match buf.construct(created) {
                    Ok(_) => Ok(()),
                    Err(e) => {
                        proof {
                            if created.is_some() {
                                assert(create.ensures((), Some(created.unwrap())));
                            }
                        }
                        Err(e)
                    },
                }
            },
            None => Ok(()),
        }
    }

    /// Constructs the buffers of the mesh, each with a buffer object of its own:
    /// the positions first, then the indexes, the texture coordinates, the
    /// normals, the joint weights and the tangeants, as far as the mesh has them.
    /// The first buffer that cannot be constructed ends the construction with
    /// its error; the buffers before it stay constructed, the others are as they were.
    pub fn construct<F: Fn() -> Option<u32>>(&mut self, create: &F) -> (result: Result<(), W3DError>)
        requires
            create.requires(()),
        ensures
            final(self).same_but_values(old(self)),
            result.is_ok() ==> {
                &&& old(self).holds_all_data()
                &&& final(self).positions_view().value_view().is_some()
                &&& create.ensures((), final(self).positions_view().value_view())
                &&& handed_out(final(self).indexes_view(), create)
                &&& handed_out(final(self).uvs_view(), create)
                &&& handed_out(final(self).normals_view(), create)
                &&& handed_out(final(self).joint_weights_view(), create)
                &&& handed_out(final(self).tangeants_view(), create)
            },
            result.is_err() ==> !old(self).holds_all_data() || create.ensures((), None),
            result.is_ok() ==> final(self).constructed_up_to(old(self), create, 6),
            result.is_err() ==> exists|reached: int|
                0 <= reached < 6 && #[trigger] final(self).constructed_up_to(old(self), create, reached)
                    && refused_with(old(self).slots()[reached], create, result.unwrap_err()),
    {
        let created = create();
        match self.positions.construct(created) {
            Err(e) => {
                proof {
                    if created.is_some() {
                        assert(create.ensures((), Some(created.unwrap())));
                    }
                }
                assert(self.constructed_up_to(old(self), create, 0));
                assert(refused_with(old(self).slots()[0], create, e));
                return Err(e);
            },
            Ok(_) => {},
        }
        assert(built_with(old(self).slots()[0], self.slots()[0], create));
        match Self::construct_buffer(&mut self.indexes, create) {
            Err(e) => {
                assert(self.constructed_up_to(old(self), create, 1));
                assert(refused_with(old(self).slots()[1], create, e));
                return Err(e);
            },
            Ok(_) => {},
        }
        assert(built_with(old(self).slots()[1], self.slots()[1], create));
        match Self::construct_buffer(&mut self.uvs, create) {
            Err(e) => {
                assert(self.constructed_up_to(old(self), create, 2));
                assert(refused_with(old(self).slots()[2], create, e));
                return Err(e);
            },
            Ok(_) => {},
        }
        assert(built_with(old(self).slots()[2], self.slots()[2], create));
        match Self::construct_buffer(&mut self.normals, create) {
            Err(e) => {
                assert(self.constructed_up_to(old(self), create, 3));
                assert(refused_with(old(self).slots()[3], create, e));
                return Err(e);
            },
            Ok(_) => {},
        }
        assert(built_with(old(self).slots()[3], self.slots()[3], create));
        match Self::construct_buffer(&mut self.joint_weights, create) {
            Err(e) => {
                assert(self.constructed_up_to(old(self), create, 4));
                assert(refused_with(old(self).slots()[4], create, e));
                return Err(e);
            },
            Ok(_) => {},
        }
        assert(built_with(old(self).slots()[4], self.slots()[4], create));
        match Self::construct_buffer(&mut self.tangeants, create) {
            Err(e) => {
                assert(self.constructed_up_to(old(self), create, 5));
                assert(refused_with(old(self).slots()[5], create, e));
                return Err(e);
            },
            Ok(_) => {},
        }
        assert(built_with(old(self).slots()[5], self.slots()[5], create));
        assert(self.constructed_up_to(old(self), create, 6));
        Ok(())
    }

    /// The buffers of the mesh in the order in which they are constructed: the
    /// positions, the indexes, the texture coordinates, the normals, the joint
    /// weights and the tangeants. A buffer that the mesh does not have is none.
    pub open spec fn slots(&self) -> Seq<Option<Buffer<T>>> {
        seq![
            Some(self.positions_view()),
            self.indexes_view(),
            self.uvs_view(),
            self.normals_view(),
            self.joint_weights_view(),
            self.tangeants_view(),
        ]
    }

    /// What constructing leaves behind where it got as far as buffer `reached`:
    /// every buffer before it is constructed with a buffer object that `create`
    /// handed out, every other buffer is as before.
    pub open spec fn constructed_up_to<F: Fn() -> Option<u32>>(
        &self,
        before: &Mesh<T>,
        create: &F,
        reached: int,
    ) -> bool {
        &&& self.name_view() == before.name_view()
        &&& forall|i: int| 0 <= i < reached && i < 6 ==> built_with(before.slots()[i], #[trigger] self.slots()[i], create)
        &&& forall|i: int| reached <= i < 6 ==> #[trigger] self.slots()[i] == before.slots()[i]
    }

    /// Whether every buffer that the mesh has still holds its raw data.
    pub open spec fn holds_all_data(&self) -> bool {
        &&& self.positions_view().data_view().is_some()
        &&& self.indexes_view().is_some() ==> holds_data(self.indexes_view())
        &&& self.uvs_view().is_some() ==> holds_data(self.uvs_view())
        &&& self.normals_view().is_some() ==> holds_data(self.normals_view())
        &&& self.joint_weights_view().is_some() ==> holds_data(self.joint_weights_view())
        &&& self.tangeants_view().is_some() ==> holds_data(self.tangeants_view())
    }

    /// A mesh counts as constructed once its positions are.
    pub fn is_constructed(&self) -> (constructed: bool)
        ensures
            constructed == self.positions_view().value_view().is_some(),
    {
        self.positions.is_constructed()
    }

    /// Gives up the buffer object of a buffer that may not be there.
    fn deconstruct_buffer(buffer: &mut Option<Buffer<T>>, deleted: &mut Vec<u32>)
        ensures
            same_but_value(*final(buffer), *old(buffer)),
            !constructed(*final(buffer)),
            final(deleted)@ == old(deleted)@ + (if constructed(*old(buffer)) {
                seq![old(buffer).unwrap().value_view().unwrap()]
            } else {
                Seq::empty()
            }),
    {
        match buffer {
            Some(buf) => {
                match buf.deconstruct() {
                    Some(object) => {
                        deleted.push(object);
                    },
                    None => {},
                }
            },
            None => {},
        }
        assert(deleted@ =~= old(deleted)@ + (if constructed(*old(buffer)) {
            seq![old(buffer).unwrap().value_view().unwrap()]
        } else {
            Seq::empty()
        }));
    }

    /// Gives up every buffer object of the mesh and returns them, to be
    /// deleted: that of the positions first, then those of the indexes, the
    /// texture coordinates, the normals, the joint weights and the tangeants.
    pub fn deconstruct(&mut self) -> (deleted: Vec<u32>)
        ensures
            final(self).same_but_values(old(self)),
            final(self).positions_view().value_view().is_none(),
            !constructed(final(self).indexes_view()),
            !constructed(final(self).uvs_view()),
            !constructed(final(self).normals_view()),
            !constructed(final(self).joint_weights_view()),
            !constructed(final(self).tangeants_view()),
            deleted@ == old(self).buffer_objects(),
    {
        let mut deleted: Vec<u32> = Vec::new();
        match self.positions.deconstruct() {
            Some(object) => {
                deleted.push(object);
            },
            None => {},
        }
        assert(deleted@ =~= objects_of(Some(old(self).positions_view())));
        Self::deconstruct_buffer(&mut self.indexes, &mut deleted);
        Self::deconstruct_buffer(&mut self.uvs, &mut deleted);
        Self::deconstruct_buffer(&mut self.normals, &mut deleted);
        Self::deconstruct_buffer(&mut self.joint_weights, &mut deleted);
        Self::deconstruct_buffer(&mut self.tangeants, &mut deleted);
        deleted
    }

    /// The buffer objects of the mesh, in the order in which they are constructed.
    pub open spec fn buffer_objects(&self) -> Seq<u32> {
        objects_of(Some(self.positions_view())) + objects_of(self.indexes_view()) + objects_of(self.uvs_view())
            + objects_of(self.normals_view()) + objects_of(self.joint_weights_view()) + objects_of(
            self.tangeants_view(),
        )
    }

    /// Drops the raw data of a buffer that may not be there.
    fn clean_buffer(buffer: &mut Option<Buffer<T>>)
        ensures
            without_data(*old(buffer), *final(buffer)),
            !holds_data(*final(buffer)),
    {
        match buffer {
            Some(buf) => {
                buf.clean();
            },
            None => {},
        }
    }

    /// Drops the raw data of every buffer; the buffer objects stay.
    pub fn clean(&mut self)
        ensures
            forall|i: int| 0 <= i < 6 ==> without_data(old(self).slots()[i], #[trigger] final(self).slots()[i]),
            final(self).name_view() == old(self).name_view(),
            final(self).positions_view().data_view().is_none(),
            final(self).positions_view().value_view() == old(self).positions_view().value_view(),
            !holds_data(final(self).indexes_view()),
            !holds_data(final(self).uvs_view()),
            !holds_data(final(self).normals_view()),
            !holds_data(final(self).joint_weights_view()),
            !holds_data(final(self).tangeants_view()),
            final(self).buffer_objects() == old(self).buffer_objects(),
    {
        self.positions.clean();
        Self::clean_buffer(&mut self.indexes);
        Self::clean_buffer(&mut self.uvs);
        Self::clean_buffer(&mut self.normals);
        Self::clean_buffer(&mut self.joint_weights);
        Self::clean_buffer(&mut self.tangeants);
    }

    /// The name of the mesh.
    pub fn get_name(&self) -> (name: String)
        ensures
            name@ == self.name_view(),
    {
        self.name.clone()
    }

    /// The buffer of the positions.
    pub fn get_positions(&self) -> (buffer: &Buffer<T>)
        ensures
            *buffer == self.positions_view(),
    {
        &self.positions
    }

    /// The buffer of the indexes, if the mesh has one.
    pub fn get_indexes(&self) -> (buffer: Option<&Buffer<T>>)
        ensures
            buffer.is_some() == self.indexes_view().is_some(),
            buffer.is_some() ==> *buffer.unwrap() == self.indexes_view().unwrap(),
    {
        self.indexes.as_ref()
    }

    /// The buffer of the normals, if the mesh has one.
    pub fn get_normals(&self) -> (buffer: Option<&Buffer<T>>)
        ensures
            buffer.is_some() == self.normals_view().is_some(),
            buffer.is_some() ==> *buffer.unwrap() == self.normals_view().unwrap(),
    {
        self.normals.as_ref()
    }

    /// The buffer of the texture coordinates, if the mesh has one.
    pub fn get_uvs(&self) -> (buffer: Option<&Buffer<T>>)
        ensures
            buffer.is_some() == self.uvs_view().is_some(),
            buffer.is_some() ==> *buffer.unwrap() == self.uvs_view().unwrap(),
    {
        self.uvs.as_ref()
    }

    /// The buffer of the tangeants, if the mesh has one.
    pub fn get_tangeants(&self) -> (buffer: Option<&Buffer<T>>)
        ensures
            buffer.is_some() == self.tangeants_view().is_some(),
            buffer.is_some() ==> *buffer.unwrap() == self.tangeants_view().unwrap(),
    {
        self.tangeants.as_ref()
    }

    /// The buffer of the joint weights, if the mesh has one.
    pub fn get_joint_weights(&self) -> (buffer: Option<&Buffer<T>>)
        ensures
            buffer.is_some() == self.joint_weights_view().is_some(),
            buffer.is_some() ==> *buffer.unwrap() == self.joint_weights_view().unwrap(),
    {
        self.joint_weights.as_ref()
    }
}

/// The buffer object of an optional buffer, as a list of one or none.
pub open spec fn objects_of<T>(buffer: Option<Buffer<T>>) -> Seq<u32> {
    if constructed(buffer) {
        seq![buffer.unwrap().value_view().unwrap()]
    } else {
        Seq::empty()
    }
}

} // verus!
