//! Buffers: the data of one vertex attribute and the buffer objects that hold it
//! in the graphics context.

use vstd::prelude::*;
use vstd::string::*;
use crate::error::Error;
use crate::renderer::shader_data_type::ShaderDataType;

verus! {

/// The number type of floating point buffer data, as the graphics context names it.
pub const FLOAT: u32 = 5126;

/// The location the graphics context gives to an attribute that a program does not have.
pub const NO_LOCATION: i32 = -1;

/// How an attribute reads its buffer: where it is bound and how the data is laid out.
#[derive(Clone, Copy, Debug, PartialEq, Eq)]
pub struct AttributePointer {
    /// Location of the attribute, to be enabled as a vertex attribute array.
    pub location: u32,
    /// Number of components of one vector.
    pub size: i32,
    /// Number type of one component.
    pub number_type: u32,
    /// The data is never normalized.
    pub normalized: bool,
    pub stride: i32,
    pub offset: i32,
}

/// What binding a buffer to an attribute asks of the graphics context: bind the
/// array buffer, bind the element array buffer if there is one, then enable the
/// attribute and point it at the data.
#[derive(Clone, Copy, Debug, PartialEq, Eq)]
pub struct AttributeBinding {
    pub array_buffer: u32,
    pub element_array_buffer: Option<u32>,
    pub pointer: AttributePointer,
}

/// The data of one attribute and, once constructed, its buffer objects.
pub struct Buffer<T> {
    /// Attribute name for the current Buffer.
    attribute_name: String,
    /// Name of the buffer object; none until constructed.
    value: Option<u32>,
    /// Name of the index buffer object, if the buffer is indexed.
    indexes: Option<u32>,
    /// Actual buffer data; may be dropped once it has been uploaded.
    data: Option<Vec<T>>,
    /// Size of one vector in the data
    data_vector_size: usize,
    /// Indexes data
    indexes_data: Option<Vec<u16>>,
    /// Numeric type of the data.
    number_type: u32,
    /// Custom stride to be used when setting the attribute pointer
    stride: i32,
    /// Offset in the given buffer for the attribute pointer.
    offset: i32,
}

impl<T> Buffer<T> {
    pub closed spec fn name_view(&self) -> Seq<char> {
        self.attribute_name@
    }

    pub closed spec fn value_view(&self) -> Option<u32> {
        self.value
    }

    pub closed spec fn indexes_view(&self) -> Option<u32> {
        self.indexes
    }

    pub closed spec fn data_view(&self) -> Option<Vec<T>> {
        self.data
    }

    pub closed spec fn indexes_data_view(&self) -> Option<Vec<u16>> {
        self.indexes_data
    }

    pub closed spec fn vector_size(&self) -> usize {
        self.data_vector_size
    }

    pub closed spec fn number_type_view(&self) -> u32 {
        self.number_type
    }

    pub closed spec fn stride_view(&self) -> i32 {
        self.stride
    }

    pub closed spec fn offset_view(&self) -> i32 {
        self.offset
    }

    /// Whether the data comes with a list of indexes that is not empty.
    pub open spec fn indexed(&self) -> bool {
        self.indexes_data_view().is_some() && self.indexes_data_view().unwrap()@.len() > 0
    }

    /// Whether two buffers differ in nothing but their buffer objects.
    pub open spec fn same_contents(&self, other: &Buffer<T>) -> bool {
        &&& self.name_view() == other.name_view()
        &&& self.data_view() == other.data_view()
        &&& self.indexes_data_view() == other.indexes_data_view()
        &&& self.vector_size() == other.vector_size()
        &&& self.number_type_view() == other.number_type_view()
        &&& self.stride_view() == other.stride_view()
        &&& self.offset_view() == other.offset_view()
    }

    /// A buffer of floating point vectors that has not been constructed yet.
    pub fn new(attribute_name: &str, data_type: ShaderDataType, data: Vec<T>, indexes_data: Option<Vec<u16>>) -> (buffer:
        Buffer<T>)
        ensures
            buffer.name_view() == attribute_name@,
            buffer.value_view().is_none(),
            buffer.indexes_view().is_none(),
            buffer.data_view() == Some(data),
            buffer.indexes_data_view() == indexes_data,
            buffer.vector_size() == data_type.size(),
            buffer.number_type_view() == FLOAT,
            buffer.stride_view() == 0,
            buffer.offset_view() == 0,
    {
        Buffer {
            attribute_name: String::from_str(attribute_name),
            value: None,
            indexes: None,
            data: Some(data),
            data_vector_size: data_type.get_size() as usize,
            indexes_data,
            number_type: FLOAT,
            stride: 0,
            offset: 0,
        }
    }

    /// Sets the stride and the offset to use when pointing the attribute at the data.
    pub fn set_layout(&mut self, stride: i32, offset: i32)
        ensures
            final(self).stride_view() == stride,
            final(self).offset_view() == offset,
            final(self).name_view() == old(self).name_view(),
            final(self).value_view() == old(self).value_view(),
            final(self).indexes_view() == old(self).indexes_view(),
            final(self).data_view() == old(self).data_view(),
            final(self).indexes_data_view() == old(self).indexes_data_view(),
            final(self).vector_size() == old(self).vector_size(),
            final(self).number_type_view() == old(self).number_type_view(),
    {
        self.stride = stride;
        self.offset = offset;
    }

    /// Whether constructing this buffer takes an index buffer object beside the buffer object.
    pub fn needs_index_buffer(&self) -> (needed: bool)
        ensures
            needed == self.indexed(),
    {
        match &self.indexes_data {
            Some(indexes) => indexes.len() > 0,
            None => false,
        }
    }

    /// The data to upload to the buffer object, if it has not been dropped.
    pub fn get_data(&self) -> (data: Option<&Vec<T>>)
        ensures
            data.is_some() == self.data_view().is_some(),
            data.is_some() ==> *data.unwrap() == self.data_view().unwrap(),
    {
        self.data.as_ref()
    }

    /// The indexes to upload to the index buffer object, if there are any.
    pub fn get_indexes_data(&self) -> (data: Option<&Vec<u16>>)
        ensures
            data.is_some() == self.indexes_data_view().is_some(),
            data.is_some() ==> *data.unwrap() == self.indexes_data_view().unwrap(),
    {
        self.indexes_data.as_ref()
    }

    /// Takes the buffer objects that were created for this buffer. A buffer without
    /// data cannot be constructed (`Error::MissingData`); neither can one whose
    /// buffer object, or whose index buffer object where it needs one, could not
    /// be created (`Error::UnconstructedValue`). On an error nothing changes.
    pub fn construct(&mut self, vertex_buffer: Option<u32>, index_buffer: Option<u32>) -> (result: Result<(), Error>)
        ensures
            final(self).same_contents(old(self)),
            old(self).data_view().is_none() ==> result == Err::<(), Error>(Error::MissingData),
            old(self).data_view().is_some() && (vertex_buffer.is_none() || (old(self).indexed()
                && index_buffer.is_none())) ==> result == Err::<(), Error>(Error::UnconstructedValue),
            old(self).data_view().is_some() && vertex_buffer.is_some() && (old(self).indexed()
                ==> index_buffer.is_some()) ==> result.is_ok(),
            result.is_ok() ==> {
                &&& final(self).value_view() == vertex_buffer
                &&& final(self).indexes_view() == (if old(self).indexed() {
                    index_buffer
                } else {
                    None
                })
            },
            result.is_err() ==> *final(self) == *old(self),
    {
        if self.data.is_none() {
            return Err(Error::MissingData);
        }
        let indexed = self.needs_index_buffer();
        if vertex_buffer.is_none() || (indexed && index_buffer.is_none()) {
            return Err(Error::UnconstructedValue);
        }
        self.value = vertex_buffer;
        self.indexes = if indexed {
            index_buffer
        } else {
            None
        };
        Ok(())
    }

    /// Name of the buffer object; none until constructed.
    pub fn get_buffer_object(&self) -> (object: Option<u32>)
        ensures
            object == self.value_view(),
    {
        self.value
    }

    /// Name of the index buffer object, if the buffer is indexed and constructed.
    pub fn get_index_buffer_object(&self) -> (object: Option<u32>)
        ensures
            object == self.indexes_view(),
    {
        self.indexes
    }

    /// Whether the buffer object has been created.
    pub fn is_constructed(&self) -> (constructed: bool)
        ensures
            constructed == self.value_view().is_some(),
    {
        self.value.is_some()
    }

    /// Whether this buffer is `before` with its raw data dropped: the data and the
    /// index data are gone, the name, the buffer objects and the layout are as
    /// they were.
    pub open spec fn cleaned(&self, before: &Buffer<T>) -> bool {
        &&& self.data_view().is_none()
        &&& self.indexes_data_view().is_none()
        &&& self.name_view() == before.name_view()
        &&& self.value_view() == before.value_view()
        &&& self.indexes_view() == before.indexes_view()
        &&& self.vector_size() == before.vector_size()
        &&& self.number_type_view() == before.number_type_view()
        &&& self.stride_view() == before.stride_view()
        &&& self.offset_view() == before.offset_view()
    }

    /// Drops the raw data; the buffer objects stay.
    pub fn clean(&mut self)
        ensures
            final(self).cleaned(old(self)),
    {
        self.data = None;
        self.indexes_data = None;
    }

    /// Returns the attribute name for this buffer
    pub fn get_attribute_name(&self) -> (name: &str)
        ensures
            name@ == self.name_view(),
    {
        self.attribute_name.as_str()
    }

    /// The binding of this buffer to the attribute at `location`.
    pub open spec fn binding(&self, location: i32) -> Result<AttributeBinding, Error> {
        if self.value_view().is_none() {
            Err(Error::UnconstructedValue)
        } else if location == NO_LOCATION {
            Err(Error::UnresolvedLocation)
        } else {
            Ok(
                AttributeBinding {
                    array_buffer: self.value_view().unwrap(),
                    element_array_buffer: self.indexes_view(),
                    pointer: AttributePointer {
                        location: location as u32,
                        size: self.vector_size() as i32,
                        number_type: self.number_type_view(),
                        normalized: false,
                        stride: self.stride_view(),
                        offset: self.offset_view(),
                    },
                },
            )
        }
    }

    /// Says how to enable the attribute at `location` and point it at this buffer.
    /// Meant to be carried out just before rendering. There is nothing to bind for
    /// a buffer that is not constructed (`Error::UnconstructedValue`) or for an
    /// attribute that the program does not have (`Error::UnresolvedLocation`).
    pub fn enable_and_bind_attribute(&self, location: i32) -> (result: Result<AttributeBinding, Error>)
        ensures
            result == self.binding(location),
    {
        match self.value {
            None => Err(Error::UnconstructedValue),
            Some(array_buffer) => {
                if location == NO_LOCATION {
                    Err(Error::UnresolvedLocation)
                } else {
                    Ok(
                        AttributeBinding {
                            array_buffer,
                            element_array_buffer: self.indexes,
                            pointer: AttributePointer {
                                location: #[verifier::truncate]
                                (location as u32),
                                size: #[verifier::truncate]
                                (self.data_vector_size as i32),
                                number_type: self.number_type,
                                normalized: false,
                                stride: self.stride,
                                offset: self.offset,
                            },
                        },
                    )
                }
            },
        }
    }
}

} // verus!
