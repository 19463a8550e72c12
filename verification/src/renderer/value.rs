//! Value types for the renderer, for both uniforms and buffers, and the choice
//! of the graphics call that uploads each of them.

use vstd::prelude::*;
use crate::asset::texture::Texture;
use crate::error::Error;

verus! {

/// Name of the first texture unit of the graphics context.
pub const TEXTURE0: u32 = 33984;

/// Number of the last texture unit that can be selected; any higher number selects this one.
pub const LAST_TEXTURE_NUMBER: u32 = 8;

/// A value that can be handed to a shader program. The scalar type `T` is carried, never computed on.
#[non_exhaustive]
pub enum RendererValue<T> {
    Float(T),
    FloatArray(Vec<T>),
    Vector2([T; 2]),
    Vector2Array(Vec<T>),
    Vector3([T; 3]),
    Vector3Array(Vec<T>),
    Vector4([T; 4]),
    Vector4Array(Vec<T>),
    Matrix2(Box<[T; 4]>),
    Matrix3(Box<[T; 9]>),
    Matrix4(Box<[T; 16]>),
    Texture(Texture),
}

/// The graphics call that uploads a value as a uniform.
#[derive(Clone, Copy, Debug, PartialEq, Eq)]
pub enum UniformCall {
    /// Upload as an array of vectors of `components` scalars each (one to four).
    Vector { components: u8 },
    /// Upload as a square matrix of `dimension` rows (two to four), not transposed.
    Matrix { dimension: u8 },
    /// Select texture unit `unit`, bind `texture` to it with linear magnification and
    /// nearest minification, and hand `sampler` to the program as the unit's number.
    Texture { unit: u32, texture: u32, sampler: i32 },
}

/// The texture unit that a texture number selects.
pub open spec fn texture_unit(texture_number: u32) -> u32 {
    if texture_number < LAST_TEXTURE_NUMBER {
        (TEXTURE0 + texture_number) as u32
    } else {
        (TEXTURE0 + LAST_TEXTURE_NUMBER) as u32
    }
}

/// The name of the texture unit with the given number; numbers past the last unit select the last.
pub fn get_texture_pointer(texture_number: u32) -> (unit: u32)
    ensures
        unit == texture_unit(texture_number),
{
    if texture_number < LAST_TEXTURE_NUMBER {
        TEXTURE0 + texture_number
    } else {
        TEXTURE0 + LAST_TEXTURE_NUMBER
    }
}

impl<T> RendererValue<T> {
    /// The call that uploads this value, or the reason why it cannot be uploaded.
    /// A texture needs to be constructed and to have a texture number; a missing
    /// number is reported before a missing texture object. Any value needs a location.
    pub open spec fn upload_call(&self, location: Option<u32>, texture_number: Option<u32>) -> Result<
        UniformCall,
        Error,
    > {
        match self {
            RendererValue::Texture(tex) => match (tex.texture, texture_number) {
                (_, None) => Err(Error::MissingTextureUnit),
                (None, _) => Err(Error::UnconstructedValue),
                (Some(name), Some(number)) => if location.is_none() {
                    Err(Error::UnresolvedLocation)
                } else {
                    Ok(
                        UniformCall::Texture {
                            unit: texture_unit(number),
                            texture: name,
                            sampler: number as i32,
                        },
                    )
                },
            },
            _ => if location.is_none() {
                Err(Error::UnresolvedLocation)
            } else {
                Ok(
                    match self {
                        RendererValue::Float(_) => UniformCall::Vector { components: 1 },
                        RendererValue::FloatArray(_) => UniformCall::Vector { components: 1 },
                        RendererValue::Vector2(_) => UniformCall::Vector { components: 2 },
                        RendererValue::Vector2Array(_) => UniformCall::Vector { components: 2 },
                        RendererValue::Vector3(_) => UniformCall::Vector { components: 3 },
                        RendererValue::Vector3Array(_) => UniformCall::Vector { components: 3 },
                        RendererValue::Vector4(_) => UniformCall::Vector { components: 4 },
                        RendererValue::Vector4Array(_) => UniformCall::Vector { components: 4 },
                        RendererValue::Matrix2(_) => UniformCall::Matrix { dimension: 2 },
                        RendererValue::Matrix3(_) => UniformCall::Matrix { dimension: 3 },
                        _ => UniformCall::Matrix { dimension: 4 },
                    },
                )
            },
        }
    }

    /// Chooses the graphics call that uploads this value to `location`.
    pub fn set_to_context_as_uniform(&self, location: Option<u32>, texture_number: Option<u32>) -> (call:
        Result<UniformCall, Error>)
        ensures
            call == self.upload_call(location, texture_number),
    {
        match self {
            RendererValue::Texture(tex) => match (tex.texture, texture_number) {
                (_, None) => Err(Error::MissingTextureUnit),
                (None, _) => Err(Error::UnconstructedValue),
                (Some(name), Some(number)) => {
                    if location.is_none() {
                        Err(Error::UnresolvedLocation)
                    } else {
                        Ok(
                            UniformCall::Texture {
                                unit: get_texture_pointer(number),
                                texture: name,
                                sampler: #[verifier::truncate]
                                (number as i32),
                            },
                        )
                    }
                },
            },
            _ => {
                if location.is_none() {
                    return Err(Error::UnresolvedLocation);
                }
                Ok(
                    match self {
                        RendererValue::Float(_) => UniformCall::Vector { components: 1 },
                        RendererValue::FloatArray(_) => UniformCall::Vector { components: 1 },
                        RendererValue::Vector2(_) => UniformCall::Vector { components: 2 },
                        RendererValue::Vector2Array(_) => UniformCall::Vector { components: 2 },
                        RendererValue::Vector3(_) => UniformCall::Vector { components: 3 },
                        RendererValue::Vector3Array(_) => UniformCall::Vector { components: 3 },
                        RendererValue::Vector4(_) => UniformCall::Vector { components: 4 },
                        RendererValue::Vector4Array(_) => UniformCall::Vector { components: 4 },
                        RendererValue::Matrix2(_) => UniformCall::Matrix { dimension: 2 },
                        RendererValue::Matrix3(_) => UniformCall::Matrix { dimension: 3 },
                        _ => UniformCall::Matrix { dimension: 4 },
                    },
                )
            },
        }
    }

    /// Whether this value is a texture reference.
    pub fn is_texture(&self) -> (texture: bool)
        ensures
            texture == (self is Texture),
    {
        match self {
            RendererValue::Texture(_) => true,
            _ => false,
        }
    }
}

/// The components of a list of three-component vectors, one vector after the other.
pub open spec fn flattened3<T>(vectors: Seq<[T; 3]>) -> Seq<T> {
    Seq::new(3 * vectors.len(), |i: int| vectors[i / 3]@[i % 3])
}

/// Flattens a list of three-component vectors into one contiguous list of
/// scalars: component after component, vector after vector.
pub fn flatten_vector3_array<T: Copy>(vectors: &Vec<[T; 3]>) -> (flat: Vec<T>)
    ensures
        flat@ == flattened3(vectors@),
{
    let mut flat: Vec<T> = Vec::new();
    let mut i: usize = 0;
    while i < vectors.len()
        invariant
            0 <= i <= vectors@.len(),
            flat@.len() == 3 * i,
            forall|k: int| 0 <= k < flat@.len() ==> flat@[k] == vectors@[k / 3]@[k % 3],
        decreases vectors@.len() - i,
    {
        let v = &vectors[i];
        flat.push(v[0]);
        flat.push(v[1]);
        flat.push(v[2]);
        i += 1;
    }
    assert(flat@ =~= flattened3(vectors@));
    flat
}

} // verus!
