//! Shader data type enumeration and associated component count.

use vstd::prelude::*;

verus! {

/// Every shader data type that can be bound to a buffer or a uniform.
#[derive(Clone, Copy, Debug, PartialEq, Eq)]
pub enum ShaderDataType {
    Single,
    Vector2,
    Vector3,
    Vector4,
    Matrix2,
    Matrix3,
    Matrix4,
    Sampler2D,
}

impl ShaderDataType {
    /// Number of components of a data type.
    pub open spec fn size(self) -> int {
        match self {
            ShaderDataType::Vector2 => 2,
            ShaderDataType::Vector3 => 3,
            ShaderDataType::Vector4 => 4,
            ShaderDataType::Matrix2 => 4,
            ShaderDataType::Matrix3 => 9,
            ShaderDataType::Matrix4 => 16,
            ShaderDataType::Single => 1,
            ShaderDataType::Sampler2D => 1,
        }
    }

    /// Gets the size in number of components for any data type.
    /// Usage: give component size when binding attributes to buffers.
    pub fn get_size(&self) -> (size: i32)
        ensures
            size == self.size(),
    {
        match self {
            ShaderDataType::Vector2 => 2,
            ShaderDataType::Vector3 => 3,
            ShaderDataType::Vector4 | ShaderDataType::Matrix2 => 4,
            ShaderDataType::Matrix3 => 9,
            ShaderDataType::Matrix4 => 16,
            ShaderDataType::Single | ShaderDataType::Sampler2D => 1,
        }
    }
}

} // verus!
