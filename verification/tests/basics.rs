use wtvr3d::asset::material::ShaderValueType;
use wtvr3d::error::W3DError;
use wtvr3d::renderer::shader_data_type::ShaderDataType;

#[test]
fn shader_value_type_reads_every_glsl_name() {
    assert_eq!(ShaderValueType::from_str("bool"), ShaderValueType::Bool);
    assert_eq!(ShaderValueType::from_str("int"), ShaderValueType::Int);
    assert_eq!(ShaderValueType::from_str("float"), ShaderValueType::Float);
    assert_eq!(ShaderValueType::from_str("double"), ShaderValueType::Double);
    assert_eq!(ShaderValueType::from_str("vec2"), ShaderValueType::Vec2);
    assert_eq!(ShaderValueType::from_str("vec3"), ShaderValueType::Vec3);
    assert_eq!(ShaderValueType::from_str("vec4"), ShaderValueType::Vec4);
    assert_eq!(ShaderValueType::from_str("mat2"), ShaderValueType::Mat2);
    assert_eq!(ShaderValueType::from_str("mat3"), ShaderValueType::Mat3);
    assert_eq!(ShaderValueType::from_str("mat4"), ShaderValueType::Mat4);
    assert_eq!(ShaderValueType::from_str("sampler2D"), ShaderValueType::Sampler2D);
}

#[test]
fn shader_value_type_of_unknown_name_is_unimplemented() {
    assert_eq!(ShaderValueType::from_str("samplerCube"), ShaderValueType::Unimplemented);
    assert_eq!(ShaderValueType::from_str(""), ShaderValueType::Unimplemented);
    assert_eq!(ShaderValueType::from_str("Vec3"), ShaderValueType::Unimplemented);
    assert_eq!(ShaderValueType::from_str("vec"), ShaderValueType::Unimplemented);
}

#[test]
fn shader_data_type_sizes() {
    assert_eq!(ShaderDataType::Single.get_size(), 1);
    assert_eq!(ShaderDataType::Vector2.get_size(), 2);
    assert_eq!(ShaderDataType::Vector3.get_size(), 3);
    assert_eq!(ShaderDataType::Vector4.get_size(), 4);
    assert_eq!(ShaderDataType::Matrix2.get_size(), 4);
    assert_eq!(ShaderDataType::Matrix3.get_size(), 9);
    assert_eq!(ShaderDataType::Matrix4.get_size(), 16);
    assert_eq!(ShaderDataType::Sampler2D.get_size(), 1);
}

#[test]
fn error_message_with_reason_only() {
    let e = W3DError::new("Could not deserialize data", None);
    assert_eq!(e.message(), "Could not deserialize data");
    assert_eq!(e.get_reason(), "Could not deserialize data");
    assert!(e.source.is_none());
    assert!(e.description.is_none());
}

#[test]
fn error_message_with_source_and_description() {
    let e = W3DError::new_with_desc(
        "Compilation failed for shader",
        Some("water".to_string()),
        Some("0:1 syntax error".to_string()),
    );
    assert_eq!(
        e.message(),
        "Compilation failed for shader, Generated for : water, Description : 0:1 syntax error"
    );
    let f = W3DError::new("Shader could not be created.", Some("water".to_string()));
    assert_eq!(f.message(), "Shader could not be created., Generated for : water");
    let g = W3DError::new_with_desc("Linking failed", None, Some("log".to_string()));
    assert_eq!(g.message(), "Linking failed, Description : log");
}
