//! Material asset definition: shader value types and the attributes and uniforms
//! a shader pair declares.

use vstd::prelude::*;
use vstd::string::*;
use crate::error::W3DError;
use crate::renderer::buffer::NO_LOCATION;
use crate::renderer::mesh_data::attribute_answered;
use crate::renderer::uniform::answered;
use crate::util::regexp::Matches;
use crate::util::text::same_text;

verus! {

/// Shader value types as used in GLSL.
#[non_exhaustive]
#[derive(Clone, Copy, Debug, PartialEq, Eq)]
pub enum ShaderValueType {
    Bool,
    Int,
    Float,
    Double,
    Vec2,
    Vec3,
    Vec4,
    Mat2,
    Mat3,
    Mat4,
    Sampler2D,
    Unimplemented,
}

impl ShaderValueType {
    /// The value type that a GLSL type name stands for.
    pub open spec fn of_name(text: Seq<char>) -> ShaderValueType {
        if text == "bool"@ {
            ShaderValueType::Bool
        } else if text == "int"@ {
            ShaderValueType::Int
        } else if text == "float"@ {
            ShaderValueType::Float
        } else if text == "double"@ {
            ShaderValueType::Double
        } else if text == "vec2"@ {
            ShaderValueType::Vec2
        } else if text == "vec3"@ {
            ShaderValueType::Vec3
        } else if text == "vec4"@ {
            ShaderValueType::Vec4
        } else if text == "mat2"@ {
            ShaderValueType::Mat2
        } else if text == "mat3"@ {
            ShaderValueType::Mat3
        } else if text == "mat4"@ {
            ShaderValueType::Mat4
        } else if text == "sampler2D"@ {
            ShaderValueType::Sampler2D
        } else {
            ShaderValueType::Unimplemented
        }
    }

    /// Reads a GLSL type name. Any name that is not listed is `Unimplemented`.
    pub fn from_str(text: &str) -> (value_type: ShaderValueType)
        ensures
            value_type == Self::of_name(text@),
    {
        if same_text(text, "bool") {
            ShaderValueType::Bool
        } else if same_text(text, "int") {
            ShaderValueType::Int
        } else if same_text(text, "float") {
            ShaderValueType::Float
        } else if same_text(text, "double") {
            ShaderValueType::Double
        } else if same_text(text, "vec2") {
            ShaderValueType::Vec2
        } else if same_text(text, "vec3") {
            ShaderValueType::Vec3
        } else if same_text(text, "vec4") {
            ShaderValueType::Vec4
        } else if same_text(text, "mat2") {
            ShaderValueType::Mat2
        } else if same_text(text, "mat3") {
            ShaderValueType::Mat3
        } else if same_text(text, "mat4") {
            ShaderValueType::Mat4
        } else if same_text(text, "sampler2D") {
            ShaderValueType::Sampler2D
        } else {
            ShaderValueType::Unimplemented
        }
    }
}

/// A shader attribute definition: its name, its type and, once looked up, its location.
#[derive(Clone)]
pub struct Attribute {
    pub name: String,
    pub value_type: ShaderValueType,
    pub location: Option<i32>,
}


/// A shader uniform definition: its name, its type and, once looked up, its location.
pub struct Uniform {
    pub name: String,
    pub value_type: ShaderValueType,
    pub location: Option<u32>,
}

/// Reason of the error for a shader object that could not be created.
pub const SHADER_NOT_CREATED: &'static str = "Shader could not be created.";

/// Reason of the error for a shader that did not compile.
pub const COMPILATION_FAILED: &'static str = "Compilation failed for shader";

/// Reason of the error for a program object that could not be created.
pub const PROGRAM_NOT_CREATED: &'static str = "Could not create WebGL Program";

/// Reason of the error for a program that did not link.
pub const LINKING_FAILED: &'static str = "Linking failed for WebGLProgram";

/// Reason of the error for an attribute that the program does not have.
pub const ATTRIBUTE_NOT_FOUND: &'static str = "Attribute Location was not found";

/// Reason of the error for an attribute lookup in a material without a program.
pub const ATTRIBUTE_WITHOUT_PROGRAM: &'static str = "Trying to get attribute location without program";

/// Reason of the error for a uniform that the program does not have.
pub const UNIFORM_NOT_FOUND: &'static str = "Uniform Location was not found";

/// Reason of the error for a uniform lookup in a material without a program.
pub const UNIFORM_WITHOUT_PROGRAM: &'static str = "Trying to get uniform location without program";

/// Reason of the error for a material that is constructed without its shader sources.
pub const MISSING_SHADER: &'static str = "Missing shader for material";

/// The text of one capture group of a match.
pub open spec fn group_text(found: Matches, group: int) -> Seq<char> {
    found.groups@[group]@
}

/// Whether every match of a list has the two groups of a declaration: a type and a name.
pub open spec fn declarations(found: Seq<Matches>) -> bool {
    forall|i: int| 0 <= i < found.len() ==> (#[trigger] found[i]).groups@.len() >= 2
}

/// Whether `attributes` are the attributes that a list of matches declares, in
/// the order of the list, none with a location yet.
pub open spec fn attributes_declared(attributes: Seq<Attribute>, found: Seq<Matches>) -> bool {
    &&& attributes.len() == found.len()
    &&& forall|i: int|
        0 <= i < found.len() ==> {
            &&& (#[trigger] attributes[i]).name@ == group_text(found[i], 1)
            &&& attributes[i].value_type == ShaderValueType::of_name(group_text(found[i], 0))
            &&& attributes[i].location.is_none()
        }
}

/// Whether `uniforms` are the uniforms that a list of matches declares, in the
/// order of the list, none with a location yet.
pub open spec fn uniforms_declared(uniforms: Seq<Uniform>, found: Seq<Matches>) -> bool {
    &&& uniforms.len() == found.len()
    &&& forall|i: int|
        0 <= i < found.len() ==> {
            &&& (#[trigger] uniforms[i]).name@ == group_text(found[i], 1)
            &&& uniforms[i].value_type == ShaderValueType::of_name(group_text(found[i], 0))
            &&& uniforms[i].location.is_none()
        }
}

/// A material as an asset: the sources of a shader pair and what they declare.
/// Constructing it puts the linked program in the place of the sources.
pub struct Material {
    /// Underlying program. None until constructed.
    program: Option<u32>,
    /// Vertex shader text
    vertex_shader: Option<String>,
    /// Fragment shader text
    fragment_shader: Option<String>,
    /// Is this material using lights ?
    lit: bool,
    /// Is this material semi-transparent ?
    transparent: bool,
    /// Identification of this material for easy error handling
    name: String,
    /// Attribute names for location lookup
    attributes: Vec<Attribute>,
    /// Uniform names for location lookup
    uniforms: Vec<Uniform>,
}

impl Material {
    pub closed spec fn program_view(&self) -> Option<u32> {
        self.program
    }

    pub closed spec fn vertex_shader_view(&self) -> Option<String> {
        self.vertex_shader
    }

    pub closed spec fn fragment_shader_view(&self) -> Option<String> {
        self.fragment_shader
    }

    pub closed spec fn lit_view(&self) -> bool {
        self.lit
    }

    pub closed spec fn transparent_view(&self) -> bool {
        self.transparent
    }

    pub closed spec fn name_view(&self) -> Seq<char> {
        self.name@
    }

    pub closed spec fn attributes_view(&self) -> Seq<Attribute> {
        self.attributes@
    }

    pub closed spec fn uniforms_view(&self) -> Seq<Uniform> {
        self.uniforms@
    }

    /// Whether two materials differ in nothing but the locations of their attributes and uniforms.
    pub open spec fn same_but_locations(&self, other: &Material) -> bool {
        &&& self.program_view() == other.program_view()
        &&& self.vertex_shader_view() == other.vertex_shader_view()
        &&& self.fragment_shader_view() == other.fragment_shader_view()
        &&& self.lit_view() == other.lit_view()
        &&& self.transparent_view() == other.transparent_view()
        &&& self.name_view() == other.name_view()
        &&& self.attributes_view().len() == other.attributes_view().len()
        &&& self.uniforms_view().len() == other.uniforms_view().len()
        &&& forall|i: int|
            0 <= i < self.attributes_view().len() ==> {
                &&& (#[trigger] self.attributes_view()[i]).name == other.attributes_view()[i].name
                &&& self.attributes_view()[i].value_type == other.attributes_view()[i].value_type
            }
        &&& forall|i: int|
            0 <= i < self.uniforms_view().len() ==> {
                &&& (#[trigger] self.uniforms_view()[i]).name == other.uniforms_view()[i].name
                &&& self.uniforms_view()[i].value_type == other.uniforms_view()[i].value_type
            }
    }

    /// Create a new material from vertex and fragment shaders.
    /// Shader strings may be dropped when the material is constructed.
    pub fn new(name: String, vertex_shader: String, fragment_shader: String, lit: bool, transparent: bool) -> (material:
        Material)
        ensures
            material.name_view() == name@,
            material.program_view().is_none(),
            material.vertex_shader_view() == Some(vertex_shader),
            material.fragment_shader_view() == Some(fragment_shader),
            material.lit_view() == lit,
            material.transparent_view() == transparent,
            material.attributes_view().len() == 0,
            material.uniforms_view().len() == 0,
    {
        Material {
            name,
            program: None,
            vertex_shader: Some(vertex_shader),
            fragment_shader: Some(fragment_shader),
            lit,
            transparent,
            attributes: Vec::new(),
            uniforms: Vec::new(),
        }
    }

    pub fn get_program(&self) -> (program: Option<&u32>)
        ensures
            program.is_some() == self.program_view().is_some(),
            program.is_some() ==> *program.unwrap() == self.program_view().unwrap(),
    {
        self.program.as_ref()
    }

    /// The source of the vertex shader, as long as it is kept.
    pub fn get_vertex_shader(&self) -> (source: Option<&String>)
        ensures
            source.is_some() == self.vertex_shader_view().is_some(),
            source.is_some() ==> *source.unwrap() == self.vertex_shader_view().unwrap(),
    {
        self.vertex_shader.as_ref()
    }

    /// The source of the fragment shader, as long as it is kept.
    pub fn get_fragment_shader(&self) -> (source: Option<&String>)
        ensures
            source.is_some() == self.fragment_shader_view().is_some(),
            source.is_some() ==> *source.unwrap() == self.fragment_shader_view().unwrap(),
    {
        self.fragment_shader.as_ref()
    }

    /// The attributes that the material declares.
    pub fn get_attributes(&self) -> (attributes: &Vec<Attribute>)
        ensures
            attributes@ == self.attributes_view(),
    {
        &self.attributes
    }

    /// The uniforms that the material declares.
    pub fn get_uniforms(&self) -> (uniforms: &Vec<Uniform>)
        ensures
            uniforms@ == self.uniforms_view(),
    {
        &self.uniforms
    }

    /// What became of one shader of this material: the object's name, or an error
    /// that names the material and holds the compiler's log. A shader object that
    /// did not compile is of no use and is to be deleted.
    pub fn compile_shader(&self, shader: Option<u32>, compiled: bool, log: Option<String>) -> (result: Result<
        u32,
        W3DError,
    >)
        ensures
            shader.is_some() && compiled ==> result == Ok::<u32, W3DError>(shader.unwrap()),
            !(shader.is_some() && compiled) ==> {
                &&& result.is_err()
                &&& result.unwrap_err().source_view().is_some()
                &&& result.unwrap_err().source_view().unwrap()@ == self.name_view()
                &&& shader.is_none() ==> result.unwrap_err().reason_view() == SHADER_NOT_CREATED@
                    && result.unwrap_err().description_view().is_none()
                &&& shader.is_some() ==> result.unwrap_err().reason_view() == COMPILATION_FAILED@
                    && result.unwrap_err().description_view() == log
            },
    {
        match shader {
            None => Err(W3DError::new(SHADER_NOT_CREATED, Some(self.name.clone()))),
            Some(object) => {
                if compiled {
                    Ok(object)
                } else {
                    Err(W3DError::new_with_desc(COMPILATION_FAILED, Some(self.name.clone()), log))
                }
            },
        }
    }

    /// What became of the program of this material: the object's name, or an error
    /// that names the material and holds the linker's log. A program object that
    /// did not link is of no use and is to be deleted.
    pub fn link_program(&self, program: Option<u32>, linked: bool, log: Option<String>) -> (result: Result<
        u32,
        W3DError,
    >)
        ensures
            program.is_some() && linked ==> result == Ok::<u32, W3DError>(program.unwrap()),
            !(program.is_some() && linked) ==> {
                &&& result.is_err()
                &&& result.unwrap_err().source_view().is_some()
                &&& result.unwrap_err().source_view().unwrap()@ == self.name_view()
                &&& program.is_none() ==> result.unwrap_err().reason_view() == PROGRAM_NOT_CREATED@
                    && result.unwrap_err().description_view().is_none()
                &&& program.is_some() ==> result.unwrap_err().reason_view() == LINKING_FAILED@
                    && result.unwrap_err().description_view() == log
            },
    {
        match program {
            None => Err(W3DError::new(PROGRAM_NOT_CREATED, Some(self.name.clone()))),
            Some(object) => {
                if linked {
                    Ok(object)
                } else {
                    Err(W3DError::new_with_desc(LINKING_FAILED, Some(self.name.clone()), log))
                }
            },
        }
    }

    /// Takes the attributes and uniforms from what the shader sources declare:
    /// the attributes from the matches of the attribute pattern in the vertex
    /// shader, the uniforms from the matches of the uniform pattern in the vertex
    /// shader and then in the fragment shader. Group one of a match is the type,
    /// group two the name. A material that has attributes or uniforms already, or
    /// that has lost a shader source, stays as it is.
    pub fn set_attribute_and_uniform_names(
        &mut self,
        attribute_matches: &Vec<Matches>,
        vertex_uniform_matches: &Vec<Matches>,
        fragment_uniform_matches: &Vec<Matches>,
    )
        requires
            declarations(attribute_matches@),
            declarations(vertex_uniform_matches@),
            declarations(fragment_uniform_matches@),
        ensures
            final(self).program_view() == old(self).program_view(),
            final(self).vertex_shader_view() == old(self).vertex_shader_view(),
            final(self).fragment_shader_view() == old(self).fragment_shader_view(),
            final(self).lit_view() == old(self).lit_view(),
            final(self).transparent_view() == old(self).transparent_view(),
            final(self).name_view() == old(self).name_view(),
            old(self).takes_names() ==> {
                &&& attributes_declared(final(self).attributes_view(), attribute_matches@)
                &&& uniforms_declared(
                    final(self).uniforms_view(),
                    vertex_uniform_matches@ + fragment_uniform_matches@,
                )
            },
            !old(self).takes_names() ==> {
                &&& final(self).attributes_view() == old(self).attributes_view()
                &&& final(self).uniforms_view() == old(self).uniforms_view()
            },
    {
        if self.attributes.len() > 0 || self.uniforms.len() > 0 {
            return;
        }
        if self.vertex_shader.is_none() || self.fragment_shader.is_none() {
            return;
        }
        let mut i: usize = 0;
        while i < attribute_matches.len()
            invariant
                0 <= i <= attribute_matches@.len(),
                declarations(attribute_matches@),
                self.uniforms@.len() == 0,
                self.program == old(self).program,
                self.vertex_shader == old(self).vertex_shader,
                self.fragment_shader == old(self).fragment_shader,
                self.lit == old(self).lit,
                self.transparent == old(self).transparent,
                self.name == old(self).name,
                attributes_declared(self.attributes@, attribute_matches@.take(i as int)),
            decreases attribute_matches@.len() - i,
        {
            let found = &attribute_matches[i];
            self.attributes.push(
                Attribute {
                    name: found.groups[1].clone(),
                    value_type: ShaderValueType::from_str(found.groups[0].as_str()),
                    location: None,
                },
            );
            i += 1;
        }
        assert(attribute_matches@.take(attribute_matches@.len() as int) =~= attribute_matches@);
        let ghost attributes = self.attributes@;
        let mut j: usize = 0;
        while j < vertex_uniform_matches.len()
            invariant
                0 <= j <= vertex_uniform_matches@.len(),
                declarations(vertex_uniform_matches@),
                self.attributes@ == attributes,
                self.program == old(self).program,
                self.vertex_shader == old(self).vertex_shader,
                self.fragment_shader == old(self).fragment_shader,
                self.lit == old(self).lit,
                self.transparent == old(self).transparent,
                self.name == old(self).name,
                uniforms_declared(self.uniforms@, vertex_uniform_matches@.take(j as int)),
            decreases vertex_uniform_matches@.len() - j,
        {
            let found = &vertex_uniform_matches[j];
            self.uniforms.push(
                Uniform {
                    name: found.groups[1].clone(),
                    value_type: ShaderValueType::from_str(found.groups[0].as_str()),
                    location: None,
                },
            );
            j += 1;
        }
        assert(vertex_uniform_matches@.take(vertex_uniform_matches@.len() as int) =~= vertex_uniform_matches@);
        let mut k: usize = 0;
        while k < fragment_uniform_matches.len()
            invariant
                0 <= k <= fragment_uniform_matches@.len(),
                declarations(fragment_uniform_matches@),
                self.attributes@ == attributes,
                self.program == old(self).program,
                self.vertex_shader == old(self).vertex_shader,
                self.fragment_shader == old(self).fragment_shader,
                self.lit == old(self).lit,
                self.transparent == old(self).transparent,
                self.name == old(self).name,
                uniforms_declared(
                    self.uniforms@,
                    vertex_uniform_matches@ + fragment_uniform_matches@.take(k as int),
                ),
            decreases fragment_uniform_matches@.len() - k,
        {
            let found = &fragment_uniform_matches[k];
            self.uniforms.push(
                Uniform {
                    name: found.groups[1].clone(),
                    value_type: ShaderValueType::from_str(found.groups[0].as_str()),
                    location: None,
                },
            );
            k += 1;
        }
        assert(fragment_uniform_matches@.take(fragment_uniform_matches@.len() as int) =~= fragment_uniform_matches@);
    }

    /// Whether the material has neither attributes nor uniforms yet and still holds both shader sources.
    pub open spec fn takes_names(&self) -> bool {
        &&& self.attributes_view().len() == 0
        &&& self.uniforms_view().len() == 0
        &&& self.vertex_shader_view().is_some()
        &&& self.fragment_shader_view().is_some()
    }

    /// What looking up the attribute locations leaves behind where it got as far as
    /// attribute `reached`: every attribute before it has the location that
    /// `query` answered, every other attribute is as before.
    pub open spec fn attributes_located<F: Fn(u32, &str) -> i32>(
        &self,
        before: &Material,
        query: &F,
        reached: int,
    ) -> bool {
        &&& self.same_but_locations(before)
        &&& self.uniforms_view() == before.uniforms_view()
        &&& forall|i: int|
            0 <= i < reached ==> {
                &&& (#[trigger] self.attributes_view()[i]).location.is_some()
                &&& self.attributes_view()[i].location.unwrap() != NO_LOCATION
                &&& attribute_answered(
                    query,
                    before.program_view().unwrap(),
                    before.attributes_view()[i].name@,
                    self.attributes_view()[i].location.unwrap(),
                )
            }
        &&& forall|i: int|
            reached <= i < before.attributes_view().len() ==> #[trigger] self.attributes_view()[i]
                == before.attributes_view()[i]
    }

    /// Looks up the location of every attribute, in their order. The first
    /// attribute that the program does not have ends the lookup with an error;
    /// so does a material without a program, before anything is asked.
    pub fn get_attrib_locations<F: Fn(u32, &str) -> i32>(&mut self, query: &F) -> (result: Result<(), W3DError>)
        requires
            forall|program: u32, name: &str| #[trigger] query.requires((program, name)),
        ensures
            old(self).program_view().is_none() ==> {
                &&& *final(self) == *old(self)
                &&& result.is_err()
                &&& result.unwrap_err().reason_view() == ATTRIBUTE_WITHOUT_PROGRAM@
            },
            old(self).program_view().is_some() && result.is_ok() ==> final(self).attributes_located(
                old(self),
                query,
                old(self).attributes_view().len() as int,
            ),
            old(self).program_view().is_some() && result.is_err() ==> {
                &&& result.unwrap_err().reason_view() == ATTRIBUTE_NOT_FOUND@
                &&& exists|reached: int|
                    0 <= reached < old(self).attributes_view().len() && #[trigger] final(self).attributes_located(
                        old(self),
                        query,
                        reached,
                    ) && attribute_answered(
                        query,
                        old(self).program_view().unwrap(),
                        old(self).attributes_view()[reached].name@,
                        NO_LOCATION,
                    )
            },
            result.is_err() ==> result.unwrap_err().source_view().is_some()
                && result.unwrap_err().source_view().unwrap()@ == old(self).name_view(),
    {
        let program = match self.program {
            Some(p) => p,
            None => {
                return Err(W3DError::new(ATTRIBUTE_WITHOUT_PROGRAM, Some(self.name.clone())));
            },
        };
        let mut i: usize = 0;
        while i < self.attributes.len()
            invariant
                0 <= i <= self.attributes@.len(),
                forall|program: u32, name: &str| #[trigger] query.requires((program, name)),
                old(self).program_view() == Some(program),
                self.attributes_located(old(self), query, i as int),
                self.name == old(self).name,
            decreases self.attributes@.len() - i,
        {
            let ghost prior = *self;
            let location = query(program, self.attributes[i].name.as_str());
            if location == NO_LOCATION {
                return Err(W3DError::new(ATTRIBUTE_NOT_FOUND, Some(self.name.clone())));
            }
            self.attributes[i].location = Some(location);
            proof {
                assert forall|k: int| 0 <= k < i + 1 implies {
                    &&& (#[trigger] self.attributes_view()[k]).location.is_some()
                    &&& self.attributes_view()[k].location.unwrap() != NO_LOCATION
                    &&& attribute_answered(
                        query,
                        old(self).program_view().unwrap(),
                        old(self).attributes_view()[k].name@,
                        self.attributes_view()[k].location.unwrap(),
                    )
                } by {
                    if k < i {
                        assert(self.attributes_view()[k] == prior.attributes_view()[k]);
                    } else {
                        assert(prior.attributes_view()[k] == old(self).attributes_view()[k]);
                    }
                }
                assert forall|k: int| 0 <= k < self.attributes_view().len() implies {
                    &&& (#[trigger] self.attributes_view()[k]).name == old(self).attributes_view()[k].name
                    &&& self.attributes_view()[k].value_type == old(self).attributes_view()[k].value_type
                } by {
                    assert(prior.attributes_view()[k].name == old(self).attributes_view()[k].name);
                }
            }
            i += 1;
        }
        Ok(())
    }

    /// What looking up the uniform locations leaves behind where it got as far as
    /// uniform `reached`: every uniform before it has the location that `query`
    /// answered, every other uniform is as before.
    pub open spec fn uniforms_located<F: Fn(u32, &str) -> Option<u32>>(
        &self,
        before: &Material,
        query: &F,
        reached: int,
    ) -> bool {
        &&& self.same_but_locations(before)
        &&& self.attributes_view() == before.attributes_view()
        &&& forall|i: int|
            0 <= i < reached ==> {
                &&& (#[trigger] self.uniforms_view()[i]).location.is_some()
                &&& answered(
                    query,
                    before.program_view().unwrap(),
                    before.uniforms_view()[i].name@,
                    self.uniforms_view()[i].location,
                )
            }
        &&& forall|i: int|
            reached <= i < before.uniforms_view().len() ==> #[trigger] self.uniforms_view()[i]
                == before.uniforms_view()[i]
    }

    /// Looks up the location of every uniform, in their order. The first uniform
    /// that the program does not have ends the lookup with an error; so does a
    /// material without a program, before anything is asked.
    pub fn get_uniform_locations<F: Fn(u32, &str) -> Option<u32>>(&mut self, query: &F) -> (result: Result<
        (),
        W3DError,
    >)
        requires
            forall|program: u32, name: &str| #[trigger] query.requires((program, name)),
        ensures
            old(self).program_view().is_none() ==> {
                &&& *final(self) == *old(self)
                &&& result.is_err()
                &&& result.unwrap_err().reason_view() == UNIFORM_WITHOUT_PROGRAM@
            },
            old(self).program_view().is_some() && result.is_ok() ==> final(self).uniforms_located(
                old(self),
                query,
                old(self).uniforms_view().len() as int,
            ),
            old(self).program_view().is_some() && result.is_err() ==> {
                &&& result.unwrap_err().reason_view() == UNIFORM_NOT_FOUND@
                &&& exists|reached: int|
                    0 <= reached < old(self).uniforms_view().len() && #[trigger] final(self).uniforms_located(
                        old(self),
                        query,
                        reached,
                    ) && answered(
                        query,
                        old(self).program_view().unwrap(),
                        old(self).uniforms_view()[reached].name@,
                        None,
                    )
            },
            result.is_err() ==> result.unwrap_err().source_view().is_some()
                && result.unwrap_err().source_view().unwrap()@ == old(self).name_view(),
    {
        let program = match self.program {
            Some(p) => p,
            None => {
                return Err(W3DError::new(UNIFORM_WITHOUT_PROGRAM, Some(self.name.clone())));
            },
        };
        let mut i: usize = 0;
        while i < self.uniforms.len()
            invariant
                0 <= i <= self.uniforms@.len(),
                forall|program: u32, name: &str| #[trigger] query.requires((program, name)),
                old(self).program_view() == Some(program),
                self.uniforms_located(old(self), query, i as int),
                self.name == old(self).name,
            decreases self.uniforms@.len() - i,
        {
            let ghost prior = *self;
            let location = query(program, self.uniforms[i].name.as_str());
            if location.is_none() {
                return Err(W3DError::new(UNIFORM_NOT_FOUND, Some(self.name.clone())));
            }
            self.uniforms[i].location = location;
            proof {
                assert forall|k: int| 0 <= k < i + 1 implies {
                    &&& (#[trigger] self.uniforms_view()[k]).location.is_some()
                    &&& answered(
                        query,
                        old(self).program_view().unwrap(),
                        old(self).uniforms_view()[k].name@,
                        self.uniforms_view()[k].location,
                    )
                } by {
                    if k < i {
                        assert(self.uniforms_view()[k] == prior.uniforms_view()[k]);
                    } else {
                        assert(prior.uniforms_view()[k] == old(self).uniforms_view()[k]);
                    }
                }
                assert forall|k: int| 0 <= k < self.uniforms_view().len() implies {
                    &&& (#[trigger] self.uniforms_view()[k]).name == old(self).uniforms_view()[k].name
                    &&& self.uniforms_view()[k].value_type == old(self).uniforms_view()[k].value_type
                } by {
                    assert(prior.uniforms_view()[k].name == old(self).uniforms_view()[k].name);
                }
            }
            i += 1;
        }
        Ok(())
    }

    /// Whether the attributes are those of `before` after the first `reached` of
    /// them were asked of `query`, and found: each of these has the location that
    /// `query` answered for its name in `program`, every other attribute is as it was.
    pub open spec fn attributes_asked<F: Fn(u32, &str) -> i32>(
        &self,
        before: &Material,
        program: u32,
        query: &F,
        reached: int,
    ) -> bool {
        &&& self.attributes_view().len() == before.attributes_view().len()
        &&& forall|i: int|
            0 <= i < reached ==> {
                &&& (#[trigger] self.attributes_view()[i]).name == before.attributes_view()[i].name
                &&& self.attributes_view()[i].value_type == before.attributes_view()[i].value_type
                &&& self.attributes_view()[i].location.is_some()
                &&& self.attributes_view()[i].location.unwrap() != NO_LOCATION
                &&& attribute_answered(
                    query,
                    program,
                    before.attributes_view()[i].name@,
                    self.attributes_view()[i].location.unwrap(),
                )
            }
        &&& forall|i: int|
            reached <= i < before.attributes_view().len() ==> #[trigger] self.attributes_view()[i]
                == before.attributes_view()[i]
    }

    /// Whether the uniforms are those of `before` after the first `reached` of
    /// them were asked of `query`, and found: each of these has the location that
    /// `query` answered for its name in `program`, every other uniform is as it was.
    pub open spec fn uniforms_asked<F: Fn(u32, &str) -> Option<u32>>(
        &self,
        before: &Material,
        program: u32,
        query: &F,
        reached: int,
    ) -> bool {
        &&& self.uniforms_view().len() == before.uniforms_view().len()
        &&& forall|i: int|
            0 <= i < reached ==> {
                &&& (#[trigger] self.uniforms_view()[i]).name == before.uniforms_view()[i].name
                &&& self.uniforms_view()[i].value_type == before.uniforms_view()[i].value_type
                &&& self.uniforms_view()[i].location.is_some()
                &&& answered(query, program, before.uniforms_view()[i].name@, self.uniforms_view()[i].location)
            }
        &&& forall|i: int|
            reached <= i < before.uniforms_view().len() ==> #[trigger] self.uniforms_view()[i]
                == before.uniforms_view()[i]
    }

    /// What looking up every location of `before` in `program` leaves behind, and
    /// what it reports. The attributes are asked first, in their order, then the
    /// uniforms. The lookup ends well when every one of them was found. It ends
    /// on the first attribute for which `attribute_query` answered that there is
    /// none, or else on the first uniform for which `uniform_query` answered
    /// nothing; what was found before that stays, the rest is as it was.
    pub open spec fn lookup_outcome<FA: Fn(u32, &str) -> i32, FU: Fn(u32, &str) -> Option<u32>>(
        &self,
        before: &Material,
        program: u32,
        attribute_query: &FA,
        uniform_query: &FU,
        result: Result<(), W3DError>,
    ) -> bool {
        let attributes = before.attributes_view().len() as int;
        let uniforms = before.uniforms_view().len() as int;
        match result {
            Ok(_) => {
                &&& self.attributes_asked(before, program, attribute_query, attributes)
                &&& self.uniforms_asked(before, program, uniform_query, uniforms)
            },
            Err(e) => {
                &&& e.source_view().is_some()
                &&& e.source_view().unwrap()@ == before.name_view()
                &&& {
                    ||| {
                        &&& e.reason_view() == ATTRIBUTE_NOT_FOUND@
                        &&& self.uniforms_view() == before.uniforms_view()
                        &&& exists|reached: int|
                            0 <= reached < attributes && #[trigger] self.attributes_asked(
                                before,
                                program,
                                attribute_query,
                                reached,
                            ) && attribute_answered(
                                attribute_query,
                                program,
                                before.attributes_view()[reached].name@,
                                NO_LOCATION,
                            )
                    }
                    ||| {
                        &&& e.reason_view() == UNIFORM_NOT_FOUND@
                        &&& self.attributes_asked(before, program, attribute_query, attributes)
                        &&& exists|reached: int|
                            0 <= reached < uniforms && #[trigger] self.uniforms_asked(
                                before,
                                program,
                                uniform_query,
                                reached,
                            ) && answered(uniform_query, program, before.uniforms_view()[reached].name@, None)
                    }
                }
            },
        }
    }

    /// Looks up the locations of the attributes, then those of the uniforms. A
    /// material without attributes and uniforms has nothing to ask and ends well.
    pub fn get_locations<FA: Fn(u32, &str) -> i32, FU: Fn(u32, &str) -> Option<u32>>(
        &mut self,
        attribute_query: &FA,
        uniform_query: &FU,
    ) -> (result: Result<(), W3DError>)
        requires
            forall|program: u32, name: &str| #[trigger] attribute_query.requires((program, name)),
            forall|program: u32, name: &str| #[trigger] uniform_query.requires((program, name)),
        ensures
            final(self).same_but_locations(old(self)),
            old(self).program_view().is_none() ==> {
                &&& *final(self) == *old(self)
                &&& result.is_err()
                &&& result.unwrap_err().reason_view() == ATTRIBUTE_WITHOUT_PROGRAM@
            },
            old(self).program_view().is_some() ==> final(self).lookup_outcome(
                old(self),
                old(self).program_view().unwrap(),
                attribute_query,
                uniform_query,
                result,
            ),
            old(self).program_view().is_some() && old(self).attributes_view().len() == 0
                && old(self).uniforms_view().len() == 0 ==> result.is_ok(),
            result.is_ok() ==> final(self).all_located() && final(self).located_by(
                old(self).program_view().unwrap(),
                attribute_query,
                uniform_query,
            ),
            result.is_err() ==> result.unwrap_err().source_view().is_some()
                && result.unwrap_err().source_view().unwrap()@ == old(self).name_view(),
    {
        let ghost program = self.program_view();
        match self.get_attrib_locations(attribute_query) {
            Err(e) => {
                proof {
                    if program.is_some() {
                        let reached = choose|reached: int|
                            0 <= reached < old(self).attributes_view().len() && #[trigger] self.attributes_located(
                                old(self),
                                attribute_query,
                                reached,
                            ) && attribute_answered(
                                attribute_query,
                                program.unwrap(),
                                old(self).attributes_view()[reached].name@,
                                NO_LOCATION,
                            );
                        assert(self.attributes_asked(old(self), program.unwrap(), attribute_query, reached));
                    }
                }
                return Err(e);
            },
            Ok(_) => {},
        }
        let ghost middle = *self;
        assert(self.attributes_asked(
            old(self),
            program.unwrap(),
            attribute_query,
            old(self).attributes_view().len() as int,
        ));
        match self.get_uniform_locations(uniform_query) {
            Err(e) => {
                proof {
                    let reached = choose|reached: int|
                        0 <= reached < middle.uniforms_view().len() && #[trigger] self.uniforms_located(
                            &middle,
                            uniform_query,
                            reached,
                        ) && answered(uniform_query, program.unwrap(), middle.uniforms_view()[reached].name@, None);
                    assert(self.uniforms_asked(old(self), program.unwrap(), uniform_query, reached));
                    assert(self.attributes_asked(
                        old(self),
                        program.unwrap(),
                        attribute_query,
                        old(self).attributes_view().len() as int,
                    ));
                }
                return Err(e);
            },
            Ok(_) => {},
        }
        proof {
            assert forall|i: int| 0 <= i < self.attributes_view().len() implies (
            #[trigger] self.attributes_view()[i]).location.is_some() by {
                assert(middle.attributes_view()[i].location.is_some());
            }
            assert(self.uniforms_asked(
                old(self),
                program.unwrap(),
                uniform_query,
                old(self).uniforms_view().len() as int,
            ));
        }
        Ok(())
    }

    /// Whether every attribute has a location that `query` answered for its name
    /// when asked of `program`.
    pub open spec fn attributes_found<F: Fn(u32, &str) -> i32>(&self, program: u32, query: &F) -> bool {
        forall|i: int|
            0 <= i < self.attributes_view().len() ==> {
                &&& (#[trigger] self.attributes_view()[i]).location.is_some()
                &&& self.attributes_view()[i].location.unwrap() != NO_LOCATION
                &&& attribute_answered(
                    query,
                    program,
                    self.attributes_view()[i].name@,
                    self.attributes_view()[i].location.unwrap(),
                )
            }
    }

    /// Whether every uniform has a location that `query` answered for its name
    /// when asked of `program`.
    pub open spec fn uniforms_found<F: Fn(u32, &str) -> Option<u32>>(&self, program: u32, query: &F) -> bool {
        forall|i: int|
            0 <= i < self.uniforms_view().len() ==> {
                &&& (#[trigger] self.uniforms_view()[i]).location.is_some()
                &&& answered(query, program, self.uniforms_view()[i].name@, self.uniforms_view()[i].location)
            }
    }

    /// Whether every attribute and every uniform has a location that its query
    /// answered for its name, both asked of `program`.
    pub open spec fn located_by<FA: Fn(u32, &str) -> i32, FU: Fn(u32, &str) -> Option<u32>>(
        &self,
        program: u32,
        attribute_query: &FA,
        uniform_query: &FU,
    ) -> bool {
        self.attributes_found(program, attribute_query) && self.uniforms_found(program, uniform_query)
    }

    /// Whether every attribute and every uniform has a location.
    pub open spec fn all_located(&self) -> bool {
        &&& forall|i: int|
            0 <= i < self.attributes_view().len() ==> (#[trigger] self.attributes_view()[i]).location.is_some()
        &&& forall|i: int|
            0 <= i < self.uniforms_view().len() ==> (#[trigger] self.uniforms_view()[i]).location.is_some()
    }

    /// Constructs the material of the program that was built for it, or fails with
    /// the error that building the program ended on. The locations of its
    /// attributes and uniforms are looked up, all of them being required. With
    /// `clean_up`, a material that is constructed drops its shader sources.
    ///
    /// A material that has lost a shader source is not constructed, whatever
    /// became of the program.
    pub fn construct<FA: Fn(u32, &str) -> i32, FU: Fn(u32, &str) -> Option<u32>>(
        &mut self,
        program: Result<u32, W3DError>,
        attribute_query: &FA,
        uniform_query: &FU,
        clean_up: bool,
    ) -> (result: Result<(), W3DError>)
        requires
            forall|program: u32, name: &str| #[trigger] attribute_query.requires((program, name)),
            forall|program: u32, name: &str| #[trigger] uniform_query.requires((program, name)),
        ensures
            final(self).name_view() == old(self).name_view(),
            final(self).lit_view() == old(self).lit_view(),
            final(self).transparent_view() == old(self).transparent_view(),
            !old(self).has_sources() ==> {
                &&& *final(self) == *old(self)
                &&& result.is_err()
                &&& result.unwrap_err().reason_view() == MISSING_SHADER@
            },
            old(self).has_sources() && program.is_err() ==> {
                &&& *final(self) == *old(self)
                &&& result == Err::<(), W3DError>(program.unwrap_err())
            },
            old(self).has_sources() && program.is_ok() ==> {
                &&& final(self).program_view() == Some(program.unwrap())
                &&& final(self).lookup_outcome(
                    old(self),
                    program.unwrap(),
                    attribute_query,
                    uniform_query,
                    result,
                )
                &&& old(self).attributes_view().len() == 0 && old(self).uniforms_view().len() == 0
                    ==> result.is_ok()
            },
            result.is_ok() ==> {
                &&& final(self).all_located()
                &&& final(self).located_by(program.unwrap(), attribute_query, uniform_query)
                &&& final(self).has_sources() == !clean_up
            },
            result.is_ok() && clean_up ==> {
                &&& final(self).vertex_shader_view().is_none()
                &&& final(self).fragment_shader_view().is_none()
            },
            result.is_err() || !clean_up ==> {
                &&& final(self).vertex_shader_view() == old(self).vertex_shader_view()
                &&& final(self).fragment_shader_view() == old(self).fragment_shader_view()
            },
    {
        if self.vertex_shader.is_none() || self.fragment_shader.is_none() {
            return Err(W3DError::new(MISSING_SHADER, Some(self.name.clone())));
        }
        match program {
            Err(e) => {
                return Err(e);
            },
            Ok(object) => {
                self.program = Some(object);
            },
        }
        let ghost with_program = *self;
        match self.get_locations(attribute_query, uniform_query) {
            Err(e) => {
                proof {
                    self.lemma_outcome_over(
                        &with_program,
                        old(self),
                        program.unwrap(),
                        attribute_query,
                        uniform_query,
                        Err(e),
                    );
                }
                return Err(e);
            },
            Ok(_) => {},
        }
        proof {
            self.lemma_outcome_over(
                &with_program,
                old(self),
                program.unwrap(),
                attribute_query,
                uniform_query,
                Ok(()),
            );
        }
        if clean_up {
            self.vertex_shader = None;
            self.fragment_shader = None;
        }
        Ok(())
    }

    /// The outcome of a lookup speaks of the attributes and the uniforms that the
    /// material had before, and of nothing else of it: it holds as well of any
    /// material with the same name, attributes and uniforms.
    proof fn lemma_outcome_over<FA: Fn(u32, &str) -> i32, FU: Fn(u32, &str) -> Option<u32>>(
        &self,
        before: &Material,
        other: &Material,
        program: u32,
        attribute_query: &FA,
        uniform_query: &FU,
        result: Result<(), W3DError>,
    )
        requires
            self.lookup_outcome(before, program, attribute_query, uniform_query, result),
            other.name_view() == before.name_view(),
            other.attributes_view() == before.attributes_view(),
            other.uniforms_view() == before.uniforms_view(),
        ensures
            self.lookup_outcome(other, program, attribute_query, uniform_query, result),
    {
        let attributes = before.attributes_view().len() as int;
        let uniforms = before.uniforms_view().len() as int;
        match result {
            Ok(_) => {
                assert(self.attributes_asked(other, program, attribute_query, attributes));
                assert(self.uniforms_asked(other, program, uniform_query, uniforms));
            },
            Err(e) => {
                if e.reason_view() == ATTRIBUTE_NOT_FOUND@ && self.uniforms_view() == before.uniforms_view() && exists|
                    reached: int,
                |
                    0 <= reached < attributes && #[trigger] self.attributes_asked(
                        before,
                        program,
                        attribute_query,
                        reached,
                    ) && attribute_answered(
                        attribute_query,
                        program,
                        before.attributes_view()[reached].name@,
                        NO_LOCATION,
                    ) {
                    let reached = choose|reached: int|
                        0 <= reached < attributes && #[trigger] self.attributes_asked(
                            before,
                            program,
                            attribute_query,
                            reached,
                        ) && attribute_answered(
                            attribute_query,
                            program,
                            before.attributes_view()[reached].name@,
                            NO_LOCATION,
                        );
                    assert(self.attributes_asked(other, program, attribute_query, reached));
                } else {
                    let reached = choose|reached: int|
                        0 <= reached < uniforms && #[trigger] self.uniforms_asked(
                            before,
                            program,
                            uniform_query,
                            reached,
                        ) && answered(uniform_query, program, before.uniforms_view()[reached].name@, None);
                    assert(self.uniforms_asked(other, program, uniform_query, reached));
                    assert(self.attributes_asked(other, program, attribute_query, attributes));
                }
            },
        }
    }

    /// Whether the material holds both shader sources.
    pub open spec fn has_sources(&self) -> bool {
        self.vertex_shader_view().is_some() && self.fragment_shader_view().is_some()
    }

    /// Has the material been constructed yet ?
    pub fn is_constructed(&self) -> (constructed: bool)
        ensures
            constructed == self.program_view().is_some(),
    {
        self.program.is_some()
    }

    /// The name of the material.
    pub fn get_name(&self) -> (name: String)
        ensures
            name@ == self.name_view(),
    {
        self.name.clone()
    }
}

} // verus!
