//! Materials: a linked shader program with its shared uniforms and the
//! locations that have been looked up in it.
//!
//! `Material` stands for the program itself and the uniforms shared by all
//! who use it; a `MaterialInstance` belongs to one mesh and adds uniforms of
//! its own. An instance names its parent by id, and whoever holds both hands
//! the parent in where the instance needs it.

use vstd::prelude::*;
use vstd::string::*;
use crate::error::{Error, W3DError};
use crate::renderer::light_repository::LightConfiguration;
use crate::renderer::uniform::{answered, GlobalUniformLocations, Uniform};
use crate::renderer::value::UniformCall;
use crate::util::name_map::{names_with, values_with, NameMap};

verus! {

/// Reason given when a shader object could not be created.
pub const NO_SHADER_OBJECT: &'static str = "Unable to create shader object";

/// Reason given when a shader failed to compile and left no log.
pub const UNKNOWN_SHADER_ERROR: &'static str = "Unknown error creating shader";

/// Reason given when a program failed to link and left no log.
pub const UNKNOWN_PROGRAM_ERROR: &'static str = "Unknown error creating program object";

/// Reason of the error that reports a shader that did not compile.
pub const COMPILATION_FAILED: &'static str = "Compilation failed for shader";

/// Reason of the error that reports a program that did not link.
pub const LINKING_FAILED: &'static str = "Linking failed for WebGLProgram";

/// Reason of the error that reports a program that was never built to the end.
pub const PROGRAM_NOT_BUILT: &'static str = "Program is not built";

/// What became of one shader: the object's name, or the log of what went wrong.
/// A shader object that did not compile is of no use and is to be deleted.
pub fn shader_outcome(shader: Option<u32>, compiled: bool, log: Option<String>) -> (outcome: Result<u32, String>)
    ensures
        shader.is_some() && compiled ==> outcome == Ok::<u32, String>(shader.unwrap()),
        shader.is_none() ==> outcome.is_err() && outcome.unwrap_err()@ == NO_SHADER_OBJECT@,
        shader.is_some() && !compiled && log.is_some() ==> outcome == Err::<u32, String>(log.unwrap()),
        shader.is_some() && !compiled && log.is_none() ==> outcome.is_err() && outcome.unwrap_err()@
            == UNKNOWN_SHADER_ERROR@,
{
    match shader {
        None => Err(String::from_str(NO_SHADER_OBJECT)),
        Some(name) => {
            if compiled {
                Ok(name)
            } else {
                match log {
                    Some(text) => Err(text),
                    None => Err(String::from_str(UNKNOWN_SHADER_ERROR)),
                }
            }
        },
    }
}

/// What became of one program: the object's name, or the log of what went wrong.
/// A program object that did not link is of no use and is to be deleted.
pub fn program_outcome(program: Option<u32>, linked: bool, log: Option<String>) -> (outcome: Result<u32, String>)
    ensures
        program.is_some() && linked ==> outcome == Ok::<u32, String>(program.unwrap()),
        program.is_none() ==> outcome.is_err() && outcome.unwrap_err()@ == NO_SHADER_OBJECT@,
        program.is_some() && !linked && log.is_some() ==> outcome == Err::<u32, String>(log.unwrap()),
        program.is_some() && !linked && log.is_none() ==> outcome.is_err() && outcome.unwrap_err()@
            == UNKNOWN_PROGRAM_ERROR@,
{
    match program {
        None => Err(String::from_str(NO_SHADER_OBJECT)),
        Some(name) => {
            if linked {
                Ok(name)
            } else {
                match log {
                    Some(text) => Err(text),
                    None => Err(String::from_str(UNKNOWN_PROGRAM_ERROR)),
                }
            }
        },
    }
}

/// The steps of building a program: the vertex shader is compiled, then the
/// fragment shader, then the two are linked. The first failure ends the build.
pub enum ProgramBuild {
    /// Next: compile the vertex shader.
    CompileVertex,
    /// Next: compile the fragment shader.
    CompileFragment { vertex: u32 },
    /// Next: link the two shaders.
    Link { vertex: u32, fragment: u32 },
    /// The program is linked.
    Ready { program: u32 },
    /// The build has ended on `error`; `log` is what the compiler or the linker said.
    Failed { error: Error, log: String },
}

impl ProgramBuild {
    /// The state that follows `self` once the step it asks for has ended in `outcome`.
    pub open spec fn next(self, outcome: Result<u32, String>) -> ProgramBuild {
        match self {
            ProgramBuild::CompileVertex => match outcome {
                Ok(vertex) => ProgramBuild::CompileFragment { vertex },
                Err(log) => ProgramBuild::Failed { error: Error::CompileFailure, log },
            },
            ProgramBuild::CompileFragment { vertex } => match outcome {
                Ok(fragment) => ProgramBuild::Link { vertex, fragment },
                Err(log) => ProgramBuild::Failed { error: Error::CompileFailure, log },
            },
            ProgramBuild::Link { vertex, fragment } => match outcome {
                Ok(program) => ProgramBuild::Ready { program },
                Err(log) => ProgramBuild::Failed { error: Error::LinkFailure, log },
            },
            ProgramBuild::Ready { program } => ProgramBuild::Ready { program },
            ProgramBuild::Failed { error, log } => ProgramBuild::Failed { error, log },
        }
    }

    /// A build that has not begun.
    pub fn start() -> (build: ProgramBuild)
        ensures
            build == ProgramBuild::CompileVertex,
    {
        ProgramBuild::CompileVertex
    }

    /// Whether nothing is left to do, for better or worse.
    pub fn is_over(&self) -> (over: bool)
        ensures
            over == (*self is Ready || *self is Failed),
    {
        match self {
            ProgramBuild::Ready { .. } => true,
            ProgramBuild::Failed { .. } => true,
            _ => false,
        }
    }

    /// Takes the outcome of the step that `self` asked for and says what comes next.
    /// A build that is over stays as it is.
    pub fn advance(self, outcome: Result<u32, String>) -> (build: ProgramBuild)
        ensures
            build == self.next(outcome),
    {
        match self {
            ProgramBuild::CompileVertex => match outcome {
                Ok(vertex) => ProgramBuild::CompileFragment { vertex },
                Err(log) => ProgramBuild::Failed { error: Error::CompileFailure, log },
            },
            ProgramBuild::CompileFragment { vertex } => match outcome {
                Ok(fragment) => ProgramBuild::Link { vertex, fragment },
                Err(log) => ProgramBuild::Failed { error: Error::CompileFailure, log },
            },
            ProgramBuild::Link { vertex, fragment } => match outcome {
                Ok(program) => ProgramBuild::Ready { program },
                Err(log) => ProgramBuild::Failed { error: Error::LinkFailure, log },
            },
            ProgramBuild::Ready { program } => ProgramBuild::Ready { program },
            ProgramBuild::Failed { error, log } => ProgramBuild::Failed { error, log },
        }
    }
}

/// The names under which a list of uniforms is stored: each uniform under its own.
pub open spec fn keyed_by_name<T>(names: Seq<Seq<char>>, uniforms: Seq<Uniform<T>>) -> bool {
    &&& names.len() == uniforms.len()
    &&& forall|i: int| 0 <= i < names.len() ==> names[i] == (#[trigger] uniforms[i]).name_view()
}

/// The names of a map after each uniform of `added` has been stored under its name, in turn.
pub open spec fn names_after<T>(names: Seq<Seq<char>>, added: Seq<Uniform<T>>) -> Seq<Seq<char>>
    decreases added.len(),
{
    if added.len() == 0 {
        names
    } else {
        names_with(names_after(names, added.drop_last()), added.last().name_view())
    }
}

/// The values of a map after each uniform of `added` has been stored under its name, in turn.
pub open spec fn values_after<T>(names: Seq<Seq<char>>, values: Seq<Uniform<T>>, added: Seq<Uniform<T>>) -> Seq<
    Uniform<T>,
>
    decreases added.len(),
{
    if added.len() == 0 {
        values
    } else {
        values_with(
            names_after(names, added.drop_last()),
            values_after(names, values, added.drop_last()),
            added.last().name_view(),
            added.last(),
        )
    }
}

/// The upload of each uniform of a list, in the order of the list: the call to
/// make, or the reason why the uniform cannot be uploaded.
pub open spec fn upload_plan<T>(uniforms: Seq<Uniform<T>>) -> Seq<Result<UniformCall, Error>> {
    Seq::new(
        uniforms.len(),
        |i: int| uniforms[i].value_view().upload_call(uniforms[i].location_view(), uniforms[i].texture_index_view()),
    )
}

/// Chooses the upload of each uniform of a map, in the order of the map.
fn plan_uploads<T>(uniforms: &NameMap<Uniform<T>>) -> (plan: Vec<Result<UniformCall, Error>>)
    requires
        uniforms.wf(),
    ensures
        plan@ == upload_plan(uniforms.values()),
{
    let mut plan: Vec<Result<UniformCall, Error>> = Vec::new();
    let mut i: usize = 0;
    while i < uniforms.len()
        invariant
            uniforms.wf(),
            0 <= i <= uniforms.names().len(),
            plan@.len() == i,
            forall|k: int| 0 <= k < i ==> plan@[k] == upload_plan(uniforms.values())[k],
        decreases uniforms.names().len() - i,
    {
        plan.push(uniforms.value_at(i).set_to_context());
        i += 1;
    }
    assert(plan@ =~= upload_plan(uniforms.values()));
    plan
}

/// Looks up the location of every uniform of a map that has not been looked up yet.
fn lookup_all<T, F: Fn(u32, &str) -> Option<u32>>(uniforms: &mut NameMap<Uniform<T>>, query: &F, program: u32)
    requires
        old(uniforms).wf(),
        keyed_by_name(old(uniforms).names(), old(uniforms).values()),
        (forall|i: int| 0 <= i < old(uniforms).values().len() ==> (#[trigger] old(uniforms).values()[i]).is_resolved())
            || (forall|name: &str| #[trigger] query.requires((program, name))),
    ensures
        final(uniforms).wf(),
        final(uniforms).names() == old(uniforms).names(),
        keyed_by_name(final(uniforms).names(), final(uniforms).values()),
        forall|i: int|
            0 <= i < old(uniforms).values().len() ==> (#[trigger] final(uniforms).values()[i]).looked_up(
                &old(uniforms).values()[i],
                query,
                program,
            ),
{
    let mut i: usize = 0;
    while i < uniforms.len()
        invariant
            uniforms.wf(),
            uniforms.names() == old(uniforms).names(),
            old(uniforms).wf(),
            0 <= i <= uniforms.names().len(),
            (forall|k: int| 0 <= k < old(uniforms).values().len() ==> (#[trigger] old(uniforms).values()[k]).is_resolved())
                || (forall|name: &str| #[trigger] query.requires((program, name))),
            keyed_by_name(uniforms.names(), uniforms.values()),
            forall|k: int|
                0 <= k < i ==> (#[trigger] uniforms.values()[k]).looked_up(
                    &old(uniforms).values()[k],
                    query,
                    program,
                ),
            forall|k: int|
                i <= k < uniforms.names().len() ==> #[trigger] uniforms.values()[k] == old(uniforms).values()[k],
        decreases uniforms.names().len() - i,
    {
        let ghost prior = *uniforms;
        assert(uniforms.values()[i as int] == old(uniforms).values()[i as int]);
        let uniform = uniforms.value_at_mut(i);
        uniform.lookup_location(query, program);
        proof {
            assert(uniforms.values()[i as int].looked_up(&old(uniforms).values()[i as int], query, program));
            assert forall|k: int| 0 <= k < uniforms.names().len() implies uniforms.names()[k] == (
            #[trigger] uniforms.values()[k]).name_view() by {
                if k != i {
                    assert(uniforms.values()[k] == prior.values()[k]);
                }
            }
        }
        i += 1;
    }
}


/// Stores each uniform of `added` under its name, in turn.
fn store_all<T>(uniforms: &mut NameMap<Uniform<T>>, added: Vec<Uniform<T>>)
    requires
        old(uniforms).wf(),
        keyed_by_name(old(uniforms).names(), old(uniforms).values()),
    ensures
        final(uniforms).wf(),
        keyed_by_name(final(uniforms).names(), final(uniforms).values()),
        final(uniforms).names() == names_after(old(uniforms).names(), added@),
        final(uniforms).values() == values_after(old(uniforms).names(), old(uniforms).values(), added@),
{
    let ghost all = added@;
    for uniform in it: added
        invariant
            it.seq() == all,
            uniforms.wf(),
            keyed_by_name(uniforms.names(), uniforms.values()),
            uniforms.names() == names_after(old(uniforms).names(), all.take(it.index() as int)),
            uniforms.values() == values_after(
                old(uniforms).names(),
                old(uniforms).values(),
                all.take(it.index() as int),
            ),
    {
        let ghost prior = *uniforms;
        let name = String::from_str(uniform.get_name());
        assert(name@ == uniform.name_view());
        uniforms.insert(name, uniform);
        proof {
            let done = all.take(it.index() as int + 1);
            assert(done.drop_last() =~= all.take(it.index() as int));
            assert(done.last() == uniform);
            lemma_store_keeps_keys(&prior, uniforms, uniform);
        }
    }
    assert(all.take(all.len() as int) =~= all);
}

/// Storing a uniform under its own name keeps every uniform under its own name.
proof fn lemma_store_keeps_keys<T>(before: &NameMap<Uniform<T>>, after: &NameMap<Uniform<T>>, uniform: Uniform<T>)
    requires
        before.wf(),
        keyed_by_name(before.names(), before.values()),
        after.names() == names_with(before.names(), uniform.name_view()),
        after.values() == values_with(before.names(), before.values(), uniform.name_view(), uniform),
    ensures
        keyed_by_name(after.names(), after.values()),
{
    let name = uniform.name_view();
    if before.names().contains(name) {
        let at = before.names().index_of(name);
        assert(before.names()[at] == name);
        assert forall|i: int| 0 <= i < after.names().len() implies after.names()[i] == (
        #[trigger] after.values()[i]).name_view() by {
            if i != at {
                assert(before.values()[i].name_view() == before.names()[i]);
            }
        }
    } else {
        assert forall|i: int| 0 <= i < after.names().len() implies after.names()[i] == (
        #[trigger] after.values()[i]).name_view() by {
            if i < before.names().len() {
                assert(before.values()[i].name_view() == before.names()[i]);
            }
        }
    }
}

/// Number of texture units that the shared uniforms of a material may take: the units from zero on.
pub const SHARED_TEXTURE_UNITS: u32 = 4;

/// Number of texture units that the uniforms of a material instance may take:
/// the units behind those of the shared uniforms.
pub const INSTANCE_TEXTURE_UNITS: u32 = 4;

/// Number of texture uniforms among the first `count` uniforms of a list.
pub open spec fn textures_before<T>(uniforms: Seq<Uniform<T>>, count: int) -> nat
    decreases count,
{
    if count <= 0 {
        0
    } else {
        textures_before(uniforms, count - 1) + (if uniforms[count - 1].value_view() is Texture {
            1nat
        } else {
            0nat
        })
    }
}

/// The texture unit of the uniform at `i` of a list whose texture uniforms
/// take the units from `first` on, `capacity` of them at most, in the order of
/// the list. A uniform that is no texture has none, and neither has a texture
/// for which no unit is left.
pub open spec fn unit_at<T>(uniforms: Seq<Uniform<T>>, first: u32, capacity: u32, i: int) -> Option<u32> {
    if uniforms[i].value_view() is Texture && textures_before(uniforms, i) < capacity {
        Some((first + textures_before(uniforms, i)) as u32)
    } else {
        None
    }
}

/// Whether the uniforms of `after` are those of `before` with texture units
/// from `first` on, `capacity` of them at most.
pub open spec fn units_assigned<T>(after: Seq<Uniform<T>>, before: Seq<Uniform<T>>, first: u32, capacity: u32) -> bool {
    &&& after.len() == before.len()
    &&& forall|i: int|
        0 <= i < before.len() ==> {
            &&& (#[trigger] after[i]).name_view() == before[i].name_view()
            &&& after[i].value_view() == before[i].value_view()
            &&& after[i].location_view() == before[i].location_view()
            &&& after[i].is_resolved() == before[i].is_resolved()
            &&& after[i].texture_index_view() == unit_at(before, first, capacity, i)
        }
}

/// The number of textures before a uniform does not shrink along the list.
pub proof fn lemma_textures_before_grows<T>(uniforms: Seq<Uniform<T>>, i: int, j: int)
    requires
        0 <= i <= j,
    ensures
        textures_before(uniforms, i) <= textures_before(uniforms, j),
        i < j && uniforms[i].value_view() is Texture ==> textures_before(uniforms, i) < textures_before(
            uniforms,
            j,
        ),
    decreases j - i,
{
    if i < j {
        lemma_textures_before_grows(uniforms, i, j - 1);
    }
}

/// No texture unit is taken twice: two uniforms of one list that have a unit have different
/// units, and a unit of the shared uniforms is never a unit of the uniforms of an instance.
pub proof fn lemma_texture_units_are_unique<T>(shared: Seq<Uniform<T>>, own: Seq<Uniform<T>>, i: int, j: int)
    requires
        0 <= i < shared.len(),
        0 <= j < own.len(),
    ensures
        forall|k: int|
            0 <= k < shared.len() && k != i && unit_at(shared, 0, SHARED_TEXTURE_UNITS, i).is_some() ==> unit_at(
                shared,
                0,
                SHARED_TEXTURE_UNITS,
                k,
            ) != unit_at(shared, 0, SHARED_TEXTURE_UNITS, i),
        forall|k: int|
            0 <= k < own.len() && k != j && unit_at(own, SHARED_TEXTURE_UNITS, INSTANCE_TEXTURE_UNITS, j).is_some()
                ==> unit_at(own, SHARED_TEXTURE_UNITS, INSTANCE_TEXTURE_UNITS, k) != unit_at(
                own,
                SHARED_TEXTURE_UNITS,
                INSTANCE_TEXTURE_UNITS,
                j,
            ),
        unit_at(shared, 0, SHARED_TEXTURE_UNITS, i).is_some() ==> unit_at(shared, 0, SHARED_TEXTURE_UNITS, i)
            != unit_at(own, SHARED_TEXTURE_UNITS, INSTANCE_TEXTURE_UNITS, j),
{
    assert forall|k: int|
        0 <= k < shared.len() && k != i && unit_at(shared, 0, SHARED_TEXTURE_UNITS, i).is_some() implies unit_at(
        shared,
        0,
        SHARED_TEXTURE_UNITS,
        k,
    ) != unit_at(shared, 0, SHARED_TEXTURE_UNITS, i) by {
        if k < i {
            lemma_textures_before_grows(shared, k, i);
        } else {
            lemma_textures_before_grows(shared, i, k);
        }
    }
    assert forall|k: int|
        0 <= k < own.len() && k != j && unit_at(own, SHARED_TEXTURE_UNITS, INSTANCE_TEXTURE_UNITS, j).is_some()
        implies unit_at(own, SHARED_TEXTURE_UNITS, INSTANCE_TEXTURE_UNITS, k) != unit_at(
        own,
        SHARED_TEXTURE_UNITS,
        INSTANCE_TEXTURE_UNITS,
        j,
    ) by {
        if k < j {
            lemma_textures_before_grows(own, k, j);
        } else {
            lemma_textures_before_grows(own, j, k);
        }
    }
}

/// Gives the texture uniforms of a map their units: from `first` on, `capacity`
/// of them at most, in the order of the map.
fn assign_units<T>(uniforms: &mut NameMap<Uniform<T>>, first: u32, capacity: u32)
    requires
        old(uniforms).wf(),
        keyed_by_name(old(uniforms).names(), old(uniforms).values()),
        first + capacity <= u32::MAX,
    ensures
        final(uniforms).wf(),
        final(uniforms).names() == old(uniforms).names(),
        keyed_by_name(final(uniforms).names(), final(uniforms).values()),
        units_assigned(final(uniforms).values(), old(uniforms).values(), first, capacity),
{
    let mut taken: u32 = 0;
    let mut i: usize = 0;
    while i < uniforms.len()
        invariant
            uniforms.wf(),
            old(uniforms).wf(),
            uniforms.names() == old(uniforms).names(),
            0 <= i <= uniforms.names().len(),
            first + capacity <= u32::MAX,
            taken <= capacity,
            taken == (if textures_before(old(uniforms).values(), i as int) < capacity {
                textures_before(old(uniforms).values(), i as int)
            } else {
                capacity as nat
            }),
            uniforms.values().len() == old(uniforms).values().len(),
            forall|k: int|
                i <= k < uniforms.names().len() ==> #[trigger] uniforms.values()[k] == old(uniforms).values()[k],
            forall|k: int|
                0 <= k < i ==> {
                    &&& (#[trigger] uniforms.values()[k]).name_view() == old(uniforms).values()[k].name_view()
                    &&& uniforms.values()[k].value_view() == old(uniforms).values()[k].value_view()
                    &&& uniforms.values()[k].location_view() == old(uniforms).values()[k].location_view()
                    &&& uniforms.values()[k].is_resolved() == old(uniforms).values()[k].is_resolved()
                    &&& uniforms.values()[k].texture_index_view() == unit_at(
                        old(uniforms).values(),
                        first,
                        capacity,
                        k,
                    )
                },
        decreases uniforms.names().len() - i,
    {
        let ghost prior = *uniforms;
        let uniform = uniforms.value_at_mut(i);
        if uniform.get_value().is_texture() {
            if taken < capacity {
                uniform.set_texture_index(first + taken);
                taken += 1;
            } else {
                uniform.clear_texture_index();
            }
        } else {
            uniform.clear_texture_index();
        }
        proof {
            assert forall|k: int| 0 <= k < i + 1 implies {
                &&& (#[trigger] uniforms.values()[k]).name_view() == old(uniforms).values()[k].name_view()
                &&& uniforms.values()[k].value_view() == old(uniforms).values()[k].value_view()
                &&& uniforms.values()[k].location_view() == old(uniforms).values()[k].location_view()
                &&& uniforms.values()[k].is_resolved() == old(uniforms).values()[k].is_resolved()
                &&& uniforms.values()[k].texture_index_view() == unit_at(old(uniforms).values(), first, capacity, k)
            } by {
                if k < i {
                    assert(uniforms.values()[k] == prior.values()[k]);
                } else {
                    assert(prior.values()[k] == old(uniforms).values()[k]);
                }
            }
        }
        i += 1;
    }
    proof {
        assert forall|k: int| 0 <= k < uniforms.names().len() implies uniforms.names()[k] == (
        #[trigger] uniforms.values()[k]).name_view() by {
            assert(old(uniforms).values()[k].name_view() == old(uniforms).names()[k]);
        }
    }
}

/// A reusable material base: a linked program, the uniforms shared by all the
/// instances of the material, and the locations looked up so far.
pub struct Material<T> {
    /// Name of the linked program in the graphics context.
    program: u32,
    /// if `true`, this Material is opaque (`true` by default), for rendering purposes.
    opaque: bool,
    /// Locations of the attributes that buffers have asked for, by attribute name.
    attribute_locations: NameMap<i32>,
    /// Uniforms shared accross all instances of this material.
    shared_uniforms: NameMap<Uniform<T>>,
    /// Unique ID set for this material.
    id: String,
    /// Location information for global uniforms like the camera matrices and the lights.
    global_uniform_locations: GlobalUniformLocations,
}

impl<T> Material<T> {
    pub closed spec fn program_view(&self) -> u32 {
        self.program
    }

    pub closed spec fn id_view(&self) -> Seq<char> {
        self.id@
    }

    pub closed spec fn transparent_view(&self) -> bool {
        !self.opaque
    }

    /// The names of the attributes whose location is cached, in the order in which they were asked for.
    pub closed spec fn attribute_names(&self) -> Seq<Seq<char>> {
        self.attribute_locations.names()
    }

    /// The cached attribute locations, each at the position of its name.
    pub closed spec fn attribute_values(&self) -> Seq<i32> {
        self.attribute_locations.values()
    }

    /// The names of the shared uniforms, in the order in which they were first set.
    pub closed spec fn uniform_names(&self) -> Seq<Seq<char>> {
        self.shared_uniforms.names()
    }

    /// The shared uniforms, each at the position of its name.
    pub closed spec fn uniforms(&self) -> Seq<Uniform<T>> {
        self.shared_uniforms.values()
    }

    pub closed spec fn globals(&self) -> GlobalUniformLocations {
        self.global_uniform_locations
    }

    /// No attribute and no uniform name is stored twice, and every uniform is stored under its own name.
    pub open spec fn wf(&self) -> bool {
        &&& self.attribute_names().len() == self.attribute_values().len()
        &&& self.attribute_names().no_duplicates()
        &&& self.uniform_names().no_duplicates()
        &&& keyed_by_name(self.uniform_names(), self.uniforms())
    }

    /// Whether the location of the attribute called `name` is cached.
    pub open spec fn has_attribute(&self, name: Seq<char>) -> bool {
        self.attribute_names().contains(name)
    }

    /// The cached location of the attribute called `name`.
    pub open spec fn attribute_location(&self, name: Seq<char>) -> i32 {
        self.attribute_values()[self.attribute_names().index_of(name)]
    }

    /// Whether two materials differ in nothing but their cached attribute locations.
    pub open spec fn same_but_attributes(&self, other: &Material<T>) -> bool {
        &&& self.program_view() == other.program_view()
        &&& self.id_view() == other.id_view()
        &&& self.transparent_view() == other.transparent_view()
        &&& self.uniform_names() == other.uniform_names()
        &&& self.uniforms() == other.uniforms()
        &&& self.globals() == other.globals()
    }

    /// Whether two materials differ in nothing but their shared uniforms.
    pub open spec fn same_but_uniforms(&self, other: &Material<T>) -> bool {
        &&& self.program_view() == other.program_view()
        &&& self.id_view() == other.id_view()
        &&& self.transparent_view() == other.transparent_view()
        &&& self.attribute_names() == other.attribute_names()
        &&& self.attribute_values() == other.attribute_values()
        &&& self.globals() == other.globals()
    }

    /// Makes a material of a program that has been built. A build that failed is
    /// reported with the id of the material as source and the compiler's or the
    /// linker's log as description; so is a build that was never brought to its end.
    pub fn new(build: ProgramBuild, id: &str) -> (result: Result<Material<T>, W3DError>)
        ensures
            match build {
                ProgramBuild::Ready { program } => {
                    &&& result.is_ok()
                    &&& result.unwrap().wf()
                    &&& result.unwrap().program_view() == program
                    &&& result.unwrap().id_view() == id@
                    &&& !result.unwrap().transparent_view()
                    &&& result.unwrap().attribute_names().len() == 0
                    &&& result.unwrap().uniform_names().len() == 0
                    &&& !result.unwrap().globals().lookup_done
                },
                ProgramBuild::Failed { error, log } => match result {
                    Err(e) => {
                        &&& e.reason_view() == (if error == Error::LinkFailure {
                            LINKING_FAILED@
                        } else {
                            COMPILATION_FAILED@
                        })
                        &&& e.source_view().is_some()
                        &&& e.source_view().unwrap()@ == id@
                        &&& e.description_view() == Some(log)
                    },
                    Ok(_) => false,
                },
                _ => match result {
                    Err(e) => {
                        &&& e.reason_view() == PROGRAM_NOT_BUILT@
                        &&& e.source_view().is_some()
                        &&& e.source_view().unwrap()@ == id@
                        &&& e.description_view().is_none()
                    },
                    Ok(_) => false,
                },
            },
    {
        match build {
            ProgramBuild::Ready { program } => Ok(
                Material {
                    program,
                    opaque: true,
                    attribute_locations: NameMap::new(),
                    shared_uniforms: NameMap::new(),
                    id: String::from_str(id),
                    global_uniform_locations: GlobalUniformLocations::new(),
                },
            ),
            ProgramBuild::Failed { error, log } => {
                let reason = match error {
                    Error::LinkFailure => LINKING_FAILED,
                    _ => COMPILATION_FAILED,
                };
                Err(W3DError::new_with_desc(reason, Some(String::from_str(id)), Some(log)))
            },
            _ => Err(W3DError::new(PROGRAM_NOT_BUILT, Some(String::from_str(id)))),
        }
    }

    /// Used by buffers to register new attributes to a material. The location is
    /// asked of `query` only if it is not cached yet; on a cache hit nothing
    /// is asked and nothing changes.
    pub fn register_new_attribute_location<F: Fn(u32, &str) -> i32>(&mut self, query: &F, name: &str)
        requires
            old(self).wf(),
            !old(self).has_attribute(name@) ==> query.requires((old(self).program_view(), name)),
        ensures
            final(self).wf(),
            final(self).same_but_attributes(old(self)),
            old(self).has_attribute(name@) ==> {
                &&& final(self).attribute_names() == old(self).attribute_names()
                &&& final(self).attribute_values() == old(self).attribute_values()
            },
            !old(self).has_attribute(name@) ==> {
                &&& final(self).attribute_names() == old(self).attribute_names().push(name@)
                &&& final(self).attribute_values().len() == old(self).attribute_values().len() + 1
                &&& final(self).attribute_values().drop_last() == old(self).attribute_values()
                &&& query.ensures((old(self).program_view(), name), final(self).attribute_values().last())
            },
    {
        if !self.attribute_locations.contains_key(name) {
            let location = query(self.program, name);
            self.attribute_locations.insert(String::from_str(name), location);
            assert(self.attribute_values().drop_last() =~= old(self).attribute_values());
        }
    }

    /// Returns a previously computed attribute location if available.
    pub fn get_attribute_location(&self, name: &str) -> (location: Option<i32>)
        requires
            self.wf(),
        ensures
            location.is_some() == self.has_attribute(name@),
            location.is_some() ==> location.unwrap() == self.attribute_location(name@),
    {
        match self.attribute_locations.get(name) {
            Some(location) => Some(*location),
            None => None,
        }
    }

    /// What a lookup leaves behind: the global locations are filled if they were
    /// not, and every shared uniform has been looked up once in its life.
    pub open spec fn looked_up<F: Fn(u32, &str) -> Option<u32>>(
        &self,
        before: &Material<T>,
        query: &F,
        lights: LightConfiguration,
    ) -> bool {
        &&& self.program_view() == before.program_view()
        &&& self.id_view() == before.id_view()
        &&& self.transparent_view() == before.transparent_view()
        &&& self.attribute_names() == before.attribute_names()
        &&& self.attribute_values() == before.attribute_values()
        &&& self.uniform_names() == before.uniform_names()
        &&& self.uniforms().len() == before.uniforms().len()
        &&& if before.globals().lookup_done {
            self.globals() == before.globals()
        } else {
            self.globals().filled_by(query, before.program_view(), lights)
        }
        &&& forall|i: int|
            0 <= i < before.uniforms().len() ==> (#[trigger] self.uniforms()[i]).looked_up(
                &before.uniforms()[i],
                query,
                before.program_view(),
            )
    }

    /// Whether nothing is left to look up: a lookup would ask nothing.
    pub open spec fn settled(&self) -> bool {
        &&& self.globals().lookup_done
        &&& forall|i: int| 0 <= i < self.uniforms().len() ==> (#[trigger] self.uniforms()[i]).is_resolved()
    }

    /// Location lookup for the global uniforms and for this material's shared
    /// uniforms. Whatever has been looked up before is not asked again.
    pub fn lookup_locations<F: Fn(u32, &str) -> Option<u32>>(&mut self, query: &F, lights: &LightConfiguration)
        requires
            old(self).wf(),
            !old(self).settled() ==> forall|name: &str| #[trigger] query.requires((old(self).program_view(), name)),
        ensures
            final(self).wf(),
            final(self).looked_up(old(self), query, *lights),
            final(self).settled(),
    {
        if self.is_settled() {
            assert forall|i: int| 0 <= i < self.uniforms().len() implies (#[trigger] self.uniforms()[i]).looked_up(
                &self.uniforms()[i],
                query,
                self.program_view(),
            ) by {}
            return;
        }
        let program = self.program;
        assert(program == old(self).program_view());
        assert forall|name: &str| #[trigger] query.requires((program, name)) by {
            assert(query.requires((old(self).program_view(), name)));
        }
        self.global_uniform_locations.lookup_locations(query, program, lights);
        lookup_all(&mut self.shared_uniforms, query, program);
    }

    /// Whether a lookup would ask nothing.
    pub fn is_settled(&self) -> (settled: bool)
        requires
            self.wf(),
        ensures
            settled == self.settled(),
    {
        if !self.global_uniform_locations.lookup_done {
            return false;
        }
        let mut i: usize = 0;
        while i < self.shared_uniforms.len()
            invariant
                self.wf(),
                self.shared_uniforms.wf(),
                0 <= i <= self.uniforms().len(),
                forall|k: int| 0 <= k < i ==> (#[trigger] self.uniforms()[k]).is_resolved(),
            decreases self.uniforms().len() - i,
        {
            if !self.shared_uniforms.value_at(i).has_been_looked_up() {
                return false;
            }
            i += 1;
        }
        true
    }

    /// `self.opaque` setter. Use if your `Material` is semi-transparent.
    pub fn set_transparent(&mut self, transparent: bool)
        ensures
            final(self).transparent_view() == transparent,
            final(self).program_view() == old(self).program_view(),
            final(self).id_view() == old(self).id_view(),
            final(self).attribute_names() == old(self).attribute_names(),
            final(self).attribute_values() == old(self).attribute_values(),
            final(self).uniform_names() == old(self).uniform_names(),
            final(self).uniforms() == old(self).uniforms(),
            final(self).globals() == old(self).globals(),
    {
        self.opaque = !transparent;
    }

    /// Returns true if the `Material` is semi-transparent.
    pub fn is_transparent(&self) -> (transparent: bool)
        ensures
            transparent == self.transparent_view(),
    {
        !self.opaque
    }

    /// Checks if this material has a given `Uniform` depending on its name.
    pub fn has_uniform(&self, name: &str) -> (found: bool)
        requires
            self.wf(),
        ensures
            found == self.uniform_names().contains(name@),
    {
        self.shared_uniforms.contains_key(name)
    }

    /// Adds a new set of `Uniform`s to the list of uniforms, as a batch: each is
    /// set as `set_uniform` would, in the order of the batch.
    pub fn push_uniforms(&mut self, uniforms: Vec<Uniform<T>>)
        requires
            old(self).wf(),
        ensures
            final(self).wf(),
            final(self).same_but_uniforms(old(self)),
            final(self).uniform_names() == names_after(old(self).uniform_names(), uniforms@),
            final(self).uniforms() == values_after(old(self).uniform_names(), old(self).uniforms(), uniforms@),
    {
        store_all(&mut self.shared_uniforms, uniforms);
    }

    /// Adds a new `Uniform` to the list of uniforms or replaces one with a new value.
    pub fn set_uniform(&mut self, uniform_to_set: Uniform<T>)
        requires
            old(self).wf(),
        ensures
            final(self).wf(),
            final(self).same_but_uniforms(old(self)),
            final(self).uniform_names() == names_with(old(self).uniform_names(), uniform_to_set.name_view()),
            final(self).uniforms() == values_with(
                old(self).uniform_names(),
                old(self).uniforms(),
                uniform_to_set.name_view(),
                uniform_to_set,
            ),
    {
        let ghost prior = self.shared_uniforms;
        let name = String::from_str(uniform_to_set.get_name());
        assert(name@ == uniform_to_set.name_view());
        self.shared_uniforms.insert(name, uniform_to_set);
        proof {
            lemma_store_keeps_keys(&prior, &self.shared_uniforms, uniform_to_set);
        }
    }

    /// Gives every shared texture uniform its texture unit: the units from zero
    /// on, in the order of the uniforms, for as many textures as there are shared
    /// units. The unit of a uniform depends on nothing but its place among the
    /// shared uniforms, so it stays the same from frame to frame.
    pub fn assign_texture_indexes(&mut self)
        requires
            old(self).wf(),
        ensures
            final(self).wf(),
            final(self).same_but_uniforms(old(self)),
            final(self).uniform_names() == old(self).uniform_names(),
            units_assigned(final(self).uniforms(), old(self).uniforms(), 0, SHARED_TEXTURE_UNITS),
    {
        assign_units(&mut self.shared_uniforms, 0, SHARED_TEXTURE_UNITS);
    }

    /// The shared uniform at position `i`.
    pub fn uniform_at(&self, i: usize) -> (uniform: &Uniform<T>)
        requires
            self.wf(),
            i < self.uniforms().len(),
        ensures
            *uniform == self.uniforms()[i as int],
    {
        self.shared_uniforms.value_at(i)
    }

    /// Number of shared uniforms.
    pub fn uniform_count(&self) -> (n: usize)
        requires
            self.wf(),
        ensures
            n == self.uniforms().len(),
    {
        self.shared_uniforms.len()
    }

    /// Chooses the upload of every shared uniform, in their order. A uniform that
    /// cannot be uploaded is marked with an error and does not stop the others.
    /// Should be carried out before rendering objects using this material.
    pub fn set_uniforms_to_context(&self) -> (plan: Vec<Result<UniformCall, Error>>)
        requires
            self.wf(),
        ensures
            plan@ == upload_plan(self.uniforms()),
    {
        plan_uploads(&self.shared_uniforms)
    }

    /// Returns the name of this `Material`'s underlying program.
    pub fn get_program(&self) -> (program: u32)
        ensures
            program == self.program_view(),
    {
        self.program
    }

    /// Getter for the private `id` attribute.
    pub fn get_id(&self) -> (id: &str)
        ensures
            id@ == self.id_view(),
    {
        self.id.as_str()
    }

    /// The locations of the global uniforms, as far as they have been looked up.
    pub fn get_global_uniform_locations(&self) -> (locations: &GlobalUniformLocations)
        ensures
            *locations == self.globals(),
    {
        &self.global_uniform_locations
    }
}


/// A second lookup asks nothing and finds what the first one found: once a
/// material has looked its locations up, another lookup leaves every location,
/// global or of a shared uniform, as it is, whatever the graphics context would answer.
pub proof fn lemma_lookup_locations_is_idempotent<T, F: Fn(u32, &str) -> Option<u32>, G: Fn(u32, &str) -> Option<u32>>(
    before: &Material<T>,
    once: &Material<T>,
    twice: &Material<T>,
    first: &F,
    second: &G,
    lights: LightConfiguration,
    other_lights: LightConfiguration,
)
    requires
        once.looked_up(before, first, lights),
        twice.looked_up(once, second, other_lights),
    ensures
        once.settled(),
        twice.globals() == once.globals(),
        twice.uniforms().len() == once.uniforms().len(),
        forall|i: int|
            0 <= i < once.uniforms().len() ==> (#[trigger] twice.uniforms()[i]).location_view()
                == once.uniforms()[i].location_view(),
{
    assert forall|i: int| 0 <= i < once.uniforms().len() implies (#[trigger] once.uniforms()[i]).is_resolved() by {
        assert(once.uniforms()[i].looked_up(&before.uniforms()[i], first, before.program_view()));
    }
    assert forall|i: int| 0 <= i < once.uniforms().len() implies (#[trigger] twice.uniforms()[i]).location_view()
        == once.uniforms()[i].location_view() by {
        assert(once.uniforms()[i].looked_up(&before.uniforms()[i], first, before.program_view()));
        assert(twice.uniforms()[i].looked_up(&once.uniforms()[i], second, once.program_view()));
    }
}

/// Registering an attribute twice finds the location that the first registration
/// cached: the second registration changes nothing, whatever the graphics
/// context would answer.
pub proof fn lemma_register_attribute_is_idempotent<T>(
    before: &Material<T>,
    once: &Material<T>,
    twice: &Material<T>,
    name: Seq<char>,
)
    requires
        before.wf(),
        before.has_attribute(name) ==> once.attribute_names() == before.attribute_names(),
        !before.has_attribute(name) ==> once.attribute_names() == before.attribute_names().push(name),
        once.has_attribute(name) ==> twice.attribute_names() == once.attribute_names()
            && twice.attribute_values() == once.attribute_values(),
    ensures
        once.has_attribute(name),
        twice.has_attribute(name),
        twice.attribute_location(name) == once.attribute_location(name),
        twice.attribute_names() == once.attribute_names(),
        twice.attribute_values() == once.attribute_values(),
{
    if !before.has_attribute(name) {
        let n = before.attribute_names().len() as int;
        assert(once.attribute_names()[n] == name);
    }
}

/// Setting a uniform is insert-or-replace by name: afterwards the material has a
/// uniform of that name, which is the one that was set, and every other name
/// has the uniform it had.
pub proof fn lemma_set_uniform_by_name<T>(
    before: &Material<T>,
    after: &Material<T>,
    uniform: Uniform<T>,
    other: Seq<char>,
)
    requires
        before.wf(),
        after.wf(),
        after.uniform_names() == names_with(before.uniform_names(), uniform.name_view()),
        after.uniforms() == values_with(before.uniform_names(), before.uniforms(), uniform.name_view(), uniform),
    ensures
        after.uniform_names().contains(uniform.name_view()),
        after.uniforms()[after.uniform_names().index_of(uniform.name_view())] == uniform,
        other != uniform.name_view() ==> after.uniform_names().contains(other) == before.uniform_names().contains(
            other,
        ),
        other != uniform.name_view() && before.uniform_names().contains(other) ==> after.uniforms()[after.uniform_names().index_of(
            other,
        )] == before.uniforms()[before.uniform_names().index_of(other)],
{
    let name = uniform.name_view();
    let names = before.uniform_names();
    if names.contains(name) {
        let at = names.index_of(name);
        assert(names[at] == name);
        let now = after.uniform_names().index_of(name);
        assert(after.uniform_names()[now] == name);
        if other != name && names.contains(other) {
            let j = names.index_of(other);
            assert(names[j] == other);
            let k = after.uniform_names().index_of(other);
            assert(after.uniform_names()[k] == other);
        }
    } else {
        let n = names.len() as int;
        assert(after.uniform_names()[n] == name);
        let now = after.uniform_names().index_of(name);
        assert(after.uniform_names()[now] == name);
        if other != name {
            if names.contains(other) {
                let j = names.index_of(other);
                assert(names[j] == other);
                assert(after.uniform_names()[j] == other);
                let k = after.uniform_names().index_of(other);
                assert(after.uniform_names()[k] == other);
            }
            if after.uniform_names().contains(other) {
                let k = after.uniform_names().index_of(other);
                assert(after.uniform_names()[k] == other);
                assert(k != n);
                assert(names[k] == other);
            }
        }
    }
}

/// A mesh-specific material instance. While `Material` is meant to be shared,
/// a `MaterialInstance` should be created for each different mesh.
///
/// Its uniforms add to those of the parent material. A uniform whose name the
/// parent already shares is not kept by the instance: setting it sets the
/// parent's, for every instance of that parent.
pub struct MaterialInstance<T> {
    /// Id of the parent material.
    parent_id: String,
    /// Instance-specific map of `Uniform`s.
    uniforms: NameMap<Uniform<T>>,
    /// Unique ID for this material instance
    id: String,
}

impl<T> MaterialInstance<T> {
    pub closed spec fn id_view(&self) -> Seq<char> {
        self.id@
    }

    pub closed spec fn parent_id_view(&self) -> Seq<char> {
        self.parent_id@
    }

    /// The names of the instance's own uniforms, in the order in which they were first set.
    pub closed spec fn uniform_names(&self) -> Seq<Seq<char>> {
        self.uniforms.names()
    }

    /// The instance's own uniforms, each at the position of its name.
    pub closed spec fn uniforms(&self) -> Seq<Uniform<T>> {
        self.uniforms.values()
    }

    /// No uniform name is stored twice, and every uniform is stored under its own name.
    pub open spec fn wf(&self) -> bool {
        &&& self.uniform_names().no_duplicates()
        &&& keyed_by_name(self.uniform_names(), self.uniforms())
    }

    /// Constructor, taking the id of the parent material.
    pub fn new(parent_id: &str, id: &str) -> (instance: MaterialInstance<T>)
        ensures
            instance.wf(),
            instance.id_view() == id@,
            instance.parent_id_view() == parent_id@,
            instance.uniform_names().len() == 0,
    {
        MaterialInstance {
            parent_id: String::from_str(parent_id),
            uniforms: NameMap::new(),
            id: String::from_str(id),
        }
    }

    /// Whether a lookup would ask nothing for the instance's own uniforms.
    pub open spec fn settled(&self) -> bool {
        forall|i: int| 0 <= i < self.uniforms().len() ==> (#[trigger] self.uniforms()[i]).is_resolved()
    }

    /// Lookup locations for this `MaterialInstance` and for its parent.
    /// Whatever has been looked up before is not asked again: where both are
    /// settled, the query is not called at all and need not be callable.
    pub fn lookup_locations<F: Fn(u32, &str) -> Option<u32>>(
        &mut self,
        parent: &mut Material<T>,
        query: &F,
        lights: &LightConfiguration,
    )
        requires
            old(self).wf(),
            old(parent).wf(),
            !(old(self).settled() && old(parent).settled()) ==> forall|name: &str| #[trigger]
                query.requires((old(parent).program_view(), name)),
        ensures
            final(self).wf(),
            final(parent).wf(),
            final(parent).looked_up(old(parent), query, *lights),
            final(parent).settled(),
            final(self).id_view() == old(self).id_view(),
            final(self).parent_id_view() == old(self).parent_id_view(),
            final(self).uniform_names() == old(self).uniform_names(),
            final(self).settled(),
            forall|i: int|
                0 <= i < old(self).uniforms().len() ==> (#[trigger] final(self).uniforms()[i]).looked_up(
                    &old(self).uniforms()[i],
                    query,
                    old(parent).program_view(),
                ),
    {
        parent.lookup_locations(query, lights);
        lookup_all(&mut self.uniforms, query, parent.get_program());
        assert forall|i: int| 0 <= i < self.uniforms().len() implies (#[trigger] self.uniforms()[i]).is_resolved() by {
            assert(self.uniforms()[i].looked_up(&old(self).uniforms()[i], query, old(parent).program_view()));
        }
    }

    /// Getter for the parent's `Material` transparency setting.
    pub fn is_transparent(&self, parent: &Material<T>) -> (transparent: bool)
        ensures
            transparent == parent.transparent_view(),
    {
        parent.is_transparent()
    }

    /// Whether setting a uniform of this name goes to the parent material.
    pub open spec fn goes_to_parent(parent: &Material<T>, name: Seq<char>) -> bool {
        parent.uniform_names().contains(name)
    }

    /// Adds or updates a `Uniform`. A name that the parent material shares is set
    /// on the parent, for all its instances; any other name is set on this instance alone.
    pub fn set_uniform(&mut self, parent: &mut Material<T>, uniform_to_set: Uniform<T>)
        requires
            old(self).wf(),
            old(parent).wf(),
        ensures
            final(self).wf(),
            final(parent).wf(),
            final(parent).same_but_uniforms(old(parent)),
            final(self).id_view() == old(self).id_view(),
            final(self).parent_id_view() == old(self).parent_id_view(),
            Self::goes_to_parent(old(parent), uniform_to_set.name_view()) ==> {
                &&& *final(self) == *old(self)
                &&& final(parent).uniform_names() == old(parent).uniform_names()
                &&& final(parent).uniforms() == old(parent).uniforms().update(
                    old(parent).uniform_names().index_of(uniform_to_set.name_view()),
                    uniform_to_set,
                )
            },
            !Self::goes_to_parent(old(parent), uniform_to_set.name_view()) ==> {
                &&& *final(parent) == *old(parent)
                &&& final(self).uniform_names() == names_with(
                    old(self).uniform_names(),
                    uniform_to_set.name_view(),
                )
                &&& final(self).uniforms() == values_with(
                    old(self).uniform_names(),
                    old(self).uniforms(),
                    uniform_to_set.name_view(),
                    uniform_to_set,
                )
            },
    {
        if parent.has_uniform(uniform_to_set.get_name()) {
            parent.set_uniform(uniform_to_set);
        } else {
            let ghost prior = self.uniforms;
            let name = String::from_str(uniform_to_set.get_name());
            self.uniforms.insert(name, uniform_to_set);
            proof {
                lemma_store_keeps_keys(&prior, &self.uniforms, uniform_to_set);
            }
        }
    }

    /// Adds a new set of `Uniform`s to this `MaterialInstance`, as a batch: each
    /// is set as `set_uniform` would, in the order of the batch. The names that the
    /// parent shares do not change by this, so each uniform goes where it would have
    /// gone alone.
    pub fn push_uniforms(&mut self, parent: &mut Material<T>, uniforms: Vec<Uniform<T>>)
        requires
            old(self).wf(),
            old(parent).wf(),
        ensures
            final(self).wf(),
            final(parent).wf(),
            final(parent).same_but_uniforms(old(parent)),
            final(parent).uniform_names() == old(parent).uniform_names(),
            final(self).id_view() == old(self).id_view(),
            final(self).parent_id_view() == old(self).parent_id_view(),
            final(parent).uniforms() == shared_after(old(parent).uniform_names(), old(parent).uniforms(), uniforms@),
            final(self).uniform_names() == names_after(
                old(self).uniform_names(),
                own_part(old(parent).uniform_names(), uniforms@),
            ),
            final(self).uniforms() == values_after(
                old(self).uniform_names(),
                old(self).uniforms(),
                own_part(old(parent).uniform_names(), uniforms@),
            ),
    {
        let ghost all = uniforms@;
        let ghost shared = old(parent).uniform_names();
        for uniform in it: uniforms
            invariant
                it.seq() == all,
                shared == old(parent).uniform_names(),
                self.wf(),
                parent.wf(),
                parent.same_but_uniforms(old(parent)),
                parent.uniform_names() == shared,
                self.id_view() == old(self).id_view(),
                self.parent_id_view() == old(self).parent_id_view(),
                parent.uniforms() == shared_after(shared, old(parent).uniforms(), all.take(it.index() as int)),
                self.uniform_names() == names_after(
                    old(self).uniform_names(),
                    own_part(shared, all.take(it.index() as int)),
                ),
                self.uniforms() == values_after(
                    old(self).uniform_names(),
                    old(self).uniforms(),
                    own_part(shared, all.take(it.index() as int)),
                ),
        {
            proof {
                let done = all.take(it.index() as int + 1);
                assert(done.drop_last() =~= all.take(it.index() as int));
                assert(done.last() == uniform);
                if !shared.contains(uniform.name_view()) {
                    let own = own_part(shared, done);
                    assert(own.drop_last() =~= own_part(shared, done.drop_last()));
                }
            }
            self.set_uniform(parent, uniform);
        }
        assert(all.take(all.len() as int) =~= all);
    }

    /// Updates a shared `Uniform` of this `MaterialInstance`'s parent `Material`.
    pub fn set_parent_uniform(&self, parent: &mut Material<T>, uniform_to_set: Uniform<T>)
        requires
            old(parent).wf(),
        ensures
            final(parent).wf(),
            final(parent).same_but_uniforms(old(parent)),
            final(parent).uniform_names() == names_with(old(parent).uniform_names(), uniform_to_set.name_view()),
            final(parent).uniforms() == values_with(
                old(parent).uniform_names(),
                old(parent).uniforms(),
                uniform_to_set.name_view(),
                uniform_to_set,
            ),
    {
        parent.set_uniform(uniform_to_set);
    }

    /// Getter for id
    pub fn get_id(&self) -> (id: &str)
        ensures
            id@ == self.id_view(),
    {
        self.id.as_str()
    }

    /// Returns the id of this `MaterialInstance`'s parent for sorting purposes.
    pub fn get_parent_id(&self) -> (id: String)
        ensures
            id@ == self.parent_id_view(),
    {
        self.parent_id.clone()
    }

    /// Gives every texture uniform of the instance its texture unit: the units
    /// behind those of the shared uniforms, in the order of the uniforms, for as
    /// many textures as there are units for an instance.
    pub fn assign_texture_indexes(&mut self)
        requires
            old(self).wf(),
        ensures
            final(self).wf(),
            final(self).id_view() == old(self).id_view(),
            final(self).parent_id_view() == old(self).parent_id_view(),
            final(self).uniform_names() == old(self).uniform_names(),
            units_assigned(
                final(self).uniforms(),
                old(self).uniforms(),
                SHARED_TEXTURE_UNITS,
                INSTANCE_TEXTURE_UNITS,
            ),
    {
        assign_units(&mut self.uniforms, SHARED_TEXTURE_UNITS, INSTANCE_TEXTURE_UNITS);
    }

    /// The instance's own uniform at position `i`.
    pub fn uniform_at(&self, i: usize) -> (uniform: &Uniform<T>)
        requires
            self.wf(),
            i < self.uniforms().len(),
        ensures
            *uniform == self.uniforms()[i as int],
    {
        self.uniforms.value_at(i)
    }

    /// Number of uniforms of the instance's own.
    pub fn uniform_count(&self) -> (n: usize)
        requires
            self.wf(),
        ensures
            n == self.uniforms().len(),
    {
        self.uniforms.len()
    }

    /// Chooses the upload of every uniform of this instance, not including the
    /// parent's. A uniform that cannot be uploaded is marked with an error and does
    /// not stop the others. The parent's uniforms should be uploaded before.
    pub fn set_uniforms_to_context(&self) -> (plan: Vec<Result<UniformCall, Error>>)
        requires
            self.wf(),
        ensures
            plan@ == upload_plan(self.uniforms()),
    {
        plan_uploads(&self.uniforms)
    }
}

/// The uniforms of a batch that an instance keeps for itself: those whose name the parent does not share.
pub open spec fn own_part<T>(shared: Seq<Seq<char>>, added: Seq<Uniform<T>>) -> Seq<Uniform<T>>
    decreases added.len(),
{
    if added.len() == 0 {
        added
    } else if shared.contains(added.last().name_view()) {
        own_part(shared, added.drop_last())
    } else {
        own_part(shared, added.drop_last()).push(added.last())
    }
}

/// The uniforms of a parent after a batch was set through one of its instances:
/// each uniform of the batch whose name the parent shares has taken the place of
/// the one that was there.
pub open spec fn shared_after<T>(shared: Seq<Seq<char>>, values: Seq<Uniform<T>>, added: Seq<Uniform<T>>) -> Seq<
    Uniform<T>,
>
    decreases added.len(),
{
    if added.len() == 0 {
        values
    } else if shared.contains(added.last().name_view()) {
        shared_after(shared, values, added.drop_last()).update(
            shared.index_of(added.last().name_view()),
            added.last(),
        )
    } else {
        shared_after(shared, values, added.drop_last())
    }
}

} // verus!
