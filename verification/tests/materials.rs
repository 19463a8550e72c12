use std::cell::Cell;
use wtvr3d::asset::texture::Texture;
use wtvr3d::error::Error;
use wtvr3d::renderer::light_repository::LightConfiguration;
use wtvr3d::renderer::material::{
    program_outcome, shader_outcome, Material, MaterialInstance, ProgramBuild,
};
use wtvr3d::renderer::uniform::{GlobalUniformLocations, Uniform};
use wtvr3d::renderer::value::{
    flatten_vector3_array, get_texture_pointer, RendererValue, UniformCall,
};

fn built(program: u32) -> ProgramBuild {
    ProgramBuild::start().advance(Ok(1)).advance(Ok(2)).advance(Ok(program))
}

fn material(id: &str, program: u32) -> Material<f32> {
    Material::new(built(program), id).ok().expect("the program is built")
}

fn float(name: &str, value: f32) -> Uniform<f32> {
    Uniform::new(name, RendererValue::Float(value))
}

fn float_of(u: &Uniform<f32>) -> f32 {
    match u.get_value() {
        RendererValue::Float(f) => *f,
        _ => panic!("not a float"),
    }
}

/// A graphics context that knows some names and counts what it is asked.
struct Stub {
    uniform_queries: Cell<u32>,
    attribute_queries: Cell<u32>,
}

impl Stub {
    fn new() -> Stub {
        Stub { uniform_queries: Cell::new(0), attribute_queries: Cell::new(0) }
    }

    fn uniform(&self, program: u32, name: &str) -> Option<u32> {
        self.uniform_queries.set(self.uniform_queries.get() + 1);
        if name.starts_with("u_missing") {
            None
        } else {
            Some(program * 1000 + name.len() as u32)
        }
    }

    fn attribute(&self, program: u32, name: &str) -> i32 {
        self.attribute_queries.set(self.attribute_queries.get() + 1);
        if name == "a_missing" {
            -1
        } else {
            (program * 10) as i32 + name.len() as i32
        }
    }
}

#[test]
fn shader_and_program_outcomes() {
    assert_eq!(shader_outcome(Some(4), true, None), Ok(4));
    assert_eq!(shader_outcome(Some(4), true, Some("warning".to_string())), Ok(4));
    assert_eq!(shader_outcome(None, true, None), Err("Unable to create shader object".to_string()));
    assert_eq!(shader_outcome(Some(4), false, Some("0:3 oops".to_string())), Err("0:3 oops".to_string()));
    assert_eq!(shader_outcome(Some(4), false, None), Err("Unknown error creating shader".to_string()));
    assert_eq!(program_outcome(Some(9), true, None), Ok(9));
    assert_eq!(program_outcome(None, false, None), Err("Unable to create shader object".to_string()));
    assert_eq!(program_outcome(Some(9), false, Some("link".to_string())), Err("link".to_string()));
    assert_eq!(
        program_outcome(Some(9), false, None),
        Err("Unknown error creating program object".to_string())
    );
}

#[test]
fn program_build_goes_through_three_steps() {
    let b = ProgramBuild::start();
    assert!(matches!(b, ProgramBuild::CompileVertex));
    assert!(!b.is_over());
    let b = b.advance(Ok(11));
    assert!(matches!(b, ProgramBuild::CompileFragment { vertex: 11 }));
    let b = b.advance(Ok(12));
    assert!(matches!(b, ProgramBuild::Link { vertex: 11, fragment: 12 }));
    assert!(!b.is_over());
    let b = b.advance(Ok(13));
    assert!(matches!(b, ProgramBuild::Ready { program: 13 }));
    assert!(b.is_over());
    let b = b.advance(Err("late".to_string()));
    assert!(matches!(b, ProgramBuild::Ready { program: 13 }));
}

#[test]
fn program_build_stops_at_the_first_failure() {
    let b = ProgramBuild::start().advance(Err("vertex log".to_string()));
    match &b {
        ProgramBuild::Failed { error, log } => {
            assert_eq!(*error, Error::CompileFailure);
            assert_eq!(log, "vertex log");
        }
        _ => panic!("the build should have failed"),
    }
    assert!(b.is_over());
    let b = b.advance(Ok(3));
    assert!(matches!(b, ProgramBuild::Failed { .. }));

    let b = ProgramBuild::start().advance(Ok(1)).advance(Err("fragment log".to_string()));
    assert!(matches!(b, ProgramBuild::Failed { error: Error::CompileFailure, .. }));

    let b = ProgramBuild::start().advance(Ok(1)).advance(Ok(2)).advance(Err("link log".to_string()));
    match b {
        ProgramBuild::Failed { error, log } => {
            assert_eq!(error, Error::LinkFailure);
            assert_eq!(log, "link log");
        }
        _ => panic!("the build should have failed"),
    }
}

#[test]
fn material_new_reports_failed_builds() {
    let m = material("water", 7);
    assert_eq!(m.get_program(), 7);
    assert_eq!(m.get_id(), "water");
    assert!(!m.is_transparent());
    assert_eq!(m.uniform_count(), 0);

    let failed = ProgramBuild::start().advance(Err("0:1 bad".to_string()));
    let e = Material::<f32>::new(failed, "water").err().unwrap();
    assert_eq!(e.message(), "Compilation failed for shader, Generated for : water, Description : 0:1 bad");

    let failed = ProgramBuild::start().advance(Ok(1)).advance(Ok(2)).advance(Err("ld".to_string()));
    let e = Material::<f32>::new(failed, "water").err().unwrap();
    assert_eq!(e.message(), "Linking failed for WebGLProgram, Generated for : water, Description : ld");

    let unfinished = ProgramBuild::start().advance(Ok(1));
    let e = Material::<f32>::new(unfinished, "water").err().unwrap();
    assert_eq!(e.message(), "Program is not built, Generated for : water");
}

#[test]
fn attribute_location_is_asked_once() {
    let stub = Stub::new();
    let query = |program: u32, name: &str| stub.attribute(program, name);
    let mut m = material("m", 3);
    assert_eq!(m.get_attribute_location("a_position"), None);
    m.register_new_attribute_location(&query, "a_position");
    assert_eq!(stub.attribute_queries.get(), 1);
    assert_eq!(m.get_attribute_location("a_position"), Some(40));
    m.register_new_attribute_location(&query, "a_position");
    m.register_new_attribute_location(&query, "a_position");
    assert_eq!(stub.attribute_queries.get(), 1);
    assert_eq!(m.get_attribute_location("a_position"), Some(40));
    // a location of -1 is an answer too, and is not asked for again
    m.register_new_attribute_location(&query, "a_missing");
    m.register_new_attribute_location(&query, "a_missing");
    assert_eq!(stub.attribute_queries.get(), 2);
    assert_eq!(m.get_attribute_location("a_missing"), Some(-1));
    assert_eq!(m.get_attribute_location("a_normal"), None);
}

#[test]
fn lookup_locations_is_idempotent() {
    let stub = Stub::new();
    let query = |program: u32, name: &str| stub.uniform(program, name);
    let lights = LightConfiguration { directional: 2, point: 1, spot: 0 };
    let mut m = material("m", 5);
    m.set_uniform(float("u_time", 1.0));
    m.set_uniform(float("u_missing_thing", 2.0));
    assert!(!m.is_settled());
    m.lookup_locations(&query, &lights);
    // five globals, four per light of the two arrays, two shared uniforms
    assert_eq!(stub.uniform_queries.get(), 5 + 4 * 3 + 2);
    assert!(m.is_settled());
    assert_eq!(m.uniform_at(0).get_location(), Some(5006));
    assert_eq!(m.uniform_at(1).get_location(), None);
    let globals = m.get_global_uniform_locations();
    assert!(globals.lookup_done);
    assert_eq!(globals.view_matrix_location, Some(5000 + "u_view_matrix".len() as u32));
    assert_eq!(globals.directional_lights_locations.len(), 2);
    assert_eq!(globals.point_lights_locations.len(), 1);
    assert_eq!(
        globals.directional_lights_locations[1].color,
        Some(5000 + "u_dir_lights[1].color".len() as u32)
    );
    assert_eq!(
        globals.point_lights_locations[0].position_or_direction,
        Some(5000 + "u_point_lights[0].position_or_direction".len() as u32)
    );

    m.lookup_locations(&query, &lights);
    m.lookup_locations(&query, &LightConfiguration { directional: 9, point: 9, spot: 9 });
    assert_eq!(stub.uniform_queries.get(), 5 + 4 * 3 + 2);
    assert_eq!(m.uniform_at(0).get_location(), Some(5006));
    assert_eq!(m.uniform_at(1).get_location(), None);
    assert_eq!(m.get_global_uniform_locations().directional_lights_locations.len(), 2);

    // a uniform that comes later is looked up alone
    m.set_uniform(float("u_late", 3.0));
    assert!(!m.is_settled());
    m.lookup_locations(&query, &lights);
    assert_eq!(stub.uniform_queries.get(), 5 + 4 * 3 + 3);
    assert_eq!(m.uniform_at(2).get_location(), Some(5006));
}

#[test]
fn global_locations_ask_by_the_names_of_the_light_arrays() {
    let asked = std::cell::RefCell::new(Vec::new());
    let query = |program: u32, name: &str| {
        asked.borrow_mut().push(format!("{}:{}", program, name));
        None
    };
    let mut g = GlobalUniformLocations::new();
    g.lookup_locations(&query, 2, &LightConfiguration { directional: 1, point: 11, spot: 0 });
    let asked = asked.borrow();
    assert_eq!(asked[0], "2:u_view_matrix");
    assert_eq!(asked[1], "2:u_projection_matrix");
    assert_eq!(asked[2], "2:u_world_transform");
    assert_eq!(asked[3], "2:u_camera_position");
    assert_eq!(asked[4], "2:u_ambiant_light");
    assert_eq!(asked[5], "2:u_dir_lights[0].color");
    assert_eq!(asked[6], "2:u_dir_lights[0].intensity");
    assert_eq!(asked[7], "2:u_dir_lights[0].attenuation");
    assert_eq!(asked[8], "2:u_dir_lights[0].position_or_direction");
    assert_eq!(asked[9], "2:u_point_lights[0].color");
    assert_eq!(asked[9 + 4 * 10], "2:u_point_lights[10].color");
    assert_eq!(asked.len(), 5 + 4 + 44);
}

#[test]
fn set_uniform_inserts_or_replaces_by_name() {
    let mut m = material("m", 1);
    assert!(!m.has_uniform("u_a"));
    m.set_uniform(float("u_a", 1.0));
    m.set_uniform(float("u_b", 2.0));
    m.set_uniform(float("u_a", 3.0));
    assert!(m.has_uniform("u_a"));
    assert!(m.has_uniform("u_b"));
    assert!(!m.has_uniform("u_c"));
    assert_eq!(m.uniform_count(), 2);
    assert_eq!(m.uniform_at(0).get_name(), "u_a");
    assert_eq!(float_of(m.uniform_at(0)), 3.0);
    assert_eq!(float_of(m.uniform_at(1)), 2.0);
    m.push_uniforms(vec![float("u_c", 4.0), float("u_b", 5.0), float("u_c", 6.0)]);
    assert_eq!(m.uniform_count(), 3);
    assert_eq!(float_of(m.uniform_at(1)), 5.0);
    assert_eq!(m.uniform_at(2).get_name(), "u_c");
    assert_eq!(float_of(m.uniform_at(2)), 6.0);
    m.set_transparent(true);
    assert!(m.is_transparent());
    m.set_transparent(false);
    assert!(!m.is_transparent());
}

#[test]
fn instance_uniform_that_the_parent_shares_goes_to_the_parent() {
    let mut parent = material("parent", 1);
    parent.set_uniform(float("u_shared", 1.0));
    let mut first: MaterialInstance<f32> = MaterialInstance::new("parent", "first");
    let second: MaterialInstance<f32> = MaterialInstance::new("parent", "second");
    assert_eq!(first.get_id(), "first");
    assert_eq!(first.get_parent_id(), "parent");

    first.set_uniform(&mut parent, float("u_shared", 9.0));
    assert_eq!(first.uniform_count(), 0);
    assert_eq!(parent.uniform_count(), 1);
    assert_eq!(float_of(parent.uniform_at(0)), 9.0);

    first.set_uniform(&mut parent, float("u_own", 2.0));
    assert_eq!(first.uniform_count(), 1);
    assert_eq!(parent.uniform_count(), 1);
    assert_eq!(second.uniform_count(), 0);
    assert_eq!(float_of(first.uniform_at(0)), 2.0);
    first.set_uniform(&mut parent, float("u_own", 3.0));
    assert_eq!(first.uniform_count(), 1);
    assert_eq!(float_of(first.uniform_at(0)), 3.0);

    first.push_uniforms(&mut parent, vec![float("u_shared", 7.0), float("u_more", 4.0), float("u_own", 5.0)]);
    assert_eq!(float_of(parent.uniform_at(0)), 7.0);
    assert_eq!(parent.uniform_count(), 1);
    assert_eq!(first.uniform_count(), 2);
    assert_eq!(float_of(first.uniform_at(0)), 5.0);
    assert_eq!(first.uniform_at(1).get_name(), "u_more");

    second.set_parent_uniform(&mut parent, float("u_new_shared", 8.0));
    assert_eq!(parent.uniform_count(), 2);
    parent.set_transparent(true);
    assert!(second.is_transparent(&parent));
}

#[test]
fn instance_lookup_settles_parent_and_instance() {
    let stub = Stub::new();
    let query = |program: u32, name: &str| stub.uniform(program, name);
    let lights = LightConfiguration { directional: 0, point: 0, spot: 0 };
    let mut parent = material("parent", 2);
    parent.set_uniform(float("u_shared", 1.0));
    let mut instance: MaterialInstance<f32> = MaterialInstance::new("parent", "i");
    instance.set_uniform(&mut parent, float("u_own", 1.0));
    instance.lookup_locations(&mut parent, &query, &lights);
    assert_eq!(stub.uniform_queries.get(), 5 + 1 + 1);
    assert_eq!(instance.uniform_at(0).get_location(), Some(2005));
    assert!(parent.is_settled());
    instance.lookup_locations(&mut parent, &query, &lights);
    assert_eq!(stub.uniform_queries.get(), 7);
}

#[test]
fn upload_call_follows_the_kind_of_value() {
    let loc = Some(3);
    let call = |v: RendererValue<f32>| v.set_to_context_as_uniform(loc, None);
    assert_eq!(call(RendererValue::Float(1.0)), Ok(UniformCall::Vector { components: 1 }));
    assert_eq!(call(RendererValue::FloatArray(vec![1.0, 2.0])), Ok(UniformCall::Vector { components: 1 }));
    assert_eq!(call(RendererValue::Vector2([1.0, 2.0])), Ok(UniformCall::Vector { components: 2 }));
    assert_eq!(call(RendererValue::Vector2Array(vec![])), Ok(UniformCall::Vector { components: 2 }));
    assert_eq!(call(RendererValue::Vector3([1.0; 3])), Ok(UniformCall::Vector { components: 3 }));
    assert_eq!(call(RendererValue::Vector3Array(vec![])), Ok(UniformCall::Vector { components: 3 }));
    assert_eq!(call(RendererValue::Vector4([1.0; 4])), Ok(UniformCall::Vector { components: 4 }));
    assert_eq!(call(RendererValue::Vector4Array(vec![])), Ok(UniformCall::Vector { components: 4 }));
    assert_eq!(call(RendererValue::Matrix2(Box::new([0.0; 4]))), Ok(UniformCall::Matrix { dimension: 2 }));
    assert_eq!(call(RendererValue::Matrix3(Box::new([0.0; 9]))), Ok(UniformCall::Matrix { dimension: 3 }));
    assert_eq!(call(RendererValue::Matrix4(Box::new([0.0; 16]))), Ok(UniformCall::Matrix { dimension: 4 }));
    let unlocated: Result<UniformCall, Error> = RendererValue::Float(1.0f32).set_to_context_as_uniform(None, None);
    assert_eq!(unlocated, Err(Error::UnresolvedLocation));
}

#[test]
fn texture_upload_needs_a_unit_and_a_texture_object() {
    let constructed: RendererValue<f32> = RendererValue::Texture(Texture { id: 1, texture: Some(77) });
    let raw: RendererValue<f32> = RendererValue::Texture(Texture { id: 1, texture: None });
    assert!(constructed.is_texture());
    assert!(!RendererValue::Float(0.0f32).is_texture());
    assert_eq!(
        constructed.set_to_context_as_uniform(Some(5), Some(2)),
        Ok(UniformCall::Texture { unit: 33986, texture: 77, sampler: 2 })
    );
    assert_eq!(constructed.set_to_context_as_uniform(Some(5), None), Err(Error::MissingTextureUnit));
    assert_eq!(raw.set_to_context_as_uniform(Some(5), None), Err(Error::MissingTextureUnit));
    assert_eq!(raw.set_to_context_as_uniform(Some(5), Some(2)), Err(Error::UnconstructedValue));
    assert_eq!(constructed.set_to_context_as_uniform(None, Some(2)), Err(Error::UnresolvedLocation));
}

#[test]
fn texture_pointer_stops_at_the_last_unit() {
    assert_eq!(get_texture_pointer(0), 33984);
    assert_eq!(get_texture_pointer(1), 33985);
    assert_eq!(get_texture_pointer(7), 33991);
    assert_eq!(get_texture_pointer(8), 33992);
    assert_eq!(get_texture_pointer(9), 33992);
    assert_eq!(get_texture_pointer(u32::MAX), 33992);
}

#[test]
fn uniform_upload_reports_each_failure_with_its_reason() {
    let mut u: Uniform<f32> = Uniform::new("u_tex", RendererValue::Texture(Texture { id: 0, texture: Some(4) }));
    assert_eq!(u.get_texture_index(), None);
    assert_eq!(u.set_to_context(), Err(Error::MissingTextureUnit));
    // the missing unit is reported even where the location is known
    let mut found: Uniform<f32> =
        Uniform::new_with_location("u_tex", Some(2), RendererValue::Texture(Texture { id: 0, texture: Some(4) }));
    assert_eq!(found.set_to_context(), Err(Error::MissingTextureUnit));
    found.set_texture_index(1);
    assert_eq!(found.set_to_context(), Ok(UniformCall::Texture { unit: 33985, texture: 4, sampler: 1 }));
    let mut raw: Uniform<f32> =
        Uniform::new_with_location("u_raw", Some(2), RendererValue::Texture(Texture { id: 0, texture: None }));
    raw.set_texture_index(0);
    assert_eq!(raw.set_to_context(), Err(Error::UnconstructedValue));
    u.set_texture_index(3);
    assert_eq!(u.get_texture_index(), Some(3));
    // no location yet
    assert_eq!(u.set_to_context(), Err(Error::UnresolvedLocation));
    u.lookup_location(&|_program: u32, _name: &str| Some(12), 1);
    assert!(u.has_been_looked_up());
    assert_eq!(u.get_location(), Some(12));
    assert_eq!(u.set_to_context(), Ok(UniformCall::Texture { unit: 33987, texture: 4, sampler: 3 }));
    // a second lookup asks nothing
    u.lookup_location(&|_program: u32, _name: &str| panic!("asked twice"), 1);
    assert_eq!(u.get_location(), Some(12));
    let located: Uniform<f32> = Uniform::new_with_location("", Some(8), RendererValue::Float(1.0));
    assert_eq!(located.set_to_context(), Ok(UniformCall::Vector { components: 1 }));
    assert!(located.has_been_looked_up());
}

#[test]
fn material_upload_plan_does_not_stop_at_a_bad_uniform() {
    let stub = Stub::new();
    let query = |program: u32, name: &str| stub.uniform(program, name);
    let mut m = material("m", 1);
    m.push_uniforms(vec![
        float("u_a", 1.0),
        float("u_missing", 2.0),
        Uniform::new("u_m", RendererValue::Matrix4(Box::new([0.0; 16]))),
    ]);
    m.lookup_locations(&query, &LightConfiguration::default());
    assert_eq!(
        m.set_uniforms_to_context(),
        vec![
            Ok(UniformCall::Vector { components: 1 }),
            Err(Error::UnresolvedLocation),
            Ok(UniformCall::Matrix { dimension: 4 }),
        ]
    );
    let mut i: MaterialInstance<f32> = MaterialInstance::new("m", "i");
    assert_eq!(i.set_uniforms_to_context(), vec![]);
    i.set_uniform(&mut m, float("u_own", 1.0));
    assert_eq!(i.set_uniforms_to_context(), vec![Err(Error::UnresolvedLocation)]);
}

#[test]
fn vectors_are_flattened_component_after_component() {
    let flat = flatten_vector3_array(&vec![[1.0f32, 2.0, 3.0], [4.0, 5.0, 6.0]]);
    assert_eq!(flat, vec![1.0, 2.0, 3.0, 4.0, 5.0, 6.0]);
    assert_eq!(flatten_vector3_array::<f32>(&vec![]), Vec::<f32>::new());
}

fn texture(name: &str, id: usize) -> Uniform<f32> {
    Uniform::new(name, RendererValue::Texture(Texture { id, texture: Some(id as u32 + 100) }))
}

#[test]
fn texture_units_follow_the_order_of_the_uniforms() {
    let mut parent = material("parent", 1);
    parent.push_uniforms(vec![
        texture("u_albedo", 0),
        float("u_time", 0.0),
        texture("u_normal", 1),
        texture("u_rough", 2),
        texture("u_metal", 3),
        texture("u_one_too_many", 4),
    ]);
    parent.assign_texture_indexes();
    let units: Vec<Option<u32>> = (0..6).map(|i| parent.uniform_at(i).get_texture_index()).collect();
    assert_eq!(units, vec![Some(0), None, Some(1), Some(2), Some(3), None]);

    let mut instance: MaterialInstance<f32> = MaterialInstance::new("parent", "i");
    instance.push_uniforms(&mut parent, vec![texture("u_detail", 5), float("u_own", 1.0), texture("u_mask", 6)]);
    instance.assign_texture_indexes();
    assert_eq!(instance.uniform_at(0).get_texture_index(), Some(4));
    assert_eq!(instance.uniform_at(1).get_texture_index(), None);
    assert_eq!(instance.uniform_at(2).get_texture_index(), Some(5));

    // a uniform that is set again keeps its place, and with it its unit
    parent.set_uniform(texture("u_normal", 9));
    assert_eq!(parent.uniform_at(2).get_texture_index(), None);
    parent.assign_texture_indexes();
    assert_eq!(parent.uniform_at(2).get_texture_index(), Some(1));
    assert_eq!(parent.uniform_at(0).get_texture_index(), Some(0));
    // a unit set by hand on something that is no texture is taken away
    let mut odd = float("u_odd", 1.0);
    odd.set_texture_index(3);
    parent.set_uniform(odd);
    parent.assign_texture_indexes();
    assert_eq!(parent.uniform_at(6).get_texture_index(), None);
    let mut lone = texture("u_lone", 1);
    lone.set_texture_index(2);
    lone.clear_texture_index();
    assert_eq!(lone.get_texture_index(), None);
}
