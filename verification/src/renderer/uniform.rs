//! Uniforms: a name, a value and the location of that name in a program.
//!
//! A location is asked of the graphics context once and remembered. The context
//! is reached through a query function that takes the name of a program and a
//! uniform's name and answers with the uniform's location in that program, or
//! with none where the program has no such uniform.

use vstd::prelude::*;
use vstd::string::*;
use crate::error::Error;
use crate::renderer::light_repository::LightConfiguration;
use crate::renderer::value::{RendererValue, UniformCall};
use crate::util::text::{element_field_name, make_element_field_name};
use crate::utils::constants::{
    AMBIANT_LIGHT_NAME, CAMERA_POSITION_NAME, DIRECTIONAL_LIGHTS_NAME, LIGHT_ATTENUATION_NAME,
    LIGHT_COLOR_NAME, LIGHT_INTENSITY_NAME, LIGHT_POSITION_DIRECTION_NAME, POINT_LIGHTS_NAME,
    PROJECTION_MATRIX_NAME, VIEW_MATRIX_NAME, WORLD_TRANSFORM_NAME,
};

verus! {

/// Whether `location` is an answer of `query` for the uniform called `name` in `program`.
pub open spec fn answered<F: Fn(u32, &str) -> Option<u32>>(
    query: &F,
    program: u32,
    name: Seq<char>,
    location: Option<u32>,
) -> bool {
    exists|text: &str| text@ == name && #[trigger] query.ensures((program, text), location)
}

/// Uniform representation; has a name and a value.
/// Its location must be looked up at initialization time.
pub struct Uniform<T> {
    /// Name of the uniform as it appears in the vertex or fragment shader
    pub name: String,
    /// Location of the uniform relative to a specific program
    location: Option<u32>,
    /// Whether the location has been asked for; the answer may have been none.
    resolved: bool,
    /// Value of the uniform to pass to the program at render time.
    pub value: RendererValue<T>,
    /// Index of the texture unit to which the texture has been bound
    texture_index: Option<u32>,
}

impl<T> Uniform<T> {
    pub closed spec fn name_view(&self) -> Seq<char> {
        self.name@
    }

    pub closed spec fn value_view(&self) -> RendererValue<T> {
        self.value
    }

    pub closed spec fn location_view(&self) -> Option<u32> {
        self.location
    }

    /// Whether the location has been asked for already.
    pub closed spec fn is_resolved(&self) -> bool {
        self.resolved
    }

    pub closed spec fn texture_index_view(&self) -> Option<u32> {
        self.texture_index
    }

    /// Creates a new uniform from a name and value.
    pub fn new(name: &str, value: RendererValue<T>) -> (uniform: Uniform<T>)
        ensures
            uniform.name_view() == name@,
            uniform.value_view() == value,
            uniform.location_view().is_none(),
            !uniform.is_resolved(),
            uniform.texture_index_view().is_none(),
    {
        Uniform { name: String::from_str(name), location: None, resolved: false, value, texture_index: None }
    }

    /// Creates a uniform from a name, a value, and a pre-computed location, which
    /// will not be looked up again.
    pub fn new_with_location(name: &str, location: Option<u32>, value: RendererValue<T>) -> (uniform:
        Uniform<T>)
        ensures
            uniform.name_view() == name@,
            uniform.value_view() == value,
            uniform.location_view() == location,
            uniform.is_resolved(),
            uniform.texture_index_view().is_none(),
    {
        Uniform { name: String::from_str(name), location, resolved: true, value, texture_index: None }
    }

    /// The name of the uniform.
    pub fn get_name(&self) -> (name: &str)
        ensures
            name@ == self.name_view(),
    {
        self.name.as_str()
    }

    /// The value of the uniform.
    pub fn get_value(&self) -> (value: &RendererValue<T>)
        ensures
            *value == self.value_view(),
    {
        &self.value
    }

    /// The location of the uniform, if it has been found.
    pub fn get_location(&self) -> (location: Option<u32>)
        ensures
            location == self.location_view(),
    {
        self.location
    }

    /// Whether the location has been asked for already.
    pub fn has_been_looked_up(&self) -> (resolved: bool)
        ensures
            resolved == self.is_resolved(),
    {
        self.resolved
    }

    pub fn set_texture_index(&mut self, index: u32)
        ensures
            final(self).texture_index_view() == Some(index),
            final(self).name_view() == old(self).name_view(),
            final(self).value_view() == old(self).value_view(),
            final(self).location_view() == old(self).location_view(),
            final(self).is_resolved() == old(self).is_resolved(),
    {
        self.texture_index = Some(index);
    }

    /// Takes the texture index away.
    pub fn clear_texture_index(&mut self)
        ensures
            final(self).texture_index_view().is_none(),
            final(self).name_view() == old(self).name_view(),
            final(self).value_view() == old(self).value_view(),
            final(self).location_view() == old(self).location_view(),
            final(self).is_resolved() == old(self).is_resolved(),
    {
        self.texture_index = None;
    }

    pub fn get_texture_index(&self) -> (index: Option<u32>)
        ensures
            index == self.texture_index_view(),
    {
        self.texture_index
    }

    /// What a lookup leaves behind: a uniform that had been looked up is untouched;
    /// any other holds an answer of `query` for its name.
    pub open spec fn looked_up<F: Fn(u32, &str) -> Option<u32>>(
        &self,
        before: &Uniform<T>,
        query: &F,
        program: u32,
    ) -> bool {
        &&& self.name_view() == before.name_view()
        &&& self.value_view() == before.value_view()
        &&& self.texture_index_view() == before.texture_index_view()
        &&& self.is_resolved()
        &&& if before.is_resolved() {
            self.location_view() == before.location_view()
        } else {
            answered(query, program, before.name_view(), self.location_view())
        }
    }

    /// Looks up the uniform's location in `program` and saves it for future use. The
    /// query is made once in the life of the uniform: a second lookup asks nothing.
    pub fn lookup_location<F: Fn(u32, &str) -> Option<u32>>(&mut self, query: &F, program: u32)
        requires
            !old(self).is_resolved() ==> forall|name: &str| #[trigger] query.requires((program, name)),
        ensures
            final(self).looked_up(old(self), query, program),
    {
        if !self.resolved {
            self.location = query(program, self.name.as_str());
            self.resolved = true;
        }
    }

    /// Chooses the graphics call that uploads the uniform (to be made at render
    /// time, with the right program in use). A uniform that cannot be uploaded
    /// is reported with the reason: a texture without a texture unit as
    /// `Error::MissingTextureUnit`, a texture that is not constructed as
    /// `Error::UnconstructedValue`, a uniform without a location as
    /// `Error::UnresolvedLocation`.
    pub fn set_to_context(&self) -> (call: Result<UniformCall, Error>)
        ensures
            call == self.value_view().upload_call(self.location_view(), self.texture_index_view()),
    {
        self.value.set_to_context_as_uniform(self.location, self.texture_index)
    }
}

/// The locations of the four fields of one light in an array of lights.
#[derive(Clone, Copy, Debug, PartialEq, Eq)]
pub struct LightUniformLocations {
    pub color: Option<u32>,
    pub intensity: Option<u32>,
    pub attenuation: Option<u32>,
    pub position_or_direction: Option<u32>,
}

/// Whether `slot` holds answers of `query` for the four fields of element `index` of `array`.
pub open spec fn light_slot_answered<F: Fn(u32, &str) -> Option<u32>>(
    query: &F,
    program: u32,
    array: Seq<char>,
    index: nat,
    slot: LightUniformLocations,
) -> bool {
    &&& answered(query, program, element_field_name(array, index, LIGHT_COLOR_NAME@), slot.color)
    &&& answered(query, program, element_field_name(array, index, LIGHT_INTENSITY_NAME@), slot.intensity)
    &&& answered(query, program, element_field_name(array, index, LIGHT_ATTENUATION_NAME@), slot.attenuation)
    &&& answered(
        query,
        program,
        element_field_name(array, index, LIGHT_POSITION_DIRECTION_NAME@),
        slot.position_or_direction,
    )
}

/// Location information for the uniforms every material may have: the camera
/// matrices, the world transform and the lights.
pub struct GlobalUniformLocations {
    pub view_matrix_location: Option<u32>,
    pub projection_matrix_location: Option<u32>,
    pub world_transform_location: Option<u32>,
    pub camera_position_location: Option<u32>,
    pub ambiant_light_location: Option<u32>,
    pub directional_lights_locations: Vec<LightUniformLocations>,
    pub point_lights_locations: Vec<LightUniformLocations>,
    /// Set by the first lookup; a later lookup asks nothing.
    pub lookup_done: bool,
}

impl GlobalUniformLocations {
    /// No location is known and none has been asked for.
    pub fn new() -> (locations: GlobalUniformLocations)
        ensures
            !locations.lookup_done,
            locations.view_matrix_location.is_none(),
            locations.projection_matrix_location.is_none(),
            locations.world_transform_location.is_none(),
            locations.camera_position_location.is_none(),
            locations.ambiant_light_location.is_none(),
            locations.directional_lights_locations@.len() == 0,
            locations.point_lights_locations@.len() == 0,
    {
        GlobalUniformLocations {
            view_matrix_location: None,
            projection_matrix_location: None,
            world_transform_location: None,
            camera_position_location: None,
            ambiant_light_location: None,
            directional_lights_locations: Vec::new(),
            point_lights_locations: Vec::new(),
            lookup_done: false,
        }
    }

    /// What the first lookup leaves behind: one answer of `query` for each global
    /// name, and four for each light of the configuration.
    pub open spec fn filled_by<F: Fn(u32, &str) -> Option<u32>>(
        &self,
        query: &F,
        program: u32,
        lights: LightConfiguration,
    ) -> bool {
        &&& self.lookup_done
        &&& answered(query, program, VIEW_MATRIX_NAME@, self.view_matrix_location)
        &&& answered(query, program, PROJECTION_MATRIX_NAME@, self.projection_matrix_location)
        &&& answered(query, program, WORLD_TRANSFORM_NAME@, self.world_transform_location)
        &&& answered(query, program, CAMERA_POSITION_NAME@, self.camera_position_location)
        &&& answered(query, program, AMBIANT_LIGHT_NAME@, self.ambiant_light_location)
        &&& self.directional_lights_locations@.len() == lights.directional
        &&& self.point_lights_locations@.len() == lights.point
        &&& forall|i: int|
            0 <= i < lights.directional ==> light_slot_answered(
                query,
                program,
                DIRECTIONAL_LIGHTS_NAME@,
                i as nat,
                #[trigger] self.directional_lights_locations@[i],
            )
        &&& forall|i: int|
            0 <= i < lights.point ==> light_slot_answered(
                query,
                program,
                POINT_LIGHTS_NAME@,
                i as nat,
                #[trigger] self.point_lights_locations@[i],
            )
    }

    /// Asks for the four locations of element `index` of the array of lights called `array`.
    fn lookup_light<F: Fn(u32, &str) -> Option<u32>>(query: &F, program: u32, array: &str, index: usize) -> (slot:
        LightUniformLocations)
        requires
            forall|name: &str| #[trigger] query.requires((program, name)),
        ensures
            light_slot_answered(query, program, array@, index as nat, slot),
    {
        let color_name = make_element_field_name(array, index, LIGHT_COLOR_NAME);
        let color = query(program, color_name.as_str());
        let intensity_name = make_element_field_name(array, index, LIGHT_INTENSITY_NAME);
        let intensity = query(program, intensity_name.as_str());
        let attenuation_name = make_element_field_name(array, index, LIGHT_ATTENUATION_NAME);
        let attenuation = query(program, attenuation_name.as_str());
        let position_name = make_element_field_name(array, index, LIGHT_POSITION_DIRECTION_NAME);
        let position_or_direction = query(program, position_name.as_str());
        LightUniformLocations { color, intensity, attenuation, position_or_direction }
    }

    /// Asks for the locations of the lights of the array called `array`, from the first to the last.
    fn lookup_lights<F: Fn(u32, &str) -> Option<u32>>(query: &F, program: u32, array: &str, count: usize) -> (slots:
        Vec<LightUniformLocations>)
        requires
            forall|name: &str| #[trigger] query.requires((program, name)),
        ensures
            slots@.len() == count,
            forall|i: int|
                0 <= i < count ==> light_slot_answered(query, program, array@, i as nat, #[trigger] slots@[i]),
    {
        let mut slots: Vec<LightUniformLocations> = Vec::new();
        let mut i: usize = 0;
        while i < count
            invariant
                0 <= i <= count,
                slots@.len() == i,
                forall|name: &str| #[trigger] query.requires((program, name)),
                forall|k: int|
                    0 <= k < i ==> light_slot_answered(query, program, array@, k as nat, #[trigger] slots@[k]),
            decreases count - i,
        {
            let slot = Self::lookup_light(query, program, array, i);
            slots.push(slot);
            i += 1;
        }
        slots
    }

    /// Resolves all global uniform names against `program`.
    /// Only the first call asks anything; every later call leaves the locations as they are.
    pub fn lookup_locations<F: Fn(u32, &str) -> Option<u32>>(
        &mut self,
        query: &F,
        program: u32,
        lights: &LightConfiguration,
    )
        requires
            !old(self).lookup_done ==> forall|name: &str| #[trigger] query.requires((program, name)),
        ensures
            old(self).lookup_done ==> *final(self) == *old(self),
            !old(self).lookup_done ==> final(self).filled_by(query, program, *lights),
    {
        if self.lookup_done {
            return;
        }
        self.view_matrix_location = query(program, VIEW_MATRIX_NAME);
        self.projection_matrix_location = query(program, PROJECTION_MATRIX_NAME);
        self.world_transform_location = query(program, WORLD_TRANSFORM_NAME);
        self.camera_position_location = query(program, CAMERA_POSITION_NAME);
        self.ambiant_light_location = query(program, AMBIANT_LIGHT_NAME);
        self.directional_lights_locations = Self::lookup_lights(
            query,
            program,
            DIRECTIONAL_LIGHTS_NAME,
            lights.directional,
        );
        self.point_lights_locations = Self::lookup_lights(query, program, POINT_LIGHTS_NAME, lights.point);
        self.lookup_done = true;
    }
}

} // verus!
