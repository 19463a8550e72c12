//! The lights of one frame, as the lighting pass gathers them and the renderer
//! hands them to the materials.

use vstd::prelude::*;
use crate::component::light::{Cone, Light};
use crate::renderer::uniform::{GlobalUniformLocations, LightUniformLocations};

verus! {

/// The current light configuration: the number of lights of each type.
#[derive(PartialEq, Eq, Clone, Copy, Debug, Structural)]
pub struct LightConfiguration {
    pub directional: usize,
    pub point: usize,
    pub spot: usize,
}

impl Default for LightConfiguration {
    fn default() -> (config: LightConfiguration)
        ensures
            config == (LightConfiguration { directional: 0, point: 0, spot: 0 }),
    {
        LightConfiguration { directional: 0, point: 0, spot: 0 }
    }
}

/// The lights of the current frame, for sharing between the lighting pass and the rendering pass.
pub struct LightRepository<V, T> {
    /// All ambiant lights merged into one; none where the scene has no ambiant light.
    pub ambiant: Option<Light<V, T>>,
    /// The directional lights, each with its direction.
    pub directional: Vec<(Light<V, T>, V)>,
    /// The point lights, each with its position in the world.
    pub point: Vec<(Light<V, T>, V)>,
    /// The spot lights, each with its position in the world, its direction and its cone.
    pub spot: Vec<(Light<V, T>, V, V, Cone<T>)>,
}

/// One of the two arrays of lights a program may have.
#[derive(Clone, Copy, Debug, PartialEq, Eq)]
pub enum LightArray {
    Directional,
    Point,
}

/// A value of the repository that a program takes as a uniform.
#[derive(Clone, Copy, Debug, PartialEq, Eq)]
pub enum LightValue {
    /// The color of the ambiant light with its intensity as fourth component.
    Ambiant,
    /// The color of the light at `index` of `array`.
    Color { array: LightArray, index: usize },
    /// The intensity of the light at `index` of `array`.
    Intensity { array: LightArray, index: usize },
    /// The attenuation of the light at `index` of `array`.
    Attenuation { array: LightArray, index: usize },
    /// The direction of a directional light, the position of a point light.
    PositionOrDirection { array: LightArray, index: usize },
}

/// One upload of a light value to a location of the program in use.
#[derive(Clone, Copy, Debug, PartialEq, Eq)]
pub struct LightUpload {
    pub location: u32,
    pub value: LightValue,
}

/// The upload of `value` if its location is known, nothing otherwise.
pub open spec fn upload_if_located(location: Option<u32>, value: LightValue) -> Seq<LightUpload> {
    match location {
        Some(l) => seq![LightUpload { location: l, value }],
        None => Seq::empty(),
    }
}

/// The uploads of the light at `index` of `array`, as far as `slot` knows
/// their locations: color, intensity, attenuation, then position or direction.
pub open spec fn slot_uploads(array: LightArray, index: usize, slot: LightUniformLocations) -> Seq<LightUpload> {
    upload_if_located(slot.color, LightValue::Color { array, index }) + upload_if_located(
        slot.intensity,
        LightValue::Intensity { array, index },
    ) + upload_if_located(slot.attenuation, LightValue::Attenuation { array, index }) + upload_if_located(
        slot.position_or_direction,
        LightValue::PositionOrDirection { array, index },
    )
}

/// The uploads of the first `count` lights of `array`, one light after the other.
pub open spec fn array_uploads(array: LightArray, count: nat, slots: Seq<LightUniformLocations>) -> Seq<LightUpload>
    decreases count,
{
    if count == 0 {
        Seq::empty()
    } else {
        array_uploads(array, (count - 1) as nat, slots) + slot_uploads(
            array,
            (count - 1) as usize,
            slots[count - 1],
        )
    }
}

/// The smaller of two numbers.
pub open spec fn smaller(a: nat, b: nat) -> nat {
    if a < b {
        a
    } else {
        b
    }
}

impl<V, T> LightRepository<V, T> {
    /// A repository without lights.
    pub fn new() -> (repository: LightRepository<V, T>)
        ensures
            repository.ambiant.is_none(),
            repository.directional@.len() == 0,
            repository.point@.len() == 0,
            repository.spot@.len() == 0,
    {
        LightRepository { ambiant: None, directional: Vec::new(), point: Vec::new(), spot: Vec::new() }
    }

    /// The number of lights of each type in the repository.
    pub fn configuration(&self) -> (configuration: LightConfiguration)
        ensures
            configuration.directional == self.directional@.len(),
            configuration.point == self.point@.len(),
            configuration.spot == self.spot@.len(),
    {
        LightConfiguration {
            directional: self.directional.len(),
            point: self.point.len(),
            spot: self.spot.len(),
        }
    }

    /// The uploads that hand the repository to a material: the ambiant light if
    /// there is one, then the directional lights, then the point lights. A light
    /// for which the material has no slot is left out, and so is every value whose
    /// location is unknown.
    pub open spec fn material_uploads(&self, locations: &GlobalUniformLocations) -> Seq<LightUpload> {
        (if self.ambiant.is_some() {
            upload_if_located(locations.ambiant_light_location, LightValue::Ambiant)
        } else {
            Seq::empty()
        }) + array_uploads(
            LightArray::Directional,
            smaller(self.directional@.len(), locations.directional_lights_locations@.len()),
            locations.directional_lights_locations@,
        ) + array_uploads(
            LightArray::Point,
            smaller(self.point@.len(), locations.point_lights_locations@.len()),
            locations.point_lights_locations@,
        )
    }

    /// Lists the uploads that hand the lights of the repository to a material.
    pub fn set_material_uniforms(&self, locations: &GlobalUniformLocations) -> (uploads: Vec<LightUpload>)
        ensures
            uploads@ == self.material_uploads(locations),
    {
        let mut uploads: Vec<LightUpload> = Vec::new();
        if self.ambiant.is_some() {
            push_if_located(&mut uploads, locations.ambiant_light_location, LightValue::Ambiant);
        }
        let ghost ambiant_part = uploads@;
        let directional = if self.directional.len() < locations.directional_lights_locations.len() {
            self.directional.len()
        } else {
            locations.directional_lights_locations.len()
        };
        let mut i: usize = 0;
        while i < directional
            invariant
                0 <= i <= directional,
                directional <= locations.directional_lights_locations@.len(),
                uploads@ == ambiant_part + array_uploads(
                    LightArray::Directional,
                    i as nat,
                    locations.directional_lights_locations@,
                ),
            decreases directional - i,
        {
            Self::set_light_uniform(&mut uploads, LightArray::Directional, i, &locations.directional_lights_locations[i]);
            i += 1;
        }
        let ghost directional_part = uploads@;
        let point = if self.point.len() < locations.point_lights_locations.len() {
            self.point.len()
        } else {
            locations.point_lights_locations.len()
        };
        let mut j: usize = 0;
        while j < point
            invariant
                0 <= j <= point,
                point <= locations.point_lights_locations@.len(),
                uploads@ == directional_part + array_uploads(
                    LightArray::Point,
                    j as nat,
                    locations.point_lights_locations@,
                ),
            decreases point - j,
        {
            Self::set_light_uniform(&mut uploads, LightArray::Point, j, &locations.point_lights_locations[j]);
            j += 1;
        }
        uploads
    }

    /// Adds the uploads of one light: its color, its intensity, its attenuation and
    /// its position or direction, each where its location is known.
    fn set_light_uniform(uploads: &mut Vec<LightUpload>, array: LightArray, index: usize, slot: &LightUniformLocations)
        ensures
            final(uploads)@ == old(uploads)@ + slot_uploads(array, index, *slot),
    {
        push_if_located(uploads, slot.color, LightValue::Color { array, index });
        push_if_located(uploads, slot.intensity, LightValue::Intensity { array, index });
        push_if_located(uploads, slot.attenuation, LightValue::Attenuation { array, index });
        push_if_located(uploads, slot.position_or_direction, LightValue::PositionOrDirection { array, index });
        assert(uploads@ =~= old(uploads)@ + slot_uploads(array, index, *slot));
    }
}

/// Adds the upload of `value` if its location is known.
fn push_if_located(uploads: &mut Vec<LightUpload>, location: Option<u32>, value: LightValue)
    ensures
        final(uploads)@ == old(uploads)@ + upload_if_located(location, value),
{
    match location {
        Some(l) => {
            uploads.push(LightUpload { location: l, value });
            assert(uploads@ =~= old(uploads)@ + upload_if_located(location, value));
        },
        None => {
            assert(uploads@ =~= old(uploads)@ + upload_if_located(location, value));
        },
    }
}

} // verus!
