use wtvr3d::component::light::{Cone, Direction, Light};
use wtvr3d::renderer::light_repository::{
    LightArray, LightConfiguration, LightRepository, LightUpload, LightValue,
};
use wtvr3d::renderer::uniform::{GlobalUniformLocations, LightUniformLocations};
use wtvr3d::system::lighting_system::{classify, LightKind, LightSource, LightingSystem};

type V3 = (f32, f32, f32);
type L = Light<V3, f32>;

fn light(color: V3, intensity: f32) -> L {
    Light { color, intensity, attenuation: 0.0 }
}

fn darkness() -> L {
    light((0.0, 0.0, 0.0), 0.0)
}

/// The weighted, additive and non-normalized merge of ambiant lights.
fn merge(so_far: L, l: &L) -> L {
    Light {
        color: (
            so_far.color.0 * so_far.intensity + l.color.0 * l.intensity,
            so_far.color.1 * so_far.intensity + l.color.1 * l.intensity,
            so_far.color.2 * so_far.intensity + l.color.2 * l.intensity,
        ),
        intensity: so_far.intensity + l.intensity,
        attenuation: so_far.attenuation,
    }
}

fn ambiant(color: V3, intensity: f32) -> LightSource<V3, f32> {
    LightSource { light: light(color, intensity), direction: None, cone: None, world_position: None }
}

fn run(sources: Vec<LightSource<V3, f32>>) -> (LightRepository<V3, f32>, LightConfiguration) {
    let mut repository = LightRepository::new();
    // what the previous frame left must not leak through
    repository.ambiant = Some(light((9.0, 9.0, 9.0), 9.0));
    repository.directional.push((light((9.0, 9.0, 9.0), 9.0), (9.0, 9.0, 9.0)));
    repository.point.push((light((9.0, 9.0, 9.0), 9.0), (9.0, 9.0, 9.0)));
    let mut configuration = LightConfiguration { directional: 7, point: 7, spot: 7 };
    LightingSystem.run(sources, &mut repository, &mut configuration, darkness(), &merge);
    (repository, configuration)
}

#[test]
fn light_kinds() {
    assert_eq!(classify(true, false, false), LightKind::Directional);
    assert_eq!(classify(true, false, true), LightKind::Directional);
    assert_eq!(classify(false, false, true), LightKind::Point);
    assert_eq!(classify(true, true, true), LightKind::Spot);
    assert_eq!(classify(false, false, false), LightKind::Ambiant);
    assert_eq!(classify(false, true, false), LightKind::Unlit);
    assert_eq!(classify(false, true, true), LightKind::Unlit);
    assert_eq!(classify(true, true, false), LightKind::Unlit);
}

#[test]
fn ambient_merge() {
    let (repository, configuration) =
        run(vec![ambiant((0.0, 1.0, 0.0), 1.0), ambiant((1.0, 0.0, 0.0), 2.0)]);
    let merged = repository.ambiant.expect("there are ambiant lights");
    assert_eq!(merged.color, (2.0, 1.0, 0.0));
    assert_eq!(merged.intensity, 3.0);
    assert_eq!(repository.directional.len(), 0);
    assert_eq!(repository.point.len(), 0);
    assert_eq!(repository.spot.len(), 0);
    assert_eq!(configuration, LightConfiguration { directional: 0, point: 0, spot: 0 });
}

#[test]
fn ambient_merge_weighs_what_was_merged_by_its_intensity() {
    // color = color * intensity + light.color * light.intensity, step by step:
    // (0,0,0)*0 + (1,0,0)*2 = (2,0,0), then (2,0,0)*2 + (0,1,0)*1 = (4,1,0)
    let (repository, _) = run(vec![ambiant((1.0, 0.0, 0.0), 2.0), ambiant((0.0, 1.0, 0.0), 1.0)]);
    let merged = repository.ambiant.expect("there are ambiant lights");
    assert_eq!(merged.color, (4.0, 1.0, 0.0));
    assert_eq!(merged.intensity, 3.0);
    // one light alone comes out with its color weighted by its intensity
    let (repository, _) = run(vec![ambiant((0.5, 0.25, 1.0), 2.0)]);
    let merged = repository.ambiant.unwrap();
    assert_eq!(merged.color, (1.0, 0.5, 2.0));
    assert_eq!(merged.intensity, 2.0);
}

#[test]
fn no_ambient_light_leaves_the_slot_empty() {
    let (repository, configuration) = run(vec![]);
    assert!(repository.ambiant.is_none());
    assert_eq!(repository.directional.len(), 0);
    assert_eq!(repository.point.len(), 0);
    assert_eq!(configuration, LightConfiguration { directional: 0, point: 0, spot: 0 });

    let sun = LightSource {
        light: light((1.0, 1.0, 1.0), 1.0),
        direction: Some(Direction((0.0, -1.0, 0.0))),
        cone: None,
        world_position: None,
    };
    let (repository, _) = run(vec![sun]);
    assert!(repository.ambiant.is_none());
}

#[test]
fn ambient_lights_merge_in_their_order() {
    let calls = std::cell::RefCell::new(Vec::new());
    let recording = |so_far: L, l: &L| {
        calls.borrow_mut().push((so_far.intensity, l.intensity));
        merge(so_far, l)
    };
    let mut repository = LightRepository::new();
    let mut configuration = LightConfiguration::default();
    LightingSystem.run(
        vec![
            ambiant((1.0, 1.0, 1.0), 1.0),
            LightSource {
                light: light((1.0, 1.0, 1.0), 50.0),
                direction: None,
                cone: None,
                world_position: Some((0.0, 0.0, 0.0)),
            },
            ambiant((1.0, 1.0, 1.0), 2.0),
            ambiant((1.0, 1.0, 1.0), 4.0),
        ],
        &mut repository,
        &mut configuration,
        darkness(),
        &recording,
    );
    assert_eq!(*calls.borrow(), vec![(0.0, 1.0), (1.0, 2.0), (3.0, 4.0)]);
    assert_eq!(repository.ambiant.unwrap().intensity, 7.0);
    assert_eq!(configuration.point, 1);
}

#[test]
fn lights_are_sorted_by_kind_and_keep_their_order() {
    let sources = vec![
        LightSource {
            light: light((1.0, 0.0, 0.0), 1.0),
            direction: Some(Direction((0.0, -1.0, 0.0))),
            cone: None,
            world_position: Some((5.0, 5.0, 5.0)),
        },
        LightSource {
            light: light((0.0, 1.0, 0.0), 2.0),
            direction: None,
            cone: None,
            world_position: Some((1.0, 2.0, 3.0)),
        },
        LightSource {
            light: light((0.0, 0.0, 1.0), 3.0),
            direction: Some(Direction((1.0, 0.0, 0.0))),
            cone: Some(Cone { blend: 0.5, angle: 0.25 }),
            world_position: Some((4.0, 5.0, 6.0)),
        },
        // a cone without a direction lights nothing
        LightSource {
            light: light((1.0, 1.0, 1.0), 4.0),
            direction: None,
            cone: Some(Cone { blend: 0.5, angle: 0.25 }),
            world_position: None,
        },
        LightSource {
            light: light((1.0, 1.0, 0.0), 5.0),
            direction: Some(Direction((0.0, 0.0, 1.0))),
            cone: None,
            world_position: None,
        },
        LightSource {
            light: light((0.0, 1.0, 1.0), 6.0),
            direction: None,
            cone: None,
            world_position: Some((7.0, 8.0, 9.0)),
        },
    ];
    let (repository, configuration) = run(sources);
    assert_eq!(configuration, LightConfiguration { directional: 2, point: 2, spot: 1 });
    assert_eq!(repository.configuration(), configuration);
    assert!(repository.ambiant.is_none());
    assert_eq!(repository.directional[0].0.intensity, 1.0);
    assert_eq!(repository.directional[0].1, (0.0, -1.0, 0.0));
    assert_eq!(repository.directional[1].0.intensity, 5.0);
    assert_eq!(repository.directional[1].1, (0.0, 0.0, 1.0));
    assert_eq!(repository.point[0].0.color, (0.0, 1.0, 0.0));
    assert_eq!(repository.point[0].1, (1.0, 2.0, 3.0));
    assert_eq!(repository.point[1].1, (7.0, 8.0, 9.0));
    assert_eq!(repository.spot[0].0.intensity, 3.0);
    assert_eq!(repository.spot[0].1, (4.0, 5.0, 6.0));
    assert_eq!(repository.spot[0].2, (1.0, 0.0, 0.0));
    assert_eq!(repository.spot[0].3.angle, 0.25);
    assert_eq!(repository.spot[0].3.blend, 0.5);
}

fn slot(first: u32) -> LightUniformLocations {
    LightUniformLocations {
        color: Some(first),
        intensity: Some(first + 1),
        attenuation: Some(first + 2),
        position_or_direction: Some(first + 3),
    }
}

#[test]
fn light_uploads_fill_the_slots_the_material_has() {
    let mut repository: LightRepository<V3, f32> = LightRepository::new();
    repository.ambiant = Some(light((1.0, 1.0, 1.0), 1.0));
    for _ in 0..3 {
        repository.directional.push((light((1.0, 1.0, 1.0), 1.0), (0.0, 1.0, 0.0)));
    }
    repository.point.push((light((1.0, 1.0, 1.0), 1.0), (0.0, 1.0, 0.0)));
    let mut locations = GlobalUniformLocations::new();
    locations.ambiant_light_location = Some(1);
    // two slots for three directional lights: the third light is left out
    locations.directional_lights_locations = vec![
        slot(10),
        LightUniformLocations { color: Some(20), intensity: None, attenuation: None, position_or_direction: Some(23) },
    ];
    // two slots for one point light: the second slot is not written
    locations.point_lights_locations = vec![slot(30), slot(40)];
    let d = LightArray::Directional;
    let p = LightArray::Point;
    assert_eq!(
        repository.set_material_uniforms(&locations),
        vec![
            LightUpload { location: 1, value: LightValue::Ambiant },
            LightUpload { location: 10, value: LightValue::Color { array: d, index: 0 } },
            LightUpload { location: 11, value: LightValue::Intensity { array: d, index: 0 } },
            LightUpload { location: 12, value: LightValue::Attenuation { array: d, index: 0 } },
            LightUpload { location: 13, value: LightValue::PositionOrDirection { array: d, index: 0 } },
            LightUpload { location: 20, value: LightValue::Color { array: d, index: 1 } },
            LightUpload { location: 23, value: LightValue::PositionOrDirection { array: d, index: 1 } },
            LightUpload { location: 30, value: LightValue::Color { array: p, index: 0 } },
            LightUpload { location: 31, value: LightValue::Intensity { array: p, index: 0 } },
            LightUpload { location: 32, value: LightValue::Attenuation { array: p, index: 0 } },
            LightUpload { location: 33, value: LightValue::PositionOrDirection { array: p, index: 0 } },
        ]
    );
    repository.ambiant = None;
    locations.ambiant_light_location = Some(1);
    assert_eq!(repository.set_material_uniforms(&locations).len(), 10);
    let empty: LightRepository<V3, f32> = LightRepository::new();
    assert_eq!(empty.set_material_uniforms(&locations), vec![]);
}
