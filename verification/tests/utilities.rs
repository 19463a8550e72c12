use wtvr3d::util::name_map::NameMap;
use wtvr3d::util::text::{make_element_field_name, push_decimal, same_text};
use wtvr3d::utils::constants::{
    AMBIANT_LIGHT_NAME, DIRECTIONAL_LIGHTS_NAME, LIGHT_COLOR_NAME, NORMAL_BUFFER_NAME, POINT_LIGHTS_NAME,
    UV_BUFFER_NAME, VERTEX_BUFFER_NAME,
};

#[test]
fn same_text_compares_character_for_character() {
    assert!(same_text("", ""));
    assert!(same_text("vec3", "vec3"));
    assert!(!same_text("vec3", "vec4"));
    assert!(!same_text("vec3", "vec"));
    assert!(!same_text("vec", "vec3"));
    assert!(same_text("lumi\u{e8}re", "lumi\u{e8}re"));
    assert!(!same_text("lumi\u{e8}re", "lumiere"));
}

#[test]
fn decimal_text_of_numbers() {
    let text = |n: usize| {
        let mut s = String::from("x");
        push_decimal(&mut s, n);
        s
    };
    assert_eq!(text(0), "x0");
    assert_eq!(text(7), "x7");
    assert_eq!(text(10), "x10");
    assert_eq!(text(109), "x109");
    assert_eq!(text(4294967295), "x4294967295");
    assert_eq!(text(usize::MAX), format!("x{}", usize::MAX));
}

#[test]
fn element_field_names() {
    assert_eq!(make_element_field_name("u_dir_lights", 0, "color"), "u_dir_lights[0].color");
    assert_eq!(make_element_field_name(POINT_LIGHTS_NAME, 12, LIGHT_COLOR_NAME), "u_point_lights[12].color");
    assert_eq!(make_element_field_name("", 3, ""), "[3].");
    assert_eq!(DIRECTIONAL_LIGHTS_NAME, "u_dir_lights");
    assert_eq!(AMBIANT_LIGHT_NAME, "u_ambiant_light");
    assert_eq!(VERTEX_BUFFER_NAME, "a_position");
    assert_eq!(NORMAL_BUFFER_NAME, "a_normal");
    assert_eq!(UV_BUFFER_NAME, "a_tex_coordinates");
}

#[test]
fn name_map_keeps_insertion_order_and_replaces_in_place() {
    let mut map: NameMap<i32> = NameMap::new();
    assert_eq!(map.len(), 0);
    assert_eq!(map.get("a"), None);
    map.insert("a".to_string(), 1);
    map.insert("b".to_string(), 2);
    map.insert("c".to_string(), 3);
    map.insert("b".to_string(), 20);
    assert_eq!(map.len(), 3);
    assert_eq!(map.find("a"), Some(0));
    assert_eq!(map.find("b"), Some(1));
    assert_eq!(map.find("c"), Some(2));
    assert_eq!(map.find("d"), None);
    assert_eq!(map.get("b"), Some(&20));
    assert!(map.contains_key("c"));
    assert!(!map.contains_key("B"));
    assert_eq!(map.name_at(2), "c");
    assert_eq!(*map.value_at(2), 3);
    map.set_value_at(0, 10);
    *map.value_at_mut(2) += 27;
    assert_eq!(map.get("a"), Some(&10));
    assert_eq!(map.get("c"), Some(&30));
}
