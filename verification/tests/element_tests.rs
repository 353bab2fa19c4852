use falling_sand::element::{ColorValue, Element, ElementType};
use falling_sand::placement::PlacementSize;

#[test]
fn water_definition() {
    let e = Element::new("Water".to_string());
    assert_eq!(e.element_type, ElementType::Liquid);
    assert_eq!(e.element, "Water");
    assert_eq!(e.mass, 1000);
    assert_eq!(e.friction, 50);
    assert_eq!(e.dispersion_rate, 5);
    assert_eq!(e.color, ColorValue { r: 0, g: 0, b: 255 });
}

#[test]
fn smoke_definition() {
    let e = Element::new("Smoke".to_string());
    assert_eq!(e.element_type, ElementType::Gas);
    assert_eq!(e.mass, 10);
    assert_eq!(e.friction, 10);
    assert_eq!(e.dispersion_rate, 20);
    assert_eq!(e.color, ColorValue { r: 128, g: 128, b: 128 });
}

#[test]
fn sand_definition() {
    let e = Element::new("Sand".to_string());
    assert_eq!(e.element_type, ElementType::MovableSolid);
    assert_eq!(e.mass, 1500);
    assert_eq!(e.friction, 50);
    assert_eq!(e.dispersion_rate, 5);
    assert_eq!(e.color, ColorValue { r: 255, g: 255, b: 153 });
}

#[test]
fn stone_definition_clamps_friction() {
    let e = Element::new("Stone".to_string());
    assert_eq!(e.element_type, ElementType::ImmovableSolid);
    assert_eq!(e.mass, 5000);
    // the catalog keeps friction a valid percentage
    assert_eq!(e.friction, 100);
    assert_eq!(e.dispersion_rate, 0);
}

#[test]
fn erase_definition() {
    let e = Element::new("Erase".to_string());
    assert_eq!(e.element_type, ElementType::Erase);
    assert_eq!(e.mass, 0);
    assert_eq!(e.color, ColorValue { r: 255, g: 0, b: 0 });
}

#[test]
fn unknown_name_degrades_to_default() {
    let e = Element::new("Lava".to_string());
    assert_eq!(e.element_type, ElementType::ImmovableSolid);
    assert_eq!(e.element, "Lava");
    assert_eq!(e.mass, 1000);
    assert_eq!(e.friction, 50);
    assert_eq!(e.dispersion_rate, 5);
    assert_eq!(e.color, ColorValue { r: 0, g: 0, b: 0 });
}

#[test]
fn empty_name_degrades_to_default() {
    let e = Element::new(String::new());
    assert_eq!(e.element_type, ElementType::ImmovableSolid);
    assert_eq!(e.element, "");
}

#[test]
fn element_clone_is_deep() {
    let e = Element::new("Water".to_string());
    let c = e.clone();
    assert_eq!(c.element, e.element);
    assert_eq!(c.element_type, e.element_type);
    assert_eq!(c.friction, e.friction);
    assert_eq!(c.dispersion_rate, e.dispersion_rate);
}

#[test]
fn color_value_new() {
    let c = ColorValue::new(1, 2, 3);
    assert_eq!(c, ColorValue { r: 1, g: 2, b: 3 });
}

#[test]
fn placement_size_starts_small() {
    let s = PlacementSize::new();
    assert_eq!(s.size, 10);
}

#[test]
fn placement_size_clamps_at_both_ends() {
    let mut s = PlacementSize::new();
    s.decrease();
    assert_eq!(s.size, 10);
    for _ in 0..20 {
        s.increase();
    }
    assert_eq!(s.size, 100);
    s.decrease();
    assert_eq!(s.size, 90);
}
