//! Statistical behavior of the movable-solid lateral choice. The draw is
//! taken with probability `(100 - friction) / 200` for the left
//! diagonal, so friction 0 splits evenly, friction 100 always goes
//! right, and the catalog's default friction of 50 leans right with a
//! quarter of the mass going left.

use falling_sand::element::{ColorValue, Element, ElementType};
use falling_sand::matrix::{spawn_particle, ParticleMatrix};

fn sand_with_friction(friction: u32) -> Element {
    Element {
        element_type: ElementType::MovableSolid,
        element: "Sand".to_string(),
        mass: 1500,
        friction,
        dispersion_rate: 5,
        color: ColorValue { r: 255, g: 255, b: 153 },
    }
}

/// Runs one trial: a movable solid with both diagonals free and nothing
/// else to do. Returns true when it went left.
fn falls_left(friction: u32) -> bool {
    let mut m = ParticleMatrix::new(3, 2);
    spawn_particle(&mut m, 1, 0, Element::new("Stone".to_string()));
    let id = spawn_particle(&mut m, 1, 1, sand_with_friction(friction));
    m.tick();
    let p = m.particles[id].as_ref().unwrap();
    assert!(p.y == 0 && (p.x == 0 || p.x == 2));
    p.x == 0
}

#[test]
fn zero_friction_splits_evenly() {
    let n = 10_000;
    let mut left = 0;
    for _ in 0..n {
        if falls_left(0) {
            left += 1;
        }
    }
    // expectation n/2; allow a generous six-sigma band
    assert!((4700..=5300).contains(&left), "left = {left}");
}

#[test]
fn full_friction_always_goes_right() {
    for _ in 0..1000 {
        assert!(!falls_left(100));
    }
}

#[test]
fn default_friction_leans_right() {
    let n = 10_000;
    let mut left = 0;
    for _ in 0..n {
        if falls_left(50) {
            left += 1;
        }
    }
    // expectation n/4
    assert!((2200..=2800).contains(&left), "left = {left}");
}
