use falling_sand::element::{Element, ElementType};
use falling_sand::matrix::{spawn_particle, ParticleMatrix};

fn count_occupied(m: &ParticleMatrix) -> usize {
    let mut n = 0;
    for y in 0..m.height {
        for x in 0..m.width {
            if m.get(x, y).is_some() {
                n += 1;
            }
        }
    }
    n
}

#[test]
fn smallest_brush_paints_one_cell() {
    let mut m = ParticleMatrix::new(9, 9);
    m.paint(4, 4, 10, &Element::new("Sand".to_string()));
    assert_eq!(count_occupied(&m), 1);
    assert!(m.get(4, 4).is_some());
}

#[test]
fn brush_footprint_is_a_square() {
    let mut m = ParticleMatrix::new(9, 9);
    // side 60 covers three cells either side of the center
    m.paint(4, 4, 60, &Element::new("Sand".to_string()));
    assert_eq!(count_occupied(&m), 49);
    for y in 0..9 {
        for x in 0..9 {
            let inside = (1..=7).contains(&x) && (1..=7).contains(&y);
            assert_eq!(m.get(x, y).is_some(), inside);
        }
    }
}

#[test]
fn brush_beyond_the_boundary_only_touches_in_bounds_cells() {
    let mut m = ParticleMatrix::new(8, 8);
    // the largest brush centered on the corner: its footprint sticks out
    // of the grid on two sides and is clipped
    m.paint(0, 0, 100, &Element::new("Sand".to_string()));
    assert_eq!(count_occupied(&m), 36);
    for y in 0..8 {
        for x in 0..8 {
            let inside = x <= 5 && y <= 5;
            assert_eq!(m.get(x, y).is_some(), inside);
        }
    }
}

#[test]
fn oversized_brush_is_clamped() {
    let mut m = ParticleMatrix::new(30, 30);
    m.paint(15, 15, 5000, &Element::new("Stone".to_string()));
    // clamped to side 100: an 11 x 11 footprint
    assert_eq!(count_occupied(&m), 121);
}

#[test]
fn painting_never_overwrites() {
    let mut m = ParticleMatrix::new(5, 5);
    let stone = spawn_particle(&mut m, 2, 2, Element::new("Stone".to_string()));
    m.paint(2, 2, 60, &Element::new("Sand".to_string()));
    // the occupied cell kept its original substance
    assert_eq!(m.get(2, 2), Some(stone));
    let p = m.particles[stone].as_ref().unwrap();
    assert_eq!(p.element.element_type, ElementType::ImmovableSolid);
    assert_eq!(count_occupied(&m), 25);
}

#[test]
fn erase_clears_the_footprint() {
    let mut m = ParticleMatrix::new(9, 9);
    m.paint(4, 4, 100, &Element::new("Sand".to_string()));
    let filled = count_occupied(&m);
    assert!(filled > 0);
    m.paint(4, 4, 60, &Element::new("Erase".to_string()));
    for y in 0..9 {
        for x in 0..9 {
            let inside = (1..=7).contains(&x) && (1..=7).contains(&y);
            assert_eq!(m.get(x, y).is_some(), !inside);
        }
    }
}

#[test]
fn erase_on_empty_cells_creates_nothing() {
    let mut m = ParticleMatrix::new(9, 9);
    m.paint(4, 4, 100, &Element::new("Erase".to_string()));
    assert_eq!(count_occupied(&m), 0);
    assert_eq!(m.particles.len(), 0);
}

#[test]
fn painted_particles_carry_the_selected_element() {
    let mut m = ParticleMatrix::new(5, 5);
    m.paint(2, 2, 30, &Element::new("Water".to_string()));
    for y in 1..=3 {
        for x in 1..=3 {
            let id = m.get(x, y).unwrap();
            let p = m.particles[id].as_ref().unwrap();
            assert_eq!(p.element.element_type, ElementType::Liquid);
            assert_eq!(p.element.element, "Water");
        }
    }
}
