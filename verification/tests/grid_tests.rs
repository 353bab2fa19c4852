use falling_sand::element::Element;
use falling_sand::matrix::{is_empty, is_in_bounds, spawn_particle, ParticleMatrix};

#[test]
fn new_grid_is_empty() {
    let m = ParticleMatrix::new(4, 3);
    assert_eq!(m.width, 4);
    assert_eq!(m.height, 3);
    for y in 0..3 {
        for x in 0..4 {
            assert!(m.get(x, y).is_none());
            assert!(is_empty(&m, x, y));
        }
    }
}

#[test]
fn bounds_checks() {
    let m = ParticleMatrix::new(4, 3);
    assert!(is_in_bounds(&m, 0, 0));
    assert!(is_in_bounds(&m, 3, 2));
    assert!(!is_in_bounds(&m, 4, 0));
    assert!(!is_in_bounds(&m, 0, 3));
    assert!(!is_in_bounds(&m, -1, 0));
    assert!(!is_in_bounds(&m, 0, -1));
}

#[test]
fn out_of_bounds_queries_degrade() {
    let m = ParticleMatrix::new(4, 3);
    assert!(m.get(99, 99).is_none());
    assert!(!is_empty(&m, 4, 0));
    assert!(!is_empty(&m, 0, 3));
}

#[test]
fn spawn_occupies_exactly_one_cell() {
    let mut m = ParticleMatrix::new(4, 3);
    let id = spawn_particle(&mut m, 2, 1, Element::new("Sand".to_string()));
    assert_eq!(id, 0);
    assert_eq!(m.get(2, 1), Some(id));
    assert!(!is_empty(&m, 2, 1));
    let p = m.particles[id].as_ref().unwrap();
    assert_eq!((p.x, p.y), (2, 1));
    assert_eq!(p.element.element, "Sand");
    for y in 0..3 {
        for x in 0..4 {
            if (x, y) != (2, 1) {
                assert!(m.get(x, y).is_none());
            }
        }
    }
}

#[test]
fn spawned_ids_count_up() {
    let mut m = ParticleMatrix::new(4, 3);
    let a = spawn_particle(&mut m, 0, 0, Element::new("Sand".to_string()));
    let b = spawn_particle(&mut m, 1, 0, Element::new("Water".to_string()));
    assert_eq!((a, b), (0, 1));
    assert_eq!(m.get(0, 0), Some(0));
    assert_eq!(m.get(1, 0), Some(1));
}

#[test]
fn clear_destroys_the_occupant() {
    let mut m = ParticleMatrix::new(4, 3);
    let id = spawn_particle(&mut m, 2, 1, Element::new("Stone".to_string()));
    let erased = m.clear(2, 1);
    assert_eq!(erased, Some(id));
    assert!(m.get(2, 1).is_none());
    assert!(m.particles[id].is_none());
}

#[test]
fn clear_empty_cell_is_noop() {
    let mut m = ParticleMatrix::new(4, 3);
    assert_eq!(m.clear(1, 1), None);
    assert_eq!(m.particles.len(), 0);
}

#[test]
fn clear_out_of_bounds_is_noop() {
    let mut m = ParticleMatrix::new(4, 3);
    assert_eq!(m.clear(100, 100), None);
}

#[test]
fn occupancy_stays_a_bijection() {
    let mut m = ParticleMatrix::new(5, 5);
    for x in 0..5 {
        spawn_particle(&mut m, x, 0, Element::new("Sand".to_string()));
    }
    m.clear(2, 0);
    for _ in 0..5 {
        m.tick();
    }
    // every occupied cell points at a particle whose stored coordinate
    // is that cell, and no particle is referenced twice
    let mut seen = vec![false; m.particles.len()];
    for y in 0..5 {
        for x in 0..5 {
            if let Some(id) = m.get(x, y) {
                let p = m.particles[id].as_ref().unwrap();
                assert_eq!((p.x, p.y), (x, y));
                assert!(!seen[id]);
                seen[id] = true;
            }
        }
    }
}
