use falling_sand::element::{ColorValue, Element, ElementType};
use falling_sand::matrix::{spawn_particle, ParticleMatrix};
use falling_sand::resolver::{simulate_gas, simulate_liquid, simulate_movable_solid};

fn custom(element_type: ElementType, friction: u32, dispersion_rate: u32) -> Element {
    Element {
        element_type,
        element: "Custom".to_string(),
        mass: 1000,
        friction,
        dispersion_rate,
        color: ColorValue { r: 0, g: 0, b: 0 },
    }
}

fn pos(m: &ParticleMatrix, id: usize) -> (usize, usize) {
    let p = m.particles[id].as_ref().unwrap();
    (p.x, p.y)
}

#[test]
fn immovable_solid_never_moves() {
    let mut m = ParticleMatrix::new(5, 5);
    let id = spawn_particle(&mut m, 2, 3, Element::new("Stone".to_string()));
    // surround it with movable neighbors for good measure
    spawn_particle(&mut m, 1, 3, Element::new("Sand".to_string()));
    spawn_particle(&mut m, 3, 3, Element::new("Water".to_string()));
    for _ in 0..20 {
        m.tick();
        assert_eq!(pos(&m, id), (2, 3));
    }
}

#[test]
fn straight_fall_reaches_bottom_in_exactly_y_ticks() {
    let mut m = ParticleMatrix::new(3, 10);
    let id = spawn_particle(&mut m, 1, 9, Element::new("Sand".to_string()));
    for step in 1..=9 {
        m.tick();
        assert_eq!(pos(&m, id), (1, 9 - step));
    }
    // at the floor it stays (both diagonals are at the boundary wall)
    m.tick();
    assert_eq!(pos(&m, id), (1, 0));
}

#[test]
fn liquid_settles_to_the_bottom() {
    let mut m = ParticleMatrix::new(3, 8);
    let id = spawn_particle(&mut m, 1, 7, Element::new("Water".to_string()));
    for step in 1..=7 {
        m.tick();
        assert_eq!(pos(&m, id), (1, 7 - step));
    }
}

#[test]
fn gas_rises_to_the_top() {
    let mut m = ParticleMatrix::new(3, 8);
    let id = spawn_particle(&mut m, 1, 0, Element::new("Smoke".to_string()));
    for step in 1..=7 {
        m.tick();
        assert_eq!(pos(&m, id), (1, step));
    }
    // at the ceiling it can only drift laterally, never leave the top row
    m.tick();
    assert_eq!(pos(&m, id).1, 7);
}

#[test]
fn commit_collision_exactly_one_wins() {
    for _ in 0..100 {
        let mut m = ParticleMatrix::new(3, 2);
        let floor_l = spawn_particle(&mut m, 0, 0, Element::new("Stone".to_string()));
        let floor_r = spawn_particle(&mut m, 2, 0, Element::new("Stone".to_string()));
        let a = spawn_particle(&mut m, 0, 1, Element::new("Sand".to_string()));
        let b = spawn_particle(&mut m, 2, 1, Element::new("Sand".to_string()));
        m.tick();
        let winner = m.get(1, 0).expect("the contested cell must be occupied");
        assert!(winner == a || winner == b);
        if winner == a {
            assert_eq!(pos(&m, b), (2, 1));
            assert_eq!(pos(&m, a), (1, 0));
        } else {
            assert_eq!(pos(&m, a), (0, 1));
            assert_eq!(pos(&m, b), (1, 0));
        }
        // nothing was created or destroyed
        assert_eq!(m.particles.len(), 4);
        assert!(m.particles.iter().all(|p| p.is_some()));
        assert_eq!(pos(&m, floor_l), (0, 0));
        assert_eq!(pos(&m, floor_r), (2, 0));
    }
}

#[test]
fn sand_takes_the_only_free_diagonal() {
    let mut m = ParticleMatrix::new(3, 2);
    spawn_particle(&mut m, 1, 0, Element::new("Stone".to_string()));
    spawn_particle(&mut m, 2, 0, Element::new("Stone".to_string()));
    let id = spawn_particle(&mut m, 1, 1, Element::new("Sand".to_string()));
    m.tick();
    assert_eq!(pos(&m, id), (0, 0));
}

#[test]
fn blocked_sand_stays() {
    let mut m = ParticleMatrix::new(3, 2);
    spawn_particle(&mut m, 0, 0, Element::new("Stone".to_string()));
    spawn_particle(&mut m, 1, 0, Element::new("Stone".to_string()));
    spawn_particle(&mut m, 2, 0, Element::new("Stone".to_string()));
    let id = spawn_particle(&mut m, 1, 1, Element::new("Sand".to_string()));
    for _ in 0..10 {
        m.tick();
        assert_eq!(pos(&m, id), (1, 1));
    }
}

#[test]
fn full_dispersion_liquid_always_bubbles() {
    let mut m = ParticleMatrix::new(3, 3);
    spawn_particle(&mut m, 1, 0, Element::new("Stone".to_string()));
    spawn_particle(&mut m, 0, 1, Element::new("Stone".to_string()));
    spawn_particle(&mut m, 2, 1, Element::new("Stone".to_string()));
    let id = spawn_particle(&mut m, 1, 1, custom(ElementType::Liquid, 50, 100));
    m.tick();
    assert_eq!(pos(&m, id), (1, 2));
}

#[test]
fn zero_dispersion_liquid_never_bubbles() {
    let mut m = ParticleMatrix::new(3, 3);
    spawn_particle(&mut m, 1, 0, Element::new("Stone".to_string()));
    spawn_particle(&mut m, 0, 1, Element::new("Stone".to_string()));
    spawn_particle(&mut m, 2, 1, Element::new("Stone".to_string()));
    let id = spawn_particle(&mut m, 1, 1, custom(ElementType::Liquid, 50, 0));
    for _ in 0..10 {
        m.tick();
        assert_eq!(pos(&m, id), (1, 1));
    }
}

#[test]
fn zero_dispersion_gas_always_sinks() {
    let mut m = ParticleMatrix::new(3, 3);
    spawn_particle(&mut m, 1, 2, Element::new("Stone".to_string()));
    spawn_particle(&mut m, 0, 1, Element::new("Stone".to_string()));
    spawn_particle(&mut m, 2, 1, Element::new("Stone".to_string()));
    let id = spawn_particle(&mut m, 1, 1, custom(ElementType::Gas, 50, 0));
    m.tick();
    assert_eq!(pos(&m, id), (1, 0));
}

#[test]
fn full_dispersion_gas_never_sinks() {
    let mut m = ParticleMatrix::new(3, 3);
    spawn_particle(&mut m, 1, 2, Element::new("Stone".to_string()));
    spawn_particle(&mut m, 0, 1, Element::new("Stone".to_string()));
    spawn_particle(&mut m, 2, 1, Element::new("Stone".to_string()));
    let id = spawn_particle(&mut m, 1, 1, custom(ElementType::Gas, 50, 100));
    for _ in 0..10 {
        m.tick();
        assert_eq!(pos(&m, id), (1, 1));
    }
}

#[test]
fn tick_reports_applied_relocations() {
    let mut m = ParticleMatrix::new(3, 4);
    let id = spawn_particle(&mut m, 1, 3, Element::new("Sand".to_string()));
    let events = m.tick();
    assert_eq!(events.len(), 1);
    assert_eq!(events[0].id, id);
    assert_eq!((events[0].x, events[0].y), (1, 2));
    assert_eq!(pos(&m, id), (1, 2));
}

#[test]
fn tick_reports_nothing_when_nothing_moves() {
    let mut m = ParticleMatrix::new(2, 2);
    spawn_particle(&mut m, 0, 0, Element::new("Stone".to_string()));
    let events = m.tick();
    assert!(events.is_empty());
}

#[test]
fn resolver_prefers_straight_down() {
    let mut m = ParticleMatrix::new(3, 3);
    spawn_particle(&mut m, 1, 2, Element::new("Sand".to_string()));
    // with the cell below empty, both draws give the same target
    assert_eq!(simulate_movable_solid(&m, 1, 2, true), (1, 1));
    assert_eq!(simulate_movable_solid(&m, 1, 2, false), (1, 1));
}

#[test]
fn resolver_diagonal_choice_follows_the_draw() {
    let mut m = ParticleMatrix::new(3, 2);
    spawn_particle(&mut m, 1, 0, Element::new("Stone".to_string()));
    spawn_particle(&mut m, 1, 1, Element::new("Sand".to_string()));
    assert_eq!(simulate_movable_solid(&m, 1, 1, true), (0, 0));
    assert_eq!(simulate_movable_solid(&m, 1, 1, false), (2, 0));
}

#[test]
fn resolver_liquid_spreads_sideways() {
    let mut m = ParticleMatrix::new(3, 2);
    spawn_particle(&mut m, 0, 0, Element::new("Stone".to_string()));
    spawn_particle(&mut m, 1, 0, Element::new("Stone".to_string()));
    spawn_particle(&mut m, 2, 0, Element::new("Stone".to_string()));
    spawn_particle(&mut m, 1, 1, Element::new("Water".to_string()));
    assert_eq!(simulate_liquid(&m, 1, 1, true, false), (0, 1));
    assert_eq!(simulate_liquid(&m, 1, 1, false, false), (2, 1));
}

#[test]
fn resolver_gas_prefers_up() {
    let mut m = ParticleMatrix::new(3, 3);
    spawn_particle(&mut m, 1, 1, Element::new("Smoke".to_string()));
    assert_eq!(simulate_gas(&m, 1, 1, true, false), (1, 2));
    assert_eq!(simulate_gas(&m, 1, 1, false, true), (1, 2));
}

#[test]
fn tick_on_empty_grid_is_noop() {
    let mut m = ParticleMatrix::new(6, 6);
    let events = m.tick();
    assert!(events.is_empty());
    for y in 0..6 {
        for x in 0..6 {
            assert!(m.get(x, y).is_none());
        }
    }
}

#[test]
fn movement_never_creates_or_destroys_particles() {
    let mut m = ParticleMatrix::new(10, 10);
    m.paint(2, 7, 30, &Element::new("Sand".to_string()));
    m.paint(7, 7, 30, &Element::new("Water".to_string()));
    m.paint(5, 1, 30, &Element::new("Smoke".to_string()));
    m.paint(5, 4, 50, &Element::new("Stone".to_string()));
    let live = |m: &ParticleMatrix| m.particles.iter().filter(|p| p.is_some()).count();
    let start = live(&m);
    assert!(start > 0);
    for _ in 0..50 {
        m.tick();
        assert_eq!(live(&m), start);
        // the occupied cells and the live particles stay in bijection
        let mut occupied = 0;
        for y in 0..10 {
            for x in 0..10 {
                if let Some(id) = m.get(x, y) {
                    occupied += 1;
                    let p = m.particles[id].as_ref().unwrap();
                    assert_eq!((p.x, p.y), (x, y));
                }
            }
        }
        assert_eq!(occupied, start);
    }
}

#[test]
fn boundary_acts_as_a_wall() {
    // a movable solid on the floor with free diagonals outside the grid
    let mut m = ParticleMatrix::new(1, 3);
    let id = spawn_particle(&mut m, 0, 2, Element::new("Sand".to_string()));
    m.tick();
    m.tick();
    assert_eq!(pos(&m, id), (0, 0));
    for _ in 0..5 {
        m.tick();
        assert_eq!(pos(&m, id), (0, 0));
    }
}
