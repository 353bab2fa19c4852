//! The element catalog: substance categories and their physical parameters.
//!
//! `Element::new` is a pure, deterministic lookup keyed by the substance
//! name. Unknown names degrade to a default immovable solid rather than
//! failing, so a placement controller can never be handed an invalid
//! substance. Parameters that the movement rules read are integers:
//! `friction` and `dispersion_rate` are percentages in `0..=100`, `mass`
//! is in thousandths of a mass unit, and colors are 8-bit channels.

use vstd::prelude::*;

verus! {

/// The substance category, which selects the movement rule.
/// `Erase` is a tool-mode sentinel: it carries element metadata but is
/// never placed into the grid as a particle.
#[derive(Clone, Copy, Debug, PartialEq, Eq, Structural)]
pub enum ElementType {
    Liquid,
    MovableSolid,
    ImmovableSolid,
    Gas,
    Erase,
}

/// A base color, one byte per channel.
#[derive(Clone, Copy, Debug, PartialEq, Eq, Structural)]
pub struct ColorValue {
    pub r: u8,
    pub g: u8,
    pub b: u8,
}

impl ColorValue {
    pub fn new(r: u8, g: u8, b: u8) -> (c: ColorValue)
        ensures
            c == (ColorValue { r, g, b }),
    {
        ColorValue { r, g, b }
    }
}

/// An immutable substance definition: a category, a display name, and the
/// physical parameters the movement rules read. `mass` is in thousandths
/// (currently unused by the movement math but part of the definition),
/// `friction` and `dispersion_rate` are percentages.
pub struct Element {
    pub element_type: ElementType,
    pub element: String,
    pub mass: u32,
    pub friction: u32,
    pub dispersion_rate: u32,
    pub color: ColorValue,
}

impl Element {
    /// The catalog keeps every probability parameter in range: `friction`
    /// and `dispersion_rate` are valid percentages.
    pub open spec fn wf(self) -> bool {
        &&& self.friction <= 100
        &&& self.dispersion_rate <= 100
    }

    /// Looks a substance up by name. Deterministic, no error path:
    /// an unrecognized name yields a default immovable solid.
    ///
    /// Friction is clamped into a valid percentage at construction, so an
    /// out-of-range catalog entry can never make a movement probability
    /// fall outside `[0, 1]`.
    pub fn new(element: String) -> (e: Element)
        ensures
            e.wf(),
            e.element@ == element@,
            element@ == "Water"@ ==> e == (Element {
                element_type: ElementType::Liquid,
                element: e.element,
                mass: 1000,
                friction: 50,
                dispersion_rate: 5,
                color: ColorValue { r: 0, g: 0, b: 255 },
            }),
            element@ == "Smoke"@ ==> e == (Element {
                element_type: ElementType::Gas,
                element: e.element,
                mass: 10,
                friction: 10,
                dispersion_rate: 20,
                color: ColorValue { r: 128, g: 128, b: 128 },
            }),
            element@ == "Sand"@ ==> e == (Element {
                element_type: ElementType::MovableSolid,
                element: e.element,
                mass: 1500,
                friction: 50,
                dispersion_rate: 5,
                color: ColorValue { r: 255, g: 255, b: 153 },
            }),
            element@ == "Stone"@ ==> e == (Element {
                element_type: ElementType::ImmovableSolid,
                element: e.element,
                mass: 5000,
                friction: 100,
                dispersion_rate: 0,
                color: ColorValue { r: 153, g: 153, b: 153 },
            }),
            element@ == "Erase"@ ==> e == (Element {
                element_type: ElementType::Erase,
                element: e.element,
                mass: 0,
                friction: 0,
                dispersion_rate: 0,
                color: ColorValue { r: 255, g: 0, b: 0 },
            }),
            element@ != "Water"@ && element@ != "Smoke"@ && element@ != "Sand"@
                && element@ != "Stone"@ && element@ != "Erase"@ ==> e == (Element {
                element_type: ElementType::ImmovableSolid,
                element: e.element,
                mass: 1000,
                friction: 50,
                dispersion_rate: 5,
                color: ColorValue { r: 0, g: 0, b: 0 },
            }),
    {
        proof {
            reveal_strlit("Water");
            reveal_strlit("Smoke");
            reveal_strlit("Sand");
            reveal_strlit("Stone");
            reveal_strlit("Erase");
            assert(("Water"@).index(0) == 'W' && ("Water"@).index(1) == 'a');
            assert(("Smoke"@).index(0) == 'S' && ("Smoke"@).index(1) == 'm');
            assert(("Sand"@).index(0) == 'S' && ("Sand"@).index(1) == 'a');
            assert(("Stone"@).index(0) == 'S' && ("Stone"@).index(1) == 't');
            assert(("Erase"@).index(0) == 'E' && ("Erase"@).index(1) == 'r');
        }
        let is_water = element == "Water".to_owned();
        let is_smoke = element == "Smoke".to_owned();
        let is_sand = element == "Sand".to_owned();
        let is_stone = element == "Stone".to_owned();
        let is_erase = element == "Erase".to_owned();
        if is_water {
            Element {
                element_type: ElementType::Liquid,
                element,
                mass: 1000,
                friction: 50,
                dispersion_rate: 5,
                color: ColorValue::new(0, 0, 255),
            }
        } else if is_smoke {
            Element {
                element_type: ElementType::Gas,
                element,
                mass: 10,
                friction: 10,
                dispersion_rate: 20,
                color: ColorValue::new(128, 128, 128),
            }
        } else if is_sand {
            Element {
                element_type: ElementType::MovableSolid,
                element,
                mass: 1500,
                friction: 50,
                dispersion_rate: 5,
                color: ColorValue::new(255, 255, 153),
            }
        } else if is_stone {
            Element {
                element_type: ElementType::ImmovableSolid,
                element,
                mass: 5000,
                friction: 100,
                dispersion_rate: 0,
                color: ColorValue::new(153, 153, 153),
            }
        } else if is_erase {
            Element {
                element_type: ElementType::Erase,
                element,
                mass: 0,
                friction: 0,
                dispersion_rate: 0,
                color: ColorValue::new(255, 0, 0),
            }
        } else {
            Element {
                element_type: ElementType::ImmovableSolid,
                element,
                mass: 1000,
                friction: 50,
                dispersion_rate: 5,
                color: ColorValue::new(0, 0, 0),
            }
        }
    }
}

impl Clone for Element {
    fn clone(&self) -> (res: Self)
        ensures
            res == *self,
    {
        Element {
            element_type: self.element_type,
            element: self.element.clone(),
            mass: self.mass,
            friction: self.friction,
            dispersion_rate: self.dispersion_rate,
            color: self.color,
        }
    }
}

} // verus!
