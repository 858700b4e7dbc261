//! What the display shows: two indicator lamps.
use vstd::prelude::*;

verus! {

/// The colour of an indicator lamp.
#[derive(Clone, Copy, Debug, PartialEq, Eq, Structural)]
pub enum IndicatorState {
    GRAY,
    RED,
    GREEN,
    BLUE,
}

impl IndicatorState {
    /// Green for on, gray for off.
    pub fn from_bool(v: bool) -> (r: Self)
        ensures
            r == (if v {
                IndicatorState::GREEN
            } else {
                IndicatorState::GRAY
            }),
    {
        if v {
            IndicatorState::GREEN
        } else {
            IndicatorState::GRAY
        }
    }
}

/// The state shown on the display: the blink lamp and the button lamp.
#[derive(Clone, Copy, Debug, PartialEq, Eq, Structural)]
pub struct DisplayState {
    pub indicator1: IndicatorState,
    pub indicator2: IndicatorState,
}

/// Diameter of a lamp, in pixels.
pub const LAMP_SIZE: i32 = 30;

/// The top-left corner of the square that holds a lamp centred on
/// `(x, y)`.
pub fn lamp_origin(x: i32, y: i32) -> (r: (i32, i32))
    requires
        x >= i32::MIN + LAMP_SIZE / 2,
        y >= i32::MIN + LAMP_SIZE / 2,
    ensures
        r.0 == x - LAMP_SIZE / 2,
        r.1 == y - LAMP_SIZE / 2,
{
    (x - LAMP_SIZE / 2, y - LAMP_SIZE / 2)
}

impl DisplayState {
    /// The state with the blink lamp set to `s`.
    pub fn with_indicator1(self, s: IndicatorState) -> (r: Self)
        ensures
            r == (DisplayState { indicator1: s, ..self }),
    {
        DisplayState { indicator1: s, ..self }
    }

    /// The state with the button lamp set to `s`.
    pub fn with_indicator2(self, s: IndicatorState) -> (r: Self)
        ensures
            r == (DisplayState { indicator2: s, ..self }),
    {
        DisplayState { indicator2: s, ..self }
    }

    /// Both lamps off.
    pub fn new() -> (r: Self)
        ensures
            r.indicator1 == IndicatorState::GRAY,
            r.indicator2 == IndicatorState::GRAY,
    {
        DisplayState { indicator1: IndicatorState::GRAY, indicator2: IndicatorState::GRAY }
    }
}

} // verus!
