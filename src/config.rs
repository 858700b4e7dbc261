//! Electrical settings of the shared bus for each class of device.
use vstd::prelude::*;

verus! {

/// Clock rate of the display controller, in Hz.
pub const DISPLAY_FREQ: u32 = 16_000_000;

/// Clock rate of the touch controller, in Hz.
pub const TOUCH_FREQ: u32 = 200_000;

/// Level of the clock line while the bus is idle.
#[derive(Clone, Copy, Debug, PartialEq, Eq, Structural)]
pub enum Polarity {
    IdleLow,
    IdleHigh,
}

/// Clock edge on which data is captured.
#[derive(Clone, Copy, Debug, PartialEq, Eq, Structural)]
pub enum Phase {
    CaptureOnFirstTransition,
    CaptureOnSecondTransition,
}

/// Clock settings of the bus for one device.
#[derive(Clone, Copy, Debug, PartialEq, Eq, Structural)]
pub struct SpiConfig {
    pub frequency: u32,
    pub phase: Phase,
    pub polarity: Polarity,
}

/// Settings for the display controller: fast clock, idle low, capture on
/// the first edge.
pub fn init_display_spi_config() -> (r: SpiConfig)
    ensures
        r == (SpiConfig {
            frequency: DISPLAY_FREQ,
            phase: Phase::CaptureOnFirstTransition,
            polarity: Polarity::IdleLow,
        }),
{
    SpiConfig {
        frequency: DISPLAY_FREQ,
        phase: Phase::CaptureOnFirstTransition,
        polarity: Polarity::IdleLow,
    }
}

/// Settings for the touch controller: slow clock, idle low, capture on the
/// first edge.
pub fn init_touch_spi_config() -> (r: SpiConfig)
    ensures
        r == (SpiConfig {
            frequency: TOUCH_FREQ,
            phase: Phase::CaptureOnFirstTransition,
            polarity: Polarity::IdleLow,
        }),
{
    SpiConfig {
        frequency: TOUCH_FREQ,
        phase: Phase::CaptureOnFirstTransition,
        polarity: Polarity::IdleLow,
    }
}

} // verus!
