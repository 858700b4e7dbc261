//! Drivers for peripherals that share one serial bus: bus arbitration with
//! per-device clock rates and select lines, framing of display payloads into
//! bounded writes, touch-panel sampling, and a coalescing state channel.

pub mod bus;
pub mod channel;
pub mod config;
pub mod display;
pub mod encode;
pub mod touch;
pub mod ui;
