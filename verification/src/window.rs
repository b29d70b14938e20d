//! How the window presents one panel pixel.

use vstd::prelude::*;

use embedded_graphics::pixelcolor::Rgb888;
use embedded_graphics_simulator::{BinaryColorTheme, OutputSettings, OutputSettingsBuilder};

verus! {

/// The simulator's output settings, carried through as they are.
#[verifier::external_type_specification]
#[verifier::external_body]
pub struct ExOutputSettings(OutputSettings);

/// The output settings `embedded_graphics_simulator::OutputSettingsBuilder`
/// builds from a scale of `scale`, a pixel spacing of 0 and a custom theme
/// mapping on to `ink` and off to `paper`: the builder only stores what it is
/// given, so the same values always give the same settings.
pub uninterp spec fn built_settings(scale: u32, ink: (u8, u8, u8), paper: (u8, u8, u8)) -> OutputSettings;

/// Output settings built by `embedded_graphics_simulator::OutputSettingsBuilder`
/// from `scale`, a pixel spacing of 0 and a custom theme mapping on to `ink`
/// and off to `paper`: the value `built_settings` names. What the fields then
/// hold is not stated: the type is opaque here.
#[verifier::external_body]
fn build_settings(scale: u32, ink: (u8, u8, u8), paper: (u8, u8, u8)) -> (s: OutputSettings)
    requires
        scale > 0,
    ensures
        s == built_settings(scale, ink, paper),
{
    OutputSettingsBuilder::new()
        .scale(scale)
        .pixel_spacing(0)
        .theme(BinaryColorTheme::Custom {
            color_on: Rgb888::new(ink.0, ink.1, ink.2),
            color_off: Rgb888::new(paper.0, paper.1, paper.2),
        })
        .build()
}

/// How the window presents one panel pixel at `scale`: no gap between
/// pixels, and ink on paper rather than white on black.
pub fn window_settings(scale: u32) -> (s: OutputSettings)
    requires
        scale > 0,
    ensures
        s == built_settings(scale, (0x1A, 0x1A, 0x1A), (0xF2, 0xF2, 0xEE)),
{
    build_settings(scale, (0x1A, 0x1A, 0x1A), (0xF2, 0xF2, 0xEE))
}

} // verus!
