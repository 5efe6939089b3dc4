use vstd::prelude::*;

verus! {

/// An RGB colour, one byte per channel.
#[derive(Copy, Clone, Eq, PartialEq, Structural, Debug)]
pub struct Color {
    pub r: u8,
    pub g: u8,
    pub b: u8,
}

/// The payload of one voxel: a colour and a brightness scalar.
#[derive(Copy, Clone, Eq, PartialEq, Structural, Debug)]
pub struct PixelState {
    pub color: Color,
    pub bright: u8,
}

/// The canonical "empty" voxel value: black at zero brightness. Every location
/// not otherwise written holds this value.
pub open spec fn spec_empty_pixel() -> PixelState {
    PixelState { color: Color { r: 0, g: 0, b: 0 }, bright: 0 }
}

/// Builds the empty pixel value.
pub fn empty_pixel() -> (r: PixelState)
    ensures
        r == spec_empty_pixel(),
{
    PixelState { color: Color { r: 0, g: 0, b: 0 }, bright: 0 }
}

/// The reduced one-bit rendering of a voxel: lit or dark.
pub type SimplePixelState = bool;

/// A voxel renders as lit exactly when its brightness is positive.
pub fn convert_state_to_simple(pixel: &PixelState) -> (r: SimplePixelState)
    ensures
        r == (pixel.bright > 0),
{
    pixel.bright > 0
}

} // verus!
