//! Colours of glyphs, tiles and log lines, as plain red/green/blue triples.
use vstd::prelude::*;

verus! {

/// A 24-bit colour.
#[derive(Clone, Copy, Debug, PartialEq, Eq, Structural)]
pub struct Color {
    pub r: u8,
    pub g: u8,
    pub b: u8,
}

impl Color {
    /// The colour with the given channels.
    pub fn new(r: u8, g: u8, b: u8) -> (c: Color)
        ensures
            c == (Color { r, g, b }),
    {
        Color { r, g, b }
    }
}

/// Black, as a value usable in contracts.
pub open spec fn spec_black() -> Color {
    Color { r: 0, g: 0, b: 0 }
}

/// Black.
#[verifier::when_used_as_spec(spec_black)]
pub fn black() -> (c: Color)
    ensures
        c == spec_black(),
{
    Color { r: 0, g: 0, b: 0 }
}

/// White, as a value usable in contracts.
pub open spec fn spec_white() -> Color {
    Color { r: 255, g: 255, b: 255 }
}

/// White.
#[verifier::when_used_as_spec(spec_white)]
pub fn white() -> (c: Color)
    ensures
        c == spec_white(),
{
    Color { r: 255, g: 255, b: 255 }
}

/// Light grey, as a value usable in contracts.
pub open spec fn spec_light_grey() -> Color {
    Color { r: 159, g: 159, b: 159 }
}

/// Light grey.
#[verifier::when_used_as_spec(spec_light_grey)]
pub fn light_grey() -> (c: Color)
    ensures
        c == spec_light_grey(),
{
    Color { r: 159, g: 159, b: 159 }
}

/// Pure red, as a value usable in contracts.
pub open spec fn spec_red() -> Color {
    Color { r: 255, g: 0, b: 0 }
}

/// Pure red.
#[verifier::when_used_as_spec(spec_red)]
pub fn red() -> (c: Color)
    ensures
        c == spec_red(),
{
    Color { r: 255, g: 0, b: 0 }
}

/// Light red, as a value usable in contracts.
pub open spec fn spec_light_red() -> Color {
    Color { r: 255, g: 63, b: 63 }
}

/// Light red.
#[verifier::when_used_as_spec(spec_light_red)]
pub fn light_red() -> (c: Color)
    ensures
        c == spec_light_red(),
{
    Color { r: 255, g: 63, b: 63 }
}

/// Dark red, as a value usable in contracts.
pub open spec fn spec_dark_red() -> Color {
    Color { r: 191, g: 0, b: 0 }
}

/// Dark red.
#[verifier::when_used_as_spec(spec_dark_red)]
pub fn dark_red() -> (c: Color)
    ensures
        c == spec_dark_red(),
{
    Color { r: 191, g: 0, b: 0 }
}

/// Darker red, as a value usable in contracts.
pub open spec fn spec_darker_red() -> Color {
    Color { r: 127, g: 0, b: 0 }
}

/// Darker red.
#[verifier::when_used_as_spec(spec_darker_red)]
pub fn darker_red() -> (c: Color)
    ensures
        c == spec_darker_red(),
{
    Color { r: 127, g: 0, b: 0 }
}

/// Orange, as a value usable in contracts.
pub open spec fn spec_orange() -> Color {
    Color { r: 255, g: 127, b: 0 }
}

/// Orange.
#[verifier::when_used_as_spec(spec_orange)]
pub fn orange() -> (c: Color)
    ensures
        c == spec_orange(),
{
    Color { r: 255, g: 127, b: 0 }
}

/// Yellow, as a value usable in contracts.
pub open spec fn spec_yellow() -> Color {
    Color { r: 255, g: 255, b: 0 }
}

/// Yellow.
#[verifier::when_used_as_spec(spec_yellow)]
pub fn yellow() -> (c: Color)
    ensures
        c == spec_yellow(),
{
    Color { r: 255, g: 255, b: 0 }
}

/// Light yellow, as a value usable in contracts.
pub open spec fn spec_light_yellow() -> Color {
    Color { r: 255, g: 255, b: 63 }
}

/// Light yellow.
#[verifier::when_used_as_spec(spec_light_yellow)]
pub fn light_yellow() -> (c: Color)
    ensures
        c == spec_light_yellow(),
{
    Color { r: 255, g: 255, b: 63 }
}

/// Light green, as a value usable in contracts.
pub open spec fn spec_light_green() -> Color {
    Color { r: 63, g: 255, b: 63 }
}

/// Light green.
#[verifier::when_used_as_spec(spec_light_green)]
pub fn light_green() -> (c: Color)
    ensures
        c == spec_light_green(),
{
    Color { r: 63, g: 255, b: 63 }
}

/// Desaturated green, as a value usable in contracts.
pub open spec fn spec_desaturated_green() -> Color {
    Color { r: 63, g: 127, b: 63 }
}

/// Desaturated green.
#[verifier::when_used_as_spec(spec_desaturated_green)]
pub fn desaturated_green() -> (c: Color)
    ensures
        c == spec_desaturated_green(),
{
    Color { r: 63, g: 127, b: 63 }
}

/// Darker green, as a value usable in contracts.
pub open spec fn spec_darker_green() -> Color {
    Color { r: 0, g: 127, b: 0 }
}

/// Darker green.
#[verifier::when_used_as_spec(spec_darker_green)]
pub fn darker_green() -> (c: Color)
    ensures
        c == spec_darker_green(),
{
    Color { r: 0, g: 127, b: 0 }
}

/// Sky blue, as a value usable in contracts.
pub open spec fn spec_sky() -> Color {
    Color { r: 0, g: 191, b: 255 }
}

/// Sky blue.
#[verifier::when_used_as_spec(spec_sky)]
pub fn sky() -> (c: Color)
    ensures
        c == spec_sky(),
{
    Color { r: 0, g: 191, b: 255 }
}

/// Light blue, as a value usable in contracts.
pub open spec fn spec_light_blue() -> Color {
    Color { r: 63, g: 63, b: 255 }
}

/// Light blue.
#[verifier::when_used_as_spec(spec_light_blue)]
pub fn light_blue() -> (c: Color)
    ensures
        c == spec_light_blue(),
{
    Color { r: 63, g: 63, b: 255 }
}

/// Violet, as a value usable in contracts.
pub open spec fn spec_violet() -> Color {
    Color { r: 127, g: 0, b: 255 }
}

/// Violet.
#[verifier::when_used_as_spec(spec_violet)]
pub fn violet() -> (c: Color)
    ensures
        c == spec_violet(),
{
    Color { r: 127, g: 0, b: 255 }
}

/// Light violet, as a value usable in contracts.
pub open spec fn spec_light_violet() -> Color {
    Color { r: 159, g: 63, b: 255 }
}

/// Light violet.
#[verifier::when_used_as_spec(spec_light_violet)]
pub fn light_violet() -> (c: Color)
    ensures
        c == spec_light_violet(),
{
    Color { r: 159, g: 63, b: 255 }
}

} // verus!
