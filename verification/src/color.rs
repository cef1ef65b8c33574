//! Per-author color assignment: a stable identifier is hashed onto a hue
//! wheel at a fixed lightness, so the same author always gets the same
//! color.

use vstd::prelude::*;

verus! {

/// An RGB color triple.
#[derive(Clone, Copy, Debug, PartialEq, Eq, Structural)]
pub struct Rgb {
    pub red: u8,
    pub green: u8,
    pub blue: u8,
}

/// The lightness, in percent, at which every author color is generated.
pub const AUTHOR_LIGHTNESS: u8 = 70;

/// The RGB triple that hashing `id` at lightness `lightness` yields.
pub uninterp spec fn rgb_of(id: Seq<char>, lightness: u8) -> Rgb;

/// Relies on `colorhash::ColorHash::rgb`: the color is derived from a
/// SHA-256 hash of the identifier mapped onto a hue wheel, at the single
/// configured lightness, so it is a function of the identifier and the
/// lightness alone.
#[verifier::external_body]
fn color_hash_rgb(id: &str, lightness: u8) -> (r: Rgb)
    ensures
        r == rgb_of(id@, lightness),
{
    let c = colorhash::ColorHash::new().lightness(lightness.into()).rgb(id);
    Rgb { red: c.red() as u8, green: c.green() as u8, blue: c.blue() as u8 }
}

/// The color under which an author's name is shown: the hash of the
/// author's stable identifier at the fixed lightness.
pub open spec fn spec_author_color(id: Seq<char>) -> Rgb {
    rgb_of(id, AUTHOR_LIGHTNESS)
}

/// Assigns `id` its stable color.
pub fn author_color(id: &str) -> (r: Rgb)
    ensures
        r == spec_author_color(id@),
{
    color_hash_rgb(id, AUTHOR_LIGHTNESS)
}

} // verus!
