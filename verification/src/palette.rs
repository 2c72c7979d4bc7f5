//! Palette synthesis: a four-color base palette is expanded into the
//! six-entry runtime palette, with a reserved black slot and a chroma-key
//! color derived from the background.

use vstd::prelude::*;

verus! {

/// An RGB color.  Channels are reordered (blue first) only at blit time.
#[derive(Clone, Copy, PartialEq, Eq, Structural, Debug)]
pub struct Color {
    pub r: u8,
    pub g: u8,
    pub b: u8,
}

/// The runtime palette: exactly six colors after synthesis.  Indices 0 to 2
/// are drawn colors, 3 is the reserved black slot, 4 the frame-clear /
/// chroma-key color, 5 the background color of the base palette.
pub type Palette = Vec<Color>;

/// What palette synthesis produces from a four-color base: the three drawn
/// colors, black inserted at index 3, then the background color with its
/// green channel nudged up by one (for chroma keying) inserted at index 4,
/// then the background color itself.
pub open spec fn synthesized(base: Seq<Color>) -> Seq<Color>
    recommends
        base.len() == 4,
        base[3].g < 255,
{
    seq![
        base[0],
        base[1],
        base[2],
        Color { r: 0, g: 0, b: 0 },
        Color { r: base[3].r, g: (base[3].g + 1) as u8, b: base[3].b },
        base[3],
    ]
}

/// Expands a four-color base palette into the six-entry runtime palette.
/// The result is exactly `[c0, c1, c2, black, chroma, c3]` where `chroma` is
/// `c3` with its green channel incremented by one.
pub fn synthesize(base: &[Color; 4]) -> (out: Vec<Color>)
    requires
        base@[3].g < 255,
    ensures
        out@ == synthesized(base@),
        out@.len() == 6,
{
    let c0 = base[0];
    let c1 = base[1];
    let c2 = base[2];
    let c3 = base[3];
    let mut out: Vec<Color> = Vec::new();
    out.push(c0);
    out.push(c1);
    out.push(c2);
    out.push(Color { r: 0, g: 0, b: 0 });
    out.push(Color { r: c3.r, g: c3.g + 1, b: c3.b });
    out.push(c3);
    proof {
        assert(out@ =~= synthesized(base@));
    }
    out
}

/// Selects a base palette from the catalog by index and synthesizes the
/// runtime palette from it; an out-of-range index selects nothing.
pub fn change_palette(catalog: &Vec<[Color; 4]>, index: usize) -> (r: Option<Vec<Color>>)
    requires
        index < catalog@.len() ==> catalog@[index as int]@[3].g < 255,
    ensures
        r is Some <==> index < catalog@.len(),
        index < catalog@.len() ==> r->0@ == synthesized(catalog@[index as int]@),
{
    if index >= catalog.len() {
        return None;
    }
    Some(synthesize(&catalog[index]))
}

} // verus!
