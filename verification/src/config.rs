//! Conversion settings: color mode, glyph ramp, resolution scale and frame rate.

use vstd::prelude::*;

verus! {

/// Whether rendered text carries foreground-color escapes or plain glyphs.
#[derive(Clone, Copy, PartialEq, Eq, Structural, Debug)]
pub enum ColorMode {
    RGB,
    Grayscale,
}

/// A named glyph ramp, ordered from visually darkest to brightest.
#[derive(Clone, Copy, PartialEq, Eq, Structural, Debug)]
pub enum Charset {
    Simple,
    Detailed,
    Braille,
    Blocks,
}

/// The glyphs of each ramp, darkest first.
pub open spec fn spec_charset(c: Charset) -> Seq<char> {
    match c {
        Charset::Simple => seq![' ', '.', '~', ':', '*', '#', '@'],
        Charset::Detailed => seq![' ', '.', '^', '~', ':', '*', '=', '+', '!', '?', '#', '@'],
        Charset::Blocks => seq![' ', '\u{2591}', '\u{2592}', '\u{2593}', '\u{2588}'],
        Charset::Braille => seq![' ', '\u{2810}', '\u{2812}', '\u{283F}', '\u{28FF}'],
    }
}

impl Charset {
    /// The ramp as an owned vector; every ramp holds at least two glyphs.
    pub fn get_charset(&self) -> (ramp: Vec<char>)
        ensures
            ramp@ == spec_charset(*self),
            ramp@.len() >= 2,
    {
        match self {
            Charset::Simple => {
                let v = vec![' ', '.', '~', ':', '*', '#', '@'];
                assert(v@ =~= spec_charset(Charset::Simple));
                v
            },
            Charset::Detailed => {
                let v = vec![' ', '.', '^', '~', ':', '*', '=', '+', '!', '?', '#', '@'];
                assert(v@ =~= spec_charset(Charset::Detailed));
                v
            },
            Charset::Blocks => {
                let v = vec![' ', '\u{2591}', '\u{2592}', '\u{2593}', '\u{2588}'];
                assert(v@ =~= spec_charset(Charset::Blocks));
                v
            },
            Charset::Braille => {
                let v = vec![' ', '\u{2810}', '\u{2812}', '\u{283F}', '\u{28FF}'];
                assert(v@ =~= spec_charset(Charset::Braille));
                v
            },
        }
    }
}

/// A resolution scale factor in (0, 1], kept as the exact ratio `num / den`.
#[derive(Clone, Copy, PartialEq, Eq, Structural, Debug)]
pub struct Resolution {
    pub num: u32,
    pub den: u32,
}

impl Resolution {
    pub open spec fn wf(self) -> bool {
        1 <= self.num <= self.den
    }

    /// Builds the ratio `num / den`; both must be positive and the ratio at most one.
    pub fn new(num: u32, den: u32) -> (r: Resolution)
        requires
            1 <= num <= den,
        ensures
            r.num == num,
            r.den == den,
            r.wf(),
    {
        Resolution { num, den }
    }
}

/// The horizontal cell count of a frame scaled by `r`.
pub open spec fn spec_scaled_width(w: int, r: Resolution) -> int {
    w * r.num / (r.den as int)
}

/// The vertical cell count of a frame scaled by `r`; the extra factor of two
/// compensates for terminal cells being about twice as tall as wide.
pub open spec fn spec_scaled_height(h: int, r: Resolution) -> int {
    h * r.num / (2 * r.den as int)
}

/// Everything one conversion run needs: mode, ramp, scale and display rate.
#[derive(Clone, Copy, PartialEq, Eq, Structural, Debug)]
pub struct RenderConfig {
    pub mode: ColorMode,
    pub charset: Charset,
    pub resolution: Resolution,
    pub framerate: u16,
}

impl RenderConfig {
    pub open spec fn wf(self) -> bool {
        self.resolution.wf() && self.framerate >= 1
    }

    pub fn new(mode: ColorMode, charset: Charset, resolution: Resolution, framerate: u16) -> (c:
        RenderConfig)
        requires
            resolution.wf(),
            framerate >= 1,
        ensures
            c == (RenderConfig { mode, charset, resolution, framerate }),
            c.wf(),
    {
        RenderConfig { mode, charset, resolution, framerate }
    }
}

} // verus!
