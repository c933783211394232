//! The frame-to-text renderer: brightness, contrast stretch, glyph mapping
//! and the emit loops that build one text frame from one pixel buffer.

use vstd::prelude::*;
use vstd::arithmetic::div_mod::lemma_div_is_ordered;
use crate::config::{Charset, Resolution, spec_charset, spec_scaled_width, spec_scaled_height};
use crate::frame::{GrayFrame, RgbFrame};

verus! {

/// Perceptual brightness of an RGB pixel: `floor((299 R + 587 G + 114 B) / 1000)`.
/// Always within `[0, 255]`.
pub open spec fn spec_luma(r: u8, g: u8, b: u8) -> int {
    (299 * r + 587 * g + 114 * b) / 1000
}

pub proof fn lemma_luma_bounds(r: u8, g: u8, b: u8)
    ensures
        0 <= spec_luma(r, g, b) <= 255,
{
    assert(299 * r + 587 * g + 114 * b <= 255000);
    lemma_div_is_ordered(299 * r + 587 * g + 114 * b, 255000, 1000);
}

/// The weighted-sum brightness of one RGB pixel, as a byte.
pub fn rgb_to_brightness(r: u8, g: u8, b: u8) -> (l: u8)
    ensures
        l == spec_luma(r, g, b),
{
    proof {
        lemma_luma_bounds(r, g, b);
    }
    ((299 * r as u32 + 587 * g as u32 + 114 * b as u32) / 1000) as u8
}

/// Which glyph of a ramp of length `n` a brightness value selects:
/// `floor(luma * (n - 1) / 255)`.
pub open spec fn spec_glyph_index(luma: int, n: int) -> int {
    luma * (n - 1) / 255
}

/// The glyph index is monotone in brightness and always lands inside the ramp.
pub proof fn lemma_glyph_index_monotone(l1: int, l2: int, n: int)
    requires
        0 <= l1 <= l2 <= 255,
        n >= 2,
    ensures
        spec_glyph_index(l1, n) <= spec_glyph_index(l2, n),
        0 <= spec_glyph_index(l1, n) <= n - 1,
        0 <= spec_glyph_index(l2, n) <= n - 1,
{
    assert(l1 * (n - 1) <= l2 * (n - 1)) by (nonlinear_arith)
        requires
            0 <= l1 <= l2,
            n >= 2,
    ;
    lemma_div_is_ordered(l1 * (n - 1), l2 * (n - 1), 255);
    assert(l2 * (n - 1) <= 255 * (n - 1)) by (nonlinear_arith)
        requires
            0 <= l2 <= 255,
            n >= 2,
    ;
    lemma_div_is_ordered(l2 * (n - 1), 255 * (n - 1), 255);
    assert(255 * (n - 1) / 255 == n - 1) by (nonlinear_arith);
    assert(l1 * (n - 1) >= 0) by (nonlinear_arith)
        requires
            0 <= l1,
            n >= 2,
    ;
    assert(l1 * (n - 1) / 255 >= 0) by (nonlinear_arith)
        requires
            l1 * (n - 1) >= 0,
    ;
}

/// Selects the ramp glyph for a brightness value.
pub fn brightness_to_glyph(brightness: u8, ramp: &Vec<char>) -> (c: char)
    requires
        ramp@.len() >= 2,
    ensures
        c == ramp@[spec_glyph_index(brightness as int, ramp@.len() as int)],
{
    let n = ramp.len();
    let b128: u128 = brightness as u128;
    let k128: u128 = (n - 1) as u128;
    proof {
        assert(b128 * k128 <= 255 * k128) by (nonlinear_arith)
            requires
                b128 <= 255,
        ;
    }
    let q: u128 = b128 * k128 / 255;
    proof {
        lemma_glyph_index_monotone(brightness as int, 255, n as int);
        assert(q == spec_glyph_index(brightness as int, n as int));
    }
    ramp[q as usize]
}

/// Selects the glyph of a named charset, as the still-image path does.
pub fn brightness_to_char(brightness: u8, charset: &Charset) -> (c: char)
    ensures
        c == spec_charset(*charset)[spec_glyph_index(
            brightness as int,
            spec_charset(*charset).len() as int,
        )],
{
    let ramp = charset.get_charset();
    brightness_to_glyph(brightness, &ramp)
}

/// The largest byte of a sequence; zero for an empty sequence.
pub open spec fn seq_max(s: Seq<u8>) -> int
    decreases s.len(),
{
    if s.len() == 0 {
        0
    } else if s.last() as int >= seq_max(s.drop_last()) {
        s.last() as int
    } else {
        seq_max(s.drop_last())
    }
}

pub proof fn lemma_seq_max_bounds(s: Seq<u8>)
    ensures
        0 <= seq_max(s) <= 255,
        forall|i: int| 0 <= i < s.len() ==> s[i] <= seq_max(s),
    decreases s.len(),
{
    if s.len() > 0 {
        lemma_seq_max_bounds(s.drop_last());
        assert(forall|i: int| 0 <= i < s.len() - 1 ==> s[i] == s.drop_last()[i]);
    }
}

/// One pixel's contrast-stretched brightness: unchanged when the frame's
/// maximum `m` is zero, otherwise `floor(l * 255 / m)`.
pub open spec fn spec_stretch(l: int, m: int) -> int {
    if m == 0 {
        l
    } else {
        l * 255 / m
    }
}

pub proof fn lemma_stretch_bounds(l: int, m: int)
    requires
        0 <= l <= m,
        m <= 255,
    ensures
        0 <= spec_stretch(l, m) <= 255,
{
    if m != 0 {
        assert(0 <= l * 255 <= m * 255) by (nonlinear_arith)
            requires
                0 <= l <= m,
        ;
        lemma_div_is_ordered(l * 255, m * 255, m);
        assert(m * 255 / m == 255) by (nonlinear_arith)
            requires
                m > 0,
        ;
        assert(l * 255 / m >= 0) by (nonlinear_arith)
            requires
                l * 255 >= 0,
                m > 0,
        ;
    }
}

/// Stretching is the identity when the maximum is already full brightness,
/// and on an all-zero frame, whose maximum is zero, every value is returned
/// unchanged rather than divided by zero.
pub proof fn lemma_stretch_idempotent(l: int)
    requires
        0 <= l <= 255,
    ensures
        spec_stretch(l, 255) == l,
        spec_stretch(l, 0) == l,
{
    assert(l * 255 / 255 == l) by (nonlinear_arith);
}

/// The frame's maximum brightness, found by one pass.
pub fn max_luma(pixels: &Vec<u8>) -> (m: u8)
    ensures
        m as int == seq_max(pixels@),
{
    let mut m: u8 = 0;
    let mut i: usize = 0;
    proof {
        assert(pixels@.subrange(0, 0) =~= Seq::<u8>::empty());
    }
    while i < pixels.len()
        invariant
            i <= pixels@.len(),
            m as int == seq_max(pixels@.subrange(0, i as int)),
        decreases pixels@.len() - i,
    {
        let p = pixels[i];
        proof {
            let pre = pixels@.subrange(0, i as int);
            let post = pixels@.subrange(0, i + 1);
            assert(post.drop_last() =~= pre);
            assert(post.last() == pixels@[i as int]);
        }
        if p > m {
            m = p;
        }
        i = i + 1;
    }
    proof {
        assert(pixels@.subrange(0, pixels@.len() as int) =~= pixels@);
    }
    m
}

/// Relies on String::push: appends exactly one character to the string.
#[verifier::external_body]
fn push_char(s: &mut String, c: char)
    ensures
        final(s)@ == old(s)@.push(c),
{
    s.push(c);
}

/// Per-frame contrast stretch: every pixel rescaled so the maximum observed
/// brightness maps to 255; an all-zero frame is returned unchanged.
pub fn normalize_pixels(pixels: &Vec<u8>) -> (out: Vec<u8>)
    ensures
        out@.len() == pixels@.len(),
        forall|i: int|
            0 <= i < pixels@.len() ==> out@[i] == spec_stretch(
                pixels@[i] as int,
                seq_max(pixels@),
            ),
{
    let m = max_luma(pixels);
    proof {
        lemma_seq_max_bounds(pixels@);
    }
    let mut out: Vec<u8> = Vec::new();
    let mut i: usize = 0;
    while i < pixels.len()
        invariant
            i <= pixels@.len(),
            out@.len() == i,
            m as int == seq_max(pixels@),
            forall|j: int| 0 <= j < pixels@.len() ==> pixels@[j] <= m,
            forall|j: int|
                0 <= j < i ==> out@[j] == spec_stretch(pixels@[j] as int, seq_max(pixels@)),
        decreases pixels@.len() - i,
    {
        let p = pixels[i];
        if m == 0 {
            out.push(p);
        } else {
            proof {
                lemma_stretch_bounds(p as int, m as int);
            }
            out.push(((p as u32) * 255 / (m as u32)) as u8);
        }
        i = i + 1;
    }
    out
}


/// The glyph row a grayscale frame's row `y` renders to, before its line break.
pub open spec fn spec_gray_row(cells: Seq<u8>, m: int, ramp: Seq<char>, y: int, w: int) -> Seq<
    char,
> {
    Seq::new(
        w as nat,
        |x: int|
            ramp[spec_glyph_index(spec_stretch(cells[y * w + x] as int, m), ramp.len() as int)],
    )
}

/// The whole grayscale text frame: `h` rows of `w` glyphs, each row closed by
/// one line break; `m` is the frame's maximum brightness.
pub open spec fn spec_gray_text(cells: Seq<u8>, m: int, ramp: Seq<char>, w: int, h: int) -> Seq<
    char,
>
    decreases h,
{
    if h <= 0 {
        Seq::<char>::empty()
    } else {
        spec_gray_text(cells, m, ramp, w, h - 1) + spec_gray_row(cells, m, ramp, h - 1, w)
            + seq!['\n']
    }
}

/// A grayscale text frame has `h` rows; row `y` occupies the `w + 1` characters
/// starting at `y * (w + 1)` and is its glyph row followed by one line break.
pub proof fn lemma_gray_text_shape(cells: Seq<u8>, m: int, ramp: Seq<char>, w: int, h: int)
    requires
        w >= 0,
        h >= 0,
    ensures
        spec_gray_text(cells, m, ramp, w, h).len() == h * (w + 1),
        forall|y: int|
            0 <= y < h ==> #[trigger] spec_gray_text(cells, m, ramp, w, h).subrange(
                y * (w + 1),
                y * (w + 1) + (w + 1),
            ) == spec_gray_row(cells, m, ramp, y, w) + seq!['\n'],
    decreases h,
{
    if h <= 0 {
        assert(h * (w + 1) == 0) by (nonlinear_arith)
            requires
                h == 0,
        ;
    } else {
        lemma_gray_text_shape(cells, m, ramp, w, h - 1);
        let prev = spec_gray_text(cells, m, ramp, w, h - 1);
        let cur = spec_gray_text(cells, m, ramp, w, h);
        assert(spec_gray_row(cells, m, ramp, h - 1, w).len() == w);
        assert(cur.len() == (h - 1) * (w + 1) + w + 1);
        assert((h - 1) * (w + 1) + (w + 1) == h * (w + 1)) by (nonlinear_arith);
        assert(cur.len() == h * (w + 1));
        assert forall|y: int| 0 <= y < h implies #[trigger] cur.subrange(
            y * (w + 1),
            y * (w + 1) + (w + 1),
        ) == spec_gray_row(cells, m, ramp, y, w) + seq!['\n'] by {
            if y < h - 1 {
                assert(y * (w + 1) + (w + 1) <= (h - 1) * (w + 1)) by (nonlinear_arith)
                    requires
                        0 <= y,
                        y < h - 1,
                        w >= 0,
                ;
                assert(cur.subrange(y * (w + 1), y * (w + 1) + (w + 1)) =~= prev.subrange(
                    y * (w + 1),
                    y * (w + 1) + (w + 1),
                ));
            } else {
                assert(y == h - 1);
                assert(y * (w + 1) >= 0) by (nonlinear_arith)
                    requires
                        0 <= y,
                        w >= 0,
                ;
                assert(cur.subrange(y * (w + 1), y * (w + 1) + (w + 1)) =~= spec_gray_row(
                    cells,
                    m,
                    ramp,
                    y,
                    w,
                ) + seq!['\n']);
            }
        }
    }
}

/// Renders a grayscale pixel buffer that already has its final dimensions:
/// contrast stretch, then one ramp glyph per cell and one line break per row.
#[verifier::loop_isolation(false)]
pub fn render_gray_cells(cells: &Vec<u8>, w: u32, h: u32, ramp: &Vec<char>) -> (out: String)
    requires
        cells@.len() == w * h,
        ramp@.len() >= 2,
    ensures
        out@ == spec_gray_text(cells@, seq_max(cells@), ramp@, w as int, h as int),
{
    // An executable witness that the frame's cell count fits in usize, which
    // bounds the index arithmetic below.
    let total: usize = cells.len();
    let norm = normalize_pixels(cells);
    let ghost m = seq_max(cells@);
    proof {
        lemma_seq_max_bounds(cells@);
    }
    let mut out = String::new();
    let mut y: usize = 0;
    while y < h as usize
        invariant
            y <= h,
            out@ == spec_gray_text(cells@, m, ramp@, w as int, y as int),
        decreases h - y,
    {
        let ghost row = spec_gray_row(cells@, m, ramp@, y as int, w as int);
        let mut x: usize = 0;
        proof {
            assert(row.subrange(0, 0) =~= Seq::<char>::empty());
            assert(out@ =~= spec_gray_text(cells@, m, ramp@, w as int, y as int) + row.subrange(
                0,
                0,
            ));
        }
        while x < w as usize
            invariant
                x <= w,
                out@ == spec_gray_text(cells@, m, ramp@, w as int, y as int) + row.subrange(
                    0,
                    x as int,
                ),
            decreases w - x,
        {
            proof {
                assert(y * (w as int) + x < (w as int) * (h as int)) by (nonlinear_arith)
                    requires
                        0 <= x < w as int,
                        0 <= y < h as int,
                ;
            }
            let idx: usize = y * (w as usize) + x;
            let c = brightness_to_glyph(norm[idx], ramp);
            push_char(&mut out, c);
            proof {
                lemma_stretch_bounds(cells@[idx as int] as int, m);
                assert(row.subrange(0, x + 1) =~= row.subrange(0, x as int).push(row[x as int]));
            }
            x = x + 1;
        }
        push_char(&mut out, '\n');
        proof {
            assert(row.subrange(0, w as int) =~= row);
            assert(out@ =~= spec_gray_text(cells@, m, ramp@, w as int, y as int) + row
                + seq!['\n']);
            assert(out@ == spec_gray_text(cells@, m, ramp@, w as int, y as int + 1));
        }
        y = y + 1;
    }
    out
}


/// The character for one decimal digit.
pub open spec fn spec_digit(d: int) -> char {
    if d == 0 {
        '0'
    } else if d == 1 {
        '1'
    } else if d == 2 {
        '2'
    } else if d == 3 {
        '3'
    } else if d == 4 {
        '4'
    } else if d == 5 {
        '5'
    } else if d == 6 {
        '6'
    } else if d == 7 {
        '7'
    } else if d == 8 {
        '8'
    } else {
        '9'
    }
}

/// The decimal digits of a non-negative number, most significant first,
/// without leading zeros (zero itself is the single digit `0`).
pub open spec fn spec_decimal(n: int) -> Seq<char>
    decreases n,
{
    if n < 10 {
        seq![spec_digit(n)]
    } else {
        spec_decimal(n / 10).push(spec_digit(n % 10))
    }
}

fn digit_to_char(d: u8) -> (c: char)
    requires
        d < 10,
    ensures
        c == spec_digit(d as int),
{
    match d {
        0 => '0',
        1 => '1',
        2 => '2',
        3 => '3',
        4 => '4',
        5 => '5',
        6 => '6',
        7 => '7',
        8 => '8',
        _ => '9',
    }
}

/// Appends the decimal form of a byte.
fn push_decimal(s: &mut String, n: u8)
    ensures
        final(s)@ == old(s)@ + spec_decimal(n as int),
{
    if n >= 100 {
        push_char(s, digit_to_char(n / 100));
        push_char(s, digit_to_char((n / 10) % 10));
        push_char(s, digit_to_char(n % 10));
        proof {
            reveal_with_fuel(spec_decimal, 4);
            vstd::arithmetic::div_mod::lemma_div_denominator(n as int, 10, 10);
            assert((n as int / 10) / 10 == n as int / 100);
            assert(n as int / 100 < 10);
            assert(spec_decimal(n as int) =~= seq![
                spec_digit(n as int / 100),
                spec_digit((n as int / 10) % 10),
                spec_digit(n as int % 10),
            ]);
            assert(final(s)@ =~= old(s)@ + spec_decimal(n as int));
        }
    } else if n >= 10 {
        push_char(s, digit_to_char(n / 10));
        push_char(s, digit_to_char(n % 10));
        proof {
            reveal_with_fuel(spec_decimal, 3);
            assert(spec_decimal(n as int) =~= seq![
                spec_digit(n as int / 10),
                spec_digit(n as int % 10),
            ]);
            assert(final(s)@ =~= old(s)@ + spec_decimal(n as int));
        }
    } else {
        push_char(s, digit_to_char(n));
        proof {
            assert(final(s)@ =~= old(s)@ + spec_decimal(n as int));
        }
    }
}

/// The foreground-color escape that precedes a glyph in RGB mode:
/// `ESC [ 38 ; 2 ; R ; G ; B m` with the raw channel values in decimal.
pub open spec fn spec_color_escape(r: u8, g: u8, b: u8) -> Seq<char> {
    seq!['\u{1b}', '[', '3', '8', ';', '2', ';'] + spec_decimal(r as int) + seq![';']
        + spec_decimal(g as int) + seq![';'] + spec_decimal(b as int) + seq!['m']
}

/// Appends the foreground-color escape for one pixel.
pub fn push_color_escape(s: &mut String, r: u8, g: u8, b: u8)
    ensures
        final(s)@ == old(s)@ + spec_color_escape(r, g, b),
{
    push_char(s, '\u{1b}');
    push_char(s, '[');
    push_char(s, '3');
    push_char(s, '8');
    push_char(s, ';');
    push_char(s, '2');
    push_char(s, ';');
    push_decimal(s, r);
    push_char(s, ';');
    push_decimal(s, g);
    push_char(s, ';');
    push_decimal(s, b);
    push_char(s, 'm');
    proof {
        assert(final(s)@ =~= old(s)@ + spec_color_escape(r, g, b));
    }
}


/// The per-pixel brightness of a packed RGB buffer (three bytes per pixel).
pub open spec fn spec_rgb_lumas(cells: Seq<u8>) -> Seq<u8> {
    Seq::new(
        (cells.len() / 3) as nat,
        |i: int| spec_luma(cells[3 * i], cells[3 * i + 1], cells[3 * i + 2]) as u8,
    )
}

/// What one RGB pixel renders to: its color escape, then the ramp glyph its
/// contrast-stretched brightness selects.
pub open spec fn spec_rgb_cell(r: u8, g: u8, b: u8, m: int, ramp: Seq<char>) -> Seq<char> {
    spec_color_escape(r, g, b).push(
        ramp[spec_glyph_index(spec_stretch(spec_luma(r, g, b), m), ramp.len() as int)],
    )
}

/// The first `x` cells of row `y` of an RGB text frame.
pub open spec fn spec_rgb_row(cells: Seq<u8>, m: int, ramp: Seq<char>, y: int, w: int, x: int) -> Seq<char>
    decreases x,
{
    if x <= 0 {
        Seq::<char>::empty()
    } else {
        spec_rgb_row(cells, m, ramp, y, w, x - 1) + spec_rgb_cell(
            cells[3 * (y * w + x - 1)],
            cells[3 * (y * w + x - 1) + 1],
            cells[3 * (y * w + x - 1) + 2],
            m,
            ramp,
        )
    }
}

/// The whole RGB text frame: `h` rows of `w` cells, each row closed by one
/// line break; `m` is the frame's maximum brightness.
pub open spec fn spec_rgb_text(cells: Seq<u8>, m: int, ramp: Seq<char>, w: int, h: int) -> Seq<char>
    decreases h,
{
    if h <= 0 {
        Seq::<char>::empty()
    } else {
        spec_rgb_text(cells, m, ramp, w, h - 1) + spec_rgb_row(cells, m, ramp, h - 1, w, w)
            + seq!['\n']
    }
}

/// The brightness of every pixel of a packed RGB buffer, in pixel order.
pub fn rgb_lumas(cells: &Vec<u8>) -> (out: Vec<u8>)
    ensures
        out@ == spec_rgb_lumas(cells@),
{
    let total: usize = cells.len();
    let n: usize = total / 3;
    let mut out: Vec<u8> = Vec::new();
    let mut i: usize = 0;
    while i < n
        invariant
            i <= n,
            n == cells@.len() / 3,
            total == cells@.len(),
            out@.len() == i,
            forall|j: int|
                0 <= j < i ==> out@[j] == spec_luma(
                    cells@[3 * j],
                    cells@[3 * j + 1],
                    cells@[3 * j + 2],
                ) as u8,
        decreases n - i,
    {
        proof {
            assert(3 * i + 2 < total) by (nonlinear_arith)
                requires
                    i < n,
                    n == total / 3,
                    total >= 0,
            ;
        }
        let l = rgb_to_brightness(cells[3 * i], cells[3 * i + 1], cells[3 * i + 2]);
        out.push(l);
        i = i + 1;
    }
    proof {
        assert(out@ =~= spec_rgb_lumas(cells@));
    }
    out
}

/// Renders a packed RGB pixel buffer that already has its final dimensions:
/// per-pixel color escapes, glyphs from the contrast-stretched brightness,
/// one line break per row. Color escapes carry the raw, unstretched channels.
#[verifier::loop_isolation(false)]
pub fn render_rgb_cells(cells: &Vec<u8>, w: u32, h: u32, ramp: &Vec<char>) -> (out: String)
    requires
        cells@.len() == 3 * (w * h),
        ramp@.len() >= 2,
    ensures
        out@ == spec_rgb_text(
            cells@,
            seq_max(spec_rgb_lumas(cells@)),
            ramp@,
            w as int,
            h as int,
        ),
{
    // An executable witness that the frame's byte count fits in usize, which
    // bounds the index arithmetic below.
    let total: usize = cells.len();
    let lumas = rgb_lumas(cells);
    let ghost m = seq_max(spec_rgb_lumas(cells@));
    let norm = normalize_pixels(&lumas);
    proof {
        lemma_seq_max_bounds(lumas@);
        assert(lumas@.len() == (3 * (w as int * h as int)) / 3);
        assert((3 * (w as int * h as int)) / 3 == w as int * h as int) by (nonlinear_arith);
    }
    let mut out = String::new();
    let mut y: usize = 0;
    while y < h as usize
        invariant
            y <= h,
            out@ == spec_rgb_text(cells@, m, ramp@, w as int, y as int),
        decreases h - y,
    {
        let mut x: usize = 0;
        while x < w as usize
            invariant
                x <= w,
                y < h,
                out@ == spec_rgb_text(cells@, m, ramp@, w as int, y as int) + spec_rgb_row(
                    cells@,
                    m,
                    ramp@,
                    y as int,
                    w as int,
                    x as int,
                ),
            decreases w - x,
        {
            proof {
                assert(y * (w as int) + x < (w as int) * (h as int)) by (nonlinear_arith)
                    requires
                        0 <= x < w as int,
                        0 <= y < h as int,
                ;
                assert(3 * (y * (w as int) + x) + 2 < 3 * ((w as int) * (h as int)))
                    by (nonlinear_arith)
                    requires
                        y * (w as int) + x < (w as int) * (h as int),
                        0 <= y * (w as int) + x,
                ;
            }
            let idx: usize = y * (w as usize) + x;
            let r = cells[3 * idx];
            let g = cells[3 * idx + 1];
            let b = cells[3 * idx + 2];
            push_color_escape(&mut out, r, g, b);
            proof {
                lemma_luma_bounds(r, g, b);
                lemma_stretch_bounds(lumas@[idx as int] as int, m);
            }
            let c = brightness_to_glyph(norm[idx], ramp);
            push_char(&mut out, c);
            proof {
                let cell = spec_rgb_cell(r, g, b, m, ramp@);
                assert(out@ =~= spec_rgb_text(cells@, m, ramp@, w as int, y as int)
                    + spec_rgb_row(cells@, m, ramp@, y as int, w as int, x as int) + cell);
                assert(out@ == spec_rgb_text(cells@, m, ramp@, w as int, y as int) + spec_rgb_row(
                    cells@,
                    m,
                    ramp@,
                    y as int,
                    w as int,
                    x as int + 1,
                ));
            }
            x = x + 1;
        }
        push_char(&mut out, '\n');
        proof {
            assert(out@ =~= spec_rgb_text(cells@, m, ramp@, w as int, y as int) + spec_rgb_row(
                cells@,
                m,
                ramp@,
                y as int,
                w as int,
                w as int,
            ) + seq!['\n']);
            assert(out@ == spec_rgb_text(cells@, m, ramp@, w as int, y as int + 1));
        }
        y = y + 1;
    }
    out
}


/// The cell count one dimension scales to, never above the source dimension.
pub fn scaled_width(w: u32, r: Resolution) -> (nw: u32)
    requires
        r.wf(),
    ensures
        nw == spec_scaled_width(w as int, r),
        nw <= w,
{
    proof {
        assert(w as int * r.num as int <= u32::MAX as int * u32::MAX as int)
            by (nonlinear_arith)
            requires
                w <= u32::MAX,
                r.num <= u32::MAX,
        ;
    }
    let q: u64 = (w as u64) * (r.num as u64) / (r.den as u64);
    proof {
        assert(w as int * r.num as int <= w as int * r.den as int) by (nonlinear_arith)
            requires
                r.num <= r.den,
                w as int >= 0,
        ;
        lemma_div_is_ordered(
            w as int * r.num as int,
            w as int * r.den as int,
            r.den as int,
        );
        assert(w as int * r.den as int / r.den as int == w as int) by (nonlinear_arith)
            requires
                r.den as int > 0,
        ;
    }
    q as u32
}

/// The row count one dimension scales to; the halving corrects for the
/// aspect ratio of terminal cells. Never above the source dimension.
pub fn scaled_height(h: u32, r: Resolution) -> (nh: u32)
    requires
        r.wf(),
    ensures
        nh == spec_scaled_height(h as int, r),
        nh <= h,
{
    proof {
        assert(h as int * r.num as int <= u32::MAX as int * u32::MAX as int)
            by (nonlinear_arith)
            requires
                h <= u32::MAX,
                r.num <= u32::MAX,
        ;
    }
    let q: u64 = (h as u64) * (r.num as u64) / (2 * r.den as u64);
    proof {
        assert(h as int * r.num as int <= h as int * (2 * r.den as int)) by (nonlinear_arith)
            requires
                r.num <= r.den,
                h as int >= 0,
                r.den >= 1,
        ;
        lemma_div_is_ordered(
            h as int * r.num as int,
            h as int * (2 * r.den as int),
            2 * r.den as int,
        );
        assert(h as int * (2 * r.den as int) / (2 * r.den as int) == h as int)
            by (nonlinear_arith)
            requires
                r.den as int > 0,
        ;
    }
    q as u32
}

/// The pixels `imageops::resize` produces from a single-channel buffer with a
/// triangle filter: a pure function of the input pixels and the dimensions.
pub uninterp spec fn resized_luma(data: Seq<u8>, w: u32, h: u32, nw: u32, nh: u32) -> Seq<u8>;

/// The pixels `imageops::resize` produces from a packed RGB buffer with a
/// triangle filter: a pure function of the input pixels and the dimensions.
pub uninterp spec fn resized_rgb(data: Seq<u8>, w: u32, h: u32, nw: u32, nh: u32) -> Seq<u8>;

/// Relies on image::ImageBuffer::from_raw, which accepts an exactly-sized
/// buffer, and image::imageops::resize, which returns an `nw` by `nh` buffer
/// computed from the input pixels and dimensions alone.
#[verifier::external_body]
fn resize_gray(data: &Vec<u8>, w: u32, h: u32, nw: u32, nh: u32) -> (out: Vec<u8>)
    requires
        data@.len() == w * h,
        1 <= w,
        1 <= h,
        1 <= nw,
        1 <= nh,
    ensures
        out@ == resized_luma(data@, w, h, nw, nh),
        out@.len() == nw * nh,
{
    let img = image::ImageBuffer::<image::Luma<u8>, Vec<u8>>::from_raw(w, h, data.clone())
        .expect("buffer length matches the dimensions");
    image::imageops::resize(&img, nw, nh, image::imageops::FilterType::Triangle).into_raw()
}

/// Relies on image::ImageBuffer::from_raw, which accepts an exactly-sized
/// buffer, and image::imageops::resize, which returns an `nw` by `nh` buffer
/// computed from the input pixels and dimensions alone.
#[verifier::external_body]
fn resize_rgb(data: &Vec<u8>, w: u32, h: u32, nw: u32, nh: u32) -> (out: Vec<u8>)
    requires
        data@.len() == 3 * (w * h),
        1 <= w,
        1 <= h,
        1 <= nw,
        1 <= nh,
    ensures
        out@ == resized_rgb(data@, w, h, nw, nh),
        out@.len() == 3 * (nw * nh),
{
    let img = image::ImageBuffer::<image::Rgb<u8>, Vec<u8>>::from_raw(w, h, data.clone())
        .expect("buffer length matches the dimensions");
    image::imageops::resize(&img, nw, nh, image::imageops::FilterType::Triangle).into_raw()
}

/// What a grayscale frame renders to: resized to the scaled dimensions, then
/// contrast-stretched and mapped to ramp glyphs row by row. A frame whose
/// scaled width or height is zero renders to the empty text.
pub open spec fn spec_process_gray(
    width: u32,
    height: u32,
    data: Seq<u8>,
    r: Resolution,
    ramp: Seq<char>,
) -> Seq<char> {
    let nw = spec_scaled_width(width as int, r);
    let nh = spec_scaled_height(height as int, r);
    if nw <= 0 || nh <= 0 {
        Seq::<char>::empty()
    } else {
        let cells = resized_luma(data, width, height, nw as u32, nh as u32);
        spec_gray_text(cells, seq_max(cells), ramp, nw, nh)
    }
}

/// What an RGB frame renders to: resized, then per-pixel color escapes and
/// glyphs selected by the contrast-stretched brightness. A frame whose scaled
/// width or height is zero renders to the empty text.
pub open spec fn spec_process_rgb(
    width: u32,
    height: u32,
    data: Seq<u8>,
    r: Resolution,
    ramp: Seq<char>,
) -> Seq<char> {
    let nw = spec_scaled_width(width as int, r);
    let nh = spec_scaled_height(height as int, r);
    if nw <= 0 || nh <= 0 {
        Seq::<char>::empty()
    } else {
        let cells = resized_rgb(data, width, height, nw as u32, nh as u32);
        spec_rgb_text(cells, seq_max(spec_rgb_lumas(cells)), ramp, nw, nh)
    }
}

/// Renders one grayscale frame with an arbitrary glyph ramp.
pub fn process_gray_frame(img: &GrayFrame, resolution: Resolution, ramp: &Vec<char>) -> (out:
    String)
    requires
        img.wf(),
        resolution.wf(),
        ramp@.len() >= 2,
    ensures
        out@ == spec_process_gray(img.width, img.height, img.data@, resolution, ramp@),
{
    let nw = scaled_width(img.width, resolution);
    let nh = scaled_height(img.height, resolution);
    if nw == 0 || nh == 0 {
        return String::new();
    }
    let cells = resize_gray(&img.data, img.width, img.height, nw, nh);
    render_gray_cells(&cells, nw, nh, ramp)
}

/// Renders one RGB frame with an arbitrary glyph ramp.
pub fn process_rgb_frame(img: &RgbFrame, resolution: Resolution, ramp: &Vec<char>) -> (out:
    String)
    requires
        img.wf(),
        resolution.wf(),
        ramp@.len() >= 2,
    ensures
        out@ == spec_process_rgb(img.width, img.height, img.data@, resolution, ramp@),
{
    let nw = scaled_width(img.width, resolution);
    let nh = scaled_height(img.height, resolution);
    if nw == 0 || nh == 0 {
        return String::new();
    }
    proof {
        assert(3 * (img.width as int) * (img.height as int) == 3 * (img.width as int
            * img.height as int)) by (nonlinear_arith);
    }
    let cells = resize_rgb(&img.data, img.width, img.height, nw, nh);
    render_rgb_cells(&cells, nw, nh, ramp)
}

/// Renders one grayscale frame with a named charset.
pub fn process_image_grayscale(img: &GrayFrame, resolution: Resolution, charset: &Charset) -> (out:
    String)
    requires
        img.wf(),
        resolution.wf(),
    ensures
        out@ == spec_process_gray(
            img.width,
            img.height,
            img.data@,
            resolution,
            spec_charset(*charset),
        ),
{
    let ramp = charset.get_charset();
    process_gray_frame(img, resolution, &ramp)
}

/// Renders one RGB frame with a named charset.
pub fn process_image_rgb(img: &RgbFrame, resolution: Resolution, charset: &Charset) -> (out:
    String)
    requires
        img.wf(),
        resolution.wf(),
    ensures
        out@ == spec_process_rgb(
            img.width,
            img.height,
            img.data@,
            resolution,
            spec_charset(*charset),
        ),
{
    let ramp = charset.get_charset();
    process_rgb_frame(img, resolution, &ramp)
}

/// A rendered grayscale frame has `floor(h * num/den / 2)` rows, each holding
/// `floor(w * num/den)` glyphs and closed by one line break; a frame either of
/// whose scaled dimensions is zero renders to the empty text.
pub proof fn lemma_process_gray_shape(
    width: u32,
    height: u32,
    data: Seq<u8>,
    r: Resolution,
    ramp: Seq<char>,
)
    requires
        r.wf(),
    ensures
        ({
            let nw = spec_scaled_width(width as int, r);
            let nh = spec_scaled_height(height as int, r);
            let text = spec_process_gray(width, height, data, r, ramp);
            &&& (nw <= 0 || nh <= 0 ==> text.len() == 0)
            &&& (nw > 0 && nh > 0 ==> {
                let cells = resized_luma(data, width, height, nw as u32, nh as u32);
                &&& text.len() == nh * (nw + 1)
                &&& forall|y: int|
                    0 <= y < nh ==> #[trigger] text.subrange(
                        y * (nw + 1),
                        y * (nw + 1) + (nw + 1),
                    ) == spec_gray_row(cells, seq_max(cells), ramp, y, nw) + seq!['\n']
            })
        }),
{
    let nw = spec_scaled_width(width as int, r);
    let nh = spec_scaled_height(height as int, r);
    if nw > 0 && nh > 0 {
        let cells = resized_luma(data, width, height, nw as u32, nh as u32);
        lemma_gray_text_shape(cells, seq_max(cells), ramp, nw, nh);
    }
}


/// How many times a character occurs in a sequence.
pub open spec fn count_char(s: Seq<char>, c: char) -> int
    decreases s.len(),
{
    if s.len() == 0 {
        0
    } else {
        count_char(s.drop_last(), c) + if s.last() == c {
            1int
        } else {
            0int
        }
    }
}

pub proof fn lemma_count_char_append(a: Seq<char>, b: Seq<char>, c: char)
    ensures
        count_char(a + b, c) == count_char(a, c) + count_char(b, c),
    decreases b.len(),
{
    if b.len() == 0 {
        assert(a + b =~= a);
    } else {
        lemma_count_char_append(a, b.drop_last(), c);
        assert((a + b).drop_last() =~= a + b.drop_last());
        assert((a + b).last() == b.last());
    }
}

pub proof fn lemma_count_char_absent(s: Seq<char>, c: char)
    requires
        forall|i: int| 0 <= i < s.len() ==> s[i] != c,
    ensures
        count_char(s, c) == 0,
    decreases s.len(),
{
    if s.len() > 0 {
        assert(forall|i: int| 0 <= i < s.len() - 1 ==> s.drop_last()[i] == s[i]);
        lemma_count_char_absent(s.drop_last(), c);
    }
}

/// Decimal digits are never a line break.
pub proof fn lemma_decimal_no_newline(n: int)
    requires
        n >= 0,
    ensures
        count_char(spec_decimal(n), '\n') == 0,
        spec_decimal(n).len() >= 1,
    decreases n,
{
    if n < 10 {
        reveal_with_fuel(count_char, 2);
        assert(spec_decimal(n) =~= seq![spec_digit(n)]);
        assert(spec_decimal(n).drop_last() =~= Seq::<char>::empty());
    } else {
        lemma_decimal_no_newline(n / 10);
        assert(spec_decimal(n) == spec_decimal(n / 10).push(spec_digit(n % 10)));
        assert(spec_decimal(n).drop_last() =~= spec_decimal(n / 10));
        assert(spec_decimal(n).last() == spec_digit(n % 10));
    }
}

/// A color escape holds no line break.
pub proof fn lemma_escape_no_newline(r: u8, g: u8, b: u8)
    ensures
        count_char(spec_color_escape(r, g, b), '\n') == 0,
{
    let head = seq!['\u{1b}', '[', '3', '8', ';', '2', ';'];
    let semi = seq![';'];
    let tail = seq!['m'];
    lemma_count_char_absent(head, '\n');
    lemma_count_char_absent(semi, '\n');
    lemma_count_char_absent(tail, '\n');
    lemma_decimal_no_newline(r as int);
    lemma_decimal_no_newline(g as int);
    lemma_decimal_no_newline(b as int);
    lemma_count_char_append(head, spec_decimal(r as int), '\n');
    lemma_count_char_append(head + spec_decimal(r as int), semi, '\n');
    lemma_count_char_append(head + spec_decimal(r as int) + semi, spec_decimal(g as int), '\n');
    lemma_count_char_append(head + spec_decimal(r as int) + semi + spec_decimal(g as int), semi, '\n');
    lemma_count_char_append(
        head + spec_decimal(r as int) + semi + spec_decimal(g as int) + semi,
        spec_decimal(b as int),
        '\n',
    );
    lemma_count_char_append(
        head + spec_decimal(r as int) + semi + spec_decimal(g as int) + semi + spec_decimal(
            b as int,
        ),
        tail,
        '\n',
    );
}

/// An RGB text frame holds exactly one line break per row: with a ramp free
/// of line breaks, a frame of `h` rows holds exactly `h` of them, however
/// long each row's escapes are. Together with the ensures of the RGB
/// renderer this pins the row count of a rendered RGB frame.
pub proof fn lemma_rgb_text_row_count(cells: Seq<u8>, ramp: Seq<char>, w: int, h: int)
    requires
        h >= 0,
        w >= 0,
        cells.len() == 3 * (w * h),
        ramp.len() >= 2,
        forall|i: int| 0 <= i < ramp.len() ==> ramp[i] != '\n',
    ensures
        count_char(spec_rgb_text(cells, seq_max(spec_rgb_lumas(cells)), ramp, w, h), '\n') == h,
{
    lemma_rgb_text_row_count_upto(cells, seq_max(spec_rgb_lumas(cells)), ramp, w, h, h);
}

proof fn lemma_rgb_text_row_count_upto(
    cells: Seq<u8>,
    m: int,
    ramp: Seq<char>,
    w: int,
    h: int,
    rows: int,
)
    requires
        0 <= rows <= h,
        w >= 0,
        cells.len() == 3 * (w * h),
        m == seq_max(spec_rgb_lumas(cells)),
        ramp.len() >= 2,
        forall|i: int| 0 <= i < ramp.len() ==> ramp[i] != '\n',
    ensures
        count_char(spec_rgb_text(cells, m, ramp, w, rows), '\n') == rows,
    decreases rows,
{
    if rows > 0 {
        lemma_rgb_text_row_count_upto(cells, m, ramp, w, h, rows - 1);
        assert((rows - 1) * w + w <= w * h) by (nonlinear_arith)
            requires
                0 < rows <= h,
                w >= 0,
        ;
        assert(spec_rgb_lumas(cells).len() == w * h) by {
            assert((3 * (w * h)) / 3 == w * h) by (nonlinear_arith);
        }
        lemma_rgb_row_no_newline(cells, m, ramp, rows - 1, w, w, h);
        let prev = spec_rgb_text(cells, m, ramp, w, rows - 1);
        let row = spec_rgb_row(cells, m, ramp, rows - 1, w, w);
        lemma_count_char_append(prev, row, '\n');
        lemma_count_char_append(prev + row, seq!['\n'], '\n');
        assert(count_char(seq!['\n'], '\n') == 1) by {
            reveal_with_fuel(count_char, 2);
            assert(seq!['\n'].drop_last() =~= Seq::<char>::empty());
        }
    }
}

/// The glyph cells of one RGB row hold no line break when the ramp does not:
/// every escape is digits and punctuation, and every glyph is a ramp glyph.
pub proof fn lemma_rgb_row_no_newline(
    cells: Seq<u8>,
    m: int,
    ramp: Seq<char>,
    y: int,
    w: int,
    x: int,
    h: int,
)
    requires
        0 <= y,
        0 <= x <= w,
        y * w + x <= w * h,
        cells.len() == 3 * (w * h),
        m == seq_max(spec_rgb_lumas(cells)),
        ramp.len() >= 2,
        forall|i: int| 0 <= i < ramp.len() ==> ramp[i] != '\n',
    ensures
        count_char(spec_rgb_row(cells, m, ramp, y, w, x), '\n') == 0,
    decreases x,
{
    if x > 0 {
        lemma_rgb_row_no_newline(cells, m, ramp, y, w, x - 1, h);
        let j = y * w + x - 1;
        let r = cells[3 * j];
        let g = cells[3 * j + 1];
        let b = cells[3 * j + 2];
        let lumas = spec_rgb_lumas(cells);
        assert(lumas.len() == w * h) by {
            assert((3 * (w * h)) / 3 == w * h) by (nonlinear_arith);
        }
        assert(0 <= j < lumas.len()) by (nonlinear_arith)
            requires
                j == y * w + x - 1,
                0 <= y,
                0 < x <= w,
                y * w + x <= w * h,
                lumas.len() == w * h,
        ;
        assert(lumas[j] == spec_luma(r, g, b) as u8);
        lemma_seq_max_bounds(lumas);
        lemma_luma_bounds(r, g, b);
        lemma_stretch_bounds(spec_luma(r, g, b), m);
        let stretched = spec_stretch(spec_luma(r, g, b), m);
        lemma_glyph_index_monotone(stretched, 255, ramp.len() as int);
        let glyph_i = spec_glyph_index(stretched, ramp.len() as int);
        let cell = spec_rgb_cell(r, g, b, m, ramp);
        lemma_escape_no_newline(r, g, b);
        assert(cell.drop_last() =~= spec_color_escape(r, g, b));
        assert(cell.last() == ramp[glyph_i]);
        lemma_count_char_append(spec_rgb_row(cells, m, ramp, y, w, x - 1), cell, '\n');
    }
}

} // verus!
