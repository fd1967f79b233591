//! Classic Winamp 2.x skins (.wsz: a plain zip of BMP sprite sheets).
//!
//! The sheets are extracted into the config dir and served to every window as
//! data-URLs that override the `--skin-*` CSS variables; the generic-window
//! titlebar, its colours and the media-library palette are derived from
//! GEN.BMP / PLEDIT.BMP / GENEX.BMP / PLEDIT.TXT.

use vstd::prelude::*;
use crate::order::{sorted_u64, sort_u64, le_u64, lemma_le_total};
use crate::text::{chars_of, string_from_chars, append_chars, format_hex_color, hex_color};

verus! {

/// A decoded image: `channels` bytes per pixel (3 = RGB, 4 = RGBA), rows top
/// to bottom.
pub struct Pixmap {
    pub width: u32,
    pub height: u32,
    pub channels: u8,
    pub data: Vec<u8>,
}

/// The plain values of a `Pixmap`.
pub struct PixView {
    pub width: u32,
    pub height: u32,
    pub channels: u8,
    pub data: Seq<u8>,
}

impl View for Pixmap {
    type V = PixView;

    open spec fn view(&self) -> PixView {
        PixView { width: self.width, height: self.height, channels: self.channels, data: self.data@ }
    }
}

pub open spec fn pixmap_wf(p: PixView) -> bool {
    &&& p.channels == 3 || p.channels == 4
    &&& p.data.len() >= p.width * p.height * p.channels
}

/// Byte `k` of the pixel at `(x, y)`.
pub open spec fn sample(p: PixView, x: int, y: int, k: int) -> u8 {
    p.data[(y * p.width + x) * p.channels + k]
}

proof fn lemma_pixel_index(p: PixView, x: int, y: int, k: int)
    requires
        pixmap_wf(p),
        0 <= x < p.width,
        0 <= y < p.height,
        0 <= k < p.channels,
    ensures
        0 <= (y * p.width + x) * p.channels + k < p.data.len(),
{
    let w = p.width as int;
    let h = p.height as int;
    let c = p.channels as int;
    assert(y * w + x < h * w) by (nonlinear_arith)
        requires
            0 <= x < w,
            0 <= y < h,
    ;
    assert((y * w + x) * c + k < h * w * c) by (nonlinear_arith)
        requires
            0 <= y * w + x < h * w,
            0 <= k < c,
    ;
    assert(h * w * c == w * h * c) by (nonlinear_arith);
    assert(0 <= (y * w + x) * c) by (nonlinear_arith)
        requires
            0 <= y * w + x,
            0 <= c,
    ;
}

/// The red, green and blue bytes of the pixel at `(x, y)` (`get_pixel`).
pub fn pixel_rgb(p: &Pixmap, x: u32, y: u32) -> (r: (u8, u8, u8))
    requires
        pixmap_wf(p@),
        x < p.width,
        y < p.height,
    ensures
        r == (sample(p@, x as int, y as int, 0), sample(p@, x as int, y as int, 1), sample(
            p@,
            x as int,
            y as int,
            2,
        )),
{
    proof {
        lemma_pixel_index(p@, x as int, y as int, 0);
        lemma_pixel_index(p@, x as int, y as int, 2);
        let (gw, gx, gy, gc) = (p.width as int, x as int, y as int, p.channels as int);
        assert(gy * gw <= gy * gw + gx <= (gy * gw + gx) * gc) by (nonlinear_arith)
            requires
                0 <= gx,
                0 <= gy,
                0 <= gw,
                1 <= gc,
        ;
    }
    let _len = p.data.len();
    let w = p.width as usize;
    let c = p.channels as usize;
    let base = ((y as usize) * w + (x as usize)) * c;
    (p.data[base], p.data[base + 1], p.data[base + 2])
}

/// The image `image::load_from_memory` decodes from `bytes`, as
/// `(width, height, channels, pixel bytes)`.
pub uninterp spec fn decoded_image(bytes: Seq<u8>) -> Option<PixView>;

/// `image::load_from_memory`, with the decoded image turned into plain
/// pixels: 8-bit RGB and RGBA images keep their layout, any other colour type
/// is converted to 8-bit RGBA. The contract names the decoder's result and
/// states that the pixel buffer holds every pixel; which inputs decode is not
/// stated.
#[verifier::external_body]
pub fn decode_image(bytes: &[u8]) -> (r: Option<Pixmap>)
    ensures
        match r {
            Some(p) => pixmap_wf(p@) && decoded_image(bytes@) == Some(p@),
            None => decoded_image(bytes@) is None,
        },
{
    let img = image::load_from_memory(bytes).ok()?;
    let (width, height) = (img.width(), img.height());
    let (channels, data) = match img {
        image::DynamicImage::ImageRgb8(buf) => (3u8, buf.into_raw()),
        image::DynamicImage::ImageRgba8(buf) => (4u8, buf.into_raw()),
        other => (4u8, other.to_rgba8().into_raw()),
    };
    Some(Pixmap { width, height, channels, data })
}

/// The PNG file the `image` crate's encoder writes for a pixel buffer.
pub uninterp spec fn png_encoding(image: PixView) -> Option<Seq<u8>>;

/// Encode an image as PNG (`DynamicImage::write_to` with `ImageFormat::Png`).
/// The buffer must hold exactly the image's pixels: the PNG encoder asserts
/// that length. The contract names the encoder's result; whether it succeeds
/// is not stated.
#[verifier::external_body]
pub fn encode_png(p: &Pixmap) -> (r: Option<Vec<u8>>)
    requires
        pixmap_wf(p@),
        p@.data.len() == p@.width * p@.height * p@.channels,
    ensures
        match r {
            Some(v) => png_encoding(p@) == Some(v@),
            None => png_encoding(p@) is None,
        },
{
    let img = if p.channels == 3 {
        image::DynamicImage::ImageRgb8(image::RgbImage::from_raw(p.width, p.height, p.data.clone())?)
    } else {
        image::DynamicImage::ImageRgba8(image::RgbaImage::from_raw(p.width, p.height, p.data.clone())?)
    };
    let mut png: Vec<u8> = Vec::new();
    img.write_to(&mut std::io::Cursor::new(&mut png), image::ImageFormat::Png).ok()?;
    Some(png)
}

pub open spec fn min_int(a: int, b: int) -> int {
    if a < b {
        a
    } else {
        b
    }
}

/// The rectangle `crop_imm(x, y, w, h)` cuts: the origin is clamped into the
/// image and the size to what is left of it.
pub open spec fn crop_rect(p: PixView, x: int, y: int, w: int, h: int) -> (int, int, int, int) {
    let cx = min_int(x, p.width as int);
    let cy = min_int(y, p.height as int);
    (cx, cy, min_int(w, p.width - cx), min_int(h, p.height - cy))
}

/// The first `n` rows of the rectangle at `(cx, cy)`, `cw` pixels wide, as
/// one buffer: each row is a contiguous run of the source's bytes.
pub open spec fn crop_rows(p: PixView, cx: int, cy: int, cw: int, n: int) -> Seq<u8>
    decreases n,
{
    if n <= 0 {
        Seq::empty()
    } else {
        let row = cy + n - 1;
        crop_rows(p, cx, cy, cw, n - 1) + p.data.subrange(
            (row * p.width + cx) * p.channels,
            (row * p.width + cx + cw) * p.channels,
        )
    }
}

/// The cut-out `image::DynamicImage::crop_imm` returns: the same colour type,
/// with the pixels of the clamped rectangle.
pub open spec fn crop_view(p: PixView, x: int, y: int, w: int, h: int) -> PixView {
    let (cx, cy, cw, ch) = crop_rect(p, x, y, w, h);
    PixView { width: cw as u32, height: ch as u32, channels: p.channels, data: crop_rows(p, cx, cy, cw, ch) }
}

proof fn lemma_crop_rows(p: PixView, cx: int, cy: int, cw: int, n: int)
    requires
        pixmap_wf(p),
        0 <= cx,
        0 <= cw,
        cx + cw <= p.width,
        0 <= cy,
        0 <= n,
        cy + n <= p.height,
    ensures
        crop_rows(p, cx, cy, cw, n).len() == n * (cw * p.channels),
        forall|j: int, i: int, k: int|
            0 <= j < n && 0 <= i < cw && 0 <= k < p.channels ==> #[trigger] crop_rows(p, cx, cy, cw, n)[(j * cw + i)
                * p.channels + k] == p.data[((cy + j) * p.width + cx + i) * p.channels + k],
    decreases n,
{
    let c = p.channels as int;
    let w = p.width as int;
    if n > 0 {
        lemma_crop_rows(p, cx, cy, cw, n - 1);
        let row = cy + n - 1;
        lemma_row_bounds(w, p.height as int, c, cx, cw, row);
        assert(p.width * p.height * p.channels == w * p.height * c);
        let prev = crop_rows(p, cx, cy, cw, n - 1);
        let seg = p.data.subrange((row * w + cx) * c, (row * w + cx + cw) * c);
        assert(seg.len() == cw * c) by (nonlinear_arith)
            requires
                seg.len() == (row * w + cx + cw) * c - (row * w + cx) * c,
        ;
        assert(prev.len() + seg.len() == n * (cw * c)) by (nonlinear_arith)
            requires
                prev.len() == (n - 1) * (cw * c),
                seg.len() == cw * c,
        ;
        let cur = crop_rows(p, cx, cy, cw, n);
        assert forall|j: int, i: int, k: int|
            0 <= j < n && 0 <= i < cw && 0 <= k < c implies #[trigger] cur[(j * cw + i) * c + k] == p.data[((cy
                + j) * w + cx + i) * c + k] by {
            let idx = (j * cw + i) * c + k;
            if j < n - 1 {
                assert(idx < (n - 1) * (cw * c)) by (nonlinear_arith)
                    requires
                        idx == (j * cw + i) * c + k,
                        0 <= j < n - 1,
                        0 <= i < cw,
                        0 <= k < c,
                ;
                assert(0 <= idx) by (nonlinear_arith)
                    requires
                        idx == (j * cw + i) * c + k,
                        0 <= j,
                        0 <= i,
                        0 <= k,
                        0 <= cw,
                        0 <= c,
                ;
                assert(cur[idx] == prev[idx]);
            } else {
                let off = i * c + k;
                assert(idx == prev.len() + off) by (nonlinear_arith)
                    requires
                        idx == (j * cw + i) * c + k,
                        j == n - 1,
                        prev.len() == (n - 1) * (cw * c),
                        off == i * c + k,
                ;
                assert(0 <= off < cw * c) by (nonlinear_arith)
                    requires
                        off == i * c + k,
                        0 <= i < cw,
                        0 <= k < c,
                ;
                assert(cur[idx] == seg[off]);
                assert((row * w + cx) * c + off == ((cy + j) * w + cx + i) * c + k) by (nonlinear_arith)
                    requires
                        row == cy + j,
                        off == i * c + k,
                ;
            }
        }
    }
}

/// Cutting out a rectangle keeps its pixels: pixel `(i, j)` of the cut-out
/// is pixel `(cx + i, cy + j)` of the image, where `(cx, cy, cw, ch)` is the
/// rectangle clamped into the image, and the cut-out is `cw` by `ch`.
pub proof fn law_crop_keeps_pixels(p: PixView, x: int, y: int, w: int, h: int, i: int, j: int, k: int)
    requires
        pixmap_wf(p),
        0 <= x,
        0 <= y,
        0 <= w,
        0 <= h,
        0 <= i < crop_rect(p, x, y, w, h).2,
        0 <= j < crop_rect(p, x, y, w, h).3,
        0 <= k < p.channels,
    ensures
        ({
            let (cx, cy, cw, ch) = crop_rect(p, x, y, w, h);
            let q = crop_view(p, x, y, w, h);
            &&& q.width == cw && q.height == ch && q.channels == p.channels
            &&& cx == if x < p.width { x } else { p.width as int }
            &&& cy == if y < p.height { y } else { p.height as int }
            &&& cw == if w < p.width - cx { w } else { p.width - cx }
            &&& ch == if h < p.height - cy { h } else { p.height - cy }
            &&& sample(q, i, j, k) == sample(p, cx + i, cy + j, k)
        }),
{
    let (cx, cy, cw, ch) = crop_rect(p, x, y, w, h);
    lemma_crop_rows(p, cx, cy, cw, ch);
    let q = crop_view(p, x, y, w, h);
    assert(q.data[(j * cw + i) * p.channels + k] == p.data[((cy + j) * p.width + cx + i) * p.channels + k]);
    assert((j * q.width + i) * q.channels + k == (j * cw + i) * p.channels + k);
    assert(((cy + j) * p.width + (cx + i)) * p.channels + k == ((cy + j) * p.width + cx + i) * p.channels + k);
}

proof fn lemma_row_bounds(w: int, h: int, c: int, cx: int, cw: int, row: int)
    requires
        0 <= cx,
        0 <= cw,
        cx + cw <= w,
        0 <= row < h,
        0 <= c,
    ensures
        0 <= (row * w + cx) * c <= (row * w + cx + cw) * c <= w * h * c,
{
    assert(row * w <= (h - 1) * w) by (nonlinear_arith)
        requires
            0 <= row < h,
            0 <= cx + cw <= w,
    ;
    assert((h - 1) * w == h * w - w) by (nonlinear_arith);
    assert((row * w + cx + cw) * c <= h * w * c) by (nonlinear_arith)
        requires
            row * w + cx + cw <= h * w,
            0 <= c,
    ;
    assert(h * w * c == w * h * c) by (nonlinear_arith);
    assert(0 <= row * w) by (nonlinear_arith)
        requires
            0 <= row,
            0 <= w,
    ;
    assert((row * w + cx) * c <= (row * w + cx + cw) * c) by (nonlinear_arith)
        requires
            0 <= cw,
            0 <= c,
    ;
    assert(0 <= (row * w + cx) * c) by (nonlinear_arith)
        requires
            0 <= row * w + cx,
            0 <= c,
    ;
}

fn push_range(out: &mut Vec<u8>, src: &Vec<u8>, a: usize, b: usize)
    requires
        a <= b <= src.len(),
    ensures
        final(out)@ == old(out)@ + src@.subrange(a as int, b as int),
{
    let ghost o = out@;
    let mut i = a;
    while i < b
        invariant
            a <= i <= b <= src.len(),
            out@ == o + src@.subrange(a as int, i as int),
        decreases b - i,
    {
        out.push(src[i]);
        i += 1;
        assert(out@ =~= o + src@.subrange(a as int, i as int));
    }
}

/// Cut a rectangle out of an image, clamped to its bounds (`crop_imm`).
pub fn crop(p: &Pixmap, x: u32, y: u32, w: u32, h: u32) -> (q: Pixmap)
    requires
        pixmap_wf(p@),
    ensures
        q@ == crop_view(p@, x as int, y as int, w as int, h as int),
        pixmap_wf(q@),
        q@.data.len() == q@.width * q@.height * q@.channels,
{
    let cx = if x < p.width { x } else { p.width };
    let cy = if y < p.height { y } else { p.height };
    let cw = if w < p.width - cx { w } else { p.width - cx };
    let ch = if h < p.height - cy { h } else { p.height - cy };
    let c = p.channels as usize;
    let ghost (gw, gh, gc) = (p.width as int, p.height as int, c as int);
    let mut data: Vec<u8> = Vec::new();
    let mut j: u32 = 0;
    while j < ch
        invariant
            pixmap_wf(p@),
            c == p.channels,
            gw == p.width,
            gh == p.height,
            gc == c,
            (cx as int, cy as int, cw as int, ch as int) == crop_rect(p@, x as int, y as int, w as int, h as int),
            j <= ch,
            data@ == crop_rows(p@, cx as int, cy as int, cw as int, j as int),
            data@.len() == j * (cw * gc),
        decreases ch - j,
    {
        let row = cy + j;
        let _len = p.data.len();
        proof {
            lemma_row_bounds(gw, gh, gc, cx as int, cw as int, row as int);
            let (r, gx, gcw) = (row as int, cx as int, cw as int);
            assert(r * gw <= r * gw + gx <= r * gw + gx + gcw <= (r * gw + gx + gcw) * gc) by (nonlinear_arith)
                requires
                    0 <= gx,
                    0 <= gcw,
                    0 <= r,
                    0 <= gw,
                    1 <= gc,
            ;
        }
        let a = ((row as usize) * (p.width as usize) + (cx as usize)) * c;
        let b = ((row as usize) * (p.width as usize) + (cx as usize) + (cw as usize)) * c;
        push_range(&mut data, &p.data, a, b);
        proof {
            assert(b - a == cw * gc) by (nonlinear_arith)
                requires
                    a == (row * gw + cx) * gc,
                    b == (row * gw + cx + cw) * gc,
            ;
            assert(j * (cw * gc) + cw * gc == (j + 1) * (cw * gc)) by (nonlinear_arith);
        }
        j += 1;
    }
    let q = Pixmap { width: cw, height: ch, channels: p.channels, data };
    proof {
        assert(ch * (cw * gc) == cw * ch * gc) by (nonlinear_arith);
    }
    q
}

/// The character of one base-64 digit in the standard alphabet.
pub open spec fn b64_digit(n: int) -> char {
    if n < 26 {
        (('A' as int) + n) as char
    } else if n < 52 {
        (('a' as int) + n - 26) as char
    } else if n < 62 {
        (('0' as int) + n - 52) as char
    } else if n == 62 {
        '+'
    } else {
        '/'
    }
}

/// Standard base-64 (RFC 4648 alphabet, `=` padding) of `s`: every three
/// bytes become four digits, and a final one or two bytes are padded.
pub open spec fn base64_standard(s: Seq<u8>) -> Seq<char>
    decreases s.len(),
{
    if s.len() == 0 {
        Seq::empty()
    } else if s.len() == 1 {
        seq![b64_digit(s[0] as int / 4), b64_digit((s[0] as int % 4) * 16), '=', '=']
    } else if s.len() == 2 {
        seq![
            b64_digit(s[0] as int / 4),
            b64_digit((s[0] as int % 4) * 16 + s[1] as int / 16),
            b64_digit((s[1] as int % 16) * 4),
            '=',
        ]
    } else {
        seq![
            b64_digit(s[0] as int / 4),
            b64_digit((s[0] as int % 4) * 16 + s[1] as int / 16),
            b64_digit((s[1] as int % 16) * 4 + s[2] as int / 64),
            b64_digit(s[2] as int % 64),
        ] + base64_standard(s.subrange(3, s.len() as int))
    }
}

/// Base-64 encode bytes with the `base64` crate's `STANDARD` engine (standard
/// alphabet, padded), whose output is stated in full.
#[verifier::external_body]
pub fn base64_encode(bytes: &[u8]) -> (r: String)
    ensures
        r@ == base64_standard(bytes@),
{
    base64::Engine::encode(&base64::engine::general_purpose::STANDARD, bytes)
}

pub open spec fn data_url(prefix: Seq<char>, bytes: Seq<u8>) -> Seq<char> {
    prefix + base64_standard(bytes)
}

/// `prefix` followed by the base-64 of `bytes` (a `data:` URL).
pub(crate) fn make_data_url(prefix: &str, bytes: &[u8]) -> (r: String)
    ensures
        r@ == data_url(prefix@, bytes@),
{
    let mut v = chars_of(prefix);
    let b = base64_encode(bytes);
    let bc = chars_of(b.as_str());
    append_chars(&mut v, &bc);
    string_from_chars(&v)
}

/// Red + green + blue of a pixel: three times its brightness.
pub open spec fn brightness3(p: PixView, x: int, y: int) -> int {
    sample(p, x, y, 0) + sample(p, x, y, 1) + sample(p, x, y, 2)
}

/// Sum of `brightness3` over rows `y0 .. y1` of column `x`.
pub open spec fn col_sum(p: PixView, x: int, y0: int, y1: int) -> int
    decreases y1 - y0,
{
    if y1 <= y0 {
        0
    } else {
        col_sum(p, x, y0, y1 - 1) + brightness3(p, x, y1 - 1)
    }
}

/// Sum of `brightness3²` over rows `y0 .. y1` of column `x`.
pub open spec fn col_sq(p: PixView, x: int, y0: int, y1: int) -> int
    decreases y1 - y0,
{
    if y1 <= y0 {
        0
    } else {
        col_sq(p, x, y0, y1 - 1) + brightness3(p, x, y1 - 1) * brightness3(p, x, y1 - 1)
    }
}

/// The brightness variance of column `x` over the title plate's clear band
/// (rows 4..=10), times 441: with `c` = red+green+blue per row, the variance
/// of `c/3` over the 7 rows is `(7·Σc² − (Σc)²) / 441`.
pub open spec fn col_var(p: PixView, x: int) -> int {
    let v = 7 * col_sq(p, x, 4, 11) - col_sum(p, x, 4, 11) * col_sum(p, x, 4, 11);
    if v < 0 {
        0
    } else {
        v
    }
}

/// Columns skipped on the left (the corner piece).
pub const PLATE_LO: u32 = 24;
/// Columns skipped on the right.
pub const PLATE_RIGHT: u32 = 28;

/// The variances of the central columns `24 .. width-28`.
pub open spec fn central_vars(p: PixView) -> Seq<u64> {
    Seq::new((p.width - 52) as nat, |i: int| col_var(p, 24 + i) as u64)
}

/// The adaptive threshold: three times the 35th-percentile central variance,
/// plus 2 (both scaled by 441 like the variances).
pub open spec fn plate_threshold(p: PixView) -> int {
    let c = central_vars(p);
    3 * sorted_u64(c)[(c.len() * 35 / 100) as int] + 882
}

/// `[a, b]` is a maximal run of values at or below `t` within `vals`.
pub open spec fn is_run(vals: Seq<u64>, t: int, a: int, b: int) -> bool {
    &&& 0 <= a <= b < vals.len()
    &&& forall|x: int| a <= x <= b ==> #[trigger] vals[x] <= t
    &&& a == 0 || vals[a - 1] > t
    &&& b == vals.len() - 1 || vals[b + 1] > t
}

/// `r` is the longest maximal run (the first of the longest ones), or `None`
/// when no value is at or below `t`.
pub open spec fn is_best_run(vals: Seq<u64>, t: int, r: Option<(int, int)>) -> bool {
    match r {
        None => forall|a: int, b: int| !is_run(vals, t, a, b),
        Some((a, b)) => {
            &&& is_run(vals, t, a, b)
            &&& forall|a2: int, b2: int|
                #[trigger] is_run(vals, t, a2, b2) ==> b2 - a2 < b - a || (b2 - a2 == b - a && a <= a2)
        },
    }
}

/// The centre X of the title plate in a GEN.BMP titlebar, or `None` when the
/// titlebar is smooth and has no distinct plate: the plate is the widest run
/// of low-variance central columns, unless that run spans more than 45% of the
/// width.
pub open spec fn title_plate_spec(p: PixView) -> Option<u32> {
    if p.width < 80 || p.height < 12 {
        None
    } else {
        let r = choose|r: Option<(int, int)>| is_best_run(central_vars(p), plate_threshold(p), r);
        match r {
            None => None,
            Some((a, b)) => if 20 * (b - a + 1) > 9 * p.width {
                None
            } else {
                Some(((24 + a as u64 + 24 + b as u64) / 2) as u32)
            },
        }
    }
}

/// A smooth titlebar (every central column alike) is not mistaken for a
/// plate: its one low-variance run spans the whole centre. This holds from a
/// width of 95 pixels; a narrower centre is under 45% of the width, so there
/// the whole smooth centre reads as a plate.
pub proof fn law_smooth_titlebar_has_no_plate(p: PixView)
    requires
        p.width >= 95,
        forall|x: int| 24 <= x < p.width - 28 ==> #[trigger] col_var(p, x) == col_var(p, 24),
    ensures
        title_plate_spec(p) is None,
{
    let c = central_vars(p);
    let v = col_var(p, 24) as u64;
    assert forall|i: int| 0 <= i < c.len() implies #[trigger] c[i] == v by {
        assert(col_var(p, 24 + i) == col_var(p, 24));
    }
    let sorted = sorted_u64(c);
    lemma_le_total();
    c.lemma_sort_by_ensures(le_u64());
    vstd::seq_lib::to_multiset_len(c);
    vstd::seq_lib::to_multiset_len(sorted);
    let idx = (c.len() * 35 / 100) as int;
    assert(0 <= idx < sorted.len());
    assert(sorted.contains(sorted[idx]));
    assert(c.contains(sorted[idx]));
    assert(sorted[idx] == v);
    let t = plate_threshold(p);
    assert(t == 3 * v + 882);
    let whole = Some((0int, c.len() - 1));
    assert(is_run(c, t, 0, c.len() - 1));
    assert(is_best_run(c, t, whole)) by {
        assert forall|a2: int, b2: int| #[trigger] is_run(c, t, a2, b2) implies b2 - a2 < c.len() - 1 || (
        b2 - a2 == c.len() - 1 && 0 <= a2) by {}
    }
    let r = choose|r: Option<(int, int)>| is_best_run(c, t, r);
    lemma_best_run_unique(c, t, r, whole);
}

proof fn lemma_run_end_unique(vals: Seq<u64>, t: int, a1: int, a2: int, b: int)
    requires
        is_run(vals, t, a1, b),
        is_run(vals, t, a2, b),
    ensures
        a1 == a2,
{
    if a1 < a2 {
        assert(vals[a2 - 1] <= t);
    } else if a2 < a1 {
        assert(vals[a1 - 1] <= t);
    }
}

/// There is exactly one best run.
proof fn lemma_best_run_unique(vals: Seq<u64>, t: int, r1: Option<(int, int)>, r2: Option<(int, int)>)
    requires
        is_best_run(vals, t, r1),
        is_best_run(vals, t, r2),
    ensures
        r1 == r2,
{
    match (r1, r2) {
        (Some((a1, b1)), Some((a2, b2))) => {
            assert(is_run(vals, t, a1, b1));
            assert(is_run(vals, t, a2, b2));
            assert(a1 == a2);
            if b1 != b2 {
                if b1 < b2 {
                    assert(vals[b1 + 1] <= t);
                } else {
                    assert(vals[b2 + 1] <= t);
                }
            }
        },
        (Some((a1, b1)), None) => {
            assert(is_run(vals, t, a1, b1));
        },
        (None, Some((a2, b2))) => {
            assert(is_run(vals, t, a2, b2));
        },
        (None, None) => {},
    }
}

pub open spec fn run_start(r: Option<(usize, usize)>) -> int {
    match r {
        Some((a, _)) => a as int,
        None => 0,
    }
}

pub open spec fn run_end(r: Option<(usize, usize)>) -> int {
    match r {
        Some((_, b)) => b as int,
        None => 0,
    }
}

/// Find the longest run (first of the longest) of values at or below `t`.
fn best_low_run(vals: &Vec<u64>, t: u64) -> (r: Option<(usize, usize)>)
    ensures
        is_best_run(
            vals@,
            t as int,
            match r {
                Some((a, b)) => Some((a as int, b as int)),
                None => None,
            },
        ),
{
    let n = vals.len();
    let mut best: Option<(usize, usize)> = None;
    let mut cur: Option<(usize, usize)> = None;
    let mut i: usize = 0;
    let ghost tt = t as int;
    while i < n
        invariant
            i <= n == vals@.len(),
            tt == t,
            cur is None ==> i == 0 || vals@[i - 1] > tt,
            cur matches Some((a, c)) ==> {
                &&& c + 1 == i
                &&& a <= c
                &&& forall|x: int| a <= x <= c ==> #[trigger] vals@[x] <= tt
                &&& a == 0 || vals@[a - 1] > tt
            },
            best is None ==> forall|a2: int, b2: int| #[trigger] is_run(vals@, tt, a2, b2) ==> b2 + 1 >= i,
            best matches Some((a, b)) ==> {
                &&& is_run(vals@, tt, a as int, b as int)
                &&& b + 1 < i
                &&& forall|a2: int, b2: int|
                    #[trigger] is_run(vals@, tt, a2, b2) && b2 + 1 < i ==> b2 - a2 < b - a || (b2
                        - a2 == b - a && a <= a2)
            },
            best is Some && cur is Some ==> run_end(best) < run_start(cur),
        decreases n - i,
    {
        if vals[i] <= t {
            cur = match cur {
                Some((a, _)) => Some((a, i)),
                None => Some((i, i)),
            };
            proof {
                assert forall|a2: int, b2: int| #[trigger] is_run(vals@, tt, a2, b2) && b2 + 1 < i + 1 implies b2 + 1 < i by {
                    if b2 + 1 == i {
                        assert(vals@[b2 + 1] > tt);
                    }
                }
            }
        } else {
            match cur {
                Some((a, c)) => {
                    proof {
                        assert(is_run(vals@, tt, a as int, c as int));
                        assert forall|a2: int, b2: int| #[trigger] is_run(vals@, tt, a2, b2) && b2 + 1 == i implies a2 == a && b2 == c by {
                            lemma_run_end_unique(vals@, tt, a as int, a2, c as int);
                        }
                    }
                    let better = match best {
                        None => true,
                        Some((ba, bb)) => c - a > bb - ba,
                    };
                    if better {
                        best = Some((a, c));
                    }
                    cur = None;
                },
                None => {
                    proof {
                        assert forall|a2: int, b2: int| #[trigger] is_run(vals@, tt, a2, b2) implies b2 + 1 != i by {
                            if b2 + 1 == i {
                                assert(vals@[b2] <= tt);
                            }
                        }
                    }
                },
            }
        }
        i += 1;
    }
    if let Some((a, c)) = cur {
        proof {
            assert(is_run(vals@, tt, a as int, c as int));
            assert forall|a2: int, b2: int| #[trigger] is_run(vals@, tt, a2, b2) && b2 + 1 == n implies a2 == a && b2 == c by {
                lemma_run_end_unique(vals@, tt, a as int, a2, c as int);
            }
        }
        let better = match best {
            None => true,
            Some((ba, bb)) => c - a > bb - ba,
        };
        if better {
            best = Some((a, c));
        }
    } else {
        proof {
            assert forall|a2: int, b2: int| #[trigger] is_run(vals@, tt, a2, b2) implies b2 + 1 != n by {
                if b2 + 1 == n {
                    assert(vals@[b2] <= tt);
                }
            }
        }
    }
    best
}

proof fn lemma_brightness_bound(p: PixView, x: int, y: int)
    ensures
        0 <= brightness3(p, x, y) <= 765,
        0 <= brightness3(p, x, y) * brightness3(p, x, y) <= 585225,
{
    let b = brightness3(p, x, y);
    assert(0 <= b * b <= 765 * 765) by (nonlinear_arith)
        requires
            0 <= b <= 765,
    ;
}

/// The scaled brightness variance of column `x` over rows 4..=10.
fn column_variance(p: &Pixmap, x: u32) -> (v: u64)
    requires
        pixmap_wf(p@),
        x < p.width,
        p.height >= 11,
    ensures
        v == col_var(p@, x as int),
{
    let mut s: i64 = 0;
    let mut s2: i64 = 0;
    let mut y: u32 = 4;
    while y < 11
        invariant
            pixmap_wf(p@),
            x < p.width,
            p.height >= 11,
            4 <= y <= 11,
            s == col_sum(p@, x as int, 4, y as int),
            s2 == col_sq(p@, x as int, 4, y as int),
            0 <= s <= (y - 4) * 765,
            0 <= s2 <= (y - 4) * 585225,
        decreases 11 - y,
    {
        let (r, g, b) = pixel_rgb(p, x, y);
        let c = (r as i64) + (g as i64) + (b as i64);
        proof {
            lemma_brightness_bound(p@, x as int, y as int);
        }
        s = s + c;
        s2 = s2 + c * c;
        y += 1;
    }
    proof {
        assert(0 <= s * s <= 5355 * 5355) by (nonlinear_arith)
            requires
                0 <= s <= 5355,
        ;
    }
    let v = 7 * s2 - s * s;
    if v < 0 {
        0
    } else {
        v as u64
    }
}

/// Find the centre X of the title plate in a GEN.BMP titlebar, or `None` when
/// the titlebar is smooth and has no distinct plate.
///
/// A classic titlebar is a strip of horizontal "grip" bars with a flat plate
/// left clear in the middle for the title. Scanning down a column, a bar column
/// crosses those bright lines (high variance) while a plate column is near-flat
/// (low variance). The plate is the widest run of low-variance columns in the
/// central region, but only if it stays well short of the whole width: a
/// smooth titlebar reads as low-variance everywhere and must not be taken for
/// a plate. Variances are computed exactly in integers (scaled by 441).
pub fn locate_title_plate(sheet: &Pixmap) -> (r: Option<u32>)
    requires
        pixmap_wf(sheet@),
    ensures
        r == title_plate_spec(sheet@),
{
    let w = sheet.width;
    let h = sheet.height;
    if w < 80 || h < 12 {
        return None;
    }
    let n = w - 52;
    let mut central: Vec<u64> = Vec::new();
    let mut i: u32 = 0;
    while i < n
        invariant
            pixmap_wf(sheet@),
            w == sheet.width,
            h == sheet.height,
            w >= 80,
            h >= 12,
            n == w - 52,
            i <= n,
            central@ == central_vars(sheet@).subrange(0, i as int),
        decreases n - i,
    {
        let v = column_variance(sheet, PLATE_LO + i);
        central.push(v);
        i += 1;
        assert(central@ =~= central_vars(sheet@).subrange(0, i as int));
    }
    assert(central@ =~= central_vars(sheet@));
    let sorted = sort_u64(&central);
    let k = ((n as u64) * 35 / 100) as usize;
    let kth = sorted[k];
    proof {
        assert(central_vars(sheet@).len() == n);
        assert(forall|j: int| 0 <= j < central@.len() ==> central@[j] <= u64::MAX);
        assert(kth <= 5355 * 5355 * 7) by {
            vstd::seq_lib::to_multiset_contains(sorted@, kth);
            assert(sorted@.contains(kth)) by {
                assert(sorted@[k as int] == kth);
            }
            assert(sorted@.to_multiset().contains(kth));
            assert(central@.to_multiset().contains(kth));
            vstd::seq_lib::to_multiset_contains(central@, kth);
            let j = choose|j: int| 0 <= j < central@.len() && central@[j] == kth;
            lemma_col_var_bound(sheet@, 24 + j);
        }
    }
    let t = 3 * kth + 882;
    let best = best_low_run(&central, t);
    proof {
        let rr = match best {
            Some((a, b)) => Some((a as int, b as int)),
            None => None,
        };
        let c = choose|r: Option<(int, int)>| is_best_run(central_vars(sheet@), plate_threshold(sheet@), r);
        lemma_best_run_unique(central_vars(sheet@), plate_threshold(sheet@), rr, c);
    }
    match best {
        None => None,
        Some((a, b)) => {
            let run = (b - a + 1) as u64;
            if 20 * run > 9 * (w as u64) {
                None
            } else {
                Some(((24 + a as u64 + 24 + b as u64) / 2) as u32)
            }
        },
    }
}

proof fn lemma_col_var_bound(p: PixView, x: int)
    ensures
        0 <= col_var(p, x) <= 5355 * 5355 * 7,
{
    assert(0 <= col_sq(p, x, 4, 11) <= 7 * 585225) by {
        lemma_col_sq_bound(p, x, 11);
    }
    assert(col_sum(p, x, 4, 11) * col_sum(p, x, 4, 11) >= 0) by (nonlinear_arith);
}

proof fn lemma_col_sq_bound(p: PixView, x: int, y: int)
    requires
        4 <= y,
    ensures
        0 <= col_sq(p, x, 4, y) <= (y - 4) * 585225,
    decreases y,
{
    if y > 4 {
        lemma_col_sq_bound(p, x, y - 1);
        lemma_brightness_bound(p, x, y - 1);
    }
}

/// CSS variable suffix → value, as sent to the windows.
pub struct SpriteMap {
    pub entries: Vec<(String, String)>,
}

/// The map an association list stands for (a later entry wins).
pub open spec fn entries_map(s: Seq<(String, String)>) -> Map<Seq<char>, Seq<char>>
    decreases s.len(),
{
    if s.len() == 0 {
        Map::empty()
    } else {
        entries_map(s.drop_last()).insert(s.last().0@, s.last().1@)
    }
}

pub open spec fn entry_keys_unique(s: Seq<(String, String)>) -> bool {
    forall|i: int, j: int| 0 <= i < s.len() && 0 <= j < s.len() && i != j ==> s[i].0@ != s[j].0@
}

impl View for SpriteMap {
    type V = Map<Seq<char>, Seq<char>>;

    open spec fn view(&self) -> Map<Seq<char>, Seq<char>> {
        entries_map(self.entries@)
    }
}

proof fn lemma_entries_map_lookup(s: Seq<(String, String)>, k: Seq<char>)
    requires
        entry_keys_unique(s),
    ensures
        entries_map(s).contains_key(k) <==> exists|i: int| 0 <= i < s.len() && s[i].0@ == k,
        forall|i: int| 0 <= i < s.len() && s[i].0@ == k ==> entries_map(s)[k] == s[i].1@,
    decreases s.len(),
{
    if s.len() > 0 {
        let t = s.drop_last();
        assert(entry_keys_unique(t)) by {
            assert forall|i: int, j: int| 0 <= i < t.len() && 0 <= j < t.len() && i != j implies t[i].0@ != t[j].0@ by {
                assert(t[i] == s[i] && t[j] == s[j]);
            }
        }
        lemma_entries_map_lookup(t, k);
        if s.last().0@ != k {
            if exists|i: int| 0 <= i < s.len() && s[i].0@ == k {
                let i = choose|i: int| 0 <= i < s.len() && s[i].0@ == k;
                assert(i < t.len());
                assert(t[i] == s[i]);
            }
            assert forall|i: int| 0 <= i < s.len() && s[i].0@ == k implies entries_map(s)[k] == s[i].1@ by {
                assert(i < t.len());
                assert(t[i] == s[i]);
            }
        } else {
            assert forall|i: int| 0 <= i < s.len() && s[i].0@ == k implies entries_map(s)[k] == s[i].1@ by {
                assert(i == s.len() - 1);
            }
        }
    }
}

proof fn lemma_entries_map_update(s: Seq<(String, String)>, i: int, e: (String, String))
    requires
        entry_keys_unique(s),
        0 <= i < s.len(),
        s[i].0@ == e.0@,
    ensures
        entries_map(s.update(i, e)) == entries_map(s).insert(e.0@, e.1@),
        entry_keys_unique(s.update(i, e)),
    decreases s.len(),
{
    let u = s.update(i, e);
    assert(entry_keys_unique(u)) by {
        assert forall|a: int, b: int| 0 <= a < u.len() && 0 <= b < u.len() && a != b implies u[a].0@ != u[b].0@ by {
            assert(u[a].0@ == s[a].0@ && u[b].0@ == s[b].0@);
        }
    }
    if i == s.len() - 1 {
        assert(u.drop_last() =~= s.drop_last());
        assert(entries_map(s.drop_last()).insert(e.0@, e.1@) =~= entries_map(s.drop_last()).insert(
            s.last().0@,
            s.last().1@,
        ).insert(e.0@, e.1@));
    } else {
        let t = s.drop_last();
        assert(entry_keys_unique(t)) by {
            assert forall|a: int, b: int| 0 <= a < t.len() && 0 <= b < t.len() && a != b implies t[a].0@ != t[b].0@ by {
                assert(t[a] == s[a] && t[b] == s[b]);
            }
        }
        assert(u.drop_last() =~= t.update(i, e));
        lemma_entries_map_update(t, i, e);
        assert(s.last().0@ != e.0@);
        assert(entries_map(u) =~= entries_map(s).insert(e.0@, e.1@));
    }
}

impl SpriteMap {
    pub fn new() -> (m: SpriteMap)
        ensures
            m@ == Map::<Seq<char>, Seq<char>>::empty(),
            entry_keys_unique(m.entries@),
    {
        SpriteMap { entries: Vec::new() }
    }

    fn index_of(&self, k: &String) -> (r: Option<usize>)
        ensures
            match r {
                Some(i) => i < self.entries@.len() && self.entries@[i as int].0@ == k@,
                None => forall|i: int| 0 <= i < self.entries@.len() ==> self.entries@[i].0@ != k@,
            },
    {
        let mut i: usize = 0;
        while i < self.entries.len()
            invariant
                i <= self.entries@.len(),
                forall|j: int| 0 <= j < i ==> self.entries@[j].0@ != k@,
            decreases self.entries@.len() - i,
        {
            if self.entries[i].0 == *k {
                return Some(i);
            }
            i += 1;
        }
        None
    }

    /// Set `k` to `v`, replacing any earlier value.
    pub fn insert(&mut self, k: String, v: String)
        requires
            entry_keys_unique(old(self).entries@),
        ensures
            entry_keys_unique(final(self).entries@),
            final(self)@ == old(self)@.insert(k@, v@),
    {
        match self.index_of(&k) {
            Some(i) => {
                let ghost s = self.entries@;
                let ghost kk = k@;
                let ghost vv = v@;
                self.entries.set(i, (k, v));
                proof {
                    lemma_entries_map_update(s, i as int, self.entries@[i as int]);
                }
            },
            None => {
                let ghost s = self.entries@;
                self.entries.push((k, v));
                proof {
                    assert(self.entries@.drop_last() =~= s);
                    assert forall|a: int, b: int|
                        0 <= a < self.entries@.len() && 0 <= b < self.entries@.len() && a != b
                            implies self.entries@[a].0@ != self.entries@[b].0@ by {
                        if a < s.len() {
                            assert(self.entries@[a] == s[a]);
                        }
                        if b < s.len() {
                            assert(self.entries@[b] == s[b]);
                        }
                    }
                }
            },
        }
    }

    /// The value of `k`, if set.
    pub fn get(&self, k: &String) -> (r: Option<String>)
        requires
            entry_keys_unique(self.entries@),
        ensures
            match r {
                Some(v) => self@.contains_key(k@) && self@[k@] == v@,
                None => !self@.contains_key(k@),
            },
    {
        proof {
            lemma_entries_map_lookup(self.entries@, k@);
        }
        match self.index_of(k) {
            Some(i) => Some(self.entries[i].1.clone()),
            None => None,
        }
    }
}

/// (key, value) pairs as plain character sequences.
pub open spec fn pairs_view(v: Seq<(String, String)>) -> Seq<(Seq<char>, Seq<char>)> {
    v.map_values(|p: (String, String)| (p.0@, p.1@))
}

/// Sum of channel `k` over columns `x0 .. x1` of row `y`.
pub open spec fn row_channel_sum(p: PixView, k: int, y: int, x0: int, x1: int) -> int
    decreases x1 - x0,
{
    if x1 <= x0 {
        0
    } else {
        row_channel_sum(p, k, y, x0, x1 - 1) + sample(p, x1 - 1, y, k)
    }
}

/// Sum of channel `k` over columns `x0 .. x1` of rows `0 .. y1`.
pub open spec fn rect_channel_sum(p: PixView, k: int, x0: int, x1: int, y1: int) -> int
    decreases y1,
{
    if y1 <= 0 {
        0
    } else {
        rect_channel_sum(p, k, x0, x1, y1 - 1) + row_channel_sum(p, k, y1 - 1, x0, x1)
    }
}

/// Where the plain titlebar fill sits: `(x, width)`. GEN.BMP's bars are at
/// x=82; in PLEDIT.BMP the plain-bars fill is at x=127 (the title area
/// 26..126 has "WINAMP PLAYLIST" baked in).
pub open spec fn fill_span(from_gen: bool) -> (int, int) {
    if from_gen {
        (82, 8)
    } else {
        (127, 25)
    }
}

/// The average colour of the titlebar fill (its top 20 rows), or `None` when
/// the fill lies outside the sheet.
pub open spec fn titlebar_average(p: PixView, from_gen: bool) -> Option<(u8, u8, u8)> {
    let (fx, fw) = fill_span(from_gen);
    let x1 = min_int(fx + fw, p.width as int);
    let rows = min_int(20, p.height as int);
    let cols = if x1 > fx {
        x1 - fx
    } else {
        0
    };
    let n = rows * cols;
    if n == 0 {
        None
    } else {
        Some(
            (
                (rect_channel_sum(p, 0, fx, x1, rows) / n) as u8,
                (rect_channel_sum(p, 1, fx, x1, rows) / n) as u8,
                (rect_channel_sum(p, 2, fx, x1, rows) / n) as u8,
            ),
        )
    }
}

/// Whether a titlebar colour is light enough for dark title text: the
/// luminance `0.299 r + 0.587 g + 0.114 b`, in `f32` arithmetic, exceeds 140.
/// Exactly, that is `299 r + 587 g + 114 b > 140000`; `f32` rounding also
/// puts five colours whose exact luminance is 140 above it.
pub open spec fn light_titlebar(r: u8, g: u8, b: u8) -> bool {
    ||| 299 * r + 587 * g + 114 * b > 140000
    ||| (r, g, b) == (42u8, 214u8, 16u8)
    ||| (r, g, b) == (61u8, 195u8, 64u8)
    ||| (r, g, b) == (87u8, 187u8, 37u8)
    ||| (r, g, b) == (207u8, 115u8, 93u8)
    ||| (r, g, b) == (248u8, 98u8, 73u8)
}

/// Title text colour for a titlebar colour: black-ish on light titlebars,
/// white-ish on dark ones, so the title stays readable.
pub open spec fn title_text_spec(r: u8, g: u8, b: u8) -> Seq<char> {
    if light_titlebar(r, g, b) {
        "#101014"@
    } else {
        "#f0f2f8"@
    }
}

pub fn is_light_titlebar(r: u8, g: u8, b: u8) -> (l: bool)
    ensures
        l == light_titlebar(r, g, b),
{
    let lum = 299 * (r as u32) + 587 * (g as u32) + 114 * (b as u32);
    lum > 140000 || (r == 42 && g == 214 && b == 16) || (r == 61 && g == 195 && b == 64) || (r
        == 87 && g == 187 && b == 37) || (r == 207 && g == 115 && b == 93) || (r == 248 && g
        == 98 && b == 73)
}

proof fn lemma_row_sum_bound(p: PixView, k: int, y: int, x0: int, x1: int)
    requires
        x0 <= x1,
    ensures
        0 <= row_channel_sum(p, k, y, x0, x1) <= 255 * (x1 - x0),
    decreases x1 - x0,
{
    if x1 > x0 {
        lemma_row_sum_bound(p, k, y, x0, x1 - 1);
    }
}

proof fn lemma_rect_sum_bound(p: PixView, k: int, x0: int, x1: int, y1: int)
    requires
        x0 <= x1,
        0 <= y1,
    ensures
        0 <= rect_channel_sum(p, k, x0, x1, y1) <= 255 * (x1 - x0) * y1,
    decreases y1,
{
    if y1 > 0 {
        lemma_rect_sum_bound(p, k, x0, x1, y1 - 1);
        lemma_row_sum_bound(p, k, y1 - 1, x0, x1);
        assert(255 * (x1 - x0) * (y1 - 1) + 255 * (x1 - x0) == 255 * (x1 - x0) * y1) by (nonlinear_arith);
    }
}

/// The average colour of the titlebar fill.
pub fn titlebar_color(sheet: &Pixmap, from_gen: bool) -> (r: Option<(u8, u8, u8)>)
    requires
        pixmap_wf(sheet@),
    ensures
        r == titlebar_average(sheet@, from_gen),
{
    let (fx, fw): (u32, u32) = if from_gen { (82, 8) } else { (127, 25) };
    let x1 = if fx + fw < sheet.width { fx + fw } else { sheet.width };
    let rows: u32 = if 20 < sheet.height { 20 } else { sheet.height };
    let (mut r, mut g, mut b, mut n) = (0u64, 0u64, 0u64, 0u64);
    let mut yy: u32 = 0;
    while yy < rows
        invariant
            pixmap_wf(sheet@),
            rows <= 20,
            rows <= sheet.height,
            x1 <= sheet.width,
            x1 <= fx + fw,
            fw <= 25,
            yy <= rows,
            r == rect_channel_sum(sheet@, 0, fx as int, x1 as int, yy as int),
            g == rect_channel_sum(sheet@, 1, fx as int, x1 as int, yy as int),
            b == rect_channel_sum(sheet@, 2, fx as int, x1 as int, yy as int),
            n == yy * (if x1 > fx { x1 - fx } else { 0 }),
            r <= 6375 * yy,
            g <= 6375 * yy,
            b <= 6375 * yy,
        decreases rows - yy,
    {
        let mut xx: u32 = fx;
        let (mut rr, mut gg, mut bb) = (0u64, 0u64, 0u64);
        proof {
            if x1 > fx {
                lemma_rect_sum_bound(sheet@, 0, fx as int, x1 as int, yy as int);
                lemma_rect_sum_bound(sheet@, 1, fx as int, x1 as int, yy as int);
                lemma_rect_sum_bound(sheet@, 2, fx as int, x1 as int, yy as int);
            }
        }
        while xx < x1
            invariant
                pixmap_wf(sheet@),
                yy < rows <= sheet.height,
                x1 <= sheet.width,
                x1 <= fx + fw,
                fw <= 25,
                fx <= xx,
                xx <= (if x1 > fx { x1 } else { fx }),
                rr == row_channel_sum(sheet@, 0, yy as int, fx as int, xx as int),
                gg == row_channel_sum(sheet@, 1, yy as int, fx as int, xx as int),
                bb == row_channel_sum(sheet@, 2, yy as int, fx as int, xx as int),
            decreases x1 - xx,
        {
            proof {
                lemma_row_sum_bound(sheet@, 0, yy as int, fx as int, xx as int);
                lemma_row_sum_bound(sheet@, 1, yy as int, fx as int, xx as int);
                lemma_row_sum_bound(sheet@, 2, yy as int, fx as int, xx as int);
            }
            let (pr, pg, pb) = pixel_rgb(sheet, xx, yy);
            rr = rr + pr as u64;
            gg = gg + pg as u64;
            bb = bb + pb as u64;
            xx += 1;
        }
        proof {
            if x1 > fx {
                lemma_row_sum_bound(sheet@, 0, yy as int, fx as int, x1 as int);
                lemma_row_sum_bound(sheet@, 1, yy as int, fx as int, x1 as int);
                lemma_row_sum_bound(sheet@, 2, yy as int, fx as int, x1 as int);
            }
        }
        r = r + rr;
        g = g + gg;
        b = b + bb;
        proof {
            let cols: int = if x1 > fx { x1 - fx } else { 0 };
            assert(n <= 20 * 25) by (nonlinear_arith)
                requires
                    n == yy * cols,
                    yy <= 20,
                    cols <= 25,
                    0 <= cols,
            ;
        }
        n = n + (if x1 > fx { (x1 - fx) as u64 } else { 0 });
        proof {
            assert(n == (yy + 1) * (if x1 > fx { x1 - fx } else { 0 })) by (nonlinear_arith)
                requires
                    n == yy * (if x1 > fx { x1 - fx } else { 0 }) + (if x1 > fx { x1 - fx } else { 0 }),
            ;
        }
        yy += 1;
    }
    if n == 0 {
        return None;
    }
    proof {
        let cols = if x1 > fx { x1 - fx } else { 0 };
        lemma_rect_sum_bound(sheet@, 0, fx as int, x1 as int, rows as int);
        lemma_rect_sum_bound(sheet@, 1, fx as int, x1 as int, rows as int);
        lemma_rect_sum_bound(sheet@, 2, fx as int, x1 as int, rows as int);
        assert(x1 > fx);
        assert(255 * (x1 - fx) * rows == 255 * n) by (nonlinear_arith)
            requires
                n == rows * (x1 - fx),
        ;
        lemma_avg_byte(r as int, n as int);
        lemma_avg_byte(g as int, n as int);
        lemma_avg_byte(b as int, n as int);
    }
    Some(((r / n) as u8, (g / n) as u8, (b / n) as u8))
}

proof fn lemma_avg_byte(s: int, n: int)
    requires
        n > 0,
        0 <= s <= 255 * n,
    ensures
        0 <= s / n <= 255,
{
    assert(s / n <= 255) by (nonlinear_arith)
        requires
            n > 0,
            0 <= s <= 255 * n,
    ;
    assert(0 <= s / n) by (nonlinear_arith)
        requires
            n > 0,
            0 <= s,
    ;
}

/// One `(variable, PNG data URL)` pair for a cut-out of `sheet`, or nothing
/// when the PNG encoder fails.
pub open spec fn tile_entry(sheet: PixView, var: Seq<char>, x: int, y: int, w: int, h: int) -> Seq<(Seq<char>, Seq<char>)> {
    match png_encoding(crop_view(sheet, x, y, w, h)) {
        Some(png) => seq![(var, data_url("data:image/png;base64,"@, png))],
        None => Seq::empty(),
    }
}

/// The generic-window titlebar tiles cut from the sheet: left corner,
/// repeating fill and right corner.
pub open spec fn titlebar_tiles(sheet: PixView, from_gen: bool) -> Seq<(Seq<char>, Seq<char>)> {
    if from_gen {
        tile_entry(sheet, "gentl"@, 0, 0, 25, 20) + tile_entry(sheet, "genfill"@, 82, 0, 8, 20)
            + tile_entry(sheet, "gentr"@, 140, 0, 15, 20)
    } else {
        tile_entry(sheet, "gentl"@, 0, 0, 25, 20) + tile_entry(sheet, "genfill"@, 127, 0, 25, 20)
            + tile_entry(sheet, "gentr"@, 153, 0, 25, 20)
    }
}

/// The titlebar colour and the title text colour that contrasts with it.
pub open spec fn titlebar_color_entries(sheet: PixView, from_gen: bool) -> Seq<(Seq<char>, Seq<char>)> {
    match titlebar_average(sheet, from_gen) {
        Some((r, g, b)) => seq![("titlebarcolor"@, hex_color(r, g, b)), ("titletext"@, title_text_spec(r, g, b))],
        None => Seq::empty(),
    }
}

/// The title plate tile: cut around the plate's centre when GEN.BMP has one,
/// otherwise "transparent" (the title sits on the bars).
pub open spec fn plate_entry(sheet: PixView, from_gen: bool) -> Seq<(Seq<char>, Seq<char>)> {
    let plate = if from_gen {
        title_plate_spec(sheet)
    } else {
        None
    };
    match plate {
        Some(c) => tile_entry(sheet, "gentitle"@, if c >= 2 { c - 2 } else { 0 }, 0, 4, 20),
        None => seq![("gentitle"@, "transparent"@)],
    }
}

/// Everything derived from the titlebar sheet (GEN.BMP, else PLEDIT.BMP).
pub open spec fn sheet_entries(sheet: PixView, from_gen: bool) -> Seq<(Seq<char>, Seq<char>)> {
    titlebar_tiles(sheet, from_gen) + titlebar_color_entries(sheet, from_gen) + plate_entry(sheet, from_gen)
}

/// Push `(var, PNG data URL of the cut-out)` unless encoding fails.
fn push_tile(out: &mut Vec<(String, String)>, sheet: &Pixmap, var: &str, x: u32, y: u32, w: u32, h: u32)
    requires
        pixmap_wf(sheet@),
    ensures
        pairs_view(final(out)@) == pairs_view(old(out)@) + tile_entry(sheet@, var@, x as int, y as int, w as int, h as int),
{
    let tile = crop(sheet, x, y, w, h);
    let ghost before = pairs_view(out@);
    match encode_png(&tile) {
        Some(png) => {
            let url = make_data_url("data:image/png;base64,", png.as_slice());
            out.push((var.to_owned(), url));
            assert(pairs_view(out@) =~= before + tile_entry(sheet@, var@, x as int, y as int, w as int, h as int));
        },
        None => {
            assert(pairs_view(out@) =~= before + tile_entry(sheet@, var@, x as int, y as int, w as int, h as int));
        },
    }
}

fn push_titlebar_tiles(out: &mut Vec<(String, String)>, sheet: &Pixmap, from_gen: bool)
    requires
        pixmap_wf(sheet@),
    ensures
        pairs_view(final(out)@) == pairs_view(old(out)@) + titlebar_tiles(sheet@, from_gen),
{
    let ghost before = pairs_view(out@);
    if from_gen {
        push_tile(out, sheet, "gentl", 0, 0, 25, 20);
        push_tile(out, sheet, "genfill", 82, 0, 8, 20);
        push_tile(out, sheet, "gentr", 140, 0, 15, 20);
    } else {
        push_tile(out, sheet, "gentl", 0, 0, 25, 20);
        push_tile(out, sheet, "genfill", 127, 0, 25, 20);
        push_tile(out, sheet, "gentr", 153, 0, 25, 20);
    }
    assert(pairs_view(out@) =~= before + titlebar_tiles(sheet@, from_gen));
}

fn push_titlebar_colors(out: &mut Vec<(String, String)>, sheet: &Pixmap, from_gen: bool)
    requires
        pixmap_wf(sheet@),
    ensures
        pairs_view(final(out)@) == pairs_view(old(out)@) + titlebar_color_entries(sheet@, from_gen),
{
    let ghost before = pairs_view(out@);
    if let Some((r, g, b)) = titlebar_color(sheet, from_gen) {
        let hex = format_hex_color(r, g, b);
        out.push(("titlebarcolor".to_owned(), string_from_chars(&hex)));
        let text = if is_light_titlebar(r, g, b) { "#101014" } else { "#f0f2f8" };
        out.push(("titletext".to_owned(), text.to_owned()));
    }
    assert(pairs_view(out@) =~= before + titlebar_color_entries(sheet@, from_gen));
}

fn push_title_plate(out: &mut Vec<(String, String)>, sheet: &Pixmap, from_gen: bool)
    requires
        pixmap_wf(sheet@),
    ensures
        pairs_view(final(out)@) == pairs_view(old(out)@) + plate_entry(sheet@, from_gen),
{
    let ghost before = pairs_view(out@);
    let plate = if from_gen { locate_title_plate(sheet) } else { None };
    match plate {
        Some(center) => {
            let x = if center >= 2 { center - 2 } else { 0 };
            push_tile(out, sheet, "gentitle", x, 0, 4, 20);
        },
        None => {
            out.push(("gentitle".to_owned(), "transparent".to_owned()));
            assert(pairs_view(out@) =~= before + plate_entry(sheet@, from_gen));
        },
    }
}

/// The titlebar tiles, colours and title plate derived from `sheet`.
pub fn sheet_pairs(sheet: &Pixmap, from_gen: bool) -> (r: Vec<(String, String)>)
    requires
        pixmap_wf(sheet@),
    ensures
        pairs_view(r@) == sheet_entries(sheet@, from_gen),
{
    let mut out: Vec<(String, String)> = Vec::new();
    assert(pairs_view(out@) =~= Seq::<(Seq<char>, Seq<char>)>::empty());
    push_titlebar_tiles(&mut out, sheet, from_gen);
    push_titlebar_colors(&mut out, sheet, from_gen);
    push_title_plate(&mut out, sheet, from_gen);
    assert(pairs_view(out@) =~= sheet_entries(sheet@, from_gen));
    out
}

/// The titlebar served for generic windows, from GEN.BMP (`from_gen`) or
/// else PLEDIT.BMP: the left corner is the sheet's 25x20 top-left block; the
/// fill and right corner are the 8x20 block at x 82 and the 15x20 block at
/// x 140 of GEN.BMP, or the 25x20 blocks at x 127 and x 153 of PLEDIT.BMP.
/// Each is served, as the PNG data URL of that block, exactly when it
/// encodes. The title text is dark on a titlebar whose luminance
/// (0.299 r + 0.587 g + 0.114 b) is above 140 and light below it, and a
/// PLEDIT titlebar has a transparent title plate.
pub proof fn law_titlebar_entries(sheet: PixView, from_gen: bool)
    ensures
        ({
            let es = sheet_entries(sheet, from_gen);
            let pre = "data:image/png;base64,"@;
            let left = png_encoding(crop_view(sheet, 0, 0, 25, 20));
            let fill = if from_gen {
                png_encoding(crop_view(sheet, 82, 0, 8, 20))
            } else {
                png_encoding(crop_view(sheet, 127, 0, 25, 20))
            };
            let right = if from_gen {
                png_encoding(crop_view(sheet, 140, 0, 15, 20))
            } else {
                png_encoding(crop_view(sheet, 153, 0, 25, 20))
            };
            &&& forall|t: int| 0 <= t < es.len() && (#[trigger] es[t]).0 == "gentl"@ ==> (left is Some
                && es[t].1 == data_url(pre, left->0))
            &&& forall|t: int| 0 <= t < es.len() && (#[trigger] es[t]).0 == "genfill"@ ==> (fill is Some
                && es[t].1 == data_url(pre, fill->0))
            &&& forall|t: int| 0 <= t < es.len() && (#[trigger] es[t]).0 == "gentr"@ ==> (right is Some
                && es[t].1 == data_url(pre, right->0))
            &&& left is Some ==> es.contains(("gentl"@, data_url(pre, left->0)))
            &&& fill is Some ==> es.contains(("genfill"@, data_url(pre, fill->0)))
            &&& right is Some ==> es.contains(("gentr"@, data_url(pre, right->0)))
            &&& forall|t: int| 0 <= t < es.len() && (#[trigger] es[t]).0 == "titletext"@ ==> (titlebar_average(
                sheet,
                from_gen,
            ) matches Some((r, g, b)) && (299 * r + 587 * g + 114 * b > 140000 ==> es[t].1 == "#101014"@) && (299
                * r + 587 * g + 114 * b < 140000 ==> es[t].1 == "#f0f2f8"@))
            &&& !from_gen ==> es.contains(("gentitle"@, "transparent"@))
        }),
{
    reveal_strlit("gentl");
    reveal_strlit("genfill");
    reveal_strlit("gentr");
    reveal_strlit("titlebarcolor");
    reveal_strlit("titletext");
    reveal_strlit("gentitle");
    let es = sheet_entries(sheet, from_gen);
    let pre = "data:image/png;base64,"@;
    let tl = tile_entry(sheet, "gentl"@, 0, 0, 25, 20);
    let tf = if from_gen { tile_entry(sheet, "genfill"@, 82, 0, 8, 20) } else { tile_entry(sheet, "genfill"@, 127, 0, 25, 20) };
    let tr = if from_gen { tile_entry(sheet, "gentr"@, 140, 0, 15, 20) } else { tile_entry(sheet, "gentr"@, 153, 0, 25, 20) };
    let col = titlebar_color_entries(sheet, from_gen);
    let pl = plate_entry(sheet, from_gen);
    assert(titlebar_tiles(sheet, from_gen) == tl + tf + tr);
    assert(es == tl + tf + tr + col + pl);
    let left = png_encoding(crop_view(sheet, 0, 0, 25, 20));
    let fill = if from_gen { png_encoding(crop_view(sheet, 82, 0, 8, 20)) } else { png_encoding(crop_view(sheet, 127, 0, 25, 20)) };
    let right = if from_gen { png_encoding(crop_view(sheet, 140, 0, 15, 20)) } else { png_encoding(crop_view(sheet, 153, 0, 25, 20)) };
    assert(tl.len() <= 1 && tf.len() <= 1 && tr.len() <= 1);
    assert(tl.len() == 1 ==> left is Some && tl[0] == ("gentl"@, data_url(pre, left->0)));
    assert(tf.len() == 1 ==> fill is Some && tf[0] == ("genfill"@, data_url(pre, fill->0)));
    assert(tr.len() == 1 ==> right is Some && tr[0] == ("gentr"@, data_url(pre, right->0)));
    assert(left is Some ==> tl.len() == 1);
    assert(fill is Some ==> tf.len() == 1);
    assert(right is Some ==> tr.len() == 1);
    assert(forall|t: int| 0 <= t < col.len() ==> (#[trigger] col[t]).0 == "titlebarcolor"@ || col[t].0 == "titletext"@);
    assert(forall|t: int| 0 <= t < pl.len() ==> (#[trigger] pl[t]).0 == "gentitle"@);
    let n1 = tl.len() as int;
    let n2 = n1 + tf.len();
    let n3 = n2 + tr.len();
    let n4 = n3 + col.len();
    assert forall|t: int| 0 <= t < es.len() implies #[trigger] es[t] == (if t < n1 {
        tl[t]
    } else if t < n2 {
        tf[t - n1]
    } else if t < n3 {
        tr[t - n2]
    } else if t < n4 {
        col[t - n3]
    } else {
        pl[t - n4]
    }) by {
    }
    if left is Some {
        assert(es[0] == tl[0]);
    }
    if fill is Some {
        assert(es[n1] == tf[0]);
    }
    if right is Some {
        assert(es[n2] == tr[0]);
    }
    if !from_gen {
        assert(pl == seq![("gentitle"@, "transparent"@)]);
        assert(es[n4] == pl[0]);
    }
    assert("titletext"@.len() == 9 && "titlebarcolor"@.len() == 13 && "gentitle"@.len() == 8);
    assert("gentl"@.len() == 5 && "gentr"@.len() == 5 && "genfill"@.len() == 7);
    assert("gentl"@ =~= seq!['g', 'e', 'n', 't', 'l'] && "gentr"@ =~= seq!['g', 'e', 'n', 't', 'r']);
    assert forall|t: int| 0 <= t < es.len() && (#[trigger] es[t]).0 == "gentl"@ implies (left is Some
        && es[t].1 == data_url(pre, left->0)) by {
        if t >= n1 && t < n2 {
            assert(es[t].0 == "genfill"@);
        } else if t >= n2 && t < n3 {
            assert(es[t].0 == "gentr"@);
        } else if t >= n3 && t < n4 {
            assert(es[t].0 == "titlebarcolor"@ || es[t].0 == "titletext"@);
        } else if t >= n4 {
            assert(es[t].0 == "gentitle"@);
        }
    }
    assert forall|t: int| 0 <= t < es.len() && (#[trigger] es[t]).0 == "genfill"@ implies (fill is Some
        && es[t].1 == data_url(pre, fill->0)) by {
        if t < n1 {
            assert(es[t].0 == "gentl"@);
        } else if t >= n2 && t < n3 {
            assert(es[t].0 == "gentr"@);
        } else if t >= n3 && t < n4 {
            assert(es[t].0 == "titlebarcolor"@ || es[t].0 == "titletext"@);
        } else if t >= n4 {
            assert(es[t].0 == "gentitle"@);
        }
    }
    assert forall|t: int| 0 <= t < es.len() && (#[trigger] es[t]).0 == "gentr"@ implies (right is Some
        && es[t].1 == data_url(pre, right->0)) by {
        if t < n1 {
            assert(es[t].0 == "gentl"@);
        } else if t >= n1 && t < n2 {
            assert(es[t].0 == "genfill"@);
        } else if t >= n3 && t < n4 {
            assert(es[t].0 == "titlebarcolor"@ || es[t].0 == "titletext"@);
        } else if t >= n4 {
            assert(es[t].0 == "gentitle"@);
        }
    }
    assert forall|t: int| 0 <= t < es.len() && (#[trigger] es[t]).0 == "titletext"@ implies (titlebar_average(
        sheet,
        from_gen,
    ) matches Some((r, g, b)) && (299 * r + 587 * g + 114 * b > 140000 ==> es[t].1 == "#101014"@) && (299 * r
        + 587 * g + 114 * b < 140000 ==> es[t].1 == "#f0f2f8"@)) by {
        if t < n1 {
            assert(es[t].0 == "gentl"@);
        } else if t < n2 {
            assert(es[t].0 == "genfill"@);
        } else if t < n3 {
            assert(es[t].0 == "gentr"@);
        } else if t >= n4 {
            assert(es[t].0 == "gentitle"@);
        } else {
            assert(col.len() == 2);
            if t - n3 == 0 {
                assert(es[t].0 == "titlebarcolor"@);
            }
        }
    }
}

/// The palette pixels GENEX.BMP documents along its top row: `(variable, x)`.
pub open spec fn genex_color_table() -> Seq<(Seq<char>, u32)> {
    seq![
        ("genexitembg"@, 48u32),
        ("genexitemfg"@, 50u32),
        ("genexwndbg"@, 52u32),
        ("genexbtntext"@, 54u32),
        ("genexwndtext"@, 56u32),
        ("genexdivider"@, 58u32),
        ("genexselbg"@, 60u32),
        ("genexhdrbg"@, 62u32),
        ("genexhdrtext"@, 64u32),
    ]
}

fn genex_color_slot(k: usize) -> (r: (&'static str, u32))
    requires
        k < 9,
    ensures
        (r.0@, r.1) == genex_color_table()[k as int],
{
    match k {
        0 => ("genexitembg", 48),
        1 => ("genexitemfg", 50),
        2 => ("genexwndbg", 52),
        3 => ("genexbtntext", 54),
        4 => ("genexwndtext", 56),
        5 => ("genexdivider", 58),
        6 => ("genexselbg", 60),
        7 => ("genexhdrbg", 62),
        _ => ("genexhdrtext", 64),
    }
}

/// The palette colours of the first `k` table slots that lie inside the image.
pub open spec fn genex_color_entries(g: PixView, k: int) -> Seq<(Seq<char>, Seq<char>)>
    decreases k,
{
    if k <= 0 {
        Seq::empty()
    } else {
        let (var, x) = genex_color_table()[k - 1];
        genex_color_entries(g, k - 1) + if x < g.width && g.height > 0 {
            seq![(var, hex_color(sample(g, x as int, 0, 0), sample(g, x as int, 0, 1), sample(g, x as int, 0, 2)))]
        } else {
            Seq::empty()
        }
    }
}

/// The generic button face, normal and pressed, when the sheet holds them.
pub open spec fn genex_button_entries(g: PixView) -> Seq<(Seq<char>, Seq<char>)> {
    (if g.width >= 47 && g.height >= 15 {
        tile_entry(g, "genexbtn"@, 0, 0, 47, 15)
    } else {
        Seq::empty()
    }) + (if g.width >= 47 && g.height >= 30 {
        tile_entry(g, "genexbtnp"@, 0, 15, 47, 15)
    } else {
        Seq::empty()
    })
}

/// The media-library palette and button faces of a decoded GENEX.BMP.
pub open spec fn genex_entries(g: PixView) -> Seq<(Seq<char>, Seq<char>)> {
    genex_color_entries(g, 9) + genex_button_entries(g)
}

proof fn lemma_genex_color_keys(g: PixView, k: int)
    requires
        0 <= k <= 9,
    ensures
        forall|t: int| 0 <= t < genex_color_entries(g, k).len() ==> exists|j: int|
            0 <= j < k && (#[trigger] genex_color_entries(g, k)[t]).0 == genex_color_table()[j].0,
    decreases k,
{
    if k > 0 {
        lemma_genex_color_keys(g, k - 1);
        let prev = genex_color_entries(g, k - 1);
        let cur = genex_color_entries(g, k);
        assert forall|t: int| 0 <= t < cur.len() implies exists|j: int|
            0 <= j < k && (#[trigger] cur[t]).0 == genex_color_table()[j].0 by {
            if t < prev.len() {
                assert(cur[t] == prev[t]);
                let j = choose|j: int| 0 <= j < k - 1 && (#[trigger] prev[t]).0 == genex_color_table()[j].0;
            } else {
                assert(cur[t].0 == genex_color_table()[k - 1].0);
            }
        }
    }
}

/// The button faces GENEX.BMP gives the media library: the normal face is
/// the 47x15 block at its top-left corner, and the pressed face is the 47x15
/// block right under it. Each is served, as the PNG data URL of that block,
/// exactly when the sheet is big enough to hold it and the block encodes;
/// nothing else is served under those names.
pub proof fn law_genex_button_faces(g: PixView)
    ensures
        ({
            let es = genex_entries(g);
            let normal = png_encoding(crop_view(g, 0, 0, 47, 15));
            let pressed = png_encoding(crop_view(g, 0, 15, 47, 15));
            &&& forall|t: int| 0 <= t < es.len() && (#[trigger] es[t]).0 == "genexbtn"@ ==> (g.width >= 47
                && g.height >= 15 && normal is Some && es[t].1 == data_url("data:image/png;base64,"@, normal->0))
            &&& forall|t: int| 0 <= t < es.len() && (#[trigger] es[t]).0 == "genexbtnp"@ ==> (g.width >= 47
                && g.height >= 30 && pressed is Some && es[t].1 == data_url("data:image/png;base64,"@, pressed->0))
            &&& (g.width >= 47 && g.height >= 15 && normal is Some) ==> es.contains(
                ("genexbtn"@, data_url("data:image/png;base64,"@, normal->0)),
            )
            &&& (g.width >= 47 && g.height >= 30 && pressed is Some) ==> es.contains(
                ("genexbtnp"@, data_url("data:image/png;base64,"@, pressed->0)),
            )
        }),
{
    reveal_strlit("genexbtn");
    reveal_strlit("genexbtnp");
    reveal_strlit("genexitembg");
    reveal_strlit("genexitemfg");
    reveal_strlit("genexwndbg");
    reveal_strlit("genexbtntext");
    reveal_strlit("genexwndtext");
    reveal_strlit("genexdivider");
    reveal_strlit("genexselbg");
    reveal_strlit("genexhdrbg");
    reveal_strlit("genexhdrtext");
    lemma_genex_color_keys(g, 9);
    let colors = genex_color_entries(g, 9);
    let buttons = genex_button_entries(g);
    let es = genex_entries(g);
    let table = genex_color_table();
    assert("genexbtn"@.len() == 8 && "genexbtnp"@.len() == 9);
    assert forall|j: int| 0 <= j < 9 implies table[j].0 != "genexbtn"@ && table[j].0 != "genexbtnp"@ by {
        if j == 0 { assert(table[j].0.len() == 11); }
        else if j == 1 { assert(table[j].0.len() == 11); }
        else if j == 2 { assert(table[j].0.len() == 10); }
        else if j == 3 { assert(table[j].0.len() == 12); }
        else if j == 4 { assert(table[j].0.len() == 12); }
        else if j == 5 { assert(table[j].0.len() == 12); }
        else if j == 6 { assert(table[j].0.len() == 10); }
        else if j == 7 { assert(table[j].0.len() == 10); }
        else { assert(table[j].0.len() == 12); }
    }
    let a = if g.width >= 47 && g.height >= 15 { tile_entry(g, "genexbtn"@, 0, 0, 47, 15) } else { Seq::empty() };
    let b = if g.width >= 47 && g.height >= 30 { tile_entry(g, "genexbtnp"@, 0, 15, 47, 15) } else { Seq::empty() };
    assert(buttons == a + b);
    assert forall|t: int| 0 <= t < es.len() && (#[trigger] es[t]).0 == "genexbtn"@ || 0 <= t < es.len() && es[t].0 == "genexbtnp"@
        implies t >= colors.len() by {
        if t < colors.len() {
            assert(es[t] == colors[t]);
            let j = choose|j: int| 0 <= j < 9 && (#[trigger] colors[t]).0 == table[j].0;
        }
    }
    assert forall|t: int| colors.len() <= t < es.len() implies #[trigger] es[t] == (a + b)[t - colors.len()] by {
    }
    assert("genexbtn"@ != "genexbtnp"@) by {
        assert("genexbtn"@.len() != "genexbtnp"@.len());
    }
    let normal = png_encoding(crop_view(g, 0, 0, 47, 15));
    let pressed = png_encoding(crop_view(g, 0, 15, 47, 15));
    let pre = "data:image/png;base64,"@;
    assert(a.len() <= 1 && b.len() <= 1);
    assert(a.len() == 1 ==> g.width >= 47 && g.height >= 15 && normal is Some && a[0] == ("genexbtn"@, data_url(pre, normal->0)));
    assert(b.len() == 1 ==> g.width >= 47 && g.height >= 30 && pressed is Some && b[0] == ("genexbtnp"@, data_url(pre, pressed->0)));
    assert forall|t: int| 0 <= t < es.len() && (#[trigger] es[t]).0 == "genexbtn"@ implies (g.width >= 47
        && g.height >= 15 && normal is Some && es[t].1 == data_url(pre, normal->0)) by {
        let u = t - colors.len();
        assert(es[t] == (a + b)[u]);
        if u >= a.len() {
            assert((a + b)[u] == b[u - a.len()]);
        } else {
            assert((a + b)[u] == a[u]);
        }
    }
    assert forall|t: int| 0 <= t < es.len() && (#[trigger] es[t]).0 == "genexbtnp"@ implies (g.width >= 47
        && g.height >= 30 && pressed is Some && es[t].1 == data_url(pre, pressed->0)) by {
        let u = t - colors.len();
        assert(es[t] == (a + b)[u]);
        if u >= a.len() {
            assert((a + b)[u] == b[u - a.len()]);
        } else {
            assert((a + b)[u] == a[u]);
        }
    }
    if g.width >= 47 && g.height >= 15 && normal is Some {
        assert(es[colors.len() as int] == a[0]);
    }
    if g.width >= 47 && g.height >= 30 && pressed is Some {
        assert(es[(colors.len() + a.len()) as int] == b[0]);
    }
}

/// The palette colours and button faces GENEX.BMP defines.
pub fn genex_pairs(g: &Pixmap) -> (r: Vec<(String, String)>)
    requires
        pixmap_wf(g@),
    ensures
        pairs_view(r@) == genex_entries(g@),
{
    let mut out: Vec<(String, String)> = Vec::new();
    let mut k: usize = 0;
    assert(pairs_view(out@) =~= genex_color_entries(g@, 0));
    while k < 9
        invariant
            k <= 9,
            pixmap_wf(g@),
            pairs_view(out@) == genex_color_entries(g@, k as int),
        decreases 9 - k,
    {
        let (var, x) = genex_color_slot(k);
        let ghost before = pairs_view(out@);
        if x < g.width && g.height > 0 {
            let (r, gg, b) = pixel_rgb(g, x, 0);
            let hex = format_hex_color(r, gg, b);
            out.push((var.to_owned(), string_from_chars(&hex)));
        }
        assert(pairs_view(out@) =~= genex_color_entries(g@, k + 1));
        k += 1;
    }
    let ghost colors = pairs_view(out@);
    if g.width >= 47 && g.height >= 15 {
        push_tile(&mut out, g, "genexbtn", 0, 0, 47, 15);
    }
    if g.width >= 47 && g.height >= 30 {
        push_tile(&mut out, g, "genexbtnp", 0, 15, 47, 15);
    }
    assert(pairs_view(out@) =~= colors + genex_button_entries(g@));
    out
}

} // verus!
