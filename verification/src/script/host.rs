//! The computations behind the scripting host's functions: image access and
//! cell matching, palette snapping, bulk number parsing, the string helpers,
//! and turning a script's return value into bytes. The scripting engine
//! registers these; their errors are the messages a script sees.

use vstd::prelude::*;
use crate::media::png::{decode_png_rgba, png_rgba_decoding};
use crate::text::{
    chars_of, char_from_u32, decimal, digits_value, find_at, find_from, is_scalar, lemma_find_from,
    occurs_at, push_all, push_decimal, push_signed, push_str, signed_decimal, string_of, sub_chars,
    trim, trim_vec, push_char, signed_value, int_error_text, parse_i64, split_char, split_on,
    vviews,
};

verus! {

/// Append `i` to `v` in decimal, with a minus sign when it is negative.
fn put_int(v: &mut Vec<char>, i: i64)
    ensures
        final(v)@ == old(v)@ + signed_decimal(i as int),
{
    push_signed(v, i)
}

// ---------------------------------------------------------------------------
// Shades and palette snapping
// ---------------------------------------------------------------------------

/// How many of the ascending thresholds `value` reaches, from index `i`.
pub open spec fn reached(value: int, thresholds: Seq<i64>) -> int
    decreases thresholds.len(),
{
    if thresholds.len() == 0 {
        0
    } else {
        reached(value, thresholds.drop_last()) + if value >= thresholds.last() {
            1int
        } else {
            0int
        }
    }
}

/// The NES shade (0..4) of a grayscale value: the midpoints between the four
/// shades 0, 85, 170 and 255 are 43, 128 and 213.
pub open spec fn nes_shade(value: int) -> int {
    (if value >= 43 {
        1int
    } else {
        0int
    }) + (if value >= 128 {
        1int
    } else {
        0int
    }) + (if value >= 213 {
        1int
    } else {
        0int
    })
}

/// The palette index for `value` snapped to bands delimited by
/// `thresholds`: how many of them it reaches.
pub fn quantize_scalar(value: i64, thresholds: &[i64]) -> (r: i64)
    requires
        thresholds.len() <= i64::MAX,
    ensures
        r == reached(value as int, thresholds@),
{
    let mut idx: i64 = 0;
    let mut i: usize = 0;
    assert(thresholds@.take(0) =~= Seq::<i64>::empty());
    while i < thresholds.len()
        invariant
            i <= thresholds.len(),
            thresholds.len() <= i64::MAX,
            0 <= idx <= i,
            idx == reached(value as int, thresholds@.take(i as int)),
        decreases thresholds.len() - i,
    {
        assert(thresholds@.take(i + 1).drop_last() =~= thresholds@.take(i as int));
        if value >= thresholds[i] {
            idx += 1;
        }
        i += 1;
    }
    assert(thresholds@.take(thresholds.len() as int) =~= thresholds@);
    idx
}

/// `quantize` over a list of values.
pub fn quantize_values(values: &[i64], thresholds: &[i64]) -> (r: Vec<i64>)
    requires
        thresholds.len() <= i64::MAX,
    ensures
        r@.len() == values@.len(),
        forall|i: int| 0 <= i < values@.len() ==> r@[i] == reached(values@[i] as int, thresholds@),
{
    let mut out: Vec<i64> = Vec::new();
    let mut i: usize = 0;
    while i < values.len()
        invariant
            i <= values.len(),
            thresholds.len() <= i64::MAX,
            out@.len() == i,
            forall|j: int| 0 <= j < i ==> out@[j] == reached(values@[j] as int, thresholds@),
        decreases values.len() - i,
    {
        out.push(quantize_scalar(values[i], thresholds));
        i += 1;
    }
    out
}

/// Snap a grayscale value to NES palette index 0 to 3.
pub fn nes_shade_of(value: i64) -> (r: i64)
    ensures
        r == nes_shade(value as int),
{
    let mut n: i64 = 0;
    if value >= 43 {
        n += 1;
    }
    if value >= 128 {
        n += 1;
    }
    if value >= 213 {
        n += 1;
    }
    n
}

/// `nes_shade` over a list of values.
pub fn nes_shade_values(values: &[i64]) -> (r: Vec<i64>)
    ensures
        r@.len() == values@.len(),
        forall|i: int| 0 <= i < values@.len() ==> r@[i] == nes_shade(values@[i] as int),
{
    let mut out: Vec<i64> = Vec::new();
    let mut i: usize = 0;
    while i < values.len()
        invariant
            i <= values.len(),
            out@.len() == i,
            forall|j: int| 0 <= j < i ==> out@[j] == nes_shade(values@[j] as int),
        decreases values.len() - i,
    {
        out.push(nes_shade_of(values[i]));
        i += 1;
    }
    out
}

// ---------------------------------------------------------------------------
// Images
// ---------------------------------------------------------------------------

/// A decoded image as scripts see it.
pub struct ImageData {
    pub width: usize,
    pub height: usize,
    /// `width * height * 4` bytes, row-major `R, G, B, A`.
    pub rgba: Vec<u8>,
    /// `width * height` NES shades, one per pixel, of its red channel.
    pub shades: Vec<u8>,
}

impl ImageData {
    /// The planes have the sizes the dimensions give, and each shade is the
    /// NES shade of its pixel's red channel.
    pub open spec fn wf(&self) -> bool {
        &&& self.width <= u32::MAX
        &&& self.height <= u32::MAX
        &&& self.rgba.len() == self.width as int * self.height as int * 4
        &&& self.shades.len() == self.width as int * self.height as int
        &&& forall|k: int|
            0 <= k < self.shades.len() ==> self.shades@[k] as int == nes_shade(
                self.rgba@[4 * k] as int,
            )
    }

    /// The red channel of pixel `(x, y)`.
    pub open spec fn red(&self, x: int, y: int) -> int {
        self.rgba@[4 * (y * self.width + x)] as int
    }

    /// The shade of pixel `(x, y)`.
    pub open spec fn shade_at(&self, x: int, y: int) -> int {
        self.shades@[y * self.width + x] as int
    }

    /// The byte offset of pixel `(x, y)` in the RGBA plane.
    pub fn offset(&self, x: usize, y: usize) -> (r: usize)
        requires
            self.wf(),
            x < self.width,
            y < self.height,
        ensures
            r == (y * self.width + x) * 4,
            r + 4 <= self.rgba.len(),
    {
        proof {
            lemma_index_in(x as int, y as int, self.width as int, self.height as int);
        }
        (y * self.width + x) * 4
    }

    /// The shades of the pixel row `[x0, x0 + w)` at `y`.
    pub fn shade_row(&self, x0: usize, y: usize, w: usize) -> (r: &[u8])
        requires
            self.wf(),
            x0 + w <= self.width,
            y < self.height,
        ensures
            r@ == self.shades@.subrange(
                y * self.width + x0,
                y * self.width + x0 + w,
            ),
    {
        assert(y * self.width + x0 + w <= self.width * self.height) by (nonlinear_arith)
            requires
                x0 + w <= self.width,
                y < self.height,
        ;
        assert(0 <= y * self.width) by (nonlinear_arith)
            requires
                0 <= y,
                0 <= self.width,
        ;
        let start = y * self.width + x0;
        vstd::slice::slice_subrange(self.shades.as_slice(), start, start + w)
    }
}

/// `img.width`: the width in pixels.
pub fn img_width(img: &ImageData) -> (r: i64)
    requires
        img.wf(),
    ensures
        r == img.width,
{
    img.width as i64
}

/// `img.height`: the height in pixels.
pub fn img_height(img: &ImageData) -> (r: i64)
    requires
        img.wf(),
    ensures
        r == img.height,
{
    img.height as i64
}

/// Decode PNG bytes into an image handle's data, with its shades.
pub fn decode_image(blob: &[u8]) -> (r: Result<ImageData, String>)
    ensures
        match png_rgba_decoding(blob@) {
            Some((w, h, v)) => r matches Ok(img) && img.wf() && img.width == w && img.height == h
                && img.rgba@ == v,
            None => r matches Err(m) && m@ == "decode_png: input is not a valid PNG"@,
        },
{
    let p = match decode_png_rgba(blob) {
        Ok(p) => p,
        Err(_) => {
            return Err(String::from_str("decode_png: input is not a valid PNG"));
        },
    };
    let n = p.width as usize * p.height as usize;
    let mut shades: Vec<u8> = Vec::new();
    let mut k: usize = 0;
    while k < n
        invariant
            k <= n,
            n == p.width as int * p.height as int,
            p.rgba.len() == n * 4,
            shades.len() == k,
            forall|j: int| 0 <= j < k ==> shades@[j] as int == nes_shade(p.rgba@[4 * j] as int),
        decreases n - k,
    {
        let s = nes_shade_of(p.rgba[4 * k] as i64);
        shades.push(s as u8);
        k += 1;
    }
    Ok(ImageData { width: p.width as usize, height: p.height as usize, rgba: p.rgba, shades })
}

/// A pixel inside a `width`×`height` grid has an index inside it.
proof fn lemma_index_in(x: int, y: int, width: int, height: int)
    requires
        0 <= x < width,
        0 <= y < height,
    ensures
        0 <= y * width + x < width * height,
{
    assert(y * width + x < width * height) by (nonlinear_arith)
        requires
            0 <= x < width,
            0 <= y < height,
    ;
    assert(0 <= y * width) by (nonlinear_arith)
        requires
            0 <= y,
            0 <= width,
    ;
}

/// Whether `(x, y)` is a pixel of `img`.
pub open spec fn in_image(img: &ImageData, x: int, y: int) -> bool {
    0 <= x < img.width && 0 <= y < img.height
}

/// The message for a pixel outside the image.
pub open spec fn pixel_message(call: Seq<char>, img: &ImageData, x: int, y: int) -> Seq<char> {
    call + ": pixel ("@ + signed_decimal(x) + ", "@ + signed_decimal(y) + ") is out of bounds for "@
        + signed_decimal(img.width as int) + "x"@ + signed_decimal(img.height as int) + " image"@
}

/// Check that pixel `(x, y)` is inside `img`, naming `call` in the error.
pub fn pixel_in_bounds(call: &str, img: &ImageData, x: i64, y: i64) -> (r: Result<(), String>)
    requires
        img.wf(),
    ensures
        in_image(img, x as int, y as int) ==> r is Ok,
        !in_image(img, x as int, y as int) ==> (r matches Err(m) && m@ == pixel_message(
            call@,
            img,
            x as int,
            y as int,
        )),
{
    let w = img.width as i64;
    let h = img.height as i64;
    if x < 0 || y < 0 || x >= w || y >= h {
        let mut m = chars_of(call);
        push_str(&mut m, ": pixel (");
        put_int(&mut m, x);
        push_str(&mut m, ", ");
        put_int(&mut m, y);
        push_str(&mut m, ") is out of bounds for ");
        put_int(&mut m, w);
        push_str(&mut m, "x");
        put_int(&mut m, h);
        push_str(&mut m, " image");
        return Err(string_of(&m));
    }
    Ok(())
}

/// `img.r(x, y)`: the red channel of pixel `(x, y)`.
pub fn img_channel_r(img: &ImageData, x: i64, y: i64) -> (r: Result<i64, String>)
    requires
        img.wf(),
    ensures
        in_image(img, x as int, y as int) ==> r == Ok::<i64, String>(img.red(x as int, y as int) as i64),
        !in_image(img, x as int, y as int) ==> (r matches Err(m) && m@ == pixel_message(
            "r"@,
            img,
            x as int,
            y as int,
        )),
{
    match pixel_in_bounds("r", img, x, y) {
        Err(m) => Err(m),
        Ok(()) => {
            proof {
                lemma_index_in(x as int, y as int, img.width as int, img.height as int);
            }
            let k = (y as usize) * img.width + (x as usize);
            Ok(img.rgba[4 * k] as i64)
        },
    }
}

/// The four channels of pixel `(x, y)`.
pub open spec fn pixel_channels(img: &ImageData, x: int, y: int) -> Seq<i64> {
    let k = 4 * (y * img.width + x);
    seq![img.rgba@[k] as i64, img.rgba@[k + 1] as i64, img.rgba@[k + 2] as i64, img.rgba@[k + 3] as i64]
}

/// `img.pixel(x, y)`: the pixel as `[r, g, b, a]`.
pub fn img_pixel(img: &ImageData, x: i64, y: i64) -> (r: Result<Vec<i64>, String>)
    requires
        img.wf(),
    ensures
        in_image(img, x as int, y as int) ==> (r matches Ok(v) && v@ == pixel_channels(
            img,
            x as int,
            y as int,
        )),
        !in_image(img, x as int, y as int) ==> (r matches Err(m) && m@ == pixel_message(
            "pixel"@,
            img,
            x as int,
            y as int,
        )),
{
    match pixel_in_bounds("pixel", img, x, y) {
        Err(m) => Err(m),
        Ok(()) => {
            proof {
                lemma_index_in(x as int, y as int, img.width as int, img.height as int);
            }
            let base = 4 * ((y as usize) * img.width + (x as usize));
            let v = vec![
                img.rgba[base] as i64,
                img.rgba[base + 1] as i64,
                img.rgba[base + 2] as i64,
                img.rgba[base + 3] as i64,
            ];
            assert(v@ =~= pixel_channels(img, x as int, y as int));
            Ok(v)
        },
    }
}

/// `img.pixels`: every channel of every pixel, row-major.
pub fn img_pixels(img: &ImageData) -> (r: Vec<i64>)
    ensures
        r@.len() == img.rgba@.len(),
        forall|i: int| 0 <= i < r@.len() ==> r@[i] == img.rgba@[i] as i64,
{
    let mut out: Vec<i64> = Vec::new();
    let mut i: usize = 0;
    while i < img.rgba.len()
        invariant
            i <= img.rgba.len(),
            out@.len() == i,
            forall|j: int| 0 <= j < i ==> out@[j] == img.rgba@[j] as i64,
        decreases img.rgba.len() - i,
    {
        out.push(img.rgba[i] as i64);
        i += 1;
    }
    out
}

/// The red channels of the `w`-wide run of pixels from `(x0, y)`.
pub open spec fn red_run(img: &ImageData, x0: int, y: int, w: int) -> Seq<i64> {
    Seq::new(w as nat, |i: int| img.red(x0 + i, y) as i64)
}

/// The red channels of the first `rows` rows of the block at `(x0, y0)`,
/// `w` pixels wide, row-major.
pub open spec fn red_block(img: &ImageData, x0: int, y0: int, w: int, rows: int) -> Seq<i64>
    decreases rows,
{
    if rows <= 0 {
        Seq::empty()
    } else {
        red_block(img, x0, y0, w, rows - 1) + red_run(img, x0, y0 + rows - 1, w)
    }
}

/// Whether the `tw`×`th` tile at `(col, row)` lies inside the image.
pub open spec fn tile_inside(img: &ImageData, col: int, row: int, tw: int, th: int) -> bool {
    col >= 0 && row >= 0 && col * tw + tw <= img.width && row * th + th <= img.height
}

/// `img.tile(col, row, tw, th)`: the red channels of the `tw`×`th` block at
/// tile `(col, row)`, row-major.
pub fn img_tile(img: &ImageData, col: i64, row: i64, tw: i64, th: i64) -> (r: Result<
    Vec<i64>,
    String,
>)
    requires
        img.wf(),
    ensures
        !(tw > 0 && th > 0) ==> (r matches Err(m) && m@ == "tile size must be positive, got "@
            + signed_decimal(tw as int) + "x"@ + signed_decimal(th as int)),
        tw > 0 && th > 0 && !tile_inside(img, col as int, row as int, tw as int, th as int) ==> (r matches Err(m)
            && m@ == "tile ("@ + signed_decimal(col as int) + ", "@ + signed_decimal(row as int)
            + ") of size "@ + signed_decimal(tw as int) + "x"@ + signed_decimal(th as int)
            + " is out of bounds for "@ + signed_decimal(img.width as int) + "x"@ + signed_decimal(
            img.height as int,
        ) + " image"@),
        tw > 0 && th > 0 && tile_inside(img, col as int, row as int, tw as int, th as int) ==> (r matches Ok(v)
            && v@ == red_block(img, col * tw, row * th, tw as int, th as int)),
{
    if tw <= 0 || th <= 0 {
        let mut m = chars_of("tile size must be positive, got ");
        put_int(&mut m, tw);
        push_str(&mut m, "x");
        put_int(&mut m, th);
        return Err(string_of(&m));
    }
    let w = img.width as i128;
    let h = img.height as i128;
    let inside = if col < 0 || row < 0 {
        false
    } else {
        assert((col as i128) * (tw as i128) <= 0x7FFF_FFFF_FFFF_FFFFi128 * 0x7FFF_FFFF_FFFF_FFFFi128)
            by (nonlinear_arith)
            requires
                0 <= col,
                0 < tw,
        ;
        assert((row as i128) * (th as i128) <= 0x7FFF_FFFF_FFFF_FFFFi128 * 0x7FFF_FFFF_FFFF_FFFFi128)
            by (nonlinear_arith)
            requires
                0 <= row,
                0 < th,
        ;
        (col as i128) * (tw as i128) + (tw as i128) <= w && (row as i128) * (th as i128) + (
        th as i128) <= h
    };
    if !inside {
        let mut m = chars_of("tile (");
        put_int(&mut m, col);
        push_str(&mut m, ", ");
        put_int(&mut m, row);
        push_str(&mut m, ") of size ");
        put_int(&mut m, tw);
        push_str(&mut m, "x");
        put_int(&mut m, th);
        push_str(&mut m, " is out of bounds for ");
        put_int(&mut m, img.width as i64);
        push_str(&mut m, "x");
        put_int(&mut m, img.height as i64);
        push_str(&mut m, " image");
        return Err(string_of(&m));
    }
    assert(col <= col * tw && tw <= col * tw + tw) by (nonlinear_arith)
        requires
            col >= 0,
            tw >= 1,
    ;
    assert(row <= row * th && th <= row * th + th) by (nonlinear_arith)
        requires
            row >= 0,
            th >= 1,
    ;
    let x0 = (col as usize) * (tw as usize);
    let y0 = (row as usize) * (th as usize);
    let tw = tw as usize;
    let th = th as usize;
    let mut out: Vec<i64> = Vec::new();
    let mut py: usize = 0;
    while py < th
        invariant
            py <= th,
            img.wf(),
            x0 + tw <= img.width,
            y0 + th <= img.height,
            out@ == red_block(img, x0 as int, y0 as int, tw as int, py as int),
        decreases th - py,
    {
        let ghost start = out@;
        let mut px: usize = 0;
        while px < tw
            invariant
                px <= tw,
                py < th,
                img.wf(),
                x0 + tw <= img.width,
                y0 + th <= img.height,
                out@ == start + red_run(img, x0 as int, (y0 + py) as int, tw as int).take(px as int),
            decreases tw - px,
        {
            proof {
                lemma_index_in((x0 + px) as int, (y0 + py) as int, img.width as int, img.height as int);
            }
            let k = (y0 + py) * img.width + (x0 + px);
            out.push(img.rgba[4 * k] as i64);
            assert(out@ =~= start + red_run(img, x0 as int, (y0 + py) as int, tw as int).take(
                px + 1,
            ));
            px += 1;
        }
        assert(red_run(img, x0 as int, (y0 + py) as int, tw as int).take(tw as int) =~= red_run(
            img,
            x0 as int,
            (y0 + py) as int,
            tw as int,
        ));
        py += 1;
    }
    Ok(out)
}

// ---------------------------------------------------------------------------
// Cell matching
// ---------------------------------------------------------------------------

/// The message for a cell size that is not positive.
pub open spec fn size_message(call: Seq<char>, w: int, h: int) -> Seq<char> {
    call + ": cell size must be positive, got "@ + signed_decimal(w) + "x"@ + signed_decimal(h)
}

/// Validate a cell size, naming `call` in the error.
pub fn cell_size(call: &str, w: i64, h: i64) -> (r: Result<(usize, usize), String>)
    ensures
        w > 0 && h > 0 ==> r == Ok::<(usize, usize), String>((w as usize, h as usize)),
        !(w > 0 && h > 0) ==> (r matches Err(m) && m@ == size_message(call@, w as int, h as int)),
{
    if w <= 0 || h <= 0 {
        let mut m = chars_of(call);
        push_str(&mut m, ": cell size must be positive, got ");
        put_int(&mut m, w);
        push_str(&mut m, "x");
        put_int(&mut m, h);
        return Err(string_of(&m));
    }
    Ok((w as usize, h as usize))
}

/// Whether the `w`×`h` cell at grid position `(col, row)` lies inside `img`.
pub open spec fn cell_inside(img: &ImageData, col: int, row: int, w: int, h: int) -> bool {
    col >= 0 && row >= 0 && col * w + w <= img.width && row * h + h <= img.height
}

/// The message for a cell outside the image.
pub open spec fn origin_message(call: Seq<char>, img: &ImageData, col: int, row: int, w: nat, h: nat) -> Seq<
    char,
> {
    call + ": cell ("@ + signed_decimal(col) + ", "@ + signed_decimal(row) + ") of size "@ + decimal(
        w,
    ) + "x"@ + decimal(h) + " is out of bounds for "@ + signed_decimal(img.width as int) + "x"@
        + signed_decimal(img.height as int) + " image"@
}

/// The top-left pixel of the `w`×`h` cell at grid position `(col, row)` of
/// `src`, or an error when the cell is not inside it.
pub fn cell_origin(call: &str, src: &ImageData, col: i64, row: i64, w: usize, h: usize) -> (r: Result<
    (usize, usize),
    String,
>)
    requires
        src.wf(),
        0 < w <= i64::MAX,
        0 < h <= i64::MAX,
    ensures
        cell_inside(src, col as int, row as int, w as int, h as int) ==> r == Ok::<
            (usize, usize),
            String,
        >(((col * w) as usize, (row * h) as usize)),
        !cell_inside(src, col as int, row as int, w as int, h as int) ==> (r matches Err(m) && m@
            == origin_message(call@, src, col as int, row as int, w as nat, h as nat)),
{
    let inside = if col < 0 || row < 0 {
        false
    } else {
        assert((col as i128) * (w as i128) <= 0x7FFF_FFFF_FFFF_FFFFi128 * 0x7FFF_FFFF_FFFF_FFFFi128)
            by (nonlinear_arith)
            requires
                0 <= col,
                0 < w <= 0x7FFF_FFFF_FFFF_FFFFi128,
        ;
        assert((row as i128) * (h as i128) <= 0x7FFF_FFFF_FFFF_FFFFi128 * 0x7FFF_FFFF_FFFF_FFFFi128)
            by (nonlinear_arith)
            requires
                0 <= row,
                0 < h <= 0x7FFF_FFFF_FFFF_FFFFi128,
        ;
        (col as i128) * (w as i128) + (w as i128) <= src.width as i128 && (row as i128) * (
        h as i128) + (h as i128) <= src.height as i128
    };
    if !inside {
        let mut m = chars_of(call);
        push_str(&mut m, ": cell (");
        put_int(&mut m, col);
        push_str(&mut m, ", ");
        put_int(&mut m, row);
        push_str(&mut m, ") of size ");
        push_decimal(&mut m, w as u64);
        push_str(&mut m, "x");
        push_decimal(&mut m, h as u64);
        push_str(&mut m, " is out of bounds for ");
        put_int(&mut m, src.width as i64);
        push_str(&mut m, "x");
        put_int(&mut m, src.height as i64);
        push_str(&mut m, " image");
        return Err(string_of(&m));
    }
    assert(col <= col * w) by (nonlinear_arith)
        requires
            col >= 0,
            w >= 1,
    ;
    assert(row <= row * h) by (nonlinear_arith)
        requires
            row >= 0,
            h >= 1,
    ;
    Ok(((col as usize) * w, (row as usize) * h))
}

/// The message for a bank with no whole cell.
pub open spec fn grid_message(call: Seq<char>, bank: &ImageData, w: nat, h: nat) -> Seq<char> {
    call + ": "@ + decimal(bank.width as nat) + "x"@ + decimal(bank.height as nat)
        + " bank image has no whole "@ + decimal(w) + "x"@ + decimal(h) + " cells"@
}

/// How the bank is gridded into `w`×`h` cells: whole columns and rows, the
/// ragged right and bottom edges left out; an error when no cell fits.
pub fn bank_grid(call: &str, bank: &ImageData, w: usize, h: usize) -> (r: Result<
    (usize, usize),
    String,
>)
    requires
        w > 0,
        h > 0,
    ensures
        bank.width / w > 0 && bank.height / h > 0 ==> r == Ok::<(usize, usize), String>(
            ((bank.width / w) as usize, (bank.height / h) as usize),
        ),
        !(bank.width / w > 0 && bank.height / h > 0) ==> (r matches Err(m) && m@ == grid_message(
            call@,
            bank,
            w as nat,
            h as nat,
        )),
{
    let cols = bank.width / w;
    let rows = bank.height / h;
    if cols == 0 || rows == 0 {
        let mut m = chars_of(call);
        push_str(&mut m, ": ");
        push_decimal(&mut m, bank.width as u64);
        push_str(&mut m, "x");
        push_decimal(&mut m, bank.height as u64);
        push_str(&mut m, " bank image has no whole ");
        push_decimal(&mut m, w as u64);
        push_str(&mut m, "x");
        push_decimal(&mut m, h as u64);
        push_str(&mut m, " cells");
        return Err(string_of(&m));
    }
    Ok((cols, rows))
}

/// The top-left pixel of cell `index` of a bank gridded into `cols` columns.
pub open spec fn bank_origin(index: int, cols: int, w: int, h: int) -> (int, int) {
    ((index % cols) * w, (index / cols) * h)
}

/// A cell of a bank lies inside it.
proof fn lemma_bank_cell_inside(index: int, cols: int, rows: int, w: int, h: int, bw: int, bh: int)
    requires
        0 <= index < cols * rows,
        cols == bw / w,
        rows == bh / h,
        w > 0,
        h > 0,
        bw >= 0,
        bh >= 0,
        cols > 0,
    ensures
        0 <= bank_origin(index, cols, w, h).0,
        bank_origin(index, cols, w, h).0 + w <= bw,
        0 <= bank_origin(index, cols, w, h).1,
        bank_origin(index, cols, w, h).1 + h <= bh,
{
    let c = index % cols;
    let r = index / cols;
    assert(0 <= c < cols) by (nonlinear_arith)
        requires
            c == index % cols,
            cols > 0,
            index >= 0,
    ;
    assert(0 <= r < rows) by (nonlinear_arith)
        requires
            r == index / cols,
            cols > 0,
            0 <= index < cols * rows,
    ;
    assert(c * w + w <= bw) by (nonlinear_arith)
        requires
            0 <= c < cols,
            cols == bw / w,
            w > 0,
            bw >= 0,
    ;
    assert(r * h + h <= bh) by (nonlinear_arith)
        requires
            0 <= r < rows,
            rows == bh / h,
            h > 0,
            bh >= 0,
    ;
    assert(0 <= c * w && 0 <= r * h) by (nonlinear_arith)
        requires
            0 <= c,
            0 <= r,
            w > 0,
            h > 0,
    ;
}

/// The top-left pixel of cell `index` of a bank gridded into `cols` columns.
pub fn bank_cell_origin(index: usize, cols: usize, w: usize, h: usize) -> (r: (usize, usize))
    requires
        cols > 0,
        (index % cols) * w <= usize::MAX,
        (index / cols) * h <= usize::MAX,
    ensures
        r.0 == bank_origin(index as int, cols as int, w as int, h as int).0,
        r.1 == bank_origin(index as int, cols as int, w as int, h as int).1,
{
    ((index % cols) * w, (index / cols) * h)
}

/// Whether pixel `(dx, dy)` of the cells at `(bx, by)` of `bank` and
/// `(sx, sy)` of `src` has the same shade in both.
pub open spec fn shade_eq(
    bank: &ImageData,
    bx: int,
    by: int,
    src: &ImageData,
    sx: int,
    sy: int,
    dx: int,
    dy: int,
) -> bool {
    bank.shade_at(bx + dx, by + dy) == src.shade_at(sx + dx, sy + dy)
}

/// Whether the cells at `(bx, by)` of `bank` and `(sx, sy)` of `src` have the
/// same shades everywhere in their `w`×`h` area.
pub open spec fn same_cell(
    bank: &ImageData,
    bx: int,
    by: int,
    src: &ImageData,
    sx: int,
    sy: int,
    w: int,
    h: int,
) -> bool {
    forall|dx: int, dy: int|
        0 <= dx < w && 0 <= dy < h ==> #[trigger] shade_eq(bank, bx, by, src, sx, sy, dx, dy)
}

/// Both cells lie inside their images.
pub open spec fn cells_fit(
    bank: &ImageData,
    bx: int,
    by: int,
    src: &ImageData,
    sx: int,
    sy: int,
    w: int,
    h: int,
) -> bool {
    &&& bank.wf()
    &&& src.wf()
    &&& 0 <= bx && bx + w <= bank.width
    &&& 0 <= by && by + h <= bank.height
    &&& 0 <= sx && sx + w <= src.width
    &&& 0 <= sy && sy + h <= src.height
}

/// Whether two cells draw the same thing: their NES shades agree pixel for
/// pixel.
pub fn cells_equal(
    bank: &ImageData,
    b: (usize, usize),
    src: &ImageData,
    s: (usize, usize),
    w: usize,
    h: usize,
) -> (r: bool)
    requires
        cells_fit(bank, b.0 as int, b.1 as int, src, s.0 as int, s.1 as int, w as int, h as int),
    ensures
        r == same_cell(bank, b.0 as int, b.1 as int, src, s.0 as int, s.1 as int, w as int, h as int),
{
    let (bx, by) = b;
    let (sx, sy) = s;
    let mut dy: usize = 0;
    while dy < h
        invariant
            dy <= h,
            cells_fit(bank, bx as int, by as int, src, sx as int, sy as int, w as int, h as int),
            b == (bx, by),
            s == (sx, sy),
            forall|ddx: int, ddy: int|
                0 <= ddx < w && 0 <= ddy < dy ==> #[trigger] shade_eq(
                    bank,
                    bx as int,
                    by as int,
                    src,
                    sx as int,
                    sy as int,
                    ddx,
                    ddy,
                ),
        decreases h - dy,
    {
        let mut dx: usize = 0;
        while dx < w
            invariant
                dx <= w,
                dy < h,
                cells_fit(bank, bx as int, by as int, src, sx as int, sy as int, w as int, h as int),
                b == (bx, by),
                s == (sx, sy),
            b == (bx, by),
            s == (sx, sy),
                forall|ddx: int, ddy: int|
                    0 <= ddx < w && 0 <= ddy < dy ==> #[trigger] shade_eq(
                        bank,
                        bx as int,
                        by as int,
                        src,
                        sx as int,
                        sy as int,
                        ddx,
                        ddy,
                    ),
                forall|ddx: int|
                    0 <= ddx < dx ==> #[trigger] shade_eq(
                        bank,
                        bx as int,
                        by as int,
                        src,
                        sx as int,
                        sy as int,
                        ddx,
                        dy as int,
                    ),
            decreases w - dx,
        {
            proof {
                lemma_index_in((bx + dx) as int, (by + dy) as int, bank.width as int, bank.height as int);
                lemma_index_in((sx + dx) as int, (sy + dy) as int, src.width as int, src.height as int);
            }
            let a = bank.shades[(by + dy) * bank.width + bx + dx];
            let c = src.shades[(sy + dy) * src.width + sx + dx];
            if a != c {
                assert(!shade_eq(bank, bx as int, by as int, src, sx as int, sy as int, dx as int, dy as int));
                assert(!same_cell(bank, bx as int, by as int, src, sx as int, sy as int, w as int, h as int));
                return false;
            }
            dx += 1;
        }
        dy += 1;
    }
    true
}

/// The summed shade difference along a row of `n` pixels.
pub open spec fn row_dist(
    bank: &ImageData,
    bx: int,
    by: int,
    src: &ImageData,
    sx: int,
    sy: int,
    n: int,
) -> int
    decreases n,
{
    if n <= 0 {
        0
    } else {
        let a = bank.shade_at(bx + n - 1, by);
        let c = src.shade_at(sx + n - 1, sy);
        row_dist(bank, bx, by, src, sx, sy, n - 1) + if a >= c {
            a - c
        } else {
            c - a
        }
    }
}

/// The summed shade difference over the first `rows` rows of two `w`-wide
/// cells.
pub open spec fn cell_dist(
    bank: &ImageData,
    bx: int,
    by: int,
    src: &ImageData,
    sx: int,
    sy: int,
    w: int,
    rows: int,
) -> int
    decreases rows,
{
    if rows <= 0 {
        0
    } else {
        cell_dist(bank, bx, by, src, sx, sy, w, rows - 1) + row_dist(
            bank,
            bx,
            by + rows - 1,
            src,
            sx,
            sy + rows - 1,
            w,
        )
    }
}

/// Each pixel adds at most 3 to a row's difference.
proof fn lemma_row_dist_bound(
    bank: &ImageData,
    bx: int,
    by: int,
    src: &ImageData,
    sx: int,
    sy: int,
    n: int,
)
    requires
        bank.wf(),
        src.wf(),
        0 <= n,
        0 <= bx && bx + n <= bank.width,
        0 <= by < bank.height,
        0 <= sx && sx + n <= src.width,
        0 <= sy < src.height,
    ensures
        0 <= row_dist(bank, bx, by, src, sx, sy, n) <= 3 * n,
    decreases n,
{
    if n > 0 {
        lemma_row_dist_bound(bank, bx, by, src, sx, sy, n - 1);
        lemma_index_in(bx + n - 1, by, bank.width as int, bank.height as int);
        lemma_index_in(sx + n - 1, sy, src.width as int, src.height as int);
    }
}

/// The summed absolute shade difference between two cells.
pub fn cells_distance(
    bank: &ImageData,
    b: (usize, usize),
    src: &ImageData,
    s: (usize, usize),
    w: usize,
    h: usize,
) -> (r: u64)
    requires
        cells_fit(bank, b.0 as int, b.1 as int, src, s.0 as int, s.1 as int, w as int, h as int),
    ensures
        r == cell_dist(bank, b.0 as int, b.1 as int, src, s.0 as int, s.1 as int, w as int, h as int),
{
    let (bx, by) = b;
    let (sx, sy) = s;
    proof {
        assert(w * h <= bank.width * bank.height) by (nonlinear_arith)
            requires
                w <= bank.width,
                h <= bank.height,
        ;
    }
    let mut total: u64 = 0;
    let mut dy: usize = 0;
    while dy < h
        invariant
            dy <= h,
            cells_fit(bank, bx as int, by as int, src, sx as int, sy as int, w as int, h as int),
            b == (bx, by),
            s == (sx, sy),
            w * h <= bank.width * bank.height,
            total == cell_dist(bank, bx as int, by as int, src, sx as int, sy as int, w as int, dy as int),
            total <= 3 * w * dy,
        decreases h - dy,
    {
        let mut row: u64 = 0;
        let mut dx: usize = 0;
        while dx < w
            invariant
                dx <= w,
                dy < h,
                cells_fit(bank, bx as int, by as int, src, sx as int, sy as int, w as int, h as int),
                b == (bx, by),
                s == (sx, sy),
            b == (bx, by),
            s == (sx, sy),
                row == row_dist(bank, bx as int, (by + dy) as int, src, sx as int, (sy + dy) as int, dx as int),
                row <= 3 * dx,
            decreases w - dx,
        {
            proof {
                lemma_index_in((bx + dx) as int, (by + dy) as int, bank.width as int, bank.height as int);
                lemma_index_in((sx + dx) as int, (sy + dy) as int, src.width as int, src.height as int);
            }
            let a = bank.shades[(by + dy) * bank.width + bx + dx];
            let c = src.shades[(sy + dy) * src.width + sx + dx];
            let d = if a >= c {
                a - c
            } else {
                c - a
            };
            row = row + d as u64;
            dx += 1;
        }
        assert(3 * w * dy + 3 * w == 3 * w * (dy + 1)) by (nonlinear_arith);
        assert(3 * w * (dy + 1) <= 3 * (w * h)) by (nonlinear_arith)
            requires
                dy < h,
        ;
        assert(bank.width * bank.height * 4 <= usize::MAX);
        total = total + row;
        dy += 1;
    }
    total
}

/// The checks every cell-matching call makes, in order: a positive cell
/// size, a source cell inside its image, a bank with a whole cell. Their
/// outcome: the cell size, the source cell's origin and the bank's columns
/// and rows, or the first failure's message.
pub open spec fn cell_checks(
    call: Seq<char>,
    bank: &ImageData,
    src: &ImageData,
    col: i64,
    row: i64,
    w: i64,
    h: i64,
) -> Result<(int, int, int, int, int, int), Seq<char>> {
    if !(w > 0 && h > 0) {
        Err(size_message(call, w as int, h as int))
    } else {
        let wu = w as usize as int;
        let hu = h as usize as int;
        if !cell_inside(src, col as int, row as int, wu, hu) {
            Err(origin_message(call, src, col as int, row as int, wu as nat, hu as nat))
        } else if !(bank.width as int / wu > 0 && bank.height as int / hu > 0) {
            Err(grid_message(call, bank, wu as nat, hu as nat))
        } else {
            Ok((wu, hu, col * wu, row * hu, bank.width as int / wu, bank.height as int / hu))
        }
    }
}

/// Run the checks of `cell_checks`.
fn check_cells(call: &str, bank: &ImageData, src: &ImageData, col: i64, row: i64, w: i64, h: i64) -> (r: Result<
    (usize, usize, usize, usize, usize, usize),
    String,
>)
    requires
        bank.wf(),
        src.wf(),
        w > 0 ==> w as usize > 0,
        h > 0 ==> h as usize > 0,
    ensures
        match cell_checks(call@, bank, src, col, row, w, h) {
            Err(m) => r matches Err(e) && e@ == m,
            Ok((wu, hu, sx, sy, cols, rows)) => r matches Ok(t) && t.0 == wu && t.1 == hu && t.2
                == sx && t.3 == sy && t.4 == cols && t.5 == rows,
        },
        r matches Ok(t) ==> t.0 > 0 && t.1 > 0 && t.4 > 0 && t.5 > 0 && t.4 * t.5 <= bank.width
            * bank.height && t.2 + t.0 <= src.width && t.3 + t.1 <= src.height,
{
    let (wu, hu) = match cell_size(call, w, h) {
        Ok(x) => x,
        Err(m) => {
            return Err(m);
        },
    };
    assert(wu <= i64::MAX && hu <= i64::MAX);
    let (sx, sy) = match cell_origin(call, src, col, row, wu, hu) {
        Ok(x) => x,
        Err(m) => {
            return Err(m);
        },
    };
    let (cols, rows) = match bank_grid(call, bank, wu, hu) {
        Ok(x) => x,
        Err(m) => {
            return Err(m);
        },
    };
    assert(cols * rows <= bank.width * bank.height) by (nonlinear_arith)
        requires
            cols == bank.width / wu,
            rows == bank.height / hu,
            wu > 0,
            hu > 0,
    ;
    Ok((wu, hu, sx, sy, cols, rows))
}

/// The lowest index below `n` of a bank cell drawing the same thing as the
/// source cell at `(sx, sy)`, or -1.
pub open spec fn first_match(
    bank: &ImageData,
    src: &ImageData,
    sx: int,
    sy: int,
    w: int,
    h: int,
    cols: int,
    n: int,
) -> int
    decreases n,
{
    if n <= 0 {
        -1
    } else {
        let f = first_match(bank, src, sx, sy, w, h, cols, n - 1);
        let o = bank_origin(n - 1, cols, w, h);
        if f >= 0 {
            f
        } else if same_cell(bank, o.0, o.1, src, sx, sy, w, h) {
            n - 1
        } else {
            -1
        }
    }
}

/// Once a match is found, later cells do not change it.
proof fn lemma_first_match_stays(
    bank: &ImageData,
    src: &ImageData,
    sx: int,
    sy: int,
    w: int,
    h: int,
    cols: int,
    k: int,
    m: int,
)
    requires
        k <= m,
        first_match(bank, src, sx, sy, w, h, cols, k) >= 0,
    ensures
        first_match(bank, src, sx, sy, w, h, cols, m) == first_match(bank, src, sx, sy, w, h, cols, k),
    decreases m - k,
{
    if k < m {
        lemma_first_match_stays(bank, src, sx, sy, w, h, cols, k, m - 1);
    }
}

/// The bank cell below `n` closest to the source cell by summed shade
/// difference, the lowest index on a tie, and its difference.
pub open spec fn nearest_upto(
    bank: &ImageData,
    src: &ImageData,
    sx: int,
    sy: int,
    w: int,
    h: int,
    cols: int,
    n: int,
) -> (int, int)
    decreases n,
{
    if n <= 0 {
        (0, u64::MAX as int)
    } else {
        let prev = nearest_upto(bank, src, sx, sy, w, h, cols, n - 1);
        let o = bank_origin(n - 1, cols, w, h);
        let d = cell_dist(bank, o.0, o.1, src, sx, sy, w, h);
        if d < prev.1 {
            (n - 1, d)
        } else {
            prev
        }
    }
}

/// `bank.find_cell(src, col, row, w, h)`: the lowest index of the bank's
/// `w`×`h` cells (left to right, then top to bottom) drawing the same thing
/// as the cell at grid position `(col, row)` of `src`; -1 when none does.
pub fn img_find_cell(bank: &ImageData, src: &ImageData, col: i64, row: i64, w: i64, h: i64) -> (r: Result<
    i64,
    String,
>)
    requires
        bank.wf(),
        src.wf(),
        w > 0 ==> w as usize > 0,
        h > 0 ==> h as usize > 0,
    ensures
        match cell_checks("find_cell"@, bank, src, col, row, w, h) {
            Err(m) => r matches Err(e) && e@ == m,
            Ok((wu, hu, sx, sy, cols, rows)) => r == Ok::<i64, String>(
                first_match(bank, src, sx, sy, wu, hu, cols, cols * rows) as i64,
            ),
        },
{
    let (wu, hu, sx, sy, cols, rows) = match check_cells("find_cell", bank, src, col, row, w, h) {
        Ok(t) => t,
        Err(m) => {
            return Err(m);
        },
    };
    let n = cols * rows;
    let mut index: usize = 0;
    while index < n
        invariant
            index <= n,
            n == cols * rows,
            cell_checks("find_cell"@, bank, src, col, row, w, h) == Ok::<(int, int, int, int, int, int), Seq<char>>(
                (wu as int, hu as int, sx as int, sy as int, cols as int, rows as int),
            ),
            bank.wf(),
            src.wf(),
            wu > 0,
            hu > 0,
            cols > 0,
            cols == bank.width / wu,
            rows == bank.height / hu,
            sx + wu <= src.width,
            sy + hu <= src.height,
            n <= bank.width * bank.height,
            first_match(bank, src, sx as int, sy as int, wu as int, hu as int, cols as int, index as int)
                == -1,
        decreases n - index,
    {
        proof {
            lemma_bank_cell_inside(index as int, cols as int, rows as int, wu as int, hu as int, bank.width as int, bank.height as int);
        }
        let at = bank_cell_origin(index, cols, wu, hu);
        if cells_equal(bank, at, src, (sx, sy), wu, hu) {
            proof {
                lemma_first_match_stays(bank, src, sx as int, sy as int, wu as int, hu as int, cols as int, index + 1, n as int);
            }
            return Ok(index as i64);
        }
        index += 1;
    }
    Ok(-1)
}

/// `bank.cell_equals(index, src, col, row, w, h)`: whether bank cell `index`
/// draws the same thing as the cell at `(col, row)` of `src`; an index
/// outside the bank is `false`.
pub fn img_cell_equals(bank: &ImageData, index: i64, src: &ImageData, col: i64, row: i64, w: i64, h: i64) -> (r: Result<
    bool,
    String,
>)
    requires
        bank.wf(),
        src.wf(),
        w > 0 ==> w as usize > 0,
        h > 0 ==> h as usize > 0,
    ensures
        match cell_checks("cell_equals"@, bank, src, col, row, w, h) {
            Err(m) => r matches Err(e) && e@ == m,
            Ok((wu, hu, sx, sy, cols, rows)) => r == Ok::<bool, String>(
                0 <= index < cols * rows && same_cell(
                    bank,
                    bank_origin(index as int, cols, wu, hu).0,
                    bank_origin(index as int, cols, wu, hu).1,
                    src,
                    sx,
                    sy,
                    wu,
                    hu,
                ),
            ),
        },
{
    let (wu, hu, sx, sy, cols, rows) = match check_cells("cell_equals", bank, src, col, row, w, h) {
        Ok(t) => t,
        Err(m) => {
            return Err(m);
        },
    };
    if index < 0 || index as u64 >= (cols * rows) as u64 {
        return Ok(false);
    }
    proof {
        lemma_bank_cell_inside(index as int, cols as int, rows as int, wu as int, hu as int, bank.width as int, bank.height as int);
    }
    let at = bank_cell_origin(index as usize, cols, wu, hu);
    Ok(cells_equal(bank, at, src, (sx, sy), wu, hu))
}

/// A cell's summed difference is at most 3 per pixel.
proof fn lemma_cell_dist_bound(
    bank: &ImageData,
    bx: int,
    by: int,
    src: &ImageData,
    sx: int,
    sy: int,
    w: int,
    rows: int,
)
    requires
        cells_fit(bank, bx, by, src, sx, sy, w, rows),
        rows >= 0,
        w >= 0,
    ensures
        0 <= cell_dist(bank, bx, by, src, sx, sy, w, rows) <= 3 * w * rows,
    decreases rows,
{
    if rows > 0 {
        lemma_cell_dist_bound(bank, bx, by, src, sx, sy, w, rows - 1);
        lemma_row_dist_bound(bank, bx, by + rows - 1, src, sx, sy + rows - 1, w);
        assert(3 * w * (rows - 1) + 3 * w == 3 * w * rows) by (nonlinear_arith);
    }
}

/// `bank.nearest_cell(src, col, row, w, h)`: the index of the bank cell
/// closest to the cell at `(col, row)` of `src` by summed shade difference,
/// the lowest index on a tie.
pub fn img_nearest_cell(bank: &ImageData, src: &ImageData, col: i64, row: i64, w: i64, h: i64) -> (r: Result<
    i64,
    String,
>)
    requires
        bank.wf(),
        src.wf(),
        w > 0 ==> w as usize > 0,
        h > 0 ==> h as usize > 0,
    ensures
        match cell_checks("nearest_cell"@, bank, src, col, row, w, h) {
            Err(m) => r matches Err(e) && e@ == m,
            Ok((wu, hu, sx, sy, cols, rows)) => r == Ok::<i64, String>(
                nearest_upto(bank, src, sx, sy, wu, hu, cols, cols * rows).0 as i64,
            ),
        },
{
    let (wu, hu, sx, sy, cols, rows) = match check_cells("nearest_cell", bank, src, col, row, w, h) {
        Ok(t) => t,
        Err(m) => {
            return Err(m);
        },
    };
    let n = cols * rows;
    let mut best: usize = 0;
    let mut best_distance: u64 = 0xFFFF_FFFF_FFFF_FFFF;
    let mut index: usize = 0;
    while index < n
        invariant
            index <= n,
            n == cols * rows,
            cell_checks("nearest_cell"@, bank, src, col, row, w, h) == Ok::<(int, int, int, int, int, int), Seq<char>>(
                (wu as int, hu as int, sx as int, sy as int, cols as int, rows as int),
            ),
            bank.wf(),
            src.wf(),
            wu > 0,
            hu > 0,
            cols > 0,
            cols == bank.width / wu,
            rows == bank.height / hu,
            sx + wu <= src.width,
            sy + hu <= src.height,
            n <= bank.width * bank.height,
            best <= index,
            (best as int, best_distance as int) == nearest_upto(
                bank,
                src,
                sx as int,
                sy as int,
                wu as int,
                hu as int,
                cols as int,
                index as int,
            ),
        decreases n - index,
    {
        proof {
            lemma_bank_cell_inside(index as int, cols as int, rows as int, wu as int, hu as int, bank.width as int, bank.height as int);
        }
        let at = bank_cell_origin(index, cols, wu, hu);
        let distance = cells_distance(bank, at, src, (sx, sy), wu, hu);
        if distance < best_distance {
            best = index;
            best_distance = distance;
        }
        index += 1;
    }
    Ok(best as i64)
}

// ---------------------------------------------------------------------------
// Numbers and strings
// ---------------------------------------------------------------------------

/// The pieces of `s` from `i` between non-overlapping occurrences of the
/// nonempty `d`.
pub open spec fn split_from(s: Seq<char>, d: Seq<char>, i: int) -> Seq<Seq<char>>
    decreases s.len() - i,
{
    if i < 0 || i > s.len() || d.len() == 0 {
        Seq::empty()
    } else {
        match find_from(s, d, i) {
            None => seq![s.subrange(i, s.len() as int)],
            Some(j) => if i <= j && j + d.len() <= s.len() {
                seq![s.subrange(i, j)] + split_from(s, d, j + d.len())
            } else {
                Seq::empty()
            },
        }
    }
}

/// The pieces `str::split` yields for the pattern `d`: between its
/// occurrences, or, for an empty `d`, an empty piece, each character, and an
/// empty piece.
pub open spec fn split_pieces(s: Seq<char>, d: Seq<char>) -> Seq<Seq<char>> {
    if d.len() == 0 {
        seq![Seq::<char>::empty()] + Seq::new(s.len(), |i: int| seq![s[i]]) + seq![
            Seq::<char>::empty(),
        ]
    } else {
        split_from(s, d, 0)
    }
}

/// The pieces of `s` split on `d`, as vectors.
fn split_vec(s: &[char], d: &[char]) -> (r: Vec<Vec<char>>)
    ensures
        r@.len() == split_pieces(s@, d@).len(),
        forall|i: int| 0 <= i < r@.len() ==> (#[trigger] r@[i])@ == split_pieces(s@, d@)[i],
{
    let mut out: Vec<Vec<char>> = Vec::new();
    if d.len() == 0 {
        out.push(Vec::new());
        let mut i: usize = 0;
        while i < s.len()
            invariant
                i <= s.len(),
                d@.len() == 0,
                out@.len() == i + 1,
                out@[0]@ == Seq::<char>::empty(),
                forall|j: int| 1 <= j <= i ==> (#[trigger] out@[j])@ == seq![s@[j - 1]],
            decreases s.len() - i,
        {
            let v = vec![s[i]];
            assert(v@ =~= seq![s@[i as int]]);
            out.push(v);
            i += 1;
        }
        out.push(Vec::new());
        assert forall|i: int| 0 <= i < out@.len() implies (#[trigger] out@[i])@ == split_pieces(
            s@,
            d@,
        )[i] by {
            if i == 0 {
            } else if i <= s.len() {
            } else {
                assert(out@[i]@ =~= Seq::<char>::empty());
            }
        }
        return out;
    }
    let mut i: usize = 0;
    loop
        invariant
            i <= s.len(),
            d.len() > 0,
            split_pieces(s@, d@) == out@.map_values(|v: Vec<char>| v@) + split_from(s@, d@, i as int),
        decreases s.len() - i,
    {
        let ghost prev = out@.map_values(|v: Vec<char>| v@);
        match find_at(s, d, i) {
            None => {
                let piece = sub_chars(s, i, s.len());
                out.push(piece);
                assert(out@.map_values(|v: Vec<char>| v@) =~= prev + split_from(s@, d@, i as int));
                assert forall|k: int| 0 <= k < out@.len() implies (#[trigger] out@[k])@
                    == split_pieces(s@, d@)[k] by {
                    assert(out@.map_values(|v: Vec<char>| v@)[k] == out@[k]@);
                }
                return out;
            },
            Some(j) => {
                let piece = sub_chars(s, i, j);
                out.push(piece);
                assert(out@.map_values(|v: Vec<char>| v@) + split_from(s@, d@, j + d@.len()) =~= prev
                    + split_from(s@, d@, i as int));
                i = j + d.len();
            },
        }
    }
}

/// The integers of the fields from index `i` (trimmed, empty ones skipped),
/// appended to `acc`, or the message naming the first field that does not
/// parse.
pub open spec fn int_fields(fields: Seq<Seq<char>>, i: int, radix: u32, acc: Seq<i64>) -> Result<
    Seq<i64>,
    Seq<char>,
>
    decreases fields.len() - i,
{
    if i < 0 || i >= fields.len() {
        Ok(acc)
    } else {
        let f = trim(fields[i]);
        if f.len() == 0 {
            int_fields(fields, i + 1, radix, acc)
        } else {
            match signed_value(f, radix as int) {
                Some(v) => if i64::MIN <= v <= i64::MAX {
                    int_fields(fields, i + 1, radix, acc.push(v as i64))
                } else {
                    Err(field_message(i, f, radix))
                },
                None => Err(field_message(i, f, radix)),
            }
        }
    }
}

/// The message for field `i` that is no integer of base `radix`.
pub open spec fn field_message(i: int, f: Seq<char>, radix: u32) -> Seq<char> {
    "parse_int_list: field "@ + decimal(i as nat) + " (\""@ + f + "\") is not a valid base-"@
        + decimal(radix as nat) + " integer: "@ + int_error_text(f, radix)
}

/// What `parse_int_list(text, delim, radix)` returns.
pub open spec fn int_list(text: Seq<char>, delim: Seq<char>, radix: i64) -> Result<Seq<i64>, Seq<char>> {
    if !(2 <= radix <= 36) {
        Err("parse_int_list: radix must be between 2 and 36, got "@ + signed_decimal(radix as int))
    } else {
        int_fields(split_pieces(text, delim), 0, radix as u32, Seq::empty())
    }
}

/// `parse_int_list(text, delim, radix)`: split `text` on the literal
/// `delim`, trim each field, skip empty ones, and parse the rest as integers
/// of base `radix`.
pub fn parse_int_list_radix(text: &str, delim: &str, radix: i64) -> (r: Result<Vec<i64>, String>)
    ensures
        match int_list(text@, delim@, radix) {
            Ok(v) => r matches Ok(x) && x@ == v,
            Err(m) => r matches Err(e) && e@ == m,
        },
{
    if radix < 2 || radix > 36 {
        let mut m = chars_of("parse_int_list: radix must be between 2 and 36, got ");
        put_int(&mut m, radix);
        return Err(string_of(&m));
    }
    let rdx = radix as u32;
    let fields = split_vec(&chars_of(text), &chars_of(delim));
    let ghost fs = split_pieces(text@, delim@);
    let mut out: Vec<i64> = Vec::new();
    let mut i: usize = 0;
    while i < fields.len()
        invariant
            i <= fields.len(),
            fields@.len() == fs.len(),
            forall|k: int| 0 <= k < fields@.len() ==> (#[trigger] fields@[k])@ == fs[k],
            2 <= rdx <= 36,
            rdx == radix,
            fs == split_pieces(text@, delim@),
            int_list(text@, delim@, radix) == int_fields(fs, i as int, rdx, out@),
        decreases fields.len() - i,
    {
        let f = trim_vec(&fields[i]);
        if f.len() != 0 {
            let fs_str = string_of(&f);
            match parse_i64(fs_str.as_str(), rdx) {
                Ok(v) => {
                    out.push(v);
                },
                Err(e) => {
                    let mut m = chars_of("parse_int_list: field ");
                    push_decimal(&mut m, i as u64);
                    push_str(&mut m, " (\"");
                    push_all(&mut m, &f);
                    push_str(&mut m, "\") is not a valid base-");
                    push_decimal(&mut m, rdx as u64);
                    push_str(&mut m, " integer: ");
                    push_str(&mut m, e.as_str());
                    return Err(string_of(&m));
                },
            }
        }
        i += 1;
    }
    Ok(out)
}

/// `parse_int_list(text, delim)`: `parse_int_list_radix` in base 10.
pub fn parse_int_list_dec(text: &str, delim: &str) -> (r: Result<Vec<i64>, String>)
    ensures
        match int_list(text@, delim@, 10) {
            Ok(v) => r matches Ok(x) && x@ == v,
            Err(m) => r matches Err(e) && e@ == m,
        },
{
    parse_int_list_radix(text, delim, 10)
}

/// `to_char(value)`: the one-character string for the Unicode scalar value
/// `value`.
pub fn to_char(value: i64) -> (r: Result<String, String>)
    ensures
        0 <= value <= u32::MAX && is_scalar(value as u32) ==> (r matches Ok(s) && s@ == seq![
            (value as u32) as char,
        ]),
        !(0 <= value <= u32::MAX && is_scalar(value as u32)) ==> (r matches Err(m) && m@
            == "to_char: "@ + signed_decimal(value as int) + " is not a valid Unicode scalar value"@),
{
    if 0 <= value && value <= 0xFFFF_FFFF {
        match char_from_u32(value as u32) {
            Some(c) => {
                let mut s = String::new();
                push_char(&mut s, c);
                return Ok(s);
            },
            None => {},
        }
    }
    let mut m = chars_of("to_char: ");
    put_int(&mut m, value);
    push_str(&mut m, " is not a valid Unicode scalar value");
    Err(string_of(&m))
}

/// `s.trimmed()`: a copy without leading and trailing white space.
pub fn trimmed(s: &str) -> (r: String)
    ensures
        r@ == trim(s@),
{
    string_of(&trim_vec(&chars_of(s)))
}

/// The upper-case hex digit for `d` in `0..16`.
pub open spec fn hex_digit(d: int) -> char {
    if d < 10 {
        (d + 48) as char
    } else {
        (d + 55) as char
    }
}

/// The lowest `n` hex digits of `v`, most significant first.
pub open spec fn hex_low(v: nat, n: nat) -> Seq<char>
    decreases n,
{
    if n == 0 {
        Seq::empty()
    } else {
        hex_low(v / 16, (n - 1) as nat).push(hex_digit((v % 16) as int))
    }
}

/// The upper-case hex digit for `d`.
pub(crate) fn hex_char(d: u64) -> (c: char)
    requires
        d < 16,
    ensures
        c == hex_digit(d as int),
{
    let b: u8 = if d < 10 {
        d as u8 + 48
    } else {
        d as u8 + 55
    };
    b as char
}

/// `format_hex(value, width)`: `$` and `value` in upper-case hex, masked to
/// `width` digits (so a negative or oversized value wraps) and zero-padded to
/// that many.
pub fn format_hex(value: i64, width: i64) -> (r: Result<String, String>)
    ensures
        1 <= width <= 16 ==> (r matches Ok(s) && s@ == seq!['$'] + hex_low(
            (value as u64) as nat,
            width as nat,
        )),
        !(1 <= width <= 16) ==> (r matches Err(m) && m@
            == "format_hex: width must be between 1 and 16, got "@ + signed_decimal(width as int)),
{
    if width < 1 || width > 16 {
        let mut m = chars_of("format_hex: width must be between 1 and 16, got ");
        put_int(&mut m, width);
        return Err(string_of(&m));
    }
    let n = width as u64;
    let v0 = value as u64;
    let mut digits: Vec<char> = Vec::new();
    let mut v = v0;
    let mut k: u64 = 0;
    while k < n
        invariant
            k <= n <= 16,
            hex_low(v0 as nat, n as nat) == hex_low(v as nat, (n - k) as nat) + digits@,
        decreases n - k,
    {
        let d = hex_char(v % 16);
        let ghost before = digits@;
        digits.insert(0, d);
        assert(digits@ =~= seq![d] + before);
        assert(hex_low(v as nat, (n - k) as nat) =~= hex_low((v / 16) as nat, (n - k - 1) as nat).push(d));
        assert(hex_low(v as nat, (n - k) as nat) + before =~= hex_low((v / 16) as nat, (n - k - 1) as nat) + digits@);
        v = v / 16;
        k += 1;
    }
    let mut out = vec!['$'];
    push_all(&mut out, &digits);
    assert(hex_low(v as nat, 0) =~= Seq::<char>::empty());
    Ok(string_of(&out))
}

// ---------------------------------------------------------------------------
// Script results
// ---------------------------------------------------------------------------

/// A value a script returned.
pub enum ScriptValue {
    /// `()`.
    Unit,
    Int(i64),
    Str(String),
    Blob(Vec<u8>),
    Array(Vec<ScriptValue>),
    /// Any other value, by its type name.
    Other(String),
}

/// The scripting engine's name for a value's type.
pub open spec fn kind_name(v: ScriptValue) -> Seq<char> {
    match v {
        ScriptValue::Unit => "()"@,
        ScriptValue::Int(_) => "i64"@,
        ScriptValue::Str(_) => "string"@,
        ScriptValue::Blob(_) => "blob"@,
        ScriptValue::Array(_) => "array"@,
        ScriptValue::Other(n) => n@,
    }
}

/// The low byte of `n`.
pub open spec fn low_byte(n: i64) -> u8 {
    (n & 0xFF) as u8
}

/// The bytes of a returned array: each integer's low byte, or the message
/// for the first element that is no integer.
pub open spec fn array_bytes(a: Seq<ScriptValue>) -> Result<Seq<u8>, Seq<char>>
    decreases a.len(),
{
    if a.len() == 0 {
        Ok(Seq::empty())
    } else {
        match array_bytes(a.drop_last()) {
            Err(m) => Err(m),
            Ok(b) => match a.last() {
                ScriptValue::Int(n) => Ok(b.push(low_byte(n))),
                other => Err("custom() returned a `"@ + kind_name(other) + "` element, expected an integer"@),
            },
        }
    }
}

/// The bytes a directive emits for a script's return value: nothing for
/// `()`, a blob as it is, a string's UTF-8, an array's integers' low bytes,
/// an integer's low byte.
pub open spec fn emitted_bytes(v: ScriptValue) -> Result<Seq<u8>, Seq<char>> {
    match v {
        ScriptValue::Unit => Ok(Seq::empty()),
        ScriptValue::Blob(b) => Ok(b@),
        ScriptValue::Str(s) => Ok(vstd::utf8::encode_utf8(s@)),
        ScriptValue::Array(a) => array_bytes(a@),
        ScriptValue::Int(n) => Ok(seq![low_byte(n)]),
        ScriptValue::Other(_) => Err("custom() must return an array of bytes, a blob, or a string"@),
    }
}

/// The message for an array element of the given kind.
fn element_error(v: &ScriptValue) -> (m: String)
    ensures
        m@ == "custom() returned a `"@ + kind_name(*v) + "` element, expected an integer"@,
{
    let mut msg = chars_of("custom() returned a `");
    match v {
        ScriptValue::Unit => push_str(&mut msg, "()"),
        ScriptValue::Int(_) => push_str(&mut msg, "i64"),
        ScriptValue::Str(_) => push_str(&mut msg, "string"),
        ScriptValue::Blob(_) => push_str(&mut msg, "blob"),
        ScriptValue::Array(_) => push_str(&mut msg, "array"),
        ScriptValue::Other(n) => push_str(&mut msg, n.as_str()),
    }
    push_str(&mut msg, "` element, expected an integer");
    string_of(&msg)
}

/// Convert a script's return value into the bytes the directive emits.
pub fn dynamic_to_bytes(value: ScriptValue) -> (r: Result<Vec<u8>, String>)
    ensures
        match emitted_bytes(value) {
            Ok(b) => r matches Ok(x) && x@ == b,
            Err(m) => r matches Err(e) && e@ == m,
        },
{
    let ghost expected = emitted_bytes(value);
    match value {
        ScriptValue::Unit => Ok(Vec::new()),
        ScriptValue::Blob(b) => Ok(b),
        ScriptValue::Str(s) => {
            let bytes = s.as_str().as_bytes();
            let mut out: Vec<u8> = Vec::new();
            let mut i: usize = 0;
            while i < bytes.len()
                invariant
                    i <= bytes.len(),
                    out@ == bytes@.take(i as int),
                decreases bytes.len() - i,
            {
                out.push(bytes[i]);
                assert(out@ =~= bytes@.take(i + 1));
                i += 1;
            }
            assert(bytes@.take(bytes.len() as int) =~= bytes@);
            Ok(out)
        },
        ScriptValue::Array(a) => {
            let mut out: Vec<u8> = Vec::new();
            let mut i: usize = 0;
            assert(a@.take(0) =~= Seq::<ScriptValue>::empty());
            while i < a.len()
                invariant
                    i <= a.len(),
                    expected == array_bytes(a@),
                    expected == emitted_bytes(value),
                    array_bytes(a@.take(i as int)) == Ok::<Seq<u8>, Seq<char>>(out@),
                decreases a.len() - i,
            {
                assert(a@.take(i + 1).drop_last() =~= a@.take(i as int));
                match &a[i] {
                    ScriptValue::Int(n) => {
                        out.push((*n & 0xFF) as u8);
                    },
                    other => {
                        proof {
                            lemma_array_bytes_err(a@, (i + 1) as int);
                        }
                        return Err(element_error(other));
                    },
                }
                i += 1;
            }
            assert(a@.take(a.len() as int) =~= a@);
            Ok(out)
        },
        ScriptValue::Int(n) => Ok(vec![(n & 0xFF) as u8]),
        ScriptValue::Other(_) => Err(String::from_str("custom() must return an array of bytes, a blob, or a string")),
    }
}

/// An error in a prefix is the error of the whole array.
proof fn lemma_array_bytes_err(a: Seq<ScriptValue>, k: int)
    requires
        0 < k <= a.len(),
        array_bytes(a.take(k)) is Err,
    ensures
        array_bytes(a) == array_bytes(a.take(k)),
    decreases a.len() - k,
{
    if k < a.len() {
        assert(a.take(k + 1).drop_last() =~= a.take(k));
        lemma_array_bytes_err(a, k + 1);
    } else {
        assert(a.take(k) =~= a);
    }
}

// ---------------------------------------------------------------------------
// Paths a script names
// ---------------------------------------------------------------------------

/// How deep below the starting directory the path pieces lead, or `None` when
/// a `..` climbs above it on the way.
pub open spec fn depth_after(pieces: Seq<Seq<char>>) -> Option<int>
    decreases pieces.len(),
{
    if pieces.len() == 0 {
        Some(0)
    } else {
        match depth_after(pieces.drop_last()) {
            None => None,
            Some(d) => if pieces.last() == ".."@ {
                if d == 0 {
                    None
                } else {
                    Some(d - 1)
                }
            } else if pieces.last() == "."@ || pieces.last().len() == 0 {
                Some(d)
            } else {
                Some(d + 1)
            },
        }
    }
}

/// Whether a path below the project root climbs out of it.
pub open spec fn leaves_root(rest: Seq<char>) -> bool {
    depth_after(split_char(rest, '/')) is None
}

/// Whether a script path is written relative to the project root.
pub open spec fn rooted(p: Seq<char>) -> bool {
    p.len() >= 2 && p[0] == '@' && p[1] == '/'
}

/// Where a script path points: `Ok((true, rest))` for `rest` below the project
/// root, `Ok((false, p))` for `p` below the script's own directory, or the
/// error a script sees.
pub open spec fn script_path_spec(p: Seq<char>, has_root: bool) -> Result<(bool, Seq<char>), Seq<char>> {
    if !rooted(p) {
        Ok((false, p))
    } else if !has_root {
        Err("`"@ + p + "`: no project root was found to resolve a `@/` path against"@)
    } else if leaves_root(p.skip(2)) {
        Err("`"@ + p + "` resolves outside the project root"@)
    } else {
        Ok((true, p.skip(2)))
    }
}

/// Where a path that a script names points.
pub enum ScriptPath {
    /// Relative to the directory of the source that ran the script.
    FromBase(String),
    /// Relative to the project root (written with a leading `@/`).
    FromRoot(String),
}

/// Sort out a path a script names: a `@/` path is taken below the project
/// root, and is refused when there is none or when it climbs out of it; any
/// other path is taken below the script's own directory.
pub fn script_path(p: &str, has_root: bool) -> (r: Result<ScriptPath, String>)
    ensures
        match (r, script_path_spec(p@, has_root)) {
            (Ok(ScriptPath::FromBase(s)), Ok((false, t))) => s@ == t,
            (Ok(ScriptPath::FromRoot(s)), Ok((true, t))) => s@ == t,
            (Err(m), Err(t)) => m@ == t,
            _ => false,
        },
{
    let v = chars_of(p);
    if !(v.len() >= 2 && v[0] == '@' && v[1] == '/') {
        return Ok(ScriptPath::FromBase(string_of(&v)));
    }
    if !has_root {
        let mut m = chars_of("`");
        push_all(&mut m, &v);
        push_str(&mut m, "`: no project root was found to resolve a `@/` path against");
        return Err(string_of(&m));
    }
    let rest = sub_chars(&v, 2, v.len());
    assert(rest@ =~= p@.skip(2));
    let pieces = split_on(&rest, '/');
    let ghost ps = vviews(pieces@);
    let mut depth: usize = 0;
    let mut out = false;
    let mut i: usize = 0;
    while i < pieces.len()
        invariant
            i <= pieces.len(),
            ps == vviews(pieces@),
            ps.len() == pieces.len(),
            depth <= i,
            out ==> depth_after(ps.take(i as int)) is None,
            !out ==> depth_after(ps.take(i as int)) == Some(depth as int),
        decreases pieces.len() - i,
    {
        proof {
            assert(ps.take(i + 1).drop_last() =~= ps.take(i as int));
            assert(ps.take(i + 1).last() == pieces@[i as int]@);
        }
        if !out {
            let piece = &pieces[i];
            if piece.len() == 2 && piece[0] == '.' && piece[1] == '.' {
                proof {
                    reveal_strlit("..");
                    assert(piece@ =~= ".."@);
                }
                if depth == 0 {
                    out = true;
                } else {
                    depth = depth - 1;
                }
            } else if (piece.len() == 1 && piece[0] == '.') || piece.len() == 0 {
                proof {
                    reveal_strlit("..");
                    reveal_strlit(".");
                    if piece.len() == 1 {
                        assert(piece@ =~= "."@);
                    }
                }
            } else {
                proof {
                    reveal_strlit("..");
                    reveal_strlit(".");
                }
                depth = depth + 1;
            }
        }
        i += 1;
    }
    assert(ps.take(pieces.len() as int) =~= ps);
    if out {
        let mut m = chars_of("`");
        push_all(&mut m, &v);
        push_str(&mut m, "` resolves outside the project root");
        Err(string_of(&m))
    } else {
        Ok(ScriptPath::FromRoot(string_of(&rest)))
    }
}

} // verus!
