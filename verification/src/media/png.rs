//! PNG decoding and the `.incpng` (PNG to CHR tiles) and `.incpal` (PNG to
//! palette) conversions.

use vstd::prelude::*;
use crate::media::color::{gray_index, match_nes_color, nes_color, two_bit_color};

verus! {

/// A decoded PNG as 8-bit RGB, row-major: pixel `k` is `rgb[3k..3k + 3]`.
pub struct Png {
    pub width: u32,
    pub height: u32,
    /// `width * height * 3` bytes.
    pub rgb: Vec<u8>,
}

/// The one failure a PNG load reports.
#[derive(Debug, Clone, Copy, PartialEq, Eq, Structural)]
pub struct PngError;

/// A decoded PNG as 8-bit RGBA, row-major: pixel `k` is `rgba[4k..4k + 4]`.
pub struct PngRgba {
    pub width: u32,
    pub height: u32,
    /// `width * height * 4` bytes, in `R, G, B, A` order.
    pub rgba: Vec<u8>,
}

impl Png {
    /// The pixel data holds exactly `width * height` pixels.
    pub open spec fn wf(&self) -> bool {
        self.rgb.len() == self.width as int * self.height as int * 3
    }
}

/// What decoding `bytes` as an image and converting it to 8-bit RGB yields:
/// width, height and pixel data, or `None` when the bytes are no image the
/// decoder reads.
pub uninterp spec fn png_rgb_decoding(bytes: Seq<u8>) -> Option<(u32, u32, Seq<u8>)>;

/// What decoding `bytes` as an image and converting it to 8-bit RGBA yields.
pub uninterp spec fn png_rgba_decoding(bytes: Seq<u8>) -> Option<(u32, u32, Seq<u8>)>;

/// `image::load_from_memory`, then `to_rgb8` and `into_raw`. The result is
/// named, not stated: decoding is the image crate's. The crate builds the
/// converted buffer with exactly three bytes per pixel, which the contract
/// states.
#[verifier::external_body]
fn load_rgb(bytes: &[u8]) -> (r: Option<(u32, u32, Vec<u8>)>)
    ensures
        match r {
            Some((w, h, v)) => png_rgb_decoding(bytes@) == Some((w, h, v@)) && v.len() == w as int
                * h as int * 3,
            None => png_rgb_decoding(bytes@) is None,
        },
{
    match image::load_from_memory(bytes) {
        Ok(img) => {
            let rgb = img.to_rgb8();
            Some((rgb.width(), rgb.height(), rgb.into_raw()))
        },
        Err(_) => None,
    }
}

/// `image::load_from_memory`, then `to_rgba8` and `into_raw`; four bytes per
/// pixel, as for `load_rgb`.
#[verifier::external_body]
fn load_rgba(bytes: &[u8]) -> (r: Option<(u32, u32, Vec<u8>)>)
    ensures
        match r {
            Some((w, h, v)) => png_rgba_decoding(bytes@) == Some((w, h, v@)) && v.len() == w as int
                * h as int * 4,
            None => png_rgba_decoding(bytes@) is None,
        },
{
    match image::load_from_memory(bytes) {
        Ok(img) => {
            let rgba = img.to_rgba8();
            Some((rgba.width(), rgba.height(), rgba.into_raw()))
        },
        Err(_) => None,
    }
}

/// Decode PNG bytes to RGB pixels, dropping any alpha.
pub fn decode_png(bytes: &[u8]) -> (r: Result<Png, PngError>)
    ensures
        match png_rgb_decoding(bytes@) {
            Some((w, h, v)) => r matches Ok(p) && p.width == w && p.height == h && p.rgb@ == v
                && p.wf(),
            None => r is Err,
        },
{
    match load_rgb(bytes) {
        Some((width, height, rgb)) => Ok(Png { width, height, rgb }),
        None => Err(PngError),
    }
}

/// Decode PNG bytes to RGBA pixels, keeping the alpha channel.
pub fn decode_png_rgba(bytes: &[u8]) -> (r: Result<PngRgba, PngError>)
    ensures
        match png_rgba_decoding(bytes@) {
            Some((w, h, v)) => r matches Ok(p) && p.width == w && p.height == h && p.rgba@ == v
                && p.rgba.len() == w as int * h as int * 4,
            None => r is Err,
        },
{
    match load_rgba(bytes) {
        Some((width, height, rgba)) => Ok(PngRgba { width, height, rgba }),
        None => Err(PngError),
    }
}

// ---------------------------------------------------------------------------
// Tiles
// ---------------------------------------------------------------------------

/// The shade (0..4) of pixel `k`.
pub open spec fn shade(rgb: Seq<u8>, k: int) -> int {
    gray_index(rgb[3 * k], rgb[3 * k + 1], rgb[3 * k + 2])
}

/// Bit `bit` (0 low, 1 high) of the shade of pixel `k`.
pub open spec fn shade_bit(rgb: Seq<u8>, k: int, bit: int) -> int {
    if bit == 0 {
        shade(rgb, k) % 2
    } else {
        shade(rgb, k) / 2
    }
}

/// Tile columns and rows: partial tiles at the right and bottom count.
pub open spec fn tile_cols(png: &Png) -> int {
    (png.width as int + 7) / 8
}

/// The number of tile rows.
pub open spec fn tile_rows(png: &Png) -> int {
    (png.height as int + 7) / 8
}

/// The number of tiles.
pub open spec fn tile_count(png: &Png) -> int {
    tile_cols(png) * tile_rows(png)
}

/// The left edge of tile `t`.
pub open spec fn tile_x(png: &Png, t: int) -> int {
    8 * (t % tile_cols(png))
}

/// The top edge of tile `t`.
pub open spec fn tile_y(png: &Png, t: int) -> int {
    8 * (t / tile_cols(png))
}

/// The pixel index of `(x, y)`: rows of `width` pixels, so an `x` past the
/// right edge reads into the next row.
pub open spec fn pixel_index(png: &Png, x: int, y: int) -> int {
    y * png.width + x
}

/// The first `n` bits of plane `bit` along row `y` from column `x`, most
/// significant first.
pub open spec fn row_bits(png: &Png, x: int, y: int, bit: int, n: int) -> int
    decreases n,
{
    if n <= 0 {
        0
    } else {
        row_bits(png, x, y, bit, n - 1) * 2 + shade_bit(png.rgb@, pixel_index(png, x + n - 1, y), bit)
    }
}

/// Plane `bit` of the 8×8 tile at `(x, y)`: one byte per row.
pub open spec fn plane(png: &Png, x: int, y: int, bit: int) -> Seq<u8> {
    Seq::new(8, |r: int| row_bits(png, x, y + r, bit, 8) as u8)
}

/// The CHR bytes of tile `t`: its low plane, then its high plane.
pub open spec fn tile_bytes(png: &Png, t: int) -> Seq<u8> {
    plane(png, tile_x(png, t), tile_y(png, t), 0) + plane(png, tile_x(png, t), tile_y(png, t), 1)
}

/// Whether tile `t` is emitted: at or after `offset`, and fewer than `limit`
/// tiles after it when there is a limit.
pub open spec fn emitted(t: int, offset: i32, limit: Option<i32>) -> bool {
    t >= offset && (limit matches Some(l) ==> t - offset < l)
}

/// The CHR bytes of the emitted tiles among the first `n`, in tile order.
pub open spec fn tiles_upto(png: &Png, n: int, offset: i32, limit: Option<i32>) -> Seq<u8>
    decreases n,
{
    if n <= 0 {
        Seq::empty()
    } else if emitted(n - 1, offset, limit) {
        tiles_upto(png, n - 1, offset, limit) + tile_bytes(png, n - 1)
    } else {
        tiles_upto(png, n - 1, offset, limit)
    }
}

/// The last byte tile `t` reads lies within the pixel data, and its offset
/// within 32 bits.
pub open spec fn tile_readable(png: &Png, t: int) -> bool {
    let last = pixel_index(png, tile_x(png, t) + 7, tile_y(png, t) + 7);
    3 * last + 2 < png.rgb.len() && 3 * last + 2 <= u32::MAX
}

/// The conditions under which `png_to_tiles` reads no byte past the pixel
/// data and its counters stay in range.
pub open spec fn tiles_in_range(png: &Png, offset: i32, limit: Option<i32>) -> bool {
    &&& png.width as int + 7 <= u32::MAX
    &&& png.height as int + 7 <= u32::MAX
    &&& tile_count(png) <= i32::MAX
    &&& (limit is Some && tile_count(png) > 0 ==> tile_count(png) - 1 - offset <= i32::MAX)
    &&& forall|t: int| 0 <= t < tile_count(png) && emitted(t, offset, limit) ==> tile_readable(png, t)
}

/// A pixel of a readable tile is within the pixel data.
proof fn lemma_tile_pixel(png: &Png, t: int, dx: int, dy: int)
    requires
        0 <= t,
        tile_cols(png) > 0,
        tile_readable(png, t),
        0 <= dx < 8,
        0 <= dy < 8,
    ensures
        0 <= 3 * pixel_index(png, tile_x(png, t) + dx, tile_y(png, t) + dy) + 2 < png.rgb.len(),
{
    let x = tile_x(png, t);
    let y = tile_y(png, t);
    let w = png.width as int;
    assert(0 <= t / tile_cols(png)) by (nonlinear_arith)
        requires
            0 <= t,
            tile_cols(png) > 0,
    ;
    assert(0 <= t % tile_cols(png)) by (nonlinear_arith)
        requires
            tile_cols(png) > 0,
    ;
    assert((y + dy) * w <= (y + 7) * w) by (nonlinear_arith)
        requires
            dy <= 7,
            w >= 0,
    ;
    assert(0 <= (y + dy) * w) by (nonlinear_arith)
        requires
            y >= 0,
            dy >= 0,
            w >= 0,
    ;
}

/// `2` to the power `n`, for `n` from 0 to 8: the bound on a row of `n`
/// bits.
pub open spec fn bits_bound(n: int) -> int {
    if n <= 0 {
        1
    } else if n == 1 {
        2
    } else if n == 2 {
        4
    } else if n == 3 {
        8
    } else if n == 4 {
        16
    } else if n == 5 {
        32
    } else if n == 6 {
        64
    } else if n == 7 {
        128
    } else {
        256
    }
}

/// Emit one 8-byte plane (`bit` 0 low, 1 high) of the tile at `(x, y)`.
fn emit_plane(png: &Png, out: &mut Vec<u8>, t: u64, x: u64, y: u64, bit: u8)
    requires
        bit == 0 || bit == 1,
        tile_cols(png) > 0,
        x == tile_x(png, t as int),
        y == tile_y(png, t as int),
        tile_readable(png, t as int),
    ensures
        final(out)@ == old(out)@ + plane(png, x as int, y as int, bit as int),
{
    let ghost start = out@;
    let width = png.width as u64;
    let mut dy: u64 = 0;
    while dy < 8
        invariant
            dy <= 8,
            bit == 0 || bit == 1,
            tile_cols(png) > 0,
            width == png.width,
            x == tile_x(png, t as int),
            y == tile_y(png, t as int),
            tile_readable(png, t as int),
            out@ == start + plane(png, x as int, y as int, bit as int).take(dy as int),
        decreases 8 - dy,
    {
        let mut byte: u8 = 0;
        let mut dx: u64 = 0;
        while dx < 8
            invariant
                dx <= 8,
                dy < 8,
                bit == 0 || bit == 1,
                tile_cols(png) > 0,
                width == png.width,
                x == tile_x(png, t as int),
                y == tile_y(png, t as int),
                tile_readable(png, t as int),
                byte as int == row_bits(png, x as int, y + dy, bit as int, dx as int),
                (byte as int) < bits_bound(dx as int),
            decreases 8 - dx,
        {
            proof {
                lemma_tile_pixel(png, t as int, dx as int, dy as int);
                assert(3 * pixel_index(png, tile_x(png, t as int) + 7, tile_y(png, t as int) + 7)
                    + 2 <= u32::MAX);
                assert((y + dy) * width <= (y + 7) * width) by (nonlinear_arith)
                    requires
                        dy <= 7,
            ;
            }
            let k = ((y + dy) * width + x + dx) as usize;
            let shade = two_bit_color(png.rgb[3 * k], png.rgb[3 * k + 1], png.rgb[3 * k + 2]);
            let b: u8 = if bit == 0 {
                shade % 2
            } else {
                shade / 2
            };
            assert(byte * 2 + b < (1u64 << (dx + 1) as u64)) by (bit_vector)
                requires
                    (byte as int) < bits_bound(dx as int),
                    b < 2,
                    dx < 8,
            ;
            byte = byte * 2 + b;
            dx += 1;
        }
        let ghost before = out@;
        out.push(byte);
        assert(out@ =~= start + plane(png, x as int, y as int, bit as int).take(dy + 1));
        dy += 1;
    }
    assert(plane(png, x as int, y as int, bit as int).take(8) =~= plane(
        png,
        x as int,
        y as int,
        bit as int,
    ));
}

/// Whether tile `t` is emitted.
fn is_emitted(t: u64, offset: i32, limit: Option<i32>) -> (r: bool)
    requires
        t <= i32::MAX,
    ensures
        r == emitted(t as int, offset, limit),
{
    let ti = t as i64;
    if ti < offset as i64 {
        return false;
    }
    match limit {
        None => true,
        Some(l) => ti - (offset as i64) < l as i64,
    }
}

/// Convert a PNG to CHR tiles (`.incpng`): each 8×8 tile, in row-major tile
/// order, becomes two bit planes (low then high) of 8 bytes. `offset` skips
/// leading tiles; `limit` (`None` for all) caps how many tiles after `offset`
/// are emitted.
pub fn png_to_tiles(png: &Png, offset: i32, limit: Option<i32>) -> (r: Vec<u8>)
    requires
        tiles_in_range(png, offset, limit),
    ensures
        r@ == tiles_upto(png, tile_count(png), offset, limit),
{
    let cols: u64 = (png.width as u64 + 7) / 8;
    let rows: u64 = (png.height as u64 + 7) / 8;
    assert(cols * rows <= i32::MAX);
    let count = cols * rows;
    let mut out: Vec<u8> = Vec::new();
    let mut t: u64 = 0;
    while t < count
        invariant
            t <= count,
            cols == tile_cols(png),
            rows == tile_rows(png),
            count == tile_count(png),
            count <= i32::MAX,
            tiles_in_range(png, offset, limit),
            out@ == tiles_upto(png, t as int, offset, limit),
        decreases count - t,
    {
        if is_emitted(t, offset, limit) {
            assert(cols > 0) by (nonlinear_arith)
                requires
                    t < cols * rows,
                    rows >= 0,
            ;
            let x = (t % cols) * 8;
            let y = (t / cols) * 8;
            emit_plane(png, &mut out, t, x, y, 0);
            emit_plane(png, &mut out, t, x, y, 1);
            assert(out@ =~= tiles_upto(png, t as int, offset, limit) + tile_bytes(png, t as int));
        }
        t += 1;
    }
    out
}

// ---------------------------------------------------------------------------
// Palettes
// ---------------------------------------------------------------------------

/// The palette scan after pixel `k`: the colors so far, and the last one
/// emitted (-1 before any).
pub open spec fn palette_step(rgb: Seq<u8>, k: int, st: (Seq<u8>, int)) -> (Seq<u8>, int) {
    if st.0.len() >= 4 {
        st
    } else {
        let c = nes_color(rgb[3 * k], rgb[3 * k + 1], rgb[3 * k + 2]);
        if c as int != st.1 {
            (st.0.push(c), c as int)
        } else {
            st
        }
    }
}

/// The palette scan over the first `n` pixels.
pub open spec fn palette_upto(rgb: Seq<u8>, n: int) -> (Seq<u8>, int)
    decreases n,
{
    if n <= 0 {
        (Seq::empty(), -1)
    } else {
        palette_step(rgb, n - 1, palette_upto(rgb, n - 1))
    }
}

/// The scan never holds more than four colors.
proof fn lemma_palette_len(rgb: Seq<u8>, n: int)
    ensures
        palette_upto(rgb, n).0.len() <= 4,
    decreases n,
{
    if n > 0 {
        lemma_palette_len(rgb, n - 1);
    }
}

/// Convert a PNG to a palette (`.incpal`): scan the pixels row-major and emit
/// each one's nearest NES color when it differs from the last emitted, up to
/// four entries.
pub fn png_to_palette(png: &Png) -> (r: Vec<u8>)
    requires
        png.wf(),
    ensures
        r@ == palette_upto(png.rgb@, png.width as int * png.height as int).0,
{
    let n: u64 = png.width as u64 * png.height as u64;
    let mut out: Vec<u8> = Vec::new();
    let mut last: i32 = -1;
    let mut k: u64 = 0;
    while k < n
        invariant
            k <= n,
            n == png.width as int * png.height as int,
            png.wf(),
            (out@, last as int) == palette_upto(png.rgb@, k as int),
        decreases n - k,
    {
        proof {
            lemma_palette_len(png.rgb@, k as int);
        }
        if out.len() >= 4 {
            proof {
                assert forall|j: int| k <= j <= n implies palette_upto(png.rgb@, j) == palette_upto(
                    png.rgb@,
                    k as int,
                ) by {
                    lemma_palette_stays(png.rgb@, k as int, j);
                }
            }
            return out;
        }
        let i = (3 * k) as usize;
        let c = match_nes_color(png.rgb[i], png.rgb[i + 1], png.rgb[i + 2]);
        if c as i32 != last {
            out.push(c);
            last = c as i32;
        }
        k += 1;
    }
    out
}

/// Once the scan holds four colors it stays as it is.
proof fn lemma_palette_stays(rgb: Seq<u8>, k: int, j: int)
    requires
        0 <= k <= j,
        palette_upto(rgb, k).0.len() >= 4,
    ensures
        palette_upto(rgb, j) == palette_upto(rgb, k),
    decreases j - k,
{
    if j > k {
        lemma_palette_stays(rgb, k, j - 1);
    }
}

/// A shade bit is `0` or `1`.
proof fn lemma_shade_bit(rgb: Seq<u8>, k: int, bit: int)
    ensures
        0 <= shade_bit(rgb, k, bit) <= 1,
{
    crate::media::color::lemma_gray_index_range(rgb[3 * k], rgb[3 * k + 1], rgb[3 * k + 2]);
}

/// Pixel `x + i` of a row of `n` bits is bit `n - 1 - i` of it: the first
/// pixel is the most significant bit.
proof fn lemma_row_bit(png: &Png, x: int, y: int, bit: int, n: int, i: int)
    requires
        0 <= i < n <= 8,
    ensures
        0 <= row_bits(png, x, y, bit, n) < bits_bound(n),
        (row_bits(png, x, y, bit, n) / bits_bound(n - 1 - i)) % 2 == shade_bit(
            png.rgb@,
            pixel_index(png, x + i, y),
            bit,
        ),
    decreases n,
{
    let rr = row_bits(png, x, y, bit, n - 1);
    let b = shade_bit(png.rgb@, pixel_index(png, x + n - 1, y), bit);
    lemma_shade_bit(png.rgb@, pixel_index(png, x + n - 1, y), bit);
    if n - 1 > 0 {
        lemma_row_bit(png, x, y, bit, n - 1, if i < n - 1 { i } else { 0 });
    } else {
        assert(rr == 0);
    }
    assert(row_bits(png, x, y, bit, n) == rr * 2 + b);
    assert(bits_bound(n) == 2 * bits_bound(n - 1));
    if i < n - 1 {
        let q = bits_bound(n - 2 - i);
        assert(bits_bound(n - 1 - i) == 2 * q);
        assert(q > 0);
        assert((rr * 2 + b) / (2 * q) == rr / q) by (nonlinear_arith)
            requires
                q > 0,
                0 <= b < 2,
                rr >= 0,
        ;
    }
}

/// Each bit of a tile: bit `7 - dx` of byte `dy` of plane `p` (0 low, 1 high)
/// is bit `p` of the 2-bit shade of the pixel `dx` columns right of and `dy`
/// rows below the tile's corner; the leftmost pixel of a row is the most
/// significant bit.
pub proof fn lemma_tile_bits(png: &Png, t: int, p: int, dx: int, dy: int)
    requires
        0 <= p < 2,
        0 <= dx < 8,
        0 <= dy < 8,
    ensures
        (tile_bytes(png, t)[8 * p + dy] as int / bits_bound(7 - dx)) % 2 == shade_bit(
            png.rgb@,
            pixel_index(png, tile_x(png, t) + dx, tile_y(png, t) + dy),
            p,
        ),
{
    lemma_row_bit(png, tile_x(png, t), tile_y(png, t) + dy, p, 8, dx);
    let row = row_bits(png, tile_x(png, t), tile_y(png, t) + dy, p, 8);
    assert(tile_bytes(png, t)[8 * p + dy] == plane(png, tile_x(png, t), tile_y(png, t), p)[dy]);
    assert((row as u8) as int == row);
}

/// How many of the tiles before `n` are emitted.
pub open spec fn emitted_before(n: int, offset: i32, limit: Option<i32>) -> int
    decreases n,
{
    if n <= 0 {
        0
    } else {
        emitted_before(n - 1, offset, limit) + if emitted(n - 1, offset, limit) {
            1int
        } else {
            0int
        }
    }
}

/// The emitted tiles before an emitted tile are those from the first
/// emitted one on.
proof fn lemma_emitted_before(n: int, t: int, offset: i32, limit: Option<i32>)
    requires
        0 <= n <= t,
        emitted(t, offset, limit),
    ensures
        emitted_before(n, offset, limit) == if n <= offset {
            0
        } else if offset < 0 {
            n
        } else {
            n - offset
        },
    decreases n,
{
    if n > 0 {
        lemma_emitted_before(n - 1, t, offset, limit);
    }
}

/// Counting emitted tiles never goes down.
proof fn lemma_emitted_before_mono(a: int, b: int, offset: i32, limit: Option<i32>)
    requires
        0 <= a <= b,
    ensures
        0 <= emitted_before(a, offset, limit) <= emitted_before(b, offset, limit),
    decreases b,
{
    if a < b {
        lemma_emitted_before_mono(a, b - 1, offset, limit);
    } else if a > 0 {
        lemma_emitted_before_mono(0, a - 1, offset, limit);
    }
}

/// The output of the first `n` tiles: sixteen bytes per emitted tile, each
/// emitted tile's bytes after those of the emitted tiles before it.
proof fn lemma_tiles_layout(png: &Png, n: int, offset: i32, limit: Option<i32>, t: int)
    requires
        0 <= t < n,
        emitted(t, offset, limit),
    ensures
        tiles_upto(png, n, offset, limit).len() == 16 * emitted_before(n, offset, limit),
        tiles_upto(png, n, offset, limit).subrange(
            16 * emitted_before(t, offset, limit),
            16 * emitted_before(t, offset, limit) + 16,
        ) == tile_bytes(png, t),
    decreases n,
{
    lemma_emitted_before_mono(0, t, offset, limit);
    lemma_emitted_before_mono(t + 1, n, offset, limit);
    lemma_tiles_len(png, n, offset, limit);
    if n - 1 > t {
        lemma_emitted_before_mono(t + 1, n - 1, offset, limit);
        lemma_tiles_len(png, n - 1, offset, limit);
        lemma_tiles_layout(png, n - 1, offset, limit, t);
        let prev = tiles_upto(png, n - 1, offset, limit);
        let e = 16 * emitted_before(t, offset, limit);
        if emitted(n - 1, offset, limit) {
            assert(tiles_upto(png, n, offset, limit).subrange(e, e + 16) =~= prev.subrange(e, e + 16));
        }
    } else {
        lemma_tiles_len(png, t, offset, limit);
        assert(tiles_upto(png, n, offset, limit).subrange(
            16 * emitted_before(t, offset, limit),
            16 * emitted_before(t, offset, limit) + 16,
        ) =~= tile_bytes(png, t));
    }
}

/// Sixteen bytes per emitted tile.
proof fn lemma_tiles_len(png: &Png, n: int, offset: i32, limit: Option<i32>)
    ensures
        tiles_upto(png, n, offset, limit).len() == 16 * emitted_before(n, offset, limit),
    decreases n,
{
    if n > 0 {
        lemma_tiles_len(png, n - 1, offset, limit);
    }
}

/// Where each pixel lands in `png_to_tiles`'s result. Tiles are numbered
/// row-major over a grid `ceil(width / 8)` tiles wide; an emitted tile `t`
/// takes the sixteen bytes from `16 * j`, `j` counting the tiles emitted
/// before it (`t - offset`, or `t` for a negative offset); bit `7 - dx` of
/// its byte `8 * p + dy` is bit `p` of the 2-bit gray level of the pixel at
/// column `8 * (t % cols) + dx`, row `8 * (t / cols) + dy`: the leftmost
/// pixel is the most significant bit, and the low plane comes first.
pub proof fn lemma_tiles_output(png: &Png, offset: i32, limit: Option<i32>, t: int, p: int, dx: int, dy: int)
    requires
        0 <= t < tile_count(png),
        emitted(t, offset, limit),
        0 <= p < 2,
        0 <= dx < 8,
        0 <= dy < 8,
    ensures
        ({
            let r = tiles_upto(png, tile_count(png), offset, limit);
            let j = if offset < 0 {
                t
            } else {
                t - offset
            };
            let cols = (png.width as int + 7) / 8;
            let k = (8 * (t / cols) + dy) * png.width as int + 8 * (t % cols) + dx;
            let level = crate::media::color::gray_index(png.rgb@[3 * k], png.rgb@[3 * k + 1], png.rgb@[3 * k + 2]);
            &&& 16 * j + 16 <= r.len()
            &&& (r[16 * j + 8 * p + dy] as int / bits_bound(7 - dx)) % 2 == (if p == 0 {
                level % 2
            } else {
                level / 2
            })
        }),
{
    lemma_emitted_before(t, t, offset, limit);
    lemma_tiles_layout(png, tile_count(png), offset, limit, t);
    lemma_tile_bits(png, t, p, dx, dy);
    let r = tiles_upto(png, tile_count(png), offset, limit);
    let j = emitted_before(t, offset, limit);
    lemma_emitted_before_mono(t + 1, tile_count(png), offset, limit);
    assert(emitted_before(t + 1, offset, limit) == j + 1);
    assert(r.subrange(16 * j, 16 * j + 16)[8 * p + dy] == r[16 * j + 8 * p + dy]);
}

/// Whether `v` is the nearest NES color of one of the first `n` pixels.
pub open spec fn some_pixel_color(rgb: Seq<u8>, n: int, v: u8) -> bool {
    exists|k: int| 0 <= k < n && #[trigger] nes_color(rgb[3 * k], rgb[3 * k + 1], rgb[3 * k + 2]) == v
}

/// What the palette scan keeps: the last color it holds is the one it last
/// emitted, no two neighbouring colors are equal, and each color is the
/// nearest NES color of some pixel already scanned.
proof fn lemma_palette_shape(rgb: Seq<u8>, n: int)
    ensures
        ({
            let (c, last) = palette_upto(rgb, n);
            &&& c.len() == 0 <==> last == -1
            &&& c.len() > 0 ==> last == c.last() as int
            &&& forall|i: int| 0 <= i < c.len() - 1 ==> #[trigger] c[i] != c[i + 1]
            &&& forall|i: int| 0 <= i < c.len() ==> some_pixel_color(rgb, n, #[trigger] c[i])
        }),
    decreases n,
{
    if n > 0 {
        lemma_palette_shape(rgb, n - 1);
        let (c0, l0) = palette_upto(rgb, n - 1);
        let (c, last) = palette_upto(rgb, n);
        assert forall|i: int| 0 <= i < c.len() implies some_pixel_color(rgb, n, #[trigger] c[i]) by {
            if i < c0.len() {
                assert(c[i] == c0[i]);
                assert(some_pixel_color(rgb, n - 1, c0[i]));
                let k = choose|k: int|
                    0 <= k < n - 1 && #[trigger] nes_color(rgb[3 * k], rgb[3 * k + 1], rgb[3 * k + 2]) == c0[i];
                assert(0 <= k < n);
            } else {
                let k = n - 1;
                assert(c[i] == nes_color(rgb[3 * k], rgb[3 * k + 1], rgb[3 * k + 2]));
            }
        }
        assert forall|i: int| 0 <= i < c.len() - 1 implies #[trigger] c[i] != c[i + 1] by {
            if i + 1 < c0.len() {
                assert(c[i] == c0[i] && c[i + 1] == c0[i + 1]);
            }
        }
    }
}

/// The palette of an image with pixels starts with the first pixel's
/// nearest NES color.
pub proof fn lemma_palette_first(rgb: Seq<u8>, n: int)
    requires
        n >= 1,
    ensures
        palette_upto(rgb, n).0.len() >= 1,
        palette_upto(rgb, n).0[0] == nes_color(rgb[0], rgb[1], rgb[2]),
    decreases n,
{
    if n == 1 {
        assert(palette_upto(rgb, 0) == (Seq::<u8>::empty(), -1int));
        assert(palette_upto(rgb, 1).0 =~= seq![nes_color(rgb[0], rgb[1], rgb[2])]);
    } else {
        lemma_palette_first(rgb, n - 1);
        let c0 = palette_upto(rgb, n - 1).0;
        let c = palette_upto(rgb, n).0;
        assert(c[0] == c0[0]);
    }
}

/// A palette read from an image: its first entry is the first pixel's
/// nearest NES color (for an image with pixels), no two neighbouring entries
/// are equal, every entry is the nearest NES color of some pixel, and there
/// are at most four.
pub proof fn lemma_palette_law(png: &Png)
    ensures
        ({
            let n = png.width as int * png.height as int;
            let r = palette_upto(png.rgb@, n).0;
            &&& r.len() <= 4
            &&& n >= 1 ==> r.len() >= 1 && r[0] == nes_color(png.rgb@[0], png.rgb@[1], png.rgb@[2])
            &&& forall|i: int| 0 <= i < r.len() - 1 ==> #[trigger] r[i] != r[i + 1]
            &&& forall|i: int| 0 <= i < r.len() ==> some_pixel_color(png.rgb@, n, #[trigger] r[i])
        }),
{
    let n = png.width as int * png.height as int;
    lemma_palette_len(png.rgb@, n);
    lemma_palette_shape(png.rgb@, n);
    if n >= 1 {
        lemma_palette_first(png.rgb@, n);
    }
}

} // verus!
