//! Color matching for `.incpng` (2-bit grayscale) and `.incpal` (nearest NES
//! palette entry).

use vstd::prelude::*;

verus! {

/// The four grayscale levels used by `.incpng`.
pub open spec fn gray_level(i: int) -> int {
    if i == 0 {
        0x00
    } else if i == 1 {
        0x55
    } else if i == 2 {
        0xAA
    } else {
        0xFF
    }
}

/// The distance from grayscale level `i` to the channel average of `(r, g, b)`.
pub open spec fn gray_distance(r: u8, g: u8, b: u8, i: int) -> int {
    let avg = (r + g + b) / 3;
    let d = gray_level(i) - avg;
    if d < 0 {
        -d
    } else {
        d
    }
}

/// Whether `i` is the first of the four levels nearest to the average of
/// `(r, g, b)`.
pub open spec fn is_nearest_gray(r: u8, g: u8, b: u8, i: int) -> bool {
    &&& 0 <= i < 4
    &&& forall|j: int| 0 <= j < 4 ==> gray_distance(r, g, b, i) <= gray_distance(r, g, b, j)
    &&& forall|j: int| 0 <= j < i ==> gray_distance(r, g, b, j) > gray_distance(r, g, b, i)
}

/// The nearest grayscale level index of `(r, g, b)`.
pub open spec fn gray_index(r: u8, g: u8, b: u8) -> int {
    choose|i: int| is_nearest_gray(r, g, b, i)
}

/// There is exactly one first nearest level, and `gray_index` names it.
pub proof fn lemma_gray_index(r: u8, g: u8, b: u8, i: int)
    requires
        is_nearest_gray(r, g, b, i),
    ensures
        gray_index(r, g, b) == i,
{
    let c = gray_index(r, g, b);
    assert(is_nearest_gray(r, g, b, c));
    if c < i {
        assert(gray_distance(r, g, b, c) > gray_distance(r, g, b, i));
    } else if i < c {
        assert(gray_distance(r, g, b, i) > gray_distance(r, g, b, c));
    }
}

/// Nearest 2-bit grayscale index (`0..=3`) for an RGB triple, using the average
/// of the three channels; the lowest index wins a tie.
pub fn two_bit_color(r: u8, g: u8, b: u8) -> (c: u8)
    ensures
        is_nearest_gray(r, g, b, c as int),
        c as int == gray_index(r, g, b),
        c < 4,
{
    let avg: i32 = (r as i32 + g as i32 + b as i32) / 3;
    let mut diff: i32 = 256;
    let mut color: usize = 0;
    let mut i: usize = 0;
    while i < 4
        invariant
            0 <= avg <= 255,
            avg == (r + g + b) / 3,
            i <= 4,
            color < 4,
            i == 0 ==> diff == 256 && color == 0,
            i > 0 ==> color < i && diff == gray_distance(r, g, b, color as int),
            forall|j: int| 0 <= j < i ==> diff <= gray_distance(r, g, b, j),
            forall|j: int| 0 <= j < color ==> gray_distance(r, g, b, j) > diff,
        decreases 4 - i,
    {
        let level: i32 = if i == 0 {
            0x00
        } else if i == 1 {
            0x55
        } else if i == 2 {
            0xAA
        } else {
            0xFF
        };
        let d: i32 = if level - avg < 0 {
            avg - level
        } else {
            level - avg
        };
        assert(d == gray_distance(r, g, b, i as int));
        if d < diff {
            diff = d;
            color = i;
        }
        i += 1;
    }
    proof {
        lemma_gray_index(r, g, b, color as int);
    }
    color as u8
}

/// The 64-entry NES palette (RGB), used by `.incpal`.
pub open spec fn palette_rgb(i: int) -> u32 {
    if i == 0 {
        0x7C7C7C
    } else if i == 1 {
        0x0000FC
    } else if i == 2 {
        0x0000BC
    } else if i == 3 {
        0x4428BC
    } else if i == 4 {
        0x940084
    } else if i == 5 {
        0xA80020
    } else if i == 6 {
        0xA81000
    } else if i == 7 {
        0x881400
    } else if i == 8 {
        0x503000
    } else if i == 9 {
        0x007800
    } else if i == 10 {
        0x006800
    } else if i == 11 {
        0x005800
    } else if i == 12 {
        0x004058
    } else if i == 13 {
        0x000000
    } else if i == 14 {
        0x000000
    } else if i == 15 {
        0x000000
    } else if i == 16 {
        0xBCBCBC
    } else if i == 17 {
        0x0078F8
    } else if i == 18 {
        0x0058F8
    } else if i == 19 {
        0x6844FC
    } else if i == 20 {
        0xD800CC
    } else if i == 21 {
        0xE40058
    } else if i == 22 {
        0xF83800
    } else if i == 23 {
        0xE45C10
    } else if i == 24 {
        0xAC7C00
    } else if i == 25 {
        0x00B800
    } else if i == 26 {
        0x00A800
    } else if i == 27 {
        0x00A844
    } else if i == 28 {
        0x008888
    } else if i == 29 {
        0x000000
    } else if i == 30 {
        0x000000
    } else if i == 31 {
        0x000000
    } else if i == 32 {
        0xF8F8F8
    } else if i == 33 {
        0x3CBCFC
    } else if i == 34 {
        0x6888FC
    } else if i == 35 {
        0x9878F8
    } else if i == 36 {
        0xF878F8
    } else if i == 37 {
        0xF85898
    } else if i == 38 {
        0xF87858
    } else if i == 39 {
        0xFCA044
    } else if i == 40 {
        0xF8B800
    } else if i == 41 {
        0xB8F818
    } else if i == 42 {
        0x58D854
    } else if i == 43 {
        0x58F898
    } else if i == 44 {
        0x00E8D8
    } else if i == 45 {
        0x787878
    } else if i == 46 {
        0x000000
    } else if i == 47 {
        0x000000
    } else if i == 48 {
        0xFCFCFC
    } else if i == 49 {
        0xA4E4FC
    } else if i == 50 {
        0xB8B8F8
    } else if i == 51 {
        0xD8B8F8
    } else if i == 52 {
        0xF8B8F8
    } else if i == 53 {
        0xF8A4C0
    } else if i == 54 {
        0xF0D0B0
    } else if i == 55 {
        0xFCE0A8
    } else if i == 56 {
        0xF8D878
    } else if i == 57 {
        0xD8F878
    } else if i == 58 {
        0xB8F8B8
    } else if i == 59 {
        0xB8F8D8
    } else if i == 60 {
        0x00FCFC
    } else if i == 61 {
        0xF8D8F8
    } else if i == 62 {
        0x000000
    } else {
        0x000000
    }
}

/// The RGB value of NES palette entry `i`.
pub fn palette_entry(i: usize) -> (r: u32)
    requires
        i < 64,
    ensures
        r == palette_rgb(i as int),
{
    match i {
        0 => 0x7C7C7C,
        1 => 0x0000FC,
        2 => 0x0000BC,
        3 => 0x4428BC,
        4 => 0x940084,
        5 => 0xA80020,
        6 => 0xA81000,
        7 => 0x881400,
        8 => 0x503000,
        9 => 0x007800,
        10 => 0x006800,
        11 => 0x005800,
        12 => 0x004058,
        13 => 0x000000,
        14 => 0x000000,
        15 => 0x000000,
        16 => 0xBCBCBC,
        17 => 0x0078F8,
        18 => 0x0058F8,
        19 => 0x6844FC,
        20 => 0xD800CC,
        21 => 0xE40058,
        22 => 0xF83800,
        23 => 0xE45C10,
        24 => 0xAC7C00,
        25 => 0x00B800,
        26 => 0x00A800,
        27 => 0x00A844,
        28 => 0x008888,
        29 => 0x000000,
        30 => 0x000000,
        31 => 0x000000,
        32 => 0xF8F8F8,
        33 => 0x3CBCFC,
        34 => 0x6888FC,
        35 => 0x9878F8,
        36 => 0xF878F8,
        37 => 0xF85898,
        38 => 0xF87858,
        39 => 0xFCA044,
        40 => 0xF8B800,
        41 => 0xB8F818,
        42 => 0x58D854,
        43 => 0x58F898,
        44 => 0x00E8D8,
        45 => 0x787878,
        46 => 0x000000,
        47 => 0x000000,
        48 => 0xFCFCFC,
        49 => 0xA4E4FC,
        50 => 0xB8B8F8,
        51 => 0xD8B8F8,
        52 => 0xF8B8F8,
        53 => 0xF8A4C0,
        54 => 0xF0D0B0,
        55 => 0xFCE0A8,
        56 => 0xF8D878,
        57 => 0xD8F878,
        58 => 0xB8F8B8,
        59 => 0xB8F8D8,
        60 => 0x00FCFC,
        61 => 0xF8D8F8,
        62 => 0x000000,
        _ => 0x000000,
    }
}

/// The integer square root: `k * k <= n < (k + 1) * (k + 1)`.
pub open spec fn is_isqrt(n: int, k: int) -> bool {
    0 <= k && k * k <= n && n < (k + 1) * (k + 1)
}

/// The integer square root of `n`, the truncation of its real square root.
pub fn isqrt(n: u32) -> (k: u32)
    requires
        n <= 0x100000,
    ensures
        is_isqrt(n as int, k as int),
{
    let mut k: u32 = 0;
    loop
        invariant
            n <= 0x100000,
            k <= 1024,
            k * k <= n,
        decreases n - k * k,
    {
        let next = k + 1;
        assert(next * next <= 1025 * 1025) by (nonlinear_arith)
            requires
                next <= 1025,
        ;
        assert(next * next > k * k) by (nonlinear_arith)
            requires
                next == k + 1,
        ;
        if next * next > n {
            return k;
        }
        assert(next <= 1024) by (nonlinear_arith)
            requires
                next * next <= n,
                n <= 0x100000,
        ;
        k = next;
    }
}

/// The squared Euclidean distance between `(r, g, b)` and palette entry `i`.
pub open spec fn palette_distance2(r: u8, g: u8, b: u8, i: int) -> int {
    let rgb = palette_rgb(i);
    let dr = (rgb / 0x10000) % 0x100 - r;
    let dg = (rgb / 0x100) % 0x100 - g;
    let db = rgb % 0x100 - b;
    dr * dr + dg * dg + db * db
}

/// Whether `k` is the truncated Euclidean distance from `(r, g, b)` to palette
/// entry `i`.
pub open spec fn palette_distance(r: u8, g: u8, b: u8, i: int, k: int) -> bool {
    is_isqrt(palette_distance2(r, g, b, i), k)
}

/// Whether `i` is the first palette entry at the smallest truncated distance
/// from `(r, g, b)`.
pub open spec fn is_nearest_palette(r: u8, g: u8, b: u8, i: int) -> bool {
    &&& 0 <= i < 64
    &&& forall|j: int, di: int, dj: int|
        0 <= j < 64 && palette_distance(r, g, b, i, di) && palette_distance(r, g, b, j, dj) ==> di
            <= dj
    &&& forall|j: int, di: int, dj: int|
        0 <= j < i && palette_distance(r, g, b, i, di) && palette_distance(r, g, b, j, dj) ==> dj
            > di
}

/// The square root is unique.
pub proof fn lemma_isqrt_unique(n: int, a: int, b: int)
    requires
        is_isqrt(n, a),
        is_isqrt(n, b),
    ensures
        a == b,
{
    if a < b {
        assert((a + 1) * (a + 1) <= b * b) by (nonlinear_arith)
            requires
                0 <= a < b,
        ;
    } else if b < a {
        assert((b + 1) * (b + 1) <= a * a) by (nonlinear_arith)
            requires
                0 <= b < a,
        ;
    }
}

/// Channel `shift` (16, 8 or 0) of a 24-bit RGB value.
fn channel(rgb: u32, shift: u32) -> (c: i32)
    requires
        shift == 16 || shift == 8 || shift == 0,
        rgb < 0x1000000,
    ensures
        shift == 16 ==> c == (rgb / 0x10000) % 0x100,
        shift == 8 ==> c == (rgb / 0x100) % 0x100,
        shift == 0 ==> c == rgb % 0x100,
        0 <= c < 256,
{
    let v = (rgb >> shift) & 0xFF;
    assert(v < 256) by (bit_vector)
        requires
            v == (rgb >> shift) & 0xFF,
    ;
    if shift == 16 {
        assert((rgb >> 16u32) & 0xFF == (rgb / 0x10000) % 0x100) by (bit_vector);
    } else if shift == 8 {
        assert((rgb >> 8u32) & 0xFF == (rgb / 0x100) % 0x100) by (bit_vector);
    } else {
        assert((rgb >> 0u32) & 0xFF == rgb % 0x100) by (bit_vector);
    }
    v as i32
}

/// The index of the first nearest palette entry to `(r, g, b)`.
pub open spec fn nearest_palette(r: u8, g: u8, b: u8) -> int {
    choose|i: int| is_nearest_palette(r, g, b, i)
}

/// The palette byte `.incpal` emits for `(r, g, b)`: the nearest entry, with
/// `0x0D` remapped to `0x0F`.
pub open spec fn nes_color(r: u8, g: u8, b: u8) -> u8 {
    let i = nearest_palette(r, g, b);
    if i == 0x0D {
        0x0F
    } else {
        i as u8
    }
}

/// Every palette entry has a truncated distance.
proof fn lemma_palette_distance_exists(r: u8, g: u8, b: u8, j: int)
    ensures
        exists|d: int| palette_distance(r, g, b, j, d),
{
    let rgb = palette_rgb(j);
    let dr = (rgb / 0x10000) % 0x100 - r;
    let dg = (rgb / 0x100) % 0x100 - g;
    let db = rgb % 0x100 - b;
    assert(dr * dr >= 0 && dg * dg >= 0 && db * db >= 0) by (nonlinear_arith);
    let n = palette_distance2(r, g, b, j);
    lemma_isqrt_exists(n, 0);
    let d = choose|d: int| is_isqrt(n, d);
    assert(palette_distance(r, g, b, j, d));
}

/// Every natural number has an integer square root at or above `k`, given
/// `k * k <= n`.
proof fn lemma_isqrt_exists(n: int, k: int)
    requires
        0 <= k,
        k * k <= n,
    ensures
        exists|d: int| is_isqrt(n, d),
    decreases n - k * k,
{
    if n < (k + 1) * (k + 1) {
        assert(is_isqrt(n, k));
    } else {
        assert((k + 1) * (k + 1) > k * k) by (nonlinear_arith)
            requires
                0 <= k,
        ;
        lemma_isqrt_exists(n, k + 1);
    }
}

/// There is exactly one first nearest entry, and `nearest_palette` names it.
pub proof fn lemma_nearest_palette(r: u8, g: u8, b: u8, i: int)
    requires
        is_nearest_palette(r, g, b, i),
    ensures
        nearest_palette(r, g, b) == i,
{
    let c = nearest_palette(r, g, b);
    assert(is_nearest_palette(r, g, b, c));
    if c != i {
        assert(palette_distance2(r, g, b, c) >= 0 && palette_distance2(r, g, b, i) >= 0) by {
            let rgb1 = palette_rgb(c);
            let rgb2 = palette_rgb(i);
            assert forall|x: int| #[trigger] (x * x) >= 0 by {
                assert(x * x >= 0) by (nonlinear_arith);
            }
        }
        lemma_palette_distance_exists(r, g, b, c);
        lemma_palette_distance_exists(r, g, b, i);
        let dc = choose|d: int| palette_distance(r, g, b, c, d);
        let di = choose|d: int| palette_distance(r, g, b, i, d);
        if c < i {
            assert(dc > di);
            assert(dc <= di);
        } else {
            assert(di > dc);
            assert(di <= dc);
        }
    }
}

/// Nearest NES palette index for an RGB triple: the first entry at the smallest
/// truncated Euclidean distance, with index `0x0D` remapped to `0x0F`.
pub fn match_nes_color(r: u8, g: u8, b: u8) -> (c: u8)
    ensures
        c == nes_color(r, g, b),
        c < 64,
        c != 0x0D,
{
    let mut diff: i32 = 0xFFFFFF;
    let mut color: usize = 0;
    let mut i: usize = 0;
    while i < 64
        invariant
            i <= 64,
            color < 64,
            i == 0 ==> color == 0 && diff == 0xFFFFFF,
            i > 0 ==> color < i && palette_distance(r, g, b, color as int, diff as int),
            i > 0 ==> 0 <= diff <= 442,
            forall|j: int, dj: int|
                0 <= j < i && palette_distance(r, g, b, j, dj) ==> diff <= dj,
            forall|j: int, dj: int|
                0 <= j < color && palette_distance(r, g, b, j, dj) ==> dj > diff,
        decreases 64 - i,
    {
        let rgb = palette_entry(i);
        assert(rgb < 0x1000000) by {
            reveal_with_fuel(palette_rgb, 1);
        }
        let dr = channel(rgb, 16) - r as i32;
        let dg = channel(rgb, 8) - g as i32;
        let db = channel(rgb, 0) - b as i32;
        assert(dr * dr <= 65025 && dg * dg <= 65025 && db * db <= 65025) by (nonlinear_arith)
            requires
                -255 <= dr <= 255,
                -255 <= dg <= 255,
                -255 <= db <= 255,
        ;
        assert(dr * dr >= 0 && dg * dg >= 0 && db * db >= 0) by (nonlinear_arith);
        let d2 = (dr * dr + dg * dg + db * db) as u32;
        assert(d2 <= 195075);
        let k = isqrt(d2);
        assert(k <= 442) by (nonlinear_arith)
            requires
                k * k <= d2,
                d2 <= 195075,
        ;
        let d = k as i32;
        assert(palette_distance(r, g, b, i as int, d as int));
        proof {
            assert forall|dj: int| palette_distance(r, g, b, i as int, dj) implies dj == d by {
                lemma_isqrt_unique(d2 as int, d as int, dj);
            }
            if i > 0 {
                assert forall|dj: int| palette_distance(r, g, b, color as int, dj) implies dj == diff by {
                    lemma_isqrt_unique(palette_distance2(r, g, b, color as int), diff as int, dj);
                }
            }
        }
        if d < diff {
            diff = d;
            color = i;
        }
        i += 1;
    }
    proof {
        assert forall|dj: int| palette_distance(r, g, b, color as int, dj) implies dj == diff by {
            lemma_isqrt_unique(palette_distance2(r, g, b, color as int), diff as int, dj);
        }
        assert(is_nearest_palette(r, g, b, color as int));
        lemma_nearest_palette(r, g, b, color as int);
    }
    if color == 0x0D {
        0x0F
    } else {
        color as u8
    }
}

/// Every color has a nearest grayscale level, so `gray_index` is one of the
/// four.
pub proof fn lemma_gray_index_range(r: u8, g: u8, b: u8)
    ensures
        0 <= gray_index(r, g, b) < 4,
{
    let d0 = gray_distance(r, g, b, 0);
    let d1 = gray_distance(r, g, b, 1);
    let d2 = gray_distance(r, g, b, 2);
    let d3 = gray_distance(r, g, b, 3);
    let i = if d0 <= d1 && d0 <= d2 && d0 <= d3 {
        0int
    } else if d1 <= d2 && d1 <= d3 {
        1int
    } else if d2 <= d3 {
        2int
    } else {
        3int
    };
    assert(is_nearest_gray(r, g, b, i));
    lemma_gray_index(r, g, b, i);
}

} // verus!
