//! The tray icon: the remaining percentage as large colored digits over a
//! thin fuel bar ("F" at a full tank), drawn straight into an RGBA buffer.
use vstd::prelude::*;

use crate::text::{decimal, push_decimal};

verus! {

/// Icon width in pixels.
pub const W: usize = 32;

/// Icon height in pixels.
pub const H: usize = 32;

/// The fill color while at least half the tank remains: white, plenty.
pub const WHITE: [u8; 4] = [255, 255, 255, 255];

/// The fill color below half: amber.
pub const AMBER: [u8; 4] = [222, 163, 24, 255];

/// The fill color below a quarter: vermillion.
pub const VERMILLION: [u8; 4] = [235, 68, 50, 255];

/// Translucent mid-gray track; reads on both light and dark taskbars.
pub const TRACK: [u8; 4] = [128, 128, 128, 120];

/// The rows of the 3x5 pixel font, one byte per row, low three bits used,
/// the highest of them the left pixel. Unknown characters are blank.
pub open spec fn glyph_rows(ch: char) -> Seq<u8> {
    if ch == '0' {
        seq![7u8, 5, 5, 5, 7]
    } else if ch == '1' {
        seq![2u8, 6, 2, 2, 7]
    } else if ch == '2' {
        seq![7u8, 1, 7, 4, 7]
    } else if ch == '3' {
        seq![7u8, 1, 7, 1, 7]
    } else if ch == '4' {
        seq![5u8, 5, 7, 1, 1]
    } else if ch == '5' {
        seq![7u8, 4, 7, 1, 7]
    } else if ch == '6' {
        seq![7u8, 4, 7, 5, 7]
    } else if ch == '7' {
        seq![7u8, 1, 1, 2, 2]
    } else if ch == '8' {
        seq![7u8, 5, 7, 5, 7]
    } else if ch == '9' {
        seq![7u8, 5, 7, 1, 7]
    } else if ch == 'F' {
        seq![7u8, 4, 7, 4, 4]
    } else {
        seq![0u8, 0, 0, 0, 0]
    }
}

/// The 3x5 pixel font.
pub fn glyph(ch: char) -> (r: [u8; 5])
    ensures
        r@ == glyph_rows(ch),
{
    let r: [u8; 5] = match ch {
        '0' => [0b111, 0b101, 0b101, 0b101, 0b111],
        '1' => [0b010, 0b110, 0b010, 0b010, 0b111],
        '2' => [0b111, 0b001, 0b111, 0b100, 0b111],
        '3' => [0b111, 0b001, 0b111, 0b001, 0b111],
        '4' => [0b101, 0b101, 0b111, 0b001, 0b001],
        '5' => [0b111, 0b100, 0b111, 0b001, 0b111],
        '6' => [0b111, 0b100, 0b111, 0b101, 0b111],
        '7' => [0b111, 0b001, 0b001, 0b010, 0b010],
        '8' => [0b111, 0b101, 0b111, 0b101, 0b111],
        '9' => [0b111, 0b101, 0b111, 0b001, 0b111],
        'F' => [0b111, 0b100, 0b111, 0b100, 0b100],
        _ => [0;5],
    };
    assert(r@ =~= glyph_rows(ch));
    r
}


/// Scale of the font: glyphs render 9x15.
pub const SCALE: usize = 3;

/// Gap between glyphs, in pixels.
pub const GAP: usize = 2;

/// Top of the glyphs.
pub const TEXT_TOP: usize = 3;

/// The text on the icon: "F" at a full tank, otherwise the whole percent
/// number.
pub open spec fn icon_text(pct: u32) -> Seq<char> {
    if pct >= 100 {
        seq!['F']
    } else {
        decimal(pct as nat)
    }
}

/// Left edge of a text of `n` glyphs, centered.
pub open spec fn text_left(n: int) -> int {
    let tw = n * 9 + (n - 1) * 2;
    if tw >= 32 {
        0
    } else {
        (32 - tw) / 2
    }
}

/// Whether pixel column `rx` of row `ry` of the glyph for `ch` is set.
pub open spec fn glyph_bit(ch: char, ry: int, rx: int) -> bool {
    let row = glyph_rows(ch)[ry] as int;
    let d = if rx == 0 {
        4int
    } else if rx == 1 {
        2int
    } else {
        1int
    };
    (row / d) % 2 == 1
}

/// The horizontal position of sub-pixel `sx` of font column `rx` of glyph
/// `gi` in a text of `n` glyphs.
pub open spec fn cell_x(n: int, gi: int, rx: int, sx: int) -> int {
    text_left(n) + gi * 11 + rx * 3 + sx
}

/// The vertical position of sub-pixel `sy` of font row `ry`.
pub open spec fn cell_y(ry: int, sy: int) -> int {
    3 + ry * 3 + sy
}

/// Pixel (x, y) is covered by a set font bit of some glyph of `text`,
/// each font pixel drawn as a 3x3 square.
pub open spec fn lit(text: Seq<char>, x: int, y: int) -> bool {
    exists|gi: int, ry: int, rx: int, sy: int, sx: int|
        #![trigger glyph_bit(text[gi], ry, rx), cell_x(text.len() as int, gi, rx, sx), cell_y(ry, sy)]
        0 <= gi < text.len() && 0 <= ry < 5 && 0 <= rx < 3 && 0 <= sy < 3 && 0 <= sx < 3
            && x == cell_x(text.len() as int, gi, rx, sx) && y == cell_y(ry, sy)
            && glyph_bit(text[gi], ry, rx)
}

/// The color of pixel (x, y): the fuel bar (rows 21 to 25) is the fill
/// color over the first `fill_w` columns from column 2 and the gray track
/// up to column 29; above it the text is drawn in the fill color; the rest
/// is transparent.
pub open spec fn pixel_color(text: Seq<char>, color: Seq<u8>, fill_w: int, x: int, y: int) -> Seq<u8> {
    if 21 <= y < 26 && 2 <= x < 2 + fill_w {
        color
    } else if 21 <= y < 26 && 2 <= x < 30 {
        TRACK@
    } else if lit(text, x, y) {
        color
    } else {
        seq![0u8, 0, 0, 0]
    }
}

proof fn lemma_lit_inverse(text: Seq<char>, x: int, y: int)
    requires
        1 <= text.len() <= 2,
        0 <= x < 32,
        0 <= y < 32,
    ensures
        lit(text, x, y) <==> ({
            let dx = x - text_left(text.len() as int);
            &&& 3 <= y < 18
            &&& dx >= 0
            &&& dx / 11 < text.len()
            &&& dx % 11 < 9
            &&& glyph_bit(text[dx / 11], (y - 3) / 3, (dx % 11) / 3)
        }),
{
    let n = text.len() as int;
    let dx = x - text_left(n);
    if lit(text, x, y) {
        let (gi, ry, rx, sy, sx) = choose|gi: int, ry: int, rx: int, sy: int, sx: int|
            #![trigger glyph_bit(text[gi], ry, rx), cell_x(n, gi, rx, sx), cell_y(ry, sy)]
            0 <= gi < text.len() && 0 <= ry < 5 && 0 <= rx < 3 && 0 <= sy < 3 && 0 <= sx < 3
                && x == cell_x(n, gi, rx, sx) && y == cell_y(ry, sy) && glyph_bit(
                text[gi],
                ry,
                rx,
            );
        assert(dx == gi * 11 + (rx * 3 + sx));
        assert(dx / 11 == gi && dx % 11 == rx * 3 + sx) by (nonlinear_arith)
            requires
                dx == gi * 11 + (rx * 3 + sx),
                0 <= rx * 3 + sx < 11,
                0 <= gi,
        ;
        assert((dx % 11) / 3 == rx) by (nonlinear_arith)
            requires
                dx % 11 == rx * 3 + sx,
                0 <= sx < 3,
                0 <= rx,
        ;
        assert((y - 3) / 3 == ry) by (nonlinear_arith)
            requires
                y - 3 == ry * 3 + sy,
                0 <= sy < 3,
                0 <= ry,
        ;
    } else {
        if 3 <= y < 18 && dx >= 0 && dx / 11 < n && dx % 11 < 9 {
            let gi = dx / 11;
            let w = dx % 11;
            let rx = w / 3;
            let sx = w % 3;
            let ry = (y - 3) / 3;
            let sy = (y - 3) % 3;
            assert(dx == gi * 11 + w && 0 <= w && 0 <= gi) by (nonlinear_arith)
                requires
                    gi == dx / 11,
                    w == dx % 11,
                    dx >= 0,
            ;
            assert(w == rx * 3 + sx && 0 <= sx < 3 && 0 <= rx < 3) by (nonlinear_arith)
                requires
                    rx == w / 3,
                    sx == w % 3,
                    0 <= w < 9,
            ;
            assert(y - 3 == ry * 3 + sy && 0 <= sy < 3 && 0 <= ry < 5) by (nonlinear_arith)
                requires
                    ry == (y - 3) / 3,
                    sy == (y - 3) % 3,
                    0 <= y - 3 < 15,
            ;
            assert(x == cell_x(n, gi, rx, sx));
            assert(y == cell_y(ry, sy));
            if glyph_bit(text[gi], ry, rx) {
                assert(lit(text, x, y));
            }
        }
    }
}

fn bit_set(row: u8, rx: usize) -> (r: bool)
    requires
        rx < 3,
    ensures
        r == ({
            let d = if rx == 0 {
                4int
            } else if rx == 1 {
                2int
            } else {
                1int
            };
            (row as int / d) % 2 == 1
        }),
{
    let d: u8 = if rx == 0 {
        4
    } else if rx == 1 {
        2
    } else {
        1
    };
    (row / d) % 2 == 1
}

fn is_lit(text: &Vec<char>, x: usize, y: usize) -> (r: bool)
    requires
        1 <= text.len() <= 2,
        x < 32,
        y < 32,
    ensures
        r == lit(text@, x as int, y as int),
{
    proof {
        lemma_lit_inverse(text@, x as int, y as int);
    }
    let n = text.len();
    let tw = n * 9 + (n - 1) * 2;
    let left = if tw >= 32 {
        0
    } else {
        (32 - tw) / 2
    };
    if y < 3 || y >= 18 || x < left {
        return false;
    }
    let dx = x - left;
    let gi = dx / 11;
    let w = dx % 11;
    if gi >= n || w >= 9 {
        return false;
    }
    let rows = glyph(text[gi]);
    let ry = (y - 3) / 3;
    bit_set(rows[ry], w / 3)
}

/// The color of one pixel of the icon.
fn pixel(text: &Vec<char>, color: [u8; 4], fill_w: usize, x: usize, y: usize) -> (r: [u8; 4])
    requires
        1 <= text.len() <= 2,
        x < 32,
        y < 32,
        fill_w <= 28,
    ensures
        r@ == pixel_color(text@, color@, fill_w as int, x as int, y as int),
{
    if 21 <= y && y < 26 && 2 <= x && x < 2 + fill_w {
        color
    } else if 21 <= y && y < 26 && 2 <= x && x < 30 {
        TRACK
    } else if is_lit(text, x, y) {
        color
    } else {
        let z: [u8; 4] = [0, 0, 0, 0];
        assert(z@ =~= seq![0u8, 0, 0, 0]);
        z
    }
}

/// The text for a percentage.
fn text_for(pct: u32) -> (r: Vec<char>)
    ensures
        r@ == icon_text(pct),
        1 <= r@.len() <= 10,
{
    let mut t: Vec<char> = Vec::new();
    if pct >= 100 {
        t.push('F');
        assert(t@ =~= seq!['F']);
    } else {
        push_decimal(&mut t, pct as u64);
        assert(t@ =~= decimal(pct as nat));
        assert(1 <= decimal(pct as nat).len() <= 2) by {
            if pct >= 10 {
                assert(decimal((pct / 10) as nat).len() == 1);
            }
        }
    }
    t
}

/// Draws the icon for `pct` percent remaining (100 or more shows "F") with
/// `fill_w` columns of the fuel bar filled, in `color`. Returns the RGBA
/// buffer (row-major, four bytes per pixel) with its width and height.
pub fn paint(pct: u32, color: [u8; 4], fill_w: usize) -> (r: (Vec<u8>, u32, u32))
    requires
        fill_w <= 28,
    ensures
        r.1 == 32 && r.2 == 32,
        r.0@.len() == 32 * 32 * 4,
        forall|x: int, y: int, k: int|
            0 <= x < 32 && 0 <= y < 32 && 0 <= k < 4 ==> #[trigger] r.0@[(y * 32 + x) * 4 + k]
                == pixel_color(icon_text(pct), color@, fill_w as int, x, y)[k],
{
    let text = text_for(pct);
    assert(text@.len() <= 2) by {
        if pct < 100 {
            if pct >= 10 {
                assert(decimal((pct / 10) as nat).len() == 1);
            }
        }
    }
    let mut px: Vec<u8> = Vec::new();
    let mut y: usize = 0;
    while y < 32
        invariant
            y <= 32,
            1 <= text@.len() <= 2,
            text@ == icon_text(pct),
            fill_w <= 28,
            px@.len() == y * 128,
            forall|xx: int, yy: int, k: int|
                0 <= xx < 32 && 0 <= yy < y && 0 <= k < 4 ==> #[trigger] px@[(yy * 32 + xx) * 4
                    + k] == pixel_color(text@, color@, fill_w as int, xx, yy)[k],
        decreases 32 - y,
    {
        let mut x: usize = 0;
        while x < 32
            invariant
                y < 32,
                x <= 32,
                1 <= text@.len() <= 2,
                text@ == icon_text(pct),
                fill_w <= 28,
                px@.len() == y * 128 + x * 4,
                forall|xx: int, yy: int, k: int|
                    0 <= xx < 32 && 0 <= yy < y && 0 <= k < 4 ==> #[trigger] px@[(yy * 32 + xx)
                        * 4 + k] == pixel_color(text@, color@, fill_w as int, xx, yy)[k],
                forall|xx: int, k: int|
                    0 <= xx < x && 0 <= k < 4 ==> #[trigger] px@[(y * 32 + xx) * 4 + k]
                        == pixel_color(text@, color@, fill_w as int, xx, y as int)[k],
            decreases 32 - x,
        {
            let c = pixel(&text, color, fill_w, x, y);
            let ghost before = px@;
            px.push(c[0]);
            px.push(c[1]);
            px.push(c[2]);
            px.push(c[3]);
            proof {
                assert forall|xx: int, yy: int, k: int|
                    0 <= xx < 32 && 0 <= yy < y && 0 <= k < 4 implies #[trigger] px@[(yy * 32
                        + xx) * 4 + k] == pixel_color(text@, color@, fill_w as int, xx, yy)[k] by {
                    assert((yy * 32 + xx) * 4 + k < y * 128) by (nonlinear_arith)
                        requires
                            0 <= xx < 32,
                            0 <= yy < y,
                            0 <= k < 4,
                    ;
                    assert(px@[(yy * 32 + xx) * 4 + k] == before[(yy * 32 + xx) * 4 + k]);
                }
                assert forall|xx: int, k: int|
                    0 <= xx < x + 1 && 0 <= k < 4 implies #[trigger] px@[(y * 32 + xx) * 4 + k]
                        == pixel_color(text@, color@, fill_w as int, xx, y as int)[k] by {
                    if xx < x {
                        assert(px@[(y * 32 + xx) * 4 + k] == before[(y * 32 + xx) * 4 + k]);
                    } else {
                        assert(px@[(y * 32 + xx) * 4 + k] == c@[k]);
                    }
                }
            }
            x += 1;
        }
        y += 1;
    }
    (px, 32, 32)
}


/// The characters the icon draws: the ten digits and `F`.
pub open spec fn drawable(ch: char) -> bool {
    ('0' <= ch && ch <= '9') || ch == 'F'
}

/// The font tells the drawn characters apart: two different characters
/// among the digits and `F` never share their rows, and none of them is
/// blank, so every percentage shows as its own decimal digits.
pub proof fn law_font_distinguishes(c1: char, c2: char)
    requires
        drawable(c1),
        drawable(c2),
        c1 != c2,
    ensures
        glyph_rows(c1) != glyph_rows(c2),
        glyph_rows(c1) != seq![0u8, 0, 0, 0, 0],
{
    let a = glyph_rows(c1);
    let b = glyph_rows(c2);
    assert(a.len() == 5 && b.len() == 5);
    assert(a[0] != b[0] || a[1] != b[1] || a[2] != b[2] || a[3] != b[3] || a[4] != b[4]);
    assert(a[0] != 0 || a[1] != 0);
}

/// The font's digits, each drawn in a 3x5 cell (bit 2 the left column):
/// `0` a closed box, `1` a stem with a flag and a foot, `2` and `3` and
/// `5` the three bars with their joining strokes, `4` two arms over a
/// right stem, `6`, `8`, `9` boxes with open sides, `7` a top bar over a
/// slanted stem, and `F` the two bars of an F on a left stem.
pub proof fn law_font_table()
    ensures
        glyph_rows('0') == seq![0b111u8, 0b101, 0b101, 0b101, 0b111],
        glyph_rows('1') == seq![0b010u8, 0b110, 0b010, 0b010, 0b111],
        glyph_rows('2') == seq![0b111u8, 0b001, 0b111, 0b100, 0b111],
        glyph_rows('3') == seq![0b111u8, 0b001, 0b111, 0b001, 0b111],
        glyph_rows('4') == seq![0b101u8, 0b101, 0b111, 0b001, 0b001],
        glyph_rows('5') == seq![0b111u8, 0b100, 0b111, 0b001, 0b111],
        glyph_rows('6') == seq![0b111u8, 0b100, 0b111, 0b101, 0b111],
        glyph_rows('7') == seq![0b111u8, 0b001, 0b001, 0b010, 0b010],
        glyph_rows('8') == seq![0b111u8, 0b101, 0b111, 0b101, 0b111],
        glyph_rows('9') == seq![0b111u8, 0b101, 0b111, 0b001, 0b111],
        glyph_rows('F') == seq![0b111u8, 0b100, 0b111, 0b100, 0b100],
{
}

} // verus!
