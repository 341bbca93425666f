use tokentank::icon::{glyph, paint, WHITE, VERMILLION, TRACK};

fn px(buf: &[u8], x: usize, y: usize) -> [u8; 4] {
    let i = (y * 32 + x) * 4;
    [buf[i], buf[i + 1], buf[i + 2], buf[i + 3]]
}

#[test]
fn font_rows() {
    assert_eq!(glyph('8'), [0b111, 0b101, 0b111, 0b101, 0b111]);
    assert_eq!(glyph('1'), [0b010, 0b110, 0b010, 0b010, 0b111]);
    assert_eq!(glyph('F'), [0b111, 0b100, 0b111, 0b100, 0b100]);
    assert_eq!(glyph('x'), [0; 5]);
}

#[test]
fn full_tank_shows_f_and_a_full_bar() {
    let (buf, w, h) = paint(100, WHITE, 28);
    assert_eq!((w, h, buf.len()), (32, 32, 4096));
    // "F" is one glyph, centred at x = 11; its top row is fully set.
    for x in 11..20 {
        assert_eq!(px(&buf, x, 3), WHITE);
    }
    assert_eq!(px(&buf, 10, 3), [0; 4]);
    assert_eq!(px(&buf, 20, 3), [0; 4]);
    // Row 1 of "F" has only the left pixel.
    assert_eq!(px(&buf, 11, 6), WHITE);
    assert_eq!(px(&buf, 14, 6), [0; 4]);
    for x in 2..30 {
        assert_eq!(px(&buf, x, 21), WHITE);
        assert_eq!(px(&buf, x, 25), WHITE);
    }
    assert_eq!(px(&buf, 1, 21), [0; 4]);
    assert_eq!(px(&buf, 30, 21), [0; 4]);
    assert_eq!(px(&buf, 5, 26), [0; 4]);
}

#[test]
fn low_tank_shows_digits_and_a_short_bar() {
    let (buf, _, _) = paint(7, VERMILLION, 2);
    // "7" alone at x = 11: top row set, then the right column.
    assert_eq!(px(&buf, 11, 3), VERMILLION);
    assert_eq!(px(&buf, 19, 5), VERMILLION);
    assert_eq!(px(&buf, 11, 6), [0; 4]);
    assert_eq!(px(&buf, 2, 22), VERMILLION);
    assert_eq!(px(&buf, 3, 22), VERMILLION);
    assert_eq!(px(&buf, 4, 22), TRACK);
    assert_eq!(px(&buf, 29, 22), TRACK);
}

#[test]
fn two_digits_are_centred_with_a_gap() {
    let (buf, _, _) = paint(42, WHITE, 0);
    // "42": glyphs at x = 6 and x = 17.
    assert_eq!(px(&buf, 6, 3), WHITE);
    assert_eq!(px(&buf, 9, 3), [0; 4]);
    assert_eq!(px(&buf, 15, 3), [0; 4]);
    assert_eq!(px(&buf, 17, 3), WHITE);
    assert_eq!(px(&buf, 2, 23), TRACK);
}
