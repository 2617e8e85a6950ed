use crate::graphics::{in_area, PixelColor, PixelWriter};
use vstd::prelude::*;

verus! {

/// How many bytes the UTF-8 sequence that starts with `c` has; 0 when `c`
/// cannot start one.
pub open spec fn utf8_size(c: u8) -> usize {
    if c < 0x80 {
        1
    } else if 0xc0 <= c < 0xe0 {
        2
    } else if 0xe0 <= c < 0xf0 {
        3
    } else if 0xf0 <= c < 0xf8 {
        4
    } else {
        0
    }
}

pub fn count_utf8_size(c: u8) -> (n: usize)
    ensures
        n == utf8_size(c),
{
    if c < 0x80 {
        1
    } else if 0xc0 <= c && c < 0xe0 {
        2
    } else if 0xe0 <= c && c < 0xf0 {
        3
    } else if 0xf0 <= c && c < 0xf8 {
        4
    } else {
        0
    }
}

/// The code point that the UTF-8 sequence at the start of `b` encodes,
/// taking its bits as they stand; 0 when the first byte starts no sequence.
pub open spec fn utf8_code_point(b: Seq<u8>) -> u32 {
    let at = |i: int| b[i] as u32;
    if utf8_size(b[0]) == 1 {
        at(0)
    } else if utf8_size(b[0]) == 2 {
        (at(0) & 0x1f) << 6u32 | (at(1) & 0x3f)
    } else if utf8_size(b[0]) == 3 {
        (at(0) & 0x0f) << 12u32 | (at(1) & 0x3f) << 6u32 | (at(2) & 0x3f)
    } else if utf8_size(b[0]) == 4 {
        (at(0) & 0x07) << 18u32 | (at(1) & 0x3f) << 12u32 | (at(2) & 0x3f) << 6u32 | (at(3)
            & 0x3f)
    } else {
        0
    }
}

/// Decodes the UTF-8 sequence at the start of `bytes`, which must hold
/// all of its bytes.
pub fn convert_utf8_to_u32(bytes: &[u8]) -> (v: u32)
    requires
        bytes@.len() >= 1,
        bytes@.len() >= utf8_size(bytes@[0]),
    ensures
        v == utf8_code_point(bytes@),
{
    let n: usize = count_utf8_size(bytes[0]);
    if n == 1 {
        bytes[0] as u32
    } else if n == 2 {
        (bytes[0] as u32 & 0x1f) << 6u32 | (bytes[1] as u32 & 0x3f)
    } else if n == 3 {
        (bytes[0] as u32 & 0x0f) << 12u32 | (bytes[1] as u32 & 0x3f) << 6u32 | (bytes[2] as u32
            & 0x3f)
    } else if n == 4 {
        (bytes[0] as u32 & 0x07) << 18u32 | (bytes[1] as u32 & 0x3f) << 12u32 | (bytes[2] as u32
            & 0x3f) << 6u32 | (bytes[3] as u32 & 0x3f)
    } else {
        0
    }
}

/// Whether the font table holds a glyph for `c`: 16 rows of 8 pixels, one
/// byte per row, the glyph of `c` starting at byte `16 * c`.
pub open spec fn has_glyph(font: Seq<u8>, c: char) -> bool {
    16 * (c as int) + 16 <= font.len()
}

/// Whether the glyph of `c` sets its pixel at column `dx`, row `dy`.
pub open spec fn glyph_bit(font: Seq<u8>, c: char, dx: int, dy: int) -> bool {
    (font[16 * (c as int) + dy] >> ((7 - dx) as u8)) & 1u8 == 1u8
}

/// Whether drawing `c` with its top left corner at (x, y) paints (a, b).
pub open spec fn glyph_covers(font: Seq<u8>, c: char, x: int, y: int, a: int, b: int) -> bool {
    &&& has_glyph(font, c)
    &&& x <= a < x + 8
    &&& y <= b < y + 16
    &&& glyph_bit(font, c, a - x, b - y)
}

/// Whether every pixel that drawing `c` at (x, y) paints lies in `area`
/// and its coordinates fit in an `i32`.
pub open spec fn glyph_fits(font: Seq<u8>, c: char, x: int, y: int, area: (int, int, int, int)) -> bool {
    has_glyph(font, c) ==> {
        &&& x + 7 <= i32::MAX
        &&& y + 15 <= i32::MAX
        &&& forall|a: int, b: int| glyph_covers(font, c, x, y, a, b) ==> in_area(area, a, b)
    }
}

proof fn lemma_glyph_bit(row: u8, dx: i32)
    requires
        0 <= dx < 8,
    ensures
        ((row << (dx as u8)) & 0x80u8 != 0u8) == ((row >> ((7 - dx) as u8)) & 1u8 == 1u8),
{
    let d: u8 = dx as u8;
    assert(d < 8);
    assert(((row << d) & 0x80u8 != 0u8) == ((row >> ((7u8 - d) as u8)) & 1u8 == 1u8)) by (bit_vector)
        requires
            d < 8,
    ;
}

/// Draws the glyph of `c` from `font` with its top left corner at (x, y);
/// draws nothing when the font holds no glyph for `c`.
pub fn write_ascii<W: PixelWriter>(
    writer: &mut W,
    font: &[u8],
    x: i32,
    y: i32,
    c: char,
    color: &PixelColor,
)
    requires
        old(writer).inv(),
        glyph_fits(font@, c, x as int, y as int, old(writer).area()),
    ensures
        final(writer).inv(),
        final(writer).frame() == old(writer).frame(),
        final(writer).area() == old(writer).area(),
        final(writer).spec_width() == old(writer).spec_width(),
        final(writer).spec_height() == old(writer).spec_height(),
        forall|a: int, b: int|
            #[trigger] final(writer).pixel_at(a, b) == if glyph_covers(
                font@,
                c,
                x as int,
                y as int,
                a,
                b,
            ) {
                *color
            } else {
                old(writer).pixel_at(a, b)
            },
{
    let ghost w0 = *old(writer);
    let index: usize = 16 * (c as u32 as usize);
    let n: usize = font.len();
    if index >= n || n - index < 16 {
        return ;
    }
    let mut dy: i32 = 0;
    while dy < 16
        invariant
            0 <= dy <= 16,
            has_glyph(font@, c),
            index == 16 * (c as int),
            writer.inv(),
            writer.frame() == w0.frame(),
            writer.area() == w0.area(),
            writer.spec_width() == w0.spec_width(),
            writer.spec_height() == w0.spec_height(),
            glyph_fits(font@, c, x as int, y as int, w0.area()),
            forall|a: int, b: int|
                #[trigger] writer.pixel_at(a, b) == if glyph_covers(
                    font@,
                    c,
                    x as int,
                    y as int,
                    a,
                    b,
                ) && b < y + dy {
                    *color
                } else {
                    w0.pixel_at(a, b)
                },
        decreases 16 - dy,
    {
        let bits: u8 = font[index + dy as usize];
        let mut dx: i32 = 0;
        while dx < 8
            invariant
                0 <= dx <= 8,
                0 <= dy < 16,
                has_glyph(font@, c),
                index == 16 * (c as int),
                bits == font@[16 * (c as int) + dy],
                writer.inv(),
                writer.frame() == w0.frame(),
                writer.area() == w0.area(),
                writer.spec_width() == w0.spec_width(),
                writer.spec_height() == w0.spec_height(),
                glyph_fits(font@, c, x as int, y as int, w0.area()),
                forall|a: int, b: int|
                    #[trigger] writer.pixel_at(a, b) == if glyph_covers(
                        font@,
                        c,
                        x as int,
                        y as int,
                        a,
                        b,
                    ) && (b < y + dy || (b == y + dy && a < x + dx)) {
                        *color
                    } else {
                        w0.pixel_at(a, b)
                    },
            decreases 8 - dx,
        {
            proof {
                lemma_glyph_bit(bits, dx);
            }
            if (bits << (dx as u8)) & 0x80 != 0 {
                assert(glyph_covers(font@, c, x as int, y as int, x + dx, y + dy));
                writer.write(x + dx, y + dy, color);
            }
            dx += 1;
        }
        dy += 1;
    }
}

/// Whether `c` is an ASCII character.
pub open spec fn is_ascii_char(c: char) -> bool {
    (c as u32) < 128
}

/// Draws `c`; a character outside ASCII is drawn as two question marks.
pub fn write_unicode<W: PixelWriter>(
    writer: &mut W,
    font: &[u8],
    x: i32,
    y: i32,
    c: char,
    color: &PixelColor,
)
    requires
        old(writer).inv(),
        is_ascii_char(c) ==> glyph_fits(font@, c, x as int, y as int, old(writer).area()),
        !is_ascii_char(c) ==> x + 8 <= i32::MAX && glyph_fits(font@, '?', x as int, y as int, old(writer).area())
            && glyph_fits(font@, '?', x + 8, y as int, old(writer).area()),
    ensures
        final(writer).inv(),
        final(writer).frame() == old(writer).frame(),
        final(writer).area() == old(writer).area(),
        final(writer).spec_width() == old(writer).spec_width(),
        final(writer).spec_height() == old(writer).spec_height(),
        forall|a: int, b: int|
            #[trigger] final(writer).pixel_at(a, b) == if (is_ascii_char(c) && glyph_covers(
                font@,
                c,
                x as int,
                y as int,
                a,
                b,
            )) || (!is_ascii_char(c) && (glyph_covers(font@, '?', x as int, y as int, a, b)
                || glyph_covers(font@, '?', x + 8, y as int, a, b))) {
                *color
            } else {
                old(writer).pixel_at(a, b)
            },
{
    if (c as u32) < 128 {
        write_ascii(writer, font, x, y, c, color);
    } else {
        let ghost w0 = *writer;
        write_ascii(writer, font, x, y, '?', color);
        let ghost w1 = *writer;
        write_ascii(writer, font, x + 8, y, '?', color);
        assert forall|a: int, b: int|
            #[trigger] writer.pixel_at(a, b) == if glyph_covers(font@, '?', x as int, y as int, a, b)
                || glyph_covers(font@, '?', x + 8, y as int, a, b) {
                *color
            } else {
                w0.pixel_at(a, b)
            } by {
            assert(w1.pixel_at(a, b) == w1.pixel_at(a, b));
        }
    }
}

/// The column (in units of 8 pixels) at which the character at index `k`
/// of `s` is drawn: ASCII characters take one column, others two.
pub open spec fn text_offset(s: Seq<char>, k: int) -> int
    decreases k,
{
    if k <= 0 {
        0
    } else {
        text_offset(s, k - 1) + if is_ascii_char(s[k - 1]) {
            1int
        } else {
            2int
        }
    }
}

pub proof fn lemma_text_offset_mono(s: Seq<char>, j: int, k: int)
    requires
        0 <= j <= k,
    ensures
        text_offset(s, j) + (k - j) <= text_offset(s, k),
        text_offset(s, k) <= 2 * k,
        0 <= text_offset(s, j),
    decreases k,
{
    if k > j {
        lemma_text_offset_mono(s, j, k - 1);
    } else if k > 0 {
        lemma_text_offset_mono(s, k - 1, k - 1);
    }
}

/// Whether drawing the characters of `s` from (x, y) as `write_string`
/// does keeps every coordinate in an `i32` and every painted pixel in `area`.
pub open spec fn text_fits(font: Seq<u8>, s: Seq<char>, x: int, y: int, area: (int, int, int, int)) -> bool {
    forall|k: int|
        0 <= k < s.len() ==> {
            &&& x + 8 * text_offset(s, k) <= i32::MAX
            &&& 8 * text_offset(s, k) <= i32::MAX
            &&& glyph_fits(font, #[trigger] s[k], x + 8 * text_offset(s, k), y, area)
        }
}

/// Whether drawing the characters of `s` from (x, y) paints (a, b).
pub open spec fn text_covers(font: Seq<u8>, s: Seq<char>, x: int, y: int, a: int, b: int, n: int) -> bool {
    exists|k: int|
        0 <= k < n && glyph_covers(font, #[trigger] s[k], x + 8 * text_offset(s, k), y, a, b)
}

fn write_glyphs<W: PixelWriter>(
    writer: &mut W,
    font: &[u8],
    x: i32,
    y: i32,
    s: &Vec<char>,
    color: &PixelColor,
)
    requires
        old(writer).inv(),
        text_fits(font@, s@, x as int, y as int, old(writer).area()),
    ensures
        final(writer).inv(),
        final(writer).frame() == old(writer).frame(),
        final(writer).area() == old(writer).area(),
        final(writer).spec_width() == old(writer).spec_width(),
        final(writer).spec_height() == old(writer).spec_height(),
        forall|a: int, b: int|
            #[trigger] final(writer).pixel_at(a, b) == if text_covers(
                font@,
                s@,
                x as int,
                y as int,
                a,
                b,
                s@.len() as int,
            ) {
                *color
            } else {
                old(writer).pixel_at(a, b)
            },
{
    let ghost w0 = *old(writer);
    let n: usize = s.len();
    let mut offset: usize = 0;
    let mut i: usize = 0;
    while i < n
        invariant
            0 <= i <= n,
            n == s@.len(),
            offset == text_offset(s@, i as int),
            writer.inv(),
            writer.frame() == w0.frame(),
            writer.area() == w0.area(),
            writer.spec_width() == w0.spec_width(),
            writer.spec_height() == w0.spec_height(),
            text_fits(font@, s@, x as int, y as int, w0.area()),
            forall|a: int, b: int|
                #[trigger] writer.pixel_at(a, b) == if text_covers(
                    font@,
                    s@,
                    x as int,
                    y as int,
                    a,
                    b,
                    i as int,
                ) {
                    *color
                } else {
                    w0.pixel_at(a, b)
                },
        decreases n - i,
    {
        let c: char = s[i];
        assert(glyph_fits(font@, s@[i as int], x + 8 * text_offset(s@, i as int), y as int, w0.area()));
        let ghost prev = *writer;
        let px: i32 = x + 8 * offset as i32;
        write_ascii(writer, font, px, y, c, color);
        assert forall|a: int, b: int|
            #[trigger] writer.pixel_at(a, b) == if text_covers(
                font@,
                s@,
                x as int,
                y as int,
                a,
                b,
                i + 1,
            ) {
                *color
            } else {
                w0.pixel_at(a, b)
            } by {
            if glyph_covers(font@, c, px as int, y as int, a, b) {
                assert(text_covers(font@, s@, x as int, y as int, a, b, i + 1));
            } else if text_covers(font@, s@, x as int, y as int, a, b, i + 1) {
                let k = choose|k: int|
                    0 <= k < i + 1 && glyph_covers(
                        font@,
                        #[trigger] s@[k],
                        x + 8 * text_offset(s@, k),
                        y as int,
                        a,
                        b,
                    );
                assert(k != i);
                assert(text_covers(font@, s@, x as int, y as int, a, b, i as int));
            }
        }
        offset = offset + if (c as u32) < 128 {
            1
        } else {
            2
        };
        i += 1;
    }
}

/// The characters of `s`.
pub(crate) fn chars_of(s: &str) -> (v: Vec<char>)
    ensures
        v@ == s@,
{
    let n: usize = s.unicode_len();
    let mut v: Vec<char> = Vec::new();
    let mut i: usize = 0;
    while i < n
        invariant
            i <= n,
            n == s@.len(),
            v@ == s@.take(i as int),
        decreases n - i,
    {
        v.push(s.get_char(i));
        i += 1;
        assert(v@ =~= s@.take(i as int));
    }
    assert(v@ =~= s@);
    v
}

/// Draws `s` from (x, y) with `write_ascii`, advancing one column for an
/// ASCII character and two for any other.
pub fn write_string<W: PixelWriter>(
    writer: &mut W,
    font: &[u8],
    x: i32,
    y: i32,
    s: &str,
    color: &PixelColor,
)
    requires
        old(writer).inv(),
        text_fits(font@, s@, x as int, y as int, old(writer).area()),
    ensures
        final(writer).inv(),
        final(writer).frame() == old(writer).frame(),
        final(writer).area() == old(writer).area(),
        final(writer).spec_width() == old(writer).spec_width(),
        final(writer).spec_height() == old(writer).spec_height(),
        forall|a: int, b: int|
            #[trigger] final(writer).pixel_at(a, b) == if text_covers(
                font@,
                s@,
                x as int,
                y as int,
                a,
                b,
                s@.len() as int,
            ) {
                *color
            } else {
                old(writer).pixel_at(a, b)
            },
{
    let v: Vec<char> = chars_of(s);
    write_glyphs(writer, font, x, y, &v, color);
}

/// Draws `chars` from (x, y) as `write_string` does.
pub fn write_chars<W: PixelWriter>(
    writer: &mut W,
    font: &[u8],
    x: i32,
    y: i32,
    chars: &[char],
    color: &PixelColor,
)
    requires
        old(writer).inv(),
        text_fits(font@, chars@, x as int, y as int, old(writer).area()),
    ensures
        final(writer).inv(),
        final(writer).frame() == old(writer).frame(),
        final(writer).area() == old(writer).area(),
        final(writer).spec_width() == old(writer).spec_width(),
        final(writer).spec_height() == old(writer).spec_height(),
        forall|a: int, b: int|
            #[trigger] final(writer).pixel_at(a, b) == if text_covers(
                font@,
                chars@,
                x as int,
                y as int,
                a,
                b,
                chars@.len() as int,
            ) {
                *color
            } else {
                old(writer).pixel_at(a, b)
            },
{
    let v: Vec<char> = vstd::slice::slice_to_vec(chars);
    write_glyphs(writer, font, x, y, &v, color);
}

} // verus!
