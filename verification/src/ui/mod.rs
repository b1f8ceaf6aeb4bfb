//! The browser chrome: the tab bar and address bar, drawn into a pixel buffer.
pub mod omnibox;
pub mod pixels;
pub mod settings;

use vstd::prelude::*;
use crate::fsm::tab_manager::Tab;
use crate::text::str_chars;
use vstd::arithmetic::div_mod::lemma_fundamental_div_mod_converse;
use crate::ui::pixels::{
    lemma_painted_pixel, lemma_pixel_index, lemma_painted_same_cover, lemma_painted_union, max, min, paint_pixel, paint_span, painted,
    sat_add, sat_sub,
};

verus! {

/// Height of the tab bar, in pixels.
pub const TABBAR_HEIGHT: u32 = 40;

/// Height of the address bar, in pixels.
pub const OMNIBOX_HEIGHT: u32 = 46;

/// Height of the whole chrome above the page.
pub const CHROME_HEIGHT: u32 = TABBAR_HEIGHT + OMNIBOX_HEIGHT;

/// The pixels of the rectangle at `(x, y)` of size `w` by `h`.
pub open spec fn rect_cover(x: int, y: int, w: int, h: int) -> spec_fn(int, int) -> bool {
    |r: int, c: int| y <= r < y + h && x <= c < x + w
}

/// The buffer after filling the rectangle, clipped to the buffer, with `color`.
pub open spec fn clear_rect_spec(buf: Seq<u32>, bw: int, x: int, y: int, w: int, h: int, color: u32) -> Seq<u32> {
    if bw == 0 {
        buf
    } else {
        painted(buf, bw, rect_cover(x, y, w, h), color)
    }
}

fn min_usize(a: usize, b: usize) -> (r: usize)
    ensures
        r == min(a as int, b as int),
{
    if a < b {
        a
    } else {
        b
    }
}

/// Fills a rectangle of the buffer with one color, clipped to the buffer.
pub fn clear_rect(buffer: &mut [u32], buf_width: usize, x: usize, y: usize, w: usize, h: usize, color: u32)
    ensures
        final(buffer)@ == clear_rect_spec(old(buffer)@, buf_width as int, x as int, y as int, w as int, h as int, color),
{
    if buf_width == 0 {
        return;
    }
    let buf_height = buffer.len() / buf_width;
    let start_y = min_usize(y, buf_height);
    let end_y = min_usize(y.saturating_add(h), buf_height);
    let start_x = min_usize(x, buf_width);
    let end_x = min_usize(x.saturating_add(w), buf_width);
    let ghost bw = buf_width as int;
    let ghost base = old(buffer)@;
    let mut row = start_y;
    assert(painted(base, bw, |r: int, c: int| start_y <= r < start_y && start_x <= c < end_x, color) =~= base);
    while row < end_y
        invariant
            buf_width > 0,
            bw == buf_width,
            buf_height == (base.len() as int) / bw,
            start_y <= row,
            row <= end_y || end_y < start_y,
            end_y <= buf_height,
            start_x <= buf_width,
            end_x <= buf_width,
            buffer@.len() == base.len(),
            buffer@ == painted(base, bw, |r: int, c: int| start_y <= r < row && start_x <= c < end_x, color),
        decreases end_y - row,
    {
        if start_x < end_x {
            paint_span(buffer, buf_width, row, start_x, end_x, color);
            proof {
                lemma_painted_union(
                    base,
                    bw,
                    |r: int, c: int| start_y <= r < row && start_x <= c < end_x,
                    |r: int, c: int| r == row && start_x <= c < end_x,
                    color,
                );
            }
        }
        proof {
            lemma_painted_same_cover(
                base,
                bw,
                |r: int, c: int| (start_y <= r < row && start_x <= c < end_x) || (r == row && start_x <= c < end_x),
                |r: int, c: int| start_y <= r < row + 1 && start_x <= c < end_x,
                color,
            );
            if start_x >= end_x {
                lemma_painted_same_cover(
                    base,
                    bw,
                    |r: int, c: int| start_y <= r < row && start_x <= c < end_x,
                    |r: int, c: int| start_y <= r < row + 1 && start_x <= c < end_x,
                    color,
                );
            }
        }
        row += 1;
    }
    proof {
        lemma_painted_same_cover(
            base,
            bw,
            |r: int, c: int| start_y <= r < row && start_x <= c < end_x,
            rect_cover(x as int, y as int, w as int, h as int),
            color,
        );
    }
}

/// The pixels of a rectangle with its four corner pixels cut off; a corner
/// row is shortened by one pixel at each end, with the right edge saturating
/// at `usize::MAX` as the code computes it.
pub open spec fn bevel_cover(x: int, y: int, w: int, h: int) -> spec_fn(int, int) -> bool {
    |r: int, c: int|
        {
            let corner = r == y || r == y + h - 1;
            let lo = if corner { sat_add(x, 1) } else { x };
            let hi = if corner { sat_sub(sat_add(x, w), 1) } else { sat_add(x, w) };
            y <= r < y + h && lo <= c < hi
        }
}

/// The buffer after drawing the beveled rectangle; rectangles thinner than
/// two pixels are drawn square.
pub open spec fn beveled_rect_spec(buf: Seq<u32>, bw: int, x: int, y: int, w: int, h: int, color: u32) -> Seq<u32> {
    if w < 2 || h < 2 {
        clear_rect_spec(buf, bw, x, y, w, h, color)
    } else if bw == 0 {
        buf
    } else {
        painted(buf, bw, bevel_cover(x, y, w, h), color)
    }
}

/// Fills a rectangle with its corner pixels cut off.
pub fn draw_beveled_rect(buffer: &mut [u32], buf_width: usize, x: usize, y: usize, w: usize, h: usize, color: u32)
    ensures
        final(buffer)@ == beveled_rect_spec(old(buffer)@, buf_width as int, x as int, y as int, w as int, h as int, color),
{
    if w < 2 || h < 2 {
        return clear_rect(buffer, buf_width, x, y, w, h, color);
    }
    if buf_width == 0 {
        return;
    }
    let buf_height = buffer.len() / buf_width;
    let start_y = min_usize(y, buf_height);
    let end_y = min_usize(y.saturating_add(h), buf_height);
    let ghost bw = buf_width as int;
    let ghost base = old(buffer)@;
    let ghost cover = bevel_cover(x as int, y as int, w as int, h as int);
    let mut py = start_y;
    assert(painted(base, bw, |r: int, c: int| start_y <= r < start_y && cover(r, c), color) =~= base);
    while py < end_y
        invariant
            buf_width > 0,
            w >= 2,
            h >= 2,
            bw == buf_width,
            buf_height == (base.len() as int) / bw,
            cover == bevel_cover(x as int, y as int, w as int, h as int),
            start_y == min(y as int, buf_height as int),
            end_y == min(sat_add(y as int, h as int), buf_height as int),
            start_y <= py,
            py <= end_y || end_y < start_y,
            end_y <= buf_height,
            buffer@.len() == base.len(),
            buffer@ == painted(base, bw, |r: int, c: int| start_y <= r < py && cover(r, c), color),
        decreases end_y - py,
    {
        let row_in_rect = py - y;
        let mut start_col = x;
        let mut end_col = x.saturating_add(w);
        if row_in_rect == 0 || row_in_rect == h - 1 {
            start_col = start_col.saturating_add(1);
            end_col = end_col.saturating_sub(1);
        }
        let start_x = min_usize(start_col, buf_width);
        let end_x = min_usize(end_col, buf_width);
        assert(y <= py < y + h);
        assert forall|c: int| 0 <= c < bw implies (#[trigger] cover(py as int, c) <==> start_x <= c < end_x) by {
            assert(py == y <==> row_in_rect == 0);
        }
        if start_x < end_x {
            paint_span(buffer, buf_width, py, start_x, end_x, color);
            proof {
                lemma_painted_union(
                    base,
                    bw,
                    |r: int, c: int| start_y <= r < py && cover(r, c),
                    |r: int, c: int| r == py && start_x <= c < end_x,
                    color,
                );
                lemma_painted_same_cover(
                    base,
                    bw,
                    |r: int, c: int| (start_y <= r < py && cover(r, c)) || (r == py && start_x <= c < end_x),
                    |r: int, c: int| start_y <= r < py + 1 && cover(r, c),
                    color,
                );
            }
        } else {
            proof {
                lemma_painted_same_cover(
                    base,
                    bw,
                    |r: int, c: int| start_y <= r < py && cover(r, c),
                    |r: int, c: int| start_y <= r < py + 1 && cover(r, c),
                    color,
                );
            }
        }
        py += 1;
    }
    proof {
        lemma_painted_same_cover(
            base,
            bw,
            |r: int, c: int| start_y <= r < py && cover(r, c),
            cover,
            color,
        );
    }
}

/// The glyph drawn for `c`: its own when the font has one, the font's `?`
/// (entry 63) otherwise.
pub open spec fn glyph_for(font: Seq<[u8; 16]>, c: char) -> [u8; 16] {
    if (c as u32) < font.len() {
        font[c as u32 as int]
    } else {
        font[63]
    }
}

/// Whether column `col` (0 to 7, from the left) of a glyph row is set.
pub open spec fn glyph_bit(row: u8, col: int) -> bool {
    (row >> ((7 - col) as u8)) & 1u8 == 1u8
}

/// A glyph row lists its pixels from the left: column 0 is the highest
/// bit of the row's byte and column 7 the lowest.
pub proof fn lemma_glyph_bit_order(row: u8)
    ensures
        glyph_bit(row, 0) == (row / 128 % 2 == 1),
        glyph_bit(row, 1) == (row / 64 % 2 == 1),
        glyph_bit(row, 2) == (row / 32 % 2 == 1),
        glyph_bit(row, 3) == (row / 16 % 2 == 1),
        glyph_bit(row, 4) == (row / 8 % 2 == 1),
        glyph_bit(row, 5) == (row / 4 % 2 == 1),
        glyph_bit(row, 6) == (row / 2 % 2 == 1),
        glyph_bit(row, 7) == (row / 1 % 2 == 1),
{
    assert(((row >> 7u8) & 1u8 == 1u8) == (row / 128 % 2 == 1)) by (bit_vector);
    assert(((row >> 6u8) & 1u8 == 1u8) == (row / 64 % 2 == 1)) by (bit_vector);
    assert(((row >> 5u8) & 1u8 == 1u8) == (row / 32 % 2 == 1)) by (bit_vector);
    assert(((row >> 4u8) & 1u8 == 1u8) == (row / 16 % 2 == 1)) by (bit_vector);
    assert(((row >> 3u8) & 1u8 == 1u8) == (row / 8 % 2 == 1)) by (bit_vector);
    assert(((row >> 2u8) & 1u8 == 1u8) == (row / 4 % 2 == 1)) by (bit_vector);
    assert(((row >> 1u8) & 1u8 == 1u8) == (row / 2 % 2 == 1)) by (bit_vector);
    assert(((row >> 0u8) & 1u8 == 1u8) == (row / 1 % 2 == 1)) by (bit_vector);
}

/// The pixels set by a glyph at `(x, y)`, clipped to the rectangle
/// `(clip_x, clip_y, clip_w, clip_h)` and to the buffer's `bw` by `bh` pixels.
pub open spec fn char_cover(
    x: int,
    y: int,
    glyph: [u8; 16],
    clip_x: int,
    clip_y: int,
    clip_w: int,
    clip_h: int,
    bw: int,
    bh: int,
) -> spec_fn(int, int) -> bool {
    let min_y = max(min(clip_y, bh), y);
    let max_y = min(min(sat_add(clip_y, clip_h), bh), sat_add(y, 16));
    let min_x = max(min(clip_x, bw), x);
    let max_x = min(min(sat_add(clip_x, clip_w), bw), sat_add(x, 8));
    |r: int, c: int| min_y <= r < max_y && min_x <= c < max_x && glyph_bit(glyph@[r - y], c - x)
}

/// The buffer after drawing `c` at `(x, y)` within the clip rectangle.
pub open spec fn draw_char_clipped_spec(
    buf: Seq<u32>,
    bw: int,
    x: int,
    y: int,
    c: char,
    color: u32,
    clip_x: int,
    clip_y: int,
    clip_w: int,
    clip_h: int,
    font: Seq<[u8; 16]>,
) -> Seq<u32> {
    if bw == 0 {
        buf
    } else {
        painted(
            buf,
            bw,
            char_cover(x, y, glyph_for(font, c), clip_x, clip_y, clip_w, clip_h, bw, (buf.len() as int) / bw),
            color,
        )
    }
}

fn max_usize(a: usize, b: usize) -> (r: usize)
    ensures
        r == max(a as int, b as int),
{
    if a > b {
        a
    } else {
        b
    }
}

fn draw_glyph_row(
    buffer: &mut [u32],
    bw: usize,
    py: usize,
    row_val: u8,
    x: usize,
    min_x: usize,
    max_x: usize,
    color: u32,
)
    requires
        bw > 0,
        py < (old(buffer)@.len() as int) / (bw as int),
        x <= min_x,
        max_x <= bw,
        max_x <= x + 8,
    ensures
        final(buffer)@ == painted(
            old(buffer)@,
            bw as int,
            |r: int, c: int| r == py && min_x <= c < max_x && glyph_bit(row_val, c - x),
            color,
        ),
{
    let ghost base = old(buffer)@;
    let mut px = min_x;
    assert(painted(base, bw as int, |r: int, c: int| r == py && min_x <= c < min_x && glyph_bit(row_val, c - x), color) =~= base);
    while px < max_x
        invariant
            bw > 0,
            py < (base.len() as int) / (bw as int),
            x <= min_x <= px,
            px <= max_x || (max_x < min_x && px == min_x),
            max_x <= bw,
            max_x <= x + 8,
            buffer@.len() == base.len(),
            buffer@ == painted(
                base,
                bw as int,
                |r: int, c: int| r == py && min_x <= c < px && glyph_bit(row_val, c - x),
                color,
            ),
        decreases max_x - px,
    {
        let col_idx = px - x;
        let bit = (row_val >> ((7 - col_idx) as u8)) & 1u8;
        if bit == 1u8 {
            paint_pixel(buffer, bw, py, px, color);
            proof {
                lemma_painted_union(
                    base,
                    bw as int,
                    |r: int, c: int| r == py && min_x <= c < px && glyph_bit(row_val, c - x),
                    |r: int, c: int| r == py && c == px,
                    color,
                );
            }
        }
        proof {
            if bit == 1u8 {
                lemma_painted_same_cover(
                    base,
                    bw as int,
                    |r: int, c: int| (r == py && min_x <= c < px && glyph_bit(row_val, c - x)) || (r == py && c == px),
                    |r: int, c: int| r == py && min_x <= c < px + 1 && glyph_bit(row_val, c - x),
                    color,
                );
            } else {
                lemma_painted_same_cover(
                    base,
                    bw as int,
                    |r: int, c: int| r == py && min_x <= c < px && glyph_bit(row_val, c - x),
                    |r: int, c: int| r == py && min_x <= c < px + 1 && glyph_bit(row_val, c - x),
                    color,
                );
            }
        }
        px += 1;
    }
    proof {
        assert(px == max_x || (max_x < min_x && px == min_x));
        lemma_painted_same_cover(
            base,
            bw as int,
            |r: int, c: int| r == py && min_x <= c < px && glyph_bit(row_val, c - x),
            |r: int, c: int| r == py && min_x <= c < max_x && glyph_bit(row_val, c - x),
            color,
        );
    }
}

/// Draws an 8x16 character of the bitmap font, clipped to a rectangle.
pub fn draw_char_clipped(
    buffer: &mut [u32],
    buf_width: usize,
    x: usize,
    y: usize,
    c: char,
    color: u32,
    clip_x: usize,
    clip_y: usize,
    clip_w: usize,
    clip_h: usize,
    font: &[[u8; 16]],
)
    requires
        (c as u32) < font@.len() || font@.len() > 63,
    ensures
        final(buffer)@ == draw_char_clipped_spec(
            old(buffer)@,
            buf_width as int,
            x as int,
            y as int,
            c,
            color,
            clip_x as int,
            clip_y as int,
            clip_w as int,
            clip_h as int,
            font@,
        ),
{
    if buf_width == 0 {
        return;
    }
    let buf_height = buffer.len() / buf_width;
    let code = c as u32 as usize;
    let glyph: [u8; 16] = if code < font.len() {
        font[code]
    } else {
        font[63]
    };
    let min_y = max_usize(min_usize(clip_y, buf_height), y);
    let max_y = min_usize(min_usize(clip_y.saturating_add(clip_h), buf_height), y.saturating_add(16));
    if min_y >= max_y {
        proof {
            lemma_painted_same_cover(
                old(buffer)@,
                buf_width as int,
                char_cover(x as int, y as int, glyph, clip_x as int, clip_y as int, clip_w as int, clip_h as int, buf_width as int, buf_height as int),
                |r: int, c: int| false,
                color,
            );
            assert(painted(old(buffer)@, buf_width as int, |r: int, c: int| false, color) =~= old(buffer)@);
        }
        return;
    }
    let min_x = max_usize(min_usize(clip_x, buf_width), x);
    let max_x = min_usize(min_usize(clip_x.saturating_add(clip_w), buf_width), x.saturating_add(8));
    if min_x >= max_x {
        proof {
            lemma_painted_same_cover(
                old(buffer)@,
                buf_width as int,
                char_cover(x as int, y as int, glyph, clip_x as int, clip_y as int, clip_w as int, clip_h as int, buf_width as int, buf_height as int),
                |r: int, c: int| false,
                color,
            );
            assert(painted(old(buffer)@, buf_width as int, |r: int, c: int| false, color) =~= old(buffer)@);
        }
        return;
    }
    let ghost bw = buf_width as int;
    let ghost base = old(buffer)@;
    let ghost cover = char_cover(x as int, y as int, glyph, clip_x as int, clip_y as int, clip_w as int, clip_h as int, bw, buf_height as int);
    let mut py = min_y;
    assert(painted(base, bw, |r: int, c: int| min_y <= r < min_y && cover(r, c), color) =~= base);
    while py < max_y
        invariant
            buf_width > 0,
            bw == buf_width,
            buf_height == (base.len() as int) / bw,
            cover == char_cover(x as int, y as int, glyph, clip_x as int, clip_y as int, clip_w as int, clip_h as int, bw, buf_height as int),
            min_y == max(min(clip_y as int, buf_height as int), y as int),
            max_y == min(min(sat_add(clip_y as int, clip_h as int), buf_height as int), sat_add(y as int, 16)),
            min_x == max(min(clip_x as int, bw), x as int),
            max_x == min(min(sat_add(clip_x as int, clip_w as int), bw), sat_add(x as int, 8)),
            min_y <= py <= max_y,
            min_x < max_x,
            buffer@.len() == base.len(),
            buffer@ == painted(base, bw, |r: int, c: int| min_y <= r < py && cover(r, c), color),
        decreases max_y - py,
    {
        let row_idx = py - y;
        let row_val = glyph[row_idx];
        draw_glyph_row(buffer, buf_width, py, row_val, x, min_x, max_x, color);
        proof {
            lemma_painted_union(
                base,
                bw,
                |r: int, c: int| min_y <= r < py && cover(r, c),
                |r: int, c: int| r == py && min_x <= c < max_x && glyph_bit(row_val, c - x),
                color,
            );
            lemma_painted_same_cover(
                base,
                bw,
                |r: int, c: int| (min_y <= r < py && cover(r, c)) || (r == py && min_x <= c < max_x && glyph_bit(row_val, c - x)),
                |r: int, c: int| min_y <= r < py + 1 && cover(r, c),
                color,
            );
        }
        py += 1;
    }
    proof {
        lemma_painted_same_cover(
            base,
            bw,
            |r: int, c: int| min_y <= r < py && cover(r, c),
            cover,
            color,
        );
    }
}

/// The buffer after drawing `c` at `(x, y)`, clipped to the buffer only.
pub open spec fn draw_char_spec(buf: Seq<u32>, bw: int, x: int, y: int, c: char, color: u32, font: Seq<[u8; 16]>) -> Seq<u32> {
    let bh = if bw > 0 { (buf.len() as int) / bw } else { 0 };
    draw_char_clipped_spec(buf, bw, x, y, c, color, 0, 0, bw, bh, font)
}

/// Draws an 8x16 character of the bitmap font, clipped to the buffer.
pub fn draw_char(buffer: &mut [u32], buf_width: usize, x: usize, y: usize, c: char, color: u32, font: &[[u8; 16]])
    requires
        (c as u32) < font@.len() || font@.len() > 63,
    ensures
        final(buffer)@ == draw_char_spec(old(buffer)@, buf_width as int, x as int, y as int, c, color, font@),
{
    let buf_height = if buf_width > 0 {
        buffer.len() / buf_width
    } else {
        0
    };
    draw_char_clipped(buffer, buf_width, x, y, c, color, 0, 0, buf_width, buf_height, font);
}

/// The buffer after drawing `chars` one after the other from column `cur_x`,
/// 8 pixels apart, stopping at the first one that would start at or past
/// `limit`.
pub open spec fn draw_chars_spec(
    buf: Seq<u32>,
    bw: int,
    cur_x: int,
    y: int,
    chars: Seq<char>,
    color: u32,
    limit: int,
    clip_x: int,
    clip_w: int,
    clip_h: int,
    font: Seq<[u8; 16]>,
) -> Seq<u32>
    decreases chars.len(),
{
    if chars.len() == 0 || cur_x >= limit {
        buf
    } else {
        draw_chars_spec(
            draw_char_clipped_spec(buf, bw, cur_x, y, chars[0], color, clip_x, y, clip_w, clip_h, font),
            bw,
            sat_add(cur_x, 8),
            y,
            chars.drop_first(),
            color,
            limit,
            clip_x,
            clip_w,
            clip_h,
            font,
        )
    }
}

/// The buffer after drawing `text` at `(x, y)`, cut at `max_width` pixels
/// (partly visible characters are clipped) and at the buffer's edges.
pub open spec fn draw_string_spec(
    buf: Seq<u32>,
    bw: int,
    x: int,
    y: int,
    text: Seq<char>,
    color: u32,
    max_width: int,
    font: Seq<[u8; 16]>,
) -> Seq<u32> {
    let bh = if bw > 0 { (buf.len() as int) / bw } else { 0 };
    draw_chars_spec(
        buf,
        bw,
        x,
        y,
        text,
        color,
        sat_add(x, max_width),
        x,
        min(max_width, sat_sub(bw, x)),
        sat_sub(bh, y),
        font,
    )
}

/// Drawing one character keeps the buffer's length and leaves alone every
/// pixel left of the character.
proof fn lemma_draw_char_left_untouched(
    buf: Seq<u32>,
    bw: int,
    x: int,
    y: int,
    ch: char,
    color: u32,
    clip_x: int,
    clip_y: int,
    clip_w: int,
    clip_h: int,
    font: Seq<[u8; 16]>,
    r: int,
    c: int,
)
    requires
        bw > 0,
        0 <= r < (buf.len() as int) / bw,
        0 <= c < bw,
        c < x,
    ensures
        draw_char_clipped_spec(buf, bw, x, y, ch, color, clip_x, clip_y, clip_w, clip_h, font).len() == buf.len(),
        draw_char_clipped_spec(buf, bw, x, y, ch, color, clip_x, clip_y, clip_w, clip_h, font)[r * bw + c]
            == buf[r * bw + c],
{
    lemma_painted_pixel(
        buf,
        bw,
        char_cover(x, y, glyph_for(font, ch), clip_x, clip_y, clip_w, clip_h, bw, (buf.len() as int) / bw),
        color,
        r,
        c,
    );
}

/// Drawing text keeps the buffer's length, and a pixel that already has the
/// text's color keeps it.
proof fn lemma_draw_chars_keeps(
    buf: Seq<u32>,
    bw: int,
    cur_x: int,
    y: int,
    chars: Seq<char>,
    color: u32,
    limit: int,
    clip_x: int,
    clip_w: int,
    clip_h: int,
    font: Seq<[u8; 16]>,
    p: int,
)
    ensures
        draw_chars_spec(buf, bw, cur_x, y, chars, color, limit, clip_x, clip_w, clip_h, font).len() == buf.len(),
        0 <= p < buf.len() && buf[p] == color ==> draw_chars_spec(
            buf,
            bw,
            cur_x,
            y,
            chars,
            color,
            limit,
            clip_x,
            clip_w,
            clip_h,
            font,
        )[p] == color,
    decreases chars.len(),
{
    if !(chars.len() == 0 || cur_x >= limit) {
        let b1 = draw_char_clipped_spec(buf, bw, cur_x, y, chars[0], color, clip_x, y, clip_w, clip_h, font);
        assert(b1.len() == buf.len());
        lemma_draw_chars_keeps(b1, bw, sat_add(cur_x, 8), y, chars.drop_first(), color, limit, clip_x, clip_w, clip_h, font, p);
    }
}

/// Drawing text leaves alone every pixel left of where the text starts.
proof fn lemma_draw_chars_left_untouched(
    buf: Seq<u32>,
    bw: int,
    cur_x: int,
    y: int,
    chars: Seq<char>,
    color: u32,
    limit: int,
    clip_x: int,
    clip_w: int,
    clip_h: int,
    font: Seq<[u8; 16]>,
    r: int,
    c: int,
)
    requires
        bw > 0,
        0 <= r < (buf.len() as int) / bw,
        0 <= c < bw,
        c < cur_x <= usize::MAX,
    ensures
        draw_chars_spec(buf, bw, cur_x, y, chars, color, limit, clip_x, clip_w, clip_h, font)[r * bw + c]
            == buf[r * bw + c],
    decreases chars.len(),
{
    if !(chars.len() == 0 || cur_x >= limit) {
        let b1 = draw_char_clipped_spec(buf, bw, cur_x, y, chars[0], color, clip_x, y, clip_w, clip_h, font);
        lemma_draw_char_left_untouched(buf, bw, cur_x, y, chars[0], color, clip_x, y, clip_w, clip_h, font, r, c);
        lemma_draw_chars_left_untouched(b1, bw, sat_add(cur_x, 8), y, chars.drop_first(), color, limit, clip_x, clip_w, clip_h, font, r, c);
    }
}

/// The pixels that the glyph of the `j`-th character sets, drawn `8 * j`
/// columns after the first, have the text's color once the text is drawn.
proof fn lemma_draw_chars_glyph_pixel(
    buf: Seq<u32>,
    bw: int,
    cur_x: int,
    y: int,
    chars: Seq<char>,
    color: u32,
    limit: int,
    clip_x: int,
    clip_w: int,
    clip_h: int,
    font: Seq<[u8; 16]>,
    j: int,
    r: int,
    c: int,
)
    requires
        bw > 0,
        0 <= j < chars.len(),
        cur_x + 8 * j < limit,
        cur_x + 8 * j <= usize::MAX,
        0 <= r < (buf.len() as int) / bw,
        0 <= c < bw,
        char_cover(cur_x + 8 * j, y, glyph_for(font, chars[j]), clip_x, y, clip_w, clip_h, bw, (buf.len() as int) / bw)(r, c),
    ensures
        draw_chars_spec(buf, bw, cur_x, y, chars, color, limit, clip_x, clip_w, clip_h, font)[r * bw + c] == color,
    decreases j,
{
    let bh = (buf.len() as int) / bw;
    let b1 = draw_char_clipped_spec(buf, bw, cur_x, y, chars[0], color, clip_x, y, clip_w, clip_h, font);
    lemma_painted_pixel(buf, bw, char_cover(cur_x, y, glyph_for(font, chars[0]), clip_x, y, clip_w, clip_h, bw, bh), color, r, c);
    if j == 0 {
        lemma_draw_chars_keeps(b1, bw, sat_add(cur_x, 8), y, chars.drop_first(), color, limit, clip_x, clip_w, clip_h, font, r * bw + c);
    } else {
        assert(chars.drop_first()[j - 1] == chars[j]);
        assert(sat_add(cur_x, 8) == cur_x + 8);
        assert((cur_x + 8) + 8 * (j - 1) == cur_x + 8 * j);
        lemma_draw_chars_glyph_pixel(b1, bw, cur_x + 8, y, chars.drop_first(), color, limit, clip_x, clip_w, clip_h, font, j - 1, r, c);
    }
}

/// Draws a line of text, clipped to `max_width` pixels and to the buffer.
pub fn draw_string(
    buffer: &mut [u32],
    buf_width: usize,
    x: usize,
    y: usize,
    text: &str,
    color: u32,
    max_width: usize,
    font: &[[u8; 16]],
)
    requires
        font@.len() > 63,
    ensures
        final(buffer)@ == draw_string_spec(old(buffer)@, buf_width as int, x as int, y as int, text@, color, max_width as int, font@),
{
    let buf_height = if buf_width > 0 {
        buffer.len() / buf_width
    } else {
        0
    };
    let clip_w = min_usize(max_width, buf_width.saturating_sub(x));
    let clip_h = buf_height.saturating_sub(y);
    let limit = x.saturating_add(max_width);
    let chars = str_chars(text);
    let mut current_x = x;
    let mut i: usize = 0;
    let ghost target = draw_string_spec(old(buffer)@, buf_width as int, x as int, y as int, text@, color, max_width as int, font@);
    assert(chars@.skip(0) =~= chars@);
    while i < chars.len() && current_x < limit
        invariant
            font@.len() > 63,
            i <= chars@.len(),
            buffer@.len() == old(buffer)@.len(),
            buf_height == (if buf_width > 0 { (old(buffer)@.len() as int) / (buf_width as int) } else { 0 }),
            draw_chars_spec(buffer@, buf_width as int, current_x as int, y as int, chars@.skip(i as int), color, limit as int, x as int, clip_w as int, clip_h as int, font@) == target,
            chars@ == text@,
            limit == sat_add(x as int, max_width as int),
            clip_w == min(max_width as int, sat_sub(buf_width as int, x as int)),
            clip_h == sat_sub(buf_height as int, y as int),
        decreases chars@.len() - i,
    {
        let ghost rest = chars@.skip(i as int);
        assert(rest[0] == chars@[i as int]);
        assert(rest.drop_first() =~= chars@.skip(i + 1));
        draw_char_clipped(buffer, buf_width, current_x, y, chars[i], color, x, y, clip_w, clip_h, font);
        current_x = current_x.saturating_add(8);
        i += 1;
    }
    if i == chars.len() {
        assert(chars@.skip(i as int) =~= Seq::<char>::empty());
    }
}

/// Background of the title bar.
pub const TABBAR_BG: u32 = 0xFF11_1111;

/// Color of the new-tab button.
pub const TABBAR_FG: u32 = 0xFFD4_D4D4;

/// Background of the tab in front.
pub const ACTIVE_TAB_BG: u32 = 0xFF28_2828;

/// Background of the other tabs.
pub const INACTIVE_TAB_BG: u32 = 0xFF1C_1C1C;

/// Width of a tab, in pixels.
pub const TAB_WIDTH: usize = 220;

/// Space left of the first tab, in pixels.
pub const TAB_MARGIN_LEFT: usize = 8;

/// The title a tab shows: its own, or a placeholder while it has none.
pub open spec fn tab_title_shown(title: Seq<char>) -> Seq<char> {
    if title.len() == 0 {
        "Nova Aba"@
    } else {
        title
    }
}

/// The buffer after drawing tab `i` of a bar `width` pixels wide.
pub open spec fn render_one_tab(
    buf: Seq<u32>,
    width: int,
    i: int,
    title: Seq<char>,
    active_index: int,
    font: Seq<[u8; 16]>,
) -> Seq<u32> {
    let start_x = i * 220 + 8;
    let w = if start_x + 220 > width { width - start_x } else { 220 };
    let bg = if i == active_index { ACTIVE_TAB_BG } else { INACTIVE_TAB_BG };
    let b1 = clear_rect_spec(buf, width, start_x + 2, 8, sat_sub(w, 4), 32, bg);
    let b2 = clear_rect_spec(b1, width, start_x + 1, 9, sat_sub(w, 2), 31, bg);
    let b3 = clear_rect_spec(b2, width, start_x, 10, w, 30, bg);
    let fg: u32 = if i == active_index { 0xFFFF_FFFF } else { 0xFF99_9999 };
    let b4 = draw_string_spec(b3, width, start_x + 16, 16, tab_title_shown(title), fg, sat_sub(w, 40), font);
    let close_x = sat_sub(start_x + w, 24);
    if close_x > start_x + 20 {
        draw_char_spec(b4, width, close_x, 16, 'x', 0xFF77_7777, font)
    } else {
        b4
    }
}

/// The buffer after drawing the tabs from index `i` on, up to the first one
/// that would start past the bar's right edge.
pub open spec fn render_tabs_from(
    buf: Seq<u32>,
    width: int,
    titles: Seq<Seq<char>>,
    i: int,
    active_index: int,
    font: Seq<[u8; 16]>,
) -> Seq<u32>
    decreases titles.len() - i,
{
    if i < 0 || i >= titles.len() || i * 220 + 8 >= width {
        buf
    } else {
        render_tabs_from(render_one_tab(buf, width, i, titles[i], active_index, font), width, titles, i + 1, active_index, font)
    }
}

/// Column of the new-tab button for `n` tabs in a bar `width` pixels wide.
pub open spec fn plus_button_x(n: int, width: int) -> int {
    if n * 220 + 16 + 16 > width {
        sat_sub(width, 20)
    } else {
        n * 220 + 16
    }
}

/// The titles of the tabs, in order.
pub open spec fn tab_titles(tabs: Seq<Tab>) -> Seq<Seq<char>> {
    tabs.map_values(|t: Tab| t.title@)
}

/// The buffer after drawing the whole tab bar.
pub open spec fn render_tab_bar_spec(
    buf: Seq<u32>,
    width: int,
    titles: Seq<Seq<char>>,
    active_index: int,
    font: Seq<[u8; 16]>,
) -> Seq<u32> {
    if width < 2 {
        buf
    } else {
        let b0 = clear_rect_spec(buf, width, 0, 0, width, 40, TABBAR_BG);
        let b1 = render_tabs_from(b0, width, titles, 0, active_index, font);
        let plus_x = plus_button_x(titles.len() as int, width);
        if plus_x < width {
            draw_char_spec(b1, width, plus_x, 12, '+', TABBAR_FG, font)
        } else {
            b1
        }
    }
}

/// Draws the tab bar: one block per tab with its title and close button, and
/// the new-tab button after the last tab.
pub fn render_tab_bar(buffer: &mut [u32], width: usize, tabs: &[Tab], active_index: usize, font: &[[u8; 16]])
    requires
        font@.len() > 63,
        tabs@.len() * 220 + 32 <= usize::MAX,
    ensures
        final(buffer)@ == render_tab_bar_spec(old(buffer)@, width as int, tab_titles(tabs@), active_index as int, font@),
{
    if width < 2 {
        return;
    }
    clear_rect(buffer, width, 0, 0, width, TABBAR_HEIGHT as usize, TABBAR_BG);
    let ghost titles = tab_titles(tabs@);
    let ghost b0 = buffer@;
    let mut i: usize = 0;
    while i < tabs.len() && i * TAB_WIDTH + TAB_MARGIN_LEFT < width
        invariant
            font@.len() > 63,
            tabs@.len() * 220 + 32 <= usize::MAX,
            width >= 2,
            i <= tabs@.len(),
            titles == tab_titles(tabs@),
            render_tabs_from(buffer@, width as int, titles, i as int, active_index as int, font@)
                == render_tabs_from(b0, width as int, titles, 0, active_index as int, font@),
        decreases tabs@.len() - i,
    {
        let start_x = i * TAB_WIDTH + TAB_MARGIN_LEFT;
        let ghost prev = buffer@;
        let is_active = i == active_index;
        let t_bg = if is_active {
            ACTIVE_TAB_BG
        } else {
            INACTIVE_TAB_BG
        };
        let w = if start_x + TAB_WIDTH > width {
            width - start_x
        } else {
            TAB_WIDTH
        };
        let tab_y: usize = 8;
        let tab_h = (TABBAR_HEIGHT as usize).saturating_sub(tab_y);
        assert(tab_h == 32);
        clear_rect(buffer, width, start_x + 2, tab_y, w.saturating_sub(4), tab_h, t_bg);
        clear_rect(buffer, width, start_x + 1, tab_y + 1, w.saturating_sub(2), tab_h.saturating_sub(1), t_bg);
        clear_rect(buffer, width, start_x, tab_y + 2, w, tab_h.saturating_sub(2), t_bg);
        let ghost b3 = buffer@;
        let text_x = start_x + 16;
        let text_y = tab_y + tab_h.saturating_sub(16) / 2;
        let title = tabs[i].title.as_str();
        let title_to_draw: &str = if title.is_empty() {
            "Nova Aba"
        } else {
            title
        };
        assert(title_to_draw@ == tab_title_shown(titles[i as int]));
        let active_fg: u32 = if is_active {
            0xFFFF_FFFF
        } else {
            0xFF99_9999
        };
        assert(text_y == 16);
        draw_string(buffer, width, text_x, text_y, title_to_draw, active_fg, w.saturating_sub(40), font);
        assert(buffer@ == draw_string_spec(b3, width as int, start_x + 16, 16, tab_title_shown(titles[i as int]), if i == active_index { 0xFFFF_FFFFu32 } else { 0xFF99_9999u32 }, sat_sub(w as int, 40), font@));
        let close_x = (start_x + w).saturating_sub(24);
        if close_x > start_x + 20 {
            draw_char(buffer, width, close_x, text_y, 'x', 0xFF77_7777, font);
        }
        assert(buffer@ == render_one_tab(prev, width as int, i as int, titles[i as int], active_index as int, font@));
        assert(render_tabs_from(prev, width as int, titles, i as int, active_index as int, font@)
            == render_tabs_from(buffer@, width as int, titles, i + 1, active_index as int, font@));
        i += 1;
    }
    assert(render_tabs_from(buffer@, width as int, titles, i as int, active_index as int, font@) == buffer@);
    let mut plus_x = tabs.len() * TAB_WIDTH + 16;
    if plus_x + 16 > width {
        plus_x = width.saturating_sub(20);
    }
    if plus_x < width {
        let plus_y: usize = 12;
        draw_char(buffer, width, plus_x, plus_y, '+', TABBAR_FG, font);
    }
}

/// Drawing a tab keeps the buffer's length.
proof fn lemma_render_one_tab_len(buf: Seq<u32>, width: int, i: int, title: Seq<char>, active_index: int, font: Seq<[u8; 16]>)
    ensures
        render_one_tab(buf, width, i, title, active_index, font).len() == buf.len(),
{
    let start = i * 220 + 8;
    let w = if start + 220 > width { width - start } else { 220 };
    let bg = if i == active_index { ACTIVE_TAB_BG } else { INACTIVE_TAB_BG };
    let b1 = clear_rect_spec(buf, width, start + 2, 8, sat_sub(w, 4), 32, bg);
    let b2 = clear_rect_spec(b1, width, start + 1, 9, sat_sub(w, 2), 31, bg);
    let b3 = clear_rect_spec(b2, width, start, 10, w, 30, bg);
    let fg: u32 = if i == active_index { 0xFFFF_FFFF } else { 0xFF99_9999 };
    let shown = tab_title_shown(title);
    let bh = if width > 0 { (b3.len() as int) / width } else { 0 };
    lemma_draw_chars_keeps(
        b3,
        width,
        start + 16,
        16,
        shown,
        fg,
        sat_add(start + 16, sat_sub(w, 40)),
        start + 16,
        min(sat_sub(w, 40), sat_sub(width, start + 16)),
        sat_sub(bh, 16),
        font,
        0,
    );
}

/// Drawing tab `i` leaves alone every pixel left of the tab.
proof fn lemma_render_one_tab_left(
    buf: Seq<u32>,
    width: int,
    i: int,
    title: Seq<char>,
    active_index: int,
    font: Seq<[u8; 16]>,
    r: int,
    c: int,
)
    requires
        2 <= width <= usize::MAX - 16,
        0 <= i,
        i * 220 + 8 < width,
        0 <= r < (buf.len() as int) / width,
        0 <= c < i * 220 + 8,
    ensures
        render_one_tab(buf, width, i, title, active_index, font)[r * width + c] == buf[r * width + c],
{
    let start = i * 220 + 8;
    let w = if start + 220 > width { width - start } else { 220 };
    let bg = if i == active_index { ACTIVE_TAB_BG } else { INACTIVE_TAB_BG };
    let b1 = clear_rect_spec(buf, width, start + 2, 8, sat_sub(w, 4), 32, bg);
    lemma_painted_pixel(buf, width, rect_cover(start + 2, 8, sat_sub(w, 4), 32), bg, r, c);
    let b2 = clear_rect_spec(b1, width, start + 1, 9, sat_sub(w, 2), 31, bg);
    lemma_painted_pixel(b1, width, rect_cover(start + 1, 9, sat_sub(w, 2), 31), bg, r, c);
    let b3 = clear_rect_spec(b2, width, start, 10, w, 30, bg);
    lemma_painted_pixel(b2, width, rect_cover(start, 10, w, 30), bg, r, c);
    let fg: u32 = if i == active_index { 0xFFFF_FFFF } else { 0xFF99_9999 };
    let shown = tab_title_shown(title);
    let bh = (b3.len() as int) / width;
    let limit = sat_add(start + 16, sat_sub(w, 40));
    let clip_w = min(sat_sub(w, 40), sat_sub(width, start + 16));
    let clip_h = sat_sub(bh, 16);
    lemma_draw_chars_left_untouched(b3, width, start + 16, 16, shown, fg, limit, start + 16, clip_w, clip_h, font, r, c);
    lemma_draw_chars_keeps(b3, width, start + 16, 16, shown, fg, limit, start + 16, clip_w, clip_h, font, 0);
    let b4 = draw_string_spec(b3, width, start + 16, 16, shown, fg, sat_sub(w, 40), font);
    let close_x = sat_sub(start + w, 24);
    if close_x > start + 20 {
        lemma_draw_char_left_untouched(b4, width, close_x, 16, 'x', 0xFF77_7777, 0, 0, width, (b4.len() as int) / width, font, r, c);
    }
}

/// Drawing the tabs from `k` on leaves alone every pixel left of tab `k`.
proof fn lemma_render_tabs_from_left(
    buf: Seq<u32>,
    width: int,
    titles: Seq<Seq<char>>,
    k: int,
    active_index: int,
    font: Seq<[u8; 16]>,
    r: int,
    c: int,
)
    requires
        2 <= width <= usize::MAX - 16,
        0 <= k,
        0 <= r < (buf.len() as int) / width,
        0 <= c < k * 220 + 8,
    ensures
        render_tabs_from(buf, width, titles, k, active_index, font).len() == buf.len(),
        render_tabs_from(buf, width, titles, k, active_index, font)[r * width + c] == buf[r * width + c],
    decreases titles.len() - k,
{
    if !(k < 0 || k >= titles.len() || k * 220 + 8 >= width) {
        let b1 = render_one_tab(buf, width, k, titles[k], active_index, font);
        lemma_render_one_tab_len(buf, width, k, titles[k], active_index, font);
        lemma_render_one_tab_left(buf, width, k, titles[k], active_index, font, r, c);
        lemma_render_tabs_from_left(b1, width, titles, k + 1, active_index, font, r, c);
    }
}

/// The text color of a tab's title: white in front, grey otherwise.
pub open spec fn tab_title_color(i: int, active_index: int) -> u32 {
    if i == active_index {
        0xFFFF_FFFF
    } else {
        0xFF99_9999
    }
}

/// The pixel conditions of the title law: `(r, c)` lies in the glyph cell of
/// character `j` of a non-empty title of tab `i`, inside the tab's title
/// area, and the glyph sets it.
pub open spec fn title_glyph_pixel(width: int, i: int, title: Seq<char>, font: Seq<[u8; 16]>, j: int, r: int, c: int) -> bool {
    let start = i * 220 + 8;
    let tw = if width - start < 220 { width - start } else { 220 };
    let x0 = start + 16 + 8 * j;
    let ch = title[j];
    let glyph = if (ch as u32) < font.len() { font[ch as u32 as int] } else { font[63] };
    &&& 0 <= j < title.len()
    &&& 16 <= r < 32
    &&& x0 <= c < x0 + 8
    &&& c < start + tw - 24
    &&& glyph_bit(glyph@[r - 16], c - x0)
}

/// Drawing tab `i` gives the pixels of its title's glyphs the title color.
proof fn lemma_render_one_tab_title(
    buf: Seq<u32>,
    width: int,
    i: int,
    title: Seq<char>,
    active_index: int,
    font: Seq<[u8; 16]>,
    j: int,
    r: int,
    c: int,
)
    requires
        2 <= width <= usize::MAX - 16,
        0 <= i,
        i * 220 + 8 < width,
        r < (buf.len() as int) / width,
        title_glyph_pixel(width, i, title, font, j, r, c),
    ensures
        render_one_tab(buf, width, i, title, active_index, font)[r * width + c] == tab_title_color(i, active_index),
{
    let start = i * 220 + 8;
    let w = if start + 220 > width { width - start } else { 220 };
    let bg = if i == active_index { ACTIVE_TAB_BG } else { INACTIVE_TAB_BG };
    let b1 = clear_rect_spec(buf, width, start + 2, 8, sat_sub(w, 4), 32, bg);
    let b2 = clear_rect_spec(b1, width, start + 1, 9, sat_sub(w, 2), 31, bg);
    let b3 = clear_rect_spec(b2, width, start, 10, w, 30, bg);
    assert(b3.len() == buf.len());
    let fg: u32 = if i == active_index { 0xFFFF_FFFF } else { 0xFF99_9999 };
    let shown = tab_title_shown(title);
    assert(shown == title);
    let bh = (b3.len() as int) / width;
    let mw = sat_sub(w, 40);
    let limit = sat_add(start + 16, mw);
    assert(limit == start + w - 24);
    let clip_w = min(mw, sat_sub(width, start + 16));
    let clip_h = sat_sub(bh, 16);
    let x0 = start + 16 + 8 * j;
    assert(glyph_for(font, title[j]) == (if (title[j] as u32) < font.len() { font[title[j] as u32 as int] } else { font[63] }));
    assert(char_cover(x0, 16, glyph_for(font, title[j]), start + 16, 16, clip_w, clip_h, width, bh)(r, c));
    lemma_draw_chars_glyph_pixel(b3, width, start + 16, 16, title, fg, limit, start + 16, clip_w, clip_h, font, j, r, c);
    lemma_draw_chars_keeps(b3, width, start + 16, 16, title, fg, limit, start + 16, clip_w, clip_h, font, 0);
    let b4 = draw_string_spec(b3, width, start + 16, 16, shown, fg, mw, font);
    let close_x = sat_sub(start + w, 24);
    if close_x > start + 20 {
        lemma_draw_char_left_untouched(b4, width, close_x, 16, 'x', 0xFF77_7777, 0, 0, width, (b4.len() as int) / width, font, r, c);
    }
}

/// Drawing the tabs from `k` on, with `k <= i`, gives the pixels of tab
/// `i`'s title glyphs the title color.
proof fn lemma_render_tabs_from_title(
    buf: Seq<u32>,
    width: int,
    titles: Seq<Seq<char>>,
    k: int,
    active_index: int,
    font: Seq<[u8; 16]>,
    i: int,
    j: int,
    r: int,
    c: int,
)
    requires
        2 <= width <= usize::MAX - 16,
        0 <= k <= i < titles.len(),
        i * 220 + 8 < width,
        r < (buf.len() as int) / width,
        title_glyph_pixel(width, i, titles[i], font, j, r, c),
    ensures
        render_tabs_from(buf, width, titles, k, active_index, font)[r * width + c] == tab_title_color(i, active_index),
    decreases i - k,
{
    let b1 = render_one_tab(buf, width, k, titles[k], active_index, font);
    lemma_render_one_tab_len(buf, width, k, titles[k], active_index, font);
    if k < i {
        lemma_render_tabs_from_title(b1, width, titles, k + 1, active_index, font, i, j, r, c);
    } else {
        lemma_render_one_tab_title(buf, width, i, titles[i], active_index, font, j, r, c);
        lemma_render_tabs_from_left(b1, width, titles, i + 1, active_index, font, r, c);
    }
}

/// The background color of a tab's block: the active color in front, the
/// inactive one otherwise.
pub open spec fn tab_background_color(i: int, active_index: int) -> u32 {
    if i == active_index {
        0xFF28_2828
    } else {
        0xFF1C_1C1C
    }
}

/// Drawing tab `i` fills the left part of its block with its background.
proof fn lemma_render_one_tab_bg(
    buf: Seq<u32>,
    width: int,
    i: int,
    title: Seq<char>,
    active_index: int,
    font: Seq<[u8; 16]>,
    r: int,
    c: int,
)
    requires
        2 <= width <= usize::MAX - 16,
        0 <= i,
        i * 220 + 8 < width,
        10 <= r < 16,
        r < (buf.len() as int) / width,
        i * 220 + 8 <= c < i * 220 + 24,
        c < width,
    ensures
        render_one_tab(buf, width, i, title, active_index, font)[r * width + c] == tab_background_color(i, active_index),
{
    let start = i * 220 + 8;
    let w = if start + 220 > width { width - start } else { 220 };
    let bg = if i == active_index { ACTIVE_TAB_BG } else { INACTIVE_TAB_BG };
    let b1 = clear_rect_spec(buf, width, start + 2, 8, sat_sub(w, 4), 32, bg);
    let b2 = clear_rect_spec(b1, width, start + 1, 9, sat_sub(w, 2), 31, bg);
    let b3 = clear_rect_spec(b2, width, start, 10, w, 30, bg);
    lemma_painted_pixel(b2, width, rect_cover(start, 10, w, 30), bg, r, c);
    let fg: u32 = if i == active_index { 0xFFFF_FFFF } else { 0xFF99_9999 };
    let shown = tab_title_shown(title);
    let bh = (b3.len() as int) / width;
    let limit = sat_add(start + 16, sat_sub(w, 40));
    let clip_w = min(sat_sub(w, 40), sat_sub(width, start + 16));
    let clip_h = sat_sub(bh, 16);
    lemma_draw_chars_left_untouched(b3, width, start + 16, 16, shown, fg, limit, start + 16, clip_w, clip_h, font, r, c);
    lemma_draw_chars_keeps(b3, width, start + 16, 16, shown, fg, limit, start + 16, clip_w, clip_h, font, 0);
    let b4 = draw_string_spec(b3, width, start + 16, 16, shown, fg, sat_sub(w, 40), font);
    let close_x = sat_sub(start + w, 24);
    if close_x > start + 20 {
        lemma_draw_char_left_untouched(b4, width, close_x, 16, 'x', 0xFF77_7777, 0, 0, width, (b4.len() as int) / width, font, r, c);
    }
}

/// Drawing the tabs from `k` on, with `k <= i`, fills the left part of tab
/// `i`'s block with its background.
proof fn lemma_render_tabs_from_bg(
    buf: Seq<u32>,
    width: int,
    titles: Seq<Seq<char>>,
    k: int,
    active_index: int,
    font: Seq<[u8; 16]>,
    i: int,
    r: int,
    c: int,
)
    requires
        2 <= width <= usize::MAX - 16,
        0 <= k <= i < titles.len(),
        i * 220 + 8 < width,
        10 <= r < 16,
        r < (buf.len() as int) / width,
        i * 220 + 8 <= c < i * 220 + 24,
        c < width,
    ensures
        render_tabs_from(buf, width, titles, k, active_index, font)[r * width + c] == tab_background_color(i, active_index),
    decreases i - k,
{
    let b1 = render_one_tab(buf, width, k, titles[k], active_index, font);
    lemma_render_one_tab_len(buf, width, k, titles[k], active_index, font);
    if k < i {
        lemma_render_tabs_from_bg(b1, width, titles, k + 1, active_index, font, i, r, c);
    } else {
        lemma_render_one_tab_bg(buf, width, i, titles[i], active_index, font, r, c);
        lemma_render_tabs_from_left(b1, width, titles, i + 1, active_index, font, r, c);
    }
}

/// Each tab's block is filled with its own background once the tab bar is
/// drawn: the tab in front in the active color, the others in the inactive
/// one (shown on the block's first 16 columns and top two rows, which
/// neither the title nor the new-tab button reach).
pub proof fn lemma_tab_background(
    buf: Seq<u32>,
    width: int,
    tabs: Seq<Tab>,
    active_index: int,
    font: Seq<[u8; 16]>,
    i: int,
    r: int,
    c: int,
)
    requires
        2 <= width <= usize::MAX - 16,
        0 <= i < tabs.len(),
        i * 220 + 8 < width,
        10 <= r < 12,
        r < (buf.len() as int) / width,
        i * 220 + 8 <= c < i * 220 + 24,
        c < width,
    ensures
        render_tab_bar_spec(buf, width, tab_titles(tabs), active_index, font)[r * width + c] == tab_background_color(
            i,
            active_index,
        ),
{
    let titles = tab_titles(tabs);
    let b0 = clear_rect_spec(buf, width, 0, 0, width, 40, TABBAR_BG);
    assert(b0.len() == buf.len());
    lemma_render_tabs_from_bg(b0, width, titles, 0, active_index, font, i, r, c);
    lemma_render_tabs_from_left(b0, width, titles, 0, active_index, font, 0, 0);
    let b1 = render_tabs_from(b0, width, titles, 0, active_index, font);
    let plus_x = plus_button_x(titles.len() as int, width);
    if plus_x < width {
        if c < plus_x {
            lemma_draw_char_left_untouched(b1, width, plus_x, 12, '+', TABBAR_FG, 0, 0, width, (b1.len() as int) / width, font, r, c);
        } else {
            let bh = (b1.len() as int) / width;
            lemma_painted_pixel(b1, width, char_cover(plus_x, 12, glyph_for(font, '+'), 0, 0, width, bh, width, bh), TABBAR_FG, r, c);
        }
    }
}

/// Each tab shows its own title: once the tab bar is drawn, every pixel
/// that a glyph of a tab's non-empty title sets inside the tab's title area
/// has the title color (white for the tab in front, grey for the others).
pub proof fn lemma_tab_shows_title(
    buf: Seq<u32>,
    width: int,
    tabs: Seq<Tab>,
    active_index: int,
    font: Seq<[u8; 16]>,
    i: int,
    j: int,
    r: int,
    c: int,
)
    requires
        2 <= width <= usize::MAX - 16,
        0 <= i < tabs.len(),
        i * 220 + 8 < width,
        r < (buf.len() as int) / width,
        title_glyph_pixel(width, i, tabs[i].title@, font, j, r, c),
    ensures
        render_tab_bar_spec(buf, width, tab_titles(tabs), active_index, font)[r * width + c] == tab_title_color(
            i,
            active_index,
        ),
{
    let titles = tab_titles(tabs);
    assert(titles[i] == tabs[i].title@);
    let b0 = clear_rect_spec(buf, width, 0, 0, width, 40, TABBAR_BG);
    assert(b0.len() == buf.len());
    lemma_render_tabs_from_title(b0, width, titles, 0, active_index, font, i, j, r, c);
    lemma_render_tabs_from_left(b0, width, titles, 0, active_index, font, 0, 0);
    let b1 = render_tabs_from(b0, width, titles, 0, active_index, font);
    let plus_x = plus_button_x(titles.len() as int, width);
    if plus_x < width {
        lemma_draw_char_left_untouched(b1, width, plus_x, 12, '+', TABBAR_FG, 0, 0, width, (b1.len() as int) / width, font, r, c);
    }
}

/// Which parts of the chrome must be drawn again.
#[derive(Debug, Clone, Copy)]
pub struct DirtyRegion {
    pub omnibox: bool,
    pub tabbar: bool,
    pub whole_window: bool,
}

impl Default for DirtyRegion {
    fn default() -> (d: Self)
        ensures
            !d.omnibox && !d.tabbar && !d.whole_window,
    {
        DirtyRegion { omnibox: false, tabbar: false, whole_window: false }
    }
}

impl DirtyRegion {
    /// Nothing to draw.
    pub fn new() -> (d: Self)
        ensures
            !d.omnibox && !d.tabbar && !d.whole_window,
    {
        DirtyRegion { omnibox: false, tabbar: false, whole_window: false }
    }

    /// The address bar must be drawn again.
    pub fn invalidate_omnibox(&mut self)
        ensures
            final(self).omnibox,
            final(self).tabbar == old(self).tabbar,
            final(self).whole_window == old(self).whole_window,
    {
        self.omnibox = true;
    }

    /// The tab bar must be drawn again.
    pub fn invalidate_tabbar(&mut self)
        ensures
            final(self).tabbar,
            final(self).omnibox == old(self).omnibox,
            final(self).whole_window == old(self).whole_window,
    {
        self.tabbar = true;
    }

    /// Both bars must be drawn again.
    pub fn invalidate_chrome(&mut self)
        ensures
            final(self).omnibox && final(self).tabbar,
            final(self).whole_window == old(self).whole_window,
    {
        self.omnibox = true;
        self.tabbar = true;
    }

    /// Everything must be drawn again.
    pub fn invalidate_all(&mut self)
        ensures
            final(self).omnibox && final(self).tabbar && final(self).whole_window,
    {
        self.whole_window = true;
        self.omnibox = true;
        self.tabbar = true;
    }

    /// Whether anything must be drawn.
    pub fn needs_redraw(&self) -> (r: bool)
        ensures
            r == (self.omnibox || self.tabbar || self.whole_window),
    {
        self.omnibox || self.tabbar || self.whole_window
    }

    /// Marks everything as drawn.
    pub fn reset(&mut self)
        ensures
            !final(self).omnibox && !final(self).tabbar && !final(self).whole_window,
    {
        *self = Self::new();
    }
}

/// A cached layer of pixels with its size and whether it is up to date.
pub struct LayerCache {
    pub buffer: Vec<u32>,
    pub width: usize,
    pub height: usize,
    pub valid: bool,
}

impl LayerCache {
    /// An empty, stale layer.
    pub fn new() -> (l: Self)
        ensures
            l.buffer@.len() == 0,
            l.width == 0,
            l.height == 0,
            !l.valid,
    {
        Self { buffer: Vec::new(), width: 0, height: 0, valid: false }
    }

    /// Resizes the layer, making it stale, if its size differs; new pixels
    /// are zero and kept pixels keep their values.
    pub fn ensure_size(&mut self, width: usize, height: usize)
        requires
            old(self).width != width || old(self).height != height ==> width * height <= usize::MAX,
        ensures
            old(self).width == width && old(self).height == height ==> *final(self) == *old(self),
            old(self).width != width || old(self).height != height ==> {
                let n = width * height;
                &&& final(self).width == width
                &&& final(self).height == height
                &&& !final(self).valid
                &&& final(self).buffer@.len() == n
                &&& forall|i: int| 0 <= i < n ==> #[trigger] final(self).buffer@[i] == (if i < old(self).buffer@.len() {
                    old(self).buffer@[i]
                } else {
                    0u32
                })
            },
    {
        if self.width != width || self.height != height {
            self.width = width;
            self.height = height;
            self.buffer.resize(width * height, 0);
            self.valid = false;
        }
    }

    /// Marks the layer stale.
    pub fn invalidate(&mut self)
        ensures
            !final(self).valid,
            final(self).buffer == old(self).buffer,
            final(self).width == old(self).width,
            final(self).height == old(self).height,
    {
        self.valid = false;
    }
}

/// The cached layers the chrome is composed of.
pub struct UICompositor {
    pub tabbar: LayerCache,
    pub static_omnibox: LayerCache,
    pub omnibox_is_focused: bool,
}

impl UICompositor {
    /// Two empty, stale layers and an unfocused address bar.
    pub fn new() -> (c: Self)
        ensures
            c.tabbar.buffer@.len() == 0 && c.tabbar.width == 0 && c.tabbar.height == 0 && !c.tabbar.valid,
            c.static_omnibox.buffer@.len() == 0 && c.static_omnibox.width == 0
                && c.static_omnibox.height == 0 && !c.static_omnibox.valid,
            !c.omnibox_is_focused,
    {
        Self { tabbar: LayerCache::new(), static_omnibox: LayerCache::new(), omnibox_is_focused: false }
    }
}

/// Where a click on the tab bar landed.
#[derive(Debug, Clone, Copy, PartialEq, Eq)]
pub enum TabHit {
    Tab(usize),
    CloseButton(usize),
    NewTabButton,
    NoHit,
}

/// Which tab bar control is under column `x`, with `n` tabs in a bar `width`
/// pixels wide: tab `i` spans 220 pixels from `8 + 220 * i` (the last one
/// visible is cut at the edge), its right 24 pixels are the close button when
/// the tab is wider than 44, and the new-tab button follows the tabs.
pub open spec fn tab_hit_spec(x: int, n: int, width: int) -> TabHit {
    let i = (x - 8) / 220;
    let start = i * 220 + 8;
    let tw = if start + 220 > width { width - start } else { 220 };
    if x >= 8 && i < n && start < width && x < start + tw {
        let close_x = sat_sub(start + tw, 24);
        if close_x > start + 20 && x >= close_x {
            TabHit::CloseButton(i as usize)
        } else {
            TabHit::Tab(i as usize)
        }
    } else {
        let plus_x = plus_button_x(n, width);
        if plus_x < width && x >= sat_sub(plus_x, 4) && x <= plus_x + 16 {
            TabHit::NewTabButton
        } else {
            TabHit::NoHit
        }
    }
}

/// Right edge of tab `j` in a bar `width` pixels wide.
pub open spec fn tab_end(j: int, width: int) -> int {
    if j * 220 + 8 + 220 > width {
        width
    } else {
        j * 220 + 8 + 220
    }
}

/// Which tab bar control is under column `x` (the pointer's position,
/// already converted to whole pixels).
pub fn hit_test_tab_bar_at(x: usize, num_tabs: usize, window_width: usize) -> (r: TabHit)
    requires
        num_tabs * 220 + 32 <= usize::MAX,
    ensures
        r == tab_hit_spec(x as int, num_tabs as int, window_width as int),
{
    let mut i: usize = 0;
    while i < num_tabs && i * TAB_WIDTH + TAB_MARGIN_LEFT < window_width
        invariant
            num_tabs * 220 + 32 <= usize::MAX,
            i <= num_tabs,
            forall|j: int| 0 <= j < i ==> !(j * 220 + 8 <= x && x < #[trigger] tab_end(j, window_width as int)),
        decreases num_tabs - i,
    {
        let start_x = i * TAB_WIDTH + TAB_MARGIN_LEFT;
        let w = if start_x + TAB_WIDTH > window_width {
            window_width - start_x
        } else {
            TAB_WIDTH
        };
        let end_x = start_x + w;
        assert(end_x == tab_end(i as int, window_width as int));
        if x >= start_x && x < end_x {
            assert((x - 8) / 220 == i);
            let close_x = (start_x + w).saturating_sub(24);
            if close_x > start_x + 20 && x >= close_x {
                return TabHit::CloseButton(i);
            } else {
                return TabHit::Tab(i);
            }
        }
        i += 1;
    }
    proof {
        let k = (x - 8) / 220;
        if x >= 8 && k < num_tabs && k * 220 + 8 < window_width {
            if k < i {
                assert(!(k * 220 + 8 <= x && x < tab_end(k, window_width as int)));
            } else {
                assert(i * 220 + 8 >= window_width || i == num_tabs);
                assert(i * 220 <= k * 220);
            }
        }
    }
    let mut plus_x = num_tabs * TAB_WIDTH + 16;
    let w_usize = window_width;
    if plus_x + 16 > w_usize {
        plus_x = w_usize.saturating_sub(20);
    }
    if plus_x < w_usize {
        if x >= plus_x.saturating_sub(4) && x <= plus_x + 16 {
            return TabHit::NewTabButton;
        }
    }
    TabHit::NoHit
}

/// A click on the visible part of tab `i` closes it when it lands on the
/// tab's last 24 visible columns (where the tab bar draws its `x`) and the
/// tab is wider than 44 pixels; anywhere else on the tab it selects the tab.
pub proof fn lemma_tab_hit_regions(x: int, n: int, width: int, i: int)
    requires
        0 <= i < n,
        i * 220 + 8 <= x,
        x < i * 220 + 228,
        x < width,
    ensures
        ({
            let start = i * 220 + 8;
            let tw = if width - start < 220 { width - start } else { 220 };
            if tw > 44 && x >= start + tw - 24 {
                tab_hit_spec(x, n, width) == TabHit::CloseButton(i as usize)
            } else {
                tab_hit_spec(x, n, width) == TabHit::Tab(i as usize)
            }
        }),
{
    lemma_fundamental_div_mod_converse(x - 8, 220, i, x - 8 - i * 220);
}

/// Past the last tab, the new-tab button answers clicks from 4 columns
/// before it to 16 after its left edge: right after the tabs (16 columns
/// past `n * 220`) when it fits, otherwise 20 columns before the right edge.
pub proof fn lemma_new_tab_button_region(x: int, n: int, width: int)
    requires
        n >= 0,
        x >= n * 220 + 8,
        x < width,
    ensures
        n * 220 + 32 <= width && n * 220 + 12 <= x <= n * 220 + 32 ==> tab_hit_spec(x, n, width)
            == TabHit::NewTabButton,
        n * 220 + 32 > width && width - 24 <= x && x <= width - 4 ==> tab_hit_spec(x, n, width)
            == TabHit::NewTabButton,
        n * 220 + 32 <= width && x > n * 220 + 32 ==> tab_hit_spec(x, n, width) == TabHit::NoHit,
{
    let q = (x - 8) / 220;
    vstd::arithmetic::div_mod::lemma_fundamental_div_mod(x - 8, 220);
    assert(q >= n);
}

/// Filling a rectangle paints exactly its pixels: inside the rectangle a
/// pixel of the buffer takes the color, outside it keeps its value.
pub proof fn lemma_clear_rect_pixels(
    buf: Seq<u32>,
    bw: int,
    x: int,
    y: int,
    w: int,
    h: int,
    color: u32,
    r: int,
    c: int,
)
    requires
        bw > 0,
        0 <= r < (buf.len() as int) / bw,
        0 <= c < bw,
    ensures
        clear_rect_spec(buf, bw, x, y, w, h, color).len() == buf.len(),
        clear_rect_spec(buf, bw, x, y, w, h, color)[r * bw + c] == (if y <= r < y + h && x <= c < x + w {
            color
        } else {
            buf[r * bw + c]
        }),
{
    lemma_painted_pixel(buf, bw, rect_cover(x, y, w, h), color, r, c);
}

/// A beveled rectangle at least 2 by 2 pixels paints its rectangle except
/// its four corner pixels, which keep their value, like every pixel outside.
pub proof fn lemma_beveled_rect_pixels(
    buf: Seq<u32>,
    bw: int,
    x: int,
    y: int,
    w: int,
    h: int,
    color: u32,
    r: int,
    c: int,
)
    requires
        bw > 0,
        0 <= r < (buf.len() as int) / bw,
        0 <= c < bw,
        w >= 2,
        h >= 2,
        x >= 0,
        x + w <= usize::MAX,
    ensures
        beveled_rect_spec(buf, bw, x, y, w, h, color).len() == buf.len(),
        beveled_rect_spec(buf, bw, x, y, w, h, color)[r * bw + c] == (if y <= r < y + h && x <= c < x + w
            && !((r == y || r == y + h - 1) && (c == x || c == x + w - 1)) {
            color
        } else {
            buf[r * bw + c]
        }),
{
    lemma_painted_pixel(buf, bw, bevel_cover(x, y, w, h), color, r, c);
}

/// A click is on at most one tab, and a tab hit is always within the tab
/// bar's tabs.
pub proof fn lemma_tab_hit_in_range(x: int, n: int, width: int)
    requires
        x >= 0,
    ensures
        tab_hit_spec(x, n, width) matches TabHit::Tab(i) ==> 0 <= i < n && (i as int) * 220 + 8 <= x,
        tab_hit_spec(x, n, width) matches TabHit::CloseButton(i) ==> 0 <= i < n && (i as int) * 220 + 8 <= x,
{
}

} // verus!
