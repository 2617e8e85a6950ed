use crate::font::{chars_of, glyph_covers, glyph_fits, text_covers, text_fits, text_offset, write_ascii, write_chars};
use crate::graphics::{fill_rectangle, in_area, in_rect, rect_in_area, PixelColor, PixelWriter, Rectangle, Vector2D};
use crate::layer::LayerID;
use crate::shared::PixelFormat;
use crate::window::{origin_x, origin_y, window_size_ok, Window};
use vstd::prelude::*;

verus! {

/// The console's text rows.
pub const ROWS: usize = 25;

/// The console's text columns.
pub const COLUMNS: usize = 80;

/// Where the console draws: straight to the screen, or into its window.
#[derive(Clone, Copy, PartialEq, Eq, Structural, Debug)]
pub enum Mode {
    Frame,
    ConsoleWindow,
}

/// The kernel's text console: a grid of characters and a cursor.
pub struct Console {
    mode: Mode,
    fg_color: PixelColor,
    bg_color: PixelColor,
    cursor_row: usize,
    cursor_column: usize,
    layer_id: Option<LayerID>,
    buffer: Vec<char>,
}

/// The state of a console's text: its rows (each `COLUMNS + 1` characters)
/// and its cursor.
pub struct ConsoleText {
    pub rows: Seq<Seq<char>>,
    pub row: int,
    pub column: int,
}

/// The text after a line break in `mode`: the cursor goes to the start of
/// the next row; on the last row the screen scrolls, and when drawing to
/// the screen the rows move up and the last one is cleared.
pub open spec fn text_new_line(t: ConsoleText, mode: Mode) -> ConsoleText {
    if t.row < ROWS - 1 {
        ConsoleText { rows: t.rows, row: t.row + 1, column: 0 }
    } else if mode == Mode::Frame {
        ConsoleText {
            rows: t.rows.drop_first().push(Seq::new((COLUMNS + 1) as nat, |i: int| '\0')),
            row: t.row,
            column: 0,
        }
    } else {
        ConsoleText { rows: t.rows, row: t.row, column: 0 }
    }
}

/// The text after `c` was put: a line break, a character stored at the
/// cursor, or nothing once the row is full.
pub open spec fn text_put_char(t: ConsoleText, mode: Mode, c: char) -> ConsoleText {
    if c == '\n' {
        text_new_line(t, mode)
    } else if t.column < COLUMNS - 1 {
        ConsoleText {
            rows: t.rows.update(t.row, t.rows[t.row].update(t.column, c)),
            row: t.row,
            column: t.column + 1,
        }
    } else {
        t
    }
}

/// The text after the characters of `s` were put, from the first on.
pub open spec fn text_put_string(t: ConsoleText, mode: Mode, s: Seq<char>) -> ConsoleText
    decreases s.len(),
{
    if s.len() == 0 {
        t
    } else {
        text_put_char(text_put_string(t, mode, s.drop_last()), mode, s.last())
    }
}

impl Console {
    pub closed spec fn spec_mode(&self) -> Mode {
        self.mode
    }

    pub closed spec fn spec_layer_id(&self) -> Option<LayerID> {
        self.layer_id
    }

    pub closed spec fn fg(&self) -> PixelColor {
        self.fg_color
    }

    pub closed spec fn bg(&self) -> PixelColor {
        self.bg_color
    }

    /// The text: rows of the buffer and the cursor.
    pub closed spec fn text(&self) -> ConsoleText {
        ConsoleText {
            rows: Seq::new(ROWS as nat, |r: int| self.buffer@.subrange(r * 81, r * 81 + 81)),
            row: self.cursor_row as int,
            column: self.cursor_column as int,
        }
    }

    pub closed spec fn wf(&self) -> bool {
        &&& self.buffer@.len() == ROWS * (COLUMNS + 1)
        &&& self.cursor_row < ROWS
        &&& self.cursor_column < COLUMNS
    }

    /// An empty console drawing to the screen, its cursor at the top left.
    pub fn new(fg_color: PixelColor, bg_color: PixelColor) -> (c: Console)
        ensures
            c.wf(),
            c.spec_mode() == Mode::Frame,
            c.fg() == fg_color,
            c.bg() == bg_color,
            c.spec_layer_id() is None,
            c.text().row == 0,
            c.text().column == 0,
            c.text().rows == Seq::new(ROWS as nat, |r: int| Seq::new((COLUMNS + 1) as nat, |i: int| '\0')),
    {
        let c = Console {
            mode: Mode::Frame,
            fg_color,
            bg_color,
            cursor_row: 0,
            cursor_column: 0,
            layer_id: None,
            buffer: vec!['\0'; 2025],
        };
        assert(c.text().rows =~= Seq::new(ROWS as nat, |r: int| Seq::new((COLUMNS + 1) as nat, |i: int| '\0'))) by {
            assert forall|r: int| 0 <= r < ROWS implies #[trigger] c.text().rows[r] =~= Seq::new((COLUMNS + 1) as nat, |i: int| '\0') by {}
        }
        c
    }

    pub fn layer_id(&self) -> (id: Option<LayerID>)
        ensures
            id == self.spec_layer_id(),
    {
        self.layer_id
    }

    pub fn set_layer_id(&mut self, layer_id: LayerID)
        requires
            old(self).wf(),
        ensures
            final(self).wf(),
            final(self).spec_layer_id() == Some(layer_id),
            final(self).spec_mode() == old(self).spec_mode(),
            final(self).text() == old(self).text(),
            final(self).fg() == old(self).fg(),
            final(self).bg() == old(self).bg(),
    {
        self.layer_id = Some(layer_id);
    }

    /// The character at `row`, `column`.
    fn at(&self, row: usize, column: usize) -> (c: char)
        requires
            self.wf(),
            row < ROWS,
            column <= COLUMNS,
        ensures
            c == self.text().rows[row as int][column as int],
    {
        self.buffer[row * 81 + column]
    }

    fn set_at(&mut self, row: usize, column: usize, c: char)
        requires
            old(self).wf(),
            row < ROWS,
            column <= COLUMNS,
        ensures
            final(self).wf(),
            final(self).text().rows == old(self).text().rows.update(row as int, old(self).text().rows[row as int].update(column as int, c)),
            final(self).text().row == old(self).text().row,
            final(self).text().column == old(self).text().column,
            final(self).spec_mode() == old(self).spec_mode(),
            final(self).spec_layer_id() == old(self).spec_layer_id(),
            final(self).fg() == old(self).fg(),
            final(self).bg() == old(self).bg(),
    {
        let ghost before = self.text().rows;
        self.buffer.set(row * 81 + column, c);
        assert(self.text().rows =~= before.update(row as int, before[row as int].update(column as int, c))) by {
            assert forall|r: int| 0 <= r < ROWS implies #[trigger] self.text().rows[r] =~= before.update(row as int, before[row as int].update(column as int, c))[r] by {}
        }
    }

    /// The row `row` of the buffer, as drawn by `write_chars`.
    fn row_chars(&self, row: usize) -> (v: Vec<char>)
        requires
            self.wf(),
            row < ROWS,
        ensures
            v@ == self.text().rows[row as int],
    {
        let mut v: Vec<char> = Vec::new();
        let mut i: usize = 0;
        while i < 81
            invariant
                self.wf(),
                row < ROWS,
                i <= 81,
                v@ == self.text().rows[row as int].take(i as int),
            decreases 81 - i,
        {
            v.push(self.at(row, i));
            i += 1;
            assert(v@ =~= self.text().rows[row as int].take(i as int));
        }
        assert(v@ =~= self.text().rows[row as int]);
        v
    }
}

/// Whether a character of one of the rows `0..n` of `rows`, each drawn
/// from the left edge at 16 pixels per row, covers the pixel (a, b).
pub open spec fn rows_cover(font: Seq<u8>, rows: Seq<Seq<char>>, n: int, a: int, b: int) -> bool
    decreases n,
{
    if n <= 0 {
        false
    } else {
        rows_cover(font, rows, n - 1, a, b) || text_covers(
            font,
            rows[n - 1],
            0,
            16 * (n - 1),
            a,
            b,
            rows[n - 1].len() as int,
        )
    }
}

/// The screen's colors `col` after a line break of a console that draws
/// on the screen, from text `t`: on the last row the grid is cleared to
/// `bg` and the rows of the scrolled text, all but the last, drawn in `fg`;
/// otherwise nothing changes.
pub open spec fn screen_after_new_line(
    t: ConsoleText,
    mode: Mode,
    font: Seq<u8>,
    fg: PixelColor,
    bg: PixelColor,
    col: spec_fn(int, int) -> PixelColor,
) -> spec_fn(int, int) -> PixelColor {
    |a: int, b: int|
        if t.row < ROWS - 1 || mode != Mode::Frame {
            col(a, b)
        } else if rows_cover(font, text_new_line(t, mode).rows, ROWS - 1, a, b) {
            fg
        } else if in_rect(Vector2D { x: 0i32, y: 0i32 }, Vector2D { x: 640i32, y: 400i32 }, a, b) {
            bg
        } else {
            col(a, b)
        }
}

/// The console window's pixels `col` (its own, frame included) after a
/// line break from text `t`: on the last row the pixels of the grid move
/// up one row and the last row, counted from the inner area's origin, is
/// cleared to `bg`; otherwise nothing changes.
pub open spec fn window_after_new_line(
    t: ConsoleText,
    mode: Mode,
    top_level: bool,
    bg: PixelColor,
    col: spec_fn(int, int) -> PixelColor,
) -> spec_fn(int, int) -> PixelColor {
    |x: int, y: int|
        if t.row < ROWS - 1 || mode != Mode::ConsoleWindow {
            col(x, y)
        } else if in_rect(
            Vector2D { x: 0i32, y: 384i32 },
            Vector2D { x: 640i32, y: 16i32 },
            x - origin_x(top_level),
            y - origin_y(top_level),
        ) {
            bg
        } else if 0 <= x < 640 && 0 <= y < 384 {
            col(x, y + 16)
        } else {
            col(x, y)
        }
}

/// The screen's colors `col` after `c` is put with text `t`: a line break
/// (see `screen_after_new_line`), or, on the screen and with room on the
/// row, the character's glyph drawn in `fg` at the cursor's cell.
pub open spec fn screen_after_char(
    t: ConsoleText,
    mode: Mode,
    font: Seq<u8>,
    fg: PixelColor,
    bg: PixelColor,
    col: spec_fn(int, int) -> PixelColor,
    c: char,
) -> spec_fn(int, int) -> PixelColor {
    if c == '\n' {
        screen_after_new_line(t, mode, font, fg, bg, col)
    } else if t.column < COLUMNS - 1 && mode == Mode::Frame {
        |a: int, b: int| if glyph_covers(font, c, 8 * t.column, 16 * t.row, a, b) { fg } else { col(a, b) }
    } else {
        col
    }
}

/// The console window's pixels `col` after `c` is put with text `t` (see
/// `screen_after_char`; the cell is counted from the inner area's origin).
pub open spec fn window_after_char(
    t: ConsoleText,
    mode: Mode,
    top_level: bool,
    font: Seq<u8>,
    fg: PixelColor,
    bg: PixelColor,
    col: spec_fn(int, int) -> PixelColor,
    c: char,
) -> spec_fn(int, int) -> PixelColor {
    if c == '\n' {
        window_after_new_line(t, mode, top_level, bg, col)
    } else if t.column < COLUMNS - 1 && mode == Mode::ConsoleWindow {
        |x: int, y: int|
            if glyph_covers(font, c, 8 * t.column, 16 * t.row, x - origin_x(top_level), y - origin_y(top_level)) {
                fg
            } else {
                col(x, y)
            }
    } else {
        col
    }
}

/// The screen's colors `col` after the characters of `s` are put in turn
/// from text `t`.
pub open spec fn screen_after_string(
    t: ConsoleText,
    mode: Mode,
    font: Seq<u8>,
    fg: PixelColor,
    bg: PixelColor,
    col: spec_fn(int, int) -> PixelColor,
    s: Seq<char>,
) -> spec_fn(int, int) -> PixelColor
    decreases s.len(),
{
    if s.len() == 0 {
        col
    } else {
        screen_after_char(
            text_put_string(t, mode, s.drop_last()),
            mode,
            font,
            fg,
            bg,
            screen_after_string(t, mode, font, fg, bg, col, s.drop_last()),
            s.last(),
        )
    }
}

/// The console window's pixels `col` after the characters of `s` are put
/// in turn from text `t`.
pub open spec fn window_after_string(
    t: ConsoleText,
    mode: Mode,
    top_level: bool,
    font: Seq<u8>,
    fg: PixelColor,
    bg: PixelColor,
    col: spec_fn(int, int) -> PixelColor,
    s: Seq<char>,
) -> spec_fn(int, int) -> PixelColor
    decreases s.len(),
{
    if s.len() == 0 {
        col
    } else {
        window_after_char(
            text_put_string(t, mode, s.drop_last()),
            mode,
            top_level,
            font,
            fg,
            bg,
            window_after_string(t, mode, top_level, font, fg, bg, col, s.drop_last()),
            s.last(),
        )
    }
}

/// Whether a writer's area holds the console's grid even when every
/// character of a row is double-width: `2 * (COLUMNS + 1)` cells of 8
/// pixels by `ROWS` rows of 16 pixels.
pub open spec fn holds_console(area: (int, int, int, int)) -> bool {
    area.0 <= 0 && area.1 <= 0 && 8 * 2 * (COLUMNS + 1) <= area.2 && 16 * ROWS <= area.3
}

/// Whether a window's inner area holds the `COLUMNS` by `ROWS` grid.
pub open spec fn holds_grid(area: (int, int, int, int)) -> bool {
    area.0 <= 0 && area.1 <= 0 && 8 * COLUMNS <= area.2 && 16 * ROWS <= area.3
}

/// A glyph drawn in a cell of the area stays in the area.
pub proof fn lemma_cell_fits(font: Seq<u8>, c: char, x: int, y: int, area: (int, int, int, int))
    requires
        area.0 <= x,
        x + 8 <= area.2,
        area.1 <= y,
        y + 16 <= area.3,
        x + 7 <= i32::MAX,
        y + 15 <= i32::MAX,
    ensures
        glyph_fits(font, c, x, y, area),
{
}

/// A row of the buffer drawn at height `y` fits in an area that holds the console.
pub proof fn lemma_row_fits(font: Seq<u8>, row: Seq<char>, y: int, area: (int, int, int, int))
    requires
        row.len() == COLUMNS + 1,
        holds_console(area),
        0 <= y,
        y + 16 <= 16 * ROWS,
    ensures
        text_fits(font, row, 0, y, area),
{
    assert forall|k: int| 0 <= k < row.len() implies {
        &&& 0 + 8 * text_offset(row, k) <= i32::MAX
        &&& 8 * text_offset(row, k) <= i32::MAX
        &&& glyph_fits(font, #[trigger] row[k], 0 + 8 * text_offset(row, k), y, area)
    } by {
        crate::font::lemma_text_offset_mono(row, 0, k);
        assert(text_offset(row, k) <= 2 * k);
        assert(k <= 80);
        assert(8 * text_offset(row, k) + 8 <= 1296);
        assert(COLUMNS == 80);
        assert(COLUMNS + 1 == 81);
        assert(2 * (COLUMNS + 1) == 162);
        assert(8 * 2 * (COLUMNS + 1) == 1296);
        assert(holds_console(area));
        assert(area.2 >= 1296);
        lemma_cell_fits(font, row[k], 8 * text_offset(row, k), y, area);
        assert(glyph_fits(font, row[k], 0 + 8 * text_offset(row, k), y, area));
    }
    assert(text_fits(font, row, 0, y, area));
}

impl Console {
    /// Moves the cursor to the next line, scrolling when it is on the last
    /// one: a console window moves its pixels up and clears the last row;
    /// on the screen the rows of text move up and are drawn again.
    fn new_line<W: PixelWriter>(&mut self, writer: &mut W, window: &mut Window, font: &[u8])
        requires
            old(self).wf(),
            old(writer).inv(),
            old(window).wf(),
            old(self).spec_mode() == Mode::Frame ==> holds_console(old(writer).area()),
            old(self).spec_mode() == Mode::ConsoleWindow ==> holds_grid(PixelWriter::area(old(window))),
        ensures
            final(self).wf(),
            final(self).text() == text_new_line(old(self).text(), old(self).spec_mode()),
            final(self).spec_mode() == old(self).spec_mode(),
            final(self).spec_layer_id() == old(self).spec_layer_id(),
            final(self).fg() == old(self).fg(),
            final(self).bg() == old(self).bg(),
            final(writer).inv(),
            final(writer).frame() == old(writer).frame(),
            final(writer).area() == old(writer).area(),
            final(window).wf(),
            final(window).frame_of() == old(window).frame_of(),
            forall|a: int, b: int|
                #[trigger] final(writer).pixel_at(a, b) == screen_after_new_line(
                    old(self).text(),
                    old(self).spec_mode(),
                    font@,
                    old(self).fg(),
                    old(self).bg(),
                    |x: int, y: int| old(writer).pixel_at(x, y),
                )(a, b),
            forall|x: int, y: int|
                #[trigger] final(window).color(x, y) == window_after_new_line(
                    old(self).text(),
                    old(self).spec_mode(),
                    old(window).is_top_level(),
                    old(self).bg(),
                    |p: int, q: int| old(window).color(p, q),
                )(x, y),
    {
        self.cursor_column = 0;
        if self.cursor_row < ROWS - 1 {
            self.cursor_row += 1;
            return ;
        }
        match self.mode {
            Mode::ConsoleWindow => {
                let move_src = Rectangle::new(Vector2D::new(0, 16), Vector2D::new(8 * 80, 16 * 24));
                let ghost v0 = *window;
                window.move_(Vector2D::new(0, 0), &move_src);
                let ghost v1 = *window;
                fill_rectangle(window, &Vector2D::new(0, 16 * 24), &Vector2D::new(8 * 80, 16), &self.bg_color);
                proof {
                    assert forall|x: int, y: int| #[trigger] window.color(x, y) == window_after_new_line(
                        old(self).text(),
                        old(self).spec_mode(),
                        v0.is_top_level(),
                        old(self).bg(),
                        |p: int, q: int| v0.color(p, q),
                    )(x, y) by {
                        let ox = origin_x(v0.is_top_level());
                        let oy = origin_y(v0.is_top_level());
                        assert(window.pixel_at(x - ox, y - oy) == window.color(x, y));
                        assert(v1.pixel_at(x - ox, y - oy) == v1.color(x, y));
                    }
                }
            },
            Mode::Frame => {
                let ghost w0 = *writer;
                fill_rectangle(writer, &Vector2D::new(0, 0), &Vector2D::new(8 * 80, 16 * 25), &self.bg_color);
                let ghost t0 = self.text();
                let ghost new_rows = text_new_line(t0, Mode::Frame).rows;
                assert(new_rows.len() == ROWS);
                let mut row: usize = 0;
                while row < ROWS - 1
                    invariant
                        self.wf(),
                        row <= ROWS - 1,
                        self.mode == Mode::Frame,
                        self.cursor_row == ROWS - 1,
                        self.cursor_column == 0,
                        self.fg_color == old(self).fg_color,
                        self.bg_color == old(self).bg_color,
                        self.layer_id == old(self).layer_id,
                        t0.rows.len() == ROWS,
                        forall|r: int| 0 <= r < row ==> #[trigger] self.text().rows[r] == t0.rows[r + 1],
                        forall|r: int| row <= r < ROWS ==> #[trigger] self.text().rows[r] == t0.rows[r],
                        writer.inv(),
                        writer.frame() == old(writer).frame(),
                        writer.area() == old(writer).area(),
                        holds_console(old(writer).area()),
                        new_rows == text_new_line(t0, Mode::Frame).rows,
                        t0.rows == old(self).text().rows,
                        t0.row == ROWS - 1,
                        forall|a: int, b: int|
                            #[trigger] writer.pixel_at(a, b) == if rows_cover(font@, new_rows, row as int, a, b) {
                                old(self).fg()
                            } else if in_rect(Vector2D { x: 0i32, y: 0i32 }, Vector2D { x: 640i32, y: 400i32 }, a, b) {
                                old(self).bg()
                            } else {
                                w0.pixel_at(a, b)
                            },
                    decreases ROWS - 1 - row,
                {
                    let mut i: usize = 0;
                    let ghost before = self.text().rows;
                    while i < 81
                        invariant
                            self.wf(),
                            row < ROWS - 1,
                            i <= 81,
                            self.mode == Mode::Frame,
                            self.cursor_row == ROWS - 1,
                            self.cursor_column == 0,
                            self.fg_color == old(self).fg_color,
                            self.bg_color == old(self).bg_color,
                            self.layer_id == old(self).layer_id,
                            forall|r: int| 0 <= r < ROWS && r != row ==> #[trigger] self.text().rows[r] == before[r],
                            self.text().rows[row as int] == before[row + 1].take(i as int) + before[row as int].skip(i as int),
                            before.len() == ROWS,
                            before[row as int].len() == 81,
                            before[row + 1].len() == 81,
                        decreases 81 - i,
                    {
                        let c: char = self.at(row + 1, i);
                        self.set_at(row, i, c);
                        i += 1;
                        assert(self.text().rows[row as int] =~= before[row + 1].take(i as int) + before[row as int].skip(i as int));
                    }
                    assert(self.text().rows[row as int] =~= before[row + 1]);
                    let chars: Vec<char> = self.row_chars(row);
                    proof {
                        lemma_row_fits(font@, chars@, (16 * row) as int, writer.area());
                        assert(before[row + 1] == t0.rows[row + 1]);
                        assert(new_rows[row as int] == t0.rows[row + 1]);
                        assert(chars@ == new_rows[row as int]);
                    }
                    let ghost wb = *writer;
                    write_chars(writer, font, 0, (16 * row) as i32, chars.as_slice(), &self.fg_color);
                    assert forall|a: int, b: int| #[trigger] writer.pixel_at(a, b) == if rows_cover(
                        font@,
                        new_rows,
                        row + 1,
                        a,
                        b,
                    ) {
                        old(self).fg()
                    } else if in_rect(Vector2D { x: 0i32, y: 0i32 }, Vector2D { x: 640i32, y: 400i32 }, a, b) {
                        old(self).bg()
                    } else {
                        w0.pixel_at(a, b)
                    } by {
                        assert(wb.pixel_at(a, b) == if rows_cover(font@, new_rows, row as int, a, b) {
                            old(self).fg()
                        } else if in_rect(Vector2D { x: 0i32, y: 0i32 }, Vector2D { x: 640i32, y: 400i32 }, a, b) {
                            old(self).bg()
                        } else {
                            w0.pixel_at(a, b)
                        });
                    }
                    row += 1;
                }
                let mut i: usize = 0;
                let ghost before = self.text().rows;
                while i < 81
                    invariant
                        self.wf(),
                        i <= 81,
                        self.mode == Mode::Frame,
                        self.cursor_row == ROWS - 1,
                        self.cursor_column == 0,
                        self.fg_color == old(self).fg_color,
                        self.bg_color == old(self).bg_color,
                        self.layer_id == old(self).layer_id,
                        forall|r: int| 0 <= r < ROWS - 1 ==> #[trigger] self.text().rows[r] == before[r],
                        self.text().rows[ROWS - 1] == Seq::new(i as nat, |k: int| '\0') + before[ROWS - 1].skip(i as int),
                        before.len() == ROWS,
                        before[ROWS - 1].len() == 81,
                    decreases 81 - i,
                {
                    self.set_at(ROWS - 1, i, '\0');
                    i += 1;
                    assert(self.text().rows[ROWS - 1] =~= Seq::new(i as nat, |k: int| '\0') + before[ROWS - 1].skip(i as int));
                }
                assert(self.text().rows =~= text_new_line(old(self).text(), old(self).spec_mode()).rows) by {
                    assert forall|r: int| 0 <= r < ROWS implies #[trigger] self.text().rows[r] =~= text_new_line(old(self).text(), old(self).spec_mode()).rows[r] by {
                        if r == ROWS - 1 {
                            assert(self.text().rows[r] =~= Seq::new(81, |k: int| '\0'));
                        }
                    }
                }
            },
        }
    }
}


impl Console {
    /// Puts the characters of `s`: a line break moves to the next line,
    /// other characters are drawn at the cursor and stored, up to the end
    /// of the row. `writer` is the screen, used in `Frame` mode; `window` is
    /// the console window, used in `ConsoleWindow` mode.
    pub fn put_string<W: PixelWriter>(&mut self, s: &str, writer: &mut W, window: &mut Window, font: &[u8])
        requires
            old(self).wf(),
            old(writer).inv(),
            old(window).wf(),
            old(self).spec_mode() == Mode::Frame ==> holds_console(old(writer).area()),
            old(self).spec_mode() == Mode::ConsoleWindow ==> holds_grid(PixelWriter::area(old(window))),
        ensures
            final(self).wf(),
            final(self).text() == text_put_string(old(self).text(), old(self).spec_mode(), s@),
            final(self).spec_mode() == old(self).spec_mode(),
            final(self).spec_layer_id() == old(self).spec_layer_id(),
            final(self).fg() == old(self).fg(),
            final(self).bg() == old(self).bg(),
            final(writer).inv(),
            final(writer).frame() == old(writer).frame(),
            final(writer).area() == old(writer).area(),
            final(window).wf(),
            final(window).frame_of() == old(window).frame_of(),
            forall|a: int, b: int|
                #[trigger] final(writer).pixel_at(a, b) == screen_after_string(
                    old(self).text(),
                    old(self).spec_mode(),
                    font@,
                    old(self).fg(),
                    old(self).bg(),
                    |x: int, y: int| old(writer).pixel_at(x, y),
                    s@,
                )(a, b),
            forall|x: int, y: int|
                #[trigger] final(window).color(x, y) == window_after_string(
                    old(self).text(),
                    old(self).spec_mode(),
                    old(window).is_top_level(),
                    font@,
                    old(self).fg(),
                    old(self).bg(),
                    |p: int, q: int| old(window).color(p, q),
                    s@,
                )(x, y),
    {
        let ghost wcol = |x: int, y: int| old(writer).pixel_at(x, y);
        let ghost vcol = |p: int, q: int| old(window).color(p, q);
        let ghost top = old(window).is_top_level();
        let ghost t0 = old(self).text();
        let ghost md = old(self).spec_mode();
        assert(s@.take(0) =~= Seq::<char>::empty());
        let chars: Vec<char> = chars_of(s);
        let n: usize = chars.len();
        let mut i: usize = 0;
        while i < n
            invariant
                i <= n,
                n == s@.len(),
                chars@ == s@,
                self.wf(),
                self.text() == text_put_string(old(self).text(), old(self).spec_mode(), s@.take(i as int)),
                self.spec_mode() == old(self).spec_mode(),
                self.spec_layer_id() == old(self).spec_layer_id(),
                self.fg() == old(self).fg(),
                self.bg() == old(self).bg(),
                writer.inv(),
                writer.frame() == old(writer).frame(),
                writer.area() == old(writer).area(),
                window.wf(),
                window.frame_of() == old(window).frame_of(),
                old(self).spec_mode() == Mode::Frame ==> holds_console(old(writer).area()),
                old(self).spec_mode() == Mode::ConsoleWindow ==> holds_grid(PixelWriter::area(old(window))),
                top == window.is_top_level(),
                top == old(window).is_top_level(),
                t0 == old(self).text(),
                md == old(self).spec_mode(),
                wcol == (|x: int, y: int| old(writer).pixel_at(x, y)),
                vcol == (|p: int, q: int| old(window).color(p, q)),
                forall|a: int, b: int|
                    #[trigger] writer.pixel_at(a, b) == screen_after_string(
                        t0,
                        md,
                        font@,
                        old(self).fg(),
                        old(self).bg(),
                        wcol,
                        s@.take(i as int),
                    )(a, b),
                forall|x: int, y: int|
                    #[trigger] window.color(x, y) == window_after_string(
                        t0,
                        md,
                        top,
                        font@,
                        old(self).fg(),
                        old(self).bg(),
                        vcol,
                        s@.take(i as int),
                    )(x, y),
            decreases n - i,
        {
            let c: char = chars[i];
            assert(s@.take(i + 1).drop_last() =~= s@.take(i as int));
            assert(s@.take(i + 1).last() == c);
            let ghost wb = *writer;
            let ghost vb = *window;
            let ghost tb = self.text();
            let ghost sw = screen_after_string(t0, md, font@, old(self).fg(), old(self).bg(), wcol, s@.take(i as int));
            let ghost sv = window_after_string(t0, md, top, font@, old(self).fg(), old(self).bg(), vcol, s@.take(i as int));
            assert((|x: int, y: int| wb.pixel_at(x, y)) =~= sw);
            assert((|p: int, q: int| vb.color(p, q)) =~= sv);
            if c == '\n' {
                self.new_line(writer, window, font);
            } else if self.cursor_column < COLUMNS - 1 {
                let x: i32 = (8 * self.cursor_column) as i32;
                let y: i32 = (16 * self.cursor_row) as i32;
                match self.mode {
                    Mode::Frame => {
                        proof {
                            lemma_cell_fits(font@, c, x as int, y as int, writer.area());
                        }
                        write_ascii(writer, font, x, y, c, &self.fg_color);
                    },
                    Mode::ConsoleWindow => {
                        proof {
                            lemma_cell_fits(font@, c, x as int, y as int, PixelWriter::area(window));
                        }
                        write_ascii(window, font, x, y, c, &self.fg_color);
                    },
                }
                self.set_at(self.cursor_row, self.cursor_column, c);
                self.cursor_column += 1;
            }
            proof {
                assert(tb == text_put_string(t0, md, s@.take(i as int)));
                assert(screen_after_string(t0, md, font@, old(self).fg(), old(self).bg(), wcol, s@.take(i + 1))
                    == screen_after_char(tb, md, font@, old(self).fg(), old(self).bg(), sw, c));
                assert(window_after_string(t0, md, top, font@, old(self).fg(), old(self).bg(), vcol, s@.take(i + 1))
                    == window_after_char(tb, md, top, font@, old(self).fg(), old(self).bg(), sv, c));
                assert forall|a: int, b: int| #[trigger] writer.pixel_at(a, b) == screen_after_string(
                    t0,
                    md,
                    font@,
                    old(self).fg(),
                    old(self).bg(),
                    wcol,
                    s@.take(i + 1),
                )(a, b) by {
                    assert(sw(a, b) == wb.pixel_at(a, b));
                }
                assert forall|x: int, y: int| #[trigger] window.color(x, y) == window_after_string(
                    t0,
                    md,
                    top,
                    font@,
                    old(self).fg(),
                    old(self).bg(),
                    vcol,
                    s@.take(i + 1),
                )(x, y) by {
                    let ox = origin_x(top);
                    let oy = origin_y(top);
                    assert(sv(x, y) == vb.color(x, y));
                    assert(sv(x, y + 16) == vb.color(x, y + 16));
                    assert(window.pixel_at(x - ox, y - oy) == window.color(x, y));
                    assert(vb.pixel_at(x - ox, y - oy) == vb.color(x, y));
                }
            }
            i += 1;
        }
        assert(s@.take(n as int) =~= s@);
    }

    /// Draws the whole text again on a cleared background.
    fn refresh<W: PixelWriter>(&mut self, writer: &mut W, font: &[u8])
        requires
            old(self).wf(),
            old(writer).inv(),
            holds_grid(old(writer).area()),
            forall|r: int| 0 <= r < ROWS ==> text_fits(font@, #[trigger] old(self).text().rows[r], 0, 16 * r, old(writer).area()),
        ensures
            *final(self) == *old(self),
            final(writer).inv(),
            final(writer).frame() == old(writer).frame(),
            final(writer).area() == old(writer).area(),
            forall|a: int, b: int|
                #[trigger] final(writer).pixel_at(a, b) == if rows_cover(font@, old(self).text().rows, ROWS as int, a, b) {
                    old(self).fg()
                } else if in_rect(Vector2D { x: 0i32, y: 0i32 }, Vector2D { x: 640i32, y: 400i32 }, a, b) {
                    old(self).bg()
                } else {
                    old(writer).pixel_at(a, b)
                },
    {
        let ghost w0 = *writer;
        fill_rectangle(writer, &Vector2D::new(0, 0), &Vector2D::new(8 * 80, 16 * 25), &self.bg_color);
        let mut r: usize = 0;
        while r < ROWS
            invariant
                self.wf(),
                *self == *old(self),
                r <= ROWS,
                writer.inv(),
                writer.frame() == old(writer).frame(),
                writer.area() == old(writer).area(),
                forall|k: int| 0 <= k < ROWS ==> text_fits(font@, #[trigger] old(self).text().rows[k], 0, 16 * k, old(writer).area()),
                forall|a: int, b: int|
                    #[trigger] writer.pixel_at(a, b) == if rows_cover(font@, old(self).text().rows, r as int, a, b) {
                        old(self).fg()
                    } else if in_rect(Vector2D { x: 0i32, y: 0i32 }, Vector2D { x: 640i32, y: 400i32 }, a, b) {
                        old(self).bg()
                    } else {
                        w0.pixel_at(a, b)
                    },
            decreases ROWS - r,
        {
            let ghost wr = *writer;
            let row: Vec<char> = self.row_chars(r);
            assert(text_fits(font@, old(self).text().rows[r as int], 0, 16 * r, old(writer).area()));
            write_chars(writer, font, 0, (16 * r) as i32, row.as_slice(), &self.fg_color);
            assert forall|a: int, b: int|
                #[trigger] writer.pixel_at(a, b) == if rows_cover(font@, old(self).text().rows, r + 1, a, b) {
                    old(self).fg()
                } else if in_rect(Vector2D { x: 0i32, y: 0i32 }, Vector2D { x: 640i32, y: 400i32 }, a, b) {
                    old(self).bg()
                } else {
                    w0.pixel_at(a, b)
                } by {
                assert(wr.pixel_at(a, b) == if rows_cover(font@, old(self).text().rows, r as int, a, b) {
                    old(self).fg()
                } else if in_rect(Vector2D { x: 0i32, y: 0i32 }, Vector2D { x: 640i32, y: 400i32 }, a, b) {
                    old(self).bg()
                } else {
                    w0.pixel_at(a, b)
                });
            }
            r += 1;
        }
    }

    /// Switches where the console draws; a console window gets the whole
    /// text drawn again.
    pub fn reset_mode(&mut self, mode: Mode, window: &mut Window, font: &[u8])
        requires
            old(self).wf(),
            old(window).wf(),
            mode == Mode::ConsoleWindow ==> holds_grid(PixelWriter::area(old(window))),
            mode == Mode::ConsoleWindow ==> forall|r: int| 0 <= r < ROWS ==> text_fits(font@, #[trigger] old(self).text().rows[r], 0, 16 * r, PixelWriter::area(old(window))),
        ensures
            final(self).wf(),
            final(self).spec_mode() == mode,
            final(self).text() == old(self).text(),
            final(self).spec_layer_id() == old(self).spec_layer_id(),
            final(self).fg() == old(self).fg(),
            final(self).bg() == old(self).bg(),
            final(window).wf(),
            final(window).frame_of() == old(window).frame_of(),
    {
        self.mode = mode;
        match self.mode {
            Mode::Frame => {},
            Mode::ConsoleWindow => {
                assert(self.text() == old(self).text());
                assert forall|r: int| 0 <= r < ROWS implies text_fits(font@, #[trigger] self.text().rows[r], 0, 16 * r, PixelWriter::area(&*window)) by {
                    assert(self.text().rows[r] == old(self).text().rows[r]);
                }
                self.refresh(window.writer(), font);
            },
        }
    }
}

/// A window the size of the console's grid.
pub fn new_console_window(format: PixelFormat) -> (w: Window)
    ensures
        w.wf(),
        w.spec_width() == 8 * COLUMNS,
        w.spec_height() == 16 * ROWS,
        w.format() == format,
        !w.is_top_level(),
        w.spec_transparent_color() is None,
{
    Window::new(COLUMNS * 8, ROWS * 16, format)
}

} // verus!
