use crate::font::{glyph_covers, glyph_fits, is_ascii_char, text_covers, text_fits, write_ascii, write_string, write_unicode};
use crate::graphics::{color_black, color_white, fill_rectangle, in_rect, rect_in_area, PixelColor, PixelWriter, Rectangle, Vector2D};
use crate::frame_buffer::in_rect_area;
use crate::layer::{LayerID, LayerManager};
use crate::message::{LayerMessage, LayerOperation, Message, MessageType};
use crate::task::TaskManager;
use crate::shared::PixelFormat;
use crate::task::TaskID;
use crate::window::{origin_x, origin_y, Window, WindowWriter};
use vstd::prelude::*;
use vstd::string::StringSliceAdditionalSpecFns;

verus! {

/// Where the inner area of a top-level window starts.
pub const TOP_LEFT_X: i32 = 4;

pub const TOP_LEFT_Y: i32 = 24;

/// The terminal's text rows.
pub const ROWS: i32 = 15;

/// The terminal's text columns.
pub const COLUMNS: i32 = 60;

/// `new` is `old` with at most layer `id`'s window repainted: the window
/// keeps its frame, the layer its place, and nothing else changes.
pub open spec fn window_kept(old: LayerManager, new: LayerManager, id: LayerID) -> bool {
    &&& new.wf()
    &&& forall|i: LayerID| i != id ==> #[trigger] new.layer(i) == old.layer(i)
    &&& new.stack() == old.stack()
    &&& new.next_id() == old.next_id()
    &&& new.active() == old.active()
    &&& new.mouse_layer() == old.mouse_layer()
    &&& forall|i: LayerID| #[trigger] new.task_of(i) == old.task_of(i)
    &&& new.back() == old.back()
    &&& new.spec_screen() == old.spec_screen()
    &&& old.layer(id) is None ==> new.layer(id) is None
    &&& old.layer(id) matches Some(l) ==> {
        &&& new.layer(id) is Some
        &&& new.layer(id)->0.spec_id() == l.spec_id()
        &&& new.layer(id)->0.spec_position() == l.spec_position()
        &&& new.layer(id)->0.spec_draggable() == l.spec_draggable()
        &&& new.layer(id)->0.spec_window().frame_of() == l.spec_window().frame_of()
        &&& new.layer(id)->0.spec_window().wf()
    }
}

/// `new` is `old` with layer `id`'s window repainted, pixel (a, b) taking
/// the color `f(old window, a, b)`; nothing else changes, and nothing at
/// all when there is no such layer.
pub open spec fn window_redrawn(
    old: LayerManager,
    new: LayerManager,
    id: LayerID,
    f: spec_fn(Window, int, int) -> PixelColor,
) -> bool {
    &&& window_kept(old, new, id)
    &&& old.layer(id) matches Some(l) ==> forall|a: int, b: int|
        #[trigger] new.layer(id)->0.spec_window().color(a, b) == f(l.spec_window(), a, b)
}

/// Repainting twice repaints.
pub proof fn lemma_window_kept_trans(a: LayerManager, b: LayerManager, c: LayerManager, id: LayerID)
    requires
        window_kept(a, b, id),
        window_kept(b, c, id),
    ensures
        window_kept(a, c, id),
{
    assert forall|i: LayerID| i != id implies #[trigger] c.layer(i) == a.layer(i) by {
        assert(b.layer(i) == a.layer(i));
    }
    assert forall|i: LayerID| #[trigger] c.task_of(i) == a.task_of(i) by {
        assert(b.task_of(i) == a.task_of(i));
    }
}

/// The area of a window's own pixels, with no regard to its frame.
pub open spec fn raw_area(w: Window) -> (int, int, int, int) {
    (0, 0, w.spec_width(), w.spec_height())
}

/// Paints a rectangle of layer `id`'s window, in the window's own pixels.
fn fill_raw_in(lm: &mut LayerManager, id: LayerID, pos: Vector2D<i32>, size: Vector2D<i32>, color: PixelColor)
    requires
        old(lm).wf(),
        old(lm).layer(id) matches Some(l) ==> {
            &&& rect_in_area(raw_area(l.spec_window()), pos, size)
            &&& pos.x + size.x <= i32::MAX + 1
            &&& pos.y + size.y <= i32::MAX + 1
        },
    ensures
        window_redrawn(
            *old(lm),
            *final(lm),
            id,
            |w: Window, a: int, b: int| if in_rect(pos, size, a, b) { color } else { w.color(a, b) },
        ),
{
    proof {
        lm.lemma_layer_wf(id);
    }
    match lm.get_layer_mut(id) {
        Some(layer) => {
            let ghost l0 = *layer;
            let window: &mut Window = layer.get_window_mut();
            let ghost w0 = *window;
            let mut tmp: Window = Window::new(0, 0, PixelFormat::KPixelRGBResv8BitPerColor);
            core::mem::swap(window, &mut tmp);
            let mut ww = WindowWriter { w: tmp };
            let ghost ww0 = ww;
            fill_rectangle(&mut ww, &pos, &size, &color);
            let ghost ww1 = ww;
            *window = ww.w;
            assert(window.wf() && window.frame_of() == w0.frame_of());
            assert forall|a: int, b: int| #[trigger] window.color(a, b) == if in_rect(pos, size, a, b) { color } else { w0.color(a, b) } by {
                assert(ww1.pixel_at(a, b) == if in_rect(pos, size, a, b) { color } else { ww0.pixel_at(a, b) });
            }
            assert(layer.wf() && layer.spec_id() == l0.spec_id() && layer.spec_window().format() == l0.spec_window().format());
        },
        None => {},
    }
}


/// Paints a rectangle of layer `id`'s window given inside its frame (as
/// the window itself draws).
fn fill_framed_in(lm: &mut LayerManager, id: LayerID, pos: Vector2D<i32>, size: Vector2D<i32>, color: PixelColor)
    requires
        old(lm).wf(),
        old(lm).layer(id) matches Some(l) ==> {
            &&& rect_in_area(l.spec_window().area(), pos, size)
            &&& pos.x + size.x <= i32::MAX + 1
            &&& pos.y + size.y <= i32::MAX + 1
        },
    ensures
        window_redrawn(
            *old(lm),
            *final(lm),
            id,
            |w: Window, a: int, b: int|
                if in_rect(pos, size, a - origin_x(w.is_top_level()), b - origin_y(w.is_top_level())) {
                    color
                } else {
                    w.color(a, b)
                },
        ),
{
    proof {
        lm.lemma_layer_wf(id);
    }
    match lm.get_layer_mut(id) {
        Some(layer) => {
            let ghost l0 = *layer;
            let window: &mut Window = layer.get_window_mut();
            let ghost w0 = *window;
            fill_rectangle(window, &pos, &size, &color);
            assert(window.wf() && window.frame_of() == w0.frame_of());
            assert forall|a: int, b: int|
                #[trigger] window.color(a, b) == if in_rect(
                    pos,
                    size,
                    a - origin_x(w0.is_top_level()),
                    b - origin_y(w0.is_top_level()),
                ) {
                    color
                } else {
                    w0.color(a, b)
                } by {
                let x = a - origin_x(w0.is_top_level());
                let y = b - origin_y(w0.is_top_level());
                assert(window.pixel_at(x, y) == if in_rect(pos, size, x, y) { color } else { w0.pixel_at(x, y) });
            }
            assert(layer.wf() && layer.spec_id() == l0.spec_id() && layer.spec_window().format() == l0.spec_window().format());
        },
        None => {},
    }
}

/// Whether drawing `c` as `write_unicode` does paints (a, b): its glyph
/// for an ASCII character, two question marks for any other.
pub open spec fn unicode_covers(font: Seq<u8>, c: char, x: int, y: int, a: int, b: int) -> bool {
    ||| is_ascii_char(c) && glyph_covers(font, c, x, y, a, b)
    ||| !is_ascii_char(c) && (glyph_covers(font, '?', x, y, a, b) || glyph_covers(font, '?', x + 8, y, a, b))
}

/// Whether drawing `c` as `write_unicode` does stays in `area`.
pub open spec fn unicode_fits(font: Seq<u8>, c: char, x: int, y: int, area: (int, int, int, int)) -> bool {
    &&& is_ascii_char(c) ==> glyph_fits(font, c, x, y, area)
    &&& !is_ascii_char(c) ==> x + 8 <= i32::MAX && glyph_fits(font, '?', x, y, area) && glyph_fits(font, '?', x + 8, y, area)
}

/// Draws `c` into layer `id`'s window at (x, y), in the window's own
/// pixels, as `write_unicode` (or, with `ascii_only`, `write_ascii`) does.
fn char_raw_in(lm: &mut LayerManager, id: LayerID, font: &[u8], x: i32, y: i32, c: char, ascii_only: bool)
    requires
        old(lm).wf(),
        old(lm).layer(id) matches Some(l) ==> if ascii_only {
            glyph_fits(font@, c, x as int, y as int, raw_area(l.spec_window()))
        } else {
            unicode_fits(font@, c, x as int, y as int, raw_area(l.spec_window()))
        },
    ensures
        window_redrawn(
            *old(lm),
            *final(lm),
            id,
            |w: Window, a: int, b: int|
                if (ascii_only && glyph_covers(font@, c, x as int, y as int, a, b)) || (!ascii_only && unicode_covers(
                    font@,
                    c,
                    x as int,
                    y as int,
                    a,
                    b,
                )) {
                    color_white()
                } else {
                    w.color(a, b)
                },
        ),
{
    proof {
        lm.lemma_layer_wf(id);
    }
    match lm.get_layer_mut(id) {
        Some(layer) => {
            let ghost l0 = *layer;
            let window: &mut Window = layer.get_window_mut();
            let ghost w0 = *window;
            let mut tmp: Window = Window::new(0, 0, PixelFormat::KPixelRGBResv8BitPerColor);
            core::mem::swap(window, &mut tmp);
            let mut ww = WindowWriter { w: tmp };
            let ghost ww0 = ww;
            let white: PixelColor = PixelColor::new(0, 0, 0);
            if ascii_only {
                write_ascii(&mut ww, font, x, y, c, &white);
            } else {
                write_unicode(&mut ww, font, x, y, c, &white);
            }
            let ghost ww1 = ww;
            *window = ww.w;
            assert(window.wf() && window.frame_of() == w0.frame_of());
            assert forall|a: int, b: int|
                #[trigger] window.color(a, b) == if (ascii_only && glyph_covers(font@, c, x as int, y as int, a, b)) || (
                !ascii_only && unicode_covers(font@, c, x as int, y as int, a, b)) {
                    color_white()
                } else {
                    w0.color(a, b)
                } by {
                assert(ww1.pixel_at(a, b) == ww1.w.color(a, b));
                assert(ww0.pixel_at(a, b) == w0.color(a, b));
            }
            assert(layer.wf() && layer.spec_id() == l0.spec_id() && layer.spec_window().format() == l0.spec_window().format());
        },
        None => {},
    }
}

/// Draws the characters of `s` into layer `id`'s window from (x, y), in
/// the window's own pixels, as `write_string` does.
fn string_raw_in(lm: &mut LayerManager, id: LayerID, font: &[u8], x: i32, y: i32, s: &str)
    requires
        old(lm).wf(),
        old(lm).layer(id) matches Some(l) ==> text_fits(font@, s@, x as int, y as int, raw_area(l.spec_window())),
    ensures
        window_redrawn(
            *old(lm),
            *final(lm),
            id,
            |w: Window, a: int, b: int|
                if text_covers(font@, s@, x as int, y as int, a, b, s@.len() as int) {
                    color_white()
                } else {
                    w.color(a, b)
                },
        ),
{
    proof {
        lm.lemma_layer_wf(id);
    }
    match lm.get_layer_mut(id) {
        Some(layer) => {
            let ghost l0 = *layer;
            let window: &mut Window = layer.get_window_mut();
            let ghost w0 = *window;
            let mut tmp: Window = Window::new(0, 0, PixelFormat::KPixelRGBResv8BitPerColor);
            core::mem::swap(window, &mut tmp);
            let mut ww = WindowWriter { w: tmp };
            let ghost ww0 = ww;
            let white: PixelColor = PixelColor::new(0, 0, 0);
            write_string(&mut ww, font, x, y, s, &white);
            let ghost ww1 = ww;
            *window = ww.w;
            assert(window.wf() && window.frame_of() == w0.frame_of());
            assert forall|a: int, b: int|
                #[trigger] window.color(a, b) == if text_covers(font@, s@, x as int, y as int, a, b, s@.len() as int) {
                    color_white()
                } else {
                    w0.color(a, b)
                } by {
                assert(ww1.pixel_at(a, b) == ww1.w.color(a, b));
                assert(ww0.pixel_at(a, b) == w0.color(a, b));
            }
            assert(layer.wf() && layer.spec_id() == l0.spec_id() && layer.spec_window().format() == l0.spec_window().format());
        },
        None => {},
    }
}


/// Moves the part `src` of layer `id`'s window to `pos`, in the window's
/// own pixels.
fn move_in(lm: &mut LayerManager, id: LayerID, pos: Vector2D<i32>, src: Rectangle<i32>)
    requires
        old(lm).wf(),
        src.size.x >= 0,
        src.size.y >= 0,
        old(lm).layer(id) matches Some(l) ==> {
            &&& in_rect_area(raw_area(l.spec_window()), src.pos, src.size)
            &&& in_rect_area(raw_area(l.spec_window()), pos, src.size)
        },
    ensures
        window_redrawn(
            *old(lm),
            *final(lm),
            id,
            |w: Window, a: int, b: int|
                if pos.x <= a < pos.x + src.size.x && pos.y <= b < pos.y + src.size.y {
                    w.color(a - (pos.x - src.pos.x), b - (pos.y - src.pos.y))
                } else {
                    w.color(a, b)
                },
        ),
{
    proof {
        lm.lemma_layer_wf(id);
    }
    match lm.get_layer_mut(id) {
        Some(layer) => {
            let ghost l0 = *layer;
            let window: &mut Window = layer.get_window_mut();
            window.move_(pos, &src);
            assert(layer.wf() && layer.spec_id() == l0.spec_id() && layer.spec_window().format() == l0.spec_window().format());
        },
        None => {},
    }
}

/// Whether a window is a terminal's: top-level and large enough for the
/// text grid inside its frame.
pub open spec fn terminal_window(w: Window) -> bool {
    &&& w.wf()
    &&& w.is_top_level()
    &&& w.spec_width() >= 8 * COLUMNS + 16
    &&& w.spec_height() >= 16 * ROWS + 36
}

/// Whether a cursor lies on the grid (one cell before the first column and
/// one past the last allowed).
pub open spec fn cursor_ok(c: Vector2D<i32>) -> bool {
    -1 <= c.x <= COLUMNS && 0 <= c.y < ROWS
}

/// The window pixel of the top left corner of the cell at `c`.
pub open spec fn cursor_pixel(c: Vector2D<i32>) -> Vector2D<i32> {
    Vector2D { x: (8 + 8 * c.x) as i32, y: (28 + 16 * c.y) as i32 }
}

/// The cursor after a line feed: back to the first column, one row down
/// unless on the last row (where the text scrolls instead).
pub open spec fn new_line_cursor(c: Vector2D<i32>) -> Vector2D<i32> {
    Vector2D { x: 0, y: if c.y < ROWS - 1 { (c.y + 1) as i32 } else { c.y } }
}

/// The window after scrolling the text one row up with the cursor on row
/// `cy`: rows 1.. move up one row, then row `cy` is cleared.
pub open spec fn scroll_pixel(w: Window, cy: int, a: int, b: int) -> PixelColor {
    if 8 <= a < 8 + 8 * COLUMNS && 28 + 16 * cy <= b < 44 + 16 * cy {
        color_black()
    } else if 8 <= a < 8 + 8 * COLUMNS && 28 <= b < 28 + 16 * (ROWS - 1) {
        w.color(a, b + 16)
    } else {
        w.color(a, b)
    }
}

/// The window after a line feed with the cursor on row `cy`.
pub open spec fn new_line_pixel(w: Window, cy: int, a: int, b: int) -> PixelColor {
    if cy < ROWS - 1 {
        w.color(a, b)
    } else {
        scroll_pixel(w, cy, a, b)
    }
}

/// Whether the cursor must go to a new line before `c` is printed.
pub open spec fn wraps_before(c: Vector2D<i32>, ch: char) -> bool {
    if is_ascii_char(ch) {
        c.x == COLUMNS
    } else {
        c.x == COLUMNS - 1
    }
}

/// The cursor after printing `ch`.
pub open spec fn print_char_cursor(c: Vector2D<i32>, ch: char) -> Vector2D<i32> {
    if ch == '\n' {
        new_line_cursor(c)
    } else {
        let c1 = if wraps_before(c, ch) { new_line_cursor(c) } else { c };
        Vector2D { x: (c1.x + if is_ascii_char(ch) { 1int } else { 2int }) as i32, y: c1.y }
    }
}

/// The window after printing `ch` with the cursor at `c`.
pub open spec fn print_char_pixel(w: Window, font: Seq<u8>, c: Vector2D<i32>, ch: char, a: int, b: int) -> PixelColor {
    if ch == '\n' {
        new_line_pixel(w, c.y as int, a, b)
    } else {
        let c1 = if wraps_before(c, ch) { new_line_cursor(c) } else { c };
        let p = cursor_pixel(c1);
        if unicode_covers(font, ch, p.x as int, p.y as int, a, b) {
            color_white()
        } else if wraps_before(c, ch) {
            new_line_pixel(w, c.y as int, a, b)
        } else {
            w.color(a, b)
        }
    }
}

/// The colors of a window's pixels.
pub open spec fn colors_of(w: Window) -> spec_fn(int, int) -> PixelColor {
    |a: int, b: int| w.color(a, b)
}

/// The colors `col` after a line feed with the cursor on row `cy` (see
/// `new_line_pixel`).
pub open spec fn new_line_colors(col: spec_fn(int, int) -> PixelColor, cy: int) -> spec_fn(int, int) -> PixelColor {
    |a: int, b: int|
        if cy < ROWS - 1 {
            col(a, b)
        } else if 8 <= a < 8 + 8 * COLUMNS && 28 + 16 * cy <= b < 44 + 16 * cy {
            color_black()
        } else if 8 <= a < 8 + 8 * COLUMNS && 28 <= b < 28 + 16 * (ROWS - 1) {
            col(a, b + 16)
        } else {
            col(a, b)
        }
}

/// The colors `col` after printing `ch` with the cursor at `c` (see
/// `print_char_pixel`).
pub open spec fn print_char_colors(col: spec_fn(int, int) -> PixelColor, font: Seq<u8>, c: Vector2D<i32>, ch: char) -> spec_fn(
    int,
    int,
) -> PixelColor {
    |a: int, b: int|
        if ch == '\n' {
            new_line_colors(col, c.y as int)(a, b)
        } else {
            let c1 = if wraps_before(c, ch) { new_line_cursor(c) } else { c };
            let p = cursor_pixel(c1);
            if unicode_covers(font, ch, p.x as int, p.y as int, a, b) {
                color_white()
            } else if wraps_before(c, ch) {
                new_line_colors(col, c.y as int)(a, b)
            } else {
                col(a, b)
            }
        }
}

/// The colors `col` after printing the characters of `s` in order from
/// the cursor `c`.
pub open spec fn print_colors(col: spec_fn(int, int) -> PixelColor, font: Seq<u8>, c: Vector2D<i32>, s: Seq<char>) -> spec_fn(
    int,
    int,
) -> PixelColor
    decreases s.len(),
{
    if s.len() == 0 {
        col
    } else {
        print_colors(print_char_colors(col, font, c, s[0]), font, print_char_cursor(c, s[0]), s.drop_first())
    }
}

/// The colors `col` with the cursor's cell at `c` painted shown or hidden.
pub open spec fn cursor_colors(col: spec_fn(int, int) -> PixelColor, c: Vector2D<i32>, visible: bool) -> spec_fn(
    int,
    int,
) -> PixelColor {
    |a: int, b: int|
        if in_rect(cursor_pixel(c), Vector2D { x: 7i32, y: 15i32 }, a, b) {
            if visible {
                color_white()
            } else {
                color_black()
            }
        } else {
            col(a, b)
        }
}

/// The window `w` after `print(s)` from the cursor `c`: the cursor is
/// hidden, the characters are printed in turn (see `print_char_pixel`),
/// and the cursor is shown where printing left it.
pub open spec fn printed_colors(w: Window, font: Seq<u8>, c: Vector2D<i32>, s: Seq<char>) -> spec_fn(int, int) -> PixelColor {
    cursor_colors(print_colors(cursor_colors(colors_of(w), c, false), font, c, s), print_cursor(c, s), true)
}

/// Whether `ch` can be printed with the cursor at `c`: a character that
/// takes two cells does not start one past the last column.
pub open spec fn char_printable(c: Vector2D<i32>, ch: char) -> bool {
    ch == '\n' || is_ascii_char(ch) || c.x < COLUMNS
}

/// The cursor after printing the characters of `s` in order.
pub open spec fn print_cursor(c: Vector2D<i32>, s: Seq<char>) -> Vector2D<i32>
    decreases s.len(),
{
    if s.len() == 0 {
        c
    } else {
        print_cursor(print_char_cursor(c, s[0]), s.drop_first())
    }
}

/// Whether every character of `s` can be printed in turn from `c`.
pub open spec fn printable(c: Vector2D<i32>, s: Seq<char>) -> bool
    decreases s.len(),
{
    s.len() == 0 || (char_printable(c, s[0]) && printable(print_char_cursor(c, s[0]), s.drop_first()))
}

/// The request to redraw the rows that printing touched, from the cursor's
/// row before (`w`'s) to its row after (`cursor_after`).
pub open spec fn print_area_message(w: TerminalWriter, lm: LayerManager, cursor_after: Vector2D<i32>) -> Message {
    Message {
        m_type: MessageType::Layer(
            LayerMessage {
                layer_id: w.spec_layer_id(),
                op: LayerOperation::DrawArea(
                    Rectangle {
                        pos: Vector2D { x: TOP_LEFT_X, y: cursor_pixel(w.spec_cursor()).y },
                        size: Vector2D {
                            x: match lm.layer(w.spec_layer_id()) {
                                Some(l) => (l.spec_window().spec_width() - 8) as i32,
                                None => -8i32,
                            },
                            y: (cursor_pixel(cursor_after).y - cursor_pixel(w.spec_cursor()).y + 16) as i32,
                        },
                    },
                ),
                src_task_id: w.spec_task_id(),
            },
        ),
    }
}

/// The request to redraw the whole inner area of `w`'s window; none when
/// its layer is gone.
pub open spec fn redraw_message(w: TerminalWriter, lm: LayerManager) -> Option<Message> {
    match lm.layer(w.spec_layer_id()) {
        Some(l) => Some(
            Message {
                m_type: MessageType::Layer(
                    LayerMessage {
                        layer_id: w.spec_layer_id(),
                        op: LayerOperation::DrawArea(
                            Rectangle {
                                pos: Vector2D { x: TOP_LEFT_X, y: TOP_LEFT_Y },
                                size: if l.spec_window().is_top_level() {
                                    Vector2D {
                                        x: (l.spec_window().spec_width() - 8) as i32,
                                        y: (l.spec_window().spec_height() - 28) as i32,
                                    }
                                } else {
                                    Vector2D { x: 0i32, y: 0i32 }
                                },
                            },
                        ),
                        src_task_id: w.spec_task_id(),
                    },
                ),
            },
        ),
        None => None,
    }
}

/// Writes text into the window of a terminal's layer: a cursor on a grid
/// of `ROWS` by `COLUMNS` cells of 8 by 16 pixels inside the frame.
pub struct TerminalWriter {
    layer_id: LayerID,
    task_id: TaskID,
    cursor: Vector2D<i32>,
    is_cursor_visible: bool,
}

impl TerminalWriter {
    pub closed spec fn spec_layer_id(&self) -> LayerID {
        self.layer_id
    }

    pub closed spec fn spec_task_id(&self) -> TaskID {
        self.task_id
    }

    pub closed spec fn spec_cursor(&self) -> Vector2D<i32> {
        self.cursor
    }

    pub closed spec fn spec_cursor_visible(&self) -> bool {
        self.is_cursor_visible
    }

    /// Whether the writer's layer, when it exists, shows a terminal window.
    pub open spec fn window_ok(&self, lm: LayerManager) -> bool {
        lm.layer(self.spec_layer_id()) matches Some(l) ==> terminal_window(l.spec_window())
    }

    /// A writer for layer `layer_id` of task `task_id`, its cursor hidden
    /// at the top left cell.
    pub fn new(layer_id: LayerID, task_id: TaskID) -> (w: TerminalWriter)
        ensures
            w.spec_layer_id() == layer_id,
            w.spec_task_id() == task_id,
            w.spec_cursor() == (Vector2D { x: 0i32, y: 0i32 }),
            !w.spec_cursor_visible(),
    {
        TerminalWriter { layer_id, task_id, cursor: Vector2D::new(0, 0), is_cursor_visible: false }
    }

    pub fn layer_id(&self) -> (id: LayerID)
        ensures
            id == self.spec_layer_id(),
    {
        self.layer_id
    }

    /// The window pixel where the cursor's cell starts.
    pub fn calc_cursor_pos(&self) -> (p: Vector2D<i32>)
        requires
            cursor_ok(self.spec_cursor()),
        ensures
            p == cursor_pixel(self.spec_cursor()),
    {
        Vector2D::new(TOP_LEFT_X + 4 + 8 * self.cursor.x, TOP_LEFT_Y + 4 + 16 * self.cursor.y)
    }

    /// Whether a character still fits on the cursor's line.
    pub fn can_write_on_this_line(&self) -> (b: bool)
        ensures
            b == (self.spec_cursor().x < COLUMNS - 1),
    {
        self.cursor.x < COLUMNS - 1
    }

    /// Draws the cursor's cell (7 by 15 pixels) shown or hidden.
    pub fn draw_cursor(&mut self, visible: bool, lm: &mut LayerManager)
        requires
            old(lm).wf(),
            cursor_ok(old(self).spec_cursor()),
            old(self).window_ok(*old(lm)),
        ensures
            *final(self) == *old(self),
            window_redrawn(
                *old(lm),
                *final(lm),
                old(self).spec_layer_id(),
                |w: Window, a: int, b: int|
                    if in_rect(cursor_pixel(old(self).spec_cursor()), Vector2D { x: 7i32, y: 15i32 }, a, b) {
                        if visible { color_white() } else { color_black() }
                    } else {
                        w.color(a, b)
                    },
            ),
    {
        let color: PixelColor = if visible { PixelColor::new(0, 0, 0) } else { PixelColor::new(255, 255, 255) };
        let pos: Vector2D<i32> = self.calc_cursor_pos();
        fill_raw_in(lm, self.layer_id, pos, Vector2D::new(7, 15), color);
    }

    /// Shows the cursor if it was hidden and hides it if it was shown;
    /// gives back the area redrawn.
    pub fn blink_cursor(&mut self, lm: &mut LayerManager) -> (r: Rectangle<i32>)
        requires
            old(lm).wf(),
            cursor_ok(old(self).spec_cursor()),
            old(self).window_ok(*old(lm)),
        ensures
            final(self).spec_cursor_visible() == !old(self).spec_cursor_visible(),
            final(self).spec_cursor() == old(self).spec_cursor(),
            final(self).spec_layer_id() == old(self).spec_layer_id(),
            final(self).spec_task_id() == old(self).spec_task_id(),
            r == (Rectangle { pos: cursor_pixel(old(self).spec_cursor()), size: Vector2D { x: 7i32, y: 15i32 } }),
            window_redrawn(
                *old(lm),
                *final(lm),
                old(self).spec_layer_id(),
                |w: Window, a: int, b: int|
                    if in_rect(cursor_pixel(old(self).spec_cursor()), Vector2D { x: 7i32, y: 15i32 }, a, b) {
                        if !old(self).spec_cursor_visible() { color_white() } else { color_black() }
                    } else {
                        w.color(a, b)
                    },
            ),
    {
        self.is_cursor_visible = !self.is_cursor_visible;
        let visible: bool = self.is_cursor_visible;
        self.draw_cursor(visible, lm);
        Rectangle::new(self.calc_cursor_pos(), Vector2D::new(7, 15))
    }

    /// Scrolls the text one row up and clears the cursor's row.
    pub fn scroll1(&mut self, lm: &mut LayerManager)
        requires
            old(lm).wf(),
            cursor_ok(old(self).spec_cursor()),
            old(self).window_ok(*old(lm)),
        ensures
            *final(self) == *old(self),
            window_redrawn(
                *old(lm),
                *final(lm),
                old(self).spec_layer_id(),
                |w: Window, a: int, b: int| scroll_pixel(w, old(self).spec_cursor().y as int, a, b),
            ),
    {
        let ghost lm0 = *lm;
        let move_src = Rectangle::new(
            Vector2D::new(TOP_LEFT_X + 4, TOP_LEFT_Y + 4 + 16),
            Vector2D::new(8 * COLUMNS, 16 * (ROWS - 1)),
        );
        move_in(lm, self.layer_id, Vector2D::new(TOP_LEFT_X + 4, TOP_LEFT_Y + 4), move_src);
        let ghost lm1 = *lm;
        fill_framed_in(lm, self.layer_id, Vector2D::new(4, 4 + 16 * self.cursor.y), Vector2D::new(8 * COLUMNS, 16), PixelColor::new(255, 255, 255));
        proof {
            let id = self.layer_id;
            if lm0.layer(id) is Some {
                let w0 = lm0.layer(id)->0.spec_window();
                let w1 = lm1.layer(id)->0.spec_window();
                let w2 = lm.layer(id)->0.spec_window();
                assert forall|a: int, b: int| #[trigger] w2.color(a, b) == scroll_pixel(w0, self.cursor.y as int, a, b) by {
                    assert(w2.color(a, b) == if in_rect(
                        Vector2D { x: 4i32, y: (4 + 16 * self.cursor.y) as i32 },
                        Vector2D { x: (8 * COLUMNS) as i32, y: 16i32 },
                        a - origin_x(w1.is_top_level()),
                        b - origin_y(w1.is_top_level()),
                    ) {
                        color_black()
                    } else {
                        w1.color(a, b)
                    });
                    assert(w1.color(a, b) == if 8 <= a < 8 + 8 * COLUMNS && 28 <= b < 28 + 16 * (ROWS - 1) {
                        w0.color(a, b + 16)
                    } else {
                        w0.color(a, b)
                    });
                }
            }
        }
    }

    /// Moves the cursor to the start of the next line, scrolling the text
    /// when it is on the last row.
    pub fn new_line(&mut self, lm: &mut LayerManager)
        requires
            old(lm).wf(),
            cursor_ok(old(self).spec_cursor()),
            old(self).window_ok(*old(lm)),
        ensures
            final(self).spec_cursor() == new_line_cursor(old(self).spec_cursor()),
            final(self).spec_cursor_visible() == old(self).spec_cursor_visible(),
            final(self).spec_layer_id() == old(self).spec_layer_id(),
            final(self).spec_task_id() == old(self).spec_task_id(),
            window_redrawn(
                *old(lm),
                *final(lm),
                old(self).spec_layer_id(),
                |w: Window, a: int, b: int| new_line_pixel(w, old(self).spec_cursor().y as int, a, b),
            ),
    {
        self.cursor.x = 0;
        if self.cursor.y < ROWS - 1 {
            self.cursor.y = self.cursor.y + 1;
            proof {
                lm.lemma_layer_wf(self.layer_id);
            }
        } else {
            self.scroll1(lm);
        }
    }

    /// Prints `c` at the cursor and moves the cursor past it (a character
    /// other than ASCII takes two cells, drawn as two question marks); a
    /// line feed starts a new line. Does nothing when the layer is gone.
    pub fn print_char(&mut self, c: char, lm: &mut LayerManager, font: &[u8])
        requires
            old(lm).wf(),
            cursor_ok(old(self).spec_cursor()),
            old(self).window_ok(*old(lm)),
            old(lm).layer(old(self).spec_layer_id()) is Some ==> char_printable(old(self).spec_cursor(), c),
        ensures
            final(self).spec_cursor_visible() == old(self).spec_cursor_visible(),
            final(self).spec_layer_id() == old(self).spec_layer_id(),
            final(self).spec_task_id() == old(self).spec_task_id(),
            old(lm).layer(old(self).spec_layer_id()) is None ==> *final(self) == *old(self) && *final(lm) == *old(lm),
            old(lm).layer(old(self).spec_layer_id()) is Some ==> {
                &&& final(self).spec_cursor() == print_char_cursor(old(self).spec_cursor(), c)
                &&& window_redrawn(
                    *old(lm),
                    *final(lm),
                    old(self).spec_layer_id(),
                    |w: Window, a: int, b: int| print_char_pixel(w, font@, old(self).spec_cursor(), c, a, b),
                )
            },
            cursor_ok(final(self).spec_cursor()),
            final(self).window_ok(*final(lm)),
    {
        if lm.get_layer(self.layer_id).is_none() {
            return ;
        }
        let ghost lm0 = *lm;
        let ghost c0 = self.cursor;
        if c == '\n' {
            self.new_line(lm);
            return ;
        }
        let ascii: bool = (c as u32) < 128;
        let wraps: bool = if ascii { self.cursor.x == COLUMNS } else { self.cursor.x == COLUMNS - 1 };
        if wraps {
            self.new_line(lm);
        } else {
            proof {
                lm.lemma_layer_wf(self.layer_id);
            }
        }
        let ghost lm1 = *lm;
        let pos: Vector2D<i32> = self.calc_cursor_pos();
        proof {
            let w = lm1.layer(self.layer_id)->0.spec_window();
            let area = raw_area(w);
            crate::console::lemma_cell_fits(font@, c, pos.x as int, pos.y as int, area);
            crate::console::lemma_cell_fits(font@, '?', pos.x as int, pos.y as int, area);
            if !ascii {
                crate::console::lemma_cell_fits(font@, '?', pos.x + 8, pos.y as int, area);
            }
        }
        char_raw_in(lm, self.layer_id, font, pos.x, pos.y, c, false);
        if ascii {
            self.cursor.x = self.cursor.x + 1;
        } else {
            self.cursor.x = self.cursor.x + 2;
        }
        proof {
            let id = self.layer_id;
            let w0 = lm0.layer(id)->0.spec_window();
            let w1 = lm1.layer(id)->0.spec_window();
            let w2 = lm.layer(id)->0.spec_window();
            assert forall|a: int, b: int| #[trigger] w2.color(a, b) == print_char_pixel(w0, font@, c0, c, a, b) by {
                assert(w2.color(a, b) == if unicode_covers(font@, c, pos.x as int, pos.y as int, a, b) {
                    color_white()
                } else {
                    w1.color(a, b)
                });
                if wraps {
                    assert(w1.color(a, b) == new_line_pixel(w0, c0.y as int, a, b));
                } else {
                    assert(w1.color(a, b) == w0.color(a, b));
                }
            }
        }
    }

    /// Moves the cursor one cell back and clears that cell.
    pub fn back_space(&mut self, lm: &mut LayerManager)
        requires
            old(lm).wf(),
            cursor_ok(old(self).spec_cursor()),
            old(self).spec_cursor().x >= 0,
            old(self).window_ok(*old(lm)),
        ensures
            final(self).spec_cursor() == (Vector2D { x: (old(self).spec_cursor().x - 1) as i32, y: old(self).spec_cursor().y }),
            final(self).spec_cursor_visible() == old(self).spec_cursor_visible(),
            final(self).spec_layer_id() == old(self).spec_layer_id(),
            final(self).spec_task_id() == old(self).spec_task_id(),
            window_redrawn(
                *old(lm),
                *final(lm),
                old(self).spec_layer_id(),
                |w: Window, a: int, b: int|
                    if in_rect(cursor_pixel(final(self).spec_cursor()), Vector2D { x: 8i32, y: 16i32 }, a, b) {
                        color_black()
                    } else {
                        w.color(a, b)
                    },
            ),
    {
        self.cursor.x = self.cursor.x - 1;
        let pos: Vector2D<i32> = self.calc_cursor_pos();
        fill_raw_in(lm, self.layer_id, pos, Vector2D::new(8, 16), PixelColor::new(255, 255, 255));
    }

    /// Writes `ascii` at the cursor and moves the cursor one cell on; the
    /// line must have room for it.
    pub fn input_ascii(&mut self, ascii: char, lm: &mut LayerManager, font: &[u8])
        requires
            old(lm).wf(),
            cursor_ok(old(self).spec_cursor()),
            old(self).spec_cursor().x < COLUMNS - 1,
            old(self).window_ok(*old(lm)),
        ensures
            final(self).spec_cursor() == (Vector2D { x: (old(self).spec_cursor().x + 1) as i32, y: old(self).spec_cursor().y }),
            final(self).spec_cursor_visible() == old(self).spec_cursor_visible(),
            final(self).spec_layer_id() == old(self).spec_layer_id(),
            final(self).spec_task_id() == old(self).spec_task_id(),
            window_redrawn(
                *old(lm),
                *final(lm),
                old(self).spec_layer_id(),
                |w: Window, a: int, b: int|
                    if glyph_covers(
                        font@,
                        ascii,
                        cursor_pixel(old(self).spec_cursor()).x as int,
                        cursor_pixel(old(self).spec_cursor()).y as int,
                        a,
                        b,
                    ) {
                        color_white()
                    } else {
                        w.color(a, b)
                    },
            ),
    {
        let pos: Vector2D<i32> = self.calc_cursor_pos();
        proof {
            if lm.layer(self.layer_id) is Some {
                crate::console::lemma_cell_fits(
                    font@,
                    ascii,
                    pos.x as int,
                    pos.y as int,
                    raw_area(lm.layer(self.layer_id)->0.spec_window()),
                );
            }
        }
        char_raw_in(lm, self.layer_id, font, pos.x, pos.y, ascii, true);
        self.cursor.x = self.cursor.x + 1;
    }

    /// Clears the text area and puts the cursor at the top left cell.
    pub fn clear(&mut self, lm: &mut LayerManager)
        requires
            old(lm).wf(),
            old(self).window_ok(*old(lm)),
        ensures
            final(self).spec_cursor() == (Vector2D { x: 0i32, y: 0i32 }),
            final(self).spec_cursor_visible() == old(self).spec_cursor_visible(),
            final(self).spec_layer_id() == old(self).spec_layer_id(),
            final(self).spec_task_id() == old(self).spec_task_id(),
            window_redrawn(
                *old(lm),
                *final(lm),
                old(self).spec_layer_id(),
                |w: Window, a: int, b: int|
                    if 8 <= a < 8 + 8 * COLUMNS && 28 <= b < 28 + 16 * ROWS { color_black() } else { w.color(a, b) },
            ),
    {
        fill_framed_in(lm, self.layer_id, Vector2D::new(4, 4), Vector2D::new(8 * COLUMNS, 16 * ROWS), PixelColor::new(255, 255, 255));
        self.cursor = Vector2D::new(0, 0);
    }

    /// Replaces the text after the prompt on the cursor's line with `line`
    /// and puts the cursor after it; gives back the area redrawn.
    pub fn history_up_down(&mut self, line: &str, lm: &mut LayerManager, font: &[u8]) -> (r: Rectangle<i32>)
        requires
            old(lm).wf(),
            cursor_ok(old(self).spec_cursor()),
            old(self).window_ok(*old(lm)),
            line.spec_bytes().len() < i32::MAX,
            old(lm).layer(old(self).spec_layer_id()) matches Some(l) ==> text_fits(
                font@,
                line@,
                16,
                28 + 16 * old(self).spec_cursor().y,
                raw_area(l.spec_window()),
            ),
        ensures
            final(self).spec_cursor() == (Vector2D { x: (line.spec_bytes().len() + 1) as i32, y: old(self).spec_cursor().y }),
            final(self).spec_cursor_visible() == old(self).spec_cursor_visible(),
            final(self).spec_layer_id() == old(self).spec_layer_id(),
            final(self).spec_task_id() == old(self).spec_task_id(),
            r == (Rectangle {
                pos: Vector2D { x: 16i32, y: (28 + 16 * old(self).spec_cursor().y) as i32 },
                size: Vector2D { x: (8 * (COLUMNS - 1)) as i32, y: 16i32 },
            }),
            window_redrawn(
                *old(lm),
                *final(lm),
                old(self).spec_layer_id(),
                |w: Window, a: int, b: int|
                    if text_covers(font@, line@, 16, 28 + 16 * old(self).spec_cursor().y, a, b, line@.len() as int) {
                        color_white()
                    } else if in_rect(r.pos, r.size, a, b) {
                        color_black()
                    } else {
                        w.color(a, b)
                    },
            ),
    {
        let ghost lm0 = *lm;
        self.cursor.x = 1;
        let first_pos: Vector2D<i32> = self.calc_cursor_pos();
        let draw_area = Rectangle::new(first_pos, Vector2D::new(8 * (COLUMNS - 1), 16));
        fill_raw_in(lm, self.layer_id, draw_area.pos, draw_area.size, PixelColor::new(255, 255, 255));
        let ghost lm1 = *lm;
        string_raw_in(lm, self.layer_id, font, first_pos.x, first_pos.y, line);
        self.cursor.x = line.len() as i32 + 1;
        draw_area
    }

    /// Prints `s` (hiding the cursor meanwhile) and asks the main task to
    /// redraw the rows it touched.
    pub fn print(&mut self, s: &str, lm: &mut LayerManager, font: &[u8], tm: &mut TaskManager)
        requires
            old(lm).wf(),
            old(tm).wf(),
            old(tm).spec_main_task_id().0 < old(tm).task_list().len(),
            cursor_ok(old(self).spec_cursor()),
            old(self).window_ok(*old(lm)),
            old(lm).layer(old(self).spec_layer_id()) is Some ==> printable(old(self).spec_cursor(), s@),
        ensures
            final(self).spec_cursor_visible() == old(self).spec_cursor_visible(),
            final(self).spec_layer_id() == old(self).spec_layer_id(),
            final(self).spec_task_id() == old(self).spec_task_id(),
            final(self).spec_cursor() == if old(lm).layer(old(self).spec_layer_id()) is Some {
                print_cursor(old(self).spec_cursor(), s@)
            } else {
                old(self).spec_cursor()
            },
            cursor_ok(final(self).spec_cursor()),
            final(self).window_ok(*final(lm)),
            window_redrawn(
                *old(lm),
                *final(lm),
                old(self).spec_layer_id(),
                |w: Window, a: int, b: int| printed_colors(w, font@, old(self).spec_cursor(), s@)(a, b),
            ),
            old(tm).message_sent(
                *final(tm),
                old(tm).spec_main_task_id(),
                print_area_message(*old(self), *old(lm), final(self).spec_cursor()),
            ),
    {
        let ghost lm0 = *lm;
        let ghost c0 = self.cursor;
        let id: LayerID = self.layer_id;
        let prev_cursor: Vector2D<i32> = self.calc_cursor_pos();
        self.draw_cursor(false, lm);
        let ghost hidden = cursor_colors(colors_of(lm0.layer(id)->0.spec_window()), c0, false);
        proof {
            if lm0.layer(id) is Some {
                assert(colors_of(lm.layer(id)->0.spec_window()) =~= hidden);
            }
        }
        let chars: Vec<char> = crate::font::chars_of(s);
        let mut i: usize = 0;
        assert(chars@.skip(0) =~= chars@);
        while i < chars.len()
            invariant
                0 <= i <= chars@.len(),
                chars@ == s@,
                self.layer_id == id,
                self.task_id == old(self).task_id,
                self.is_cursor_visible == old(self).is_cursor_visible,
                lm.wf(),
                window_kept(lm0, *lm, id),
                self.window_ok(*lm),
                cursor_ok(self.cursor),
                lm0.layer(id) is Some ==> print_cursor(self.cursor, chars@.skip(i as int)) == print_cursor(c0, s@),
                lm0.layer(id) is Some ==> printable(self.cursor, chars@.skip(i as int)),
                lm0.layer(id) is None ==> self.cursor == c0,
                lm0.layer(id) is Some ==> print_colors(
                    colors_of(lm.layer(id)->0.spec_window()),
                    font@,
                    self.cursor,
                    chars@.skip(i as int),
                ) == print_colors(hidden, font@, c0, s@),
            decreases chars.len() - i,
        {
            let c: char = chars[i];
            proof {
                assert(chars@.skip(i as int).drop_first() =~= chars@.skip(i + 1));
                assert(chars@.skip(i as int)[0] == c);
            }
            let ghost lmb = *lm;
            let ghost cb = self.cursor;
            self.print_char(c, lm, font);
            proof {
                lemma_window_kept_trans(lm0, lmb, *lm, id);
                if lm0.layer(id) is Some {
                    let wb = lmb.layer(id)->0.spec_window();
                    let wa = lm.layer(id)->0.spec_window();
                    assert(colors_of(wa) =~= print_char_colors(colors_of(wb), font@, cb, c)) by {
                        assert forall|a: int, b: int| #[trigger] colors_of(wa)(a, b) == print_char_colors(
                            colors_of(wb),
                            font@,
                            cb,
                            c,
                        )(a, b) by {
                            assert(wa.color(a, b) == print_char_pixel(wb, font@, cb, c, a, b));
                        }
                    }
                }
            }
            i = i + 1;
        }
        proof {
            assert(chars@.skip(chars@.len() as int) =~= Seq::<char>::empty());
        }
        let ghost lm2 = *lm;
        self.draw_cursor(true, lm);
        proof {
            lemma_window_kept_trans(lm0, lm2, *lm, id);
            if lm0.layer(id) is Some {
                let w2 = lm2.layer(id)->0.spec_window();
                assert(colors_of(w2) == print_colors(hidden, font@, c0, s@));
                assert forall|a: int, b: int| #[trigger] lm.layer(id)->0.spec_window().color(a, b) == printed_colors(
                    lm0.layer(id)->0.spec_window(),
                    font@,
                    c0,
                    s@,
                )(a, b) by {
                    assert(colors_of(w2)(a, b) == w2.color(a, b));
                }
            }
        }
        let current_cursor: Vector2D<i32> = self.calc_cursor_pos();
        let width: i32 = match lm.get_layer(id) {
            Some(l) => {
                proof {
                    lm.lemma_layer_wf(id);
                }
                l.get_window_ref().inner_size().x
            },
            None => -TOP_LEFT_X - 4,
        };
        let draw_pos = Vector2D::new(TOP_LEFT_X, prev_cursor.y);
        let draw_size = Vector2D::new(width, current_cursor.y - prev_cursor.y + 16);
        let msg = Message::new(
            MessageType::Layer(
                LayerMessage { layer_id: id, op: LayerOperation::DrawArea(Rectangle::new(draw_pos, draw_size)), src_task_id: self.task_id },
            ),
        );
        let main: TaskID = tm.main_task_id();
        let _ = tm.send_message(main, msg);
    }

    /// Asks the main task to redraw the whole inner area of the window;
    /// does nothing when the layer is gone.
    pub fn redraw(&mut self, lm: &LayerManager, tm: &mut TaskManager)
        requires
            lm.wf(),
            old(tm).wf(),
        ensures
            *final(self) == *old(self),
            final(tm).wf(),
            redraw_message(*old(self), *lm) is None ==> *final(tm) == *old(tm),
            redraw_message(*old(self), *lm) matches Some(m) ==> old(tm).message_sent(
                *final(tm),
                old(tm).spec_main_task_id(),
                m,
            ),
    {
        let size: Vector2D<i32> = match lm.get_layer(self.layer_id) {
            None => {
                return ;
            },
            Some(l) => {
                proof {
                    lm.lemma_layer_wf(self.layer_id);
                }
                l.get_window_ref().inner_size()
            },
        };
        let draw_area = Rectangle::new(Vector2D::new(TOP_LEFT_X, TOP_LEFT_Y), size);
        let msg = Message::new(
            MessageType::Layer(LayerMessage { layer_id: self.layer_id, op: LayerOperation::DrawArea(draw_area), src_task_id: self.task_id }),
        );
        let main: TaskID = tm.main_task_id();
        let _ = tm.send_message(main, msg);
    }
}

} // verus!
