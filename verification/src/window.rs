use crate::frame_buffer::{config_ok, copy_region, in_rect_area, FrameBuffer};
use crate::font::{text_covers, text_fits, write_string};
use crate::graphics::{fill_rectangle, in_area, in_rect, rect_in_area, PixelColor, PixelWriter, Rectangle, Vector2D};
use crate::shared::{FrameBufferConfig, PixelFormat};
use vstd::prelude::*;

verus! {

/// The left and top margins of a titled window's inner area.
pub const TOP_LEFT_MARGIN_X: i32 = 4;

pub const TOP_LEFT_MARGIN_Y: i32 = 24;

/// The right and bottom margins of a titled window's inner area.
pub const BOTTOM_RIGHT_MARGIN_X: i32 = 4;

pub const BOTTOM_RIGHT_MARGIN_Y: i32 = 4;

/// A plain window, or a top-level window with a frame and a title bar.
pub enum Type {
    Normal,
    TopLevel { title: String },
}

/// A window: its pixels, and a frame buffer that mirrors them in the
/// screen's pixel format.
pub struct Window {
    width: usize,
    height: usize,
    data: Vec<PixelColor>,
    shadow_buffer: FrameBuffer,
    transparent_color: Option<PixelColor>,
    type_: Type,
}

/// The parts of a window that the mouse tells apart.
#[derive(Clone, Copy, Debug, PartialEq, Eq, Structural)]
pub enum WindowRegion {
    TitleBar,
    CloseButton,
    Border,
    Other,
}

/// The part of a window of `w` by `h` that the point (x, y) lies in: a
/// top-level window has a border 2 pixels wide, a title bar 24 pixels high
/// and a close button of 16 by 14 pixels 5 pixels from its top right
/// corner; a plain window is all `Other`.
pub open spec fn window_region(top_level: bool, w: int, h: int, x: int, y: int) -> WindowRegion {
    if !top_level {
        WindowRegion::Other
    } else if x < 2 || w - 2 <= x || y < 2 || h - 2 <= y {
        WindowRegion::Border
    } else if y < 24 {
        if w - 21 <= x < w - 5 && 5 <= y < 19 {
            WindowRegion::CloseButton
        } else {
            WindowRegion::TitleBar
        }
    } else {
        WindowRegion::Other
    }
}

/// The black of a new window.
pub open spec fn black() -> PixelColor {
    PixelColor { r: 0, g: 0, b: 0 }
}

/// The configuration of a window's shadow buffer.
pub open spec fn shadow_config(width: int, height: int, format: PixelFormat) -> FrameBufferConfig {
    FrameBufferConfig {
        pixels_per_scan_line: width as u32,
        horizontal_resolution: width as u32,
        vertical_resolution: height as u32,
        pixel_format: format,
    }
}

/// Whether a window of this size can be made: the sizes fit in an `i32` and
/// its shadow buffer fits in memory.
pub open spec fn window_size_ok(width: int, height: int) -> bool {
    &&& 0 <= width <= i32::MAX
    &&& 0 <= height <= i32::MAX
    &&& 4 * width * height <= usize::MAX
}

impl Window {
    pub closed spec fn spec_width(&self) -> int {
        self.width as int
    }

    pub closed spec fn spec_height(&self) -> int {
        self.height as int
    }

    pub closed spec fn format(&self) -> PixelFormat {
        self.shadow_buffer.spec_config().pixel_format
    }

    pub closed spec fn spec_transparent_color(&self) -> Option<PixelColor> {
        self.transparent_color
    }

    pub closed spec fn is_top_level(&self) -> bool {
        self.type_ is TopLevel
    }

    /// The title of a top-level window.
    pub closed spec fn title(&self) -> Seq<char> {
        match self.type_ {
            Type::TopLevel { title } => title@,
            Type::Normal => Seq::empty(),
        }
    }

    /// The color of the window's pixel (x, y); black outside the window.
    pub closed spec fn color(&self, x: int, y: int) -> PixelColor {
        self.shadow_buffer.pixel(x, y)
    }

    /// The shadow buffer shows the window's own pixels.
    pub closed spec fn wf(&self) -> bool {
        &&& window_size_ok(self.width as int, self.height as int)
        &&& self.shadow_buffer.wf()
        &&& self.shadow_buffer.spec_config() == shadow_config(
            self.width as int,
            self.height as int,
            self.shadow_buffer.spec_config().pixel_format,
        )
        &&& self.data@.len() == self.width * self.height
        &&& forall|x: int, y: int|
            0 <= x < self.width && 0 <= y < self.height ==> #[trigger] self.data@[y * self.width + x]
                == self.shadow_buffer.pixel(x, y)
    }

    /// A well-formed window's size fits in an `i32`.
    pub proof fn lemma_size_ok(&self)
        requires
            self.wf(),
        ensures
            window_size_ok(self.spec_width(), self.spec_height()),
    {
    }

    proof fn lemma_area(w: int, h: int)
        requires
            window_size_ok(w, h),
        ensures
            0 <= w * h <= usize::MAX,
    {
        assert(0 <= w * h <= 4 * w * h) by (nonlinear_arith)
            requires
                0 <= w,
                0 <= h,
        ;
    }

    proof fn lemma_index(w: int, h: int, x: int, y: int)
        requires
            0 <= x < w,
            0 <= y < h,
        ensures
            0 <= y * w + x < w * h,
            0 <= y * w,
    {
        assert(0 <= y * w) by (nonlinear_arith)
            requires
                0 <= y,
                0 <= w,
        ;
        assert(y * w + x < w * h) by (nonlinear_arith)
            requires
                0 <= x < w,
                0 <= y < h,
        ;
    }

    proof fn lemma_index_unique(w: int, x: int, y: int, a: int, b: int)
        requires
            0 <= x < w,
            0 <= a < w,
            0 <= y,
            0 <= b,
            y * w + x == b * w + a,
        ensures
            x == a && y == b,
    {
        if y < b {
            assert(y * w + x < b * w + a) by (nonlinear_arith)
                requires
                    0 <= x < w,
                    0 <= a,
                    y < b,
            ;
        } else if y > b {
            assert(b * w + a < y * w + x) by (nonlinear_arith)
                requires
                    0 <= a < w,
                    0 <= x,
                    b < y,
            ;
        }
    }

    fn make(width: usize, height: usize, shadow_format: PixelFormat, type_: Type) -> (w: Window)
        requires
            window_size_ok(width as int, height as int),
        ensures
            w.wf(),
            w.spec_width() == width,
            w.spec_height() == height,
            w.format() == shadow_format,
            w.spec_transparent_color() is None,
            w.type_ == type_,
            forall|x: int, y: int| #[trigger] w.color(x, y) == black(),
    {
        proof {
            Self::lemma_area(width as int, height as int);
        }
        let n: usize = width * height;
        let data: Vec<PixelColor> = vec![PixelColor::new(0, 0, 0); n];
        let config = FrameBufferConfig::new(width as u32, height as u32, 0, shadow_format);
        let shadow_buffer = FrameBuffer::new(config);
        let w = Window { width, height, data, shadow_buffer, transparent_color: None, type_ };
        assert forall|x: int, y: int|
            0 <= x < width && 0 <= y < height implies #[trigger] w.data@[y * width + x]
                == w.shadow_buffer.pixel(x, y) by {
            Self::lemma_index(width as int, height as int, x, y);
        }
        w
    }

    /// A black window of the given size whose shadow buffer uses `shadow_format`.
    pub fn new(width: usize, height: usize, shadow_format: PixelFormat) -> (w: Window)
        requires
            window_size_ok(width as int, height as int),
        ensures
            w.wf(),
            w.spec_width() == width,
            w.spec_height() == height,
            w.format() == shadow_format,
            w.spec_transparent_color() is None,
            !w.is_top_level(),
            forall|x: int, y: int| #[trigger] w.color(x, y) == black(),
    {
        Window::make(width, height, shadow_format, Type::Normal)
    }

    /// Sets the window's pixel (x, y) in both of its copies.
    fn write_w(&mut self, x: i32, y: i32, color: &PixelColor)
        requires
            old(self).wf(),
            0 <= x < old(self).spec_width(),
            0 <= y < old(self).spec_height(),
        ensures
            final(self).wf(),
            final(self).spec_width() == old(self).spec_width(),
            final(self).spec_height() == old(self).spec_height(),
            final(self).format() == old(self).format(),
            final(self).spec_transparent_color() == old(self).spec_transparent_color(),
            final(self).type_ == old(self).type_,
            forall|a: int, b: int|
                #[trigger] final(self).color(a, b) == if a == x && b == y {
                    *color
                } else {
                    old(self).color(a, b)
                },
    {
        let ghost old_self = *self;
        proof {
            Self::lemma_index(self.width as int, self.height as int, x as int, y as int);
            Self::lemma_area(self.width as int, self.height as int);
        }
        let i: usize = y as usize * self.width + x as usize;
        self.data.set(i, *color);
        let ghost prev_shadow = self.shadow_buffer;
        self.shadow_buffer.writer().write(x, y, color);
        assert forall|a: int, b: int|
            #[trigger] self.color(a, b) == if a == x && b == y {
                *color
            } else {
                old_self.color(a, b)
            } by {
            assert(self.shadow_buffer.pixel(a, b) == self.shadow_buffer.spec_writer().pixel_at(a, b));
            assert(prev_shadow.pixel(a, b) == prev_shadow.spec_writer().pixel_at(a, b));
        }
        assert forall|a: int, b: int|
            0 <= a < self.width && 0 <= b < self.height implies #[trigger] self.data@[b * self.width
                + a] == self.shadow_buffer.pixel(a, b) by {
            Self::lemma_index(self.width as int, self.height as int, a, b);
            if a != x || b != y {
                if b * self.width + a == i {
                    Self::lemma_index_unique(self.width as int, x as int, y as int, a, b);
                }
                assert(old_self.data@[b * self.width + a] == old_self.shadow_buffer.pixel(a, b));
            }
        }
    }

    /// The window's width in pixels, frame included.
    pub fn width(&self) -> (w: usize)
        ensures
            w == self.spec_width(),
    {
        self.width
    }

    /// The window's height in pixels, frame included.
    pub fn height(&self) -> (h: usize)
        ensures
            h == self.spec_height(),
    {
        self.height
    }

    /// The window's size in pixels.
    pub fn size(&self) -> (s: Vector2D<usize>)
        ensures
            s.x == self.spec_width(),
            s.y == self.spec_height(),
    {
        Vector2D::new(self.width, self.height)
    }

    /// From now on, pixels of color `c` are not drawn to the screen.
    pub fn set_transparent_color(&mut self, c: PixelColor)
        requires
            old(self).wf(),
        ensures
            final(self).wf(),
            final(self).spec_transparent_color() == Some(c),
            final(self).spec_width() == old(self).spec_width(),
            final(self).spec_height() == old(self).spec_height(),
            final(self).format() == old(self).format(),
            final(self).is_top_level() == old(self).is_top_level(),
            final(self).title() == old(self).title(),
            forall|a: int, b: int| #[trigger] final(self).color(a, b) == old(self).color(a, b),
    {
        self.transparent_color = Some(c);
    }

    /// The window itself, as the writer that draws into it.
    pub fn writer(&mut self) -> (w: &mut Window)
        ensures
            *w == *old(self),
            *final(self) == *final(w),
    {
        self
    }

    /// Which part of the window the point `pos` (relative to the window's
    /// top left corner) lies in.
    pub fn get_window_region(&self, pos: Vector2D<i32>) -> (r: WindowRegion)
        requires
            self.wf(),
        ensures
            r == window_region(self.is_top_level(), self.spec_width(), self.spec_height(), pos.x as int, pos.y as int),
    {
        match self.type_ {
            Type::Normal => WindowRegion::Other,
            Type::TopLevel { .. } => {
                let w: i64 = self.width as i64;
                let h: i64 = self.height as i64;
                let x: i64 = pos.x as i64;
                let y: i64 = pos.y as i64;
                if x < 2 || w - 2 <= x || y < 2 || h - 2 <= y {
                    WindowRegion::Border
                } else if y < TOP_LEFT_MARGIN_Y as i64 {
                    if w - 5 - 16 <= x && x < w - 5 && 5 <= y && y < 5 + 14 {
                        WindowRegion::CloseButton
                    } else {
                        WindowRegion::TitleBar
                    }
                } else {
                    WindowRegion::Other
                }
            },
        }
    }

    /// The size of the area inside the frame of a top-level window; (0, 0)
    /// for a plain window.
    pub fn inner_size(&self) -> (s: Vector2D<i32>)
        requires
            self.wf(),
        ensures
            self.is_top_level() ==> s.x == self.spec_width() - 8 && s.y == self.spec_height() - 28,
            !self.is_top_level() ==> s.x == 0 && s.y == 0,
    {
        match self.type_ {
            Type::Normal => Vector2D::new(0, 0),
            Type::TopLevel { .. } => Vector2D::new(
                self.width as i32 - TOP_LEFT_MARGIN_X - BOTTOM_RIGHT_MARGIN_X,
                self.height as i32 - TOP_LEFT_MARGIN_Y - BOTTOM_RIGHT_MARGIN_Y,
            ),
        }
    }

    /// The window's pixel (x, y).
    pub fn at(&self, x: usize, y: usize) -> (c: PixelColor)
        requires
            self.wf(),
            x < self.spec_width(),
            y < self.spec_height(),
        ensures
            c == self.color(x as int, y as int),
    {
        proof {
            Self::lemma_index(self.width as int, self.height as int, x as int, y as int);
            Self::lemma_area(self.width as int, self.height as int);
        }
        self.data[y * self.width + x]
    }
}

/// What drawing into a window leaves unchanged: its size, its pixel format,
/// its transparent color, its kind and its title.
pub type WindowFrame = (int, int, PixelFormat, Option<PixelColor>, bool, Seq<char>);

impl Window {
    pub open spec fn frame_of(&self) -> WindowFrame {
        (
            self.spec_width(),
            self.spec_height(),
            self.format(),
            self.spec_transparent_color(),
            self.is_top_level(),
            self.title(),
        )
    }
}

/// Writes into a window with no regard to its frame: (0, 0) is the window's
/// top left pixel.
pub struct WindowWriter {
    pub w: Window,
}

impl PixelWriter for WindowWriter {
    type Frame = WindowFrame;

    open spec fn frame(&self) -> WindowFrame {
        self.w.frame_of()
    }

    open spec fn inv(&self) -> bool {
        self.w.wf()
    }

    open spec fn pixel_at(&self, x: int, y: int) -> PixelColor {
        self.w.color(x, y)
    }

    open spec fn area(&self) -> (int, int, int, int) {
        (0, 0, self.w.spec_width(), self.w.spec_height())
    }

    open spec fn spec_width(&self) -> int {
        self.w.spec_width()
    }

    open spec fn spec_height(&self) -> int {
        self.w.spec_height()
    }

    fn write(&mut self, x: i32, y: i32, color: &PixelColor)
        ensures
            final(self).w.format() == old(self).w.format(),
            final(self).w.spec_transparent_color() == old(self).w.spec_transparent_color(),
            final(self).w.is_top_level() == old(self).w.is_top_level(),
            final(self).w.title() == old(self).w.title(),
    {
        self.w.write_w(x, y, color);
    }

    fn width(&self) -> (r: i32) {
        self.w.width as i32
    }

    fn height(&self) -> (r: i32) {
        self.w.height as i32
    }
}

/// The offset of a window's drawing origin: the inner area of a top-level
/// window starts inside its frame.
pub open spec fn origin_x(top_level: bool) -> int {
    if top_level { 4 } else { 0 }
}

pub open spec fn origin_y(top_level: bool) -> int {
    if top_level { 24 } else { 0 }
}

impl PixelWriter for Window {
    type Frame = WindowFrame;

    open spec fn frame(&self) -> WindowFrame {
        self.frame_of()
    }

    open spec fn inv(&self) -> bool {
        self.wf()
    }

    /// The color at (x, y) counted from the inner area's origin.
    open spec fn pixel_at(&self, x: int, y: int) -> PixelColor {
        self.color(x + origin_x(self.is_top_level()), y + origin_y(self.is_top_level()))
    }

    open spec fn area(&self) -> (int, int, int, int) {
        (
            -origin_x(self.is_top_level()),
            -origin_y(self.is_top_level()),
            self.spec_width() - origin_x(self.is_top_level()),
            self.spec_height() - origin_y(self.is_top_level()),
        )
    }

    /// The width of the inner area (the whole window for a plain one).
    open spec fn spec_width(&self) -> int {
        if self.is_top_level() {
            self.spec_width() - 8
        } else {
            self.spec_width()
        }
    }

    /// For a top-level window this is the height less the two horizontal
    /// margins (left and right), not the vertical ones.
    open spec fn spec_height(&self) -> int {
        if self.is_top_level() {
            self.spec_height() - 8
        } else {
            self.spec_height()
        }
    }

    fn write(&mut self, x: i32, y: i32, color: &PixelColor)
        ensures
            final(self).format() == old(self).format(),
            final(self).spec_transparent_color() == old(self).spec_transparent_color(),
            final(self).is_top_level() == old(self).is_top_level(),
            final(self).title() == old(self).title(),
            final(self).spec_width() == old(self).spec_width(),
            final(self).spec_height() == old(self).spec_height(),
    {
        match self.type_ {
            Type::Normal => self.write_w(x, y, color),
            Type::TopLevel { .. } => self.write_w(x + TOP_LEFT_MARGIN_X, y + TOP_LEFT_MARGIN_Y, color),
        }
    }

    fn width(&self) -> (r: i32) {
        match self.type_ {
            Type::Normal => self.width as i32,
            Type::TopLevel { .. } => self.width as i32 - TOP_LEFT_MARGIN_X - BOTTOM_RIGHT_MARGIN_X,
        }
    }

    fn height(&self) -> (r: i32) {
        match self.type_ {
            Type::Normal => self.height as i32,
            Type::TopLevel { .. } => self.height as i32 - TOP_LEFT_MARGIN_X - BOTTOM_RIGHT_MARGIN_X,
        }
    }
}


/// The half-open box that two rectangles share.
pub open spec fn rect_overlap(a: Rectangle<i32>, b: Rectangle<i32>) -> Rectangle<i32> {
    let x0 = if a.pos.x >= b.pos.x { a.pos.x } else { b.pos.x };
    let y0 = if a.pos.y >= b.pos.y { a.pos.y } else { b.pos.y };
    let x1 = if a.pos.x + a.size.x <= b.pos.x + b.size.x { a.pos.x + a.size.x } else { b.pos.x + b.size.x };
    let y1 = if a.pos.y + a.size.y <= b.pos.y + b.size.y { a.pos.y + a.size.y } else { b.pos.y + b.size.y };
    Rectangle { pos: Vector2D { x: x0, y: y0 }, size: Vector2D { x: (x1 - x0) as i32, y: (y1 - y0) as i32 } }
}

/// The box of the screen that an opaque window of `w` by `h` at `pos`
/// covers when the screen's `area` is redrawn on a screen of
/// `screen_w` by `screen_h`.
pub open spec fn opaque_draw_region(
    screen_w: int,
    screen_h: int,
    pos: Vector2D<i32>,
    area: Rectangle<i32>,
    w: int,
    h: int,
) -> (int, int, int, int) {
    let inter = rect_overlap(area, Rectangle { pos, size: Vector2D { x: w as i32, y: h as i32 } });
    copy_region(
        screen_w,
        screen_h,
        inter.pos,
        Rectangle {
            pos: Vector2D { x: (inter.pos.x - pos.x) as i32, y: (inter.pos.y - pos.y) as i32 },
            size: inter.size,
        },
    )
}

/// Whether a transparent window at `pos` shows its pixel (x, y) on a screen
/// of `screen_w` by `screen_h`.
pub open spec fn shown_through(
    screen_w: int,
    screen_h: int,
    pos: Vector2D<i32>,
    w: int,
    h: int,
    x: int,
    y: int,
) -> bool {
    0 <= x < w && 0 <= y < h && 0 <= pos.x + x < screen_w && 0 <= pos.y + y < screen_h
}

/// Whether no coordinate that `draw_to` computes leaves the `i32` range.
pub open spec fn draw_to_fits(pos: Vector2D<i32>, area: Rectangle<i32>, w: int, h: int) -> bool {
    &&& i32::MIN < pos.x
    &&& i32::MIN < pos.y
    &&& pos.x + w <= i32::MAX
    &&& pos.y + h <= i32::MAX
    &&& i32::MIN <= area.pos.x + area.size.x <= i32::MAX
    &&& i32::MIN <= area.pos.y + area.size.y <= i32::MAX
    &&& i32::MIN <= area.pos.x + area.size.x - pos.x <= i32::MAX
    &&& i32::MIN <= area.pos.y + area.size.y - pos.y <= i32::MAX
    &&& i32::MIN <= pos.x + w - area.pos.x <= i32::MAX
    &&& i32::MIN <= pos.y + h - area.pos.y <= i32::MAX
    &&& i32::MIN <= area.pos.x - pos.x <= i32::MAX
    &&& i32::MIN <= area.pos.y - pos.y <= i32::MAX
}

impl Window {
    /// Draws the window, placed at `pos`, onto `dst`. An opaque window
    /// redraws the part of `area` that it covers; a window with a
    /// transparent color draws all its other pixels that land on `dst`.
    pub fn draw_to(&self, dst: &mut FrameBuffer, pos: Vector2D<i32>, area: Rectangle<i32>)
        requires
            self.wf(),
            old(dst).wf(),
            old(dst).spec_config().pixel_format == self.format(),
            draw_to_fits(pos, area, self.spec_width(), self.spec_height()),
            self.spec_transparent_color() is Some ==> old(dst).spec_config().horizontal_resolution
                - pos.x <= i32::MAX && old(dst).spec_config().vertical_resolution - pos.y <= i32::MAX,
        ensures
            final(dst).wf(),
            final(dst).spec_config() == old(dst).spec_config(),
            self.spec_transparent_color() is None ==> forall|a: int, b: int|
                #[trigger] final(dst).pixel(a, b) == if in_area(
                    opaque_draw_region(
                        old(dst).spec_config().horizontal_resolution as int,
                        old(dst).spec_config().vertical_resolution as int,
                        pos,
                        area,
                        self.spec_width(),
                        self.spec_height(),
                    ),
                    a,
                    b,
                ) {
                    self.color(a - pos.x, b - pos.y)
                } else {
                    old(dst).pixel(a, b)
                },
            self.spec_transparent_color() matches Some(t) ==> forall|a: int, b: int|
                #[trigger] final(dst).pixel(a, b) == if shown_through(
                    old(dst).spec_config().horizontal_resolution as int,
                    old(dst).spec_config().vertical_resolution as int,
                    pos,
                    self.spec_width(),
                    self.spec_height(),
                    a - pos.x,
                    b - pos.y,
                ) && self.color(a - pos.x, b - pos.y) != t {
                    self.color(a - pos.x, b - pos.y)
                } else {
                    old(dst).pixel(a, b)
                },
    {
        match self.transparent_color {
            None => {
                let window_area = Rectangle::new(pos, self.size().to_i32_vec2d());
                let inter = area.intersect(&window_area);
                let src_area = Rectangle::new(
                    Vector2D::new(inter.pos.x - pos.x, inter.pos.y - pos.y),
                    inter.size,
                );
                proof {
                    let r = copy_region(
                        dst.spec_config().horizontal_resolution as int,
                        dst.spec_config().vertical_resolution as int,
                        inter.pos,
                        src_area,
                    );
                    assert(inter == rect_overlap(area, window_area));
                    assert forall|a: int, b: int| in_area(r, a, b) implies in_area(
                        self.shadow_buffer.spec_writer().area(),
                        a - (inter.pos.x - src_area.pos.x),
                        b - (inter.pos.y - src_area.pos.y),
                    ) by {}
                }
                dst.copy(inter.pos, &self.shadow_buffer, src_area);
                assert forall|a: int, b: int| #[trigger] self.shadow_buffer.pixel(a, b) == self.color(a, b) by {}
            },
            Some(transparent) => {
                self.draw_with_transparent_to(dst, pos, transparent);
            },
        }
    }

    fn draw_with_transparent_to(&self, dst: &mut FrameBuffer, pos: Vector2D<i32>, transparent: PixelColor)
        requires
            self.wf(),
            old(dst).wf(),
            i32::MIN < pos.x,
            i32::MIN < pos.y,
            pos.x + self.spec_width() <= i32::MAX,
            pos.y + self.spec_height() <= i32::MAX,
            old(dst).spec_config().horizontal_resolution - pos.x <= i32::MAX,
            old(dst).spec_config().vertical_resolution - pos.y <= i32::MAX,
        ensures
            final(dst).wf(),
            final(dst).spec_config() == old(dst).spec_config(),
            forall|a: int, b: int|
                #[trigger] final(dst).pixel(a, b) == if shown_through(
                    old(dst).spec_config().horizontal_resolution as int,
                    old(dst).spec_config().vertical_resolution as int,
                    pos,
                    self.spec_width(),
                    self.spec_height(),
                    a - pos.x,
                    b - pos.y,
                ) && self.color(a - pos.x, b - pos.y) != transparent {
                    self.color(a - pos.x, b - pos.y)
                } else {
                    old(dst).pixel(a, b)
                },
    {
        let ghost d0 = *dst;
        let sw: i32 = dst.writer().width();
        let sh: i32 = dst.writer().height();
        let height: i32 = self.height as i32;
        let width: i32 = self.width as i32;
        let y_start: i32 = if 0 >= 0 - pos.y { 0 } else { 0 - pos.y };
        let y_end: i32 = if height <= sh - pos.y { height } else { sh - pos.y };
        let x_start: i32 = if 0 >= 0 - pos.x { 0 } else { 0 - pos.x };
        let x_end: i32 = if width <= sw - pos.x { width } else { sw - pos.x };
        let mut y: i32 = y_start;
        while y < y_end
            invariant
                self.wf(),
                dst.wf(),
                dst.spec_config() == d0.spec_config(),
                sw == d0.spec_config().horizontal_resolution,
                sh == d0.spec_config().vertical_resolution,
                width == self.spec_width(),
                height == self.spec_height(),
                y_start == if 0 >= -pos.y { 0 } else { -pos.y },
                x_start == if 0 >= -pos.x { 0 } else { -pos.x },
                y_end == if height <= sh - pos.y { height as int } else { sh - pos.y },
                x_end == if width <= sw - pos.x { width as int } else { sw - pos.x },
                y_start <= y,
                y <= y_end || y == y_start,
                forall|a: int, b: int|
                    #[trigger] dst.pixel(a, b) == if x_start <= a - pos.x < x_end && y_start <= b
                        - pos.y < y && self.color(a - pos.x, b - pos.y) != transparent {
                        self.color(a - pos.x, b - pos.y)
                    } else {
                        d0.pixel(a, b)
                    },
            decreases y_end - y,
        {
            let mut x: i32 = x_start;
            while x < x_end
                invariant
                    self.wf(),
                    dst.wf(),
                    dst.spec_config() == d0.spec_config(),
                    sw == d0.spec_config().horizontal_resolution,
                    sh == d0.spec_config().vertical_resolution,
                    width == self.spec_width(),
                    height == self.spec_height(),
                    y_start == if 0 >= -pos.y { 0 } else { -pos.y },
                    x_start == if 0 >= -pos.x { 0 } else { -pos.x },
                    y_end == if height <= sh - pos.y { height as int } else { sh - pos.y },
                    x_end == if width <= sw - pos.x { width as int } else { sw - pos.x },
                    y_start <= y < y_end,
                    x_start <= x,
                    x <= x_end || x == x_start,
                    forall|a: int, b: int|
                        #[trigger] dst.pixel(a, b) == if ((x_start <= a - pos.x < x_end && y_start
                            <= b - pos.y < y) || (x_start <= a - pos.x < x && b - pos.y == y))
                            && self.color(a - pos.x, b - pos.y) != transparent {
                            self.color(a - pos.x, b - pos.y)
                        } else {
                            d0.pixel(a, b)
                        },
                decreases x_end - x,
            {
                let color: PixelColor = self.at(x as usize, y as usize);
                if color != transparent {
                    let ghost prev = *dst;
                    dst.writer().write(pos.x + x, pos.y + y, &color);
                    assert forall|a: int, b: int|
                        #[trigger] dst.pixel(a, b) == if ((x_start <= a - pos.x < x_end && y_start
                            <= b - pos.y < y) || (x_start <= a - pos.x < x + 1 && b - pos.y == y))
                            && self.color(a - pos.x, b - pos.y) != transparent {
                            self.color(a - pos.x, b - pos.y)
                        } else {
                            d0.pixel(a, b)
                        } by {
                        assert(dst.pixel(a, b) == dst.spec_writer().pixel_at(a, b));
                        assert(prev.pixel(a, b) == prev.spec_writer().pixel_at(a, b));
                    }
                }
                x += 1;
            }
            y += 1;
        }
    }
}


pub open spec fn rgb(r: u8, g: u8, b: u8) -> PixelColor {
    PixelColor { r, g, b }
}

/// The color of the close button's pixel (x, y), 16 by 14 pixels: a frame
/// and a cross.
pub open spec fn close_button_color(x: int, y: int) -> PixelColor {
    let r = if y <= 6 { y } else { 12 - y };
    if y == 13 || x == 15 {
        rgb(0, 0, 0)
    } else if y == 0 || x == 0 {
        rgb(255, 255, 255)
    } else if y == 12 || x == 14 {
        rgb(0x84, 0x84, 0x84)
    } else if 3 <= y <= 9 && (x == r + 1 || x == r + 2 || x == 13 - r || x == 14 - r) {
        rgb(0, 0, 0)
    } else {
        rgb(0xc6, 0xc6, 0xc6)
    }
}

fn close_button_pixel(x: i32, y: i32) -> (c: PixelColor)
    requires
        0 <= x < 16,
        0 <= y < 14,
    ensures
        c == close_button_color(x as int, y as int),
{
    let r: i32 = if y <= 6 { y } else { 12 - y };
    if y == 13 || x == 15 {
        PixelColor::new(0, 0, 0)
    } else if y == 0 || x == 0 {
        PixelColor::new(255, 255, 255)
    } else if y == 12 || x == 14 {
        PixelColor::new(0x84, 0x84, 0x84)
    } else if 3 <= y && y <= 9 && (x == r + 1 || x == r + 2 || x == 13 - r || x == 14 - r) {
        PixelColor::new(0, 0, 0)
    } else {
        PixelColor::new(0xc6, 0xc6, 0xc6)
    }
}

/// The color at (a, b) after the title bar of a window `w` wide was drawn
/// over `old`: the bar, the title text in white, and the close button.
pub open spec fn title_bar_pixel(
    old: PixelColor,
    w: int,
    font: Seq<u8>,
    title: Seq<char>,
    active: bool,
    a: int,
    b: int,
) -> PixelColor {
    if w - 21 <= a < w - 5 && 5 <= b < 19 {
        close_button_color(a - (w - 21), b - 5)
    } else if text_covers(font, title, 24, 4, a, b, title.len() as int) {
        rgb(0xff, 0xff, 0xff)
    } else if 3 <= a < w - 3 && 3 <= b < 21 {
        if active { rgb(0, 0, 0x84) } else { rgb(0x84, 0x84, 0x84) }
    } else {
        old
    }
}

/// Whether a writer of `w` by `h` whose area starts at (0, 0) can hold a
/// title bar with `title`.
pub open spec fn title_bar_fits(w: int, h: int, area: (int, int, int, int), font: Seq<u8>, title: Seq<char>) -> bool {
    &&& 21 <= w
    &&& 21 <= h
    &&& w <= i32::MAX
    &&& area.0 <= 0
    &&& area.1 <= 0
    &&& w <= area.2
    &&& h <= area.3
    &&& text_fits(font, title, 24, 4, area)
}

/// Draws the title bar: the bar, the title and the close button.
pub fn draw_window_title<W: PixelWriter>(writer: &mut W, font: &[u8], title: &str, is_active: bool)
    requires
        old(writer).inv(),
        title_bar_fits(old(writer).spec_width(), old(writer).spec_height(), old(writer).area(), font@, title@),
    ensures
        final(writer).inv(),
        final(writer).frame() == old(writer).frame(),
        final(writer).area() == old(writer).area(),
        final(writer).spec_width() == old(writer).spec_width(),
        final(writer).spec_height() == old(writer).spec_height(),
        forall|a: int, b: int|
            #[trigger] final(writer).pixel_at(a, b) == title_bar_pixel(
                old(writer).pixel_at(a, b),
                old(writer).spec_width(),
                font@,
                title@,
                is_active,
                a,
                b,
            ),
{
    let ghost w0 = *writer;
    let win_w: i32 = writer.width();
    let bg_color: PixelColor = if is_active {
        PixelColor::new(0, 0, 0x84)
    } else {
        PixelColor::new(0x84, 0x84, 0x84)
    };
    fill_rectangle(writer, &Vector2D::new(3, 3), &Vector2D::new(win_w - 6, 18), &bg_color);
    let ghost w1 = *writer;
    write_string(writer, font, 24, 4, title, &PixelColor::from(0xffffff));
    let ghost w2 = *writer;
    proof {
        lemma_frame_colors();
    }
    let mut y: i32 = 0;
    while y < 14
        invariant
            0 <= y <= 14,
            win_w == w0.spec_width(),
            title_bar_fits(w0.spec_width(), w0.spec_height(), w0.area(), font@, title@),
            writer.inv(),
            writer.frame() == w0.frame(),
            writer.area() == w0.area(),
            writer.spec_width() == w0.spec_width(),
            writer.spec_height() == w0.spec_height(),
            forall|a: int, b: int|
                #[trigger] writer.pixel_at(a, b) == if win_w - 21 <= a < win_w - 5 && 5 <= b < 5 + y {
                    close_button_color(a - (win_w - 21), b - 5)
                } else {
                    w2.pixel_at(a, b)
                },
        decreases 14 - y,
    {
        let mut x: i32 = 0;
        while x < 16
            invariant
                0 <= x <= 16,
                0 <= y < 14,
                win_w == w0.spec_width(),
                title_bar_fits(w0.spec_width(), w0.spec_height(), w0.area(), font@, title@),
                writer.inv(),
                writer.frame() == w0.frame(),
                writer.area() == w0.area(),
                writer.spec_width() == w0.spec_width(),
                writer.spec_height() == w0.spec_height(),
                forall|a: int, b: int|
                    #[trigger] writer.pixel_at(a, b) == if (win_w - 21 <= a < win_w - 5 && 5 <= b < 5
                        + y) || (win_w - 21 <= a < win_w - 21 + x && b == 5 + y) {
                        close_button_color(a - (win_w - 21), b - 5)
                    } else {
                        w2.pixel_at(a, b)
                    },
            decreases 16 - x,
        {
            let c: PixelColor = close_button_pixel(x, y);
            writer.write(win_w - 5 - 16 + x, 5 + y, &c);
            x += 1;
        }
        y += 1;
    }
    assert forall|a: int, b: int|
        #[trigger] writer.pixel_at(a, b) == title_bar_pixel(
            w0.pixel_at(a, b),
            w0.spec_width(),
            font@,
            title@,
            is_active,
            a,
            b,
        ) by {
        assert(w1.pixel_at(a, b) == w1.pixel_at(a, b));
        assert(w2.pixel_at(a, b) == w2.pixel_at(a, b));
    }
}

/// The color at (a, b) after the frame of a window of `w` by `h` was drawn
/// over `old` (before its title bar).
pub open spec fn frame_pixel(old: PixelColor, w: int, h: int, a: int, b: int) -> PixelColor {
    if 0 <= a < w && b == h - 1 {
        rgb(0, 0, 0)
    } else if 1 <= a < w - 1 && b == h - 2 {
        rgb(0x84, 0x84, 0x84)
    } else if 3 <= a < w - 3 && 3 <= b < 21 {
        rgb(0, 0, 0x84)
    } else if 2 <= a < w - 2 && 2 <= b < h - 2 {
        rgb(0xc6, 0xc6, 0xc6)
    } else if a == w - 1 && 0 <= b < h {
        rgb(0, 0, 0)
    } else if a == w - 2 && 1 <= b < h - 1 {
        rgb(0x84, 0x84, 0x84)
    } else if a == 1 && 1 <= b < h - 1 {
        rgb(0xff, 0xff, 0xff)
    } else if a == 0 && 0 <= b < h {
        rgb(0xc6, 0xc6, 0xc6)
    } else if 1 <= a < w - 1 && b == 1 {
        rgb(0xff, 0xff, 0xff)
    } else if 0 <= a < w && b == 0 {
        rgb(0xc6, 0xc6, 0xc6)
    } else {
        old
    }
}

fn fill_rect<W: PixelWriter>(writer: &mut W, x: i32, y: i32, w: i32, h: i32, c: u32)
    requires
        old(writer).inv(),
        rect_in_area(old(writer).area(), Vector2D { x, y }, Vector2D { x: w, y: h }),
        x + w <= i32::MAX + 1,
        y + h <= i32::MAX + 1,
    ensures
        final(writer).inv(),
        final(writer).frame() == old(writer).frame(),
        final(writer).area() == old(writer).area(),
        final(writer).spec_width() == old(writer).spec_width(),
        final(writer).spec_height() == old(writer).spec_height(),
        forall|a: int, b: int|
            #[trigger] final(writer).pixel_at(a, b) == if x <= a < x + w && y <= b < y + h {
                crate::graphics::color_of_rgb(c)
            } else {
                old(writer).pixel_at(a, b)
            },
{
    fill_rectangle(writer, &Vector2D::new(x, y), &Vector2D::new(w, h), &PixelColor::from(c));
}

proof fn lemma_frame_color_bits()
    by (bit_vector)
    ensures
        ((0xc6c6c6u32 >> 16u32) & 0xffu32) == 0xc6u32,
        ((0xc6c6c6u32 >> 8u32) & 0xffu32) == 0xc6u32,
        (0xc6c6c6u32 & 0xffu32) == 0xc6u32,
        ((0xffffffu32 >> 16u32) & 0xffu32) == 0xffu32,
        ((0xffffffu32 >> 8u32) & 0xffu32) == 0xffu32,
        (0xffffffu32 & 0xffu32) == 0xffu32,
        ((0x848484u32 >> 16u32) & 0xffu32) == 0x84u32,
        ((0x848484u32 >> 8u32) & 0xffu32) == 0x84u32,
        (0x848484u32 & 0xffu32) == 0x84u32,
        ((0u32 >> 16u32) & 0xffu32) == 0u32,
        ((0u32 >> 8u32) & 0xffu32) == 0u32,
        (0u32 & 0xffu32) == 0u32,
        ((0x000084u32 >> 16u32) & 0xffu32) == 0u32,
        ((0x000084u32 >> 8u32) & 0xffu32) == 0u32,
        (0x000084u32 & 0xffu32) == 0x84u32,
{
}

proof fn lemma_frame_colors()
    ensures
        crate::graphics::color_of_rgb(0xc6c6c6) == rgb(0xc6, 0xc6, 0xc6),
        crate::graphics::color_of_rgb(0xffffff) == rgb(0xff, 0xff, 0xff),
        crate::graphics::color_of_rgb(0x848484) == rgb(0x84, 0x84, 0x84),
        crate::graphics::color_of_rgb(0x000000) == rgb(0, 0, 0),
        crate::graphics::color_of_rgb(0x000084) == rgb(0, 0, 0x84),
{
    lemma_frame_color_bits();
}

/// Draws a window's frame and its inactive title bar.
pub fn draw_window<W: PixelWriter>(writer: &mut W, font: &[u8], title: &str)
    requires
        old(writer).inv(),
        title_bar_fits(old(writer).spec_width(), old(writer).spec_height(), old(writer).area(), font@, title@),
    ensures
        final(writer).inv(),
        final(writer).frame() == old(writer).frame(),
        final(writer).area() == old(writer).area(),
        final(writer).spec_width() == old(writer).spec_width(),
        final(writer).spec_height() == old(writer).spec_height(),
        forall|a: int, b: int|
            #[trigger] final(writer).pixel_at(a, b) == title_bar_pixel(
                frame_pixel(
                    old(writer).pixel_at(a, b),
                    old(writer).spec_width(),
                    old(writer).spec_height(),
                    a,
                    b,
                ),
                old(writer).spec_width(),
                font@,
                title@,
                false,
                a,
                b,
            ),
{
    let ghost w0 = *writer;
    let win_w: i32 = writer.width();
    let win_h: i32 = writer.height();
    fill_rect(writer, 0, 0, win_w, 1, 0xc6c6c6);
    let ghost w1 = *writer;
    fill_rect(writer, 1, 1, win_w - 2, 1, 0xffffff);
    let ghost w2 = *writer;
    fill_rect(writer, 0, 0, 1, win_h, 0xc6c6c6);
    let ghost w3 = *writer;
    fill_rect(writer, 1, 1, 1, win_h - 2, 0xffffff);
    let ghost w4 = *writer;
    fill_rect(writer, win_w - 2, 1, 1, win_h - 2, 0x848484);
    let ghost w5 = *writer;
    fill_rect(writer, win_w - 1, 0, 1, win_h, 0x000000);
    let ghost w6 = *writer;
    fill_rect(writer, 2, 2, win_w - 4, win_h - 4, 0xc6c6c6);
    let ghost w7 = *writer;
    fill_rect(writer, 3, 3, win_w - 6, 18, 0x000084);
    let ghost w8 = *writer;
    fill_rect(writer, 1, win_h - 2, win_w - 2, 1, 0x848484);
    let ghost w9 = *writer;
    fill_rect(writer, 0, win_h - 1, win_w, 1, 0x000000);
    let ghost w10 = *writer;
    proof {
        lemma_frame_colors();
    }
    draw_window_title(writer, font, title, false);
    assert forall|a: int, b: int|
        #[trigger] w10.pixel_at(a, b) == frame_pixel(
            w0.pixel_at(a, b),
            w0.spec_width(),
            w0.spec_height(),
            a,
            b,
        ) by {
        assert(w1.pixel_at(a, b) == w1.pixel_at(a, b));
        assert(w2.pixel_at(a, b) == w2.pixel_at(a, b));
        assert(w3.pixel_at(a, b) == w3.pixel_at(a, b));
        assert(w4.pixel_at(a, b) == w4.pixel_at(a, b));
        assert(w5.pixel_at(a, b) == w5.pixel_at(a, b));
        assert(w6.pixel_at(a, b) == w6.pixel_at(a, b));
        assert(w7.pixel_at(a, b) == w7.pixel_at(a, b));
        assert(w8.pixel_at(a, b) == w8.pixel_at(a, b));
        assert(w9.pixel_at(a, b) == w9.pixel_at(a, b));
    }
}


/// The color at (a, b) after `draw_text_box` drew a box at `pos` of `size`
/// over `old`.
pub open spec fn text_box_pixel(old: PixelColor, pos: Vector2D<i32>, size: Vector2D<i32>, a: int, b: int) -> PixelColor {
    if a == pos.x + size.x && pos.y <= b < pos.y + size.y {
        rgb(0xc6, 0xc6, 0xc6)
    } else if pos.x <= a < pos.x + size.x && b == pos.y + size.y {
        rgb(0xc6, 0xc6, 0xc6)
    } else if a == pos.x && pos.y <= b < pos.y + size.y {
        rgb(0x84, 0x84, 0x84)
    } else if pos.x <= a < pos.x + size.x && b == pos.y {
        rgb(0x84, 0x84, 0x84)
    } else if pos.x + 1 <= a < pos.x + size.x - 1 && pos.y + 1 <= b < pos.y + size.y - 1 {
        rgb(0xff, 0xff, 0xff)
    } else {
        old
    }
}

/// Whether every rectangle that `draw_text_box` fills lies in `area` and
/// its coordinates fit in an `i32`.
pub open spec fn text_box_fits(area: (int, int, int, int), pos: Vector2D<i32>, size: Vector2D<i32>) -> bool {
    &&& i32::MIN <= pos.x + size.x && pos.x + size.x + 1 <= i32::MAX
    &&& i32::MIN <= pos.y + size.y && pos.y + size.y + 1 <= i32::MAX
    &&& pos.x + 1 <= i32::MAX
    &&& pos.y + 1 <= i32::MAX
    &&& i32::MIN <= size.x - 2
    &&& i32::MIN <= size.y - 2
    &&& rect_in_area(area, Vector2D { x: (pos.x + 1) as i32, y: (pos.y + 1) as i32 }, Vector2D { x: (size.x - 2) as i32, y: (size.y - 2) as i32 })
    &&& rect_in_area(area, pos, Vector2D { x: size.x, y: 1 })
    &&& rect_in_area(area, pos, Vector2D { x: 1, y: size.y })
    &&& rect_in_area(area, Vector2D { x: pos.x, y: (pos.y + size.y) as i32 }, Vector2D { x: size.x, y: 1 })
    &&& rect_in_area(area, Vector2D { x: (pos.x + size.x) as i32, y: pos.y }, Vector2D { x: 1, y: size.y })
}

impl Window {
    /// A top-level window with a frame and the title bar of `title`
    /// (drawn inactive with the glyphs of `font`).
    pub fn new_with_title(
        width: usize,
        height: usize,
        shadow_format: PixelFormat,
        title: &str,
        font: &[u8],
    ) -> (w: Window)
        requires
            window_size_ok(width as int, height as int),
            title_bar_fits(width as int, height as int, (0, 0, width as int, height as int), font@, title@),
        ensures
            w.wf(),
            w.spec_width() == width,
            w.spec_height() == height,
            w.format() == shadow_format,
            w.spec_transparent_color() is None,
            w.is_top_level(),
            w.title() == title@,
            forall|a: int, b: int|
                #[trigger] w.color(a, b) == title_bar_pixel(
                    frame_pixel(black(), width as int, height as int, a, b),
                    width as int,
                    font@,
                    title@,
                    false,
                    a,
                    b,
                ),
    {
        let t: String = String::from_str(title);
        let w = Window::make(width, height, shadow_format, Type::TopLevel { title: t });
        let mut ww = WindowWriter { w };
        let ghost ww0 = ww;
        draw_window(&mut ww, font, title);
        assert forall|a: int, b: int|
            #[trigger] ww.w.color(a, b) == title_bar_pixel(
                frame_pixel(black(), width as int, height as int, a, b),
                width as int,
                font@,
                title@,
                false,
                a,
                b,
            ) by {
            assert(PixelWriter::pixel_at(&ww, a, b) == ww.w.color(a, b));
            assert(PixelWriter::pixel_at(&ww0, a, b) == ww0.w.color(a, b));
        }
        ww.w
    }

    fn redraw_title(&mut self, font: &[u8], is_active: bool)
        requires
            old(self).wf(),
            old(self).is_top_level() ==> title_bar_fits(
                old(self).spec_width(),
                old(self).spec_height(),
                (0, 0, old(self).spec_width(), old(self).spec_height()),
                font@,
                old(self).title(),
            ),
        ensures
            final(self).wf(),
            final(self).spec_width() == old(self).spec_width(),
            final(self).spec_height() == old(self).spec_height(),
            final(self).format() == old(self).format(),
            final(self).spec_transparent_color() == old(self).spec_transparent_color(),
            final(self).is_top_level() == old(self).is_top_level(),
            final(self).title() == old(self).title(),
            forall|a: int, b: int|
                #[trigger] final(self).color(a, b) == if old(self).is_top_level() {
                    title_bar_pixel(
                        old(self).color(a, b),
                        old(self).spec_width(),
                        font@,
                        old(self).title(),
                        is_active,
                        a,
                        b,
                    )
                } else {
                    old(self).color(a, b)
                },
    {
        let title: String = match &self.type_ {
            Type::Normal => {
                return ;
            },
            Type::TopLevel { title } => title.clone(),
        };
        let mut tmp = Window::new(0, 0, PixelFormat::KPixelRGBResv8BitPerColor);
        core::mem::swap(self, &mut tmp);
        let mut ww = WindowWriter { w: tmp };
        let ghost ww0 = ww;
        draw_window_title(&mut ww, font, title.as_str(), is_active);
        assert forall|a: int, b: int|
            #[trigger] ww.w.color(a, b) == title_bar_pixel(
                ww0.w.color(a, b),
                ww0.w.spec_width(),
                font@,
                ww0.w.title(),
                is_active,
                a,
                b,
            ) by {
            assert(PixelWriter::pixel_at(&ww, a, b) == ww.w.color(a, b));
            assert(PixelWriter::pixel_at(&ww0, a, b) == ww0.w.color(a, b));
        }
        *self = ww.w;
    }

    /// Draws a top-level window's title bar as active.
    pub fn activate(&mut self, font: &[u8])
        requires
            old(self).wf(),
            old(self).is_top_level() ==> title_bar_fits(
                old(self).spec_width(),
                old(self).spec_height(),
                (0, 0, old(self).spec_width(), old(self).spec_height()),
                font@,
                old(self).title(),
            ),
        ensures
            final(self).wf(),
            final(self).spec_width() == old(self).spec_width(),
            final(self).spec_height() == old(self).spec_height(),
            final(self).format() == old(self).format(),
            final(self).spec_transparent_color() == old(self).spec_transparent_color(),
            final(self).is_top_level() == old(self).is_top_level(),
            final(self).title() == old(self).title(),
            forall|a: int, b: int|
                #[trigger] final(self).color(a, b) == if old(self).is_top_level() {
                    title_bar_pixel(
                        old(self).color(a, b),
                        old(self).spec_width(),
                        font@,
                        old(self).title(),
                        true,
                        a,
                        b,
                    )
                } else {
                    old(self).color(a, b)
                },
    {
        self.redraw_title(font, true);
    }

    /// Draws a top-level window's title bar as inactive.
    pub fn deactivate(&mut self, font: &[u8])
        requires
            old(self).wf(),
            old(self).is_top_level() ==> title_bar_fits(
                old(self).spec_width(),
                old(self).spec_height(),
                (0, 0, old(self).spec_width(), old(self).spec_height()),
                font@,
                old(self).title(),
            ),
        ensures
            final(self).wf(),
            final(self).spec_width() == old(self).spec_width(),
            final(self).spec_height() == old(self).spec_height(),
            final(self).format() == old(self).format(),
            final(self).spec_transparent_color() == old(self).spec_transparent_color(),
            final(self).is_top_level() == old(self).is_top_level(),
            final(self).title() == old(self).title(),
            forall|a: int, b: int|
                #[trigger] final(self).color(a, b) == if old(self).is_top_level() {
                    title_bar_pixel(
                        old(self).color(a, b),
                        old(self).spec_width(),
                        font@,
                        old(self).title(),
                        false,
                        a,
                        b,
                    )
                } else {
                    old(self).color(a, b)
                },
    {
        self.redraw_title(font, false);
    }

    /// Draws a text box: a white box with a grey border, darker on the top
    /// and left, in the window's inner area.
    pub fn draw_text_box(&mut self, pos: Vector2D<i32>, size: Vector2D<i32>)
        requires
            old(self).wf(),
            text_box_fits(PixelWriter::area(old(self)), pos, size),
        ensures
            final(self).wf(),
            final(self).spec_width() == old(self).spec_width(),
            final(self).spec_height() == old(self).spec_height(),
            final(self).format() == old(self).format(),
            final(self).spec_transparent_color() == old(self).spec_transparent_color(),
            final(self).is_top_level() == old(self).is_top_level(),
            final(self).title() == old(self).title(),
            forall|a: int, b: int|
                #[trigger] PixelWriter::pixel_at(final(self), a, b) == text_box_pixel(
                    PixelWriter::pixel_at(old(self), a, b),
                    pos,
                    size,
                    a,
                    b,
                ),
    {
        let ghost w0 = *self;
        fill_rect(self, pos.x + 1, pos.y + 1, size.x - 2, size.y - 2, 0xffffff);
        let ghost w1 = *self;
        fill_rect(self, pos.x, pos.y, size.x, 1, 0x848484);
        let ghost w2 = *self;
        fill_rect(self, pos.x, pos.y, 1, size.y, 0x848484);
        let ghost w3 = *self;
        fill_rect(self, pos.x, pos.y + size.y, size.x, 1, 0xc6c6c6);
        let ghost w4 = *self;
        fill_rect(self, pos.x + size.x, pos.y, 1, size.y, 0xc6c6c6);
        proof {
            lemma_frame_colors();
        }
        assert forall|a: int, b: int|
            #[trigger] PixelWriter::pixel_at(self, a, b) == text_box_pixel(
                PixelWriter::pixel_at(&w0, a, b),
                pos,
                size,
                a,
                b,
            ) by {
            assert(PixelWriter::pixel_at(&w1, a, b) == PixelWriter::pixel_at(&w1, a, b));
            assert(PixelWriter::pixel_at(&w2, a, b) == PixelWriter::pixel_at(&w2, a, b));
            assert(PixelWriter::pixel_at(&w3, a, b) == PixelWriter::pixel_at(&w3, a, b));
            assert(PixelWriter::pixel_at(&w4, a, b) == PixelWriter::pixel_at(&w4, a, b));
        }
    }
}


impl Window {
    /// Moves the pixels in `src` to `pos` inside the window (an overlap
    /// moves intact).
    pub fn move_(&mut self, pos: Vector2D<i32>, src: &Rectangle<i32>)
        requires
            old(self).wf(),
            src.size.x >= 0,
            src.size.y >= 0,
            in_rect_area((0, 0, old(self).spec_width(), old(self).spec_height()), src.pos, src.size),
            in_rect_area((0, 0, old(self).spec_width(), old(self).spec_height()), pos, src.size),
        ensures
            final(self).wf(),
            final(self).frame_of() == old(self).frame_of(),
            forall|a: int, b: int|
                #[trigger] final(self).color(a, b) == if pos.x <= a < pos.x + src.size.x && pos.y
                    <= b < pos.y + src.size.y {
                    old(self).color(a - (pos.x - src.pos.x), b - (pos.y - src.pos.y))
                } else {
                    old(self).color(a, b)
                },
    {
        let ghost old_self = *self;
        self.shadow_buffer.move_(pos, src);
        let w: usize = self.width;
        let mut y: i32 = pos.y;
        while y < pos.y + src.size.y
            invariant
                old_self.wf(),
                window_size_ok(self.width as int, self.height as int),
                self.width == old_self.width,
                self.height == old_self.height,
                w == self.width,
                self.transparent_color == old_self.transparent_color,
                self.type_ == old_self.type_,
                self.shadow_buffer.wf(),
                self.shadow_buffer.spec_config() == old_self.shadow_buffer.spec_config(),
                self.data@.len() == self.width * self.height,
                src.size.x >= 0,
                src.size.y >= 0,
                in_rect_area((0, 0, old_self.spec_width(), old_self.spec_height()), pos, src.size),
                pos.y <= y <= pos.y + src.size.y,
                forall|a: int, b: int|
                    #[trigger] self.shadow_buffer.pixel(a, b) == if pos.x <= a < pos.x + src.size.x
                        && pos.y <= b < pos.y + src.size.y {
                        old_self.color(a - (pos.x - src.pos.x), b - (pos.y - src.pos.y))
                    } else {
                        old_self.color(a, b)
                    },
                forall|a: int, b: int|
                    0 <= a < self.width && 0 <= b < self.height && (!(pos.x <= a < pos.x + src.size.x
                        && pos.y <= b < pos.y + src.size.y) || b < y) ==> #[trigger] self.data@[b
                        * self.width + a] == self.shadow_buffer.pixel(a, b),
            decreases pos.y + src.size.y - y,
        {
            let mut x: i32 = pos.x;
            while x < pos.x + src.size.x
                invariant
                    old_self.wf(),
                    window_size_ok(self.width as int, self.height as int),
                    self.width == old_self.width,
                    self.height == old_self.height,
                    w == self.width,
                    self.transparent_color == old_self.transparent_color,
                    self.type_ == old_self.type_,
                    self.shadow_buffer.wf(),
                    self.shadow_buffer.spec_config() == old_self.shadow_buffer.spec_config(),
                    self.data@.len() == self.width * self.height,
                    src.size.x >= 0,
                    src.size.y >= 0,
                    in_rect_area((0, 0, old_self.spec_width(), old_self.spec_height()), pos, src.size),
                    pos.y <= y < pos.y + src.size.y,
                    pos.x <= x <= pos.x + src.size.x,
                    forall|a: int, b: int|
                        #[trigger] self.shadow_buffer.pixel(a, b) == if pos.x <= a < pos.x
                            + src.size.x && pos.y <= b < pos.y + src.size.y {
                            old_self.color(a - (pos.x - src.pos.x), b - (pos.y - src.pos.y))
                        } else {
                            old_self.color(a, b)
                        },
                    forall|a: int, b: int|
                        0 <= a < self.width && 0 <= b < self.height && (!(pos.x <= a < pos.x
                            + src.size.x && pos.y <= b < pos.y + src.size.y) || b < y || (b == y && a
                            < x)) ==> #[trigger] self.data@[b * self.width + a] == self.shadow_buffer.pixel(a, b),
                decreases pos.x + src.size.x - x,
            {
                let c: PixelColor = self.shadow_buffer.pixel_color(x, y);
                proof {
                    Self::lemma_index(self.width as int, self.height as int, x as int, y as int);
                    Self::lemma_area(self.width as int, self.height as int);
                }
                let i: usize = y as usize * w + x as usize;
                let ghost prev = self.data@;
                self.data.set(i, c);
                assert forall|a: int, b: int|
                    0 <= a < self.width && 0 <= b < self.height && (!(pos.x <= a < pos.x
                        + src.size.x && pos.y <= b < pos.y + src.size.y) || b < y || (b == y && a
                        < x + 1)) implies #[trigger] self.data@[b * self.width + a]
                        == self.shadow_buffer.pixel(a, b) by {
                    Self::lemma_index(self.width as int, self.height as int, a, b);
                    if a != x || b != y {
                        if b * self.width + a == i {
                            Self::lemma_index_unique(self.width as int, x as int, y as int, a, b);
                        }
                        assert(prev[b * self.width + a] == self.data@[b * self.width + a]);
                    }
                }
                x += 1;
            }
            y += 1;
        }
        assert forall|a: int, b: int|
            0 <= a < self.width && 0 <= b < self.height implies #[trigger] self.data@[b * self.width
                + a] == self.shadow_buffer.pixel(a, b) by {
            if !(pos.x <= a < pos.x + src.size.x && pos.y <= b < pos.y + src.size.y) {
            }
        }
    }
}

} // verus!
