use vstd::prelude::*;

verus! {

/// A color with 8 bits per channel.
#[derive(Copy, Clone, Debug, PartialEq, Eq, Structural)]
pub struct PixelColor {
    pub r: u8,
    pub g: u8,
    pub b: u8,
}

impl PixelColor {
    pub fn new(r: u8, g: u8, b: u8) -> (c: PixelColor)
        ensures
            c == (PixelColor { r, g, b }),
    {
        PixelColor { r, g, b }
    }
}

/// The color `0xRRGGBB` denotes.
pub open spec fn color_of_rgb(v: u32) -> PixelColor {
    PixelColor { r: ((v >> 16u32) & 0xff) as u8, g: ((v >> 8u32) & 0xff) as u8, b: (v & 0xff) as u8 }
}

impl From<u32> for PixelColor {
    /// The color `0xRRGGBB`; the top byte is ignored.
    fn from(v: u32) -> (c: PixelColor) {
        PixelColor::new(((v >> 16u32) & 0xff) as u8, ((v >> 8u32) & 0xff) as u8, (v & 0xff) as u8)
    }
}

impl vstd::std_specs::convert::FromSpecImpl<u32> for PixelColor {
    open spec fn obeys_from_spec() -> bool {
        true
    }

    open spec fn from_spec(v: u32) -> PixelColor {
        color_of_rgb(v)
    }
}

/// The color `0xRRGGBB`; the top byte is ignored.
pub fn color_from(v: u32) -> (c: PixelColor)
    ensures
        c == color_of_rgb(v),
{
    PixelColor::from(v)
}

/// The palette's "black", which is drawn as white (the palette's names
/// are swapped); the desktop's foreground.
pub open spec fn color_black() -> PixelColor {
    PixelColor { r: 255, g: 255, b: 255 }
}

/// The palette's "white" (drawn as black).
pub open spec fn color_white() -> PixelColor {
    PixelColor { r: 0, g: 0, b: 0 }
}

pub fn color_black_value() -> (c: PixelColor)
    ensures
        c == color_black(),
{
    PixelColor { r: 255, g: 255, b: 255 }
}

pub fn color_white_value() -> (c: PixelColor)
    ensures
        c == color_white(),
{
    PixelColor { r: 0, g: 0, b: 0 }
}

/// The desktop's background color.
pub fn desktop_bg_color() -> (c: PixelColor)
    ensures
        c == (PixelColor { r: 45, g: 118, b: 237 }),
{
    PixelColor { r: 45, g: 118, b: 237 }
}

/// A pair of coordinates.
#[derive(Copy, Clone, Debug, PartialEq, Eq, Structural)]
pub struct Vector2D<T> {
    pub x: T,
    pub y: T,
}

impl<T> Vector2D<T> {
    pub fn new(x: T, y: T) -> (v: Vector2D<T>)
        ensures
            v.x == x,
            v.y == y,
    {
        Self { x, y }
    }
}

impl Vector2D<usize> {
    /// The same coordinates as `i32`, converted as `as` does.
    pub fn to_i32_vec2d(&self) -> (v: Vector2D<i32>)
        ensures
            v.x == self.x as i32,
            v.y == self.y as i32,
    {
        Vector2D::new(self.x as i32, self.y as i32)
    }
}

impl Vector2D<i32> {
    /// The larger of the two values in each coordinate.
    pub fn element_max(&self, other: Vector2D<i32>) -> (v: Vector2D<i32>)
        ensures
            v.x == if self.x >= other.x { self.x } else { other.x },
            v.y == if self.y >= other.y { self.y } else { other.y },
    {
        Vector2D::new(
            if self.x >= other.x { self.x } else { other.x },
            if self.y >= other.y { self.y } else { other.y },
        )
    }

    /// The smaller of the two values in each coordinate.
    pub fn element_min(&self, other: Vector2D<i32>) -> (v: Vector2D<i32>)
        ensures
            v.x == if self.x <= other.x { self.x } else { other.x },
            v.y == if self.y <= other.y { self.y } else { other.y },
    {
        Vector2D::new(
            if self.x <= other.x { self.x } else { other.x },
            if self.y <= other.y { self.y } else { other.y },
        )
    }

    /// Coordinate-wise sum.
    pub fn add(self, other: Vector2D<i32>) -> (v: Vector2D<i32>)
        requires
            i32::MIN <= self.x + other.x <= i32::MAX,
            i32::MIN <= self.y + other.y <= i32::MAX,
        ensures
            v.x == self.x + other.x,
            v.y == self.y + other.y,
    {
        Vector2D::new(self.x + other.x, self.y + other.y)
    }

    /// Coordinate-wise difference.
    pub fn sub(self, other: Vector2D<i32>) -> (v: Vector2D<i32>)
        requires
            i32::MIN <= self.x - other.x <= i32::MAX,
            i32::MIN <= self.y - other.y <= i32::MAX,
        ensures
            v.x == self.x - other.x,
            v.y == self.y - other.y,
    {
        Vector2D::new(self.x - other.x, self.y - other.y)
    }
}

/// An axis-aligned rectangle: its top-left corner and its size.
#[derive(Copy, Clone, Debug, PartialEq, Eq, Structural)]
pub struct Rectangle<T> {
    pub pos: Vector2D<T>,
    pub size: Vector2D<T>,
}

impl<T> Rectangle<T> {
    pub fn new(pos: Vector2D<T>, size: Vector2D<T>) -> (r: Rectangle<T>)
        ensures
            r.pos == pos,
            r.size == size,
    {
        Self { pos, size }
    }
}


impl Rectangle<i32> {
    /// The overlap of two rectangles (an empty overlap has a size of 0 or less).
    pub fn intersect(&self, other: &Rectangle<i32>) -> (r: Rectangle<i32>)
        requires
            i32::MIN <= self.pos.x + self.size.x <= i32::MAX,
            i32::MIN <= self.pos.y + self.size.y <= i32::MAX,
            i32::MIN <= other.pos.x + other.size.x <= i32::MAX,
            i32::MIN <= other.pos.y + other.size.y <= i32::MAX,
            self.pos.x + self.size.x - other.pos.x >= i32::MIN,
            self.pos.y + self.size.y - other.pos.y >= i32::MIN,
            other.pos.x + other.size.x - self.pos.x >= i32::MIN,
            other.pos.y + other.size.y - self.pos.y >= i32::MIN,
        ensures
            r.pos.x == max_i32(self.pos.x, other.pos.x),
            r.pos.y == max_i32(self.pos.y, other.pos.y),
            r.pos.x + r.size.x == min_i32(self.pos.x + self.size.x, other.pos.x + other.size.x),
            r.pos.y + r.size.y == min_i32(self.pos.y + self.size.y, other.pos.y + other.size.y),
    {
        let x0: i32 = if self.pos.x >= other.pos.x { self.pos.x } else { other.pos.x };
        let y0: i32 = if self.pos.y >= other.pos.y { self.pos.y } else { other.pos.y };
        let ex: i32 = self.pos.x + self.size.x;
        let ox: i32 = other.pos.x + other.size.x;
        let ey: i32 = self.pos.y + self.size.y;
        let oy: i32 = other.pos.y + other.size.y;
        let x1: i32 = if ex <= ox { ex } else { ox };
        let y1: i32 = if ey <= oy { ey } else { oy };
        Rectangle::new(Vector2D::new(x0, y0), Vector2D::new(x1 - x0, y1 - y0))
    }
}

pub open spec fn max_i32(a: i32, b: i32) -> int {
    if a >= b { a as int } else { b as int }
}

pub open spec fn min_i32(a: int, b: int) -> int {
    if a <= b { a } else { b }
}

/// Something that pixels can be written to.
///
/// `pixel_at` is the color shown at a position; `area` is the half-open box
/// `(x0, y0, x1, y1)` of positions that `write` accepts; `width` and
/// `height` are the sizes that the writer reports.
pub trait PixelWriter {
    /// What a writer keeps fixed while pixels are written.
    type Frame;

    spec fn frame(&self) -> Self::Frame;

    spec fn inv(&self) -> bool;

    spec fn pixel_at(&self, x: int, y: int) -> PixelColor;

    spec fn area(&self) -> (int, int, int, int);

    spec fn spec_width(&self) -> int;

    spec fn spec_height(&self) -> int;

    /// Sets the pixel at (x, y).
    fn write(&mut self, x: i32, y: i32, color: &PixelColor)
        requires
            old(self).inv(),
            in_area(old(self).area(), x as int, y as int),
        ensures
            final(self).inv(),
            final(self).frame() == old(self).frame(),
            final(self).area() == old(self).area(),
            final(self).spec_width() == old(self).spec_width(),
            final(self).spec_height() == old(self).spec_height(),
            forall|a: int, b: int|
                #[trigger] final(self).pixel_at(a, b) == if a == x && b == y {
                    *color
                } else {
                    old(self).pixel_at(a, b)
                },
    ;

    fn width(&self) -> (w: i32)
        requires
            self.inv(),
        ensures
            w == self.spec_width(),
    ;

    fn height(&self) -> (h: i32)
        requires
            self.inv(),
        ensures
            h == self.spec_height(),
    ;
}

/// Whether (x, y) lies in the half-open box `area`.
pub open spec fn in_area(area: (int, int, int, int), x: int, y: int) -> bool {
    area.0 <= x < area.2 && area.1 <= y < area.3
}

/// Whether (x, y) lies in the rectangle at `pos` of `size`.
pub open spec fn in_rect(pos: Vector2D<i32>, size: Vector2D<i32>, x: int, y: int) -> bool {
    pos.x <= x < pos.x + size.x && pos.y <= y < pos.y + size.y
}

/// Whether every position of the rectangle lies in `area`.
pub open spec fn rect_in_area(area: (int, int, int, int), pos: Vector2D<i32>, size: Vector2D<i32>) -> bool {
    size.x <= 0 || size.y <= 0 || (area.0 <= pos.x && pos.x + size.x <= area.2 && area.1 <= pos.y
        && pos.y + size.y <= area.3)
}

/// Paints the rectangle at `pos` of `size` with `c`.
pub fn fill_rectangle<W: PixelWriter>(
    writer: &mut W,
    pos: &Vector2D<i32>,
    size: &Vector2D<i32>,
    c: &PixelColor,
)
    requires
        old(writer).inv(),
        rect_in_area(old(writer).area(), *pos, *size),
        pos.x + size.x <= i32::MAX + 1,
        pos.y + size.y <= i32::MAX + 1,
    ensures
        final(writer).inv(),
        final(writer).frame() == old(writer).frame(),
        final(writer).area() == old(writer).area(),
        final(writer).spec_width() == old(writer).spec_width(),
        final(writer).spec_height() == old(writer).spec_height(),
        forall|a: int, b: int|
            #[trigger] final(writer).pixel_at(a, b) == if in_rect(*pos, *size, a, b) {
                *c
            } else {
                old(writer).pixel_at(a, b)
            },
{
    let ghost w0 = *old(writer);
    let mut dy: i32 = 0;
    while dy < size.y
        invariant
            0 <= dy,
            size.y <= 0 ==> dy == 0,
            size.y > 0 ==> dy <= size.y,
            writer.inv(),
            writer.frame() == w0.frame(),
            writer.area() == w0.area(),
            writer.spec_width() == w0.spec_width(),
            writer.spec_height() == w0.spec_height(),
            rect_in_area(w0.area(), *pos, *size),
            pos.x + size.x <= i32::MAX + 1,
            pos.y + size.y <= i32::MAX + 1,
            forall|a: int, b: int|
                #[trigger] writer.pixel_at(a, b) == if pos.x <= a < pos.x + size.x && pos.y <= b
                    < pos.y + dy {
                    *c
                } else {
                    w0.pixel_at(a, b)
                },
        decreases size.y - dy,
    {
        let mut dx: i32 = 0;
        while dx < size.x
            invariant
                0 <= dx,
                size.x <= 0 ==> dx == 0,
                size.x > 0 ==> dx <= size.x,
                0 <= dy < size.y,
                writer.inv(),
                writer.frame() == w0.frame(),
                writer.area() == w0.area(),
                writer.spec_width() == w0.spec_width(),
                writer.spec_height() == w0.spec_height(),
                rect_in_area(w0.area(), *pos, *size),
                pos.x + size.x <= i32::MAX + 1,
                pos.y + size.y <= i32::MAX + 1,
                forall|a: int, b: int|
                    #[trigger] writer.pixel_at(a, b) == if (pos.x <= a < pos.x + size.x && pos.y
                        <= b < pos.y + dy) || (pos.x <= a < pos.x + dx && b == pos.y + dy) {
                        *c
                    } else {
                        w0.pixel_at(a, b)
                    },
            decreases size.x - dx,
        {
            writer.write(pos.x + dx, pos.y + dy, c);
            dx += 1;
        }
        dy += 1;
    }
}

/// Whether (x, y) is one of the positions that `draw_rectangle` paints.
pub open spec fn on_outline(pos: Vector2D<i32>, size: Vector2D<i32>, x: int, y: int) -> bool {
    ||| (pos.x <= x < pos.x + size.x && (y == pos.y || y == pos.y + size.y - 1))
    ||| (pos.y <= y < pos.y + size.y && (x == pos.x || x == pos.x + size.x - 1))
}

/// Whether every position that `draw_rectangle` paints lies in `area`.
pub open spec fn outline_in_area(area: (int, int, int, int), pos: Vector2D<i32>, size: Vector2D<i32>) -> bool {
    forall|x: int, y: int| on_outline(pos, size, x, y) ==> in_area(area, x, y)
}

/// Paints the outline of the rectangle at `pos` of `size` with `c`.
pub fn draw_rectangle<W: PixelWriter>(
    writer: &mut W,
    pos: &Vector2D<i32>,
    size: &Vector2D<i32>,
    c: &PixelColor,
)
    requires
        old(writer).inv(),
        outline_in_area(old(writer).area(), *pos, *size),
        size.x > 0 ==> pos.y + size.y <= i32::MAX && i32::MIN <= pos.y + size.y - 1,
        size.y > 0 ==> pos.x + size.x <= i32::MAX && i32::MIN <= pos.x + size.x - 1,
        pos.x + size.x <= i32::MAX + 1,
        pos.y + size.y <= i32::MAX + 1,
    ensures
        final(writer).inv(),
        final(writer).frame() == old(writer).frame(),
        final(writer).area() == old(writer).area(),
        final(writer).spec_width() == old(writer).spec_width(),
        final(writer).spec_height() == old(writer).spec_height(),
        forall|a: int, b: int|
            #[trigger] final(writer).pixel_at(a, b) == if on_outline(*pos, *size, a, b) {
                *c
            } else {
                old(writer).pixel_at(a, b)
            },
{
    let ghost w0 = *old(writer);
    let mut dx: i32 = 0;
    while dx < size.x
        invariant
            0 <= dx,
            size.x <= 0 ==> dx == 0,
            size.x > 0 ==> dx <= size.x,
            writer.inv(),
            writer.frame() == w0.frame(),
            writer.area() == w0.area(),
            writer.spec_width() == w0.spec_width(),
            writer.spec_height() == w0.spec_height(),
            outline_in_area(w0.area(), *pos, *size),
            size.x > 0 ==> pos.y + size.y <= i32::MAX && i32::MIN <= pos.y + size.y - 1,
            size.y > 0 ==> pos.x + size.x <= i32::MAX && i32::MIN <= pos.x + size.x - 1,
            pos.x + size.x <= i32::MAX + 1,
            pos.y + size.y <= i32::MAX + 1,
            forall|a: int, b: int|
                #[trigger] writer.pixel_at(a, b) == if pos.x <= a < pos.x + dx && (b == pos.y || b
                    == pos.y + size.y - 1) {
                    *c
                } else {
                    w0.pixel_at(a, b)
                },
        decreases size.x - dx,
    {
        assert(on_outline(*pos, *size, pos.x + dx, pos.y as int));
        assert(on_outline(*pos, *size, pos.x + dx, pos.y + size.y - 1));
        writer.write(pos.x + dx, pos.y, c);
        writer.write(pos.x + dx, pos.y + size.y - 1, c);
        dx += 1;
    }
    let mut dy: i32 = 0;
    while dy < size.y
        invariant
            0 <= dy,
            size.y <= 0 ==> dy == 0,
            size.y > 0 ==> dy <= size.y,
            writer.inv(),
            writer.frame() == w0.frame(),
            writer.area() == w0.area(),
            writer.spec_width() == w0.spec_width(),
            writer.spec_height() == w0.spec_height(),
            outline_in_area(w0.area(), *pos, *size),
            size.x > 0 ==> pos.y + size.y <= i32::MAX && i32::MIN <= pos.y + size.y - 1,
            size.y > 0 ==> pos.x + size.x <= i32::MAX && i32::MIN <= pos.x + size.x - 1,
            pos.x + size.x <= i32::MAX + 1,
            pos.y + size.y <= i32::MAX + 1,
            forall|a: int, b: int|
                #[trigger] writer.pixel_at(a, b) == if (pos.x <= a < pos.x + size.x && (b == pos.y
                    || b == pos.y + size.y - 1)) || (pos.y <= b < pos.y + dy && (a == pos.x || a
                    == pos.x + size.x - 1)) {
                    *c
                } else {
                    w0.pixel_at(a, b)
                },
        decreases size.y - dy,
    {
        assert(on_outline(*pos, *size, pos.x as int, pos.y + dy));
        assert(on_outline(*pos, *size, pos.x + size.x - 1, pos.y + dy));
        writer.write(pos.x, pos.y + dy, c);
        writer.write(pos.x + size.x - 1, pos.y + dy, c);
        dy += 1;
    }
}


/// The color that `draw_desktop` leaves at (x, y) on a screen of `w` by `h`
/// whose color there was `old`.
pub open spec fn desktop_pixel(old: PixelColor, w: int, h: int, x: int, y: int) -> PixelColor {
    if on_outline(Vector2D { x: 10i32, y: (h - 40) as i32 }, Vector2D { x: 30i32, y: 30i32 }, x, y) {
        PixelColor { r: 160, g: 160, b: 160 }
    } else if 0 <= x < w / 5 && h - 50 <= y < h {
        PixelColor { r: 80, g: 80, b: 80 }
    } else if 0 <= x < w && h - 50 <= y < h {
        PixelColor { r: 1, g: 8, b: 17 }
    } else if 0 <= x < w && 0 <= y < h {
        PixelColor { r: 45, g: 118, b: 237 }
    } else {
        old
    }
}

/// Draws the desktop: the background, the task bar and its start button.
pub fn draw_desktop<W: PixelWriter>(writer: &mut W)
    requires
        old(writer).inv(),
        old(writer).spec_width() >= 40,
        old(writer).spec_height() >= 50,
        old(writer).area().0 <= 0,
        old(writer).area().1 <= 0,
        old(writer).spec_width() <= old(writer).area().2,
        old(writer).spec_height() <= old(writer).area().3,
    ensures
        final(writer).inv(),
        final(writer).frame() == old(writer).frame(),
        final(writer).area() == old(writer).area(),
        final(writer).spec_width() == old(writer).spec_width(),
        final(writer).spec_height() == old(writer).spec_height(),
        forall|a: int, b: int|
            #[trigger] final(writer).pixel_at(a, b) == desktop_pixel(
                old(writer).pixel_at(a, b),
                old(writer).spec_width(),
                old(writer).spec_height(),
                a,
                b,
            ),
{
    let ghost w0 = *old(writer);
    let width: i32 = writer.width();
    let height: i32 = writer.height();
    fill_rectangle(writer, &Vector2D::new(0, 0), &Vector2D::new(width, height), &desktop_bg_color());
    let ghost w1 = *writer;
    fill_rectangle(
        writer,
        &Vector2D::new(0, height - 50),
        &Vector2D::new(width, 50),
        &PixelColor::new(1, 8, 17),
    );
    let ghost w2 = *writer;
    fill_rectangle(
        writer,
        &Vector2D::new(0, height - 50),
        &Vector2D::new(width / 5, 50),
        &PixelColor::new(80, 80, 80),
    );
    let ghost w3 = *writer;
    let rpos = Vector2D::new(10, height - 40);
    let rsize = Vector2D::new(30, 30);
    assert forall|x: int, y: int| on_outline(rpos, rsize, x, y) implies in_area(
        w3.area(),
        x,
        y,
    ) by {}
    draw_rectangle(writer, &rpos, &rsize, &PixelColor::new(160, 160, 160));
    assert forall|a: int, b: int|
        #[trigger] writer.pixel_at(a, b) == desktop_pixel(
            w0.pixel_at(a, b),
            w0.spec_width(),
            w0.spec_height(),
            a,
            b,
        ) by {
        assert(w1.pixel_at(a, b) == w1.pixel_at(a, b));
        assert(w2.pixel_at(a, b) == w2.pixel_at(a, b));
        assert(w3.pixel_at(a, b) == w3.pixel_at(a, b));
    }
}

} // verus!
