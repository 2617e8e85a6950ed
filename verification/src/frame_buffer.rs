use crate::graphics::{in_area, PixelColor, PixelWriter, Rectangle, Vector2D};
use crate::shared::{FrameBufferConfig, PixelFormat};
use vstd::prelude::*;

verus! {

/// The color that the four bytes starting at `off` encode in `format`.
pub open spec fn decode_pixel(format: PixelFormat, s: Seq<u8>, off: int) -> PixelColor {
    match format {
        PixelFormat::KPixelRGBResv8BitPerColor => PixelColor { r: s[off], g: s[off + 1], b: s[off + 2] },
        PixelFormat::KPixelBGRResv8BitPerColor => PixelColor { r: s[off + 2], g: s[off + 1], b: s[off] },
    }
}

/// The byte offset of pixel (x, y) in a buffer of `ppsl` pixels per line.
pub open spec fn pixel_offset(ppsl: int, x: int, y: int) -> int {
    4 * (ppsl * y + x)
}

/// Whether a configuration describes a buffer that fits in memory and
/// whose sizes fit in an `i32`.
pub open spec fn config_ok(c: FrameBufferConfig) -> bool {
    &&& c.horizontal_resolution <= c.pixels_per_scan_line
    &&& c.pixels_per_scan_line <= i32::MAX
    &&& c.vertical_resolution <= i32::MAX
    &&& 4 * c.pixels_per_scan_line * c.vertical_resolution <= usize::MAX
}

proof fn lemma_pixel_in_buffer(p: int, v: int, x: int, y: int)
    requires
        0 <= x < p,
        0 <= y < v,
    ensures
        0 <= pixel_offset(p, x, y),
        pixel_offset(p, x, y) + 4 <= 4 * p * v,
{
    assert(p * y + x + 1 <= p * v) by (nonlinear_arith)
        requires
            0 <= x < p,
            0 <= y < v,
    ;
    assert(0 <= p * y) by (nonlinear_arith)
        requires
            0 <= p,
            0 <= y,
    ;
    assert(4 * p * v == 4 * (p * v)) by (nonlinear_arith);
}

proof fn lemma_pixels_apart(p: int, a: int, b: int, x: int, y: int)
    requires
        0 <= a < p,
        0 <= x < p,
        0 <= b,
        0 <= y,
        a != x || b != y,
    ensures
        pixel_offset(p, a, b) + 4 <= pixel_offset(p, x, y) || pixel_offset(p, x, y) + 4
            <= pixel_offset(p, a, b),
{
    if b < y {
        assert(p * b + a + 1 <= p * y + x) by (nonlinear_arith)
            requires
                0 <= a < p,
                0 <= x,
                b < y,
        ;
    } else if b > y {
        assert(p * y + x + 1 <= p * b + a) by (nonlinear_arith)
            requires
                0 <= x < p,
                0 <= a,
                y < b,
        ;
    }
}

/// Writes pixels into a buffer laid out as a `FrameBufferConfig` describes.
pub struct FrameBufferWriter {
    config: FrameBufferConfig,
    buffer: Vec<u8>,
}

impl FrameBufferWriter {
    pub closed spec fn spec_config(&self) -> FrameBufferConfig {
        self.config
    }

    /// The bytes of the buffer.
    pub closed spec fn bytes(&self) -> Seq<u8> {
        self.buffer@
    }

    /// A writer over a zero-filled buffer of the configured size.
    pub fn new(config: FrameBufferConfig) -> (w: FrameBufferWriter)
        requires
            config_ok(config),
        ensures
            w.inv(),
            w.spec_config() == config,
            forall|x: int, y: int| #[trigger] w.pixel_at(x, y) == (PixelColor { r: 0, g: 0, b: 0 }),
    {
        let p: usize = config.pixels_per_scan_line as usize;
        let v: usize = config.vertical_resolution as usize;
        assert(4 * p * v <= usize::MAX);
        assert(4 * p <= 4 * p * v || v == 0) by (nonlinear_arith)
            requires
                v >= 1 || v == 0,
                p >= 0,
        ;
        assert(p * v <= 4 * p * v) by (nonlinear_arith)
            requires
                p >= 0,
                v >= 0,
        ;
        let pv: usize = p * v;
        assert(4 * pv == 4 * p * v) by (nonlinear_arith)
            requires
                pv == p * v,
        ;
        let n: usize = 4 * pv;
        let buffer: Vec<u8> = vec![0u8; n];
        let w = FrameBufferWriter { config, buffer };
        assert forall|x: int, y: int| #[trigger] w.pixel_at(x, y) == (PixelColor { r: 0, g: 0, b: 0 }) by {
            if 0 <= x < config.horizontal_resolution && 0 <= y < config.vertical_resolution {
                lemma_pixel_in_buffer(p as int, v as int, x, y);
            }
        }
        w
    }

    /// The byte offset of pixel (x, y).
    fn pixel_at_offset(&self, x: i32, y: i32) -> (off: usize)
        requires
            self.inv(),
            0 <= x < self.config.horizontal_resolution,
            0 <= y < self.config.vertical_resolution,
        ensures
            off == pixel_offset(self.config.pixels_per_scan_line as int, x as int, y as int),
            off + 4 <= self.buffer@.len(),
    {
        proof {
            lemma_pixel_in_buffer(
                self.config.pixels_per_scan_line as int,
                self.config.vertical_resolution as int,
                x as int,
                y as int,
            );
        }
        let p: usize = self.config.pixels_per_scan_line as usize;
        let n: usize = self.buffer.len();
        assert(p * y <= p * y + x);
        4 * (p * y as usize + x as usize)
    }

    /// The color of pixel (x, y).
    pub fn read(&self, x: i32, y: i32) -> (c: PixelColor)
        requires
            self.inv(),
            in_area(self.area(), x as int, y as int),
        ensures
            c == self.pixel_at(x as int, y as int),
    {
        let p: usize = self.pixel_at_offset(x, y);
        match self.config.pixel_format {
            PixelFormat::KPixelRGBResv8BitPerColor => PixelColor::new(
                self.buffer[p],
                self.buffer[p + 1],
                self.buffer[p + 2],
            ),
            PixelFormat::KPixelBGRResv8BitPerColor => PixelColor::new(
                self.buffer[p + 2],
                self.buffer[p + 1],
                self.buffer[p],
            ),
        }
    }

    /// The geometry of the buffer.
    pub fn config(&self) -> (c: &FrameBufferConfig)
        ensures
            *c == self.spec_config(),
    {
        &self.config
    }

    fn write_rgb(&mut self, x: i32, y: i32, color: &PixelColor)
        requires
            old(self).inv(),
            old(self).config.pixel_format == PixelFormat::KPixelRGBResv8BitPerColor,
            0 <= x < old(self).config.horizontal_resolution,
            0 <= y < old(self).config.vertical_resolution,
        ensures
            final(self).config == old(self).config,
            final(self).buffer@.len() == old(self).buffer@.len(),
            forall|i: int|
                0 <= i < old(self).buffer@.len() ==> #[trigger] final(self).buffer@[i] == if i
                    == pixel_offset(old(self).config.pixels_per_scan_line as int, x as int, y as int) {
                    color.r
                } else if i == pixel_offset(
                    old(self).config.pixels_per_scan_line as int,
                    x as int,
                    y as int,
                ) + 1 {
                    color.g
                } else if i == pixel_offset(
                    old(self).config.pixels_per_scan_line as int,
                    x as int,
                    y as int,
                ) + 2 {
                    color.b
                } else {
                    old(self).buffer@[i]
                },
    {
        let p: usize = self.pixel_at_offset(x, y);
        self.buffer.set(p, color.r);
        self.buffer.set(p + 1, color.g);
        self.buffer.set(p + 2, color.b);
    }

    fn write_bgr(&mut self, x: i32, y: i32, color: &PixelColor)
        requires
            old(self).inv(),
            old(self).config.pixel_format == PixelFormat::KPixelBGRResv8BitPerColor,
            0 <= x < old(self).config.horizontal_resolution,
            0 <= y < old(self).config.vertical_resolution,
        ensures
            final(self).config == old(self).config,
            final(self).buffer@.len() == old(self).buffer@.len(),
            forall|i: int|
                0 <= i < old(self).buffer@.len() ==> #[trigger] final(self).buffer@[i] == if i
                    == pixel_offset(old(self).config.pixels_per_scan_line as int, x as int, y as int) {
                    color.b
                } else if i == pixel_offset(
                    old(self).config.pixels_per_scan_line as int,
                    x as int,
                    y as int,
                ) + 1 {
                    color.g
                } else if i == pixel_offset(
                    old(self).config.pixels_per_scan_line as int,
                    x as int,
                    y as int,
                ) + 2 {
                    color.r
                } else {
                    old(self).buffer@[i]
                },
    {
        let p: usize = self.pixel_at_offset(x, y);
        self.buffer.set(p, color.b);
        self.buffer.set(p + 1, color.g);
        self.buffer.set(p + 2, color.r);
    }
}

impl PixelWriter for FrameBufferWriter {
    type Frame = FrameBufferConfig;

    open spec fn frame(&self) -> FrameBufferConfig {
        self.spec_config()
    }

    open spec fn inv(&self) -> bool {
        &&& config_ok(self.spec_config())
        &&& self.bytes().len() == 4 * self.spec_config().pixels_per_scan_line
            * self.spec_config().vertical_resolution
    }

    /// The color of pixel (x, y); black outside the screen.
    open spec fn pixel_at(&self, x: int, y: int) -> PixelColor {
        if 0 <= x < self.spec_config().horizontal_resolution && 0 <= y
            < self.spec_config().vertical_resolution {
            decode_pixel(
                self.spec_config().pixel_format,
                self.bytes(),
                pixel_offset(self.spec_config().pixels_per_scan_line as int, x, y),
            )
        } else {
            PixelColor { r: 0, g: 0, b: 0 }
        }
    }

    open spec fn area(&self) -> (int, int, int, int) {
        (
            0,
            0,
            self.spec_config().horizontal_resolution as int,
            self.spec_config().vertical_resolution as int,
        )
    }

    open spec fn spec_width(&self) -> int {
        self.spec_config().horizontal_resolution as int
    }

    open spec fn spec_height(&self) -> int {
        self.spec_config().vertical_resolution as int
    }

    fn write(&mut self, x: i32, y: i32, color: &PixelColor)
        ensures
            final(self).spec_config() == old(self).spec_config(),
    {
        let ghost old_self = *self;
        let ghost p = self.config.pixels_per_scan_line as int;
        match self.config.pixel_format {
            PixelFormat::KPixelRGBResv8BitPerColor => self.write_rgb(x, y, color),
            PixelFormat::KPixelBGRResv8BitPerColor => self.write_bgr(x, y, color),
        }
        assert forall|a: int, b: int|
            #[trigger] self.pixel_at(a, b) == if a == x && b == y {
                *color
            } else {
                old_self.pixel_at(a, b)
            } by {
            if 0 <= a < self.config.horizontal_resolution && 0 <= b
                < self.config.vertical_resolution {
                lemma_pixel_in_buffer(p, self.config.vertical_resolution as int, a, b);
                if a != x || b != y {
                    lemma_pixels_apart(p, a, b, x as int, y as int);
                }
            }
        }
    }

    fn width(&self) -> (w: i32) {
        self.config.horizontal_resolution as i32
    }

    fn height(&self) -> (h: i32) {
        self.config.vertical_resolution as i32
    }
}

} // verus!

verus! {

/// A frame buffer in memory, with the writer that draws into it.
pub struct FrameBuffer {
    writer: FrameBufferWriter,
}

/// The half-open box `(x0, y0, x1, y1)` that `FrameBuffer::copy` writes: the
/// screen, the source buffer moved to `dst_pos - src_area.pos`, and
/// `src_area` moved to `dst_pos`, overlapped.
pub open spec fn copy_region(
    w: int,
    h: int,
    dst_pos: Vector2D<i32>,
    src_area: Rectangle<i32>,
) -> (int, int, int, int) {
    let sx = dst_pos.x - src_area.pos.x;
    let sy = dst_pos.y - src_area.pos.y;
    (
        max3(0, sx, dst_pos.x as int),
        max3(0, sy, dst_pos.y as int),
        min3(w, sx + w, dst_pos.x + src_area.size.x),
        min3(h, sy + h, dst_pos.y + src_area.size.y),
    )
}

pub open spec fn max3(a: int, b: int, c: int) -> int {
    let m = if a >= b { a } else { b };
    if m >= c { m } else { c }
}

pub open spec fn min3(a: int, b: int, c: int) -> int {
    let m = if a <= b { a } else { b };
    if m <= c { m } else { c }
}

fn max3_i64(a: i64, b: i64, c: i64) -> (r: i64)
    ensures
        r == max3(a as int, b as int, c as int),
{
    let m: i64 = if a >= b { a } else { b };
    if m >= c { m } else { c }
}

fn min3_i64(a: i64, b: i64, c: i64) -> (r: i64)
    ensures
        r == min3(a as int, b as int, c as int),
{
    let m: i64 = if a <= b { a } else { b };
    if m <= c { m } else { c }
}

impl FrameBuffer {
    pub closed spec fn spec_writer(&self) -> FrameBufferWriter {
        self.writer
    }

    pub open spec fn wf(&self) -> bool {
        self.spec_writer().inv()
    }

    /// The color shown at (x, y).
    pub open spec fn pixel(&self, x: int, y: int) -> PixelColor {
        self.spec_writer().pixel_at(x, y)
    }

    pub open spec fn spec_config(&self) -> FrameBufferConfig {
        self.spec_writer().spec_config()
    }

    /// A black frame buffer of the configured resolution, one line holding
    /// exactly one row of pixels.
    pub fn new(config: FrameBufferConfig) -> (fb: FrameBuffer)
        requires
            config_ok(FrameBufferConfig { pixels_per_scan_line: config.horizontal_resolution, ..config }),
        ensures
            fb.wf(),
            fb.spec_config() == (FrameBufferConfig {
                pixels_per_scan_line: config.horizontal_resolution,
                ..config
            }),
            forall|x: int, y: int| #[trigger] fb.pixel(x, y) == (PixelColor { r: 0, g: 0, b: 0 }),
    {
        let c = FrameBufferConfig::new(
            config.horizontal_resolution,
            config.vertical_resolution,
            config.horizontal_resolution,
            config.pixel_format,
        );
        FrameBuffer { writer: FrameBufferWriter::new(c) }
    }

    /// The writer that draws into the buffer.
    pub fn writer(&mut self) -> (w: &mut FrameBufferWriter)
        ensures
            *w == old(self).spec_writer(),
            final(self).spec_writer() == *final(w),
    {
        &mut self.writer
    }

    /// The geometry of the buffer.
    pub fn config(&self) -> (c: &FrameBufferConfig)
        ensures
            *c == self.spec_config(),
    {
        self.writer.config()
    }

    /// The color of pixel (x, y).
    pub(crate) fn pixel_color(&self, x: i32, y: i32) -> (c: PixelColor)
        requires
            self.wf(),
            in_area(self.spec_writer().area(), x as int, y as int),
        ensures
            c == self.pixel(x as int, y as int),
    {
        self.writer.read(x, y)
    }

    /// Copies the pixels of `src` in `src_area` to `dst_pos`, as far as they
    /// lie inside both buffers (see `copy_region`).
    pub fn copy(&mut self, dst_pos: Vector2D<i32>, src: &FrameBuffer, src_area: Rectangle<i32>)
        requires
            old(self).wf(),
            src.wf(),
            old(self).spec_config().pixel_format == src.spec_config().pixel_format,
            ({
                let r = copy_region(
                    old(self).spec_config().horizontal_resolution as int,
                    old(self).spec_config().vertical_resolution as int,
                    dst_pos,
                    src_area,
                );
                forall|a: int, b: int|
                    in_area(r, a, b) ==> in_area(
                        src.spec_writer().area(),
                        a - (dst_pos.x - src_area.pos.x),
                        b - (dst_pos.y - src_area.pos.y),
                    )
            }),
        ensures
            final(self).wf(),
            final(self).spec_config() == old(self).spec_config(),
            forall|a: int, b: int|
                #[trigger] final(self).pixel(a, b) == if in_area(
                    copy_region(
                        old(self).spec_config().horizontal_resolution as int,
                        old(self).spec_config().vertical_resolution as int,
                        dst_pos,
                        src_area,
                    ),
                    a,
                    b,
                ) {
                    src.pixel(a - (dst_pos.x - src_area.pos.x), b - (dst_pos.y - src_area.pos.y))
                } else {
                    old(self).pixel(a, b)
                },
    {
        let ghost old_self = *self;
        let w: i64 = self.writer.config.horizontal_resolution as i64;
        let h: i64 = self.writer.config.vertical_resolution as i64;
        let sx: i64 = dst_pos.x as i64 - src_area.pos.x as i64;
        let sy: i64 = dst_pos.y as i64 - src_area.pos.y as i64;
        let x0: i64 = max3_i64(0, sx, dst_pos.x as i64);
        let y0: i64 = max3_i64(0, sy, dst_pos.y as i64);
        let x1: i64 = min3_i64(w, sx + w, dst_pos.x as i64 + src_area.size.x as i64);
        let y1: i64 = min3_i64(h, sy + h, dst_pos.y as i64 + src_area.size.y as i64);
        let ghost region = (x0 as int, y0 as int, x1 as int, y1 as int);
        assert(region == copy_region(w as int, h as int, dst_pos, src_area));
        let mut y: i64 = y0;
        while y < y1
            invariant
                self.wf(),
                src.wf(),
                self.spec_config() == old_self.spec_config(),
                w == self.spec_config().horizontal_resolution,
                h == self.spec_config().vertical_resolution,
                0 <= x0,
                0 <= y0,
                x1 <= w,
                y1 <= h,
                y0 <= y,
                y <= y1 || y == y0,
                region == (x0 as int, y0 as int, x1 as int, y1 as int),
                forall|a: int, b: int|
                    in_area(region, a, b) ==> in_area(src.spec_writer().area(), a - sx, b - sy),
                forall|a: int, b: int|
                    #[trigger] self.pixel(a, b) == if x0 <= a < x1 && y0 <= b < y {
                        src.pixel(a - sx, b - sy)
                    } else {
                        old_self.pixel(a, b)
                    },
            decreases y1 - y,
        {
            let mut x: i64 = x0;
            while x < x1
                invariant
                    self.wf(),
                    src.wf(),
                    self.spec_config() == old_self.spec_config(),
                    w == self.spec_config().horizontal_resolution,
                    h == self.spec_config().vertical_resolution,
                    0 <= x0,
                    0 <= y0,
                    x1 <= w,
                    y1 <= h,
                    y0 <= y < y1,
                    x0 <= x,
                    x <= x1 || x == x0,
                    region == (x0 as int, y0 as int, x1 as int, y1 as int),
                    forall|a: int, b: int|
                        in_area(region, a, b) ==> in_area(src.spec_writer().area(), a - sx, b - sy),
                    forall|a: int, b: int|
                        #[trigger] self.pixel(a, b) == if (x0 <= a < x1 && y0 <= b < y) || (x0 <= a
                            < x && b == y) {
                            src.pixel(a - sx, b - sy)
                        } else {
                            old_self.pixel(a, b)
                        },
                decreases x1 - x,
            {
                assert(in_area(region, x as int, y as int));
                let c: PixelColor = src.writer.read((x - sx) as i32, (y - sy) as i32);
                let ghost prev = *self;
                self.writer.write(x as i32, y as i32, &c);
                assert forall|a: int, b: int|
                    #[trigger] self.pixel(a, b) == if (x0 <= a < x1 && y0 <= b < y) || (x0 <= a
                        < x + 1 && b == y) {
                        src.pixel(a - sx, b - sy)
                    } else {
                        old_self.pixel(a, b)
                    } by {
                    assert(self.writer.pixel_at(a, b) == if a == x && b == y {
                        c
                    } else {
                        prev.writer.pixel_at(a, b)
                    });
                    assert(self.pixel(a, b) == self.writer.pixel_at(a, b));
                    assert(prev.pixel(a, b) == prev.writer.pixel_at(a, b));
                    assert((x as i32) as int == x as int);
                    assert((y as i32) as int == y as int);
                }
                x += 1;
            }
            y += 1;
        }
    }

    /// Moves the pixels in `src` to `dst_pos` inside the buffer; the rows
    /// are walked away from the destination, so overlapping areas move
    /// intact.
    pub fn move_(&mut self, dst_pos: Vector2D<i32>, src: &Rectangle<i32>)
        requires
            old(self).wf(),
            src.size.x >= 0,
            src.size.y >= 0,
            in_rect_area(old(self).spec_writer().area(), src.pos, src.size),
            in_rect_area(old(self).spec_writer().area(), dst_pos, src.size),
        ensures
            final(self).wf(),
            final(self).spec_config() == old(self).spec_config(),
            forall|a: int, b: int|
                #[trigger] final(self).pixel(a, b) == if dst_pos.x <= a < dst_pos.x + src.size.x
                    && dst_pos.y <= b < dst_pos.y + src.size.y {
                    old(self).pixel(a - (dst_pos.x - src.pos.x), b - (dst_pos.y - src.pos.y))
                } else {
                    old(self).pixel(a, b)
                },
    {
        let ghost old_self = *self;
        let ghost dx = dst_pos.x - src.pos.x;
        let ghost dy = dst_pos.y - src.pos.y;
        if dst_pos.y < src.pos.y {
            let mut r: i32 = 0;
            while r < src.size.y
                invariant
                    self.wf(),
                    self.spec_config() == old_self.spec_config(),
                    0 <= r <= src.size.y,
                    dst_pos.y < src.pos.y,
                    src.size.x >= 0,
                    dx == dst_pos.x - src.pos.x,
                    dy == dst_pos.y - src.pos.y,
                    in_rect_area(old_self.spec_writer().area(), src.pos, src.size),
                    in_rect_area(old_self.spec_writer().area(), dst_pos, src.size),
                    forall|a: int, b: int|
                        #[trigger] self.pixel(a, b) == if dst_pos.x <= a < dst_pos.x + src.size.x
                            && dst_pos.y <= b < dst_pos.y + r {
                            old_self.pixel(a - dx, b - dy)
                        } else {
                            old_self.pixel(a, b)
                        },
                decreases src.size.y - r,
            {
                self.move_row(src.pos.x, src.pos.y + r, dst_pos.x, dst_pos.y + r, src.size.x);
                r += 1;
            }
        } else {
            let mut r: i32 = src.size.y;
            while r > 0
                invariant
                    self.wf(),
                    self.spec_config() == old_self.spec_config(),
                    0 <= r <= src.size.y,
                    dst_pos.y >= src.pos.y,
                    src.size.x >= 0,
                    dx == dst_pos.x - src.pos.x,
                    dy == dst_pos.y - src.pos.y,
                    in_rect_area(old_self.spec_writer().area(), src.pos, src.size),
                    in_rect_area(old_self.spec_writer().area(), dst_pos, src.size),
                    forall|a: int, b: int|
                        #[trigger] self.pixel(a, b) == if dst_pos.x <= a < dst_pos.x + src.size.x
                            && dst_pos.y + r <= b < dst_pos.y + src.size.y {
                            old_self.pixel(a - dx, b - dy)
                        } else {
                            old_self.pixel(a, b)
                        },
                decreases r,
            {
                r -= 1;
                self.move_row(src.pos.x, src.pos.y + r, dst_pos.x, dst_pos.y + r, src.size.x);
            }
        }
    }

    /// Copies `n` pixels from row `sy` at `sx` to row `dy` at `dx`.
    fn move_row(&mut self, sx: i32, sy: i32, dx: i32, dy: i32, n: i32)
        requires
            old(self).wf(),
            n >= 0,
            in_rect_area(old(self).spec_writer().area(), Vector2D { x: sx, y: sy }, Vector2D { x: n, y: 1 }),
            in_rect_area(old(self).spec_writer().area(), Vector2D { x: dx, y: dy }, Vector2D { x: n, y: 1 }),
        ensures
            final(self).wf(),
            final(self).spec_config() == old(self).spec_config(),
            forall|a: int, b: int|
                #[trigger] final(self).pixel(a, b) == if dx <= a < dx + n && b == dy {
                    old(self).pixel(a - dx + sx, sy as int)
                } else {
                    old(self).pixel(a, b)
                },
    {
        let ghost old_self = *self;
        let mut row: Vec<PixelColor> = Vec::new();
        let mut i: i32 = 0;
        while i < n
            invariant
                self.wf(),
                *self == old_self,
                0 <= i <= n,
                row@.len() == i,
                in_rect_area(old_self.spec_writer().area(), Vector2D { x: sx, y: sy }, Vector2D { x: n, y: 1 }),
                forall|k: int| 0 <= k < i ==> #[trigger] row@[k] == old_self.pixel(sx + k, sy as int),
            decreases n - i,
        {
            row.push(self.writer.read(sx + i, sy));
            i += 1;
        }
        let mut j: i32 = 0;
        while j < n
            invariant
                self.wf(),
                self.spec_config() == old_self.spec_config(),
                0 <= j <= n,
                row@.len() == n,
                in_rect_area(old_self.spec_writer().area(), Vector2D { x: dx, y: dy }, Vector2D { x: n, y: 1 }),
                forall|k: int| 0 <= k < n ==> #[trigger] row@[k] == old_self.pixel(sx + k, sy as int),
                forall|a: int, b: int|
                    #[trigger] self.pixel(a, b) == if dx <= a < dx + j && b == dy {
                        old_self.pixel(a - dx + sx, sy as int)
                    } else {
                        old_self.pixel(a, b)
                    },
            decreases n - j,
        {
            let c: PixelColor = row[j as usize];
            let ghost prev = *self;
            self.writer.write(dx + j, dy, &c);
            assert forall|a: int, b: int|
                #[trigger] self.pixel(a, b) == if dx <= a < dx + j + 1 && b == dy {
                    old_self.pixel(a - dx + sx, sy as int)
                } else {
                    old_self.pixel(a, b)
                } by {
                assert(self.writer.pixel_at(a, b) == if a == dx + j && b == dy {
                    c
                } else {
                    prev.writer.pixel_at(a, b)
                });
                assert(self.pixel(a, b) == self.writer.pixel_at(a, b));
                assert(prev.pixel(a, b) == prev.writer.pixel_at(a, b));
                if a == dx + j && b == dy {
                    assert(row@[j as int] == old_self.pixel(sx + j, sy as int));
                }
            }
            j += 1;
        }
    }
}

/// Whether the rectangle at `pos` of `size` (with `size` not negative) lies
/// inside `area`.
pub open spec fn in_rect_area(area: (int, int, int, int), pos: Vector2D<i32>, size: Vector2D<i32>) -> bool {
    area.0 <= pos.x && pos.x + size.x <= area.2 && area.1 <= pos.y && pos.y + size.y <= area.3
}

} // verus!
