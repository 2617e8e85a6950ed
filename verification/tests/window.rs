use rusty_mikanos::font::{
    convert_utf8_to_u32, count_utf8_size, write_ascii, write_string, write_unicode,
};
use rusty_mikanos::frame_buffer::FrameBuffer;
use rusty_mikanos::graphics::{
    draw_desktop, draw_rectangle, fill_rectangle, PixelColor, PixelWriter, Rectangle, Vector2D,
};
use rusty_mikanos::shared::{FrameBufferConfig, PixelFormat};
use rusty_mikanos::window::{Window, WindowWriter};

const BLACK: PixelColor = PixelColor { r: 0, g: 0, b: 0 };

fn red() -> PixelColor {
    PixelColor::new(255, 0, 0)
}

fn fb(w: u32, h: u32) -> FrameBuffer {
    FrameBuffer::new(FrameBufferConfig::new(w, h, 0, PixelFormat::KPixelBGRResv8BitPerColor))
}

/// A font with one glyph: 'A', whose first row is the leftmost pixel.
fn font() -> Vec<u8> {
    let mut f = vec![0u8; 4096];
    f[16 * 'A' as usize] = 0x80;
    f[16 * '?' as usize + 15] = 0x01;
    f
}

#[test]
fn frame_buffer_starts_black_and_keeps_writes() {
    let mut b = fb(4, 3);
    assert_eq!(b.config().pixels_per_scan_line, 4);
    assert_eq!(b.writer().read(3, 2), BLACK);
    b.writer().write(3, 2, &red());
    assert_eq!(b.writer().read(3, 2), red());
    assert_eq!(b.writer().read(2, 2), BLACK);
}

#[test]
fn fill_and_outline() {
    let mut b = fb(5, 5);
    let w = b.writer();
    fill_rectangle(w, &Vector2D::new(1, 1), &Vector2D::new(2, 3), &red());
    assert_eq!(w.read(1, 1), red());
    assert_eq!(w.read(2, 3), red());
    assert_eq!(w.read(3, 1), BLACK);
    assert_eq!(w.read(1, 4), BLACK);
    let blue = PixelColor::new(0, 0, 255);
    draw_rectangle(w, &Vector2D::new(0, 0), &Vector2D::new(5, 5), &blue);
    assert_eq!(w.read(4, 4), blue);
    assert_eq!(w.read(0, 2), blue);
    assert_eq!(w.read(2, 2), red());
}

#[test]
fn desktop_layout() {
    let mut b = fb(100, 60);
    draw_desktop(b.writer());
    let w = b.writer();
    assert_eq!(w.read(50, 5), PixelColor::new(45, 118, 237));
    assert_eq!(w.read(50, 15), PixelColor::new(1, 8, 17));
    assert_eq!(w.read(5, 15), PixelColor::new(80, 80, 80));
    assert_eq!(w.read(10, 20), PixelColor::new(160, 160, 160));
    assert_eq!(w.read(39, 49), PixelColor::new(160, 160, 160));
    assert_eq!(w.read(15, 25), PixelColor::new(80, 80, 80));
}

#[test]
fn copy_and_move() {
    let mut src = fb(4, 4);
    src.writer().write(1, 1, &red());
    let mut dst = fb(4, 4);
    dst.copy(Vector2D::new(2, 2), &src, Rectangle::new(Vector2D::new(1, 1), Vector2D::new(2, 2)));
    assert_eq!(dst.writer().read(2, 2), red());
    assert_eq!(dst.writer().read(1, 1), BLACK);

    dst.move_(Vector2D::new(0, 0), &Rectangle::new(Vector2D::new(2, 2), Vector2D::new(2, 2)));
    assert_eq!(dst.writer().read(0, 0), red());
    assert_eq!(dst.writer().read(2, 2), red());
    dst.move_(Vector2D::new(1, 1), &Rectangle::new(Vector2D::new(0, 0), Vector2D::new(2, 2)));
    assert_eq!(dst.writer().read(1, 1), red());
}

#[test]
fn glyphs_and_utf8() {
    let f = font();
    let mut b = fb(40, 20);
    write_ascii(b.writer(), &f, 3, 2, 'A', &red());
    assert_eq!(b.writer().read(3, 2), red());
    assert_eq!(b.writer().read(4, 2), BLACK);
    write_string(b.writer(), &f, 0, 0, "\u{3042}A", &red());
    assert_eq!(b.writer().read(16, 0), red());
    write_unicode(b.writer(), &f, 20, 0, '\u{3042}', &red());
    assert_eq!(b.writer().read(27, 15), red());
    assert_eq!(b.writer().read(35, 15), red());

    assert_eq!(count_utf8_size(b'a'), 1);
    assert_eq!(count_utf8_size(0xe3), 3);
    assert_eq!(count_utf8_size(0x80), 0);
    assert_eq!(convert_utf8_to_u32("\u{3042}".as_bytes()), 0x3042);
    assert_eq!(convert_utf8_to_u32("\u{1f600}".as_bytes()), 0x1f600);
}

#[test]
fn window_draws_to_frame_buffer() {
    let mut w = Window::new(2, 2, PixelFormat::KPixelBGRResv8BitPerColor);
    assert_eq!(w.size(), Vector2D::new(2, 2));
    w.write(0, 0, &red());
    let mut screen = fb(4, 4);
    w.draw_to(&mut screen, Vector2D::new(1, 1), Rectangle::new(Vector2D::new(0, 0), Vector2D::new(4, 4)));
    assert_eq!(screen.writer().read(1, 1), red());
    assert_eq!(screen.writer().read(2, 2), BLACK);

    let mut screen = fb(4, 4);
    screen.writer().write(2, 2, &PixelColor::new(9, 9, 9));
    w.set_transparent_color(BLACK);
    w.draw_to(&mut screen, Vector2D::new(1, 1), Rectangle::new(Vector2D::new(0, 0), Vector2D::new(0, 0)));
    assert_eq!(screen.writer().read(1, 1), red());
    assert_eq!(screen.writer().read(2, 2), PixelColor::new(9, 9, 9));
}

#[test]
fn titled_window() {
    let f = font();
    let mut w = Window::new_with_title(60, 40, PixelFormat::KPixelRGBResv8BitPerColor, "A", &f);
    assert_eq!(w.inner_size(), Vector2D::new(52, 12));
    assert_eq!(PixelWriter::width(&w), 52);
    let mut ww = WindowWriter { w };
    // The frame, the title bar, the glyph of the title and the close button.
    assert_eq!(read(&mut ww, 59, 10), BLACK);
    assert_eq!(read(&mut ww, 0, 10), PixelColor::new(0xc6, 0xc6, 0xc6));
    assert_eq!(read(&mut ww, 10, 10), PixelColor::new(0x84, 0x84, 0x84));
    assert_eq!(read(&mut ww, 24, 4), PixelColor::new(0xff, 0xff, 0xff));
    assert_eq!(read(&mut ww, 39, 5), PixelColor::new(0xff, 0xff, 0xff));
    assert_eq!(read(&mut ww, 54, 5), BLACK);
    let mut w = ww.w;
    w.activate(&f);
    let mut ww = WindowWriter { w };
    assert_eq!(read(&mut ww, 10, 10), PixelColor::new(0, 0, 0x84));
}

/// The color of (x, y), read back from a copy of the whole window.
fn read(ww: &mut WindowWriter, x: i32, y: i32) -> PixelColor {
    let size = ww.w.size();
    let mut screen = FrameBuffer::new(FrameBufferConfig::new(
        size.x as u32,
        size.y as u32,
        0,
        PixelFormat::KPixelRGBResv8BitPerColor,
    ));
    ww.w.draw_to(
        &mut screen,
        Vector2D::new(0, 0),
        Rectangle::new(Vector2D::new(0, 0), Vector2D::new(size.x as i32, size.y as i32)),
    );
    screen.writer().read(x, y)
}

#[test]
fn print_hex_draws_lowest_digits() {
    let mut f = vec![0u8; 4096];
    f[16 * '1' as usize] = 0x80;
    f[16 * 'a' as usize] = 0x80;
    let mut b = fb(40, 20);
    fill_rectangle(b.writer(), &Vector2D::new(0, 0), &Vector2D::new(40, 20), &red());
    assert_eq!(rusty_mikanos::interrupt::hex_chars(0x21a, 3), vec!['2', '1', 'a']);
    rusty_mikanos::interrupt::print_hex(b.writer(), &f, 0x21a, 2, 0, 0);
    // '1' lands at x = 0 and 'a' at x = 8, in the colour the fault screen uses.
    assert_eq!(b.writer().read(0, 0), BLACK);
    assert_eq!(b.writer().read(8, 0), BLACK);
    assert_eq!(b.writer().read(1, 0), red());
    assert_eq!(b.writer().read(16, 0), red());
}

#[test]
fn window_size_and_error_names() {
    let w = Window::new(5, 3, PixelFormat::KPixelBGRResv8BitPerColor);
    assert_eq!((w.width(), w.height()), (5, 3));
    let e = rusty_mikanos::error::Error::new(rusty_mikanos::error::Code::Full, "queue.rs", 1);
    assert_eq!(e.name(), "Full");
    let e = rusty_mikanos::error::Error::new(rusty_mikanos::error::Code::NoSuchTask, "task.rs", 1);
    assert_eq!(e.name(), "NoSuchTask");
}
