use rusty_mikanos::console::{new_console_window, Console, Mode};
use rusty_mikanos::fat::Bpb;
use rusty_mikanos::file_descriptor::{PipeDescriptor, TerminalFileDescriptor};
use rusty_mikanos::frame_buffer::FrameBuffer;
use rusty_mikanos::graphics::{PixelColor, Rectangle, Vector2D};
use rusty_mikanos::layer::{LayerID, LayerManager};
use rusty_mikanos::message::{
    KeyPushMessage, LayerMessage, LayerOperation, Message, MessageType, MouseMoveMessage, PipeMessage,
    WindowActiveMode, WindowCloseMessage,
};
use rusty_mikanos::mouse::{draw_mouse_cursor, new_mouse_cursor_window, send_mouse_message, Mouse};
use rusty_mikanos::shared::{FrameBufferConfig, PixelFormat};
use rusty_mikanos::task::{TaskID, TaskManager};
use rusty_mikanos::terminal::{
    execute_echo, find_pipe_dest, find_redirect_dest, join_to_string, plan_command, terminal_step, CommandKind,
    KeyResult, Terminal, TerminalAction, TerminalLoop, KEY_UP,
};
use rusty_mikanos::terminal_writer::TerminalWriter;
use rusty_mikanos::window::{Window, WindowRegion, WindowWriter};

const FMT: PixelFormat = PixelFormat::KPixelBGRResv8BitPerColor;

/// A font in which 'a' and 'A' set only their top left pixel.
fn font() -> Vec<u8> {
    let mut f = vec![0u8; 4096];
    f[16 * 'a' as usize] = 0x80;
    f[16 * 'A' as usize] = 0x80;
    f
}

fn pixel(lm: &LayerManager, id: LayerID, x: usize, y: usize) -> PixelColor {
    lm.get_layer(id).unwrap().get_window_ref().at(x, y)
}

fn terminal_setup(f: &[u8]) -> (LayerManager, LayerID, TaskManager) {
    let cfg = FrameBufferConfig::new(8, 8, 8, FMT);
    let mut lm = LayerManager::new(&cfg);
    let window = Window::new_with_title(496, 276, FMT, "MikanTerm", f);
    let id = lm.new_layer(window).id();
    let mut tm = TaskManager::new();
    tm.new_task();
    (lm, id, tm)
}

#[test]
fn terminal_writer_prints_and_moves_cursor() {
    let f = font();
    let (mut lm, id, mut tm) = terminal_setup(&f);
    let mut w = TerminalWriter::new(id, TaskID::new(0));
    assert_eq!(w.calc_cursor_pos(), Vector2D::new(8, 28));
    w.print("a", &mut lm, &f, &mut tm);
    // 'a' drawn in the first cell, in COLOR_WHITE (0, 0, 0); the cursor moved on.
    assert_eq!(pixel(&lm, id, 8, 28), PixelColor::new(0, 0, 0));
    assert_eq!(w.calc_cursor_pos(), Vector2D::new(16, 28));
    let m = tm.get_task_mut(TaskID::new(0)).receive_message().unwrap();
    assert_eq!(
        m.m_type,
        MessageType::Layer(LayerMessage {
            layer_id: id,
            op: LayerOperation::DrawArea(Rectangle::new(Vector2D::new(4, 28), Vector2D::new(488, 16))),
            src_task_id: TaskID::new(0),
        })
    );
    w.print("\n", &mut lm, &f, &mut tm);
    assert_eq!(w.calc_cursor_pos(), Vector2D::new(8, 44));
    // a character that is not ASCII takes two cells
    w.print("é", &mut lm, &f, &mut tm);
    assert_eq!(w.calc_cursor_pos(), Vector2D::new(24, 44));
    w.back_space(&mut lm);
    assert_eq!(w.calc_cursor_pos(), Vector2D::new(16, 44));
    assert_eq!(pixel(&lm, id, 16, 44), PixelColor::new(255, 255, 255));
    assert!(w.can_write_on_this_line());
    w.input_ascii('A', &mut lm, &f);
    assert_eq!(pixel(&lm, id, 16, 44), PixelColor::new(0, 0, 0));
    w.clear(&mut lm);
    assert_eq!(w.calc_cursor_pos(), Vector2D::new(8, 28));
    assert_eq!(pixel(&lm, id, 8, 28), PixelColor::new(255, 255, 255));
}

#[test]
fn terminal_writer_cursor_blinks_and_scrolls() {
    let f = font();
    let (mut lm, id, _tm) = terminal_setup(&f);
    let mut w = TerminalWriter::new(id, TaskID::new(0));
    let area = w.blink_cursor(&mut lm);
    assert_eq!(area, Rectangle::new(Vector2D::new(8, 28), Vector2D::new(7, 15)));
    assert_eq!(pixel(&lm, id, 8, 28), PixelColor::new(0, 0, 0));
    w.blink_cursor(&mut lm);
    assert_eq!(pixel(&lm, id, 8, 28), PixelColor::new(255, 255, 255));
    w.input_ascii('a', &mut lm, &f);
    for _ in 0..14 {
        w.new_line(&mut lm);
    }
    assert_eq!(w.calc_cursor_pos(), Vector2D::new(8, 28 + 16 * 14));
    // On the last row a line feed scrolls: row 0 takes what row 1 held (the
    // window's gray), so the 'a' is gone, and the last row is cleared.
    let below = pixel(&lm, id, 8, 44);
    w.new_line(&mut lm);
    assert_eq!(w.calc_cursor_pos(), Vector2D::new(8, 28 + 16 * 14));
    assert_eq!(pixel(&lm, id, 8, 28), below);
    assert_eq!(pixel(&lm, id, 8, 28 + 16 * 14), PixelColor::new(255, 255, 255));
    let r = w.history_up_down("aa", &mut lm, &f);
    assert_eq!(r, Rectangle::new(Vector2D::new(16, 252), Vector2D::new(472, 16)));
    assert_eq!(w.calc_cursor_pos(), Vector2D::new(32, 252));
    assert_eq!(pixel(&lm, id, 16, 252), PixelColor::new(0, 0, 0));
}

#[test]
fn terminal_edits_lines_and_history() {
    let f = font();
    let (mut lm, id, mut tm) = terminal_setup(&f);
    let mut w = TerminalWriter::new(id, TaskID::new(0));
    let mut t = Terminal::new(TaskID::new(0));
    t.set_layer_id(id);
    assert_eq!(t.layer_id(), id);
    t.finish_command(&mut w, &mut lm, &f, &mut tm);
    for c in "ls".chars() {
        match t.input_key(0, 0, c, &mut w, &mut lm, &f) {
            KeyResult::Redraw(_) => {}
            KeyResult::Execute(_) => panic!("no line feed yet"),
        }
    }
    match t.input_key(0, 0, '\x08', &mut w, &mut lm, &f) {
        KeyResult::Redraw(a) => assert_eq!(a.pos, Vector2D::new(24, 28)),
        KeyResult::Execute(_) => panic!("a backspace runs nothing"),
    }
    t.input_key(0, 0, 's', &mut w, &mut lm, &f);
    match t.input_key(0, 0, '\n', &mut w, &mut lm, &f) {
        KeyResult::Execute(line) => assert_eq!(line, "ls"),
        KeyResult::Redraw(_) => panic!("a line feed runs the line"),
    }
    let area = t.finish_command(&mut w, &mut lm, &f, &mut tm);
    assert_eq!(area, Rectangle::new(Vector2D::new(4, 24), Vector2D::new(488, 248)));
    match t.input_key(0, KEY_UP, '\0', &mut w, &mut lm, &f) {
        KeyResult::Redraw(a) => assert_eq!(a, Rectangle::new(Vector2D::new(16, 44), Vector2D::new(472, 16))),
        KeyResult::Execute(_) => panic!("an arrow runs nothing"),
    }
    match t.input_key(0, 0, '\n', &mut w, &mut lm, &f) {
        KeyResult::Execute(line) => assert_eq!(line, "ls"),
        KeyResult::Redraw(_) => panic!("a line feed runs the line"),
    }
    t.set_last_exit_code(3);
    assert_eq!(t.last_exit_code(), 3);
}

#[test]
fn commands_are_planned() {
    assert!(plan_command("   ").is_none());
    let p = plan_command("echo a > out").unwrap();
    assert_eq!(p.argv, vec!["echo", "a"]);
    assert_eq!(p.redirect_dest, Some("out"));
    assert_eq!(p.pipe_command, None);
    assert_eq!(p.kind, CommandKind::Echo);
    let p = plan_command("cat f | grep x").unwrap();
    assert_eq!(p.argv, vec!["cat", "f"]);
    assert_eq!(p.pipe_command, Some("grep x ".to_string()));
    assert_eq!(p.kind, CommandKind::Cat);
    let p = plan_command("> out").unwrap();
    assert!(p.argv.is_empty());
    assert_eq!(p.kind, CommandKind::Other);
    assert_eq!(plan_command("hello").unwrap().kind, CommandKind::Other);
    assert_eq!(plan_command("memstat").unwrap().kind, CommandKind::Memstat);
    assert_eq!(find_redirect_dest(&["a", ">", "b"]), Some(2));
    assert_eq!(find_redirect_dest(&["a", ">"]), None);
    assert_eq!(find_pipe_dest(&["a", "|", "b", "|", "c"]), Some(2));
    assert_eq!(find_pipe_dest(&["a"]), None);
    assert_eq!(join_to_string(' ', &["a", "bc"]), "a bc ");
    assert_eq!(join_to_string(',', &[]), "");
}

#[test]
fn pipes_carry_bytes_in_pieces() {
    let mut tm = TaskManager::new();
    let reader = tm.new_task().id();
    let mut pipe = PipeDescriptor::new(reader);
    let mut w = pipe.copy_for_write();
    let data: Vec<u8> = (1..=20).collect();
    assert_eq!(w.write(&data, &mut tm), 20);
    let m1 = tm.get_task_mut(reader).receive_message().unwrap();
    let m2 = tm.get_task_mut(reader).receive_message().unwrap();
    let p1 = match m1.m_type {
        MessageType::Pipe(p) => p,
        _ => panic!("a pipe message"),
    };
    let p2 = match m2.m_type {
        MessageType::Pipe(p) => p,
        _ => panic!("a pipe message"),
    };
    assert_eq!(p1.len, 16);
    assert_eq!(p2.len, 4);
    assert_eq!(&p2.data[..5], &[17, 18, 19, 20, 0]);
    let mut buf = [0u8; 16];
    assert_eq!(pipe.read_buffered(&mut buf), None);
    assert_eq!(pipe.read_message(&mut buf, p1), 16);
    assert_eq!(buf[15], 16);
    // An empty buffer keeps the bytes for later.
    let mut none: [u8; 0] = [];
    assert_eq!(pipe.read_message(&mut none, p2), 0);
    let mut small = [0u8; 3];
    assert_eq!(pipe.read_buffered(&mut small), Some(3));
    assert_eq!(small, [17, 18, 19]);
    assert_eq!(pipe.read_buffered(&mut small), Some(1));
    assert_eq!(small[0], 20);
    assert_eq!(pipe.read_message(&mut small, PipeMessage { data: [0; 16], len: 0 }), 0);
    w.finish_write(&mut tm);
    match tm.get_task_mut(reader).receive_message().unwrap().m_type {
        MessageType::Pipe(p) => assert_eq!(p.len, 0),
        _ => panic!("a pipe message"),
    }
    assert_eq!(pipe.size(), 0);
}

#[test]
fn terminal_file_descriptor_prints() {
    let f = font();
    let (mut lm, id, mut tm) = terminal_setup(&f);
    let mut w = TerminalWriter::new(id, TaskID::new(0));
    let mut d = TerminalFileDescriptor::new(TaskID::new(0));
    assert_eq!(d.write(b"aa\0zz", &mut w, &mut lm, &f, &mut tm), 2);
    assert_eq!(w.calc_cursor_pos(), Vector2D::new(24, 28));
    assert_eq!(d.write(b"\xff\0", &mut w, &mut lm, &f, &mut tm), 0);
    assert_eq!(d.size(), 0);
    let mut buf = [1u8; 2];
    assert_eq!(d.load(&mut buf, 0), 0);
    assert_eq!(buf, [1, 1]);
}

#[test]
fn mouse_cursor_shape() {
    let mut ww = WindowWriter { w: new_mouse_cursor_window(FMT) };
    draw_mouse_cursor(&mut ww, &Vector2D::new(0, 0));
    assert_eq!(ww.w.at(0, 0), PixelColor::new(255, 255, 255));
    assert_eq!(ww.w.at(1, 2), PixelColor::new(0, 0, 0));
    assert_eq!(ww.w.at(5, 0), PixelColor::new(0, 0, 1));
    assert_eq!(ww.w.at(14, 14), PixelColor::new(255, 255, 255));
}

#[test]
fn window_regions() {
    let f = font();
    let w = Window::new_with_title(100, 60, FMT, "t", &f);
    assert_eq!(w.get_window_region(Vector2D::new(1, 30)), WindowRegion::Border);
    assert_eq!(w.get_window_region(Vector2D::new(10, 10)), WindowRegion::TitleBar);
    assert_eq!(w.get_window_region(Vector2D::new(85, 10)), WindowRegion::CloseButton);
    assert_eq!(w.get_window_region(Vector2D::new(10, 40)), WindowRegion::Other);
    assert_eq!(Window::new(10, 10, FMT).get_window_region(Vector2D::new(0, 0)), WindowRegion::Other);
}

#[test]
fn mouse_drags_a_window_by_its_title_bar() {
    let f = font();
    let cfg = FrameBufferConfig::new(200, 200, 200, FMT);
    let mut lm = LayerManager::new(&cfg);
    let mut tm = TaskManager::new();
    tm.new_task();
    let win = lm.new_layer(Window::new_with_title(100, 60, FMT, "t", &f)).id();
    lm.get_layer_mut(win).unwrap().set_draggable(true);
    lm.up_down(win, 0);
    let mouse_layer = lm.new_layer(new_mouse_cursor_window(FMT)).id();
    lm.up_down(mouse_layer, 1);
    lm.set_mouse_layer_id(mouse_layer);
    let mut mouse = Mouse::new(mouse_layer);
    mouse.set_position(Vector2D::new(10, 10), &mut lm);
    assert_eq!(lm.get_layer(mouse_layer).unwrap().position(), Vector2D::new(10, 10));
    // Press on the title bar: the window becomes active and is dragged.
    mouse.on_interrupt(1, 0, 0, Vector2D::new(200, 200), &mut lm, &f, &mut tm);
    assert_eq!(lm.get_active_layer_id(), Some(win));
    mouse.on_interrupt(1, 5, 7, Vector2D::new(200, 200), &mut lm, &f, &mut tm);
    assert_eq!(lm.get_layer(win).unwrap().position(), Vector2D::new(5, 7));
    assert_eq!(lm.get_layer(mouse_layer).unwrap().position(), Vector2D::new(15, 17));
    // Release, then move: the window stays, the mouse is kept on the screen.
    mouse.on_interrupt(0, -100, 0, Vector2D::new(200, 200), &mut lm, &f, &mut tm);
    assert_eq!(lm.get_layer(win).unwrap().position(), Vector2D::new(5, 7));
    assert_eq!(lm.get_layer(mouse_layer).unwrap().position(), Vector2D::new(0, 17));
}

#[test]
fn mouse_moves_reach_the_active_window_task() {
    let f = font();
    let cfg = FrameBufferConfig::new(200, 200, 200, FMT);
    let mut lm = LayerManager::new(&cfg);
    let mut tm = TaskManager::new();
    let task = tm.new_task().id();
    let win = lm.new_layer(Window::new(50, 50, FMT)).move_(Vector2D::new(20, 30)).id();
    lm.up_down(win, 0);
    lm.register_layer_task_relation(win, task);
    lm.activate_layer(Some(win), &f, &mut tm);
    while tm.get_task_mut(task).receive_message().is_some() {}
    send_mouse_message(Vector2D::new(25, 40), Vector2D::new(1, 2), 0, 0, &lm, &mut tm);
    let m = tm.get_task_mut(task).receive_message().unwrap();
    assert_eq!(m.m_type, MessageType::MouseMove(MouseMoveMessage { x: 5, y: 10, dx: 1, dy: 2, buttons: 0 }));
    send_mouse_message(Vector2D::new(25, 40), Vector2D::new(0, 0), 1, 0, &lm, &mut tm);
    match tm.get_task_mut(task).receive_message().unwrap().m_type {
        MessageType::MouseButton(b) => {
            assert_eq!((b.x, b.y, b.press, b.button), (5, 10, 1, 0));
        }
        _ => panic!("a button message"),
    }
    assert!(tm.get_task_mut(task).receive_message().is_none());
}

#[test]
fn console_window_shows_text() {
    let f = font();
    let mut c = Console::new(PixelColor::new(1, 2, 3), PixelColor::new(0, 0, 0));
    let mut window = new_console_window(FMT);
    c.reset_mode(Mode::ConsoleWindow, &mut window, &f);
    let mut screen = FrameBuffer::new(FrameBufferConfig::new(8, 8, 0, FMT));
    c.put_string("a\nA", screen.writer(), &mut window, &f);
    assert_eq!(window.at(0, 0), PixelColor::new(1, 2, 3));
    assert_eq!(window.at(0, 16), PixelColor::new(1, 2, 3));
    assert_eq!(window.at(1, 0), PixelColor::new(0, 0, 0));
}

#[test]
fn find_command_in_a_volume() {
    // No valid volume image in this test: `Bpb::new` refuses a short image.
    assert!(Bpb::new(vec![0u8; 10]).is_none());
}

#[test]
fn terminal_read_echoes_keys_and_reads_bytes() {
    let f = font();
    let (mut lm, id, mut tm) = terminal_setup(&f);
    let mut w = TerminalWriter::new(id, TaskID::new(0));
    let fd = TerminalFileDescriptor::new(TaskID::new(0));
    let key = |modifier: u8, keycode: u8, ascii: char, press: bool| {
        Message::new(MessageType::KeyPush(KeyPushMessage { modifier, keycode, ascii, press }))
    };
    let mut buf = [9u8; 2];
    assert_eq!(fd.read_key(&key(0, 4, 'a', true), &mut buf, &mut w, &mut lm, &f, &mut tm), Some(1));
    assert_eq!(buf, [b'a', 0]);
    assert_eq!(w.calc_cursor_pos(), Vector2D::new(16, 28));
    // A release and other messages are not read.
    assert_eq!(fd.read_key(&key(0, 4, 'a', false), &mut buf, &mut w, &mut lm, &f, &mut tm), None);
    assert_eq!(
        fd.read_key(&Message::new(MessageType::InterruptXhci), &mut buf, &mut w, &mut lm, &f, &mut tm),
        None
    );
    // Control-C is echoed as "^C" and not read; control-D ends the input.
    let mut buf = [9u8; 4];
    assert_eq!(fd.read_key(&key(1, 6, 'c', true), &mut buf, &mut w, &mut lm, &f, &mut tm), None);
    assert_eq!(w.calc_cursor_pos(), Vector2D::new(32, 28));
    assert_eq!(buf, [9u8; 4]);
    assert_eq!(fd.read_key(&key(0x10, 7, 'd', true), &mut buf, &mut w, &mut lm, &f, &mut tm), Some(0));
    assert_eq!(w.calc_cursor_pos(), Vector2D::new(48, 28));
}

#[test]
fn echo_prints_argument_or_last_exit_code() {
    assert_eq!(execute_echo(&["echo"], 3), ("\n".to_string(), 0));
    assert_eq!(execute_echo(&["echo", "hi"], 3), ("hi\n".to_string(), 0));
    assert_eq!(execute_echo(&["echo", "$?"], 127), ("127\n".to_string(), 0));
    assert_eq!(execute_echo(&["echo", "$?"], -40), ("-40\n".to_string(), 0));
    assert_eq!(
        execute_echo(&["echo", "$?"], i32::MIN),
        ("-2147483648\n".to_string(), 0)
    );
}

#[test]
fn terminal_step_decides_per_message() {
    let mut st = TerminalLoop { show_window: true, active: false };
    let timer = Message::new(MessageType::TimerTimeout { timeout: 10, value: 1 });
    assert_eq!(terminal_step(&mut st, &timer), TerminalAction::Blink { next_timeout: 60, blink: false });
    let active = Message::new(MessageType::WindowActive(WindowActiveMode::Activate));
    assert_eq!(terminal_step(&mut st, &active), TerminalAction::Nothing);
    assert_eq!(terminal_step(&mut st, &timer), TerminalAction::Blink { next_timeout: 60, blink: true });
    let press = Message::new(MessageType::KeyPush(KeyPushMessage { modifier: 0, keycode: 4, ascii: 'a', press: true }));
    assert_eq!(
        terminal_step(&mut st, &press),
        TerminalAction::Key { modifier: 0, keycode: 4, ascii: 'a', redraw: true }
    );
    let release = Message::new(MessageType::KeyPush(KeyPushMessage { modifier: 0, keycode: 4, ascii: 'a', press: false }));
    assert_eq!(terminal_step(&mut st, &release), TerminalAction::Nothing);
    let close = Message::new(MessageType::WindowClose(WindowCloseMessage { layer_id: LayerID::new(3) }));
    assert_eq!(terminal_step(&mut st, &close), TerminalAction::Close { layer_id: LayerID::new(3) });
}
