use rusty_mikanos::app_event::{AppEventArg, AppEventType};
use rusty_mikanos::fat::Bpb;
use rusty_mikanos::file_descriptor::TerminalFileDescriptor;
use rusty_mikanos::graphics::{PixelColor, Vector2D};
use rusty_mikanos::io::FileDescriptor;
use rusty_mikanos::layer::{LayerID, LayerManager};
use rusty_mikanos::message::{KeyPushMessage, Message, MessageType};
use rusty_mikanos::shared::{FrameBufferConfig, PixelFormat};
use rusty_mikanos::syscall::{
    close_window, create_timer, event_of_message, exit, get_current_tick, log_string, open_file, open_window,
    put_string, read_event, read_events, read_file, win_fill_rectangle, win_redraw, win_write_string, SyscallResult, E2BIG,
    EBADF, EFAULT, EINVAL, ENOENT, EPERM,
};
use rusty_mikanos::task::{PriorityLevel, Task, TaskID, TaskManager};
use rusty_mikanos::terminal_writer::TerminalWriter;
use rusty_mikanos::timer::{Timer, TimerManager};
use rusty_mikanos::window::Window;

const FMT: PixelFormat = PixelFormat::KPixelBGRResv8BitPerColor;

fn put16(img: &mut [u8], off: usize, v: u16) {
    img[off..off + 2].copy_from_slice(&v.to_le_bytes());
}

fn put32(img: &mut [u8], off: usize, v: u32) {
    img[off..off + 4].copy_from_slice(&v.to_le_bytes());
}

/// 128-byte clusters; the root (cluster 2) holds HELLO.TXT, 150 bytes in
/// clusters 3 and 4.
fn volume() -> Bpb {
    let mut img = vec![0u8; 768];
    put16(&mut img, 11, 128);
    img[13] = 1;
    put16(&mut img, 14, 1);
    img[16] = 1;
    put32(&mut img, 36, 1);
    put32(&mut img, 44, 2);
    put32(&mut img, 128 + 4 * 2, 0x0fff_ffff);
    put32(&mut img, 128 + 4 * 3, 4);
    put32(&mut img, 128 + 4 * 4, 0x0fff_fff8);
    img[256..267].copy_from_slice(b"HELLO   TXT");
    img[256 + 11] = 0x20;
    put16(&mut img, 256 + 26, 3);
    put32(&mut img, 256 + 28, 150);
    for b in &mut img[384..512] {
        *b = b'a';
    }
    for b in &mut img[512..640] {
        *b = b'b';
    }
    Bpb::new(img).unwrap()
}

/// A font in which 'A' sets only its top left pixel.
fn font() -> Vec<u8> {
    let mut f = vec![0u8; 4096];
    f[16 * 'A' as usize] = 0x80;
    f
}

#[test]
fn results_and_log_string() {
    assert!(SyscallResult::err(0, EBADF).is_err());
    assert!(!SyscallResult::ok(3).is_err());
    assert_eq!(SyscallResult::new(4, 5), SyscallResult { value: 4, error: 5 });
    assert_eq!(log_string(0, b"hi"), SyscallResult::err(0, EPERM));
    assert_eq!(log_string(6, b"hi"), SyscallResult::err(0, EPERM));
    assert_eq!(log_string(3, b"hi"), SyscallResult::ok(2));
    assert_eq!(log_string(1, &[b'x'; 1025]), SyscallResult::err(0, E2BIG));
}

#[test]
fn exit_and_tick() {
    let mut tm = TaskManager::new();
    tm.initialize(0, 0);
    assert_eq!(exit(&tm, 7), SyscallResult::new(0, 7));
    // The status is taken as a 32-bit signed number.
    assert_eq!(exit(&tm, 0x1_0000_0003), SyscallResult::new(0, 3));
    let timers = TimerManager::new();
    assert_eq!(get_current_tick(&timers), SyscallResult::new(0, 100));
}

#[test]
fn create_timer_converts_milliseconds_to_ticks() {
    let mut timers = TimerManager::new();
    let t = TaskID::new(3);
    assert_eq!(create_timer(&mut timers, t, 0, 0, 1000), SyscallResult::err(0, EINVAL));
    assert_eq!(timers.timers().len(), 1);
    assert_eq!(create_timer(&mut timers, t, 0, 5, 1234), SyscallResult::new(1230, 0));
    assert_eq!(timers.timers()[1], Timer::new(123, -5, t));
    assert_eq!(create_timer(&mut timers, t, 1, 2, 50), SyscallResult::new(50, 0));
    assert_eq!(timers.timers()[2], Timer::new(5, -2, t));
}

#[test]
fn open_file_then_read_file() {
    let bpb = volume();
    let mut task = Task::new(TaskID::new(1), PriorityLevel::new(1));
    assert_eq!(open_file(&mut task, &bpb, "@stdin", 0), SyscallResult::ok(0));
    assert_eq!(open_file(&mut task, &bpb, "hello.txt", 1), SyscallResult::err(0, EINVAL));
    assert_eq!(open_file(&mut task, &bpb, "missing", 0), SyscallResult::err(0, ENOENT));
    assert_eq!(open_file(&mut task, &bpb, "hello.txt/x", 0), SyscallResult::err(0, ENOENT));
    assert_eq!(task.get_files_slice().len(), 0);
    assert_eq!(open_file(&mut task, &bpb, "/hello.txt", 2), SyscallResult::ok(0));
    assert_eq!(open_file(&mut task, &bpb, "HELLO.TXT", 0), SyscallResult::ok(1));

    let mut buf = vec![0u8; 100];
    assert_eq!(read_file(&mut task, 0, &mut buf, &bpb), Some(SyscallResult::ok(100)));
    assert!(buf.iter().all(|&b| b == b'a'));
    // The number is taken as a 32-bit signed one: this is descriptor 0 again.
    assert_eq!(read_file(&mut task, 0x1_0000_0000, &mut buf, &bpb), Some(SyscallResult::ok(50)));
    assert_eq!(read_file(&mut task, 0, &mut buf, &bpb), Some(SyscallResult::ok(0)));
    assert_eq!(read_file(&mut task, 2, &mut buf, &bpb), Some(SyscallResult::err(0, EBADF)));
    assert_eq!(read_file(&mut task, u64::MAX, &mut buf, &bpb), Some(SyscallResult::err(0, EBADF)));

    // A freed slot is taken again first; a terminal is read elsewhere.
    task.get_files_mut()[0] = None;
    assert_eq!(read_file(&mut task, 0, &mut buf, &bpb), Some(SyscallResult::err(0, EBADF)));
    assert_eq!(task.register_file_descriptor(FileDescriptor::Terminal(TerminalFileDescriptor::new(TaskID::new(1)))), 0);
    assert_eq!(read_file(&mut task, 0, &mut buf, &bpb), None);
    assert_eq!(task.register_file_descriptor(FileDescriptor::Terminal(TerminalFileDescriptor::new(TaskID::new(1)))), 2);
}

#[test]
fn messages_become_application_events() {
    let mut task = Task::new(TaskID::new(1), PriorityLevel::new(1));
    let key = |modifier: u8, keycode: u8, ascii: char| {
        Message::new(MessageType::KeyPush(KeyPushMessage { modifier, keycode, ascii, press: true }))
    };
    task.send_message(key(0, 4, 'a'));
    task.send_message(Message::new(MessageType::InterruptXhci));
    task.send_message(Message::new(MessageType::TimerTimeout { timeout: 5, value: -3 }));
    task.send_message(Message::new(MessageType::TimerTimeout { timeout: 6, value: 2 }));
    task.send_message(key(0x10, 20, 'q'));
    let e = read_events(&mut task, 2);
    assert_eq!(e.len(), 2);
    assert_eq!(e[0].type_(), AppEventType::KeyPush);
    assert_eq!(e[0].arg(), AppEventArg::KeyPush { modifier: 0, keycode: 4, ascii: 'a', press: true });
    assert_eq!(e[1].type_(), AppEventType::TimerTimeout);
    assert_eq!(e[1].arg(), AppEventArg::TimerTimeout { timeout: 5, value: 3 });
    let e = read_events(&mut task, 10);
    assert_eq!(e.len(), 1);
    assert_eq!(e[0].type_(), AppEventType::Quit);
    assert!(read_events(&mut task, 10).is_empty());
    assert!(event_of_message(&Message::new(MessageType::InterruptXhci)).is_none());
}

#[test]
fn window_system_calls() {
    let f = font();
    let mut lm = LayerManager::new(&FrameBufferConfig::new(200, 200, 200, FMT));
    let mut tm = TaskManager::new();
    tm.initialize(0, 0);
    let main = tm.main_task_id();
    let r = open_window(&mut lm, &mut tm, &f, FMT, 60, 40, 10, 20, "A");
    assert_eq!(r, SyscallResult::ok(0));
    let id = LayerID::new(0);
    assert_eq!(lm.get_active_layer_id(), Some(id));
    assert_eq!(lm.get_task_id_by_layer_id(id), Some(main));
    assert_eq!(lm.get_layer(id).unwrap().position(), Vector2D::new(10, 20));
    assert!(lm.get_layer(id).unwrap().is_draggable());

    assert_eq!(win_fill_rectangle(&mut lm, &f, 0, 0, 0, 2, 2, 0xff0000), SyscallResult::ok(0));
    let at = |lm: &LayerManager, x: usize, y: usize| lm.get_layer(id).unwrap().get_window_ref().at(x, y);
    // The inner area starts at (4, 24) of a titled window.
    assert_eq!(at(&lm, 4, 24), PixelColor::new(255, 0, 0));
    assert_eq!(at(&lm, 5, 25), PixelColor::new(255, 0, 0));
    assert_ne!(at(&lm, 6, 24), PixelColor::new(255, 0, 0));
    assert_eq!(win_fill_rectangle(&mut lm, &f, 5, 0, 0, 2, 2, 0xff0000), SyscallResult::err(0, EBADF));

    let no_redraw = 1u64 << 32;
    assert_eq!(win_write_string(&mut lm, &f, no_redraw, 10, 5, 0x00ff00, "A"), SyscallResult::ok(0));
    assert_eq!(at(&lm, 14, 29), PixelColor::new(0, 255, 0));
    assert_eq!(win_redraw(&mut lm, &f, 0), SyscallResult::ok(0));
    assert_eq!(win_redraw(&mut lm, &f, 9), SyscallResult::err(0, EBADF));

    assert_eq!(close_window(&mut lm, &mut tm, &f, 9), SyscallResult::err(0, EBADF));
    assert_eq!(close_window(&mut lm, &mut tm, &f, 0), SyscallResult::ok(0));
    assert!(lm.get_layer(id).is_none());
    assert_eq!(lm.get_active_layer_id(), None);
    // Unlike closing a layer, the task record stays.
    assert_eq!(lm.get_task_id_by_layer_id(id), Some(main));
}

#[test]
fn put_string_prints_on_standard_output_only() {
    let f = font();
    let mut lm = LayerManager::new(&FrameBufferConfig::new(8, 8, 8, FMT));
    let window = Window::new_with_title(496, 276, FMT, "MikanTerm", &f);
    let id = lm.new_layer(window).id();
    let mut tm = TaskManager::new();
    tm.new_task();
    let mut w = TerminalWriter::new(id, TaskID::new(0));
    assert_eq!(put_string(&mut w, &mut lm, &f, &mut tm, 1, b"ab", 2000), SyscallResult::err(0, E2BIG));
    assert_eq!(put_string(&mut w, &mut lm, &f, &mut tm, 2, b"ab", 2), SyscallResult::err(0, EBADF));
    assert_eq!(w.calc_cursor_pos(), Vector2D::new(8, 28));
    assert_eq!(put_string(&mut w, &mut lm, &f, &mut tm, 1, b"abc", 2), SyscallResult::ok(2));
    assert_eq!(w.calc_cursor_pos(), Vector2D::new(24, 28));
}

#[test]
fn read_event_checks_the_buffer_address() {
    let mut task = Task::new(TaskID::new(1), PriorityLevel::new(1));
    task.send_message(Message::new(MessageType::TimerTimeout { timeout: 5, value: -3 }));
    assert_eq!(read_event(&mut task, 0x1000, 4).err(), Some(SyscallResult::err(0, EFAULT)));
    let e = read_event(&mut task, 0x8000_0000_0000_0000, 4).unwrap();
    assert_eq!(e.len(), 1);
    assert_eq!(e[0].arg(), AppEventArg::TimerTimeout { timeout: 5, value: 3 });
    assert!(read_event(&mut task, 0x8000_0000_0000_0000, 4).unwrap().is_empty());
}
