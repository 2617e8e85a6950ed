use crate::app_event::{AppEvent, AppEventArg, AppEventType};
use crate::fat::{
    bytes_per_cluster_of, chunks_in_image, find_file, find_file_spec, is_entry_at, read_chunks, root_cluster_of, Bpb,
    FatFileDescriptor,
};
use crate::font::{text_covers, text_fits, write_string};
use crate::graphics::{color_from, color_of_rgb, fill_rectangle, in_rect, rect_in_area, PixelColor, PixelWriter, Rectangle, Vector2D};
use crate::io::{first_free_slot, with_registered, FileDescriptor};
use crate::keyboard::{KEY_Q, L_CONTROL_BIT_MASK, R_CONTROL_BIT_MASK};
use crate::layer::{hidden_stack, layer_draw_ok, title_redraw_ok, whole_window, Layer, LayerID, LayerManager};
use crate::message::{Message, MessageType};
use crate::shared::PixelFormat;
use crate::window::{draw_to_fits, title_bar_fits, window_size_ok};
use crate::task::{Task, TaskID, TaskManager};
use crate::terminal::entry_is_dir;
use crate::terminal_writer::{cursor_ok, print_area_message, print_cursor, printable, printed_colors, window_redrawn, TerminalWriter};
use crate::timer::{Timer, TimerManager, TIMER_FREQ};
use crate::window::Window;
use vstd::prelude::*;

verus! {

/// Operation not permitted.
pub const EPERM: i32 = 1;

/// No such file or directory.
pub const ENOENT: i32 = 2;

/// Argument list too long.
pub const E2BIG: i32 = 7;

/// Bad file descriptor.
pub const EBADF: i32 = 9;

/// Bad address.
pub const EFAULT: i32 = 14;

/// Invalid argument.
pub const EINVAL: i32 = 22;

/// Open for reading only.
pub const O_RDONLY: i32 = 0;

/// Open for writing only.
pub const O_WRONLY: i32 = 1;

/// Open for reading and writing.
pub const O_RDWR: i32 = 2;

/// The bits of the flags that give the access mode.
pub const O_ACCMODE: i32 = 3;

/// What a system call gives back to the application: a value and an error
/// number (0 for none).
#[derive(Clone, Copy, Debug, PartialEq, Eq, Structural)]
pub struct SyscallResult {
    pub value: u64,
    pub error: i32,
}

impl SyscallResult {
    pub fn new(value: u64, error: i32) -> (r: Self)
        ensures
            r == (SyscallResult { value, error }),
    {
        Self { value, error }
    }

    pub fn err(value: u64, error: i32) -> (r: Self)
        ensures
            r == (SyscallResult { value, error }),
    {
        Self { value, error }
    }

    pub fn ok(value: u64) -> (r: Self)
        ensures
            r == (SyscallResult { value, error: 0 }),
    {
        Self { value, error: 0 }
    }

    pub fn is_err(&self) -> (b: bool)
        ensures
            b == (self.error != 0),
    {
        self.error != 0
    }
}

/// A successful result with `value`.
pub open spec fn sys_ok(value: u64) -> SyscallResult {
    SyscallResult { value, error: 0 }
}

/// A failed result with error number `error` and value 0.
pub open spec fn sys_err(error: i32) -> SyscallResult {
    SyscallResult { value: 0, error }
}

/// Whether `log_level` names a log level: 1 (error) to 5 (trace).
pub open spec fn log_level_ok(log_level: u64) -> bool {
    1 <= log_level <= 5
}

/// Writes the text `s` to the kernel log at `log_level`: an error for an
/// unknown level or for more than 1024 bytes, else the text's length.
pub fn log_string(log_level: u64, s: &[u8]) -> (r: SyscallResult)
    ensures
        !log_level_ok(log_level) ==> r == sys_err(EPERM),
        log_level_ok(log_level) && s@.len() > 1024 ==> r == sys_err(E2BIG),
        log_level_ok(log_level) && s@.len() <= 1024 ==> r == sys_ok(s@.len() as u64),
{
    if log_level < 1 || log_level > 5 {
        return SyscallResult::err(0, EPERM);
    }
    let len: usize = s.len();
    if len > 1024 {
        return SyscallResult::err(0, E2BIG);
    }
    SyscallResult::ok(len as u64)
}

/// Ends the running application: the kernel stack pointer to return to,
/// and the exit status.
pub fn exit(tm: &TaskManager, status: u64) -> (r: SyscallResult)
    requires
        tm.wf(),
        tm.queue(tm.cur()).len() > 0,
    ensures
        r == (SyscallResult { value: tm.task_list()[tm.queue(tm.cur())[0].0 as int].os_sp(), error: status as i32 }),
{
    let task: &Task = tm.current_task();
    SyscallResult::new(*task.os_stack_pointer(), status as i32)
}

/// The current tick, with the number of ticks per second.
pub fn get_current_tick(timers: &TimerManager) -> (r: SyscallResult)
    ensures
        r == (SyscallResult { value: timers.spec_tick(), error: TIMER_FREQ as i32 }),
{
    SyscallResult::new(timers.current_tick(), TIMER_FREQ as i32)
}

/// The tick at which a timer of `timeout_ms` milliseconds goes off: counted
/// from `tick` when `mode`'s lowest bit is set, else from tick 0.
pub open spec fn timer_timeout(mode: u64, timeout_ms: u64, tick: u64) -> int {
    if mode % 2 == 1 {
        timeout_ms * TIMER_FREQ / 1000 + tick
    } else {
        timeout_ms * TIMER_FREQ / 1000
    }
}

/// Sets a timer for task `task_id` that tells it `timer_value` when it
/// goes off; the value goes in negated, which marks timers that an
/// application set. Gives back the timeout in milliseconds; an error for a
/// value that is not positive.
pub fn create_timer(timers: &mut TimerManager, task_id: TaskID, mode: u64, timer_value: u64, timeout_ms: u64) -> (r:
    SyscallResult)
    requires
        old(timers).wf(),
        (timer_value as i32) > 0 ==> {
            &&& timeout_ms * TIMER_FREQ <= u64::MAX
            &&& timer_timeout(mode, timeout_ms, old(timers).spec_tick()) * 1000 <= u64::MAX
        },
    ensures
        final(timers).wf(),
        final(timers).spec_tick() == old(timers).spec_tick(),
        (timer_value as i32) <= 0 ==> r == sys_err(EINVAL) && final(timers).spec_timers() == old(
            timers,
        ).spec_timers(),
        (timer_value as i32) > 0 ==> {
            let t = timer_timeout(mode, timeout_ms, old(timers).spec_tick());
            &&& final(timers).spec_timers() == old(timers).spec_timers().push(
                Timer { timeout: t as u64, value: -(timer_value as i32) as i32, task_id: Some(task_id) },
            )
            &&& r == (SyscallResult { value: (t * 1000 / (TIMER_FREQ as int)) as u64, error: 0 })
        },
{
    let value: i32 = timer_value as i32;
    if value <= 0 {
        return SyscallResult::err(0, EINVAL);
    }
    let is_relative: bool = mode % 2 == 1;
    let timeout: u64 = if is_relative {
        timeout_ms * TIMER_FREQ / 1000 + timers.current_tick()
    } else {
        timeout_ms * TIMER_FREQ / 1000
    };
    timers.add_timer(Timer::new(timeout, -value, task_id));
    SyscallResult::new(timeout * 1000 / TIMER_FREQ, 0)
}

/// The path that names the task's standard input.
pub open spec fn stdin_path() -> Seq<char> {
    seq!['@', 's', 't', 'd', 'i', 'n']
}

fn is_stdin_path(path: &str) -> (b: bool)
    ensures
        b == (path@ == stdin_path()),
{
    let n: usize = path.unicode_len();
    if n != 6 {
        return false;
    }
    let b: bool = path.get_char(0) == '@' && path.get_char(1) == 's' && path.get_char(2) == 't'
        && path.get_char(3) == 'd' && path.get_char(4) == 'i' && path.get_char(5) == 'n';
    if b {
        assert(path@ =~= stdin_path());
    }
    b
}

/// Whether `d` is a descriptor that reads the file whose entry is at byte
/// `off` of `img` from its start.
pub open spec fn opened_at(d: FatFileDescriptor, img: Seq<u8>, off: int) -> bool {
    &&& is_entry_at(d.entry(), img, off)
    &&& d.read_offset() == 0
    &&& d.read_cluster() == 0
    &&& d.cluster_offset() == 0
}

/// Whether a task is the same as before but for its file table.
pub open spec fn same_but_files(t: Task, u: Task) -> bool {
    &&& u.tid() == t.tid()
    &&& u.lvl() == t.lvl()
    &&& u.running() == t.running()
    &&& u.msgs() == t.msgs()
    &&& u.ctx() == t.ctx()
    &&& u.os_sp() == t.os_sp()
    &&& u.stack_seq() == t.stack_seq()
}

/// Opens the file at `path` (looked up from the root) for the task:
/// "@stdin" names descriptor 0; opening for writing only is refused; a
/// missing file, or a file named with a trailing path, is an error.
/// Otherwise the file gets the first free descriptor number.
pub fn open_file(task: &mut Task, bpb: &Bpb, path: &str, flag: u64) -> (r: SyscallResult)
    requires
        bpb.wf(),
        old(task).file_table().len() < usize::MAX,
    ensures
        ({
            let img = bpb.bytes();
            let (o, post_slash) = find_file_spec(img, path@, root_cluster_of(img) as u64);
            if path@ == stdin_path() {
                r == sys_ok(0) && *final(task) == *old(task)
            } else if flag % 4 == 1 {
                r == sys_err(EINVAL) && *final(task) == *old(task)
            } else if o is None || (!entry_is_dir(img, o->0) && post_slash) {
                r == sys_err(ENOENT) && *final(task) == *old(task)
            } else {
                &&& r == sys_ok(first_free_slot(old(task).file_table(), 0) as u64)
                &&& same_but_files(*old(task), *final(task))
                &&& exists|d: FatFileDescriptor|
                    opened_at(d, img, o->0) && final(task).file_table() == with_registered(
                        old(task).file_table(),
                        FileDescriptor::Fat(d),
                    )
            }
        }),
{
    if is_stdin_path(path) {
        return SyscallResult::ok(0);
    }
    if flag % 4 == 1 {
        return SyscallResult::err(0, EINVAL);
    }
    let root: u32 = bpb.get_root_cluster();
    let ghost img = bpb.bytes();
    assert(root as u64 == root_cluster_of(img) as u64);
    let (dir, post_slash) = find_file(bpb, path, root as u64);
    match dir {
        None => {
            assert(find_file_spec(img, path@, root_cluster_of(img) as u64).0 is None);
            SyscallResult::err(0, ENOENT)
        },
        Some(e) => {
            if !e.is_directory() && post_slash {
                return SyscallResult::err(0, ENOENT);
            }
            let d: FatFileDescriptor = FatFileDescriptor::new(e);
            let fd: usize = task.register_file_descriptor(FileDescriptor::Fat(d));
            assert(opened_at(d, img, find_file_spec(img, path@, root_cluster_of(img) as u64).0->0));
            SyscallResult::ok(fd as u64)
        },
    }
}

/// The slot of the file table that descriptor number `fd` names, if any:
/// the number is taken as a 32-bit signed integer.
pub open spec fn fd_slot(fd: u64, files: Seq<Option<FileDescriptor>>) -> Option<int> {
    let f = fd as i32;
    if f < 0 || files.len() <= f {
        None
    } else {
        Some(f as int)
    }
}

/// What reading from a file descriptor of the boot volume asks.
pub open spec fn fat_read_ok(d: FatFileDescriptor, img: Seq<u8>, len: int) -> bool {
    &&& d.wf()
    &&& bytes_per_cluster_of(img) > 0
    &&& d.cluster_offset() < bytes_per_cluster_of(img)
    &&& chunks_in_image(img, d.start_cluster(), d.cluster_offset() as int, d.read_len(len))
}

/// Reads from the task's descriptor `fd` into `buf`: an error for a number
/// that names no open file; for a file of the boot volume, the number of
/// bytes read. `None` for a terminal or a pipe, whose reading waits for
/// messages.
pub fn read_file(task: &mut Task, fd: u64, buf: &mut [u8], bpb: &Bpb) -> (r: Option<SyscallResult>)
    requires
        bpb.wf(),
        fd_slot(fd, old(task).file_table()) matches Some(i) ==> (old(task).file_table()[i] matches Some(
            FileDescriptor::Fat(d),
        ) ==> fat_read_ok(d, bpb.bytes(), old(buf)@.len() as int)),
    ensures
        same_but_files(*old(task), *final(task)),
        match fd_slot(fd, old(task).file_table()) {
            None => r == Some(sys_err(EBADF)) && *final(task) == *old(task) && final(buf)@ == old(
                buf,
            )@,
            Some(i) => match old(task).file_table()[i] {
                None => r == Some(sys_err(EBADF)) && *final(task) == *old(task) && final(buf)@
                    == old(buf)@,
                Some(FileDescriptor::Fat(d)) => {
                    let total = d.read_len(old(buf)@.len() as int);
                    let (b, c, o) = read_chunks(
                        bpb.bytes(),
                        d.start_cluster(),
                        d.cluster_offset() as int,
                        total,
                        old(buf)@,
                    );
                    &&& r == Some(sys_ok(total as u64))
                    &&& final(buf)@ == b
                    &&& final(task).file_table().len() == old(task).file_table().len()
                    &&& forall|j: int|
                        0 <= j < old(task).file_table().len() && j != i ==> #[trigger] final(task).file_table()[j]
                            == old(task).file_table()[j]
                    &&& final(task).file_table()[i] matches Some(FileDescriptor::Fat(d2)) && {
                        &&& d2.wf()
                        &&& d2.entry() == d.entry()
                        &&& d2.read_offset() == d.read_offset() + total
                        &&& d2.read_cluster() == c
                        &&& d2.cluster_offset() == o
                    }
                },
                Some(_) => r is None && *final(task) == *old(task) && final(buf)@ == old(buf)@,
            },
        },
{
    let f: i32 = fd as i32;
    let n: usize = task.get_files_slice().len();
    if f < 0 || n <= f as usize {
        return Some(SyscallResult::err(0, EBADF));
    }
    let i: usize = f as usize;
    let slot: Option<FatFileDescriptor> = match &task.get_files_slice()[i] {
        None => {
            return Some(SyscallResult::err(0, EBADF));
        },
        Some(FileDescriptor::Fat(d)) => Some(*d),
        Some(_) => None,
    };
    match slot {
        None => None,
        Some(d) => {
            let mut d2: FatFileDescriptor = d;
            let size: usize = d2.read(buf, bpb);
            let files = task.get_files_mut();
            files.set(i, Some(FileDescriptor::Fat(d2)));
            Some(SyscallResult::ok(size as u64))
        },
    }
}


/// What a window system call does to a window's inner area.
pub enum WinOp<'a> {
    /// Draws `text` with its top left corner at (x, y).
    WriteString { x: i32, y: i32, color: PixelColor, text: &'a str },
    /// Fills the rectangle at `pos` of `size`.
    FillRectangle { pos: Vector2D<i32>, size: Vector2D<i32>, color: PixelColor },
    /// Changes nothing; only the redraw follows.
    Redraw,
}

/// Whether `op` stays inside the inner area of `w`.
pub open spec fn win_op_ok(w: Window, op: WinOp, font: Seq<u8>) -> bool {
    match op {
        WinOp::WriteString { x, y, text, .. } => text_fits(font, text@, x as int, y as int, w.area()),
        WinOp::FillRectangle { pos, size, .. } => {
            &&& rect_in_area(w.area(), pos, size)
            &&& pos.x + size.x <= i32::MAX + 1
            &&& pos.y + size.y <= i32::MAX + 1
        },
        WinOp::Redraw => true,
    }
}

/// Whether `w2` is `w` after `op`: the same frame, and the pixels that the
/// operation covers in its color, counted from the inner area's origin.
pub open spec fn win_op_done(w: Window, w2: Window, op: WinOp, font: Seq<u8>) -> bool {
    &&& w2.wf()
    &&& w2.frame_of() == w.frame_of()
    &&& forall|a: int, b: int|
        #[trigger] w2.pixel_at(a, b) == match op {
            WinOp::WriteString { x, y, color, text } => if text_covers(
                font,
                text@,
                x as int,
                y as int,
                a,
                b,
                text@.len() as int,
            ) {
                color
            } else {
                w.pixel_at(a, b)
            },
            WinOp::FillRectangle { pos, size, color } => if in_rect(pos, size, a, b) {
                color
            } else {
                w.pixel_at(a, b)
            },
            WinOp::Redraw => w.pixel_at(a, b),
        }
}

fn apply_win_op(w: &mut Window, op: WinOp, font: &[u8])
    requires
        old(w).wf(),
        win_op_ok(*old(w), op, font@),
    ensures
        win_op_done(*old(w), *final(w), op, font@),
{
    match op {
        WinOp::WriteString { x, y, color, text } => {
            write_string(w, font, x, y, text, &color);
        },
        WinOp::FillRectangle { pos, size, color } => {
            fill_rectangle(w, &pos, &size, &color);
        },
        WinOp::Redraw => {},
    }
}

/// The layer that the low 32 bits of a window system call's first
/// argument name.
pub open spec fn win_layer_id(layer_id_flags: u64) -> LayerID {
    LayerID((layer_id_flags & 0xffffffff) as u32)
}

/// Whether the flags in the high 32 bits ask for the window to be redrawn
/// (their lowest bit clear).
pub open spec fn win_redraws(layer_id_flags: u64) -> bool {
    (layer_id_flags >> 32u64) & 1 == 0
}

/// Whether layer `l2` is layer `l` after `op` on its window.
pub open spec fn layer_op_done(l: Layer, l2: Layer, op: WinOp, font: Seq<u8>) -> bool {
    &&& l2.spec_id() == l.spec_id()
    &&& l2.spec_position() == l.spec_position()
    &&& l2.spec_draggable() == l.spec_draggable()
    &&& win_op_done(l.spec_window(), l2.spec_window(), op, font)
}

/// Carries out `op` on the window of the layer that `layer_id_flags`
/// names, then redraws the layer unless the flags say not to. An error
/// when there is no such layer.
pub fn do_win_func(lm: &mut LayerManager, layer_id_flags: u64, op: WinOp, font: &[u8]) -> (r: SyscallResult)
    requires
        old(lm).wf(),
        old(lm).layer(win_layer_id(layer_id_flags)) matches Some(l) ==> {
            &&& win_op_ok(l.spec_window(), op, font@)
            &&& win_redraws(layer_id_flags) ==> old(lm).draw_ok(win_layer_id(layer_id_flags), whole_window())
        },
    ensures
        final(lm).wf(),
        old(lm).layer(win_layer_id(layer_id_flags)) is None ==> r == sys_err(EBADF) && *final(lm) == *old(lm),
        old(lm).layer(win_layer_id(layer_id_flags)) matches Some(l) ==> {
            let id = win_layer_id(layer_id_flags);
            &&& r == sys_ok(0)
            &&& final(lm).layer(id) matches Some(l2) && layer_op_done(l, l2, op, font@)
            &&& forall|i: LayerID| i != id ==> #[trigger] final(lm).layer(i) == old(lm).layer(i)
            &&& final(lm).stack() == old(lm).stack()
            &&& final(lm).next_id() == old(lm).next_id()
            &&& final(lm).active() == old(lm).active()
            &&& final(lm).mouse_layer() == old(lm).mouse_layer()
            &&& forall|i: LayerID| #[trigger] final(lm).task_of(i) == old(lm).task_of(i)
            &&& !win_redraws(layer_id_flags) ==> final(lm).back() == old(lm).back() && final(lm).spec_screen()
                == old(lm).spec_screen()
        },
{
    let layer_flags: u64 = layer_id_flags >> 32u64;
    let layer_id: LayerID = LayerID::new((layer_id_flags & 0xffffffff) as u32);
    let ghost m0 = *lm;
    proof {
        lm.lemma_layer_wf(layer_id);
    }
    match lm.get_layer_mut(layer_id) {
        None => {
            return SyscallResult::err(0, EBADF);
        },
        Some(l) => {
            let w: &mut Window = l.get_window_mut();
            apply_win_op(w, op, font);
        },
    }
    let ghost m1 = *lm;
    if layer_flags & 1 == 0 {
        proof {
            assert(m1.stack() == m0.stack());
            assert forall|i: LayerID| #[trigger] m1.layer(i) == m0.layer(i) || i == layer_id by {}
        }
        lm.draw_layer_of(layer_id);
        let ghost m2 = *lm;
        assert forall|i: LayerID| i != layer_id implies #[trigger] m2.layer(i) == m0.layer(i) by {
            assert(m2.layer(i) == m1.layer(i));
        }
    }
    SyscallResult::ok(0)
}

/// Draws `text` in the window of the layer that `layer_id_flags` names
/// (see `do_win_func`); the color is `0xRRGGBB`.
pub fn win_write_string(
    lm: &mut LayerManager,
    font: &[u8],
    layer_id_flags: u64,
    x: u64,
    y: u64,
    color: u64,
    text: &str,
) -> (r: SyscallResult)
    requires
        old(lm).wf(),
        old(lm).layer(win_layer_id(layer_id_flags)) matches Some(l) ==> {
            &&& text_fits(font@, text@, x as i32 as int, y as i32 as int, l.spec_window().area())
            &&& win_redraws(layer_id_flags) ==> old(lm).draw_ok(win_layer_id(layer_id_flags), whole_window())
        },
    ensures
        final(lm).wf(),
        old(lm).layer(win_layer_id(layer_id_flags)) is None ==> r == sys_err(EBADF) && *final(lm) == *old(lm),
        old(lm).layer(win_layer_id(layer_id_flags)) matches Some(l) ==> {
            &&& r == sys_ok(0)
            &&& final(lm).layer(win_layer_id(layer_id_flags)) matches Some(l2) && layer_op_done(
                l,
                l2,
                WinOp::WriteString { x: x as i32, y: y as i32, color: color_of_rgb(color as u32), text },
                font@,
            )
            &&& forall|i: LayerID| i != win_layer_id(layer_id_flags) ==> #[trigger] final(lm).layer(i) == old(lm).layer(i)
        },
{
    let c: PixelColor = color_from(color as u32);
    do_win_func(lm, layer_id_flags, WinOp::WriteString { x: x as i32, y: y as i32, color: c, text }, font)
}

/// Fills a rectangle in the window of the layer that `layer_id_flags`
/// names (see `do_win_func`); the color is `0xRRGGBB`.
pub fn win_fill_rectangle(
    lm: &mut LayerManager,
    font: &[u8],
    layer_id_flags: u64,
    x: u64,
    y: u64,
    w: u64,
    h: u64,
    color: u64,
) -> (r: SyscallResult)
    requires
        old(lm).wf(),
        old(lm).layer(win_layer_id(layer_id_flags)) matches Some(l) ==> {
            &&& win_op_ok(
                l.spec_window(),
                WinOp::FillRectangle {
                    pos: Vector2D { x: x as i32, y: y as i32 },
                    size: Vector2D { x: w as i32, y: h as i32 },
                    color: color_of_rgb(color as u32),
                },
                font@,
            )
            &&& win_redraws(layer_id_flags) ==> old(lm).draw_ok(win_layer_id(layer_id_flags), whole_window())
        },
    ensures
        final(lm).wf(),
        old(lm).layer(win_layer_id(layer_id_flags)) is None ==> r == sys_err(EBADF) && *final(lm) == *old(lm),
        old(lm).layer(win_layer_id(layer_id_flags)) matches Some(l) ==> {
            &&& r == sys_ok(0)
            &&& final(lm).layer(win_layer_id(layer_id_flags)) matches Some(l2) && layer_op_done(
                l,
                l2,
                WinOp::FillRectangle {
                    pos: Vector2D { x: x as i32, y: y as i32 },
                    size: Vector2D { x: w as i32, y: h as i32 },
                    color: color_of_rgb(color as u32),
                },
                font@,
            )
            &&& forall|i: LayerID| i != win_layer_id(layer_id_flags) ==> #[trigger] final(lm).layer(i) == old(lm).layer(i)
        },
{
    let c: PixelColor = color_from(color as u32);
    let pos: Vector2D<i32> = Vector2D::new(x as i32, y as i32);
    let size: Vector2D<i32> = Vector2D::new(w as i32, h as i32);
    do_win_func(lm, layer_id_flags, WinOp::FillRectangle { pos, size, color: c }, font)
}

/// Redraws the window of the layer that `layer_id_flags` names (see
/// `do_win_func`).
pub fn win_redraw(lm: &mut LayerManager, font: &[u8], layer_id_flags: u64) -> (r: SyscallResult)
    requires
        old(lm).wf(),
        old(lm).layer(win_layer_id(layer_id_flags)) is Some && win_redraws(layer_id_flags) ==> old(lm).draw_ok(
            win_layer_id(layer_id_flags),
            whole_window(),
        ),
    ensures
        final(lm).wf(),
        old(lm).layer(win_layer_id(layer_id_flags)) is None ==> r == sys_err(EBADF) && *final(lm) == *old(lm),
        old(lm).layer(win_layer_id(layer_id_flags)) is Some ==> r == sys_ok(0),
{
    do_win_func(lm, layer_id_flags, WinOp::Redraw, font)
}

/// Closes the window of the layer that `layer_id_flags` names: no layer
/// stays active, the layer goes away and the screen under it is redrawn.
/// An error when there is no such layer.
pub fn close_window(lm: &mut LayerManager, tm: &mut TaskManager, font: &[u8], layer_id_flags: u64) -> (r:
    SyscallResult)
    requires
        old(lm).wf(),
        old(tm).wf(),
        old(lm).stack().len() < i32::MAX,
        old(lm).layer(win_layer_id(layer_id_flags)) is Some ==> old(lm).close_ok(win_layer_id(layer_id_flags), font@),
    ensures
        final(lm).wf(),
        final(tm).wf(),
        old(lm).layer(win_layer_id(layer_id_flags)) is None ==> r == sys_err(EBADF) && *final(lm) == *old(lm)
            && *final(tm) == *old(tm),
        old(lm).layer(win_layer_id(layer_id_flags)) is Some ==> {
            let id = win_layer_id(layer_id_flags);
            &&& r == sys_ok(0)
            &&& final(lm).layer(id) is None
            &&& final(lm).active() is None
            &&& final(lm).stack() == hidden_stack(old(lm).stack(), id)
            &&& final(lm).next_id() == old(lm).next_id()
            &&& forall|i: LayerID| #[trigger] final(lm).task_of(i) == old(lm).task_of(i)
            &&& forall|i: LayerID|
                i != id && old(lm).active() != Some(i) ==> #[trigger] final(lm).layer(i) == old(lm).layer(i)
        },
{
    let layer_id: LayerID = LayerID::new((layer_id_flags & 0xffffffff) as u32);
    if lm.get_layer(layer_id).is_none() {
        return SyscallResult::err(0, EBADF);
    }
    lm.close_window_of(layer_id, font, tm);
    SyscallResult::ok(0)
}

/// Whether a window of `w` by `h` pixels titled `title` can be opened at
/// (x, y) on a screen whose layers stay within small coordinates.
pub open spec fn open_window_ok(w: u64, h: u64, x: u64, y: u64, title: Seq<char>, font: Seq<u8>) -> bool {
    &&& window_size_ok(w as int, h as int)
    &&& title_bar_fits(w as int, h as int, (0, 0, w as int, h as int), font, title)
    &&& i32::MIN < x as i32
    &&& i32::MIN < y as i32
    &&& (x as i32) + w <= i32::MAX
    &&& (y as i32) + h <= i32::MAX
}

/// Whether a new opaque window of `w` by `h` pixels at `pos` can be drawn
/// by itself and by every shown layer of `lm` over its area with no value
/// leaving the `i32` range.
pub open spec fn new_window_draw_ok(lm: LayerManager, pos: Vector2D<i32>, w: int, h: int) -> bool {
    let wa = Rectangle { pos, size: Vector2D { x: w as i32, y: h as i32 } };
    &&& draw_to_fits(pos, wa, w, h)
    &&& forall|k: int|
        0 <= k < lm.stack().len() ==> layer_draw_ok(lm.layer(#[trigger] lm.stack()[k])->0, wa, lm.screen_w(), lm.screen_h())
}

/// Opens a window of `w` by `h` pixels titled `title` at (x, y) for the
/// running task: a new draggable layer, made the active one and recorded
/// as the task's. Gives back the layer's identifier.
pub fn open_window(
    lm: &mut LayerManager,
    tm: &mut TaskManager,
    font: &[u8],
    format: PixelFormat,
    w: u64,
    h: u64,
    x: u64,
    y: u64,
    title: &str,
) -> (r: SyscallResult)
    requires
        old(lm).wf(),
        old(tm).wf(),
        old(lm).stack().len() < i32::MAX,
        old(lm).next_id() < u32::MAX,
        format == old(lm).format(),
        old(lm).active() matches Some(a) ==> old(lm).layer(a) is Some && title_redraw_ok(old(lm).layer(a)->0, font@)
            && old(lm).redraw_anywhere_ok(a),
        new_window_draw_ok(*old(lm), Vector2D { x: x as i32, y: y as i32 }, w as int, h as int),
        old(tm).queue(old(tm).cur()).len() > 0,
        open_window_ok(w, h, x, y, title@, font@),
    ensures
        final(lm).wf(),
        final(tm).wf(),
        r == sys_ok(old(lm).next_id() as u64),
        final(lm).next_id() == old(lm).next_id() + 1,
        final(lm).active() == Some(LayerID(old(lm).next_id())),
        final(lm).layer(LayerID(old(lm).next_id())) matches Some(l) && {
            &&& l.spec_position() == (Vector2D { x: x as i32, y: y as i32 })
            &&& l.spec_draggable()
            &&& l.spec_window().spec_width() == w
            &&& l.spec_window().spec_height() == h
            &&& l.spec_window().is_top_level()
            &&& l.spec_window().title() == title@
        },
        final(lm).task_of(LayerID(old(lm).next_id())) == Some(old(tm).task_list()[old(tm).queue(old(tm).cur())[0].0 as int].tid()),
        forall|i: LayerID| i != LayerID(old(lm).next_id()) ==> #[trigger] final(lm).task_of(i) == old(lm).task_of(i),
{
    let window: Window = Window::new_with_title(w as usize, h as usize, format, title, font);
    let ghost m0 = *lm;
    proof {
        m0.lemma_next_id_free();
    }
    let pos: Vector2D<i32> = Vector2D::new(x as i32, y as i32);
    let layer_id: LayerID = lm.new_layer(window).set_draggable(true).move_(pos).id();
    let ghost m1 = *lm;
    assert(m1.layer(layer_id) is Some);
    proof {
        m0.lemma_stack_layers();
        m1.lemma_layer_wf(layer_id);
        let l = m1.layer(layer_id)->0;
        assert(l.spec_position() == pos);
        assert forall|k: int| 0 <= k < m1.stack().len() implies layer_draw_ok(
            m1.layer(#[trigger] m1.stack()[k])->0,
            Rectangle { pos, size: Vector2D { x: w as i32, y: h as i32 } },
            m1.screen_w(),
            m1.screen_h(),
        ) by {
            assert(m0.layer(m0.stack()[k]) is Some);
            assert(m0.stack()[k] != layer_id);
            assert(m1.layer(m1.stack()[k]) == m0.layer(m0.stack()[k]));
        }
        assert(m1.redraw_anywhere_ok(layer_id));
        if let Some(a) = m1.active() {
            assert(m1.layer(a) == m0.layer(a));
            assert forall|k: int| 0 <= k < m1.stack().len() implies #[trigger] m1.layer(m1.stack()[k]) == m0.layer(
                m0.stack()[k],
            ) by {
                assert(m0.layer(m0.stack()[k]) is Some);
            }
            assert(m1.redraw_anywhere_ok(a));
        }
    }
    let task_id: TaskID = tm.current_task().id();
    lm.activate_layer(Some(layer_id), font, tm);
    lm.register_layer_task_relation(layer_id, task_id);
    SyscallResult::ok(layer_id.value() as u64)
}

/// Prints the first `count` bytes of `bytes` (UTF-8 text) on the terminal
/// of `writer` when `fd` is 1, the standard output: gives back `count`. An
/// error for more than 1024 bytes and for any other descriptor.
pub fn put_string(
    writer: &mut TerminalWriter,
    lm: &mut LayerManager,
    font: &[u8],
    tm: &mut TaskManager,
    fd: u64,
    bytes: &[u8],
    count: u64,
) -> (r: SyscallResult)
    requires
        count <= 1024 ==> count <= bytes@.len() && vstd::utf8::valid_utf8(bytes@.take(count as int)),
        fd == 1 && count <= 1024 ==> {
            &&& old(lm).wf()
            &&& old(tm).wf()
            &&& old(tm).spec_main_task_id().0 < old(tm).task_list().len()
            &&& cursor_ok(old(writer).spec_cursor())
            &&& old(writer).window_ok(*old(lm))
            &&& old(lm).layer(old(writer).spec_layer_id()) is Some ==> printable(
                old(writer).spec_cursor(),
                vstd::utf8::decode_utf8(bytes@.take(count as int)),
            )
        },
    ensures
        count > 1024 ==> r == sys_err(E2BIG),
        count <= 1024 && fd != 1 ==> r == sys_err(EBADF),
        count > 1024 || fd != 1 ==> *final(writer) == *old(writer) && *final(lm) == *old(lm) && *final(tm) == *old(tm),
        count <= 1024 && fd == 1 ==> {
            let text = vstd::utf8::decode_utf8(bytes@.take(count as int));
            &&& r == sys_ok(count)
            &&& final(writer).spec_cursor() == if old(lm).layer(old(writer).spec_layer_id()) is Some {
                print_cursor(old(writer).spec_cursor(), text)
            } else {
                old(writer).spec_cursor()
            }
            &&& final(writer).window_ok(*final(lm))
            &&& window_redrawn(
                *old(lm),
                *final(lm),
                old(writer).spec_layer_id(),
                |w: Window, a: int, b: int| printed_colors(w, font@, old(writer).spec_cursor(), text)(a, b),
            )
            &&& old(tm).message_sent(
                *final(tm),
                old(tm).spec_main_task_id(),
                print_area_message(*old(writer), *old(lm), final(writer).spec_cursor()),
            )
        },
{
    if count > 1024 {
        return SyscallResult::err(0, E2BIG);
    }
    let head: &[u8] = vstd::slice::slice_subrange(bytes, 0, count as usize);
    assert(head@ =~= bytes@.take(count as int));
    let text: &str = match crate::str_from_utf8(head) {
        Ok(t) => t,
        Err(_) => {
            proof {
                assert(false);
            }
            return SyscallResult::err(0, E2BIG);
        },
    };
    if fd == 1 {
        writer.print(text, lm, font, tm);
        return SyscallResult::ok(count);
    }
    SyscallResult::err(0, EBADF)
}

/// The event that message `m` gives an application, if any: a key press
/// (control-Q becomes a quit request), a mouse move or button, or a timer
/// that an application set (its value is negative; the event carries it
/// negated). Other messages give none.
pub open spec fn event_of(m: Message) -> Option<(AppEventType, AppEventArg)> {
    match m.m_type {
        MessageType::KeyPush(k) => if k.keycode == KEY_Q && k.modifier & (L_CONTROL_BIT_MASK | R_CONTROL_BIT_MASK)
            != 0 {
            Some((AppEventType::Quit, AppEventArg::Nothing))
        } else {
            Some(
                (
                    AppEventType::KeyPush,
                    AppEventArg::KeyPush {
                        modifier: k.modifier,
                        keycode: k.keycode,
                        ascii: k.ascii,
                        press: k.press,
                    },
                ),
            )
        },
        MessageType::MouseMove(a) => Some(
            (AppEventType::MouseMove, AppEventArg::MouseMove { x: a.x, y: a.y, dx: a.dx, dy: a.dy, buttons: a.buttons }),
        ),
        MessageType::MouseButton(a) => Some(
            (AppEventType::MouseButton, AppEventArg::MouseButton { x: a.x, y: a.y, press: a.press, button: a.button }),
        ),
        MessageType::TimerTimeout { timeout, value } => if value < 0 {
            Some((AppEventType::TimerTimeout, AppEventArg::TimerTimeout { timeout, value: -value as i32 }))
        } else {
            None
        },
        _ => None,
    }
}

/// An event hands the application what its message says, field for field:
/// a mouse button event has the click's own position, button and state, a
/// mouse move event the pointer's position, motion and buttons, a key event
/// (other than Ctrl+Q, which asks to quit) the key as pressed, and a timer
/// that the application set (a negative value) comes back with the value
/// that the application gave.
pub proof fn lemma_events_carry_their_message(m: Message)
    ensures
        m.m_type matches MessageType::MouseButton(a) ==> (event_of(m) matches Some((t, arg)) && t
            == AppEventType::MouseButton && (arg matches AppEventArg::MouseButton { x, y, press, button } && x == a.x
            && y == a.y && press == a.press && button == a.button)),
        m.m_type matches MessageType::MouseMove(a) ==> (event_of(m) matches Some((t, arg)) && t
            == AppEventType::MouseMove && (arg matches AppEventArg::MouseMove { x, y, dx, dy, buttons } && x == a.x
            && y == a.y && dx == a.dx && dy == a.dy && buttons == a.buttons)),
        m.m_type matches MessageType::KeyPush(k) ==> (!(k.keycode == KEY_Q && k.modifier & (L_CONTROL_BIT_MASK
            | R_CONTROL_BIT_MASK) != 0) ==> (event_of(m) matches Some((t, arg)) && t == AppEventType::KeyPush && (
        arg matches AppEventArg::KeyPush { modifier, keycode, ascii, press } && modifier == k.modifier && keycode
            == k.keycode && ascii == k.ascii && press == k.press))),
        m.m_type matches MessageType::TimerTimeout { timeout, value } ==> (i32::MIN < value < 0 ==> (
        event_of(m) matches Some((t, arg)) && t == AppEventType::TimerTimeout && (arg matches AppEventArg::TimerTimeout {
            timeout: tt,
            value: v,
        } && tt == timeout && v + value == 0 && v > 0))),
        m.m_type matches MessageType::TimerTimeout { value, .. } ==> (value >= 0 ==> event_of(m) is None),
{
}

/// The event that a message gives an application (see `event_of`).
pub fn event_of_message(m: &Message) -> (r: Option<AppEvent>)
    ensures
        match event_of(*m) {
            Some((t, a)) => r matches Some(e) && e.spec_type() == t && e.spec_arg() == a,
            None => r is None,
        },
{
    match m.m_type {
        MessageType::KeyPush(k) => {
            let control: bool = crate::keyboard::is_control_key_inputted(k.modifier);
            if k.keycode == KEY_Q && control {
                Some(AppEvent::new(AppEventType::Quit, AppEventArg::Nothing))
            } else {
                Some(
                    AppEvent::new(
                        AppEventType::KeyPush,
                        AppEventArg::KeyPush { modifier: k.modifier, keycode: k.keycode, ascii: k.ascii, press: k.press },
                    ),
                )
            }
        },
        MessageType::MouseMove(a) => Some(
            AppEvent::new(
                AppEventType::MouseMove,
                AppEventArg::MouseMove { x: a.x, y: a.y, dx: a.dx, dy: a.dy, buttons: a.buttons },
            ),
        ),
        MessageType::MouseButton(a) => Some(
            AppEvent::new(
                AppEventType::MouseButton,
                AppEventArg::MouseButton { x: a.x, y: a.y, press: a.press, button: a.button },
            ),
        ),
        MessageType::TimerTimeout { timeout, value } => {
            if value < 0 && value > i32::MIN {
                Some(
                    AppEvent::new(
                        AppEventType::TimerTimeout,
                        AppEventArg::TimerTimeout { timeout, value: -value },
                    ),
                )
            } else if value < 0 {
                assert((-value) as i32 == value) by (bit_vector)
                    requires
                        value == i32::MIN,
                ;
                Some(
                    AppEvent::new(
                        AppEventType::TimerTimeout,
                        AppEventArg::TimerTimeout { timeout, value: value },
                    ),
                )
            } else {
                None
            }
        },
        _ => None,
    }
}

/// The events that the messages `msgs` give an application with room for
/// `room` of them, and how many messages that takes: messages are taken in
/// order until the room is full or none is left; those that give no event
/// are dropped.
pub open spec fn events_from(msgs: Seq<Message>, room: nat) -> (Seq<(AppEventType, AppEventArg)>, nat)
    decreases msgs.len(),
{
    if room == 0 || msgs.len() == 0 {
        (Seq::empty(), 0)
    } else {
        let (rest, used) = events_from(msgs.drop_first(), match event_of(msgs[0]) {
            Some(_) => (room - 1) as nat,
            None => room,
        });
        match event_of(msgs[0]) {
            Some(e) => (seq![e] + rest, used + 1),
            None => (rest, used + 1),
        }
    }
}

/// What a list of events tells.
pub open spec fn event_views(v: Seq<AppEvent>) -> Seq<(AppEventType, AppEventArg)> {
    v.map_values(|e: AppEvent| (e.spec_type(), e.spec_arg()))
}

/// Takes up to `len` events from the task's messages (see `events_from`)
/// without waiting; an empty list means that the application has to wait
/// for a message.
pub fn read_events(task: &mut Task, len: usize) -> (r: Vec<AppEvent>)
    ensures
        event_views(r@) == events_from(old(task).msgs(), len as nat).0,
        final(task).msgs() == old(task).msgs().skip(events_from(old(task).msgs(), len as nat).1 as int),
        final(task).tid() == old(task).tid(),
        final(task).file_table() == old(task).file_table(),
{
    let ghost m0 = task.msgs();
    let mut events: Vec<AppEvent> = Vec::new();
    let ghost mut taken: nat = 0;
    assert(m0.skip(0) =~= m0);
    while events.len() < len
        invariant
            taken <= m0.len(),
            task.msgs() == m0.skip(taken as int),
            events@.len() <= len,
            event_views(events@) + events_from(task.msgs(), (len - events@.len()) as nat).0 == events_from(
                m0,
                len as nat,
            ).0,
            taken + events_from(task.msgs(), (len - events@.len()) as nat).1 == events_from(m0, len as nat).1,
            task.tid() == old(task).tid(),
            task.file_table() == old(task).file_table(),
        ensures
            event_views(events@) == events_from(m0, len as nat).0,
            task.msgs() == m0.skip(events_from(m0, len as nat).1 as int),
            task.tid() == old(task).tid(),
            task.file_table() == old(task).file_table(),
        decreases task.msgs().len(),
    {
        let ghost before = task.msgs();
        let ghost ev0 = events@;
        match task.receive_message() {
            None => {
                assert(event_views(events@) =~= event_views(events@) + Seq::<(AppEventType, AppEventArg)>::empty());
                break;
            },
            Some(m) => {
                proof {
                    assert(before.drop_first() =~= task.msgs());
                    assert(m0.skip((taken + 1) as int) =~= task.msgs());
                    taken = taken + 1;
                }
                match event_of_message(&m) {
                    None => {},
                    Some(e) => {
                        events.push(e);
                        assert(event_views(events@) =~= event_views(ev0) + seq![(e.spec_type(), e.spec_arg())]);
                    },
                }
            },
        }
    }
    proof {
        if events@.len() == len {
            assert(event_views(events@) =~= event_views(events@) + Seq::<(AppEventType, AppEventArg)>::empty());
        }
    }
    events
}

/// The event system call: the events buffer must lie in the
/// application's half of the address space (from 0x8000_0000_0000_0000
/// up), else the error `EFAULT`; otherwise up to `len` events are taken
/// from the task's messages (see `read_events`). An empty list means that
/// the application has to wait for a message.
pub fn read_event(task: &mut Task, app_events: u64, len: u64) -> (r: Result<Vec<AppEvent>, SyscallResult>)
    ensures
        app_events < 0x8000_0000_0000_0000 ==> r == Err::<Vec<AppEvent>, SyscallResult>(sys_err(EFAULT))
            && *final(task) == *old(task),
        app_events >= 0x8000_0000_0000_0000 ==> (r matches Ok(v) && {
            &&& event_views(v@) == events_from(old(task).msgs(), len as usize as nat).0
            &&& final(task).msgs() == old(task).msgs().skip(events_from(old(task).msgs(), len as usize as nat).1 as int)
            &&& final(task).tid() == old(task).tid()
            &&& final(task).file_table() == old(task).file_table()
        }),
{
    if app_events < 0x8000_0000_0000_0000 {
        return Err(SyscallResult::err(0, EFAULT));
    }
    Ok(read_events(task, len as usize))
}

} // verus!
