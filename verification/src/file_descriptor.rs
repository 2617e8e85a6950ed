use crate::keyboard::{is_control_key_inputted, KEY_D, L_CONTROL_BIT_MASK, R_CONTROL_BIT_MASK};
use crate::layer::LayerManager;
use crate::message::KeyPushMessage;
use crate::message::{Message, MessageType, PipeMessage};
use crate::task::{lemma_messages_sent_none, lemma_messages_sent_push, messages_sent, TaskID, TaskManager};
use crate::terminal_writer::{
    cursor_ok, print_area_message, print_cursor, printable, printed_colors, redraw_message, window_redrawn, TerminalWriter,
};
use crate::window::Window;
use crate::{before_nul, str_trimming_nul};
use vstd::prelude::*;
use vstd::string::{StrSliceExecFns, StringSliceAdditionalSpecFns};

verus! {

/// Standard input and output of a program run from a terminal: what it
/// writes goes to the terminal's window.
pub struct TerminalFileDescriptor {
    terminal_id: TaskID,
}

impl TerminalFileDescriptor {
    pub closed spec fn spec_terminal_id(&self) -> TaskID {
        self.terminal_id
    }

    pub fn new(terminal_id: TaskID) -> (d: TerminalFileDescriptor)
        ensures
            d.spec_terminal_id() == terminal_id,
    {
        TerminalFileDescriptor { terminal_id }
    }

    /// Prints the text in `buf` (up to its first zero byte) on the
    /// terminal through `writer` and asks for a redraw; gives back the
    /// number of bytes printed, 0 when they are not UTF-8.
    pub fn write(
        &mut self,
        buf: &[u8],
        writer: &mut TerminalWriter,
        lm: &mut LayerManager,
        font: &[u8],
        tm: &mut TaskManager,
    ) -> (n: usize)
        requires
            old(lm).wf(),
            old(tm).wf(),
            old(tm).spec_main_task_id().0 < old(tm).task_list().len(),
            cursor_ok(old(writer).spec_cursor()),
            old(writer).window_ok(*old(lm)),
            vstd::utf8::valid_utf8(before_nul(buf@)) && old(lm).layer(old(writer).spec_layer_id()) is Some
                ==> printable(old(writer).spec_cursor(), vstd::utf8::decode_utf8(before_nul(buf@))),
        ensures
            *final(self) == *old(self),
            !vstd::utf8::valid_utf8(before_nul(buf@)) ==> {
                &&& n == 0
                &&& *final(writer) == *old(writer)
                &&& *final(lm) == *old(lm)
                &&& *final(tm) == *old(tm)
            },
            vstd::utf8::valid_utf8(before_nul(buf@)) ==> {
                &&& n == before_nul(buf@).len()
                &&& final(writer).spec_layer_id() == old(writer).spec_layer_id()
                &&& final(writer).spec_task_id() == old(writer).spec_task_id()
                &&& final(writer).spec_cursor() == if old(lm).layer(old(writer).spec_layer_id()) is Some {
                    print_cursor(old(writer).spec_cursor(), vstd::utf8::decode_utf8(before_nul(buf@)))
                } else {
                    old(writer).spec_cursor()
                }
                &&& window_redrawn(
                    *old(lm),
                    *final(lm),
                    old(writer).spec_layer_id(),
                    |w: Window, a: int, b: int| printed_colors(
                        w,
                        font@,
                        old(writer).spec_cursor(),
                        vstd::utf8::decode_utf8(before_nul(buf@)),
                    )(a, b),
                )
                &&& final(tm).wf()
                &&& exists|tm1: TaskManager|
                    #[trigger] old(tm).message_sent(
                        tm1,
                        old(tm).spec_main_task_id(),
                        print_area_message(*old(writer), *old(lm), final(writer).spec_cursor()),
                    ) && match redraw_message(*final(writer), *final(lm)) {
                        Some(m) => tm1.message_sent(*final(tm), old(tm).spec_main_task_id(), m),
                        None => *final(tm) == tm1,
                    }
            },
    {
        match str_trimming_nul(buf) {
            Ok(s) => {
                writer.print(s, lm, font, tm);
                let ghost tm1 = *tm;
                writer.redraw(lm, tm);
                proof {
                    assert(tm1.spec_main_task_id() == old(tm).spec_main_task_id());
                }
                proof {
                    crate::fat::lemma_first_zero_from(buf@, 0);
                    assert(buf@.len() == buf.len());
                }
                let n: usize = s.len();
                n
            },
            Err(_) => 0,
        }
    }

    /// What a terminal read does with `message`, one of the messages that
    /// the terminal task receives while a program reads its standard
    /// input: a key press other than the control combinations is echoed,
    /// the terminal is redrawn, its UTF-8 bytes go to the start of `buf`
    /// (as many of the four as fit, zero-padded) and the number of its
    /// non-zero bytes is given back. A control combination of an ASCII key
    /// is echoed as `^` and the upper-case key; control-D ends the input
    /// (0 bytes), the others are not read. `None`: the reader goes on
    /// waiting (also for every other message).
    pub fn read_key(
        &self,
        message: &Message,
        buf: &mut [u8],
        writer: &mut TerminalWriter,
        lm: &mut LayerManager,
        font: &[u8],
        tm: &mut TaskManager,
    ) -> (r: Option<usize>)
        requires
            old(lm).wf(),
            old(tm).wf(),
            old(tm).spec_main_task_id().0 < old(tm).task_list().len(),
            cursor_ok(old(writer).spec_cursor()),
            old(writer).window_ok(*old(lm)),
            key_read(*message) matches Some(k) ==> (old(lm).layer(old(writer).spec_layer_id()) is Some ==> printable(
                old(writer).spec_cursor(),
                key_echo(k),
            )),
        ensures
            key_read(*message) is None ==> {
                &&& r is None
                &&& *final(writer) == *old(writer)
                &&& *final(lm) == *old(lm)
                &&& *final(tm) == *old(tm)
                &&& final(buf)@ == old(buf)@
            },
            key_read(*message) matches Some(k) ==> {
                &&& final(writer).spec_layer_id() == old(writer).spec_layer_id()
                &&& final(writer).spec_task_id() == old(writer).spec_task_id()
                &&& final(writer).spec_cursor() == if old(lm).layer(old(writer).spec_layer_id()) is Some {
                    print_cursor(old(writer).spec_cursor(), key_echo(k))
                } else {
                    old(writer).spec_cursor()
                }
                &&& window_redrawn(
                    *old(lm),
                    *final(lm),
                    old(writer).spec_layer_id(),
                    |w: Window, a: int, b: int| printed_colors(w, font@, old(writer).spec_cursor(), key_echo(k))(a, b),
                )
                &&& final(tm).wf()
                &&& is_control_echo(k) ==> {
                    &&& r == if k.keycode == KEY_D { Some(0usize) } else { None }
                    &&& final(buf)@ == old(buf)@
                    &&& old(tm).message_sent(
                        *final(tm),
                        old(tm).spec_main_task_id(),
                        print_area_message(*old(writer), *old(lm), final(writer).spec_cursor()),
                    )
                }
                &&& !is_control_echo(k) ==> {
                    let n = if old(buf)@.len() < 4 { old(buf)@.len() as int } else { 4 };
                    &&& r == Some(nonzero_count(vstd::utf8::encode_utf8(seq![k.ascii])) as usize)
                    &&& final(buf)@ == utf8_padded(k.ascii).take(n) + old(buf)@.skip(n)
                    &&& exists|tm1: TaskManager|
                        #[trigger] old(tm).message_sent(
                            tm1,
                            old(tm).spec_main_task_id(),
                            print_area_message(*old(writer), *old(lm), final(writer).spec_cursor()),
                        ) && match redraw_message(*final(writer), *final(lm)) {
                            Some(m) => tm1.message_sent(*final(tm), old(tm).spec_main_task_id(), m),
                            None => *final(tm) == tm1,
                        }
                }
            },
    {
        let k: KeyPushMessage = match message.m_type {
            MessageType::KeyPush(k) => k,
            _ => {
                return None;
            },
        };
        if !k.press {
            return None;
        }
        if is_control_key_inputted(k.modifier) && (k.ascii as u32) < 128 {
            let mut echo: String = String::new();
            crate::terminal::push_char(&mut echo, '^');
            crate::terminal::push_char(&mut echo, upper_char_of(k.ascii));
            assert(echo@ =~= key_echo(k));
            writer.print(echo.as_str(), lm, font, tm);
            if k.keycode == KEY_D {
                return Some(0);
            }
            return None;
        }
        let mut text: String = String::new();
        crate::terminal::push_char(&mut text, k.ascii);
        assert(text@ =~= key_echo(k));
        let t: &str = text.as_str();
        let bytes: Vec<u8> = t.as_bytes_vec();
        proof {
            assert(seq![k.ascii].drop_first() =~= Seq::<char>::empty());
            assert(vstd::utf8::encode_utf8(Seq::<char>::empty()) =~= Seq::<u8>::empty());
            assert(vstd::utf8::encode_utf8(seq![k.ascii]) =~= vstd::utf8::encode_scalar(k.ascii as u32));
            assert(bytes@ == vstd::utf8::encode_scalar(k.ascii as u32));
        }
        writer.print(t, lm, font, tm);
        let ghost tm1 = *tm;
        writer.redraw(lm, tm);
        let ghost b0 = buf@;
        let n: usize = if buf.len() < 4 { buf.len() } else { 4 };
        let m: usize = bytes.len();
        let mut i: usize = 0;
        while i < n
            invariant
                i <= n <= 4,
                n <= buf@.len(),
                buf@.len() == b0.len(),
                m == bytes@.len(),
                m <= 4,
                bytes@ == vstd::utf8::encode_utf8(seq![k.ascii]),
                forall|j: int| 0 <= j < i ==> buf@[j] == utf8_padded(k.ascii)[j],
                forall|j: int| i <= j < buf@.len() ==> buf@[j] == b0[j],
            decreases n - i,
        {
            buf[i] = if i < m { bytes[i] } else { 0u8 };
            i += 1;
        }
        assert(buf@ =~= utf8_padded(k.ascii).take(n as int) + b0.skip(n as int));
        let mut count: usize = 0;
        let mut j: usize = 0;
        while j < m
            invariant
                j <= m <= 4,
                m == bytes@.len(),
                count == nonzero_count(bytes@.take(j as int)),
                count <= j,
            decreases m - j,
        {
            assert(bytes@.take(j + 1) =~= bytes@.take(j as int).push(bytes@[j as int]));
            assert(bytes@.take(j + 1).drop_last() =~= bytes@.take(j as int));
            if bytes[j] != 0 {
                count += 1;
            }
            j += 1;
        }
        assert(bytes@.take(m as int) =~= bytes@);
        Some(count)
    }

    /// Files written to a terminal cannot be read back: nothing is loaded.
    pub fn load(&mut self, buf: &mut [u8], offset: usize) -> (n: usize)
        ensures
            n == 0,
            final(buf)@ == old(buf)@,
            *final(self) == *old(self),
    {
        0
    }

    /// A terminal has no size.
    pub fn size(&self) -> (n: usize)
        ensures
            n == 0,
    {
        0
    }
}

/// The key press in `m`, if it is one (a release gives none).
pub open spec fn key_read(m: Message) -> Option<KeyPushMessage> {
    match m.m_type {
        MessageType::KeyPush(k) => if k.press { Some(k) } else { None },
        _ => None,
    }
}

/// Whether a key press is a control combination of an ASCII key.
pub open spec fn is_control_echo(k: KeyPushMessage) -> bool {
    k.modifier & (L_CONTROL_BIT_MASK | R_CONTROL_BIT_MASK) != 0 && (k.ascii as u32) < 128
}

/// `c` with a lower-case ASCII letter made upper-case.
pub open spec fn upper_char(c: char) -> char {
    if 'a' <= c <= 'z' {
        ((c as u32) - 32) as char
    } else {
        c
    }
}

fn upper_char_of(c: char) -> (u: char)
    requires
        (c as u32) < 128,
    ensures
        u == upper_char(c),
{
    if 'a' <= c && c <= 'z' {
        ((c as u8) - 32) as char
    } else {
        c
    }
}

/// What the terminal echoes for a key press.
pub open spec fn key_echo(k: KeyPushMessage) -> Seq<char> {
    if is_control_echo(k) {
        seq!['^', upper_char(k.ascii)]
    } else {
        seq![k.ascii]
    }
}

/// The UTF-8 bytes of `c`, padded with zeros to four bytes.
pub open spec fn utf8_padded(c: char) -> Seq<u8> {
    let e = vstd::utf8::encode_utf8(seq![c]);
    e + Seq::new((4 - e.len()) as nat, |i: int| 0u8)
}

/// How many bytes of `b` are not zero.
pub open spec fn nonzero_count(b: Seq<u8>) -> nat
    decreases b.len(),
{
    if b.len() == 0 {
        0
    } else {
        nonzero_count(b.drop_last()) + if b.last() != 0 { 1nat } else { 0nat }
    }
}

/// One end of a pipe to task `task_id`: what is written goes to the task
/// in messages of up to 16 bytes; what is read comes from those messages,
/// with the bytes that did not fit the reader's buffer kept for later.
pub struct PipeDescriptor {
    pub task_id: TaskID,
    data: [u8; 16],
    len: usize,
    closed: bool,
    write_only: bool,
}

/// Whether `m` is the pipe message that carries `chunk` (at most 16
/// bytes), padded with zero bytes.
pub open spec fn carries(m: Message, chunk: Seq<u8>) -> bool {
    &&& m.m_type matches MessageType::Pipe(p)
    &&& p.len == chunk.len()
    &&& p.data@ == chunk + Seq::new((16 - chunk.len()) as nat, |i: int| 0u8)
}

/// The `i`-th piece of 16 bytes (the last one may be shorter) of `b`.
pub open spec fn chunk_of(b: Seq<u8>, i: int) -> Seq<u8> {
    b.subrange(16 * i, if 16 * i + 16 <= b.len() { 16 * i + 16 } else { b.len() as int })
}

/// How many pieces of 16 bytes `len` bytes make.
pub open spec fn chunk_count(len: int) -> int {
    (len + 15) / 16
}

impl PipeDescriptor {
    pub closed spec fn spec_task_id(&self) -> TaskID {
        self.task_id
    }

    pub closed spec fn pending(&self) -> Seq<u8> {
        self.data@.take(self.len as int)
    }

    pub closed spec fn is_closed(&self) -> bool {
        self.closed
    }

    pub closed spec fn is_write_only(&self) -> bool {
        self.write_only
    }

    /// At most 16 bytes wait to be read.
    pub closed spec fn wf(&self) -> bool {
        self.len <= 16
    }

    /// A readable end of a pipe to task `task_id`, with nothing pending.
    pub fn new(task_id: TaskID) -> (d: PipeDescriptor)
        ensures
            d.wf(),
            d.spec_task_id() == task_id,
            d.pending() == Seq::<u8>::empty(),
            !d.is_closed(),
            !d.is_write_only(),
    {
        PipeDescriptor { task_id, data: [0; 16], len: 0, closed: false, write_only: false }
    }

    /// The writing end of the same pipe.
    pub fn copy_for_write(&self) -> (d: PipeDescriptor)
        ensures
            d.wf(),
            d.spec_task_id() == self.spec_task_id(),
            d.pending() == Seq::<u8>::empty(),
            d.is_closed() == self.is_closed(),
            d.is_write_only(),
    {
        PipeDescriptor { task_id: self.task_id, data: [0; 16], len: 0, closed: self.closed, write_only: true }
    }

    /// The part of a read that needs no new message: the pending bytes
    /// that fit `buf` are moved to its front, or a closed pipe reads 0
    /// bytes. `None` when the reader has to wait for a message.
    pub fn read_buffered(&mut self, buf: &mut [u8]) -> (r: Option<usize>)
        requires
            old(self).wf(),
            !old(self).is_write_only(),
        ensures
            final(self).wf(),
            final(self).spec_task_id() == old(self).spec_task_id(),
            final(self).is_closed() == old(self).is_closed(),
            final(self).is_write_only() == old(self).is_write_only(),
            final(buf)@.len() == old(buf)@.len(),
            old(self).pending().len() > 0 ==> {
                let n = if old(self).pending().len() <= old(buf)@.len() {
                    old(self).pending().len() as int
                } else {
                    old(buf)@.len() as int
                };
                &&& r == Some(n as usize)
                &&& final(buf)@ == old(self).pending().take(n) + old(buf)@.skip(n)
                &&& final(self).pending() == old(self).pending().skip(n)
            },
            old(self).pending().len() == 0 ==> {
                &&& r == if old(self).is_closed() { Some(0usize) } else { None }
                &&& final(buf)@ == old(buf)@
                &&& *final(self) == *old(self)
            },
    {
        if self.len > 0 {
            let copy_bytes: usize = if self.len <= buf.len() { self.len } else { buf.len() };
            let ghost old_buf = buf@;
            let ghost old_pending = self.data@.take(self.len as int);
            let mut k: usize = 0;
            while k < copy_bytes
                invariant
                    k <= copy_bytes,
                    copy_bytes <= self.len <= 16,
                    copy_bytes <= buf@.len(),
                    buf@.len() == old_buf.len(),
                    self.data@.take(self.len as int) == old_pending,
                    buf@ == old_pending.take(k as int) + old_buf.skip(k as int),
                decreases copy_bytes - k,
            {
                buf[k] = self.data[k];
                proof {
                    assert(buf@ =~= old_pending.take(k + 1) + old_buf.skip(k + 1));
                }
                k = k + 1;
            }
            let new_len: usize = self.len - copy_bytes;
            let ghost s0 = *self;
            let mut j: usize = 0;
            while j < new_len
                invariant
                    self.task_id == s0.task_id,
                    self.closed == s0.closed,
                    self.write_only == s0.write_only,
                    self.len == s0.len,
                    j <= new_len,
                    new_len + copy_bytes == self.len,
                    self.len <= 16,
                    self.data@.len() == 16,
                    forall|x: int| 0 <= x < j ==> self.data@[x] == old_pending[x + copy_bytes],
                    forall|x: int| j <= x < self.len ==> self.data@[x] == old_pending[x],
                decreases new_len - j,
            {
                let v: u8 = self.data[j + copy_bytes];
                self.data[j] = v;
                j = j + 1;
            }
            self.len = new_len;
            proof {
                assert(self.data@.take(self.len as int) =~= old_pending.skip(copy_bytes as int));
            }
            return Some(copy_bytes);
        }
        if self.closed {
            return Some(0);
        }
        None
    }

    /// The part of a read that takes in a message: its bytes that fit
    /// `buf` are copied to its front and the rest are kept for later; an
    /// empty message reads 0 bytes. The bytes must all fit `buf` unless
    /// `buf` is empty, since the part kept is copied from the wrong place
    /// otherwise.
    pub fn read_message(&mut self, buf: &mut [u8], message: PipeMessage) -> (n: usize)
        requires
            old(self).wf(),
            message.len <= 16,
            message.len <= old(buf)@.len() || old(buf)@.len() == 0,
        ensures
            final(self).wf(),
            final(self).spec_task_id() == old(self).spec_task_id(),
            final(self).is_closed() == old(self).is_closed(),
            final(self).is_write_only() == old(self).is_write_only(),
            final(buf)@.len() == old(buf)@.len(),
            message.len == 0 ==> n == 0 && *final(self) == *old(self) && final(buf)@ == old(buf)@,
            message.len > 0 && old(buf)@.len() == 0 ==> {
                &&& n == 0
                &&& final(buf)@ == old(buf)@
                &&& final(self).pending() == message.data@.take(message.len as int)
            },
            message.len > 0 && old(buf)@.len() > 0 ==> {
                &&& n == message.len
                &&& final(buf)@ == message.data@.take(message.len as int) + old(buf)@.skip(message.len as int)
                &&& final(self).pending() == Seq::<u8>::empty()
            },
    {
        if message.len == 0 {
            return 0;
        }
        let copy_bytes: usize = if message.len <= buf.len() { message.len } else { buf.len() };
        let ghost old_buf = buf@;
        let mut k: usize = 0;
        while k < copy_bytes
            invariant
                k <= copy_bytes,
                copy_bytes <= message.len <= 16,
                copy_bytes <= buf@.len(),
                buf@.len() == old_buf.len(),
                buf@ == message.data@.take(k as int) + old_buf.skip(k as int),
            decreases copy_bytes - k,
        {
            buf[k] = message.data[k];
            proof {
                assert(buf@ =~= message.data@.take(k + 1) + old_buf.skip(k + 1));
            }
            k = k + 1;
        }
        self.len = message.len - copy_bytes;
        let ghost s0 = *self;
        if self.len != 0 {
            let mut j: usize = 0;
            while j < self.len
                invariant
                    self.task_id == s0.task_id,
                    self.closed == s0.closed,
                    self.write_only == s0.write_only,
                    j <= self.len,
                    copy_bytes == 0,
                    self.len == message.len <= 16,
                    self.data@.len() == 16,
                    forall|x: int| 0 <= x < j ==> self.data@[x] == message.data@[x],
                decreases self.len - j,
            {
                self.data[j] = message.data[j];
                j = j + 1;
            }
            proof {
                assert(self.data@.take(self.len as int) =~= message.data@.take(message.len as int));
            }
        } else {
            proof {
                assert(self.data@.take(0) =~= Seq::<u8>::empty());
            }
        }
        copy_bytes
    }

    /// Sends `buf` to the pipe's task in messages of up to 16 bytes, in
    /// order; gives back the length of `buf`.
    pub fn write(&mut self, buf: &[u8], tm: &mut TaskManager) -> (n: usize)
        requires
            old(tm).wf(),
        ensures
            *final(self) == *old(self),
            n == buf@.len(),
            final(tm).wf(),
            exists|msgs: Seq<Message>|
                #[trigger] messages_sent(*old(tm), *final(tm), old(self).spec_task_id(), msgs) && msgs.len() == chunk_count(
                    buf@.len() as int,
                ) && forall|i: int| 0 <= i < msgs.len() ==> carries(#[trigger] msgs[i], chunk_of(buf@, i)),
    {
        let ghost tm0 = *tm;
        let ghost mut sent: Seq<Message> = Seq::empty();
        proof {
            lemma_messages_sent_none(tm0, self.task_id);
        }
        let mut sent_bytes: usize = 0;
        while sent_bytes < buf.len()
            invariant
                sent_bytes <= buf@.len(),
                sent_bytes < buf@.len() ==> sent_bytes % 16 == 0,
                sent.len() == chunk_count(sent_bytes as int),
                tm.wf(),
                messages_sent(tm0, *tm, self.task_id, sent),
                forall|i: int| 0 <= i < sent.len() ==> carries(#[trigger] sent[i], chunk_of(buf@, i)),
            decreases buf.len() - sent_bytes,
        {
            let mut data: [u8; 16] = [0; 16];
            let len: usize = if buf.len() - sent_bytes <= 16 { buf.len() - sent_bytes } else { 16 };
            let mut k: usize = 0;
            while k < len
                invariant
                    k <= len <= 16,
                    sent_bytes + len <= buf@.len(),
                    buf@.len() == buf.len(),
                    data@.len() == 16,
                    forall|x: int| 0 <= x < k ==> data@[x] == buf@[sent_bytes + x],
                    forall|x: int| k <= x < 16 ==> data@[x] == 0u8,
                decreases len - k,
            {
                data[k] = buf[sent_bytes + k];
                k = k + 1;
            }
            let ghost idx = sent.len() as int;
            proof {
                lemma_chunk_step(sent_bytes as int, (sent_bytes + len) as int);
                assert(16 * idx == sent_bytes);
                assert(chunk_of(buf@, idx) =~= buf@.subrange(sent_bytes as int, sent_bytes + len));
                assert(data@ =~= chunk_of(buf@, idx) + Seq::new((16 - len) as nat, |i: int| 0u8));
            }
            sent_bytes = sent_bytes + len;
            let message = Message::new(MessageType::Pipe(PipeMessage { data, len }));
            let ghost before = *tm;
            let _ = tm.send_message(self.task_id, message);
            proof {
                lemma_messages_sent_push(tm0, before, *tm, self.task_id, sent, message);
                sent = sent.push(message);
            }
        }
        assert(messages_sent(tm0, *tm, self.spec_task_id(), sent) && sent.len() == chunk_count(buf@.len() as int));
        buf.len()
    }

    /// Tells the pipe's task that nothing more comes: an empty message.
    pub fn finish_write(&mut self, tm: &mut TaskManager)
        requires
            old(tm).wf(),
        ensures
            *final(self) == *old(self),
            final(tm).wf(),
            exists|m: Message| #[trigger] carries(m, Seq::empty()) && old(tm).message_sent(*final(tm), old(self).spec_task_id(), m),
    {
        let message = Message::new(MessageType::Pipe(PipeMessage { data: [0; 16], len: 0 }));
        assert(carries(message, Seq::empty())) by {
            assert(message.m_type->Pipe_0.data@ =~= Seq::<u8>::empty() + Seq::new(16, |i: int| 0u8));
        }
        let _ = tm.send_message(self.task_id, message);
    }

    /// Nothing can be loaded from a pipe.
    pub fn load(&mut self, buf: &mut [u8], offset: usize) -> (n: usize)
        ensures
            n == 0,
            final(buf)@ == old(buf)@,
            *final(self) == *old(self),
    {
        0
    }

    /// A pipe has no size.
    pub fn size(&self) -> (n: usize)
        ensures
            n == 0,
    {
        0
    }
}

proof fn lemma_chunk_step(prev: int, next: int)
    requires
        0 <= prev,
        prev % 16 == 0,
        0 < next - prev <= 16,
    ensures
        16 * (prev / 16) == prev,
        prev / 16 == chunk_count(prev),
        chunk_count(next) == chunk_count(prev) + 1,
        next - prev == 16 ==> next % 16 == 0,
{
    assert(16 * (prev / 16) == prev) by (nonlinear_arith)
        requires
            prev % 16 == 0,
    ;
    assert(chunk_count(prev) == prev / 16) by (nonlinear_arith)
        requires
            prev % 16 == 0,
            0 <= prev,
    ;
    assert(chunk_count(next) == prev / 16 + 1) by (nonlinear_arith)
        requires
            prev % 16 == 0,
            0 <= prev,
            0 < next - prev <= 16,
    ;
    assert(next - prev == 16 ==> next % 16 == 0) by (nonlinear_arith)
        requires
            prev % 16 == 0,
    ;
}

} // verus!
