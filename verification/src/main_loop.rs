use crate::keyboard::KEY_F2;
use crate::layer::LayerID;
use crate::message::{LayerMessage, Message, MessageType};
use crate::task::TaskID;
use crate::timer::TIMER_FREQ;
use vstd::prelude::*;

verus! {

/// The timer value that makes the text box's cursor blink.
pub const TEXT_BOX_CURSOR_TIMER: i32 = 1;

/// What the kernel's main task remembers between messages.
pub struct MainLoop {
    pub text_box_cursor_visible: bool,
}

/// What the main task does for one message.
#[derive(Debug, PartialEq, Eq)]
pub enum MainAction {
    /// Nothing.
    Nothing,
    /// Lets the xHC process its pending events.
    ProcessXhciEvents,
    /// Sets the cursor timer again to go off at `next_timeout`, draws the
    /// text box's cursor shown or hidden as `visible` says and redraws the
    /// text window.
    BlinkTextCursor { next_timeout: u64, visible: bool },
    /// Types the character into the text box.
    InputText(char),
    /// Starts a new terminal task.
    StartTerminal,
    /// Sends the message on to the task.
    Forward(TaskID),
    /// Reports a key that no task takes.
    Unhandled { keycode: u8, ascii: char },
    /// Has the layer manager carry out the request and answers `reply_to`
    /// with `LayerFinish`.
    ProcessLayer { request: LayerMessage, reply_to: TaskID },
}

/// Decides what the main task does for `message`. `active` is the active
/// layer, `task_of_active` the task that owns it and `text_layer` the layer
/// of the text box. The cursor timer sets itself half a second later and
/// toggles the cursor; a key goes to the text box when that is active and
/// the key is pressed, else F2 pressed starts a terminal, else the key goes
/// to the active layer's task (reported when it has none); with no active
/// layer a key is dropped. A layer request is carried out and answered.
pub fn main_step(
    state: &mut MainLoop,
    message: &Message,
    active: Option<LayerID>,
    task_of_active: Option<TaskID>,
    text_layer: LayerID,
) -> (r: MainAction)
    requires
        message.m_type matches MessageType::TimerTimeout { timeout, value } ==> (value
            == TEXT_BOX_CURSOR_TIMER ==> timeout + TIMER_FREQ / 2 <= u64::MAX),
    ensures
        match message.m_type {
            MessageType::TimerTimeout { timeout, value } => if value == TEXT_BOX_CURSOR_TIMER {
                &&& final(state).text_box_cursor_visible == !old(state).text_box_cursor_visible
                &&& r == (MainAction::BlinkTextCursor {
                    next_timeout: (timeout + TIMER_FREQ / 2) as u64,
                    visible: !old(state).text_box_cursor_visible,
                })
            } else {
                r == MainAction::Nothing && final(state).text_box_cursor_visible
                    == old(state).text_box_cursor_visible
            },
            _ => final(state).text_box_cursor_visible == old(state).text_box_cursor_visible,
        },
        message.m_type is InterruptXhci ==> r == MainAction::ProcessXhciEvents,
        message.m_type matches MessageType::KeyPush(k) ==> r == match active {
            None => MainAction::Nothing,
            Some(a) => if a == text_layer && k.press {
                MainAction::InputText(k.ascii)
            } else if k.press && k.keycode == KEY_F2 {
                MainAction::StartTerminal
            } else {
                match task_of_active {
                    Some(t) => MainAction::Forward(t),
                    None => MainAction::Unhandled { keycode: k.keycode, ascii: k.ascii },
                }
            },
        },
        message.m_type matches MessageType::Layer(l) ==> r == (MainAction::ProcessLayer {
            request: l,
            reply_to: l.src_task_id,
        }),
        !(message.m_type is InterruptXhci || message.m_type is TimerTimeout
            || message.m_type is KeyPush || message.m_type is Layer) ==> r == MainAction::Nothing,
{
    match message.m_type {
        MessageType::InterruptXhci => MainAction::ProcessXhciEvents,
        MessageType::TimerTimeout { timeout, value } => {
            if value == TEXT_BOX_CURSOR_TIMER {
                state.text_box_cursor_visible = !state.text_box_cursor_visible;
                MainAction::BlinkTextCursor {
                    next_timeout: timeout + TIMER_FREQ / 2,
                    visible: state.text_box_cursor_visible,
                }
            } else {
                MainAction::Nothing
            }
        },
        MessageType::KeyPush(k) => {
            match active {
                None => MainAction::Nothing,
                Some(a) => {
                    if a == text_layer && k.press {
                        MainAction::InputText(k.ascii)
                    } else if k.press && k.keycode == KEY_F2 {
                        MainAction::StartTerminal
                    } else {
                        match task_of_active {
                            Some(t) => MainAction::Forward(t),
                            None => MainAction::Unhandled { keycode: k.keycode, ascii: k.ascii },
                        }
                    }
                },
            }
        },
        MessageType::Layer(l) => MainAction::ProcessLayer { request: l, reply_to: l.src_task_id },
        _ => MainAction::Nothing,
    }
}

} // verus!
