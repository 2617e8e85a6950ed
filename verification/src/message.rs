use vstd::prelude::*;
use crate::graphics::{Rectangle, Vector2D};
use crate::layer::LayerID;
use crate::task::TaskID;

verus! {

/// A message delivered to a task's queue.
#[derive(Debug, PartialEq, Eq, Clone, Copy)]
pub struct Message {
    pub m_type: MessageType,
}

impl Message {
    pub fn new(m_type: MessageType) -> (m: Message)
        ensures
            m.m_type == m_type,
    {
        Self { m_type }
    }
}

/// What a message carries.
#[derive(Debug, PartialEq, Eq, Clone, Copy)]
pub enum MessageType {
    InterruptXhci,
    TimerTimeout { timeout: u64, value: i32 },
    KeyPush(KeyPushMessage),
    Layer(LayerMessage),
    LayerFinish,
    MouseMove(MouseMoveMessage),
    MouseButton(MouseButtonMessage),
    WindowActive(WindowActiveMode),
    WindowClose(WindowCloseMessage),
    Pipe(PipeMessage),
}

/// A key was pressed or released.
#[derive(Debug, PartialEq, Eq, Structural, Copy, Clone)]
pub struct KeyPushMessage {
    pub modifier: u8,
    pub keycode: u8,
    pub ascii: char,
    pub press: bool,
}

/// A request to the layer manager.
#[derive(Debug, PartialEq, Eq, Structural, Copy, Clone)]
pub struct LayerMessage {
    pub layer_id: LayerID,
    pub op: LayerOperation,
    pub src_task_id: TaskID,
}

/// What the layer manager is asked to do with a layer.
#[derive(Debug, PartialEq, Eq, Structural, Copy, Clone)]
pub enum LayerOperation {
    Move { pos: Vector2D<i32> },
    MoveRelative { pos: Vector2D<i32> },
    Draw,
    DrawArea(Rectangle<i32>),
}

/// The mouse moved; coordinates are relative to the receiving window.
#[derive(Copy, Clone, Debug, PartialEq, Eq, Structural)]
pub struct MouseMoveMessage {
    pub x: i32,
    pub y: i32,
    pub dx: i32,
    pub dy: i32,
    pub buttons: u8,
}

/// A mouse button changed state.
#[derive(Copy, Clone, Debug, PartialEq, Eq, Structural)]
pub struct MouseButtonMessage {
    pub x: i32,
    pub y: i32,
    pub press: i32,
    pub button: i32,
}

/// The window was activated or deactivated.
#[derive(Copy, Clone, Debug, PartialEq, Eq, Structural)]
pub enum WindowActiveMode {
    Activate,
    Deactivate,
}

/// The window's close button was clicked.
#[derive(Copy, Clone, Debug, PartialEq, Eq, Structural)]
pub struct WindowCloseMessage {
    pub layer_id: LayerID,
}

/// Up to 16 bytes written into a pipe; a length of 0 closes it.
#[derive(Copy, Clone, Debug, PartialEq, Eq)]
pub struct PipeMessage {
    pub data: [u8; 16],
    pub len: usize,
}

} // verus!
