use vstd::prelude::*;

verus! {

/// What an application event tells the application.
#[derive(Copy, Clone, Debug, PartialEq, Eq, Structural)]
pub enum AppEventType {
    Quit,
    Empty,
    MouseMove,
    MouseButton,
    TimerTimeout,
    KeyPush,
}

/// What comes with an application event.
#[derive(Copy, Clone, Debug, PartialEq, Eq, Structural)]
pub enum AppEventArg {
    /// Nothing (a quit request or an empty event).
    Nothing,
    /// The mouse moved to (x, y) of the window by (dx, dy).
    MouseMove { x: i32, y: i32, dx: i32, dy: i32, buttons: u8 },
    /// A mouse button was pressed or released at (x, y) of the window.
    MouseButton { x: i32, y: i32, press: i32, button: i32 },
    /// A timer that the application set went off.
    TimerTimeout { timeout: u64, value: i32 },
    /// A key was pressed or released.
    KeyPush { modifier: u8, keycode: u8, ascii: char, press: bool },
}

/// An event handed to an application.
pub struct AppEvent {
    type_: AppEventType,
    arg: AppEventArg,
}

impl AppEvent {
    pub closed spec fn spec_type(&self) -> AppEventType {
        self.type_
    }

    pub closed spec fn spec_arg(&self) -> AppEventArg {
        self.arg
    }

    /// An event of type `type_` with `arg`.
    pub fn new(type_: AppEventType, arg: AppEventArg) -> (e: AppEvent)
        ensures
            e.spec_type() == type_,
            e.spec_arg() == arg,
    {
        AppEvent { type_, arg }
    }

    pub fn type_(&self) -> (t: AppEventType)
        ensures
            t == self.spec_type(),
    {
        self.type_
    }

    pub fn arg(&self) -> (a: AppEventArg)
        ensures
            a == self.spec_arg(),
    {
        self.arg
    }

    pub fn set_type(&mut self, t: AppEventType)
        ensures
            final(self).spec_type() == t,
            final(self).spec_arg() == old(self).spec_arg(),
    {
        self.type_ = t;
    }
}

impl Default for AppEvent {
    /// An event that tells nothing.
    fn default() -> (e: AppEvent)
        ensures
            e.spec_type() == AppEventType::Empty,
            e.spec_arg() == AppEventArg::Nothing,
    {
        AppEvent { type_: AppEventType::Empty, arg: AppEventArg::Nothing }
    }
}

} // verus!
