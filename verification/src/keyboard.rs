use crate::message::{KeyPushMessage, Message, MessageType};
use crate::task::TaskManager;
use vstd::prelude::*;

verus! {

pub const KEY_D: u8 = 7;

pub const KEY_Q: u8 = 20;

pub const KEY_F2: u8 = 59;

pub const L_CONTROL_BIT_MASK: u8 = 0b00000001;

pub const L_SHIFT_BIT_MASK: u8 = 0b00000010;

pub const L_ALT_BIT_MASK: u8 = 0b00000100;

pub const L_GUIBIT_MASK: u8 = 0b00001000;

pub const R_CONTROL_BIT_MASK: u8 = 0b00010000;

pub const R_SHIFT_BIT_MASK: u8 = 0b00100000;

pub const R_ALT_BIT_MASK: u8 = 0b01000000;

pub const R_GUIBIT_MASK: u8 = 0b10000000;

/// The code point of the character that the USB HID `keycode` types on a
/// US keyboard (0 for keys that type none), with or without shift.
pub open spec fn keymap(keycode: u8, shift: bool) -> int {
    let k = keycode as int;
    if 4 <= k <= 29 {
        if shift { 0x41 + (k - 4) } else { 0x61 + (k - 4) }
    } else if shift && 30 <= k <= 39 {
        if k == 30 { 0x21 }
        else if k == 31 { 0x40 }
        else if k == 32 { 0x23 }
        else if k == 33 { 0x24 }
        else if k == 34 { 0x25 }
        else if k == 35 { 0x5e }
        else if k == 36 { 0x26 }
        else if k == 37 { 0x2a }
        else if k == 38 { 0x28 }
        else { 0x29 }
    } else if 30 <= k <= 38 {
        0x31 + (k - 30)
    } else if k == 39 {
        0x30
    } else if k == 40 || k == 88 {
        0x0a
    } else if k == 41 || k == 42 {
        0x08
    } else if k == 43 {
        0x09
    } else if k == 44 {
        0x20
    } else if 45 <= k <= 56 {
        if shift {
            if k == 45 { 0x5f }
            else if k == 46 { 0x2b }
            else if k == 47 { 0x7b }
            else if k == 48 { 0x7d }
            else if k == 49 { 0x7c }
            else if k == 50 { 0x7e }
            else if k == 51 { 0x3a }
            else if k == 52 { 0x22 }
            else if k == 53 { 0x7e }
            else if k == 54 { 0x3c }
            else if k == 55 { 0x3e }
            else { 0x3f }
        } else {
            if k == 45 { 0x2d }
            else if k == 46 { 0x3d }
            else if k == 47 { 0x5b }
            else if k == 48 { 0x5d }
            else if k == 49 { 0x5c }
            else if k == 50 { 0x23 }
            else if k == 51 { 0x3b }
            else if k == 52 { 0x27 }
            else if k == 53 { 0x60 }
            else if k == 54 { 0x2c }
            else if k == 55 { 0x2e }
            else { 0x2f }
        }
    } else if k == 84 {
        0x2f
    } else if k == 85 {
        0x2a
    } else if k == 86 {
        0x2d
    } else if k == 87 {
        0x2b
    } else if 89 <= k <= 97 {
        0x31 + (k - 89)
    } else if k == 98 {
        0x30
    } else if k == 99 {
        0x2e
    } else if k == 100 {
        0x5c
    } else if k == 103 {
        0x3d
    } else if k == 137 {
        if shift { 0x7c } else { 0x5c }
    } else {
        0
    }
}

/// The letter keys (USB HID usages 4 to 29, `a` to `z`) type their letter
/// in alphabetical order, lower case without shift and the upper case of
/// the same letter with shift.
pub proof fn lemma_letter_keys(keycode: u8)
    requires
        4 <= keycode <= 29,
    ensures
        keymap(keycode, false) == 'a' as int + (keycode - 4),
        keymap(keycode, true) == keymap(keycode, false) - ('a' as int - 'A' as int),
{
}

/// The number row (usages 30 to 39) types `1` to `9` and then `0` without
/// shift, and the keypad digits (usages 89 to 98) type the same digits
/// whether or not shift is held.
pub proof fn lemma_digit_keys(keycode: u8, shift: bool)
    ensures
        30 <= keycode <= 39 ==> keymap(keycode, false) == '0' as int + (keycode - 29) % 10,
        89 <= keycode <= 98 ==> keymap(keycode, shift) == keymap((keycode - 59) as u8, false),
{
}

/// Exactly one key, the space bar (usage 44), types a space, with or
/// without shift; exactly the two Enter keys (usages 40 and 88) type a line
/// feed; and every key types an ASCII character or none.
pub proof fn lemma_space_and_enter_keys(keycode: u8, shift: bool)
    ensures
        keymap(keycode, shift) == ' ' as int <==> keycode == 44,
        keymap(keycode, shift) == '\n' as int <==> (keycode == 40 || keycode == 88),
        0 <= keymap(keycode, shift) < 0x80,
{
}

/// Shift changes only what the letters, the number row, the punctuation
/// keys (usages 45 to 56) and the extra backslash key (usage 137) type.
pub proof fn lemma_shift_changes_only_printing_keys(keycode: u8)
    requires
        !(4 <= keycode <= 56 || keycode == 137),
    ensures
        keymap(keycode, true) == keymap(keycode, false),
{
}

/// The character that `keycode` types (see `keymap`).
pub fn keycode_to_ascii(keycode: u8, shift: bool) -> (c: char)
    ensures
        c as u32 == keymap(keycode, shift),
{
    let k: u8 = keycode;
    let v: u8 = if 4 <= k && k <= 29 {
        if shift { 0x41 + (k - 4) } else { 0x61 + (k - 4) }
    } else if shift && 30 <= k && k <= 39 {
        if k == 30 { 0x21 }
        else if k == 31 { 0x40 }
        else if k == 32 { 0x23 }
        else if k == 33 { 0x24 }
        else if k == 34 { 0x25 }
        else if k == 35 { 0x5e }
        else if k == 36 { 0x26 }
        else if k == 37 { 0x2a }
        else if k == 38 { 0x28 }
        else { 0x29 }
    } else if 30 <= k && k <= 38 {
        0x31 + (k - 30)
    } else if k == 39 {
        0x30
    } else if k == 40 || k == 88 {
        0x0a
    } else if k == 41 || k == 42 {
        0x08
    } else if k == 43 {
        0x09
    } else if k == 44 {
        0x20
    } else if 45 <= k && k <= 56 {
        if shift {
            if k == 45 { 0x5f }
            else if k == 46 { 0x2b }
            else if k == 47 { 0x7b }
            else if k == 48 { 0x7d }
            else if k == 49 { 0x7c }
            else if k == 50 { 0x7e }
            else if k == 51 { 0x3a }
            else if k == 52 { 0x22 }
            else if k == 53 { 0x7e }
            else if k == 54 { 0x3c }
            else if k == 55 { 0x3e }
            else { 0x3f }
        } else {
            if k == 45 { 0x2d }
            else if k == 46 { 0x3d }
            else if k == 47 { 0x5b }
            else if k == 48 { 0x5d }
            else if k == 49 { 0x5c }
            else if k == 50 { 0x23 }
            else if k == 51 { 0x3b }
            else if k == 52 { 0x27 }
            else if k == 53 { 0x60 }
            else if k == 54 { 0x2c }
            else if k == 55 { 0x2e }
            else { 0x2f }
        }
    } else if k == 84 {
        0x2f
    } else if k == 85 {
        0x2a
    } else if k == 86 {
        0x2d
    } else if k == 87 {
        0x2b
    } else if 89 <= k && k <= 97 {
        0x31 + (k - 89)
    } else if k == 98 {
        0x30
    } else if k == 99 {
        0x2e
    } else if k == 100 {
        0x5c
    } else if k == 103 {
        0x3d
    } else if k == 137 {
        if shift { 0x7c } else { 0x5c }
    } else {
        0
    };
    v as char
}

/// Whether either shift key is held.
pub fn is_shift_key_inputted(modifier: u8) -> (b: bool)
    ensures
        b == (modifier & (L_SHIFT_BIT_MASK | R_SHIFT_BIT_MASK) != 0),
{
    (modifier & (L_SHIFT_BIT_MASK | R_SHIFT_BIT_MASK)) != 0
}

/// Whether either control key is held.
pub fn is_control_key_inputted(modifier: u8) -> (b: bool)
    ensures
        b == (modifier & (L_CONTROL_BIT_MASK | R_CONTROL_BIT_MASK) != 0),
{
    (modifier & (L_CONTROL_BIT_MASK | R_CONTROL_BIT_MASK)) != 0
}

/// The message that a key event becomes.
pub open spec fn key_message(modifier: u8, keycode: u8, press: bool) -> Message {
    Message {
        m_type: MessageType::KeyPush(
            KeyPushMessage {
                modifier,
                keycode,
                ascii: keymap(keycode, modifier & (L_SHIFT_BIT_MASK | R_SHIFT_BIT_MASK) != 0) as char,
                press,
            },
        ),
    }
}

/// Turns a key event into a key message for the main task.
pub fn on_input(modifier: u8, keycode: u8, press: bool, task_manager: &mut TaskManager)
    requires
        old(task_manager).wf(),
        old(task_manager).spec_main_task_id().0 < old(task_manager).task_list().len(),
    ensures
        old(task_manager).message_sent(
            *final(task_manager),
            old(task_manager).spec_main_task_id(),
            key_message(modifier, keycode, press),
        ),
{
    let ascii: char = keycode_to_ascii(keycode, is_shift_key_inputted(modifier));
    let main: crate::task::TaskID = task_manager.main_task_id();
    let r = task_manager.send_message(
        main,
        Message::new(MessageType::KeyPush(KeyPushMessage { modifier, keycode, ascii, press })),
    );
    assert(r is Ok);
}

} // verus!
