use rusty_mikanos::graphics::Vector2D;
use rusty_mikanos::layer::LayerID;
use rusty_mikanos::main_loop::{main_step, MainAction, MainLoop, TEXT_BOX_CURSOR_TIMER};
use rusty_mikanos::message::{KeyPushMessage, LayerMessage, LayerOperation, Message, MessageType};
use rusty_mikanos::task::TaskID;
use rusty_mikanos::terminal::{plan_command, run_plan, CommandAction};

fn key(keycode: u8, ascii: char, press: bool) -> Message {
    Message::new(MessageType::KeyPush(KeyPushMessage { modifier: 0, keycode, ascii, press }))
}

#[test]
fn main_step_blinks_the_text_cursor_on_its_timer() {
    let mut st = MainLoop { text_box_cursor_visible: false };
    let tick = Message::new(MessageType::TimerTimeout { timeout: 100, value: TEXT_BOX_CURSOR_TIMER });
    let t = LayerID(3);
    assert_eq!(main_step(&mut st, &tick, None, None, t), MainAction::BlinkTextCursor { next_timeout: 150, visible: true });
    assert!(st.text_box_cursor_visible);
    assert_eq!(main_step(&mut st, &tick, None, None, t), MainAction::BlinkTextCursor { next_timeout: 150, visible: false });
    assert!(!st.text_box_cursor_visible);
    let other = Message::new(MessageType::TimerTimeout { timeout: 100, value: 7 });
    assert_eq!(main_step(&mut st, &other, None, None, t), MainAction::Nothing);
    assert!(!st.text_box_cursor_visible);
}

#[test]
fn main_step_routes_keys() {
    let mut st = MainLoop { text_box_cursor_visible: false };
    let text = LayerID(3);
    let other = LayerID(5);
    let owner = Some(TaskID(2));
    assert_eq!(main_step(&mut st, &key(4, 'a', true), None, owner, text), MainAction::Nothing);
    assert_eq!(main_step(&mut st, &key(4, 'a', true), Some(text), owner, text), MainAction::InputText('a'));
    assert_eq!(main_step(&mut st, &key(59, '\0', true), Some(other), owner, text), MainAction::StartTerminal);
    assert_eq!(main_step(&mut st, &key(59, '\0', false), Some(other), owner, text), MainAction::Forward(TaskID(2)));
    assert_eq!(main_step(&mut st, &key(4, 'a', false), Some(text), None, text), MainAction::Unhandled { keycode: 4, ascii: 'a' });
    assert_eq!(main_step(&mut st, &key(4, 'a', true), Some(other), owner, text), MainAction::Forward(TaskID(2)));
}

#[test]
fn main_step_answers_layer_requests() {
    let mut st = MainLoop { text_box_cursor_visible: true };
    let req = LayerMessage { layer_id: LayerID(4), op: LayerOperation::Move { pos: Vector2D::new(1, 2) }, src_task_id: TaskID(9) };
    let m = Message::new(MessageType::Layer(req));
    assert_eq!(main_step(&mut st, &m, None, None, LayerID(1)), MainAction::ProcessLayer { request: req, reply_to: TaskID(9) });
    assert_eq!(main_step(&mut st, &Message::new(MessageType::InterruptXhci), None, None, LayerID(1)), MainAction::ProcessXhciEvents);
    assert_eq!(main_step(&mut st, &Message::new(MessageType::LayerFinish), None, None, LayerID(1)), MainAction::Nothing);
    assert!(st.text_box_cursor_visible);
}

#[test]
fn run_plan_dispatches_commands() {
    let p = plan_command("echo $?").unwrap();
    match run_plan(&p, -12) {
        (CommandAction::Print(t), Some(0)) => assert_eq!(t, "-12\n"),
        other => panic!("{:?}", other),
    }
    let p = plan_command("echo hello").unwrap();
    match run_plan(&p, 3) {
        (CommandAction::Print(t), Some(0)) => assert_eq!(t, "hello\n"),
        other => panic!("{:?}", other),
    }
    assert!(matches!(run_plan(&plan_command("clear").unwrap(), 0), (CommandAction::Clear, Some(0))));
    assert!(matches!(run_plan(&plan_command("lspci").unwrap(), 0), (CommandAction::ListDevices, Some(0))));
    assert!(matches!(run_plan(&plan_command("memstat").unwrap(), 0), (CommandAction::ShowMemory, Some(1))));
    match run_plan(&plan_command("noterm ls").unwrap(), 0) {
        (CommandAction::StartTerminal(Some(l)), Some(0)) => assert_eq!(l, "ls"),
        other => panic!("{:?}", other),
    }
    assert!(matches!(run_plan(&plan_command("noterm").unwrap(), 0), (CommandAction::StartTerminal(None), Some(0))));
    assert!(matches!(run_plan(&plan_command("ls /").unwrap(), 0), (CommandAction::List, None)));
    assert!(matches!(run_plan(&plan_command("cat a").unwrap(), 0), (CommandAction::Concatenate, None)));
    assert!(matches!(run_plan(&plan_command("hello x").unwrap(), 0), (CommandAction::Run, None)));
    assert!(matches!(run_plan(&plan_command("> out").unwrap(), 5), (CommandAction::Nothing, None)));
}
