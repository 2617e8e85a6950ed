use rusty_mikanos::message::{Message, MessageType};
use rusty_mikanos::task::{PriorityLevel, TaskID, TaskManager};
use std::collections::VecDeque;

const IDLE_TASK_ID: TaskID = TaskID(1);

fn new_task_at(tm: &mut TaskManager, level: PriorityLevel) -> TaskID {
    let t = tm.new_task();
    t.set_level(level);
    t.id()
}

#[test]
fn task_manager_sleep_running_task_id() {
    let mut tm = TaskManager::new();
    tm.initialize(0, 0);

    let t1_id = new_task_at(&mut tm, PriorityLevel::max());
    let t2_id = new_task_at(&mut tm, PriorityLevel::new(1));
    let t3_id = new_task_at(&mut tm, PriorityLevel::new(1));
    tm.wake_up(t1_id).unwrap();
    tm.wake_up(t2_id).unwrap();
    tm.wake_up(t3_id).unwrap();

    // when the current running id is given,
    tm.sleep(tm.main_task_id()).unwrap();

    // then current level should not be changed
    assert_eq!(tm.current_level(), PriorityLevel::max());

    // the id should be removed from running_task_ids
    assert_eq!(
        tm.running_task_ids(),
        &vec![
            VecDeque::from([IDLE_TASK_ID]),
            VecDeque::from([t2_id, t3_id]),
            VecDeque::from([]),
            VecDeque::from([t1_id]),
        ]
    );

    // the task should be changed to sleep
    assert_eq!(tm.get_task(tm.main_task_id()).unwrap().is_running(), false);
}

#[test]
fn task_manager_sleep_last_task_at_running_level() {
    let mut tm = TaskManager::new();
    tm.initialize(0, 0);

    let t1_id = new_task_at(&mut tm, PriorityLevel::new(1));
    let t2_id = new_task_at(&mut tm, PriorityLevel::new(1));
    tm.wake_up(t1_id).unwrap();
    tm.wake_up(t2_id).unwrap();

    // when the current running id is given,
    tm.sleep(tm.main_task_id()).unwrap();

    // then current level should be changed to the next highest level
    assert_eq!(tm.current_level(), PriorityLevel::new(1));

    // the id should be removed from running_task_ids
    assert_eq!(
        tm.running_task_ids(),
        &vec![
            VecDeque::from([IDLE_TASK_ID]),
            VecDeque::from([t1_id, t2_id]),
            VecDeque::from([]),
            VecDeque::from([]),
        ]
    );

    // the task should be changed to sleep
    assert_eq!(tm.get_task(tm.main_task_id()).unwrap().is_running(), false);
}

#[test]
fn task_manager_sleep_not_running_but_same_level() {
    let mut tm = TaskManager::new();
    tm.initialize(0, 0);

    let t1_id = new_task_at(&mut tm, PriorityLevel::max());
    let t2_id = new_task_at(&mut tm, PriorityLevel::new(1));
    let t3_id = new_task_at(&mut tm, PriorityLevel::new(1));
    tm.wake_up(t1_id).unwrap();
    tm.wake_up(t2_id).unwrap();
    tm.wake_up(t3_id).unwrap();

    tm.sleep(t1_id).unwrap();

    // current level should not be changed
    assert_eq!(tm.current_level(), PriorityLevel::max());

    // the id should be removed from running_task_ids
    assert_eq!(
        tm.running_task_ids(),
        &vec![
            VecDeque::from([IDLE_TASK_ID]),
            VecDeque::from([t2_id, t3_id]),
            VecDeque::from([]),
            VecDeque::from([tm.main_task_id()]),
        ]
    );

    // the running task should still be running
    assert_eq!(tm.get_task(tm.main_task_id()).unwrap().is_running(), true);

    // the specified task should be sleep
    assert_eq!(tm.get_task(t1_id).unwrap().is_running(), false);
}

#[test]
fn task_manager_sleep_level_different_from_current_level() {
    let mut tm = TaskManager::new();
    tm.initialize(0, 0);

    let t1_id = new_task_at(&mut tm, PriorityLevel::max());
    let t2_id = new_task_at(&mut tm, PriorityLevel::new(1));
    let t3_id = new_task_at(&mut tm, PriorityLevel::new(1));
    tm.wake_up(t1_id).unwrap();
    tm.wake_up(t2_id).unwrap();
    tm.wake_up(t3_id).unwrap();

    // when an id of a task whose level is not the same as current_running_level,
    tm.sleep(t1_id).unwrap();

    // then current level should not be changed
    assert_eq!(tm.current_level(), PriorityLevel::max());

    // the id should be removed from running_task_ids
    assert_eq!(
        tm.running_task_ids(),
        &vec![
            VecDeque::from([IDLE_TASK_ID]),
            VecDeque::from([t2_id, t3_id]),
            VecDeque::from([]),
            VecDeque::from([tm.main_task_id()]),
        ]
    );

    // the running task should still be running
    assert_eq!(tm.get_task(tm.main_task_id()).unwrap().is_running(), true);

    // the task specified by the arg should be sleep
    assert_eq!(tm.get_task(t1_id).unwrap().is_running(), false);
}

#[test]
fn sleep_returns_task_switched_out() {
    let mut tm = TaskManager::new();
    tm.initialize(0, 0);
    let main = tm.main_task_id();
    // the main task is at the front of the current queue: the caller switches away from it
    assert_eq!(tm.sleep(main).unwrap(), Some(main));
    // the idle task runs next, at the lowest level
    assert_eq!(tm.current_level(), PriorityLevel::new(0));
    assert_eq!(tm.current_task().id(), IDLE_TASK_ID);
    // a sleeping task is left alone
    assert_eq!(tm.sleep(main).unwrap(), None);
}

#[test]
fn wake_up_and_sleep_errors_for_unknown_task() {
    let mut tm = TaskManager::new();
    tm.initialize(0, 0);
    let e = tm.wake_up(TaskID::new(7)).unwrap_err();
    assert_eq!(e.code, rusty_mikanos::error::Code::NoSuchTask);
    let e = tm.sleep(TaskID::new(7)).unwrap_err();
    assert_eq!(e.code, rusty_mikanos::error::Code::NoSuchTask);
    let e = tm
        .send_message(TaskID::new(7), Message::new(MessageType::InterruptXhci))
        .unwrap_err();
    assert_eq!(e.code, rusty_mikanos::error::Code::NoSuchTask);
}

#[test]
fn wake_up_then_sleep_restores_queues() {
    let mut tm = TaskManager::new();
    tm.initialize(0, 0);
    let t = new_task_at(&mut tm, PriorityLevel::new(2));
    let before = tm.running_task_ids().clone();
    tm.wake_up(t).unwrap();
    assert_eq!(tm.running_task_ids()[2], VecDeque::from([t]));
    tm.sleep(t).unwrap();
    assert_eq!(tm.running_task_ids(), &before);
}

#[test]
fn send_message_wakes_and_queues_message() {
    let mut tm = TaskManager::new();
    tm.initialize(0, 0);
    let t = new_task_at(&mut tm, PriorityLevel::new(1));
    tm.send_message(t, Message::new(MessageType::InterruptXhci)).unwrap();
    assert!(tm.get_task(t).unwrap().is_running());
    assert_eq!(tm.running_task_ids()[1], VecDeque::from([t]));
    let task = tm.get_task_mut(t);
    assert_eq!(task.receive_message(), Some(Message::new(MessageType::InterruptXhci)));
    assert_eq!(task.receive_message(), None);
}

#[test]
fn rotate_moves_front_to_back() {
    let mut tm = TaskManager::new();
    tm.initialize(0, 0);
    let t = new_task_at(&mut tm, PriorityLevel::max());
    tm.wake_up(t).unwrap();
    let main = tm.main_task_id();
    assert_eq!(tm.rotate_current_run_queue(false), main);
    assert_eq!(tm.running_task_ids()[3], VecDeque::from([t, main]));
    assert_eq!(tm.current_task().id(), t);
}
