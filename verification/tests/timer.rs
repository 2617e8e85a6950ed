use rusty_mikanos::message::MessageType;
use rusty_mikanos::task::TaskManager;
use rusty_mikanos::timer::{Timer, TimerManager, TASK_TIMER_VALUE};

#[test]
fn timer_manager_tick() {
    let mut task_manager = TaskManager::new();
    task_manager.initialize(0, 0);
    let main_task_id = task_manager.main_task().id();

    let mut manager = TimerManager::new();
    manager.add_timer(Timer::new(3, 3, main_task_id));
    manager.add_timer(Timer::new(1, 1, main_task_id));
    manager.add_timer(Timer::new(2, 2, main_task_id));
    manager.add_timer(Timer::new(1, 11, main_task_id));

    manager.tick(&mut task_manager);
    assert_eq!(
        get_timers(&mut manager),
        vec![
            Timer::new(u64::MAX, -1, main_task_id),
            Timer::new(3, 3, main_task_id),
            Timer::new(2, 2, main_task_id)
        ]
    );
    assert_eq!(
        get_received_message_timers(&mut task_manager),
        vec![message(1, 1), message(1, 11)]
    );

    manager.tick(&mut task_manager);
    assert_eq!(
        get_timers(&mut manager),
        vec![
            Timer::new(u64::MAX, -1, main_task_id),
            Timer::new(3, 3, main_task_id)
        ]
    );
    assert_eq!(
        get_received_message_timers(&mut task_manager),
        vec![message(2, 2)]
    );

    manager.tick(&mut task_manager);
    assert_eq!(
        get_timers(&mut manager),
        vec![Timer::new(u64::MAX, -1, main_task_id)]
    );
    assert_eq!(
        get_received_message_timers(&mut task_manager),
        vec![message(3, 3)]
    );

    // u64::max Timer should not be timeout event if tick method is called multiple times.
    manager.tick(&mut task_manager);
    manager.tick(&mut task_manager);
    manager.tick(&mut task_manager);
    assert_eq!(
        get_timers(&mut manager),
        vec![Timer::new(u64::MAX, -1, main_task_id)]
    );
    assert_eq!(get_received_message_timers(&mut task_manager), vec![]);
}

#[test]
fn task_timer_requests_switch_and_rearms() {
    let mut task_manager = TaskManager::new();
    task_manager.initialize(0, 0);
    let main_task_id = task_manager.main_task().id();
    let mut manager = TimerManager::new();
    manager.add_timer_for_switching_task(main_task_id);
    assert_eq!(manager.tick(&mut task_manager), false);
    assert_eq!(manager.tick(&mut task_manager), true);
    assert_eq!(manager.current_tick(), 2);
    // a new switching timer, two ticks ahead, replaces the expired one
    let timers = manager.timers();
    assert!(timers
        .iter()
        .any(|t| t.timeout() == 4 && t.value() == TASK_TIMER_VALUE));
    assert_eq!(get_received_message_timers(&mut task_manager), vec![]);
}

fn message(timeout: u64, value: i32) -> MessageType {
    MessageType::TimerTimeout { timeout, value }
}

/// The pending timers, latest timeout first (the order timers compare in).
fn get_timers(m: &mut TimerManager) -> Vec<Timer> {
    let mut v = m.timers().iter().copied().collect::<Vec<_>>();
    v.sort_by(|a, b| b.timeout().cmp(&a.timeout()));
    v
}

fn get_received_message_timers(task_manager: &mut TaskManager) -> Vec<MessageType> {
    let task = task_manager.main_task_mut();
    let mut received = vec![];
    while let Some(message) = task.receive_message() {
        received.push(message.m_type);
    }
    received
}
