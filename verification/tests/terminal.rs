use rusty_mikanos::terminal::{parse_command, CommandHistory};

#[test]
fn terminal_up_should_return_empty_if_it_has_no_history() {
    let mut history = CommandHistory::new();
    assert_eq!(history.up(), "");
}

#[test]
fn terminal_up_should_return_next_old_comand_if_it_has_history() {
    let mut history = CommandHistory::new();
    history.push("a".to_string());
    history.push("b".to_string());
    history.push("c".to_string());

    assert_eq!(history.up(), "c");
    assert_eq!(history.up(), "b");
    assert_eq!(history.up(), "a");
    assert_eq!(history.up(), "a");
    assert_eq!(history.up(), "a");
}

#[test]
fn terminal_down_should_return_empty_if_it_has_no_history() {
    let mut history = CommandHistory::new();
    assert_eq!(history.down(), "");
}

#[test]
fn terminal_down_should_return_next_new_command_if_it_has_history() {
    let mut history = CommandHistory::new();
    history.push("a".to_string());
    history.push("b".to_string());
    history.push("c".to_string());

    history.up(); // c
    history.up(); // b
    history.up(); // a
    history.up(); // a and pointing index should not be changed.

    assert_eq!(history.down(), "b");
    assert_eq!(history.down(), "c");
    assert_eq!(history.down(), "");
    assert_eq!(history.down(), "");
    assert_eq!(history.down(), "");
}

#[test]
fn terminal_push_should_reset_index() {
    let mut history = CommandHistory::new();
    history.push("a".to_string());
    history.push("b".to_string());
    history.push("c".to_string());

    history.up(); // c
    history.up(); // b
    history.up(); // a

    history.push("d".to_string());

    // up should return the newest command because of resetting the index.
    assert_eq!(history.up(), "d")
}

#[test]
fn terminal_push_should_remove_oldest_if_history_is_full() {
    let mut history = CommandHistory::new();
    for i in 0..CommandHistory::MAX {
        history.push(i.to_string());
    }

    history.push(CommandHistory::MAX.to_string());

    assert_eq!(history.front().unwrap(), &CommandHistory::MAX.to_string());
    assert_eq!(history.back().unwrap(), &"1".to_string()); // not "0"
}

#[test]
fn history_up_should_return_empty_if_it_has_no_history() {
    let mut history = CommandHistory::new();
    assert_eq!(history.up(), "");
}

#[test]
fn history_up_should_return_next_old_comand_if_it_has_history() {
    let mut history = CommandHistory::new();
    history.push("a".to_string());
    history.push("b".to_string());
    history.push("c".to_string());

    assert_eq!(history.up(), "c");
    assert_eq!(history.up(), "b");
    assert_eq!(history.up(), "a");
    assert_eq!(history.up(), "a");
    assert_eq!(history.up(), "a");
}

#[test]
fn history_down_should_return_empty_if_it_has_no_history() {
    let mut history = CommandHistory::new();
    assert_eq!(history.down(), "");
}

#[test]
fn history_down_should_return_next_new_command_if_it_has_history() {
    let mut history = CommandHistory::new();
    history.push("a".to_string());
    history.push("b".to_string());
    history.push("c".to_string());

    history.up(); // c
    history.up(); // b
    history.up(); // a
    history.up(); // a and pointing index should not be changed.

    assert_eq!(history.down(), "b");
    assert_eq!(history.down(), "c");
    assert_eq!(history.down(), "");
    assert_eq!(history.down(), "");
    assert_eq!(history.down(), "");
}

#[test]
fn history_push_should_reset_index() {
    let mut history = CommandHistory::new();
    history.push("a".to_string());
    history.push("b".to_string());
    history.push("c".to_string());

    history.up(); // c
    history.up(); // b
    history.up(); // a

    history.push("d".to_string());

    // up should return the newest command because of resetting the index.
    assert_eq!(history.up(), "d")
}

#[test]
fn history_push_should_remove_oldest_if_history_is_full() {
    let mut history = CommandHistory::new();
    for i in 0..CommandHistory::MAX {
        history.push(i.to_string());
    }

    history.push(CommandHistory::MAX.to_string());

    assert_eq!(history.front().unwrap(), &CommandHistory::MAX.to_string());
    assert_eq!(history.back().unwrap(), &"1".to_string()); // not "0"
}

#[test]
fn terminal_parse_command_empty() {
    assert_eq!(parse_command(""), None);
}

#[test]
fn terminal_parse_command_no_args() {
    assert_eq!(parse_command("echo"), Some(vec!["echo"]));
}

#[test]
fn terminal_parse_command_one_arg() {
    assert_eq!(parse_command("echo a\\aa"), Some(vec!["echo", "a\\aa"]));
}

#[test]
fn terminal_parse_command_args() {
    assert_eq!(
        parse_command("ls -l | sort"),
        Some(vec!["ls", "-l", "|", "sort"])
    );
}

#[test]
fn lib_parse_command_empty() {
    assert_eq!(parse_command(""), None);
}

#[test]
fn lib_parse_command_no_args() {
    assert_eq!(parse_command("echo"), Some(vec!["echo"]));
}

#[test]
fn lib_parse_command_one_arg() {
    assert_eq!(parse_command("echo a\\aa"), Some(vec!["echo", "a\\aa"]));
}

#[test]
fn lib_parse_command_args() {
    assert_eq!(
        parse_command("ls -l | sort"),
        Some(vec!["ls", "-l", "|", "sort"])
    );
}

#[test]
fn parse_command_splits_on_unicode_whitespace() {
    assert_eq!(parse_command("  a\tb\u{3000}c \n"), Some(vec!["a", "b", "c"]));
    assert_eq!(parse_command(" \t\n "), None);
}

#[test]
fn down_after_push_returns_empty() {
    let mut history = CommandHistory::new();
    history.push("x".to_string());
    history.push(String::new());
    assert_eq!(history.up(), "x");
    assert_eq!(history.up(), "x");
    assert_eq!(history.down(), "");
    assert_eq!(history.back().unwrap(), "x");
}
