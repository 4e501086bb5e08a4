use midi_hack::console::{starts_with, ConsoleCommand};
use midi_hack::key_handler::ControlMessage;

fn asks(print: bool, next: bool, quit: bool) -> ConsoleCommand {
    ConsoleCommand { print, next, quit }
}

#[test]
fn a_line_asks_for_what_it_begins() {
    assert_eq!(ConsoleCommand::read("print"), asks(true, false, false));
    assert_eq!(ConsoleCommand::read("p"), asks(true, false, false));
    assert_eq!(ConsoleCommand::read("pri"), asks(true, false, false));
    assert_eq!(ConsoleCommand::read("next"), asks(false, true, false));
    assert_eq!(ConsoleCommand::read("n"), asks(false, true, false));
    assert_eq!(ConsoleCommand::read("quit"), asks(false, false, true));
    assert_eq!(ConsoleCommand::read("q"), asks(false, false, true));
}

#[test]
fn an_empty_line_asks_for_everything() {
    assert_eq!(ConsoleCommand::read(""), asks(true, true, true));
}

#[test]
fn other_lines_ask_for_nothing() {
    assert_eq!(ConsoleCommand::read("printer"), asks(false, false, false));
    assert_eq!(ConsoleCommand::read("x"), asks(false, false, false));
    assert_eq!(ConsoleCommand::read("Print"), asks(false, false, false));
    assert_eq!(ConsoleCommand::read(" p"), asks(false, false, false));
    assert_eq!(ConsoleCommand::read("rint"), asks(false, false, false));
}

#[test]
fn commands_send_print_before_new_run() {
    assert_eq!(
        asks(true, true, true).messages(),
        vec![ControlMessage::Print, ControlMessage::NewRun]
    );
    assert_eq!(asks(true, false, false).messages(), vec![ControlMessage::Print]);
    assert_eq!(asks(false, true, false).messages(), vec![ControlMessage::NewRun]);
    assert!(asks(false, false, true).messages().is_empty());
}

#[test]
fn starts_with_compares_the_beginning() {
    assert!(starts_with("print", ""));
    assert!(starts_with("print", "pr"));
    assert!(starts_with("print", "print"));
    assert!(!starts_with("print", "prints"));
    assert!(!starts_with("print", "rint"));
    assert!(!starts_with("", "p"));
    assert!(starts_with("", ""));
}
