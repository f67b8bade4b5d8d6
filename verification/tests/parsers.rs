use northship::datetime::DateTime;
use northship::parsers::{command, date, deadline, todo, todo_text, Command, IResult, TodoCmd};

fn at(y: i32, m: u32, d: u32, h: u32, mi: u32, s: u32) -> DateTime {
    DateTime::new(y, m, d, h, mi, s).unwrap()
}

#[test]
fn agenda() {
    assert_eq!(command("AGENDA"), Some(Command::Agenda));
}

#[test]
fn date_no_time() {
    assert_eq!(date("2017-4-23"), IResult::Done("", at(2017, 4, 23, 0, 0, 0)));
}

#[test]
fn date_and_time() {
    assert_eq!(date("2017-4-23 16:00:45"), IResult::Done("", at(2017, 4, 23, 16, 0, 45)));
}

#[test]
fn find_todo() {
    assert_eq!(todo("TODO "), IResult::Done("", "TODO "));
}

#[test]
fn find_todo_text_eof() {
    assert_eq!(
        todo_text("go to the grocery store"),
        IResult::Done("", "go to the grocery store")
    );
}

#[test]
fn find_todo_text_deadline() {
    assert_eq!(
        todo_text("go to the grocery store DEADLINE today"),
        IResult::Done(" DEADLINE today", "go to the grocery store")
    );
}

#[test]
fn find_todo_text_scheduled() {
    assert_eq!(
        todo_text("go to the grocery store SCHEDULED today"),
        IResult::Done(" SCHEDULED today", "go to the grocery store")
    );
}

#[test]
fn find_todo_text_neither() {
    assert_eq!(todo_text("go home"), IResult::Done("", "go home"));
}

#[test]
fn find_deadline_text_no_scheduled() {
    assert_eq!(deadline(" DEADLINE 2017-6-8"), IResult::Done("", at(2017, 6, 8, 0, 0, 0)));
}

#[test]
fn command_todo() {
    assert_eq!(
        command("TODO go to the grocery store DEADLINE 2017-08-19 SCHEDULED 2017-08-18 14:30"),
        Some(Command::Todo(TodoCmd {
            body: "go to the grocery store".to_string(),
            deadline: Some(at(2017, 8, 19, 0, 0, 0)),
            scheduled: Some(at(2017, 8, 18, 14, 30, 0)),
        }))
    );
}

#[test]
fn command_only_content() {
    assert_eq!(
        command("TODO apply to college"),
        Some(Command::Todo(TodoCmd {
            body: "apply to college".to_string(),
            deadline: None,
            scheduled: None,
        }))
    );
}

#[test]
fn command_only_deadline() {
    assert_eq!(
        command("TODO apply to college DEADLINE 2017-08-19"),
        Some(Command::Todo(TodoCmd {
            body: "apply to college".to_string(),
            deadline: Some(at(2017, 8, 19, 0, 0, 0)),
            scheduled: None,
        }))
    );
}
