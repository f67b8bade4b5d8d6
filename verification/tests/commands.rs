use northship::bot::{agenda_room, on_chat_event, react, reply, stored_reply, ChatEvent, Channel, Reaction};
use northship::datetime::{DateTime, TimeOfDay};
use northship::grammar::Fault;
use northship::parsers::{
    command, command_checked, date, deadline, scheduled, time, todo, todo_text, Command, IResult,
    TodoCmd,
};

fn at(y: i32, m: u32, d: u32, h: u32, mi: u32, s: u32) -> DateTime {
    DateTime::new(y, m, d, h, mi, s).unwrap()
}

fn todo_cmd(body: &str, deadline: Option<DateTime>, scheduled: Option<DateTime>) -> Option<Command> {
    Some(Command::Todo(TodoCmd { body: body.to_string(), deadline, scheduled }))
}

#[test]
fn date_time_new_checks_the_calendar() {
    assert!(DateTime::new(2016, 2, 29, 0, 0, 0).is_some());
    assert!(DateTime::new(2017, 2, 29, 0, 0, 0).is_none());
    assert!(DateTime::new(1900, 2, 29, 0, 0, 0).is_none());
    assert!(DateTime::new(2000, 2, 29, 0, 0, 0).is_some());
    assert!(DateTime::new(2017, 4, 31, 0, 0, 0).is_none());
    assert!(DateTime::new(2017, 13, 1, 0, 0, 0).is_none());
    assert!(DateTime::new(2017, 1, 0, 0, 0, 0).is_none());
    assert!(DateTime::new(262142, 12, 31, 0, 0, 0).is_some());
    assert!(DateTime::new(262143, 1, 1, 0, 0, 0).is_none());
    assert!(DateTime::new(2017, 1, 1, 24, 0, 0).is_none());
    assert!(DateTime::new(2017, 1, 1, 23, 60, 0).is_none());
    assert!(DateTime::new(2017, 1, 1, 23, 59, 60).is_none());
    assert!(DateTime::new(2017, 1, 1, 23, 59, 59).is_some());
}

#[test]
fn command_words() {
    assert_eq!(command("AGENDA please"), Some(Command::Agenda));
    assert_eq!(command("  \tAGENDA"), Some(Command::Agenda));
    assert_eq!(command("agenda"), None);
    assert_eq!(command("AGENDAS"), None);
    assert_eq!(command(""), None);
    assert_eq!(command("   "), None);
    assert_eq!(command("hello TODO x"), None);
    assert_eq!(command("\u{3000}AGENDA"), Some(Command::Agenda));
}

#[test]
fn command_text_starts_at_byte_five() {
    // The text is taken from byte 5 on, whatever white space came before the word.
    assert_eq!(command(" TODO x"), todo_cmd(" x", None, None));
    assert_eq!(command("TODO\tx"), todo_cmd("x", None, None));
    assert_eq!(command("TODO "), todo_cmd("", None, None));
    assert_eq!(command_checked("TODO"), Err(Fault::TextOffset));
    assert_eq!(command_checked("TODO\u{a0}x"), Err(Fault::TextOffset));
    assert_eq!(command_checked("TODO \u{e9}t\u{e9}"), Ok(todo_cmd("\u{e9}t\u{e9}", None, None)));
}

#[test]
fn command_markers_are_case_sensitive() {
    assert_eq!(
        command("TODO pay rent deadline 2017-1-2"),
        todo_cmd("pay rent deadline 2017-1-2", None, None)
    );
}

#[test]
fn command_scheduled_only() {
    assert_eq!(
        command("TODO call mum SCHEDULED 2017-3-4T09:15:00"),
        todo_cmd("call mum", None, Some(at(2017, 3, 4, 9, 15, 0)))
    );
}

#[test]
fn command_deadline_that_is_no_date() {
    // The scheduled date is looked for where the deadline failed, so it is not found either.
    assert_eq!(
        command("TODO call mum DEADLINE soon SCHEDULED 2017-3-4"),
        todo_cmd("call mum", None, None)
    );
}

#[test]
fn command_date_ending_in_an_incomplete_time() {
    // A time cut short at the end of the message makes the date incomplete.
    assert_eq!(command("TODO x DEADLINE 2017-1-2 14"), todo_cmd("x", None, None));
    assert_eq!(command("TODO x DEADLINE 2017-1-2 14:"), todo_cmd("x", None, None));
    assert_eq!(command("TODO x DEADLINE 2017-1-2 "), todo_cmd("x", None, None));
}

#[test]
fn command_faults() {
    assert_eq!(command_checked("TODO x DEADLINE 2017-13-01"), Err(Fault::InvalidDate));
    assert_eq!(command_checked("TODO x DEADLINE 2017-2-30"), Err(Fault::InvalidDate));
    assert_eq!(command_checked("TODO x DEADLINE 2017-1-1 25:00"), Err(Fault::InvalidTime));
    assert_eq!(command_checked("TODO x DEADLINE 99999999999-1-1"), Err(Fault::NumberTooLarge));
    assert_eq!(command_checked("TODO x DEADLINE 2147483648-1-1"), Err(Fault::NumberTooLarge));
    assert_eq!(command_checked("TODO x DEADLINE 2147483647-1-1"), Err(Fault::InvalidDate));
    assert_eq!(command_checked("TODO x DEADLINE 2017-1-1 4294967296:00"), Err(Fault::NumberTooLarge));
    // The time is read before the date is checked.
    assert_eq!(command_checked("TODO x DEADLINE 2017-13-1 25:00"), Err(Fault::InvalidTime));
    assert_eq!(command_checked("AGENDA 2017-13-01"), Ok(Some(Command::Agenda)));
}

#[test]
fn time_forms() {
    assert_eq!(time("14:30"), IResult::Done("", TimeOfDay { hour: 14, minute: 30, second: 0 }));
    assert_eq!(time("14:30:59 x"), IResult::Done(" x", TimeOfDay { hour: 14, minute: 30, second: 59 }));
    assert_eq!(time("14:30:x"), IResult::Done(":x", TimeOfDay { hour: 14, minute: 30, second: 0 }));
    assert_eq!(time("14"), IResult::Incomplete);
    assert_eq!(time(""), IResult::Incomplete);
    assert_eq!(time("x"), IResult::Error);
    assert_eq!(time("14-30"), IResult::Error);
}

#[test]
fn date_forms() {
    assert_eq!(date("2017-04-23T08:05:09"), IResult::Done("", at(2017, 4, 23, 8, 5, 9)));
    assert_eq!(date("0002017-004-0023 rest"), IResult::Done(" rest", at(2017, 4, 23, 0, 0, 0)));
    assert_eq!(date("2017-4-23 x"), IResult::Done(" x", at(2017, 4, 23, 0, 0, 0)));
    assert_eq!(date("2017-"), IResult::Incomplete);
    assert_eq!(date("2017-4"), IResult::Incomplete);
    assert_eq!(date("2017-4-23 16"), IResult::Incomplete);
    assert_eq!(date("2017/4/23"), IResult::Error);
    assert_eq!(date("x"), IResult::Error);
}

#[test]
fn keywords_ignore_case() {
    assert_eq!(deadline(" deadline 2017-6-8"), IResult::Done("", at(2017, 6, 8, 0, 0, 0)));
    assert_eq!(scheduled(" Scheduled 2017-6-8 x"), IResult::Done(" x", at(2017, 6, 8, 0, 0, 0)));
    assert_eq!(deadline(" DEADLIN"), IResult::Incomplete);
    assert_eq!(deadline(" DEADLINX 2017-6-8"), IResult::Error);
    assert_eq!(deadline(" DEADLINE 2017"), IResult::Incomplete);
    assert_eq!(todo("todo x"), IResult::Done("x", "todo "));
    assert_eq!(todo("TOD"), IResult::Incomplete);
    assert_eq!(todo("TOAD "), IResult::Error);
}

#[test]
fn todo_text_takes_the_first_marker() {
    assert_eq!(
        todo_text("a SCHEDULED b DEADLINE c"),
        IResult::Done(" DEADLINE c", "a SCHEDULED b")
    );
    assert_eq!(todo_text(""), IResult::Done("", ""));
    assert_eq!(todo_text(" DEADLINE"), IResult::Done(" DEADLINE", ""));
}

#[test]
fn law_scenarios_round_trip() {
    // The agenda shows `2017-08-19` and `2017-08-18 14:30:05`; typed back, they give the same dates.
    assert_eq!(
        command("TODO file taxes DEADLINE 2017-08-19 SCHEDULED 2017-08-18 14:30:05"),
        todo_cmd("file taxes", Some(at(2017, 8, 19, 0, 0, 0)), Some(at(2017, 8, 18, 14, 30, 5)))
    );
    assert_eq!(command("TODO file taxes"), todo_cmd("file taxes", None, None));
    assert_eq!(
        command("TODO file taxes DEADLINE 0999-01-02"),
        todo_cmd("file taxes", Some(at(999, 1, 2, 0, 0, 0)), None)
    );
}

#[test]
fn reactions() {
    assert_eq!(
        react(Channel::Matrix, "!room:example.org", "TODO x"),
        Ok(Reaction::Store {
            todo: TodoCmd { body: "x".to_string(), deadline: None, scheduled: None },
            room: "!room:example.org".to_string(),
        })
    );
    assert_eq!(
        react(Channel::Terminal, "ignored", "TODO x"),
        Ok(Reaction::Store {
            todo: TodoCmd { body: "x".to_string(), deadline: None, scheduled: None },
            room: "roomids".to_string(),
        })
    );
    assert_eq!(react(Channel::Matrix, "r", "AGENDA"), Ok(Reaction::ShowAgenda));
    assert_eq!(
        react(Channel::Terminal, "r", "hello"),
        Ok(Reaction::Send("Sorry, I didn't catch that. Try again?".to_string()))
    );
    assert_eq!(react(Channel::Terminal, "r", "TODO"), Err(Fault::TextOffset));
    assert_eq!(agenda_room(), "roomids");
    assert_eq!(stored_reply(Channel::Terminal, true), "New TODO added...");
    assert_eq!(stored_reply(Channel::Terminal, false), "Error: Couldn't insert TODO in the database.");
    assert_eq!(stored_reply(Channel::Matrix, true), "New TODO added");
    assert_eq!(stored_reply(Channel::Matrix, false), "Error adding TODO to datbaase.");
}

fn chat(batch: u64, joined: bool, sender: &str, text: Option<&str>) -> ChatEvent {
    ChatEvent {
        batch,
        joined,
        room: "!r:example.org".to_string(),
        sender: sender.to_string(),
        text: text.map(|t| t.to_string()),
    }
}

#[test]
fn chat_events_answered() {
    assert_eq!(on_chat_event(&chat(0, true, "@a:x", Some("AGENDA"))), None);
    assert_eq!(on_chat_event(&chat(1, false, "@a:x", Some("AGENDA"))), None);
    assert_eq!(on_chat_event(&chat(1, true, "@a:x", None)), None);
    assert_eq!(on_chat_event(&chat(1, true, "@a:x", Some("AGENDA"))), Some(Ok(Reaction::ShowAgenda)));
    assert_eq!(
        on_chat_event(&chat(3, true, "@a:x", Some("TODO x"))),
        on_chat_event(&chat(3, true, "@b:y", Some("TODO x")))
    );
    assert_eq!(
        on_chat_event(&chat(2, true, "@a:x", Some("TODO x"))),
        Some(Ok(Reaction::Store {
            todo: TodoCmd { body: "x".to_string(), deadline: None, scheduled: None },
            room: "!r:example.org".to_string(),
        }))
    );
    assert_eq!(on_chat_event(&chat(2, true, "@a:x", Some("TODO"))), Some(Err(Fault::TextOffset)));
}

#[test]
fn replies() {
    assert_eq!(reply(Channel::Matrix, &Reaction::ShowAgenda, false, "table"), "table");
    assert_eq!(reply(Channel::Terminal, &Reaction::Send("hi".to_string()), true, "t"), "hi");
    let store = Reaction::Store {
        todo: TodoCmd { body: "x".to_string(), deadline: None, scheduled: None },
        room: "roomids".to_string(),
    };
    assert_eq!(reply(Channel::Matrix, &store, true, "t"), "New TODO added");
    assert_eq!(reply(Channel::Terminal, &store, false, "t"), "Error: Couldn't insert TODO in the database.");
}
