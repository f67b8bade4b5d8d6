use chrono::{NaiveDate, NaiveDateTime, NaiveTime};
use northship::agenda::format_todos;
use northship::datetime::DateTime;
use northship::models::{new_todo, Todo};

fn at(y: i32, m: u32, d: u32, h: u32, mi: u32, s: u32) -> DateTime {
    DateTime::new(y, m, d, h, mi, s).unwrap()
}

fn chrono_of(d: &DateTime) -> NaiveDateTime {
    NaiveDateTime::new(
        NaiveDate::from_ymd_opt(d.year, d.month, d.day).unwrap(),
        NaiveTime::from_hms_opt(d.hour, d.minute, d.second).unwrap(),
    )
}

/// The table as the standard formatting machinery lays it out.
fn expected_table(results: &[Todo]) -> String {
    let mut maxes = vec![0, "Deadline".len(), "Scheduled".len()];
    for todo in results.iter() {
        maxes[0] = std::cmp::max(todo.content.len(), maxes[0]);
        if let Some(ref item) = todo.deadline {
            maxes[1] = std::cmp::max(chrono_of(item).format("%Y-%m-%d").to_string().len(), maxes[1]);
        }
        if let Some(ref item) = todo.scheduled {
            maxes[2] = std::cmp::max(
                chrono_of(item).format("%Y-%m-%d %H:%M:%S").to_string().len(),
                maxes[2],
            );
        }
    }
    let mut out = String::new();
    out.push_str(&format!(
        "| #|{todo_title: ^widtha$}|{dead_title: ^widthb$}|{sched_title: ^widthc$}|{eff_title:^4}|\n|{rule:-<widthd$}|\n",
        todo_title = "TODOs",
        widtha = maxes[0] + 2,
        dead_title = "Deadline",
        widthb = maxes[1] + 2,
        sched_title = "Scheduled",
        widthc = maxes[2] + 2,
        eff_title = "Effort",
        rule = "",
        widthd = 12 + 6 + maxes[0] + maxes[1] + maxes[2]
    ));
    for (index, todo) in results.iter().enumerate() {
        out.push_str(&format!(
            "|{number:>2}|{the_todo: ^widtha$}|{dead: ^widthb$}|{sched: ^widthc$}|{eff:>6}|\n|{rule:-<widthd$}|\n",
            number = &(index + 1).to_string(),
            the_todo = &todo.content,
            widtha = maxes[0] + 2,
            dead = match todo.deadline {
                Some(ref d) => format!("{}", chrono_of(d).format("%Y-%m-%d")),
                None => "".to_string(),
            },
            widthb = maxes[1] + 2,
            sched = match todo.scheduled {
                Some(ref d) => format!("{}", chrono_of(d).format("%Y-%m-%d %H:%M:%S")),
                None => "".to_string(),
            },
            widthc = maxes[2] + 2,
            eff = match &todo.effort {
                Some(minutes) => minutes.to_string(),
                None => "  ".to_string(),
            },
            rule = "",
            widthd = 12 + 6 + maxes[0] + maxes[1] + maxes[2]
        ));
    }
    out
}

fn todo(
    id: i32,
    content: &str,
    deadline: Option<DateTime>,
    scheduled: Option<DateTime>,
    effort: Option<i32>,
) -> Todo {
    Todo { id, content: content.to_string(), deadline, scheduled, effort, room: "roomids".to_string() }
}

#[test]
fn empty_agenda() {
    let expected = "| #|TODOs| Deadline | Scheduled |Effort|\n|-----------------------------------|\n";
    assert_eq!(format_todos(&vec![]), expected);
    assert_eq!(format_todos(&vec![]), expected_table(&[]));
}

#[test]
fn one_todo_exact() {
    let todos = vec![todo(1, "buy milk", Some(at(2017, 8, 19, 0, 0, 0)), None, Some(30))];
    let rule = format!("|{}|\n", "-".repeat(45));
    let expected = format!(
        "| #|  TODOs   |  Deadline  | Scheduled |Effort|\n{rule}| 1| buy milk | 2017-08-19 |           |    30|\n{rule}"
    );
    assert_eq!(format_todos(&todos), expected);
}

#[test]
fn agrees_with_standard_formatting() {
    let cases: Vec<Vec<Todo>> = vec![
        vec![todo(1, "a", None, None, None)],
        vec![
            todo(1, "go to the grocery store", Some(at(2017, 8, 19, 0, 0, 0)), Some(at(2017, 8, 18, 14, 30, 0)), None),
            todo(2, "apply to college", None, None, Some(-15)),
            todo(3, "\u{e9}t\u{e9} \u{65e5}\u{672c}", Some(at(999, 1, 2, 3, 4, 5)), None, Some(1234567)),
        ],
        vec![
            todo(1, "far", Some(at(12345, 6, 7, 0, 0, 0)), Some(at(262142, 12, 31, 23, 59, 59)), Some(i32::MIN)),
            todo(2, "near", Some(at(7, 1, 1, 0, 0, 0)), Some(at(0, 2, 29, 1, 2, 3)), Some(i32::MAX)),
        ],
        vec![
            todo(1, "old", Some(at(-44, 3, 15, 0, 0, 0)), Some(at(-262143, 1, 1, 0, 0, 0)), None),
            todo(2, "older", Some(at(-12345, 12, 31, 0, 0, 0)), Some(at(-4, 2, 29, 12, 0, 0)), Some(0)),
        ],
    ];
    for todos in cases {
        assert_eq!(format_todos(&todos), expected_table(&todos));
    }
    let many: Vec<Todo> = (0..25).map(|i| todo(i, &"x".repeat(i as usize), None, None, Some(i))).collect();
    assert_eq!(format_todos(&many), expected_table(&many));
}

#[test]
fn lines_are_aligned() {
    let todos = vec![
        todo(1, "pay the rent", Some(at(2017, 8, 1, 0, 0, 0)), None, Some(5)),
        todo(2, "call", None, Some(at(2017, 8, 2, 9, 30, 0)), None),
    ];
    let table = format_todos(&todos);
    let widths: Vec<usize> = table.lines().map(|l| l.chars().count()).collect();
    assert_eq!(widths.len(), 6);
    assert!(widths.iter().all(|w| *w == widths[0]));
}

#[test]
fn new_todo_record() {
    let d = at(2017, 8, 19, 0, 0, 0);
    let r = new_todo("buy milk", Some(d), None, None, "roomids");
    assert_eq!(r.content, "buy milk");
    assert_eq!(r.deadline, Some(d));
    assert_eq!(r.scheduled, None);
    assert_eq!(r.effort, None);
    assert_eq!(r.room, "roomids");
}

#[test]
fn insert_then_agenda() {
    let mut todos = vec![
        todo(1, "pay the rent", Some(at(2017, 8, 1, 0, 0, 0)), None, Some(5)),
        todo(2, "call", None, Some(at(2017, 8, 2, 9, 30, 0)), None),
    ];
    let before: Vec<String> = format_todos(&todos).lines().map(|l| l.trim().to_string()).collect();
    todos.push(todo(3, "go to the grocery store", Some(at(2017, 8, 19, 0, 0, 0)), None, Some(45)));
    let after_table = format_todos(&todos);
    let after: Vec<&str> = after_table.lines().collect();
    assert_eq!(after.len(), before.len() + 2);
    // The earlier lines keep their cells; only the padding grows.
    for (i, line) in before.iter().enumerate() {
        let cells_before: Vec<&str> = line.split('|').map(|c| c.trim()).collect();
        let cells_after: Vec<&str> = after[i].split('|').map(|c| c.trim()).collect();
        if !line.starts_with("|-") {
            assert_eq!(cells_before, cells_after);
        }
    }
    assert_eq!(
        after[after.len() - 2],
        "| 3| go to the grocery store | 2017-08-19 |                     |    45|"
    );
}
