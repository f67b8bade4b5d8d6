//! The grammar of commands, as functions on the characters of a message.
//!
//! Each spec parser looks at the characters of `s` from position `i` on and says
//! where the text it recognizes ends and what it means, or why it stops:
//! `Error` when the text does not fit, `Incomplete` when the input ends before
//! the text could be recognized, and a `Fault` where the command handling
//! aborts (a number too large, or a date or time that does not exist).
use vstd::prelude::*;
use crate::text::{is_digit, digit_value, digits_value, is_white_space, char_width};
use crate::datetime::{DateTime, TimeOfDay, is_calendar_date, is_clock_time};

verus! {

/// Why the command handling gives up on an input.
#[derive(Clone, Copy, Debug, PartialEq, Eq)]
pub enum Fault {
    /// A number of a date or time does not fit the integer that holds it
    /// (`i32` for the year, `u32` for the others).
    NumberTooLarge,
    /// Hours, minutes and seconds that are no time of day.
    InvalidTime,
    /// Year, month and day that are no calendar date.
    InvalidDate,
    /// The text of a `TODO` command is taken from byte 5 of the message on, and
    /// the message is shorter than that or has no character boundary there.
    TextOffset,
}

/// Why a parser stopped without a result.
#[derive(Clone, Copy, Debug, PartialEq, Eq)]
pub enum Stop {
    Error,
    Incomplete,
    Fault(Fault),
}

/// The outcome of a parser: the position where the recognized text ends and its
/// meaning, or why it stopped.
pub enum Step<T> {
    Done(int, T),
    Stopped(Stop),
}

pub open spec fn is_fault<T>(st: Step<T>) -> bool {
    st matches Step::Stopped(Stop::Fault(_))
}

/// The outcome that an executable parser result stands for.
pub open spec fn step_of<T>(r: Result<(usize, T), Stop>) -> Step<T> {
    match r {
        Ok((e, v)) => Step::Done(e as int, v),
        Err(st) => Step::Stopped(st),
    }
}

/// The outcome that an executable result without a value stands for.
pub open spec fn unit_step(r: Result<usize, Stop>) -> Step<()> {
    match r {
        Ok(e) => Step::Done(e as int, ()),
        Err(st) => Step::Stopped(st),
    }
}

// ---------------------------------------------------------------------------
// Digits and one-character tags
// ---------------------------------------------------------------------------

/// The end of the run of ASCII digits that starts at `i`.
pub open spec fn digit_run_end(s: Seq<char>, i: int) -> int
    decreases s.len() - i,
{
    if 0 <= i < s.len() && is_digit(s[i]) {
        digit_run_end(s, i + 1)
    } else {
        i
    }
}

/// One or more ASCII digits.
pub open spec fn spec_digits(s: Seq<char>, i: int) -> Step<()> {
    if i >= s.len() {
        Step::Stopped(Stop::Incomplete)
    } else if !is_digit(s[i]) {
        Step::Stopped(Stop::Error)
    } else {
        Step::Done(digit_run_end(s, i), ())
    }
}

/// The character `c`.
pub open spec fn spec_char(s: Seq<char>, i: int, c: char) -> Step<()> {
    if i >= s.len() {
        Step::Stopped(Stop::Incomplete)
    } else if s[i] != c {
        Step::Stopped(Stop::Error)
    } else {
        Step::Done(i + 1, ())
    }
}

/// The value of the digits from `a` to `b`.
pub open spec fn run_value(s: Seq<char>, a: int, b: int) -> nat {
    digits_value(s.subrange(a, b))
}

// ---------------------------------------------------------------------------
// Times and dates
// ---------------------------------------------------------------------------

/// Whether seconds follow the minutes that end at `m_end`: a colon and a digit.
pub open spec fn has_seconds(s: Seq<char>, m_end: int) -> bool {
    m_end + 1 < s.len() && s[m_end] == ':' && is_digit(s[m_end + 1])
}

/// `HH:MM` or `HH:MM:SS`, read as a time of day.
pub open spec fn spec_time(s: Seq<char>, i: int) -> Step<TimeOfDay> {
    match spec_digits(s, i) {
        Step::Stopped(st) => Step::Stopped(st),
        Step::Done(h_end, _) => match spec_char(s, h_end, ':') {
            Step::Stopped(st) => Step::Stopped(st),
            Step::Done(m_start, _) => match spec_digits(s, m_start) {
                Step::Stopped(st) => Step::Stopped(st),
                Step::Done(m_end, _) => time_value(s, i, h_end, m_start, m_end),
            },
        },
    }
}

/// The time whose hours run from `i` to `h_end` and whose minutes run from
/// `m_start` to `m_end`, with the seconds that may follow.
pub open spec fn time_value(s: Seq<char>, i: int, h_end: int, m_start: int, m_end: int) -> Step<
    TimeOfDay,
> {
    let sec_end = if has_seconds(s, m_end) {
        digit_run_end(s, m_end + 1)
    } else {
        m_end
    };
    let h = run_value(s, i, h_end);
    let m = run_value(s, m_start, m_end);
    let sec = if has_seconds(s, m_end) {
        run_value(s, m_end + 1, sec_end)
    } else {
        0
    };
    if h > u32::MAX || m > u32::MAX || sec > u32::MAX {
        Step::Stopped(Stop::Fault(Fault::NumberTooLarge))
    } else if !is_clock_time(h as int, m as int, sec as int) {
        Step::Stopped(Stop::Fault(Fault::InvalidTime))
    } else {
        Step::Done(sec_end, TimeOfDay { hour: h as u32, minute: m as u32, second: sec as u32 })
    }
}

/// The optional time after the day of a date: `T` or a space, then a time.
/// Where no time follows, the date has none; where the input ends inside the
/// time, the date is incomplete.
pub open spec fn spec_time_suffix(s: Seq<char>, d_end: int) -> Step<Option<TimeOfDay>> {
    if d_end < s.len() && (s[d_end] == 'T' || s[d_end] == ' ') {
        match spec_time(s, d_end + 1) {
            Step::Done(e, t) => Step::Done(e, Some(t)),
            Step::Stopped(Stop::Error) => Step::Done(d_end, None),
            Step::Stopped(st) => Step::Stopped(st),
        }
    } else {
        Step::Done(d_end, None)
    }
}

/// `Y-M-D`, optionally followed by a time; a date without a time is at midnight.
pub open spec fn spec_date(s: Seq<char>, i: int) -> Step<DateTime> {
    match spec_digits(s, i) {
        Step::Stopped(st) => Step::Stopped(st),
        Step::Done(y_end, _) => match spec_char(s, y_end, '-') {
            Step::Stopped(st) => Step::Stopped(st),
            Step::Done(m_start, _) => match spec_digits(s, m_start) {
                Step::Stopped(st) => Step::Stopped(st),
                Step::Done(m_end, _) => match spec_char(s, m_end, '-') {
                    Step::Stopped(st) => Step::Stopped(st),
                    Step::Done(d_start, _) => match spec_digits(s, d_start) {
                        Step::Stopped(st) => Step::Stopped(st),
                        Step::Done(d_end, _) => match spec_time_suffix(s, d_end) {
                            Step::Stopped(st) => Step::Stopped(st),
                            Step::Done(end, t) => date_value(
                                run_value(s, i, y_end),
                                run_value(s, m_start, m_end),
                                run_value(s, d_start, d_end),
                                end,
                                t,
                            ),
                        },
                    },
                },
            },
        },
    }
}

/// The date of the numbers `y`, `m`, `d` at the time `t` (midnight without one).
pub open spec fn date_value(y: nat, m: nat, d: nat, end: int, t: Option<TimeOfDay>) -> Step<
    DateTime,
> {
    if y > i32::MAX || m > u32::MAX || d > u32::MAX {
        Step::Stopped(Stop::Fault(Fault::NumberTooLarge))
    } else if !is_calendar_date(y as int, m as int, d as int) {
        Step::Stopped(Stop::Fault(Fault::InvalidDate))
    } else {
        Step::Done(
            end,
            DateTime::at(
                y as i32,
                m as u32,
                d as u32,
                match t {
                    Some(t) => t,
                    None => TimeOfDay::midnight(),
                },
            ),
        )
    }
}

// ---------------------------------------------------------------------------
// Keywords
// ---------------------------------------------------------------------------

/// `c` equals the ASCII character `t`, ignoring the case of letters.
pub open spec fn ci_char_eq(c: char, t: char) -> bool {
    ||| c == t
    ||| ('A' <= t <= 'Z' && c as int == t as int + 32)
    ||| ('a' <= t <= 'z' && c as int == t as int - 32)
}

/// The ASCII keyword `tag`, ignoring case: an error at the first character that
/// differs, incomplete where the input is a proper prefix of the keyword.
pub open spec fn spec_tag_no_case(s: Seq<char>, i: int, tag: Seq<char>) -> Step<()> {
    if exists|k: int| 0 <= k < tag.len() && i + k < s.len() && !ci_char_eq(s[i + k], tag[k]) {
        Step::Stopped(Stop::Error)
    } else if i + tag.len() <= s.len() {
        Step::Done(i + tag.len(), ())
    } else {
        Step::Stopped(Stop::Incomplete)
    }
}

/// `" DEADLINE "`.
pub open spec fn deadline_keyword() -> Seq<char> {
    seq![' ', 'D', 'E', 'A', 'D', 'L', 'I', 'N', 'E', ' ']
}

/// `" SCHEDULED "`.
pub open spec fn scheduled_keyword() -> Seq<char> {
    seq![' ', 'S', 'C', 'H', 'E', 'D', 'U', 'L', 'E', 'D', ' ']
}

/// `"TODO "`.
pub open spec fn todo_keyword() -> Seq<char> {
    seq!['T', 'O', 'D', 'O', ' ']
}

/// `" DEADLINE"`, where the text of a to-do ends.
pub open spec fn deadline_marker() -> Seq<char> {
    seq![' ', 'D', 'E', 'A', 'D', 'L', 'I', 'N', 'E']
}

/// `" SCHEDULED"`, where the text of a to-do ends when it has no deadline marker.
pub open spec fn scheduled_marker() -> Seq<char> {
    seq![' ', 'S', 'C', 'H', 'E', 'D', 'U', 'L', 'E', 'D']
}

/// `" DEADLINE "` and a date.
pub open spec fn spec_deadline(s: Seq<char>, i: int) -> Step<DateTime> {
    match spec_tag_no_case(s, i, deadline_keyword()) {
        Step::Stopped(st) => Step::Stopped(st),
        Step::Done(j, _) => spec_date(s, j),
    }
}

/// `" SCHEDULED "` and a date.
pub open spec fn spec_scheduled(s: Seq<char>, i: int) -> Step<DateTime> {
    match spec_tag_no_case(s, i, scheduled_keyword()) {
        Step::Stopped(st) => Step::Stopped(st),
        Step::Done(j, _) => spec_date(s, j),
    }
}

// ---------------------------------------------------------------------------
// The text of a to-do
// ---------------------------------------------------------------------------

/// The first position at or after `i` where `pat` occurs in `s`.
pub open spec fn find_from(s: Seq<char>, i: int, pat: Seq<char>) -> Option<int>
    decreases s.len() + 1 - i,
{
    if i < 0 || i + pat.len() > s.len() {
        None
    } else if s.subrange(i, i + pat.len()) == pat {
        Some(i)
    } else {
        find_from(s, i + 1, pat)
    }
}

/// Whether `pat` occurs somewhere in `t`.
pub open spec fn occurs_in(t: Seq<char>, pat: Seq<char>) -> bool {
    exists|k: int| 0 <= k && k + pat.len() <= t.len() && #[trigger] t.subrange(k, k + pat.len()) == pat
}

/// Where the text of a to-do that starts at `i` ends: at the first
/// `" DEADLINE"`, else at the first `" SCHEDULED"`, else at the end.
pub open spec fn todo_text_end(s: Seq<char>, i: int) -> int {
    match find_from(s, i, deadline_marker()) {
        Some(k) => k,
        None => match find_from(s, i, scheduled_marker()) {
            Some(k) => k,
            None => s.len() as int,
        },
    }
}

/// A date that may be absent: what follows stays where it was when the date
/// does not parse.
pub open spec fn optional_date(st: Step<DateTime>, i: int) -> Result<(int, Option<DateTime>), Fault> {
    match st {
        Step::Done(e, d) => Ok((e, Some(d))),
        Step::Stopped(Stop::Fault(f)) => Err(f),
        Step::Stopped(_) => Ok((i, None)),
    }
}

/// The meaning of a to-do command.
pub struct TodoCmdView {
    pub body: Seq<char>,
    pub deadline: Option<DateTime>,
    pub scheduled: Option<DateTime>,
}

/// A to-do: its text, then an optional deadline, then an optional scheduled date.
pub open spec fn spec_todo_cmd(s: Seq<char>, i: int) -> Result<TodoCmdView, Fault> {
    let k = todo_text_end(s, i);
    match optional_date(spec_deadline(s, k), k) {
        Err(f) => Err(f),
        Ok((e, d)) => match optional_date(spec_scheduled(s, e), e) {
            Err(f) => Err(f),
            Ok((_, sc)) => Ok(TodoCmdView { body: s.subrange(i, k), deadline: d, scheduled: sc }),
        },
    }
}

// ---------------------------------------------------------------------------
// Commands
// ---------------------------------------------------------------------------

/// The first position at or after `i` that is no white space.
pub open spec fn skip_white_space(s: Seq<char>, i: int) -> int
    decreases s.len() - i,
{
    if 0 <= i < s.len() && is_white_space(s[i]) {
        skip_white_space(s, i + 1)
    } else {
        i
    }
}

/// The first position at or after `i` that is white space, or the end.
pub open spec fn word_end(s: Seq<char>, i: int) -> int
    decreases s.len() - i,
{
    if 0 <= i < s.len() && !is_white_space(s[i]) {
        word_end(s, i + 1)
    } else {
        i
    }
}

/// The first word of a message (empty when it has none).
pub open spec fn first_word(s: Seq<char>) -> Seq<char> {
    let j = skip_white_space(s, 0);
    s.subrange(j, word_end(s, j))
}

/// The position of the character that starts `b` bytes after position `i`, if a
/// character starts there.
pub open spec fn index_at_byte(s: Seq<char>, i: int, b: int) -> Option<int>
    decreases s.len() - i,
{
    if b == 0 {
        Some(i)
    } else if b < 0 || i < 0 || i >= s.len() {
        None
    } else {
        index_at_byte(s, i + 1, b - char_width(s[i]))
    }
}

pub open spec fn todo_word() -> Seq<char> {
    seq!['T', 'O', 'D', 'O']
}

pub open spec fn agenda_word() -> Seq<char> {
    seq!['A', 'G', 'E', 'N', 'D', 'A']
}

/// The meaning of a command.
pub enum CommandView {
    Todo(TodoCmdView),
    Agenda,
}

/// A message whose first word is `TODO` is a to-do, whose text starts at byte 5;
/// one whose first word is `AGENDA` asks for the agenda; others are no command.
pub open spec fn spec_command(s: Seq<char>) -> Result<Option<CommandView>, Fault> {
    let w = first_word(s);
    if w == todo_word() {
        match index_at_byte(s, 0, 5) {
            None => Err(Fault::TextOffset),
            Some(p) => match spec_todo_cmd(s, p) {
                Ok(t) => Ok(Some(CommandView::Todo(t))),
                Err(f) => Err(f),
            },
        }
    } else if w == agenda_word() {
        Ok(Some(CommandView::Agenda))
    } else {
        Ok(None)
    }
}

// ---------------------------------------------------------------------------
// Lemmas
// ---------------------------------------------------------------------------

/// The run of digits from `i` ends within the input, after `i`, and holds digits only.
pub proof fn lemma_digit_run(s: Seq<char>, i: int)
    requires
        0 <= i <= s.len(),
    ensures
        i <= digit_run_end(s, i) <= s.len(),
        forall|k: int| i <= k < digit_run_end(s, i) ==> is_digit(#[trigger] s[k]),
        digit_run_end(s, i) < s.len() ==> !is_digit(s[digit_run_end(s, i)]),
    decreases s.len() - i,
{
    if i < s.len() && is_digit(s[i]) {
        lemma_digit_run(s, i + 1);
    }
}

/// Appending a digit to a numeral multiplies by ten and adds the digit.
pub proof fn lemma_run_value_step(s: Seq<char>, a: int, k: int)
    requires
        0 <= a <= k < s.len(),
    ensures
        run_value(s, a, k + 1) == 10 * run_value(s, a, k) + digit_value(s[k]),
{
    assert(s.subrange(a, k + 1).drop_last() =~= s.subrange(a, k));
}

/// A numeral is at least the value of each of its prefixes.
pub proof fn lemma_run_value_monotone(s: Seq<char>, a: int, k: int, b: int)
    requires
        0 <= a <= k <= b <= s.len(),
    ensures
        run_value(s, a, k) <= run_value(s, a, b),
    decreases b - k,
{
    if k < b {
        lemma_run_value_monotone(s, a, k, b - 1);
        lemma_run_value_step(s, a, b - 1);
    }
}

/// A run of digits that the input holds from `i` to `e`, and that ends there.
pub proof fn lemma_digit_run_at(s: Seq<char>, i: int, e: int)
    requires
        0 <= i <= e <= s.len(),
        forall|k: int| i <= k < e ==> is_digit(#[trigger] s[k]),
        e == s.len() || !is_digit(s[e]),
    ensures
        digit_run_end(s, i) == e,
    decreases e - i,
{
    if i < e {
        lemma_digit_run_at(s, i + 1, e);
    }
}

/// The digits `d` at position `i`, followed by the end or by a non-digit, are
/// read as a number of value `digits_value(d)`.
pub proof fn lemma_digits_at(s: Seq<char>, i: int, d: Seq<char>)
    requires
        0 <= i,
        i + d.len() <= s.len(),
        d.len() > 0,
        s.subrange(i, i + d.len()) == d,
        forall|k: int| 0 <= k < d.len() ==> is_digit(#[trigger] d[k]),
        i + d.len() == s.len() || !is_digit(s[i + d.len()]),
    ensures
        spec_digits(s, i) == Step::Done(i + d.len(), ()),
        digit_run_end(s, i) == i + d.len(),
        run_value(s, i, i + d.len()) == digits_value(d),
{
    assert forall|k: int| i <= k < i + d.len() implies is_digit(#[trigger] s[k]) by {
        assert(s[k] == s.subrange(i, i + d.len())[k - i]);
    }
    lemma_digit_run_at(s, i, i + d.len());
    assert(is_digit(s[i])) by {
        assert(s[i] == d[0]);
    }
}

} // verus!
