//! Parsing of chat commands: `TODO <text> [DEADLINE <date>] [SCHEDULED <date>]`
//! and `AGENDA`.
use vstd::prelude::*;
use crate::text::{is_digit, digit_value, is_whitespace, is_white_space, utf8_width, char_width, chars_of};
use crate::datetime::{DateTime, TimeOfDay, calendar_date_exists, clock_time_exists};
use crate::grammar::{
    Fault, Stop, Step, TodoCmdView, CommandView, is_fault, step_of, unit_step, digit_run_end,
    spec_digits, spec_char, run_value, has_seconds, spec_time, time_value, spec_time_suffix,
    spec_date, date_value, ci_char_eq, spec_tag_no_case, deadline_keyword, scheduled_keyword,
    todo_keyword, deadline_marker, scheduled_marker, spec_deadline, spec_scheduled, find_from,
    todo_text_end, optional_date, spec_todo_cmd, skip_white_space, word_end, index_at_byte,
    todo_word, agenda_word, spec_command, lemma_digit_run, lemma_run_value_step,
    lemma_run_value_monotone,
};

verus! {

/// A to-do read from a command: its text and optional dates.
#[derive(Debug, PartialEq)]
pub struct TodoCmd {
    pub body: String,
    pub deadline: Option<DateTime>,
    pub scheduled: Option<DateTime>,
}

impl View for TodoCmd {
    type V = TodoCmdView;

    open spec fn view(&self) -> TodoCmdView {
        TodoCmdView { body: self.body@, deadline: self.deadline, scheduled: self.scheduled }
    }
}

/// A command of the chat: add a to-do, or show the agenda.
#[derive(Debug, PartialEq)]
pub enum Command {
    Todo(TodoCmd),
    Agenda,
}

impl View for Command {
    type V = CommandView;

    open spec fn view(&self) -> CommandView {
        match self {
            Command::Todo(t) => CommandView::Todo(t@),
            Command::Agenda => CommandView::Agenda,
        }
    }
}

// ---------------------------------------------------------------------------
// Digits and numbers
// ---------------------------------------------------------------------------

fn is_ascii_digit(c: char) -> (r: bool)
    ensures
        r == is_digit(c),
{
    '0' <= c && c <= '9'
}

fn digit_end(s: &Vec<char>, i: usize) -> (r: usize)
    requires
        i <= s.len(),
    ensures
        r == digit_run_end(s@, i as int),
{
    let mut k = i;
    while k < s.len() && is_ascii_digit(s[k])
        invariant
            i <= k <= s.len(),
            digit_run_end(s@, i as int) == digit_run_end(s@, k as int),
        decreases s.len() - k,
    {
        k = k + 1;
    }
    k
}

fn parse_digits(s: &Vec<char>, i: usize) -> (r: Result<usize, Stop>)
    requires
        i <= s.len(),
    ensures
        unit_step(r) == spec_digits(s@, i as int),
{
    if i >= s.len() {
        Err(Stop::Incomplete)
    } else if !is_ascii_digit(s[i]) {
        Err(Stop::Error)
    } else {
        Ok(digit_end(s, i))
    }
}

fn parse_char(s: &Vec<char>, i: usize, c: char) -> (r: Result<usize, Stop>)
    requires
        i <= s.len(),
    ensures
        unit_step(r) == spec_char(s@, i as int, c),
{
    if i >= s.len() {
        Err(Stop::Incomplete)
    } else if s[i] != c {
        Err(Stop::Error)
    } else {
        Ok(i + 1)
    }
}

/// The value of the digits from `a` to `b`, where it is at most `limit`.
fn number_upto(s: &Vec<char>, a: usize, b: usize, limit: u64) -> (r: Option<u64>)
    requires
        a <= b <= s.len(),
        limit <= u32::MAX,
        forall|k: int| a <= k < b ==> is_digit(#[trigger] s@[k]),
    ensures
        r is Some <==> run_value(s@, a as int, b as int) <= limit,
        r matches Some(v) ==> v == run_value(s@, a as int, b as int),
{
    let mut acc: u64 = 0;
    let mut k = a;
    assert(s@.subrange(a as int, a as int) =~= Seq::<char>::empty());
    while k < b
        invariant
            a <= k <= b <= s.len(),
            limit <= u32::MAX,
            forall|j: int| a <= j < b ==> is_digit(#[trigger] s@[j]),
            acc == run_value(s@, a as int, k as int),
            acc <= limit,
        decreases b - k,
    {
        let c = s[k];
        assert(is_digit(s@[k as int]));
        let d = (c as u32 - '0' as u32) as u64;
        assert(d == digit_value(c));
        proof {
            lemma_run_value_step(s@, a as int, k as int);
        }
        let next = acc * 10 + d;
        if next > limit {
            proof {
                lemma_run_value_monotone(s@, a as int, (k + 1) as int, b as int);
            }
            return None;
        }
        acc = next;
        k = k + 1;
    }
    Some(acc)
}

// ---------------------------------------------------------------------------
// Times and dates
// ---------------------------------------------------------------------------

fn parse_time(s: &Vec<char>, i: usize) -> (r: Result<(usize, TimeOfDay), Stop>)
    requires
        i <= s.len(),
    ensures
        step_of(r) == spec_time(s@, i as int),
{
    let h_end = match parse_digits(s, i) {
        Ok(e) => e,
        Err(st) => return Err(st),
    };
    proof {
        lemma_digit_run(s@, i as int);
    }
    let m_start = match parse_char(s, h_end, ':') {
        Ok(e) => e,
        Err(st) => return Err(st),
    };
    let m_end = match parse_digits(s, m_start) {
        Ok(e) => e,
        Err(st) => return Err(st),
    };
    proof {
        lemma_digit_run(s@, m_start as int);
    }
    let has_sec = m_end < s.len() && s[m_end] == ':' && m_end + 1 < s.len() && is_ascii_digit(
        s[m_end + 1],
    );
    assert(has_sec == has_seconds(s@, m_end as int));
    let sec_end = if has_sec {
        proof {
            lemma_digit_run(s@, m_end + 1);
        }
        digit_end(s, m_end + 1)
    } else {
        m_end
    };
    let h = number_upto(s, i, h_end, 0xffff_ffff);
    let m = number_upto(s, m_start, m_end, 0xffff_ffff);
    let sec = if has_sec {
        number_upto(s, m_end + 1, sec_end, 0xffff_ffff)
    } else {
        Some(0)
    };
    assert(spec_time(s@, i as int) == time_value(
        s@,
        i as int,
        h_end as int,
        m_start as int,
        m_end as int,
    ));
    match (h, m, sec) {
        (Some(h), Some(m), Some(sec)) => {
            if clock_time_exists(h as u32, m as u32, sec as u32) {
                Ok((sec_end, TimeOfDay { hour: h as u32, minute: m as u32, second: sec as u32 }))
            } else {
                Err(Stop::Fault(Fault::InvalidTime))
            }
        },
        _ => Err(Stop::Fault(Fault::NumberTooLarge)),
    }
}

fn parse_time_suffix(s: &Vec<char>, d_end: usize) -> (r: Result<(usize, Option<TimeOfDay>), Stop>)
    requires
        d_end <= s.len(),
    ensures
        step_of(r) == spec_time_suffix(s@, d_end as int),
{
    if d_end < s.len() && (s[d_end] == 'T' || s[d_end] == ' ') {
        match parse_time(s, d_end + 1) {
            Ok((e, t)) => Ok((e, Some(t))),
            Err(Stop::Error) => Ok((d_end, None)),
            Err(st) => Err(st),
        }
    } else {
        Ok((d_end, None))
    }
}

fn parse_date(s: &Vec<char>, i: usize) -> (r: Result<(usize, DateTime), Stop>)
    requires
        i <= s.len(),
    ensures
        step_of(r) == spec_date(s@, i as int),
{
    let y_end = match parse_digits(s, i) {
        Ok(e) => e,
        Err(st) => return Err(st),
    };
    proof {
        lemma_digit_run(s@, i as int);
    }
    let m_start = match parse_char(s, y_end, '-') {
        Ok(e) => e,
        Err(st) => return Err(st),
    };
    let m_end = match parse_digits(s, m_start) {
        Ok(e) => e,
        Err(st) => return Err(st),
    };
    proof {
        lemma_digit_run(s@, m_start as int);
    }
    let d_start = match parse_char(s, m_end, '-') {
        Ok(e) => e,
        Err(st) => return Err(st),
    };
    let d_end = match parse_digits(s, d_start) {
        Ok(e) => e,
        Err(st) => return Err(st),
    };
    proof {
        lemma_digit_run(s@, d_start as int);
    }
    let (end, t) = match parse_time_suffix(s, d_end) {
        Ok(x) => x,
        Err(st) => return Err(st),
    };
    let y = number_upto(s, i, y_end, 0x7fff_ffff);
    let m = number_upto(s, m_start, m_end, 0xffff_ffff);
    let d = number_upto(s, d_start, d_end, 0xffff_ffff);
    let ghost yv = run_value(s@, i as int, y_end as int);
    let ghost mv = run_value(s@, m_start as int, m_end as int);
    let ghost dv = run_value(s@, d_start as int, d_end as int);
    assert(spec_date(s@, i as int) == date_value(yv, mv, dv, end as int, t));
    match (y, m, d) {
        (Some(y), Some(m), Some(d)) => {
            if calendar_date_exists(y as i32, m as u32, d as u32) {
                let time = match t {
                    Some(t) => t,
                    None => TimeOfDay { hour: 0, minute: 0, second: 0 },
                };
                Ok(
                    (
                        end,
                        DateTime {
                            year: y as i32,
                            month: m as u32,
                            day: d as u32,
                            hour: time.hour,
                            minute: time.minute,
                            second: time.second,
                        },
                    ),
                )
            } else {
                Err(Stop::Fault(Fault::InvalidDate))
            }
        },
        _ => Err(Stop::Fault(Fault::NumberTooLarge)),
    }
}

// ---------------------------------------------------------------------------
// Keywords and markers
// ---------------------------------------------------------------------------

fn ascii_ci_eq(c: char, t: char) -> (r: bool)
    ensures
        r == ci_char_eq(c, t),
{
    c == t || ('A' <= t && t <= 'Z' && c as u32 == t as u32 + 32) || ('a' <= t && t <= 'z'
        && c as u32 + 32 == t as u32)
}

fn parse_tag_no_case(s: &Vec<char>, i: usize, tag: &Vec<char>) -> (r: Result<usize, Stop>)
    requires
        i <= s.len(),
        tag.len() <= 16,
    ensures
        unit_step(r) == spec_tag_no_case(s@, i as int, tag@),
{
    let mut k: usize = 0;
    while k < tag.len()
        invariant
            i <= s.len(),
            tag.len() <= 16,
            k <= tag.len(),
            forall|j: int| 0 <= j < k ==> i + j < s.len() && ci_char_eq(s@[i + j], #[trigger] tag@[j]),
        decreases tag.len() - k,
    {
        if k >= s.len() - i {
            assert(!exists|j: int|
                0 <= j < tag.len() && i + j < s.len() && !ci_char_eq(s@[i + j], tag@[j]));
            return Err(Stop::Incomplete);
        }
        if !ascii_ci_eq(s[i + k], tag[k]) {
            assert(0 <= k < tag.len() && i + k < s.len() && !ci_char_eq(
                s@[i + k as int],
                tag@[k as int],
            ));
            return Err(Stop::Error);
        }
        k = k + 1;
    }
    assert(!exists|j: int|
        0 <= j < tag.len() && i + j < s.len() && !ci_char_eq(s@[i + j], tag@[j]));
    if tag.len() > 0 {
        let ghost last = tag.len() - 1;
        assert(ci_char_eq(s@[i + last], tag@[last]));
    }
    Ok(i + tag.len())
}

fn chars_from(a: &[char]) -> (v: Vec<char>)
    ensures
        v@ == a@,
{
    let mut v: Vec<char> = Vec::new();
    let mut k: usize = 0;
    while k < a.len()
        invariant
            k <= a.len(),
            v@ == a@.take(k as int),
        decreases a.len() - k,
    {
        v.push(a[k]);
        k = k + 1;
        assert(v@ =~= a@.take(k as int));
    }
    assert(v@ =~= a@);
    v
}

fn deadline_keyword_chars() -> (v: Vec<char>)
    ensures
        v@ == deadline_keyword(),
{
    let a = [' ', 'D', 'E', 'A', 'D', 'L', 'I', 'N', 'E', ' '];
    let v = chars_from(&a);
    assert(v@ =~= deadline_keyword());
    v
}

fn scheduled_keyword_chars() -> (v: Vec<char>)
    ensures
        v@ == scheduled_keyword(),
{
    let a = [' ', 'S', 'C', 'H', 'E', 'D', 'U', 'L', 'E', 'D', ' '];
    let v = chars_from(&a);
    assert(v@ =~= scheduled_keyword());
    v
}

fn todo_keyword_chars() -> (v: Vec<char>)
    ensures
        v@ == todo_keyword(),
{
    let a = ['T', 'O', 'D', 'O', ' '];
    let v = chars_from(&a);
    assert(v@ =~= todo_keyword());
    v
}

fn deadline_marker_chars() -> (v: Vec<char>)
    ensures
        v@ == deadline_marker(),
{
    let a = [' ', 'D', 'E', 'A', 'D', 'L', 'I', 'N', 'E'];
    let v = chars_from(&a);
    assert(v@ =~= deadline_marker());
    v
}

fn scheduled_marker_chars() -> (v: Vec<char>)
    ensures
        v@ == scheduled_marker(),
{
    let a = [' ', 'S', 'C', 'H', 'E', 'D', 'U', 'L', 'E', 'D'];
    let v = chars_from(&a);
    assert(v@ =~= scheduled_marker());
    v
}

/// Whether `pat` occurs at position `k`.
fn occurs_at(s: &Vec<char>, k: usize, pat: &Vec<char>) -> (r: bool)
    requires
        k + pat.len() <= s.len(),
    ensures
        r == (s@.subrange(k as int, k + pat.len()) == pat@),
{
    let mut j: usize = 0;
    while j < pat.len()
        invariant
            k + pat.len() <= s.len(),
            j <= pat.len(),
            forall|q: int| 0 <= q < j ==> s@[k + q] == pat@[q],
        decreases pat.len() - j,
    {
        if s[k + j] != pat[j] {
            assert(s@.subrange(k as int, k + pat.len())[j as int] != pat@[j as int]);
            return false;
        }
        j = j + 1;
    }
    assert(s@.subrange(k as int, k + pat.len()) =~= pat@);
    true
}

fn find(s: &Vec<char>, i: usize, pat: &Vec<char>) -> (r: Option<usize>)
    requires
        i <= s.len(),
        pat.len() <= 16,
    ensures
        match r {
            Some(k) => find_from(s@, i as int, pat@) == Some(k as int),
            None => find_from(s@, i as int, pat@) is None,
        },
{
    let mut k = i;
    loop
        invariant
            i <= k <= s.len(),
            pat.len() <= 16,
            find_from(s@, i as int, pat@) == find_from(s@, k as int, pat@),
        decreases s.len() - k,
    {
        if pat.len() > s.len() - k {
            return None;
        }
        if occurs_at(s, k, pat) {
            return Some(k);
        }
        assert(pat.len() > 0) by {
            if pat.len() == 0 {
                assert(s@.subrange(k as int, k as int) =~= pat@);
            }
        }
        k = k + 1;
    }
}

// ---------------------------------------------------------------------------
// To-dos
// ---------------------------------------------------------------------------

fn todo_text_at(s: &Vec<char>, i: usize) -> (r: usize)
    requires
        i <= s.len(),
    ensures
        r == todo_text_end(s@, i as int),
        i <= r <= s.len(),
{
    let dm = deadline_marker_chars();
    let sm = scheduled_marker_chars();
    proof {
        lemma_find_from_bounds(s@, i as int, deadline_marker());
        lemma_find_from_bounds(s@, i as int, scheduled_marker());
    }
    match find(s, i, &dm) {
        Some(k) => k,
        None => match find(s, i, &sm) {
            Some(k) => k,
            None => s.len(),
        },
    }
}

proof fn lemma_find_from_bounds(s: Seq<char>, i: int, pat: Seq<char>)
    requires
        0 <= i,
    ensures
        find_from(s, i, pat) matches Some(k) ==> i <= k && k + pat.len() <= s.len(),
    decreases s.len() + 1 - i,
{
    if i + pat.len() <= s.len() && s.subrange(i, i + pat.len()) != pat {
        lemma_find_from_bounds(s, i + 1, pat);
    }
}

fn parse_keyword_date(s: &Vec<char>, i: usize, keyword: &Vec<char>) -> (r: Result<
    (usize, DateTime),
    Stop,
>)
    requires
        i <= s.len(),
        keyword.len() <= 16,
    ensures
        step_of(r) == match spec_tag_no_case(s@, i as int, keyword@) {
            Step::Stopped(st) => Step::Stopped(st),
            Step::Done(j, _) => spec_date(s@, j),
        },
{
    match parse_tag_no_case(s, i, keyword) {
        Err(st) => Err(st),
        Ok(j) => parse_date(s, j),
    }
}

fn optional(r: Result<(usize, DateTime), Stop>, i: usize) -> (o: Result<
    (usize, Option<DateTime>),
    Fault,
>)
    ensures
        match (o, optional_date(step_of(r), i as int)) {
            (Ok((e, d)), Ok((e2, d2))) => e == e2 && d == d2,
            (Err(f), Err(g)) => f == g,
            _ => false,
        },
{
    match r {
        Ok((e, d)) => Ok((e, Some(d))),
        Err(Stop::Fault(f)) => Err(f),
        Err(_) => Ok((i, None)),
    }
}

proof fn lemma_date_end(s: Seq<char>, i: int)
    requires
        0 <= i <= s.len(),
    ensures
        spec_date(s, i) matches Step::Done(e, _) ==> i <= e <= s.len(),
{
    lemma_digit_run(s, i);
    let y_end = digit_run_end(s, i);
    if y_end < s.len() {
        lemma_digit_run(s, y_end + 1);
        let m_end = digit_run_end(s, y_end + 1);
        if m_end < s.len() {
            lemma_digit_run(s, m_end + 1);
            let d_end = digit_run_end(s, m_end + 1);
            if d_end < s.len() {
                lemma_time_end(s, d_end + 1);
            }
        }
    }
}

proof fn lemma_time_end(s: Seq<char>, i: int)
    requires
        0 <= i <= s.len(),
    ensures
        spec_time(s, i) matches Step::Done(e, _) ==> i <= e <= s.len(),
{
    lemma_digit_run(s, i);
    let h_end = digit_run_end(s, i);
    if h_end < s.len() {
        lemma_digit_run(s, h_end + 1);
        let m_end = digit_run_end(s, h_end + 1);
        if m_end + 1 < s.len() {
            lemma_digit_run(s, m_end + 1);
        }
    }
}

fn parse_todo_cmd(text: &str, s: &Vec<char>, i: usize) -> (r: Result<TodoCmd, Fault>)
    requires
        s@ == text@,
        i <= s.len(),
    ensures
        match (r, spec_todo_cmd(s@, i as int)) {
            (Ok(t), Ok(v)) => t@ == v,
            (Err(f), Err(g)) => f == g,
            _ => false,
        },
{
    let k = todo_text_at(s, i);
    let dk = deadline_keyword_chars();
    let sk = scheduled_keyword_chars();
    let (e, d) = match optional(parse_keyword_date(s, k, &dk), k) {
        Ok(x) => x,
        Err(f) => return Err(f),
    };
    assert(e <= s.len()) by {
        if k + 10 <= s.len() {
            lemma_date_end(s@, k + 10);
        }
    }
    let (_, sc) = match optional(parse_keyword_date(s, e, &sk), e) {
        Ok(x) => x,
        Err(f) => return Err(f),
    };
    let body = String::from_str(text.substring_char(i, k));
    Ok(TodoCmd { body, deadline: d, scheduled: sc })
}

// ---------------------------------------------------------------------------
// Commands
// ---------------------------------------------------------------------------

proof fn lemma_skip_white_space(s: Seq<char>, i: int)
    requires
        0 <= i <= s.len(),
    ensures
        i <= skip_white_space(s, i) <= s.len(),
    decreases s.len() - i,
{
    if i < s.len() && is_white_space(s[i]) {
        lemma_skip_white_space(s, i + 1);
    }
}

proof fn lemma_word_end(s: Seq<char>, i: int)
    requires
        0 <= i <= s.len(),
    ensures
        i <= word_end(s, i) <= s.len(),
    decreases s.len() - i,
{
    if i < s.len() && !is_white_space(s[i]) {
        lemma_word_end(s, i + 1);
    }
}

/// Where the first word of a message starts and ends.
fn first_word_bounds(s: &Vec<char>) -> (r: (usize, usize))
    ensures
        r.0 == skip_white_space(s@, 0),
        r.1 == word_end(s@, r.0 as int),
        r.0 <= r.1 <= s.len(),
{
    let mut a: usize = 0;
    while a < s.len() && is_whitespace(s[a])
        invariant
            a <= s.len(),
            skip_white_space(s@, 0) == skip_white_space(s@, a as int),
        decreases s.len() - a,
    {
        a = a + 1;
    }
    let mut b: usize = a;
    while b < s.len() && !is_whitespace(s[b])
        invariant
            a <= b <= s.len(),
            word_end(s@, a as int) == word_end(s@, b as int),
        decreases s.len() - b,
    {
        b = b + 1;
    }
    (a, b)
}

/// Whether the characters from `a` to `b` are `w`.
fn word_is(s: &Vec<char>, a: usize, b: usize, w: &Vec<char>) -> (r: bool)
    requires
        a <= b <= s.len(),
    ensures
        r == (s@.subrange(a as int, b as int) == w@),
{
    if b - a != w.len() {
        assert(s@.subrange(a as int, b as int).len() != w@.len());
        false
    } else {
        occurs_at(s, a, w)
    }
}

fn todo_word_chars() -> (v: Vec<char>)
    ensures
        v@ == todo_word(),
{
    let a = ['T', 'O', 'D', 'O'];
    let v = chars_from(&a);
    assert(v@ =~= todo_word());
    v
}

fn agenda_word_chars() -> (v: Vec<char>)
    ensures
        v@ == agenda_word(),
{
    let a = ['A', 'G', 'E', 'N', 'D', 'A'];
    let v = chars_from(&a);
    assert(v@ =~= agenda_word());
    v
}

/// The position of the character that starts `b` bytes into the message.
fn char_index_at_byte(s: &Vec<char>, b: usize) -> (r: Option<usize>)
    ensures
        match r {
            Some(p) => index_at_byte(s@, 0, b as int) == Some(p as int) && p <= s.len(),
            None => index_at_byte(s@, 0, b as int) is None,
        },
{
    let mut i: usize = 0;
    let mut rem: usize = b;
    loop
        invariant
            i <= s.len(),
            index_at_byte(s@, 0, b as int) == index_at_byte(s@, i as int, rem as int),
        decreases s.len() - i,
    {
        if rem == 0 {
            return Some(i);
        }
        if i >= s.len() {
            return None;
        }
        let w = utf8_width(s[i]);
        if w > rem {
            assert(index_at_byte(s@, i + 1, rem - char_width(s@[i as int])) is None);
            return None;
        }
        rem = rem - w;
        i = i + 1;
    }
}

/// The meaning of a command, or `None` for an optional command.
pub open spec fn command_view(c: Option<Command>) -> Option<CommandView> {
    match c {
        Some(c) => Some(c@),
        None => None,
    }
}

/// Reads a chat message as a command. Messages on which the command handling
/// gives up are answered with the reason.
pub fn command_checked(i: &str) -> (r: Result<Option<Command>, Fault>)
    ensures
        match r {
            Ok(c) => spec_command(i@) == Ok::<Option<CommandView>, Fault>(command_view(c)),
            Err(f) => spec_command(i@) == Err::<Option<CommandView>, Fault>(f),
        },
{
    let s = chars_of(i);
    let (a, b) = first_word_bounds(&s);
    let tw = todo_word_chars();
    let aw = agenda_word_chars();
    if word_is(&s, a, b, &tw) {
        match char_index_at_byte(&s, 5) {
            None => Err(Fault::TextOffset),
            Some(p) => match parse_todo_cmd(i, &s, p) {
                Ok(t) => Ok(Some(Command::Todo(t))),
                Err(f) => Err(f),
            },
        }
    } else if word_is(&s, a, b, &aw) {
        Ok(Some(Command::Agenda))
    } else {
        Ok(None)
    }
}

/// Reads a chat message as a command: `TODO ...` gives a to-do, `AGENDA` asks for
/// the agenda, and any other first word gives `None`.
pub fn command(i: &str) -> (r: Option<Command>)
    requires
        spec_command(i@) is Ok,
    ensures
        spec_command(i@) == Ok::<Option<CommandView>, Fault>(command_view(r)),
{
    match command_checked(i) {
        Ok(c) => c,
        Err(_) => None,
    }
}

// ---------------------------------------------------------------------------
// Parsers on string slices
// ---------------------------------------------------------------------------

/// The result of a parser on a string slice: the rest of the input and the value,
/// or why it failed.
#[derive(Debug, PartialEq)]
pub enum IResult<'a, O> {
    Done(&'a str, O),
    Error,
    Incomplete,
}

/// `r` is what a parser with the outcome `st` on `input` returns.
pub open spec fn reports<'a, O>(r: IResult<'a, O>, st: Step<O>, input: Seq<char>) -> bool {
    match r {
        IResult::Done(rest, out) => st matches Step::Done(e, v) && rest@ == input.subrange(
            e,
            input.len() as int,
        ) && out == v,
        IResult::Error => st matches Step::Stopped(Stop::Error),
        IResult::Incomplete => st matches Step::Stopped(Stop::Incomplete),
    }
}

fn to_iresult<'a, O>(text: &'a str, r: Result<(usize, O), Stop>) -> (out: IResult<'a, O>)
    requires
        !is_fault(step_of(r)),
        r matches Ok((e, _)) ==> e <= text@.len(),
    ensures
        reports(out, step_of(r), text@),
{
    match r {
        Ok((e, v)) => {
            let n = text.unicode_len();
            IResult::Done(text.substring_char(e, n), v)
        },
        Err(Stop::Error) => IResult::Error,
        Err(_) => IResult::Incomplete,
    }
}

/// `HH:MM[:SS]`.
pub fn time<'a>(i: &'a str) -> (r: IResult<'a, TimeOfDay>)
    requires
        !is_fault(spec_time(i@, 0)),
    ensures
        reports(r, spec_time(i@, 0), i@),
{
    let s = chars_of(i);
    proof {
        lemma_time_end(s@, 0);
    }
    to_iresult(i, parse_time(&s, 0))
}

/// `Y-M-D`, then optionally `T` or a space and a time.
pub fn date<'a>(i: &'a str) -> (r: IResult<'a, DateTime>)
    requires
        !is_fault(spec_date(i@, 0)),
    ensures
        reports(r, spec_date(i@, 0), i@),
{
    let s = chars_of(i);
    proof {
        lemma_date_end(s@, 0);
    }
    to_iresult(i, parse_date(&s, 0))
}

/// `" DEADLINE "` (in any case) and a date.
pub fn deadline<'a>(i: &'a str) -> (r: IResult<'a, DateTime>)
    requires
        !is_fault(spec_deadline(i@, 0)),
    ensures
        reports(r, spec_deadline(i@, 0), i@),
{
    let s = chars_of(i);
    let k = deadline_keyword_chars();
    let p = parse_keyword_date(&s, 0, &k);
    proof {
        if 10 <= s@.len() {
            lemma_date_end(s@, 10);
        }
    }
    to_iresult(i, p)
}

/// `" SCHEDULED "` (in any case) and a date.
pub fn scheduled<'a>(i: &'a str) -> (r: IResult<'a, DateTime>)
    requires
        !is_fault(spec_scheduled(i@, 0)),
    ensures
        reports(r, spec_scheduled(i@, 0), i@),
{
    let s = chars_of(i);
    let k = scheduled_keyword_chars();
    let p = parse_keyword_date(&s, 0, &k);
    proof {
        if 11 <= s@.len() {
            lemma_date_end(s@, 11);
        }
    }
    to_iresult(i, p)
}

/// `"TODO "` in any case; the value is the matched text.
pub fn todo<'a>(i: &'a str) -> (r: IResult<'a, &'a str>)
    ensures
        match spec_tag_no_case(i@, 0, todo_keyword()) {
            Step::Done(e, _) => r matches IResult::Done(rest, out) && out@ == i@.subrange(0, e)
                && rest@ == i@.subrange(e, i@.len() as int),
            Step::Stopped(Stop::Error) => r matches IResult::Error,
            Step::Stopped(_) => r matches IResult::Incomplete,
        },
{
    let s = chars_of(i);
    let k = todo_keyword_chars();
    match parse_tag_no_case(&s, 0, &k) {
        Ok(e) => {
            let n = i.unicode_len();
            IResult::Done(i.substring_char(e, n), i.substring_char(0, e))
        },
        Err(Stop::Error) => IResult::Error,
        Err(_) => IResult::Incomplete,
    }
}

/// The text of a to-do: up to the first `" DEADLINE"`, else up to the first
/// `" SCHEDULED"`, else all of the input.
pub fn todo_text<'a>(i: &'a str) -> (r: IResult<'a, &'a str>)
    ensures
        r matches IResult::Done(rest, out) && out@ == i@.subrange(0, todo_text_end(i@, 0))
            && rest@ == i@.subrange(todo_text_end(i@, 0), i@.len() as int),
{
    let s = chars_of(i);
    let k = todo_text_at(&s, 0);
    let n = i.unicode_len();
    IResult::Done(i.substring_char(k, n), i.substring_char(0, k))
}

} // verus!
