//! Properties of the library as a whole.
use vstd::prelude::*;
use crate::text::{
    is_digit, digits_value, digit_char, decimal, utf8_len, lemma_digit_char,
    lemma_zero_padded_value, lemma_decimal_len_below, pow10,
};
use crate::models::Todo;
use crate::bot::{ChatEvent, event_outcome, text_view, is_answered, Channel, Reaction, reply_text, stored_text};
use crate::text::{is_white_space, signed_decimal};
use crate::grammar::agenda_word;
use crate::datetime::is_clock_time;
use crate::agenda::{
    center, align_right, title_line, rule_line, todo_line, content_width, deadline_width,
    scheduled_width, deadline_cell, scheduled_cell, effort_cell, showable, max_nat, agenda,
    header, rows, row,
};
use crate::datetime::{DateTime, TimeOfDay, year_text, two_digits, date_text, date_time_text};
use crate::grammar::{
    Step, Stop, spec_date, spec_time, spec_digits, spec_char, run_value,
    lemma_digits_at, occurs_in, find_from, first_word, index_at_byte, skip_white_space, word_end,
    todo_word, todo_keyword, deadline_keyword, scheduled_keyword, deadline_marker,
    scheduled_marker, spec_command, spec_todo_cmd, todo_text_end, spec_tag_no_case, ci_char_eq,
    spec_deadline, spec_scheduled, CommandView, TodoCmdView, digit_run_end, optional_date,
};

verus! {

/// Two digits are read back as their value.
proof fn lemma_two_digits(v: nat)
    requires
        v < 100,
    ensures
        forall|k: int| 0 <= k < 2 ==> is_digit(#[trigger] two_digits(v)[k]),
        digits_value(two_digits(v)) == v,
{
    lemma_digit_char(v / 10);
    lemma_digit_char(v % 10);
    let t = two_digits(v);
    assert(t.drop_last() =~= seq![digit_char(v / 10)]);
    assert(t.drop_last().drop_last() =~= Seq::<char>::empty());
    assert(digits_value(Seq::<char>::empty()) == 0);
    assert(digits_value(t.drop_last()) == v / 10);
    assert(digits_value(t) == 10 * (v / 10) + v % 10);
}

/// The year text of the years 0 to 9999 is four digits, read back as the year.
proof fn lemma_year_digits(y: int)
    requires
        0 <= y <= 9999,
    ensures
        year_text(y).len() == 4,
        forall|k: int| 0 <= k < 4 ==> is_digit(#[trigger] year_text(y)[k]),
        digits_value(year_text(y)) == y,
{
    lemma_zero_padded_value(y as nat, 4);
    assert(pow10(4) == 10000) by {
        reveal_with_fuel(pow10, 5);
    }
    lemma_decimal_len_below(y as nat, 4);
}

/// The positions of the parts of the text of a date.
proof fn lemma_date_text_layout(d: DateTime)
    requires
        d.is_valid(),
        0 <= d.year <= 9999,
    ensures
        date_text(d).len() == 10,
        date_text(d).subrange(0, 4) == year_text(d.year as int),
        date_text(d)[4] == '-',
        date_text(d).subrange(5, 7) == two_digits(d.month as nat),
        date_text(d)[7] == '-',
        date_text(d).subrange(8, 10) == two_digits(d.day as nat),
{
    lemma_year_digits(d.year as int);
    let s = date_text(d);
    assert(s.subrange(0, 4) =~= year_text(d.year as int));
    assert(s.subrange(5, 7) =~= two_digits(d.month as nat));
    assert(s.subrange(8, 10) =~= two_digits(d.day as nat));
}

/// The parts of the text of a date at position `p` are read back as the date's numbers.
proof fn lemma_date_parts(s: Seq<char>, p: int, d: DateTime)
    requires
        d.is_valid(),
        0 <= d.year <= 9999,
        0 <= p,
        p + 10 <= s.len(),
        s.subrange(p, p + 10) == date_text(d),
        p + 10 == s.len() || !is_digit(s[p + 10]),
    ensures
        spec_digits(s, p) == Step::<()>::Done(p + 4, ()),
        spec_char(s, p + 4, '-') == Step::<()>::Done(p + 5, ()),
        spec_digits(s, p + 5) == Step::<()>::Done(p + 7, ()),
        spec_char(s, p + 7, '-') == Step::<()>::Done(p + 8, ()),
        spec_digits(s, p + 8) == Step::<()>::Done(p + 10, ()),
        run_value(s, p, p + 4) == d.year,
        run_value(s, p + 5, p + 7) == d.month,
        run_value(s, p + 8, p + 10) == d.day,
{
    lemma_date_text_layout(d);
    lemma_year_digits(d.year as int);
    lemma_two_digits(d.month as nat);
    lemma_two_digits(d.day as nat);
    let t = date_text(d);
    assert(s.subrange(p, p + 4) =~= t.subrange(0, 4));
    assert(s.subrange(p + 5, p + 7) =~= t.subrange(5, 7));
    assert(s.subrange(p + 8, p + 10) =~= t.subrange(8, 10));
    assert(s[p + 4] == t[4]);
    assert(s[p + 7] == t[7]);
    lemma_digits_at(s, p, year_text(d.year as int));
    lemma_digits_at(s, p + 5, two_digits(d.month as nat));
    lemma_digits_at(s, p + 8, two_digits(d.day as nat));
}

/// The text of a date at position `p`, followed by the end of the input or by a
/// space and a character that is no digit, is read as that date at midnight.
pub proof fn lemma_date_text_at(s: Seq<char>, p: int, d: DateTime)
    requires
        d.is_valid(),
        0 <= d.year <= 9999,
        0 <= p,
        p + 10 <= s.len(),
        s.subrange(p, p + 10) == date_text(d),
        p + 10 == s.len() || (p + 11 < s.len() && s[p + 10] == ' ' && !is_digit(s[p + 11])),
    ensures
        spec_date(s, p) == Step::Done(p + 10, DateTime::at(d.year, d.month, d.day, TimeOfDay::midnight())),
{
    lemma_date_parts(s, p, d);
}

/// The text of a date and time at position `p`, at the end of the input or
/// followed by a character that is no digit, is read as that date and time.
pub proof fn lemma_date_time_text_at(s: Seq<char>, p: int, d: DateTime)
    requires
        d.is_valid(),
        0 <= d.year <= 9999,
        0 <= p,
        p + 19 <= s.len(),
        s.subrange(p, p + 19) == date_time_text(d),
        p + 19 == s.len() || !is_digit(s[p + 19]),
    ensures
        spec_date(s, p) == Step::Done(p + 19, d),
{
    let t = date_time_text(d);
    lemma_date_text_layout(d);
    lemma_two_digits(d.hour as nat);
    lemma_two_digits(d.minute as nat);
    lemma_two_digits(d.second as nat);
    assert(t.len() == 19);
    assert forall|j: int| 0 <= j < 19 implies s[p + j] == #[trigger] t[j] by {
        assert(s.subrange(p, p + 19)[j] == s[p + j]);
    }
    assert(t.subrange(0, 10) =~= date_text(d));
    assert(t.subrange(11, 13) =~= two_digits(d.hour as nat));
    assert(t.subrange(14, 16) =~= two_digits(d.minute as nat));
    assert(t.subrange(17, 19) =~= two_digits(d.second as nat));
    assert(s.subrange(p, p + 10) =~= date_text(d));
    assert(s[p + 10] == t[10]);
    lemma_date_parts(s, p, d);
    assert(s.subrange(p + 11, p + 13) =~= two_digits(d.hour as nat));
    assert(s[p + 13] == t[13]);
    assert(s.subrange(p + 14, p + 16) =~= two_digits(d.minute as nat));
    assert(s[p + 16] == t[16]);
    assert(s.subrange(p + 17, p + 19) =~= two_digits(d.second as nat));
    lemma_digits_at(s, p + 11, two_digits(d.hour as nat));
    lemma_digits_at(s, p + 14, two_digits(d.minute as nat));
    lemma_digits_at(s, p + 17, two_digits(d.second as nat));
    assert(is_digit(s[p + 17]));
    assert(spec_time(s, p + 11) == Step::Done(
        p + 19,
        TimeOfDay { hour: d.hour, minute: d.minute, second: d.second },
    ));
}

/// Dates as the agenda shows them are read back as the same dates: the text
/// `%Y-%m-%d` of a date of the years 0 to 9999 parses, as a whole, to that date
/// at midnight.
pub proof fn law_date_text_round_trip(d: DateTime)
    requires
        d.is_valid(),
        0 <= d.year <= 9999,
    ensures
        spec_date(date_text(d), 0) == Step::Done(
            10,
            DateTime::at(d.year, d.month, d.day, TimeOfDay::midnight()),
        ),
{
    let s = date_text(d);
    lemma_date_text_layout(d);
    assert(s.subrange(0, 10) =~= s);
    lemma_date_text_at(s, 0, d);
}

/// Dates and times as the agenda shows them are read back as the same dates and
/// times: the text `%Y-%m-%d %H:%M:%S` of a date and time of the years 0 to 9999
/// parses, as a whole, to it.
pub proof fn law_date_time_text_round_trip(d: DateTime)
    requires
        d.is_valid(),
        0 <= d.year <= 9999,
    ensures
        spec_date(date_time_text(d), 0) == Step::Done(19, d),
{
    let s = date_time_text(d);
    lemma_date_text_layout(d);
    assert(s.subrange(0, 19) =~= s);
    lemma_date_time_text_at(s, 0, d);
}

/// A message that starts with `TODO ` has the first word `TODO`, and its fifth
/// byte starts its sixth character.
proof fn lemma_todo_prefix(s: Seq<char>)
    requires
        s.len() >= 5,
        s.subrange(0, 5) == todo_keyword(),
    ensures
        first_word(s) == todo_word(),
        index_at_byte(s, 0, 5) == Some(5int),
{
    assert forall|j: int| 0 <= j < 5 implies s[j] == #[trigger] todo_keyword()[j] by {
        assert(s.subrange(0, 5)[j] == s[j]);
    }
    assert(s[0] == 'T' && s[1] == 'O' && s[2] == 'D' && s[3] == 'O' && s[4] == ' ');
    assert(skip_white_space(s, 0) == 0);
    reveal_with_fuel(word_end, 6);
    assert(word_end(s, 0) == 4);
    assert(s.subrange(0, 4) =~= todo_word());
    reveal_with_fuel(index_at_byte, 6);
}

/// No occurrence from `i` on: the search finds nothing.
proof fn lemma_find_none(s: Seq<char>, i: int, pat: Seq<char>)
    requires
        0 <= i,
        forall|j: int| i <= j && j + pat.len() <= s.len() ==> #[trigger] s.subrange(j, j + pat.len()) != pat,
    ensures
        find_from(s, i, pat) is None,
    decreases s.len() + 1 - i,
{
    if i + pat.len() <= s.len() {
        lemma_find_none(s, i + 1, pat);
    }
}

/// An occurrence at `k` and none between `i` and `k`: the search finds `k`.
proof fn lemma_find_first(s: Seq<char>, i: int, pat: Seq<char>, k: int)
    requires
        0 <= i <= k,
        k + pat.len() <= s.len(),
        s.subrange(k, k + pat.len()) == pat,
        forall|j: int| i <= j < k ==> #[trigger] s.subrange(j, j + pat.len()) != pat,
    ensures
        find_from(s, i, pat) == Some(k),
    decreases k - i,
{
    if i < k {
        lemma_find_first(s, i + 1, pat, k);
    }
}

/// A keyword that the input holds at `i` is matched there.
proof fn lemma_keyword_at(s: Seq<char>, i: int, kw: Seq<char>)
    requires
        0 <= i,
        i + kw.len() <= s.len(),
        s.subrange(i, i + kw.len()) == kw,
    ensures
        spec_tag_no_case(s, i, kw) == Step::<()>::Done(i + kw.len(), ()),
{
    assert forall|j: int| 0 <= j < kw.len() && i + j < s.len() implies ci_char_eq(
        s[i + j],
        #[trigger] kw[j],
    ) by {
        assert(s.subrange(i, i + kw.len())[j] == s[i + j]);
    }
}

/// A keyword at the end of the input is incomplete.
proof fn lemma_keyword_at_end(s: Seq<char>, kw: Seq<char>)
    requires
        kw.len() > 0,
    ensures
        spec_tag_no_case(s, s.len() as int, kw) == Step::<()>::Stopped(Stop::Incomplete),
{
}

/// `" DEADLINE"` does not start in `t` when `t` does not hold it and a space
/// follows `t`: the space would have to meet a letter of the marker.
proof fn lemma_marker_not_before(s: Seq<char>, t: Seq<char>, j: int)
    requires
        s.len() >= 14 + t.len(),
        s.subrange(5, 5 + t.len() as int) == t,
        s[5 + t.len() as int] == ' ',
        !occurs_in(t, deadline_marker()),
        5 <= j < 5 + t.len(),
    ensures
        s.subrange(j, j + 9) != deadline_marker(),
{
    let k: int = 5 + t.len() as int;
    if j + 9 <= k {
        assert(s.subrange(j, j + 9) =~= t.subrange(j - 5, j - 5 + 9));
        assert(t.subrange(j - 5, (j - 5) + deadline_marker().len()) == t.subrange(j - 5, j - 5 + 9));
    } else {
        let q = k - j;
        assert(s.subrange(j, j + 9)[q] == s[k]);
        assert(deadline_marker()[q] != ' ');
    }
}

/// A to-do that is only text: `TODO <text>`, where the text holds neither
/// `" DEADLINE"` nor `" SCHEDULED"`, is a to-do with that text and no dates.
pub proof fn law_todo_text(t: Seq<char>)
    requires
        !occurs_in(t, deadline_marker()),
        !occurs_in(t, scheduled_marker()),
    ensures
        spec_command(todo_keyword() + t) == Ok::<Option<CommandView>, crate::grammar::Fault>(
            Some(CommandView::Todo(TodoCmdView { body: t, deadline: None, scheduled: None })),
        ),
{
    let s = todo_keyword() + t;
    assert(s.subrange(0, 5) =~= todo_keyword());
    lemma_todo_prefix(s);
    assert forall|j: int| 5 <= j && j + deadline_marker().len() <= s.len() implies #[trigger] s.subrange(
        j,
        j + deadline_marker().len(),
    ) != deadline_marker() by {
        assert(s.subrange(j, j + 9) =~= t.subrange(j - 5, j - 5 + 9));
    }
    assert forall|j: int| 5 <= j && j + scheduled_marker().len() <= s.len() implies #[trigger] s.subrange(
        j,
        j + scheduled_marker().len(),
    ) != scheduled_marker() by {
        assert(s.subrange(j, j + 10) =~= t.subrange(j - 5, j - 5 + 10));
    }
    lemma_find_none(s, 5, deadline_marker());
    lemma_find_none(s, 5, scheduled_marker());
    assert(todo_text_end(s, 5) == s.len());
    assert(s.subrange(5, s.len() as int) =~= t);
    lemma_keyword_at_end(s, deadline_keyword());
    lemma_keyword_at_end(s, scheduled_keyword());
}

/// The layout of `TODO <text> DEADLINE <date>`: where each part starts.
proof fn lemma_deadline_command_layout(t: Seq<char>, dl: DateTime, rest: Seq<char>)
    requires
        0 <= dl.year <= 9999,
    ensures
        ({
            let s = todo_keyword() + t + deadline_keyword() + date_text(dl) + rest;
            let k: int = 5 + t.len() as int;
            &&& s.len() == k + 20 + rest.len()
            &&& s.subrange(0, 5) == todo_keyword()
            &&& s.subrange(5, k) == t
            &&& s.subrange(k, k + 9) == deadline_marker()
            &&& s.subrange(k, k + 10) == deadline_keyword()
            &&& s.subrange(k + 10, k + 20) == date_text(dl)
            &&& s.subrange(k + 20, s.len() as int) == rest
            &&& s[k] == ' '
        }),
{
    let s = todo_keyword() + t + deadline_keyword() + date_text(dl) + rest;
    let k: int = 5 + t.len() as int;
    lemma_year_digits(dl.year as int);
    assert(date_text(dl).len() == 10);
    assert(s.subrange(0, 5) =~= todo_keyword());
    assert(s.subrange(5, k) =~= t);
    assert(s.subrange(k, k + 9) =~= deadline_marker());
    assert(s.subrange(k, k + 10) =~= deadline_keyword());
    assert(s.subrange(k + 10, k + 20) =~= date_text(dl));
    assert(s.subrange(k + 20, s.len() as int) =~= rest);
}

/// The text of a to-do followed by `" DEADLINE "` ends where that keyword starts.
proof fn lemma_text_ends_at_deadline(s: Seq<char>, t: Seq<char>)
    requires
        s.len() >= 15 + t.len(),
        s.subrange(5, 5 + t.len() as int) == t,
        s.subrange(5 + t.len() as int, 14 + t.len() as int) == deadline_marker(),
        s[5 + t.len() as int] == ' ',
        !occurs_in(t, deadline_marker()),
    ensures
        todo_text_end(s, 5) == 5 + t.len(),
{
    let k: int = 5 + t.len() as int;
    assert forall|j: int| 5 <= j < k implies #[trigger] s.subrange(
        j,
        j + deadline_marker().len(),
    ) != deadline_marker() by {
        lemma_marker_not_before(s, t, j);
    }
    lemma_find_first(s, 5, deadline_marker(), k);
}

/// A to-do with a deadline: `TODO <text> DEADLINE <date>`, where the text does
/// not hold `" DEADLINE"` and the date is as the agenda shows it (a year from 0
/// to 9999), is a to-do with that text and that date at midnight as deadline.
#[verifier::rlimit(40)]
pub proof fn law_todo_with_deadline(t: Seq<char>, dl: DateTime)
    requires
        !occurs_in(t, deadline_marker()),
        dl.is_valid(),
        0 <= dl.year <= 9999,
    ensures
        spec_command(todo_keyword() + t + deadline_keyword() + date_text(dl)) == Ok::<
            Option<CommandView>,
            crate::grammar::Fault,
        >(
            Some(
                CommandView::Todo(
                    TodoCmdView {
                        body: t,
                        deadline: Some(DateTime::at(dl.year, dl.month, dl.day, TimeOfDay::midnight())),
                        scheduled: None,
                    },
                ),
            ),
        ),
{
    let rest = Seq::<char>::empty();
    let s = todo_keyword() + t + deadline_keyword() + date_text(dl);
    assert(s + rest =~= s);
    lemma_deadline_command_layout(t, dl, rest);
    let k: int = 5 + t.len() as int;
    lemma_todo_prefix(s);
    lemma_text_ends_at_deadline(s, t);
    lemma_keyword_at(s, k, deadline_keyword());
    lemma_date_text_at(s, k + 10, dl);
    lemma_keyword_at_end(s, scheduled_keyword());
    let dmid = DateTime::at(dl.year, dl.month, dl.day, TimeOfDay::midnight());
    assert(spec_deadline(s, k) == Step::Done(k + 20, dmid));
    assert(spec_scheduled(s, k + 20) == Step::<DateTime>::Stopped(Stop::Incomplete));
    assert(spec_todo_cmd(s, 5) == Ok::<TodoCmdView, crate::grammar::Fault>(
        TodoCmdView { body: t, deadline: Some(dmid), scheduled: None },
    ));
}

/// The layout of `TODO <text> DEADLINE <date> SCHEDULED <date and time>`.
#[verifier::spinoff_prover]
proof fn lemma_dates_command_layout(t: Seq<char>, dl: DateTime, sc: DateTime)
    requires
        dl.is_valid(),
        0 <= dl.year <= 9999,
        sc.is_valid(),
        0 <= sc.year <= 9999,
    ensures
        ({
            let s = todo_keyword() + t + deadline_keyword() + date_text(dl) + scheduled_keyword()
                + date_time_text(sc);
            let k: int = 5 + t.len() as int;
            &&& s.len() == k + 50
            &&& s.subrange(0, 5) == todo_keyword()
            &&& s.subrange(5, k) == t
            &&& s.subrange(k, k + 9) == deadline_marker()
            &&& s.subrange(k, k + 10) == deadline_keyword()
            &&& s.subrange(k + 10, k + 20) == date_text(dl)
            &&& s.subrange(k + 20, k + 31) == scheduled_keyword()
            &&& s.subrange(k + 31, k + 50) == date_time_text(sc)
            &&& s[k] == ' '
            &&& s[k + 20] == ' '
            &&& s[k + 21] == 'S'
        }),
{
    let rest = scheduled_keyword() + date_time_text(sc);
    let s = todo_keyword() + t + deadline_keyword() + date_text(dl) + scheduled_keyword()
        + date_time_text(sc);
    let s2 = todo_keyword() + t + deadline_keyword() + date_text(dl) + rest;
    assert(s =~= s2);
    lemma_deadline_command_layout(t, dl, rest);
    let k: int = 5 + t.len() as int;
    lemma_date_text_layout(sc);
    assert(date_time_text(sc).len() == 19);
    assert(s.subrange(k + 20, s.len() as int) == rest);
    assert(s.subrange(k + 20, k + 31) =~= rest.subrange(0, 11));
    assert(rest.subrange(0, 11) =~= scheduled_keyword());
    assert(s.subrange(k + 31, k + 50) =~= rest.subrange(11, 30));
    assert(rest.subrange(11, 30) =~= date_time_text(sc));
    assert(s.subrange(k + 20, k + 31)[0] == s[k + 20]);
    assert(s.subrange(k + 20, k + 31)[1] == s[k + 21]);
}

/// How `TODO <text> DEADLINE <date> SCHEDULED <date and time>` is read.
#[verifier::spinoff_prover]
proof fn lemma_dates_command_parse(s: Seq<char>, t: Seq<char>, dl: DateTime, sc: DateTime)
    requires
        !occurs_in(t, deadline_marker()),
        dl.is_valid(),
        0 <= dl.year <= 9999,
        sc.is_valid(),
        0 <= sc.year <= 9999,
        s.len() == 55 + t.len(),
        s.subrange(0, 5) == todo_keyword(),
        s.subrange(5, 5 + t.len() as int) == t,
        s.subrange(5 + t.len() as int, 14 + t.len() as int) == deadline_marker(),
        s.subrange(5 + t.len() as int, 15 + t.len() as int) == deadline_keyword(),
        s.subrange(15 + t.len() as int, 25 + t.len() as int) == date_text(dl),
        s.subrange(25 + t.len() as int, 36 + t.len() as int) == scheduled_keyword(),
        s.subrange(36 + t.len() as int, 55 + t.len() as int) == date_time_text(sc),
        s[5 + t.len() as int] == ' ',
        s[25 + t.len() as int] == ' ',
        s[26 + t.len() as int] == 'S',
    ensures
        first_word(s) == todo_word(),
        index_at_byte(s, 0, 5) == Some(5int),
        spec_todo_cmd(s, 5) == Ok::<TodoCmdView, crate::grammar::Fault>(
            TodoCmdView {
                body: t,
                deadline: Some(DateTime::at(dl.year, dl.month, dl.day, TimeOfDay::midnight())),
                scheduled: Some(sc),
            },
        ),
{
    let k: int = 5 + t.len() as int;
    lemma_todo_prefix(s);
    lemma_text_ends_at_deadline(s, t);
    lemma_keyword_at(s, k, deadline_keyword());
    lemma_date_text_at(s, k + 10, dl);
    lemma_keyword_at(s, k + 20, scheduled_keyword());
    lemma_date_time_text_at(s, k + 31, sc);
    let dmid = DateTime::at(dl.year, dl.month, dl.day, TimeOfDay::midnight());
    assert(spec_deadline(s, k) == Step::Done(k + 20, dmid));
    assert(spec_scheduled(s, k + 20) == Step::Done(k + 50, sc));
}

/// A to-do with both dates: `TODO <text> DEADLINE <date> SCHEDULED <date and
/// time>`, where the text does not hold `" DEADLINE"` and both dates are as the
/// agenda shows them (years from 0 to 9999), is a to-do with that text, the
/// deadline at midnight and the scheduled date and time.
pub proof fn law_todo_with_dates(t: Seq<char>, dl: DateTime, sc: DateTime)
    requires
        !occurs_in(t, deadline_marker()),
        dl.is_valid(),
        0 <= dl.year <= 9999,
        sc.is_valid(),
        0 <= sc.year <= 9999,
    ensures
        spec_command(
            todo_keyword() + t + deadline_keyword() + date_text(dl) + scheduled_keyword()
                + date_time_text(sc),
        ) == Ok::<Option<CommandView>, crate::grammar::Fault>(
            Some(
                CommandView::Todo(
                    TodoCmdView {
                        body: t,
                        deadline: Some(DateTime::at(dl.year, dl.month, dl.day, TimeOfDay::midnight())),
                        scheduled: Some(sc),
                    },
                ),
            ),
        ),
{
    let s = todo_keyword() + t + deadline_keyword() + date_text(dl) + scheduled_keyword()
        + date_time_text(sc);
    lemma_dates_command_layout(t, dl, sc);
    lemma_dates_command_parse(s, t, dl, sc);
}

proof fn lemma_center_len(s: Seq<char>, w: nat)
    ensures
        center(s, w).len() == max_nat(s.len(), w),
{
}

proof fn lemma_align_right_len(s: Seq<char>, w: nat)
    ensures
        align_right(s, w).len() == max_nat(s.len(), w),
{
}

/// A text has at least as many bytes as characters.
proof fn lemma_utf8_len_at_least_len(s: Seq<char>)
    ensures
        utf8_len(s) >= s.len(),
    decreases s.len(),
{
    if s.len() > 0 {
        lemma_utf8_len_at_least_len(s.drop_first());
    }
}

/// Each column is at least as wide as each of its entries.
proof fn lemma_widths_cover(todos: Seq<Todo>, i: int)
    requires
        0 <= i < todos.len(),
    ensures
        utf8_len(todos[i].content@) <= content_width(todos),
        deadline_cell(todos[i]).len() <= deadline_width(todos),
        scheduled_cell(todos[i]).len() <= scheduled_width(todos),
    decreases todos.len(),
{
    if i < todos.len() - 1 {
        lemma_widths_cover(todos.drop_last(), i);
        assert(todos.drop_last()[i] == todos[i]);
    }
}

/// The effort column holds at most six characters for efforts from -99999 to 999999.
proof fn lemma_effort_cell_len(t: Todo)
    requires
        t.effort matches Some(m) ==> -99999 <= m <= 999999,
    ensures
        effort_cell(t).len() <= 6,
{
    if let Some(m) = t.effort {
        assert(pow10(6) == 1000000 && pow10(5) == 100000) by {
            reveal_with_fuel(pow10, 7);
        }
        if m < 0 {
            lemma_decimal_len_below((-m) as nat, 5);
        } else {
            lemma_decimal_len_below(m as nat, 6);
        }
    }
}

/// All lines of the agenda are equally wide: the line of titles, the lines under
/// each line, and the line of each to-do; provided there are at most 99 to-dos,
/// each effort has at most six characters, and the widest text has at least
/// three bytes (the title `TODOs` is three characters wider than the text
/// column's margin of two).
pub proof fn law_agenda_lines_aligned(todos: Seq<Todo>, i: int)
    requires
        showable(todos),
        0 <= i < todos.len() <= 99,
        forall|j: int|
            0 <= j < todos.len() ==> ((#[trigger] todos[j]).effort matches Some(m) ==> -99999 <= m
                <= 999999),
        content_width(todos) >= 3,
    ensures
        ({
            let w0 = content_width(todos);
            let w1 = deadline_width(todos);
            let w2 = scheduled_width(todos);
            &&& title_line(w0, w1, w2).len() == w0 + w1 + w2 + 21
            &&& rule_line(w0, w1, w2).len() == w0 + w1 + w2 + 21
            &&& todo_line(todos[i], (i + 1) as nat, w0, w1, w2).len() == w0 + w1 + w2 + 21
        }),
{
    let w0 = content_width(todos);
    let w1 = deadline_width(todos);
    let w2 = scheduled_width(todos);
    let t = todos[i];
    lemma_widths_cover(todos, i);
    lemma_utf8_len_at_least_len(t.content@);
    lemma_effort_cell_len(t);
    assert(pow10(2) == 100) by {
        reveal_with_fuel(pow10, 3);
    }
    lemma_decimal_len_below((i + 1) as nat, 2);
    assert(deadline_width(todos) >= 8 && scheduled_width(todos) >= 9) by {
        lemma_widths_at_least(todos);
    }
    lemma_center_len(t.content@, w0 + 2);
    lemma_center_len(deadline_cell(t), w1 + 2);
    lemma_center_len(scheduled_cell(t), w2 + 2);
    lemma_align_right_len(effort_cell(t), 6);
    lemma_align_right_len(decimal((i + 1) as nat), 2);
    lemma_center_len(seq!['T', 'O', 'D', 'O', 's'], w0 + 2);
    lemma_center_len(seq!['D', 'e', 'a', 'd', 'l', 'i', 'n', 'e'], w1 + 2);
    lemma_center_len(seq!['S', 'c', 'h', 'e', 'd', 'u', 'l', 'e', 'd'], w2 + 2);
    lemma_center_len(seq!['E', 'f', 'f', 'o', 'r', 't'], 4);
}

/// The columns of dates are at least as wide as their titles.
proof fn lemma_widths_at_least(todos: Seq<Todo>)
    ensures
        deadline_width(todos) >= 8,
        scheduled_width(todos) >= 9,
    decreases todos.len(),
{
    if todos.len() > 0 {
        lemma_widths_at_least(todos.drop_last());
    }
}

/// Every time the grammar reads is a time of day.
proof fn lemma_parsed_time_valid(s: Seq<char>, i: int)
    ensures
        spec_time(s, i) matches Step::Done(_, t) ==> t.is_valid(),
{
}

/// Every date the grammar reads exists in the calendar, at a valid time of day.
pub proof fn law_parsed_dates_are_valid(s: Seq<char>, i: int)
    ensures
        spec_date(s, i) matches Step::Done(_, d) ==> d.is_valid(),
{
    let y_end = digit_run_end(s, i);
    let m_end = digit_run_end(s, y_end + 1);
    let d_end = digit_run_end(s, m_end + 1);
    lemma_parsed_time_valid(s, d_end + 1);
}

/// A deadline that the grammar reads is a valid date and time.
proof fn lemma_deadline_valid(s: Seq<char>, k: int)
    ensures
        spec_deadline(s, k) matches Step::Done(_, d) ==> d.is_valid(),
{
    if let Step::Done(j, _) = spec_tag_no_case(s, k, deadline_keyword()) {
        law_parsed_dates_are_valid(s, j);
    }
}

/// A scheduled date that the grammar reads is a valid date and time.
proof fn lemma_scheduled_valid(s: Seq<char>, k: int)
    ensures
        spec_scheduled(s, k) matches Step::Done(_, d) ==> d.is_valid(),
{
    if let Step::Done(j, _) = spec_tag_no_case(s, k, scheduled_keyword()) {
        law_parsed_dates_are_valid(s, j);
    }
}

/// The dates of a to-do that the grammar reads are valid.
proof fn lemma_todo_cmd_dates_valid(s: Seq<char>, p: int)
    ensures
        spec_todo_cmd(s, p) matches Ok(t) ==> {
            &&& t.deadline matches Some(d) ==> d.is_valid()
            &&& t.scheduled matches Some(d) ==> d.is_valid()
        },
{
    let k = todo_text_end(s, p);
    lemma_deadline_valid(s, k);
    if let Ok((e, _)) = optional_date(spec_deadline(s, k), k) {
        lemma_scheduled_valid(s, e);
    }
}

/// The dates of every to-do that a command gives exist in the calendar, at valid
/// times of day; so the agenda can show every to-do that commands give.
pub proof fn law_command_dates_are_valid(s: Seq<char>)
    ensures
        spec_command(s) matches Ok(Some(CommandView::Todo(t))) ==> {
            &&& t.deadline matches Some(d) ==> d.is_valid()
            &&& t.scheduled matches Some(d) ==> d.is_valid()
        },
{
    if let Some(p) = index_at_byte(s, 0, 5) {
        lemma_todo_cmd_dates_valid(s, p);
    }
}

/// The lines of the first `k` to-dos do not change when a to-do is added after them.
proof fn lemma_rows_prefix(todos: Seq<Todo>, r: Todo, k: int, w0: nat, w1: nat, w2: nat)
    requires
        0 <= k <= todos.len(),
    ensures
        rows(todos.push(r), k, w0, w1, w2) == rows(todos, k, w0, w1, w2),
    decreases k,
{
    if k > 0 {
        lemma_rows_prefix(todos, r, k - 1, w0, w1, w2);
        assert(todos.push(r)[k - 1] == todos[k - 1]);
    }
}

/// Adding a to-do to the store adds one line at the end of the agenda: the
/// agenda of the to-dos with `r` added last is the titles, the lines of the
/// earlier to-dos with their numbers, texts, dates and efforts unchanged, then
/// the line of `r` numbered one more than their count. Only the widths of the
/// columns may grow, to make room for `r`.
pub proof fn law_agenda_after_insert(todos: Seq<Todo>, r: Todo)
    ensures
        ({
            let all = todos.push(r);
            let w0 = content_width(all);
            let w1 = deadline_width(all);
            let w2 = scheduled_width(all);
            &&& agenda(all) == header(w0, w1, w2) + rows(todos, todos.len() as int, w0, w1, w2)
                + row(r, (todos.len() + 1) as nat, w0, w1, w2)
            &&& w0 == max_nat(content_width(todos), utf8_len(r.content@))
            &&& w1 == max_nat(deadline_width(todos), deadline_cell(r).len())
            &&& w2 == max_nat(scheduled_width(todos), scheduled_cell(r).len())
        }),
{
    let all = todos.push(r);
    let w0 = content_width(all);
    let w1 = deadline_width(all);
    let w2 = scheduled_width(all);
    assert(all.drop_last() =~= todos);
    assert(all.last() == r);
    assert(all[todos.len() as int] == r);
    lemma_rows_prefix(todos, r, todos.len() as int, w0, w1, w2);
    assert(rows(all, all.len() as int, w0, w1, w2) == rows(all, todos.len() as int, w0, w1, w2)
        + row(r, (todos.len() + 1) as nat, w0, w1, w2));
    assert(agenda(all) =~= header(w0, w1, w2) + rows(todos, todos.len() as int, w0, w1, w2) + row(
        r,
        (todos.len() + 1) as nat,
        w0,
        w1,
        w2,
    ));
}

/// The answer to a chat event does not depend on who sent it: two events of the
/// same batch and room, with the same text, are answered alike. Events of the
/// first batch, of rooms that are not joined, and that are no text message, are
/// not answered; every other event is answered by the reading of its text.
pub proof fn law_answer_ignores_sender(a: ChatEvent, b: ChatEvent)
    requires
        a.batch == b.batch,
        a.joined == b.joined,
        a.room@ == b.room@,
        text_view(a.text) == text_view(b.text),
    ensures
        event_outcome(a) == event_outcome(b),
        event_outcome(a) is Some <==> is_answered(a),
        is_answered(a) ==> event_outcome(a) == Some(spec_command(text_view(a.text)->0)),
{
}

// ---------------------------------------------------------------------------
// The first word of a message
// ---------------------------------------------------------------------------

/// White space from `i` to `e`, then no white space: skipping white space ends at `e`.
proof fn lemma_skip_white_run(s: Seq<char>, i: int, e: int)
    requires
        0 <= i <= e <= s.len(),
        forall|k: int| i <= k < e ==> is_white_space(#[trigger] s[k]),
        e == s.len() || !is_white_space(s[e]),
    ensures
        skip_white_space(s, i) == e,
    decreases e - i,
{
    if i < e {
        lemma_skip_white_run(s, i + 1, e);
    }
}

/// No white space from `i` to `e`, then white space or the end: the word ends at `e`.
proof fn lemma_word_run(s: Seq<char>, i: int, e: int)
    requires
        0 <= i <= e <= s.len(),
        forall|k: int| i <= k < e ==> !is_white_space(#[trigger] s[k]),
        e == s.len() || is_white_space(s[e]),
    ensures
        word_end(s, i) == e,
    decreases e - i,
{
    if i < e {
        lemma_word_run(s, i + 1, e);
    }
}

/// The first word of a message is what follows its leading white space up to the
/// next white-space character (any Unicode `White_Space`, line breaks included)
/// or the end: for white space `lead`, a word `w` without white space, and a
/// `rest` that is empty or starts with white space, the first word of
/// `lead + w + rest` is `w`.
pub proof fn law_first_word(lead: Seq<char>, w: Seq<char>, rest: Seq<char>)
    requires
        forall|k: int| 0 <= k < lead.len() ==> is_white_space(#[trigger] lead[k]),
        w.len() > 0,
        forall|k: int| 0 <= k < w.len() ==> !is_white_space(#[trigger] w[k]),
        rest.len() == 0 || is_white_space(rest[0]),
    ensures
        first_word(lead + w + rest) == w,
{
    let s = lead + w + rest;
    let a = lead.len() as int;
    let b = a + w.len();
    assert forall|k: int| 0 <= k < a implies is_white_space(#[trigger] s[k]) by {
        assert(s[k] == lead[k]);
    }
    assert forall|k: int| a <= k < b implies !is_white_space(#[trigger] s[k]) by {
        assert(s[k] == w[k - a]);
    }
    assert(!is_white_space(s[a])) by {
        assert(s[a] == w[0]);
    }
    if rest.len() > 0 {
        assert(s[b] == rest[0]);
    }
    lemma_skip_white_run(s, 0, a);
    lemma_word_run(s, a, b);
    assert(s.subrange(a, b) =~= w);
}

/// `AGENDA`, then any white-space character (a line break too), then anything,
/// asks for the agenda.
pub proof fn law_agenda_command(c: char, m: Seq<char>)
    requires
        is_white_space(c),
    ensures
        spec_command(agenda_word() + seq![c] + m) == Ok::<Option<CommandView>, crate::grammar::Fault>(
            Some(CommandView::Agenda),
        ),
{
    let rest = seq![c] + m;
    assert(agenda_word() + seq![c] + m =~= Seq::<char>::empty() + agenda_word() + rest);
    assert forall|k: int| 0 <= k < agenda_word().len() implies !is_white_space(
        #[trigger] agenda_word()[k],
    ) by {}
    law_first_word(Seq::<char>::empty(), agenda_word(), rest);
    assert(agenda_word() != todo_word()) by {
        assert(agenda_word().len() != todo_word().len());
    }
}

/// `AGENDA` alone asks for the agenda.
pub proof fn law_agenda_alone()
    ensures
        spec_command(agenda_word()) == Ok::<Option<CommandView>, crate::grammar::Fault>(
            Some(CommandView::Agenda),
        ),
{
    assert(agenda_word() =~= Seq::<char>::empty() + agenda_word() + Seq::<char>::empty());
    assert forall|k: int| 0 <= k < agenda_word().len() implies !is_white_space(
        #[trigger] agenda_word()[k],
    ) by {}
    law_first_word(Seq::<char>::empty(), agenda_word(), Seq::<char>::empty());
    assert(agenda_word() != todo_word()) by {
        assert(agenda_word().len() != todo_word().len());
    }
}

// ---------------------------------------------------------------------------
// Times
// ---------------------------------------------------------------------------

/// Nonempty digits.
pub open spec fn is_numeral(d: Seq<char>) -> bool {
    d.len() > 0 && forall|k: int| 0 <= k < d.len() ==> is_digit(#[trigger] d[k])
}

/// A time `H:M:S` is read as its numbers, whatever the number of digits of each:
/// for numerals `h`, `m`, `sec` whose values form a time of day, the text
/// `h:m:sec` reads, as a whole, as that time.
pub proof fn law_time_numerals(h: Seq<char>, m: Seq<char>, sec: Seq<char>)
    requires
        is_numeral(h),
        is_numeral(m),
        is_numeral(sec),
        is_clock_time(digits_value(h) as int, digits_value(m) as int, digits_value(sec) as int),
    ensures
        spec_time(h + seq![':'] + m + seq![':'] + sec, 0) == Step::Done(
            (h.len() + m.len() + sec.len() + 2) as int,
            TimeOfDay {
                hour: digits_value(h) as u32,
                minute: digits_value(m) as u32,
                second: digits_value(sec) as u32,
            },
        ),
{
    let s = h + seq![':'] + m + seq![':'] + sec;
    let a = h.len() as int;
    let b = a + 1 + m.len();
    let e = b + 1 + sec.len();
    assert(s.len() == e);
    assert(s.subrange(0, a) =~= h);
    assert(s.subrange(a + 1, b) =~= m);
    assert(s.subrange(b + 1, e) =~= sec);
    assert(s[a] == ':');
    assert(s[b] == ':');
    assert(s[b + 1] == sec[0]);
    lemma_digits_at(s, 0, h);
    lemma_digits_at(s, a + 1, m);
    lemma_digits_at(s, b + 1, sec);
}

/// A time `H:M` is read as its numbers with no seconds, whatever the number of
/// digits of each.
pub proof fn law_time_numerals_without_seconds(h: Seq<char>, m: Seq<char>)
    requires
        is_numeral(h),
        is_numeral(m),
        is_clock_time(digits_value(h) as int, digits_value(m) as int, 0),
    ensures
        spec_time(h + seq![':'] + m, 0) == Step::Done(
            (h.len() + m.len() + 1) as int,
            TimeOfDay { hour: digits_value(h) as u32, minute: digits_value(m) as u32, second: 0 },
        ),
{
    let s = h + seq![':'] + m;
    let a = h.len() as int;
    let b = a + 1 + m.len();
    assert(s.len() == b);
    assert(s.subrange(0, a) =~= h);
    assert(s.subrange(a + 1, b) =~= m);
    assert(s[a] == ':');
    lemma_digits_at(s, 0, h);
    lemma_digits_at(s, a + 1, m);
}

// ---------------------------------------------------------------------------
// Deadlines with a time
// ---------------------------------------------------------------------------

/// A deadline keeps the time given with it: ` DEADLINE ` and the text of a date
/// and time (years 0 to 9999) read, as a whole, as that date and time.
pub proof fn law_deadline_keeps_time(d: DateTime)
    requires
        d.is_valid(),
        0 <= d.year <= 9999,
    ensures
        spec_deadline(deadline_keyword() + date_time_text(d), 0) == Step::Done(29, d),
{
    let s = deadline_keyword() + date_time_text(d);
    lemma_date_text_layout(d);
    assert(date_time_text(d).len() == 19);
    assert(s.subrange(0, 10) =~= deadline_keyword());
    assert(s.subrange(10, 29) =~= date_time_text(d));
    lemma_keyword_at(s, 0, deadline_keyword());
    lemma_date_time_text_at(s, 10, d);
}

/// A scheduled date keeps its time: ` SCHEDULED ` and the text of a date and time
/// (years 0 to 9999) read, as a whole, as that date and time.
pub proof fn law_scheduled_keeps_time(d: DateTime)
    requires
        d.is_valid(),
        0 <= d.year <= 9999,
    ensures
        spec_scheduled(scheduled_keyword() + date_time_text(d), 0) == Step::Done(30, d),
{
    let s = scheduled_keyword() + date_time_text(d);
    lemma_date_text_layout(d);
    assert(date_time_text(d).len() == 19);
    assert(s.subrange(0, 11) =~= scheduled_keyword());
    assert(s.subrange(11, 30) =~= date_time_text(d));
    lemma_keyword_at(s, 0, scheduled_keyword());
    lemma_date_time_text_at(s, 11, d);
}

/// How `TODO <text> DEADLINE <date and time>` is read.
#[verifier::spinoff_prover]
proof fn lemma_deadline_time_command_parse(s: Seq<char>, t: Seq<char>, d: DateTime)
    requires
        !occurs_in(t, deadline_marker()),
        d.is_valid(),
        0 <= d.year <= 9999,
        s.len() == 34 + t.len(),
        s.subrange(0, 5) == todo_keyword(),
        s.subrange(5, 5 + t.len() as int) == t,
        s.subrange(5 + t.len() as int, 14 + t.len() as int) == deadline_marker(),
        s.subrange(5 + t.len() as int, 15 + t.len() as int) == deadline_keyword(),
        s.subrange(15 + t.len() as int, 34 + t.len() as int) == date_time_text(d),
        s[5 + t.len() as int] == ' ',
    ensures
        first_word(s) == todo_word(),
        index_at_byte(s, 0, 5) == Some(5int),
        spec_todo_cmd(s, 5) == Ok::<TodoCmdView, crate::grammar::Fault>(
            TodoCmdView { body: t, deadline: Some(d), scheduled: None },
        ),
{
    let k: int = 5 + t.len() as int;
    lemma_todo_prefix(s);
    lemma_text_ends_at_deadline(s, t);
    lemma_keyword_at(s, k, deadline_keyword());
    lemma_date_time_text_at(s, k + 10, d);
    lemma_keyword_at_end(s, scheduled_keyword());
    assert(spec_deadline(s, k) == Step::Done(k + 29, d));
    assert(spec_scheduled(s, k + 29) == Step::<DateTime>::Stopped(Stop::Incomplete));
}

/// A to-do whose deadline has a time: `TODO <text> DEADLINE <date and time>`,
/// where the text does not hold `" DEADLINE"` and the year is from 0 to 9999, is
/// a to-do with that text and that date and time (time included) as deadline.
pub proof fn law_todo_with_deadline_time(t: Seq<char>, d: DateTime)
    requires
        !occurs_in(t, deadline_marker()),
        d.is_valid(),
        0 <= d.year <= 9999,
    ensures
        spec_command(todo_keyword() + t + deadline_keyword() + date_time_text(d)) == Ok::<
            Option<CommandView>,
            crate::grammar::Fault,
        >(Some(CommandView::Todo(TodoCmdView { body: t, deadline: Some(d), scheduled: None }))),
{
    let s = todo_keyword() + t + deadline_keyword() + date_time_text(d);
    let k: int = 5 + t.len() as int;
    lemma_date_text_layout(d);
    assert(date_time_text(d).len() == 19);
    assert(s.len() == k + 29);
    assert(s.subrange(0, 5) =~= todo_keyword());
    assert(s.subrange(5, k) =~= t);
    assert(s.subrange(k, k + 9) =~= deadline_marker());
    assert(s.subrange(k, k + 10) =~= deadline_keyword());
    assert(s.subrange(k + 10, k + 29) =~= date_time_text(d));
    assert(s[k] == ' ');
    lemma_deadline_time_command_parse(s, t, d);
}

// ---------------------------------------------------------------------------
// Answers
// ---------------------------------------------------------------------------

/// The answer to a request for the agenda is the agenda, on every channel; a
/// text reaction is answered by its text; storing is answered by the report of
/// the store, whatever the agenda is.
pub proof fn law_replies(c: Channel, stored: bool, agenda_text: Seq<char>, r: Reaction)
    ensures
        reply_text(c, Reaction::ShowAgenda, stored, agenda_text) == agenda_text,
        r matches Reaction::Send(t) ==> reply_text(c, r, stored, agenda_text) == t@,
        r matches Reaction::Store { .. } ==> reply_text(c, r, stored, agenda_text) == stored_text(
            c,
            stored,
        ),
{
}

// ---------------------------------------------------------------------------
// The cells of the agenda
// ---------------------------------------------------------------------------

/// The line of a to-do shows, between its bars: its number, its text, its deadline
/// (nothing when it has none, whatever its scheduled date), its scheduled date and
/// time (nothing when it has none), and its effort (two spaces when it has none).
pub proof fn law_todo_line_cells(t: Todo, n: nat, w0: nat, w1: nat, w2: nat)
    ensures
        todo_line(t, n, w0, w1, w2) == seq!['|'] + align_right(decimal(n), 2) + seq!['|'] + center(
            t.content@,
            w0 + 2,
        ) + seq!['|'] + center(
            match t.deadline {
                Some(d) => date_text(d),
                None => Seq::<char>::empty(),
            },
            w1 + 2,
        ) + seq!['|'] + center(
            match t.scheduled {
                Some(d) => date_time_text(d),
                None => Seq::<char>::empty(),
            },
            w2 + 2,
        ) + seq!['|'] + align_right(
            match t.effort {
                Some(m) => signed_decimal(m as int),
                None => seq![' ', ' '],
            },
            6,
        ) + seq!['|', '\n'],
{
}

/// A to-do without a deadline shows only spaces in the deadline column.
pub proof fn law_no_deadline_blank(t: Todo, w1: nat)
    requires
        t.deadline is None,
    ensures
        center(deadline_cell(t), w1 + 2) == Seq::new(w1 + 2, |i: int| ' '),
{
    assert(center(deadline_cell(t), w1 + 2) =~= Seq::new(w1 + 2, |i: int| ' '));
}

/// The to-do has a deadline whose text has `w` characters.
pub open spec fn has_deadline_of_width(t: Todo, w: nat) -> bool {
    match t.deadline {
        Some(d) => date_text(d).len() == w,
        None => false,
    }
}

/// The deadline column is as wide as the widest deadline of the to-dos, and at
/// least as wide as its title (8): only deadlines, not scheduled dates, widen it.
pub proof fn law_deadline_width(todos: Seq<Todo>)
    ensures
        deadline_width(todos) >= 8,
        forall|i: int|
            0 <= i < todos.len() ==> ((#[trigger] todos[i]).deadline matches Some(d) ==> date_text(
                d,
            ).len() <= deadline_width(todos)),
        deadline_width(todos) == 8 || exists|i: int|
            0 <= i < todos.len() && has_deadline_of_width(#[trigger] todos[i], deadline_width(todos)),
    decreases todos.len(),
{
    if todos.len() > 0 {
        let front = todos.drop_last();
        law_deadline_width(front);
        let n = todos.len() - 1;
        assert forall|i: int|
            0 <= i < todos.len() implies ((#[trigger] todos[i]).deadline matches Some(d) ==> date_text(
                d,
            ).len() <= deadline_width(todos)) by {
            if i < n {
                assert(todos[i] == front[i]);
            }
        }
        if deadline_width(todos) != 8 {
            if deadline_width(todos) == deadline_width(front) {
                let i = choose|i: int|
                    0 <= i < front.len() && has_deadline_of_width(
                        #[trigger] front[i],
                        deadline_width(front),
                    );
                assert(todos[i] == front[i]);
            } else {
                assert(todos[n] == todos.last());
            }
        }
    }
}

} // verus!
