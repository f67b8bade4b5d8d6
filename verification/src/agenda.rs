//! The agenda: the stored to-dos as a text table.
use vstd::prelude::*;
use crate::text::{
    utf8_len, repeat, decimal, signed_decimal, push_repeated, decimal_string,
    signed_decimal_string, lemma_utf8_len_is_encoding_len, lemma_decimal_len,
};
use crate::datetime::{date_text, date_time_text, year_text, format_date, format_date_time};
use crate::models::Todo;

verus! {

broadcast use vstd::string::group_string_axioms;

// ---------------------------------------------------------------------------
// Layout
// ---------------------------------------------------------------------------

pub open spec fn max_nat(a: nat, b: nat) -> nat {
    if a >= b { a } else { b }
}

/// `s` centred in `w` columns: the padding is split in two, the larger half on the right.
pub open spec fn center(s: Seq<char>, w: nat) -> Seq<char> {
    if s.len() >= w {
        s
    } else {
        let pad = (w - s.len()) as nat;
        repeat(' ', pad / 2) + s + repeat(' ', (pad - pad / 2) as nat)
    }
}

/// `s` aligned to the right of `w` columns.
pub open spec fn align_right(s: Seq<char>, w: nat) -> Seq<char> {
    if s.len() >= w {
        s
    } else {
        repeat(' ', (w - s.len()) as nat) + s
    }
}

/// The deadline column of a to-do: its date, or nothing.
pub open spec fn deadline_cell(t: Todo) -> Seq<char> {
    match t.deadline {
        Some(d) => date_text(d),
        None => Seq::empty(),
    }
}

/// The scheduled column of a to-do: its date and time, or nothing.
pub open spec fn scheduled_cell(t: Todo) -> Seq<char> {
    match t.scheduled {
        Some(d) => date_time_text(d),
        None => Seq::empty(),
    }
}

/// The effort column of a to-do: its minutes, or two spaces.
pub open spec fn effort_cell(t: Todo) -> Seq<char> {
    match t.effort {
        Some(m) => signed_decimal(m as int),
        None => seq![' ', ' '],
    }
}

/// The widest text of the to-dos, in bytes.
pub open spec fn content_width(todos: Seq<Todo>) -> nat
    decreases todos.len(),
{
    if todos.len() == 0 {
        0
    } else {
        max_nat(content_width(todos.drop_last()), utf8_len(todos.last().content@))
    }
}

/// The widest deadline, and at least the width of the title `Deadline`.
pub open spec fn deadline_width(todos: Seq<Todo>) -> nat
    decreases todos.len(),
{
    if todos.len() == 0 {
        8
    } else {
        max_nat(deadline_width(todos.drop_last()), deadline_cell(todos.last()).len())
    }
}

/// The widest scheduled date, and at least the width of the title `Scheduled`.
pub open spec fn scheduled_width(todos: Seq<Todo>) -> nat
    decreases todos.len(),
{
    if todos.len() == 0 {
        9
    } else {
        max_nat(scheduled_width(todos.drop_last()), scheduled_cell(todos.last()).len())
    }
}

/// The line under each line of the table.
pub open spec fn rule_line(w0: nat, w1: nat, w2: nat) -> Seq<char> {
    seq!['|'] + repeat('-', 18 + w0 + w1 + w2) + seq!['|', '\n']
}

/// The line of titles.
pub open spec fn title_line(w0: nat, w1: nat, w2: nat) -> Seq<char> {
    seq!['|', ' ', '#', '|'] + center(seq!['T', 'O', 'D', 'O', 's'], w0 + 2) + seq!['|'] + center(
        seq!['D', 'e', 'a', 'd', 'l', 'i', 'n', 'e'],
        w1 + 2,
    ) + seq!['|'] + center(seq!['S', 'c', 'h', 'e', 'd', 'u', 'l', 'e', 'd'], w2 + 2) + seq!['|']
        + center(seq!['E', 'f', 'f', 'o', 'r', 't'], 4) + seq!['|', '\n']
}

/// The titles of the table and the line under them.
pub open spec fn header(w0: nat, w1: nat, w2: nat) -> Seq<char> {
    title_line(w0, w1, w2) + rule_line(w0, w1, w2)
}

/// The line of the to-do `t`, numbered `number`.
pub open spec fn todo_line(t: Todo, number: nat, w0: nat, w1: nat, w2: nat) -> Seq<char> {
    seq!['|'] + align_right(decimal(number), 2) + seq!['|'] + center(t.content@, w0 + 2) + seq![
        '|',
    ] + center(deadline_cell(t), w1 + 2) + seq!['|'] + center(scheduled_cell(t), w2 + 2) + seq![
        '|',
    ] + align_right(effort_cell(t), 6) + seq!['|', '\n']
}

/// The line of the to-do `t`, numbered `number`, and the line under it.
pub open spec fn row(t: Todo, number: nat, w0: nat, w1: nat, w2: nat) -> Seq<char> {
    todo_line(t, number, w0, w1, w2) + rule_line(w0, w1, w2)
}

/// The lines of the first `k` to-dos, numbered from 1.
pub open spec fn rows(todos: Seq<Todo>, k: int, w0: nat, w1: nat, w2: nat) -> Seq<char>
    decreases k,
{
    if k <= 0 {
        Seq::empty()
    } else {
        rows(todos, k - 1, w0, w1, w2) + row(todos[k - 1], k as nat, w0, w1, w2)
    }
}

/// The agenda of the to-dos: the titles, then one numbered line per to-do, in
/// order, each column as wide as its widest entry plus two.
pub open spec fn agenda(todos: Seq<Todo>) -> Seq<char> {
    let w0 = content_width(todos);
    let w1 = deadline_width(todos);
    let w2 = scheduled_width(todos);
    header(w0, w1, w2) + rows(todos, todos.len() as int, w0, w1, w2)
}

/// The to-dos that the agenda can show: their dates exist and their texts fit
/// in a Rust string.
pub open spec fn showable(todos: Seq<Todo>) -> bool {
    forall|i: int|
        0 <= i < todos.len() ==> {
            &&& (#[trigger] todos[i]).deadline matches Some(d) ==> d.is_valid()
            &&& todos[i].scheduled matches Some(d) ==> d.is_valid()
            &&& utf8_len(todos[i].content@) <= isize::MAX
        }
}

// ---------------------------------------------------------------------------
// Bounds
// ---------------------------------------------------------------------------

proof fn lemma_year_text_len(y: int)
    requires
        -262143 <= y <= 262142,
    ensures
        year_text(y).len() <= 262150,
{
    if 0 <= y <= 9999 {
        lemma_decimal_len(y as nat);
    } else if y > 9999 {
        lemma_decimal_len(y as nat);
    } else {
        lemma_decimal_len((-y) as nat);
    }
}

proof fn lemma_cell_lens(t: Todo)
    requires
        t.deadline matches Some(d) ==> d.is_valid(),
        t.scheduled matches Some(d) ==> d.is_valid(),
    ensures
        deadline_cell(t).len() <= 262160,
        scheduled_cell(t).len() <= 262170,
{
    if let Some(d) = t.deadline {
        lemma_year_text_len(d.year as int);
    }
    if let Some(d) = t.scheduled {
        lemma_year_text_len(d.year as int);
    }
}

proof fn lemma_widths_bounded(todos: Seq<Todo>)
    requires
        showable(todos),
    ensures
        content_width(todos) <= isize::MAX,
        deadline_width(todos) <= 262160,
        scheduled_width(todos) <= 262170,
    decreases todos.len(),
{
    if todos.len() > 0 {
        let front = todos.drop_last();
        assert forall|i: int| 0 <= i < front.len() implies {
            &&& (#[trigger] front[i]).deadline matches Some(d) ==> d.is_valid()
            &&& front[i].scheduled matches Some(d) ==> d.is_valid()
            &&& utf8_len(front[i].content@) <= isize::MAX
        } by {
            assert(front[i] == todos[i]);
        }
        lemma_widths_bounded(front);
        let last = todos[todos.len() - 1];
        assert(todos.last() == last);
        lemma_cell_lens(last);
    }
}

// ---------------------------------------------------------------------------
// Building the table
// ---------------------------------------------------------------------------

/// Appends `text` centred in `width` columns.
fn push_centered(out: &mut String, text: &str, width: usize)
    ensures
        final(out)@ == old(out)@ + center(text@, width as nat),
{
    let n = text.unicode_len();
    if n >= width {
        out.append(text);
    } else {
        let pad = width - n;
        proof {
            reveal_strlit(" ");
        }
        push_repeated(out, " ", pad / 2);
        out.append(text);
        push_repeated(out, " ", pad - pad / 2);
    }
}

/// Appends `text` aligned to the right of `width` columns.
fn push_right(out: &mut String, text: &str, width: usize)
    ensures
        final(out)@ == old(out)@ + align_right(text@, width as nat),
{
    let n = text.unicode_len();
    if n >= width {
        out.append(text);
    } else {
        proof {
            reveal_strlit(" ");
        }
        push_repeated(out, " ", width - n);
        out.append(text);
    }
}

fn rule_line_string(w0: usize, w1: usize, w2: usize) -> (r: String)
    requires
        18 + w0 + w1 + w2 <= usize::MAX,
    ensures
        r@ == rule_line(w0 as nat, w1 as nat, w2 as nat),
{
    proof {
        reveal_strlit("|");
        reveal_strlit("-");
        reveal_strlit("|\n");
        assert("|"@ =~= seq!['|']);
        assert("|\n"@ =~= seq!['|', '\n']);
    }
    let mut r = String::new();
    r.append("|");
    assert(r@ =~= seq!['|']);
    push_repeated(&mut r, "-", 18 + w0 + w1 + w2);
    r.append("|\n");
    r
}

fn header_string(w0: usize, w1: usize, w2: usize) -> (r: String)
    requires
        18 + w0 + w1 + w2 <= usize::MAX,
    ensures
        r@ == header(w0 as nat, w1 as nat, w2 as nat),
{
    proof {
        reveal_strlit("| #|");
        reveal_strlit("TODOs");
        reveal_strlit("|");
        reveal_strlit("Deadline");
        reveal_strlit("Scheduled");
        reveal_strlit("Effort");
        reveal_strlit("|\n");
        assert("| #|"@ =~= seq!['|', ' ', '#', '|']);
        assert("TODOs"@ =~= seq!['T', 'O', 'D', 'O', 's']);
        assert("|"@ =~= seq!['|']);
        assert("Deadline"@ =~= seq!['D', 'e', 'a', 'd', 'l', 'i', 'n', 'e']);
        assert("Scheduled"@ =~= seq!['S', 'c', 'h', 'e', 'd', 'u', 'l', 'e', 'd']);
        assert("Effort"@ =~= seq!['E', 'f', 'f', 'o', 'r', 't']);
        assert("|\n"@ =~= seq!['|', '\n']);
    }
    let mut r = String::new();
    r.append("| #|");
    assert(r@ =~= seq!['|', ' ', '#', '|']);
    push_centered(&mut r, "TODOs", w0 + 2);
    r.append("|");
    push_centered(&mut r, "Deadline", w1 + 2);
    r.append("|");
    push_centered(&mut r, "Scheduled", w2 + 2);
    r.append("|");
    push_centered(&mut r, "Effort", 4);
    r.append("|\n");
    assert(r@ == title_line(w0 as nat, w1 as nat, w2 as nat));
    let line = rule_line_string(w0, w1, w2);
    r.append(line.as_str());
    r
}

fn row_string(t: &Todo, number: usize, w0: usize, w1: usize, w2: usize) -> (r: String)
    requires
        18 + w0 + w1 + w2 <= usize::MAX,
        t.deadline matches Some(d) ==> d.is_valid(),
        t.scheduled matches Some(d) ==> d.is_valid(),
    ensures
        r@ == row(*t, number as nat, w0 as nat, w1 as nat, w2 as nat),
{
    proof {
        reveal_strlit("|");
        reveal_strlit("|\n");
        reveal_strlit("  ");
        assert("|"@ =~= seq!['|']);
        assert("|\n"@ =~= seq!['|', '\n']);
        assert("  "@ =~= seq![' ', ' ']);
    }
    let num = decimal_string(number as u64);
    let dead = match &t.deadline {
        Some(d) => format_date(d),
        None => String::new(),
    };
    assert(dead@ == deadline_cell(*t));
    let sched = match &t.scheduled {
        Some(d) => format_date_time(d),
        None => String::new(),
    };
    assert(sched@ == scheduled_cell(*t));
    let eff = match t.effort {
        Some(m) => signed_decimal_string(m),
        None => String::from_str("  "),
    };
    assert(eff@ == effort_cell(*t));
    let line = rule_line_string(w0, w1, w2);
    let mut r = String::new();
    r.append("|");
    assert(r@ =~= seq!['|']);
    push_right(&mut r, num.as_str(), 2);
    r.append("|");
    push_centered(&mut r, t.content.as_str(), w0 + 2);
    r.append("|");
    push_centered(&mut r, dead.as_str(), w1 + 2);
    r.append("|");
    push_centered(&mut r, sched.as_str(), w2 + 2);
    r.append("|");
    push_right(&mut r, eff.as_str(), 6);
    r.append("|\n");
    assert(r@ == todo_line(*t, number as nat, w0 as nat, w1 as nat, w2 as nat));
    r.append(line.as_str());
    r
}

/// The agenda of the stored to-dos, as a table with one numbered line per to-do.
pub fn format_todos(todos: &Vec<Todo>) -> (r: String)
    requires
        showable(todos@),
    ensures
        r@ == agenda(todos@),
{
    proof {
        lemma_widths_bounded(todos@);
    }
    let mut w0: usize = 0;
    let mut w1: usize = 8;
    let mut w2: usize = 9;
    let mut k: usize = 0;
    while k < todos.len()
        invariant
            k <= todos.len(),
            showable(todos@),
            w0 == content_width(todos@.take(k as int)),
            w1 == deadline_width(todos@.take(k as int)),
            w2 == scheduled_width(todos@.take(k as int)),
        decreases todos.len() - k,
    {
        let t = &todos[k];
        assert(todos@.take(k + 1).drop_last() =~= todos@.take(k as int));
        assert(todos@.take(k + 1).last() == todos@[k as int]);
        proof {
            lemma_utf8_len_is_encoding_len(t.content@);
            lemma_widths_bounded(todos@.take(k + 1));
        }
        let len = t.content.as_str().len();
        if len > w0 {
            w0 = len;
        }
        match &t.deadline {
            Some(d) => {
                let text = format_date(d);
                let n = text.as_str().unicode_len();
                if n > w1 {
                    w1 = n;
                }
            },
            None => {},
        }
        match &t.scheduled {
            Some(d) => {
                let text = format_date_time(d);
                let n = text.as_str().unicode_len();
                if n > w2 {
                    w2 = n;
                }
            },
            None => {},
        }
        k = k + 1;
    }
    assert(todos@.take(todos.len() as int) =~= todos@);
    let mut out = header_string(w0, w1, w2);
    let mut k: usize = 0;
    while k < todos.len()
        invariant
            k <= todos.len(),
            showable(todos@),
            w0 == content_width(todos@),
            w1 == deadline_width(todos@),
            w2 == scheduled_width(todos@),
            18 + w0 + w1 + w2 <= usize::MAX,
            out@ == header(w0 as nat, w1 as nat, w2 as nat) + rows(
                todos@,
                k as int,
                w0 as nat,
                w1 as nat,
                w2 as nat,
            ),
        decreases todos.len() - k,
    {
        let t = &todos[k];
        assert(showable(todos@) ==> (todos@[k as int].deadline matches Some(d) ==> d.is_valid()));
        let line = row_string(t, k + 1, w0, w1, w2);
        out.append(line.as_str());
        k = k + 1;
        assert(out@ =~= header(w0 as nat, w1 as nat, w2 as nat) + rows(
            todos@,
            k as int,
            w0 as nat,
            w1 as nat,
            w2 as nat,
        ));
    }
    assert(out@ =~= header(w0 as nat, w1 as nat, w2 as nat) + rows(
        todos@,
        todos.len() as int,
        w0 as nat,
        w1 as nat,
        w2 as nat,
    ));
    out
}

} // verus!
