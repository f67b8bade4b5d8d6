use vstd::prelude::*;
use vstd::utf8::*;

verus! {

broadcast use vstd::string::group_string_axioms;

// ---------------------------------------------------------------------------
// Character classes
// ---------------------------------------------------------------------------

/// The Unicode `White_Space` property: the characters on which
/// `str::split_whitespace` splits.
pub open spec fn is_white_space(c: char) -> bool {
    let u = c as u32;
    ||| (0x09 <= u && u <= 0x0d)
    ||| u == 0x20
    ||| u == 0x85
    ||| u == 0xa0
    ||| u == 0x1680
    ||| (0x2000 <= u && u <= 0x200a)
    ||| u == 0x2028
    ||| u == 0x2029
    ||| u == 0x202f
    ||| u == 0x205f
    ||| u == 0x3000
}

/// `char::is_whitespace`, which std documents as the Unicode `White_Space`
/// property. The contract claims that it holds exactly for the code points that
/// `is_white_space` lists, those of that property.
#[verifier::external_body]
pub(crate) fn is_whitespace(c: char) -> (r: bool)
    ensures
        r == is_white_space(c),
{
    c.is_whitespace()
}

/// An ASCII decimal digit.
pub open spec fn is_digit(c: char) -> bool {
    '0' <= c && c <= '9'
}

/// The value of an ASCII decimal digit.
pub open spec fn digit_value(c: char) -> nat {
    (c as int - '0' as int) as nat
}

/// The ASCII digit for a value below ten.
pub open spec fn digit_char(v: nat) -> char {
    if v == 0 { '0' }
    else if v == 1 { '1' }
    else if v == 2 { '2' }
    else if v == 3 { '3' }
    else if v == 4 { '4' }
    else if v == 5 { '5' }
    else if v == 6 { '6' }
    else if v == 7 { '7' }
    else if v == 8 { '8' }
    else { '9' }
}

// ---------------------------------------------------------------------------
// UTF-8 lengths
// ---------------------------------------------------------------------------

/// The number of bytes of the UTF-8 encoding of a character.
pub open spec fn char_width(c: char) -> nat {
    let u = c as u32;
    if u <= 0x7f { 1 }
    else if u <= 0x7ff { 2 }
    else if u <= 0xffff { 3 }
    else { 4 }
}

/// The number of bytes of the UTF-8 encoding of a character sequence.
pub open spec fn utf8_len(s: Seq<char>) -> nat
    decreases s.len(),
{
    if s.len() == 0 { 0 } else { char_width(s[0]) + utf8_len(s.drop_first()) }
}

/// `utf8_len` is the length of vstd's UTF-8 encoding.
pub proof fn lemma_utf8_len_is_encoding_len(s: Seq<char>)
    ensures
        utf8_len(s) == encode_utf8(s).len(),
    decreases s.len(),
{
    if s.len() > 0 {
        lemma_utf8_len_is_encoding_len(s.drop_first());
        char_is_scalar(s[0]);
    }
}

/// The UTF-8 length of a concatenation.
pub proof fn lemma_utf8_len_concat(a: Seq<char>, b: Seq<char>)
    ensures
        utf8_len(a + b) == utf8_len(a) + utf8_len(b),
    decreases a.len(),
{
    if a.len() > 0 {
        assert((a + b).drop_first() =~= a.drop_first() + b);
        lemma_utf8_len_concat(a.drop_first(), b);
    } else {
        assert(a + b =~= b);
    }
}

/// The byte width of one character.
pub(crate) fn utf8_width(c: char) -> (r: usize)
    ensures
        r == char_width(c),
{
    let u = c as u32;
    if u <= 0x7f {
        1
    } else if u <= 0x7ff {
        2
    } else if u <= 0xffff {
        3
    } else {
        4
    }
}

/// The characters of a string slice.
pub(crate) fn chars_of(s: &str) -> (v: Vec<char>)
    ensures
        v@ == s@,
{
    let n = s.unicode_len();
    let mut v: Vec<char> = Vec::new();
    let mut i: usize = 0;
    while i < n
        invariant
            n == s@.len(),
            i <= n,
            v@ == s@.take(i as int),
        decreases n - i,
    {
        let c = s.get_char(i);
        v.push(c);
        i = i + 1;
        assert(v@ =~= s@.take(i as int));
    }
    assert(v@ =~= s@);
    v
}

// ---------------------------------------------------------------------------
// Decimal numerals
// ---------------------------------------------------------------------------

/// The value of a sequence of ASCII digits, most significant first.
pub open spec fn digits_value(d: Seq<char>) -> nat
    decreases d.len(),
{
    if d.len() == 0 { 0 } else { 10 * digits_value(d.drop_last()) + digit_value(d.last()) }
}

/// The shortest decimal numeral of a natural number.
pub open spec fn decimal(v: nat) -> Seq<char>
    decreases v,
{
    if v < 10 { seq![digit_char(v)] } else { decimal(v / 10).push(digit_char(v % 10)) }
}

/// The decimal numeral of an integer, with a leading `-` when it is negative.
pub open spec fn signed_decimal(v: int) -> Seq<char> {
    if v < 0 { seq!['-'] + decimal((-v) as nat) } else { decimal(v as nat) }
}

/// A sequence of `n` copies of `c`.
pub open spec fn repeat(c: char, n: nat) -> Seq<char> {
    Seq::new(n, |i: int| c)
}

/// `v` in decimal, padded on the left with zeros to at least `width` characters.
pub open spec fn zero_padded(v: nat, width: nat) -> Seq<char> {
    let d = decimal(v);
    if d.len() >= width { d } else { repeat('0', (width - d.len()) as nat) + d }
}

/// The one-character string of a digit.
fn digit_str(d: u64) -> (r: &'static str)
    requires
        d < 10,
    ensures
        r@ == seq![digit_char(d as nat)],
{
    proof {
        reveal_strlit("0");
        reveal_strlit("1");
        reveal_strlit("2");
        reveal_strlit("3");
        reveal_strlit("4");
        reveal_strlit("5");
        reveal_strlit("6");
        reveal_strlit("7");
        reveal_strlit("8");
        reveal_strlit("9");
    }
    if d == 0 {
        "0"
    } else if d == 1 {
        "1"
    } else if d == 2 {
        "2"
    } else if d == 3 {
        "3"
    } else if d == 4 {
        "4"
    } else if d == 5 {
        "5"
    } else if d == 6 {
        "6"
    } else if d == 7 {
        "7"
    } else if d == 8 {
        "8"
    } else {
        "9"
    }
}

/// Appends the decimal numeral of `v`.
pub(crate) fn push_decimal(out: &mut String, v: u64)
    ensures
        final(out)@ == old(out)@ + decimal(v as nat),
    decreases v,
{
    if v >= 10 {
        push_decimal(out, v / 10);
        out.append(digit_str(v % 10));
        assert(decimal(v as nat) == decimal((v / 10) as nat).push(digit_char((v % 10) as nat)));
        assert(final(out)@ =~= old(out)@ + decimal(v as nat));
    } else {
        out.append(digit_str(v));
    }
}

/// Appends `n` copies of the one-character string `c`.
pub(crate) fn push_repeated(out: &mut String, c: &str, n: usize)
    requires
        c@.len() == 1,
    ensures
        final(out)@ == old(out)@ + repeat(c@[0], n as nat),
{
    let ghost start = out@;
    let mut i: usize = 0;
    while i < n
        invariant
            c@.len() == 1,
            i <= n,
            out@ == start + repeat(c@[0], i as nat),
        decreases n - i,
    {
        out.append(c);
        i = i + 1;
        assert(out@ =~= start + repeat(c@[0], i as nat));
    }
}

/// A numeral has at most one digit more than its value.
pub proof fn lemma_decimal_len(v: nat)
    ensures
        1 <= decimal(v).len() <= v + 1,
    decreases v,
{
    if v >= 10 {
        lemma_decimal_len(v / 10);
    }
}

/// The decimal numeral of `v`.
pub(crate) fn decimal_string(v: u64) -> (r: String)
    ensures
        r@ == decimal(v as nat),
{
    let mut r = String::new();
    push_decimal(&mut r, v);
    assert(r@ =~= decimal(v as nat));
    r
}

/// The decimal numeral of `v`, with a leading `-` when it is negative.
pub(crate) fn signed_decimal_string(v: i32) -> (r: String)
    ensures
        r@ == signed_decimal(v as int),
{
    let mut r = String::new();
    if v < 0 {
        proof {
            reveal_strlit("-");
        }
        r.append("-");
        let m: i64 = -(v as i64);
        push_decimal(&mut r, m as u64);
    } else {
        push_decimal(&mut r, v as u64);
    }
    assert(r@ =~= signed_decimal(v as int));
    r
}

/// The digit of a value below ten is a digit with that value.
pub proof fn lemma_digit_char(v: nat)
    requires
        v < 10,
    ensures
        is_digit(digit_char(v)),
        digit_value(digit_char(v)) == v,
{
}

/// A numeral holds digits only, and its value is the number.
pub proof fn lemma_decimal_value(v: nat)
    ensures
        forall|k: int| 0 <= k < decimal(v).len() ==> is_digit(#[trigger] decimal(v)[k]),
        digits_value(decimal(v)) == v,
    decreases v,
{
    lemma_digit_char(v % 10);
    if v >= 10 {
        lemma_decimal_value(v / 10);
        let d = decimal(v);
        assert(d.drop_last() =~= decimal(v / 10));
        assert(d.last() == digit_char(v % 10));
        assert(digits_value(d) == 10 * (v / 10) + v % 10);
    } else {
        lemma_digit_char(v);
        assert(decimal(v).drop_last() =~= Seq::<char>::empty());
        assert(digits_value(Seq::<char>::empty()) == 0);
        assert(digits_value(decimal(v)) == 10 * digits_value(Seq::<char>::empty()) + digit_value(
            digit_char(v),
        ));
    }
}

/// Zeros in front of a numeral keep its value.
pub proof fn lemma_leading_zeros(z: nat, d: Seq<char>)
    ensures
        digits_value(repeat('0', z) + d) == digits_value(d),
    decreases d.len(),
{
    if d.len() == 0 {
        lemma_zeros_value(z);
        assert(repeat('0', z) + d =~= repeat('0', z));
    } else {
        lemma_leading_zeros(z, d.drop_last());
        assert((repeat('0', z) + d).drop_last() =~= repeat('0', z) + d.drop_last());
    }
}

/// A run of zeros is worth zero.
pub proof fn lemma_zeros_value(z: nat)
    ensures
        digits_value(repeat('0', z)) == 0,
    decreases z,
{
    if z > 0 {
        assert(repeat('0', z).drop_last() =~= repeat('0', (z - 1) as nat));
        lemma_zeros_value((z - 1) as nat);
    }
}

/// A zero-padded numeral holds digits only, and its value is the number.
pub proof fn lemma_zero_padded_value(v: nat, w: nat)
    ensures
        forall|k: int|
            0 <= k < zero_padded(v, w).len() ==> is_digit(#[trigger] zero_padded(v, w)[k]),
        digits_value(zero_padded(v, w)) == v,
        zero_padded(v, w).len() >= w,
{
    lemma_decimal_value(v);
    let d = decimal(v);
    if d.len() < w {
        let z = (w - d.len()) as nat;
        lemma_leading_zeros(z, d);
        assert forall|k: int| 0 <= k < zero_padded(v, w).len() implies is_digit(
            #[trigger] zero_padded(v, w)[k],
        ) by {
            if k >= z {
                assert(zero_padded(v, w)[k] == d[k - z]);
            }
        }
    }
}

/// Ten to the power `k`.
pub open spec fn pow10(k: nat) -> nat
    decreases k,
{
    if k == 0 { 1 } else { 10 * pow10((k - 1) as nat) }
}

/// A number below `10^k` (with `k > 0`) has at most `k` digits.
pub proof fn lemma_decimal_len_below(v: nat, k: nat)
    requires
        k > 0,
        v < pow10(k),
    ensures
        decimal(v).len() <= k,
    decreases k,
{
    if v >= 10 {
        if k == 1 {
            assert(pow10(1) == 10 * pow10(0));
        } else {
            assert(pow10(k) == 10 * pow10((k - 1) as nat));
            lemma_decimal_len_below(v / 10, (k - 1) as nat);
        }
    }
}

} // verus!
