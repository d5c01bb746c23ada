//! Characters and texts: white space, decimal digits, and runs of either.
use vstd::prelude::*;
use vstd::string::*;

verus! {

/// The characters of Unicode's `White_Space` property, those that
/// `char::is_whitespace` accepts and `str::split_whitespace` splits at.
pub open spec fn is_white_space(c: char) -> bool {
    let u = c as u32;
    ||| 0x09 <= u <= 0x0D
    ||| u == 0x20
    ||| u == 0x85
    ||| u == 0xA0
    ||| u == 0x1680
    ||| 0x2000 <= u <= 0x200A
    ||| u == 0x2028
    ||| u == 0x2029
    ||| u == 0x202F
    ||| u == 0x205F
    ||| u == 0x3000
}

/// The first index at or after `i`, and before `e`, that `white` (or its opposite)
/// does not describe: the end of a run of white space (or of a field).
pub open spec fn run_end(s: Seq<char>, i: int, e: int, white: bool) -> int
    decreases e - i,
{
    if i < 0 || i >= e || i >= s.len() || is_white_space(s[i]) != white {
        i
    } else {
        run_end(s, i + 1, e, white)
    }
}

pub proof fn lemma_run_end(s: Seq<char>, i: int, e: int, white: bool)
    requires
        0 <= i <= e <= s.len(),
    ensures
        i <= run_end(s, i, e, white) <= e,
        run_end(s, i, e, white) < e ==> is_white_space(s[run_end(s, i, e, white)]) != white,
        forall|k: int| i <= k < run_end(s, i, e, white) ==> is_white_space(s[k]) == white,
    decreases e - i,
{
    if i < e && is_white_space(s[i]) == white {
        lemma_run_end(s, i + 1, e, white);
    }
}

/// A run that starts at `i` ends at the first index `j` where the characters stop
/// being (or not being) white space, or at `e`.
pub proof fn lemma_run_end_at(s: Seq<char>, i: int, j: int, e: int, white: bool)
    requires
        0 <= i <= j <= e <= s.len(),
        forall|k: int| i <= k < j ==> is_white_space(#[trigger] s[k]) == white,
        j == e || is_white_space(s[j]) != white,
    ensures
        run_end(s, i, e, white) == j,
    decreases j - i,
{
    if i < j {
        lemma_run_end_at(s, i + 1, j, e, white);
    }
}

/// An ASCII decimal digit.
pub open spec fn is_digit(c: char) -> bool {
    '0' <= c <= '9'
}

/// The value of a digit character.
pub open spec fn digit_value(c: char) -> int {
    (c as int) - ('0' as int)
}

/// The value of a text of decimal digits.
pub open spec fn digits_value(t: Seq<char>) -> nat
    decreases t.len(),
{
    if t.len() == 0 {
        0
    } else {
        (digits_value(t.drop_last()) * 10 + digit_value(t.last())) as nat
    }
}

/// The characters of a text, one by one.
pub fn chars_of(text: &str) -> (r: Vec<char>)
    ensures
        r@ == text@,
{
    let n = text.unicode_len();
    let mut out: Vec<char> = Vec::new();
    let mut i: usize = 0;
    while i < n
        invariant
            n == text@.len(),
            i <= n,
            out@ =~= text@.take(i as int),
        decreases n - i,
    {
        out.push(text.get_char(i));
        i = i + 1;
        assert(out@ =~= text@.take(i as int));
    }
    assert(text@.take(n as int) =~= text@);
    out
}

pub fn white_space(c: char) -> (r: bool)
    ensures
        r == is_white_space(c),
{
    let u = c as u32;
    (0x09 <= u && u <= 0x0D) || u == 0x20 || u == 0x85 || u == 0xA0 || u == 0x1680 || (0x2000
        <= u && u <= 0x200A) || u == 0x2028 || u == 0x2029 || u == 0x202F || u == 0x205F || u
        == 0x3000
}

pub fn find_run_end(s: &Vec<char>, i: usize, e: usize, white: bool) -> (r: usize)
    requires
        i <= e <= s@.len(),
    ensures
        r == run_end(s@, i as int, e as int, white),
{
    let mut j = i;
    while j < e && white_space(s[j]) == white
        invariant
            i <= j <= e,
            e <= s@.len(),
            run_end(s@, j as int, e as int, white) == run_end(s@, i as int, e as int, white),
        decreases e - j,
    {
        j = j + 1;
    }
    j
}

/// Values of digit texts never shrink as digits are added behind.
pub proof fn lemma_digits_value_prefix(t: Seq<char>, k: int)
    requires
        0 <= k <= t.len(),
        forall|j: int| 0 <= j < t.len() ==> is_digit(t[j]),
    ensures
        digits_value(t.take(k)) <= digits_value(t),
    decreases t.len() - k,
{
    if k < t.len() {
        assert(t.drop_last().take(k) =~= t.take(k));
        lemma_digits_value_prefix(t.drop_last(), k);
        assert(is_digit(t[t.len() - 1]));
        assert(digit_value(t.last()) >= 0);
    } else {
        assert(t.take(k) =~= t);
    }
}

} // verus!
