//! Reading the total memory from the text of `/proc/meminfo`: the first line that
//! starts with `MemTotal:`, its second whitespace-separated field read as a `u64`
//! number of kibibytes, in mebibytes.
use vstd::prelude::*;
use crate::text::{
    chars_of, digits_value, find_run_end, is_digit, is_white_space, lemma_digits_value_prefix,
    lemma_run_end, lemma_run_end_at, run_end,
};
use crate::clock::{decimal, lemma_decimal_digits};

verus! {

/// Total memory, in MiB, assumed where `/proc/meminfo` gives none.
pub const FALLBACK_TOTAL_MEMORY_MB: u64 = 24 * 1024;

/// The key that starts the line of the total memory.
pub open spec fn mem_total_key() -> Seq<char> {
    seq!['M', 'e', 'm', 'T', 'o', 't', 'a', 'l', ':']
}

/// The end of the line that runs from `i`: the first newline at or after `i`, or
/// the end of the text.
pub open spec fn line_end(s: Seq<char>, i: int) -> int
    decreases s.len() - i,
{
    if i < 0 || i >= s.len() || s[i] == '\n' {
        i
    } else {
        line_end(s, i + 1)
    }
}

pub proof fn lemma_line_end(s: Seq<char>, i: int)
    requires
        0 <= i <= s.len(),
    ensures
        i <= line_end(s, i) <= s.len(),
        line_end(s, i) < s.len() ==> s[line_end(s, i)] == '\n',
        forall|k: int| i <= k < line_end(s, i) ==> s[k] != '\n',
    decreases s.len() - i,
{
    if i < s.len() && s[i] != '\n' {
        lemma_line_end(s, i + 1);
    }
}

/// The line that starts at `i` starts with `MemTotal:`.
pub open spec fn key_at(s: Seq<char>, i: int) -> bool {
    0 <= i && i + 9 <= s.len() && s.subrange(i, i + 9) == mem_total_key()
}

/// The start of the first line, among those that start at or after the line start
/// `i`, that begins with `MemTotal:`.
pub open spec fn key_line_from(s: Seq<char>, i: int) -> Option<int>
    decreases s.len() - i,
{
    if i < 0 || i > s.len() {
        None
    } else if key_at(s, i) {
        Some(i)
    } else if line_end(s, i) < s.len() {
        proof {
            lemma_line_end(s, i);
        }
        key_line_from(s, line_end(s, i) + 1)
    } else {
        None
    }
}

/// The bounds of the second whitespace-separated field of the part of `s` from
/// `a` to `e`, as `split_whitespace().nth(1)` finds it.
pub open spec fn second_field(s: Seq<char>, a: int, e: int) -> Option<(int, int)> {
    let f0 = run_end(s, a, e, true);
    let g0 = run_end(s, f0, e, false);
    let f1 = run_end(s, g0, e, true);
    let g1 = run_end(s, f1, e, false);
    if f0 == e || f1 == e {
        None
    } else {
        Some((f1, g1))
    }
}

/// The digits of a text that `u64::from_str` reads: all of it, or all but a leading
/// `+`.
pub open spec fn unsigned_digits(t: Seq<char>) -> Seq<char> {
    if t.len() > 0 && t[0] == '+' {
        t.drop_first()
    } else {
        t
    }
}

/// What `u64::from_str` makes of a text: a `+` may lead, then one or more ASCII
/// digits whose value fits in a `u64`; anything else is an error (`None`).
pub open spec fn parse_u64(t: Seq<char>) -> Option<nat> {
    let d = unsigned_digits(t);
    if d.len() > 0 && (forall|k: int| 0 <= k < d.len() ==> is_digit(d[k])) && digits_value(d)
        <= u64::MAX {
        Some(digits_value(d))
    } else {
        None
    }
}

/// The total memory, in KiB, that the text of `/proc/meminfo` gives: in the first
/// line that starts with `MemTotal:`, the second field read as a `u64`.
pub open spec fn mem_total_kb(s: Seq<char>) -> Option<nat> {
    match key_line_from(s, 0) {
        None => None,
        Some(a) => match second_field(s, a, line_end(s, a)) {
            None => None,
            Some(bounds) => parse_u64(s.subrange(bounds.0, bounds.1)),
        },
    }
}

/// The total memory, in MiB (KiB divided by 1024, rounded down), that the text of
/// `/proc/meminfo` gives.
pub open spec fn mem_total_mb(s: Seq<char>) -> Option<nat> {
    match mem_total_kb(s) {
        None => None,
        Some(kb) => Some(kb / 1024),
    }
}


fn find_line_end(s: &Vec<char>, i: usize) -> (r: usize)
    requires
        i <= s@.len(),
    ensures
        r == line_end(s@, i as int),
{
    let mut j = i;
    while j < s.len() && s[j] != '\n'
        invariant
            i <= j <= s@.len(),
            line_end(s@, j as int) == line_end(s@, i as int),
        decreases s@.len() - j,
    {
        j = j + 1;
    }
    j
}

fn key_char(k: usize) -> (c: char)
    requires
        k < 9,
    ensures
        c == mem_total_key()[k as int],
{
    if k == 0 {
        'M'
    } else if k == 1 {
        'e'
    } else if k == 2 {
        'm'
    } else if k == 3 {
        'T'
    } else if k == 4 {
        'o'
    } else if k == 5 {
        't'
    } else if k == 6 {
        'a'
    } else if k == 7 {
        'l'
    } else {
        ':'
    }
}

fn has_key_at(s: &Vec<char>, i: usize) -> (r: bool)
    requires
        i <= s@.len(),
    ensures
        r == key_at(s@, i as int),
{
    if s.len() - i < 9 {
        return false;
    }
    let mut k: usize = 0;
    while k < 9
        invariant
            i + 9 <= s@.len(),
            s@.len() == s.len(),
            k <= 9,
            forall|j: int| 0 <= j < k ==> s@[i + j] == mem_total_key()[j],
        decreases 9 - k,
    {
        if s[i + k] != key_char(k) {
            assert(s@.subrange(i as int, i + 9)[k as int] != mem_total_key()[k as int]);
            return false;
        }
        k = k + 1;
    }
    assert(s@.subrange(i as int, i + 9) =~= mem_total_key());
    true
}

/// Reads the part of `s` from `x` to `y` as `u64::from_str` does.
fn parse_u64_in(s: &Vec<char>, x: usize, y: usize) -> (r: Option<u64>)
    requires
        x <= y <= s@.len(),
    ensures
        r is Some <==> parse_u64(s@.subrange(x as int, y as int)) is Some,
        r matches Some(v) ==> v == parse_u64(s@.subrange(x as int, y as int))->0,
{
    let ghost t = s@.subrange(x as int, y as int);
    let mut start = x;
    if x < y && s[x] == '+' {
        start = x + 1;
    }
    let ghost d = s@.subrange(start as int, y as int);
    assert(d =~= unsigned_digits(t));
    if start == y {
        assert(d.len() == 0);
        return None;
    }
    let mut v: u64 = 0;
    let mut k = start;
    while k < y
        invariant
            x <= start <= k <= y,
            y <= s@.len(),
            d == s@.subrange(start as int, y as int),
            d == unsigned_digits(t),
            t == s@.subrange(x as int, y as int),
            v == digits_value(s@.subrange(start as int, k as int)),
            forall|j: int| start <= j < k ==> is_digit(s@[j]),
        decreases y - k,
    {
        let c = s[k];
        if !('0' <= c && c <= '9') {
            assert(!is_digit(d[k - start]));
            return None;
        }
        let dv = (c as u32) - ('0' as u32);
        let ghost next = s@.subrange(start as int, k + 1);
        assert(next.drop_last() =~= s@.subrange(start as int, k as int));
        assert(digits_value(next) == v * 10 + dv);
        match v.checked_mul(10) {
            None => {
                proof {
                    if forall|j: int| 0 <= j < d.len() ==> is_digit(d[j]) {
                        assert(d.take(k + 1 - start) =~= next);
                        lemma_digits_value_prefix(d, k + 1 - start);
                    }
                }
                return None;
            },
            Some(m) => match m.checked_add(dv as u64) {
                None => {
                    proof {
                        if forall|j: int| 0 <= j < d.len() ==> is_digit(d[j]) {
                            assert(d.take(k + 1 - start) =~= next);
                            lemma_digits_value_prefix(d, k + 1 - start);
                        }
                    }
                    return None;
                },
                Some(w) => {
                    v = w;
                },
            },
        }
        k = k + 1;
    }
    assert(d =~= s@.subrange(start as int, k as int));
    Some(v)
}

/// The total memory, in MiB, that the text of `/proc/meminfo` gives, or `None`
/// where no line starts with `MemTotal:` or its second field is no `u64`.
pub fn parse_mem_total_mb(meminfo: &str) -> (r: Option<u64>)
    ensures
        r is Some <==> mem_total_mb(meminfo@) is Some,
        r matches Some(v) ==> v == mem_total_mb(meminfo@)->0,
{
    let s = chars_of(meminfo);
    let len = s.len();
    let mut i: usize = 0;
    loop
        invariant
            s@ == meminfo@,
            len == s@.len(),
            i <= len,
            key_line_from(s@, 0) == key_line_from(s@, i as int),
        ensures
            s@ == meminfo@,
            len == s@.len(),
            i <= len,
            key_at(s@, i as int),
            key_line_from(s@, 0) == key_line_from(s@, i as int),
        decreases len - i,
    {
        if has_key_at(&s, i) {
            break;
        }
        let e = find_line_end(&s, i);
        proof {
            lemma_line_end(s@, i as int);
        }
        if e < len {
            i = e + 1;
        } else {
            return None;
        }
    }
    let a = i;
    assert(key_line_from(s@, 0) == Some(a as int));
    let e = find_line_end(&s, a);
    proof {
        lemma_line_end(s@, a as int);
    }
    let f0 = find_run_end(&s, a, e, true);
    proof {
        lemma_run_end(s@, a as int, e as int, true);
    }
    let g0 = find_run_end(&s, f0, e, false);
    proof {
        lemma_run_end(s@, f0 as int, e as int, false);
    }
    let f1 = find_run_end(&s, g0, e, true);
    proof {
        lemma_run_end(s@, g0 as int, e as int, true);
    }
    let g1 = find_run_end(&s, f1, e, false);
    proof {
        lemma_run_end(s@, f1 as int, e as int, false);
    }
    if f0 == e || f1 == e {
        return None;
    }
    match parse_u64_in(&s, f1, g1) {
        Some(kb) => Some(kb / 1024),
        None => None,
    }
}

/// A text that starts with the line `MemTotal: <kb> ...`, whatever follows the
/// number after a space, gives `kb` KiB, that is `kb / 1024` MiB, for every `kb`
/// that fits in a `u64`.
pub proof fn lemma_reads_mem_total_line(kb: nat, rest: Seq<char>)
    requires
        kb <= u64::MAX,
    ensures
        mem_total_mb(mem_total_key() + seq![' '] + decimal(kb) + seq![' '] + rest)
            == Some(kb / 1024),
{
    let d = decimal(kb);
    let n = d.len() as int;
    let s = mem_total_key() + seq![' '] + d + seq![' '] + rest;
    lemma_decimal_digits(kb);
    assert(s.subrange(0, 9) =~= mem_total_key());
    assert(key_at(s, 0));
    assert(key_line_from(s, 0) == Some(0int));
    assert forall|k: int| 0 <= k < 9 implies #[trigger] s[k] == mem_total_key()[k]
        && !is_white_space(s[k]) && s[k] != '\n' by {
        assert(s[k] == mem_total_key()[k]);
    }
    assert forall|k: int| 10 <= k < 10 + n implies #[trigger] s[k] == d[k - 10] && !is_white_space(
        s[k],
    ) && s[k] != '\n' by {
        assert(s[k] == d[k - 10]);
        assert(is_digit(d[k - 10]));
    }
    assert(s[9] == ' ');
    assert(s[10 + n] == ' ');
    lemma_line_end(s, 0);
    let e = line_end(s, 0);
    assert(e >= 11 + n) by {
        if e < 11 + n {
            assert(s[e] == '\n');
        }
    }
    lemma_run_end_at(s, 0, 0, e, true);
    lemma_run_end_at(s, 0, 9, e, false);
    lemma_run_end_at(s, 9, 10, e, true);
    lemma_run_end_at(s, 10, 10 + n, e, false);
    assert(second_field(s, 0, e) == Some((10int, 10 + n)));
    assert(s.subrange(10, 10 + n) =~= d);
    assert(unsigned_digits(d) == d);
}

} // verus!
