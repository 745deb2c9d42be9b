//! Character-level helpers shared by the name and path parsers: decimal
//! numbers as `usize::from_str` reads them, suffixes and the last occurrence
//! of a character.

use vstd::prelude::*;

verus! {

/// Copies the characters of a string slice into a vector.
pub fn chars_of(s: &str) -> (out: Vec<char>)
    ensures
        out@ == s@,
{
    let mut out: Vec<char> = Vec::new();
    for c in it: s.chars()
        invariant
            out@ == it.seq().take(it.index()),
            it.seq() == s@,
    {
        out.push(c);
    }
    out
}

pub open spec fn is_digit(c: char) -> bool {
    '0' <= c && c <= '9'
}

pub open spec fn digit_value(c: char) -> nat {
    (c as int - '0' as int) as nat
}

pub open spec fn all_digits(s: Seq<char>) -> bool {
    forall|i: int| 0 <= i < s.len() ==> is_digit(#[trigger] s[i])
}

/// The value of a string of decimal digits, most significant digit first.
pub open spec fn decimal_value(s: Seq<char>) -> nat
    decreases s.len(),
{
    if s.len() == 0 {
        0
    } else {
        decimal_value(s.drop_last()) * 10 + digit_value(s.last())
    }
}

/// The digits that `usize::from_str` reads: the text after one optional
/// leading `+`.
pub open spec fn unsigned_digits(s: Seq<char>) -> Seq<char> {
    if s.len() > 0 && s[0] == '+' {
        s.drop_first()
    } else {
        s
    }
}

/// What `usize::from_str` gives: an optional `+`, then at least one decimal
/// digit and nothing else, with a value that fits in `usize`.
pub open spec fn spec_parse_usize(s: Seq<char>) -> Option<usize> {
    let d = unsigned_digits(s);
    if d.len() > 0 && all_digits(d) && decimal_value(d) <= usize::MAX {
        Some(decimal_value(d) as usize)
    } else {
        None
    }
}

/// The index of the last occurrence of `c` in `s`, or -1.
pub open spec fn last_index_of(s: Seq<char>, c: char) -> int
    decreases s.len(),
{
    if s.len() == 0 {
        -1
    } else if s.last() == c {
        s.len() - 1
    } else {
        last_index_of(s.drop_last(), c)
    }
}

pub proof fn lemma_last_index_of(s: Seq<char>, c: char)
    ensures
        -1 <= last_index_of(s, c) < s.len(),
        last_index_of(s, c) >= 0 ==> s[last_index_of(s, c)] == c,
        forall|j: int| last_index_of(s, c) < j < s.len() ==> s[j] != c,
    decreases s.len(),
{
    if s.len() > 0 && s.last() != c {
        lemma_last_index_of(s.drop_last(), c);
        assert forall|j: int| last_index_of(s, c) < j < s.len() implies s[j] != c by {
            if j < s.len() - 1 {
                assert(s[j] == s.drop_last()[j]);
            }
        }
    }
}

pub open spec fn ends_with(s: Seq<char>, suffix: Seq<char>) -> bool {
    s.len() >= suffix.len() && s.skip(s.len() - suffix.len()) == suffix
}

/// `str::strip_suffix`.
pub open spec fn strip_suffix(s: Seq<char>, suffix: Seq<char>) -> Option<Seq<char>> {
    if ends_with(s, suffix) {
        Some(s.take(s.len() - suffix.len()))
    } else {
        None
    }
}

/// `str::rsplit_once` with a character pattern: the text before and after
/// the last occurrence of `c`.
pub open spec fn rsplit_once(s: Seq<char>, c: char) -> Option<(Seq<char>, Seq<char>)> {
    let i = last_index_of(s, c);
    if i >= 0 {
        Some((s.take(i), s.skip(i + 1)))
    } else {
        None
    }
}

proof fn lemma_decimal_prefix_monotone(s: Seq<char>, k: int)
    requires
        0 <= k <= s.len(),
    ensures
        decimal_value(s.take(k)) <= decimal_value(s),
    decreases s.len() - k,
{
    if k < s.len() {
        lemma_decimal_prefix_monotone(s, k + 1);
        assert(s.take(k + 1).drop_last() == s.take(k));
    } else {
        assert(s.take(k) == s);
    }
}

/// Index of the last occurrence of `c` in `s[..end]`.
pub fn find_last(s: &Vec<char>, end: usize, c: char) -> (r: Option<usize>)
    requires
        end <= s.len(),
    ensures
        match r {
            Some(i) => last_index_of(s@.take(end as int), c) == i,
            None => last_index_of(s@.take(end as int), c) == -1,
        },
{
    let mut i = end;
    while i > 0
        invariant
            i <= end <= s.len(),
            last_index_of(s@.take(end as int), c) == last_index_of(s@.take(i as int), c),
        decreases i,
    {
        if s[i - 1] == c {
            return Some(i - 1);
        }
        assert(s@.take(i as int).drop_last() == s@.take(i - 1));
        i = i - 1;
    }
    None
}

/// Whether `s[start..end]` equals `t`.
pub fn range_equals(s: &Vec<char>, start: usize, end: usize, t: &[char]) -> (r: bool)
    requires
        start <= end <= s.len(),
    ensures
        r == (s@.subrange(start as int, end as int) == t@),
{
    if end - start != t.len() {
        return false;
    }
    let mut k: usize = 0;
    while k < t.len()
        invariant
            end - start == t.len(),
            start <= end <= s.len(),
            k <= t.len(),
            forall|j: int| 0 <= j < k ==> s@[start + j] == t@[j],
        decreases t.len() - k,
    {
        if s[start + k] != t[k] {
            assert(s@.subrange(start as int, end as int)[k as int] != t@[k as int]);
            return false;
        }
        k = k + 1;
    }
    assert(s@.subrange(start as int, end as int) =~= t@);
    true
}

/// `s[start..end].parse::<usize>()`, as `usize::from_str` does it.
pub fn parse_usize_range(s: &Vec<char>, start: usize, end: usize) -> (r: Option<usize>)
    requires
        start <= end <= s.len(),
    ensures
        r == spec_parse_usize(s@.subrange(start as int, end as int)),
{
    let ghost text = s@.subrange(start as int, end as int);
    let mut first = start;
    if start < end && s[start] == '+' {
        first = start + 1;
    }
    let ghost digits = s@.subrange(first as int, end as int);
    assert(digits == unsigned_digits(text));
    if first == end {
        return None;
    }
    let mut value: usize = 0;
    let mut i = first;
    while i < end
        invariant
            start <= first <= i <= end <= s.len(),
            text == s@.subrange(start as int, end as int),
            digits == unsigned_digits(text),
            digits == s@.subrange(first as int, end as int),
            forall|j: int| first <= j < i ==> is_digit(#[trigger] s@[j]),
            value == decimal_value(s@.subrange(first as int, i as int)),
        decreases end - i,
    {
        let c = s[i];
        if !('0' <= c && c <= '9') {
            assert(!is_digit(digits[i - first]));
            return None;
        }
        let d = (c as u32 - '0' as u32) as usize;
        assert(s@.subrange(first as int, i + 1).drop_last() == s@.subrange(first as int, i as int));
        assert(d == digit_value(c));
        assert(decimal_value(s@.subrange(first as int, i + 1)) == value * 10 + d);
        match value.checked_mul(10) {
            Some(v10) => match v10.checked_add(d) {
                Some(v) => {
                    value = v;
                },
                None => {
                    proof {
                        assert(s@.subrange(first as int, i + 1) == digits.take(i + 1 - first));
                        if all_digits(digits) {
                            lemma_decimal_prefix_monotone(digits, i + 1 - first);
                        }
                    }
                    return None;
                },
            },
            None => {
                proof {
                    assert(s@.subrange(first as int, i + 1) == digits.take(i + 1 - first));
                    if all_digits(digits) {
                        lemma_decimal_prefix_monotone(digits, i + 1 - first);
                    }
                }
                return None;
            },
        }
        i = i + 1;
    }
    assert(s@.subrange(first as int, end as int) == digits);
    assert(all_digits(digits)) by {
        assert forall|j: int| 0 <= j < digits.len() implies is_digit(#[trigger] digits[j]) by {
            assert(digits[j] == s@[first + j]);
        }
    }
    Some(value)
}

} // verus!
