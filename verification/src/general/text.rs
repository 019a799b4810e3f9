//! Text as bytes: fields between white space, and decimal numbers.

use vstd::prelude::*;

verus! {

/// Whether the byte is white space: a blank, a tab, a line feed, a vertical tab, a form feed or
/// a carriage return.
pub open spec fn is_space(c: u8) -> bool {
    c == 32 || (9 <= c <= 13)
}

/// The first place from `i` on that holds no white space; the length of `s` if there is none.
pub open spec fn skip_spaces(s: Seq<u8>, i: int) -> int
    decreases s.len() - i,
{
    if i < 0 || i >= s.len() {
        s.len() as int
    } else if is_space(s[i]) {
        skip_spaces(s, i + 1)
    } else {
        i
    }
}

/// The first place from `i` on that holds white space; the length of `s` if there is none.
pub open spec fn field_end(s: Seq<u8>, i: int) -> int
    decreases s.len() - i,
{
    if i < 0 || i >= s.len() {
        s.len() as int
    } else if is_space(s[i]) {
        i
    } else {
        field_end(s, i + 1)
    }
}

/// The fields of `s` from the place `i` on: the longest runs of bytes that are no white space.
pub open spec fn fields_from(s: Seq<u8>, i: int) -> Seq<Seq<u8>>
    decreases s.len() - i, 1int,
{
    let a = skip_spaces(s, i);
    if i < 0 || a >= s.len() {
        Seq::empty()
    } else {
        let b = field_end(s, a);
        if i <= a < b <= s.len() {
            seq![s.subrange(a, b)] + fields_from(s, b)
        } else {
            Seq::empty()
        }
    }
}

/// The fields of `s`.
pub open spec fn fields(s: Seq<u8>) -> Seq<Seq<u8>> {
    fields_from(s, 0)
}

pub proof fn lemma_skip_spaces(s: Seq<u8>, i: int)
    requires
        0 <= i <= s.len(),
    ensures
        i <= skip_spaces(s, i) <= s.len(),
        skip_spaces(s, i) < s.len() ==> !is_space(s[skip_spaces(s, i)]),
    decreases s.len() - i,
{
    if i < s.len() && is_space(s[i]) {
        lemma_skip_spaces(s, i + 1);
    }
}

pub proof fn lemma_field_end_bounds(s: Seq<u8>, i: int)
    requires
        0 <= i <= s.len(),
    ensures
        i <= field_end(s, i) <= s.len(),
    decreases s.len() - i,
{
    if i < s.len() && !is_space(s[i]) {
        lemma_field_end_bounds(s, i + 1);
    }
}

pub proof fn lemma_field_end(s: Seq<u8>, i: int)
    requires
        0 <= i < s.len(),
        !is_space(s[i]),
    ensures
        i < field_end(s, i) <= s.len(),
{
    lemma_field_end_bounds(s, i + 1);
}

pub fn byte_is_space(c: u8) -> (r: bool)
    ensures
        r == is_space(c),
{
    c == 32 || (9 <= c && c <= 13)
}

/// Where each field of `text` begins and ends.
pub fn split_fields(text: &[u8]) -> (r: Vec<(usize, usize)>)
    ensures
        r@.len() == fields(text@).len(),
        forall|k: int|
            0 <= k < r@.len() ==> (#[trigger] r@[k]).0 < r@[k].1 <= text@.len() && text@.subrange(
                r@[k].0 as int,
                r@[k].1 as int,
            ) == fields(text@)[k],
{
    let mut r: Vec<(usize, usize)> = Vec::new();
    let mut i: usize = 0;
    let ghost s = text@;
    let ghost mut done: Seq<Seq<u8>> = Seq::empty();
    loop
        invariant_except_break
            i <= text.len(),
            s == text@,
            r@.len() == done.len(),
            fields(s) == done + fields_from(s, i as int),
            forall|k: int|
                0 <= k < r@.len() ==> (#[trigger] r@[k]).0 < r@[k].1 <= s.len() && s.subrange(
                    r@[k].0 as int,
                    r@[k].1 as int,
                ) == done[k],
        ensures
            s == text@,
            r@.len() == fields(s).len(),
            forall|k: int|
                0 <= k < r@.len() ==> (#[trigger] r@[k]).0 < r@[k].1 <= s.len() && s.subrange(
                    r@[k].0 as int,
                    r@[k].1 as int,
                ) == fields(s)[k],
        decreases text.len() - i,
    {
        let ghost from = i as int;
        let mut a: usize = i;
        while a < text.len() && byte_is_space(text[a])
            invariant
                from <= a <= text.len(),
                s == text@,
                skip_spaces(s, a as int) == skip_spaces(s, from),
            decreases text.len() - a,
        {
            a += 1;
        }
        if a >= text.len() {
            proof {
                assert(fields_from(s, from) =~= Seq::<Seq<u8>>::empty());
                assert(done + fields_from(s, from) =~= done);
            }
            break ;
        }
        let mut b: usize = a + 1;
        while b < text.len() && !byte_is_space(text[b])
            invariant
                a < b <= text.len(),
                s == text@,
                !is_space(s[a as int]),
                field_end(s, b as int) == field_end(s, a as int),
            decreases text.len() - b,
        {
            b += 1;
        }
        proof {
            lemma_field_end(s, a as int);
            lemma_skip_spaces(s, from);
            assert(skip_spaces(s, from) == a);
            assert(field_end(s, a as int) == b);
            assert(fields_from(s, from) == seq![s.subrange(a as int, b as int)] + fields_from(s, b as int));
            let next = done.push(s.subrange(a as int, b as int));
            assert(done + fields_from(s, from) =~= next + fields_from(s, b as int));
            done = next;
        }
        r.push((a, b));
        i = b;
    }
    r
}

/// The number that the decimal digits `s` write; `None` if one of them is no digit, if there
/// is none, or if the number is above `limit`.
pub open spec fn number(s: Seq<u8>, limit: int) -> Option<int> {
    if s.len() == 0 {
        None
    } else {
        digits(s, s.len() as int, limit)
    }
}

/// The number that the first `n` bytes of `s` write, if they are digits and it is at most `limit`.
pub open spec fn digits(s: Seq<u8>, n: int, limit: int) -> Option<int>
    decreases n,
{
    if n <= 0 {
        Some(0)
    } else {
        match digits(s, n - 1, limit) {
            Some(v) => if 48 <= s[n - 1] <= 57 && v * 10 + (s[n - 1] - 48) <= limit {
                Some(v * 10 + (s[n - 1] - 48))
            } else {
                None
            },
            None => None,
        }
    }
}

/// Reads a decimal number of at most `u32::MAX`.
pub fn parse_u32(text: &[u8]) -> (r: Option<u32>)
    ensures
        match r {
            Some(v) => number(text@, u32::MAX as int) == Some(v as int),
            None => number(text@, u32::MAX as int).is_none(),
        },
{
    parse_number(text, u32::MAX)
}

/// Reads a decimal number of at most `limit`.
pub fn parse_number(text: &[u8], limit: u32) -> (r: Option<u32>)
    ensures
        match r {
            Some(v) => number(text@, limit as int) == Some(v as int),
            None => number(text@, limit as int).is_none(),
        },
{
    if text.len() == 0 {
        return None;
    }
    let mut value: u64 = 0;
    let mut i: usize = 0;
    while i < text.len()
        invariant
            i <= text.len(),
            value <= limit,
            digits(text@, i as int, limit as int) == Some(value as int),
        decreases text.len() - i,
    {
        let c: u8 = text[i];
        if c < 48 || c > 57 {
            proof {
                lemma_digits_fail(text@, i as int + 1, text@.len() as int, limit as int);
            }
            return None;
        }
        let next: u64 = value * 10 + (c - 48) as u64;
        if next > limit as u64 {
            proof {
                lemma_digits_fail(text@, i as int + 1, text@.len() as int, limit as int);
            }
            return None;
        }
        value = next;
        i += 1;
    }
    Some(value as u32)
}

/// Once the digits fail they fail for good.
pub proof fn lemma_digits_fail(s: Seq<u8>, n: int, m: int, limit: int)
    requires
        0 <= n <= m,
        digits(s, n, limit).is_none(),
    ensures
        digits(s, m, limit).is_none(),
    decreases m - n,
{
    if n < m {
        lemma_digits_fail(s, n, m - 1, limit);
    }
}

/// Whether two texts hold the same bytes.
pub fn same_bytes(a: &[u8], b: &[u8]) -> (r: bool)
    ensures
        r == (a@ == b@),
{
    if a.len() != b.len() {
        return false;
    }
    let mut i: usize = 0;
    while i < a.len()
        invariant
            i <= a.len(),
            a.len() == b.len(),
            forall|k: int| 0 <= k < i ==> a@[k] == b@[k],
        decreases a.len() - i,
    {
        if a[i] != b[i] {
            return false;
        }
        i += 1;
    }
    assert(a@ =~= b@);
    true
}

} // verus!
