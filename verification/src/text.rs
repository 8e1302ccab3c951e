//! Searching and comparing text by its characters.
//!
//! Every contract here speaks of a string through its view, the sequence of
//! its characters.

use vstd::prelude::*;
use vstd::std_specs::iter::IteratorSpec;

verus! {

/// Index of the first occurrence of `c` in `s`, or `s.len()` where `c` does
/// not occur.
pub open spec fn first_index_of(s: Seq<char>, c: char) -> int
    decreases s.len(),
{
    if s.len() == 0 || s[0] == c {
        0
    } else {
        1 + first_index_of(s.skip(1), c)
    }
}

/// Index of the last occurrence of `c` in `s`, or `-1` where `c` does not
/// occur.
pub open spec fn last_index_of(s: Seq<char>, c: char) -> int
    decreases s.len(),
{
    if s.len() == 0 {
        -1
    } else if s.last() == c {
        s.len() - 1
    } else {
        last_index_of(s.drop_last(), c)
    }
}

/// Index at which `pat` first occurs in `s`. Where it occurs nowhere, the
/// result is `s.len()`, which for a non-empty `pat` is no occurrence.
pub open spec fn first_match(s: Seq<char>, pat: Seq<char>) -> int
    decreases s.len(),
{
    if s.len() == 0 || pat.is_prefix_of(s) {
        0
    } else {
        1 + first_match(s.skip(1), pat)
    }
}

/// `pat` occurs in `s` at index `i`.
pub open spec fn occurs_at(s: Seq<char>, pat: Seq<char>, i: int) -> bool {
    0 <= i && i + pat.len() <= s.len() && s.subrange(i, i + pat.len()) == pat
}

/// The pieces of `s` between the occurrences of `sep`. A text without a
/// `sep` is one piece, and so is the empty text.
pub open spec fn split_on(s: Seq<char>, sep: char) -> Seq<Seq<char>>
    decreases s.len(),
{
    let n = first_index_of(s, sep);
    if 0 <= n < s.len() {
        seq![s.take(n)] + split_on(s.skip(n + 1), sep)
    } else {
        seq![s]
    }
}

/// `first_index_of` is the least index that holds `c`.
pub proof fn lemma_first_index_of(s: Seq<char>, c: char)
    ensures
        0 <= first_index_of(s, c) <= s.len(),
        first_index_of(s, c) < s.len() ==> s[first_index_of(s, c)] == c,
        forall|j: int| 0 <= j < first_index_of(s, c) ==> s[j] != c,
    decreases s.len(),
{
    if s.len() == 0 || s[0] == c {
    } else {
        let t = s.skip(1);
        lemma_first_index_of(t, c);
        assert forall|j: int| 0 <= j < first_index_of(s, c) implies s[j] != c by {
            if j > 0 {
                assert(t[j - 1] == s[j]);
            }
        }
    }
}

/// An index that holds `c`, with no `c` before it, is `first_index_of`.
pub proof fn lemma_first_index_is(s: Seq<char>, c: char, i: int)
    requires
        0 <= i <= s.len(),
        i < s.len() ==> s[i] == c,
        forall|j: int| 0 <= j < i ==> s[j] != c,
    ensures
        first_index_of(s, c) == i,
{
    lemma_first_index_of(s, c);
    let k = first_index_of(s, c);
    if k < i {
        assert(s[k] != c);
    }
}

/// A text has at least one piece.
pub proof fn lemma_split_nonempty(s: Seq<char>, sep: char)
    ensures
        split_on(s, sep).len() >= 1,
{
    lemma_first_index_of(s, sep);
}

/// `last_index_of` is the greatest index that holds `c`.
pub proof fn lemma_last_index_of(s: Seq<char>, c: char)
    ensures
        -1 <= last_index_of(s, c) < s.len(),
        last_index_of(s, c) >= 0 ==> s[last_index_of(s, c)] == c,
        forall|j: int| last_index_of(s, c) < j < s.len() ==> s[j] != c,
    decreases s.len(),
{
    if s.len() == 0 {
    } else if s.last() == c {
    } else {
        let t = s.drop_last();
        lemma_last_index_of(t, c);
        assert forall|j: int| last_index_of(s, c) < j < s.len() implies s[j] != c by {
            if j < s.len() - 1 {
                assert(t[j] == s[j]);
            }
        }
    }
}

/// An index that holds `c`, with no `c` after it, is `last_index_of`.
pub proof fn lemma_last_index_is(s: Seq<char>, c: char, i: int)
    requires
        -1 <= i < s.len(),
        i >= 0 ==> s[i] == c,
        forall|j: int| i < j < s.len() ==> s[j] != c,
    ensures
        last_index_of(s, c) == i,
{
    lemma_last_index_of(s, c);
    let k = last_index_of(s, c);
    if i < k {
        assert(s[k] != c);
    }
}

/// `first_match` is the least index at which `pat` occurs.
pub proof fn lemma_first_match(s: Seq<char>, pat: Seq<char>)
    ensures
        0 <= first_match(s, pat) <= s.len(),
        first_match(s, pat) < s.len() ==> occurs_at(s, pat, first_match(s, pat)),
        forall|j: int| 0 <= j < first_match(s, pat) ==> !occurs_at(s, pat, j),
    decreases s.len(),
{
    if s.len() == 0 {
    } else if pat.is_prefix_of(s) {
        assert(s.subrange(0, pat.len() as int) == pat);
    } else {
        let t = s.skip(1);
        lemma_first_match(t, pat);
        let k = first_match(t, pat);
        if k < t.len() {
            assert(s.subrange(k + 1, k + 1 + pat.len()) == t.subrange(k, k + pat.len()));
        }
        assert forall|j: int| 0 <= j < first_match(s, pat) implies !occurs_at(s, pat, j) by {
            if j == 0 {
                if occurs_at(s, pat, 0) {
                    assert(pat.is_prefix_of(s));
                }
            } else {
                if occurs_at(s, pat, j) {
                    assert(s.subrange(j, j + pat.len()) == t.subrange(j - 1, j - 1 + pat.len()));
                    assert(occurs_at(t, pat, j - 1));
                }
            }
        }
    }
}

/// An index at which `pat` occurs, with no occurrence before it, is
/// `first_match`; so is `s.len()` where `pat` occurs nowhere before it.
pub proof fn lemma_first_match_is(s: Seq<char>, pat: Seq<char>, i: int)
    requires
        0 <= i <= s.len(),
        i < s.len() ==> occurs_at(s, pat, i),
        forall|j: int| 0 <= j < i ==> !occurs_at(s, pat, j),
    ensures
        first_match(s, pat) == i,
{
    lemma_first_match(s, pat);
    let k = first_match(s, pat);
    if k < i {
        assert(!occurs_at(s, pat, k));
    }
}

/// The characters of `s`, in order.
pub fn chars_of(s: &str) -> (v: Vec<char>)
    ensures
        v@ == s@,
{
    let mut v: Vec<char> = Vec::new();
    let mut it = s.chars();
    loop
        invariant
            v@ + it.remaining() == s@,
        decreases s@.len() - v@.len(),
    {
        match it.next() {
            Some(c) => {
                v.push(c);
            },
            None => {
                return v;
            },
        }
    }
}

/// Whether two strings hold the same characters.
pub fn str_eq(a: &str, b: &str) -> (r: bool)
    ensures
        r == (a@ == b@),
{
    let x = chars_of(a);
    let y = chars_of(b);
    chars_eq(&x, &y)
}

/// Whether two character vectors hold the same characters.
pub fn chars_eq(a: &Vec<char>, b: &Vec<char>) -> (r: bool)
    ensures
        r == (a@ == b@),
{
    if a.len() != b.len() {
        return false;
    }
    let mut i: usize = 0;
    while i < a.len()
        invariant
            i <= a.len(),
            a.len() == b.len(),
            forall|j: int| 0 <= j < i ==> a@[j] == b@[j],
        decreases a.len() - i,
    {
        if a[i] != b[i] {
            return false;
        }
        i = i + 1;
    }
    assert(a@ =~= b@);
    true
}

/// Index of the first `c` in `s`, or `s.len()` where there is none.
pub fn find_char(s: &Vec<char>, c: char) -> (r: usize)
    ensures
        r <= s.len(),
        r == first_index_of(s@, c),
{
    let mut i: usize = 0;
    while i < s.len()
        invariant
            i <= s.len(),
            forall|j: int| 0 <= j < i ==> s@[j] != c,
        decreases s.len() - i,
    {
        if s[i] == c {
            proof {
                lemma_first_index_is(s@, c, i as int);
            }
            return i;
        }
        i = i + 1;
    }
    proof {
        lemma_first_index_is(s@, c, i as int);
    }
    i
}

/// Index of the last `c` in `s`, if there is one.
pub fn rfind_char(s: &Vec<char>, c: char) -> (r: Option<usize>)
    ensures
        match r {
            Some(i) => i < s.len() && i == last_index_of(s@, c),
            None => last_index_of(s@, c) == -1,
        },
{
    let mut i: usize = s.len();
    while i > 0
        invariant
            i <= s.len(),
            forall|j: int| i <= j < s.len() ==> s@[j] != c,
        decreases i,
    {
        i = i - 1;
        if s[i] == c {
            proof {
                lemma_last_index_is(s@, c, i as int);
            }
            return Some(i);
        }
    }
    proof {
        lemma_last_index_is(s@, c, -1);
    }
    None
}

/// Whether `pat` occurs in `s` at index `at`.
pub fn matches_at(s: &Vec<char>, pat: &Vec<char>, at: usize) -> (r: bool)
    ensures
        r == occurs_at(s@, pat@, at as int),
{
    if at > s.len() || pat.len() > s.len() - at {
        return false;
    }
    let mut k: usize = 0;
    while k < pat.len()
        invariant
            k <= pat.len(),
            at + pat.len() <= s.len(),
            forall|j: int| 0 <= j < k ==> s@[at + j] == pat@[j],
        decreases pat.len() - k,
    {
        if s[at + k] != pat[k] {
            proof {
                let sub = s@.subrange(at as int, at + pat.len());
                assert(sub[k as int] == s@[at + k]);
            }
            return false;
        }
        k = k + 1;
    }
    assert(s@.subrange(at as int, at + pat.len()) =~= pat@);
    true
}

/// Whether `s` begins with `pat`.
pub fn has_prefix(s: &Vec<char>, pat: &Vec<char>) -> (r: bool)
    ensures
        r == pat@.is_prefix_of(s@),
{
    let r = matches_at(s, pat, 0);
    proof {
        if pat@.is_prefix_of(s@) {
            assert(s@.subrange(0, pat@.len() as int) == pat@);
        }
    }
    r
}

/// Whether `s` ends with `pat`.
pub fn has_suffix(s: &Vec<char>, pat: &Vec<char>) -> (r: bool)
    ensures
        r == pat@.is_suffix_of(s@),
{
    if pat.len() > s.len() {
        return false;
    }
    let r = matches_at(s, pat, s.len() - pat.len());
    proof {
        if pat@.is_suffix_of(s@) {
            assert(s@.subrange(s@.len() - pat@.len(), s@.len() as int) == pat@);
        }
    }
    r
}

/// Index at which `pat` first occurs in `s`, or `s.len()` where it occurs
/// nowhere before the end.
pub fn find_chars(s: &Vec<char>, pat: &Vec<char>) -> (r: usize)
    ensures
        r <= s.len(),
        r == first_match(s@, pat@),
{
    let mut i: usize = 0;
    while i < s.len()
        invariant
            i <= s.len(),
            forall|j: int| 0 <= j < i ==> !occurs_at(s@, pat@, j),
        decreases s.len() - i,
    {
        if matches_at(s, pat, i) {
            proof {
                lemma_first_match_is(s@, pat@, i as int);
            }
            return i;
        }
        i = i + 1;
    }
    proof {
        lemma_first_match_is(s@, pat@, i as int);
    }
    i
}

/// The characters of `s` from index `from` up to, not including, `to`.
pub(crate) fn slice_of<'a>(s: &'a str, from: usize, to: usize) -> (r: &'a str)
    requires
        from <= to <= s@.len(),
    ensures
        r@ == s@.subrange(from as int, to as int),
{
    s.substring_char(from, to)
}

/// A string that holds the characters of `s`.
pub fn owned(s: &str) -> (r: String)
    ensures
        r@ == s@,
{
    String::from_str(s)
}

/// Index of the first `c` in `s` at or after `from`, or `s.len()` where
/// there is none.
pub(crate) fn find_char_from(s: &Vec<char>, c: char, from: usize) -> (r: usize)
    requires
        from <= s.len(),
    ensures
        from <= r <= s.len(),
        r == from + first_index_of(s@.skip(from as int), c),
{
    let ghost rest = s@.skip(from as int);
    let mut i: usize = from;
    while i < s.len()
        invariant
            from <= i <= s.len(),
            rest == s@.skip(from as int),
            forall|j: int| 0 <= j < i - from ==> rest[j] != c,
        decreases s.len() - i,
    {
        if s[i] == c {
            proof {
                assert(rest[i - from] == s@[i as int]);
                lemma_first_index_is(rest, c, i - from);
            }
            return i;
        }
        proof {
            assert(rest[i - from] == s@[i as int]);
        }
        i = i + 1;
    }
    proof {
        lemma_first_index_is(rest, c, i - from);
    }
    i
}

/// The first piece of `rest`, and what follows the `sep` behind it, if
/// there is one.
pub(crate) fn next_piece<'a>(rest: &'a str, sep: char) -> (r: (&'a str, Option<&'a str>))
    ensures
        split_on(rest@, sep).len() >= 1,
        r.0@ == split_on(rest@, sep)[0],
        match r.1 {
            Some(tail) => split_on(rest@, sep).skip(1) == split_on(tail@, sep),
            None => split_on(rest@, sep).len() == 1,
        },
{
    let chars = chars_of(rest);
    let n = find_char(&chars, sep);
    proof {
        lemma_first_index_of(rest@, sep);
    }
    if n < chars.len() {
        let head = slice_of(rest, 0, n);
        let tail = slice_of(rest, n + 1, chars.len());
        proof {
            assert(tail@ == rest@.skip(n + 1));
            assert(head@ == rest@.take(n as int));
            assert(split_on(rest@, sep).skip(1) =~= split_on(tail@, sep));
        }
        (head, Some(tail))
    } else {
        (rest, None)
    }
}

} // verus!
