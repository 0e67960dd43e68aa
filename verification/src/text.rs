//! Character-level text utilities: conversion to character vectors,
//! whitespace trimming, line splitting, substring search (exact and
//! ASCII-case-insensitive) and decimal parsing/printing.
//!
//! Terminal captures and log lines are modelled as sequences of `char`;
//! every function here carries a contract over those sequences.

use vstd::prelude::*;

verus! {

/// The whitespace characters recognised when trimming a line.
/// Line content never holds a newline, so this covers the blanks that
/// terminal captures and log lines actually carry.
pub open spec fn is_blank(c: char) -> bool {
    c == ' ' || c == '\t' || c == '\r'
}

/// Executable mirror of [`is_blank`].
pub fn blank_char(c: char) -> (r: bool)
    ensures
        r == is_blank(c),
{
    c == ' ' || c == '\t' || c == '\r'
}

/// Collect the characters of a string slice into a vector.
pub fn to_chars(s: &str) -> (r: Vec<char>)
    ensures
        r@ == s@,
{
    let n = s.unicode_len();
    let mut r: Vec<char> = Vec::new();
    let mut i: usize = 0;
    while i < n
        invariant
            n == s@.len(),
            i <= n,
            r@ == s@.take(i as int),
        decreases n - i,
    {
        let c = s.get_char(i);
        r.push(c);
        i = i + 1;
        assert(r@ =~= s@.take(i as int));
    }
    assert(r@ =~= s@);
    r
}

/// Drop leading blanks.
pub open spec fn trim_start_spec(s: Seq<char>) -> Seq<char>
    decreases s.len(),
{
    if s.len() > 0 && is_blank(s[0]) {
        trim_start_spec(s.drop_first())
    } else {
        s
    }
}

/// Drop trailing blanks.
pub open spec fn trim_end_spec(s: Seq<char>) -> Seq<char>
    decreases s.len(),
{
    if s.len() > 0 && is_blank(s[s.len() - 1]) {
        trim_end_spec(s.drop_last())
    } else {
        s
    }
}

/// Drop blanks at both ends.
pub open spec fn trim_spec(s: Seq<char>) -> Seq<char> {
    trim_end_spec(trim_start_spec(s))
}

/// Trim an index range: `trim_start_spec` of a suffix is a later suffix.
proof fn lemma_trim_start_skip(s: Seq<char>, i: int)
    requires
        0 <= i < s.len(),
        is_blank(s[i]),
    ensures
        trim_start_spec(s.skip(i)) == trim_start_spec(s.skip(i + 1)),
{
    assert(s.skip(i).drop_first() =~= s.skip(i + 1));
}

/// Trim a character vector, matching [`trim_spec`].
pub fn trim_chars(s: &Vec<char>) -> (r: Vec<char>)
    ensures
        r@ == trim_spec(s@),
{
    let n = s.len();
    let mut lo: usize = 0;
    proof {
        assert(s@.skip(0) =~= s@);
    }
    while lo < n && blank_char(s[lo])
        invariant
            n == s@.len(),
            lo <= n,
            trim_start_spec(s@) == trim_start_spec(s@.skip(lo as int)),
        decreases n - lo,
    {
        proof {
            lemma_trim_start_skip(s@, lo as int);
        }
        lo = lo + 1;
    }
    // At exit the suffix starts with a non-blank (or is empty), so it is
    // its own trim_start.
    proof {
        if lo < n {
            assert(s@.skip(lo as int)[0] == s@[lo as int]);
        } else {
            assert(s@.skip(lo as int) =~= Seq::<char>::empty());
        }
        assert(trim_start_spec(s@) == s@.skip(lo as int));
    }
    let ghost t = s@.skip(lo as int);
    let mut hi: usize = n;
    proof {
        assert(s@.subrange(lo as int, n as int) =~= t);
    }
    while hi > lo && blank_char(s[hi - 1])
        invariant
            n == s@.len(),
            lo <= hi <= n,
            t == s@.skip(lo as int),
            trim_end_spec(t) == trim_end_spec(s@.subrange(lo as int, hi as int)),
        decreases hi,
    {
        proof {
            let part = s@.subrange(lo as int, hi as int);
            assert(part[part.len() - 1] == s@[hi - 1]);
            assert(part.drop_last() =~= s@.subrange(lo as int, hi as int - 1));
        }
        hi = hi - 1;
    }
    proof {
        let part = s@.subrange(lo as int, hi as int);
        if hi > lo {
            assert(part[part.len() - 1] == s@[hi - 1]);
        }
        assert(trim_end_spec(t) == part);
    }
    let mut r: Vec<char> = Vec::new();
    let mut i: usize = lo;
    while i < hi
        invariant
            lo <= i <= hi <= n,
            n == s@.len(),
            r@ == s@.subrange(lo as int, i as int),
        decreases hi - i,
    {
        r.push(s[i]);
        i = i + 1;
        assert(r@ =~= s@.subrange(lo as int, i as int));
    }
    proof {
        assert(t =~= s@.subrange(lo as int, n as int));
        assert(r@ == trim_spec(s@));
    }
    r
}

/// Equality of two character vectors, decided element by element.
pub fn chars_eq(a: &Vec<char>, b: &Vec<char>) -> (r: bool)
    ensures
        r == (a@ == b@),
{
    if a.len() != b.len() {
        assert(a@ != b@);
        return false;
    }
    let n = a.len();
    let mut i: usize = 0;
    while i < n
        invariant
            n == a@.len() == b@.len(),
            i <= n,
            forall|k: int| 0 <= k < i ==> a@[k] == b@[k],
        decreases n - i,
    {
        if a[i] != b[i] {
            return false;
        }
        i = i + 1;
    }
    proof {
        assert(a@ =~= b@);
    }
    true
}

/// One trailing carriage return is removed from a line that was
/// terminated by a newline, as terminals using CRLF produce one.
pub open spec fn strip_cr(l: Seq<char>) -> Seq<char> {
    if l.len() > 0 && l[l.len() - 1] == '\r' {
        l.drop_last()
    } else {
        l
    }
}

/// Split the remaining text `s` into lines, with `cur` the content of the
/// line in progress.  A final unterminated fragment counts as a line only
/// if it is non-empty, and keeps any trailing carriage return.
pub open spec fn split_from(s: Seq<char>, cur: Seq<char>) -> Seq<Seq<char>>
    decreases s.len(),
{
    if s.len() == 0 {
        if cur.len() == 0 {
            Seq::empty()
        } else {
            seq![cur]
        }
    } else if s[0] == '\n' {
        seq![strip_cr(cur)] + split_from(s.drop_first(), Seq::empty())
    } else {
        split_from(s.drop_first(), cur.push(s[0]))
    }
}

/// The lines of a text, following the usual convention: separators are
/// `\n`, a `\r` directly before a separator is dropped, and a trailing
/// separator does not open an empty final line.
pub open spec fn lines_spec(s: Seq<char>) -> Seq<Seq<char>> {
    split_from(s, Seq::empty())
}

/// The half-open index ranges of the lines of `s`, in order.  Each range
/// `(lo, hi)` satisfies `s@.subrange(lo, hi) == lines_spec(s@)[k]`, so a
/// caller can cut the matching text back out of the surrounding string.
pub fn line_ranges(s: &Vec<char>) -> (r: Vec<(usize, usize)>)
    ensures
        r@.len() == lines_spec(s@).len(),
        forall|k: int|
            0 <= k < r@.len() ==> (#[trigger] r@[k]).0 <= r@[k].1 <= s@.len()
                && s@.subrange(r@[k].0 as int, r@[k].1 as int) == lines_spec(s@)[k],
{
    let n = s.len();
    let mut r: Vec<(usize, usize)> = Vec::new();
    let mut start: usize = 0;
    let mut i: usize = 0;
    let ghost mut done: Seq<Seq<char>> = Seq::empty();
    proof {
        assert(s@.skip(0) =~= s@);
        assert(s@.subrange(0, 0) =~= Seq::<char>::empty());
        assert(lines_spec(s@) == done + split_from(s@.skip(0), s@.subrange(0, 0)));
    }
    while i < n
        invariant
            n == s@.len(),
            start <= i <= n,
            r@.len() == done.len(),
            forall|k: int|
                0 <= k < r@.len() ==> (#[trigger] r@[k]).0 <= r@[k].1 <= s@.len()
                    && s@.subrange(r@[k].0 as int, r@[k].1 as int) == done[k],
            lines_spec(s@) == done + split_from(
                s@.skip(i as int),
                s@.subrange(start as int, i as int),
            ),
        decreases n - i,
    {
        let ghost cur = s@.subrange(start as int, i as int);
        proof {
            assert(s@.skip(i as int)[0] == s@[i as int]);
            assert(s@.skip(i as int).drop_first() =~= s@.skip(i as int + 1));
        }
        if s[i] == '\n' {
            let hi: usize = if i > start && s[i - 1] == '\r' {
                proof {
                    assert(cur[cur.len() - 1] == s@[i as int - 1]);
                    assert(cur.drop_last() =~= s@.subrange(start as int, i as int - 1));
                }
                i - 1
            } else {
                proof {
                    if cur.len() > 0 {
                        assert(cur[cur.len() - 1] == s@[i as int - 1]);
                    }
                }
                i
            };
            proof {
                assert(strip_cr(cur) == s@.subrange(start as int, hi as int));
                assert(split_from(s@.skip(i as int), cur) == seq![strip_cr(cur)] + split_from(
                    s@.skip(i as int + 1),
                    Seq::empty(),
                ));
                assert(done + (seq![strip_cr(cur)] + split_from(
                    s@.skip(i as int + 1),
                    Seq::empty(),
                )) =~= done.push(strip_cr(cur)) + split_from(s@.skip(i as int + 1), Seq::empty()));
                assert(s@.subrange(i as int + 1, i as int + 1) =~= Seq::<char>::empty());
            }
            r.push((start, hi));
            proof {
                done = done.push(strip_cr(cur));
            }
            start = i + 1;
            i = i + 1;
        } else {
            proof {
                assert(cur.push(s@[i as int]) =~= s@.subrange(start as int, i as int + 1));
            }
            i = i + 1;
        }
    }
    let ghost cur = s@.subrange(start as int, n as int);
    proof {
        assert(s@.skip(n as int) =~= Seq::<char>::empty());
    }
    if start < n {
        r.push((start, n));
        proof {
            assert(lines_spec(s@) =~= done.push(cur));
        }
    } else {
        proof {
            assert(lines_spec(s@) =~= done);
        }
    }
    r
}

/// Copy the characters of an index range out of a vector.
pub fn copy_range(s: &Vec<char>, lo: usize, hi: usize) -> (r: Vec<char>)
    requires
        lo <= hi <= s@.len(),
    ensures
        r@ == s@.subrange(lo as int, hi as int),
{
    let mut r: Vec<char> = Vec::new();
    let mut i: usize = lo;
    while i < hi
        invariant
            lo <= i <= hi <= s@.len(),
            r@ == s@.subrange(lo as int, i as int),
        decreases hi - i,
    {
        r.push(s[i]);
        i = i + 1;
        assert(r@ =~= s@.subrange(lo as int, i as int));
    }
    r
}

/// Materialise the lines of a text as character vectors.
pub fn lines_of(s: &Vec<char>) -> (r: Vec<Vec<char>>)
    ensures
        r.deep_view() == lines_spec(s@),
        r@.len() == lines_spec(s@).len(),
{
    let ranges = line_ranges(s);
    let mut r: Vec<Vec<char>> = Vec::new();
    let mut k: usize = 0;
    while k < ranges.len()
        invariant
            r@.len() == k <= ranges@.len(),
            ranges@.len() == lines_spec(s@).len(),
            forall|j: int|
                0 <= j < ranges@.len() ==> (#[trigger] ranges@[j]).0 <= ranges@[j].1 <= s@.len()
                    && s@.subrange(ranges@[j].0 as int, ranges@[j].1 as int) == lines_spec(s@)[j],
            forall|j: int| 0 <= j < k ==> r@[j]@ == lines_spec(s@)[j],
        decreases ranges@.len() - k,
    {
        let (lo, hi) = ranges[k];
        let piece = copy_range(s, lo, hi);
        r.push(piece);
        k = k + 1;
    }
    proof {
        assert forall|j: int| 0 <= j < r@.len() implies r.deep_view()[j] == lines_spec(s@)[j] by {
            assert(r@[j].deep_view() =~= r@[j]@);
        }
        assert(r.deep_view() =~= lines_spec(s@));
    }
    r
}

/// The lines of a text, each with surrounding blanks removed.
pub open spec fn trimmed_lines(s: Seq<char>) -> Seq<Seq<char>> {
    lines_spec(s).map_values(|l: Seq<char>| trim_spec(l))
}

/// Materialise the trimmed lines of a string.
pub fn trimmed_lines_of(s: &str) -> (r: Vec<Vec<char>>)
    ensures
        r.deep_view() == trimmed_lines(s@),
{
    let chars = to_chars(s);
    let lines = lines_of(&chars);
    let mut r: Vec<Vec<char>> = Vec::new();
    let mut k: usize = 0;
    while k < lines.len()
        invariant
            r@.len() == k <= lines@.len(),
            lines.deep_view() == lines_spec(s@),
            lines@.len() == lines_spec(s@).len(),
            forall|j: int| 0 <= j < k ==> r@[j]@ == trim_spec(lines_spec(s@)[j]),
        decreases lines@.len() - k,
    {
        proof {
            assert(lines.deep_view()[k as int] == lines_spec(s@)[k as int]);
            assert(lines@[k as int].deep_view() =~= lines@[k as int]@);
        }
        let t = trim_chars(&lines[k]);
        r.push(t);
        k = k + 1;
    }
    proof {
        assert forall|j: int| 0 <= j < r@.len() implies r.deep_view()[j] == trimmed_lines(s@)[j] by {
            assert(r@[j].deep_view() =~= r@[j]@);
        }
        assert(r.deep_view() =~= trimmed_lines(s@));
    }
    r
}

/// Equality of two vectors of character vectors, element by element.
pub fn line_vecs_eq(a: &Vec<Vec<char>>, b: &Vec<Vec<char>>) -> (r: bool)
    ensures
        r == (a.deep_view() == b.deep_view()),
{
    if a.len() != b.len() {
        proof {
            assert(a.deep_view().len() != b.deep_view().len());
        }
        return false;
    }
    let n = a.len();
    let mut i: usize = 0;
    while i < n
        invariant
            n == a@.len() == b@.len(),
            i <= n,
            forall|k: int| 0 <= k < i ==> a@[k]@ == b@[k]@,
        decreases n - i,
    {
        if !chars_eq(&a[i], &b[i]) {
            proof {
                assert(a@[i as int].deep_view() =~= a@[i as int]@);
                assert(b@[i as int].deep_view() =~= b@[i as int]@);
                assert(a.deep_view()[i as int] != b.deep_view()[i as int]);
            }
            return false;
        }
        i = i + 1;
    }
    proof {
        assert forall|k: int| 0 <= k < a@.len() implies a.deep_view()[k] == b.deep_view()[k] by {
            assert(a@[k].deep_view() =~= a@[k]@);
            assert(b@[k].deep_view() =~= b@[k]@);
        }
        assert(a.deep_view() =~= b.deep_view());
    }
    true
}

/// `pat` occurs in `s` starting at index `i`.
pub open spec fn match_at(s: Seq<char>, pat: Seq<char>, i: int) -> bool {
    0 <= i && i + pat.len() <= s.len() && s.subrange(i, i + pat.len()) == pat
}

/// `pat` occurs somewhere in `s` at or after index `lo`.
pub open spec fn contains_from(s: Seq<char>, pat: Seq<char>, lo: int) -> bool {
    exists|i: int| i >= lo && match_at(s, pat, i)
}

/// `pat` occurs somewhere in `s`.
pub open spec fn contains_seq(s: Seq<char>, pat: Seq<char>) -> bool {
    contains_from(s, pat, 0)
}

/// Decide whether `pat` matches at position `i`.
pub fn check_at(s: &Vec<char>, pat: &Vec<char>, i: usize) -> (r: bool)
    requires
        i + pat@.len() <= s@.len(),
    ensures
        r == match_at(s@, pat@, i as int),
{
    let n = s.len();
    let m = pat.len();
    let mut j: usize = 0;
    while j < m
        invariant
            n == s@.len(),
            m == pat@.len(),
            i + m <= n,
            j <= m,
            forall|k: int| 0 <= k < j ==> s@[i + k] == pat@[k],
        decreases m - j,
    {
        if s[i + j] != pat[j] {
            proof {
                assert(s@.subrange(i as int, i + pat@.len())[j as int] != pat@[j as int]);
            }
            return false;
        }
        j = j + 1;
    }
    proof {
        assert(s@.subrange(i as int, i + pat@.len()) =~= pat@);
    }
    true
}

/// Leftmost occurrence of `pat` in `s` at or after `lo`.
pub fn find_from(s: &Vec<char>, pat: &Vec<char>, lo: usize) -> (r: Option<usize>)
    ensures
        match r {
            Some(i) => lo <= i && match_at(s@, pat@, i as int) && forall|j: int|
                lo <= j < i ==> !match_at(s@, pat@, j),
            None => !contains_from(s@, pat@, lo as int),
        },
{
    let n = s.len();
    let m = pat.len();
    if m == 0 {
        if lo <= n {
            proof {
                assert(s@.subrange(lo as int, lo as int) =~= pat@);
            }
            return Some(lo);
        } else {
            return None;
        }
    }
    if m > n || lo > n - m {
        proof {
            assert forall|j: int| j >= lo implies !match_at(s@, pat@, j) by {};
        }
        return None;
    }
    let mut i: usize = lo;
    while i <= n - m
        invariant
            n == s@.len(),
            m == pat@.len(),
            1 <= m <= n,
            lo <= i,
            i <= n - m + 1,
            forall|j: int| lo <= j < i ==> !match_at(s@, pat@, j),
        decreases n - i,
    {
        if check_at(s, pat, i) {
            return Some(i);
        }
        i = i + 1;
    }
    proof {
        assert forall|j: int| j >= lo implies !match_at(s@, pat@, j) by {};
    }
    None
}

/// `pat` occurs somewhere in `s`.
pub fn contains_chars(s: &Vec<char>, pat: &Vec<char>) -> (r: bool)
    ensures
        r == contains_seq(s@, pat@),
{
    match find_from(s, pat, 0) {
        Some(_) => true,
        None => false,
    }
}

/// `pat` occurs somewhere in `s`, up to ASCII case.
pub fn contains_chars_ci(s: &Vec<char>, pat: &Vec<char>) -> (r: bool)
    ensures
        r == contains_ci(s@, pat@),
{
    match find_from_ci(s, pat, 0) {
        Some(_) => true,
        None => false,
    }
}

/// Rightmost occurrence of `pat` in `s`.
pub fn rfind_chars(s: &Vec<char>, pat: &Vec<char>) -> (r: Option<usize>)
    ensures
        match r {
            Some(i) => match_at(s@, pat@, i as int) && forall|j: int|
                j > i ==> !match_at(s@, pat@, j),
            None => forall|j: int| !match_at(s@, pat@, j),
        },
{
    let n = s.len();
    let m = pat.len();
    if m > n {
        return None;
    }
    if m == 0 {
        proof {
            assert(s@.subrange(n as int, n as int) =~= pat@);
        }
        return Some(n);
    }
    let mut k: usize = n - m;
    loop
        invariant
            n == s@.len(),
            m == pat@.len(),
            1 <= m <= n,
            k <= n - m,
            forall|j: int| j > k ==> !match_at(s@, pat@, j),
        decreases k + 1,
    {
        if check_at(s, pat, k) {
            return Some(k);
        }
        if k == 0 {
            return None;
        }
        k = k - 1;
    }
}

/// A character code, with an upper-case ASCII letter folded to lower case.
pub open spec fn fold_code(c: char) -> int {
    let u = c as u32;
    if 65 <= u && u <= 90 {
        u + 32
    } else {
        u as int
    }
}

/// Two characters are equal up to ASCII case.
pub open spec fn ci_eq(a: char, b: char) -> bool {
    fold_code(a) == fold_code(b)
}

/// Executable mirror of [`ci_eq`].
pub fn ci_eq_char(a: char, b: char) -> (r: bool)
    ensures
        r == ci_eq(a, b),
{
    let au = a as u32;
    let bu = b as u32;
    let af = if 65 <= au && au <= 90 {
        au + 32
    } else {
        au
    };
    let bf = if 65 <= bu && bu <= 90 {
        bu + 32
    } else {
        bu
    };
    af == bf
}

/// `pat` occurs at index `i` of `s`, up to ASCII case.
pub open spec fn match_at_ci(s: Seq<char>, pat: Seq<char>, i: int) -> bool {
    0 <= i && i + pat.len() <= s.len() && forall|k: int|
        0 <= k < pat.len() ==> ci_eq(s[i + k], pat[k])
}

/// `pat` occurs in `s` at or after `lo`, up to ASCII case.
pub open spec fn contains_from_ci(s: Seq<char>, pat: Seq<char>, lo: int) -> bool {
    exists|i: int| i >= lo && match_at_ci(s, pat, i)
}

/// `pat` occurs in `s`, up to ASCII case.
pub open spec fn contains_ci(s: Seq<char>, pat: Seq<char>) -> bool {
    contains_from_ci(s, pat, 0)
}

/// Decide a case-insensitive match at position `i`.
pub fn check_at_ci(s: &Vec<char>, pat: &Vec<char>, i: usize) -> (r: bool)
    requires
        i + pat@.len() <= s@.len(),
    ensures
        r == match_at_ci(s@, pat@, i as int),
{
    let n = s.len();
    let m = pat.len();
    let mut j: usize = 0;
    while j < m
        invariant
            n == s@.len(),
            m == pat@.len(),
            i + m <= n,
            j <= m,
            forall|k: int| 0 <= k < j ==> ci_eq(s@[i + k], pat@[k]),
        decreases m - j,
    {
        if !ci_eq_char(s[i + j], pat[j]) {
            return false;
        }
        j = j + 1;
    }
    true
}

/// Leftmost case-insensitive occurrence of `pat` at or after `lo`.
pub fn find_from_ci(s: &Vec<char>, pat: &Vec<char>, lo: usize) -> (r: Option<usize>)
    ensures
        match r {
            Some(i) => lo <= i && match_at_ci(s@, pat@, i as int) && forall|j: int|
                lo <= j < i ==> !match_at_ci(s@, pat@, j),
            None => !contains_from_ci(s@, pat@, lo as int),
        },
{
    let n = s.len();
    let m = pat.len();
    if m == 0 {
        if lo <= n {
            return Some(lo);
        } else {
            return None;
        }
    }
    if m > n || lo > n - m {
        proof {
            assert forall|j: int| j >= lo implies !match_at_ci(s@, pat@, j) by {};
        }
        return None;
    }
    let mut i: usize = lo;
    while i <= n - m
        invariant
            n == s@.len(),
            m == pat@.len(),
            1 <= m <= n,
            lo <= i,
            i <= n - m + 1,
            forall|j: int| lo <= j < i ==> !match_at_ci(s@, pat@, j),
        decreases n - i,
    {
        if check_at_ci(s, pat, i) {
            return Some(i);
        }
        i = i + 1;
    }
    proof {
        assert forall|j: int| j >= lo implies !match_at_ci(s@, pat@, j) by {};
    }
    None
}

/// `s` contains a case-insensitive occurrence of `p1` followed, at or after
/// its end, by one of `p2`.
pub open spec fn contains_then_ci(s: Seq<char>, p1: Seq<char>, p2: Seq<char>) -> bool {
    exists|i: int, j: int|
        match_at_ci(s, p1, i) && match_at_ci(s, p2, j) && j >= i + p1.len()
}

/// Decide [`contains_then_ci`].
pub fn chars_contain_then_ci(s: &Vec<char>, p1: &Vec<char>, p2: &Vec<char>) -> (r: bool)
    ensures
        r == contains_then_ci(s@, p1@, p2@),
{
    let n = s.len();
    match find_from_ci(s, p1, 0) {
        Some(i0) => {
            match find_from_ci(s, p2, i0 + p1.len()) {
                Some(j) => {
                    assert(contains_then_ci(s@, p1@, p2@));
                    true
                },
                None => {
                    proof {
                        if contains_then_ci(s@, p1@, p2@) {
                            let (i, j) = choose|i: int, j: int|
                                match_at_ci(s@, p1@, i) && match_at_ci(s@, p2@, j) && j >= i
                                    + p1@.len();
                            assert(i >= i0);
                            assert(j >= i0 + p1@.len());
                            assert(contains_from_ci(s@, p2@, i0 + p1@.len()));
                        }
                    }
                    false
                },
            }
        },
        None => {
            proof {
                if contains_then_ci(s@, p1@, p2@) {
                    let (i, j) = choose|i: int, j: int|
                        match_at_ci(s@, p1@, i) && match_at_ci(s@, p2@, j) && j >= i + p1@.len();
                    assert(contains_from_ci(s@, p1@, 0));
                }
            }
            false
        },
    }
}

/// Whole sequences equal up to ASCII case.
pub open spec fn seq_ci_eq(a: Seq<char>, b: Seq<char>) -> bool {
    a.len() == b.len() && forall|k: int| 0 <= k < a.len() ==> ci_eq(a[k], b[k])
}

/// Decide [`seq_ci_eq`].
pub fn chars_ci_eq(a: &Vec<char>, b: &Vec<char>) -> (r: bool)
    ensures
        r == seq_ci_eq(a@, b@),
{
    if a.len() != b.len() {
        return false;
    }
    let n = a.len();
    let mut i: usize = 0;
    while i < n
        invariant
            n == a@.len() == b@.len(),
            i <= n,
            forall|k: int| 0 <= k < i ==> ci_eq(a@[k], b@[k]),
        decreases n - i,
    {
        if !ci_eq_char(a[i], b[i]) {
            return false;
        }
        i = i + 1;
    }
    true
}

/// An index range of `s` equals `pat` exactly.
pub fn range_eq(s: &Vec<char>, lo: usize, hi: usize, pat: &Vec<char>) -> (r: bool)
    requires
        lo <= hi <= s@.len(),
    ensures
        r == (s@.subrange(lo as int, hi as int) == pat@),
{
    if hi - lo != pat.len() {
        return false;
    }
    let m = pat.len();
    let mut j: usize = 0;
    while j < m
        invariant
            m == pat@.len(),
            lo <= hi <= s@.len(),
            hi - lo == m,
            j <= m,
            forall|k: int| 0 <= k < j ==> s@[lo + k] == pat@[k],
        decreases m - j,
    {
        if s[lo + j] != pat[j] {
            proof {
                assert(s@.subrange(lo as int, hi as int)[j as int] != pat@[j as int]);
            }
            return false;
        }
        j = j + 1;
    }
    proof {
        assert(s@.subrange(lo as int, hi as int) =~= pat@);
    }
    true
}

/// An ASCII decimal digit.
pub open spec fn is_digit(c: char) -> bool {
    48 <= c as u32 <= 57
}

/// Executable mirror of [`is_digit`].
pub fn digit_char(c: char) -> (r: bool)
    ensures
        r == is_digit(c),
{
    let u = c as u32;
    48 <= u && u <= 57
}

/// The numeric value of a digit character.
pub open spec fn digit_val(c: char) -> int {
    c as u32 - 48
}

/// The value of a digit string, most significant digit first.
pub open spec fn dec_val(ds: Seq<char>) -> int
    decreases ds.len(),
{
    if ds.len() == 0 {
        0
    } else {
        dec_val(ds.drop_last()) * 10 + digit_val(ds.last())
    }
}

/// The value of a digit string is never negative.
pub proof fn lemma_dec_val_nonneg(ds: Seq<char>)
    requires
        forall|k: int| 0 <= k < ds.len() ==> is_digit(#[trigger] ds[k]),
    ensures
        dec_val(ds) >= 0,
    decreases ds.len(),
{
    if ds.len() > 0 {
        lemma_dec_val_nonneg(ds.drop_last());
    }
}

/// Extending a digit string never lowers its value.
pub proof fn lemma_dec_val_prefix(ds: Seq<char>, j: int)
    requires
        forall|k: int| 0 <= k < ds.len() ==> is_digit(#[trigger] ds[k]),
        0 <= j <= ds.len(),
    ensures
        dec_val(ds) >= dec_val(ds.take(j)),
    decreases ds.len() - j,
{
    if j < ds.len() {
        lemma_dec_val_prefix(ds, j + 1);
        let p = ds.take(j + 1);
        assert(p.drop_last() =~= ds.take(j));
        assert(forall|k: int| 0 <= k < p.len() ==> is_digit(#[trigger] p[k]));
        lemma_dec_val_nonneg(ds.take(j));
    } else {
        assert(ds.take(j) =~= ds);
    }
}

/// The end of the run of digits starting at `i`.
pub open spec fn digits_end(s: Seq<char>, i: int) -> int
    decreases s.len() - i,
{
    if 0 <= i < s.len() && is_digit(s[i]) {
        digits_end(s, i + 1)
    } else {
        i
    }
}

pub proof fn lemma_digits_end(s: Seq<char>, i: int)
    requires
        0 <= i <= s.len(),
    ensures
        i <= digits_end(s, i) <= s.len(),
        forall|k: int| i <= k < digits_end(s, i) ==> is_digit(#[trigger] s[k]),
        digits_end(s, i) < s.len() ==> !is_digit(s[digits_end(s, i)]),
    decreases s.len() - i,
{
    if i < s.len() && is_digit(s[i]) {
        lemma_digits_end(s, i + 1);
    }
}

/// Characterise a digit run directly: all digits up to `k`, then a
/// non-digit (or the end), means the run ends at `k`.
pub proof fn lemma_digits_end_segment(s: Seq<char>, i: int, k: int)
    requires
        0 <= i <= k <= s.len(),
        forall|j: int| i <= j < k ==> is_digit(#[trigger] s[j]),
        k == s.len() || !is_digit(s[k]),
    ensures
        digits_end(s, i) == k,
    decreases k - i,
{
    if i < k {
        lemma_digits_end_segment(s, i + 1, k);
    }
}

/// Executable mirror of [`digits_end`].
pub fn digits_end_of(s: &Vec<char>, i: usize) -> (r: usize)
    requires
        i <= s@.len(),
    ensures
        r == digits_end(s@, i as int),
        i <= r <= s@.len(),
{
    let n = s.len();
    let mut j: usize = i;
    while j < n && digit_char(s[j])
        invariant
            n == s@.len(),
            i <= j <= n,
            digits_end(s@, i as int) == digits_end(s@, j as int),
        decreases n - j,
    {
        j = j + 1;
    }
    j
}

/// The end of the run of blanks starting at `i`.
pub open spec fn blank_end(s: Seq<char>, i: int) -> int
    decreases s.len() - i,
{
    if 0 <= i < s.len() && is_blank(s[i]) {
        blank_end(s, i + 1)
    } else {
        i
    }
}

pub proof fn lemma_blank_end(s: Seq<char>, i: int)
    requires
        0 <= i <= s.len(),
    ensures
        i <= blank_end(s, i) <= s.len(),
        blank_end(s, i) < s.len() ==> !is_blank(s[blank_end(s, i)]),
    decreases s.len() - i,
{
    if i < s.len() && is_blank(s[i]) {
        lemma_blank_end(s, i + 1);
    }
}

/// Executable mirror of [`blank_end`].
pub fn blank_end_of(s: &Vec<char>, i: usize) -> (r: usize)
    requires
        i <= s@.len(),
    ensures
        r == blank_end(s@, i as int),
        i <= r <= s@.len(),
{
    let n = s.len();
    let mut j: usize = i;
    while j < n && blank_char(s[j])
        invariant
            n == s@.len(),
            i <= j <= n,
            blank_end(s@, i as int) == blank_end(s@, j as int),
        decreases n - j,
    {
        j = j + 1;
    }
    j
}

/// The value of the digit range `[lo, hi)` of `s`, if it fits in `u64`.
pub fn dec_value_range(s: &Vec<char>, lo: usize, hi: usize) -> (r: Option<u64>)
    requires
        lo <= hi <= s@.len(),
        forall|k: int| lo <= k < hi ==> is_digit(#[trigger] s@[k]),
    ensures
        match r {
            Some(v) => v == dec_val(s@.subrange(lo as int, hi as int)),
            None => dec_val(s@.subrange(lo as int, hi as int)) > u64::MAX,
        },
{
    let ghost whole = s@.subrange(lo as int, hi as int);
    proof {
        assert(forall|k: int| 0 <= k < whole.len() ==> is_digit(#[trigger] whole[k]));
    }
    let mut acc: u64 = 0;
    let mut i: usize = lo;
    proof {
        assert(whole.take(0) =~= Seq::<char>::empty());
    }
    while i < hi
        invariant
            lo <= i <= hi <= s@.len(),
            whole == s@.subrange(lo as int, hi as int),
            forall|k: int| lo <= k < hi ==> is_digit(#[trigger] s@[k]),
            forall|k: int| 0 <= k < whole.len() ==> is_digit(#[trigger] whole[k]),
            acc == dec_val(whole.take(i - lo)),
        decreases hi - i,
    {
        let c = s[i];
        let d: u64 = (c as u32 / 1) as u64 - 48;
        proof {
            assert(whole[i - lo] == s@[i as int]);
            assert(whole.take(i - lo + 1).drop_last() =~= whole.take(i - lo));
            assert(whole.take(i - lo + 1).last() == s@[i as int]);
        }
        if acc > (u64::MAX - d) / 10 {
            proof {
                lemma_dec_val_nonneg(whole.take(i - lo));
                assert(dec_val(whole.take(i - lo + 1)) > u64::MAX) by {
                    assert(acc * 10 + d > u64::MAX) by (nonlinear_arith)
                        requires
                            acc > (u64::MAX - d) / 10,
                            d <= 9,
                            acc >= 0,
                    ;
                };
                lemma_dec_val_prefix(whole, i - lo + 1);
            }
            return None;
        }
        proof {
            assert(acc * 10 + d <= u64::MAX) by (nonlinear_arith)
                requires
                    acc <= (u64::MAX - d) / 10,
                    d <= 9,
                    acc >= 0,
            ;
        }
        acc = acc * 10 + d;
        i = i + 1;
    }
    proof {
        assert(whole.take(hi - lo) =~= whole);
    }
    Some(acc)
}

/// The digit character for a value below ten.
pub open spec fn digit_of(d: int) -> char {
    if d == 0 {
        '0'
    } else if d == 1 {
        '1'
    } else if d == 2 {
        '2'
    } else if d == 3 {
        '3'
    } else if d == 4 {
        '4'
    } else if d == 5 {
        '5'
    } else if d == 6 {
        '6'
    } else if d == 7 {
        '7'
    } else if d == 8 {
        '8'
    } else {
        '9'
    }
}

/// The decimal rendering of a non-negative number.
pub open spec fn dec_str(n: int) -> Seq<char>
    decreases n,
{
    if n < 10 {
        seq![digit_of(n)]
    } else {
        dec_str(n / 10).push(digit_of(n % 10))
    }
}

/// A decimal rendering holds digits only, and reading it back yields the
/// number: printing and parsing are inverse on every non-negative value.
pub proof fn lemma_dec_round_trip(n: int)
    requires
        0 <= n,
    ensures
        forall|k: int| 0 <= k < dec_str(n).len() ==> is_digit(#[trigger] dec_str(n)[k]),
        dec_val(dec_str(n)) == n,
    decreases n,
{
    if n < 10 {
        assert(dec_str(n) == seq![digit_of(n)]);
        assert(dec_str(n).drop_last() =~= Seq::<char>::empty());
        assert(dec_val(Seq::<char>::empty()) == 0);
        assert(dec_str(n).last() == digit_of(n));
        assert(dec_val(dec_str(n)) == dec_val(dec_str(n).drop_last()) * 10 + digit_val(
            dec_str(n).last(),
        ));
        assert(digit_val(digit_of(n)) == n);
        assert(is_digit(digit_of(n)));
        assert(forall|k: int| 0 <= k < dec_str(n).len() ==> #[trigger] dec_str(n)[k] == digit_of(n));
    } else {
        lemma_dec_round_trip(n / 10);
        assert(dec_str(n) == dec_str(n / 10).push(digit_of(n % 10)));
        assert(dec_str(n).drop_last() =~= dec_str(n / 10));
        assert(dec_str(n).last() == digit_of(n % 10));
        assert(digit_val(digit_of(n % 10)) == n % 10);
        assert forall|k: int| 0 <= k < dec_str(n).len() implies is_digit(
            #[trigger] dec_str(n)[k],
        ) by {
            if k < dec_str(n).len() - 1 {
                assert(dec_str(n)[k] == dec_str(n / 10)[k]);
            }
        }
    }
}

fn digit_str(d: u64) -> (r: &'static str)
    requires
        d < 10,
    ensures
        r@ == seq![digit_of(d as int)],
{
    let r = match d {
        0 => "0",
        1 => "1",
        2 => "2",
        3 => "3",
        4 => "4",
        5 => "5",
        6 => "6",
        7 => "7",
        8 => "8",
        _ => "9",
    };
    proof {
        reveal_strlit("0");
        reveal_strlit("1");
        reveal_strlit("2");
        reveal_strlit("3");
        reveal_strlit("4");
        reveal_strlit("5");
        reveal_strlit("6");
        reveal_strlit("7");
        reveal_strlit("8");
        reveal_strlit("9");
        assert(r@ =~= seq![digit_of(d as int)]);
    }
    r
}

/// Render a number in decimal.
pub fn u64_to_string(n: u64) -> (r: String)
    ensures
        r@ == dec_str(n as int),
    decreases n,
{
    if n < 10 {
        String::from_str(digit_str(n))
    } else {
        let mut s = u64_to_string(n / 10);
        s.append(digit_str(n % 10));
        proof {
            assert(s@ =~= dec_str(n as int));
        }
        s
    }
}

} // verus!
