//! Character-level helpers shared by the parsers of this crate.
//!
//! Strings are handled as sequences of characters. The executable functions
//! work on a `Vec<char>` and a half-open index range into it, so that
//! trimming and splitting never copy; their contracts speak of the
//! corresponding subrange of the vector's view.

use vstd::prelude::*;

verus! {

/// Whether a character beyond ASCII has the Unicode `White_Space` property,
/// as `char::is_whitespace` reports it.
pub uninterp spec fn wide_white_space(c: char) -> bool;

/// Whether `c` is white space. Of the ASCII characters these are the space
/// and the five controls from the tabulator to the carriage return; beyond
/// ASCII it is what `char::is_whitespace` reports.
pub open spec fn white_space(c: char) -> bool {
    if c <= '\u{7f}' {
        c == ' ' || ('\t' <= c && c <= '\r')
    } else {
        wide_white_space(c)
    }
}

/// `char::is_whitespace` tells whether a character has the `White_Space`
/// property of Unicode. Within ASCII the property holds of the space and of
/// the controls U+0009 to U+000D and of nothing else, which is stated; the
/// characters beyond ASCII that have it are not spelled out, only named.
pub assume_specification[ char::is_whitespace ](c: char) -> (r: bool)
    ensures
        r == white_space(c),
        c > '\u{7f}' ==> r == wide_white_space(c),
;

/// `String::push` appends one character to the end of the string.
pub assume_specification[ String::push ](s: &mut String, c: char)
    ensures
        final(s)@ == old(s)@.push(c),
;

/// `String::push_str` appends a string slice to the end of the string.
pub assume_specification[ String::push_str ](s: &mut String, other: &str)
    ensures
        final(s)@ == old(s)@ + other@,
;

/// `str`'s `eq`, which `==` on string slices calls, holds exactly of slices
/// with the same characters.
pub assume_specification[ <str as PartialEq>::eq ](a: &str, b: &str) -> (r: bool)
    ensures
        r == (a@ == b@),
;

/// Whether `a` and `b` hold the same characters.
pub fn same_text(a: &str, b: &str) -> (r: bool)
    ensures
        r == (a@ == b@),
{
    *a == *b
}

/// The lower-case form of an ASCII letter, any other character unchanged.
pub open spec fn ascii_lower(c: char) -> char {
    if 'A' <= c && c <= 'Z' {
        ((c as u8) + 32) as char
    } else {
        c
    }
}

/// Whether two strings are equal up to the case of their ASCII letters.
pub open spec fn eq_ignore_ascii_case(a: Seq<char>, b: Seq<char>) -> bool {
    a.len() == b.len() && forall|i: int|
        0 <= i < a.len() ==> ascii_lower(#[trigger] a[i]) == ascii_lower(b[i])
}

/// `s` without its leading white space.
pub open spec fn trim_start(s: Seq<char>) -> Seq<char>
    decreases s.len(),
{
    if s.len() > 0 && white_space(s[0]) {
        trim_start(s.drop_first())
    } else {
        s
    }
}

/// `s` without its trailing white space.
pub open spec fn trim_end(s: Seq<char>) -> Seq<char>
    decreases s.len(),
{
    if s.len() > 0 && white_space(s.last()) {
        trim_end(s.drop_last())
    } else {
        s
    }
}

/// `s` without leading and trailing white space.
pub open spec fn trim(s: Seq<char>) -> Seq<char> {
    trim_end(trim_start(s))
}

/// `s` after removing the prefix `p` as often as it occurs at the front.
pub open spec fn strip_leading(s: Seq<char>, p: Seq<char>) -> Seq<char>
    decreases s.len(),
{
    if p.len() > 0 && p.is_prefix_of(s) {
        strip_leading(s.skip(p.len() as int), p)
    } else {
        s
    }
}

/// Whether `p` occurs in `s` starting at index `i`.
pub open spec fn occurs_at(s: Seq<char>, p: Seq<char>, i: int) -> bool {
    0 <= i && i + p.len() <= s.len() && s.subrange(i, i + p.len()) == p
}

/// The least index at or after `from` at which `p` occurs in `s`.
pub open spec fn find_from(s: Seq<char>, p: Seq<char>, from: int) -> Option<int>
    decreases s.len() - from + 1,
{
    if from < 0 || from + p.len() > s.len() {
        None
    } else if occurs_at(s, p, from) {
        Some(from)
    } else {
        find_from(s, p, from + 1)
    }
}

/// The least index at which `p` occurs in `s`.
pub open spec fn find(s: Seq<char>, p: Seq<char>) -> Option<int> {
    find_from(s, p, 0)
}

/// `find_from` returns the first occurrence at or after `from`, and `None`
/// exactly when there is none.
pub proof fn lemma_find_from_is_first(s: Seq<char>, p: Seq<char>, from: int)
    requires
        0 <= from,
    ensures
        match find_from(s, p, from) {
            Some(i) => from <= i && occurs_at(s, p, i) && forall|j: int|
                from <= j < i ==> !occurs_at(s, p, j),
            None => forall|j: int| from <= j ==> !occurs_at(s, p, j),
        },
    decreases s.len() - from + 1,
{
    if from + p.len() > s.len() {
    } else if occurs_at(s, p, from) {
    } else {
        lemma_find_from_is_first(s, p, from + 1);
    }
}

/// The lower-case form of an ASCII letter, any other character unchanged.
pub fn to_ascii_lower(c: char) -> (r: char)
    ensures
        r == ascii_lower(c),
{
    if 'A' <= c && c <= 'Z' {
        ((c as u8) + 32) as char
    } else {
        c
    }
}

/// The characters of `s`, in order.
pub fn chars_of(s: &str) -> (v: Vec<char>)
    ensures
        v@ == s@,
{
    let mut v: Vec<char> = Vec::new();
    for c in it: s.chars()
        invariant
            v@ == it.seq().take(it.index() as int),
            it.seq() == s@,
    {
        v.push(c);
    }
    v
}

/// The string made of the characters `v[lo..hi]`.
pub fn string_of(v: &Vec<char>, lo: usize, hi: usize) -> (s: String)
    requires
        lo <= hi <= v.len(),
    ensures
        s@ == v@.subrange(lo as int, hi as int),
{
    let mut s = String::new();
    let mut i: usize = lo;
    while i < hi
        invariant
            lo <= i <= hi <= v.len(),
            s@ == v@.subrange(lo as int, i as int),
        decreases hi - i,
    {
        s.push(v[i]);
        i += 1;
    }
    s
}

/// The bounds of `v[lo..hi]` once leading and trailing white space is cut off.
pub fn trim_bounds(v: &Vec<char>, lo: usize, hi: usize) -> (r: (usize, usize))
    requires
        lo <= hi <= v.len(),
    ensures
        lo <= r.0 <= r.1 <= hi,
        v@.subrange(r.0 as int, r.1 as int) == trim(v@.subrange(lo as int, hi as int)),
{
    let mut i: usize = lo;
    while i < hi && v[i].is_whitespace()
        invariant
            lo <= i <= hi <= v.len(),
            trim_start(v@.subrange(lo as int, hi as int)) == trim_start(
                v@.subrange(i as int, hi as int),
            ),
        decreases hi - i,
    {
        assert(v@.subrange(i as int, hi as int).drop_first() == v@.subrange(
            i as int + 1,
            hi as int,
        ));
        i += 1;
    }
    let mut j: usize = hi;
    while i < j && v[j - 1].is_whitespace()
        invariant
            i <= j <= hi <= v.len(),
            trim_end(v@.subrange(i as int, hi as int)) == trim_end(
                v@.subrange(i as int, j as int),
            ),
        decreases j - i,
    {
        assert(v@.subrange(i as int, j as int).drop_last() == v@.subrange(
            i as int,
            j as int - 1,
        ));
        j -= 1;
    }
    (i, j)
}

/// Whether `v[lo..hi]` begins with `p`.
pub fn starts_with(v: &Vec<char>, lo: usize, hi: usize, p: &Vec<char>) -> (b: bool)
    requires
        lo <= hi <= v.len(),
    ensures
        b == p@.is_prefix_of(v@.subrange(lo as int, hi as int)),
{
    if p.len() > hi - lo {
        return false;
    }
    let mut k: usize = 0;
    while k < p.len()
        invariant
            lo <= hi <= v.len(),
            k <= p.len() <= hi - lo,
            forall|t: int| 0 <= t < k ==> p@[t] == v@[lo + t],
        decreases p.len() - k,
    {
        if p[k] != v[lo + k] {
            assert(v@.subrange(lo as int, hi as int).subrange(0, p@.len() as int)[k as int]
                != p@[k as int]);
            return false;
        }
        k += 1;
    }
    assert(p@ =~= v@.subrange(lo as int, hi as int).subrange(0, p@.len() as int));
    true
}

/// Whether `v[lo..hi]` is exactly `p`.
pub fn range_equals(v: &Vec<char>, lo: usize, hi: usize, p: &Vec<char>) -> (b: bool)
    requires
        lo <= hi <= v.len(),
    ensures
        b == (v@.subrange(lo as int, hi as int) == p@),
{
    if p.len() != hi - lo {
        return false;
    }
    let b = starts_with(v, lo, hi, p);
    assert(v@.subrange(lo as int, hi as int).subrange(0, p@.len() as int) == v@.subrange(
        lo as int,
        hi as int,
    ));
    b
}

/// The start of `v[lo..hi]` once every leading repetition of `p` is removed.
pub fn strip_leading_bound(v: &Vec<char>, lo: usize, hi: usize, p: &Vec<char>) -> (r: usize)
    requires
        lo <= hi <= v.len(),
    ensures
        lo <= r <= hi,
        v@.subrange(r as int, hi as int) == strip_leading(v@.subrange(lo as int, hi as int), p@),
{
    let mut i: usize = lo;
    if p.len() == 0 {
        return i;
    }
    while starts_with(v, i, hi, p)
        invariant
            lo <= i <= hi <= v.len(),
            p.len() > 0,
            strip_leading(v@.subrange(lo as int, hi as int), p@) == strip_leading(
                v@.subrange(i as int, hi as int),
                p@,
            ),
        decreases hi - i,
    {
        assert(v@.subrange(i as int, hi as int).skip(p@.len() as int) == v@.subrange(
            i as int + p@.len(),
            hi as int,
        ));
        i += p.len();
    }
    i
}

/// The index, counted from `lo`, of the first occurrence of `p` in `v[lo..hi]`.
pub fn find_in(v: &Vec<char>, lo: usize, hi: usize, p: &Vec<char>) -> (r: Option<usize>)
    requires
        lo <= hi <= v.len(),
    ensures
        match r {
            Some(i) => find(v@.subrange(lo as int, hi as int), p@) == Some(i as int) && i
                + p.len() <= hi - lo,
            None => find(v@.subrange(lo as int, hi as int), p@) is None,
        },
{
    let ghost s = v@.subrange(lo as int, hi as int);
    if p.len() > hi - lo {
        return None;
    }
    let last: usize = hi - lo - p.len();
    let mut i: usize = 0;
    while i <= last
        invariant
            lo <= hi <= v.len(),
            p.len() <= hi - lo,
            last == hi - lo - p.len(),
            i <= last + 1,
            s == v@.subrange(lo as int, hi as int),
            find(s, p@) == find_from(s, p@, i as int),
        decreases last + 1 - i,
    {
        let b = starts_with(v, lo + i, hi, p);
        proof {
            let tail = v@.subrange(lo + i, hi as int);
            assert(tail.subrange(0, p@.len() as int) == s.subrange(i as int, i + p@.len()));
        }
        if b {
            return Some(i);
        }
        i += 1;
    }
    None
}

} // verus!
