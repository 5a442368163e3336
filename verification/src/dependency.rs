//! Parsing of one dependency declaration of a release.
//!
//! A declaration names a package and, optionally, a minimum version:
//! `some-mod`, `some-mod >= 1.0.0`, `some-mod = 1.0.0`. It may carry a marker
//! in front: `!` or `(!)` for an incompatibility, `?` or `(?)` for an optional
//! dependency, `~` for one that does not affect the load order. The platform
//! itself appears as the pseudo-package `base`.
//!
//! Parsing yields the name and the minimum version of a dependency that has
//! to be installed, and nothing for a declaration that asks for no install.

use crate::text::{
    ascii_lower, chars_of, eq_ignore_ascii_case, find, find_in, range_equals, starts_with,
    string_of, strip_leading, strip_leading_bound, to_ascii_lower, trim, trim_bounds,
};
use vstd::prelude::*;
use vstd::string::StringExecFns;

verus! {

/// Whether a trimmed declaration is dropped at first sight: the platform
/// package, or one that begins with a marker for an optional or incompatible
/// package.
pub open spec fn is_skipped_form(dep: Seq<char>) -> bool {
    ||| dep == "base"@
    ||| "base "@.is_prefix_of(dep)
    ||| "!"@.is_prefix_of(dep)
    ||| "?"@.is_prefix_of(dep)
    ||| "(?)"@.is_prefix_of(dep)
    ||| "(!)"@.is_prefix_of(dep)
}

/// `s` without the leading repetitions of `marker` and the white space
/// around what is left, where `s` begins with `marker`; `s` itself otherwise.
pub open spec fn strip_marker(s: Seq<char>, marker: Seq<char>) -> Seq<char> {
    if marker.is_prefix_of(s) {
        trim(strip_leading(s, marker))
    } else {
        s
    }
}

/// A trimmed declaration without its leading tildes and, after those, its
/// leading markers, each kind removed in turn.
pub open spec fn strip_markers(dep: Seq<char>) -> Seq<char> {
    let after_tilde = trim(strip_leading(dep, "~"@));
    let after_hidden_optional = strip_marker(after_tilde, "(?)"@);
    let after_hidden_incompatible = strip_marker(after_hidden_optional, "(!)"@);
    let after_spaced_optional = strip_marker(after_hidden_incompatible, "? "@);
    strip_marker(after_spaced_optional, "?"@)
}

/// Name and minimum version of a declaration without markers: cut at the
/// first `>=`, else at the first `=`; with neither, the whole is the name and
/// the version is `0.0.1`.
pub open spec fn split_requirement(clean: Seq<char>) -> (Seq<char>, Seq<char>) {
    match find(clean, ">="@) {
        Some(i) => (trim(clean.take(i)), trim(clean.skip(i + 2))),
        None => match find(clean, "="@) {
            Some(i) => (trim(clean.take(i)), trim(clean.skip(i + 1))),
            None => (clean, "0.0.1"@),
        },
    }
}

/// What a raw declaration asks to install: the package's name and minimum
/// version, or nothing.
pub open spec fn dependency_of(raw: Seq<char>) -> Option<(Seq<char>, Seq<char>)> {
    let dep = trim(raw);
    if is_skipped_form(dep) {
        None
    } else {
        let parts = split_requirement(strip_markers(dep));
        if eq_ignore_ascii_case(parts.0, "base"@) {
            None
        } else {
            Some(parts)
        }
    }
}

/// The view of a parsed dependency.
pub open spec fn dependency_view(d: Option<(String, String)>) -> Option<(Seq<char>, Seq<char>)> {
    match d {
        Some(pair) => Some((pair.0@, pair.1@)),
        None => None,
    }
}

fn range_eq_ignore_ascii_case(v: &Vec<char>, lo: usize, hi: usize, p: &Vec<char>) -> (b: bool)
    requires
        lo <= hi <= v.len(),
    ensures
        b == eq_ignore_ascii_case(v@.subrange(lo as int, hi as int), p@),
{
    if p.len() != hi - lo {
        return false;
    }
    let ghost s = v@.subrange(lo as int, hi as int);
    let mut k: usize = 0;
    while k < p.len()
        invariant
            lo <= hi <= v.len(),
            k <= p.len() == hi - lo,
            s == v@.subrange(lo as int, hi as int),
            forall|t: int| 0 <= t < k ==> ascii_lower(#[trigger] s[t]) == ascii_lower(p@[t]),
        decreases p.len() - k,
    {
        if to_ascii_lower(v[lo + k]) != to_ascii_lower(p[k]) {
            assert(ascii_lower(s[k as int]) != ascii_lower(p@[k as int]));
            return false;
        }
        k += 1;
    }
    true
}

fn strip_marker_bounds(v: &Vec<char>, lo: usize, hi: usize, marker: &Vec<char>) -> (r: (
    usize,
    usize,
))
    requires
        lo <= hi <= v.len(),
    ensures
        lo <= r.0 <= r.1 <= hi,
        v@.subrange(r.0 as int, r.1 as int) == strip_marker(
            v@.subrange(lo as int, hi as int),
            marker@,
        ),
{
    if starts_with(v, lo, hi, marker) {
        let start = strip_leading_bound(v, lo, hi, marker);
        trim_bounds(v, start, hi)
    } else {
        (lo, hi)
    }
}

/// Parses one raw dependency declaration. The result is the name and the
/// minimum version of the package to install, or `None` where the
/// declaration is for the platform package, for an optional package or for an
/// incompatible one.
pub fn parse_dependency(raw: &str) -> (r: Option<(String, String)>)
    ensures
        dependency_view(r) == dependency_of(raw@),
{
    let v = chars_of(raw);
    assert(v@.subrange(0, v@.len() as int) == raw@);
    let (lo, hi) = trim_bounds(&v, 0, v.len());
    let ghost dep = v@.subrange(lo as int, hi as int);
    let base = chars_of("base");
    if range_equals(&v, lo, hi, &base) || starts_with(&v, lo, hi, &chars_of("base "))
        || starts_with(&v, lo, hi, &chars_of("!")) || starts_with(&v, lo, hi, &chars_of("?"))
        || starts_with(&v, lo, hi, &chars_of("(?)")) || starts_with(&v, lo, hi, &chars_of("(!)")) {
        return None;
    }
    let after = strip_leading_bound(&v, lo, hi, &chars_of("~"));
    let (lo0, hi0) = trim_bounds(&v, after, hi);
    let (lo1, hi1) = strip_marker_bounds(&v, lo0, hi0, &chars_of("(?)"));
    let (lo2, hi2) = strip_marker_bounds(&v, lo1, hi1, &chars_of("(!)"));
    let (lo3, hi3) = strip_marker_bounds(&v, lo2, hi2, &chars_of("? "));
    let (lo4, hi4) = strip_marker_bounds(&v, lo3, hi3, &chars_of("?"));
    let ghost clean = v@.subrange(lo4 as int, hi4 as int);
    assert(clean == strip_markers(dep));
    proof {
        reveal_strlit(">=");
        reveal_strlit("=");
    }
    let (name, version) = match find_in(&v, lo4, hi4, &chars_of(">=")) {
        Some(i) => {
            assert(clean.take(i as int) == v@.subrange(lo4 as int, lo4 + i));
            assert(clean.skip(i + 2) == v@.subrange(lo4 + i + 2, hi4 as int));
            (trim_bounds(&v, lo4, lo4 + i), Some(trim_bounds(&v, lo4 + i + 2, hi4)))
        },
        None => match find_in(&v, lo4, hi4, &chars_of("=")) {
            Some(i) => {
                assert(clean.take(i as int) == v@.subrange(lo4 as int, lo4 + i));
                assert(clean.skip(i + 1) == v@.subrange(lo4 + i + 1, hi4 as int));
                (trim_bounds(&v, lo4, lo4 + i), Some(trim_bounds(&v, lo4 + i + 1, hi4)))
            },
            None => ((lo4, hi4), None),
        },
    };
    if range_eq_ignore_ascii_case(&v, name.0, name.1, &base) {
        return None;
    }
    let name_text = string_of(&v, name.0, name.1);
    let version_text = match version {
        Some(bounds) => string_of(&v, bounds.0, bounds.1),
        None => String::from_str("0.0.1"),
    };
    Some((name_text, version_text))
}

} // verus!
