//! Ordering of dotted version strings.
//!
//! A version string is cut at every `.` into fields. A field that reads as a
//! signed decimal integer within the 64-bit range counts with that value,
//! any other field counts as zero. Two versions compare field by field, a
//! missing trailing field counting as zero, so that `1.2` and `1.2.0` are
//! equal.

use crate::text::chars_of;
use core::cmp::Ordering;
use vstd::prelude::*;

verus! {

/// Whether `c` is one of the ASCII digits `0` to `9`.
pub open spec fn is_digit(c: char) -> bool {
    '0' <= c && c <= '9'
}

/// The number that the ASCII digit `c` stands for.
pub open spec fn digit_value(c: char) -> int {
    c as int - 48
}

/// Whether `s` holds ASCII digits only.
pub open spec fn all_digits(s: Seq<char>) -> bool {
    forall|i: int| 0 <= i < s.len() ==> is_digit(#[trigger] s[i])
}

/// The number that the digit string `s` denotes in base ten.
pub open spec fn decimal_value(s: Seq<char>) -> int
    decreases s.len(),
{
    if s.len() == 0 {
        0
    } else {
        decimal_value(s.drop_last()) * 10 + digit_value(s.last())
    }
}

/// The value of a field's digits: the number they denote, negated where
/// `negative` is set, if there is at least one digit, nothing but digits,
/// and the number fits in 64 bits; zero otherwise.
pub open spec fn digits_value(digits: Seq<char>, negative: bool) -> int {
    if digits.len() > 0 && all_digits(digits) {
        let v = if negative {
            -decimal_value(digits)
        } else {
            decimal_value(digits)
        };
        if i64::MIN <= v <= i64::MAX {
            v
        } else {
            0
        }
    } else {
        0
    }
}

/// The value of one field of a version: an optional `+` or `-`, then the
/// value of the digits that follow.
pub open spec fn component_value(s: Seq<char>) -> int {
    if s.len() > 0 && (s[0] == '-' || s[0] == '+') {
        digits_value(s.drop_first(), s[0] == '-')
    } else {
        digits_value(s, false)
    }
}

/// The fields of `s` between occurrences of `sep`. There is always at least
/// one field; an empty string has one empty field.
pub open spec fn split_fields(s: Seq<char>, sep: char) -> Seq<Seq<char>>
    decreases s.len(),
{
    if s.len() == 0 {
        seq![Seq::<char>::empty()]
    } else {
        let before = split_fields(s.drop_last(), sep);
        if s.last() == sep {
            before.push(Seq::<char>::empty())
        } else {
            before.drop_last().push(before.last().push(s.last()))
        }
    }
}

/// The values of a sequence of fields.
pub open spec fn field_values(fields: Seq<Seq<char>>) -> Seq<int>
    decreases fields.len(),
{
    if fields.len() == 0 {
        Seq::<int>::empty()
    } else {
        field_values(fields.drop_last()).push(component_value(fields.last()))
    }
}

/// The numbers by which the version string `s` is ordered.
pub open spec fn version_key(s: Seq<char>) -> Seq<int> {
    field_values(split_fields(s, '.'))
}

/// The `i`-th number of a key, zero beyond its end.
pub open spec fn component_at(key: Seq<int>, i: int) -> int {
    if 0 <= i < key.len() {
        key[i]
    } else {
        0
    }
}

/// The sign of the comparison of two keys from index `i` on: `-1` where `a`
/// comes first, `0` where they agree, `1` where `b` comes first.
pub open spec fn compare_from(a: Seq<int>, b: Seq<int>, i: int) -> int
    decreases
            (if a.len() >= b.len() {
                a.len()
            } else {
                b.len()
            }) - i,
{
    if i >= a.len() && i >= b.len() {
        0
    } else if component_at(a, i) < component_at(b, i) {
        -1
    } else if component_at(a, i) > component_at(b, i) {
        1
    } else {
        compare_from(a, b, i + 1)
    }
}

/// The sign of the comparison of two version strings.
pub open spec fn version_sign(a: Seq<char>, b: Seq<char>) -> int {
    compare_from(version_key(a), version_key(b), 0)
}

/// Whether two keys agree at every index before `k` and differ at `k`.
pub open spec fn first_difference(a: Seq<int>, b: Seq<int>, k: int) -> bool {
    &&& 0 <= k
    &&& component_at(a, k) != component_at(b, k)
    &&& forall|i: int| 0 <= i < k ==> component_at(a, i) == component_at(b, i)
}

/// The view of a vector of field values as mathematical integers.
pub open spec fn ints_of(s: Seq<i64>) -> Seq<int> {
    Seq::new(s.len(), |i: int| s[i] as int)
}

/// The number that a prefix of a digit string denotes is not negative and
/// not greater than the number that the whole string denotes.
pub proof fn lemma_decimal_prefix(s: Seq<char>, k: int)
    requires
        all_digits(s),
        0 <= k <= s.len(),
    ensures
        0 <= decimal_value(s.take(k)) <= decimal_value(s),
    decreases s.len(),
{
    if k == s.len() {
        assert(s.take(k) == s);
        if s.len() > 0 {
            lemma_decimal_prefix(s.drop_last(), k - 1);
        }
    } else {
        assert(s.drop_last().take(k) == s.take(k));
        lemma_decimal_prefix(s.drop_last(), k);
    }
}

proof fn lemma_compare_from_sign(a: Seq<int>, b: Seq<int>, i: int)
    ensures
        -1 <= compare_from(a, b, i) <= 1,
    decreases
            (if a.len() >= b.len() {
                a.len()
            } else {
                b.len()
            }) - i,
{
    if i >= a.len() && i >= b.len() {
    } else if component_at(a, i) != component_at(b, i) {
    } else {
        lemma_compare_from_sign(a, b, i + 1);
    }
}

proof fn lemma_compare_from_swap(a: Seq<int>, b: Seq<int>, i: int)
    ensures
        compare_from(a, b, i) == -compare_from(b, a, i),
    decreases
            (if a.len() >= b.len() {
                a.len()
            } else {
                b.len()
            }) - i,
{
    if i >= a.len() && i >= b.len() {
    } else if component_at(a, i) != component_at(b, i) {
    } else {
        lemma_compare_from_swap(a, b, i + 1);
    }
}

proof fn lemma_compare_from_difference(a: Seq<int>, b: Seq<int>, i: int)
    requires
        0 <= i,
    ensures
        compare_from(a, b, i) == 0 <==> forall|j: int|
            i <= j ==> component_at(a, j) == component_at(b, j),
        compare_from(a, b, i) != 0 ==> exists|k: int|
            i <= k && component_at(a, k) != component_at(b, k) && (forall|j: int|
                i <= j < k ==> component_at(a, j) == component_at(b, j)) && (compare_from(a, b, i)
                < 0 <==> component_at(a, k) < component_at(b, k)),
    decreases
            (if a.len() >= b.len() {
                a.len()
            } else {
                b.len()
            }) - i,
{
    if i >= a.len() && i >= b.len() {
    } else if component_at(a, i) != component_at(b, i) {
        let k = i;
        assert(i <= k && component_at(a, k) != component_at(b, k) && (forall|j: int|
            i <= j < k ==> component_at(a, j) == component_at(b, j)) && (compare_from(a, b, i) < 0
            <==> component_at(a, k) < component_at(b, k)));
    } else {
        lemma_compare_from_difference(a, b, i + 1);
        if compare_from(a, b, i) != 0 {
            let k = choose|k: int|
                i + 1 <= k && component_at(a, k) != component_at(b, k) && (forall|j: int|
                    i + 1 <= j < k ==> component_at(a, j) == component_at(b, j)) && (compare_from(
                    a,
                    b,
                    i + 1,
                ) < 0 <==> component_at(a, k) < component_at(b, k));
            assert(forall|j: int| i <= j < k ==> component_at(a, j) == component_at(b, j));
            assert(i <= k && component_at(a, k) != component_at(b, k) && (forall|j: int|
                i <= j < k ==> component_at(a, j) == component_at(b, j)) && (compare_from(a, b, i)
                < 0 <==> component_at(a, k) < component_at(b, k)));
        } else {
            assert forall|j: int| i <= j implies component_at(a, j) == component_at(b, j) by {
                if j > i {
                }
            }
        }
    }
}

proof fn lemma_compare_from_step(a: Seq<int>, b: Seq<int>, i: int)
    requires
        component_at(a, i) == component_at(b, i),
    ensures
        compare_from(a, b, i) == compare_from(a, b, i + 1),
{
}

proof fn lemma_compare_from_transitive(a: Seq<int>, b: Seq<int>, c: Seq<int>, i: int)
    requires
        0 <= i,
        compare_from(a, b, i) <= 0,
        compare_from(b, c, i) <= 0,
    ensures
        compare_from(a, c, i) <= 0,
        compare_from(a, b, i) < 0 || compare_from(b, c, i) < 0 ==> compare_from(a, c, i) < 0,
    decreases a.len() + b.len() + c.len() - i,
{
    if i >= a.len() && i >= b.len() && i >= c.len() {
    } else if component_at(a, i) == component_at(b, i) && component_at(b, i) == component_at(c, i) {
        lemma_compare_from_step(a, b, i);
        lemma_compare_from_step(b, c, i);
        lemma_compare_from_step(a, c, i);
        lemma_compare_from_transitive(a, b, c, i + 1);
    } else {
    }
}

/// The comparison is transitive: a version that is not higher than a second
/// one, which is not higher than a third, is not higher than the third, and
/// it is lower where one of the two steps is strict.
pub proof fn lemma_version_sign_transitive(a: Seq<char>, b: Seq<char>, c: Seq<char>)
    requires
        version_sign(a, b) <= 0,
        version_sign(b, c) <= 0,
    ensures
        version_sign(a, c) <= 0,
        version_sign(a, b) < 0 || version_sign(b, c) < 0 ==> version_sign(a, c) < 0,
{
    lemma_compare_from_transitive(version_key(a), version_key(b), version_key(c), 0);
}

/// Swapping the two versions reverses the result of the comparison.
pub proof fn lemma_version_sign_antisymmetric(a: Seq<char>, b: Seq<char>)
    ensures
        version_sign(a, b) == -version_sign(b, a),
        -1 <= version_sign(a, b) <= 1,
{
    lemma_compare_from_swap(version_key(a), version_key(b), 0);
    lemma_compare_from_sign(version_key(a), version_key(b), 0);
}

/// The comparison goes by the fields' values, a missing field counting as
/// zero: two versions are equal exactly when they agree at every index, and
/// otherwise the first index at which they differ decides.
pub proof fn lemma_version_sign_componentwise(a: Seq<char>, b: Seq<char>)
    ensures
        version_sign(a, b) == 0 <==> forall|i: int|
            0 <= i ==> component_at(version_key(a), i) == component_at(version_key(b), i),
        forall|k: int| #[trigger]
            first_difference(version_key(a), version_key(b), k) ==> (version_sign(a, b) < 0
                <==> component_at(version_key(a), k) < component_at(version_key(b), k)),
        forall|k: int| #[trigger]
            first_difference(version_key(a), version_key(b), k) ==> (version_sign(a, b) > 0
                <==> component_at(version_key(a), k) > component_at(version_key(b), k)),
        version_sign(a, b) != 0 ==> exists|k: int|
            first_difference(version_key(a), version_key(b), k),
{
    let ka = version_key(a);
    let kb = version_key(b);
    lemma_compare_from_difference(ka, kb, 0);
    lemma_compare_from_sign(ka, kb, 0);
    if compare_from(ka, kb, 0) != 0 {
        let w = choose|w: int|
            0 <= w && component_at(ka, w) != component_at(kb, w) && (forall|j: int|
                0 <= j < w ==> component_at(ka, j) == component_at(kb, j)) && (compare_from(
                ka,
                kb,
                0,
            ) < 0 <==> component_at(ka, w) < component_at(kb, w));
        assert(first_difference(ka, kb, w));
        assert forall|k: int| #[trigger] first_difference(ka, kb, k) implies k == w by {
            if k < w {
            } else if w < k {
            }
        }
    }
}

/// The value of the digits `v[lo..hi]`, negated where `negative` is set.
fn parse_digits(v: &Vec<char>, lo: usize, hi: usize, negative: bool) -> (r: i64)
    requires
        lo <= hi <= v.len(),
    ensures
        r == digits_value(v@.subrange(lo as int, hi as int), negative),
{
    let ghost digits = v@.subrange(lo as int, hi as int);
    if lo == hi {
        return 0;
    }
    let limit: u64 = if negative {
        9223372036854775808
    } else {
        9223372036854775807
    };
    let mut acc: u64 = 0;
    let mut i: usize = lo;
    while i < hi
        invariant
            lo <= i <= hi <= v.len(),
            digits == v@.subrange(lo as int, hi as int),
            all_digits(digits.take(i - lo)),
            acc == decimal_value(digits.take(i - lo)),
            acc <= limit,
            limit == if negative {
                9223372036854775808u64
            } else {
                9223372036854775807u64
            },
        decreases hi - i,
    {
        let c = v[i];
        proof {
            assert(digits.take(i - lo + 1).drop_last() == digits.take(i - lo));
            assert(digits.take(i - lo + 1).last() == c);
            assert(digits[i - lo] == c);
        }
        if !('0' <= c && c <= '9') {
            assert(!is_digit(digits[i - lo]));
            return 0;
        }
        let d: u64 = (c as u32 - 48) as u64;
        if acc > (limit - d) / 10 {
            proof {
                assert(decimal_value(digits.take(i - lo + 1)) > limit);
                if all_digits(digits) {
                    lemma_decimal_prefix(digits, i - lo + 1);
                }
            }
            return 0;
        }
        acc = acc * 10 + d;
        i += 1;
    }
    proof {
        assert(digits.take(i - lo) == digits);
    }
    if negative {
        if acc == 9223372036854775808 {
            i64::MIN
        } else {
            -(acc as i64)
        }
    } else {
        acc as i64
    }
}

/// The value of the field `v[lo..hi]`.
pub fn parse_component(v: &Vec<char>, lo: usize, hi: usize) -> (r: i64)
    requires
        lo <= hi <= v.len(),
    ensures
        r == component_value(v@.subrange(lo as int, hi as int)),
{
    if lo == hi {
        return 0;
    }
    let first = v[lo];
    assert(v@.subrange(lo as int, hi as int)[0] == first);
    if first == '-' || first == '+' {
        assert(v@.subrange(lo as int, hi as int).drop_first() == v@.subrange(lo + 1, hi as int));
        parse_digits(v, lo + 1, hi, first == '-')
    } else {
        parse_digits(v, lo, hi, false)
    }
}

/// The key of the version string whose characters are `v`.
pub fn parse_key(v: &Vec<char>) -> (key: Vec<i64>)
    ensures
        ints_of(key@) == version_key(v@),
{
    let mut key: Vec<i64> = Vec::new();
    let mut lo: usize = 0;
    let mut i: usize = 0;
    assert(v@.take(0) == Seq::<char>::empty());
    assert(v@.subrange(0, 0) == Seq::<char>::empty());
    assert(split_fields(v@.take(0), '.').drop_last() == Seq::<Seq<char>>::empty());
    assert(ints_of(key@) == Seq::<int>::empty());
    while i < v.len()
        invariant
            lo <= i <= v.len(),
            split_fields(v@.take(i as int), '.').len() == key.len() + 1,
            split_fields(v@.take(i as int), '.').last() == v@.subrange(lo as int, i as int),
            ints_of(key@) == field_values(split_fields(v@.take(i as int), '.').drop_last()),
        decreases v.len() - i,
    {
        let ghost before = split_fields(v@.take(i as int), '.');
        let ghost after = split_fields(v@.take(i + 1), '.');
        proof {
            assert(v@.take(i + 1).drop_last() == v@.take(i as int));
            assert(v@.take(i + 1).last() == v@[i as int]);
        }
        if v[i] == '.' {
            let x = parse_component(v, lo, i);
            let ghost old_key = key@;
            key.push(x);
            proof {
                assert(after == before.push(Seq::<char>::empty()));
                assert(after.drop_last() == before);
                assert(before.drop_last().push(before.last()) == before);
                assert(ints_of(key@) == ints_of(old_key).push(x as int));
                assert(v@.subrange(i + 1, i + 1) == Seq::<char>::empty());
            }
            lo = i + 1;
        } else {
            proof {
                assert(after == before.drop_last().push(before.last().push(v@[i as int])));
                assert(after.drop_last() == before.drop_last());
                assert(v@.subrange(lo as int, i as int).push(v@[i as int]) == v@.subrange(
                    lo as int,
                    i + 1,
                ));
            }
        }
        i += 1;
    }
    let x = parse_component(v, lo, i);
    let ghost old_key = key@;
    let ghost fields = split_fields(v@, '.');
    key.push(x);
    proof {
        assert(v@.take(i as int) == v@);
        assert(fields.drop_last().push(fields.last()) == fields);
        assert(ints_of(key@) == ints_of(old_key).push(x as int));
    }
    key
}

/// The sign of the comparison of two parsed keys.
pub fn compare_keys(a: &Vec<i64>, b: &Vec<i64>) -> (r: i8)
    ensures
        r == compare_from(ints_of(a@), ints_of(b@), 0),
{
    let n: usize = if a.len() >= b.len() {
        a.len()
    } else {
        b.len()
    };
    let mut i: usize = 0;
    while i < n
        invariant
            i <= n,
            n >= a.len(),
            n >= b.len(),
            n == a.len() || n == b.len(),
            compare_from(ints_of(a@), ints_of(b@), 0) == compare_from(
                ints_of(a@),
                ints_of(b@),
                i as int,
            ),
        decreases n - i,
    {
        let x: i64 = if i < a.len() {
            a[i]
        } else {
            0
        };
        let y: i64 = if i < b.len() {
            b[i]
        } else {
            0
        };
        assert(x == component_at(ints_of(a@), i as int));
        assert(y == component_at(ints_of(b@), i as int));
        if x < y {
            return -1;
        }
        if x > y {
            return 1;
        }
        i += 1;
    }
    0
}

/// The sign of the comparison of two version strings: negative where `a` is
/// the lower version, zero where they are equal, positive where `a` is the
/// higher one.
pub fn version_sign_of(a: &str, b: &str) -> (r: i8)
    ensures
        r == version_sign(a@, b@),
{
    let ka = parse_key(&chars_of(a));
    let kb = parse_key(&chars_of(b));
    compare_keys(&ka, &kb)
}

/// Whether `a` is a strictly lower version than `b`.
pub fn version_lower(a: &str, b: &str) -> (r: bool)
    ensures
        r == (version_sign(a@, b@) < 0),
{
    version_sign_of(a, b) < 0
}

/// Whether `a` is a strictly higher version than `b`.
pub fn version_higher(a: &str, b: &str) -> (r: bool)
    ensures
        r == (version_sign(a@, b@) > 0),
{
    version_sign_of(a, b) > 0
}

/// Compares two dotted version strings field by field.
pub fn cmp_versions(a: &str, b: &str) -> (o: Ordering)
    ensures
        (o == Ordering::Less) == (version_sign(a@, b@) < 0),
        (o == Ordering::Equal) == (version_sign(a@, b@) == 0),
        (o == Ordering::Greater) == (version_sign(a@, b@) > 0),
{
    let sign = version_sign_of(a, b);
    if sign < 0 {
        Ordering::Less
    } else if sign == 0 {
        Ordering::Equal
    } else {
        Ordering::Greater
    }
}

} // verus!
