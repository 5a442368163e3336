//! Names, addresses and headers of the archive host.
//!
//! The archive of a release is kept under a name made of the package's name
//! and the version. It is fetched from an address that carries a parameter
//! against caching, which the caller makes anew for every request. What the
//! headers of a response say is read here from their plain text.

use crate::text::{ascii_lower, chars_of, find, find_in, same_text, to_ascii_lower};
use crate::transfer::{Preflight, ResponseInfo};
use crate::version::{all_digits, decimal_value, is_digit, lemma_decimal_prefix};
use vstd::prelude::*;
use vstd::string::StringExecFns;

verus! {

/// The status of a response that delivers part of a resource.
pub const PARTIAL_CONTENT: u16 = 206;

/// The address of the archive of `version` of `mod_name`, with `anticache` as
/// the parameter against caching.
pub open spec fn archive_url_text(
    mod_name: Seq<char>,
    version: Seq<char>,
    anticache: Seq<char>,
) -> Seq<char> {
    "https://mods-storage.re146.dev/"@ + mod_name + "/"@ + version + ".zip?anticache="@
        + anticache
}

/// The name of the file that holds the archive of `version` of `mod_name`.
pub open spec fn archive_file_name_text(mod_name: Seq<char>, version: Seq<char>) -> Seq<char> {
    mod_name + "_"@ + version + ".zip"@
}

/// Whether a file named `entry_name` holds another version of `mod_name`
/// than the file named `file_name`: it begins with the package's name and an
/// underscore, ends as an archive does, and is not that file.
pub open spec fn is_stale_archive(
    entry_name: Seq<char>,
    mod_name: Seq<char>,
    file_name: Seq<char>,
) -> bool {
    &&& (mod_name + "_"@).is_prefix_of(entry_name)
    &&& ".zip"@.is_suffix_of(entry_name)
    &&& entry_name != file_name
}

/// The number that `s` denotes, where it is an optional `+` and then one or
/// more digits and nothing else, and the number fits in 64 bits.
pub open spec fn unsigned_value(s: Seq<char>) -> Option<u64> {
    let digits = if s.len() > 0 && s[0] == '+' {
        s.drop_first()
    } else {
        s
    };
    if digits.len() > 0 && all_digits(digits) && decimal_value(digits) <= u64::MAX {
        Some(decimal_value(digits) as u64)
    } else {
        None
    }
}

/// The digits of `n` in base ten, without leading zeros.
pub open spec fn decimal_digits(n: nat) -> Seq<char>
    decreases n,
{
    if n < 10 {
        seq![(n + 48) as char]
    } else {
        decimal_digits(n / 10).push((n % 10 + 48) as char)
    }
}

/// `s` with every ASCII letter in lower case.
pub open spec fn ascii_lowered(s: Seq<char>) -> Seq<char> {
    Seq::new(s.len(), |i: int| ascii_lower(s[i]))
}

/// Whether the value of an `Accept-Ranges` header says that byte ranges are
/// served: it holds the word `bytes`, in whatever case.
pub open spec fn serves_byte_ranges(value: Seq<char>) -> bool {
    find(ascii_lowered(value), "bytes"@) is Some
}

/// The index of the last occurrence of `c` in `s`.
pub open spec fn last_index_of(s: Seq<char>, c: char) -> Option<int>
    decreases s.len(),
{
    if s.len() == 0 {
        None
    } else if s.last() == c {
        Some(s.len() - 1)
    } else {
        last_index_of(s.drop_last(), c)
    }
}

/// The size of the whole resource that the value of a `Content-Range` header
/// tells: the number behind the last `/`.
pub open spec fn content_range_total_of(value: Seq<char>) -> Option<u64> {
    match last_index_of(value, '/') {
        Some(i) => unsigned_value(value.skip(i + 1)),
        None => None,
    }
}

/// The view of a header value that may be absent.
pub open spec fn header_view(value: Option<&str>) -> Option<Seq<char>> {
    match value {
        Some(value) => Some(value@),
        None => None,
    }
}

/// What a preflight request found out. Only a successful response counts:
/// then the size is the number in `Content-Length`, where that is one, and
/// ranges are served where `Accept-Ranges` says so.
pub open spec fn preflight_from(
    success: bool,
    content_length: Option<Seq<char>>,
    accept_ranges: Option<Seq<char>>,
) -> Preflight {
    Preflight {
        total: match content_length {
            Some(value) => if success {
                unsigned_value(value)
            } else {
                None
            },
            None => None,
        },
        supports_range: match accept_ranges {
            Some(value) => success && serves_byte_ranges(value),
            None => false,
        },
    }
}

/// Whether a response with this status delivers the archive.
pub open spec fn is_success(status: u16) -> bool {
    200 <= status <= 299
}

/// What a successful response to a request for the archive from the offset
/// `start_at` says. The size of the whole archive is what `Content-Range`
/// tells, where the header is there; without the header it is the length of
/// the body, if the request was for the whole archive. The range counts as
/// sent where the status says so or the header is there.
pub open spec fn response_from(
    status: u16,
    content_length: Option<u64>,
    content_range: Option<Seq<char>>,
    start_at: u64,
) -> ResponseInfo {
    ResponseInfo {
        total_all: match content_range {
            Some(value) => content_range_total_of(value),
            None => if start_at == 0 {
                content_length
            } else {
                None
            },
        },
        remaining: content_length,
        honored: status == PARTIAL_CONTENT || content_range is Some,
    }
}

/// The value of the `Range` header that asks for the archive from
/// `start_at` on.
pub open spec fn range_header_text(start_at: u64) -> Seq<char> {
    "bytes="@ + decimal_digits(start_at as nat) + "-"@
}

/// The digits of a number denote that number.
pub proof fn lemma_decimal_digits(n: nat)
    ensures
        all_digits(decimal_digits(n)),
        decimal_digits(n).len() > 0,
        decimal_value(decimal_digits(n)) == n,
    decreases n,
{
    if n < 10 {
        let s = decimal_digits(n);
        assert(s.drop_last() == Seq::<char>::empty());
        assert(decimal_value(s.drop_last()) == 0);
    } else {
        lemma_decimal_digits(n / 10);
        let s = decimal_digits(n);
        assert(s.drop_last() == decimal_digits(n / 10));
        assert forall|i: int| 0 <= i < s.len() implies is_digit(#[trigger] s[i]) by {
            if i < s.len() - 1 {
                assert(s[i] == decimal_digits(n / 10)[i]);
            }
        }
    }
}

/// The address of the archive of `version` of `mod_name`.
pub fn archive_url(mod_name: &str, version: &str, anticache: &str) -> (url: String)
    ensures
        url@ == archive_url_text(mod_name@, version@, anticache@),
{
    let mut url = String::from_str("https://mods-storage.re146.dev/");
    url.push_str(mod_name);
    url.push_str("/");
    url.push_str(version);
    url.push_str(".zip?anticache=");
    url.push_str(anticache);
    url
}

/// The name of the file that holds the archive of `version` of `mod_name`.
pub fn archive_file_name(mod_name: &str, version: &str) -> (name: String)
    ensures
        name@ == archive_file_name_text(mod_name@, version@),
{
    let mut name = String::from_str(mod_name);
    name.push_str("_");
    name.push_str(version);
    name.push_str(".zip");
    name
}

/// Whether the file named `entry_name` holds another version of `mod_name`
/// than the file named `file_name`, and has to make room for it.
pub fn is_other_version(entry_name: &str, mod_name: &str, file_name: &str) -> (stale: bool)
    ensures
        stale == is_stale_archive(entry_name@, mod_name@, file_name@),
{
    let entry = chars_of(entry_name);
    let mut prefix = chars_of(mod_name);
    let underscore = chars_of("_");
    let suffix = chars_of(".zip");
    let ghost name_only = prefix@;
    let mut k: usize = 0;
    while k < underscore.len()
        invariant
            k <= underscore.len(),
            prefix@ == name_only + underscore@.take(k as int),
        decreases underscore.len() - k,
    {
        prefix.push(underscore[k]);
        assert(underscore@.take(k + 1) == underscore@.take(k as int).push(underscore@[k as int]));
        k += 1;
    }
    assert(underscore@.take(k as int) == underscore@);
    assert(entry@.subrange(0, entry@.len() as int) == entry@);
    let begins = crate::text::starts_with(&entry, 0, entry.len(), &prefix);
    let ends = if suffix.len() <= entry.len() {
        let from = entry.len() - suffix.len();
        let same = crate::text::range_equals(&entry, from, entry.len(), &suffix);
        assert(entry@.subrange(from as int, entry@.len() as int) == entry@.skip(from as int));
        same
    } else {
        false
    };
    begins && ends && !same_text(entry_name, file_name)
}

fn digits_to_u64(v: &Vec<char>, lo: usize, hi: usize) -> (r: Option<u64>)
    requires
        lo <= hi <= v.len(),
    ensures
        r == if lo < hi && all_digits(v@.subrange(lo as int, hi as int)) && decimal_value(
            v@.subrange(lo as int, hi as int),
        ) <= u64::MAX {
            Some(decimal_value(v@.subrange(lo as int, hi as int)) as u64)
        } else {
            None
        },
{
    let ghost digits = v@.subrange(lo as int, hi as int);
    if lo == hi {
        return None;
    }
    let mut acc: u64 = 0;
    let mut i: usize = lo;
    while i < hi
        invariant
            lo <= i <= hi <= v.len(),
            digits == v@.subrange(lo as int, hi as int),
            all_digits(digits.take(i - lo)),
            acc == decimal_value(digits.take(i - lo)),
        decreases hi - i,
    {
        let c = v[i];
        proof {
            assert(digits.take(i - lo + 1).drop_last() == digits.take(i - lo));
            assert(digits.take(i - lo + 1).last() == c);
            assert(digits[i - lo] == c);
        }
        if !('0' <= c && c <= '9') {
            assert(!is_digit(digits[i - lo]));
            return None;
        }
        let d: u64 = (c as u32 - 48) as u64;
        if acc > (u64::MAX - d) / 10 {
            proof {
                assert(decimal_value(digits.take(i - lo + 1)) > u64::MAX);
                if all_digits(digits) {
                    lemma_decimal_prefix(digits, i - lo + 1);
                }
            }
            return None;
        }
        acc = acc * 10 + d;
        i += 1;
    }
    proof {
        assert(digits.take(i - lo) == digits);
    }
    Some(acc)
}

fn parse_unsigned_range(v: &Vec<char>, lo: usize, hi: usize) -> (r: Option<u64>)
    requires
        lo <= hi <= v.len(),
    ensures
        r == unsigned_value(v@.subrange(lo as int, hi as int)),
{
    if lo < hi && v[lo] == '+' {
        assert(v@.subrange(lo as int, hi as int)[0] == '+');
        assert(v@.subrange(lo as int, hi as int).drop_first() == v@.subrange(lo + 1, hi as int));
        digits_to_u64(v, lo + 1, hi)
    } else {
        if lo < hi {
            assert(v@.subrange(lo as int, hi as int)[0] == v@[lo as int]);
        }
        digits_to_u64(v, lo, hi)
    }
}

/// Reads a number of at most 64 bits: an optional `+`, then digits.
pub fn parse_unsigned(text: &str) -> (r: Option<u64>)
    ensures
        r == unsigned_value(text@),
{
    let v = chars_of(text);
    assert(v@.subrange(0, v@.len() as int) == v@);
    parse_unsigned_range(&v, 0, v.len())
}

/// Whether the value of an `Accept-Ranges` header says that byte ranges are
/// served.
pub fn accepts_byte_ranges(value: &str) -> (serves: bool)
    ensures
        serves == serves_byte_ranges(value@),
{
    let v = chars_of(value);
    let mut lowered: Vec<char> = Vec::new();
    let mut i: usize = 0;
    while i < v.len()
        invariant
            i <= v.len(),
            lowered.len() == i,
            forall|j: int| 0 <= j < i ==> lowered@[j] == ascii_lower(v@[j]),
        decreases v.len() - i,
    {
        lowered.push(to_ascii_lower(v[i]));
        i += 1;
    }
    assert(lowered@ =~= ascii_lowered(value@));
    assert(lowered@.subrange(0, lowered@.len() as int) == lowered@);
    find_in(&lowered, 0, lowered.len(), &chars_of("bytes")).is_some()
}

/// The size of the whole resource that the value of a `Content-Range` header
/// tells.
pub fn content_range_total(value: &str) -> (total: Option<u64>)
    ensures
        total == content_range_total_of(value@),
{
    let v = chars_of(value);
    let mut i: usize = v.len();
    assert(v@.take(v@.len() as int) == v@);
    while i > 0
        invariant
            i <= v.len(),
            v@ == value@,
            last_index_of(v@, '/') == last_index_of(v@.take(i as int), '/'),
        decreases i,
    {
        assert(v@.take(i as int).drop_last() == v@.take(i - 1));
        assert(v@.take(i as int).last() == v@[i - 1]);
        if v[i - 1] == '/' {
            assert(last_index_of(v@.take(i as int), '/') == Some(i - 1));
            assert(v@.skip(i - 1 + 1) == v@.subrange(i as int, v@.len() as int));
            return parse_unsigned_range(&v, i, v.len());
        }
        i -= 1;
    }
    None
}

/// What a preflight request found out: `success` says whether its response
/// was a success, the other two are the values of the `Content-Length` and
/// the `Accept-Ranges` header, where the response had them.
pub fn preflight_of(success: bool, content_length: Option<&str>, accept_ranges: Option<&str>) -> (found:
    Preflight)
    ensures
        found == preflight_from(success, header_view(content_length), header_view(accept_ranges)),
{
    let total = match content_length {
        Some(value) => if success {
            parse_unsigned(value)
        } else {
            None
        },
        None => None,
    };
    let supports_range = match accept_ranges {
        Some(value) => success && accepts_byte_ranges(value),
        None => false,
    };
    Preflight { total, supports_range }
}

/// Reads the response to a request for the archive from the offset
/// `start_at`: its status, the length of its body where that is known, and
/// the value of its `Content-Range` header where it has one. A response that
/// is no success is an error, which carries the status.
pub fn response_info(
    status: u16,
    content_length: Option<u64>,
    content_range: Option<&str>,
    start_at: u64,
) -> (r: Result<ResponseInfo, u16>)
    ensures
        r == if is_success(status) {
            Ok::<ResponseInfo, u16>(
                response_from(status, content_length, header_view(content_range), start_at),
            )
        } else {
            Err::<ResponseInfo, u16>(status)
        },
{
    if !(200 <= status && status <= 299) {
        return Err(status);
    }
    let total_all = match content_range {
        Some(value) => content_range_total(value),
        None => if start_at == 0 {
            content_length
        } else {
            None
        },
    };
    Ok(
        ResponseInfo {
            total_all,
            remaining: content_length,
            honored: status == PARTIAL_CONTENT || content_range.is_some(),
        },
    )
}

/// Appends the digits of `n` to `text`.
pub fn push_decimal(text: &mut String, n: u64)
    ensures
        final(text)@ == old(text)@ + decimal_digits(n as nat),
    decreases n,
{
    if n >= 10 {
        push_decimal(text, n / 10);
    }
    let ghost before = text@;
    let digit: u8 = (n % 10) as u8;
    text.push((digit + 48) as char);
    proof {
        if n >= 10 {
            assert(text@ =~= old(text)@ + decimal_digits((n / 10) as nat).push(
                ((n % 10) as nat + 48) as char,
            ));
        } else {
            assert(text@ =~= old(text)@ + seq![(n as nat + 48) as char]);
        }
    }
}

/// The value of the `Range` header for a request from `start_at` on, and
/// none for a request for the whole archive.
pub fn range_header(start_at: u64) -> (value: Option<String>)
    ensures
        header_view_owned(value) == if start_at > 0 {
            Some(range_header_text(start_at))
        } else {
            None
        },
{
    if start_at == 0 {
        return None;
    }
    let mut text = String::from_str("bytes=");
    push_decimal(&mut text, start_at);
    text.push_str("-");
    Some(text)
}

/// The view of a header value that may be absent.
pub open spec fn header_view_owned(value: Option<String>) -> Option<Seq<char>> {
    match value {
        Some(value) => Some(value@),
        None => None,
    }
}

} // verus!
