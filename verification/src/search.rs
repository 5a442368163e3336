//! Normal forms of texts for searching.
//!
//! A text is normalised by turning it to lower case, dropping every character
//! that is neither alphanumeric nor white space, and joining the words that
//! are left with single spaces. Its keywords are the words of the normal
//! form that take more than two bytes.

use crate::text::{chars_of, find, find_in, string_of, white_space};
use vstd::prelude::*;
use vstd::utf8::encode_utf8;

verus! {

/// The lower-case form of a text, as `str::to_lowercase` gives it.
pub uninterp spec fn lowercase(s: Seq<char>) -> Seq<char>;

/// Whether `c` is alphabetic or numeric, as `char::is_alphanumeric` reports
/// it.
pub uninterp spec fn alphanumeric(c: char) -> bool;

/// `str::to_lowercase` returns the lower-case equivalent of a string slice,
/// by the Unicode rules for lower case; the result is only named here.
pub assume_specification[ str::to_lowercase ](s: &str) -> (r: String)
    ensures
        r@ == lowercase(s@),
;

/// `char::is_alphanumeric` tells whether a character is alphabetic or
/// numeric by the Unicode general categories; the result is only named here.
pub assume_specification[ char::is_alphanumeric ](c: char) -> (r: bool)
    ensures
        r == alphanumeric(c),
;

/// Whether a character stays in a normal form.
pub open spec fn keeps(c: char) -> bool {
    alphanumeric(c) || white_space(c)
}

/// The characters of `s` that stay in a normal form, in order.
pub open spec fn kept_chars(s: Seq<char>) -> Seq<char>
    decreases s.len(),
{
    if s.len() == 0 {
        s
    } else if keeps(s.last()) {
        kept_chars(s.drop_last()).push(s.last())
    } else {
        kept_chars(s.drop_last())
    }
}

/// The words of `s` that are complete, and the characters of the word that
/// is still open at the end of `s`. White space ends a word.
pub open spec fn split_state(s: Seq<char>) -> (Seq<Seq<char>>, Seq<char>)
    decreases s.len(),
{
    if s.len() == 0 {
        (Seq::empty(), Seq::empty())
    } else {
        let before = split_state(s.drop_last());
        if white_space(s.last()) {
            if before.1.len() > 0 {
                (before.0.push(before.1), Seq::empty())
            } else {
                before
            }
        } else {
            (before.0, before.1.push(s.last()))
        }
    }
}

/// The words of `s`: its maximal runs of characters that are not white
/// space.
pub open spec fn words(s: Seq<char>) -> Seq<Seq<char>> {
    let state = split_state(s);
    if state.1.len() > 0 {
        state.0.push(state.1)
    } else {
        state.0
    }
}

/// The words, with one space between each two.
pub open spec fn joined(words: Seq<Seq<char>>) -> Seq<char>
    decreases words.len(),
{
    if words.len() == 0 {
        Seq::empty()
    } else if words.len() == 1 {
        words.last()
    } else {
        joined(words.drop_last()).push(' ') + words.last()
    }
}

/// The normal form of `s`.
pub open spec fn normal_form(s: Seq<char>) -> Seq<char> {
    joined(words(kept_chars(lowercase(s))))
}

/// The number of bytes that `word` takes in UTF-8.
pub open spec fn byte_len(word: Seq<char>) -> nat {
    encode_utf8(word).len()
}

/// The words that take more than two bytes, in order.
pub open spec fn long_words(words: Seq<Seq<char>>) -> Seq<Seq<char>>
    decreases words.len(),
{
    if words.len() == 0 {
        words
    } else if byte_len(words.last()) > 2 {
        long_words(words.drop_last()).push(words.last())
    } else {
        long_words(words.drop_last())
    }
}

/// The keywords of `text`.
pub open spec fn keywords(text: Seq<char>) -> Seq<Seq<char>> {
    long_words(words(normal_form(text)))
}

/// The views of a sequence of strings.
pub open spec fn words_view(words: Seq<String>) -> Seq<Seq<char>> {
    Seq::new(words.len(), |i: int| words[i]@)
}

fn keep_chars(v: &Vec<char>) -> (kept: Vec<char>)
    ensures
        kept@ == kept_chars(v@),
{
    let mut kept: Vec<char> = Vec::new();
    let mut i: usize = 0;
    assert(v@.take(0) == Seq::<char>::empty());
    while i < v.len()
        invariant
            i <= v.len(),
            kept@ == kept_chars(v@.take(i as int)),
        decreases v.len() - i,
    {
        proof {
            assert(v@.take(i + 1).drop_last() == v@.take(i as int));
            assert(v@.take(i + 1).last() == v@[i as int]);
        }
        let c = v[i];
        if c.is_alphanumeric() || c.is_whitespace() {
            kept.push(c);
        }
        i += 1;
    }
    assert(v@.take(i as int) == v@);
    kept
}

/// The words of the text whose characters are `v`.
pub fn split_words(v: &Vec<char>) -> (found: Vec<String>)
    ensures
        words_view(found@) == words(v@),
{
    let mut found: Vec<String> = Vec::new();
    let mut start: usize = 0;
    let mut i: usize = 0;
    assert(v@.take(0) == Seq::<char>::empty());
    assert(words_view(found@) =~= Seq::<Seq<char>>::empty());
    assert(v@.subrange(0, 0) == Seq::<char>::empty());
    while i < v.len()
        invariant
            start <= i <= v.len(),
            words_view(found@) == split_state(v@.take(i as int)).0,
            v@.subrange(start as int, i as int) == split_state(v@.take(i as int)).1,
        decreases v.len() - i,
    {
        proof {
            assert(v@.take(i + 1).drop_last() == v@.take(i as int));
            assert(v@.take(i + 1).last() == v@[i as int]);
        }
        if v[i].is_whitespace() {
            if start < i {
                let word = string_of(v, start, i);
                let ghost before = found@;
                found.push(word);
                assert(words_view(found@) =~= words_view(before).push(word@));
            }
            start = i + 1;
            assert(v@.subrange(start as int, i + 1) == Seq::<char>::empty());
        } else {
            assert(v@.subrange(start as int, i + 1) == v@.subrange(start as int, i as int).push(
                v@[i as int],
            ));
        }
        i += 1;
    }
    assert(v@.take(i as int) == v@);
    if start < i {
        let word = string_of(v, start, i);
        let ghost before = found@;
        found.push(word);
        assert(words_view(found@) =~= words_view(before).push(word@));
    }
    found
}

fn join_words(words: &Vec<String>) -> (text: String)
    ensures
        text@ == joined(words_view(words@)),
{
    let ghost all = words_view(words@);
    let mut text = String::new();
    let mut i: usize = 0;
    assert(all.take(0) == Seq::<Seq<char>>::empty());
    while i < words.len()
        invariant
            i <= words.len(),
            all == words_view(words@),
            text@ == joined(all.take(i as int)),
        decreases words.len() - i,
    {
        proof {
            assert(all.take(i + 1).drop_last() == all.take(i as int));
            assert(all.take(i + 1).last() == words@[i as int]@);
        }
        if i > 0 {
            text.push(' ');
        }
        text.push_str(words[i].as_str());
        i += 1;
    }
    assert(all.take(i as int) == all);
    text
}

/// The keys under which a package is entered in the search index.
#[derive(Debug)]
pub struct IndexKeys {
    /// The normal form of the package's name.
    pub name: String,
    /// The keywords of its title.
    pub title_words: Vec<String>,
    /// The normal form of its owner.
    pub owner: String,
    /// The normal form of its category.
    pub category: String,
    /// The keywords of its title and its summary together.
    pub keywords: Vec<String>,
}

/// The title and the summary of a package as one text.
pub open spec fn title_and_summary(title: Seq<char>, summary: Seq<char>) -> Seq<char> {
    title.push(' ') + summary
}

/// The keys under which a package is entered in the search index.
pub fn index_keys(name: &str, title: &str, owner: &str, category: &str, summary: &str) -> (keys:
    IndexKeys)
    ensures
        keys.name@ == normal_form(name@),
        words_view(keys.title_words@) == keywords(title@),
        keys.owner@ == normal_form(owner@),
        keys.category@ == normal_form(category@),
        words_view(keys.keywords@) == keywords(title_and_summary(title@, summary@)),
{
    let mut all_text = String::new();
    all_text.push_str(title);
    all_text.push(' ');
    all_text.push_str(summary);
    assert(all_text@ =~= title_and_summary(title@, summary@));
    IndexKeys {
        name: normalize_string(name),
        title_words: extract_keywords(title),
        owner: normalize_string(owner),
        category: normalize_string(category),
        keywords: extract_keywords(all_text.as_str()),
    }
}

/// `s` without its spaces.
pub open spec fn without_spaces(s: Seq<char>) -> Seq<char>
    decreases s.len(),
{
    if s.len() == 0 {
        s
    } else if s.last() == ' ' {
        without_spaces(s.drop_last())
    } else {
        without_spaces(s.drop_last()).push(s.last())
    }
}

/// Whether each of the words occurs in `text`.
pub open spec fn all_occur(text: Seq<char>, words: Seq<Seq<char>>) -> bool {
    forall|i: int| 0 <= i < words.len() ==> find(text, #[trigger] words[i]) is Some
}

/// Whether a package whose name has the normal form `name` is found by a
/// query with the normal form `query`: the query occurs in the name as it
/// stands, or it does once the spaces are taken out of both, or it has
/// several words and each of them occurs in the name.
pub open spec fn name_matches(name: Seq<char>, query: Seq<char>) -> bool {
    ||| find(name, query) is Some
    ||| find(without_spaces(name), without_spaces(query)) is Some
    ||| (words(query).len() > 1 && all_occur(name, words(query)))
}

/// The entries of a list of `total` that page `page` of `page_size` entries
/// holds, as a range of indices; pages count from one. There is no such
/// range where the page lies beyond the list, and none for a page zero.
pub open spec fn page_range(page: usize, page_size: usize, total: usize) -> Option<(usize, usize)> {
    if page >= 1 && (page - 1) * page_size < total {
        Some(
            (
                ((page - 1) * page_size) as usize,
                if (page - 1) * page_size + page_size < total {
                    ((page - 1) * page_size + page_size) as usize
                } else {
                    total
                },
            ),
        )
    } else {
        None
    }
}

fn drop_spaces(v: &Vec<char>) -> (kept: Vec<char>)
    ensures
        kept@ == without_spaces(v@),
{
    let mut kept: Vec<char> = Vec::new();
    let mut i: usize = 0;
    assert(v@.take(0) == Seq::<char>::empty());
    while i < v.len()
        invariant
            i <= v.len(),
            kept@ == without_spaces(v@.take(i as int)),
        decreases v.len() - i,
    {
        proof {
            assert(v@.take(i + 1).drop_last() == v@.take(i as int));
            assert(v@.take(i + 1).last() == v@[i as int]);
        }
        if v[i] != ' ' {
            kept.push(v[i]);
        }
        i += 1;
    }
    assert(v@.take(i as int) == v@);
    kept
}

fn contains(text: &Vec<char>, pattern: &Vec<char>) -> (found: bool)
    ensures
        found == (find(text@, pattern@) is Some),
{
    assert(text@.subrange(0, text@.len() as int) == text@);
    find_in(text, 0, text.len(), pattern).is_some()
}

/// Whether a package named `mod_name` is found by a query whose normal form
/// is `normalized_query`.
pub fn matches_query(mod_name: &str, normalized_query: &str) -> (found: bool)
    ensures
        found == name_matches(normal_form(mod_name@), normalized_query@),
{
    let name = chars_of(normalize_string(mod_name).as_str());
    let query = chars_of(normalized_query);
    if contains(&name, &query) {
        return true;
    }
    if contains(&drop_spaces(&name), &drop_spaces(&query)) {
        return true;
    }
    let query_words = split_words(&query);
    if query_words.len() <= 1 {
        return false;
    }
    let ghost all = words_view(query_words@);
    let mut i: usize = 0;
    while i < query_words.len()
        invariant
            i <= query_words.len(),
            all == words_view(query_words@),
            all == words(normalized_query@),
            all.len() > 1,
            name@ == normal_form(mod_name@),
            find(name@, normalized_query@) is None,
            find(without_spaces(name@), without_spaces(normalized_query@)) is None,
            forall|j: int| 0 <= j < i ==> find(name@, #[trigger] all[j]) is Some,
        decreases query_words.len() - i,
    {
        if !contains(&name, &chars_of(query_words[i].as_str())) {
            assert(find(name@, all[i as int]) is None);
            return false;
        }
        i += 1;
    }
    true
}

/// The range of indices of page `page`, or `None` where the page holds
/// nothing.
pub fn page_bounds(page: usize, page_size: usize, total: usize) -> (range: Option<(usize, usize)>)
    ensures
        range == page_range(page, page_size, total),
        match range {
            Some(range) => range.0 <= range.1 <= total && range.1 - range.0 <= page_size,
            None => true,
        },
{
    if page == 0 {
        return None;
    }
    let start = match (page - 1).checked_mul(page_size) {
        Some(start) => start,
        None => {
            return None;
        },
    };
    if start >= total {
        return None;
    }
    let end = match start.checked_add(page_size) {
        Some(end) => if end < total {
            end
        } else {
            total
        },
        None => total,
    };
    Some((start, end))
}

/// The normal form of `s`: in lower case, without the characters that are
/// neither alphanumeric nor white space, its words joined by single spaces.
pub fn normalize_string(s: &str) -> (normal: String)
    ensures
        normal@ == normal_form(s@),
{
    let lower = s.to_lowercase();
    let kept = keep_chars(&chars_of(lower.as_str()));
    let found = split_words(&kept);
    join_words(&found)
}

/// The keywords of `text`: the words of its normal form that take more than
/// two bytes.
pub fn extract_keywords(text: &str) -> (found: Vec<String>)
    ensures
        words_view(found@) == keywords(text@),
{
    let normal = normalize_string(text);
    let all = split_words(&chars_of(normal.as_str()));
    let ghost all_view = words_view(all@);
    let mut found: Vec<String> = Vec::new();
    assert(all_view.take(0) == Seq::<Seq<char>>::empty());
    assert(words_view(found@) =~= Seq::<Seq<char>>::empty());
    for word in it: all
        invariant
            words_view(it.seq()) == all_view,
            words_view(found@) == long_words(all_view.take(it.index() as int)),
    {
        let ghost n = it.index() as int;
        proof {
            assert(all_view[n] == word@);
            assert(all_view.take(n + 1).drop_last() == all_view.take(n));
            assert(all_view.take(n + 1).last() == word@);
        }
        if word.as_str().as_bytes().len() > 2 {
            let ghost before = found@;
            found.push(word);
            assert(words_view(found@) =~= words_view(before).push(word@));
        }
    }
    assert(all_view.take(all_view.len() as int) == all_view);
    found
}

} // verus!
