//! Rules about profiles: the name of a profile's folder, and what the
//! attributes of a directory entry tell.
//!
//! The folder of a profile is named after the profile. Accented letters lose
//! their accent, every character that is neither a letter nor a digit becomes
//! a hyphen, runs of hyphens shrink to one, letters become lower case, and
//! hyphens at either end are cut off.

use crate::search::{alphanumeric, lowercase};
use crate::text::{chars_of, string_of, trim, trim_bounds};
use vstd::prelude::*;

verus! {

/// The attribute bit that marks a directory entry as a reparse point, such
/// as a junction or a symbolic link.
pub const REPARSE_POINT_ATTRIBUTE: u32 = 0x0400;

/// Whether the attributes of a directory entry mark it as a reparse point.
pub fn is_reparse_point(file_attributes: u32) -> (r: bool)
    ensures
        r == (file_attributes & REPARSE_POINT_ATTRIBUTE != 0),
{
    (file_attributes & REPARSE_POINT_ATTRIBUTE) != 0
}

/// The character that stands for `c` in a folder name, before runs of
/// hyphens are dealt with: the plain letter of an accented one, the
/// character itself where it is alphanumeric, a hyphen for anything else.
pub open spec fn folder_char(c: char) -> char {
    if c == 'á' || c == 'à' || c == 'â' || c == 'ã' || c == 'ä' {
        'a'
    } else if c == 'é' || c == 'è' || c == 'ê' || c == 'ë' {
        'e'
    } else if c == 'í' || c == 'ì' || c == 'î' || c == 'ï' {
        'i'
    } else if c == 'ó' || c == 'ò' || c == 'ô' || c == 'õ' || c == 'ö' {
        'o'
    } else if c == 'ú' || c == 'ù' || c == 'û' || c == 'ü' {
        'u'
    } else if c == 'ç' {
        'c'
    } else if c == 'ñ' {
        'n'
    } else if c == 'Á' || c == 'À' || c == 'Â' || c == 'Ã' || c == 'Ä' {
        'A'
    } else if c == 'É' || c == 'È' || c == 'Ê' || c == 'Ë' {
        'E'
    } else if c == 'Í' || c == 'Ì' || c == 'Î' || c == 'Ï' {
        'I'
    } else if c == 'Ó' || c == 'Ò' || c == 'Ô' || c == 'Õ' || c == 'Ö' {
        'O'
    } else if c == 'Ú' || c == 'Ù' || c == 'Û' || c == 'Ü' {
        'U'
    } else if c == 'Ç' {
        'C'
    } else if c == 'Ñ' {
        'N'
    } else if alphanumeric(c) {
        c
    } else {
        '-'
    }
}

/// `s` with each character replaced by the one that stands for it.
pub open spec fn folder_chars(s: Seq<char>) -> Seq<char> {
    Seq::new(s.len(), |i: int| folder_char(s[i]))
}

/// `s` with every run of hyphens shrunk to a single hyphen.
pub open spec fn collapse_hyphens(s: Seq<char>) -> Seq<char>
    decreases s.len(),
{
    if s.len() == 0 {
        s
    } else if s.last() == '-' && s.len() >= 2 && s[s.len() - 2] == '-' {
        collapse_hyphens(s.drop_last())
    } else {
        collapse_hyphens(s.drop_last()).push(s.last())
    }
}

/// `s` without the hyphens at its start.
pub open spec fn trim_hyphens_start(s: Seq<char>) -> Seq<char>
    decreases s.len(),
{
    if s.len() > 0 && s[0] == '-' {
        trim_hyphens_start(s.drop_first())
    } else {
        s
    }
}

/// `s` without the hyphens at its end.
pub open spec fn trim_hyphens_end(s: Seq<char>) -> Seq<char>
    decreases s.len(),
{
    if s.len() > 0 && s.last() == '-' {
        trim_hyphens_end(s.drop_last())
    } else {
        s
    }
}

/// The name of the folder of the profile named `name`.
pub open spec fn folder_name(name: Seq<char>) -> Seq<char> {
    trim_hyphens_end(trim_hyphens_start(lowercase(collapse_hyphens(folder_chars(name)))))
}

/// Why a profile cannot be named as asked.
#[derive(Clone, Copy, Debug, PartialEq, Eq, Structural)]
pub enum ProfileNameError {
    /// The name holds nothing but white space.
    Empty,
    /// Nothing of the name is left in the name of the folder.
    Invalid,
}

/// The name of the folder for a new profile named `name`, or why there is
/// none.
pub open spec fn new_folder_name(name: Seq<char>) -> Result<Seq<char>, ProfileNameError> {
    if trim(name).len() == 0 {
        Err(ProfileNameError::Empty)
    } else if folder_name(name).len() == 0 {
        Err(ProfileNameError::Invalid)
    } else {
        Ok(folder_name(name))
    }
}

/// The view of the name of a folder, or of the reason why there is none.
pub open spec fn folder_result_view(r: Result<String, ProfileNameError>) -> Result<
    Seq<char>,
    ProfileNameError,
> {
    match r {
        Ok(folder) => Ok(folder@),
        Err(error) => Err(error),
    }
}

/// `regex::Regex::replace_all` puts the replacement in the place of every
/// match of the pattern, going from left to right, no two matches
/// overlapping. A match of the pattern `-+` is a run of hyphens as long as
/// it can be, so with a single hyphen as the replacement every run of
/// hyphens shrinks to one hyphen, and nothing else is changed. The pattern
/// compiles, so `Regex::new` returns it.
#[verifier::external_body]
fn replace_hyphen_runs(pattern: &str, text: &str, replacement: &str) -> (replaced: String)
    requires
        pattern@ == "-+"@,
        replacement@ == "-"@,
    ensures
        replaced@ == collapse_hyphens(text@),
{
    regex::Regex::new(pattern).unwrap().replace_all(text, replacement).into_owned()
}

fn to_folder_char(c: char) -> (r: char)
    ensures
        r == folder_char(c),
{
    if c == 'á' || c == 'à' || c == 'â' || c == 'ã' || c == 'ä' {
        'a'
    } else if c == 'é' || c == 'è' || c == 'ê' || c == 'ë' {
        'e'
    } else if c == 'í' || c == 'ì' || c == 'î' || c == 'ï' {
        'i'
    } else if c == 'ó' || c == 'ò' || c == 'ô' || c == 'õ' || c == 'ö' {
        'o'
    } else if c == 'ú' || c == 'ù' || c == 'û' || c == 'ü' {
        'u'
    } else if c == 'ç' {
        'c'
    } else if c == 'ñ' {
        'n'
    } else if c == 'Á' || c == 'À' || c == 'Â' || c == 'Ã' || c == 'Ä' {
        'A'
    } else if c == 'É' || c == 'È' || c == 'Ê' || c == 'Ë' {
        'E'
    } else if c == 'Í' || c == 'Ì' || c == 'Î' || c == 'Ï' {
        'I'
    } else if c == 'Ó' || c == 'Ò' || c == 'Ô' || c == 'Õ' || c == 'Ö' {
        'O'
    } else if c == 'Ú' || c == 'Ù' || c == 'Û' || c == 'Ü' {
        'U'
    } else if c == 'Ç' {
        'C'
    } else if c == 'Ñ' {
        'N'
    } else if c.is_alphanumeric() {
        c
    } else {
        '-'
    }
}

fn trim_hyphen_bounds(v: &Vec<char>) -> (r: (usize, usize))
    ensures
        r.0 <= r.1 <= v.len(),
        v@.subrange(r.0 as int, r.1 as int) == trim_hyphens_end(trim_hyphens_start(v@)),
{
    let hi: usize = v.len();
    let mut i: usize = 0;
    assert(v@.subrange(0, hi as int) == v@);
    while i < hi && v[i] == '-'
        invariant
            i <= hi == v.len(),
            trim_hyphens_start(v@) == trim_hyphens_start(v@.subrange(i as int, hi as int)),
        decreases hi - i,
    {
        assert(v@.subrange(i as int, hi as int).drop_first() == v@.subrange(i + 1, hi as int));
        i += 1;
    }
    let mut j: usize = hi;
    while i < j && v[j - 1] == '-'
        invariant
            i <= j <= hi == v.len(),
            trim_hyphens_end(v@.subrange(i as int, hi as int)) == trim_hyphens_end(
                v@.subrange(i as int, j as int),
            ),
        decreases j - i,
    {
        assert(v@.subrange(i as int, j as int).drop_last() == v@.subrange(i as int, j - 1));
        j -= 1;
    }
    (i, j)
}

/// The name of the folder of the profile named `name`.
pub fn normalize_profile_name(name: &str) -> (folder: String)
    ensures
        folder@ == folder_name(name@),
{
    let given = chars_of(name);
    let mut plain = String::new();
    let mut i: usize = 0;
    while i < given.len()
        invariant
            i <= given.len(),
            plain@.len() == i,
            forall|j: int| 0 <= j < i ==> plain@[j] == folder_char(given@[j]),
        decreases given.len() - i,
    {
        plain.push(to_folder_char(given[i]));
        i += 1;
    }
    assert(plain@ =~= folder_chars(name@));
    let collapsed = replace_hyphen_runs("-+", plain.as_str(), "-");
    let lowered = chars_of(collapsed.as_str().to_lowercase().as_str());
    let (lo, hi) = trim_hyphen_bounds(&lowered);
    string_of(&lowered, lo, hi)
}

/// The name of the folder for a new profile named `profile_name`. A name of
/// nothing but white space is refused, and so is a name of which nothing is
/// left in the name of the folder.
pub fn profile_folder_name(profile_name: &str) -> (r: Result<String, ProfileNameError>)
    ensures
        folder_result_view(r) == new_folder_name(profile_name@),
{
    let given = chars_of(profile_name);
    assert(given@.subrange(0, given@.len() as int) == given@);
    let (lo, hi) = trim_bounds(&given, 0, given.len());
    if lo == hi {
        return Err(ProfileNameError::Empty);
    }
    let folder = normalize_profile_name(profile_name);
    if folder.as_str().unicode_len() == 0 {
        return Err(ProfileNameError::Invalid);
    }
    Ok(folder)
}

impl ProfileNameError {
    /// The refusal as a sentence for the user.
    pub fn message(&self) -> (text: &'static str)
        ensures
            text@ == match *self {
                ProfileNameError::Empty => "Nome do perfil não pode estar vazio"@,
                ProfileNameError::Invalid => "Nome do perfil inválido"@,
            },
    {
        match self {
            ProfileNameError::Empty => "Nome do perfil não pode estar vazio",
            ProfileNameError::Invalid => "Nome do perfil inválido",
        }
    }
}

} // verus!
