use crate::pattern::SEPARATOR;
use vstd::prelude::*;

verus! {

/// Whether a path begins with the separator, which makes it absolute.
pub open spec fn leads_with_separator(path: Seq<char>) -> bool {
    path.len() > 0 && path[0] == SEPARATOR
}

/// Whether a path ends with the separator.
pub open spec fn ends_with_separator(path: Seq<char>) -> bool {
    path.len() > 0 && path.last() == SEPARATOR
}

/// A path without one trailing separator, if it has one.
pub open spec fn normalized(path: Seq<char>) -> Seq<char> {
    if ends_with_separator(path) {
        path.drop_last()
    } else {
        path
    }
}

/// The paths that the matcher can be asked about: those without a NUL
/// character.
pub open spec fn matchable(path: Seq<char>) -> bool {
    !path.contains('\0')
}

/// Whether `path` begins with the separator.
pub fn has_leading_separator(path: &str) -> (res: bool)
    ensures
        res == leads_with_separator(path@),
{
    !path.is_empty() && path.get_char(0) == SEPARATOR
}

/// `path` without one trailing separator, if it has one. A second trailing
/// separator stays.
pub fn normalize(path: &str) -> (res: &str)
    ensures
        res@ == normalized(path@),
{
    let n = path.unicode_len();
    if n > 0 && path.get_char(n - 1) == SEPARATOR {
        path.substring_char(0, n - 1)
    } else {
        path
    }
}

/// Whether the matcher can be asked about `path`.
pub fn is_matchable(path: &str) -> (res: bool)
    ensures
        res == matchable(path@),
{
    for c in iter: path.chars()
        invariant
            iter.seq() == path@,
            forall|j: int| 0 <= j < iter.index() ==> path@[j] != '\0',
    {
        if c == '\0' {
            return false;
        }
    }
    true
}

/// Appending one separator to a path is undone by normalizing.
pub proof fn lemma_normalized_strips_one(path: Seq<char>)
    ensures
        normalized(path.push(SEPARATOR)) == path,
{
    assert(path.push(SEPARATOR).drop_last() =~= path);
}

} // verus!
