use vstd::prelude::*;

verus! {

/// The separator between the segments of a path and of a pattern.
pub const SEPARATOR: char = '/';

/// The parameter name under which the remainder of a path is captured for a
/// route with a nested level. No pattern of a route may use it.
pub const SUB_PATH_WILDCARD_NAME: &'static str = "_sub_path";

/// The most characters that a pattern can have for the matcher, which counts
/// the segments of a pattern in 32 bits.
pub const MAX_PATTERN_LENGTH: u64 = 0xffff_ffff;

/// The reserved parameter name, as characters.
pub open spec fn reserved_name() -> Seq<char> {
    SUB_PATH_WILDCARD_NAME@
}

/// The pattern that captures what follows `path` and a separator: `path`, a
/// separator, and a wildcard under the reserved name.
pub open spec fn sub_path_pattern(path: Seq<char>) -> Seq<char> {
    path + seq![SEPARATOR, '*'] + reserved_name()
}

/// Whether a character takes a single byte in UTF-8.
pub open spec fn single_byte(c: char) -> bool {
    (c as u32) < 0x80
}

/// A pattern without one leading separator, if it has one.
pub open spec fn without_leading_separator(pattern: Seq<char>) -> Seq<char> {
    if pattern.len() > 0 && pattern[0] == SEPARATOR {
        pattern.drop_first()
    } else {
        pattern
    }
}

/// The patterns that can be registered with the matcher: they have no more
/// characters than 32 bits count, they hold no NUL character, and what follows
/// an optional leading separator does not begin with a multi-byte character.
pub open spec fn registrable(pattern: Seq<char>) -> bool {
    &&& pattern.len() <= MAX_PATTERN_LENGTH
    &&& !pattern.contains('\0')
    &&& without_leading_separator(pattern).len() > 0 ==> single_byte(
        without_leading_separator(pattern)[0],
    )
}

/// The reserved name as characters, one by one.
pub proof fn lemma_reserved_name()
    ensures
        reserved_name() == seq!['_', 's', 'u', 'b', '_', 'p', 'a', 't', 'h'],
{
    reveal_strlit("_sub_path");
    assert(reserved_name() =~= seq!['_', 's', 'u', 'b', '_', 'p', 'a', 't', 'h']);
}

/// The sub-path pattern of `path` is `path` and eleven characters more, and
/// it is registrable exactly where `path` is and the longer pattern still has
/// a registrable length.
pub proof fn lemma_sub_path_pattern_registrable(path: Seq<char>)
    ensures
        sub_path_pattern(path).len() == path.len() + 11,
        registrable(sub_path_pattern(path)) <==> registrable(path) && path.len() + 11
            <= MAX_PATTERN_LENGTH,
{
    lemma_reserved_name();
    let tail = seq![SEPARATOR, '*'] + reserved_name();
    let whole = sub_path_pattern(path);
    assert(whole =~= path + tail);
    if whole.contains('\0') {
        let i = choose|i: int| 0 <= i < whole.len() && whole[i] == '\0';
        assert(i < path.len());
        assert(path[i] == '\0');
    }
    if path.contains('\0') {
        let i = choose|i: int| 0 <= i < path.len() && path[i] == '\0';
        assert(whole[i] == '\0');
    }
    let rest = without_leading_separator(whole);
    if path.len() > 0 && path[0] == SEPARATOR {
        assert(rest =~= without_leading_separator(path) + tail);
    } else if path.len() > 0 {
        assert(rest =~= whole);
    } else {
        assert(rest =~= seq!['*'] + reserved_name());
    }
}

/// Whether `pattern` can be registered with the matcher.
pub fn is_registrable(pattern: &str) -> (ok: bool)
    ensures
        ok == registrable(pattern@),
{
    for c in iter: pattern.chars()
        invariant
            iter.seq() == pattern@,
            forall|j: int| 0 <= j < iter.index() ==> pattern@[j] != '\0',
    {
        if c == '\0' {
            return false;
        }
    }
    let n = pattern.unicode_len();
    if n as u64 > MAX_PATTERN_LENGTH {
        return false;
    }
    if n == 0 {
        return true;
    }
    let first = pattern.get_char(0);
    if first != SEPARATOR {
        return is_single_byte(first);
    }
    if n == 1 {
        return true;
    }
    is_single_byte(pattern.get_char(1))
}

/// Whether `c` takes a single byte in UTF-8.
pub fn is_single_byte(c: char) -> (res: bool)
    ensures
        res == single_byte(c),
{
    (c as u32) < 0x80
}

/// The pattern that captures what follows `path` and a separator.
pub fn sub_path_pattern_of(path: &str) -> (pattern: String)
    ensures
        pattern@ == sub_path_pattern(path@),
{
    let mut pattern = String::from_str(path);
    pattern.append("/*");
    pattern.append(SUB_PATH_WILDCARD_NAME);
    proof {
        reveal_strlit("/*");
        assert("/*"@ =~= seq![SEPARATOR, '*']);
    }
    pattern
}

} // verus!
