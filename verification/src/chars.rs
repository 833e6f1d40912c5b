//! The XML Name grammar: predicates classifying Unicode code points as valid
//! XML name-start or name-continuation characters, as exact range tables.

use vstd::prelude::*;

verus! {

/// The XML 1.0 `NameStartChar` production: letters, `:`, `_`, and the fixed
/// list of Unicode code-point ranges of the grammar.
pub open spec fn spec_is_name_start_char(c: char) -> bool {
    ||| c == ':'
    ||| ('A' <= c && c <= 'Z')
    ||| c == '_'
    ||| ('a' <= c && c <= 'z')
    ||| ('\u{C0}' <= c && c <= '\u{D6}')
    ||| ('\u{D8}' <= c && c <= '\u{F6}')
    ||| ('\u{F8}' <= c && c <= '\u{2FF}')
    ||| ('\u{370}' <= c && c <= '\u{37D}')
    ||| ('\u{37F}' <= c && c <= '\u{1FFF}')
    ||| ('\u{200C}' <= c && c <= '\u{200D}')
    ||| ('\u{2070}' <= c && c <= '\u{218F}')
    ||| ('\u{2C00}' <= c && c <= '\u{2FEF}')
    ||| ('\u{3001}' <= c && c <= '\u{D7FF}')
    ||| ('\u{F900}' <= c && c <= '\u{FDCF}')
    ||| ('\u{FDF0}' <= c && c <= '\u{FFFD}')
    ||| ('\u{10000}' <= c && c <= '\u{EFFFF}')
}

/// The XML 1.0 `NameChar` production: a `NameStartChar`, or a digit, `-`,
/// `.`, the middle dot, or one of the two combining-mark ranges.
pub open spec fn spec_is_name_char(c: char) -> bool {
    ||| spec_is_name_start_char(c)
    ||| c == '-'
    ||| c == '.'
    ||| ('0' <= c && c <= '9')
    ||| c == '\u{B7}'
    ||| ('\u{300}' <= c && c <= '\u{36F}')
    ||| ('\u{203F}' <= c && c <= '\u{2040}')
}

/// True exactly when `c` may start an XML name.
pub fn is_name_start_char(c: char) -> (r: bool)
    ensures
        r == spec_is_name_start_char(c),
{
    c == ':' || ('A' <= c && c <= 'Z') || c == '_' || ('a' <= c && c <= 'z') || ('\u{C0}' <= c
        && c <= '\u{D6}') || ('\u{D8}' <= c && c <= '\u{F6}') || ('\u{F8}' <= c && c <= '\u{2FF}')
        || ('\u{370}' <= c && c <= '\u{37D}') || ('\u{37F}' <= c && c <= '\u{1FFF}') || ('\u{200C}'
        <= c && c <= '\u{200D}') || ('\u{2070}' <= c && c <= '\u{218F}') || ('\u{2C00}' <= c && c
        <= '\u{2FEF}') || ('\u{3001}' <= c && c <= '\u{D7FF}') || ('\u{F900}' <= c && c
        <= '\u{FDCF}') || ('\u{FDF0}' <= c && c <= '\u{FFFD}') || ('\u{10000}' <= c && c
        <= '\u{EFFFF}')
}

/// True exactly when `c` may continue an XML name.
pub fn is_name_char(c: char) -> (r: bool)
    ensures
        r == spec_is_name_char(c),
{
    is_name_start_char(c) || c == '-' || c == '.' || ('0' <= c && c <= '9') || c == '\u{B7}' || (
    '\u{300}' <= c && c <= '\u{36F}') || ('\u{203F}' <= c && c <= '\u{2040}')
}

/// ASCII whitespace as the scanner recognises it: space, tab, newline,
/// carriage return, and form feed.
pub open spec fn spec_is_space(c: char) -> bool {
    c == ' ' || c == '\t' || c == '\n' || c == '\r' || c == '\u{C}'
}

/// True exactly when `c` is ASCII whitespace.
pub fn is_space(c: char) -> (r: bool)
    ensures
        r == spec_is_space(c),
{
    c == ' ' || c == '\t' || c == '\n' || c == '\r' || c == '\u{C}'
}

/// The first index at or after `i` whose character is not a name character,
/// or `s.len()` when name characters run to the end.
pub open spec fn name_end(s: Seq<char>, i: int) -> int
    decreases s.len() - i,
{
    if i < 0 || i >= s.len() {
        i
    } else if !spec_is_name_char(s[i]) {
        i
    } else {
        name_end(s, i + 1)
    }
}

/// `name_end` stays within the input, everything before it is a name
/// character, and the character it stops on (if any) is not.
pub proof fn lemma_name_end(s: Seq<char>, i: int)
    requires
        0 <= i <= s.len(),
    ensures
        i <= name_end(s, i) <= s.len(),
        forall|j: int| i <= j < name_end(s, i) ==> spec_is_name_char(s[j]),
        name_end(s, i) < s.len() ==> !spec_is_name_char(s[name_end(s, i)]),
    decreases s.len() - i,
{
    if i < s.len() && spec_is_name_char(s[i]) {
        lemma_name_end(s, i + 1);
    }
}

/// The first index at or after `i` holding exactly the character `c`, or
/// `s.len()` when `c` does not occur again.
pub open spec fn find_char(s: Seq<char>, i: int, c: char) -> int
    decreases s.len() - i,
{
    if i < 0 || i >= s.len() {
        s.len() as int
    } else if s[i] == c {
        i
    } else {
        find_char(s, i + 1, c)
    }
}

/// `find_char` stays within the input, skips no earlier occurrence, and
/// lands on `c` when it lands at all.
pub proof fn lemma_find_char(s: Seq<char>, i: int, c: char)
    requires
        0 <= i <= s.len(),
    ensures
        i <= find_char(s, i, c) <= s.len(),
        forall|j: int| i <= j < find_char(s, i, c) ==> s[j] != c,
        find_char(s, i, c) < s.len() ==> s[find_char(s, i, c)] == c,
    decreases s.len() - i,
{
    if i < s.len() && s[i] != c {
        lemma_find_char(s, i + 1, c);
    }
}

} // verus!
