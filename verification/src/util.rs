//! Utility functions.

use vstd::prelude::*;
use vstd::string::*;

use crate::text;

verus! {

/// Takes the spaces and tabs off the start of a string.
pub fn strip_leading_ascii_hspace(s: &str) -> (stripped: &str)
    ensures
        stripped@ == text::without_leading_hspace(s@),
{
    let chars = text::chars_of(s);
    let mut i: usize = 0;
    assert(s@.skip(0) =~= s@);
    while i < chars.len() && (chars[i] == ' ' || chars[i] == '\t')
        invariant
            i <= chars.len(),
            chars@ == s@,
            text::without_leading_hspace(s@.skip(i as int)) == text::without_leading_hspace(s@),
        decreases chars.len() - i,
    {
        assert(s@.skip(i as int).drop_first() =~= s@.skip(i + 1));
        i = i + 1;
    }
    s.substring_char(i, chars.len())
}

/// Takes the spaces, tabs and newlines off the end of a string.
pub fn strip_trailing_ascii_space(s: &str) -> (stripped: &str)
    ensures
        stripped@ == text::without_trailing_space(s@),
{
    let chars = text::chars_of(s);
    let mut i: usize = chars.len();
    assert(s@.take(i as int) =~= s@);
    while i > 0 && (chars[i - 1] == ' ' || chars[i - 1] == '\t' || chars[i - 1] == '\n')
        invariant
            i <= chars.len(),
            chars@ == s@,
            text::without_trailing_space(s@.take(i as int)) == text::without_trailing_space(s@),
        decreases i,
    {
        assert(s@.take(i as int).drop_last() =~= s@.take(i - 1));
        i = i - 1;
    }
    s.substring_char(0, i)
}

} // verus!
