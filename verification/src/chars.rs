//! Character classes that drive the splitter and the classifier.

use vstd::prelude::*;

verus! {

/// The punctuation characters that form their own words when split.
pub open spec fn is_punct(c: char) -> bool {
    c == '(' || c == ')' || c == '{' || c == '}' || c == ':' || c == ';'
}

/// Whitespace (the Unicode White_Space set): a pure separator that never
/// appears inside a word.
pub open spec fn is_space(c: char) -> bool {
    ||| (9 <= c as u32 && c as u32 <= 13)
    ||| c as u32 == 32
    ||| c as u32 == 0x85
    ||| c as u32 == 0xa0
    ||| c as u32 == 0x1680
    ||| (0x2000 <= c as u32 && c as u32 <= 0x200a)
    ||| c as u32 == 0x2028
    ||| c as u32 == 0x2029
    ||| c as u32 == 0x202f
    ||| c as u32 == 0x205f
    ||| c as u32 == 0x3000
}

/// A character that may appear in an ordinary (non-punctuation) word.
pub open spec fn is_word_char(c: char) -> bool {
    !is_space(c) && !is_punct(c)
}

/// ASCII letter.
pub open spec fn is_alpha(c: char) -> bool {
    (97 <= c as u32 && c as u32 <= 122) || (65 <= c as u32 && c as u32 <= 90)
}

/// Whether `c` has the Unicode Alphabetic property: the test that decides
/// the keyword-or-identifier branch of the classifier.
pub uninterp spec fn alphabetic_of(c: char) -> bool;

/// Relies on char::is_alphabetic: whether the character has the Unicode
/// Alphabetic property, a function of the character alone. ASCII letters
/// are alphabetic; no other ASCII character is.
#[verifier::external_body]
pub(crate) fn alphabetic_char(c: char) -> (b: bool)
    ensures
        b == alphabetic_of(c),
        is_alpha(c) ==> b,
        (c as u32) < 128 && !is_alpha(c) ==> !b,
{
    c.is_alphabetic()
}

pub fn punct_char(c: char) -> (b: bool)
    ensures
        b == is_punct(c),
{
    c == '(' || c == ')' || c == '{' || c == '}' || c == ':' || c == ';'
}

pub fn space_char(c: char) -> (b: bool)
    ensures
        b == is_space(c),
{
    let u: u32 = c as u32;
    (9 <= u && u <= 13) || u == 32 || u == 0x85 || u == 0xa0 || u == 0x1680 || (0x2000 <= u && u
        <= 0x200a) || u == 0x2028 || u == 0x2029 || u == 0x202f || u == 0x205f || u == 0x3000
}

} // verus!
