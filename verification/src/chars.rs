use vstd::prelude::*;

verus! {

/// What `char::is_alphanumeric` answers for `c`: whether `c` has the Unicode
/// `Alphabetic` property or a Unicode numeric general category.
pub uninterp spec fn alphanumeric(c: char) -> bool;

/// The characters with the Unicode `White_Space` property (PropList.txt):
/// tab through carriage return, space, U+0085, U+00A0, U+1680,
/// U+2000 through U+200A, U+2028, U+2029, U+202F, U+205F and U+3000.
pub open spec fn whitespace(c: char) -> bool {
    ||| ('\t' <= c && c <= '\r')
    ||| c == ' '
    ||| c == '\u{85}'
    ||| c == '\u{A0}'
    ||| c == '\u{1680}'
    ||| ('\u{2000}' <= c && c <= '\u{200A}')
    ||| c == '\u{2028}'
    ||| c == '\u{2029}'
    ||| c == '\u{202F}'
    ||| c == '\u{205F}'
    ||| c == '\u{3000}'
}

/// The ASCII letters and digits.
pub open spec fn ascii_alphanumeric(c: char) -> bool {
    ('0' <= c <= '9') || ('A' <= c <= 'Z') || ('a' <= c <= 'z')
}

/// What std documents of `char::is_alphanumeric` on `c`: on an ASCII
/// character it is true exactly for letters and digits, and it is false on
/// every whitespace character. [`is_alphanumeric`] states this of every
/// character it is called on, and [`crate::token::tokenize`] of every
/// character of its input.
pub open spec fn documented_class(c: char) -> bool {
    &&& c <= '\x7f' ==> (alphanumeric(c) == ascii_alphanumeric(c))
    &&& whitespace(c) ==> !alphanumeric(c)
}

/// Calls `char::is_alphanumeric`; its answer depends on `c` alone and is
/// named `alphanumeric(c)`. On ASCII characters it is true exactly for the
/// letters and digits, and it is false on the `White_Space` characters,
/// which are neither `Alphabetic` nor numeric in the Unicode data; the
/// Unicode tables behind the other answers are not stated.
#[verifier::external_body]
pub(crate) fn is_alphanumeric(c: char) -> (r: bool)
    ensures
        r == alphanumeric(c),
        c <= '\x7f' ==> (r == ascii_alphanumeric(c)),
        whitespace(c) ==> !r,
{
    c.is_alphanumeric()
}

/// Whether `c` has the Unicode `White_Space` property, as `char::is_whitespace`
/// answers.
pub fn is_whitespace(c: char) -> (r: bool)
    ensures
        r == whitespace(c),
{
    ('\t' <= c && c <= '\r') || c == ' ' || c == '\u{85}' || c == '\u{A0}' || c == '\u{1680}' || (
    '\u{2000}' <= c && c <= '\u{200A}') || c == '\u{2028}' || c == '\u{2029}' || c == '\u{202F}'
        || c == '\u{205F}' || c == '\u{3000}'
}

} // verus!
