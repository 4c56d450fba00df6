//! The HTTP `token` grammar (RFC 9110 Section 5.6.2).

use vstd::prelude::*;

use crate::text::str_chars;

verus! {

/// `tchar = "!" / "#" / "$" / "%" / "&" / "'" / "*" / "+" / "-" / "." /
///          "^" / "_" / "`" / "|" / "~" / DIGIT / ALPHA`
pub open spec fn is_tchar(c: char) -> bool {
    c == '!' || c == '#' || c == '$' || c == '%' || c == '&' || c == '\'' || c == '*' || c
        == '+' || c == '-' || c == '.' || c == '^' || c == '_' || c == '`' || c == '|' || c
        == '~' || ('0' <= c && c <= '9') || ('A' <= c && c <= 'Z') || ('a' <= c && c <= 'z')
}

/// `token = 1*tchar`
pub open spec fn is_token(s: Seq<char>) -> bool {
    s.len() > 0 && forall|i: int| 0 <= i < s.len() ==> #[trigger] is_tchar(s[i])
}

/// Whether `c` is a `tchar`.
pub fn tchar(c: char) -> (r: bool)
    ensures
        r == is_tchar(c),
{
    c == '!' || c == '#' || c == '$' || c == '%' || c == '&' || c == '\'' || c == '*' || c
        == '+' || c == '-' || c == '.' || c == '^' || c == '_' || c == '`' || c == '|' || c
        == '~' || ('0' <= c && c <= '9') || ('A' <= c && c <= 'Z') || ('a' <= c && c <= 'z')
}

/// Whether the characters `s` form a token.
pub fn chars_are_token(s: &[char]) -> (r: bool)
    ensures
        r == is_token(s@),
{
    if s.len() == 0 {
        return false;
    }
    let mut i: usize = 0;
    while i < s.len()
        invariant
            i <= s@.len(),
            forall|j: int| 0 <= j < i ==> #[trigger] is_tchar(s@[j]),
        decreases s@.len() - i,
    {
        if !tchar(s[i]) {
            return false;
        }
        i = i + 1;
    }
    true
}

/// Whether `s` is an HTTP token (RFC 9110 Section 5.6.2).
pub fn is_valid_token(s: &str) -> (r: bool)
    ensures
        r == is_token(s@),
{
    let cs = str_chars(s);
    chars_are_token(cs.as_slice())
}

} // verus!
