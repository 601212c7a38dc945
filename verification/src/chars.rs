//! Character classes of the command language.

use vstd::prelude::*;

verus! {

/// The characters that separate tokens: those with the Unicode `White_Space` property.
pub open spec fn spec_is_whitespace(c: char) -> bool {
    let n = c as u32;
    ||| 0x09 <= n <= 0x0D
    ||| n == 0x20
    ||| n == 0x85
    ||| n == 0xA0
    ||| n == 0x1680
    ||| 0x2000 <= n <= 0x200A
    ||| n == 0x2028
    ||| n == 0x2029
    ||| n == 0x202F
    ||| n == 0x205F
    ||| n == 0x3000
}

/// The characters that are operators, or begin one: `<`, `|`, `>`, `&`, `;`, `(`, `)`.
pub open spec fn spec_is_symbol(c: char) -> bool {
    c == '<' || c == '|' || c == '>' || c == '&' || c == ';' || c == '(' || c == ')'
}

/// A character that may stand inside a word.
pub open spec fn is_word_char(c: char) -> bool {
    !spec_is_whitespace(c) && !spec_is_symbol(c)
}

/// Whether `c` separates tokens.
#[verifier::when_used_as_spec(spec_is_whitespace)]
pub fn is_whitespace(c: char) -> (r: bool)
    ensures
        r == spec_is_whitespace(c),
{
    let n: u32 = c as u32;
    (0x09 <= n && n <= 0x0D) || n == 0x20 || n == 0x85 || n == 0xA0 || n == 0x1680 || (0x2000
        <= n && n <= 0x200A) || n == 0x2028 || n == 0x2029 || n == 0x202F || n == 0x205F || n
        == 0x3000
}

/// Whether `c` is an operator, or begins one.
#[verifier::when_used_as_spec(spec_is_symbol)]
pub fn is_symbol(c: char) -> (r: bool)
    ensures
        r == spec_is_symbol(c),
{
    c == '<' || c == '|' || c == '>' || c == '&' || c == ';' || c == '(' || c == ')'
}

} // verus!
