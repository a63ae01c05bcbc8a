//! Character-level predicates on token text: the block-start rule, the
//! story-block naming rule, and the digit pattern marking sequence indices.

use vstd::prelude::*;

verus! {

/// True for the characters '0' through '9'.
pub open spec fn spec_is_digit(c: char) -> bool {
    48 <= c as u32 <= 57
}

/// A dialogue-line position marker: exactly six ASCII digits.
pub open spec fn spec_is_index_token(s: Seq<char>) -> bool {
    s.len() == 6 && forall|i: int| 0 <= i < s.len() ==> #[trigger] spec_is_digit(s[i])
}

/// String equality, stated over the character views.
pub fn string_eq(a: &String, b: &String) -> (r: bool)
    ensures
        r == (a@ == b@),
{
    a.eq(b)
}

/// Equality between a string and a literal, stated over the character views.
pub fn string_eq_str(a: &String, b: &str) -> (r: bool)
    ensures
        r == (a@ == b@),
{
    let bo: String = b.to_owned();
    string_eq(a, &bo)
}

/// A name follows the story-block rule when, ignoring ASCII case, it starts
/// with `ac_` or `ac2_`.
pub open spec fn spec_is_story_block(s: Seq<char>) -> bool {
    ||| (s.len() >= 3 && (s[0] == 'a' || s[0] == 'A') && (s[1] == 'c' || s[1] == 'C') && s[2]
        == '_')
    ||| (s.len() >= 4 && (s[0] == 'a' || s[0] == 'A') && (s[1] == 'c' || s[1] == 'C') && s[2]
        == '2' && s[3] == '_')
}

/// Whether a block name marks a dialogue block eligible for speaker
/// reconciliation: case-insensitive prefix `ac_` or `ac2_`.
pub fn is_story_block(name: &str) -> (r: bool)
    ensures
        r == spec_is_story_block(name@),
{
    let n = name.unicode_len();
    if n < 3 {
        return false;
    }
    let c0 = name.get_char(0);
    let c1 = name.get_char(1);
    let c2 = name.get_char(2);
    if !(c0 == 'a' || c0 == 'A') || !(c1 == 'c' || c1 == 'C') {
        return false;
    }
    if c2 == '_' {
        return true;
    }
    if c2 == '2' && n >= 4 {
        name.get_char(3) == '_'
    } else {
        false
    }
}

} // verus!
