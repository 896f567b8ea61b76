//! Names of the emitted bindings: lower-snake for fields and operations, upper-camel for
//! types.

use vstd::prelude::*;

verus! {

/// Whether `c` is an ASCII capital letter.
pub open spec fn is_upper(c: char) -> bool {
    65 <= c as u32 <= 90
}

/// Whether `c` is an ASCII small letter.
pub open spec fn is_lower(c: char) -> bool {
    97 <= c as u32 <= 122
}

/// The small letter of an ASCII capital letter; any other character as it is.
pub open spec fn lowered(c: char) -> char {
    if is_upper(c) {
        ((c as u32 + 32) as u8) as char
    } else {
        c
    }
}

/// The capital letter of an ASCII small letter; any other character as it is.
pub open spec fn raised(c: char) -> char {
    if is_lower(c) {
        ((c as u32 - 32) as u8) as char
    } else {
        c
    }
}

/// A name in lower-snake form: each ASCII capital letter becomes its small letter, after a
/// `_` unless it is the first character of the name.
pub open spec fn snake_case(name: Seq<char>) -> Seq<char>
    decreases name.len(),
{
    if name.len() == 0 {
        Seq::empty()
    } else if !is_upper(name.last()) {
        snake_case(name.drop_last()).push(name.last())
    } else if name.len() == 1 {
        seq![lowered(name.last())]
    } else {
        snake_case(name.drop_last()).push('_').push(lowered(name.last()))
    }
}

/// The rest of a name in upper-camel form, where `new_word` says whether a word begins:
/// each `_` is left out, and the character after it is raised.
pub open spec fn camel_from(name: Seq<char>, new_word: bool) -> Seq<char>
    decreases name.len(),
{
    if name.len() == 0 {
        Seq::empty()
    } else if name[0] == '_' {
        camel_from(name.drop_first(), true)
    } else if new_word {
        seq![raised(name[0])] + camel_from(name.drop_first(), false)
    } else {
        seq![name[0]] + camel_from(name.drop_first(), false)
    }
}

/// A name in upper-camel form: the `_` are left out, and the first character and each
/// character after a `_` are raised.
pub open spec fn camel_case(name: Seq<char>) -> Seq<char> {
    camel_from(name, true)
}

/// `case::CaseExt::to_snake` on a string slice: the name with each ASCII capital letter
/// made small and, unless it comes first, set after a `_`.
#[verifier::external_body]
pub(crate) fn to_snake(name: &str) -> (r: String)
    ensures
        r@ == snake_case(name@),
{
    case::CaseExt::to_snake(name)
}

/// `case::CaseExt::to_camel` on a string slice: the name without its `_`, with the first
/// character and each character after a `_` made an ASCII capital letter where it is an
/// ASCII small letter.
#[verifier::external_body]
pub(crate) fn to_camel(name: &str) -> (r: String)
    ensures
        r@ == camel_case(name@),
{
    case::CaseExt::to_camel(name)
}

} // verus!
