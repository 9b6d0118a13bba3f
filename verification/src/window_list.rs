//! Which windows the window picker lists: those with a title that is not
//! blank.

use vstd::prelude::*;

verus! {

/// Unicode White_Space, the characters `char::is_whitespace` accepts.
pub open spec fn is_white_space(c: char) -> bool {
    let u = c as u32;
    (0x09 <= u <= 0x0D) || u == 0x20 || u == 0x85 || u == 0xA0 || u == 0x1680 || (0x2000 <= u
        <= 0x200A) || u == 0x2028 || u == 0x2029 || u == 0x202F || u == 0x205F || u == 0x3000
}

/// `char::is_whitespace`, which std documents as the Unicode White_Space
/// property.
pub fn white_space(c: char) -> (b: bool)
    ensures
        b == is_white_space(c),
{
    let u = c as u32;
    (0x09 <= u && u <= 0x0D) || u == 0x20 || u == 0x85 || u == 0xA0 || u == 0x1680 || (0x2000 <= u
        && u <= 0x200A) || u == 0x2028 || u == 0x2029 || u == 0x202F || u == 0x205F || u == 0x3000
}

/// A blank text: nothing but white space (what trimming leaves empty).
pub open spec fn is_blank_text(text: Seq<char>) -> bool {
    forall|i: int| 0 <= i < text.len() ==> is_white_space(#[trigger] text[i])
}

/// Whether a window title is blank; blank titles are not listed.
pub fn is_blank(title: &str) -> (b: bool)
    ensures
        b == is_blank_text(title@),
{
    broadcast use vstd::string::axiom_spec_iter;
    for c in it: title.chars()
        invariant
            it.seq() == title@,
            forall|j: int| 0 <= j < it.index() ==> is_white_space(#[trigger] title@[j]),
    {
        if !white_space(c) {
            return false;
        }
    }
    true
}

} // verus!
