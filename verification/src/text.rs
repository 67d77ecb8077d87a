//! Bridges between `str`/`String` and the character sequences the block
//! algebra works on, together with the whitespace test used by rendering.

use vstd::prelude::*;

verus! {

/// Whether a character beyond ASCII has the Unicode `White_Space` property,
/// as `char::is_whitespace` reports it. Left abstract: a pure function of
/// the character, fixed by Unicode.
pub uninterp spec fn white_beyond_ascii(c: char) -> bool;

/// Whether a character counts as whitespace when a line's tail is trimmed:
/// the Unicode `White_Space` property. Within ASCII that property holds of
/// exactly the space character and U+0009..=U+000D.
pub open spec fn is_trim_white(c: char) -> bool {
    if (c as u32) == 0x20 || (0x9 <= (c as u32) && (c as u32) <= 0xD) {
        true
    } else if (c as u32) < 0x80 {
        false
    } else {
        white_beyond_ascii(c)
    }
}

/// Relies on `char::is_whitespace`: true exactly for characters with the
/// Unicode `White_Space` property, which within ASCII are the space
/// character and U+0009..=U+000D.
pub assume_specification[ char::is_whitespace ](c: char) -> (r: bool)
    ensures
        r == is_trim_white(c),
        (c as u32) >= 0x80 ==> r == white_beyond_ascii(c),
;

/// Relies on `str::chars`: yields the text's characters in order. The length
/// bound is forced by the machine: a `Vec<char>` stores four bytes per
/// element and no Rust allocation exceeds `isize::MAX` bytes.
#[verifier::external_body]
pub(crate) fn text_chars(text: &str) -> (v: Vec<char>)
    ensures
        v@ == text@,
        v@.len() <= usize::MAX / 4,
{
    text.chars().collect()
}

/// Relies on `String::push`: appends the given character to the end.
pub assume_specification[ String::push ](s: &mut String, c: char)
    ensures
        final(s)@ == old(s)@.push(c),
;

} // verus!
