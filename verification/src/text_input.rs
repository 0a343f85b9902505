//! What a text field accepts from the keyboard.
use vstd::prelude::*;

verus! {

/// A printable ASCII character other than space.
pub open spec fn is_ascii_graphic(c: char) -> bool {
    '!' <= c && c <= '~'
}

/// Whether a typed character is added to a text field holding `current_len`
/// bytes at most `max_len` long: the field must not be full, and the
/// character must be printable ASCII or a space.
pub fn accepts_char(current_len: usize, max_len: u32, c: char) -> (b: bool)
    ensures
        b == (current_len < max_len && (is_ascii_graphic(c) || c == ' ')),
{
    if current_len >= max_len as usize {
        return false;
    }
    ('!' <= c && c <= '~') || c == ' '
}

} // verus!
