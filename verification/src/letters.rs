//! Upper-case letters and their zero-based alphabet indices.
//!
//! Wheels substitute on alphabet indices in `[0, 26)`; the machine's signal
//! path carries positions in the same range. This module fixes the
//! letter/index correspondence that every other module relies on.

use vstd::prelude::*;

verus! {

/// A character counts as a letter exactly when it is upper-case Latin.
pub open spec fn is_letter(c: char) -> bool {
    65 <= c as int <= 90
}

/// The zero-based alphabet index of an upper-case letter.
pub open spec fn letter_index(c: char) -> int {
    c as int - 65
}

/// The upper-case letter at a zero-based alphabet index in `[0, 26)`.
pub open spec fn index_letter(i: int) -> char {
    (i + 65) as char
}

/// A letter's index converts back to the letter itself.
pub proof fn lemma_letter_round_trip(c: char)
    requires
        is_letter(c),
    ensures
        index_letter(letter_index(c)) == c,
{
}

/// The letter at an index in `[0, 26)` is a letter with that index.
pub proof fn lemma_index_letter(i: int)
    requires
        0 <= i < 26,
    ensures
        is_letter(index_letter(i)),
        letter_index(index_letter(i)) == i,
{
}

/// Classifies a character: its zero-based alphabet index when it is an
/// upper-case letter, nothing otherwise.
pub(crate) fn letter_index_of(c: char) -> (r: Option<u8>)
    ensures
        match r {
            Some(i) => is_letter(c) && i < 26 && i as int == letter_index(c),
            None => !is_letter(c),
        },
{
    let v = c as u32;
    if 65 <= v && v <= 90 {
        Some((v - 65) as u8)
    } else {
        None
    }
}

/// The character form of the letter at a zero-based alphabet index.
pub(crate) fn letter_at(i: u8) -> (c: char)
    requires
        i < 26,
    ensures
        c == index_letter(i as int),
{
    (i + 65) as char
}

/// Relies on std's String::push: it appends exactly the given character to
/// the end of the string.
pub assume_specification[ String::push ](s: &mut String, c: char)
    ensures
        final(s)@ == old(s)@.push(c),
;

} // verus!
