//! Wiring tables: the fixed substitution of a wheel.
//!
//! A wiring is described by a line of 26 upper-case letters; position `i`
//! holds the cipher image of the letter with alphabet index `i`. It is valid
//! when it is a permutation: every letter appears exactly once. The exec
//! representation is a table of 26 bytes, each an alphabet index.

use vstd::prelude::*;
use vstd::set_lib::lemma_int_range;
use vstd::set_lib::lemma_len_subset;
use vstd::set_lib::lemma_subset_equality;
use vstd::set_lib::set_int_range;
use crate::letters::is_letter;
use crate::letters::letter_index;

verus! {

/// A valid wiring: 26 alphabet indices, each in range and none repeated,
/// so that the table is a permutation of `[0, 26)`.
pub open spec fn valid_wiring(w: Seq<int>) -> bool {
    &&& w.len() == 26
    &&& (forall|i: int| 0 <= i < 26 ==> 0 <= #[trigger] w[i] < 26)
    &&& w.no_duplicates()
}

/// The position of a wiring at which the value `v` stands.
pub open spec fn wiring_inverse(w: Seq<int>, v: int) -> int {
    choose|k: int| 0 <= k < 26 && w[k] == v
}

/// The wiring that a line of letters describes, position by position.
pub open spec fn wiring_of_letters(s: Seq<char>) -> Seq<int> {
    Seq::new(s.len(), |i: int| letter_index(s[i]))
}

/// A line of text describes a valid wiring: 26 upper-case letters, no
/// letter repeated.
pub open spec fn valid_wiring_text(s: Seq<char>) -> bool {
    &&& s.len() == 26
    &&& (forall|i: int| 0 <= i < 26 ==> is_letter(#[trigger] s[i]))
    &&& valid_wiring(wiring_of_letters(s))
}

/// A wiring that is its own inverse: the entry standing at each entry's
/// value is the position itself. A reflector's wiring is expected to be such
/// an involution.
pub open spec fn involutive_wiring(w: Seq<int>) -> bool {
    &&& valid_wiring(w)
    &&& forall|i: int| 0 <= i < 26 ==> #[trigger] w[w[i]] == i
}

/// The wiring a table of bytes holds.
pub open spec fn table_view(t: Seq<u8>) -> Seq<int> {
    Seq::new(t.len(), |i: int| t[i] as int)
}

/// Law: over the 26 alphabet indices, a valid wiring takes each value in
/// `[0, 26)` exactly once — at some position, and at no two distinct
/// positions.
pub proof fn lemma_wiring_permutation(w: Seq<int>, v: int)
    requires
        valid_wiring(w),
        0 <= v < 26,
    ensures
        exists|k: int| 0 <= k < 26 && w[k] == v,
        forall|k1: int, k2: int|
            0 <= k1 < 26 && 0 <= k2 < 26 && w[k1] == v && w[k2] == v ==> k1 == k2,
{
    let img = w.to_set();
    w.unique_seq_to_set();
    lemma_int_range(0, 26);
    assert(img.subset_of(set_int_range(0, 26))) by {
        assert forall|x: int| img.contains(x) implies set_int_range(0, 26).contains(x) by {
            let i = choose|i: int| 0 <= i < w.len() && w[i] == x;
            assert(0 <= w[i] < 26);
        }
    }
    lemma_len_subset(img, set_int_range(0, 26));
    lemma_subset_equality(img, set_int_range(0, 26));
    assert(set_int_range(0, 26).contains(v));
    assert(w.contains(v));
}

/// In a valid wiring, the inverse position of a value in `[0, 26)` lies in
/// range and looks the value back up.
pub proof fn lemma_wiring_inverse(w: Seq<int>, v: int)
    requires
        valid_wiring(w),
        0 <= v < 26,
    ensures
        0 <= wiring_inverse(w, v) < 26,
        w[wiring_inverse(w, v)] == v,
{
    lemma_wiring_permutation(w, v);
    let k = choose|k: int| 0 <= k < 26 && w[k] == v;
    assert(0 <= wiring_inverse(w, v) < 26 && w[wiring_inverse(w, v)] == v);
}

/// The inverse of a wiring's own entry is the entry's position.
pub proof fn lemma_wiring_inverse_of_entry(w: Seq<int>, k: int)
    requires
        valid_wiring(w),
        0 <= k < 26,
    ensures
        wiring_inverse(w, w[k]) == k,
{
    lemma_wiring_inverse(w, w[k]);
    lemma_wiring_permutation(w, w[k]);
}

/// Decides whether a line of text describes a valid wiring, as construction
/// requires: 26 upper-case letters with no letter repeated.
pub fn check_wiring(text: &str) -> (ok: bool)
    ensures
        ok == valid_wiring_text(text@),
{
    let n = text.unicode_len();
    if n != 26 {
        return false;
    }
    let mut seen: Vec<bool> = Vec::new();
    let mut v: usize = 0;
    while v < 26
        invariant
            seen@.len() == v,
            v <= 26,
            forall|j: int| 0 <= j < v ==> !(#[trigger] seen@[j]),
        decreases 26 - v,
    {
        seen.push(false);
        v += 1;
    }
    let mut i: usize = 0;
    while i < 26
        invariant
            i <= 26,
            text@.len() == 26,
            seen@.len() == 26,
            forall|j: int| 0 <= j < i ==> is_letter(#[trigger] text@[j]),
            forall|x: int|
                0 <= x < 26
                    ==> (#[trigger] seen@[x] <==> exists|j: int|
                        0 <= j < i && letter_index(#[trigger] text@[j]) == x),
            forall|j1: int, j2: int|
                0 <= j1 < i && 0 <= j2 < i && j1 != j2
                    ==> letter_index(#[trigger] text@[j1]) != letter_index(#[trigger] text@[j2]),
        decreases 26 - i,
    {
        let c = text.get_char(i);
        match crate::letters::letter_index_of(c) {
            Some(ix) => {
                if seen[ix as usize] {
                    proof {
                        let j = choose|j: int|
                            0 <= j < i && letter_index(text@[j]) == ix as int;
                        assert(wiring_of_letters(text@)[j] == wiring_of_letters(text@)[i as int]);
                        assert(!wiring_of_letters(text@).no_duplicates());
                    }
                    return false;
                }
                seen.set(ix as usize, true);
            },
            None => {
                return false;
            },
        }
        i += 1;
    }
    proof {
        assert forall|j1: int, j2: int|
            0 <= j1 < 26 && 0 <= j2 < 26 && j1 != j2 implies wiring_of_letters(text@)[j1]
            != wiring_of_letters(text@)[j2] by {
            assert(letter_index(text@[j1]) != letter_index(text@[j2]));
        }
        assert(valid_wiring_text(text@));
    }
    true
}

/// Reads a wiring table from a line of 26 letters.
pub(crate) fn wiring_table(text: &str) -> (t: Vec<u8>)
    requires
        valid_wiring_text(text@),
    ensures
        table_view(t@) == wiring_of_letters(text@),
        t@.len() == 26,
{
    let mut t: Vec<u8> = Vec::new();
    let mut i: usize = 0;
    while i < 26
        invariant
            valid_wiring_text(text@),
            i <= 26,
            t@.len() == i,
            forall|j: int| 0 <= j < i ==> #[trigger] t@[j] as int == letter_index(text@[j]),
        decreases 26 - i,
    {
        let c = text.get_char(i);
        let v = c as u32;
        t.push((v - 65) as u8);
        i += 1;
    }
    proof {
        assert(table_view(t@) =~= wiring_of_letters(text@));
    }
    t
}

/// The position at which a value stands in a valid wiring table.
pub(crate) fn table_position_of(t: &Vec<u8>, v: u8) -> (k: u8)
    requires
        valid_wiring(table_view(t@)),
        v < 26,
    ensures
        k < 26,
        t@[k as int] == v,
        k as int == wiring_inverse(table_view(t@), v as int),
{
    let mut k: usize = 0;
    while k < 26
        invariant
            valid_wiring(table_view(t@)),
            v < 26,
            k <= 26,
            forall|j: int| 0 <= j < k ==> #[trigger] t@[j] != v,
        decreases 26 - k,
    {
        if t[k] == v {
            proof {
                lemma_wiring_inverse(table_view(t@), v as int);
                lemma_wiring_permutation(table_view(t@), v as int);
                assert(table_view(t@)[k as int] == v as int);
                assert(table_view(t@)[wiring_inverse(table_view(t@), v as int)] == v as int);
            }
            return k as u8;
        }
        k += 1;
    }
    proof {
        lemma_wiring_permutation(table_view(t@), v as int);
        let j = choose|j: int| 0 <= j < 26 && table_view(t@)[j] == v as int;
        assert(t@[j] == v);
        assert(false);
    }
    0
}

} // verus!
