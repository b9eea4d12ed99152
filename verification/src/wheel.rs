//! One wheel's behaviour: substitution with rotor position and ring setting,
//! position-space signal translation, and stepping.
//!
//! The spec functions here say what a wheel does to an alphabet index, to a
//! character, and to a signal position; the exec functions compute the same
//! values over a byte table. Positions in the signal path are letter values
//! taken mod 26 in the frame of the neighbouring component, so `0` stands
//! for the letter whose value is 26.

use vstd::prelude::*;
use crate::letters::index_letter;
use crate::letters::is_letter;
use crate::letters::letter_at;
use crate::letters::letter_index;
use crate::letters::letter_index_of;
use crate::wiring::table_view;
use crate::wiring::table_position_of;
use crate::wiring::valid_wiring;
use crate::wiring::wiring_inverse;
use crate::wiring::wiring_of_letters;
use crate::wiring::lemma_wiring_inverse;
use crate::wiring::lemma_wiring_inverse_of_entry;

verus! {

/// The abstract state of one wheel.
#[verifier::ext_equal]
pub ghost struct WheelModel {
    /// The substitution table, a permutation of the alphabet indices.
    pub wiring: Seq<int>,
    /// The rotational offset applied on the input side, reduced mod 26.
    pub rotor_position: int,
    /// The fixed offset applied on the output side, reduced mod 26.
    pub ring_setting: int,
    /// The rotor positions at which stepping also steps the next wheel.
    pub triggers: Seq<int>,
}

impl WheelModel {
    /// A well-formed wheel: permutation wiring and reduced offsets.
    pub open spec fn wf(self) -> bool {
        &&& valid_wiring(self.wiring)
        &&& 0 <= self.rotor_position < 26
        &&& 0 <= self.ring_setting < 26
    }

    /// The wheel after one step: the rotor position advances by one, mod 26.
    pub open spec fn stepped(self) -> WheelModel {
        WheelModel { rotor_position: (self.rotor_position + 1) % 26, ..self }
    }

    /// Whether the wheel, standing at its current position, signals the next
    /// wheel in the chain to step.
    pub open spec fn signals(self) -> bool {
        self.triggers.contains(self.rotor_position)
    }
}

/// The positions a list of turnover triggers holds.
pub open spec fn positions_view(t: Seq<u16>) -> Seq<int> {
    Seq::new(t.len(), |i: int| t[i] as int)
}

/// The state of a freshly built wheel: wiring read from text, offsets
/// reduced mod 26, and no turnover triggers yet.
pub open spec fn initial_wheel(text: Seq<char>, offset: int, setting: int) -> WheelModel {
    WheelModel {
        wiring: wiring_of_letters(text),
        rotor_position: offset % 26,
        ring_setting: setting % 26,
        triggers: Seq::empty(),
    }
}

/// The alphabet index a wheel enciphers an index to: shift backward by the
/// rotor position on the way in, substitute, shift forward by the ring
/// setting on the way out.
pub open spec fn enc_index(w: Seq<int>, rotor: int, ring: int, i: int) -> int {
    (w[(i + 26 - rotor) % 26] + ring) % 26
}

/// The algebraic inverse: undo the ring setting, locate the value in the
/// wiring, re-apply the rotor position.
pub open spec fn dec_index(w: Seq<int>, rotor: int, ring: int, i: int) -> int {
    (wiring_inverse(w, (i + 26 - ring) % 26) + rotor) % 26
}

/// A wheel's action on one character: letters run through the wiring,
/// anything else passes unchanged.
pub open spec fn enc_char(w: Seq<int>, rotor: int, ring: int, c: char) -> char {
    if is_letter(c) {
        index_letter(enc_index(w, rotor, ring, letter_index(c)))
    } else {
        c
    }
}

/// The inverse action on one character.
pub open spec fn dec_char(w: Seq<int>, rotor: int, ring: int, c: char) -> char {
    if is_letter(c) {
        index_letter(dec_index(w, rotor, ring, letter_index(c)))
    } else {
        c
    }
}

/// A signal entering on the right at position `p` leaves the wheel on the
/// left at the returned position, expressed in the frame of the next
/// component. Positions are letter values mod 26; the ring setting plays no
/// part in the position-space path.
pub open spec fn right_to_left_pos(w: Seq<int>, rotor: int, p: int) -> int {
    (w[(p + 25 + rotor) % 26] + 1 + 26 - rotor) % 26
}

/// The structural inverse of `right_to_left_pos`: a signal entering on the
/// left leaves on the right.
pub open spec fn left_to_right_pos(w: Seq<int>, rotor: int, p: int) -> int {
    (wiring_inverse(w, (p + 25 + rotor) % 26) + 1 + 26 - rotor) % 26
}

/// The outputs of both position translations lie in `[0, 26)`.
pub proof fn lemma_position_range(w: Seq<int>, rotor: int, p: int)
    requires
        valid_wiring(w),
        0 <= rotor < 26,
        0 <= p < 26,
    ensures
        0 <= right_to_left_pos(w, rotor, p) < 26,
        0 <= left_to_right_pos(w, rotor, p) < 26,
{
    lemma_wiring_inverse(w, (p + 25 + rotor) % 26);
}

/// Enciphering then deciphering an alphabet index returns the index.
proof fn lemma_enc_then_dec_index(w: Seq<int>, rotor: int, ring: int, i: int)
    requires
        valid_wiring(w),
        0 <= rotor < 26,
        0 <= ring < 26,
        0 <= i < 26,
    ensures
        0 <= enc_index(w, rotor, ring, i) < 26,
        dec_index(w, rotor, ring, enc_index(w, rotor, ring, i)) == i,
{
    let j = (i + 26 - rotor) % 26;
    let e = (w[j] + ring) % 26;
    assert((e + 26 - ring) % 26 == w[j]);
    lemma_wiring_inverse_of_entry(w, j);
    assert(dec_index(w, rotor, ring, e) == (j + rotor) % 26);
    assert((j + rotor) % 26 == i);
}

/// Deciphering then enciphering an alphabet index returns the index.
proof fn lemma_dec_then_enc_index(w: Seq<int>, rotor: int, ring: int, i: int)
    requires
        valid_wiring(w),
        0 <= rotor < 26,
        0 <= ring < 26,
        0 <= i < 26,
    ensures
        0 <= dec_index(w, rotor, ring, i) < 26,
        enc_index(w, rotor, ring, dec_index(w, rotor, ring, i)) == i,
{
    let v = (i + 26 - ring) % 26;
    lemma_wiring_inverse(w, v);
    let k = wiring_inverse(w, v);
    let d = (k + rotor) % 26;
    assert((d + 26 - rotor) % 26 == k);
    assert(enc_index(w, rotor, ring, d) == (w[k] + ring) % 26);
    assert((v + ring) % 26 == i);
}

/// Law: enciphering and deciphering with one wheel state invert each other
/// on every character.
pub proof fn lemma_encipher_decipher_inverse(w: Seq<int>, rotor: int, ring: int, c: char)
    requires
        valid_wiring(w),
        0 <= rotor < 26,
        0 <= ring < 26,
    ensures
        dec_char(w, rotor, ring, enc_char(w, rotor, ring, c)) == c,
        enc_char(w, rotor, ring, dec_char(w, rotor, ring, c)) == c,
{
    if is_letter(c) {
        let i = letter_index(c);
        lemma_enc_then_dec_index(w, rotor, ring, i);
        lemma_dec_then_enc_index(w, rotor, ring, i);
        crate::letters::lemma_index_letter(enc_index(w, rotor, ring, i));
        crate::letters::lemma_index_letter(dec_index(w, rotor, ring, i));
        crate::letters::lemma_letter_round_trip(c);
    }
}

/// A signal carried right to left comes back to its entry position when
/// carried left to right again.
proof fn lemma_rtl_then_ltr(w: Seq<int>, rotor: int, p: int)
    requires
        valid_wiring(w),
        0 <= rotor < 26,
        0 <= p < 26,
    ensures
        left_to_right_pos(w, rotor, right_to_left_pos(w, rotor, p)) == p,
{
    let q = (p + 25 + rotor) % 26;
    let out = right_to_left_pos(w, rotor, p);
    assert((out + 25 + rotor) % 26 == w[q]);
    lemma_wiring_inverse_of_entry(w, q);
    assert(left_to_right_pos(w, rotor, out) == (q + 1 + 26 - rotor) % 26);
    assert((q + 1 + 26 - rotor) % 26 == p);
}

/// A signal carried left to right comes back to its entry position when
/// carried right to left again.
proof fn lemma_ltr_then_rtl(w: Seq<int>, rotor: int, p: int)
    requires
        valid_wiring(w),
        0 <= rotor < 26,
        0 <= p < 26,
    ensures
        right_to_left_pos(w, rotor, left_to_right_pos(w, rotor, p)) == p,
{
    let v = (p + 25 + rotor) % 26;
    lemma_wiring_inverse(w, v);
    let k = wiring_inverse(w, v);
    let back = left_to_right_pos(w, rotor, p);
    assert((back + 25 + rotor) % 26 == k);
    assert(right_to_left_pos(w, rotor, back) == (w[k] + 1 + 26 - rotor) % 26);
    assert((v + 1 + 26 - rotor) % 26 == p);
}

/// Law: the two position translations of one wheel invert each other while
/// the rotor holds still.
pub proof fn lemma_position_round_trip(w: Seq<int>, rotor: int, p: int)
    requires
        valid_wiring(w),
        0 <= rotor < 26,
        0 <= p < 26,
    ensures
        left_to_right_pos(w, rotor, right_to_left_pos(w, rotor, p)) == p,
        right_to_left_pos(w, rotor, left_to_right_pos(w, rotor, p)) == p,
{
    lemma_rtl_then_ltr(w, rotor, p);
    lemma_ltr_then_rtl(w, rotor, p);
}

/// Law: a wheel standing at offset zero whose wiring is an involution sends
/// a signal carried right to left twice back to its entry position — the
/// behaviour a reflector owes the machine.
pub proof fn lemma_reflection_involution(w: Seq<int>, p: int)
    requires
        crate::wiring::involutive_wiring(w),
        0 <= p < 26,
    ensures
        0 <= right_to_left_pos(w, 0, p) < 26,
        right_to_left_pos(w, 0, right_to_left_pos(w, 0, p)) == p,
{
    let q = (p + 25) % 26;
    let v = w[q];
    let out = right_to_left_pos(w, 0, p);
    assert(out == (v + 27) % 26);
    assert(out == (v + 1) % 26);
    assert((out + 25) % 26 == v);
    assert(w[v] == q);
    assert(right_to_left_pos(w, 0, out) == (q + 27) % 26);
    assert((q + 27) % 26 == p);
}

/// The wheel after `n` single steps.
pub open spec fn stepped_times(m: WheelModel, n: nat) -> WheelModel
    decreases n,
{
    if n == 0 {
        m
    } else {
        stepped_times(m, (n - 1) as nat).stepped()
    }
}

/// After `n` steps the rotor position has advanced by exactly `n`, mod 26,
/// and nothing else about the wheel has changed.
pub proof fn lemma_stepped_times(m: WheelModel, n: nat)
    requires
        m.wf(),
    ensures
        stepped_times(m, n) == (WheelModel {
            rotor_position: (m.rotor_position + n) % 26,
            ..m
        }),
    decreases n,
{
    if n == 0 {
        assert(stepped_times(m, 0) =~= (WheelModel {
            rotor_position: (m.rotor_position + 0) % 26,
            ..m
        }));
    } else {
        lemma_stepped_times(m, (n - 1) as nat);
        assert(stepped_times(m, n) =~= (WheelModel {
            rotor_position: (m.rotor_position + n) % 26,
            ..m
        }));
    }
}

/// Law: a full cycle of 26 steps returns a wheel to its starting state, and
/// within one cycle the rotor crosses each position value — so in
/// particular each configured trigger value — exactly once.
pub proof fn lemma_stepping_cycle(m: WheelModel, t: int)
    requires
        m.wf(),
        0 <= t < 26,
    ensures
        stepped_times(m, 26) == m,
        exists|k: int|
            1 <= k <= 26 && #[trigger] stepped_times(m, k as nat).rotor_position == t,
        forall|k1: int, k2: int|
            1 <= k1 <= 26 && 1 <= k2 <= 26
                && #[trigger] stepped_times(m, k1 as nat).rotor_position == t
                && #[trigger] stepped_times(m, k2 as nat).rotor_position == t ==> k1 == k2,
{
    lemma_stepped_times(m, 26);
    assert(stepped_times(m, 26) =~= m);
    let kw = ((t - m.rotor_position + 25) % 26) + 1;
    lemma_stepped_times(m, kw as nat);
    assert(stepped_times(m, kw as nat).rotor_position == t);
    assert forall|k1: int, k2: int|
        1 <= k1 <= 26 && 1 <= k2 <= 26
            && #[trigger] stepped_times(m, k1 as nat).rotor_position == t
            && #[trigger] stepped_times(m, k2 as nat).rotor_position == t implies k1 == k2 by {
        lemma_stepped_times(m, k1 as nat);
        lemma_stepped_times(m, k2 as nat);
        assert((m.rotor_position + k1) % 26 == (m.rotor_position + k2) % 26);
    }
}

/// Enciphers one character through a wiring table with the given rotor
/// position and ring setting.
pub(crate) fn table_encipher_char(t: &Vec<u8>, rotor: u16, ring: u16, c: char) -> (e: char)
    requires
        valid_wiring(table_view(t@)),
        rotor < 26,
        ring < 26,
    ensures
        e == enc_char(table_view(t@), rotor as int, ring as int, c),
{
    match letter_index_of(c) {
        Some(i) => {
            let shifted = ((i as u16) + 26 - rotor) % 26;
            assert(0 <= table_view(t@)[shifted as int] < 26);
            let sub = t[shifted as usize];
            let e = ((sub as u16) + ring) % 26;
            letter_at(e as u8)
        },
        None => c,
    }
}

/// Deciphers one character through a wiring table with the given rotor
/// position and ring setting.
pub(crate) fn table_decipher_char(t: &Vec<u8>, rotor: u16, ring: u16, c: char) -> (d: char)
    requires
        valid_wiring(table_view(t@)),
        rotor < 26,
        ring < 26,
    ensures
        d == dec_char(table_view(t@), rotor as int, ring as int, c),
{
    match letter_index_of(c) {
        Some(i) => {
            let v = ((i as u16) + 26 - ring) % 26;
            let k = table_position_of(t, v as u8);
            let d = ((k as u16) + rotor) % 26;
            letter_at(d as u8)
        },
        None => c,
    }
}

/// Carries a signal position through a wiring table from right to left.
pub(crate) fn table_right_to_left(t: &Vec<u8>, rotor: u16, position: u16) -> (r: u16)
    requires
        valid_wiring(table_view(t@)),
        rotor < 26,
    ensures
        r < 26,
        r as int == right_to_left_pos(table_view(t@), rotor as int, position as int % 26),
{
    let p = position % 26;
    let idx = (p + 25 + rotor) % 26;
    assert(0 <= table_view(t@)[idx as int] < 26);
    let sub = t[idx as usize];
    ((sub as u16) + 1 + 26 - rotor) % 26
}

/// Carries a signal position through a wiring table from left to right.
pub(crate) fn table_left_to_right(t: &Vec<u8>, rotor: u16, position: u16) -> (r: u16)
    requires
        valid_wiring(table_view(t@)),
        rotor < 26,
    ensures
        r < 26,
        r as int == left_to_right_pos(table_view(t@), rotor as int, position as int % 26),
{
    let p = position % 26;
    let idx = (p + 25 + rotor) % 26;
    let k = table_position_of(t, idx as u8);
    ((k as u16) + 1 + 26 - rotor) % 26
}

} // verus!
