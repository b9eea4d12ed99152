//! The rotating wheel: substitution with a rotor position that steps, a ring
//! setting, turnover triggers, and the bidirectional position-space
//! translations the machine's signal path is built from.

use vstd::prelude::*;
use crate::cipher::Cipher;
use crate::wheel::WheelModel;
use crate::wheel::dec_char;
use crate::wheel::enc_char;
use crate::wheel::initial_wheel;
use crate::wheel::left_to_right_pos;
use crate::wheel::positions_view;
use crate::wheel::right_to_left_pos;
use crate::wheel::table_decipher_char;
use crate::wheel::table_encipher_char;
use crate::wheel::table_left_to_right;
use crate::wheel::table_right_to_left;
use crate::wiring::table_view;
use crate::wiring::valid_wiring_text;
use crate::wiring::wiring_table;

verus! {

/// The rotating behaviour of a wheel: stepping with turnover signalling,
/// direct state setters, and position-space signal translation.
pub trait Enigma {
    /// The abstract state of the wheel.
    spec fn wheel(&self) -> WheelModel;

    /// Advances the rotor position by one, mod 26. The result says whether
    /// the new position is a turnover trigger, on which the caller also
    /// steps the next wheel in the chain.
    fn rotate(&mut self) -> (carry: bool)
        requires
            old(self).wheel().wf(),
        ensures
            final(self).wheel() == old(self).wheel().stepped(),
            carry == final(self).wheel().signals(),
    ;

    /// Resets the rotor position; the value is stored reduced mod 26.
    fn set_rotor_position(&mut self, rotor_position: u16)
        ensures
            final(self).wheel() == (WheelModel {
                rotor_position: rotor_position as int % 26,
                ..old(self).wheel()
            }),
    ;

    /// Replaces the turnover trigger positions with the given list.
    fn set_triggers(&mut self, triggers: Vec<u16>)
        ensures
            final(self).wheel() == (WheelModel {
                triggers: positions_view(triggers@),
                ..old(self).wheel()
            }),
    ;

    /// Takes the position of a signal entering on the right side of the
    /// wheel and returns the position at which it leaves on the left, in
    /// the frame of the next component.
    fn right_to_left(&self, position: u16) -> (r: u16)
        requires
            self.wheel().wf(),
        ensures
            r < 26,
            r as int == right_to_left_pos(
                self.wheel().wiring,
                self.wheel().rotor_position,
                position as int % 26,
            ),
    ;

    /// The structural inverse: a signal entering on the left leaves on the
    /// right.
    fn left_to_right(&self, position: u16) -> (r: u16)
        requires
            self.wheel().wf(),
        ensures
            r < 26,
            r as int == left_to_right_pos(
                self.wheel().wiring,
                self.wheel().rotor_position,
                position as int % 26,
            ),
    ;
}

/// A rotating substitution wheel.
pub struct EnigmaWheel {
    wiring: Vec<u8>,
    rotor_position: u16,
    ring_setting: u16,
    triggers: Vec<u16>,
}

impl View for EnigmaWheel {
    type V = WheelModel;

    closed spec fn view(&self) -> WheelModel {
        WheelModel {
            wiring: table_view(self.wiring@),
            rotor_position: self.rotor_position as int,
            ring_setting: self.ring_setting as int,
            triggers: positions_view(self.triggers@),
        }
    }
}

impl EnigmaWheel {
    /// Builds a wheel from a line of 26 letters, an initial rotor position
    /// and a ring setting; both offsets are stored reduced mod 26, and no
    /// turnover triggers are set yet.
    pub fn new(new_cipher: String, new_offset: u16, new_setting: u16) -> (w: EnigmaWheel)
        requires
            valid_wiring_text(new_cipher@),
        ensures
            w@ == initial_wheel(new_cipher@, new_offset as int, new_setting as int),
            w@.wf(),
    {
        let w = EnigmaWheel {
            wiring: wiring_table(new_cipher.as_str()),
            rotor_position: new_offset % 26,
            ring_setting: new_setting % 26,
            triggers: Vec::new(),
        };
        proof {
            assert(w@ =~= initial_wheel(new_cipher@, new_offset as int, new_setting as int));
        }
        w
    }
}

/// Whether a list of turnover triggers holds the given position.
fn holds_position(t: &Vec<u16>, p: u16) -> (b: bool)
    ensures
        b == positions_view(t@).contains(p as int),
{
    let mut i: usize = 0;
    let mut found = false;
    while i < t.len()
        invariant
            i <= t@.len(),
            found == exists|j: int| 0 <= j < i && #[trigger] positions_view(t@)[j] == p as int,
        decreases t@.len() - i,
    {
        proof {
            assert(positions_view(t@)[i as int] == t@[i as int] as int);
        }
        if t[i] == p {
            found = true;
        }
        i += 1;
    }
    found
}

impl Enigma for EnigmaWheel {
    open spec fn wheel(&self) -> WheelModel {
        self@
    }

    fn rotate(&mut self) -> (carry: bool) {
        self.rotor_position = (self.rotor_position + 1) % 26;
        proof {
            assert(self@ =~= old(self)@.stepped());
        }
        holds_position(&self.triggers, self.rotor_position)
    }

    fn set_rotor_position(&mut self, rotor_position: u16) {
        self.rotor_position = rotor_position % 26;
        proof {
            assert(self@ =~= (WheelModel {
                rotor_position: rotor_position as int % 26,
                ..old(self)@
            }));
        }
    }

    fn set_triggers(&mut self, triggers: Vec<u16>) {
        self.triggers = triggers;
        proof {
            assert(self@ =~= (WheelModel { triggers: positions_view(self.triggers@), ..old(self)@ }));
        }
    }

    fn right_to_left(&self, position: u16) -> (r: u16) {
        table_right_to_left(&self.wiring, self.rotor_position, position)
    }

    fn left_to_right(&self, position: u16) -> (r: u16) {
        table_left_to_right(&self.wiring, self.rotor_position, position)
    }
}

impl Cipher for EnigmaWheel {
    open spec fn cipher_wf(&self) -> bool {
        self@.wf()
    }

    /// One character through the wheel at its current rotor position and
    /// ring setting.
    open spec fn enciphered_char(&self, c: char) -> char {
        enc_char(self@.wiring, self@.rotor_position, self@.ring_setting, c)
    }

    open spec fn deciphered_char(&self, c: char) -> char {
        dec_char(self@.wiring, self@.rotor_position, self@.ring_setting, c)
    }

    fn encipher(&self, message: &str) -> (r: String) {
        let n = message.unicode_len();
        let mut r = String::new();
        let mut i: usize = 0;
        while i < n
            invariant
                self@.wf(),
                i <= n,
                n == message@.len(),
                r@.len() == i,
                forall|j: int|
                    0 <= j < i ==> #[trigger] r@[j] == enc_char(
                        self@.wiring,
                        self@.rotor_position,
                        self@.ring_setting,
                        message@[j],
                    ),
            decreases n - i,
        {
            let c = message.get_char(i);
            let e = table_encipher_char(&self.wiring, self.rotor_position, self.ring_setting, c);
            r.push(e);
            i += 1;
        }
        r
    }

    fn decipher(&self, message: &str) -> (r: String) {
        let n = message.unicode_len();
        let mut r = String::new();
        let mut i: usize = 0;
        while i < n
            invariant
                self@.wf(),
                i <= n,
                n == message@.len(),
                r@.len() == i,
                forall|j: int|
                    0 <= j < i ==> #[trigger] r@[j] == dec_char(
                        self@.wiring,
                        self@.rotor_position,
                        self@.ring_setting,
                        message@[j],
                    ),
            decreases n - i,
        {
            let c = message.get_char(i);
            let d = table_decipher_char(&self.wiring, self.rotor_position, self.ring_setting, c);
            r.push(d);
            i += 1;
        }
        r
    }
}

} // verus!
