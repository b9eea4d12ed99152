//! The character-level cipher interface and the static substitution wheel.

use vstd::prelude::*;
use crate::wheel::dec_char;
use crate::wheel::enc_char;
use crate::wheel::table_decipher_char;
use crate::wheel::table_encipher_char;
use crate::wiring::table_view;
use crate::wiring::valid_wiring;
use crate::wiring::valid_wiring_text;
use crate::wiring::wiring_of_letters;
use crate::wiring::wiring_table;

verus! {

/// Anything that enciphers and deciphers text one character at a time,
/// leaving characters outside the alphabet untouched.
pub trait Cipher {
    /// Whether the cipher's configuration is well formed.
    spec fn cipher_wf(&self) -> bool;

    /// What the cipher makes of one character.
    spec fn enciphered_char(&self, c: char) -> char;

    /// What the inverse direction makes of one character.
    spec fn deciphered_char(&self, c: char) -> char;

    /// Enciphers a message character by character.
    fn encipher(&self, message: &str) -> (r: String)
        requires
            self.cipher_wf(),
        ensures
            r@.len() == message@.len(),
            forall|j: int|
                0 <= j < message@.len() ==> #[trigger] r@[j] == self.enciphered_char(
                    message@[j],
                ),
    ;

    /// Deciphers a message character by character.
    fn decipher(&self, message: &str) -> (r: String)
        requires
            self.cipher_wf(),
        ensures
            r@.len() == message@.len(),
            forall|j: int|
                0 <= j < message@.len() ==> #[trigger] r@[j] == self.deciphered_char(
                    message@[j],
                ),
    ;
}

/// A static substitution wheel: a fixed wiring with no rotation state. Its
/// view is the wiring itself.
pub struct CipherWheel {
    wiring: Vec<u8>,
}

impl View for CipherWheel {
    type V = Seq<int>;

    closed spec fn view(&self) -> Seq<int> {
        table_view(self.wiring@)
    }
}

impl CipherWheel {
    /// Builds the wheel from a line of 26 letters, each appearing once.
    pub fn new(cipher: String) -> (w: CipherWheel)
        requires
            valid_wiring_text(cipher@),
        ensures
            w@ == wiring_of_letters(cipher@),
            valid_wiring(w@),
    {
        CipherWheel { wiring: wiring_table(cipher.as_str()) }
    }
}

impl Cipher for CipherWheel {
    open spec fn cipher_wf(&self) -> bool {
        valid_wiring(self@)
    }

    /// A plain table lookup: no rotor offset, no ring setting.
    open spec fn enciphered_char(&self, c: char) -> char {
        enc_char(self@, 0, 0, c)
    }

    open spec fn deciphered_char(&self, c: char) -> char {
        dec_char(self@, 0, 0, c)
    }

    fn encipher(&self, message: &str) -> (r: String) {
        let n = message.unicode_len();
        let mut r = String::new();
        let mut i: usize = 0;
        while i < n
            invariant
                valid_wiring(self@),
                i <= n,
                n == message@.len(),
                r@.len() == i,
                forall|j: int|
                    0 <= j < i ==> #[trigger] r@[j] == enc_char(self@, 0, 0, message@[j]),
            decreases n - i,
        {
            let c = message.get_char(i);
            let e = table_encipher_char(&self.wiring, 0, 0, c);
            r.push(e);
            i += 1;
        }
        r
    }

    fn decipher(&self, message: &str) -> (r: String) {
        let n = message.unicode_len();
        let mut r = String::new();
        let mut i: usize = 0;
        while i < n
            invariant
                valid_wiring(self@),
                i <= n,
                n == message@.len(),
                r@.len() == i,
                forall|j: int|
                    0 <= j < i ==> #[trigger] r@[j] == dec_char(self@, 0, 0, message@[j]),
            decreases n - i,
        {
            let c = message.get_char(i);
            let d = table_decipher_char(&self.wiring, 0, 0, c);
            r.push(d);
            i += 1;
        }
        r
    }
}

} // verus!
