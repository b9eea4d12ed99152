//! A rotor-based polyalphabetic substitution cipher machine.
//!
//! The crate models an Enigma-style device: wheels carry a fixed wiring (a
//! permutation of the 26-letter alphabet), a rotor position that advances with
//! odometer-style carry between wheels, and a ring setting that shifts the
//! enciphered letter. A machine composes a plugboard, three rotating wheels
//! and a reflector into one bidirectional signal path and transforms text one
//! character at a time; characters outside the alphabet pass through
//! unchanged.

pub mod cipher;
pub mod enigma;
pub mod letters;
pub mod machine;
pub mod wheel;
pub mod wiring;

pub use cipher::Cipher;
pub use cipher::CipherWheel;
pub use enigma::Enigma;
pub use enigma::EnigmaWheel;
pub use machine::EnigmaMachine;
pub use wiring::check_wiring;
