use enigma::check_wiring;
use enigma::Cipher;
use enigma::CipherWheel;

#[test]
// A permutation of the alphabet is accepted
fn test_check_wiring_accepts_permutation() {
    assert!(check_wiring("EKMFLGDQVZNTOWYHXUSPAIBRCJ"));
    assert!(check_wiring("ABCDEFGHIJKLMNOPQRSTUVWXYZ"));
}

#[test]
// A repeated letter is rejected
fn test_check_wiring_rejects_duplicate() {
    assert!(!check_wiring("AACDEFGHIJKLMNOPQRSTUVWXYZ"));
}

#[test]
// A line of the wrong length is rejected
fn test_check_wiring_rejects_wrong_length() {
    assert!(!check_wiring(""));
    assert!(!check_wiring("ABCDE"));
    assert!(!check_wiring("ABCDEFGHIJKLMNOPQRSTUVWXYZA"));
}

#[test]
// A character outside the upper-case alphabet is rejected
fn test_check_wiring_rejects_non_letter() {
    assert!(!check_wiring("aBCDEFGHIJKLMNOPQRSTUVWXYZ"));
    assert!(!check_wiring("ABCDEFGHIJKLMNOPQRSTUVWXY!"));
}

#[test]
// The static wheel substitutes by position, letter for letter
fn test_cipher_wheel_encipher() {
    let wheel = CipherWheel::new("YRUHQSLDPXNGOKMIEBFZCWVJAT".to_owned());
    assert_eq!("YRU".to_owned(), wheel.encipher("ABC"));
    assert_eq!("Y R!U".to_owned(), wheel.encipher("A B!C"));
}

#[test]
// The static wheel's decipher inverts its encipher
fn test_cipher_wheel_decipher() {
    let wheel = CipherWheel::new("YRUHQSLDPXNGOKMIEBFZCWVJAT".to_owned());
    let message = "THE QUICK BROWN FOX JUMPS OVER THE LAZY DOG";
    assert_eq!(message.to_owned(), wheel.decipher(&wheel.encipher(message)));
    assert_eq!("ABC".to_owned(), wheel.decipher("YRU"));
}

#[test]
// Every letter appears exactly once among a wheel's outputs over the alphabet
fn test_wiring_outputs_cover_alphabet() {
    let wheel = CipherWheel::new("EKMFLGDQVZNTOWYHXUSPAIBRCJ".to_owned());
    let outputs = wheel.encipher("ABCDEFGHIJKLMNOPQRSTUVWXYZ");
    let mut seen = vec![false; 26];
    for c in outputs.chars() {
        let i = (c as u32 - 65) as usize;
        assert!(!seen[i]);
        seen[i] = true;
    }
    assert!(seen.iter().all(|b| *b));
}
