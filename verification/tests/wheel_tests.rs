use enigma::Cipher;
use enigma::Enigma;
use enigma::EnigmaWheel;

#[test]
// tests to see if basic substitution cipher enciphers the alphabet to the cipher key
fn test_encipher() {
    let cipher = "DEFGHIJKLMNOPQRSTUVWXYZABC".to_owned();
    let enigma = EnigmaWheel::new(cipher.clone(), 0, 0);
    let enciphered = enigma.encipher("ABCDEFGHIJKLMNOPQRSTUVWXYZ");
    assert_eq!(cipher, enciphered);
}

#[test]
// tests to see if basic substition cipher deciphers the cipher key to the alphabet
fn test_decipher() {
    let cipher = "DEFGHIJKLMNOPQRSTUVWXYZABC".to_owned();
    let enigma = EnigmaWheel::new(cipher.clone(), 0, 0);
    let deciphered = enigma.decipher(&cipher);
    assert_eq!("ABCDEFGHIJKLMNOPQRSTUVWXYZ".to_owned(), deciphered);
}

#[test]
// tests to see if basic substitution cipher with offset enciphers the alphabet to the cipher key
fn test_encipher_with_shift() {
    let cipher = "ABCDEFGHIJKLMNOPQRSTUVWXYZ".to_owned();
    let enigma = EnigmaWheel::new(cipher.clone(), 23, 0);
    let enciphered = enigma.encipher("ABCDEFGHIJKLMNOPQRSTUVWXYZ");
    assert_eq!("DEFGHIJKLMNOPQRSTUVWXYZABC".to_owned(), enciphered);
}

#[test]
// tests to see if basic substition cipher with offset deciphers the cipher key to the alphabet
fn test_decipher_with_shift() {
    let cipher = "ABCDEFGHIJKLMNOPQRSTUVWXYZ".to_owned();
    let enigma = EnigmaWheel::new(cipher.clone(), 23, 0);
    let deciphered = enigma.decipher("DEFGHIJKLMNOPQRSTUVWXYZABC");
    assert_eq!("ABCDEFGHIJKLMNOPQRSTUVWXYZ".to_owned(), deciphered);
}

#[test]
// Tests to see if basic substitution cipher with rotating offset enciphers the alphabet to a repeating character string
fn test_encipher_with_rotating_shift() {
    let cipher = "ABCDEFGHIJKLMNOPQRSTUVWXYZ".to_owned();
    let mut enigma = EnigmaWheel::new(cipher.clone(), 23, 0);
    let mut enciphered: String = String::new();
    for i in "ABCDEFGHIJKLMNOPQRSTUVWXYZ".chars() {
        let i_str = &format!("{}", i);
        enigma.rotate();
        enciphered.push(enigma.encipher(i_str).chars().next().unwrap());
    }
    assert_eq!("CCCCCCCCCCCCCCCCCCCCCCCCCC".to_owned(), enciphered);
}

#[test]
// Tests to see if basic substitution cipher with rotating offset deciphers a repeating character string to the alphabet
fn test_decipher_with_rotating_shift() {
    let cipher = "ABCDEFGHIJKLMNOPQRSTUVWXYZ".to_owned();
    let mut enigma = EnigmaWheel::new(cipher.clone(), 23, 0);
    let mut enciphered: String = String::new();
    for i in "CCCCCCCCCCCCCCCCCCCCCCCCCC".chars() {
        let i_str = &format!("{}", i);
        enigma.rotate();
        enciphered.push(enigma.decipher(i_str).chars().next().unwrap());
    }
    assert_eq!("ABCDEFGHIJKLMNOPQRSTUVWXYZ".to_owned(), enciphered);
}

#[test]
// Tests to see if basic substitution cipher with offset and ring setting enciphers the alphabet to a known character string
fn test_encipher_with_shift_and_ring_setting() {
    let cipher = "EKMFLGDQVZNTOWYHXUSPAIBRCJ".to_owned();
    let mut enigma = EnigmaWheel::new(cipher.clone(), 0, 1);
    enigma.rotate();
    let enciphered = enigma.encipher("ABCDEFGHIJKLMNOPQRSTUVWXYZ");
    assert_eq!("KFLNGMHERWAOUPXZIYVTQBJCSD".to_owned(), enciphered);
}

#[test]
// Tests to see if basic substitution cipher with offset and ring setting deciphers a known character string to the alphabet
fn test_decipher_with_shift_and_ring_setting() {
    let cipher = "EKMFLGDQVZNTOWYHXUSPAIBRCJ".to_owned();
    let mut enigma = EnigmaWheel::new(cipher.clone(), 0, 1);
    enigma.rotate();
    let enciphered = enigma.decipher("KFLNGMHERWAOUPXZIYVTQBJCSD");
    assert_eq!("ABCDEFGHIJKLMNOPQRSTUVWXYZ".to_owned(), enciphered);
}

#[test]
// Tests to see if basic substitution cipher with rotating offset and ring setting enciphers the alphabet to a repeating character string
fn test_encipher_with_rotating_shift_and_ring_setting() {
    let cipher = "EKMFLGDQVZNTOWYHXUSPAIBRCJ".to_owned();
    let mut enigma = EnigmaWheel::new(cipher.clone(), 0, 2);
    let mut enciphered: String = String::new();
    for i in "ABCDEFGHIJKLMNOPQRSTUVWXYZ".chars() {
        let i_str = &format!("{}", i);
        enigma.rotate();
        enciphered.push(enigma.encipher(i_str).chars().next().unwrap());
    }
    assert_eq!("LLLLLLLLLLLLLLLLLLLLLLLLLL".to_owned(), enciphered);
}

#[test]
// Tests to see if basic substitution cipher with rotating offset and ring settting deciphers a repeating character string to the alphabet
fn test_decipher_with_rotating_shift_and_ring_setting() {
    let cipher = "EKMFLGDQVZNTOWYHXUSPAIBRCJ".to_owned();
    let mut enigma = EnigmaWheel::new(cipher.clone(), 0, 2);
    let mut enciphered: String = String::new();
    for i in "LLLLLLLLLLLLLLLLLLLLLLLLLL".chars() {
        let i_str = &format!("{}", i);
        enigma.rotate();
        enciphered.push(enigma.decipher(i_str).chars().next().unwrap());
    }
    assert_eq!("ABCDEFGHIJKLMNOPQRSTUVWXYZ".to_owned(), enciphered);
}

#[test]
// Tests to see if the EnigmaWheels rotation properly triggers the rotation of the subsequent wheel
fn test_rotate_propagation() {
    let cipher = "EKMFLGDQVZNTOWYHXUSPAIBRCJ".to_owned();
    let mut enigma = EnigmaWheel::new(cipher.clone(), 0, 2);
    enigma.set_triggers(vec![6, 13, 20]);
    let mut i: u16 = 0;
    while i < 26 {
        let prop: bool = enigma.rotate();
        i += 1;
        assert_eq!(i % 7 == 6, prop);
    }
}

#[test]
// Tests to see if the EnigmaWheel properly transforms position in the right-to-left direction
fn test_right_to_left() {
    let wheel = EnigmaWheel::new("EKMFLGDQVZNTOWYHXUSPAIBRCJ".to_owned(), 0, 0);
    let new_pos = wheel.right_to_left(12);
    assert_eq!(20, new_pos);
}

#[test]
// Tests to see if the EnigmaWheel properly transforms position in the left-to-right direction
fn test_lett_to_right() {
    let wheel = EnigmaWheel::new("EKMFLGDQVZNTOWYHXUSPAIBRCJ".to_owned(), 0, 0);
    let new_pos = wheel.left_to_right(20);
    assert_eq!(12, new_pos);
}

#[test]
// Position zero stands for the letter of value 26: both directions agree on it
fn test_position_zero_round_trip() {
    let wheel = EnigmaWheel::new("EKMFLGDQVZNTOWYHXUSPAIBRCJ".to_owned(), 0, 0);
    assert_eq!(10, wheel.right_to_left(0));
    assert_eq!(0, wheel.left_to_right(10));
}

#[test]
// Every position comes back to itself through a right-to-left, left-to-right pair
fn test_position_round_trip_all() {
    let wheel = EnigmaWheel::new("BDFHJLCPRTXVZNYEIWGAKMUSQO".to_owned(), 17, 4);
    let mut p: u16 = 0;
    while p < 26 {
        assert_eq!(p, wheel.left_to_right(wheel.right_to_left(p)));
        assert_eq!(p, wheel.right_to_left(wheel.left_to_right(p)));
        p += 1;
    }
}

#[test]
// Deciphering an enciphered message returns it, at a fixed rotor state
fn test_encipher_decipher_inverse() {
    let wheel = EnigmaWheel::new("BDFHJLCPRTXVZNYEIWGAKMUSQO".to_owned(), 7, 3);
    let message = "THE QUICK BROWN FOX JUMPS OVER THE LAZY DOG";
    let round_trip = wheel.decipher(&wheel.encipher(message));
    assert_eq!(message.to_owned(), round_trip);
}

#[test]
// A full cycle of 26 rotations returns the wheel to its starting state
fn test_rotation_full_cycle() {
    let mut wheel = EnigmaWheel::new("EKMFLGDQVZNTOWYHXUSPAIBRCJ".to_owned(), 5, 0);
    let before = wheel.encipher("ABCDEFGHIJKLMNOPQRSTUVWXYZ");
    let mut i: u16 = 0;
    while i < 26 {
        wheel.rotate();
        i += 1;
    }
    let after = wheel.encipher("ABCDEFGHIJKLMNOPQRSTUVWXYZ");
    assert_eq!(before, after);
}

#[test]
// Rotating out of position 25 wraps to position 0 and fires a trigger set there
fn test_rotate_wraps_at_alphabet_end() {
    let mut wheel = EnigmaWheel::new("EKMFLGDQVZNTOWYHXUSPAIBRCJ".to_owned(), 0, 0);
    wheel.set_rotor_position(25);
    wheel.set_triggers(vec![0]);
    assert!(wheel.rotate());
    assert!(!wheel.rotate());
}

#[test]
// Characters outside the alphabet pass through a wheel unchanged
fn test_wheel_pass_through() {
    let wheel = EnigmaWheel::new("EKMFLGDQVZNTOWYHXUSPAIBRCJ".to_owned(), 3, 1);
    let enciphered = wheel.encipher("A B!C");
    let chars: Vec<char> = enciphered.chars().collect();
    assert_eq!(5, chars.len());
    assert_eq!(' ', chars[1]);
    assert_eq!('!', chars[3]);
}
