use deskctrl::text::{capitalize, precedes, same_text, to_hex};

#[test]
fn names_are_capitalized() {
    assert_eq!(capitalize("spotify".to_string()), "Spotify");
    assert_eq!(capitalize("Spotify".to_string()), "Spotify");
    assert_eq!(capitalize("sPOTIFY".to_string()), "SPOTIFY");
    assert_eq!(capitalize("notify send".to_string()), "Notify send");
    assert_eq!(capitalize("1password".to_string()), "1password");
}

#[test]
fn an_empty_name_stays_empty() {
    assert_eq!(capitalize(String::new()), "");
}

#[test]
fn one_letter_may_become_several() {
    assert_eq!(capitalize("ßa".to_string()), "SSa");
    assert_eq!(capitalize("éa".to_string()), "Éa");
}

#[test]
fn texts_are_ordered_by_characters() {
    assert!(precedes("a", "b"));
    assert!(precedes("", "a"));
    assert!(precedes("a", "ab"));
    assert!(precedes("Z", "a"));
    assert!(!precedes("a", "a"));
    assert!(!precedes("b", "a"));
    assert!(precedes("/dev/sda1", "/dev/sdb1"));
    assert!(precedes("z", "é"));
}

#[test]
fn texts_are_the_same_by_characters() {
    assert!(same_text("abc", "abc"));
    assert!(same_text("", ""));
    assert!(!same_text("abc", "abd"));
    assert!(!same_text("abc", "ab"));
}

#[test]
fn bytes_are_written_in_hexadecimal() {
    assert_eq!(to_hex(&[]), "");
    assert_eq!(to_hex(&[0x00, 0x0f, 0xa5, 0xff]), "000fa5ff");
    let all: Vec<u8> = (0..=255).collect();
    let text = to_hex(&all);
    assert_eq!(text.len(), 512);
    for (i, byte) in all.iter().enumerate() {
        assert_eq!(&text[2 * i..2 * i + 2], format!("{byte:02x}"));
    }
}
