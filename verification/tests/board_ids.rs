use lana_boards::board_id::{char_is_id_char, is_valid_board_id, MAX_BOARD_ID_LEN};

#[test]
fn accepts_letters_digits_hyphen_and_underscore() {
    assert!(is_valid_board_id("board-1000"));
    assert!(is_valid_board_id("A_b-9"));
    assert!(is_valid_board_id("a"));
    assert!(is_valid_board_id("trash"));
}

#[test]
fn accepts_an_id_of_the_maximum_length_and_rejects_one_more() {
    assert_eq!(MAX_BOARD_ID_LEN, 64);
    assert!(is_valid_board_id(&"x".repeat(64)));
    assert!(!is_valid_board_id(&"x".repeat(65)));
}

#[test]
fn rejects_the_empty_id() {
    assert!(!is_valid_board_id(""));
}

#[test]
fn rejects_path_separators_and_dot_dot() {
    assert!(!is_valid_board_id("a/b"));
    assert!(!is_valid_board_id("a\\b"));
    assert!(!is_valid_board_id(".."));
    assert!(!is_valid_board_id("a..b"));
    assert!(!is_valid_board_id("../etc"));
}

#[test]
fn rejects_characters_outside_the_set() {
    assert!(!is_valid_board_id("a b"));
    assert!(!is_valid_board_id("a.b"));
    assert!(!is_valid_board_id("caf\u{e9}"));
    assert!(!is_valid_board_id("board:1"));
    assert!(!is_valid_board_id("\u{3000}"));
}

#[test]
fn validity_is_the_pattern_for_every_short_text_over_a_small_alphabet() {
    let alphabet = ['a', 'Z', '0', '-', '_', '.', '/', '\\', ' '];
    for a in alphabet {
        for b in alphabet {
            for c in alphabet {
                let id: String = [a, b, c].iter().collect();
                let matches = id.chars().all(|ch| ch.is_ascii_alphanumeric() || ch == '-' || ch == '_');
                assert_eq!(is_valid_board_id(&id), matches && !id.contains(".."), "{:?}", id);
            }
        }
    }
}

#[test]
fn id_characters_are_ascii_letters_digits_hyphen_underscore() {
    for code in 0u32..0x300 {
        if let Some(c) = char::from_u32(code) {
            assert_eq!(char_is_id_char(c), c.is_ascii_alphanumeric() || c == '-' || c == '_');
        }
    }
}
