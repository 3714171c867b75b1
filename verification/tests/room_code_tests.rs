use game_net::room_code::{
    is_valid_room_code, random_room_code, room_code_from_draws, trim_whitespace, ROOM_CODE_LEN,
};

#[test]
fn valid_room_codes() {
    assert!(is_valid_room_code("aB3xYz"));
    assert!(is_valid_room_code("000000"));
    assert!(is_valid_room_code("ZZZZZZ"));
}

#[test]
fn invalid_room_codes() {
    assert!(!is_valid_room_code(""));
    assert!(!is_valid_room_code("aB3xY"));
    assert!(!is_valid_room_code("aB3xYzz"));
    assert!(!is_valid_room_code("aB3xY!"));
    assert!(!is_valid_room_code("aB xYz"));
    assert!(!is_valid_room_code("éééé"));
    assert!(!is_valid_room_code("ééé"));
}

#[test]
fn trim_removes_surrounding_whitespace() {
    assert_eq!(trim_whitespace("  aB3xYz\n"), "aB3xYz");
    assert_eq!(trim_whitespace("\t\r\u{3000}x y\u{a0}\u{2028}"), "x y");
    assert_eq!(trim_whitespace(" \n\t "), "");
    assert_eq!(trim_whitespace(""), "");
    assert_eq!(trim_whitespace("abc"), "abc");
}

#[test]
fn trim_matches_std_trim() {
    for s in ["  a ", "\u{85}b\u{85}", "\u{200b}c\u{200b}", "\u{1680}d\u{205f}", "x\u{feff}"] {
        assert_eq!(trim_whitespace(s), s.trim());
    }
}

#[test]
fn random_room_code_is_valid() {
    for _ in 0..200 {
        let code = random_room_code();
        assert_eq!(code.len(), ROOM_CODE_LEN);
        assert!(is_valid_room_code(&code));
        assert!(code.chars().all(|c| c.is_ascii_alphanumeric()));
    }
}

#[test]
fn random_room_codes_vary() {
    let codes: std::collections::HashSet<String> = (0..50).map(|_| random_room_code()).collect();
    assert!(codes.len() > 1);
}

#[test]
fn room_code_spells_draws() {
    assert_eq!(room_code_from_draws(&[0, 25, 26, 51, 52, 61]), "azAZ09");
    assert_eq!(room_code_from_draws(&[7, 4, 11, 11, 14, 0]), "helloa");
}
