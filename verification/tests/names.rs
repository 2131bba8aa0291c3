use protohackers::chat::names::{check_name, validate_username, Rejection};

#[test]
fn accepts_letters_and_digits() {
    assert!(validate_username("alice123"));
    assert!(validate_username("A"));
    assert!(validate_username("0"));
    assert!(validate_username("zZ9"));
}

#[test]
fn rejects_the_empty_name() {
    assert!(!validate_username(""));
    assert_eq!(check_name(""), Err(Rejection::EmptyName));
}

#[test]
fn rejects_spaces_punctuation_and_underscores() {
    assert!(!validate_username("a b"));
    assert!(!validate_username("a_b"));
    assert!(!validate_username("bob!"));
    assert!(!validate_username("a\n"));
    assert_eq!(check_name("a b"), Err(Rejection::NonAsciiOrNonAlnum));
    assert_eq!(check_name("a_b"), Err(Rejection::NonAsciiOrNonAlnum));
}

#[test]
fn rejects_non_ascii_letters() {
    assert!(!validate_username("héllo"));
    assert_eq!(check_name("héllo"), Err(Rejection::NonAsciiOrNonAlnum));
    assert!(!validate_username("٣"));
}

#[test]
fn rejects_the_neighbours_of_the_accepted_ranges() {
    for name in ["/", ":", "@", "[", "`", "{"] {
        assert!(!validate_username(name));
    }
    for name in ["0", "9", "A", "Z", "a", "z"] {
        assert!(validate_username(name));
        assert_eq!(check_name(name), Ok(()));
    }
}

#[test]
fn validation_examples() {
    for name in ["", "a b", "héllo", "a_b"] {
        assert!(!validate_username(name));
        assert!(check_name(name).is_err());
    }
    assert!(validate_username("alice123"));
    assert_eq!(check_name("alice123"), Ok(()));
}
