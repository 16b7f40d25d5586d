use user_auth::identity::{canonicalize, is_canonical_name};
use user_auth::AuthError;

#[test]
fn canonical_name_is_kept() {
    assert_eq!(canonicalize("alice"), Ok("alice".to_string()));
    assert_eq!(canonicalize("a.b_c-d~9"), Ok("a.b_c-d~9".to_string()));
}

#[test]
fn capitals_become_small_letters() {
    assert_eq!(canonicalize("Alice"), Ok("alice".to_string()));
    assert_eq!(canonicalize("AZaz09"), Ok("azaz09".to_string()));
}

#[test]
fn spaces_become_hyphens() {
    assert_eq!(canonicalize("Alice Smith"), Ok("alice-smith".to_string()));
    assert_eq!(canonicalize(" "), Ok("-".to_string()));
}

#[test]
fn empty_name_is_invalid() {
    assert_eq!(canonicalize(""), Err(AuthError::InvalidInput));
}

#[test]
fn reserved_characters_are_invalid() {
    for name in ["a/b", "a?b", "a#b", "a@b", "a:b", "a&b", "a=b", "a+b", "a%b", "a,b", "a;b"] {
        assert_eq!(canonicalize(name), Err(AuthError::InvalidInput), "{}", name);
    }
}

#[test]
fn neighbours_of_the_accepted_ranges_are_invalid() {
    // the characters next to '0'..'9', 'a'..'z' and the four marks
    for name in ["`", "{", "[", "@", "/", ":", ",", "^", "}", "\u{7f}", "\0"] {
        assert_eq!(canonicalize(name), Err(AuthError::InvalidInput), "{:?}", name);
    }
}

#[test]
fn non_ascii_is_invalid() {
    assert_eq!(canonicalize("caf\u{e9}"), Err(AuthError::InvalidInput));
    assert_eq!(canonicalize("\u{430}lice"), Err(AuthError::InvalidInput));
}

#[test]
fn canonicalizing_twice_changes_nothing() {
    for raw in ["Alice Smith", "BOB", "x y z", "already-canonical"] {
        let once = canonicalize(raw).unwrap();
        assert_eq!(canonicalize(&once), Ok(once.clone()));
        assert!(is_canonical_name(&once));
    }
}

#[test]
fn is_canonical_name_tells_the_forms_apart() {
    assert!(is_canonical_name("alice"));
    assert!(is_canonical_name("a-b.c_d~0"));
    assert!(!is_canonical_name("Alice"));
    assert!(!is_canonical_name("alice smith"));
    assert!(!is_canonical_name(""));
    assert!(!is_canonical_name("al\u{ed}ce"));
}
