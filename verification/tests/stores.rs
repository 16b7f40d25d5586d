use user_auth::token::{write_token, SECRET_LEN, SERIAL_DIGITS};
use user_auth::{
    AccountStore, AuthError, ConflictKind, Missing, PasswordHasher, SessionStore,
};

fn some_hash(password: &str) -> user_auth::PasswordHash {
    PasswordHasher::new(1).unwrap().hash_with_salt(password, b"0123456789abcdef")
}

#[test]
fn token_text_is_serial_then_secret_in_hex() {
    assert_eq!(write_token(1, &[0xab, 0x01]), "0000000000000001ab01");
    assert_eq!(write_token(0, &[]), "0000000000000000");
    assert_eq!(write_token(u64::MAX, &[0x00, 0xff]), "ffffffffffffffff00ff");
    assert_eq!(write_token(0x0123_4567_89ab_cdef, &[0x9a]), "0123456789abcdef9a");
    assert_eq!(SERIAL_DIGITS, 16);
    assert_eq!(SECRET_LEN, 32);
}

#[test]
fn account_store_starts_empty() {
    let store = AccountStore::new();
    assert_eq!(store.len(), 0);
    assert!(store.find_by_display_name("alice").is_none());
    assert!(store.find_by_id(0).is_none());
    assert!(!store.login_exists("alice", "a@x.com"));
}

#[test]
fn account_store_creates_and_finds() {
    let mut store = AccountStore::new();
    let a = store.create("alice".to_string(), "a@x.com".to_string(), some_hash("pw")).unwrap();
    assert_eq!(a.id(), 0);
    assert_eq!(a.display_name(), "alice");
    assert_eq!(a.email(), "a@x.com");
    assert_eq!(a.password_hash(), &some_hash("pw"));
    let b = store.create("bob".to_string(), "b@x.com".to_string(), some_hash("pw2")).unwrap();
    assert_eq!(b.id(), 1);
    assert_eq!(store.len(), 2);
    assert_eq!(store.find_by_display_name("alice"), Some(&a));
    assert_eq!(store.find_by_display_name("bob"), Some(&b));
    assert_eq!(store.find_by_id(1), Some(&b));
    assert_eq!(store.find_by_id(2), None);
    assert_eq!(store.find_by_display_name("Alice"), None);
}

#[test]
fn account_store_refuses_duplicates_in_one_step() {
    let mut store = AccountStore::new();
    store.create("alice".to_string(), "a@x.com".to_string(), some_hash("pw")).unwrap();
    assert_eq!(
        store.create("alice".to_string(), "other@x.com".to_string(), some_hash("pw")),
        Err(AuthError::Conflict(ConflictKind::NameExists))
    );
    assert_eq!(
        store.create("carol".to_string(), "a@x.com".to_string(), some_hash("pw")),
        Err(AuthError::Conflict(ConflictKind::NameExists))
    );
    assert_eq!(store.len(), 1);
}

#[test]
fn account_store_refuses_names_that_are_not_canonical() {
    let mut store = AccountStore::new();
    for name in ["Alice", "", "a b", "a/b"] {
        assert_eq!(
            store.create(name.to_string(), "a@x.com".to_string(), some_hash("pw")),
            Err(AuthError::InvalidInput)
        );
    }
    assert_eq!(store.len(), 0);
}

#[test]
fn login_exists_is_name_or_email() {
    let mut store = AccountStore::new();
    store.create("alice-smith".to_string(), "a@x.com".to_string(), some_hash("pw")).unwrap();
    assert!(store.login_exists("Alice Smith", "new@x.com"));
    assert!(store.login_exists("alice-smith", "new@x.com"));
    assert!(store.login_exists("bob", "a@x.com"));
    assert!(store.login_exists("not/valid", "a@x.com"));
    assert!(!store.login_exists("not/valid", "new@x.com"));
    assert!(!store.login_exists("bob", "new@x.com"));
    assert!(!store.login_exists("bob", "A@x.com"));
}

#[test]
fn account_store_resets_passwords() {
    let mut store = AccountStore::new();
    let a = store.create("alice".to_string(), "a@x.com".to_string(), some_hash("old")).unwrap();
    let b = store.create("bob".to_string(), "b@x.com".to_string(), some_hash("bob")).unwrap();
    assert_eq!(store.reset_password(a.id(), some_hash("new")), Ok(()));
    let found = store.find_by_id(a.id()).unwrap();
    assert_eq!(found.password_hash(), &some_hash("new"));
    assert_eq!(found.display_name(), "alice");
    assert_eq!(found.email(), "a@x.com");
    assert_eq!(store.find_by_id(b.id()), Some(&b));
    assert_eq!(store.reset_password(7, some_hash("new")), Err(AuthError::NotFound(Missing::Account)));
}

#[test]
fn account_store_deletes_and_never_reuses_ids() {
    let mut store = AccountStore::new();
    let a = store.create("alice".to_string(), "a@x.com".to_string(), some_hash("pw")).unwrap();
    let b = store.create("bob".to_string(), "b@x.com".to_string(), some_hash("pw")).unwrap();
    assert_eq!(store.delete(a.id()), Ok(()));
    assert_eq!(store.delete(a.id()), Err(AuthError::NotFound(Missing::Account)));
    assert_eq!(store.len(), 1);
    assert_eq!(store.find_by_display_name("alice"), None);
    assert_eq!(store.find_by_id(b.id()), Some(&b));
    let again = store.create("alice".to_string(), "a@x.com".to_string(), some_hash("pw")).unwrap();
    assert_eq!(again.id(), 2);
}

#[test]
fn session_store_issues_tokens_with_rising_serials() {
    let mut store = SessionStore::new();
    let s0 = store.create_with_secret(5, "laptop".to_string(), 100, &[0x11; 4]).unwrap();
    let s1 = store.create_with_secret(5, "phone".to_string(), 101, &[0x11; 4]).unwrap();
    assert_eq!(s0.token(), "000000000000000011111111");
    assert_eq!(s1.token(), "000000000000000111111111");
    assert_eq!(s0.account_id(), 5);
    assert_eq!(s0.device_label(), "laptop");
    assert_eq!(s0.issued_at(), 100);
    assert_eq!(store.len(), 2);
    assert_eq!(store.find_by_token(s0.token()), Some(&s0));
    assert_eq!(store.find_by_token(s1.token()), Some(&s1));
    assert_eq!(store.find_by_token("000000000000000211111111"), None);
    assert_eq!(store.find_by_token(""), None);
}

#[test]
fn session_store_draws_secrets() {
    let mut store = SessionStore::new();
    let a = store.create(1, "d".to_string(), 0).unwrap();
    let b = store.create(1, "d".to_string(), 0).unwrap();
    assert_eq!(a.token().len(), SERIAL_DIGITS + 2 * SECRET_LEN);
    assert_eq!(b.token().len(), 80);
    assert_eq!(&a.token()[..16], "0000000000000000");
    assert_eq!(&b.token()[..16], "0000000000000001");
    assert_ne!(&a.token()[16..], &b.token()[16..]);
    assert!(a.token().bytes().all(|c| c.is_ascii_digit() || (b'a'..=b'f').contains(&c)));
}

#[test]
fn sessions_are_listed_by_time_of_issue() {
    let mut store = SessionStore::new();
    let late = store.create_with_secret(1, "late".to_string(), 300, &[1]).unwrap();
    let early = store.create_with_secret(1, "early".to_string(), 100, &[2]).unwrap();
    let other = store.create_with_secret(2, "other".to_string(), 150, &[3]).unwrap();
    let mid = store.create_with_secret(1, "mid".to_string(), 200, &[4]).unwrap();
    let tie = store.create_with_secret(1, "tie".to_string(), 200, &[5]).unwrap();
    assert_eq!(store.list_by_account(1), vec![early, mid, tie, late]);
    assert_eq!(store.list_by_account(2), vec![other]);
    assert_eq!(store.list_by_account(3), vec![]);
}

#[test]
fn session_store_deletes_one_token() {
    let mut store = SessionStore::new();
    let a = store.create_with_secret(1, "a".to_string(), 1, &[1]).unwrap();
    let b = store.create_with_secret(1, "b".to_string(), 2, &[2]).unwrap();
    assert_eq!(store.delete(a.token()), Ok(()));
    assert_eq!(store.delete(a.token()), Err(AuthError::NotFound(Missing::Session)));
    assert_eq!(store.find_by_token(a.token()), None);
    assert_eq!(store.find_by_token(b.token()), Some(&b));
    assert_eq!(store.len(), 1);
    // the serial goes on: a deleted token does not come back
    let c = store.create_with_secret(1, "a".to_string(), 1, &[1]).unwrap();
    assert_ne!(c.token(), a.token());
    assert_eq!(c.token(), "000000000000000201");
}

#[test]
fn session_store_deletes_all_of_one_account() {
    let mut store = SessionStore::new();
    let a1 = store.create_with_secret(1, "a".to_string(), 1, &[1]).unwrap();
    let b1 = store.create_with_secret(2, "b".to_string(), 2, &[2]).unwrap();
    let a2 = store.create_with_secret(1, "a".to_string(), 3, &[3]).unwrap();
    let a3 = store.create_with_secret(1, "a".to_string(), 4, &[4]).unwrap();
    let b2 = store.create_with_secret(2, "b".to_string(), 5, &[5]).unwrap();
    assert_eq!(store.delete_all_for_account(1), 3);
    assert_eq!(store.len(), 2);
    assert_eq!(store.list_by_account(1), vec![]);
    assert_eq!(store.list_by_account(2), vec![b1, b2]);
    for gone in [a1, a2, a3] {
        assert_eq!(store.find_by_token(gone.token()), None);
    }
    assert_eq!(store.delete_all_for_account(1), 0);
    assert_eq!(store.delete_all_for_account(9), 0);
    assert_eq!(store.len(), 2);
}

#[test]
fn account_store_runs_out_of_ids() {
    let mut store = AccountStore::starting_at(u64::MAX - 1);
    assert_eq!(store.next_id(), u64::MAX - 1);
    let a = store.create("alice".to_string(), "a@x.com".to_string(), some_hash("pw")).unwrap();
    assert_eq!(a.id(), u64::MAX - 1);
    assert_eq!(store.next_id(), u64::MAX);
    assert_eq!(
        store.create("bob".to_string(), "b@x.com".to_string(), some_hash("pw")),
        Err(AuthError::StorageError)
    );
    // a conflict is reported before the shortage
    assert_eq!(
        store.create("alice".to_string(), "b@x.com".to_string(), some_hash("pw")),
        Err(AuthError::Conflict(ConflictKind::NameExists))
    );
    assert_eq!(store.len(), 1);
}

#[test]
fn session_store_runs_out_of_serials() {
    let mut store = SessionStore::starting_at(u64::MAX - 1);
    let s = store.create_with_secret(1, "d".to_string(), 1, &[0x0f]).unwrap();
    assert_eq!(s.token(), "fffffffffffffffe0f");
    assert_eq!(store.next_serial(), u64::MAX);
    assert_eq!(
        store.create_with_secret(1, "d".to_string(), 2, &[0x0f]),
        Err(AuthError::StorageError)
    );
    assert_eq!(store.create(1, "d".to_string(), 2), Err(AuthError::StorageError));
    assert_eq!(store.len(), 1);
    assert_eq!(store.find_by_token(s.token()), Some(&s));
}

#[test]
fn stores_take_up_where_others_stopped() {
    let mut first = SessionStore::new();
    let a = first.create_with_secret(1, "d".to_string(), 1, &[1]).unwrap();
    let mut second = SessionStore::starting_at(first.next_serial());
    let b = second.create_with_secret(1, "d".to_string(), 1, &[1]).unwrap();
    assert_ne!(a.token(), b.token());
    assert_eq!(AccountStore::new().next_id(), 0);
    assert_eq!(SessionStore::new().next_serial(), 0);
}
