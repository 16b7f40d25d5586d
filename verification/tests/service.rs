use user_auth::password::verify;
use user_auth::{
    select_token, AuthError, AuthenticationService, ConflictKind, Missing, PasswordHasher,
    UserCredentials,
};

fn service() -> AuthenticationService {
    AuthenticationService::new(PasswordHasher::new(50).unwrap())
}

fn creds(login: &str, password: &str) -> UserCredentials {
    UserCredentials::new(login, password, None)
}

#[test]
fn register_login_logout_scenario() {
    let mut svc = service();
    let alice = svc.register("alice", "a@x.com", "pw123").unwrap();
    assert_eq!(alice.display_name(), "alice");
    assert_eq!(alice.email(), "a@x.com");
    assert!(matches!(
        svc.register("alice", "b@y.com", "pw456"),
        Err(AuthError::Conflict(_))
    ));
    let (account, session) = svc.login(&creds("alice", "pw123"), 1000).unwrap();
    assert_eq!(account, alice);
    let t1 = session.token().to_string();
    assert!(matches!(svc.login(&creds("alice", "wrong"), 1001), Err(AuthError::Unauthorized)));
    assert_eq!(svc.resolve_session(&t1), Some(&alice));
    assert_eq!(svc.logout(&t1), Ok(()));
    assert_eq!(svc.resolve_session(&t1), None);
}

#[test]
fn registration_stores_a_hash_not_the_password() {
    let mut svc = service();
    let a = svc.register("Alice Smith", "a@x.com", "pw123").unwrap();
    assert_eq!(a.display_name(), "alice-smith");
    assert!(verify("pw123", a.password_hash()));
    assert!(!verify("pw124", a.password_hash()));
    assert_eq!(a.password_hash().rounds(), 50);
    assert_eq!(a.password_hash().salt().len(), 16);
    assert_eq!(svc.sessions().len(), 0);
    assert_eq!(svc.accounts().len(), 1);
}

#[test]
fn registration_with_salt_is_determined() {
    let mut svc = service();
    let a = svc.register_with_salt("alice", "a@x.com", "pw123", b"0123456789abcdef").unwrap();
    let expected = PasswordHasher::new(50).unwrap().hash_with_salt("pw123", b"0123456789abcdef");
    assert_eq!(a.password_hash(), &expected);
    assert_eq!(a.id(), 0);
}

#[test]
fn registration_errors_by_kind() {
    let mut svc = service();
    assert_eq!(svc.register("", "a@x.com", "pw"), Err(AuthError::InvalidInput));
    assert_eq!(svc.register("a/b", "a@x.com", "pw"), Err(AuthError::InvalidInput));
    svc.register("alice", "a@x.com", "pw").unwrap();
    assert_eq!(
        svc.register("ALICE", "new@x.com", "pw"),
        Err(AuthError::Conflict(ConflictKind::DuplicateLogin))
    );
    assert_eq!(
        svc.register("bob", "a@x.com", "pw"),
        Err(AuthError::Conflict(ConflictKind::DuplicateLogin))
    );
    // an invalid name is reported before any conflict of the email
    assert_eq!(svc.register("a/b", "a@x.com", "pw"), Err(AuthError::InvalidInput));
    assert_eq!(svc.accounts().len(), 1);
}

#[test]
fn of_many_registrations_under_one_name_one_wins() {
    for n in [2usize, 3, 10] {
        let mut svc = service();
        let mut accepted = 0;
        let mut conflicts = 0;
        for i in 0..n {
            match svc.register_with_salt("racer", &format!("r{}@x.com", i), "pw", b"salt") {
                Ok(_) => accepted += 1,
                Err(AuthError::Conflict(_)) => conflicts += 1,
                Err(e) => panic!("unexpected {:?}", e),
            }
        }
        assert_eq!(accepted, 1);
        assert_eq!(conflicts, n - 1);
        assert_eq!(svc.accounts().len(), 1);
    }
}

#[test]
fn login_failures_are_all_unauthorized() {
    let mut svc = service();
    svc.register("alice", "a@x.com", "pw123").unwrap();
    let unknown = svc.login(&creds("nobody", "pw123"), 1).unwrap_err();
    let wrong = svc.login(&creds("alice", "nope"), 1).unwrap_err();
    let invalid = svc.login(&creds("a/b", "pw123"), 1).unwrap_err();
    assert_eq!(unknown, AuthError::Unauthorized);
    assert_eq!(wrong, unknown);
    assert_eq!(invalid, unknown);
    assert_eq!(wrong.message(), unknown.message());
    assert_eq!(svc.sessions().len(), 0);
}

#[test]
fn login_resolves_the_typed_name() {
    let mut svc = service();
    let a = svc.register("Alice Smith", "a@x.com", "pw").unwrap();
    let (found, _) = svc.login(&creds("alice smith", "pw"), 5).unwrap();
    assert_eq!(found, a);
    let (found, _) = svc.login(&creds("alice-smith", "pw"), 6).unwrap();
    assert_eq!(found, a);
}

#[test]
fn device_label_defaults_to_unknown_device() {
    let mut svc = service();
    svc.register("alice", "a@x.com", "pw").unwrap();
    let (_, anonymous) = svc.login(&creds("alice", "pw"), 10).unwrap();
    assert_eq!(anonymous.device_label(), "Unknown device");
    let named = UserCredentials::new("alice", "pw", Some("laptop"));
    let (account, session) = svc.login(&named, 11).unwrap();
    assert_eq!(session.device_label(), "laptop");
    assert_eq!(session.account_id(), account.id());
    assert_eq!(session.issued_at(), 11);
    assert_eq!(named.device_label(), "laptop");
    assert_eq!(creds("a", "b").device_label(), "Unknown device");
    assert_eq!(named.login(), "alice");
    assert_eq!(named.password(), "pw");
    assert_eq!(named.device(), Some("laptop"));
    assert_eq!(creds("a", "b").device(), None);
    assert_eq!(named.clone(), named);
}

#[test]
fn login_with_secret_fixes_the_token() {
    let mut svc = service();
    svc.register("alice", "a@x.com", "pw").unwrap();
    let (_, s) = svc.login_with_secret(&creds("alice", "pw"), 7, &[0xde, 0xad]).unwrap();
    assert_eq!(s.token(), "0000000000000000dead");
    let (_, s) = svc.login_with_secret(&creds("alice", "pw"), 7, &[0xde, 0xad]).unwrap();
    assert_eq!(s.token(), "0000000000000001dead");
    assert_eq!(
        svc.login_with_secret(&creds("alice", "no"), 7, &[0xde, 0xad]).unwrap_err(),
        AuthError::Unauthorized
    );
}

#[test]
fn two_sessions_of_one_account_are_independent() {
    let mut svc = service();
    let alice = svc.register("alice", "a@x.com", "pw").unwrap();
    let (_, first) = svc.login(&UserCredentials::new("alice", "pw", Some("phone")), 1).unwrap();
    let (_, second) = svc.login(&UserCredentials::new("alice", "pw", Some("laptop")), 2).unwrap();
    assert_ne!(first.token(), second.token());
    assert_eq!(svc.list_sessions(alice.id()), vec![first.clone(), second.clone()]);
    assert_eq!(svc.logout(first.token()), Ok(()));
    assert_eq!(svc.resolve_session(first.token()), None);
    assert_eq!(svc.resolve_session(second.token()), Some(&alice));
    assert_eq!(svc.list_sessions(alice.id()), vec![second.clone()]);
    assert_eq!(svc.logout(second.token()), Ok(()));
    assert_eq!(svc.list_sessions(alice.id()), vec![]);
}

#[test]
fn logout_of_an_unknown_token_is_not_found() {
    let mut svc = service();
    svc.register("alice", "a@x.com", "pw").unwrap();
    let (_, s) = svc.login(&creds("alice", "pw"), 1).unwrap();
    assert_eq!(svc.logout("no-such-token"), Err(AuthError::NotFound(Missing::Session)));
    assert_eq!(svc.logout(""), Err(AuthError::NotFound(Missing::Session)));
    assert_eq!(svc.logout(s.token()), Ok(()));
    assert_eq!(svc.logout(s.token()), Err(AuthError::NotFound(Missing::Session)));
    assert_eq!(AuthError::NotFound(Missing::Session).message(), "no such session");
}

#[test]
fn explicit_token_wins_over_cookie() {
    assert_eq!(select_token(Some("h"), Some("c")), Some("h"));
    assert_eq!(select_token(Some("h"), None), Some("h"));
    assert_eq!(select_token(None, Some("c")), Some("c"));
    assert_eq!(select_token(None, None), None);

    let mut svc = service();
    svc.register("alice", "a@x.com", "pw").unwrap();
    let (_, a) = svc.login(&creds("alice", "pw"), 1).unwrap();
    let (_, b) = svc.login(&creds("alice", "pw"), 2).unwrap();
    assert_eq!(svc.logout_request(None, None), Err(AuthError::NotFound(Missing::Session)));
    assert_eq!(svc.logout_request(Some(a.token()), Some(b.token())), Ok(()));
    assert!(svc.resolve_session(a.token()).is_none());
    assert!(svc.resolve_session(b.token()).is_some());
    // the explicit token is gone: the cookie is not tried in its place
    assert_eq!(svc.logout_request(Some(a.token()), Some(b.token())), Err(AuthError::NotFound(Missing::Session)));
    assert!(svc.resolve_session(b.token()).is_some());
    assert_eq!(svc.logout_request(None, Some(b.token())), Ok(()));
    assert!(svc.resolve_session(b.token()).is_none());
}

#[test]
fn deleting_an_account_revokes_its_sessions() {
    let mut svc = service();
    let alice = svc.register("alice", "a@x.com", "pw").unwrap();
    let bob = svc.register("bob", "b@x.com", "pw2").unwrap();
    let (_, a1) = svc.login(&creds("alice", "pw"), 1).unwrap();
    let (_, b1) = svc.login(&creds("bob", "pw2"), 2).unwrap();
    let (_, a2) = svc.login(&creds("alice", "pw"), 3).unwrap();
    assert_eq!(svc.delete_account(alice.id(), &creds("alice", "pw")), Ok(()));
    assert_eq!(svc.resolve_session(a1.token()), None);
    assert_eq!(svc.resolve_session(a2.token()), None);
    assert_eq!(svc.resolve_session(b1.token()), Some(&bob));
    assert_eq!(svc.list_sessions(alice.id()), vec![]);
    assert_eq!(svc.accounts().len(), 1);
    assert_eq!(svc.sessions().len(), 1);
    assert!(matches!(svc.login(&creds("alice", "pw"), 4), Err(AuthError::Unauthorized)));
    // the name and the email are free again; the id is not reused
    let again = svc.register("alice", "a@x.com", "pw").unwrap();
    assert_eq!(again.id(), 2);
    assert_eq!(svc.resolve_session(a1.token()), None);
}

#[test]
fn deleting_needs_the_callers_own_credentials() {
    let mut svc = service();
    let alice = svc.register("alice", "a@x.com", "pw").unwrap();
    let bob = svc.register("bob", "b@x.com", "pw2").unwrap();
    let (_, a1) = svc.login(&creds("alice", "pw"), 1).unwrap();
    assert_eq!(
        svc.delete_account(alice.id(), &creds("alice", "wrong")),
        Err(AuthError::Unauthorized)
    );
    assert_eq!(
        svc.delete_account(alice.id(), &creds("nobody", "pw")),
        Err(AuthError::Unauthorized)
    );
    assert_eq!(svc.delete_account(alice.id(), &creds("bob", "pw2")), Err(AuthError::Forbidden));
    assert_eq!(svc.delete_account(bob.id(), &creds("alice", "pw")), Err(AuthError::Forbidden));
    assert_eq!(svc.delete_account(99, &creds("alice", "pw")), Err(AuthError::Forbidden));
    assert_eq!(svc.accounts().len(), 2);
    assert_eq!(svc.resolve_session(a1.token()), Some(&alice));
}

#[test]
fn password_reset_changes_what_logs_in() {
    let mut svc = service();
    let alice = svc.register("alice", "a@x.com", "old").unwrap();
    let (_, s) = svc.login(&creds("alice", "old"), 1).unwrap();
    assert_eq!(svc.reset_password(alice.id(), "new"), Ok(()));
    assert!(matches!(svc.login(&creds("alice", "old"), 2), Err(AuthError::Unauthorized)));
    assert!(svc.login(&creds("alice", "new"), 3).is_ok());
    assert!(svc.resolve_session(s.token()).is_some());
    assert_eq!(svc.reset_password(42, "new"), Err(AuthError::NotFound(Missing::Account)));
    assert_eq!(svc.reset_password_with_salt(alice.id(), "third", b"saltsaltsaltsalt"), Ok(()));
    let expected = PasswordHasher::new(50).unwrap().hash_with_salt("third", b"saltsaltsaltsalt");
    assert_eq!(svc.accounts().find_by_id(alice.id()).unwrap().password_hash(), &expected);
    assert_eq!(
        svc.reset_password_with_salt(42, "x", b"saltsaltsaltsalt"),
        Err(AuthError::NotFound(Missing::Account))
    );
}

#[test]
fn errors_have_messages() {
    let all = [
        (AuthError::InvalidInput, "invalid display name"),
        (AuthError::Conflict(ConflictKind::DuplicateLogin), "duplicate login"),
        (AuthError::Conflict(ConflictKind::NameExists), "name already exists"),
        (AuthError::Unauthorized, "invalid credentials"),
        (AuthError::Forbidden, "cannot delete someone else's account"),
        (AuthError::NotFound(Missing::Session), "no such session"),
        (AuthError::NotFound(Missing::Account), "no such account"),
        (AuthError::StorageError, "storage failure"),
    ];
    for (error, message) in all {
        assert_eq!(error.message(), message);
    }
}

#[test]
fn service_over_given_stores() {
    let hasher = PasswordHasher::new(5).unwrap();
    let mut accounts = user_auth::AccountStore::new();
    let a = accounts
        .create("alice".to_string(), "a@x.com".to_string(), hasher.hash_with_salt("pw", b"s"))
        .unwrap();
    let mut sessions = user_auth::SessionStore::new();
    let s = sessions.create_with_secret(a.id(), "d".to_string(), 1, &[7]).unwrap();
    assert!(sessions.all_owned(&accounts));
    let mut svc = AuthenticationService::with_stores(accounts, sessions, hasher).unwrap();
    assert_eq!(svc.resolve_session(s.token()), Some(&a));
    assert!(svc.login(&creds("alice", "pw"), 2).is_ok());

    // a session without its account is refused
    let accounts = user_auth::AccountStore::new();
    let mut sessions = user_auth::SessionStore::new();
    sessions.create_with_secret(0, "d".to_string(), 1, &[7]).unwrap();
    assert!(!sessions.all_owned(&accounts));
    assert!(AuthenticationService::with_stores(accounts, sessions, hasher).is_none());
}

#[test]
fn hasher_verifies_what_it_hashed() {
    let hasher = PasswordHasher::new(5).unwrap();
    let h = hasher.hash("pw").unwrap();
    assert!(hasher.verify("pw", &h));
    assert!(!hasher.verify("pW", &h));
    // a hash made with other rounds is checked with its own rounds
    let other = PasswordHasher::new(9).unwrap().hash("pw").unwrap();
    assert!(hasher.verify("pw", &other));
}

#[test]
fn service_reports_exhausted_stores() {
    let hasher = PasswordHasher::new(5).unwrap();
    let accounts = user_auth::AccountStore::starting_at(u64::MAX - 1);
    let sessions = user_auth::SessionStore::starting_at(u64::MAX);
    let mut svc = AuthenticationService::with_stores(accounts, sessions, hasher).unwrap();
    let alice = svc.register("alice", "a@x.com", "pw").unwrap();
    assert_eq!(alice.id(), u64::MAX - 1);
    assert_eq!(svc.register("bob", "b@x.com", "pw"), Err(AuthError::StorageError));
    assert_eq!(
        svc.register("alice", "b@x.com", "pw"),
        Err(AuthError::Conflict(ConflictKind::DuplicateLogin))
    );
    // bad credentials are reported before the shortage of serials
    assert!(matches!(svc.login(&creds("alice", "no"), 1), Err(AuthError::Unauthorized)));
    assert!(matches!(svc.login(&creds("alice", "pw"), 1), Err(AuthError::StorageError)));
    assert!(matches!(
        svc.login_with_secret(&creds("alice", "pw"), 1, &[1]),
        Err(AuthError::StorageError)
    ));
    assert_eq!(svc.sessions().len(), 0);
}
