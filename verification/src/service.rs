//! Registration, login, session lookup and revocation over the two stores.

use vstd::prelude::*;
use crate::account::{
    id_is_not,
    lemma_account_is_found,
    lemma_without_keeps_wf,
    Account,
    AccountStore,
    AccountsView,
    AccountView,
};
use crate::credentials::{select_token, selected_token, UserCredentials};
use crate::error::{AuthError, ConflictKind, Missing};
use crate::identity::{can_canonicalize, canonical_form, canonicalize};
use crate::password::{hash_of, verify, PasswordHashView, PasswordHasher, SALT_LEN};
use crate::sequences::lemma_filter_members;
use crate::session::{
    not_owned_by,
    token_is_not,
    views_of,
    Session,
    SessionStore,
    SessionsView,
    SessionView,
};

verus! {

/// Whether `e` is a fitting answer where the checks of an operation give
/// `refusal`: it is the refusal itself; or, for an operation that draws
/// random bytes after its checks have passed, it is `StorageError`.
pub open spec fn answers(refusal: Option<AuthError>, e: AuthError, draws: bool) -> bool {
    refusal == Some(e) || (draws && refusal is None && e == AuthError::StorageError)
}

/// What the service is: the accounts and the sessions.
pub struct ServiceView {
    pub accounts: AccountsView,
    pub sessions: SessionsView,
}

impl ServiceView {
    /// The service's invariant: both stores are valid, and every live session
    /// belongs to a live account.
    pub open spec fn wf(self) -> bool {
        &&& self.accounts.wf()
        &&& self.sessions.wf()
        &&& forall|i: int|
            0 <= i < self.sessions.sessions.len() ==> self.accounts.has_id(
                (#[trigger] self.sessions.sessions[i]).account_id,
            )
    }

    /// The service with nothing in it.
    pub open spec fn empty() -> ServiceView {
        ServiceView { accounts: AccountsView::empty(), sessions: SessionsView::empty() }
    }

    /// Why a registration is refused, if it is: the name has no canonical
    /// form; or the name or the email is in use; or the ids have run out.
    pub open spec fn registration_refusal(
        self,
        display_name: Seq<char>,
        email: Seq<char>,
    ) -> Option<AuthError> {
        if !can_canonicalize(display_name) {
            Some(AuthError::InvalidInput)
        } else if self.accounts.login_exists(display_name, email) {
            Some(AuthError::Conflict(ConflictKind::DuplicateLogin))
        } else if self.accounts.next_id == u64::MAX {
            Some(AuthError::StorageError)
        } else {
            None
        }
    }

    /// The service after a registration was accepted.
    pub open spec fn registered(
        self,
        display_name: Seq<char>,
        email: Seq<char>,
        password_hash: PasswordHashView,
    ) -> ServiceView {
        ServiceView {
            accounts: self.accounts.created(canonical_form(display_name), email, password_hash),
            sessions: self.sessions,
        }
    }

    /// The account that a login identifier resolves to.
    pub open spec fn account_for(self, login: Seq<char>) -> Option<AccountView> {
        if can_canonicalize(login) {
            self.accounts.by_name(canonical_form(login))
        } else {
            None
        }
    }

    /// Whether the login resolves and the password matches the stored hash.
    pub open spec fn authenticates(self, login: Seq<char>, password: Seq<char>) -> bool {
        match self.account_for(login) {
            Some(account) => account.password_hash.matches(password),
            None => false,
        }
    }

    /// Why a login is refused, if it is. An unknown login and a wrong
    /// password give the same answer.
    pub open spec fn login_refusal(self, login: Seq<char>, password: Seq<char>) -> Option<
        AuthError,
    > {
        if !self.authenticates(login, password) {
            Some(AuthError::Unauthorized)
        } else if self.sessions.next_serial == u64::MAX {
            Some(AuthError::StorageError)
        } else {
            None
        }
    }

    /// The service after it has issued `session`.
    pub open spec fn logged_in(self, session: SessionView) -> ServiceView {
        ServiceView { accounts: self.accounts, sessions: self.sessions.with_session(session) }
    }

    /// The service after the session of `token` was revoked.
    pub open spec fn logged_out(self, token: Seq<char>) -> ServiceView {
        ServiceView { accounts: self.accounts, sessions: self.sessions.without_token(token) }
    }

    /// The account that a token speaks for.
    pub open spec fn resolve(self, token: Seq<char>) -> Option<AccountView> {
        match self.sessions.by_token(token) {
            Some(session) => self.accounts.by_id(session.account_id),
            None => None,
        }
    }

    /// Why the deletion of an account is refused, if it is: the re-asserted
    /// credentials do not authenticate; or they are those of another account
    /// than the caller's.
    pub open spec fn deletion_refusal(
        self,
        caller_id: u64,
        login: Seq<char>,
        password: Seq<char>,
    ) -> Option<AuthError> {
        if !self.authenticates(login, password) {
            Some(AuthError::Unauthorized)
        } else if self.account_for(login)->0.id != caller_id {
            Some(AuthError::Forbidden)
        } else {
            None
        }
    }

    /// The service after the account `id` got a new password hash.
    pub open spec fn password_reset(self, id: u64, password_hash: PasswordHashView) -> ServiceView {
        ServiceView {
            accounts: self.accounts.with_password(id, password_hash),
            sessions: self.sessions,
        }
    }

    /// The service without the account `id` and without its sessions.
    pub open spec fn deleted(self, id: u64) -> ServiceView {
        ServiceView {
            accounts: self.accounts.without(id),
            sessions: self.sessions.without_account(id),
        }
    }
}

/// The service: both stores and the configured hasher.
pub struct AuthenticationService {
    accounts: AccountStore,
    sessions: SessionStore,
    hasher: PasswordHasher,
}

impl View for AuthenticationService {
    type V = ServiceView;

    closed spec fn view(&self) -> ServiceView {
        ServiceView { accounts: self.accounts@, sessions: self.sessions@ }
    }
}

impl AuthenticationService {
    /// The service's invariant, which every operation keeps.
    pub open spec fn wf(&self) -> bool {
        self@.wf()
    }

    /// The rounds that new password hashes are made with.
    pub closed spec fn rounds(&self) -> u32 {
        self.hasher.spec_rounds()
    }

    /// A service with no accounts and no sessions.
    pub fn new(hasher: PasswordHasher) -> (service: AuthenticationService)
        ensures
            service.wf(),
            service@ == ServiceView::empty(),
            service.rounds() == hasher.spec_rounds(),
    {
        AuthenticationService {
            accounts: AccountStore::new(),
            sessions: SessionStore::new(),
            hasher,
        }
    }

    /// A service over the given stores. `None` where a session of `sessions`
    /// belongs to no account of `accounts`.
    pub fn with_stores(
        accounts: AccountStore,
        sessions: SessionStore,
        hasher: PasswordHasher,
    ) -> (r: Option<AuthenticationService>)
        requires
            accounts.wf(),
            sessions.wf(),
        ensures
            match r {
                Some(service) => {
                    &&& service.wf()
                    &&& service@ == (ServiceView { accounts: accounts@, sessions: sessions@ })
                    &&& service.rounds() == hasher.spec_rounds()
                },
                None => !(ServiceView { accounts: accounts@, sessions: sessions@ }).wf(),
            },
    {
        if sessions.all_owned(&accounts) {
            Some(AuthenticationService { accounts, sessions, hasher })
        } else {
            None
        }
    }

    /// The account store, to read.
    pub fn accounts(&self) -> (store: &AccountStore)
        ensures
            store@ == self@.accounts,
    {
        &self.accounts
    }

    /// The session store, to read.
    pub fn sessions(&self) -> (store: &SessionStore)
        ensures
            store@ == self@.sessions,
    {
        &self.sessions
    }

    fn store_account(
        &mut self,
        display_name: &str,
        email: &str,
        password: &str,
        salt: Option<&[u8]>,
    ) -> (r: Result<Account, AuthError>)
        requires
            old(self).wf(),
        ensures
            final(self).wf(),
            final(self).rounds() == old(self).rounds(),
            match r {
                Ok(account) => {
                    &&& old(self)@.registration_refusal(display_name@, email@) is None
                    &&& account@.password_hash == hash_of(
                        password@,
                        account@.password_hash.salt,
                        old(self).rounds(),
                    )
                    &&& match salt {
                        Some(given) => account@.password_hash.salt == given@,
                        None => account@.password_hash.salt.len() == SALT_LEN,
                    }
                    &&& account@ == old(self)@.accounts.new_account(
                        canonical_form(display_name@),
                        email@,
                        account@.password_hash,
                    )
                    &&& final(self)@ == old(self)@.registered(
                        display_name@,
                        email@,
                        account@.password_hash,
                    )
                },
                Err(e) => {
                    &&& final(self)@ == old(self)@
                    &&& answers(
                        old(self)@.registration_refusal(display_name@, email@),
                        e,
                        salt is None,
                    )
                },
            },
    {
        let name = match canonicalize(display_name) {
            Ok(name) => name,
            Err(e) => {
                return Err(e);
            },
        };
        if self.accounts.login_exists(display_name, email) {
            return Err(AuthError::Conflict(ConflictKind::DuplicateLogin));
        }
        let hash = match salt {
            Some(given) => self.hasher.hash_with_salt(password, given),
            None => match self.hasher.hash(password) {
                Ok(hash) => hash,
                Err(e) => {
                    return Err(e);
                },
            },
        };
        let ghost before = self@;
        let created = self.accounts.create(name, email.to_owned(), hash);
        proof {
            if created is Ok {
                assert forall|i: int|
                    0 <= i < self@.sessions.sessions.len() implies self@.accounts.has_id(
                    (#[trigger] self@.sessions.sessions[i]).account_id,
                ) by {
                    let id = self@.sessions.sessions[i].account_id;
                    let k = before.accounts.index_of_id(id);
                    assert(self@.accounts.accounts[k].id == id);
                }
            }
        }
        created
    }

    /// Registers an account under the canonical form of `display_name`, with
    /// the password hashed under the given salt. No session is issued.
    pub fn register_with_salt(
        &mut self,
        display_name: &str,
        email: &str,
        password: &str,
        salt: &[u8],
    ) -> (r: Result<Account, AuthError>)
        requires
            old(self).wf(),
        ensures
            final(self).wf(),
            final(self).rounds() == old(self).rounds(),
            match r {
                Ok(account) => {
                    &&& old(self)@.registration_refusal(display_name@, email@) is None
                    &&& account@ == old(self)@.accounts.new_account(
                        canonical_form(display_name@),
                        email@,
                        hash_of(password@, salt@, old(self).rounds()),
                    )
                    &&& final(self)@ == old(self)@.registered(
                        display_name@,
                        email@,
                        hash_of(password@, salt@, old(self).rounds()),
                    )
                },
                Err(e) => {
                    &&& old(self)@.registration_refusal(display_name@, email@) == Some(e)
                    &&& final(self)@ == old(self)@
                },
            },
    {
        self.store_account(display_name, email, password, Some(salt))
    }

    /// Registers an account under the canonical form of `display_name`, with
    /// the password hashed under a salt drawn for this call. Whatever salt was
    /// drawn, the stored hash matches `password`. Where every check passes
    /// and no salt can be drawn, the registration fails with `StorageError`.
    pub fn register(&mut self, display_name: &str, email: &str, password: &str) -> (r: Result<
        Account,
        AuthError,
    >)
        requires
            old(self).wf(),
        ensures
            final(self).wf(),
            final(self).rounds() == old(self).rounds(),
            match r {
                Ok(account) => {
                    &&& old(self)@.registration_refusal(display_name@, email@) is None
                    &&& account@.password_hash.matches(password@)
                    &&& account@.password_hash.salt.len() == SALT_LEN
                    &&& account@.password_hash == hash_of(
                        password@,
                        account@.password_hash.salt,
                        old(self).rounds(),
                    )
                    &&& account@ == old(self)@.accounts.new_account(
                        canonical_form(display_name@),
                        email@,
                        account@.password_hash,
                    )
                    &&& final(self)@ == old(self)@.registered(
                        display_name@,
                        email@,
                        account@.password_hash,
                    )
                },
                Err(e) => {
                    &&& final(self)@ == old(self)@
                    &&& answers(old(self)@.registration_refusal(display_name@, email@), e, true)
                },
            },
    {
        self.store_account(display_name, email, password, None)
    }

    fn store_password(
        &mut self,
        account_id: u64,
        password: &str,
        salt: Option<&[u8]>,
    ) -> (r: Result<(), AuthError>)
        requires
            old(self).wf(),
        ensures
            final(self).wf(),
            final(self).rounds() == old(self).rounds(),
            match r {
                Ok(()) => {
                    &&& old(self)@.accounts.has_id(account_id)
                    &&& final(self)@.accounts.by_id(account_id) is Some
                    &&& final(self)@ == old(self)@.password_reset(
                        account_id,
                        final(self)@.accounts.by_id(account_id)->0.password_hash,
                    )
                    &&& final(self)@.accounts.by_id(account_id)->0.password_hash == hash_of(
                        password@,
                        final(self)@.accounts.by_id(account_id)->0.password_hash.salt,
                        old(self).rounds(),
                    )
                    &&& match salt {
                        Some(given) => final(self)@.accounts.by_id(
                            account_id,
                        )->0.password_hash.salt == given@,
                        None => final(self)@.accounts.by_id(
                            account_id,
                        )->0.password_hash.salt.len() == SALT_LEN,
                    }
                },
                Err(e) => {
                    &&& final(self)@ == old(self)@
                    &&& if old(self)@.accounts.has_id(account_id) {
                        salt is None && e == AuthError::StorageError
                    } else {
                        e == AuthError::NotFound(Missing::Account)
                    }
                },
            },
    {
        if self.accounts.find_by_id(account_id).is_none() {
            return Err(AuthError::NotFound(Missing::Account));
        }
        let hash = match salt {
            Some(given) => self.hasher.hash_with_salt(password, given),
            None => match self.hasher.hash(password) {
                Ok(hash) => hash,
                Err(e) => {
                    return Err(e);
                },
            },
        };
        let ghost before = self@;
        let r = self.accounts.reset_password(account_id, hash);
        proof {
            let k = before.accounts.index_of_id(account_id);
            lemma_account_is_found(self@.accounts, k);
            assert forall|i: int|
                0 <= i < self@.sessions.sessions.len() implies self@.accounts.has_id(
                (#[trigger] self@.sessions.sessions[i]).account_id,
            ) by {
                let id = self@.sessions.sessions[i].account_id;
                let j = before.accounts.index_of_id(id);
                assert(self@.accounts.accounts[j].id == id);
            }
        }
        r
    }

    /// Replaces the password of the account `account_id`, hashed under the
    /// given salt. Nothing but the hash of that account changes.
    pub fn reset_password_with_salt(&mut self, account_id: u64, password: &str, salt: &[u8]) -> (r:
        Result<(), AuthError>)
        requires
            old(self).wf(),
        ensures
            final(self).wf(),
            final(self).rounds() == old(self).rounds(),
            match r {
                Ok(()) => old(self)@.accounts.has_id(account_id) && final(self)@ == old(
                    self,
                )@.password_reset(account_id, hash_of(password@, salt@, old(self).rounds())),
                Err(e) => {
                    &&& e == AuthError::NotFound(Missing::Account)
                    &&& !old(self)@.accounts.has_id(account_id)
                    &&& final(self)@ == old(self)@
                },
            },
    {
        self.store_password(account_id, password, Some(salt))
    }

    /// Replaces the password of the account `account_id`, hashed under a salt
    /// drawn for this call. Whatever salt was drawn, the new hash matches
    /// `password`. An unknown account is `NotFound`; where the account exists
    /// and no salt can be drawn, the reset fails with `StorageError`.
    pub fn reset_password(&mut self, account_id: u64, password: &str) -> (r: Result<(), AuthError>)
        requires
            old(self).wf(),
        ensures
            final(self).wf(),
            final(self).rounds() == old(self).rounds(),
            match r {
                Ok(()) => {
                    &&& old(self)@.accounts.has_id(account_id)
                    &&& final(self)@.accounts.by_id(account_id) is Some
                    &&& final(self)@.accounts.by_id(account_id)->0.password_hash.matches(password@)
                    &&& final(self)@.accounts.by_id(account_id)->0.password_hash.salt.len()
                        == SALT_LEN
                    &&& final(self)@ == old(self)@.password_reset(
                        account_id,
                        final(self)@.accounts.by_id(account_id)->0.password_hash,
                    )
                },
                Err(e) => {
                    &&& final(self)@ == old(self)@
                    &&& if old(self)@.accounts.has_id(account_id) {
                        e == AuthError::StorageError
                    } else {
                        e == AuthError::NotFound(Missing::Account)
                    }
                },
            },
    {
        self.store_password(account_id, password, None)
    }

    fn authenticate(&self, login: &str, password: &str) -> (r: Option<&Account>)
        requires
            self.wf(),
        ensures
            match r {
                Some(account) => self@.authenticates(login@, password@) && self@.account_for(login@)
                    == Some(account@),
                None => !self@.authenticates(login@, password@),
            },
    {
        let name = match canonicalize(login) {
            Ok(name) => name,
            Err(_) => {
                return None;
            },
        };
        match self.accounts.find_by_display_name(name.as_str()) {
            None => None,
            Some(account) => {
                if verify(password, account.password_hash()) {
                    Some(account)
                } else {
                    None
                }
            },
        }
    }

    fn open_session(
        &mut self,
        credentials: &UserCredentials,
        issued_at: u64,
        secret: Option<&[u8]>,
    ) -> (r: Result<(Account, Session), AuthError>)
        requires
            old(self).wf(),
        ensures
            final(self).wf(),
            final(self).rounds() == old(self).rounds(),
            match r {
                Ok((account, session)) => {
                    &&& old(self)@.login_refusal(credentials@.login, credentials@.password) is None
                    &&& old(self)@.account_for(credentials@.login) == Some(account@)
                    &&& match secret {
                        Some(given) => session@ == old(self)@.sessions.new_session(
                            account@.id,
                            credentials@.device_label(),
                            issued_at,
                            given@,
                        ),
                        None => old(self)@.sessions.draws(
                            session@,
                            account@.id,
                            credentials@.device_label(),
                            issued_at,
                        ),
                    }
                    &&& final(self)@ == old(self)@.logged_in(session@)
                },
                Err(e) => {
                    &&& final(self)@ == old(self)@
                    &&& answers(
                        old(self)@.login_refusal(credentials@.login, credentials@.password),
                        e,
                        secret is None,
                    )
                },
            },
    {
        let account = match self.authenticate(credentials.login(), credentials.password()) {
            Some(account) => account.clone(),
            None => {
                return Err(AuthError::Unauthorized);
            },
        };
        let ghost before = self@;
        let issued = match secret {
            Some(given) => self.sessions.create_with_secret(
                account.id(),
                credentials.device_label(),
                issued_at,
                given,
            ),
            None => self.sessions.create(account.id(), credentials.device_label(), issued_at),
        };
        match issued {
            Err(e) => Err(e),
            Ok(session) => {
                proof {
                    before.sessions.lemma_slot_exists(session@.issued_at);
                }
                Ok((account, session))
            },
        }
    }

    /// Logs in with a given secret for the token: checks the credentials and
    /// issues a session for the device they name, or for `"Unknown device"`.
    pub fn login_with_secret(
        &mut self,
        credentials: &UserCredentials,
        issued_at: u64,
        secret: &[u8],
    ) -> (r: Result<(Account, Session), AuthError>)
        requires
            old(self).wf(),
        ensures
            final(self).wf(),
            final(self).rounds() == old(self).rounds(),
            match r {
                Ok((account, session)) => {
                    &&& old(self)@.login_refusal(credentials@.login, credentials@.password) is None
                    &&& old(self)@.account_for(credentials@.login) == Some(account@)
                    &&& session@ == old(self)@.sessions.new_session(
                        account@.id,
                        credentials@.device_label(),
                        issued_at,
                        secret@,
                    )
                    &&& final(self)@ == old(self)@.logged_in(session@)
                },
                Err(e) => {
                    &&& old(self)@.login_refusal(credentials@.login, credentials@.password)
                        == Some(e)
                    &&& final(self)@ == old(self)@
                },
            },
    {
        self.open_session(credentials, issued_at, Some(secret))
    }

    /// Logs in: checks the credentials and issues a session under a secret
    /// drawn for this call. An unknown login and a wrong password are both
    /// `Unauthorized`. Where the credentials hold and no secret can be drawn,
    /// the login fails with `StorageError`.
    pub fn login(&mut self, credentials: &UserCredentials, issued_at: u64) -> (r: Result<
        (Account, Session),
        AuthError,
    >)
        requires
            old(self).wf(),
        ensures
            final(self).wf(),
            final(self).rounds() == old(self).rounds(),
            match r {
                Ok((account, session)) => {
                    &&& old(self)@.login_refusal(credentials@.login, credentials@.password) is None
                    &&& old(self)@.account_for(credentials@.login) == Some(account@)
                    &&& old(self)@.sessions.draws(
                        session@,
                        account@.id,
                        credentials@.device_label(),
                        issued_at,
                    )
                    &&& final(self)@ == old(self)@.logged_in(session@)
                },
                Err(e) => {
                    &&& final(self)@ == old(self)@
                    &&& answers(
                        old(self)@.login_refusal(credentials@.login, credentials@.password),
                        e,
                        true,
                    )
                },
            },
    {
        self.open_session(credentials, issued_at, None)
    }

    /// The live sessions of one account, the earliest first.
    pub fn list_sessions(&self, account_id: u64) -> (list: Vec<Session>)
        requires
            self.wf(),
        ensures
            views_of(list@) == self@.sessions.of_account(account_id),
            forall|i: int, j: int|
                0 <= i < j < list@.len() ==> list@[i]@.issued_at <= list@[j]@.issued_at,
    {
        self.sessions.list_by_account(account_id)
    }

    /// The account that `token` speaks for; `None` is "unauthenticated".
    pub fn resolve_session(&self, token: &str) -> (r: Option<&Account>)
        requires
            self.wf(),
        ensures
            match r {
                Some(account) => self@.resolve(token@) == Some(account@),
                None => self@.resolve(token@) is None,
            },
            r is Some <==> self@.sessions.has_token(token@),
    {
        match self.sessions.find_by_token(token) {
            None => None,
            Some(session) => {
                self.accounts.find_by_id(session.account_id())
            },
        }
    }

    /// Revokes the session of `token`; `NotFound` where there is none.
    pub fn logout(&mut self, token: &str) -> (r: Result<(), AuthError>)
        requires
            old(self).wf(),
        ensures
            final(self).wf(),
            final(self).rounds() == old(self).rounds(),
            match r {
                Ok(()) => old(self)@.sessions.has_token(token@) && final(self)@ == old(
                    self,
                )@.logged_out(token@),
                Err(e) => {
                    &&& e == AuthError::NotFound(Missing::Session)
                    &&& !old(self)@.sessions.has_token(token@)
                    &&& final(self)@ == old(self)@
                },
            },
    {
        let ghost before = self@;
        let r = self.sessions.delete(token);
        proof {
            if r is Ok {
                lemma_kept_sessions_have_accounts(before, token_is_not(token@));
            }
        }
        r
    }

    /// Revokes the session of the token that a request carries: the explicit
    /// one where there is one, else the cookie's. With neither there is
    /// nothing to revoke, which is `NotFound` too.
    pub fn logout_request(&mut self, explicit: Option<&str>, cookie: Option<&str>) -> (r: Result<
        (),
        AuthError,
    >)
        requires
            old(self).wf(),
        ensures
            final(self).wf(),
            final(self).rounds() == old(self).rounds(),
            match selected_token(explicit, cookie) {
                Some(token) => match r {
                    Ok(()) => old(self)@.sessions.has_token(token@) && final(self)@ == old(
                        self,
                    )@.logged_out(token@),
                    Err(e) => {
                        &&& e == AuthError::NotFound(Missing::Session)
                        &&& !old(self)@.sessions.has_token(token@)
                        &&& final(self)@ == old(self)@
                    },
                },
                None => {
                    &&& r == Err::<(), AuthError>(AuthError::NotFound(Missing::Session))
                    &&& final(self)@ == old(self)@
                },
            },
    {
        match select_token(explicit, cookie) {
            Some(token) => self.logout(token),
            None => Err(AuthError::NotFound(Missing::Session)),
        }
    }

    /// Deletes the caller's own account and every session of it. The caller
    /// re-asserts login and password: credentials that do not authenticate
    /// are `Unauthorized`, those of another account `Forbidden`.
    pub fn delete_account(&mut self, caller_id: u64, credentials: &UserCredentials) -> (r: Result<
        (),
        AuthError,
    >)
        requires
            old(self).wf(),
        ensures
            final(self).wf(),
            final(self).rounds() == old(self).rounds(),
            match r {
                Ok(()) => {
                    &&& old(self)@.deletion_refusal(
                        caller_id,
                        credentials@.login,
                        credentials@.password,
                    ) is None
                    &&& final(self)@ == old(self)@.deleted(caller_id)
                },
                Err(e) => {
                    &&& old(self)@.deletion_refusal(
                        caller_id,
                        credentials@.login,
                        credentials@.password,
                    ) == Some(e)
                    &&& final(self)@ == old(self)@
                },
            },
    {
        let id = match self.authenticate(credentials.login(), credentials.password()) {
            Some(account) => account.id(),
            None => {
                return Err(AuthError::Unauthorized);
            },
        };
        if id != caller_id {
            return Err(AuthError::Forbidden);
        }
        let ghost before = self@;
        let _ = self.sessions.delete_all_for_account(id);
        let removed = self.accounts.delete(id);
        proof {
            lemma_deletion_keeps_wf(before, id);
        }
        removed
    }
}

/// Dropping sessions leaves every remaining session with its account.
pub proof fn lemma_kept_sessions_have_accounts(
    service: ServiceView,
    pred: spec_fn(SessionView) -> bool,
)
    requires
        service.wf(),
    ensures
        (ServiceView {
            accounts: service.accounts,
            sessions: SessionsView {
                sessions: service.sessions.sessions.filter(pred),
                next_serial: service.sessions.next_serial,
            },
        }).wf(),
{
    service.sessions.lemma_filter_keeps_wf(pred);
    let kept = service.sessions.sessions.filter(pred);
    assert forall|i: int| 0 <= i < kept.len() implies service.accounts.has_id(
        (#[trigger] kept[i]).account_id,
    ) by {
        lemma_filter_members(service.sessions.sessions, pred, i);
    }
}

/// Deleting an account together with its sessions keeps the invariant.
pub proof fn lemma_deletion_keeps_wf(service: ServiceView, id: u64)
    requires
        service.wf(),
    ensures
        service.deleted(id).wf(),
{
    let after = service.deleted(id);
    service.sessions.lemma_filter_keeps_wf(not_owned_by(id));
    lemma_without_keeps_wf(service.accounts, id);
    let kept = after.sessions.sessions;
    assert forall|i: int| 0 <= i < kept.len() implies after.accounts.has_id(
        (#[trigger] kept[i]).account_id,
    ) by {
        lemma_filter_members(service.sessions.sessions, not_owned_by(id), i);
        let owner = kept[i].account_id;
        let k = service.accounts.index_of_id(owner);
        service.accounts.accounts.lemma_filter_contains(id_is_not(id), k);
    }
}

} // verus!
