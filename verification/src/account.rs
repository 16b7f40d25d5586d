//! User accounts and the store that keeps them unique.

use vstd::prelude::*;
use crate::error::{AuthError, ConflictKind, Missing};
use crate::identity::{
    can_canonicalize,
    canonical_form,
    canonicalize,
    is_canonical,
    is_canonical_name,
};
use crate::password::{PasswordHash, PasswordHashView};
use crate::sequences::{lemma_filter_keeps_order, lemma_filter_members, lemma_remove_is_filter};
use crate::text::str_eq;

verus! {

/// What an account is.
pub struct AccountView {
    pub id: u64,
    pub display_name: Seq<char>,
    pub email: Seq<char>,
    pub password_hash: PasswordHashView,
}

/// A registered user.
#[derive(Debug, PartialEq, Eq)]
pub struct Account {
    id: u64,
    display_name: String,
    email: String,
    password_hash: PasswordHash,
}

impl View for Account {
    type V = AccountView;

    closed spec fn view(&self) -> AccountView {
        AccountView {
            id: self.id,
            display_name: self.display_name@,
            email: self.email@,
            password_hash: self.password_hash@,
        }
    }
}

impl Clone for Account {
    fn clone(&self) -> (copy: Account)
        ensures
            copy@ == self@,
    {
        Account {
            id: self.id,
            display_name: self.display_name.clone(),
            email: self.email.clone(),
            password_hash: self.password_hash.clone(),
        }
    }
}

impl Account {
    /// The identifier assigned at creation.
    pub fn id(&self) -> (id: u64)
        ensures
            id == self@.id,
    {
        self.id
    }

    /// The canonical display name.
    pub fn display_name(&self) -> (name: &str)
        ensures
            name@ == self@.display_name,
    {
        self.display_name.as_str()
    }

    /// The contact email.
    pub fn email(&self) -> (email: &str)
        ensures
            email@ == self@.email,
    {
        self.email.as_str()
    }

    /// The stored password hash.
    pub fn password_hash(&self) -> (hash: &PasswordHash)
        ensures
            hash@ == self@.password_hash,
    {
        &self.password_hash
    }
}

/// The accounts whose id is not `id`.
pub open spec fn id_is_not(id: u64) -> spec_fn(AccountView) -> bool {
    |a: AccountView| a.id != id
}

/// What an account store is: the live accounts in the order of their
/// creation, and the id that the next account will get.
pub struct AccountsView {
    pub accounts: Seq<AccountView>,
    pub next_id: u64,
}

impl AccountsView {
    /// The store's invariant: every name is canonical; no two accounts share
    /// an id, a name or an email; every id was handed out before `next_id`.
    pub open spec fn wf(self) -> bool {
        &&& forall|i: int|
            0 <= i < self.accounts.len() ==> {
                &&& (#[trigger] self.accounts[i]).id < self.next_id
                &&& is_canonical(self.accounts[i].display_name)
            }
        &&& forall|i: int, j: int|
            #![trigger self.accounts[i], self.accounts[j]]
            0 <= i < j < self.accounts.len() ==> {
                &&& self.accounts[i].id != self.accounts[j].id
                &&& self.accounts[i].display_name != self.accounts[j].display_name
                &&& self.accounts[i].email != self.accounts[j].email
            }
    }

    /// The store that holds nothing.
    pub open spec fn empty() -> AccountsView {
        AccountsView { accounts: Seq::empty(), next_id: 0 }
    }

    /// Whether an account goes by the canonical name `name`.
    pub open spec fn has_name(self, name: Seq<char>) -> bool {
        exists|i: int|
            0 <= i < self.accounts.len() && (#[trigger] self.accounts[i]).display_name == name
    }

    /// Whether an account has the email `email`.
    pub open spec fn has_email(self, email: Seq<char>) -> bool {
        exists|i: int| 0 <= i < self.accounts.len() && (#[trigger] self.accounts[i]).email == email
    }

    /// Whether an account has the id `id`.
    pub open spec fn has_id(self, id: u64) -> bool {
        exists|i: int| 0 <= i < self.accounts.len() && (#[trigger] self.accounts[i]).id == id
    }

    /// The place of the account named `name`, where there is one.
    pub open spec fn index_of_name(self, name: Seq<char>) -> int {
        choose|i: int|
            0 <= i < self.accounts.len() && (#[trigger] self.accounts[i]).display_name == name
    }

    /// The place of the account with id `id`, where there is one.
    pub open spec fn index_of_id(self, id: u64) -> int {
        choose|i: int| 0 <= i < self.accounts.len() && (#[trigger] self.accounts[i]).id == id
    }

    /// The account named `name`.
    pub open spec fn by_name(self, name: Seq<char>) -> Option<AccountView> {
        if self.has_name(name) {
            Some(self.accounts[self.index_of_name(name)])
        } else {
            None
        }
    }

    /// The account with id `id`.
    pub open spec fn by_id(self, id: u64) -> Option<AccountView> {
        if self.has_id(id) {
            Some(self.accounts[self.index_of_id(id)])
        } else {
            None
        }
    }

    /// The duplicate check of registration: the canonical form of the typed
    /// name is taken, or the email is.
    pub open spec fn login_exists(self, display_name_source: Seq<char>, email: Seq<char>) -> bool {
        (can_canonicalize(display_name_source) && self.has_name(
            canonical_form(display_name_source),
        )) || self.has_email(email)
    }

    /// Why `create` refuses a name and an email, if it does.
    pub open spec fn refusal(self, display_name: Seq<char>, email: Seq<char>) -> Option<AuthError> {
        if !is_canonical(display_name) {
            Some(AuthError::InvalidInput)
        } else if self.has_name(display_name) || self.has_email(email) {
            Some(AuthError::Conflict(ConflictKind::NameExists))
        } else if self.next_id == u64::MAX {
            Some(AuthError::StorageError)
        } else {
            None
        }
    }

    /// The account that `create` makes.
    pub open spec fn new_account(
        self,
        display_name: Seq<char>,
        email: Seq<char>,
        password_hash: PasswordHashView,
    ) -> AccountView {
        AccountView { id: self.next_id, display_name, email, password_hash }
    }

    /// The store after `create` has accepted.
    pub open spec fn created(
        self,
        display_name: Seq<char>,
        email: Seq<char>,
        password_hash: PasswordHashView,
    ) -> AccountsView {
        AccountsView {
            accounts: self.accounts.push(self.new_account(display_name, email, password_hash)),
            next_id: (self.next_id + 1) as u64,
        }
    }

    /// The store after the account with id `id` got a new password hash.
    pub open spec fn with_password(self, id: u64, password_hash: PasswordHashView) -> AccountsView {
        let i = self.index_of_id(id);
        AccountsView {
            accounts: self.accounts.update(i, AccountView { password_hash, ..self.accounts[i] }),
            next_id: self.next_id,
        }
    }

    /// The store without the account with id `id`.
    pub open spec fn without(self, id: u64) -> AccountsView {
        AccountsView { accounts: self.accounts.filter(id_is_not(id)), next_id: self.next_id }
    }
}

/// In a valid store an account is found under its own id.
pub proof fn lemma_account_is_found(store: AccountsView, i: int)
    requires
        store.wf(),
        0 <= i < store.accounts.len(),
    ensures
        store.by_id(store.accounts[i].id) == Some(store.accounts[i]),
{
}

/// Adding an account that `create` accepts keeps the store's invariant.
pub proof fn lemma_created_keeps_wf(
    store: AccountsView,
    display_name: Seq<char>,
    email: Seq<char>,
    password_hash: PasswordHashView,
)
    requires
        store.wf(),
        store.refusal(display_name, email) is None,
    ensures
        store.created(display_name, email, password_hash).wf(),
{
}

/// Dropping the account `id` keeps the store's invariant.
pub proof fn lemma_without_keeps_wf(store: AccountsView, id: u64)
    requires
        store.wf(),
    ensures
        store.without(id).wf(),
{
    let kept = store.accounts.filter(id_is_not(id));
    lemma_filter_keeps_order(store.accounts, id_is_not(id), all_differ());
    assert forall|i: int| 0 <= i < kept.len() implies {
        &&& (#[trigger] kept[i]).id < store.next_id
        &&& is_canonical(kept[i].display_name)
    } by {
        lemma_filter_members(store.accounts, id_is_not(id), i);
    }
}

/// Two accounts that share neither id, name nor email.
pub open spec fn all_differ() -> spec_fn(AccountView, AccountView) -> bool {
    |a: AccountView, b: AccountView|
        a.id != b.id && a.display_name != b.display_name && a.email != b.email
}

/// The accounts of the system.
pub struct AccountStore {
    accounts: Vec<Account>,
    next_id: u64,
}

impl View for AccountStore {
    type V = AccountsView;

    closed spec fn view(&self) -> AccountsView {
        AccountsView {
            accounts: self.accounts@.map_values(|a: Account| a@),
            next_id: self.next_id,
        }
    }
}

impl AccountStore {
    /// The store's invariant, which every operation keeps.
    pub open spec fn wf(&self) -> bool {
        self@.wf()
    }

    /// An empty store.
    pub fn new() -> (store: AccountStore)
        ensures
            store.wf(),
            store@ == AccountsView::empty(),
    {
        let store = AccountStore { accounts: Vec::new(), next_id: 0 };
        assert(store@.accounts =~= Seq::empty());
        store
    }

    /// An empty store whose first account will get the id `next_id`: a
    /// store that takes up where an earlier one stopped hands out no id that
    /// the earlier one did.
    pub fn starting_at(next_id: u64) -> (store: AccountStore)
        ensures
            store.wf(),
            store@ == (AccountsView { accounts: Seq::empty(), next_id }),
    {
        let store = AccountStore { accounts: Vec::new(), next_id };
        assert(store@.accounts =~= Seq::empty());
        store
    }

    /// The id that the next account will get.
    pub fn next_id(&self) -> (id: u64)
        ensures
            id == self@.next_id,
    {
        self.next_id
    }

    /// The number of live accounts.
    pub fn len(&self) -> (n: usize)
        ensures
            n == self@.accounts.len(),
    {
        self.accounts.len()
    }

    fn position_of_name(&self, name: &str) -> (r: Option<usize>)
        requires
            self.wf(),
        ensures
            match r {
                Some(i) => self@.has_name(name@) && i == self@.index_of_name(name@) && i
                    < self.accounts.len(),
                None => !self@.has_name(name@),
            },
    {
        let mut i: usize = 0;
        while i < self.accounts.len()
            invariant
                i <= self.accounts.len(),
                self.wf(),
                forall|k: int| 0 <= k < i ==> (#[trigger] self@.accounts[k]).display_name != name@,
            decreases self.accounts.len() - i,
        {
            if str_eq(self.accounts[i].display_name.as_str(), name) {
                assert(self@.accounts[i as int].display_name == name@);
                return Some(i);
            }
            i += 1;
        }
        None
    }

    fn position_of_id(&self, id: u64) -> (r: Option<usize>)
        requires
            self.wf(),
        ensures
            match r {
                Some(i) => self@.has_id(id) && i == self@.index_of_id(id) && i
                    < self.accounts.len(),
                None => !self@.has_id(id),
            },
    {
        let mut i: usize = 0;
        while i < self.accounts.len()
            invariant
                i <= self.accounts.len(),
                self.wf(),
                forall|k: int| 0 <= k < i ==> (#[trigger] self@.accounts[k]).id != id,
            decreases self.accounts.len() - i,
        {
            if self.accounts[i].id == id {
                assert(self@.accounts[i as int].id == id);
                return Some(i);
            }
            i += 1;
        }
        None
    }

    fn has_email(&self, email: &str) -> (r: bool)
        ensures
            r == self@.has_email(email@),
    {
        let mut i: usize = 0;
        while i < self.accounts.len()
            invariant
                i <= self.accounts.len(),
                forall|k: int| 0 <= k < i ==> (#[trigger] self@.accounts[k]).email != email@,
            decreases self.accounts.len() - i,
        {
            if str_eq(self.accounts[i].email.as_str(), email) {
                assert(self@.accounts[i as int].email == email@);
                return true;
            }
            i += 1;
        }
        false
    }

    /// The account stored under the canonical name `name`.
    pub fn find_by_display_name(&self, name: &str) -> (r: Option<&Account>)
        requires
            self.wf(),
        ensures
            match r {
                Some(account) => self@.by_name(name@) == Some(account@),
                None => self@.by_name(name@) is None,
            },
    {
        match self.position_of_name(name) {
            Some(i) => Some(&self.accounts[i]),
            None => None,
        }
    }

    /// The account with id `id`.
    pub fn find_by_id(&self, id: u64) -> (r: Option<&Account>)
        requires
            self.wf(),
        ensures
            match r {
                Some(account) => self@.by_id(id) == Some(account@),
                None => self@.by_id(id) is None,
            },
    {
        match self.position_of_id(id) {
            Some(i) => Some(&self.accounts[i]),
            None => None,
        }
    }

    /// Whether a registration under the typed name `display_name_source` and
    /// `email` would duplicate a live account: the name's canonical form is
    /// taken, or the email is.
    pub fn login_exists(&self, display_name_source: &str, email: &str) -> (r: bool)
        requires
            self.wf(),
        ensures
            r == self@.login_exists(display_name_source@, email@),
    {
        let name_taken = match canonicalize(display_name_source) {
            Ok(name) => self.position_of_name(name.as_str()).is_some(),
            Err(_) => false,
        };
        let email_taken = self.has_email(email);
        name_taken || email_taken
    }

    /// Checks uniqueness and inserts, in one step. The new account gets the
    /// next id. Refused, the store stays as it was.
    pub fn create(
        &mut self,
        display_name: String,
        email: String,
        password_hash: PasswordHash,
    ) -> (r: Result<Account, AuthError>)
        requires
            old(self).wf(),
        ensures
            final(self).wf(),
            match r {
                Ok(account) => {
                    &&& old(self)@.refusal(display_name@, email@) is None
                    &&& final(self)@ == old(self)@.created(display_name@, email@, password_hash@)
                    &&& account@ == old(self)@.new_account(display_name@, email@, password_hash@)
                },
                Err(e) => {
                    &&& old(self)@.refusal(display_name@, email@) == Some(e)
                    &&& final(self)@ == old(self)@
                },
            },
    {
        if !is_canonical_name(display_name.as_str()) {
            return Err(AuthError::InvalidInput);
        }
        let name_taken = self.position_of_name(display_name.as_str()).is_some();
        if name_taken || self.has_email(email.as_str()) {
            return Err(AuthError::Conflict(ConflictKind::NameExists));
        }
        if self.next_id == u64::MAX {
            return Err(AuthError::StorageError);
        }
        let account = Account { id: self.next_id, display_name, email, password_hash };
        let copy = account.clone();
        self.accounts.push(account);
        self.next_id = self.next_id + 1;
        proof {
            let before = old(self)@;
            assert(self@.accounts =~= before.accounts.push(copy@));
        }
        Ok(copy)
    }

    /// Replaces the password hash of the account with id `account_id`.
    pub fn reset_password(&mut self, account_id: u64, new_hash: PasswordHash) -> (r: Result<
        (),
        AuthError,
    >)
        requires
            old(self).wf(),
        ensures
            final(self).wf(),
            match r {
                Ok(()) => old(self)@.has_id(account_id) && final(self)@ == old(self)@.with_password(
                    account_id,
                    new_hash@,
                ),
                Err(e) => {
                    &&& e == AuthError::NotFound(Missing::Account)
                    &&& !old(self)@.has_id(account_id)
                    &&& final(self)@ == old(self)@
                },
            },
    {
        match self.position_of_id(account_id) {
            None => Err(AuthError::NotFound(Missing::Account)),
            Some(i) => {
                let ghost hash_view = new_hash@;
                let updated = Account {
                    id: self.accounts[i].id,
                    display_name: self.accounts[i].display_name.clone(),
                    email: self.accounts[i].email.clone(),
                    password_hash: new_hash,
                };
                self.accounts.set(i, updated);
                proof {
                    let before = old(self)@;
                    let after = self@;
                    assert(after.accounts =~= before.accounts.update(
                        i as int,
                        AccountView { password_hash: hash_view, ..before.accounts[i as int] },
                    ));
                }
                Ok(())
            },
        }
    }

    /// Removes the account with id `account_id`.
    pub fn delete(&mut self, account_id: u64) -> (r: Result<(), AuthError>)
        requires
            old(self).wf(),
        ensures
            final(self).wf(),
            match r {
                Ok(()) => old(self)@.has_id(account_id) && final(self)@ == old(self)@.without(
                    account_id,
                ),
                Err(e) => {
                    &&& e == AuthError::NotFound(Missing::Account)
                    &&& !old(self)@.has_id(account_id)
                    &&& final(self)@ == old(self)@
                },
            },
    {
        match self.position_of_id(account_id) {
            None => Err(AuthError::NotFound(Missing::Account)),
            Some(i) => {
                self.accounts.remove(i);
                proof {
                    let before = old(self)@;
                    let after = self@;
                    assert(after.accounts =~= before.accounts.remove(i as int));
                    lemma_remove_is_filter(before.accounts, id_is_not(account_id), i as int);
                }
                Ok(())
            },
        }
    }
}

} // verus!
