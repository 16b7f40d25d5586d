//! Login sessions and the store that issues and revokes them.

use vstd::prelude::*;
use crate::account::AccountStore;
use crate::entropy::random_bytes;
use crate::error::{AuthError, Missing};
use crate::sequences::{
    lemma_filter_keeps_order,
    lemma_filter_members,
    lemma_filter_take_next,
    lemma_remove_is_filter,
};
use crate::text::str_eq;
use crate::token::{
    issued_before,
    lemma_fresh_token,
    lemma_token_text_has_serial,
    token_text,
    write_token,
    SECRET_LEN,
};

verus! {

/// What a session is.
pub struct SessionView {
    pub token: Seq<char>,
    pub account_id: u64,
    pub device_label: Seq<char>,
    pub issued_at: u64,
}

/// A login session: the bearer token, the account it speaks for, the device
/// it was issued to and the time of issue. Nothing in it changes once issued.
#[derive(Debug, PartialEq, Eq)]
pub struct Session {
    token: String,
    account_id: u64,
    device_label: String,
    issued_at: u64,
}

impl View for Session {
    type V = SessionView;

    closed spec fn view(&self) -> SessionView {
        SessionView {
            token: self.token@,
            account_id: self.account_id,
            device_label: self.device_label@,
            issued_at: self.issued_at,
        }
    }
}

impl Clone for Session {
    fn clone(&self) -> (copy: Session)
        ensures
            copy@ == self@,
    {
        Session {
            token: self.token.clone(),
            account_id: self.account_id,
            device_label: self.device_label.clone(),
            issued_at: self.issued_at,
        }
    }
}

impl Session {
    /// The bearer token.
    pub fn token(&self) -> (token: &str)
        ensures
            token@ == self@.token,
    {
        self.token.as_str()
    }

    /// The id of the account that the session speaks for.
    pub fn account_id(&self) -> (id: u64)
        ensures
            id == self@.account_id,
    {
        self.account_id
    }

    /// The device that the session was issued to.
    pub fn device_label(&self) -> (label: &str)
        ensures
            label@ == self@.device_label,
    {
        self.device_label.as_str()
    }

    /// The time of issue.
    pub fn issued_at(&self) -> (at: u64)
        ensures
            at == self@.issued_at,
    {
        self.issued_at
    }
}

/// The views of a run of sessions.
pub open spec fn views_of(sessions: Seq<Session>) -> Seq<SessionView> {
    sessions.map_values(|s: Session| s@)
}

/// The sessions of the account `id`.
pub open spec fn owned_by(id: u64) -> spec_fn(SessionView) -> bool {
    |s: SessionView| s.account_id == id
}

/// The sessions of every other account than `id`.
pub open spec fn not_owned_by(id: u64) -> spec_fn(SessionView) -> bool {
    |s: SessionView| s.account_id != id
}

/// The sessions whose token is not `token`.
pub open spec fn token_is_not(token: Seq<char>) -> spec_fn(SessionView) -> bool {
    |s: SessionView| s.token != token
}

/// No token twice, and never a later session before an earlier one.
pub open spec fn in_order() -> spec_fn(SessionView, SessionView) -> bool {
    |a: SessionView, b: SessionView| a.token != b.token && a.issued_at <= b.issued_at
}

/// What a session store is: the live sessions by time of issue, and the
/// serial that the next token will carry.
pub struct SessionsView {
    pub sessions: Seq<SessionView>,
    pub next_serial: u64,
}

impl SessionsView {
    /// The store's invariant: every live token was issued under a serial
    /// below `next_serial`; no two live sessions share a token; the sessions
    /// stand in the order of their issue.
    pub open spec fn wf(self) -> bool {
        &&& forall|i: int|
            0 <= i < self.sessions.len() ==> issued_before(
                (#[trigger] self.sessions[i]).token,
                self.next_serial,
            )
        &&& forall|i: int, j: int|
            0 <= i < j < self.sessions.len() ==> in_order()(self.sessions[i], self.sessions[j])
    }

    /// The store that holds nothing.
    pub open spec fn empty() -> SessionsView {
        SessionsView { sessions: Seq::empty(), next_serial: 0 }
    }

    /// Whether a live session has the token `token`.
    pub open spec fn has_token(self, token: Seq<char>) -> bool {
        exists|i: int| 0 <= i < self.sessions.len() && (#[trigger] self.sessions[i]).token == token
    }

    /// The place of the session with token `token`, where there is one.
    pub open spec fn index_of_token(self, token: Seq<char>) -> int {
        choose|i: int| 0 <= i < self.sessions.len() && (#[trigger] self.sessions[i]).token == token
    }

    /// The session with token `token`.
    pub open spec fn by_token(self, token: Seq<char>) -> Option<SessionView> {
        if self.has_token(token) {
            Some(self.sessions[self.index_of_token(token)])
        } else {
            None
        }
    }

    /// Whether a session issued at `issued_at` belongs at place `p`: behind
    /// all that were issued no later, before all that were issued later.
    pub open spec fn is_slot(self, p: int, issued_at: u64) -> bool {
        &&& 0 <= p <= self.sessions.len()
        &&& forall|k: int| 0 <= k < p ==> (#[trigger] self.sessions[k]).issued_at <= issued_at
        &&& forall|k: int|
            p <= k < self.sessions.len() ==> (#[trigger] self.sessions[k]).issued_at > issued_at
    }

    /// The place for a session issued at `issued_at`.
    pub open spec fn slot_for(self, issued_at: u64) -> int {
        choose|p: int| self.is_slot(p, issued_at)
    }

    /// The session that the store issues next for the given secret.
    pub open spec fn new_session(
        self,
        account_id: u64,
        device_label: Seq<char>,
        issued_at: u64,
        secret: Seq<u8>,
    ) -> SessionView {
        SessionView {
            token: token_text(self.next_serial, secret),
            account_id,
            device_label,
            issued_at,
        }
    }

    /// Whether `session` is what the store issues next under some secret of
    /// the length that the store draws.
    pub open spec fn draws(
        self,
        session: SessionView,
        account_id: u64,
        device_label: Seq<char>,
        issued_at: u64,
    ) -> bool {
        exists|secret: Seq<u8>|
            secret.len() == SECRET_LEN && session == #[trigger] self.new_session(
                account_id,
                device_label,
                issued_at,
                secret,
            )
    }

    /// The store after it has issued `session`.
    pub open spec fn with_session(self, session: SessionView) -> SessionsView {
        SessionsView {
            sessions: self.sessions.insert(self.slot_for(session.issued_at), session),
            next_serial: (self.next_serial + 1) as u64,
        }
    }

    /// The store without the session of token `token`.
    pub open spec fn without_token(self, token: Seq<char>) -> SessionsView {
        SessionsView {
            sessions: self.sessions.filter(token_is_not(token)),
            next_serial: self.next_serial,
        }
    }

    /// The store without the sessions of account `id`.
    pub open spec fn without_account(self, id: u64) -> SessionsView {
        SessionsView {
            sessions: self.sessions.filter(not_owned_by(id)),
            next_serial: self.next_serial,
        }
    }

    /// The sessions of account `id`, by time of issue.
    pub open spec fn of_account(self, id: u64) -> Seq<SessionView> {
        self.sessions.filter(owned_by(id))
    }

    /// In a valid store every time of issue has its place.
    pub proof fn lemma_slot_exists(self, issued_at: u64)
        requires
            self.wf(),
        ensures
            self.is_slot(self.slot_for(issued_at), issued_at),
    {
        let n = self.sessions.len() as int;
        let p = first_later(self.sessions, issued_at, n);
        lemma_first_later(self.sessions, issued_at, n);
        assert(self.is_slot(p, issued_at));
    }

    /// Issuing a session keeps the invariant.
    pub proof fn lemma_issue_keeps_wf(
        self,
        account_id: u64,
        device_label: Seq<char>,
        issued_at: u64,
        secret: Seq<u8>,
    )
        requires
            self.wf(),
            self.next_serial < u64::MAX,
        ensures
            self.with_session(self.new_session(account_id, device_label, issued_at, secret)).wf(),
    {
        let session = self.new_session(account_id, device_label, issued_at, secret);
        let after = self.with_session(session);
        let p = self.slot_for(issued_at);
        self.lemma_slot_exists(issued_at);
        lemma_token_text_has_serial(self.next_serial, secret);
        assert forall|i: int, j: int| 0 <= i < j < after.sessions.len() implies in_order()(
            after.sessions[i],
            after.sessions[j],
        ) by {
            let i0 = if i < p { i } else { i - 1 };
            let j0 = if j < p { j } else { j - 1 };
            if i == p {
                lemma_fresh_token(self.sessions[j0].token, self.next_serial, secret);
            } else if j == p {
                lemma_fresh_token(self.sessions[i0].token, self.next_serial, secret);
            }
        }
    }

    /// Dropping sessions keeps the invariant.
    pub proof fn lemma_filter_keeps_wf(self, pred: spec_fn(SessionView) -> bool)
        requires
            self.wf(),
        ensures
            (SessionsView {
                sessions: self.sessions.filter(pred),
                next_serial: self.next_serial,
            }).wf(),
    {
        let kept = self.sessions.filter(pred);
        lemma_filter_keeps_order(self.sessions, pred, in_order());
        assert forall|i: int| 0 <= i < kept.len() implies issued_before(
            (#[trigger] kept[i]).token,
            self.next_serial,
        ) by {
            lemma_filter_members(self.sessions, pred, i);
        }
    }

    /// In a valid store only one place fits a given time of issue.
    pub proof fn lemma_slot_is_unique(self, p: int, issued_at: u64)
        requires
            self.is_slot(p, issued_at),
        ensures
            self.slot_for(issued_at) == p,
    {
        let q = self.slot_for(issued_at);
        if q < p {
            assert(self.sessions[q].issued_at <= issued_at);
        }
        if p < q {
            assert(self.sessions[p].issued_at <= issued_at);
        }
    }
}

/// Where the run of sessions issued after `issued_at` starts, among the
/// first `n`.
pub open spec fn first_later(sessions: Seq<SessionView>, issued_at: u64, n: int) -> int
    decreases n,
{
    if n <= 0 {
        0
    } else if sessions[n - 1].issued_at <= issued_at {
        n
    } else {
        first_later(sessions, issued_at, n - 1)
    }
}

proof fn lemma_first_later(sessions: Seq<SessionView>, issued_at: u64, n: int)
    requires
        0 <= n <= sessions.len(),
    ensures
        0 <= first_later(sessions, issued_at, n) <= n,
        first_later(sessions, issued_at, n) > 0 ==> sessions[first_later(sessions, issued_at, n)
            - 1].issued_at <= issued_at,
        forall|k: int|
            first_later(sessions, issued_at, n) <= k < n ==> (#[trigger] sessions[k]).issued_at
                > issued_at,
    decreases n,
{
    if n > 0 && sessions[n - 1].issued_at > issued_at {
        lemma_first_later(sessions, issued_at, n - 1);
    }
}

/// In a valid store a live session is found under its own token.
pub proof fn lemma_member_is_found(store: SessionsView, i: int)
    requires
        store.wf(),
        0 <= i < store.sessions.len(),
    ensures
        store.by_token(store.sessions[i].token) == Some(store.sessions[i]),
{
}

/// The live sessions of the system.
pub struct SessionStore {
    sessions: Vec<Session>,
    next_serial: u64,
}

impl View for SessionStore {
    type V = SessionsView;

    closed spec fn view(&self) -> SessionsView {
        SessionsView { sessions: views_of(self.sessions@), next_serial: self.next_serial }
    }
}

impl SessionStore {
    /// The store's invariant, which every operation keeps.
    pub open spec fn wf(&self) -> bool {
        self@.wf()
    }

    /// An empty store.
    pub fn new() -> (store: SessionStore)
        ensures
            store.wf(),
            store@ == SessionsView::empty(),
    {
        let store = SessionStore { sessions: Vec::new(), next_serial: 0 };
        assert(store@.sessions =~= Seq::empty());
        store
    }

    /// An empty store whose first token will carry the serial
    /// `next_serial`: a store that takes up where an earlier one stopped
    /// issues no token that the earlier one did.
    pub fn starting_at(next_serial: u64) -> (store: SessionStore)
        ensures
            store.wf(),
            store@ == (SessionsView { sessions: Seq::empty(), next_serial }),
    {
        let store = SessionStore { sessions: Vec::new(), next_serial };
        assert(store@.sessions =~= Seq::empty());
        store
    }

    /// The serial that the next token will carry.
    pub fn next_serial(&self) -> (serial: u64)
        ensures
            serial == self@.next_serial,
    {
        self.next_serial
    }

    /// The number of live sessions.
    pub fn len(&self) -> (n: usize)
        ensures
            n == self@.sessions.len(),
    {
        self.sessions.len()
    }

    fn position_of_token(&self, token: &str) -> (r: Option<usize>)
        requires
            self.wf(),
        ensures
            match r {
                Some(i) => self@.has_token(token@) && i == self@.index_of_token(token@) && i
                    < self.sessions.len(),
                None => !self@.has_token(token@),
            },
    {
        let mut i: usize = 0;
        while i < self.sessions.len()
            invariant
                i <= self.sessions.len(),
                self.wf(),
                forall|k: int| 0 <= k < i ==> (#[trigger] self@.sessions[k]).token != token@,
            decreases self.sessions.len() - i,
        {
            if str_eq(self.sessions[i].token.as_str(), token) {
                proof {
                    lemma_member_is_found(self@, i as int);
                }
                return Some(i);
            }
            i += 1;
        }
        None
    }

    fn slot(&self, issued_at: u64) -> (p: usize)
        requires
            self.wf(),
        ensures
            p <= self.sessions.len(),
            p == self@.slot_for(issued_at),
            self@.is_slot(p as int, issued_at),
    {
        let mut p: usize = self.sessions.len();
        while p > 0
            invariant
                p <= self.sessions.len(),
                self.wf(),
                forall|k: int|
                    p <= k < self.sessions.len() ==> (#[trigger] self@.sessions[k]).issued_at
                        > issued_at,
            ensures
                p <= self.sessions.len(),
                self@.is_slot(p as int, issued_at),
            decreases p,
        {
            if self.sessions[p - 1].issued_at <= issued_at {
                proof {
                    let live = self@.sessions;
                    assert forall|k: int| 0 <= k < p implies (#[trigger] live[k]).issued_at
                        <= issued_at by {
                        if k < p - 1 {
                            assert(in_order()(self@.sessions[k], self@.sessions[p - 1]));
                        }
                    }
                }
                break ;
            }
            p -= 1;
        }
        proof {
            self@.lemma_slot_is_unique(p as int, issued_at);
        }
        p
    }

    /// Issues a session whose token carries the next serial and the given
    /// secret, and files it by its time of issue. Fails only when the serials
    /// have run out.
    pub fn create_with_secret(
        &mut self,
        account_id: u64,
        device_label: String,
        issued_at: u64,
        secret: &[u8],
    ) -> (r: Result<Session, AuthError>)
        requires
            old(self).wf(),
        ensures
            final(self).wf(),
            match r {
                Ok(session) => {
                    &&& old(self)@.next_serial < u64::MAX
                    &&& session@ == old(self)@.new_session(
                        account_id,
                        device_label@,
                        issued_at,
                        secret@,
                    )
                    &&& final(self)@ == old(self)@.with_session(session@)
                },
                Err(e) => {
                    &&& e == AuthError::StorageError
                    &&& old(self)@.next_serial == u64::MAX
                    &&& final(self)@ == old(self)@
                },
            },
    {
        if self.next_serial == u64::MAX {
            return Err(AuthError::StorageError);
        }
        let token = write_token(self.next_serial, secret);
        let session = Session { token, account_id, device_label, issued_at };
        let copy = session.clone();
        let p = self.slot(issued_at);
        self.sessions.insert(p, session);
        self.next_serial = self.next_serial + 1;
        proof {
            let before = old(self)@;
            assert(self@.sessions =~= before.sessions.insert(p as int, copy@));
            before.lemma_issue_keeps_wf(account_id, copy@.device_label, issued_at, secret@);
        }
        Ok(copy)
    }

    /// Issues a session under a secret drawn for this call. Whatever was
    /// drawn, the token is new. Fails when the serials have run out or no
    /// secret could be drawn, and then changes nothing.
    pub fn create(&mut self, account_id: u64, device_label: String, issued_at: u64) -> (r: Result<
        Session,
        AuthError,
    >)
        requires
            old(self).wf(),
        ensures
            final(self).wf(),
            match r {
                Ok(session) => {
                    &&& old(self)@.next_serial < u64::MAX
                    &&& old(self)@.draws(session@, account_id, device_label@, issued_at)
                    &&& final(self)@ == old(self)@.with_session(session@)
                },
                Err(e) => e == AuthError::StorageError && final(self)@ == old(self)@,
            },
    {
        if self.next_serial == u64::MAX {
            return Err(AuthError::StorageError);
        }
        match random_bytes(SECRET_LEN) {
            Ok(secret) => self.create_with_secret(
                account_id,
                device_label,
                issued_at,
                secret.as_slice(),
            ),
            Err(e) => Err(e),
        }
    }

    /// The session that `token` stands for.
    pub fn find_by_token(&self, token: &str) -> (r: Option<&Session>)
        requires
            self.wf(),
        ensures
            match r {
                Some(session) => self@.by_token(token@) == Some(session@),
                None => self@.by_token(token@) is None,
            },
    {
        match self.position_of_token(token) {
            Some(i) => Some(&self.sessions[i]),
            None => None,
        }
    }

    /// The sessions of one account, the earliest first.
    pub fn list_by_account(&self, account_id: u64) -> (list: Vec<Session>)
        requires
            self.wf(),
        ensures
            views_of(list@) == self@.of_account(account_id),
            forall|i: int, j: int|
                0 <= i < j < list@.len() ==> list@[i]@.issued_at <= list@[j]@.issued_at,
    {
        let mut list: Vec<Session> = Vec::new();
        let mut i: usize = 0;
        while i < self.sessions.len()
            invariant
                i <= self.sessions.len(),
                views_of(list@) == self@.sessions.take(i as int).filter(owned_by(account_id)),
            decreases self.sessions.len() - i,
        {
            proof {
                lemma_filter_take_next(self@.sessions, owned_by(account_id), i as int);
            }
            if self.sessions[i].account_id == account_id {
                list.push(self.sessions[i].clone());
            }
            i += 1;
        }
        proof {
            assert(self@.sessions.take(i as int) =~= self@.sessions);
            lemma_filter_keeps_order(self@.sessions, owned_by(account_id), in_order());
            assert forall|a: int, b: int| 0 <= a < b < list@.len() implies list@[a]@.issued_at
                <= list@[b]@.issued_at by {
                assert(views_of(list@)[a] == list@[a]@);
                assert(views_of(list@)[b] == list@[b]@);
            }
        }
        list
    }

    /// Whether every live session belongs to an account of `accounts`.
    pub fn all_owned(&self, accounts: &AccountStore) -> (r: bool)
        requires
            accounts.wf(),
        ensures
            r == forall|i: int|
                0 <= i < self@.sessions.len() ==> accounts@.has_id(
                    (#[trigger] self@.sessions[i]).account_id,
                ),
    {
        let mut i: usize = 0;
        while i < self.sessions.len()
            invariant
                i <= self.sessions.len(),
                accounts.wf(),
                forall|k: int|
                    0 <= k < i ==> accounts@.has_id((#[trigger] self@.sessions[k]).account_id),
            decreases self.sessions.len() - i,
        {
            if accounts.find_by_id(self.sessions[i].account_id).is_none() {
                assert(!accounts@.has_id(self@.sessions[i as int].account_id));
                return false;
            }
            i += 1;
        }
        true
    }

    /// Revokes the session of `token`.
    pub fn delete(&mut self, token: &str) -> (r: Result<(), AuthError>)
        requires
            old(self).wf(),
        ensures
            final(self).wf(),
            match r {
                Ok(()) => old(self)@.has_token(token@) && final(self)@ == old(self)@.without_token(
                    token@,
                ),
                Err(e) => {
                    &&& e == AuthError::NotFound(Missing::Session)
                    &&& !old(self)@.has_token(token@)
                    &&& final(self)@ == old(self)@
                },
            },
    {
        match self.position_of_token(token) {
            None => Err(AuthError::NotFound(Missing::Session)),
            Some(i) => {
                self.sessions.remove(i);
                proof {
                    let before = old(self)@;
                    let after = self@;
                    assert(after.sessions =~= before.sessions.remove(i as int));
                    lemma_remove_is_filter(before.sessions, token_is_not(token@), i as int);
                }
                Ok(())
            },
        }
    }

    /// Revokes every session of one account and tells how many there were.
    pub fn delete_all_for_account(&mut self, account_id: u64) -> (count: usize)
        requires
            old(self).wf(),
        ensures
            final(self).wf(),
            final(self)@ == old(self)@.without_account(account_id),
            count == old(self)@.sessions.len() - final(self)@.sessions.len(),
            count == old(self)@.of_account(account_id).len(),
    {
        let ghost before = self@;
        let ghost keep = not_owned_by(account_id);
        let ghost gone = owned_by(account_id);
        let mut count: usize = 0;
        let mut i: usize = 0;
        proof {
            assert(before.sessions.len() == self.sessions.len());
        }
        while i < self.sessions.len()
            invariant
                i <= self.sessions.len(),
                i + count <= before.sessions.len(),
                before.sessions.len() <= usize::MAX,
                self.next_serial == before.next_serial,
                keep == not_owned_by(account_id),
                gone == owned_by(account_id),
                self@.sessions.take(i as int) == before.sessions.take(i + count).filter(keep),
                self@.sessions.skip(i as int) == before.sessions.skip(i + count),
                count == before.sessions.take(i + count).filter(gone).len(),
            decreases self.sessions.len() - i,
        {
            proof {
                assert(self@.sessions.skip(i as int).len() == before.sessions.skip(
                    i + count,
                ).len());
                lemma_filter_take_next(before.sessions, keep, i + count);
                lemma_filter_take_next(before.sessions, gone, i + count);
                assert(self@.sessions.skip(i as int)[0] == before.sessions.skip(i + count)[0]);
            }
            if self.sessions[i].account_id == account_id {
                self.sessions.remove(i);
                proof {
                    assert(before.sessions.skip(i + count).skip(1) =~= before.sessions.skip(
                        i + count + 1,
                    ));
                }
                count += 1;
            } else {
                proof {
                    assert(before.sessions.skip(i + count).skip(1) =~= before.sessions.skip(
                        i + count + 1,
                    ));
                }
                i += 1;
            }
        }
        proof {
            assert(self@.sessions.take(i as int) =~= self@.sessions);
            assert(before.sessions.take(i + count) =~= before.sessions);
            before.lemma_filter_keeps_wf(keep);
        }
        count
    }
}

} // verus!
