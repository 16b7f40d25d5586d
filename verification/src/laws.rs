//! What holds of the operations taken together.
//!
//! The operations' contracts describe each call by a function on the
//! service's view. The proofs here are about those functions, and so about
//! every run of calls.

use vstd::prelude::*;
use crate::account::{id_is_not, lemma_account_is_found, AccountView};
use crate::error::{AuthError, ConflictKind};
use crate::identity::{can_canonicalize, canonical_form};
use crate::password::PasswordHashView;
use crate::sequences::{lemma_filter_members, lemma_filter_none};
use crate::service::{lemma_deletion_keeps_wf, ServiceView};
use crate::session::{
    lemma_member_is_found,
    not_owned_by,
    owned_by,
    token_is_not,
    SessionsView,
    SessionView,
};
use crate::token::{has_serial, issued_before, lemma_fresh_token};

verus! {

/// What one registration asks for, with the password already hashed.
pub struct Registration {
    pub display_name: Seq<char>,
    pub email: Seq<char>,
    pub password_hash: PasswordHashView,
}

/// One registration: the service after it, and the refusal if it was refused.
pub open spec fn register_step(service: ServiceView, request: Registration) -> (
    ServiceView,
    Option<AuthError>,
) {
    match service.registration_refusal(request.display_name, request.email) {
        Some(e) => (service, Some(e)),
        None => (
            service.registered(request.display_name, request.email, request.password_hash),
            None,
        ),
    }
}

/// A run of registrations, one after the other: the service at the end, and
/// the outcome of each.
pub open spec fn register_all(service: ServiceView, requests: Seq<Registration>) -> (
    ServiceView,
    Seq<Option<AuthError>>,
)
    decreases requests.len(),
{
    if requests.len() == 0 {
        (service, Seq::empty())
    } else {
        let (mid, outcomes) = register_all(service, requests.drop_last());
        let (end, outcome) = register_step(mid, requests.last());
        (end, outcomes.push(outcome))
    }
}

/// An accepted registration keeps the service's invariant and takes the name
/// and the email.
pub proof fn lemma_registration_takes_name(service: ServiceView, request: Registration)
    requires
        service.wf(),
        service.registration_refusal(request.display_name, request.email) is None,
    ensures
        register_step(service, request).0.wf(),
        register_step(service, request).0.accounts.has_name(canonical_form(request.display_name)),
        register_step(service, request).0.accounts.has_email(request.email),
{
    let after = register_step(service, request).0;
    let n = service.accounts.accounts.len() as int;
    assert(after.accounts.accounts[n].display_name == canonical_form(request.display_name));
    assert forall|i: int| 0 <= i < after.sessions.sessions.len() implies after.accounts.has_id(
        (#[trigger] after.sessions.sessions[i]).account_id,
    ) by {
        let id = after.sessions.sessions[i].account_id;
        let k = service.accounts.index_of_id(id);
        assert(after.accounts.accounts[k].id == id);
    }
}

/// Of any number of registrations whose display names have one canonical
/// form, which is free, and whose emails are free, made one after the other
/// in any order, the first is accepted and every other one is refused as a
/// conflict: exactly one account comes of them.
pub proof fn lemma_one_registration_wins(service: ServiceView, requests: Seq<Registration>)
    requires
        service.wf(),
        service.accounts.next_id < u64::MAX,
        requests.len() >= 1,
        can_canonicalize(requests[0].display_name),
        !service.accounts.has_name(canonical_form(requests[0].display_name)),
        forall|i: int|
            0 <= i < requests.len() ==> {
                &&& canonical_form((#[trigger] requests[i]).display_name) == canonical_form(
                    requests[0].display_name,
                )
                &&& !service.accounts.has_email(requests[i].email)
            },
    ensures
        register_all(service, requests).0.wf(),
        register_all(service, requests).0.accounts.has_name(
            canonical_form(requests[0].display_name),
        ),
        register_all(service, requests).1.len() == requests.len(),
        register_all(service, requests).1[0] is None,
        forall|i: int|
            1 <= i < requests.len() ==> #[trigger] register_all(service, requests).1[i] == Some(
                AuthError::Conflict(ConflictKind::DuplicateLogin),
            ),
    decreases requests.len(),
{
    if requests.len() == 1 {
        lemma_registration_takes_name(service, requests.last());
    } else {
        lemma_one_registration_wins(service, requests.drop_last());
    }
}

/// One registration, accepted or not, keeps the service's invariant and
/// frees no name.
pub proof fn lemma_step_keeps_names(service: ServiceView, request: Registration, name: Seq<char>)
    requires
        service.wf(),
    ensures
        register_step(service, request).0.wf(),
        service.accounts.has_name(name) ==> register_step(service, request).0.accounts.has_name(
            name,
        ),
{
    if service.registration_refusal(request.display_name, request.email) is None {
        lemma_registration_takes_name(service, request);
        if service.accounts.has_name(name) {
            let k = service.accounts.index_of_name(name);
            assert(register_step(service, request).0.accounts.accounts[k].display_name == name);
        }
    }
}

/// A run of registrations keeps the service's invariant.
pub proof fn lemma_run_keeps_wf(service: ServiceView, requests: Seq<Registration>)
    requires
        service.wf(),
    ensures
        register_all(service, requests).0.wf(),
        register_all(service, requests).1.len() == requests.len(),
    decreases requests.len(),
{
    if requests.len() > 0 {
        lemma_run_keeps_wf(service, requests.drop_last());
        lemma_step_keeps_names(
            register_all(service, requests.drop_last()).0,
            requests.last(),
            Seq::empty(),
        );
    }
}

/// The `k`-th outcome of a run is the outcome of the `k`-th registration on
/// the service as the `k` registrations before it left it.
pub proof fn lemma_run_step(service: ServiceView, requests: Seq<Registration>, k: int)
    requires
        0 <= k < requests.len(),
    ensures
        register_all(service, requests).1.len() == requests.len(),
        register_all(service, requests).1[k] == register_step(
            register_all(service, requests.take(k)).0,
            requests[k],
        ).1,
        register_all(service, requests.take(k + 1)).0 == register_step(
            register_all(service, requests.take(k)).0,
            requests[k],
        ).0,
    decreases requests.len(),
{
    let front = requests.drop_last();
    lemma_run_length(service, front);
    if k == requests.len() - 1 {
        assert(requests.take(k) =~= front);
        assert(requests.take(k + 1) =~= requests);
    } else {
        lemma_run_step(service, front, k);
        assert(front.take(k) =~= requests.take(k));
        assert(front.take(k + 1) =~= requests.take(k + 1));
    }
}

/// A run has as many outcomes as registrations.
pub proof fn lemma_run_length(service: ServiceView, requests: Seq<Registration>)
    ensures
        register_all(service, requests).1.len() == requests.len(),
    decreases requests.len(),
{
    if requests.len() > 0 {
        lemma_run_length(service, requests.drop_last());
    }
}

/// A name that is taken after the first `k` registrations of a run is still
/// taken after the first `m`, for every later `m`.
pub proof fn lemma_run_keeps_names(
    service: ServiceView,
    requests: Seq<Registration>,
    k: int,
    m: int,
    name: Seq<char>,
)
    requires
        service.wf(),
        0 <= k <= m <= requests.len(),
        register_all(service, requests.take(k)).0.accounts.has_name(name),
    ensures
        register_all(service, requests.take(m)).0.accounts.has_name(name),
    decreases m - k,
{
    if k < m {
        lemma_run_keeps_names(service, requests, k, m - 1, name);
        lemma_run_keeps_wf(service, requests.take(m - 1));
        lemma_run_step(service, requests, m - 1);
        lemma_step_keeps_names(
            register_all(service, requests.take(m - 1)).0,
            requests[m - 1],
            name,
        );
    }
}

/// Whatever the service holds and whatever else is asked for in between, of
/// two registrations in one run whose display names have the same canonical
/// form at most one is accepted.
pub proof fn lemma_never_two_winners(
    service: ServiceView,
    requests: Seq<Registration>,
    i: int,
    j: int,
)
    requires
        service.wf(),
        0 <= i < j < requests.len(),
        canonical_form(requests[i].display_name) == canonical_form(requests[j].display_name),
    ensures
        !(register_all(service, requests).1[i] is None && register_all(service, requests).1[j]
            is None),
{
    let name = canonical_form(requests[i].display_name);
    lemma_run_step(service, requests, i);
    lemma_run_step(service, requests, j);
    if register_all(service, requests).1[i] is None {
        let before = register_all(service, requests.take(i)).0;
        lemma_run_keeps_wf(service, requests.take(i));
        lemma_registration_takes_name(before, requests[i]);
        lemma_run_keeps_names(service, requests, i + 1, j, name);
    }
}

/// A login that resolves to no account and a login with a wrong password are
/// refused alike.
pub proof fn lemma_login_failures_look_alike(
    service: ServiceView,
    unknown_login: Seq<char>,
    any_password: Seq<char>,
    known_login: Seq<char>,
    wrong_password: Seq<char>,
)
    requires
        service.account_for(unknown_login) is None,
        service.account_for(known_login) is Some,
        !service.account_for(known_login)->0.password_hash.matches(wrong_password),
    ensures
        service.login_refusal(unknown_login, any_password) == Some(AuthError::Unauthorized),
        service.login_refusal(known_login, wrong_password) == Some(AuthError::Unauthorized),
{
}

/// What the store has issued is found under its token.
pub proof fn lemma_issued_is_found(store: SessionsView, session: SessionView, secret: Seq<u8>)
    requires
        store.wf(),
        store.next_serial < u64::MAX,
        session == store.new_session(
            session.account_id,
            session.device_label,
            session.issued_at,
            secret,
        ),
    ensures
        store.with_session(session).wf(),
        store.with_session(session).by_token(session.token) == Some(session),
        forall|token: Seq<char>|
            token != session.token ==> #[trigger] store.with_session(session).by_token(token)
                == store.by_token(token),
{
    let after = store.with_session(session);
    let p = store.slot_for(session.issued_at);
    store.lemma_slot_exists(session.issued_at);
    store.lemma_issue_keeps_wf(
        session.account_id,
        session.device_label,
        session.issued_at,
        secret,
    );
    lemma_member_is_found(after, p);
    assert forall|token: Seq<char>| token != session.token implies #[trigger] after.by_token(token)
        == store.by_token(token) by {
        if store.has_token(token) {
            let i = store.index_of_token(token);
            lemma_member_is_found(after, if i < p { i } else { i + 1 });
        }
    }
}

/// Revoking one token leaves every other token as it was.
pub proof fn lemma_revocation_is_local(store: SessionsView, revoked: Seq<char>)
    requires
        store.wf(),
    ensures
        store.without_token(revoked).wf(),
        store.without_token(revoked).by_token(revoked) is None,
        forall|token: Seq<char>|
            token != revoked ==> #[trigger] store.without_token(revoked).by_token(token)
                == store.by_token(token),
{
    let after = store.without_token(revoked);
    let keep = token_is_not(revoked);
    store.lemma_filter_keeps_wf(keep);
    if after.has_token(revoked) {
        lemma_filter_members(store.sessions, keep, after.index_of_token(revoked));
    }
    assert forall|token: Seq<char>| token != revoked implies #[trigger] after.by_token(token)
        == store.by_token(token) by {
        if store.has_token(token) {
            let kept = store.sessions[store.index_of_token(token)];
            store.sessions.lemma_filter_contains(keep, store.index_of_token(token));
            assert(after.has_token(token)) by {
                let j = after.sessions.index_of(kept);
                assert(after.sessions[j].token == token);
            }
        } else if after.has_token(token) {
            lemma_filter_members(store.sessions, keep, after.index_of_token(token));
        }
    }
}

/// Two sessions issued for one account have different tokens, both are found,
/// and revoking either leaves the other in force.
pub proof fn lemma_sessions_are_independent(
    store: SessionsView,
    account_id: u64,
    first_label: Seq<char>,
    first_at: u64,
    first_secret: Seq<u8>,
    second_label: Seq<char>,
    second_at: u64,
    second_secret: Seq<u8>,
)
    requires
        store.wf(),
        store.next_serial + 1 < u64::MAX,
    ensures
        ({
            let first = store.new_session(account_id, first_label, first_at, first_secret);
            let one = store.with_session(first);
            let second = one.new_session(account_id, second_label, second_at, second_secret);
            let two = one.with_session(second);
            &&& first.token != second.token
            &&& two.by_token(first.token) == Some(first)
            &&& two.by_token(second.token) == Some(second)
            &&& two.without_token(first.token).by_token(first.token) is None
            &&& two.without_token(first.token).by_token(second.token) == Some(second)
            &&& two.without_token(second.token).by_token(second.token) is None
            &&& two.without_token(second.token).by_token(first.token) == Some(first)
        }),
{
    let first = store.new_session(account_id, first_label, first_at, first_secret);
    let one = store.with_session(first);
    let second = one.new_session(account_id, second_label, second_at, second_secret);
    let two = one.with_session(second);
    lemma_issued_is_found(store, first, first_secret);
    lemma_fresh_token(first.token, one.next_serial, second_secret);
    lemma_issued_is_found(one, second, second_secret);
    lemma_revocation_is_local(two, first.token);
    lemma_revocation_is_local(two, second.token);
}

/// A token resolves to an account exactly when a live session has it.
pub proof fn lemma_live_tokens_resolve(service: ServiceView, token: Seq<char>)
    requires
        service.wf(),
    ensures
        service.resolve(token) is Some <==> service.sessions.has_token(token),
{
    if service.sessions.has_token(token) {
        let session = service.sessions.sessions[service.sessions.index_of_token(token)];
        assert(service.accounts.has_id(session.account_id));
    }
}

/// The token of a login resolves to the account that logged in, and every
/// other token resolves as before.
pub proof fn lemma_login_then_resolve(
    service: ServiceView,
    account: AccountView,
    device_label: Seq<char>,
    issued_at: u64,
    secret: Seq<u8>,
)
    requires
        service.wf(),
        service.sessions.next_serial < u64::MAX,
        service.accounts.by_id(account.id) == Some(account),
    ensures
        ({
            let session = service.sessions.new_session(account.id, device_label, issued_at, secret);
            let after = service.logged_in(session);
            &&& after.resolve(session.token) == Some(account)
            &&& forall|token: Seq<char>|
                token != session.token ==> #[trigger] after.resolve(token) == service.resolve(token)
        }),
{
    let session = service.sessions.new_session(account.id, device_label, issued_at, secret);
    lemma_issued_is_found(service.sessions, session, secret);
}

/// A revoked token is never issued again: it is gone, and whatever the store
/// issues next differs from it.
pub proof fn lemma_revoked_token_stays_dead(
    store: SessionsView,
    revoked: Seq<char>,
    account_id: u64,
    device_label: Seq<char>,
    issued_at: u64,
    secret: Seq<u8>,
)
    requires
        store.wf(),
        store.has_token(revoked),
    ensures
        !store.without_token(revoked).has_token(revoked),
        issued_before(revoked, store.without_token(revoked).next_serial),
        store.without_token(revoked).new_session(account_id, device_label, issued_at, secret).token
            != revoked,
{
    lemma_revocation_is_local(store, revoked);
    assert(issued_before(store.sessions[store.index_of_token(revoked)].token, store.next_serial));
    lemma_fresh_token(revoked, store.next_serial, secret);
}

/// A token that was issued under an earlier serial stays different from all
/// that the store issues from now on, however far the serial has moved.
pub proof fn lemma_old_tokens_stay_old(token: Seq<char>, earlier: u64, later: u64)
    requires
        issued_before(token, earlier),
        earlier <= later,
    ensures
        issued_before(token, later),
{
    let serial = choose|s: u64| s < earlier && #[trigger] has_serial(token, s);
    assert(has_serial(token, serial) && serial < later);
}

/// After an account was deleted it is gone, no token of it resolves any
/// more, and every other token resolves as before.
pub proof fn lemma_deletion_cascades(service: ServiceView, id: u64)
    requires
        service.wf(),
    ensures
        service.deleted(id).wf(),
        !service.deleted(id).accounts.has_id(id),
        service.deleted(id).sessions.of_account(id) == Seq::<SessionView>::empty(),
        forall|token: Seq<char>|
            (#[trigger] service.sessions.by_token(token)) matches Some(session)
                && session.account_id == id ==> service.deleted(id).resolve(token) is None,
        forall|token: Seq<char>|
            (#[trigger] service.resolve(token)) matches Some(account) && account.id != id
                ==> service.deleted(id).resolve(token) == service.resolve(token),
{
    let after = service.deleted(id);
    let keep = not_owned_by(id);
    lemma_deletion_keeps_wf(service, id);
    if after.accounts.has_id(id) {
        let j = after.accounts.index_of_id(id);
        lemma_filter_members(service.accounts.accounts, id_is_not(id), j);
    }
    assert forall|i: int| 0 <= i < after.sessions.sessions.len() implies !owned_by(id)(
        #[trigger] after.sessions.sessions[i],
    ) by {
        lemma_filter_members(service.sessions.sessions, keep, i);
    }
    lemma_filter_none(after.sessions.sessions, owned_by(id));
    assert forall|token: Seq<char>|
        (#[trigger] service.sessions.by_token(token)) matches Some(session) && session.account_id
            == id implies after.resolve(token) is None by {
        if after.sessions.has_token(token) {
            // a session that was kept would be one of another account
            let j = after.sessions.index_of_token(token);
            lemma_filter_members(service.sessions.sessions, keep, j);
            let k = service.sessions.sessions.index_of(after.sessions.sessions[j]);
            lemma_member_is_found(service.sessions, k);
        }
    }
    assert forall|token: Seq<char>|
        (#[trigger] service.resolve(token)) matches Some(account) && account.id
            != id implies after.resolve(token) == service.resolve(token) by {
        let i = service.sessions.index_of_token(token);
        let session = service.sessions.sessions[i];
        let a = service.accounts.index_of_id(session.account_id);
        service.sessions.sessions.lemma_filter_contains(keep, i);
        lemma_member_is_found(after.sessions, after.sessions.sessions.index_of(session));
        service.accounts.accounts.lemma_filter_contains(id_is_not(id), a);
        lemma_account_is_found(
            after.accounts,
            after.accounts.accounts.index_of(service.accounts.accounts[a]),
        );
    }
}

} // verus!
