//! The decisions of the authorization flows.
//!
//! The surrounding binary performs the outside work — loading and writing
//! the record file, calling the provider, hosting the callback listener —
//! and feeds each outcome into these functions, which decide every step:
//! whether a token must be issued or refreshed, and whether a callback
//! completes a bank consent.  Nothing here performs I/O, so every decision
//! is verified for all possible outcomes of the outside work.

use crate::bank::{BankAuthState, BankModel};
use crate::http_cb::{str_eq, ProtocolError};
use crate::state::{NordigenState, StateModel};
use crate::text::token_ok;
use vstd::prelude::*;

verus! {

/// Why a persisted credential record could not be loaded.  The two cases
/// call for different reactions: an absent record means "go authorize",
/// an unreadable one must never be silently overwritten.
#[derive(Clone, Copy, Debug, PartialEq, Eq, Structural)]
pub enum StateError {
    /// No record exists at the given location.
    NotFound,
    /// A record exists but does not decode into a credential record.
    Corrupt,
}

/// What loading the credential record found, as the decision functions
/// see it.
pub open spec fn loaded_view(loaded: Result<NordigenState, StateError>) -> Result<
    StateModel,
    StateError,
> {
    match loaded {
        Ok(s) => Ok(s@),
        Err(e) => Err(e),
    }
}

/// What ensuring an application token calls for.
#[derive(Clone, Copy, Debug, PartialEq, Eq, Structural)]
pub enum EnsureAction {
    /// A record exists and neither token has expired: use it unchanged,
    /// with no network call.
    Authorized,
    /// The access token has expired but the refresh token is valid: the
    /// caller may run the explicit refresh operation.  Ensuring a token
    /// never refreshes by itself.
    RefreshRequired,
    /// No record exists, or the refresh token too has expired: issue a
    /// fresh pair and persist it.
    AuthorizationRequired,
    /// A record exists but cannot be read.  It is never overwritten
    /// implicitly; the caller must abort.
    InvalidState,
}

pub open spec fn ensure_action_spec(loaded: Result<StateModel, StateError>, now: int) -> EnsureAction {
    match loaded {
        Err(StateError::NotFound) => EnsureAction::AuthorizationRequired,
        Err(StateError::Corrupt) => EnsureAction::InvalidState,
        Ok(s) => if s.refresh_expired_at(now) {
            EnsureAction::AuthorizationRequired
        } else if s.access_expired_at(now) {
            EnsureAction::RefreshRequired
        } else {
            EnsureAction::Authorized
        },
    }
}

/// Decide the "ensure application token" operation at instant `now` from
/// what loading the record found.
pub fn ensure_token_action(loaded: &Result<NordigenState, StateError>, now: u64) -> (r:
    EnsureAction)
    requires
        loaded is Ok ==> loaded->Ok_0.wf(),
    ensures
        r == ensure_action_spec(loaded_view(*loaded), now as int),
{
    match loaded {
        Err(StateError::NotFound) => EnsureAction::AuthorizationRequired,
        Err(StateError::Corrupt) => EnsureAction::InvalidState,
        Ok(s) => {
            if s.is_refresh_expired(now) {
                EnsureAction::AuthorizationRequired
            } else if s.is_token_expired(now) {
                EnsureAction::RefreshRequired
            } else {
                EnsureAction::Authorized
            }
        }
    }
}

/// What refreshing the application token calls for.
#[derive(Clone, Copy, Debug, PartialEq, Eq, Structural)]
pub enum RefreshAction {
    /// The access token is still valid: deliberately do nothing, leaving
    /// the record untouched.
    StillValid,
    /// Send the refresh token to the provider and persist its reply.
    Refresh,
    /// The refresh token has expired: fail; the caller must authorize
    /// anew.  The record is left untouched.
    Expired,
    /// No readable record to refresh: fail without touching anything.
    NoState,
}

pub open spec fn refresh_action_spec(loaded: Result<StateModel, StateError>, now: int) -> RefreshAction {
    match loaded {
        Err(_) => RefreshAction::NoState,
        Ok(s) => if !s.access_expired_at(now) {
            RefreshAction::StillValid
        } else if s.refresh_expired_at(now) {
            RefreshAction::Expired
        } else {
            RefreshAction::Refresh
        },
    }
}

/// Decide the "refresh application token" operation at instant `now` from
/// what loading the record found.
pub fn refresh_token_action(loaded: &Result<NordigenState, StateError>, now: u64) -> (r:
    RefreshAction)
    requires
        loaded is Ok ==> loaded->Ok_0.wf(),
    ensures
        r == refresh_action_spec(loaded_view(*loaded), now as int),
{
    match loaded {
        Err(_) => RefreshAction::NoState,
        Ok(s) => {
            if !s.is_token_expired(now) {
                RefreshAction::StillValid
            } else if s.is_refresh_expired(now) {
                RefreshAction::Expired
            } else {
                RefreshAction::Refresh
            }
        }
    }
}

/// Refreshing while the access token is still valid is a deliberate no-op:
/// the operation decides to write nothing, so the persisted record stays
/// exactly as it was.
pub proof fn lemma_refresh_valid_is_noop(s: StateModel, now: int)
    requires
        !s.access_expired_at(now),
    ensures
        refresh_action_spec(Ok(s), now) == RefreshAction::StillValid,
{
}

/// Refreshing once the refresh token has expired (the access token being
/// expired as well, else the no-op case above takes precedence) fails, and
/// the operation decides to write nothing: the persisted record is not
/// mutated.
pub proof fn lemma_refresh_expired_fails(s: StateModel, now: int)
    requires
        s.access_expired_at(now),
        s.refresh_expired_at(now),
    ensures
        refresh_action_spec(Ok(s), now) == RefreshAction::Expired,
{
}

/// A bank consent in progress: what was issued at consent start, kept in
/// memory between starting the authorization and receiving the callback.
pub struct PendingHandshake {
    pub bank_id: String,
    pub requisition_id: String,
    pub consent_link: String,
    pub expected_ref: String,
}

/// Why a bank consent handshake failed.  Either way, no consent record
/// comes out of the attempt.
#[derive(Clone, Copy, Debug, PartialEq, Eq, Structural)]
pub enum HandshakeError {
    /// The callback listener produced no reference.
    ListenerFailed(ProtocolError),
    /// The reference the callback returned differs from the one issued at
    /// consent start.
    RefMismatch,
}

/// What completing a handshake yields: a consent record exactly when the
/// listener returned the issued reference.
pub open spec fn complete_spec(
    bank_id: Seq<char>,
    requisition_id: Seq<char>,
    expected_ref: Seq<char>,
    callback: Result<Seq<char>, ProtocolError>,
) -> Result<BankModel, HandshakeError> {
    match callback {
        Err(e) => Err(HandshakeError::ListenerFailed(e)),
        Ok(cb) => if cb == expected_ref {
            Ok(BankModel { bank_id, requisition_id, requisition_ref: cb })
        } else {
            Err(HandshakeError::RefMismatch)
        },
    }
}

/// The callback listener's outcome, as the decision sees it.
pub open spec fn callback_view(callback: Result<String, ProtocolError>) -> Result<
    Seq<char>,
    ProtocolError,
> {
    match callback {
        Ok(s) => Ok(s@),
        Err(e) => Err(e),
    }
}

/// Complete a bank consent: compare the reference the listener returned
/// with the one issued at consent start, and build the record to persist
/// on a match.  On any failure no record is produced, so nothing can be
/// persisted.
pub fn complete_bank_authorization(
    pending: &PendingHandshake,
    callback: Result<String, ProtocolError>,
) -> (r: Result<BankAuthState, HandshakeError>)
    requires
        token_ok(pending.bank_id@),
        token_ok(pending.requisition_id@),
        token_ok(pending.expected_ref@),
    ensures
        r is Ok ==> complete_spec(
            pending.bank_id@,
            pending.requisition_id@,
            pending.expected_ref@,
            callback_view(callback),
        ) == Ok::<_, HandshakeError>(r->Ok_0@),
        r is Err ==> complete_spec(
            pending.bank_id@,
            pending.requisition_id@,
            pending.expected_ref@,
            callback_view(callback),
        ) == Err::<BankModel, _>(r->Err_0),
        r is Ok ==> r->Ok_0.wf(),
{
    match callback {
        Err(e) => Err(HandshakeError::ListenerFailed(e)),
        Ok(cb) => {
            if str_eq(cb.as_str(), pending.expected_ref.as_str()) {
                Ok(
                    BankAuthState::new(
                        pending.bank_id.clone(),
                        pending.requisition_id.clone(),
                        cb,
                    ),
                )
            } else {
                Err(HandshakeError::RefMismatch)
            }
        }
    }
}

/// A callback whose reference differs from the issued one never completes
/// the handshake: the attempt fails and no consent record exists to be
/// persisted.
pub proof fn lemma_mismatch_no_consent(
    bank_id: Seq<char>,
    requisition_id: Seq<char>,
    expected_ref: Seq<char>,
    cb: Seq<char>,
)
    requires
        cb != expected_ref,
    ensures
        complete_spec(bank_id, requisition_id, expected_ref, Ok(cb)) == Err::<BankModel, _>(
            HandshakeError::RefMismatch,
        ),
{
}

/// A failed listener never completes the handshake either.
pub proof fn lemma_listener_failure_no_consent(
    bank_id: Seq<char>,
    requisition_id: Seq<char>,
    expected_ref: Seq<char>,
    e: ProtocolError,
)
    ensures
        complete_spec(bank_id, requisition_id, expected_ref, Err(e)) == Err::<BankModel, _>(
            HandshakeError::ListenerFailed(e),
        ),
{
}

/// The position of the first account whose IBAN is the wanted one.
pub fn find_index_by_iban(ibans: &Vec<String>, wanted: &str) -> (r: Option<usize>)
    ensures
        r is Some ==> {
            let i = r->Some_0;
            &&& i < ibans@.len()
            &&& ibans@[i as int]@ == wanted@
            &&& forall|k: int| 0 <= k < i ==> ibans@[k]@ != wanted@
        },
        r is None ==> forall|k: int| 0 <= k < ibans@.len() ==> ibans@[k]@ != wanted@,
{
    let n = ibans.len();
    let mut i: usize = 0;
    while i < n
        invariant
            i <= n,
            n == ibans@.len(),
            forall|k: int| 0 <= k < i ==> ibans@[k]@ != wanted@,
        decreases n - i,
    {
        if str_eq(ibans[i].as_str(), wanted) {
            return Some(i);
        }
        i += 1;
    }
    None
}

} // verus!
