//! The provider's answer to an application authorization.

use crate::state::{is_token_str_ok, NordigenState, StateModel};
use crate::text::token_ok;
use vstd::prelude::*;

verus! {

/// The token pair the provider issues on a successful authorization, with
/// each token's time-to-live in seconds.
pub struct AuthorizeReply {
    pub access: String,
    pub access_expires: u32,
    pub refresh: String,
    pub refresh_expires: u32,
}

/// The conditions under which an issued pair can be persisted at instant
/// `now`: both tokens are storable and both expiry instants fit in 64-bit
/// second counts.
pub open spec fn can_store_reply(reply: AuthorizeReply, now: u64) -> bool {
    &&& token_ok(reply.access@)
    &&& token_ok(reply.refresh@)
    &&& now + reply.access_expires <= u64::MAX
    &&& now + reply.refresh_expires <= u64::MAX
}

/// The record persisted at instant `now` for a freshly issued pair.
/// Returns `None` exactly when the reply cannot be stored.
pub fn state_from_authorization(reply: AuthorizeReply, now: u64) -> (r: Option<NordigenState>)
    ensures
        r is Some <==> can_store_reply(reply, now),
        r is Some ==> r->Some_0@ == (StateModel {
            token: reply.access@,
            token_expires: reply.access_expires,
            refresh_token: reply.refresh@,
            refresh_expires: reply.refresh_expires,
            written_at: now,
        }),
        r is Some ==> r->Some_0.wf(),
{
    if !is_token_str_ok(reply.access.as_str()) {
        return None;
    }
    if !is_token_str_ok(reply.refresh.as_str()) {
        return None;
    }
    if now.checked_add(reply.access_expires as u64).is_none() {
        return None;
    }
    if now.checked_add(reply.refresh_expires as u64).is_none() {
        return None;
    }
    Some(
        NordigenState::new(
            reply.access,
            reply.access_expires,
            reply.refresh,
            reply.refresh_expires,
            now,
        ),
    )
}

} // verus!
