//! The persisted credential record and its expiry arithmetic.
//!
//! A record holds the provider's access/refresh token pair together with the
//! instant (`written_at`, whole seconds) at which the pair was persisted.
//! Both time-to-live values count from that same instant.  Expiry is
//! inclusive at the boundary: a token is expired the second it reaches its
//! expiry instant, not one second later.

use crate::text::{token_char_ok, token_ok};
use vstd::prelude::*;

verus! {

/// Mathematical model of a credential record.
pub struct StateModel {
    pub token: Seq<char>,
    pub token_expires: u32,
    pub refresh_token: Seq<char>,
    pub refresh_expires: u32,
    pub written_at: u64,
}

impl StateModel {
    /// Well-formedness: tokens fit the quoted encoding, and both expiry
    /// instants are representable as 64-bit second counts.
    pub open spec fn wf(self) -> bool {
        &&& token_ok(self.token)
        &&& token_ok(self.refresh_token)
        &&& self.written_at + self.token_expires <= u64::MAX
        &&& self.written_at + self.refresh_expires <= u64::MAX
    }

    pub open spec fn access_expires_at(self) -> int {
        self.written_at + self.token_expires
    }

    pub open spec fn refresh_expires_at(self) -> int {
        self.written_at + self.refresh_expires
    }

    pub open spec fn access_expired_at(self, now: int) -> bool {
        now >= self.access_expires_at()
    }

    pub open spec fn refresh_expired_at(self, now: int) -> bool {
        now >= self.refresh_expires_at()
    }
}

/// A persisted credential record: the access token, the refresh token, their
/// time-to-live values in seconds, and the second at which they were stored.
pub struct NordigenState {
    pub token: String,
    pub token_expires: u32,
    pub refresh_token: String,
    pub refresh_expires: u32,
    pub written_at: u64,
}

impl View for NordigenState {
    type V = StateModel;

    open spec fn view(&self) -> StateModel {
        StateModel {
            token: self.token@,
            token_expires: self.token_expires,
            refresh_token: self.refresh_token@,
            refresh_expires: self.refresh_expires,
            written_at: self.written_at,
        }
    }
}

/// The conditions under which a record can be replaced by a refreshed one at
/// instant `now`: the replacement token is storable, the clock has not run
/// backwards, the refresh token is still valid, and the new access expiry
/// fits in 64 bits.
pub open spec fn can_refresh(old_state: StateModel, new_token: Seq<char>, new_ttl: u32, now: u64) -> bool {
    &&& token_ok(new_token)
    &&& old_state.written_at <= now
    &&& !old_state.refresh_expired_at(now as int)
    &&& now + new_ttl <= u64::MAX
}

impl NordigenState {
    pub open spec fn wf(&self) -> bool {
        self@.wf()
    }

    /// Build the record persisted at instant `now` for a freshly issued
    /// token pair.  Both time-to-live clocks start at `now`.
    pub fn new(token: String, token_ttl: u32, refresh: String, refresh_ttl: u32, now: u64) -> (r: NordigenState)
        requires
            token_ok(token@),
            token_ok(refresh@),
            now + token_ttl <= u64::MAX,
            now + refresh_ttl <= u64::MAX,
        ensures
            r@ == (StateModel {
                token: token@,
                token_expires: token_ttl,
                refresh_token: refresh@,
                refresh_expires: refresh_ttl,
                written_at: now,
            }),
            r.wf(),
    {
        NordigenState {
            token,
            token_expires: token_ttl,
            refresh_token: refresh,
            refresh_expires: refresh_ttl,
            written_at: now,
        }
    }

    /// The second at which the access token expires.
    pub fn token_expires_on(&self) -> (r: u64)
        requires
            self.wf(),
        ensures
            r == self@.access_expires_at(),
    {
        self.written_at + self.token_expires as u64
    }

    /// The second at which the refresh token expires.
    pub fn refresh_expires_on(&self) -> (r: u64)
        requires
            self.wf(),
        ensures
            r == self@.refresh_expires_at(),
    {
        self.written_at + self.refresh_expires as u64
    }

    /// Whether the access token is expired at instant `now` (inclusive at
    /// the boundary).
    pub fn is_token_expired(&self, now: u64) -> (r: bool)
        requires
            self.wf(),
        ensures
            r == self@.access_expired_at(now as int),
    {
        now >= self.token_expires_on()
    }

    /// Whether the refresh token is expired at instant `now` (inclusive at
    /// the boundary).
    pub fn is_refresh_expired(&self, now: u64) -> (r: bool)
        requires
            self.wf(),
        ensures
            r == self@.refresh_expired_at(now as int),
    {
        now >= self.refresh_expires_on()
    }

    /// The record persisted after a successful token refresh at instant
    /// `now`: the new access token with its own time-to-live, the original
    /// refresh token, and an unchanged refresh expiry instant — the refresh
    /// clock keeps counting from the original issuance.  Returns `None`
    /// exactly when no well-formed record with those properties exists.
    pub fn refreshed(&self, new_token: String, new_ttl: u32, now: u64) -> (r: Option<NordigenState>)
        requires
            self.wf(),
        ensures
            r is Some <==> can_refresh(self@, new_token@, new_ttl, now),
            r is Some ==> {
                let s = r->Some_0@;
                &&& s.wf()
                &&& s.token == new_token@
                &&& s.token_expires == new_ttl
                &&& s.refresh_token == self@.refresh_token
                &&& s.written_at == now
                &&& s.access_expires_at() == now + new_ttl
                &&& s.refresh_expires_at() == self@.refresh_expires_at()
            },
    {
        if !is_token_str_ok(new_token.as_str()) {
            return None;
        }
        if now < self.written_at {
            return None;
        }
        let refresh_deadline = self.refresh_expires_on();
        if now >= refresh_deadline {
            return None;
        }
        if now.checked_add(new_ttl as u64).is_none() {
            return None;
        }
        let remaining = refresh_deadline - now;
        assert(remaining <= self.refresh_expires);
        Some(NordigenState {
            token: new_token,
            token_expires: new_ttl,
            refresh_token: self.refresh_token.clone(),
            refresh_expires: remaining as u32,
            written_at: now,
        })
    }
}

/// Whether every character of `s` may stand in a stored token field.
pub fn is_token_str_ok(s: &str) -> (r: bool)
    ensures
        r == token_ok(s@),
{
    let n = s.unicode_len();
    let mut i: usize = 0;
    while i < n
        invariant
            i <= n,
            n == s@.len(),
            forall|k: int| 0 <= k < i ==> token_char_ok(#[trigger] s@[k]),
        decreases n - i,
    {
        let c = s.get_char(i);
        let code = c as u32;
        if code < 32 || code > 126 || c == '"' || c == '\\' {
            assert(!token_char_ok(s@[i as int]));
            return false;
        }
        i += 1;
    }
    true
}

/// Expiry is inclusive at the boundary: at the last second of its
/// time-to-live the access token is still valid, and at the very next
/// second it is expired.
pub proof fn lemma_access_expiry_boundary(s: StateModel)
    requires
        s.wf(),
    ensures
        !s.access_expired_at(s.written_at + s.token_expires - 1),
        s.access_expired_at(s.written_at + s.token_expires),
{
}

} // verus!
