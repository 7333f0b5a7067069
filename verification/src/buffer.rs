//! Memory accounting: the buffer manager that grants and reclaims
//! reservation bytes against a configured limit, the pressure levels
//! it reports, and the lifecycle a single grant goes through.

use vstd::prelude::*;

verus! {

/// How tight memory currently is.
#[derive(Debug, Clone, Copy, PartialEq, Eq, Structural)]
pub enum PressureLevel {
    /// Comfortably below the limit.
    Normal,
    /// Three quarters of the limit or more is reserved.
    Soft,
    /// Seven eighths of the limit or more is reserved.
    Hard,
    /// The whole limit is reserved.
    Critical,
}

/// A granted memory reservation.
#[derive(Debug, Clone, Copy, PartialEq, Eq, Structural)]
pub struct MemoryGrant {
    /// How many bytes the grant reserves.
    pub bytes: u64,
}

/// The pressure level a reservation total means under a limit.
pub open spec fn pressure_of(reserved: u64, limit: u64) -> PressureLevel {
    if reserved >= limit {
        PressureLevel::Critical
    } else if reserved >= limit - limit / 8 {
        PressureLevel::Hard
    } else if reserved >= limit - limit / 4 {
        PressureLevel::Soft
    } else {
        PressureLevel::Normal
    }
}

/// Snapshot of the accountant's counters.
#[derive(Debug, Clone, Copy, PartialEq, Eq, Structural)]
pub struct BufferStats {
    /// The configured limit, in bytes.
    pub limit: u64,
    /// How many bytes are reserved.
    pub reserved: u64,
    /// How many bytes are still available.
    pub available: u64,
}

/// The memory accountant: it tracks one limit and the bytes
/// reserved against it, never granting past the limit.
pub struct BufferManager {
    /// The configured limit, in bytes.
    limit: u64,
    /// The sum of all outstanding grants.
    reserved: u64,
}

impl BufferManager {
    /// The configured limit.
    pub closed spec fn spec_limit(self) -> u64 {
        self.limit
    }

    /// The outstanding reservation total.
    pub closed spec fn spec_reserved(self) -> u64 {
        self.reserved
    }

    /// The accountant never owes more than its limit.
    pub open spec fn wf(self) -> bool {
        self.spec_reserved() <= self.spec_limit()
    }

    /// A fresh accountant for the given limit, with nothing
    /// reserved.
    pub fn new(limit: u64) -> (r: BufferManager)
        ensures
            r.wf(),
            r.spec_limit() == limit,
            r.spec_reserved() == 0,
    {
        BufferManager { limit, reserved: 0 }
    }

    /// Requests a reservation. Granted exactly when the bytes still
    /// fit under the limit; a denied request changes nothing, and
    /// the caller is expected to spill and retry smaller.
    pub fn reserve(&mut self, bytes: u64) -> (r: Option<MemoryGrant>)
        requires
            old(self).wf(),
        ensures
            final(self).wf(),
            final(self).spec_limit() == old(self).spec_limit(),
            r is Some <==> old(self).spec_reserved() + bytes <= old(self).spec_limit(),
            r is Some ==> (r->0.bytes == bytes && final(self).spec_reserved() == old(
                self,
            ).spec_reserved() + bytes),
            r is None ==> final(self).spec_reserved() == old(self).spec_reserved(),
    {
        if bytes <= self.limit - self.reserved {
            self.reserved = self.reserved + bytes;
            Some(MemoryGrant { bytes })
        } else {
            None
        }
    }

    /// Returns a grant's bytes to the pool. The caller hands back
    /// only grants this accountant issued, so the outstanding total
    /// covers them.
    pub fn release(&mut self, grant: MemoryGrant)
        requires
            old(self).wf(),
            grant.bytes <= old(self).spec_reserved(),
        ensures
            final(self).wf(),
            final(self).spec_limit() == old(self).spec_limit(),
            final(self).spec_reserved() == old(self).spec_reserved() - grant.bytes,
    {
        self.reserved = self.reserved - grant.bytes;
    }

    /// The current pressure level, per [`pressure_of`].
    pub fn pressure(&self) -> (r: PressureLevel)
        ensures
            r == pressure_of(self.spec_reserved(), self.spec_limit()),
    {
        if self.reserved >= self.limit {
            PressureLevel::Critical
        } else if self.reserved >= self.limit - self.limit / 8 {
            PressureLevel::Hard
        } else if self.reserved >= self.limit - self.limit / 4 {
            PressureLevel::Soft
        } else {
            PressureLevel::Normal
        }
    }

    /// A snapshot of the counters; available and reserved always
    /// sum to the limit.
    pub fn stats(&self) -> (r: BufferStats)
        requires
            self.wf(),
        ensures
            r.limit == self.spec_limit(),
            r.reserved == self.spec_reserved(),
            r.available == self.spec_limit() - self.spec_reserved(),
    {
        BufferStats {
            limit: self.limit,
            reserved: self.reserved,
            available: self.limit - self.reserved,
        }
    }
}

/// The states one memory grant can be in.
#[derive(Debug, Clone, Copy, PartialEq, Eq, Structural)]
pub enum GrantState {
    /// Asked for, not yet decided.
    Requested,
    /// Approved; the memory may be used.
    Granted,
    /// Refused; the consumer must spill before retrying.
    Denied,
    /// The manager asked for the memory back.
    Revoking,
    /// The consumer moved its state to disk after a denial.
    Spilled,
    /// The reservation is gone.
    Released,
}

/// The events that move a grant between states.
#[derive(Debug, Clone, Copy, PartialEq, Eq, Structural)]
pub enum GrantEvent {
    /// The manager approves the request.
    Approve,
    /// The manager refuses the request.
    Deny,
    /// The manager reclaims an approved grant.
    Revoke,
    /// The consumer spills after a refusal.
    Spill,
    /// The consumer gives the reservation up.
    Release,
}

/// The grant lifecycle: requested grants are approved or denied; an
/// approved grant may be revoked and is eventually released; a
/// denied grant is spilled and then released. Anything else is
/// refused.
pub open spec fn grant_transition(s: GrantState, e: GrantEvent) -> Option<GrantState> {
    match (s, e) {
        (GrantState::Requested, GrantEvent::Approve) => Some(GrantState::Granted),
        (GrantState::Requested, GrantEvent::Deny) => Some(GrantState::Denied),
        (GrantState::Granted, GrantEvent::Revoke) => Some(GrantState::Revoking),
        (GrantState::Granted, GrantEvent::Release) => Some(GrantState::Released),
        (GrantState::Revoking, GrantEvent::Release) => Some(GrantState::Released),
        (GrantState::Denied, GrantEvent::Spill) => Some(GrantState::Spilled),
        (GrantState::Spilled, GrantEvent::Release) => Some(GrantState::Released),
        _ => None,
    }
}

/// Applies one lifecycle event; `None` exactly when the lifecycle
/// refuses the event in this state.
pub fn advance_grant(state: GrantState, event: GrantEvent) -> (r: Option<GrantState>)
    ensures
        r == grant_transition(state, event),
{
    match (state, event) {
        (GrantState::Requested, GrantEvent::Approve) => Some(GrantState::Granted),
        (GrantState::Requested, GrantEvent::Deny) => Some(GrantState::Denied),
        (GrantState::Granted, GrantEvent::Revoke) => Some(GrantState::Revoking),
        (GrantState::Granted, GrantEvent::Release) => Some(GrantState::Released),
        (GrantState::Revoking, GrantEvent::Release) => Some(GrantState::Released),
        (GrantState::Denied, GrantEvent::Spill) => Some(GrantState::Spilled),
        (GrantState::Spilled, GrantEvent::Release) => Some(GrantState::Released),
        _ => None,
    }
}

/// A released grant is final: no event moves it anywhere.
pub proof fn lemma_released_is_final(e: GrantEvent)
    ensures
        grant_transition(GrantState::Released, e) is None,
{
}

} // verus!
