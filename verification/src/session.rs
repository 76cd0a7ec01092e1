//! Invite routing and session allocation.
use crate::bond::{is_candidate, mutual_in, weight_in, BondGraph};
use crate::protocol::{
    is_random_uuid, DogId, Invite, InviteId, InviteMode, SessionId, SessionRecord, SessionState, RING_TIMEOUT_MS,
    SESSION_MAX_MS, SESSION_SEGMENT_MS,
};
use vstd::prelude::*;

verus! {

/// Milliseconds since the Unix epoch from `std::time::SystemTime::now`, or
/// `None` where the clock reads before the epoch or the count does not fit
/// an `i64`. The value depends on the clock.
#[verifier::external_body]
fn now_millis() -> (r: Option<i64>)
    ensures
        r matches Some(t) ==> 0 <= t,
{
    match std::time::SystemTime::now().duration_since(std::time::UNIX_EPOCH) {
        Ok(d) => i64::try_from(d.as_millis()).ok(),
        Err(_) => None,
    }
}

/// Why an invite cannot be routed.
#[derive(Debug, Clone, Copy, PartialEq, Eq, Structural)]
pub enum InviteError {
    CallerNotPresent,
    NoEligiblePeer,
    PeerNotPresent,
    NotBonded,
    CallerBusy,
    PeerBusy,
}

impl InviteError {
    /// The message text of an error, as characters.
    pub open spec fn text(self) -> Seq<char> {
        match self {
            InviteError::CallerNotPresent => "caller not present"@,
            InviteError::NoEligiblePeer => "no eligible present peer"@,
            InviteError::PeerNotPresent => "peer not present"@,
            InviteError::NotBonded => "not mutually bonded"@,
            InviteError::CallerBusy => "caller already has open invite"@,
            InviteError::PeerBusy => "peer already ringing or in session"@,
        }
    }

    /// The message text of the error.
    pub fn message(&self) -> (r: &'static str)
        ensures
            r@ == self.text(),
    {
        match self {
            InviteError::CallerNotPresent => "caller not present",
            InviteError::NoEligiblePeer => "no eligible present peer",
            InviteError::PeerNotPresent => "peer not present",
            InviteError::NotBonded => "not mutually bonded",
            InviteError::CallerBusy => "caller already has open invite",
            InviteError::PeerBusy => "peer already ringing or in session",
        }
    }
}

/// Why an invite cannot be accepted.
#[derive(Debug, Clone, Copy, PartialEq, Eq, Structural)]
pub enum AcceptError {
    NotFound,
    NotCallee,
    NotRinging,
    NotPresent,
    Expired,
}

impl AcceptError {
    /// The message text of an error, as characters.
    pub open spec fn text(self) -> Seq<char> {
        match self {
            AcceptError::NotFound => "invite not found"@,
            AcceptError::NotCallee => "not the callee"@,
            AcceptError::NotRinging => "invite not ringing"@,
            AcceptError::NotPresent => "acceptor not present"@,
            AcceptError::Expired => "invite expired"@,
        }
    }

    /// The message text of the error.
    pub fn message(&self) -> (r: &'static str)
        ensures
            r@ == self.text(),
    {
        match self {
            AcceptError::NotFound => "invite not found",
            AcceptError::NotCallee => "not the callee",
            AcceptError::NotRinging => "invite not ringing",
            AcceptError::NotPresent => "acceptor not present",
            AcceptError::Expired => "invite expired",
        }
    }
}

/// Whether `t` is a peer `from` could ring: mutually bonded and present.
pub open spec fn routable(m: Map<(DogId, DogId), u16>, from: DogId, present: Set<DogId>, t: DogId) -> bool {
    mutual_in(m, from, t) && present.contains(t)
}

/// Whether `r` is a correct routing decision. Without a preferred peer the
/// strongest routable peer is rung (peers of equal weight may be chosen
/// either way); with one, that peer is checked.
pub open spec fn route_ok(
    m: Map<(DogId, DogId), u16>,
    from: DogId,
    preferred: Option<DogId>,
    present: Set<DogId>,
    caller_present: bool,
    r: Result<DogId, InviteError>,
) -> bool {
    if !caller_present {
        r == Err::<DogId, InviteError>(InviteError::CallerNotPresent)
    } else {
        match preferred {
            Some(to) => r == (if to == from {
                Err(InviteError::NoEligiblePeer)
            } else if !mutual_in(m, from, to) {
                Err(InviteError::NotBonded)
            } else if !present.contains(to) {
                Err(InviteError::PeerNotPresent)
            } else {
                Ok(to)
            }),
            None => match r {
                Ok(p) => routable(m, from, present, p) && forall|q: DogId|
                    routable(m, from, present, q) ==> weight_in(m, from, q) <= weight_in(m, from, p),
                Err(e) => e == InviteError::NoEligiblePeer && forall|q: DogId|
                    !routable(m, from, present, q),
            },
        }
    }
}

/// Whether `d` occurs in `s`.
fn dog_in(s: &[DogId], d: DogId) -> (r: bool)
    ensures
        r == s@.contains(d),
{
    let mut i: usize = 0;
    while i < s.len()
        invariant
            i <= s@.len(),
            forall|j: int| 0 <= j < i ==> s@[j] != d,
        decreases s@.len() - i,
    {
        if s[i] == d {
            return true;
        }
        i = i + 1;
    }
    false
}

/// Pick the peer an invite from `from` rings.
#[verifier::loop_isolation(false)]
pub fn route_invite(
    from: DogId,
    preferred: Option<DogId>,
    bonds: &BondGraph,
    present: &[DogId],
    caller_present: bool,
) -> (r: Result<DogId, InviteError>)
    ensures
        route_ok(bonds@, from, preferred, present@.to_set(), caller_present, r),
{
    if !caller_present {
        return Err(InviteError::CallerNotPresent);
    }
    if let Some(to) = preferred {
        if to == from {
            return Err(InviteError::NoEligiblePeer);
        }
        if !bonds.mutual_eligible(from, to) {
            return Err(InviteError::NotBonded);
        }
        if !dog_in(present, to) {
            return Err(InviteError::PeerNotPresent);
        }
        return Ok(to);
    }
    let cands = bonds.candidates(from);
    let mut i: usize = 0;
    while i < cands.len()
        invariant
            i <= cands@.len(),
            forall|j: int| 0 <= j < i ==> !present@.contains(#[trigger] cands@[j].0),
        decreases cands@.len() - i,
    {
        let peer = cands[i].0;
        if dog_in(present, peer) {
            proof {
                assert(is_candidate(bonds@, from, peer, cands@[i as int].1));
                assert forall|q: DogId| routable(bonds@, from, present@.to_set(), q) implies weight_in(
                    bonds@,
                    from,
                    q,
                ) <= weight_in(bonds@, from, peer) by {
                    let w = weight_in(bonds@, from, q);
                    assert(is_candidate(bonds@, from, q, w));
                    let k = choose|k: int| 0 <= k < cands@.len() && cands@[k] == (q, w);
                    if k < i {
                        assert(!present@.contains(cands@[k].0));
                    }
                }
            }
            return Ok(peer);
        }
        i = i + 1;
    }
    proof {
        assert forall|q: DogId| !routable(bonds@, from, present@.to_set(), q) by {
            if routable(bonds@, from, present@.to_set(), q) {
                let w = weight_in(bonds@, from, q);
                assert(is_candidate(bonds@, from, q, w));
                let k = choose|k: int| 0 <= k < cands@.len() && cands@[k] == (q, w);
                assert(!present@.contains(cands@[k].0));
            }
        }
    }
    Err(InviteError::NoEligiblePeer)
}

/// The invite `id` from `from` to `to`, created at `now_ms` and ringing for
/// `RING_TIMEOUT_MS`.
pub open spec fn spec_invite(id: InviteId, from: DogId, to: DogId, mode: InviteMode, now_ms: i64) -> Invite {
    Invite {
        id,
        from_dog: from,
        to_dog: to,
        mode,
        state: SessionState::Ringing,
        created_at: now_ms,
        expires_at: (now_ms + RING_TIMEOUT_MS) as i64,
    }
}

/// The ringing invite `id` created at `now_ms`.
pub fn invite_at(id: InviteId, from: DogId, to: DogId, mode: InviteMode, now_ms: i64) -> (r: Invite)
    requires
        now_ms + RING_TIMEOUT_MS <= i64::MAX,
    ensures
        r == spec_invite(id, from, to, mode, now_ms),
{
    Invite {
        id,
        from_dog: from,
        to_dog: to,
        mode,
        state: SessionState::Ringing,
        created_at: now_ms,
        expires_at: now_ms + RING_TIMEOUT_MS as i64,
    }
}

/// The invite made from a clock reading and a drawn id: the ringing invite
/// `id` created at the reading, when both are there and the ring deadline
/// fits an `i64`; otherwise none.
pub open spec fn spec_invite_from(
    now: Option<i64>,
    id: Option<InviteId>,
    from: DogId,
    to: DogId,
    mode: InviteMode,
) -> Option<Invite> {
    match (now, id) {
        (Some(t), Some(i)) => if t + RING_TIMEOUT_MS <= i64::MAX {
            Some(spec_invite(i, from, to, mode, t))
        } else {
            None
        },
        _ => None,
    }
}

/// Make the invite `spec_invite_from` describes.
pub fn invite_from(
    now: Option<i64>,
    id: Option<InviteId>,
    from: DogId,
    to: DogId,
    mode: InviteMode,
) -> (r: Option<Invite>)
    ensures
        r == spec_invite_from(now, id, from, to, mode),
{
    match (now, id) {
        (Some(t), Some(i)) => {
            if t > i64::MAX - RING_TIMEOUT_MS as i64 {
                None
            } else {
                Some(invite_at(i, from, to, mode, t))
            }
        },
        _ => None,
    }
}

/// A new ringing invite with a fresh random id, created now: the invite
/// `invite_from` makes of the clock's reading and a drawn id. `None` where
/// the clock reads before the epoch or too late for the ring deadline to
/// fit, or where no random id can be drawn.
pub fn new_invite(from: DogId, to: DogId, mode: InviteMode) -> (r: Option<Invite>)
    ensures
        r matches Some(inv) ==> {
            &&& inv == spec_invite(inv.id, from, to, mode, inv.created_at)
            &&& 0 <= inv.created_at
            &&& inv.expires_at == inv.created_at + RING_TIMEOUT_MS
            &&& is_random_uuid(inv.id.0)
        },
{
    let now = now_millis();
    let id = InviteId::new();
    invite_from(now, id, from, to, mode)
}

pub fn is_expired(invite: &Invite, now_ms: i64) -> (r: bool)
    ensures
        r == (now_ms >= invite.expires_at),
{
    now_ms >= invite.expires_at
}

/// The outcome of `acceptor` accepting `invite` at `now_ms`: the first
/// failing check in the order callee, ringing, not expired, present; else
/// the Active session `id` between caller (`dog_a`) and callee (`dog_b`).
pub open spec fn spec_accept(
    invite: Invite,
    acceptor: DogId,
    acceptor_present: bool,
    now_ms: i64,
    id: SessionId,
) -> Result<SessionRecord, AcceptError> {
    if invite.to_dog != acceptor {
        Err(AcceptError::NotCallee)
    } else if invite.state != SessionState::Ringing {
        Err(AcceptError::NotRinging)
    } else if now_ms >= invite.expires_at {
        Err(AcceptError::Expired)
    } else if !acceptor_present {
        Err(AcceptError::NotPresent)
    } else {
        Ok(
            SessionRecord {
                id,
                invite_id: invite.id,
                dog_a: invite.from_dog,
                dog_b: invite.to_dog,
                mode: invite.mode,
                state: SessionState::Active,
                started_at: now_ms,
                max_end_at: (now_ms + SESSION_MAX_MS) as i64,
                segment_deadline_at: (now_ms + SESSION_SEGMENT_MS) as i64,
            },
        )
    }
}

/// Accept with a given session id (see `spec_accept`).
pub fn accept_invite_as(
    invite: &Invite,
    acceptor: DogId,
    acceptor_present: bool,
    now_ms: i64,
    id: SessionId,
) -> (r: Result<SessionRecord, AcceptError>)
    requires
        now_ms + SESSION_MAX_MS <= i64::MAX,
    ensures
        r == spec_accept(*invite, acceptor, acceptor_present, now_ms, id),
        r is Ok <==> (invite.to_dog == acceptor && invite.state == SessionState::Ringing && now_ms
            < invite.expires_at && acceptor_present),
        r matches Ok(s) ==> {
            &&& s.id == id
            &&& s.invite_id == invite.id
            &&& s.mode == invite.mode
            &&& s.dog_a == invite.from_dog
            &&& s.dog_b == acceptor
            &&& s.state == SessionState::Active
            &&& s.started_at == now_ms
            &&& s.max_end_at == now_ms + SESSION_MAX_MS
        },
{
    if invite.to_dog != acceptor {
        return Err(AcceptError::NotCallee);
    }
    if invite.state != SessionState::Ringing {
        return Err(AcceptError::NotRinging);
    }
    if is_expired(invite, now_ms) {
        return Err(AcceptError::Expired);
    }
    if !acceptor_present {
        return Err(AcceptError::NotPresent);
    }
    Ok(
        SessionRecord {
            id,
            invite_id: invite.id,
            dog_a: invite.from_dog,
            dog_b: invite.to_dog,
            mode: invite.mode,
            state: SessionState::Active,
            started_at: now_ms,
            max_end_at: now_ms + SESSION_MAX_MS as i64,
            segment_deadline_at: now_ms + SESSION_SEGMENT_MS as i64,
        },
    )
}

/// Accept converts a ringing invite into an Active session with a fresh
/// random id (media stub ready immediately in v1). A refusal is the first
/// failing check (see `spec_accept`); `None` where the checks pass but no
/// random id can be drawn.
pub fn accept_invite(invite: &Invite, acceptor: DogId, acceptor_present: bool, now_ms: i64) -> (r:
    Option<Result<SessionRecord, AcceptError>>)
    requires
        now_ms + SESSION_MAX_MS <= i64::MAX,
    ensures
        spec_accept(*invite, acceptor, acceptor_present, now_ms, SessionId(0)) is Err ==> r == Some(
            spec_accept(*invite, acceptor, acceptor_present, now_ms, SessionId(0)),
        ),
        r is None ==> spec_accept(*invite, acceptor, acceptor_present, now_ms, SessionId(0)) is Ok,
        r matches Some(Err(e)) ==> spec_accept(*invite, acceptor, acceptor_present, now_ms, SessionId(0))
            == Err::<SessionRecord, AcceptError>(e),
        r matches Some(Ok(s)) ==> spec_accept(*invite, acceptor, acceptor_present, now_ms, s.id)
            == Ok::<SessionRecord, AcceptError>(s) && is_random_uuid(s.id.0),
        r matches Some(Ok(s)) ==> {
            &&& s.invite_id == invite.id
            &&& s.mode == invite.mode
            &&& s.dog_a == invite.from_dog
            &&& s.dog_b == acceptor
            &&& s.state == SessionState::Active
            &&& s.started_at == now_ms
        },
{
    match accept_invite_as(invite, acceptor, acceptor_present, now_ms, SessionId::nil()) {
        Err(e) => Some(Err(e)),
        Ok(s) => match SessionId::new() {
            Some(id) => Some(Ok(SessionRecord { id, ..s })),
            None => None,
        },
    }
}

/// Whether `dog` takes the offerer role in `session` (the caller does).
pub open spec fn is_offerer(session: SessionRecord, dog: DogId) -> bool {
    dog == session.dog_a
}

pub fn webrtc_role(session: &SessionRecord, dog: DogId) -> (r: &'static str)
    ensures
        r@ == (if is_offerer(*session, dog) {
            "offerer"@
        } else {
            "answerer"@
        }),
{
    if dog == session.dog_a {
        "offerer"
    } else {
        "answerer"
    }
}

/// A session that an accept creates carries the invite's id and mode, joins
/// the invite's caller, as the offerer, with its callee, starts Active at
/// the time of the accept, and keeps its segment deadline before its hard
/// end.
pub proof fn lemma_accepted_session(
    invite: Invite,
    acceptor: DogId,
    present: bool,
    now_ms: i64,
    id: SessionId,
)
    requires
        now_ms + SESSION_MAX_MS <= i64::MAX,
        spec_accept(invite, acceptor, present, now_ms, id) is Ok,
    ensures
        ({
            let s = spec_accept(invite, acceptor, present, now_ms, id)->Ok_0;
            &&& s.id == id
            &&& s.invite_id == invite.id
            &&& s.mode == invite.mode
            &&& s.started_at == now_ms
            &&& s.dog_a == invite.from_dog
            &&& s.dog_b == invite.to_dog
            &&& invite.to_dog == acceptor
            &&& is_offerer(s, invite.from_dog)
            &&& s.state == SessionState::Active
            &&& present
            &&& invite.state == SessionState::Ringing
            &&& now_ms < invite.expires_at
            &&& s.started_at < s.segment_deadline_at < s.max_end_at
        }),
{
}

} // verus!
