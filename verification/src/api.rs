//! Device API request handling: who may call each route, and what each
//! route does to the in-memory stores. The HTTP server hands each handler
//! the `Authorization` header text, the decoded body fields and the time.
use crate::auth::{read_device_header, spec_token, spec_verify_header, DeviceIdentity, SharedSecretAuthority};
use crate::bond::BondGraph;
use crate::protocol::{
    is_random_uuid, uuid_parse, IncomingInviteOffer, LureConfig, DogId, Invite, InviteId, InviteMode, PresenceReport, RING_TIMEOUT_MS, SESSION_MAX_MS, SessionId, SessionRecord, SessionState,
    TerminalId,
};
use crate::store::{due_ids, dogs_of, entry_of, view_of, InviteStore, PresenceEntry};
use crate::session::{
    accept_invite, invite_at, is_offerer, route_invite, route_ok, spec_accept, spec_invite,
    webrtc_role, InviteError,
};
use crate::store::{AppData, PresenceStore, SessionExtra};
use vstd::prelude::*;

verus! {

pub const BAD_REQUEST: u16 = 400;

pub const UNAUTHORIZED: u16 = 401;

pub const FORBIDDEN: u16 = 403;

pub const NOT_FOUND: u16 = 404;

pub const CONFLICT: u16 = 409;

pub const PRECONDITION_FAILED: u16 = 412;

pub const INTERNAL_SERVER_ERROR: u16 = 500;

/// The reply when no random id can be drawn.
pub open spec fn no_random() -> (u16, Seq<char>) {
    (INTERNAL_SERVER_ERROR, "random source unavailable"@)
}

fn no_random_error() -> (e: ApiError)
    ensures
        reply(e) == no_random(),
{
    ApiError { status: INTERNAL_SERVER_ERROR, error: "random source unavailable" }
}

/// An error reply: HTTP status and message.
#[derive(Debug, Clone, Copy, PartialEq, Eq)]
pub struct ApiError {
    pub status: u16,
    pub error: &'static str,
}

/// An error reply as its status and message characters.
pub open spec fn reply(e: ApiError) -> (u16, Seq<char>) {
    (e.status, e.error@)
}

/// The characters of an optional text.
pub open spec fn text_of(h: Option<&str>) -> Option<Seq<char>> {
    match h {
        Some(s) => Some(s@),
        None => None,
    }
}

/// The terminal id and token that an `Authorization` header carries, if it
/// is present and well formed.
pub open spec fn spec_extract(header: Option<Seq<char>>) -> Option<(TerminalId, Seq<char>)> {
    match header {
        None => None,
        Some(h) => match spec_verify_header(h) {
            Ok((t, _, tok)) => Some((t, tok)),
            Err(_) => None,
        },
    }
}

/// The refusal of a request that names terminal `claimed` and dog `dog`,
/// if any: 401 without a readable header, 403 when the header's terminal is
/// another, 401 when the token is not the one of that terminal and dog.
pub open spec fn spec_authorize(
    secret: Seq<char>,
    header: Option<Seq<char>>,
    claimed: TerminalId,
    dog: DogId,
    mismatch: Seq<char>,
    invalid: Seq<char>,
) -> Option<(u16, Seq<char>)> {
    match spec_extract(header) {
        None => Some((UNAUTHORIZED, "unauthorized"@)),
        Some((t, tok)) => if t != claimed {
            Some((FORBIDDEN, mismatch))
        } else if tok != spec_token(secret, claimed, dog) {
            Some((UNAUTHORIZED, invalid))
        } else {
            None
        },
    }
}

/// The stored invites still ringing at `now`.
pub open spec fn live_invites(s: InviteStore, now_ms: i64) -> Map<u128, Invite> {
    s.invites().remove_keys(due_ids(s.invites(), now_ms))
}

/// The open entries left once the invites due at `now` are closed.
pub open spec fn live_open(s: InviteStore, now_ms: i64) -> Map<u128, u128> {
    s.open().remove_keys(dogs_of(s.invites(), due_ids(s.invites(), now_ms)))
}

/// Whether `after` is `before` with every invite due at `now` closed.
pub open spec fn expired_from(before: InviteStore, after: InviteStore, now_ms: i64) -> bool {
    &&& after.invites() == live_invites(before, now_ms)
    &&& after.open() == live_open(before, now_ms)
    &&& after.times() == before.times()
}

/// The open invite of `dog` in the given maps, if any.
pub open spec fn open_invite(invites: Map<u128, Invite>, open: Map<u128, u128>, dog: DogId) -> Option<
    Invite,
> {
    if open.contains_key(dog.0) && invites.contains_key(open[dog.0]) {
        Some(invites[open[dog.0]])
    } else {
        None
    }
}

/// The presence entries after a report: a report older (by sequence number)
/// than the stored one is ignored.
pub open spec fn upserted(entries: Map<u128, PresenceEntry>, report: PresenceReport) -> Map<
    u128,
    PresenceEntry,
> {
    if entries.contains_key(report.dog_id.0) && report.seq < entries[report.dog_id.0].seq {
        entries
    } else {
        entries.insert(report.dog_id.0, entry_of(report))
    }
}

/// Read the `Authorization` header of a request: 401 "unauthorized" when it
/// is missing or is not `Device <terminal_id>:<token>`.
pub fn extract_device_token(header: Option<&str>) -> (r: Result<(TerminalId, String), ApiError>)
    ensures
        match spec_extract(text_of(header)) {
            None => r matches Err(e) && reply(e) == (UNAUTHORIZED, "unauthorized"@),
            Some((t, tok)) => r matches Ok((t2, tok2)) && t2 == t && tok2@ == tok,
        },
{
    let h = match header {
        Some(h) => h,
        None => {
            return Err(ApiError { status: UNAUTHORIZED, error: "unauthorized" });
        },
    };
    match read_device_header(h) {
        Ok(parts) => Ok(parts),
        Err(_) => Err(ApiError { status: UNAUTHORIZED, error: "unauthorized" }),
    }
}

/// Check that the header names terminal `claimed` and carries the token of
/// that terminal and `dog` (see `spec_authorize`).
fn authorize(
    auth: &SharedSecretAuthority,
    header: Option<&str>,
    claimed: TerminalId,
    dog: DogId,
    mismatch: &'static str,
    invalid: &'static str,
) -> (r: Result<(), ApiError>)
    ensures
        match spec_authorize(auth.secret(), text_of(header), claimed, dog, mismatch@, invalid@) {
            None => r is Ok,
            Some(x) => r matches Err(e) && reply(e) == x,
        },
{
    let (terminal_id, token) = extract_device_token(header)?;
    if terminal_id != claimed {
        return Err(ApiError { status: FORBIDDEN, error: mismatch });
    }
    match auth.verify_pair(claimed, dog, token.as_str()) {
        Ok(()) => Ok(()),
        Err(_) => Err(ApiError { status: UNAUTHORIZED, error: invalid }),
    }
}

/// `POST /v1/presence`: record a terminal's presence report, then close the
/// invites whose ring time is over.
pub fn post_presence(
    data: &mut AppData,
    auth: &SharedSecretAuthority,
    header: Option<&str>,
    report: PresenceReport,
    now_ms: i64,
) -> (r: Result<(), ApiError>)
    ensures
        old(data).invites.wf() ==> final(data).invites.wf(),
        match spec_authorize(
            auth.secret(),
            text_of(header),
            report.terminal_id,
            report.dog_id,
            "terminal_id mismatch"@,
            "invalid device token"@,
        ) {
            Some(x) => r matches Err(e) && reply(e) == x && *final(data) == *old(data),
            None => {
                &&& r is Ok
                &&& final(data).presence.entries() == upserted(old(data).presence.entries(), report)
                &&& expired_from(old(data).invites, final(data).invites, now_ms)
                &&& final(data).bonds == old(data).bonds
                &&& final(data).sessions == old(data).sessions
                &&& final(data).policies == old(data).policies
            },
        },
{
    authorize(auth, header, report.terminal_id, report.dog_id, "terminal_id mismatch", "invalid device token")?;
    data.presence.upsert(report);
    data.invites.expire_due(now_ms);
    Ok(())
}

/// `POST /v1/dev/enroll`: issue credentials, with fresh random ids for the
/// terminal and the dog where none is given (500 where no random id can be
/// drawn).
pub fn dev_enroll(auth: &SharedSecretAuthority, terminal_id: Option<TerminalId>, dog_id: Option<DogId>) -> (r:
    Result<DeviceIdentity, ApiError>)
    ensures
        terminal_id is Some && dog_id is Some ==> r is Ok,
        r matches Err(e) ==> reply(e) == no_random(),
        r matches Ok(id) ==> {
            &&& (terminal_id matches Some(t) ==> id.terminal_id == t)
            &&& (terminal_id is None ==> is_random_uuid(id.terminal_id.0))
            &&& (dog_id matches Some(d) ==> id.dog_id == d)
            &&& (dog_id is None ==> is_random_uuid(id.dog_id.0))
            &&& id.token@ == spec_token(auth.secret(), id.terminal_id, id.dog_id)
        },
{
    let t = match terminal_id {
        Some(t) => t,
        None => match TerminalId::new() {
            Some(t) => t,
            None => {
                return Err(no_random_error());
            },
        },
    };
    let d = match dog_id {
        Some(d) => d,
        None => match DogId::new() {
            Some(d) => d,
            None => {
                return Err(no_random_error());
            },
        },
    };
    Ok(auth.issue(t, d))
}

/// The invite ringing for `dog` as callee among the given maps, if any.
pub open spec fn ringing_for(invites: Map<u128, Invite>, open: Map<u128, u128>, dog: DogId) -> Option<Invite> {
    match open_invite(invites, open, dog) {
        Some(i) => if i.to_dog == dog && i.state == SessionState::Ringing {
            Some(i)
        } else {
            None
        },
        None => None,
    }
}

/// `GET /v1/invites/incoming`: close the invites whose ring time is over,
/// then offer the invite ringing for `dog` as callee, if any, with the
/// default lure.
pub fn incoming_invite(
    data: &mut AppData,
    auth: &SharedSecretAuthority,
    header: Option<&str>,
    dog_id: DogId,
    terminal_id: TerminalId,
    now_ms: i64,
) -> (r: Result<Option<IncomingInviteOffer>, ApiError>)
    ensures
        old(data).invites.wf() ==> final(data).invites.wf(),
        match spec_authorize(
            auth.secret(),
            text_of(header),
            terminal_id,
            dog_id,
            "terminal mismatch"@,
            "invalid token"@,
        ) {
            Some(x) => (r matches Err(e) && reply(e) == x) && *final(data) == *old(data),
            None => {
                let ringing = ringing_for(
                    live_invites(old(data).invites, now_ms),
                    live_open(old(data).invites, now_ms),
                    dog_id,
                );
                &&& expired_from(old(data).invites, final(data).invites, now_ms)
                &&& final(data).presence == old(data).presence
                &&& final(data).bonds == old(data).bonds
                &&& final(data).sessions == old(data).sessions
                &&& final(data).policies == old(data).policies
                &&& r matches Ok(offer)
                &&& ringing is None ==> r == Ok::<Option<IncomingInviteOffer>, ApiError>(None)
                &&& ringing matches Some(i) ==> (r matches Ok(Some(o)) && o.invite == i
                    && LureConfig::is_default(o.lure))
            },
        },
{
    authorize(auth, header, terminal_id, dog_id, "terminal mismatch", "invalid token")?;
    data.invites.expire_due(now_ms);
    match data.invites.incoming_for(dog_id) {
        Some(invite) => Ok(Some(IncomingInviteOffer { invite, lure: LureConfig::default() })),
        None => Ok(None),
    }
}

/// `GET /v1/sessions/active`: the session `dog` is in, if any.
pub fn active_session(
    data: &AppData,
    auth: &SharedSecretAuthority,
    header: Option<&str>,
    dog_id: DogId,
    terminal_id: TerminalId,
) -> (r: Result<Option<SessionRecord>, ApiError>)
    ensures
        match spec_authorize(
            auth.secret(),
            text_of(header),
            terminal_id,
            dog_id,
            "terminal mismatch"@,
            "invalid token"@,
        ) {
            Some(x) => r matches Err(e) && reply(e) == x,
            None => r == Ok::<Option<SessionRecord>, ApiError>(
                if data.sessions.dog_sessions().contains_key(dog_id.0)
                    && data.sessions.sessions().contains_key(
                    data.sessions.dog_sessions()[dog_id.0],
                ) {
                    Some(data.sessions.sessions()[data.sessions.dog_sessions()[dog_id.0]])
                } else {
                    None
                },
            ),
        },
{
    authorize(auth, header, terminal_id, dog_id, "terminal mismatch", "invalid token")?;
    Ok(data.sessions.for_dog(dog_id))
}

/// The dog that an optional text names, if it parses as a UUID.
pub open spec fn parsed_dog(text: Option<Seq<char>>) -> Option<DogId> {
    match text {
        Some(t) => match uuid_parse(t) {
            Some(v) => Some(DogId(v)),
            None => None,
        },
        None => None,
    }
}

fn parse_dog(text: Option<&str>) -> (r: Option<DogId>)
    ensures
        r == parsed_dog(text_of(text)),
{
    match text {
        Some(t) => DogId::parse(t),
        None => None,
    }
}

/// `POST /v1/invites/{id}/cancel`: a party to an invite closes it. The dog is
/// the `dog_id` text of the body; the token must be the one of the header's
/// terminal and that dog.
pub fn cancel_invite(
    data: &mut AppData,
    auth: &SharedSecretAuthority,
    header: Option<&str>,
    invite_id: InviteId,
    dog_text: Option<&str>,
) -> (r: Result<(), ApiError>)
    ensures
        old(data).invites.wf() ==> final(data).invites.wf(),
        match spec_extract(text_of(header)) {
            None => r matches Err(e) && reply(e) == (UNAUTHORIZED, "unauthorized"@) && *final(data)
                == *old(data),
            Some((t, tok)) => match parsed_dog(text_of(dog_text)) {
                None => r matches Err(e) && reply(e) == (BAD_REQUEST, "dog_id required"@)
                    && *final(data) == *old(data),
                Some(dog) => if tok != spec_token(auth.secret(), t, dog) {
                    r matches Err(e) && reply(e) == (UNAUTHORIZED, "invalid token"@) && *final(data)
                        == *old(data)
                } else if !old(data).invites.invites().contains_key(invite_id.0) {
                    r matches Err(e) && reply(e) == (NOT_FOUND, "not found"@) && *final(data)
                        == *old(data)
                } else {
                    let inv = old(data).invites.invites()[invite_id.0];
                    if inv.from_dog != dog && inv.to_dog != dog {
                        r matches Err(e) && reply(e) == (FORBIDDEN, "not party to invite"@)
                            && *final(data) == *old(data)
                    } else {
                        &&& r is Ok
                        &&& final(data).invites.invites() == old(data).invites.invites().remove(
                            invite_id.0,
                        )
                        &&& final(data).invites.open() == old(data).invites.open().remove(
                            inv.from_dog.0,
                        ).remove(inv.to_dog.0)
                        &&& final(data).invites.times() == old(data).invites.times()
                        &&& final(data).presence == old(data).presence
                        &&& final(data).bonds == old(data).bonds
                        &&& final(data).sessions == old(data).sessions
                        &&& final(data).policies == old(data).policies
                    }
                },
            },
        },
{
    let (terminal_id, token) = extract_device_token(header)?;
    let dog_id = match parse_dog(dog_text) {
        Some(d) => d,
        None => {
            return Err(ApiError { status: BAD_REQUEST, error: "dog_id required" });
        },
    };
    if auth.verify_pair(terminal_id, dog_id, token.as_str()).is_err() {
        return Err(ApiError { status: UNAUTHORIZED, error: "invalid token" });
    }
    match data.invites.get(invite_id) {
        Some(inv) => {
            if inv.from_dog != dog_id && inv.to_dog != dog_id {
                return Err(ApiError { status: FORBIDDEN, error: "not party to invite" });
            }
            data.invites.close(invite_id);
            Ok(())
        },
        None => Err(ApiError { status: NOT_FOUND, error: "not found" }),
    }
}

/// `POST /v1/sessions/{id}/end`: a party to a session ends it.
pub fn end_session(
    data: &mut AppData,
    auth: &SharedSecretAuthority,
    header: Option<&str>,
    session_id: SessionId,
    dog_id: DogId,
    terminal_id: TerminalId,
) -> (r: Result<(), ApiError>)
    ensures
        old(data).sessions.wf() ==> final(data).sessions.wf(),
        match spec_authorize(
            auth.secret(),
            text_of(header),
            terminal_id,
            dog_id,
            "terminal mismatch"@,
            "invalid token"@,
        ) {
            Some(x) => r matches Err(e) && reply(e) == x && *final(data) == *old(data),
            None => if !old(data).sessions.sessions().contains_key(session_id.0) {
                r matches Err(e) && reply(e) == (NOT_FOUND, "not found"@) && *final(data)
                    == *old(data)
            } else {
                let s = old(data).sessions.sessions()[session_id.0];
                if s.dog_a != dog_id && s.dog_b != dog_id {
                    r matches Err(e) && reply(e) == (FORBIDDEN, "not party"@) && *final(data)
                        == *old(data)
                } else {
                    &&& r is Ok
                    &&& final(data).sessions.sessions() == old(data).sessions.sessions().remove(
                        session_id.0,
                    )
                    &&& final(data).sessions.dog_sessions() == old(data).sessions.dog_sessions().remove(s.dog_a.0).remove(s.dog_b.0)
                    &&& final(data).sessions.readiness() == old(data).sessions.readiness().remove(
                        session_id.0,
                    )
                    &&& final(data).presence == old(data).presence
                    &&& final(data).bonds == old(data).bonds
                    &&& final(data).invites == old(data).invites
                    &&& final(data).policies == old(data).policies
                }
            },
        },
{
    authorize(auth, header, terminal_id, dog_id, "terminal mismatch", "invalid token")?;
    let sess = match data.sessions.get(session_id) {
        Some(s) => s,
        None => {
            return Err(ApiError { status: NOT_FOUND, error: "not found" });
        },
    };
    if sess.dog_a != dog_id && sess.dog_b != dog_id {
        return Err(ApiError { status: FORBIDDEN, error: "not party" });
    }
    data.sessions.end(session_id);
    Ok(())
}

/// The status of a routing refusal: 412 when the caller is not present, 404
/// when there is no present peer, 403 when not bonded, 409 when busy.
pub open spec fn route_status(e: InviteError) -> u16 {
    match e {
        InviteError::CallerNotPresent => PRECONDITION_FAILED,
        InviteError::NoEligiblePeer => NOT_FOUND,
        InviteError::PeerNotPresent => NOT_FOUND,
        InviteError::NotBonded => FORBIDDEN,
        InviteError::CallerBusy => CONFLICT,
        InviteError::PeerBusy => CONFLICT,
    }
}

fn route_error(e: InviteError) -> (r: ApiError)
    ensures
        reply(r) == (route_status(e), e.text()),
{
    let status: u16 = match e {
        InviteError::CallerNotPresent => PRECONDITION_FAILED,
        InviteError::NoEligiblePeer => NOT_FOUND,
        InviteError::PeerNotPresent => NOT_FOUND,
        InviteError::NotBonded => FORBIDDEN,
        InviteError::CallerBusy => CONFLICT,
        InviteError::PeerBusy => CONFLICT,
    };
    ApiError { status, error: e.message() }
}

/// The dogs present at `now` in a presence store.
pub open spec fn present_set(p: PresenceStore, now_ms: i64) -> Set<DogId> {
    Set::new(|d: DogId| p.shows_present(d.0, now_ms))
}

/// Whether routing an invite from `dog` (to `to_dog` if given) may pick `r`,
/// with the presence and bonds of `data` at `now`.
pub open spec fn may_route(data: AppData, dog: DogId, to_dog: Option<DogId>, now_ms: i64, r: Result<DogId, InviteError>) -> bool {
    route_ok(
        data.bonds@,
        dog,
        to_dog,
        present_set(data.presence, now_ms),
        data.presence.shows_present(dog.0, now_ms),
        r,
    )
}

/// `POST /v1/invites`: after closing the invites whose ring time is over,
/// refuse a caller with an open invite (409 "caller busy"), route the invite
/// (see `route_invite`; its refusals map by `route_status`), refuse a peer
/// with an open invite (409 "peer busy"), and file a new ringing invite with
/// a fresh random id, created at `now`.
#[verifier::rlimit(40)]
pub fn create_invite(
    data: &mut AppData,
    auth: &SharedSecretAuthority,
    header: Option<&str>,
    dog_id: DogId,
    terminal_id: TerminalId,
    to_dog: Option<DogId>,
    mode: InviteMode,
    now_ms: i64,
) -> (r: Result<Invite, ApiError>)
    requires
        now_ms + RING_TIMEOUT_MS <= i64::MAX,
    ensures
        old(data).invites.wf() && (r matches Ok(inv) ==> !live_invites(old(data).invites, now_ms).contains_key(
            inv.id.0,
        )) ==> final(data).invites.wf(),
        match spec_authorize(
            auth.secret(),
            text_of(header),
            terminal_id,
            dog_id,
            "terminal mismatch"@,
            "invalid token"@,
        ) {
            Some(x) => r matches Err(e) && reply(e) == x && *final(data) == *old(data),
            None => {
                let li = live_invites(old(data).invites, now_ms);
                let lo = live_open(old(data).invites, now_ms);
                &&& final(data).presence == old(data).presence
                &&& final(data).bonds == old(data).bonds
                &&& final(data).sessions == old(data).sessions
                &&& final(data).policies == old(data).policies
                &&& final(data).invites.times() == old(data).invites.times()
                &&& r is Err ==> final(data).invites.invites() == li && final(data).invites.open()
                    == lo
                &&& open_invite(li, lo, dog_id) is Some ==> (r matches Err(e) && reply(e) == (
                    CONFLICT,
                    "caller busy"@,
                ))
                &&& open_invite(li, lo, dog_id) is None ==> {
                    &&& forall|re: InviteError|
                        may_route(*old(data), dog_id, to_dog, now_ms, Err(re)) ==> (r matches Err(e)
                            && reply(e) == (route_status(re), re.text()))
                    &&& forall|to: DogId|
                        #![trigger open_invite(li, lo, to)]
                        may_route(*old(data), dog_id, to_dog, now_ms, Ok(to)) && open_invite(
                            li,
                            lo,
                            to,
                        ) is Some ==> (r matches Err(e) && (reply(e) == (CONFLICT, "peer busy"@)
                            || reply(e) == (CONFLICT, "busy"@) || reply(e) == no_random())) || (r is Ok
                            && r->Ok_0.to_dog != to)
                    &&& ((exists|to: DogId| may_route(*old(data), dog_id, to_dog, now_ms, Ok(to)))
                        && !lo.contains_key(dog_id.0) && forall|to: DogId|
                        may_route(*old(data), dog_id, to_dog, now_ms, Ok(to)) ==> !lo.contains_key(
                            to.0,
                        )) ==> r is Ok || (r matches Err(e) && reply(e) == no_random())
                    &&& r matches Ok(inv) ==> {
                        &&& is_random_uuid(inv.id.0)
                        &&& may_route(*old(data), dog_id, to_dog, now_ms, Ok(inv.to_dog))
                        &&& open_invite(li, lo, inv.to_dog) is None
                        &&& !lo.contains_key(dog_id.0) && !lo.contains_key(inv.to_dog.0)
                        &&& inv == spec_invite(inv.id, dog_id, inv.to_dog, mode, now_ms)
                        &&& final(data).invites.invites() == li.insert(inv.id.0, inv)
                        &&& final(data).invites.open() == lo.insert(dog_id.0, inv.id.0).insert(
                            inv.to_dog.0,
                            inv.id.0,
                        )
                    }
                    &&& r matches Err(e) ==> {
                        ||| exists|re: InviteError|
                            may_route(*old(data), dog_id, to_dog, now_ms, Err(re)) && reply(e) == (
                                route_status(re),
                                re.text(),
                            )
                        ||| exists|to: DogId|
                            may_route(*old(data), dog_id, to_dog, now_ms, Ok(to)) && open_invite(
                                li,
                                lo,
                                to,
                            ) is Some && reply(e) == (CONFLICT, "peer busy"@)
                        ||| exists|to: DogId|
                            may_route(*old(data), dog_id, to_dog, now_ms, Ok(to)) && (lo.contains_key(
                                dog_id.0,
                            ) || lo.contains_key(to.0)) && reply(e) == (CONFLICT, "busy"@)
                        ||| exists|to: DogId|
                            may_route(*old(data), dog_id, to_dog, now_ms, Ok(to)) && open_invite(
                                li,
                                lo,
                                to,
                            ) is None && reply(e) == no_random()
                    }
                }
            },
        },
{
    authorize(auth, header, terminal_id, dog_id, "terminal mismatch", "invalid token")?;
    let ghost before = *data;
    let ghost li = live_invites(old(data).invites, now_ms);
    let ghost lo = live_open(old(data).invites, now_ms);
    data.invites.expire_due(now_ms);
    assert(data.invites.invites() == li && data.invites.open() == lo);
    if data.invites.for_dog(dog_id).is_some() {
        return Err(ApiError { status: CONFLICT, error: "caller busy" });
    }
    let present_ids = data.presence.present_dog_ids(now_ms);
    let caller_present = data.presence.is_present(dog_id, now_ms);
    proof {
        assert(present_ids@.to_set() =~= present_set(data.presence, now_ms));
    }
    let to = match route_invite(dog_id, to_dog, &data.bonds, present_ids.as_slice(), caller_present) {
        Ok(to) => to,
        Err(e) => {
            assert(may_route(before, dog_id, to_dog, now_ms, Err(e)));
            return Err(route_error(e));
        },
    };
    assert(may_route(before, dog_id, to_dog, now_ms, Ok(to)));
    if data.invites.for_dog(to).is_some() {
        assert(open_invite(li, lo, to) is Some);
        return Err(ApiError { status: CONFLICT, error: "peer busy" });
    }
    assert(open_invite(li, lo, to) is None);
    let id = match InviteId::new() {
        Some(id) => id,
        None => {
            return Err(no_random_error());
        },
    };
    let invite = invite_at(id, dog_id, to, mode, now_ms);
    match data.invites.insert(invite) {
        Ok(()) => Ok(invite),
        Err(_) => Err(ApiError { status: CONFLICT, error: "busy" }),
    }
}

/// The terminal that an optional text names, if it parses as a UUID.
pub open spec fn parsed_terminal(text: Option<Seq<char>>) -> Option<TerminalId> {
    match text {
        Some(t) => match uuid_parse(t) {
            Some(v) => Some(TerminalId(v)),
            None => None,
        },
        None => None,
    }
}

fn parse_terminal(text: Option<&str>) -> (r: Option<TerminalId>)
    ensures
        r == parsed_terminal(text_of(text)),
{
    match text {
        Some(t) => TerminalId::parse(t),
        None => None,
    }
}

/// The WebRTC role text of `dog` in `session`.
pub open spec fn role_text(session: SessionRecord, dog: DogId) -> Seq<char> {
    if is_offerer(session, dog) {
        "offerer"@
    } else {
        "answerer"@
    }
}

/// `POST /v1/invites/{id}/accept`: the callee accepts a ringing invite. The
/// dog is the `dog_id` text of the body, the terminal its `terminal_id` text
/// or else the header's. After closing the invites whose ring time is over,
/// the invite is looked up (404), accepted (see `spec_accept`; a refusal is
/// 412 with its text), closed, and its session filed (409 "session busy"
/// when one of its dogs is already in a session). Gives the session and the
/// accepting dog's WebRTC role.
#[verifier::rlimit(40)]
pub fn accept_invite_handler(
    data: &mut AppData,
    auth: &SharedSecretAuthority,
    header: Option<&str>,
    invite_id: InviteId,
    dog_text: Option<&str>,
    terminal_text: Option<&str>,
    now_ms: i64,
) -> (r: Result<(SessionRecord, &'static str), ApiError>)
    requires
        now_ms + SESSION_MAX_MS <= i64::MAX,
    ensures
        old(data).invites.wf() ==> final(data).invites.wf(),
        old(data).sessions.wf() && (r matches Ok((s, _)) ==> !old(data).sessions.sessions().contains_key(
            s.id.0,
        )) ==> final(data).sessions.wf(),
        match spec_extract(text_of(header)) {
            None => (r matches Err(e) && reply(e) == (UNAUTHORIZED, "unauthorized"@)) && *final(data) == *old(data),
            Some((t, tok)) => match parsed_dog(text_of(dog_text)) {
                None => (r matches Err(e) && reply(e) == (BAD_REQUEST, "dog_id required"@))
                    && *final(data) == *old(data),
                Some(dog) => {
                    let tid = match parsed_terminal(text_of(terminal_text)) {
                        Some(x) => x,
                        None => t,
                    };
                    if tid != t {
                        (r matches Err(e) && reply(e) == (FORBIDDEN, "terminal mismatch"@))
                            && *final(data) == *old(data)
                    } else if tok != spec_token(auth.secret(), t, dog) {
                        (r matches Err(e) && reply(e) == (UNAUTHORIZED, "invalid token"@))
                            && *final(data) == *old(data)
                    } else {
                        accept_outcome(*old(data), *final(data), invite_id, dog, now_ms, r)
                    }
                },
            },
        },
{
    let (terminal_id, token) = extract_device_token(header)?;
    let dog_id = match parse_dog(dog_text) {
        Some(d) => d,
        None => {
            return Err(ApiError { status: BAD_REQUEST, error: "dog_id required" });
        },
    };
    let tid = match parse_terminal(terminal_text) {
        Some(t) => t,
        None => terminal_id,
    };
    if tid != terminal_id {
        return Err(ApiError { status: FORBIDDEN, error: "terminal mismatch" });
    }
    if auth.verify_pair(terminal_id, dog_id, token.as_str()).is_err() {
        return Err(ApiError { status: UNAUTHORIZED, error: "invalid token" });
    }
    let ghost before = *data;
    data.invites.expire_due(now_ms);
    let invite = match data.invites.get(invite_id) {
        Some(i) => i,
        None => {
            return Err(ApiError { status: NOT_FOUND, error: "invite not found" });
        },
    };
    let present = data.presence.is_present(dog_id, now_ms);
    let session = match accept_invite(&invite, dog_id, present, now_ms) {
        Some(Ok(s)) => s,
        Some(Err(e)) => {
            return Err(ApiError { status: PRECONDITION_FAILED, error: e.message() });
        },
        None => {
            return Err(no_random_error());
        },
    };
    data.invites.close(invite_id);
    if data.sessions.insert(session).is_err() {
        return Err(ApiError { status: CONFLICT, error: "session busy" });
    }
    let role = webrtc_role(&session, dog_id);
    Ok((session, role))
}

/// What an authorized accept of invite `id` by `dog` at `now` does (see
/// `accept_invite_handler`).
pub open spec fn accept_outcome(
    before: AppData,
    after: AppData,
    id: InviteId,
    dog: DogId,
    now_ms: i64,
    r: Result<(SessionRecord, &'static str), ApiError>,
) -> bool {
    let li = live_invites(before.invites, now_ms);
    let lo = live_open(before.invites, now_ms);
    &&& after.presence == before.presence
    &&& after.bonds == before.bonds
    &&& after.policies == before.policies
    &&& after.invites.times() == before.invites.times()
    &&& if !li.contains_key(id.0) {
        &&& r matches Err(e) && reply(e) == (NOT_FOUND, "invite not found"@)
        &&& after.invites.invites() == li && after.invites.open() == lo
        &&& after.sessions == before.sessions
    } else {
        let inv = li[id.0];
        let present = before.presence.shows_present(dog.0, now_ms);
        match spec_accept(inv, dog, present, now_ms, SessionId(0)) {
            Err(ae) => {
                &&& r matches Err(e) && reply(e) == (PRECONDITION_FAILED, ae.text())
                &&& after.invites.invites() == li && after.invites.open() == lo
                &&& after.sessions == before.sessions
            },
            Ok(_) => {
                let busy = before.sessions.dog_sessions().contains_key(inv.from_dog.0)
                    || before.sessions.dog_sessions().contains_key(inv.to_dog.0);
                if r matches Err(e) && reply(e) == no_random() {
                    &&& after.invites.invites() == li && after.invites.open() == lo
                    &&& after.sessions == before.sessions
                } else {
                    &&& after.invites.invites() == li.remove(id.0)
                    &&& after.invites.open() == lo.remove(inv.from_dog.0).remove(inv.to_dog.0)
                    &&& busy ==> (r matches Err(e) && reply(e) == (CONFLICT, "session busy"@))
                        && after.sessions.sessions() == before.sessions.sessions()
                        && after.sessions.dog_sessions() == before.sessions.dog_sessions()
                        && after.sessions.readiness() == before.sessions.readiness()
                    &&& !busy ==> (r matches Ok((s, role)) && spec_accept(
                        inv,
                        dog,
                        present,
                        now_ms,
                        s.id,
                    ) == Ok::<SessionRecord, crate::session::AcceptError>(s) && is_random_uuid(s.id.0)
                        && role@ == role_text(s, dog) && after.sessions.sessions()
                        == before.sessions.sessions().insert(s.id.0, s)
                        && after.sessions.dog_sessions() == before.sessions.dog_sessions().insert(
                        s.dog_a.0,
                        s.id.0,
                    ).insert(s.dog_b.0, s.id.0) && after.sessions.readiness()
                        == before.sessions.readiness().insert(
                        s.id.0,
                        SessionExtra { media_a: false, media_b: false },
                    ))
                }
            },
        }
    }
}

/// `POST /v1/sessions/{id}/media_ready`: a dog of a session reports media
/// readiness (see `SessionStore::set_media_ready`); 404 for an unknown
/// session or a dog not in it. Gives whether both are ready, and the session.
pub fn media_ready(
    data: &mut AppData,
    auth: &SharedSecretAuthority,
    header: Option<&str>,
    session_id: SessionId,
    dog_id: DogId,
    terminal_id: TerminalId,
    ready: bool,
) -> (r: Result<(bool, SessionRecord), ApiError>)
    ensures
        old(data).sessions.wf() ==> final(data).sessions.wf(),
        match spec_authorize(
            auth.secret(),
            text_of(header),
            terminal_id,
            dog_id,
            "terminal mismatch"@,
            "invalid token"@,
        ) {
            Some(x) => (r matches Err(e) && reply(e) == x) && *final(data) == *old(data),
            None => {
                let known = old(data).sessions.sessions().contains_key(session_id.0)
                    && old(data).sessions.readiness().contains_key(session_id.0);
                let s = old(data).sessions.sessions()[session_id.0];
                &&& final(data).presence == old(data).presence
                &&& final(data).bonds == old(data).bonds
                &&& final(data).invites == old(data).invites
                &&& final(data).policies == old(data).policies
                &&& final(data).sessions.dog_sessions() == old(data).sessions.dog_sessions()
                &&& (!known || (dog_id != s.dog_a && dog_id != s.dog_b)) ==> (r matches Err(e)
                    && reply(e) == (NOT_FOUND, "not found"@))
                    && final(data).sessions.sessions() == old(data).sessions.sessions()
                    && final(data).sessions.readiness() == old(data).sessions.readiness()
                &&& (known && (dog_id == s.dog_a || dog_id == s.dog_b)) ==> {
                    let m = old(data).sessions.readiness()[session_id.0];
                    let m2 = if dog_id == s.dog_a {
                        SessionExtra { media_a: ready, media_b: m.media_b }
                    } else {
                        SessionExtra { media_a: m.media_a, media_b: ready }
                    };
                    let both = m2.media_a && m2.media_b;
                    let s2 = if both {
                        crate::store::with_state(s, SessionState::Active)
                    } else {
                        s
                    };
                    &&& r == Ok::<(bool, SessionRecord), ApiError>((both, s2))
                    &&& final(data).sessions.readiness() == old(data).sessions.readiness().insert(
                        session_id.0,
                        m2,
                    )
                    &&& final(data).sessions.sessions() == old(data).sessions.sessions().insert(
                        session_id.0,
                        s2,
                    )
                }
            },
        },
{
    authorize(auth, header, terminal_id, dog_id, "terminal mismatch", "invalid token")?;
    match data.sessions.set_media_ready(session_id, dog_id, ready) {
        Some(x) => Ok(x),
        None => Err(ApiError { status: NOT_FOUND, error: "not found" }),
    }
}

/// A report that is not older than the stored one is what the store shows:
/// read at the report's own time, the dog shows present exactly when the
/// report says so.
pub proof fn lemma_report_visible(entries: Map<u128, PresenceEntry>, report: PresenceReport)
    requires
        !(entries.contains_key(report.dog_id.0) && report.seq < entries[report.dog_id.0].seq),
    ensures
        upserted(entries, report).contains_key(report.dog_id.0),
        upserted(entries, report)[report.dog_id.0] == entry_of(report),
        view_of(report.dog_id, upserted(entries, report)[report.dog_id.0], report.ts).present
            == report.present,
{
}

/// A filed invite is the open invite of both its dogs.
pub proof fn lemma_filed_invite_is_open(invites: Map<u128, Invite>, open: Map<u128, u128>, inv: Invite)
    ensures
        open_invite(
            invites.insert(inv.id.0, inv),
            open.insert(inv.from_dog.0, inv.id.0).insert(inv.to_dog.0, inv.id.0),
            inv.from_dog,
        ) == Some(inv),
        open_invite(
            invites.insert(inv.id.0, inv),
            open.insert(inv.from_dog.0, inv.id.0).insert(inv.to_dog.0, inv.id.0),
            inv.to_dog,
        ) == Some(inv),
{
}

} // verus!
