//! Shared CanisLink protocol types: identifiers, intents, session states,
//! invites, session records, presence reports and the timing constants of
//! the architecture.
//!
//! Times are milliseconds since the Unix epoch (UTC) held in an `i64`.
use crate::text::{hex_lower, text_is};
use vstd::prelude::*;

verus! {

/// Minimum mutual bond weight, in thousandths (0.30).
pub const W_MIN_PERMILLE: u16 = 300;

/// Largest bond weight, in thousandths (1.0).
pub const W_MAX_PERMILLE: u16 = 1000;

/// Presence enter debounce.
pub const PRESENCE_ENTER_MS: u64 = 800;

/// Presence exit debounce.
pub const PRESENCE_EXIT_MS: u64 = 2500;

/// How long a presence report keeps a dog online.
pub const PRESENCE_TTL_MS: u64 = 10000;

/// How long an invite rings.
pub const RING_TIMEOUT_MS: u64 = 25000;

/// Hard maximum session length (15 min).
pub const SESSION_MAX_MS: u64 = 900000;

/// Initial soft segment of a session (5 min).
pub const SESSION_SEGMENT_MS: u64 = 300000;

/// Byte `i` (0 = most significant) of the big-endian form of a 128-bit value.
pub open spec fn be_byte(v: u128, i: int) -> u8 {
    ((v >> ((15 - i) * 8) as u128) & 0xff) as u8
}

/// The 16 big-endian bytes of a 128-bit value.
pub open spec fn be_bytes(v: u128) -> Seq<u8> {
    Seq::new(16, |i: int| be_byte(v, i))
}

/// The hyphenated lowercase text of a UUID (8-4-4-4-12 hex digits).
pub open spec fn uuid_hyphenated(v: u128) -> Seq<char> {
    let b = be_bytes(v);
    hex_lower(b.subrange(0, 4)) + seq!['-'] + hex_lower(b.subrange(4, 6)) + seq!['-']
        + hex_lower(b.subrange(6, 8)) + seq!['-'] + hex_lower(b.subrange(8, 10)) + seq!['-']
        + hex_lower(b.subrange(10, 16))
}

/// What `uuid::Uuid::parse_str` returns on a text, as the UUID's 128-bit value.
pub uninterp spec fn uuid_parse(text: Seq<char>) -> Option<u128>;

/// Whether a UUID value is a random one (RFC 4122 variant, version 4): the
/// high nibble of byte 6 is 4 and the top two bits of byte 8 are `10`.
pub open spec fn is_random_uuid(v: u128) -> bool {
    be_byte(v, 6) >> 4u8 == 4 && be_byte(v, 8) >> 6u8 == 2
}

/// The version 4 UUID that `uuid::Builder::from_random_bytes` makes of 128
/// bits: the version nibble set to 4 and the variant bits to RFC 4122.
pub open spec fn spec_v4(bits: u128) -> u128 {
    (bits & 0xFFFF_FFFF_FFFF_0FFF_3FFF_FFFF_FFFF_FFFF) | 0x0000_0000_0000_4000_8000_0000_0000_0000
}

/// 128 bits from the operating system's random source (`getrandom::fill`),
/// or `None` where the source fails. Nothing is promised of the bits: they
/// are random.
#[verifier::external_body]
fn random_bits() -> (r: Option<u128>) {
    let mut bytes = [0u8; 16];
    match getrandom::fill(&mut bytes) {
        Ok(()) => Some(u128::from_be_bytes(bytes)),
        Err(_) => None,
    }
}

/// `uuid::Builder::from_random_bytes` on the big-endian bytes of `bits`, as
/// the UUID's 128-bit value: the builder sets the high nibble of byte 6 to 4
/// and the top two bits of byte 8 to `10`, and keeps every other bit.
#[verifier::external_body]
fn uuid_from_random_bits(bits: u128) -> (r: u128)
    ensures
        r == spec_v4(bits),
{
    uuid::Builder::from_random_bytes(bits.to_be_bytes()).into_uuid().as_u128()
}

/// A version 4 UUID built from bits is a random UUID.
pub proof fn lemma_v4_is_random(bits: u128)
    ensures
        is_random_uuid(spec_v4(bits)),
{
    let v = spec_v4(bits);
    assert(be_byte(v, 6) == ((v >> 72u128) & 0xff) as u8);
    assert(be_byte(v, 8) == ((v >> 56u128) & 0xff) as u8);
    assert((((((bits & 0xFFFF_FFFF_FFFF_0FFF_3FFF_FFFF_FFFF_FFFF) | 0x0000_0000_0000_4000_8000_0000_0000_0000)
        >> 72u128) & 0xff) as u8) >> 4u8 == 4u8) by (bit_vector);
    assert((((((bits & 0xFFFF_FFFF_FFFF_0FFF_3FFF_FFFF_FFFF_FFFF) | 0x0000_0000_0000_4000_8000_0000_0000_0000)
        >> 56u128) & 0xff) as u8) >> 6u8 == 2u8) by (bit_vector);
}

/// A fresh random UUID, as `Uuid::new_v4` makes one, or `None` where the
/// random source fails.
fn random_uuid() -> (r: Option<u128>)
    ensures
        r matches Some(v) ==> is_random_uuid(v) && exists|bits: u128| v == spec_v4(bits),
{
    match random_bits() {
        Some(bits) => {
            let v = uuid_from_random_bits(bits);
            proof {
                lemma_v4_is_random(bits);
            }
            Some(v)
        },
        None => None,
    }
}

/// The text of a UUID through `uuid::Uuid`'s `Display`. The uuid source
/// formats a UUID hyphenated in lowercase, and `Uuid::parse_str` accepts every
/// format that the crate generates, so the text parses back to the same value.
#[verifier::external_body]
fn uuid_text(v: u128) -> (s: String)
    ensures
        s@ == uuid_hyphenated(v),
        uuid_parse(s@) == Some(v),
{
    uuid::Uuid::from_u128(v).to_string()
}

/// `uuid::Uuid::parse_str` on a text: the UUID's 128-bit value, or `None`
/// where the crate returns an error.
#[verifier::external_body]
fn parse_uuid(text: &str) -> (r: Option<u128>)
    ensures
        r == uuid_parse(text@),
{
    match uuid::Uuid::parse_str(text) {
        Ok(u) => Some(u.as_u128()),
        Err(_) => None,
    }
}

/// The 16 big-endian bytes of a UUID value (`Uuid::as_bytes`).
pub fn uuid_bytes(v: u128) -> (r: Vec<u8>)
    ensures
        r@ == be_bytes(v),
{
    let mut r: Vec<u8> = Vec::with_capacity(16);
    let mut i: u32 = 0;
    while i < 16
        invariant
            i <= 16,
            r@.len() == i,
            forall|j: int| 0 <= j < i ==> r@[j] == be_byte(v, j),
        decreases 16 - i,
    {
        let shift: u32 = (15 - i) * 8;
        r.push(((v >> shift) & 0xff) as u8);
        i = i + 1;
    }
    assert(r@ =~= be_bytes(v));
    r
}

/// A dog, identified by a UUID held as its 128-bit value.
#[derive(Debug, Clone, Copy, PartialEq, Eq, Hash, Structural)]
pub struct DogId(pub u128);

impl DogId {
    /// A fresh random (version 4) identifier, or `None` where the operating
    /// system's random source fails.
    pub fn new() -> (r: Option<Self>)
        ensures
            r matches Some(x) ==> is_random_uuid(x.0) && exists|bits: u128| x.0 == spec_v4(bits),
    {
        match random_uuid() {
            Some(v) => Some(DogId(v)),
            None => None,
        }
    }

    /// The nil identifier (all zero bits).
    pub fn nil() -> (r: Self)
        ensures
            r.0 == 0,
    {
        DogId(0)
    }

    /// The hyphenated lowercase text of the identifier.
    pub fn to_text(&self) -> (s: String)
        ensures
            s@ == uuid_hyphenated(self.0),
            uuid_parse(s@) == Some(self.0),
    {
        uuid_text(self.0)
    }

    /// Parse the text of an identifier (`Uuid::parse_str`).
    pub fn parse(text: &str) -> (r: Option<Self>)
        ensures
            r == (match uuid_parse(text@) {
                Some(v) => Some(DogId(v)),
                None => None,
            }),
    {
        match parse_uuid(text) {
            Some(v) => Some(DogId(v)),
            None => None,
        }
    }
}

/// A terminal, identified by a UUID held as its 128-bit value.
#[derive(Debug, Clone, Copy, PartialEq, Eq, Hash, Structural)]
pub struct TerminalId(pub u128);

impl TerminalId {
    /// A fresh random (version 4) identifier, or `None` where the operating
    /// system's random source fails.
    pub fn new() -> (r: Option<Self>)
        ensures
            r matches Some(x) ==> is_random_uuid(x.0) && exists|bits: u128| x.0 == spec_v4(bits),
    {
        match random_uuid() {
            Some(v) => Some(TerminalId(v)),
            None => None,
        }
    }

    /// The nil identifier (all zero bits).
    pub fn nil() -> (r: Self)
        ensures
            r.0 == 0,
    {
        TerminalId(0)
    }

    /// The hyphenated lowercase text of the identifier.
    pub fn to_text(&self) -> (s: String)
        ensures
            s@ == uuid_hyphenated(self.0),
            uuid_parse(s@) == Some(self.0),
    {
        uuid_text(self.0)
    }

    /// Parse the text of an identifier (`Uuid::parse_str`).
    pub fn parse(text: &str) -> (r: Option<Self>)
        ensures
            r == (match uuid_parse(text@) {
                Some(v) => Some(TerminalId(v)),
                None => None,
            }),
    {
        match parse_uuid(text) {
            Some(v) => Some(TerminalId(v)),
            None => None,
        }
    }
}

/// An invite, identified by a UUID held as its 128-bit value.
#[derive(Debug, Clone, Copy, PartialEq, Eq, Hash, Structural)]
pub struct InviteId(pub u128);

impl InviteId {
    /// A fresh random (version 4) identifier, or `None` where the operating
    /// system's random source fails.
    pub fn new() -> (r: Option<Self>)
        ensures
            r matches Some(x) ==> is_random_uuid(x.0) && exists|bits: u128| x.0 == spec_v4(bits),
    {
        match random_uuid() {
            Some(v) => Some(InviteId(v)),
            None => None,
        }
    }

    /// The nil identifier (all zero bits).
    pub fn nil() -> (r: Self)
        ensures
            r.0 == 0,
    {
        InviteId(0)
    }

    /// The hyphenated lowercase text of the identifier.
    pub fn to_text(&self) -> (s: String)
        ensures
            s@ == uuid_hyphenated(self.0),
            uuid_parse(s@) == Some(self.0),
    {
        uuid_text(self.0)
    }

    /// Parse the text of an identifier (`Uuid::parse_str`).
    pub fn parse(text: &str) -> (r: Option<Self>)
        ensures
            r == (match uuid_parse(text@) {
                Some(v) => Some(InviteId(v)),
                None => None,
            }),
    {
        match parse_uuid(text) {
            Some(v) => Some(InviteId(v)),
            None => None,
        }
    }
}

/// A session, identified by a UUID held as its 128-bit value.
#[derive(Debug, Clone, Copy, PartialEq, Eq, Hash, Structural)]
pub struct SessionId(pub u128);

impl SessionId {
    /// A fresh random (version 4) identifier, or `None` where the operating
    /// system's random source fails.
    pub fn new() -> (r: Option<Self>)
        ensures
            r matches Some(x) ==> is_random_uuid(x.0) && exists|bits: u128| x.0 == spec_v4(bits),
    {
        match random_uuid() {
            Some(v) => Some(SessionId(v)),
            None => None,
        }
    }

    /// The nil identifier (all zero bits).
    pub fn nil() -> (r: Self)
        ensures
            r.0 == 0,
    {
        SessionId(0)
    }

    /// The hyphenated lowercase text of the identifier.
    pub fn to_text(&self) -> (s: String)
        ensures
            s@ == uuid_hyphenated(self.0),
            uuid_parse(s@) == Some(self.0),
    {
        uuid_text(self.0)
    }

    /// Parse the text of an identifier (`Uuid::parse_str`).
    pub fn parse(text: &str) -> (r: Option<Self>)
        ensures
            r == (match uuid_parse(text@) {
                Some(v) => Some(SessionId(v)),
                None => None,
            }),
    {
        match parse_uuid(text) {
            Some(v) => Some(SessionId(v)),
            None => None,
        }
    }
}


/// Dog-facing intent vocabulary (v1).
#[derive(Debug, Clone, Copy, PartialEq, Eq, Structural)]
pub enum Intent {
    Call,
    Play,
    Again,
    Done,
}

/// Cloud session states (canonical).
#[derive(Debug, Clone, Copy, PartialEq, Eq, Structural)]
pub enum SessionState {
    NoSession,
    InvitePending,
    Ringing,
    Negotiating,
    Active,
    Ending,
    Closed,
    Failed,
}

/// Why a session ended.
#[derive(Debug, Clone, Copy, PartialEq, Eq, Structural)]
pub enum EndReason {
    Done,
    WalkAway,
    SegmentExpired,
    MaxDuration,
    PeerLeft,
    PolicyHalt,
    EmergencyStop,
    Timeout,
    MediaFailed,
    Revoked,
}

/// Kind of contact an invite asks for.
#[derive(Debug, Clone, Copy, PartialEq, Eq, Structural)]
pub enum InviteMode {
    Portal,
    PlayActive,
}

/// Coarse mat force class carried with presence.
#[derive(Debug, Clone, Copy, PartialEq, Eq, Structural)]
pub enum ForceBand {
    Empty,
    Light,
    Medium,
    Heavy,
}

impl ForceBand {
    /// The band of a mat force in tenths of a newton: below 25 N empty,
    /// below 100 N light, below 300 N medium, else heavy.
    pub open spec fn spec_from_deci_newtons(f: u32) -> ForceBand {
        if f < 250 {
            ForceBand::Empty
        } else if f < 1000 {
            ForceBand::Light
        } else if f < 3000 {
            ForceBand::Medium
        } else {
            ForceBand::Heavy
        }
    }

    pub fn from_deci_newtons(f: u32) -> (r: ForceBand)
        ensures
            r == Self::spec_from_deci_newtons(f),
    {
        if f < 250 {
            ForceBand::Empty
        } else if f < 1000 {
            ForceBand::Light
        } else if f < 3000 {
            ForceBand::Medium
        } else {
            ForceBand::Heavy
        }
    }
}

/// A ringing invite from one dog to another.
#[derive(Debug, Clone, Copy, PartialEq, Eq, Structural)]
pub struct Invite {
    pub id: InviteId,
    pub from_dog: DogId,
    pub to_dog: DogId,
    pub mode: InviteMode,
    pub state: SessionState,
    /// Creation time (ms since the epoch).
    pub created_at: i64,
    /// Time at which the invite stops ringing (ms since the epoch).
    pub expires_at: i64,
}

/// The lure a callee terminal plays while an invite rings.
#[derive(Debug, Clone)]
pub struct LureConfig {
    pub max_repeats: u32,
    pub audio_ms: u32,
    pub led_pattern: String,
}

impl LureConfig {
    /// Whether `l` is the default lure: three repeats of a 2 s sound with a
    /// slow blue pulse.
    pub open spec fn is_default(l: LureConfig) -> bool {
        &&& l.max_repeats == 3
        &&& l.audio_ms == 2000
        &&& l.led_pattern@ == "slow_pulse_blue"@
    }
}

impl Default for LureConfig {
    fn default() -> (r: Self)
        ensures
            LureConfig::is_default(r),
    {
        LureConfig { max_repeats: 3, audio_ms: 2000, led_pattern: String::from_str("slow_pulse_blue") }
    }
}

/// A ringing invite offered to its callee, with the lure to play.
#[derive(Debug, Clone)]
pub struct IncomingInviteOffer {
    pub invite: Invite,
    pub lure: LureConfig,
}

/// A session between two dogs; `dog_a` is the caller and the WebRTC offerer.
#[derive(Debug, Clone, Copy, PartialEq, Eq, Structural)]
pub struct SessionRecord {
    pub id: SessionId,
    pub invite_id: InviteId,
    pub dog_a: DogId,
    pub dog_b: DogId,
    pub mode: InviteMode,
    pub state: SessionState,
    /// Start time (ms since the epoch).
    pub started_at: i64,
    /// Hard end (ms since the epoch).
    pub max_end_at: i64,
    /// Soft segment deadline (ms since the epoch).
    pub segment_deadline_at: i64,
}

/// A presence report from a terminal.
#[derive(Debug, Clone, Copy, PartialEq, Eq, Structural)]
pub struct PresenceReport {
    pub dog_id: DogId,
    pub terminal_id: TerminalId,
    pub present: bool,
    /// Confidence in hundredths (0..=100).
    pub confidence_pct: u8,
    pub force_band: ForceBand,
    /// Mat force in tenths of a newton.
    pub force_deci_n: u32,
    pub tof_mm: Option<u16>,
    /// Report time (ms since the epoch).
    pub ts: i64,
    pub seq: u64,
}

/// The cloud's view of one dog's presence at a given time.
#[derive(Debug, Clone, Copy, PartialEq, Eq, Structural)]
pub struct PresenceView {
    pub dog_id: DogId,
    pub terminal_id: TerminalId,
    pub present: bool,
    /// Confidence in hundredths (0..=100).
    pub confidence_pct: u8,
    pub force_band: ForceBand,
    /// Time of the last report (ms since the epoch).
    pub last_seen: i64,
    pub seq: u64,
}

/// ICE servers and TURN credentials handed to a terminal.
#[derive(Debug, Clone)]
pub struct IceConfig {
    pub stun_urls: Vec<String>,
    pub turn_uris: Vec<String>,
    pub turn_username: String,
    pub turn_credential: String,
    pub ttl_sec: u64,
}

pub fn scaffold_ok() -> (r: bool)
    ensures
        r,
{
    true
}

/// The stored text of an invite mode.
pub open spec fn mode_text(m: InviteMode) -> Seq<char> {
    match m {
        InviteMode::Portal => "portal"@,
        InviteMode::PlayActive => "play_active"@,
    }
}

/// The stored text of a session state.
pub open spec fn state_text(s: SessionState) -> Seq<char> {
    match s {
        SessionState::NoSession => "none"@,
        SessionState::InvitePending => "invite_pending"@,
        SessionState::Ringing => "ringing"@,
        SessionState::Negotiating => "negotiating"@,
        SessionState::Active => "active"@,
        SessionState::Ending => "ending"@,
        SessionState::Closed => "closed"@,
        SessionState::Failed => "failed"@,
    }
}

/// The invite mode a stored text names; anything but "play_active" reads as
/// `Portal`.
pub open spec fn spec_parse_mode(s: Seq<char>) -> InviteMode {
    if s == "play_active"@ {
        InviteMode::PlayActive
    } else {
        InviteMode::Portal
    }
}

/// The session state a stored text names; unknown text reads as `NoSession`.
pub open spec fn spec_parse_state(s: Seq<char>) -> SessionState {
    if s == "invite_pending"@ {
        SessionState::InvitePending
    } else if s == "ringing"@ {
        SessionState::Ringing
    } else if s == "negotiating"@ {
        SessionState::Negotiating
    } else if s == "active"@ {
        SessionState::Active
    } else if s == "ending"@ {
        SessionState::Ending
    } else if s == "closed"@ {
        SessionState::Closed
    } else if s == "failed"@ {
        SessionState::Failed
    } else {
        SessionState::NoSession
    }
}

pub fn parse_mode(s: &str) -> (m: InviteMode)
    ensures
        m == spec_parse_mode(s@),
{
    if text_is(s, "play_active") {
        InviteMode::PlayActive
    } else {
        InviteMode::Portal
    }
}

pub fn parse_state(s: &str) -> (r: SessionState)
    ensures
        r == spec_parse_state(s@),
{
    if text_is(s, "invite_pending") {
        SessionState::InvitePending
    } else if text_is(s, "ringing") {
        SessionState::Ringing
    } else if text_is(s, "negotiating") {
        SessionState::Negotiating
    } else if text_is(s, "active") {
        SessionState::Active
    } else if text_is(s, "ending") {
        SessionState::Ending
    } else if text_is(s, "closed") {
        SessionState::Closed
    } else if text_is(s, "failed") {
        SessionState::Failed
    } else {
        SessionState::NoSession
    }
}

pub fn mode_str(m: InviteMode) -> (r: &'static str)
    ensures
        r@ == mode_text(m),
{
    match m {
        InviteMode::Portal => "portal",
        InviteMode::PlayActive => "play_active",
    }
}

pub fn state_str(s: SessionState) -> (r: &'static str)
    ensures
        r@ == state_text(s),
{
    match s {
        SessionState::NoSession => "none",
        SessionState::InvitePending => "invite_pending",
        SessionState::Ringing => "ringing",
        SessionState::Negotiating => "negotiating",
        SessionState::Active => "active",
        SessionState::Ending => "ending",
        SessionState::Closed => "closed",
        SessionState::Failed => "failed",
    }
}

/// Reading back the stored text of a mode or a state gives it back.
pub proof fn lemma_stored_text_roundtrip(m: InviteMode, s: SessionState)
    ensures
        spec_parse_mode(mode_text(m)) == m,
        spec_parse_state(state_text(s)) == s,
{
    reveal_strlit("portal");
    assert("portal"@.len() == 6 && "portal"@[0] == 'p');
    reveal_strlit("play_active");
    assert("play_active"@.len() == 11 && "play_active"@[0] == 'p');
    reveal_strlit("none");
    assert("none"@.len() == 4 && "none"@[0] == 'n');
    reveal_strlit("invite_pending");
    assert("invite_pending"@.len() == 14 && "invite_pending"@[0] == 'i');
    reveal_strlit("ringing");
    assert("ringing"@.len() == 7 && "ringing"@[0] == 'r');
    reveal_strlit("negotiating");
    assert("negotiating"@.len() == 11 && "negotiating"@[0] == 'n');
    reveal_strlit("active");
    assert("active"@.len() == 6 && "active"@[0] == 'a');
    reveal_strlit("ending");
    assert("ending"@.len() == 6 && "ending"@[0] == 'e');
    reveal_strlit("closed");
    assert("closed"@.len() == 6 && "closed"@[0] == 'c');
    reveal_strlit("failed");
    assert("failed"@.len() == 6 && "failed"@[0] == 'f');
}

} // verus!
