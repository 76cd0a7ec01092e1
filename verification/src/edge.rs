//! Edge agent: the terminal's control-plane state machine. The caller runs
//! the HTTP exchanges with the device API; each exchange is opened by a
//! method that decides whether and what to send and closed by a method that
//! takes the reply and moves the state on.
use crate::auth::auth_header_text;
use crate::ice::saturating_add;
use crate::mcu::{drain_frames, frames_view, ButtonPayload, Frame, FrameDecoder, MsgType};
use crate::presence::PresenceConfig;
use crate::presence::PresenceFilter;
use crate::protocol::{
    DogId, ForceBand, Intent, Invite, PresenceReport, SessionRecord, SessionState, TerminalId,
};
use crate::sense::{feed, sense_samples, snapshots, SensePipeline, SenseSnapshot};
use crate::text::{chars_of, string_from_chars};
use vstd::prelude::*;

verus! {

/// Where the terminal talks to and who it is.
#[derive(Debug, Clone)]
pub struct EdgeConfig {
    pub api_base: String,
    pub terminal_id: TerminalId,
    pub dog_id: DogId,
    pub token: String,
    pub publish_ms: u64,
}

impl EdgeConfig {
    /// The `Authorization` header of the terminal's requests.
    pub fn auth_header(&self) -> (r: String)
        ensures
            r@ == auth_header_text(self.terminal_id, self.token@),
    {
        let mut v = chars_of("Device ");
        let mut t = chars_of(self.terminal_id.to_text().as_str());
        v.append(&mut t);
        v.push(':');
        let mut k = chars_of(self.token.as_str());
        v.append(&mut k);
        proof {
            reveal_strlit("Device ");
            reveal_strlit(":");
        }
        assert(v@ =~= auth_header_text(self.terminal_id, self.token@));
        string_from_chars(&v)
    }
}

/// What the terminal shows and does.
#[derive(Debug, Clone, Copy, PartialEq, Eq, Structural)]
pub enum EdgeUx {
    IdleEmpty,
    IdlePresent,
    Inviting,
    RingingOut,
    RingingIn,
    Negotiating,
    InSession,
    Halted,
}

/// What the agent reads of the remote configuration.
#[derive(Debug, Clone, Copy, PartialEq, Eq, Structural)]
pub struct EdgeRemoteConfig {
    pub emergency_stop: bool,
    pub social_disabled: bool,
}

/// The intent of a button pad: 0 Call, 1 Play, 2 Again, 3 Done.
pub open spec fn spec_pad_intent(pad: u8) -> Option<Intent> {
    if pad == 0 {
        Some(Intent::Call)
    } else if pad == 1 {
        Some(Intent::Play)
    } else if pad == 2 {
        Some(Intent::Again)
    } else if pad == 3 {
        Some(Intent::Done)
    } else {
        None
    }
}

pub fn pad_to_intent(pad: u8) -> (r: Option<Intent>)
    ensures
        r == spec_pad_intent(pad),
{
    match pad {
        0 => Some(Intent::Call),
        1 => Some(Intent::Play),
        2 => Some(Intent::Again),
        3 => Some(Intent::Done),
        _ => None,
    }
}

/// The intents that a run of decoded frames carries, in order: one per
/// button press (event 1) on a known pad.
pub open spec fn button_intents(frames: Seq<(MsgType, Seq<u8>)>) -> Seq<Intent>
    decreases frames.len(),
{
    if frames.len() == 0 {
        Seq::empty()
    } else {
        let rest = button_intents(frames.drop_last());
        let f = frames.last();
        if f.0 == MsgType::Button && f.1.len() >= 4 {
            let b = ButtonPayload::spec_parse(f.1);
            if b.event == 1 && spec_pad_intent(b.pad) is Some {
                rest.push(spec_pad_intent(b.pad)->Some_0)
            } else {
                rest
            }
        } else {
            rest
        }
    }
}

/// Whether social contact may be armed: the dog is present, the remote
/// configuration (if any) holds no emergency stop and does not disable
/// social, and the terminal is not halted.
pub open spec fn armed_formula(present: bool, remote: Option<EdgeRemoteConfig>, ux: EdgeUx) -> bool {
    &&& present
    &&& !(remote matches Some(c) && c.emergency_stop)
    &&& !(remote matches Some(c) && c.social_disabled)
    &&& ux != EdgeUx::Halted
}

/// The display state and held offer after local presence is `present`:
/// arrival wakes an empty terminal, departure empties an idle one and drops
/// a ringing-in lure.
pub open spec fn refreshed(present: bool, ux: EdgeUx, offer: Option<Invite>) -> (EdgeUx, Option<Invite>) {
    if present && ux == EdgeUx::IdleEmpty {
        (EdgeUx::IdlePresent, offer)
    } else if !present && ux == EdgeUx::IdlePresent {
        (EdgeUx::IdleEmpty, offer)
    } else if !present && ux == EdgeUx::RingingIn {
        (EdgeUx::IdleEmpty, None)
    } else {
        (ux, offer)
    }
}

/// How the display follows local presence. A terminal whose dog is absent
/// never shows a present idle dog and never rings in: a lure that was
/// ringing when the dog left is dropped together with its offer. A terminal
/// whose dog is present never shows an empty mat. Only the idle states and
/// a ringing-in lure react to presence; every other state, and any offer
/// held outside a departure from a lure, is kept.
pub proof fn lemma_display_follows_presence(present: bool, ux: EdgeUx, offer: Option<Invite>)
    ensures
        ({
            let (ux2, offer2) = refreshed(present, ux, offer);
            &&& !present ==> ux2 != EdgeUx::RingingIn && ux2 != EdgeUx::IdlePresent
            &&& !present && ux == EdgeUx::RingingIn ==> offer2 is None
            &&& present ==> ux2 != EdgeUx::IdleEmpty
            &&& ux2 != ux ==> (ux2 == EdgeUx::IdleEmpty || ux2 == EdgeUx::IdlePresent)
            &&& ux2 != ux ==> (ux == EdgeUx::IdleEmpty || ux == EdgeUx::IdlePresent || ux
                == EdgeUx::RingingIn)
            &&& offer2 != offer ==> (offer2 is None && ux == EdgeUx::RingingIn && !present)
            &&& present && ux == EdgeUx::RingingIn ==> ux2 == EdgeUx::RingingIn && offer2 == offer
        }),
{
}

/// The terminal's control-plane state.
#[derive(Debug)]
pub struct EdgeAgent {
    pub cfg: EdgeConfig,
    pub sense: SensePipeline,
    seq: u64,
    pub ux: EdgeUx,
    pub last_offer: Option<Invite>,
    pub session: Option<SessionRecord>,
    pub remote_config: Option<EdgeRemoteConfig>,
    decoder: FrameDecoder,
    pub social_armed: bool,
}

impl EdgeAgent {
    pub closed spec fn config(&self) -> EdgeConfig {
        self.cfg
    }

    pub closed spec fn pipeline(&self) -> SensePipeline {
        self.sense
    }

    /// The sequence number of the last presence report.
    pub closed spec fn report_seq(&self) -> u64 {
        self.seq
    }

    pub closed spec fn ux_state(&self) -> EdgeUx {
        self.ux
    }

    pub closed spec fn offer(&self) -> Option<Invite> {
        self.last_offer
    }

    pub closed spec fn current(&self) -> Option<SessionRecord> {
        self.session
    }

    pub closed spec fn remote(&self) -> Option<EdgeRemoteConfig> {
        self.remote_config
    }

    /// The bytes waiting in the agent's own button decoder.
    pub closed spec fn button_buffer(&self) -> Seq<u8> {
        self.decoder.buffered()
    }

    pub closed spec fn armed(&self) -> bool {
        self.social_armed
    }

    /// Whether the local presence filter shows the dog present.
    pub open spec fn present(&self) -> bool {
        self.pipeline().state().present
    }

    /// Social contact is armed only when `armed_formula` holds.
    pub open spec fn safe(&self) -> bool {
        self.armed() ==> armed_formula(self.present(), self.remote(), self.ux_state())
    }

    /// A fresh agent: nothing sensed, idle and empty, no session; social
    /// starts armed until the first sample or configuration.
    pub fn new(cfg: EdgeConfig) -> (r: Self)
        ensures
            r.config() == cfg,
            r.pipeline().buffered() == Seq::<u8>::empty(),
            r.pipeline().config() == PresenceConfig::spec_default(),
            r.pipeline().state() == PresenceFilter::initial_state(),
            r.pipeline().clock() == 0,
            r.report_seq() == 0,
            r.ux_state() == EdgeUx::IdleEmpty,
            r.offer() is None,
            r.current() is None,
            r.remote() is None,
            r.button_buffer() == Seq::<u8>::empty(),
            r.armed(),
    {
        EdgeAgent {
            cfg,
            sense: SensePipeline::new(),
            seq: 0,
            ux: EdgeUx::IdleEmpty,
            last_offer: None,
            session: None,
            remote_config: None,
            decoder: FrameDecoder::new(),
            social_armed: true,
        }
    }

    fn recompute_armed(&mut self)
        ensures
            final(self).armed() == armed_formula(old(self).present(), old(self).remote(), old(self).ux_state()),
            final(self).config() == old(self).config(),
            final(self).pipeline() == old(self).pipeline(),
            final(self).report_seq() == old(self).report_seq(),
            final(self).ux_state() == old(self).ux_state(),
            final(self).offer() == old(self).offer(),
            final(self).current() == old(self).current(),
            final(self).remote() == old(self).remote(),
            final(self).button_buffer() == old(self).button_buffer(),
    {
        let present = self.sense.filter().present();
        let estop = match self.remote_config {
            Some(c) => c.emergency_stop,
            None => false,
        };
        let disabled = match self.remote_config {
            Some(c) => c.social_disabled,
            None => false,
        };
        self.social_armed = present && !estop && !disabled && self.ux != EdgeUx::Halted;
    }

    fn refresh_ux_from_presence(&mut self)
        ensures
            (final(self).ux_state(), final(self).offer()) == refreshed(
                old(self).present(),
                old(self).ux_state(),
                old(self).offer(),
            ),
            final(self).armed() == armed_formula(
                old(self).present(),
                old(self).remote(),
                final(self).ux_state(),
            ),
            final(self).config() == old(self).config(),
            final(self).pipeline() == old(self).pipeline(),
            final(self).report_seq() == old(self).report_seq(),
            final(self).current() == old(self).current(),
            final(self).remote() == old(self).remote(),
            final(self).button_buffer() == old(self).button_buffer(),
    {
        let present = self.sense.filter().present();
        if present && self.ux == EdgeUx::IdleEmpty {
            self.ux = EdgeUx::IdlePresent;
        } else if !present && self.ux == EdgeUx::IdlePresent {
            self.ux = EdgeUx::IdleEmpty;
        } else if !present && self.ux == EdgeUx::RingingIn {
            self.ux = EdgeUx::IdleEmpty;
            self.last_offer = None;
        }
        self.recompute_armed();
    }

    /// Feed UART bytes: the sense pipeline takes them (see
    /// `SensePipeline::push_bytes`), the display follows presence, social
    /// arming is recomputed, and the agent's own decoder reads the button
    /// presses in them as intents.
    pub fn ingest_uart(&mut self, bytes: &[u8], dt_ms: u64) -> (r: (Vec<SenseSnapshot>, Vec<Intent>))
        ensures
            final(self).pipeline().clock() == saturating_add(old(self).pipeline().clock(), dt_ms),
            final(self).pipeline().buffered() == drain_frames(old(self).pipeline().buffered() + bytes@).0,
            final(self).pipeline().config() == old(self).pipeline().config(),
            ({
                let samples = sense_samples(
                    drain_frames(old(self).pipeline().buffered() + bytes@).1,
                    final(self).pipeline().clock(),
                );
                &&& final(self).pipeline().state() == feed(
                    old(self).pipeline().config(),
                    old(self).pipeline().state(),
                    samples,
                )
                &&& r.0@ == snapshots(
                    old(self).pipeline().config(),
                    old(self).pipeline().state(),
                    samples,
                )
            }),
            (final(self).ux_state(), final(self).offer()) == refreshed(
                final(self).present(),
                old(self).ux_state(),
                old(self).offer(),
            ),
            final(self).armed() == armed_formula(
                final(self).present(),
                final(self).remote(),
                final(self).ux_state(),
            ),
            final(self).button_buffer() == drain_frames(old(self).button_buffer() + bytes@).0,
            r.1@ == button_intents(drain_frames(old(self).button_buffer() + bytes@).1),
            final(self).config() == old(self).config(),
            final(self).report_seq() == old(self).report_seq(),
            final(self).current() == old(self).current(),
            final(self).remote() == old(self).remote(),
            !final(self).present() ==> final(self).ux_state() != EdgeUx::RingingIn,
            !final(self).present() && old(self).ux_state() == EdgeUx::RingingIn
                ==> final(self).offer() is None,
            final(self).safe(),
    {
        let snaps = self.sense.push_bytes(bytes, dt_ms);
        self.refresh_ux_from_presence();
        let frames: Vec<Frame> = self.decoder.push(bytes);
        let ghost fv = frames_view(frames@);
        let mut intents: Vec<Intent> = Vec::new();
        let mut i: usize = 0;
        while i < frames.len()
            invariant
                i <= frames@.len(),
                fv == frames_view(frames@),
                fv.len() == frames@.len(),
                intents@ == button_intents(fv.take(i as int)),
            decreases frames@.len() - i,
        {
            assert(fv.take(i + 1).drop_last() =~= fv.take(i as int));
            assert(fv.take(i + 1).last() == frames@[i as int].view());
            let fr = &frames[i];
            if fr.msg == MsgType::Button {
                match ButtonPayload::from_bytes(fr.payload.as_slice()) {
                    Some(b) => {
                        if b.event == 1 {
                            match pad_to_intent(b.pad) {
                                Some(it) => {
                                    intents.push(it);
                                },
                                None => {},
                            }
                        }
                    },
                    None => {},
                }
            }
            i = i + 1;
        }
        assert(fv.take(frames@.len() as int) =~= fv);
        (snaps, intents)
    }

    /// Inject one sample directly (for emulators that skip the UART), then
    /// follow presence as `ingest_uart` does.
    pub fn ingest_sample(&mut self, force_deci_n: u32, tof_mm: Option<u16>, motion: bool, dt_ms: u64) -> (r:
        SenseSnapshot)
        ensures
            final(self).pipeline().clock() == saturating_add(old(self).pipeline().clock(), dt_ms),
            final(self).pipeline().buffered() == old(self).pipeline().buffered(),
            final(self).pipeline().config() == old(self).pipeline().config(),
            final(self).pipeline().state() == crate::presence::next_state(
                old(self).pipeline().config(),
                old(self).pipeline().state(),
                crate::presence::SenseSample {
                    force_deci_n,
                    tof_mm,
                    motion,
                    t_ms: final(self).pipeline().clock(),
                },
            ),
            r == crate::sense::snapshot_of(old(self).pipeline().state(), final(self).pipeline().state()),
            (final(self).ux_state(), final(self).offer()) == refreshed(
                final(self).present(),
                old(self).ux_state(),
                old(self).offer(),
            ),
            final(self).armed() == armed_formula(
                final(self).present(),
                final(self).remote(),
                final(self).ux_state(),
            ),
            final(self).button_buffer() == old(self).button_buffer(),
            final(self).config() == old(self).config(),
            final(self).report_seq() == old(self).report_seq(),
            final(self).current() == old(self).current(),
            final(self).remote() == old(self).remote(),
            !final(self).present() ==> final(self).ux_state() != EdgeUx::RingingIn,
            !final(self).present() && old(self).ux_state() == EdgeUx::RingingIn
                ==> final(self).offer() is None,
            final(self).safe(),
    {
        let snap = self.sense.push_sample(force_deci_n, tof_mm, motion, dt_ms);
        self.refresh_ux_from_presence();
        snap
    }

    /// The next presence report, stamped `ts_ms`, with the next sequence
    /// number.
    pub fn next_report(&mut self, ts_ms: i64) -> (r: PresenceReport)
        requires
            old(self).report_seq() < u64::MAX,
        ensures
            final(self).report_seq() == old(self).report_seq() + 1,
            r == (PresenceReport {
                dog_id: old(self).config().dog_id,
                terminal_id: old(self).config().terminal_id,
                present: old(self).present(),
                confidence_pct: old(self).pipeline().state().confidence_pct,
                force_band: ForceBand::spec_from_deci_newtons(
                    old(self).pipeline().state().last_force_deci_n,
                ),
                force_deci_n: old(self).pipeline().state().last_force_deci_n,
                tof_mm: old(self).pipeline().state().last_tof,
                ts: ts_ms,
                seq: final(self).report_seq(),
            }),
            final(self).config() == old(self).config(),
            final(self).pipeline() == old(self).pipeline(),
            final(self).ux_state() == old(self).ux_state(),
            final(self).offer() == old(self).offer(),
            final(self).current() == old(self).current(),
            final(self).remote() == old(self).remote(),
            final(self).button_buffer() == old(self).button_buffer(),
            final(self).armed() == old(self).armed(),
    {
        self.seq = self.seq + 1;
        let f = self.sense.filter();
        PresenceReport {
            dog_id: self.cfg.dog_id,
            terminal_id: self.cfg.terminal_id,
            present: f.present(),
            confidence_pct: f.confidence_pct(),
            force_band: f.force_band(),
            force_deci_n: f.last_force_deci_n(),
            tof_mm: f.last_tof_mm(),
            ts: ts_ms,
            seq: self.seq,
        }
    }
}

/// Why an exchange with the device API cannot start.
#[derive(Debug, Clone, Copy, PartialEq, Eq, Structural)]
pub enum EdgeError {
    NotArmed,
    NoOffer,
    NoSession,
}

impl EdgeError {
    /// The message text of an error, as characters.
    pub open spec fn text(self) -> Seq<char> {
        match self {
            EdgeError::NotArmed => "social not armed"@,
            EdgeError::NoOffer => "no offer"@,
            EdgeError::NoSession => "no session"@,
        }
    }

    /// The message text of the error.
    pub fn message(&self) -> (r: &'static str)
        ensures
            r@ == self.text(),
    {
        match self {
            EdgeError::NotArmed => "social not armed",
            EdgeError::NoOffer => "no offer",
            EdgeError::NoSession => "no session",
        }
    }
}

/// What a pad intent asks of the agent.
#[derive(Debug, Clone, Copy, PartialEq, Eq, Structural)]
pub enum EdgeAction {
    /// Ring a peer (`POST /v1/invites`).
    Call,
    /// Accept the held offer.
    Accept,
    /// Extend the session segment.
    Again,
    /// End the session with reason Done.
    End,
    Ignore,
}

/// The action of `intent` in display state `ux`: Call or Play on an idle
/// terminal with a present dog rings out when social is armed; any pad
/// accepts a ringing-in offer; Again extends a session; Done ends a session
/// or a negotiation; anything else is ignored.
pub open spec fn spec_decide(intent: Intent, ux: EdgeUx, armed: bool) -> EdgeAction {
    if (intent == Intent::Call || intent == Intent::Play) && ux == EdgeUx::IdlePresent && armed {
        EdgeAction::Call
    } else if ux == EdgeUx::RingingIn {
        EdgeAction::Accept
    } else if intent == Intent::Again && ux == EdgeUx::InSession {
        EdgeAction::Again
    } else if intent == Intent::Done && (ux == EdgeUx::InSession || ux == EdgeUx::Negotiating) {
        EdgeAction::End
    } else {
        EdgeAction::Ignore
    }
}

/// The display state once a session ends locally.
pub open spec fn idle_for(present: bool) -> EdgeUx {
    if present {
        EdgeUx::IdlePresent
    } else {
        EdgeUx::IdleEmpty
    }
}

impl EdgeAgent {
    /// Whether `after` keeps the configuration, sensing and report counter
    /// of `before`.
    pub open spec fn keeps_sensing(before: EdgeAgent, after: EdgeAgent) -> bool {
        &&& after.config() == before.config()
        &&& after.pipeline() == before.pipeline()
        &&& after.report_seq() == before.report_seq()
        &&& after.button_buffer() == before.button_buffer()
    }

    pub fn decide_intent(&self, intent: Intent) -> (r: EdgeAction)
        ensures
            r == spec_decide(intent, self.ux_state(), self.armed()),
    {
        if (intent == Intent::Call || intent == Intent::Play) && self.ux == EdgeUx::IdlePresent
            && self.social_armed {
            EdgeAction::Call
        } else if self.ux == EdgeUx::RingingIn {
            EdgeAction::Accept
        } else if intent == Intent::Again && self.ux == EdgeUx::InSession {
            EdgeAction::Again
        } else if intent == Intent::Done && (self.ux == EdgeUx::InSession || self.ux
            == EdgeUx::Negotiating) {
            EdgeAction::End
        } else {
            EdgeAction::Ignore
        }
    }

    /// Open a call: refused unless social is armed; else the terminal shows
    /// Inviting while the invite is sent.
    pub fn begin_call(&mut self) -> (r: Result<(), EdgeError>)
        ensures
            !old(self).armed() ==> r == Err::<(), EdgeError>(EdgeError::NotArmed) && *final(self)
                == *old(self),
            old(self).armed() ==> {
                &&& r is Ok
                &&& final(self).ux_state() == EdgeUx::Inviting
                &&& Self::keeps_sensing(*old(self), *final(self))
                &&& final(self).offer() == old(self).offer()
                &&& final(self).current() == old(self).current()
                &&& final(self).remote() == old(self).remote()
                &&& final(self).armed() == old(self).armed()
            },
            old(self).safe() ==> final(self).safe(),
    {
        if !self.social_armed {
            return Err(EdgeError::NotArmed);
        }
        self.ux = EdgeUx::Inviting;
        Ok(())
    }

    /// The device API's answer to an invite: ringing out when it was
    /// created, back to idle-present when refused.
    pub fn call_answered(&mut self, created: bool)
        ensures
            final(self).ux_state() == (if created {
                EdgeUx::RingingOut
            } else {
                EdgeUx::IdlePresent
            }),
            Self::keeps_sensing(*old(self), *final(self)),
            final(self).offer() == old(self).offer(),
            final(self).current() == old(self).current(),
            final(self).remote() == old(self).remote(),
            final(self).armed() == old(self).armed(),
            old(self).safe() ==> final(self).safe(),
    {
        self.ux = if created {
            EdgeUx::RingingOut
        } else {
            EdgeUx::IdlePresent
        };
    }

    /// Whether to ask for an incoming offer: when armed or already ringing in.
    pub fn may_poll(&self) -> (r: bool)
        ensures
            r == (self.armed() || self.ux_state() == EdgeUx::RingingIn),
    {
        self.social_armed || self.ux == EdgeUx::RingingIn
    }

    /// An answer to the incoming-offer poll. Where polling is allowed and an
    /// offer came while the terminal is not ringing out, negotiating or in a
    /// session, the terminal rings in and holds the offer.
    pub fn offer_received(&mut self, offer: Option<Invite>)
        ensures
            ({
                let takes = (old(self).armed() || old(self).ux_state() == EdgeUx::RingingIn)
                    && offer is Some && old(self).ux_state() != EdgeUx::RingingOut
                    && old(self).ux_state() != EdgeUx::InSession && old(self).ux_state()
                    != EdgeUx::Negotiating;
                &&& takes ==> final(self).ux_state() == EdgeUx::RingingIn && final(self).offer()
                    == offer
                &&& !takes ==> *final(self) == *old(self)
            }),
            Self::keeps_sensing(*old(self), *final(self)),
            final(self).current() == old(self).current(),
            final(self).remote() == old(self).remote(),
            final(self).armed() == old(self).armed(),
            old(self).safe() ==> final(self).safe(),
    {
        if !self.social_armed && self.ux != EdgeUx::RingingIn {
            return;
        }
        if let Some(o) = offer {
            if self.ux != EdgeUx::RingingOut && self.ux != EdgeUx::InSession && self.ux
                != EdgeUx::Negotiating {
                self.ux = EdgeUx::RingingIn;
                self.last_offer = Some(o);
            }
        }
    }

    /// The offer to accept, if one is held.
    pub fn pending_offer(&self) -> (r: Result<Invite, EdgeError>)
        ensures
            r == (match self.offer() {
                Some(o) => Ok::<Invite, EdgeError>(o),
                None => Err(EdgeError::NoOffer),
            }),
    {
        match self.last_offer {
            Some(o) => Ok(o),
            None => Err(EdgeError::NoOffer),
        }
    }

    /// The device API accepted the offer: the session is held, the offer
    /// dropped, and media negotiation starts.
    pub fn accepted(&mut self, s: SessionRecord)
        ensures
            final(self).current() == Some(s),
            final(self).offer() is None,
            final(self).ux_state() == EdgeUx::Negotiating,
            Self::keeps_sensing(*old(self), *final(self)),
            final(self).remote() == old(self).remote(),
            final(self).armed() == old(self).armed(),
            old(self).safe() ==> final(self).safe(),
    {
        self.session = Some(s);
        self.last_offer = None;
        self.ux = EdgeUx::Negotiating;
    }

    /// The session the terminal is in, if any.
    pub fn current_session(&self) -> (r: Result<SessionRecord, EdgeError>)
        ensures
            r == (match self.current() {
                Some(s) => Ok::<SessionRecord, EdgeError>(s),
                None => Err(EdgeError::NoSession),
            }),
    {
        match self.session {
            Some(s) => Ok(s),
            None => Err(EdgeError::NoSession),
        }
    }

    /// The device API's answer to a media-ready report: a returned session
    /// replaces the held one, and the terminal is in session once it is
    /// Active or both sides are ready.
    pub fn media_ready_answered(&mut self, s: Option<SessionRecord>, both_ready: bool)
        ensures
            match s {
                None => *final(self) == *old(self),
                Some(x) => {
                    &&& final(self).current() == Some(x)
                    &&& final(self).ux_state() == (if x.state == SessionState::Active || both_ready {
                        EdgeUx::InSession
                    } else {
                        old(self).ux_state()
                    })
                    &&& final(self).offer() == old(self).offer()
                },
            },
            Self::keeps_sensing(*old(self), *final(self)),
            final(self).remote() == old(self).remote(),
            final(self).armed() == old(self).armed(),
            old(self).safe() ==> final(self).safe(),
    {
        if let Some(x) = s {
            self.session = Some(x);
            if x.state == SessionState::Active || both_ready {
                self.ux = EdgeUx::InSession;
            }
        }
    }

    /// The device API's answer to Again: a returned session (with its
    /// extended segment) replaces the held one.
    pub fn again_answered(&mut self, s: Option<SessionRecord>)
        ensures
            match s {
                None => *final(self) == *old(self),
                Some(x) => final(self).current() == Some(x) && final(self).ux_state() == old(self).ux_state() && final(self).offer() == old(self).offer(),
            },
            Self::keeps_sensing(*old(self), *final(self)),
            final(self).remote() == old(self).remote(),
            final(self).armed() == old(self).armed(),
            old(self).safe() ==> final(self).safe(),
    {
        if let Some(x) = s {
            self.session = Some(x);
        }
    }

    /// End the held session locally (the end request's outcome does not
    /// matter): the terminal goes idle, present or empty as sensed. Gives
    /// the session to report as ended, if one was held.
    pub fn end_local(&mut self) -> (r: Option<SessionRecord>)
        ensures
            r == old(self).current(),
            old(self).current() is None ==> *final(self) == *old(self),
            old(self).current() is Some ==> final(self).current() is None && final(self).ux_state()
                == idle_for(old(self).present()) && final(self).offer() == old(self).offer(),
            Self::keeps_sensing(*old(self), *final(self)),
            final(self).remote() == old(self).remote(),
            final(self).armed() == old(self).armed(),
            old(self).safe() ==> final(self).safe(),
    {
        let s = self.session;
        if s.is_some() {
            self.session = None;
            self.ux = if self.sense.filter().present() {
                EdgeUx::IdlePresent
            } else {
                EdgeUx::IdleEmpty
            };
        }
        s
    }

    /// The device API's answer to the active-session query: a session found
    /// is held, and the terminal is in session when it is Active, else
    /// negotiating. Gives whether media readiness should be reported.
    pub fn sync_answered(&mut self, s: Option<SessionRecord>) -> (r: bool)
        ensures
            match s {
                None => !r && *final(self) == *old(self),
                Some(x) => {
                    &&& final(self).current() == Some(x)
                    &&& final(self).ux_state() == (if x.state == SessionState::Active {
                        EdgeUx::InSession
                    } else {
                        EdgeUx::Negotiating
                    })
                    &&& r == (x.state != SessionState::Active)
                    &&& final(self).offer() == old(self).offer()
                },
            },
            Self::keeps_sensing(*old(self), *final(self)),
            final(self).remote() == old(self).remote(),
            final(self).armed() == old(self).armed(),
            old(self).safe() ==> final(self).safe(),
    {
        match s {
            None => false,
            Some(x) => {
                self.session = Some(x);
                self.ux = if x.state == SessionState::Active {
                    EdgeUx::InSession
                } else {
                    EdgeUx::Negotiating
                };
                self.ux == EdgeUx::Negotiating
            },
        }
    }

    /// Take a remote configuration. An emergency stop halts the terminal
    /// and ends a held session (given back, to report with reason
    /// EmergencyStop, after which the terminal idles as sensed); the
    /// configuration is kept and social arming recomputed.
    pub fn apply_config(&mut self, c: EdgeRemoteConfig) -> (r: Option<SessionRecord>)
        ensures
            r == (if c.emergency_stop {
                old(self).current()
            } else {
                None
            }),
            final(self).remote() == Some(c),
            final(self).ux_state() == (if c.emergency_stop {
                if old(self).current() is Some {
                    idle_for(old(self).present())
                } else {
                    EdgeUx::Halted
                }
            } else {
                old(self).ux_state()
            }),
            final(self).current() == (if c.emergency_stop {
                None
            } else {
                old(self).current()
            }),
            final(self).offer() == old(self).offer(),
            Self::keeps_sensing(*old(self), *final(self)),
            final(self).armed() == armed_formula(
                final(self).present(),
                final(self).remote(),
                final(self).ux_state(),
            ),
            c.emergency_stop ==> !final(self).armed(),
            final(self).safe(),
    {
        let mut ended: Option<SessionRecord> = None;
        if c.emergency_stop {
            self.ux = EdgeUx::Halted;
            if self.session.is_some() {
                ended = self.end_local();
            }
        }
        self.remote_config = Some(c);
        self.recompute_armed();
        ended
    }
}

impl EdgeAgent {
    /// Whether a snapshot reports the dog walking away from a session being
    /// negotiated or held: presence flipped off. Such a session ends with
    /// reason WalkAway.
    pub fn walked_away(&self, snap: &SenseSnapshot) -> (r: bool)
        ensures
            r == (snap.flipped && !snap.present && (self.ux_state() == EdgeUx::InSession
                || self.ux_state() == EdgeUx::Negotiating)),
    {
        snap.flipped && !snap.present && (self.ux == EdgeUx::InSession || self.ux
            == EdgeUx::Negotiating)
    }
}

/// An agent whose arming is safe only asks to ring out when the dog is
/// present, no emergency stop or social-disable is configured, and the
/// terminal is not halted.
pub proof fn lemma_call_needs_presence(a: EdgeAgent, intent: Intent)
    requires
        a.safe(),
        spec_decide(intent, a.ux_state(), a.armed()) == EdgeAction::Call,
    ensures
        armed_formula(a.present(), a.remote(), a.ux_state()),
        a.ux_state() == EdgeUx::IdlePresent,
        intent == Intent::Call || intent == Intent::Play,
{
}

} // verus!
