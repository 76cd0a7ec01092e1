use canislink::api::{
    accept_invite_handler, active_session, cancel_invite, create_invite, dev_enroll,
    end_session, extract_device_token, incoming_invite, media_ready, post_presence,
};
use canislink::auth::{read_device_header, AuthError, SharedSecretAuthority};
use canislink::bond::BondGraph;
use canislink::edge::{EdgeAction, EdgeAgent, EdgeConfig, EdgeError, EdgeRemoteConfig, EdgeUx};
use canislink::ice::turn_rest_credentials;
use canislink::load::{load_into, stored_time_ms, with_utc_offset, SQLITE_DATETIME_FORMAT, BondRow, InviteRow, LoadError, PolicyRow, SessionRow, TerminalRow};
use canislink::mcu::{checksum, encode, ButtonPayload, FrameDecoder, MsgType};
use canislink::mcu_emu::{McuEmu, McuWorld};
use canislink::policy::{extend_segment, session_past_max, session_past_segment, PolicyDeny};
use canislink::presence::still_online;
use canislink::protocol::{
    parse_mode, parse_state, DogId, ForceBand, Intent, InviteId, InviteMode, PresenceReport,
    SessionId, SessionState, TerminalId,
};
use canislink::sense::SensePipeline;
use canislink::session::{invite_at, invite_from, AcceptError, InviteError};
use canislink::steward::parse_bool;
use canislink::store::AppData;

use base64::Engine;
use hmac::Mac;

const NOW: i64 = 1_780_000_000_000;

struct Dog {
    terminal: TerminalId,
    dog: DogId,
    header: String,
}

fn enroll(auth: &SharedSecretAuthority) -> Dog {
    let id = dev_enroll(auth, None, None).unwrap();
    let header = format!("Device {}:{}", id.terminal_id.to_text(), id.token);
    Dog { terminal: id.terminal_id, dog: id.dog_id, header }
}

fn report(d: &Dog, present: bool, seq: u64, ts: i64) -> PresenceReport {
    PresenceReport {
        dog_id: d.dog,
        terminal_id: d.terminal,
        present,
        confidence_pct: 90,
        force_band: ForceBand::Medium,
        force_deci_n: 1000,
        tof_mm: Some(400),
        ts,
        seq,
    }
}

fn setup() -> (AppData, SharedSecretAuthority, Dog, Dog) {
    let mut data = AppData::new();
    let auth = SharedSecretAuthority::new("lab-secret");
    let a = enroll(&auth);
    let b = enroll(&auth);
    data.bonds.bootstrap_mutual(a.dog, b.dog, 750);
    (data, auth, a, b)
}

#[test]
fn token_is_sha256_hex() {
    let auth = SharedSecretAuthority::new("lab-secret");
    let t = TerminalId(1);
    let d = DogId(2);
    let tok = auth.token_for(t, d);
    let mut data: Vec<u8> = b"lab-secret".to_vec();
    data.extend_from_slice(&1u128.to_be_bytes());
    data.extend_from_slice(&2u128.to_be_bytes());
    let expect = hex::encode(<sha2::Sha256 as sha2::Digest>::digest(&data));
    assert_eq!(tok, expect);
    assert_eq!(tok.len(), 64);
}

#[test]
fn header_roundtrip_and_errors() {
    let t = TerminalId::new().unwrap();
    let h = format!("Device {}:abc:def", t.to_text());
    let (t2, tok) = read_device_header(&h).unwrap();
    assert_eq!(t2, t);
    assert_eq!(tok, "abc:def");
    assert_eq!(read_device_header("Bearer x").unwrap_err(), AuthError::Malformed);
    assert_eq!(read_device_header("Device nocolon").unwrap_err(), AuthError::Malformed);
    assert_eq!(read_device_header("Device not-a-uuid:tok").unwrap_err(), AuthError::Malformed);
    assert_eq!(AuthError::Invalid.message(), "unknown or invalid device credentials");
    let e = extract_device_token(None).unwrap_err();
    assert_eq!((e.status, e.error), (401, "unauthorized"));
}

#[test]
fn uuid_text_roundtrip() {
    let d = DogId(0x0123_4567_89ab_cdef_0123_4567_89ab_cdef);
    assert_eq!(d.to_text(), "01234567-89ab-cdef-0123-456789abcdef");
    assert_eq!(DogId::parse("01234567-89ab-cdef-0123-456789abcdef"), Some(d));
    assert_eq!(DogId::parse("nope"), None);
    assert_ne!(DogId::new().unwrap(), DogId::new().unwrap());
}

#[test]
fn presence_post_authorization() {
    let (mut data, auth, a, b) = setup();
    let e = post_presence(&mut data, &auth, None, report(&a, true, 1, NOW), NOW).unwrap_err();
    assert_eq!((e.status, e.error), (401, "unauthorized"));
    let e = post_presence(&mut data, &auth, Some(&b.header), report(&a, true, 1, NOW), NOW).unwrap_err();
    assert_eq!((e.status, e.error), (403, "terminal_id mismatch"));
    let mut forged = report(&a, true, 1, NOW);
    forged.dog_id = b.dog;
    let e = post_presence(&mut data, &auth, Some(&a.header), forged, NOW).unwrap_err();
    assert_eq!((e.status, e.error), (401, "invalid device token"));
    assert!(!data.presence.is_present(a.dog, NOW));
    post_presence(&mut data, &auth, Some(&a.header), report(&a, true, 1, NOW), NOW).unwrap();
    assert!(data.presence.is_present(a.dog, NOW));
    // an older report is ignored
    post_presence(&mut data, &auth, Some(&a.header), report(&a, false, 0, NOW), NOW).unwrap();
    assert!(data.presence.is_present(a.dog, NOW));
    assert_eq!(data.presence.list_present(NOW).len(), 1);
}

#[test]
fn invite_accept_end_flow() {
    let (mut data, auth, a, b) = setup();
    // caller not present
    let e = create_invite(&mut data, &auth, Some(&a.header), a.dog, a.terminal, None, InviteMode::Portal, NOW).unwrap_err();
    assert_eq!((e.status, e.error), (412, "caller not present"));
    post_presence(&mut data, &auth, Some(&a.header), report(&a, true, 1, NOW), NOW).unwrap();
    // peer not present
    let e = create_invite(&mut data, &auth, Some(&a.header), a.dog, a.terminal, None, InviteMode::Portal, NOW).unwrap_err();
    assert_eq!((e.status, e.error), (404, "no eligible present peer"));
    post_presence(&mut data, &auth, Some(&b.header), report(&b, true, 1, NOW), NOW).unwrap();
    // not bonded
    let stranger = DogId::new().unwrap();
    let e = create_invite(&mut data, &auth, Some(&a.header), a.dog, a.terminal, Some(stranger), InviteMode::Portal, NOW).unwrap_err();
    assert_eq!((e.status, e.error), (403, "not mutually bonded"));
    // terminal mismatch
    let e = create_invite(&mut data, &auth, Some(&a.header), a.dog, b.terminal, None, InviteMode::Portal, NOW).unwrap_err();
    assert_eq!((e.status, e.error), (403, "terminal mismatch"));
    let inv = create_invite(&mut data, &auth, Some(&a.header), a.dog, a.terminal, None, InviteMode::Portal, NOW).unwrap();
    assert_eq!(inv.from_dog, a.dog);
    assert_eq!(inv.to_dog, b.dog);
    assert_eq!(inv.state, SessionState::Ringing);
    assert_eq!(inv.created_at, NOW);
    assert_eq!(inv.expires_at, NOW + 25_000);
    let e = create_invite(&mut data, &auth, Some(&a.header), a.dog, a.terminal, None, InviteMode::Portal, NOW).unwrap_err();
    assert_eq!((e.status, e.error), (409, "caller busy"));
    // callee sees it ringing
    let got = incoming_invite(&mut data, &auth, Some(&b.header), b.dog, b.terminal, NOW + 1).unwrap().unwrap();
    assert_eq!(got.invite, inv);
    assert_eq!((got.lure.max_repeats, got.lure.audio_ms), (3, 2000));
    assert_eq!(got.lure.led_pattern, "slow_pulse_blue");
    assert!(incoming_invite(&mut data, &auth, Some(&a.header), a.dog, a.terminal, NOW + 1).unwrap().is_none());
    // caller cannot accept
    let a_text = a.dog.to_text();
    let e = accept_invite_handler(&mut data, &auth, Some(&a.header), inv.id, Some(&a_text), None, NOW + 2).unwrap_err();
    assert_eq!((e.status, e.error), (412, "not the callee"));
    let e = accept_invite_handler(&mut data, &auth, Some(&b.header), inv.id, None, None, NOW + 2).unwrap_err();
    assert_eq!((e.status, e.error), (400, "dog_id required"));
    let b_text = b.dog.to_text();
    let e = accept_invite_handler(&mut data, &auth, Some(&b.header), InviteId(7), Some(&b_text), None, NOW + 2).unwrap_err();
    assert_eq!((e.status, e.error), (404, "invite not found"));
    let (s, role) = accept_invite_handler(&mut data, &auth, Some(&b.header), inv.id, Some(&b_text), None, NOW + 2).unwrap();
    assert_eq!(role, "answerer");
    assert_eq!(s.state, SessionState::Active);
    assert_eq!((s.dog_a, s.dog_b), (a.dog, b.dog));
    assert_eq!(s.started_at, NOW + 2);
    assert_eq!(s.segment_deadline_at, NOW + 2 + 300_000);
    assert_eq!(s.max_end_at, NOW + 2 + 900_000);
    assert!(data.invites.get(inv.id).is_none());
    assert_eq!(active_session(&data, &auth, Some(&a.header), a.dog, a.terminal).unwrap(), Some(s));
    // media readiness
    let (both, _) = media_ready(&mut data, &auth, Some(&a.header), s.id, a.dog, a.terminal, true).unwrap();
    assert!(!both);
    let (both, s2) = media_ready(&mut data, &auth, Some(&b.header), s.id, b.dog, b.terminal, true).unwrap();
    assert!(both);
    assert_eq!(s2.state, SessionState::Active);
    // end
    let c = enroll(&auth);
    let e = end_session(&mut data, &auth, Some(&c.header), s.id, c.dog, c.terminal).unwrap_err();
    assert_eq!((e.status, e.error), (403, "not party"));
    let e = end_session(&mut data, &auth, Some(&a.header), SessionId(9), a.dog, a.terminal).unwrap_err();
    assert_eq!((e.status, e.error), (404, "not found"));
    end_session(&mut data, &auth, Some(&a.header), s.id, a.dog, a.terminal).unwrap();
    assert_eq!(active_session(&data, &auth, Some(&b.header), b.dog, b.terminal).unwrap(), None);
}

#[test]
fn invite_expires_and_cancel() {
    let (mut data, auth, a, b) = setup();
    post_presence(&mut data, &auth, Some(&a.header), report(&a, true, 1, NOW), NOW).unwrap();
    post_presence(&mut data, &auth, Some(&b.header), report(&b, true, 1, NOW), NOW).unwrap();
    let inv = create_invite(&mut data, &auth, Some(&a.header), a.dog, a.terminal, Some(b.dog), InviteMode::PlayActive, NOW).unwrap();
    // after the ring timeout the invite is gone
    assert!(incoming_invite(&mut data, &auth, Some(&b.header), b.dog, b.terminal, NOW + 25_000).unwrap().is_none());
    assert!(data.invites.get(inv.id).is_none());
    let inv = create_invite(&mut data, &auth, Some(&a.header), a.dog, a.terminal, Some(b.dog), InviteMode::Portal, NOW + 1000).unwrap();
    let c = enroll(&auth);
    let c_text = c.dog.to_text();
    let e = cancel_invite(&mut data, &auth, Some(&c.header), inv.id, Some(&c_text)).unwrap_err();
    assert_eq!((e.status, e.error), (403, "not party to invite"));
    let e = cancel_invite(&mut data, &auth, Some(&c.header), inv.id, Some("junk")).unwrap_err();
    assert_eq!((e.status, e.error), (400, "dog_id required"));
    let a_text = a.dog.to_text();
    let e = cancel_invite(&mut data, &auth, Some(&c.header), inv.id, Some(&a_text)).unwrap_err();
    assert_eq!((e.status, e.error), (401, "invalid token"));
    let e = cancel_invite(&mut data, &auth, Some(&a.header), InviteId(3), Some(&a_text)).unwrap_err();
    assert_eq!((e.status, e.error), (404, "not found"));
    cancel_invite(&mut data, &auth, Some(&a.header), inv.id, Some(&a_text)).unwrap();
    assert!(data.invites.for_dog(b.dog).is_none());
}

#[test]
fn peer_busy_refused() {
    let (mut data, auth, a, b) = setup();
    let c = enroll(&auth);
    data.bonds.bootstrap_mutual(c.dog, b.dog, 500);
    for d in [&a, &b, &c] {
        post_presence(&mut data, &auth, Some(&d.header), report(d, true, 1, NOW), NOW).unwrap();
    }
    create_invite(&mut data, &auth, Some(&a.header), a.dog, a.terminal, Some(b.dog), InviteMode::Portal, NOW).unwrap();
    let e = create_invite(&mut data, &auth, Some(&c.header), c.dog, c.terminal, Some(b.dog), InviteMode::Portal, NOW).unwrap_err();
    assert_eq!((e.status, e.error), (409, "peer busy"));
}

#[test]
fn accept_rules_messages() {
    let a = DogId::new().unwrap();
    let b = DogId::new().unwrap();
    let inv = invite_at(InviteId(1), a, b, InviteMode::Portal, NOW);
    assert_eq!(inv.expires_at, NOW + 25_000);
    assert_eq!(AcceptError::Expired.message(), "invite expired");
    assert_eq!(InviteError::PeerBusy.message(), "peer already ringing or in session");
    assert_eq!(PolicyDeny::Sleep.message(), "sleep window");
    assert_eq!(EdgeError::NotArmed.message(), "social not armed");
}

#[test]
fn policy_time_rules() {
    assert!(!session_past_max(NOW, 900, NOW + 899_999));
    assert!(session_past_max(NOW, 900, NOW + 900_000));
    assert!(session_past_segment(NOW, NOW));
    assert!(!session_past_segment(NOW, NOW - 1));
    // a segment extends from now, capped at the hard end
    assert_eq!(extend_segment(NOW, 300, NOW + 900_000), NOW + 300_000);
    assert_eq!(extend_segment(NOW, 300, NOW + 100_000), NOW + 100_000);
    assert!(still_online(1000, 11_000, 10_000));
    assert!(!still_online(1000, 11_001, 10_000));
}

#[test]
fn stored_text_forms() {
    assert_eq!(parse_mode("play_active"), InviteMode::PlayActive);
    assert_eq!(parse_mode("anything"), InviteMode::Portal);
    assert_eq!(parse_state("negotiating"), SessionState::Negotiating);
    assert_eq!(parse_state("??"), SessionState::NoSession);
    assert_eq!(ForceBand::from_deci_newtons(100), ForceBand::Empty);
    assert_eq!(ForceBand::from_deci_newtons(500), ForceBand::Light);
    assert_eq!(ForceBand::from_deci_newtons(1500), ForceBand::Medium);
    assert_eq!(ForceBand::from_deci_newtons(5000), ForceBand::Heavy);
}

#[test]
fn turn_credentials_exact() {
    let (user, cred) = turn_rest_credentials("shared-secret", "dog 42!", 600, 1000);
    assert_eq!(user, "1600:dog_42_");
    type HmacSha1 = hmac::Hmac<sha1::Sha1>;
    let mut mac = HmacSha1::new_from_slice(b"shared-secret").unwrap();
    mac.update(user.as_bytes());
    let expect = base64::engine::general_purpose::STANDARD.encode(mac.finalize().into_bytes());
    assert_eq!(cred, expect);
    assert_eq!(cred.len(), 28);
    let (user, _) = turn_rest_credentials("s", "x", u64::MAX, 5);
    assert_eq!(user, format!("{}:x", u64::MAX));
}

#[test]
fn steward_flags() {
    assert_eq!(parse_bool("TRUE"), Some(true));
    assert_eq!(parse_bool("On"), Some(true));
    assert_eq!(parse_bool("1"), Some(true));
    assert_eq!(parse_bool("no"), Some(false));
    assert_eq!(parse_bool("OFF"), Some(false));
    assert_eq!(parse_bool("maybe"), None);
    assert_eq!(parse_bool(""), None);
}

fn agent() -> EdgeAgent {
    EdgeAgent::new(EdgeConfig {
        api_base: "http://127.0.0.1:8080".to_string(),
        terminal_id: TerminalId(5),
        dog_id: DogId(6),
        token: "tok".to_string(),
        publish_ms: 2000,
    })
}

#[test]
fn edge_auth_header_text() {
    let a = agent();
    assert_eq!(a.cfg.auth_header(), "Device 00000000-0000-0000-0000-000000000005:tok");
}

#[test]
fn edge_follows_presence_and_pads() {
    let mut a = agent();
    let mut emu = McuEmu::new();
    emu.set_world(McuWorld::dog_on_mat(1200));
    let mut flipped = 0;
    for _ in 0..20 {
        let bytes = emu.tick_50ms();
        let (snaps, intents) = a.ingest_uart(&bytes, 50);
        assert_eq!(snaps.len(), 1);
        assert!(intents.is_empty());
        if snaps[0].flipped {
            flipped += 1;
        }
    }
    assert_eq!(flipped, 1);
    assert!(a.sense.filter().present());
    assert_eq!(a.ux, EdgeUx::IdlePresent);
    assert!(a.social_armed);
    emu.press_pad(0);
    emu.press_pad(9);
    emu.press_pad(3);
    let bytes = emu.tick_50ms();
    let (_, intents) = a.ingest_uart(&bytes, 50);
    assert_eq!(intents, vec![Intent::Call, Intent::Done]);
    assert_eq!(a.decide_intent(Intent::Call), EdgeAction::Call);
    assert_eq!(a.decide_intent(Intent::Done), EdgeAction::Ignore);
    let r = a.next_report(NOW);
    assert_eq!(r.seq, 1);
    assert!(r.present);
    assert_eq!(r.force_deci_n, 1200);
    assert_eq!(r.force_band, ForceBand::Medium);
    // the dog walks away
    emu.set_world(McuWorld::empty());
    for _ in 0..60 {
        let bytes = emu.tick_50ms();
        a.ingest_uart(&bytes, 50);
    }
    assert!(!a.sense.filter().present());
    assert_eq!(a.ux, EdgeUx::IdleEmpty);
    assert!(!a.social_armed);
    assert_eq!(a.begin_call(), Err(EdgeError::NotArmed));
}

#[test]
fn edge_call_accept_and_estop() {
    let mut a = agent();
    for _ in 0..10 {
        a.ingest_sample(1200, Some(400), true, 100);
    }
    assert_eq!(a.ux, EdgeUx::IdlePresent);
    assert_eq!(a.begin_call(), Ok(()));
    assert_eq!(a.ux, EdgeUx::Inviting);
    a.call_answered(false);
    assert_eq!(a.ux, EdgeUx::IdlePresent);
    // an offer rings in
    let inv = invite_at(InviteId(1), DogId(8), DogId(6), InviteMode::Portal, NOW);
    assert!(a.may_poll());
    a.offer_received(Some(inv));
    assert_eq!(a.ux, EdgeUx::RingingIn);
    assert_eq!(a.decide_intent(Intent::Again), EdgeAction::Accept);
    assert_eq!(a.pending_offer(), Ok(inv));
    let s = canislink::session::accept_invite_as(&inv, DogId(6), true, NOW, SessionId(4)).unwrap();
    a.accepted(s);
    assert_eq!(a.ux, EdgeUx::Negotiating);
    assert_eq!(a.pending_offer(), Err(EdgeError::NoOffer));
    assert_eq!(a.decide_intent(Intent::Done), EdgeAction::End);
    a.media_ready_answered(Some(s), true);
    assert_eq!(a.ux, EdgeUx::InSession);
    assert_eq!(a.decide_intent(Intent::Again), EdgeAction::Again);
    // emergency stop ends the session and disarms
    let ended = a.apply_config(EdgeRemoteConfig { emergency_stop: true, social_disabled: false });
    assert_eq!(ended, Some(s));
    assert_eq!(a.session, None);
    assert_eq!(a.ux, EdgeUx::IdlePresent);
    assert!(!a.social_armed);
    assert_eq!(a.begin_call(), Err(EdgeError::NotArmed));
    // with no session the terminal halts
    let ended = a.apply_config(EdgeRemoteConfig { emergency_stop: true, social_disabled: false });
    assert_eq!(ended, None);
    assert_eq!(a.ux, EdgeUx::Halted);
    a.offer_received(Some(inv));
    assert_eq!(a.ux, EdgeUx::Halted);
    assert!(!a.sync_answered(None));
    assert!(a.sync_answered(Some(s)) == false);
    assert_eq!(a.ux, EdgeUx::InSession);
    assert_eq!(a.end_local(), Some(s));
    assert_eq!(a.current_session(), Err(EdgeError::NoSession));
}

#[test]
fn sense_pipeline_direct_samples() {
    let mut p = SensePipeline::new();
    let s = p.push_sample(1000, Some(400), false, 0);
    assert!(!s.present);
    assert_eq!(s.confidence_pct, 95);
    let s = p.push_sample(1000, Some(400), false, 800);
    assert!(s.present && s.flipped);
    let s = p.push_sample(0, None, false, 100);
    assert!(s.present && !s.flipped);
    assert_eq!(s.confidence_pct, 5);
    assert_eq!(s.force_band, ForceBand::Empty);
    // button frames and short sense frames feed nothing
    let b = ButtonPayload { pad: 1, event: 1, hold_ms: 0 };
    let mut bytes = encode(MsgType::Button, &b.to_bytes());
    bytes.extend(encode(MsgType::Sense, &[1, 2, 3]));
    assert!(p.push_bytes(&bytes, 10).is_empty());
}

#[test]
fn emulator_frames_in_order() {
    let mut emu = McuEmu::new();
    emu.press_pad(2);
    emu.press_pad(1);
    let bytes = emu.tick_50ms();
    let mut dec = FrameDecoder::new();
    let frames = dec.push(&bytes);
    assert_eq!(frames.len(), 3);
    assert_eq!(frames[0].msg, MsgType::Sense);
    assert_eq!(frames[0].payload, vec![0, 0, 0xd0, 0x07, 0, 0, 0, 0]);
    assert_eq!(ButtonPayload::from_bytes(&frames[1].payload).unwrap().pad, 2);
    assert_eq!(ButtonPayload::from_bytes(&frames[2].payload).unwrap().pad, 1);
    assert_eq!(emu.tick_50ms().len(), 13);
    let mut heavy = McuEmu::new();
    heavy.set_world(McuWorld { force_deci_n: 100_000, tof_mm: None, motion: false });
    let f = FrameDecoder::new().push(&heavy.tick_50ms());
    assert_eq!(f[0].payload[0..4], [0xff, 0xff, 0, 0]);
}

fn policy_row(dog: &str) -> PolicyRow {
    PolicyRow {
        dog_id: dog.to_string(),
        timezone: "UTC".to_string(),
        sleep_start_min: 1320,
        sleep_end_min: 420,
        utc_offset_min: -480,
        emergency_stop: 1,
        social_disabled: 0,
        max_invites_per_hour: 12,
        max_session_sec: 900,
        segment_sec: 300,
    }
}

#[test]
fn load_restores_tables() {
    let a = DogId(10).to_text();
    let b = DogId(11).to_text();
    let t = TerminalId(12).to_text();
    let mut data = AppData::new();
    let r = load_into(
        &mut data,
        &[policy_row(&a)],
        &[TerminalRow { terminal_id: t.clone(), dog_id: b.clone() }],
        &[
            BondRow { dog_a: a.clone(), dog_b: b.clone(), weight_permille: 1500 },
            BondRow { dog_a: b.clone(), dog_b: a.clone(), weight_permille: 600 },
        ],
        &[InviteRow {
            invite_id: InviteId(13).to_text(),
            from_dog: a.clone(),
            to_dog: b.clone(),
            mode: "play_active".to_string(),
            state: "ringing".to_string(),
            created_at: "2026-05-28T20:26:40Z".to_string(),
            expires_at: "2026-05-28 20:27:05".to_string(),
        }],
        &[SessionRow {
            session_id: SessionId(14).to_text(),
            invite_id: InviteId(13).to_text(),
            dog_a: a.clone(),
            dog_b: b.clone(),
            mode: "portal".to_string(),
            state: "negotiating".to_string(),
            started_at: "2026-05-28T20:26:40Z".to_string(),
            max_end_at: "garbled".to_string(),
            segment_deadline_at: "2026-05-28T20:31:40+00:00".to_string(),
            media_a: 1,
            media_b: 1,
        }],
        NOW + 7,
    );
    assert_eq!(r, Ok(()));
    let p = data.policies.get(DogId(10));
    assert!(p.emergency_stop);
    assert_eq!(p.utc_offset_min, -480);
    assert!(!data.policies.get(DogId(11)).emergency_stop);
    assert_eq!(data.bonds.weight(DogId(10), DogId(11)), 1000);
    assert_eq!(data.bonds.weight(DogId(11), DogId(10)), 600);
    let inv = data.invites.get(InviteId(13)).unwrap();
    assert_eq!(inv.mode, InviteMode::PlayActive);
    assert_eq!((inv.created_at, inv.expires_at), (NOW, NOW + 25_000));
    let s = data.sessions.get(SessionId(14)).unwrap();
    assert_eq!(s.state, SessionState::Active);
    assert_eq!(s.started_at, NOW);
    assert_eq!(s.max_end_at, NOW + 7);
    assert_eq!(s.segment_deadline_at, NOW + 300_000);
}

#[test]
fn stored_time_forms() {
    assert_eq!(stored_time_ms("2026-05-28T20:26:40.5Z", 0), NOW + 500);
    assert_eq!(stored_time_ms("2026-05-28 20:26:40", 0), NOW);
    assert_eq!(stored_time_ms("yesterday", 42), 42);
}

#[test]
fn sqlite_times_are_read_as_utc() {
    assert_eq!(with_utc_offset("2026-05-28 20:26:40"), "2026-05-28 20:26:40+00:00");
    assert_eq!(SQLITE_DATETIME_FORMAT, "%Y-%m-%d %H:%M:%S%z");
    assert_eq!(stored_time_ms("1970-01-01 00:00:01", 7), 1000);
}

#[test]
fn chunked_stream_decodes_the_same() {
    let b = ButtonPayload { pad: 3, event: 1, hold_ms: 700 };
    let mut stream = encode(MsgType::Sense, &[1, 2, 3, 4, 5, 6, 7, 8]);
    stream.extend(encode(MsgType::Button, &b.to_bytes()));
    stream.extend(encode(MsgType::Ping, &[]));
    let whole = FrameDecoder::new().push(&stream);
    assert_eq!(whole.len(), 3);
    for size in 1..stream.len() {
        let mut dec = FrameDecoder::new();
        let mut got = Vec::new();
        for chunk in stream.chunks(size) {
            got.extend(dec.push(chunk));
        }
        assert_eq!(got, whole);
    }
}

#[test]
fn secret_alone_mints_and_force_must_exceed_minimum() {
    let p = canislink::ice::IcePolicy::from_parts("", "", "static-user", "static-pass", "s3cret", 600, false);
    let ice = p.mint("dog");
    assert_ne!(ice.turn_username, "static-user");
    assert!(ice.turn_username.ends_with(":dog"));
    assert_eq!(ice.turn_credential.len(), 28);
    let mut f = canislink::presence::PresenceFilter::default();
    let at_min = |t| canislink::presence::SenseSample { force_deci_n: 250, tof_mm: Some(400), motion: false, t_ms: t };
    f.update(at_min(0));
    f.update(at_min(800));
    assert!(!f.present());
    f.update(canislink::presence::SenseSample { force_deci_n: 251, tof_mm: Some(400), motion: false, t_ms: 900 });
    f.update(canislink::presence::SenseSample { force_deci_n: 251, tof_mm: Some(400), motion: false, t_ms: 1700 });
    assert!(f.present());
}

#[test]
fn load_stops_at_bad_id() {
    let mut data = AppData::new();
    let a = DogId(10).to_text();
    let r = load_into(&mut data, &[policy_row(&a), policy_row("bad")], &[], &[], &[], &[], NOW);
    assert_eq!(r, Err(LoadError::BadId));
    assert!(data.policies.get(DogId(10)).emergency_stop);
    let mut g = BondGraph::new();
    assert_eq!(
        canislink::load::load_bonds(&mut g, &[BondRow { dog_a: a.clone(), dog_b: "x".to_string(), weight_permille: 5 }]),
        Err(LoadError::BadId)
    );
}

#[test]
fn walk_away_ends_only_live_sessions() {
    let mut a = agent();
    for _ in 0..10 {
        a.ingest_sample(1200, Some(400), true, 100);
    }
    let inv = invite_at(InviteId(1), DogId(8), DogId(6), InviteMode::Portal, NOW);
    a.offer_received(Some(inv));
    let s = canislink::session::accept_invite_as(&inv, DogId(6), true, NOW, SessionId(4)).unwrap();
    a.accepted(s);
    let mut gone = None;
    for _ in 0..30 {
        let snap = a.ingest_sample(0, None, false, 100);
        if snap.flipped {
            gone = Some(snap);
        }
    }
    let snap = gone.unwrap();
    assert!(!snap.present);
    assert!(a.walked_away(&snap));
    a.end_local();
    assert_eq!(a.ux, EdgeUx::IdleEmpty);
    assert!(!a.walked_away(&snap));
}

#[test]
fn clocks_read_now() {
    let before = chrono::Utc::now().timestamp_millis();
    let inv = canislink::session::new_invite(DogId(1), DogId(2), InviteMode::Portal).unwrap();
    assert_eq!(uuid::Uuid::from_u128(inv.id.0).get_version_num(), 4);
    let after = chrono::Utc::now().timestamp_millis();
    assert!(before <= inv.created_at && inv.created_at <= after);
    assert_eq!(inv.expires_at, inv.created_at + 25_000);
    let secs = chrono::Utc::now().timestamp() as u64;
    let (user, _) = canislink::ice::mint_turn_rest("s", "dog", 600);
    let expiry: u64 = user.split(':').next().unwrap().parse().unwrap();
    assert!(expiry >= secs + 600 && expiry <= secs + 602);
    assert!(user.ends_with(":dog"));
}

#[test]
fn fresh_ids_are_random_uuids() {
    for v in [DogId::new().unwrap().0, TerminalId::new().unwrap().0, InviteId::new().unwrap().0, SessionId::new().unwrap().0] {
        let u = uuid::Uuid::from_u128(v);
        assert_eq!(u.get_version_num(), 4);
        assert_eq!(u.get_variant(), uuid::Variant::RFC4122);
        assert_eq!((v >> 76) & 0xf, 4);
        assert_eq!((v >> 62) & 0x3, 2);
    }
}

#[test]
fn invite_from_needs_clock_and_id() {
    let from = DogId(1);
    let to = DogId(2);
    let id = InviteId(77);
    let inv = invite_from(Some(1_000), Some(id), from, to, InviteMode::Portal).unwrap();
    assert_eq!(inv, invite_at(id, from, to, InviteMode::Portal, 1_000));
    assert_eq!(inv.expires_at, 26_000);
    assert!(invite_from(None, Some(id), from, to, InviteMode::Portal).is_none());
    assert!(invite_from(Some(1_000), None, from, to, InviteMode::Portal).is_none());
    assert!(invite_from(Some(i64::MAX - 24_999), Some(id), from, to, InviteMode::Portal).is_none());
    assert!(invite_from(Some(i64::MAX - 25_000), Some(id), from, to, InviteMode::Portal).is_some());
}

#[test]
fn checksum_is_xor_of_parts() {
    assert_eq!(checksum(&[]), 0);
    assert_eq!(checksum(&[0x5A]), 0x5A);
    assert_eq!(checksum(&[0x01, 0x08, 0x64, 0, 0, 0, 0, 0, 0, 0]), 0x6D);
    let a = [0x12u8, 0x34, 0x56];
    let b = [0xABu8, 0xCD];
    let ab = [0x12u8, 0x34, 0x56, 0xAB, 0xCD];
    assert_eq!(checksum(&ab), checksum(&a) ^ checksum(&b));
}
