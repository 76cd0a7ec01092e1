use canislink::auth::SharedSecretAuthority;
use canislink::bond::BondGraph;
use canislink::ice::{mint_turn_rest, IcePolicy};
use canislink::mcu::{encode, FrameDecoder, MsgType, SensePayload};
use canislink::mcu_emu::{McuEmu, McuWorld};
use canislink::policy::{invite_rate_ok, social_allowed, DogPolicy, PolicyDeny};
use canislink::presence::{PresenceFilter, SenseSample};
use canislink::protocol::{
    DogId, ForceBand, InviteMode, PresenceReport, SessionState, TerminalId, PRESENCE_TTL_MS,
};
use canislink::sense::SensePipeline;
use canislink::session::{accept_invite, new_invite, route_invite, webrtc_role, AcceptError, InviteError};
use canislink::store::{AppData, PresenceStore};

fn now_ms() -> i64 {
    chrono::Utc::now().timestamp_millis()
}

fn rfc3339_ms(s: &str) -> i64 {
    chrono::DateTime::parse_from_rfc3339(s).unwrap().timestamp_millis()
}

#[test]
fn mutual_required() {
    let mut g = BondGraph::new();
    let a = DogId::new().unwrap();
    let b = DogId::new().unwrap();
    g.set_weight(a, b, 900);
    assert!(!g.mutual_eligible(a, b));
    g.set_weight(b, a, 900);
    assert!(g.mutual_eligible(a, b));
}

#[test]
fn candidates_sorted() {
    let mut g = BondGraph::new();
    let a = DogId::new().unwrap();
    let b = DogId::new().unwrap();
    let c = DogId::new().unwrap();
    g.bootstrap_mutual(a, b, 500);
    g.bootstrap_mutual(a, c, 900);
    let cands = g.candidates(a);
    assert_eq!(cands[0].0, c);
    assert_eq!(cands[1].0, b);
}

fn ttl_report(dog: DogId, t0: i64) -> PresenceReport {
    PresenceReport {
        dog_id: dog,
        terminal_id: TerminalId::new().unwrap(),
        present: true,
        confidence_pct: 90,
        force_band: ForceBand::Medium,
        force_deci_n: 1000,
        tof_mm: Some(400),
        ts: t0,
        seq: 1,
    }
}

#[test]
fn lib_ttl_expires_presence() {
    let mut store = PresenceStore::new();
    let dog = DogId::new().unwrap();
    let t0 = now_ms();
    store.upsert(ttl_report(dog, t0));
    assert!(store.get(dog, t0).unwrap().present);
    let later = t0 + PRESENCE_TTL_MS as i64 + 1;
    assert!(!store.get(dog, later).unwrap().present);
}

#[test]
fn memory_ttl_expires_presence() {
    let mut store = PresenceStore::new();
    let dog = DogId::new().unwrap();
    let t0 = now_ms();
    store.upsert(ttl_report(dog, t0));
    assert!(store.get(dog, t0).unwrap().present);
    let later = t0 + PRESENCE_TTL_MS as i64 + 1;
    assert!(!store.get(dog, later).unwrap().present);
}

#[test]
fn issue_and_verify() {
    let auth = SharedSecretAuthority::new("lab-secret");
    let tid = TerminalId::new().unwrap();
    let did = DogId::new().unwrap();
    let id = auth.issue(tid, did);
    auth.verify_pair(tid, did, &id.token).unwrap();
    assert!(auth.verify_pair(tid, DogId::new().unwrap(), &id.token).is_err());
}

#[test]
fn sleep_wraps_midnight() {
    let mut p = DogPolicy::default_for(DogId::new().unwrap());
    p.sleep_start_min = 22 * 60;
    p.sleep_end_min = 7 * 60;
    p.utc_offset_min = 0;
    // 23:00 UTC
    let t = rfc3339_ms("2026-07-09T23:00:00Z");
    assert!(p.in_sleep(t));
    let t2 = rfc3339_ms("2026-07-09T12:00:00Z");
    assert!(!p.in_sleep(t2));
}

#[test]
fn estop_blocks() {
    let mut p = DogPolicy::default_for(DogId::new().unwrap());
    p.emergency_stop = true;
    assert_eq!(social_allowed(&p, now_ms()), Err(PolicyDeny::EmergencyStop));
}

#[test]
fn rate_limit() {
    assert!(invite_rate_ok(11, 12).is_ok());
    assert_eq!(invite_rate_ok(12, 12), Err(PolicyDeny::RateLimit));
}

fn sample(t: u64, force_deci_n: u32, tof: u16, motion: bool) -> SenseSample {
    SenseSample { force_deci_n, tof_mm: Some(tof), motion, t_ms: t }
}

#[test]
fn enter_requires_debounce() {
    let mut f = PresenceFilter::default();
    // below enter window
    f.update(sample(0, 1000, 400, false));
    assert!(!f.present());
    f.update(sample(400, 1000, 400, false));
    assert!(!f.present());
    f.update(sample(800, 1000, 400, false));
    assert!(f.present());
}

#[test]
fn exit_requires_longer_debounce() {
    let mut f = PresenceFilter::default();
    f.update(sample(0, 1000, 400, false));
    f.update(sample(800, 1000, 400, false));
    assert!(f.present());

    f.update(sample(900, 0, 0, false));
    assert!(f.present());
    f.update(sample(900 + 2499, 0, 0, false));
    assert!(f.present());
    f.update(sample(900 + 2500, 0, 0, false));
    assert!(!f.present());
}

#[test]
fn force_alone_insufficient_without_tof_or_motion() {
    let mut f = PresenceFilter::default();
    f.update(sample(0, 1000, 5000, false)); // tof out of band, no motion
    f.update(sample(1000, 1000, 5000, false));
    assert!(!f.present());

    f.update(sample(2000, 1000, 5000, true)); // motion saves it
    f.update(sample(2800, 1000, 5000, true));
    assert!(f.present());
}

#[test]
fn roundtrip_sense() {
    let p = SensePayload { force_deci_n: 1234, tof_mm: 450, flags: 1, pad: [0; 3] };
    let frame = encode(MsgType::Sense, &p.to_bytes());
    let mut dec = FrameDecoder::new();
    let frames = dec.push(&frame);
    assert_eq!(frames.len(), 1);
    assert_eq!(frames[0].msg, MsgType::Sense);
    let p2 = SensePayload::from_bytes(&frames[0].payload).unwrap();
    assert_eq!(p, p2);
}

#[test]
fn resync_after_garbage() {
    let p = SensePayload { force_deci_n: 100, tof_mm: 0, flags: 0, pad: [0; 3] };
    let mut stream = vec![0x00, 0xFF, 0xCA];
    stream.extend(encode(MsgType::Sense, &p.to_bytes()));
    let mut dec = FrameDecoder::new();
    let frames = dec.push(&stream);
    assert_eq!(frames.len(), 1);
}

#[test]
fn routes_to_strongest_present() {
    let mut g = BondGraph::new();
    let a = DogId::new().unwrap();
    let b = DogId::new().unwrap();
    let c = DogId::new().unwrap();
    g.bootstrap_mutual(a, b, 400);
    g.bootstrap_mutual(a, c, 900);
    let to = route_invite(a, None, &g, &[b, c], true).unwrap();
    assert_eq!(to, c);
}

#[test]
fn accept_requires_callee_present() {
    let a = DogId::new().unwrap();
    let b = DogId::new().unwrap();
    let inv = new_invite(a, b, InviteMode::Portal).unwrap();
    assert_eq!(accept_invite(&inv, b, false, now_ms()).unwrap(), Err(AcceptError::NotPresent));
    let s = accept_invite(&inv, b, true, now_ms()).unwrap().unwrap();
    assert_eq!(s.state, SessionState::Active);
    assert_eq!(webrtc_role(&s, a), "offerer");
    assert_eq!(webrtc_role(&s, b), "answerer");
}

#[test]
fn uart_path_detects_presence() {
    let mut pipe = SensePipeline::new();
    let payload = SensePayload {
        force_deci_n: 1000, // 100 N
        tof_mm: 400,
        flags: 0,
        pad: [0; 3],
    };
    let frame = encode(MsgType::Sense, &payload.to_bytes());
    // feed over enter window
    for _ in 0..10 {
        let snaps = pipe.push_bytes(&frame, 100);
        assert!(!snaps.is_empty());
    }
    assert!(pipe.filter().present());
}

#[test]
fn emits_decodable_sense() {
    let mut emu = McuEmu::new();
    emu.set_world(McuWorld::dog_on_mat(1500));
    let bytes = emu.tick_50ms();
    let mut dec = FrameDecoder::new();
    let frames = dec.push(&bytes);
    assert_eq!(frames.len(), 1);
    assert_eq!(frames[0].msg, MsgType::Sense);
}

#[test]
fn mint_is_deterministic_for_same_second_bucket() {
    let (u1, c1) = mint_turn_rest("lab-secret", "dog-a", 3600);
    let (u2, c2) = mint_turn_rest("lab-secret", "dog-a", 3600);
    assert_eq!(u1, u2);
    assert_eq!(c1, c2);
    assert!(u1.contains(":dog-a") || u1.contains("dog_a") || u1.contains("dog-a"));
    assert!(!c1.is_empty());
}

#[test]
fn policy_default_has_stun() {
    let p = IcePolicy::default();
    let ice = p.mint("x");
    assert!(!ice.stun_urls.is_empty());
    assert!(ice.turn_uris.is_empty());
}

#[test]
fn policy_with_secret_mints_creds() {
    let p = IcePolicy::from_parts(
        "stun:stun.example:3478",
        "turn:turn.example:3478?transport=udp",
        "",
        "",
        "shared-secret",
        600,
        true,
    );
    let ice = p.mint("dog42");
    assert_eq!(ice.stun_urls, vec!["stun:stun.example:3478"]);
    assert_eq!(ice.turn_uris.len(), 1);
    assert!(ice.turn_username.contains("dog42") || ice.turn_username.contains("dog_42"));
    assert!(!ice.turn_credential.is_empty());
    assert_eq!(ice.ttl_sec, 600);
}

#[test]
fn offline_peer_not_routable() {
    let mut g = BondGraph::new();
    let a = DogId::new().unwrap();
    let b = DogId::new().unwrap();
    g.bootstrap_mutual(a, b, 900);
    // bonded but B not present
    assert_eq!(route_invite(a, None, &g, &[], true), Err(InviteError::NoEligiblePeer));
    assert_eq!(route_invite(a, Some(b), &g, &[], true), Err(InviteError::PeerNotPresent));
}

#[test]
fn caller_not_present_denied() {
    let mut g = BondGraph::new();
    let a = DogId::new().unwrap();
    let b = DogId::new().unwrap();
    g.bootstrap_mutual(a, b, 900);
    assert_eq!(route_invite(a, Some(b), &g, &[b], false), Err(InviteError::CallerNotPresent));
}

#[test]
fn sleep_and_rate_limit_block_social() {
    let mut p = DogPolicy::default_for(DogId::new().unwrap());
    p.sleep_start_min = 0;
    p.sleep_end_min = 24 * 60; // always sleep
    p.utc_offset_min = 0;
    assert!(social_allowed(&p, now_ms()).is_err());
    assert!(invite_rate_ok(99, 12).is_err());
}

#[test]
fn memory_busy_second_invite() {
    let mut data = AppData::new();
    let a = DogId::new().unwrap();
    let b = DogId::new().unwrap();
    let inv = new_invite(a, b, InviteMode::Portal).unwrap();
    assert!(data.invites.insert(inv).is_ok());
    let inv2 = new_invite(a, DogId::new().unwrap(), InviteMode::Portal).unwrap();
    assert_eq!(data.invites.insert(inv2), Err("busy"));
    let _ = SessionState::Ringing;
    let _ = SharedSecretAuthority::new("x");
}

#[test]
fn policy_invariants() {
    let mut p = DogPolicy::default_for(DogId::new().unwrap());
    assert!(social_allowed(&p, now_ms()).is_ok());
    p.social_disabled = true;
    assert!(social_allowed(&p, now_ms()).is_err());
    assert!(invite_rate_ok(12, 12).is_err());
}
