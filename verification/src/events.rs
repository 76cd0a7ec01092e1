//! Device realtime events (invite push, session updates).
use crate::protocol::{Invite, SessionRecord};
use vstd::prelude::*;

verus! {

/// An event pushed to a dog's devices.
#[derive(Debug, Clone)]
pub enum DeviceEvent {
    InviteRinging { invite: Invite, lure_led: String },
    InviteClosed { invite_id: String, reason: String },
    SessionUpdated { session: SessionRecord },
    SessionEnded { session_id: String, reason: String },
    Ping,
}

} // verus!
