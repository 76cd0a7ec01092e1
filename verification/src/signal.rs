//! WebRTC signaling envelopes (session-scoped rooms).
use crate::protocol::{DogId, SessionId};
use vstd::prelude::*;

verus! {

/// A message relayed between the two peers of a session.
#[derive(Debug, Clone)]
pub enum SignalMsg {
    Join { session_id: SessionId, dog_id: DogId, role: String },
    Ready { session_id: SessionId, dog_id: DogId },
    Offer { session_id: SessionId, from: DogId, sdp: String },
    Answer { session_id: SessionId, from: DogId, sdp: String },
    Ice {
        session_id: SessionId,
        from: DogId,
        candidate: String,
        sdp_mid: Option<String>,
        sdp_mline_index: Option<u16>,
    },
    Hangup { session_id: SessionId, from: DogId },
    Error { message: String },
}

} // verus!
