//! MCU emulator: virtual mat + buttons -> UART frames.
use crate::mcu::{
    drain_frames, encode, frame_bytes, lemma_button_payload_roundtrip,
    lemma_decode_frame_then_rest, lemma_sense_payload_roundtrip, resync, ButtonPayload, MsgType,
    SensePayload,
};
use crate::presence::SenseSample;
use crate::sense::{sample_of, sense_samples};
use vstd::prelude::*;

verus! {

/// What the virtual mat senses.
#[derive(Debug, Clone, Copy, PartialEq, Eq, Structural)]
pub struct McuWorld {
    /// Force on the mat, in tenths of a newton.
    pub force_deci_n: u32,
    /// Distance to the subject in mm (None = invalid reading).
    pub tof_mm: Option<u16>,
    pub motion: bool,
}

impl McuWorld {
    /// An empty mat: no force, ToF 2000 mm, no motion.
    pub open spec fn spec_empty() -> McuWorld {
        McuWorld { force_deci_n: 0, tof_mm: Some(2000), motion: false }
    }

    /// A dog of the given weight (tenths of a newton) on the mat, 350 mm
    /// from the sensor and moving.
    pub fn dog_on_mat(weight_deci_n: u32) -> (r: Self)
        ensures
            r == (McuWorld { force_deci_n: weight_deci_n, tof_mm: Some(350), motion: true }),
    {
        McuWorld { force_deci_n: weight_deci_n, tof_mm: Some(350), motion: true }
    }

    pub fn empty() -> (r: Self)
        ensures
            r == Self::spec_empty(),
    {
        McuWorld::default()
    }
}

impl Default for McuWorld {
    fn default() -> (r: Self)
        ensures
            r == McuWorld::spec_empty(),
    {
        McuWorld { force_deci_n: 0, tof_mm: Some(2000), motion: false }
    }
}

/// The sense payload that a world yields: force clamped to the 16-bit wire
/// range, a missing ToF reading sent as 0, motion as bit 0 of the flags.
pub open spec fn sense_of(w: McuWorld) -> SensePayload {
    SensePayload {
        force_deci_n: if w.force_deci_n > 65535 {
            65535u16
        } else {
            w.force_deci_n as u16
        },
        tof_mm: match w.tof_mm {
            Some(d) => d,
            None => 0u16,
        },
        flags: if w.motion {
            1u8
        } else {
            0u8
        },
        pad: [0u8, 0u8, 0u8],
    }
}

/// The frames of a run of button events, in order.
pub open spec fn buttons_bytes(b: Seq<ButtonPayload>) -> Seq<u8>
    decreases b.len(),
{
    if b.len() == 0 {
        Seq::empty()
    } else {
        buttons_bytes(b.drop_last()) + frame_bytes(MsgType::Button, b.last().spec_bytes())
    }
}

/// The bytes of one tick: a sense frame, then one frame per pending button.
pub open spec fn tick_bytes(w: McuWorld, pending: Seq<ButtonPayload>) -> Seq<u8> {
    frame_bytes(MsgType::Sense, sense_of(w).spec_bytes()) + buttons_bytes(pending)
}

/// A virtual MCU: the world it senses and the button events not yet sent.
#[derive(Debug)]
pub struct McuEmu {
    pub world: McuWorld,
    /// Pending button events to emit once.
    pending_buttons: Vec<ButtonPayload>,
    tick: u64,
}

impl McuEmu {
    /// The world the emulator senses.
    pub closed spec fn world_state(&self) -> McuWorld {
        self.world
    }

    /// The button events waiting for the next tick, in order.
    pub closed spec fn pending(&self) -> Seq<ButtonPayload> {
        self.pending_buttons@
    }

    /// The number of ticks run.
    pub closed spec fn ticks(&self) -> u64 {
        self.tick
    }

    pub fn new() -> (r: Self)
        ensures
            r.world_state() == McuWorld::spec_empty(),
            r.pending() == Seq::<ButtonPayload>::empty(),
            r.ticks() == 0,
    {
        McuEmu { world: McuWorld::default(), pending_buttons: Vec::new(), tick: 0 }
    }

    pub fn set_world(&mut self, world: McuWorld)
        ensures
            final(self).world_state() == world,
            final(self).pending() == old(self).pending(),
            final(self).ticks() == old(self).ticks(),
    {
        self.world = world;
    }

    /// Queue a press of pad `pad` for the next tick.
    pub fn press_pad(&mut self, pad: u8)
        ensures
            final(self).world_state() == old(self).world_state(),
            final(self).pending() == old(self).pending().push(
                ButtonPayload { pad, event: 1, hold_ms: 0 },
            ),
            final(self).ticks() == old(self).ticks(),
    {
        self.pending_buttons.push(ButtonPayload { pad, event: 1, hold_ms: 0 });
    }

    /// Produce the UART bytes of one 50 ms tick (20 Hz sense), sending each
    /// pending button event once.
    pub fn tick_50ms(&mut self) -> (r: Vec<u8>)
        requires
            old(self).ticks() < u64::MAX,
        ensures
            r@ == tick_bytes(old(self).world_state(), old(self).pending()),
            final(self).world_state() == old(self).world_state(),
            final(self).pending() == Seq::<ButtonPayload>::empty(),
            final(self).ticks() == old(self).ticks() + 1,
    {
        self.tick = self.tick + 1;
        let force_deci_n: u16 = if self.world.force_deci_n > 65535 {
            65535
        } else {
            self.world.force_deci_n as u16
        };
        let tof_mm: u16 = match self.world.tof_mm {
            Some(d) => d,
            None => 0,
        };
        let flags: u8 = if self.world.motion {
            1
        } else {
            0
        };
        let sense = SensePayload { force_deci_n, tof_mm, flags, pad: [0u8, 0u8, 0u8] };
        assert(sense == sense_of(self.world));
        let sb = sense.to_bytes();
        let mut out: Vec<u8> = encode(MsgType::Sense, &sb);
        let mut i: usize = 0;
        while i < self.pending_buttons.len()
            invariant
                i <= self.pending_buttons@.len(),
                self.pending_buttons@ == old(self).pending_buttons@,
                out@ == frame_bytes(MsgType::Sense, sense_of(self.world).spec_bytes()) + buttons_bytes(
                    self.pending_buttons@.take(i as int),
                ),
            decreases self.pending_buttons@.len() - i,
        {
            let b = self.pending_buttons[i];
            let bb = b.to_bytes();
            let f = encode(MsgType::Button, &bb);
            let ghost before = out@;
            out.extend_from_slice(f.as_slice());
            proof {
                let p = self.pending_buttons@;
                assert(p.take(i + 1).drop_last() =~= p.take(i as int));
                assert(p.take(i + 1).last() == b);
                assert(out@ =~= before + f@);
            }
            i = i + 1;
        }
        assert(self.pending_buttons@.take(i as int) =~= self.pending_buttons@);
        self.pending_buttons = Vec::new();
        out
    }
}

impl Default for McuEmu {
    fn default() -> (r: Self)
        ensures
            r.world_state() == McuWorld::spec_empty(),
            r.pending() == Seq::<ButtonPayload>::empty(),
            r.ticks() == 0,
    {
        McuEmu::new()
    }
}

/// The decoded frames of a run of button events, in order.
pub open spec fn button_frames(b: Seq<ButtonPayload>) -> Seq<(MsgType, Seq<u8>)> {
    b.map_values(|x: ButtonPayload| (MsgType::Button, x.spec_bytes()))
}

#[verifier::rlimit(40)]
proof fn lemma_drain_buttons(b: Seq<ButtonPayload>, rest: Seq<u8>)
    ensures
        drain_frames(buttons_bytes(b) + rest).0 == drain_frames(rest).0,
        drain_frames(buttons_bytes(b) + rest).1 == button_frames(b) + drain_frames(rest).1,
    decreases b.len(),
{
    if b.len() == 0 {
        assert(buttons_bytes(b) + rest =~= rest);
        assert(button_frames(b) + drain_frames(rest).1 =~= drain_frames(rest).1);
    } else {
        let last = b.last();
        let x = (MsgType::Button, last.spec_bytes());
        let a = buttons_bytes(b.drop_last());
        let rest2 = frame_bytes(MsgType::Button, last.spec_bytes()) + rest;
        let d = drain_frames(rest);
        let d2 = drain_frames(rest2);
        let da = drain_frames(a + rest2);
        lemma_button_payload_roundtrip(last);
        lemma_drain_buttons(b.drop_last(), rest2);
        lemma_decode_frame_then_rest(MsgType::Button, last.spec_bytes(), rest);
        assert(d2.0 == d.0 && d2.1 == seq![x] + d.1);
        assert(da.0 == d2.0 && da.1 == button_frames(b.drop_last()) + d2.1);
        assert(buttons_bytes(b) + rest =~= a + rest2);
        assert(button_frames(b) =~= button_frames(b.drop_last()).push(x));
        assert(button_frames(b) + d.1 =~= button_frames(b.drop_last()) + (seq![x] + d.1));
    }
}

/// The bytes of one tick decode, with nothing left over, to one sense frame
/// carrying the world's payload followed by one button frame per pending
/// event, in order.
pub proof fn lemma_tick_decodes(w: McuWorld, pending: Seq<ButtonPayload>)
    ensures
        drain_frames(tick_bytes(w, pending)).0 == Seq::<u8>::empty(),
        drain_frames(tick_bytes(w, pending)).1 == seq![(MsgType::Sense, sense_of(w).spec_bytes())]
            + button_frames(pending),
{
    let e = Seq::<u8>::empty();
    lemma_sense_payload_roundtrip(sense_of(w));
    lemma_drain_buttons(pending, e);
    assert(buttons_bytes(pending) + e =~= buttons_bytes(pending));
    lemma_decode_frame_then_rest(MsgType::Sense, sense_of(w).spec_bytes(), buttons_bytes(pending));
    assert(resync(e) == e);
    assert(drain_frames(e) == (e, Seq::<(MsgType, Seq<u8>)>::empty()));
    assert(button_frames(pending) + Seq::<(MsgType, Seq<u8>)>::empty() =~= button_frames(pending));
}

proof fn lemma_buttons_feed_nothing(head: Seq<(MsgType, Seq<u8>)>, b: Seq<ButtonPayload>, t: u64)
    ensures
        sense_samples(head + button_frames(b), t) == sense_samples(head, t),
    decreases b.len(),
{
    if b.len() == 0 {
        assert(head + button_frames(b) =~= head);
    } else {
        lemma_buttons_feed_nothing(head, b.drop_last(), t);
        assert((head + button_frames(b)).drop_last() =~= head + button_frames(b.drop_last()));
    }
}

/// What the emulator sends in one tick, decoded from an empty buffer, feeds
/// the presence filter exactly one sample: the one its world stands for.
pub proof fn lemma_tick_feeds_one_sample(w: McuWorld, pending: Seq<ButtonPayload>, t: u64)
    ensures
        sense_samples(drain_frames(tick_bytes(w, pending)).1, t) == seq![
            sample_of(sense_of(w), t),
        ],
{
    lemma_tick_decodes(w, pending);
    lemma_sense_payload_roundtrip(sense_of(w));
    let head = seq![(MsgType::Sense, sense_of(w).spec_bytes())];
    lemma_buttons_feed_nothing(head, pending, t);
    assert(head.drop_last() =~= Seq::<(MsgType, Seq<u8>)>::empty());
    assert(sense_samples(Seq::<(MsgType, Seq<u8>)>::empty(), t) == Seq::<SenseSample>::empty());
    assert(Seq::<SenseSample>::empty().push(sample_of(sense_of(w), t)) =~= seq![
        sample_of(sense_of(w), t),
    ]);
}

} // verus!
