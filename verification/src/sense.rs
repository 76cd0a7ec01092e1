//! Sense pipeline: MCU frames -> PresenceFilter.
use crate::ice::saturating_add;
use crate::mcu::{
    drain_frames, frame_bytes, frames_view, lemma_encode_decode_roundtrip, Frame, FrameDecoder,
    MsgType, SensePayload,
};
use crate::protocol::ForceBand;
use crate::presence::{
    next_state, PresenceConfig, PresenceFilter, PresenceState, SenseSample,
};
use vstd::prelude::*;

verus! {

/// What the pipeline reports after each sample.
#[derive(Debug, Clone, Copy, PartialEq, Eq, Structural)]
pub struct SenseSnapshot {
    pub present: bool,
    /// Confidence of the sample, in hundredths.
    pub confidence_pct: u8,
    /// Mat force of the sample, in tenths of a newton.
    pub force_deci_n: u32,
    pub force_band: ForceBand,
    pub tof_mm: Option<u16>,
    /// Whether the debounced presence flipped on this sample.
    pub flipped: bool,
}

/// The snapshot taken when the filter went from `prev` to `next`.
pub open spec fn snapshot_of(prev: PresenceState, next: PresenceState) -> SenseSnapshot {
    SenseSnapshot {
        present: next.present,
        confidence_pct: next.confidence_pct,
        force_deci_n: next.last_force_deci_n,
        force_band: ForceBand::spec_from_deci_newtons(next.last_force_deci_n),
        tof_mm: next.last_tof,
        flipped: prev.present != next.present,
    }
}

/// The sample that a sense payload stands for at time `t`: a ToF reading of
/// 0 is no reading, bit 0 of the flags is motion.
pub open spec fn sample_of(p: SensePayload, t: u64) -> SenseSample {
    SenseSample {
        force_deci_n: p.force_deci_n as u32,
        tof_mm: if p.tof_mm == 0 {
            None
        } else {
            Some(p.tof_mm)
        },
        motion: p.flags & 1 != 0,
        t_ms: t,
    }
}

/// Whether a decoded frame carries a sense payload.
pub open spec fn is_sense_frame(f: (MsgType, Seq<u8>)) -> bool {
    f.0 == MsgType::Sense && f.1.len() >= 8
}

/// The samples that a run of frames carries, in order: frames of another
/// type and short sense payloads are skipped.
pub open spec fn sense_samples(frames: Seq<(MsgType, Seq<u8>)>, t: u64) -> Seq<SenseSample>
    decreases frames.len(),
{
    if frames.len() == 0 {
        Seq::empty()
    } else {
        let rest = sense_samples(frames.drop_last(), t);
        let f = frames.last();
        if is_sense_frame(f) {
            rest.push(sample_of(SensePayload::spec_parse(f.1), t))
        } else {
            rest
        }
    }
}

/// The filter state after ingesting `samples` in order from `st`.
pub open spec fn feed(cfg: PresenceConfig, st: PresenceState, samples: Seq<SenseSample>) -> PresenceState
    decreases samples.len(),
{
    if samples.len() == 0 {
        st
    } else {
        next_state(cfg, feed(cfg, st, samples.drop_last()), samples.last())
    }
}

/// The snapshot of each sample of `samples` ingested in order from `st`.
pub open spec fn snapshots(cfg: PresenceConfig, st: PresenceState, samples: Seq<SenseSample>) -> Seq<
    SenseSnapshot,
>
    decreases samples.len(),
{
    if samples.len() == 0 {
        Seq::empty()
    } else {
        let before = feed(cfg, st, samples.drop_last());
        snapshots(cfg, st, samples.drop_last()).push(
            snapshot_of(before, next_state(cfg, before, samples.last())),
        )
    }
}

/// Decoder, presence filter and a local millisecond clock.
#[derive(Debug)]
pub struct SensePipeline {
    decoder: FrameDecoder,
    filter: PresenceFilter,
    t_ms: u64,
}

impl SensePipeline {
    /// The bytes waiting in the decoder.
    pub closed spec fn buffered(&self) -> Seq<u8> {
        self.decoder.buffered()
    }

    /// The filter's thresholds.
    pub closed spec fn config(&self) -> PresenceConfig {
        self.filter.config()
    }

    /// The filter's state.
    pub closed spec fn state(&self) -> PresenceState {
        self.filter@
    }

    /// The local clock, in milliseconds.
    pub closed spec fn clock(&self) -> u64 {
        self.t_ms
    }

    pub fn new() -> (r: Self)
        ensures
            r.buffered() == Seq::<u8>::empty(),
            r.config() == PresenceConfig::spec_default(),
            r.state() == PresenceFilter::initial_state(),
            r.clock() == 0,
    {
        SensePipeline { decoder: FrameDecoder::new(), filter: PresenceFilter::default(), t_ms: 0 }
    }

    pub fn filter(&self) -> (r: &PresenceFilter)
        ensures
            r.config() == self.config(),
            r@ == self.state(),
    {
        &self.filter
    }

    fn snapshot(&self, flipped: bool) -> (r: SenseSnapshot)
        ensures
            r.present == self.state().present,
            r.confidence_pct == self.state().confidence_pct,
            r.force_deci_n == self.state().last_force_deci_n,
            r.force_band == ForceBand::spec_from_deci_newtons(self.state().last_force_deci_n),
            r.tof_mm == self.state().last_tof,
            r.flipped == flipped,
    {
        SenseSnapshot {
            present: self.filter.present(),
            confidence_pct: self.filter.confidence_pct(),
            force_deci_n: self.filter.last_force_deci_n(),
            force_band: self.filter.force_band(),
            tof_mm: self.filter.last_tof_mm(),
            flipped,
        }
    }

    /// Advance the local clock by `dt_ms` (saturating) and inject a sample
    /// directly, for emulators that skip the UART.
    pub fn push_sample(&mut self, force_deci_n: u32, tof_mm: Option<u16>, motion: bool, dt_ms: u64) -> (r:
        SenseSnapshot)
        ensures
            final(self).clock() == saturating_add(old(self).clock(), dt_ms),
            final(self).buffered() == old(self).buffered(),
            final(self).config() == old(self).config(),
            final(self).state() == next_state(
                old(self).config(),
                old(self).state(),
                SenseSample { force_deci_n, tof_mm, motion, t_ms: final(self).clock() },
            ),
            r == snapshot_of(old(self).state(), final(self).state()),
    {
        self.t_ms = self.t_ms.saturating_add(dt_ms);
        let flipped = self.filter.update(SenseSample { force_deci_n, tof_mm, motion, t_ms: self.t_ms });
        self.snapshot(flipped)
    }

    /// Advance the local clock by `dt_ms` (saturating), decode `data`, and
    /// feed each sense frame to the filter; one snapshot per sense frame.
    pub fn push_bytes(&mut self, data: &[u8], dt_ms: u64) -> (r: Vec<SenseSnapshot>)
        ensures
            final(self).clock() == saturating_add(old(self).clock(), dt_ms),
            final(self).buffered() == drain_frames(old(self).buffered() + data@).0,
            final(self).config() == old(self).config(),
            ({
                let samples = sense_samples(
                    drain_frames(old(self).buffered() + data@).1,
                    final(self).clock(),
                );
                &&& final(self).state() == feed(old(self).config(), old(self).state(), samples)
                &&& r@ == snapshots(old(self).config(), old(self).state(), samples)
            }),
    {
        self.t_ms = self.t_ms.saturating_add(dt_ms);
        let frames: Vec<Frame> = self.decoder.push(data);
        let ghost fv = frames_view(frames@);
        let ghost cfg = self.filter.config();
        let ghost st0 = self.filter@;
        let t = self.t_ms;
        let mut out: Vec<SenseSnapshot> = Vec::new();
        let mut i: usize = 0;
        while i < frames.len()
            invariant
                i <= frames@.len(),
                fv == frames_view(frames@),
                fv.len() == frames@.len(),
                self.t_ms == t,
                self.filter.config() == cfg,
                self.filter@ == feed(cfg, st0, sense_samples(fv.take(i as int), t)),
                out@ == snapshots(cfg, st0, sense_samples(fv.take(i as int), t)),
                self.decoder.buffered() == drain_frames(old(self).decoder.buffered() + data@).0,
            decreases frames@.len() - i,
        {
            let ghost before = sense_samples(fv.take(i as int), t);
            assert(fv.take(i + 1).drop_last() =~= fv.take(i as int));
            assert(fv.take(i + 1).last() == frames@[i as int].view());
            let fr = &frames[i];
            if fr.msg == MsgType::Sense {
                match SensePayload::from_bytes(fr.payload.as_slice()) {
                    Some(p) => {
                        let tof = if p.tof_mm == 0 {
                            None
                        } else {
                            Some(p.tof_mm)
                        };
                        let s = SenseSample {
                            force_deci_n: p.force_deci_n as u32,
                            tof_mm: tof,
                            motion: p.motion(),
                            t_ms: t,
                        };
                        let ghost prev = self.filter@;
                        let flipped = self.filter.update(s);
                        let snap = self.snapshot(flipped);
                        out.push(snap);
                        proof {
                            let now = before.push(s);
                            assert(now.drop_last() =~= before);
                            assert(sense_samples(fv.take(i + 1), t) == now);
                        }
                    },
                    None => {},
                }
            }
            i = i + 1;
        }
        assert(fv.take(frames@.len() as int) =~= fv);
        out
    }
}

impl Default for SensePipeline {
    fn default() -> (r: Self)
        ensures
            r.buffered() == Seq::<u8>::empty(),
            r.config() == PresenceConfig::spec_default(),
            r.state() == PresenceFilter::initial_state(),
            r.clock() == 0,
    {
        SensePipeline::new()
    }
}

/// One whole frame pushed into an empty decoder is taken entirely: a sense
/// frame feeds the filter exactly the sample its payload encodes, and a frame
/// of any other type feeds nothing.
pub proof fn lemma_one_frame_one_sample(m: MsgType, payload: Seq<u8>, t: u64)
    requires
        payload.len() <= 255,
    ensures
        drain_frames(frame_bytes(m, payload)).0 == Seq::<u8>::empty(),
        sense_samples(drain_frames(frame_bytes(m, payload)).1, t) == (if m == MsgType::Sense
            && payload.len() >= 8 {
            seq![sample_of(SensePayload::spec_parse(payload), t)]
        } else {
            Seq::<SenseSample>::empty()
        }),
{
    lemma_encode_decode_roundtrip(m, payload);
    let fs = seq![(m, payload)];
    assert(fs.drop_last() =~= Seq::<(MsgType, Seq<u8>)>::empty());
    assert(sense_samples(Seq::<(MsgType, Seq<u8>)>::empty(), t) == Seq::<SenseSample>::empty());
    assert(Seq::<SenseSample>::empty().push(sample_of(SensePayload::spec_parse(payload), t))
        =~= seq![sample_of(SensePayload::spec_parse(payload), t)]);
}

} // verus!
