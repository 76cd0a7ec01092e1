//! MCU <-> SBC UART frame protocol (v1).
//!
//! Frame layout (little-endian):
//! `[0]=0xCA magic0  [1]=0x15 magic1  [2]=msg_type  [3]=payload_len
//!  [4..4+len]=payload  [last]=xor checksum of bytes [2..last)`
use vstd::prelude::*;

verus! {

pub const MAGIC0: u8 = 0xCA;

pub const MAGIC1: u8 = 0x15;

/// Message types of the UART link.
#[derive(Debug, Clone, Copy, PartialEq, Eq, Structural)]
pub enum MsgType {
    /// Periodic sensor sample from MCU to SBC.
    Sense,
    /// Button event MCU to SBC.
    Button,
    /// LED command SBC to MCU.
    Led,
    /// Heartbeat / ping either direction.
    Ping,
    Pong,
}

impl MsgType {
    /// The wire code of a message type.
    pub open spec fn code(self) -> u8 {
        match self {
            MsgType::Sense => 0x01,
            MsgType::Button => 0x02,
            MsgType::Led => 0x10,
            MsgType::Ping => 0x7E,
            MsgType::Pong => 0x7F,
        }
    }

    /// The message type a wire code names, if any.
    pub open spec fn spec_from_u8(v: u8) -> Option<MsgType> {
        if v == 0x01 {
            Some(MsgType::Sense)
        } else if v == 0x02 {
            Some(MsgType::Button)
        } else if v == 0x10 {
            Some(MsgType::Led)
        } else if v == 0x7E {
            Some(MsgType::Ping)
        } else if v == 0x7F {
            Some(MsgType::Pong)
        } else {
            None
        }
    }

    pub fn from_u8(v: u8) -> (r: Option<Self>)
        ensures
            r == Self::spec_from_u8(v),
    {
        match v {
            0x01 => Some(MsgType::Sense),
            0x02 => Some(MsgType::Button),
            0x10 => Some(MsgType::Led),
            0x7E => Some(MsgType::Ping),
            0x7F => Some(MsgType::Pong),
            _ => None,
        }
    }

    /// The wire code of this message type.
    pub fn to_u8(self) -> (r: u8)
        ensures
            r == self.code(),
    {
        match self {
            MsgType::Sense => 0x01,
            MsgType::Button => 0x02,
            MsgType::Led => 0x10,
            MsgType::Ping => 0x7E,
            MsgType::Pong => 0x7F,
        }
    }
}

/// A wire code names a message type exactly when it is that type's code,
/// so decoding a type's code gives the type back.
pub proof fn lemma_msg_type_code_roundtrip(m: MsgType, v: u8)
    ensures
        MsgType::spec_from_u8(m.code()) == Some(m),
        MsgType::spec_from_u8(v) == Some(m) <==> v == m.code(),
{
}

/// Little-endian bytes of a 16-bit value.
pub open spec fn le16(x: u16) -> Seq<u8> {
    seq![(x & 0xff) as u8, (x >> 8) as u8]
}

/// The 16-bit value of two little-endian bytes.
pub open spec fn from_le16(b0: u8, b1: u8) -> u16 {
    (b0 as u16) | ((b1 as u16) << 8)
}

proof fn lemma_le16_roundtrip(x: u16)
    ensures
        from_le16((x & 0xff) as u8, (x >> 8) as u8) == x,
{
    assert(((((x & 0xff) as u8) as u16) | ((((x >> 8) as u8) as u16) << 8)) == x) by (bit_vector);
}

/// 8-byte sense payload.
#[derive(Debug, Clone, Copy, PartialEq, Eq)]
pub struct SensePayload {
    /// Force in 0.1 N units.
    pub force_deci_n: u16,
    /// ToF distance mm (0 = invalid).
    pub tof_mm: u16,
    /// Bit0 motion recent.
    pub flags: u8,
    pub pad: [u8; 3],
}

impl SensePayload {
    /// The wire form of a sense payload.
    pub open spec fn spec_bytes(self) -> Seq<u8> {
        le16(self.force_deci_n) + le16(self.tof_mm) + seq![self.flags] + self.pad@
    }

    /// The payload that the first eight bytes of `b` hold.
    pub open spec fn spec_parse(b: Seq<u8>) -> SensePayload {
        SensePayload {
            force_deci_n: from_le16(b[0], b[1]),
            tof_mm: from_le16(b[2], b[3]),
            flags: b[4],
            pad: [b[5], b[6], b[7]],
        }
    }

    pub fn motion(self) -> (r: bool)
        ensures
            r == (self.flags & 1 != 0),
    {
        self.flags & 1 != 0
    }

    pub fn to_bytes(self) -> (r: [u8; 8])
        ensures
            r@ == self.spec_bytes(),
    {
        let r: [u8; 8] = [
            (self.force_deci_n & 0xff) as u8,
            (self.force_deci_n >> 8) as u8,
            (self.tof_mm & 0xff) as u8,
            (self.tof_mm >> 8) as u8,
            self.flags,
            self.pad[0],
            self.pad[1],
            self.pad[2],
        ];
        assert(r@ =~= self.spec_bytes());
        r
    }

    pub fn from_bytes(b: &[u8]) -> (r: Option<Self>)
        ensures
            b@.len() < 8 ==> r is None,
            b@.len() >= 8 ==> r == Some(Self::spec_parse(b@)),
    {
        if b.len() < 8 {
            return None;
        }
        let force_deci_n: u16 = (b[0] as u16) | ((b[1] as u16) << 8);
        let tof_mm: u16 = (b[2] as u16) | ((b[3] as u16) << 8);
        Some(SensePayload { force_deci_n, tof_mm, flags: b[4], pad: [b[5], b[6], b[7]] })
    }
}

/// Reading back the bytes of a sense payload gives the payload.
pub proof fn lemma_sense_payload_roundtrip(p: SensePayload)
    ensures
        p.spec_bytes().len() == 8,
        SensePayload::spec_parse(p.spec_bytes()) == p,
{
    lemma_le16_roundtrip(p.force_deci_n);
    lemma_le16_roundtrip(p.tof_mm);
    let b = p.spec_bytes();
    assert(b[5] == p.pad[0] && b[6] == p.pad[1] && b[7] == p.pad[2]);
    let q = SensePayload::spec_parse(b);
    assert(q.pad@ =~= p.pad@);
    vstd::array::lemma_array_index(q.pad, 0);
    assert(q.pad == p.pad);
}

/// Button payload: pad index + event.
#[derive(Debug, Clone, Copy, PartialEq, Eq, Structural)]
pub struct ButtonPayload {
    /// 0=Call, 1=Play, 2=Again, 3=Done
    pub pad: u8,
    /// 1=press, 2=release, 3=hold
    pub event: u8,
    pub hold_ms: u16,
}

impl ButtonPayload {
    /// The wire form of a button payload.
    pub open spec fn spec_bytes(self) -> Seq<u8> {
        seq![self.pad, self.event] + le16(self.hold_ms)
    }

    /// The payload that the first four bytes of `b` hold.
    pub open spec fn spec_parse(b: Seq<u8>) -> ButtonPayload {
        ButtonPayload { pad: b[0], event: b[1], hold_ms: from_le16(b[2], b[3]) }
    }

    pub fn to_bytes(self) -> (r: [u8; 4])
        ensures
            r@ == self.spec_bytes(),
    {
        let r: [u8; 4] = [
            self.pad,
            self.event,
            (self.hold_ms & 0xff) as u8,
            (self.hold_ms >> 8) as u8,
        ];
        assert(r@ =~= self.spec_bytes());
        r
    }

    pub fn from_bytes(b: &[u8]) -> (r: Option<Self>)
        ensures
            b@.len() < 4 ==> r is None,
            b@.len() >= 4 ==> r == Some(Self::spec_parse(b@)),
    {
        if b.len() < 4 {
            return None;
        }
        let hold_ms: u16 = (b[2] as u16) | ((b[3] as u16) << 8);
        Some(ButtonPayload { pad: b[0], event: b[1], hold_ms })
    }
}

/// Reading back the bytes of a button payload gives the payload.
pub proof fn lemma_button_payload_roundtrip(p: ButtonPayload)
    ensures
        p.spec_bytes().len() == 4,
        ButtonPayload::spec_parse(p.spec_bytes()) == p,
{
    lemma_le16_roundtrip(p.hold_ms);
}

/// XOR of all bytes, folded from the left starting at 0.
pub open spec fn xor_all(s: Seq<u8>) -> u8
    decreases s.len(),
{
    if s.len() == 0 {
        0
    } else {
        xor_all(s.drop_last()) ^ s.last()
    }
}

/// The checksum is the XOR of all bytes: nothing gives 0, one byte gives
/// that byte, and the checksum of a concatenation is the XOR of the
/// checksums of its parts.
pub proof fn lemma_xor_all_concat(a: Seq<u8>, b: Seq<u8>)
    ensures
        xor_all(Seq::<u8>::empty()) == 0,
        b.len() == 1 ==> xor_all(b) == b[0],
        xor_all(a + b) == xor_all(a) ^ xor_all(b),
    decreases b.len(),
{
    if b.len() == 1 {
        let x = b[0];
        assert(b.drop_last() =~= Seq::<u8>::empty());
        assert(0u8 ^ x == x) by (bit_vector);
    }
    if b.len() == 0 {
        assert(a + b =~= a);
        let y = xor_all(a);
        assert(y ^ 0u8 == y) by (bit_vector);
    } else {
        lemma_xor_all_concat(a, b.drop_last());
        assert((a + b).drop_last() =~= a + b.drop_last());
        assert((a + b).last() == b.last());
        let p = xor_all(a);
        let q = xor_all(b.drop_last());
        let z = b.last();
        assert((p ^ q) ^ z == p ^ (q ^ z)) by (bit_vector);
    }
}

pub fn checksum(bytes: &[u8]) -> (r: u8)
    ensures
        r == xor_all(bytes@),
{
    let mut acc: u8 = 0;
    let mut i: usize = 0;
    while i < bytes.len()
        invariant
            i <= bytes@.len(),
            acc == xor_all(bytes@.subrange(0, i as int)),
        decreases bytes@.len() - i,
    {
        assert(bytes@.subrange(0, i + 1).drop_last() =~= bytes@.subrange(0, i as int));
        acc = acc ^ bytes[i];
        i = i + 1;
    }
    assert(bytes@.subrange(0, i as int) =~= bytes@);
    acc
}

/// The bytes of the frame that carries `payload` as a message of type `m`.
pub open spec fn frame_bytes(m: MsgType, payload: Seq<u8>) -> Seq<u8> {
    let header = seq![m.code(), payload.len() as u8];
    seq![MAGIC0, MAGIC1] + header + payload + seq![xor_all(header + payload)]
}

/// Encode a frame.
pub fn encode(msg: MsgType, payload: &[u8]) -> (out: Vec<u8>)
    requires
        payload@.len() <= 255,
    ensures
        out@ == frame_bytes(msg, payload@),
{
    let mut out: Vec<u8> = Vec::with_capacity(5 + payload.len());
    out.push(MAGIC0);
    out.push(MAGIC1);
    out.push(msg.to_u8());
    out.push(payload.len() as u8);
    out.extend_from_slice(payload);
    let mut csum: u8 = 0;
    let mut i: usize = 2;
    while i < out.len()
        invariant
            2 <= i <= out@.len(),
            out@.len() == 4 + payload@.len(),
            out@ == seq![MAGIC0, MAGIC1, msg.code(), payload@.len() as u8] + payload@,
            csum == xor_all(out@.subrange(2, i as int)),
        decreases out@.len() - i,
    {
        assert(out@.subrange(2, i + 1).drop_last() =~= out@.subrange(2, i as int));
        csum = csum ^ out[i];
        i = i + 1;
    }
    let ghost header = seq![msg.code(), payload@.len() as u8];
    assert(out@.subrange(2, i as int) =~= header + payload@);
    out.push(csum);
    assert(out@ =~= frame_bytes(msg, payload@));
    out
}

/// A decoded frame.
#[derive(Debug, Clone, PartialEq, Eq)]
pub struct Frame {
    pub msg: MsgType,
    pub payload: Vec<u8>,
}

impl Frame {
    /// A frame as a message type and its payload bytes.
    pub open spec fn view(self) -> (MsgType, Seq<u8>) {
        (self.msg, self.payload@)
    }
}

/// The frames of a vector, each as a message type and payload bytes.
pub open spec fn frames_view(v: Seq<Frame>) -> Seq<(MsgType, Seq<u8>)> {
    v.map_values(|f: Frame| f.view())
}

/// Whether a magic pair starts at index `i` of `b`.
pub open spec fn magic_at(b: Seq<u8>, i: int) -> bool {
    b[i] == MAGIC0 && b[i + 1] == MAGIC1
}

/// Drop leading bytes until the buffer starts with the magic pair or holds
/// fewer than two bytes.
pub open spec fn resync(b: Seq<u8>) -> Seq<u8>
    decreases b.len(),
{
    if b.len() < 2 || magic_at(b, 0) {
        b
    } else {
        resync(b.drop_first())
    }
}

/// One decoding step on buffer `b`: the buffer that remains and the frame
/// taken, if one is taken. After resynchronising on the magic pair, a
/// complete frame with a good checksum and a known type is taken; a bad
/// checksum drops one byte; otherwise the step waits.
pub open spec fn pop_frame(b: Seq<u8>) -> (Seq<u8>, Option<(MsgType, Seq<u8>)>) {
    let s = resync(b);
    if s.len() < 5 {
        (s, None)
    } else {
        let plen = s[3] as int;
        let total = 5 + plen;
        if s.len() < total {
            (s, None)
        } else if s[4 + plen] != xor_all(s.subrange(2, 4 + plen)) {
            (s.drop_first(), None)
        } else {
            match MsgType::spec_from_u8(s[2]) {
                None => (s, None),
                Some(m) => (s.skip(total), Some((m, s.subrange(4, 4 + plen)))),
            }
        }
    }
}

pub proof fn lemma_resync_len(b: Seq<u8>)
    ensures
        resync(b).len() <= b.len(),
    decreases b.len(),
{
    if !(b.len() < 2 || magic_at(b, 0)) {
        lemma_resync_len(b.drop_first());
    }
}

pub proof fn lemma_pop_frame_shrinks(b: Seq<u8>)
    ensures
        pop_frame(b).1 is Some ==> pop_frame(b).0.len() < b.len(),
{
    lemma_resync_len(b);
}

/// Repeat decoding steps until one takes no frame: the buffer that remains
/// and the frames taken, in order.
pub open spec fn drain_frames(b: Seq<u8>) -> (Seq<u8>, Seq<(MsgType, Seq<u8>)>)
    decreases b.len(),
{
    let step = pop_frame(b);
    match step.1 {
        None => (step.0, Seq::empty()),
        Some(fr) => {
            proof {
                lemma_pop_frame_shrinks(b);
            }
            let rest = drain_frames(step.0);
            (rest.0, seq![fr] + rest.1)
        },
    }
}

/// Streaming frame decoder.
#[derive(Debug)]
pub struct FrameDecoder {
    buf: Vec<u8>,
}

impl FrameDecoder {
    /// The bytes buffered and not yet decoded.
    pub closed spec fn buffered(&self) -> Seq<u8> {
        self.buf@
    }

    pub fn new() -> (r: Self)
        ensures
            r.buffered() == Seq::<u8>::empty(),
    {
        FrameDecoder { buf: Vec::new() }
    }

    /// Append `data` and take every frame that can be decoded.
    pub fn push(&mut self, data: &[u8]) -> (frames: Vec<Frame>)
        ensures
            frames_view(frames@) == drain_frames(old(self).buffered() + data@).1,
            final(self).buffered() == drain_frames(old(self).buffered() + data@).0,
    {
        self.buf.extend_from_slice(data);
        let ghost start = self.buf@;
        assert(start == old(self).buf@ + data@);
        let mut frames: Vec<Frame> = Vec::new();
        loop
            invariant
                start == old(self).buf@ + data@,
                drain_frames(start).1 == frames_view(frames@) + drain_frames(self.buf@).1,
                drain_frames(start).0 == drain_frames(self.buf@).0,
            decreases self.buf@.len(),
        {
            let ghost before = self.buf@;
            match self.try_pop() {
                Some(f) => {
                    proof {
                        lemma_pop_frame_shrinks(before);
                    }
                    let ghost fv = frames_view(frames@);
                    frames.push(f);
                    assert(frames_view(frames@) =~= fv.push(f.view()));
                    assert(drain_frames(before).1 =~= seq![f.view()] + drain_frames(self.buf@).1);
                    assert(fv.push(f.view()) + drain_frames(self.buf@).1 =~= fv + (seq![f.view()]
                        + drain_frames(self.buf@).1));
                },
                None => {
                    assert(drain_frames(before) == (pop_frame(before).0, Seq::<
                        (MsgType, Seq<u8>),
                    >::empty()));
                    assert(drain_frames(before).1 =~= Seq::<(MsgType, Seq<u8>)>::empty());
                    assert(frames_view(frames@) + Seq::<(MsgType, Seq<u8>)>::empty()
                        =~= frames_view(frames@));
                    return frames;
                },
            }
        }
    }

    /// One decoding step (see `pop_frame`).
    fn try_pop(&mut self) -> (r: Option<Frame>)
        ensures
            final(self).buf@ == pop_frame(old(self).buf@).0,
            r matches Some(f) ==> pop_frame(old(self).buf@).1 == Some(f.view()),
            r is None ==> pop_frame(old(self).buf@).1 is None,
    {
        let ghost orig = self.buf@;
        loop
            invariant
                resync(self.buf@) == resync(orig),
            ensures
                self.buf@ == resync(orig),
            decreases self.buf@.len(),
        {
            if self.buf.len() < 2 || (self.buf[0] == MAGIC0 && self.buf[1] == MAGIC1) {
                break;
            }
            let ghost prev = self.buf@;
            self.buf.remove(0);
            assert(self.buf@ =~= prev.drop_first());
        }
        assert(self.buf@ == resync(orig));
        if self.buf.len() < 5 {
            return None;
        }
        let plen: usize = self.buf[3] as usize;
        let total: usize = 5 + plen;
        if self.buf.len() < total {
            return None;
        }
        let csum: u8 = self.buf[4 + plen];
        let expect: u8 = checksum_range(&self.buf, 2, 4 + plen);
        if csum != expect {
            let ghost prev = self.buf@;
            self.buf.remove(0);
            assert(self.buf@ =~= prev.drop_first());
            return None;
        }
        let msg = match MsgType::from_u8(self.buf[2]) {
            Some(m) => m,
            None => {
                return None;
            },
        };
        let mut payload: Vec<u8> = Vec::with_capacity(plen);
        let mut i: usize = 4;
        while i < 4 + plen
            invariant
                4 <= i <= 4 + plen,
                plen <= 255,
                4 + plen < self.buf@.len(),
                payload@ == self.buf@.subrange(4, i as int),
            decreases 4 + plen - i,
        {
            payload.push(self.buf[i]);
            i = i + 1;
            assert(payload@ =~= self.buf@.subrange(4, i as int));
        }
        let tail = self.buf.split_off(total);
        self.buf = tail;
        Some(Frame { msg, payload })
    }
}

/// XOR of `v[from..to]`.
fn checksum_range(v: &Vec<u8>, from: usize, to: usize) -> (r: u8)
    requires
        from <= to <= v@.len(),
    ensures
        r == xor_all(v@.subrange(from as int, to as int)),
{
    let mut acc: u8 = 0;
    let mut i: usize = from;
    while i < to
        invariant
            from <= i <= to <= v@.len(),
            acc == xor_all(v@.subrange(from as int, i as int)),
        decreases to - i,
    {
        assert(v@.subrange(from as int, i + 1).drop_last() =~= v@.subrange(from as int, i as int));
        acc = acc ^ v[i];
        i = i + 1;
    }
    acc
}

/// Decoding a buffer that starts with a whole frame takes that frame first
/// and then decodes the rest of the buffer as if the frame had not been
/// there.
pub proof fn lemma_decode_frame_then_rest(m: MsgType, payload: Seq<u8>, rest: Seq<u8>)
    requires
        payload.len() <= 255,
    ensures
        drain_frames(frame_bytes(m, payload) + rest).0 == drain_frames(rest).0,
        drain_frames(frame_bytes(m, payload) + rest).1 == seq![(m, payload)] + drain_frames(
            rest,
        ).1,
{
    let s = frame_bytes(m, payload) + rest;
    let plen = payload.len() as int;
    let header = seq![m.code(), payload.len() as u8];
    assert(s[0] == MAGIC0 && s[1] == MAGIC1);
    assert(resync(s) == s);
    assert(s[3] as int == plen);
    assert(s.subrange(2, 4 + plen) =~= header + payload);
    assert(s[4 + plen] == xor_all(header + payload));
    assert(s[2] == m.code());
    lemma_msg_type_code_roundtrip(m, s[2]);
    assert(s.skip(5 + plen) =~= rest);
    assert(s.subrange(4, 4 + plen) =~= payload);
    assert(pop_frame(s) == (rest, Some((m, payload))));
}

/// Decoding the bytes of one encoded frame gives exactly that frame and
/// leaves nothing buffered.
pub proof fn lemma_encode_decode_roundtrip(m: MsgType, payload: Seq<u8>)
    requires
        payload.len() <= 255,
    ensures
        drain_frames(frame_bytes(m, payload)) == (Seq::<u8>::empty(), seq![(m, payload)]),
{
    let e = Seq::<u8>::empty();
    lemma_decode_frame_then_rest(m, payload, e);
    assert(frame_bytes(m, payload) + e =~= frame_bytes(m, payload));
    assert(resync(e) == e);
    assert(drain_frames(e) == (e, Seq::<(MsgType, Seq<u8>)>::empty()));
    assert(seq![(m, payload)] + Seq::<(MsgType, Seq<u8>)>::empty() =~= seq![(m, payload)]);
}

/// Whether `junk` holds no magic pair.
pub open spec fn no_magic_pair(junk: Seq<u8>) -> bool {
    forall|i: int| 0 <= i < junk.len() - 1 ==> !magic_at(junk, i)
}

proof fn lemma_resync_skips_junk(junk: Seq<u8>, rest: Seq<u8>)
    requires
        no_magic_pair(junk),
        rest.len() >= 2,
        magic_at(rest, 0),
    ensures
        resync(junk + rest) == rest,
    decreases junk.len(),
{
    if junk.len() == 0 {
        assert(junk + rest =~= rest);
    } else {
        let s = junk + rest;
        if junk.len() == 1 {
            assert(s[1] == MAGIC0);
        } else {
            assert(!magic_at(junk, 0));
        }
        assert(!magic_at(s, 0));
        assert(s.drop_first() =~= junk.drop_first() + rest);
        assert forall|i: int| 0 <= i < junk.drop_first().len() - 1 implies !magic_at(
            junk.drop_first(),
            i,
        ) by {
            assert(!magic_at(junk, i + 1));
        }
        lemma_resync_skips_junk(junk.drop_first(), rest);
    }
}

/// Leading garbage that holds no magic pair is skipped: decoding garbage
/// followed by an encoded frame gives exactly that frame.
pub proof fn lemma_resync_after_garbage(junk: Seq<u8>, m: MsgType, payload: Seq<u8>)
    requires
        payload.len() <= 255,
        no_magic_pair(junk),
    ensures
        drain_frames(junk + frame_bytes(m, payload)) == (Seq::<u8>::empty(), seq![(m, payload)]),
{
    let f = frame_bytes(m, payload);
    lemma_resync_skips_junk(junk, f);
    lemma_encode_decode_roundtrip(m, payload);
    let s = junk + f;
    assert(resync(s) == resync(f));
    assert(pop_frame(s) == pop_frame(f));
}

/// The bytes of a run of frames, one after another.
pub open spec fn frames_bytes(fs: Seq<(MsgType, Seq<u8>)>) -> Seq<u8>
    decreases fs.len(),
{
    if fs.len() == 0 {
        Seq::empty()
    } else {
        frame_bytes(fs[0].0, fs[0].1) + frames_bytes(fs.drop_first())
    }
}

/// Whether every payload of a run of frames fits its length byte.
pub open spec fn payloads_fit(fs: Seq<(MsgType, Seq<u8>)>) -> bool {
    forall|i: int| 0 <= i < fs.len() ==> #[trigger] fs[i].1.len() <= 255
}

/// Chunks joined in order.
pub open spec fn concat_chunks(chunks: Seq<Seq<u8>>) -> Seq<u8>
    decreases chunks.len(),
{
    if chunks.len() == 0 {
        Seq::empty()
    } else {
        chunks[0] + concat_chunks(chunks.drop_first())
    }
}

/// Pushing chunks one by one into a decoder that holds `buf` (as
/// `FrameDecoder::push` does): the bytes left buffered and the frames taken,
/// in order.
pub open spec fn push_chunks(buf: Seq<u8>, chunks: Seq<Seq<u8>>) -> (Seq<u8>, Seq<(MsgType, Seq<u8>)>)
    decreases chunks.len(),
{
    if chunks.len() == 0 {
        (buf, Seq::empty())
    } else {
        let d = drain_frames(buf + chunks[0]);
        let r = push_chunks(d.0, chunks.drop_first());
        (r.0, d.1 + r.1)
    }
}

/// Where the first `k` bytes of a run of frames end: the frames they hold
/// whole, and the start of the next frame.
pub open spec fn split_frames(fs: Seq<(MsgType, Seq<u8>)>, k: int) -> (Seq<(MsgType, Seq<u8>)>, Seq<u8>)
    decreases fs.len(),
{
    if fs.len() == 0 {
        (Seq::empty(), Seq::empty())
    } else {
        let f = frame_bytes(fs[0].0, fs[0].1);
        if k < f.len() {
            (Seq::empty(), f.take(k))
        } else {
            let r = split_frames(fs.drop_first(), k - f.len());
            (seq![fs[0]] + r.0, r.1)
        }
    }
}

proof fn lemma_frame_bytes_len(m: MsgType, p: Seq<u8>)
    ensures
        frame_bytes(m, p).len() == p.len() + 5,
{
}

proof fn lemma_frames_bytes_len(fs: Seq<(MsgType, Seq<u8>)>)
    ensures
        frames_bytes(fs).len() >= 0,
        fs.len() > 0 ==> frames_bytes(fs).len() == fs[0].1.len() + 5 + frames_bytes(fs.drop_first()).len(),
{
}

/// A proper start of a frame's bytes takes no frame and stays buffered.
proof fn lemma_partial_frame_waits(m: MsgType, p: Seq<u8>, k: int)
    requires
        p.len() <= 255,
        0 <= k < frame_bytes(m, p).len(),
    ensures
        drain_frames(frame_bytes(m, p).take(k)) == (frame_bytes(m, p).take(k), Seq::<(MsgType, Seq<u8>)>::empty()),
{
    let q = frame_bytes(m, p).take(k);
    let f = frame_bytes(m, p);
    assert(f[0] == MAGIC0 && f[1] == MAGIC1);
    if k >= 2 {
        assert(q[0] == MAGIC0 && q[1] == MAGIC1);
        assert(magic_at(q, 0));
        assert(resync(q) == q);
        if k >= 5 {
            assert(q[3] == f[3]);
            assert(f[3] as int == p.len());
        }
    } else {
        assert(resync(q) == q);
    }
    assert(pop_frame(q).1 is None);
}

/// Whole frames followed by the start of another decode to those frames,
/// with the start left buffered.
proof fn lemma_frames_then_partial(gs: Seq<(MsgType, Seq<u8>)>, q: Seq<u8>)
    requires
        payloads_fit(gs),
        drain_frames(q) == (q, Seq::<(MsgType, Seq<u8>)>::empty()),
    ensures
        drain_frames(frames_bytes(gs) + q) == (q, gs),
    decreases gs.len(),
{
    if gs.len() == 0 {
        assert(frames_bytes(gs) + q =~= q);
        assert(gs =~= Seq::<(MsgType, Seq<u8>)>::empty());
    } else {
        let rest = gs.drop_first();
        assert(gs[0].1.len() <= 255);
        assert forall|i: int| 0 <= i < rest.len() implies #[trigger] rest[i].1.len() <= 255 by {
            assert(rest[i] == gs[i + 1]);
        }
        lemma_frames_then_partial(rest, q);
        lemma_decode_frame_then_rest(gs[0].0, gs[0].1, frames_bytes(rest) + q);
        assert(frames_bytes(gs) + q =~= frame_bytes(gs[0].0, gs[0].1) + (frames_bytes(rest) + q));
        assert(seq![(gs[0].0, gs[0].1)] + rest =~= gs);
    }
}

/// How the bytes between two cut points of a run of frames look: the start
/// left at the first cut plus the bytes up to the second are the frames
/// completed between them plus the start left at the second.
proof fn lemma_split_step(fs: Seq<(MsgType, Seq<u8>)>, k: int, k2: int)
    requires
        payloads_fit(fs),
        0 <= k <= k2 <= frames_bytes(fs).len(),
    ensures
        split_frames(fs, k).0.len() <= split_frames(fs, k2).0.len(),
        split_frames(fs, k2).0.take(split_frames(fs, k).0.len() as int) == split_frames(fs, k).0,
        split_frames(fs, k).1 + frames_bytes(fs).subrange(k, k2) == frames_bytes(
            split_frames(fs, k2).0.skip(split_frames(fs, k).0.len() as int),
        ) + split_frames(fs, k2).1,
        split_frames(fs, k2).0.len() <= fs.len(),
        split_frames(fs, k2).0 == fs.take(split_frames(fs, k2).0.len() as int),
        k2 == frames_bytes(fs).len() ==> split_frames(fs, k2) == (fs, Seq::<u8>::empty()),
        split_frames(fs, k2).0.len() < fs.len() ==> {
            let j = split_frames(fs, k2).0.len() as int;
            &&& split_frames(fs, k2).1.len() < frame_bytes(fs[j].0, fs[j].1).len()
            &&& split_frames(fs, k2).1 == frame_bytes(fs[j].0, fs[j].1).take(split_frames(fs, k2).1.len() as int)
        },
        split_frames(fs, k2).0.len() == fs.len() ==> split_frames(fs, k2).1.len() == 0,
    decreases fs.len(),
{
    let e = Seq::<(MsgType, Seq<u8>)>::empty();
    if fs.len() == 0 {
        assert(fs.take(0) =~= e);
        assert(frames_bytes(fs).subrange(k, k2) =~= Seq::<u8>::empty());
        assert(e.skip(0) =~= e);
        assert(Seq::<u8>::empty() + Seq::<u8>::empty() =~= Seq::<u8>::empty());
    } else {
        let f = frame_bytes(fs[0].0, fs[0].1);
        let n = f.len() as int;
        let rest = fs.drop_first();
        let rb = frames_bytes(rest);
        let all = frames_bytes(fs);
        assert(all =~= f + rb);
        assert(fs[0].1.len() <= 255);
        assert forall|i: int| 0 <= i < rest.len() implies #[trigger] rest[i].1.len() <= 255 by {
            assert(rest[i] == fs[i + 1]);
        }
        if k2 < n {
            assert(f.take(k) + all.subrange(k, k2) =~= f.take(k2));
            assert(e.skip(0) =~= e);
            assert(frames_bytes(e) + f.take(k2) =~= f.take(k2));
            assert(fs.take(0) =~= e);
        } else if k < n {
            lemma_split_step(rest, 0, k2 - n);
            let r = split_frames(rest, k2 - n);
            let r0 = split_frames(rest, 0);
            if rest.len() > 0 {
                assert(r0 == (e, frame_bytes(rest[0].0, rest[0].1).take(0)));
                assert(frame_bytes(rest[0].0, rest[0].1).take(0) =~= Seq::<u8>::empty());
            } else {
                assert(r0 == (e, Seq::<u8>::empty()));
            }
            assert(r.0.skip(0) =~= r.0);
            assert(rb.subrange(0, k2 - n) == frames_bytes(r.0) + r.1) by {
                assert(Seq::<u8>::empty() + rb.subrange(0, k2 - n) =~= rb.subrange(0, k2 - n));
            }
            assert(f.take(k) + all.subrange(k, k2) =~= f + rb.subrange(0, k2 - n));
            let whole = seq![fs[0]] + r.0;
            assert(whole.drop_first() =~= r.0);
            assert(whole[0] == fs[0]);
            assert(whole.skip(0) =~= whole);
            assert(frames_bytes(whole) == f + frames_bytes(r.0));
            assert(f + (frames_bytes(r.0) + r.1) =~= (f + frames_bytes(r.0)) + r.1);
            assert(whole.take(0) =~= e);
            assert(whole =~= fs.take(whole.len() as int)) by {
                assert(r.0 == rest.take(r.0.len() as int));
                assert forall|i: int| 0 <= i < whole.len() implies whole[i] == fs[i] by {
                    if i > 0 {
                        assert(whole[i] == r.0[i - 1]);
                        assert(rest.take(r.0.len() as int)[i - 1] == rest[i - 1]);
                    }
                }
            }
            if k2 == all.len() {
                assert(k2 - n == rb.len());
                assert(whole =~= fs);
            }
            if whole.len() < fs.len() {
                assert(fs[whole.len() as int] == rest[r.0.len() as int]);
            }
        } else {
            lemma_split_step(rest, k - n, k2 - n);
            let a = split_frames(rest, k - n);
            let b = split_frames(rest, k2 - n);
            assert(all.subrange(k, k2) =~= rb.subrange(k - n, k2 - n));
            let wa = seq![fs[0]] + a.0;
            let wb = seq![fs[0]] + b.0;
            assert(wb.skip(wa.len() as int) =~= b.0.skip(a.0.len() as int));
            assert(wb.take(wa.len() as int) =~= wa) by {
                assert(b.0.take(a.0.len() as int) == a.0);
            }
            assert(wb =~= fs.take(wb.len() as int)) by {
                assert(b.0 == rest.take(b.0.len() as int));
                assert forall|i: int| 0 <= i < wb.len() implies wb[i] == fs[i] by {
                    if i > 0 {
                        assert(wb[i] == b.0[i - 1]);
                        assert(rest.take(b.0.len() as int)[i - 1] == rest[i - 1]);
                    }
                }
            }
            if k2 == all.len() {
                assert(wb =~= fs);
            }
            if wb.len() < fs.len() {
                assert(fs[wb.len() as int] == rest[b.0.len() as int]);
            }
        }
    }
}

/// Pushing, from a cut point, the chunks that make up the rest of a run of
/// frames takes exactly the frames after the cut and leaves nothing.
proof fn lemma_push_rest(fs: Seq<(MsgType, Seq<u8>)>, k: int, chunks: Seq<Seq<u8>>)
    requires
        payloads_fit(fs),
        0 <= k <= frames_bytes(fs).len(),
        concat_chunks(chunks) == frames_bytes(fs).skip(k),
    ensures
        push_chunks(split_frames(fs, k).1, chunks) == (Seq::<u8>::empty(), fs.skip(
            split_frames(fs, k).0.len() as int,
        )),
    decreases chunks.len(),
{
    let all = frames_bytes(fs);
    lemma_split_step(fs, k, k);
    if chunks.len() == 0 {
        assert(all.skip(k).len() == 0);
        assert(k == all.len());
        lemma_split_step(fs, k, all.len() as int);
        assert(fs.skip(fs.len() as int) =~= Seq::<(MsgType, Seq<u8>)>::empty());
    } else {
        let c = chunks[0];
        let k2 = k + c.len();
        assert(all.skip(k) =~= c + concat_chunks(chunks.drop_first()));
        assert(k2 <= all.len());
        assert(all.subrange(k, k2) =~= c) by {
            assert forall|i: int| 0 <= i < c.len() implies all.subrange(k, k2)[i] == c[i] by {
                assert(all.skip(k)[i] == c[i]);
            }
        }
        assert(concat_chunks(chunks.drop_first()) =~= all.skip(k2)) by {
            assert forall|i: int| 0 <= i < all.skip(k2).len() implies concat_chunks(
                chunks.drop_first(),
            )[i] == all.skip(k2)[i] by {
                assert(all.skip(k)[c.len() + i] == all[k2 + i]);
            }
        }
        lemma_split_step(fs, k, k2);
        let a = split_frames(fs, k);
        let b = split_frames(fs, k2);
        let mid = b.0.skip(a.0.len() as int);
        assert forall|i: int| 0 <= i < mid.len() implies #[trigger] mid[i].1.len() <= 255 by {
            assert(mid[i] == b.0[a.0.len() + i]);
            assert(fs.take(b.0.len() as int)[a.0.len() + i] == fs[a.0.len() + i]);
        }
        if b.0.len() < fs.len() {
            let j = b.0.len() as int;
            assert(fs[j].1.len() <= 255);
            lemma_partial_frame_waits(fs[j].0, fs[j].1, b.1.len() as int);
        } else {
            assert(b.1 =~= Seq::<u8>::empty());
            assert(resync(b.1) == b.1);
        }
        lemma_frames_then_partial(mid, b.1);
        lemma_push_rest(fs, k2, chunks.drop_first());
        assert(mid + fs.skip(b.0.len() as int) =~= fs.skip(a.0.len() as int)) by {
            assert(b.0 == fs.take(b.0.len() as int));
        }
    }
}

/// However a stream of whole frames is cut into chunks, pushing the chunks
/// one by one into a fresh decoder takes exactly those frames, in order,
/// none lost or repeated, and leaves nothing buffered.
pub proof fn lemma_chunking(fs: Seq<(MsgType, Seq<u8>)>, chunks: Seq<Seq<u8>>)
    requires
        payloads_fit(fs),
        concat_chunks(chunks) == frames_bytes(fs),
    ensures
        push_chunks(Seq::<u8>::empty(), chunks) == (Seq::<u8>::empty(), fs),
{
    assert(frames_bytes(fs).skip(0) =~= frames_bytes(fs));
    lemma_push_rest(fs, 0, chunks);
    if fs.len() > 0 {
        assert(frame_bytes(fs[0].0, fs[0].1).take(0) =~= Seq::<u8>::empty());
    }
    assert(fs.skip(0) =~= fs);
}

/// Whether the bytes at `i` of `s`, read as a frame (magic pair, type,
/// length, payload, checksum), are all there but fail their checksum.
pub open spec fn fails_checksum_at(s: Seq<u8>, i: int) -> bool {
    let len = s[i + 3] as int;
    &&& i + 5 + len <= s.len()
    &&& s[i + 4 + len] != xor_all(s.subrange(i + 2, i + 4 + len))
}

/// Whether every magic pair that starts within `junk`, ahead of `rest`,
/// opens bytes that are all there but fail their checksum.
pub open spec fn only_bad_frames(junk: Seq<u8>, rest: Seq<u8>) -> bool {
    forall|i: int|
        #![trigger magic_at(junk + rest, i)]
        0 <= i < junk.len() && magic_at(junk + rest, i) ==> fails_checksum_at(junk + rest, i)
}

/// `n` empty chunks.
pub open spec fn empty_chunks(n: nat) -> Seq<Seq<u8>> {
    Seq::new(n, |i: int| Seq::<u8>::empty())
}

proof fn lemma_only_bad_frames_skip(junk: Seq<u8>, rest: Seq<u8>, k: int)
    requires
        0 <= k <= junk.len(),
        rest.len() > 0,
        only_bad_frames(junk, rest),
    ensures
        only_bad_frames(junk.skip(k), rest),
{
    let s = junk + rest;
    let t = junk.skip(k) + rest;
    assert(t =~= s.skip(k));
    assert forall|i: int|
        #![trigger magic_at(junk.skip(k) + rest, i)]
        0 <= i < junk.skip(k).len() && magic_at(junk.skip(k) + rest, i) implies fails_checksum_at(
        junk.skip(k) + rest,
        i,
    ) by {
        assert(t[i] == s[i + k] && t[i + 1] == s[i + k + 1]);
        assert(magic_at(s, i + k));
        assert(fails_checksum_at(s, i + k));
        let len = s[i + k + 3] as int;
        assert(t[i + 3] == s[i + k + 3]);
        assert(t[i + 4 + len] == s[i + k + 4 + len]);
        assert(t.subrange(i + 2, i + 4 + len) =~= s.subrange(i + k + 2, i + k + 4 + len));
    }
}

/// One push of garbage followed by a whole frame: either the frame comes
/// out and nothing is left, or nothing comes out and a proper tail of the
/// garbage is left ahead of the frame.
proof fn lemma_drain_past_bad_frame(junk: Seq<u8>, m: MsgType, p: Seq<u8>) -> (j: int)
    requires
        p.len() <= 255,
        only_bad_frames(junk, frame_bytes(m, p)),
    ensures
        0 <= j <= junk.len(),
        j == 0 ==> drain_frames(junk + frame_bytes(m, p)) == (Seq::<u8>::empty(), seq![(m, p)]),
        j > 0 ==> drain_frames(junk + frame_bytes(m, p)) == (
            junk.skip(j) + frame_bytes(m, p),
            Seq::<(MsgType, Seq<u8>)>::empty(),
        ),
        j > 0 ==> only_bad_frames(junk.skip(j), frame_bytes(m, p)),
    decreases junk.len(),
{
    let f = frame_bytes(m, p);
    let s = junk + f;
    if junk.len() == 0 {
        assert(s =~= f);
        lemma_encode_decode_roundtrip(m, p);
        return 0;
    }
    assert(s.drop_first() =~= junk.skip(1) + f);
    lemma_only_bad_frames_skip(junk, f, 1);
    if magic_at(s, 0) {
        assert(fails_checksum_at(s, 0));
        assert(resync(s) == s);
        assert(pop_frame(s) == (s.drop_first(), None::<(MsgType, Seq<u8>)>));
        1
    } else {
        assert(s.len() >= 2);
        assert(resync(s) == resync(s.drop_first()));
        assert(pop_frame(s) == pop_frame(s.drop_first()));
        let j1 = lemma_drain_past_bad_frame(junk.skip(1), m, p);
        assert(drain_frames(s) == drain_frames(s.drop_first()));
        if j1 == 0 {
            0
        } else {
            assert(junk.skip(1).skip(j1) =~= junk.skip(1 + j1));
            1 + j1
        }
    }
}

proof fn lemma_push_empties_on_empty(n: nat)
    ensures
        push_chunks(Seq::<u8>::empty(), empty_chunks(n)) == (
            Seq::<u8>::empty(),
            Seq::<(MsgType, Seq<u8>)>::empty(),
        ),
    decreases n,
{
    let e = Seq::<u8>::empty();
    if n > 0 {
        assert(empty_chunks(n)[0] == e);
        assert(e + e =~= e);
        assert(resync(e) == e);
        assert(drain_frames(e) == (e, Seq::<(MsgType, Seq<u8>)>::empty()));
        assert(empty_chunks(n).drop_first() =~= empty_chunks((n - 1) as nat));
        lemma_push_empties_on_empty((n - 1) as nat);
        assert(Seq::<(MsgType, Seq<u8>)>::empty() + Seq::<(MsgType, Seq<u8>)>::empty()
            =~= Seq::<(MsgType, Seq<u8>)>::empty());
    }
}

/// A frame cut off by a reset, or any other garbage, ahead of a whole frame
/// costs no frame: when every magic pair in the garbage opens bytes that
/// fail their checksum, pushing the garbage with the frame, then one empty
/// push per byte of garbage, takes exactly that frame and leaves nothing
/// buffered. A bad checksum gives up only the byte it starts at, so the
/// decoder resynchronises on a magic pair inside the bad frame's span.
pub proof fn lemma_resync_after_bad_frames(junk: Seq<u8>, m: MsgType, p: Seq<u8>, n: nat)
    requires
        p.len() <= 255,
        only_bad_frames(junk, frame_bytes(m, p)),
        n >= junk.len(),
    ensures
        push_chunks(Seq::<u8>::empty(), seq![junk + frame_bytes(m, p)] + empty_chunks(n)) == (
            Seq::<u8>::empty(),
            seq![(m, p)],
        ),
    decreases junk.len(),
{
    let e = Seq::<u8>::empty();
    let none = Seq::<(MsgType, Seq<u8>)>::empty();
    let f = frame_bytes(m, p);
    let chunks = seq![junk + f] + empty_chunks(n);
    assert(chunks[0] == junk + f);
    assert(chunks.drop_first() =~= empty_chunks(n));
    assert(e + (junk + f) =~= junk + f);
    let j = lemma_drain_past_bad_frame(junk, m, p);
    if j == 0 {
        lemma_push_empties_on_empty(n);
        assert(seq![(m, p)] + none =~= seq![(m, p)]);
    } else {
        let b = junk.skip(j) + f;
        let n1 = (n - 1) as nat;
        assert(empty_chunks(n)[0] == e);
        assert(b + e =~= b);
        assert(empty_chunks(n).drop_first() =~= empty_chunks(n1));
        let c2 = seq![b] + empty_chunks(n1);
        assert(c2[0] == b);
        assert(c2.drop_first() =~= empty_chunks(n1));
        assert(e + b =~= b);
        lemma_push_past_bad_frames_step(b, n);
        lemma_resync_after_bad_frames(junk.skip(j), m, p, n1);
        assert(none + seq![(m, p)] =~= seq![(m, p)]);
    }
}

/// Pushing nothing onto buffered bytes decodes as pushing those bytes onto
/// an empty decoder.
proof fn lemma_push_past_bad_frames_step(b: Seq<u8>, n: nat)
    requires
        n > 0,
    ensures
        push_chunks(b, empty_chunks(n)) == push_chunks(
            Seq::<u8>::empty(),
            seq![b] + empty_chunks((n - 1) as nat),
        ),
{
    let e = Seq::<u8>::empty();
    let c2 = seq![b] + empty_chunks((n - 1) as nat);
    assert(empty_chunks(n)[0] == e);
    assert(b + e =~= b);
    assert(e + b =~= b);
    assert(c2[0] == b);
    assert(empty_chunks(n).drop_first() =~= empty_chunks((n - 1) as nat));
    assert(c2.drop_first() =~= empty_chunks((n - 1) as nat));
}

} // verus!
