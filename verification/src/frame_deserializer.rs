//! Byte-at-a-time frame-reassembly state machine.
//!
//! The deserializer consumes one raw wire byte per call. A raw leading flag
//! always resynchronizes the stream, whatever the current state; an escape
//! flag defers to the following escape code; everything else feeds the body
//! logic of the current state. A frame is yielded only when the trailing
//! checksum byte closes a well-formed frame; every other path produces
//! nothing and either advances or silently resynchronizes.

use vstd::prelude::*;

use crate::crc::{CRC8, CRC8_INIT, crc8_push};
use crate::frame::{
    ESCAPE_FLAG, Frame, FrameView, HEADER_PAYLOAD_LENGTH_MASK, HEADER_SERVICE_BIT_SHIFT,
    LEADING_FLAG, MAX_PAYLOAD_LENGTH, MAX_SERVICE,
};

verus! {

/// States of the reassembly machine, in the order a frame passes them.
pub enum State {
    SearchSof,
    ReadHeader,
    ReadPayload,
    ReadCrc,
}

/// The mathematical content of a [`FrameDeserializer`]: machine state,
/// partially reassembled frame, checksum register and escape flag.
#[verifier::ext_equal]
pub struct DeserView {
    pub state: State,
    pub service: u8,
    pub length: u8,
    pub payload: Seq<u8>,
    pub crc: u8,
    pub stuff_byte: bool,
}

impl DeserView {
    /// Structural invariant of every reachable deserializer state.
    pub open spec fn wf(self) -> bool {
        &&& self.service <= MAX_SERVICE
        &&& self.length as nat <= MAX_PAYLOAD_LENGTH
        &&& (self.state is ReadPayload ==> self.payload.len() < self.length as nat)
        &&& (self.state is ReadCrc ==> self.payload.len() == self.length as nat)
    }
}

/// The state of a freshly constructed (or just reset) deserializer.
pub open spec fn spec_fresh() -> DeserView {
    DeserView {
        state: State::SearchSof,
        service: 0,
        length: 0,
        payload: Seq::empty(),
        crc: CRC8_INIT,
        stuff_byte: false,
    }
}

/// The state right after a leading flag: reset, expecting the header byte.
pub open spec fn spec_resynced() -> DeserView {
    DeserView {
        state: State::ReadHeader,
        service: 0,
        length: 0,
        payload: Seq::empty(),
        crc: CRC8_INIT,
        stuff_byte: false,
    }
}

/// The body logic of one decoded (unescaped) content byte: next state and
/// the frame yielded, if any.
pub open spec fn spec_apply_core(d: DeserView, b: u8) -> (DeserView, Option<FrameView>) {
    match d.state {
        State::SearchSof => (d, None),
        State::ReadHeader => {
            let len = b & HEADER_PAYLOAD_LENGTH_MASK;
            (
                DeserView {
                    state: if len > 0 {
                        State::ReadPayload
                    } else {
                        State::ReadCrc
                    },
                    service: b >> HEADER_SERVICE_BIT_SHIFT,
                    length: len,
                    payload: Seq::empty(),
                    crc: crc8_push(d.crc, b),
                    stuff_byte: d.stuff_byte,
                },
                None,
            )
        },
        State::ReadPayload => {
            let payload = d.payload.push(b);
            (
                DeserView {
                    state: if payload.len() >= d.length as nat {
                        State::ReadCrc
                    } else {
                        State::ReadPayload
                    },
                    service: d.service,
                    length: d.length,
                    payload,
                    crc: crc8_push(d.crc, b),
                    stuff_byte: d.stuff_byte,
                },
                None,
            )
        },
        State::ReadCrc => {
            if crc8_push(d.crc, b) != 0 {
                (spec_fresh(), None)
            } else {
                (spec_fresh(), Some(FrameView { service: d.service, payload: d.payload }))
            }
        },
    }
}

/// One raw wire byte applied to the machine: flag detection first, then a
/// pending escape code, then an escape flag, then the body logic.
pub open spec fn spec_apply(d: DeserView, input: u8) -> (DeserView, Option<FrameView>) {
    if input == LEADING_FLAG {
        (spec_resynced(), None)
    } else if d.stuff_byte {
        let d1 = DeserView {
            state: d.state,
            service: d.service,
            length: d.length,
            payload: d.payload,
            crc: d.crc,
            stuff_byte: false,
        };
        if input == 0x05 {
            spec_apply_core(d1, 0x55)
        } else if input == 0x0A {
            spec_apply_core(d1, 0xAA)
        } else {
            (spec_fresh(), None)
        }
    } else if input == ESCAPE_FLAG {
        (
            DeserView {
                state: d.state,
                service: d.service,
                length: d.length,
                payload: d.payload,
                crc: d.crc,
                stuff_byte: true,
            },
            None,
        )
    } else {
        spec_apply_core(d, input)
    }
}

/// The frames yielded by one byte, as a sequence of length zero or one.
pub open spec fn spec_yield(out: Option<FrameView>) -> Seq<FrameView> {
    match out {
        Some(f) => seq![f],
        None => Seq::empty(),
    }
}

/// The machine state after feeding `bytes`, one raw byte at a time, into
/// state `d`.
pub open spec fn spec_feed(d: DeserView, bytes: Seq<u8>) -> DeserView
    decreases bytes.len(),
{
    if bytes.len() == 0 {
        d
    } else {
        spec_feed(spec_apply(d, bytes[0]).0, bytes.skip(1))
    }
}

/// All frames yielded while feeding `bytes`, one raw byte at a time, into
/// state `d`.
pub open spec fn spec_outputs(d: DeserView, bytes: Seq<u8>) -> Seq<FrameView>
    decreases bytes.len(),
{
    if bytes.len() == 0 {
        Seq::empty()
    } else {
        spec_yield(spec_apply(d, bytes[0]).1) + spec_outputs(
            spec_apply(d, bytes[0]).0,
            bytes.skip(1),
        )
    }
}

/// Feeding a concatenation feeds the parts in turn.
pub proof fn lemma_feed_append(d: DeserView, a: Seq<u8>, b: Seq<u8>)
    ensures
        spec_feed(d, a + b) == spec_feed(spec_feed(d, a), b),
        spec_outputs(d, a + b) == spec_outputs(d, a) + spec_outputs(spec_feed(d, a), b),
    decreases a.len(),
{
    if a.len() == 0 {
        assert(a + b =~= b);
        assert(spec_outputs(d, a) + spec_outputs(d, b) =~= spec_outputs(d, b));
    } else {
        assert((a + b)[0] == a[0]);
        assert((a + b).skip(1) =~= a.skip(1) + b);
        let d2 = spec_apply(d, a[0]).0;
        lemma_feed_append(d2, a.skip(1), b);
        assert(spec_yield(spec_apply(d, a[0]).1) + (spec_outputs(d2, a.skip(1)) + spec_outputs(
            spec_feed(d2, a.skip(1)),
            b,
        )) =~= (spec_yield(spec_apply(d, a[0]).1) + spec_outputs(d2, a.skip(1))) + spec_outputs(
            spec_feed(d2, a.skip(1)),
            b,
        ));
    }
}

/// Feeding a single byte is one application of the machine.
pub proof fn lemma_feed_one(d: DeserView, x: u8)
    ensures
        spec_feed(d, seq![x]) == spec_apply(d, x).0,
        spec_outputs(d, seq![x]) == spec_yield(spec_apply(d, x).1),
{
    assert(seq![x].len() == 1);
    assert(seq![x][0] == x);
    assert(seq![x].skip(1) =~= Seq::<u8>::empty());
    assert(spec_feed(spec_apply(d, x).0, Seq::<u8>::empty()) == spec_apply(d, x).0);
    assert(spec_outputs(spec_apply(d, x).0, Seq::<u8>::empty()) == Seq::<FrameView>::empty());
    assert(spec_outputs(d, seq![x]) =~= spec_yield(spec_apply(d, x).1));
}

/// The body logic preserves the structural invariant.
pub proof fn lemma_spec_apply_core_wf(d: DeserView, b: u8)
    requires
        d.wf(),
    ensures
        spec_apply_core(d, b).0.wf(),
{
    if d.state is ReadHeader {
        assert(b & HEADER_PAYLOAD_LENGTH_MASK < 64) by (bit_vector);
        assert(b >> HEADER_SERVICE_BIT_SHIFT < 4) by (bit_vector);
    }
}

/// One raw byte preserves the structural invariant.
pub proof fn lemma_spec_apply_wf(d: DeserView, input: u8)
    requires
        d.wf(),
    ensures
        spec_apply(d, input).0.wf(),
{
    if input == LEADING_FLAG {
    } else if d.stuff_byte {
        let d1 = DeserView {
            state: d.state,
            service: d.service,
            length: d.length,
            payload: d.payload,
            crc: d.crc,
            stuff_byte: false,
        };
        if input == 0x05 {
            lemma_spec_apply_core_wf(d1, 0x55);
        } else if input == 0x0A {
            lemma_spec_apply_core_wf(d1, 0xAA);
        }
    } else if input == ESCAPE_FLAG {
    } else {
        lemma_spec_apply_core_wf(d, input);
    }
}

/// The persistent reassembly state machine of the receiving side.
pub struct FrameDeserializer {
    state: State,
    service: u8,
    length: u8,
    payload: Vec<u8>,
    crc: CRC8,
    stuff_byte: bool,
}

impl View for FrameDeserializer {
    type V = DeserView;

    closed spec fn view(&self) -> DeserView {
        DeserView {
            state: self.state,
            service: self.service,
            length: self.length,
            payload: self.payload@,
            crc: self.crc@,
            stuff_byte: self.stuff_byte,
        }
    }
}

impl FrameDeserializer {
    /// A fresh machine, searching for the next start-of-frame flag.
    pub fn new() -> (r: Self)
        ensures
            r@ == spec_fresh(),
            r@.wf(),
    {
        let r = FrameDeserializer {
            state: State::SearchSof,
            service: 0,
            length: 0,
            payload: Vec::new(),
            crc: CRC8::new(),
            stuff_byte: false,
        };
        proof {
            assert(r@.payload =~= spec_fresh().payload);
        }
        r
    }

    /// Discards any in-progress frame and returns to the initial state;
    /// idempotent, and behaviorally identical to a fresh machine.
    pub fn reset(&mut self)
        ensures
            final(self)@ == spec_fresh(),
            final(self)@.wf(),
    {
        self.state = State::SearchSof;
        self.service = 0;
        self.length = 0;
        self.payload = Vec::new();
        self.crc.reset();
        self.stuff_byte = false;
        proof {
            assert(self@.payload =~= spec_fresh().payload);
        }
    }

    /// The body logic for one decoded content byte.
    fn apply_core(&mut self, input: u8) -> (r: Option<Frame>)
        requires
            old(self)@.wf(),
        ensures
            final(self)@.wf(),
            final(self)@ == spec_apply_core(old(self)@, input).0,
            (match (r, spec_apply_core(old(self)@, input).1) {
                (Option::Some(f), Option::Some(fv)) => f@ == fv && f@.wf(),
                (Option::None, Option::None) => true,
                _ => false,
            }),
    {
        proof {
            lemma_spec_apply_core_wf(self@, input);
        }
        match self.state {
            State::SearchSof => None,
            State::ReadHeader => {
                let len = input & HEADER_PAYLOAD_LENGTH_MASK;
                proof {
                    assert(input & HEADER_PAYLOAD_LENGTH_MASK < 64) by (bit_vector);
                    assert(input >> HEADER_SERVICE_BIT_SHIFT < 4) by (bit_vector);
                }
                self.service = input >> HEADER_SERVICE_BIT_SHIFT;
                self.length = len;
                self.payload = Vec::new();
                self.crc.write(input);
                self.state = if len > 0 {
                    State::ReadPayload
                } else {
                    State::ReadCrc
                };
                proof {
                    assert(self@.payload =~= spec_apply_core(old(self)@, input).0.payload);
                }
                None
            },
            State::ReadPayload => {
                self.crc.write(input);
                self.payload.push(input);
                if self.payload.len() >= self.length as usize {
                    self.state = State::ReadCrc;
                }
                None
            },
            State::ReadCrc => {
                self.crc.write(input);
                if self.crc.get_crc() != 0x00 {
                    // Checksum verification failed: discard silently.
                    self.reset();
                    None
                } else {
                    // Checksum verification passed: the frame is complete.
                    let mut payload: Vec<u8> = Vec::new();
                    core::mem::swap(&mut payload, &mut self.payload);
                    let service = self.service;
                    self.reset();
                    Some(Frame::new(service, payload))
                }
            },
        }
    }

    /// Consumes one raw wire byte; yields a frame exactly when this byte is
    /// the valid trailing checksum of a completely reassembled frame.
    pub fn apply(&mut self, input: u8) -> (r: Option<Frame>)
        requires
            old(self)@.wf(),
        ensures
            final(self)@.wf(),
            final(self)@ == spec_apply(old(self)@, input).0,
            (match (r, spec_apply(old(self)@, input).1) {
                (Option::Some(f), Option::Some(fv)) => f@ == fv && f@.wf(),
                (Option::None, Option::None) => true,
                _ => false,
            }),
    {
        if input == LEADING_FLAG {
            // Framing byte: resynchronize and expect a header.
            self.reset();
            self.state = State::ReadHeader;
            None
        } else if self.stuff_byte {
            // This byte is the escape code announced by the previous one.
            self.stuff_byte = false;
            match input {
                0x05 => self.apply_core(0x55),
                0x0A => self.apply_core(0xAA),
                _ => {
                    // Invalid escape code: discard the frame in progress.
                    self.reset();
                    None
                },
            }
        } else if input == ESCAPE_FLAG {
            // The next byte is an escape code.
            self.stuff_byte = true;
            None
        } else {
            self.apply_core(input)
        }
    }

    /// Feeds a whole buffer of raw wire bytes, in order, and returns every
    /// frame completed along the way: what the receive loop does with each
    /// chunk read from the channel.
    pub fn apply_all(&mut self, bytes: &Vec<u8>) -> (r: Vec<Frame>)
        requires
            old(self)@.wf(),
        ensures
            final(self)@.wf(),
            final(self)@ == spec_feed(old(self)@, bytes@),
            r@.map_values(|f: Frame| f@) == spec_outputs(old(self)@, bytes@),
    {
        let mut frames: Vec<Frame> = Vec::new();
        let mut i: usize = 0;
        proof {
            assert(bytes@.take(0) =~= Seq::<u8>::empty());
            assert(frames@.map_values(|f: Frame| f@) =~= spec_outputs(old(self)@, bytes@.take(0)));
        }
        while i < bytes.len()
            invariant
                i <= bytes.len(),
                self@.wf(),
                self@ == spec_feed(old(self)@, bytes@.take(i as int)),
                frames@.map_values(|f: Frame| f@) == spec_outputs(old(self)@, bytes@.take(i as int)),
            decreases bytes.len() - i,
        {
            proof {
                lemma_feed_step(old(self)@, bytes@, i as int);
            }
            let ghost before = frames@;
            let ghost stepped = spec_apply(self@, bytes@[i as int]);
            match self.apply(bytes[i]) {
                Some(frame) => {
                    frames.push(frame);
                    proof {
                        assert(frames@.map_values(|f: Frame| f@) =~= before.map_values(
                            |f: Frame| f@,
                        ).push(frames@.last()@));
                        assert(before.map_values(|f: Frame| f@).push(frames@.last()@)
                            =~= before.map_values(|f: Frame| f@) + spec_yield(stepped.1));
                    }
                },
                None => {
                    proof {
                        assert(before.map_values(|f: Frame| f@) + spec_yield(stepped.1)
                            =~= before.map_values(|f: Frame| f@));
                    }
                },
            }
            i = i + 1;
        }
        proof {
            assert(bytes@.take(bytes@.len() as int) =~= bytes@);
        }
        frames
    }
}

/// One more byte of a prefix is one more application of the machine.
proof fn lemma_feed_step(d: DeserView, bytes: Seq<u8>, i: int)
    requires
        0 <= i < bytes.len(),
    ensures
        spec_feed(d, bytes.take(i + 1)) == spec_apply(spec_feed(d, bytes.take(i)), bytes[i]).0,
        spec_outputs(d, bytes.take(i + 1)) == spec_outputs(d, bytes.take(i)) + spec_yield(
            spec_apply(spec_feed(d, bytes.take(i)), bytes[i]).1,
        ),
{
    assert(bytes.take(i + 1) =~= bytes.take(i) + seq![bytes[i]]);
    lemma_feed_append(d, bytes.take(i), seq![bytes[i]]);
    lemma_feed_one(spec_feed(d, bytes.take(i)), bytes[i]);
}

} // verus!
