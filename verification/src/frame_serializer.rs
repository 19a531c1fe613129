//! Lazy frame-to-byte-stream serializer.
//!
//! One `(Frame, send_eof)` pair is turned into a finite sequence of wire
//! bytes, produced one byte per call: the start-of-frame flag, the escaped
//! header byte, each escaped payload byte, the escaped checksum byte, and
//! optionally the closing flag. Because escaping can expand one logical byte
//! into two wire bytes, the serializer buffers the pending escape-code byte
//! and returns it before resuming phase progression.

use vstd::prelude::*;

use crate::crc::{CRC8, CRC8_INIT, crc8_fold, crc8_of, crc8_push};
use crate::frame::{
    CLOSING_FLAG, ESCAPE_FLAG, Frame, FrameView, HEADER_SERVICE_BIT_SHIFT, LEADING_FLAG,
};

verus! {

/// The header byte: service in the top two bits, payload length in the low
/// six bits.
pub open spec fn spec_header_byte(f: FrameView) -> u8 {
    (f.service << HEADER_SERVICE_BIT_SHIFT) | (f.payload.len() as u8)
}

/// The checksum transmitted with a frame: the running value after the header
/// and payload bytes.
pub open spec fn spec_checksum(f: FrameView) -> u8 {
    crc8_of(seq![spec_header_byte(f)] + f.payload)
}

/// The wire encoding of one logical content byte: reserved flag values are
/// replaced by the escape flag followed by a one-byte escape code.
pub open spec fn spec_escape(b: u8) -> Seq<u8> {
    if b == LEADING_FLAG {
        seq![ESCAPE_FLAG, 0x05u8]
    } else if b == ESCAPE_FLAG {
        seq![ESCAPE_FLAG, 0x0Au8]
    } else {
        seq![b]
    }
}

/// The wire encoding of a sequence of logical content bytes.
pub open spec fn spec_escape_seq(bytes: Seq<u8>) -> Seq<u8>
    decreases bytes.len(),
{
    if bytes.len() == 0 {
        Seq::empty()
    } else {
        spec_escape(bytes[0]) + spec_escape_seq(bytes.skip(1))
    }
}

/// The logical (pre-escaping) content of a frame: header byte, payload
/// bytes, checksum byte.
pub open spec fn spec_body_bytes(f: FrameView) -> Seq<u8> {
    seq![spec_header_byte(f)] + f.payload + seq![spec_checksum(f)]
}

/// The complete transmitted byte sequence of one frame.
pub open spec fn spec_wire_bytes(f: FrameView, send_eof: bool) -> Seq<u8> {
    seq![LEADING_FLAG] + spec_escape_seq(spec_body_bytes(f)) + (if send_eof {
        seq![CLOSING_FLAG]
    } else {
        Seq::<u8>::empty()
    })
}

/// Escaping one byte yields that byte's encoding.
pub proof fn lemma_escape_seq_singleton(b: u8)
    ensures
        spec_escape_seq(seq![b]) == spec_escape(b),
{
    assert(seq![b].len() == 1);
    assert(seq![b][0] == b);
    assert(seq![b].skip(1) =~= Seq::<u8>::empty());
    assert(spec_escape_seq(seq![b]) == spec_escape(b) + spec_escape_seq(Seq::<u8>::empty()));
    assert(spec_escape(b) + Seq::<u8>::empty() =~= spec_escape(b));
}

/// Escaping distributes over concatenation.
pub proof fn lemma_escape_seq_append(a: Seq<u8>, b: Seq<u8>)
    ensures
        spec_escape_seq(a + b) == spec_escape_seq(a) + spec_escape_seq(b),
    decreases a.len(),
{
    if a.len() == 0 {
        assert(a + b =~= b);
        assert(spec_escape_seq(a) + spec_escape_seq(b) =~= spec_escape_seq(b));
    } else {
        assert((a + b).skip(1) =~= a.skip(1) + b);
        lemma_escape_seq_append(a.skip(1), b);
        assert(spec_escape(a[0]) + (spec_escape_seq(a.skip(1)) + spec_escape_seq(b)) =~= (
        spec_escape(a[0]) + spec_escape_seq(a.skip(1))) + spec_escape_seq(b));
    }
}

/// Each logical byte becomes one or two wire bytes.
pub proof fn lemma_escape_seq_len(bytes: Seq<u8>)
    ensures
        bytes.len() <= spec_escape_seq(bytes).len() <= 2 * bytes.len(),
    decreases bytes.len(),
{
    if bytes.len() > 0 {
        lemma_escape_seq_len(bytes.skip(1));
    }
}

/// Phases of the serializer, in emission order.
enum Phase {
    Sof,
    Header,
    Payload,
    Crc,
    Eof,
    End,
}

/// Produces the wire bytes of one frame, on demand, one byte per call.
pub struct FrameSerializer {
    frame: Frame,
    send_eof: bool,
    phase: Phase,
    index: u8,
    has_pending_byte: bool,
    pending_byte: u8,
    crc: CRC8,
}

impl FrameSerializer {
    /// The frame being serialized.
    pub closed spec fn spec_frame(self) -> FrameView {
        self.frame@
    }

    /// Whether a closing flag will be emitted after the checksum.
    pub closed spec fn spec_send_eof(self) -> bool {
        self.send_eof
    }

    /// Internal consistency: the checksum register matches the bytes already
    /// folded, and the position fields stay inside the frame.
    pub closed spec fn wf(self) -> bool {
        let f = self.frame@;
        let hdr = spec_header_byte(f);
        &&& f.wf()
        &&& match self.phase {
            Phase::Sof => !self.has_pending_byte && self.crc@ == CRC8_INIT && self.index == 0,
            Phase::Header => !self.has_pending_byte && self.crc@ == CRC8_INIT && self.index == 0,
            Phase::Payload => f.payload.len() > 0 && (self.index as int) < f.payload.len()
                && self.crc@ == crc8_fold(
                CRC8_INIT,
                seq![hdr] + f.payload.take(self.index as int),
            ),
            Phase::Crc => self.crc@ == crc8_fold(CRC8_INIT, seq![hdr] + f.payload),
            Phase::Eof => self.send_eof,
            Phase::End => true,
        }
    }

    /// The wire bytes this serializer has not yet produced.
    pub closed spec fn remaining(self) -> Seq<u8> {
        let f = self.frame@;
        let eof_part: Seq<u8> = if self.send_eof {
            seq![CLOSING_FLAG]
        } else {
            Seq::<u8>::empty()
        };
        let pending: Seq<u8> = if self.has_pending_byte {
            seq![self.pending_byte]
        } else {
            Seq::<u8>::empty()
        };
        pending + match self.phase {
            Phase::Sof => seq![LEADING_FLAG] + spec_escape_seq(spec_body_bytes(f)) + eof_part,
            Phase::Header => spec_escape_seq(spec_body_bytes(f)) + eof_part,
            Phase::Payload => spec_escape_seq(f.payload.skip(self.index as int)) + spec_escape(
                spec_checksum(f),
            ) + eof_part,
            Phase::Crc => spec_escape(spec_checksum(f)) + eof_part,
            Phase::Eof => seq![CLOSING_FLAG],
            Phase::End => Seq::<u8>::empty(),
        }
    }

    /// A fresh serializer for one frame. The closing flag is emitted only if
    /// `send_eof` is set (the usual choice is `true`).
    pub fn new(frame: Frame, send_eof: bool) -> (r: Self)
        requires
            frame@.wf(),
        ensures
            r.wf(),
            r.spec_frame() == frame@,
            r.spec_send_eof() == send_eof,
            r.remaining() == spec_wire_bytes(frame@, send_eof),
    {
        let r = Self {
            frame,
            send_eof,
            phase: Phase::Sof,
            index: 0,
            has_pending_byte: false,
            pending_byte: 0,
            crc: CRC8::new(),
        };
        proof {
            assert(r.remaining() =~= spec_wire_bytes(r.frame@, send_eof));
        }
        r
    }

    /// Returns this serializer to the state of a freshly constructed one for
    /// the same frame: the whole wire sequence is pending again.
    pub fn reset(&mut self)
        ensures
            old(self).spec_frame().wf() ==> final(self).wf(),
            final(self).spec_frame() == old(self).spec_frame(),
            final(self).spec_send_eof() == old(self).spec_send_eof(),
            final(self).remaining() == spec_wire_bytes(
                old(self).spec_frame(),
                old(self).spec_send_eof(),
            ),
    {
        self.phase = Phase::Sof;
        self.index = 0;
        self.has_pending_byte = false;
        self.pending_byte = 0;
        self.crc.reset();
        proof {
            assert(self.remaining() =~= spec_wire_bytes(self.frame@, self.send_eof));
        }
    }

    /// Whether another wire byte is still to be produced.
    pub fn has_next(&self) -> (r: bool)
        requires
            self.wf(),
        ensures
            r == (self.remaining().len() > 0),
    {
        proof {
            match self.phase {
                Phase::Header => {
                    lemma_escape_seq_len(spec_body_bytes(self.frame@));
                },
                _ => {},
            }
        }
        self.has_pending_byte || !(matches!(self.phase, Phase::End))
    }

    /// Escapes one content byte: a reserved value is replaced by the escape
    /// flag now and its escape code on the following call.
    fn handle_byte_stuffing(&mut self, input: u8) -> (r: u8)
        requires
            !old(self).has_pending_byte,
        ensures
            final(self).frame == old(self).frame,
            final(self).send_eof == old(self).send_eof,
            final(self).phase == old(self).phase,
            final(self).index == old(self).index,
            final(self).crc == old(self).crc,
            spec_escape(input) == (if final(self).has_pending_byte {
                seq![r, final(self).pending_byte]
            } else {
                seq![r]
            }),
    {
        if input == LEADING_FLAG {
            self.has_pending_byte = true;
            self.pending_byte = crate::frame::EscapeCodes::Byte0x55.code();
            return ESCAPE_FLAG;
        }
        if input == ESCAPE_FLAG {
            self.has_pending_byte = true;
            self.pending_byte = crate::frame::EscapeCodes::Byte0xaa.code();
            return ESCAPE_FLAG;
        }
        input
    }

    /// Emits the header byte and advances past the header phase.
    fn emit_header(&mut self) -> (r: u8)
        requires
            old(self).wf(),
            old(self).phase is Header,
            !old(self).has_pending_byte,
        ensures
            final(self).wf(),
            final(self).frame == old(self).frame,
            final(self).send_eof == old(self).send_eof,
            old(self).remaining().len() > 0,
            r == old(self).remaining()[0],
            final(self).remaining() == old(self).remaining().skip(1),
    {
        let ghost prev = *self;
        let payload_length = self.frame.get_payload_length();
        self.phase = if payload_length > 0 {
            Phase::Payload
        } else {
            Phase::Crc
        };
        let b = (self.frame.get_service() << HEADER_SERVICE_BIT_SHIFT) | payload_length;
        self.crc.write(b);
        let next_byte = self.handle_byte_stuffing(b);
        proof {
                        let f = prev.frame@;
                        let hdr = spec_header_byte(f);
                        assert(b == hdr);
                        // The body splits into header, payload and checksum parts.
                        assert(spec_body_bytes(f) =~= seq![hdr] + (f.payload + seq![
                            spec_checksum(f),
                        ]));
                        lemma_escape_seq_append(seq![hdr], f.payload + seq![spec_checksum(f)]);
                        lemma_escape_seq_append(f.payload, seq![spec_checksum(f)]);
                        lemma_escape_seq_singleton(hdr);
                        lemma_escape_seq_singleton(spec_checksum(f));
                        // The checksum register now holds the folded header byte.
                        assert(seq![hdr] + f.payload.take(0) =~= seq![hdr]);
                        crate::crc::lemma_crc8_fold_singleton(CRC8_INIT, hdr);
                        assert(crc8_fold(CRC8_INIT, seq![hdr] + f.payload.take(0)) == self.crc@);
                        assert(f.payload.skip(0) =~= f.payload);
                        assert(prev.remaining()[0] == next_byte);
                        assert(final(self).remaining() =~= prev.remaining().skip(1));
        }
        next_byte
    }

    /// Emits the next payload byte and advances to the checksum phase after
    /// the last one.
    fn emit_payload(&mut self) -> (r: u8)
        requires
            old(self).wf(),
            old(self).phase is Payload,
            !old(self).has_pending_byte,
        ensures
            final(self).wf(),
            final(self).frame == old(self).frame,
            final(self).send_eof == old(self).send_eof,
            old(self).remaining().len() > 0,
            r == old(self).remaining()[0],
            final(self).remaining() == old(self).remaining().skip(1),
    {
        let ghost prev = *self;
        let payload_length = self.frame.get_payload_length();
        if self.index >= payload_length - 1 {
            self.phase = Phase::Crc;
        }
        let ghost i = self.index as int;
        let b = self.frame.get_payload()[self.index as usize];
        self.index = self.index + 1;
        self.crc.write(b);
        let next_byte = self.handle_byte_stuffing(b);
        proof {
                        let f = prev.frame@;
                        let hdr = spec_header_byte(f);
                        let c = spec_checksum(f);
                        let eofp: Seq<u8> = if prev.send_eof {
                            seq![CLOSING_FLAG]
                        } else {
                            Seq::<u8>::empty()
                        };
                        // The checksum register has folded one more payload byte.
                        assert((seq![hdr] + f.payload.take(i + 1)).drop_last() =~= seq![hdr]
                            + f.payload.take(i));
                        assert((seq![hdr] + f.payload.take(i + 1)).last() == f.payload[i]);
                        assert(self.crc@ == crc8_fold(CRC8_INIT, seq![hdr] + f.payload.take(i + 1)));
                        if i + 1 == f.payload.len() {
                            assert(seq![hdr] + f.payload.take(i + 1) =~= seq![hdr] + f.payload);
                        }
                        // One payload byte leaves the pending wire sequence.
                        assert(f.payload.skip(i).skip(1) =~= f.payload.skip(i + 1));
                        assert(f.payload.skip(i)[0] == f.payload[i]);
                        assert(prev.remaining() =~= spec_escape(f.payload[i]) + (spec_escape_seq(
                            f.payload.skip(i + 1),
                        ) + spec_escape(c) + eofp));
                        assert(prev.remaining()[0] == next_byte);
                        if self.has_pending_byte {
                            assert(prev.remaining().skip(1) =~= seq![self.pending_byte]
                                + (spec_escape_seq(f.payload.skip(i + 1)) + spec_escape(c) + eofp));
                        } else {
                            assert(prev.remaining().skip(1) =~= spec_escape_seq(
                                f.payload.skip(i + 1),
                            ) + spec_escape(c) + eofp);
                        }
                        if i + 1 == f.payload.len() {
                            assert(f.payload.skip(i + 1) =~= Seq::<u8>::empty());
                            assert(spec_escape_seq(f.payload.skip(i + 1)) =~= Seq::<u8>::empty());
                        }
                        assert(final(self).remaining() =~= prev.remaining().skip(1));
        }
        next_byte
    }

    /// Emits the checksum byte and advances to the closing flag or the end.
    fn emit_crc(&mut self) -> (r: u8)
        requires
            old(self).wf(),
            old(self).phase is Crc,
            !old(self).has_pending_byte,
        ensures
            final(self).wf(),
            final(self).frame == old(self).frame,
            final(self).send_eof == old(self).send_eof,
            old(self).remaining().len() > 0,
            r == old(self).remaining()[0],
            final(self).remaining() == old(self).remaining().skip(1),
    {
        let ghost prev = *self;
        self.phase = if self.send_eof {
            Phase::Eof
        } else {
            Phase::End
        };
        let b = self.crc.get_crc();
        let next_byte = self.handle_byte_stuffing(b);
        proof {
            assert(b == spec_checksum(prev.frame@));
            assert(prev.remaining()[0] == next_byte);
            assert(final(self).remaining() =~= prev.remaining().skip(1));
        }
        next_byte
    }

    /// Produces every wire byte still pending, in order, leaving the
    /// serializer exhausted: the usual way to hand one whole frame to the
    /// channel at once.
    pub fn collect_remaining(&mut self) -> (r: Vec<u8>)
        requires
            old(self).wf(),
        ensures
            final(self).wf(),
            final(self).spec_frame() == old(self).spec_frame(),
            final(self).spec_send_eof() == old(self).spec_send_eof(),
            r@ == old(self).remaining(),
            final(self).remaining() == Seq::<u8>::empty(),
    {
        let mut out: Vec<u8> = Vec::new();
        while self.has_next()
            invariant
                self.wf(),
                self.spec_frame() == old(self).spec_frame(),
                self.spec_send_eof() == old(self).spec_send_eof(),
                out@ + self.remaining() == old(self).remaining(),
            decreases self.remaining().len(),
        {
            let byte = match self.next() {
                Some(byte) => byte,
                None => {
                    proof {
                        assert(false);
                    }
                    0
                },
            };
            out.push(byte);
            proof {
                assert(out@ + self.remaining() =~= old(self).remaining());
            }
        }
        proof {
            assert(out@ =~= old(self).remaining());
        }
        out
    }

    /// Produces the next wire byte, or `None` once the sequence is finished.
    /// Requesting bytes past the end is not an error here: the exhausted
    /// state is reported as `None`, exactly as `has_next` announces it.
    pub fn next(&mut self) -> (r: Option<u8>)
        requires
            old(self).wf(),
        ensures
            final(self).wf(),
            final(self).spec_frame() == old(self).spec_frame(),
            final(self).spec_send_eof() == old(self).spec_send_eof(),
            old(self).remaining().len() > 0 ==> r == Some(old(self).remaining()[0])
                && final(self).remaining() == old(self).remaining().skip(1),
            old(self).remaining().len() == 0 ==> r == None::<u8> && *final(self) == *old(self),
    {
        if !self.has_next() {
            return None;
        }
        let ghost prev = *self;
        let next_byte: u8;
        if self.has_pending_byte {
            self.has_pending_byte = false;
            next_byte = self.pending_byte;
            proof {
                assert(final(self).remaining() =~= prev.remaining().skip(1));
            }
        } else {
            match self.phase {
                Phase::Sof => {
                    self.phase = Phase::Header;
                    next_byte = LEADING_FLAG;
                    proof {
                        assert(prev.remaining()[0] == LEADING_FLAG);
                        assert(final(self).remaining() =~= prev.remaining().skip(1));
                    }
                },
                Phase::Header => {
                    next_byte = self.emit_header();
                },
                Phase::Payload => {
                    next_byte = self.emit_payload();
                },
                Phase::Crc => {
                    next_byte = self.emit_crc();
                },
                Phase::Eof => {
                    self.phase = Phase::End;
                    next_byte = CLOSING_FLAG;
                    proof {
                        assert(final(self).remaining() =~= prev.remaining().skip(1));
                    }
                },
                Phase::End => {
                    // `has_next` returned true with no pending byte: impossible.
                    proof {
                        assert(false);
                    }
                    next_byte = 0;
                },
            }
        }
        Some(next_byte)
    }
}

} // verus!
