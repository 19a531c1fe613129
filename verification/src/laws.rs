//! End-to-end statements about the protocol: what feeding a serialized
//! frame — intact, corrupted, or preceded by noise — into the deserializer
//! produces.
//!
//! The receiving machine is modeled by [`spec_feed`] (the state after a byte
//! sequence) and [`spec_outputs`] (the frames yielded along the way); the
//! sending side is the pure wire encoding `spec_wire_bytes`. The proofs
//! reduce a validly escaped stream to the unescaped body logic and then run
//! the body machine over header, payload and checksum.

use vstd::prelude::*;

use crate::crc::{
    CRC8_INIT, crc8_fold, crc8_push, lemma_crc8_fold_cons, lemma_crc8_fold_one_change,
    lemma_crc8_fold_singleton, lemma_crc8_push_distinct_byte, lemma_crc8_push_distinct_state,
    lemma_crc8_residue,
};
use crate::frame::{
    CLOSING_FLAG, ESCAPE_FLAG, FrameView, HEADER_PAYLOAD_LENGTH_MASK, HEADER_SERVICE_BIT_SHIFT,
    LEADING_FLAG,
};
use crate::frame_deserializer::{
    DeserView, State, lemma_feed_append, lemma_feed_one, spec_apply, spec_apply_core, spec_feed,
    spec_fresh, spec_outputs, spec_resynced, spec_yield,
};
use crate::frame_serializer::{
    lemma_escape_seq_append, lemma_escape_seq_singleton, spec_body_bytes, spec_checksum,
    spec_escape, spec_escape_seq, spec_header_byte, spec_wire_bytes,
};

verus! {

/// The machine state after feeding already decoded content bytes to the
/// body logic alone.
pub open spec fn spec_core_feed(d: DeserView, bytes: Seq<u8>) -> DeserView
    decreases bytes.len(),
{
    if bytes.len() == 0 {
        d
    } else {
        spec_core_feed(spec_apply_core(d, bytes[0]).0, bytes.skip(1))
    }
}

/// All frames yielded while feeding decoded content bytes to the body logic
/// alone.
pub open spec fn spec_core_outputs(d: DeserView, bytes: Seq<u8>) -> Seq<FrameView>
    decreases bytes.len(),
{
    if bytes.len() == 0 {
        Seq::empty()
    } else {
        spec_yield(spec_apply_core(d, bytes[0]).1) + spec_core_outputs(
            spec_apply_core(d, bytes[0]).0,
            bytes.skip(1),
        )
    }
}

/// Feeding a concatenation to the body logic feeds the parts in turn.
pub proof fn lemma_core_feed_append(d: DeserView, a: Seq<u8>, b: Seq<u8>)
    ensures
        spec_core_feed(d, a + b) == spec_core_feed(spec_core_feed(d, a), b),
        spec_core_outputs(d, a + b) == spec_core_outputs(d, a) + spec_core_outputs(
            spec_core_feed(d, a),
            b,
        ),
    decreases a.len(),
{
    if a.len() == 0 {
        assert(a + b =~= b);
        assert(spec_core_outputs(d, a) + spec_core_outputs(d, b) =~= spec_core_outputs(d, b));
    } else {
        assert((a + b)[0] == a[0]);
        assert((a + b).skip(1) =~= a.skip(1) + b);
        let d2 = spec_apply_core(d, a[0]).0;
        lemma_core_feed_append(d2, a.skip(1), b);
        assert(spec_yield(spec_apply_core(d, a[0]).1) + (spec_core_outputs(d2, a.skip(1))
            + spec_core_outputs(spec_core_feed(d2, a.skip(1)), b)) =~= (spec_yield(
            spec_apply_core(d, a[0]).1,
        ) + spec_core_outputs(d2, a.skip(1))) + spec_core_outputs(
            spec_core_feed(d2, a.skip(1)),
            b,
        ));
    }
}

/// The body logic never raises the escape flag.
proof fn lemma_core_keeps_stuff_byte(d: DeserView, b: u8)
    requires
        !d.stuff_byte,
    ensures
        !spec_apply_core(d, b).0.stuff_byte,
{
}

/// Feeding two bytes is two applications of the machine.
pub proof fn lemma_feed_two(d: DeserView, x: u8, y: u8)
    ensures
        spec_feed(d, seq![x, y]) == spec_apply(spec_apply(d, x).0, y).0,
        spec_outputs(d, seq![x, y]) == spec_yield(spec_apply(d, x).1) + spec_yield(
            spec_apply(spec_apply(d, x).0, y).1,
        ),
{
    assert(seq![x, y] =~= seq![x] + seq![y]);
    lemma_feed_append(d, seq![x], seq![y]);
    lemma_feed_one(d, x);
    lemma_feed_one(spec_apply(d, x).0, y);
}

/// Escape transparency: feeding the wire encoding of one content byte to a
/// machine with no pending escape acts exactly as feeding the byte itself to
/// the body logic.
pub proof fn lemma_escape_feed(d: DeserView, b: u8)
    requires
        !d.stuff_byte,
    ensures
        spec_feed(d, spec_escape(b)) == spec_apply_core(d, b).0,
        spec_outputs(d, spec_escape(b)) == spec_yield(spec_apply_core(d, b).1),
{
    if b == LEADING_FLAG || b == ESCAPE_FLAG {
        let e = spec_escape(b);
        let code: u8 = if b == LEADING_FLAG {
            0x05
        } else {
            0x0A
        };
        assert(e =~= seq![ESCAPE_FLAG, code]);
        lemma_feed_two(d, ESCAPE_FLAG, code);
        let d1 = spec_apply(d, ESCAPE_FLAG).0;
        assert(d1.stuff_byte);
        let d1r = DeserView {
            state: d1.state,
            service: d1.service,
            length: d1.length,
            payload: d1.payload,
            crc: d1.crc,
            stuff_byte: false,
        };
        assert(d1r =~= d);
        assert(spec_apply(d1, code) == spec_apply_core(d, b));
        assert(spec_yield(spec_apply(d, ESCAPE_FLAG).1) + spec_yield(
            spec_apply(d1, code).1,
        ) =~= spec_yield(spec_apply_core(d, b).1));
    } else {
        let e = spec_escape(b);
        assert(e =~= seq![b]);
        lemma_feed_one(d, b);
        assert(spec_apply(d, b) == spec_apply_core(d, b));
    }
}

/// Escape transparency for a whole content sequence.
pub proof fn lemma_escape_seq_feed(d: DeserView, bytes: Seq<u8>)
    requires
        !d.stuff_byte,
    ensures
        spec_feed(d, spec_escape_seq(bytes)) == spec_core_feed(d, bytes),
        spec_outputs(d, spec_escape_seq(bytes)) == spec_core_outputs(d, bytes),
    decreases bytes.len(),
{
    if bytes.len() == 0 {
    } else {
        lemma_feed_append(d, spec_escape(bytes[0]), spec_escape_seq(bytes.skip(1)));
        lemma_escape_feed(d, bytes[0]);
        let d2 = spec_apply_core(d, bytes[0]).0;
        lemma_core_keeps_stuff_byte(d, bytes[0]);
        lemma_escape_seq_feed(d2, bytes.skip(1));
    }
}

/// Feeding a single decoded byte is one application of the body logic.
proof fn lemma_core_feed_one(d: DeserView, x: u8)
    ensures
        spec_core_feed(d, seq![x]) == spec_apply_core(d, x).0,
        spec_core_outputs(d, seq![x]) == spec_yield(spec_apply_core(d, x).1),
{
    assert(seq![x].len() == 1);
    assert(seq![x][0] == x);
    assert(seq![x].skip(1) =~= Seq::<u8>::empty());
    assert(spec_core_feed(spec_apply_core(d, x).0, Seq::<u8>::empty()) == spec_apply_core(d, x).0);
    assert(spec_core_outputs(spec_apply_core(d, x).0, Seq::<u8>::empty())
        == Seq::<FrameView>::empty());
    assert(spec_core_outputs(d, seq![x]) =~= spec_yield(spec_apply_core(d, x).1));
}

/// Feeding the announced number of payload bytes fills the buffer, yields
/// nothing, and moves to the checksum state.
proof fn lemma_core_feed_payload(d: DeserView, bytes: Seq<u8>)
    requires
        d.state is ReadPayload,
        d.payload.len() + bytes.len() == d.length as nat,
        bytes.len() >= 1,
    ensures
        spec_core_feed(d, bytes) == (DeserView {
            state: State::ReadCrc,
            service: d.service,
            length: d.length,
            payload: d.payload + bytes,
            crc: crc8_fold(d.crc, bytes),
            stuff_byte: d.stuff_byte,
        }),
        spec_core_outputs(d, bytes) == Seq::<FrameView>::empty(),
    decreases bytes.len(),
{
    let d2 = spec_apply_core(d, bytes[0]).0;
    lemma_crc8_fold_cons(d.crc, bytes);
    if bytes.len() == 1 {
        lemma_core_feed_one(d, bytes[0]);
        assert(bytes =~= seq![bytes[0]]);
        assert(d.payload.push(bytes[0]) =~= d.payload + bytes);
        lemma_crc8_fold_singleton(d.crc, bytes[0]);
        assert(spec_core_feed(d, bytes) =~= (DeserView {
            state: State::ReadCrc,
            service: d.service,
            length: d.length,
            payload: d.payload + bytes,
            crc: crc8_fold(d.crc, bytes),
            stuff_byte: d.stuff_byte,
        }));
        assert(spec_core_outputs(d, bytes) =~= Seq::<FrameView>::empty());
    } else {
        lemma_core_feed_payload(d2, bytes.skip(1));
        assert(d2.payload + bytes.skip(1) =~= d.payload + bytes);
        assert(spec_core_feed(d, bytes) =~= (DeserView {
            state: State::ReadCrc,
            service: d.service,
            length: d.length,
            payload: d.payload + bytes,
            crc: crc8_fold(d.crc, bytes),
            stuff_byte: d.stuff_byte,
        }));
        assert(spec_core_outputs(d, bytes) =~= Seq::<FrameView>::empty());
    }
}

/// Running the body logic over one header byte, the announced number of
/// payload bytes, and one trailing byte: the machine returns to the initial
/// state either way, and yields the record exactly when the running
/// checksum, continued through the trailing byte, is the valid sentinel.
proof fn lemma_core_feed_record(hdr: u8, mid: Seq<u8>, last: u8)
    requires
        mid.len() == (hdr & HEADER_PAYLOAD_LENGTH_MASK) as nat,
    ensures
        spec_core_feed(spec_resynced(), seq![hdr] + mid + seq![last]) == spec_fresh(),
        spec_core_outputs(spec_resynced(), seq![hdr] + mid + seq![last]) == (if crc8_push(
            crc8_fold(CRC8_INIT, seq![hdr] + mid),
            last,
        ) == 0 {
            seq![FrameView { service: hdr >> HEADER_SERVICE_BIT_SHIFT, payload: mid }]
        } else {
            Seq::<FrameView>::empty()
        }),
{
    let d0 = spec_resynced();
    let a = seq![hdr] + mid;
    lemma_core_feed_append(d0, a, seq![last]);
    lemma_core_feed_append(d0, seq![hdr], mid);
    lemma_core_feed_one(d0, hdr);
    let d1 = spec_apply_core(d0, hdr).0;
    assert(a.skip(1) =~= mid);
    assert(a[0] == hdr);
    lemma_crc8_fold_cons(CRC8_INIT, a);
    let da = DeserView {
        state: State::ReadCrc,
        service: hdr >> HEADER_SERVICE_BIT_SHIFT,
        length: hdr & HEADER_PAYLOAD_LENGTH_MASK,
        payload: mid,
        crc: crc8_fold(CRC8_INIT, a),
        stuff_byte: false,
    };
    if mid.len() == 0 {
        assert(a =~= seq![hdr]);
        lemma_crc8_fold_singleton(CRC8_INIT, hdr);
        assert(spec_core_feed(d1, mid) == d1);
        assert(spec_core_outputs(d1, mid) == Seq::<FrameView>::empty());
        assert(spec_core_feed(d0, a) =~= da);
    } else {
        lemma_core_feed_payload(d1, mid);
        assert(d1.payload + mid =~= mid);
        assert(spec_core_feed(d0, a) =~= da);
    }
    lemma_core_feed_one(da, last);
    assert(spec_core_feed(d0, a + seq![last]) == spec_fresh());
    assert(spec_core_outputs(d0, a + seq![last]) =~= spec_yield(spec_apply_core(da, last).1));
    if crc8_push(crc8_fold(CRC8_INIT, a), last) == 0 {
        assert(spec_yield(spec_apply_core(da, last).1) =~= seq![
            FrameView { service: hdr >> HEADER_SERVICE_BIT_SHIFT, payload: mid },
        ]);
    }
}

/// Round trip, from any receiver state: the leading flag resynchronizes
/// whatever came before, so the complete wire bytes of a well-formed frame
/// yield exactly that frame and leave the machine waiting for the next one.
pub proof fn lemma_round_trip(d: DeserView, f: FrameView, send_eof: bool)
    requires
        f.wf(),
    ensures
        spec_outputs(d, spec_wire_bytes(f, send_eof)) == seq![f],
        spec_feed(d, spec_wire_bytes(f, send_eof)) == (if send_eof {
            spec_resynced()
        } else {
            spec_fresh()
        }),
{
    let body = spec_body_bytes(f);
    let hdr = spec_header_byte(f);
    let c = spec_checksum(f);
    let s = f.service;
    let l = f.payload.len() as u8;
    assert(l <= 63);
    assert(((s << HEADER_SERVICE_BIT_SHIFT) | l) & HEADER_PAYLOAD_LENGTH_MASK == l && ((s
        << HEADER_SERVICE_BIT_SHIFT) | l) >> HEADER_SERVICE_BIT_SHIFT == s) by (bit_vector)
        requires
            s <= 3,
            l <= 63,
    ;
    assert(hdr & HEADER_PAYLOAD_LENGTH_MASK == l);
    assert(hdr >> HEADER_SERVICE_BIT_SHIFT == s);
    let eofp: Seq<u8> = if send_eof {
        seq![CLOSING_FLAG]
    } else {
        Seq::<u8>::empty()
    };
    let w1 = seq![LEADING_FLAG] + spec_escape_seq(body);
    assert(spec_wire_bytes(f, send_eof) == w1 + eofp);
    lemma_feed_append(d, w1, eofp);
    lemma_feed_append(d, seq![LEADING_FLAG], spec_escape_seq(body));
    lemma_feed_one(d, LEADING_FLAG);
    assert(spec_apply(d, LEADING_FLAG).0 == spec_resynced());
    lemma_escape_seq_feed(spec_resynced(), body);
    assert(body == seq![hdr] + f.payload + seq![c]);
    lemma_core_feed_record(hdr, f.payload, c);
    // The checksum byte continues the same running computation to zero.
    assert(crc8_fold(CRC8_INIT, seq![hdr] + f.payload) == c);
    lemma_crc8_residue(c);
    assert(spec_core_outputs(spec_resynced(), body) =~= seq![
        FrameView { service: hdr >> HEADER_SERVICE_BIT_SHIFT, payload: f.payload },
    ]);
    assert(FrameView { service: hdr >> HEADER_SERVICE_BIT_SHIFT, payload: f.payload } =~= f);
    assert(spec_feed(d, w1) == spec_fresh());
    assert(spec_outputs(d, w1) =~= seq![f]);
    if send_eof {
        lemma_feed_one(spec_fresh(), CLOSING_FLAG);
        assert(spec_apply(spec_fresh(), CLOSING_FLAG).0 == spec_resynced());
    } else {
        assert(spec_feed(spec_fresh(), eofp) == spec_fresh());
    }
    assert(spec_outputs(spec_feed(d, w1), eofp) =~= Seq::<FrameView>::empty());
    assert(spec_outputs(d, spec_wire_bytes(f, send_eof)) =~= seq![f]);
}

/// Noise without a leading flag is swallowed: a machine that is searching
/// for a start of frame stays searching and yields nothing, whatever the
/// bytes are.
pub proof fn lemma_noise_ignored(d: DeserView, noise: Seq<u8>)
    requires
        d.state is SearchSof,
        forall|i: int| 0 <= i < noise.len() ==> noise[i] != LEADING_FLAG,
    ensures
        spec_outputs(d, noise) == Seq::<FrameView>::empty(),
        spec_feed(d, noise).state is SearchSof,
    decreases noise.len(),
{
    if noise.len() > 0 {
        let d2 = spec_apply(d, noise[0]).0;
        assert(d2.state is SearchSof);
        assert(spec_apply(d, noise[0]).1 is None);
        lemma_noise_ignored(d2, noise.skip(1));
        assert(spec_outputs(d, noise) =~= Seq::<FrameView>::empty());
    }
}

/// Resynchronization after garbage: arbitrary noise (free of the leading
/// flag) followed by one complete well-formed frame yields exactly that
/// frame and nothing from the noise.
pub proof fn lemma_resync_after_garbage(noise: Seq<u8>, f: FrameView, send_eof: bool)
    requires
        f.wf(),
        forall|i: int| 0 <= i < noise.len() ==> noise[i] != LEADING_FLAG,
    ensures
        spec_outputs(spec_fresh(), noise + spec_wire_bytes(f, send_eof)) == seq![f],
{
    lemma_feed_append(spec_fresh(), noise, spec_wire_bytes(f, send_eof));
    lemma_noise_ignored(spec_fresh(), noise);
    lemma_round_trip(spec_feed(spec_fresh(), noise), f, send_eof);
    assert(spec_outputs(spec_fresh(), noise + spec_wire_bytes(f, send_eof)) =~= seq![f]);
}

/// Checksum rejection: corrupting exactly one logical content byte of a
/// transmitted frame — any payload byte, the checksum byte, or the header's
/// service bits — produces no frame at all, and leaves the machine back in
/// its initial state, ready for the next well-formed frame.
///
/// A corruption of the header's length field is outside this statement: it
/// desynchronizes the structure rather than a value, and the bytes that
/// follow are then read against a different announced length.
pub proof fn lemma_corrupted_frame_rejected(d: DeserView, f: FrameView, k: int, v: u8)
    requires
        f.wf(),
        0 <= k < spec_body_bytes(f).len(),
        v != spec_body_bytes(f)[k],
        k == 0 ==> v & HEADER_PAYLOAD_LENGTH_MASK == spec_body_bytes(f)[0]
            & HEADER_PAYLOAD_LENGTH_MASK,
    ensures
        spec_outputs(d, seq![LEADING_FLAG] + spec_escape_seq(spec_body_bytes(f).update(k, v)))
            == Seq::<FrameView>::empty(),
        spec_feed(d, seq![LEADING_FLAG] + spec_escape_seq(spec_body_bytes(f).update(k, v)))
            == spec_fresh(),
{
    let body = spec_body_bytes(f);
    let hdr = spec_header_byte(f);
    let c = spec_checksum(f);
    let s = f.service;
    let l = f.payload.len() as u8;
    assert(l <= 63);
    assert(((s << HEADER_SERVICE_BIT_SHIFT) | l) & HEADER_PAYLOAD_LENGTH_MASK == l) by (bit_vector)
        requires
            s <= 3,
            l <= 63,
    ;
    assert(hdr & HEADER_PAYLOAD_LENGTH_MASK == l);
    let corrupted = body.update(k, v);
    assert(body == seq![hdr] + f.payload + seq![c]);
    assert(body[0] == hdr);
    assert(body.last() == c);
    let hdr2 = corrupted[0];
    let mid2 = corrupted.subrange(1, body.len() - 1);
    let last2 = corrupted.last();
    assert(corrupted =~= seq![hdr2] + mid2 + seq![last2]);
    assert(mid2.len() == f.payload.len());
    assert(hdr2 & HEADER_PAYLOAD_LENGTH_MASK == l);
    // Feed the resynchronizing flag, then the escaped corrupted body.
    lemma_feed_append(d, seq![LEADING_FLAG], spec_escape_seq(corrupted));
    lemma_feed_one(d, LEADING_FLAG);
    assert(spec_apply(d, LEADING_FLAG).0 == spec_resynced());
    lemma_escape_seq_feed(spec_resynced(), corrupted);
    lemma_core_feed_record(hdr2, mid2, last2);
    // The residue cannot reach the sentinel: the register after the
    // corrupted prefix differs, or the trailing byte itself differs.
    let a = seq![hdr] + f.payload;
    let a2 = seq![hdr2] + mid2;
    assert(crc8_fold(CRC8_INIT, a) == c);
    lemma_crc8_residue(c);
    if k == body.len() - 1 {
        assert(a2 =~= a);
        assert(last2 == v && v != c);
        lemma_crc8_push_distinct_byte(crc8_fold(CRC8_INIT, a), c, last2);
    } else {
        assert(last2 == c);
        assert(a2 =~= a.update(k, v));
        lemma_crc8_fold_one_change(CRC8_INIT, a, a2, k);
        lemma_crc8_push_distinct_state(crc8_fold(CRC8_INIT, a), crc8_fold(CRC8_INIT, a2), c);
    }
    assert(crc8_push(crc8_fold(CRC8_INIT, a2), last2) != 0);
    assert(spec_outputs(d, seq![LEADING_FLAG] + spec_escape_seq(corrupted))
        =~= Seq::<FrameView>::empty());
}

/// Escaping correctness: the escaped encoding of any content sequence never
/// contains a literal leading flag, and every escape flag in it is
/// immediately followed by one of the two escape codes.
pub proof fn lemma_escaping_correctness(bytes: Seq<u8>)
    ensures
        forall|i: int| 0 <= i < spec_escape_seq(bytes).len() ==> spec_escape_seq(bytes)[i]
            != LEADING_FLAG,
        forall|i: int|
            0 <= i < spec_escape_seq(bytes).len() && #[trigger] spec_escape_seq(bytes)[i]
                == ESCAPE_FLAG ==> i + 1 < spec_escape_seq(bytes).len() && (spec_escape_seq(
                bytes,
            )[i + 1] == 0x05 || spec_escape_seq(bytes)[i + 1] == 0x0A),
    decreases bytes.len(),
{
    if bytes.len() > 0 {
        lemma_escaping_correctness(bytes.skip(1));
        let e = spec_escape(bytes[0]);
        let rest = spec_escape_seq(bytes.skip(1));
        assert forall|i: int| 0 <= i < spec_escape_seq(bytes).len() implies spec_escape_seq(
            bytes,
        )[i] != LEADING_FLAG by {
            if i >= e.len() {
                assert(spec_escape_seq(bytes)[i] == rest[i - e.len()]);
            }
        }
        assert forall|i: int|
            0 <= i < spec_escape_seq(bytes).len() && #[trigger] spec_escape_seq(bytes)[i]
                == ESCAPE_FLAG implies i + 1 < spec_escape_seq(bytes).len() && (spec_escape_seq(
            bytes,
        )[i + 1] == 0x05 || spec_escape_seq(bytes)[i + 1] == 0x0A) by {
            if i < e.len() {
                // Inside the first unit: only a pair's first byte is the
                // escape flag, and its code follows at once.
                assert(i == 0);
                assert(e.len() == 2);
            } else {
                assert(spec_escape_seq(bytes)[i] == rest[i - e.len()]);
                assert(spec_escape_seq(bytes)[i + 1] == rest[i + 1 - e.len()]);
            }
        }
    }
}

/// A zero-length payload frame goes on the wire as flag, header, checksum
/// and the optional closing flag, with the header and checksum bytes
/// escaped only if they collide with a reserved value.
pub proof fn lemma_zero_length_payload(f: FrameView, send_eof: bool)
    requires
        f.wf(),
        f.payload.len() == 0,
    ensures
        spec_wire_bytes(f, send_eof) == seq![LEADING_FLAG] + spec_escape(spec_header_byte(f))
            + spec_escape(spec_checksum(f)) + (if send_eof {
            seq![CLOSING_FLAG]
        } else {
            Seq::<u8>::empty()
        }),
        (spec_header_byte(f) != LEADING_FLAG && spec_header_byte(f) != ESCAPE_FLAG
            && spec_checksum(f) != LEADING_FLAG && spec_checksum(f) != ESCAPE_FLAG) ==> (
        spec_wire_bytes(f, send_eof) == seq![LEADING_FLAG, spec_header_byte(f), spec_checksum(f)]
            + (if send_eof {
            seq![CLOSING_FLAG]
        } else {
            Seq::<u8>::empty()
        })),
{
    let hdr = spec_header_byte(f);
    let c = spec_checksum(f);
    assert(spec_body_bytes(f) =~= seq![hdr] + seq![c]);
    lemma_escape_seq_append(seq![hdr], seq![c]);
    lemma_escape_seq_singleton(hdr);
    lemma_escape_seq_singleton(c);
    assert(spec_wire_bytes(f, send_eof) =~= seq![LEADING_FLAG] + spec_escape(hdr) + spec_escape(c)
        + (if send_eof {
        seq![CLOSING_FLAG]
    } else {
        Seq::<u8>::empty()
    }));
    if hdr != LEADING_FLAG && hdr != ESCAPE_FLAG && c != LEADING_FLAG && c != ESCAPE_FLAG {
        assert(spec_wire_bytes(f, send_eof) =~= seq![LEADING_FLAG, hdr, c] + (if send_eof {
            seq![CLOSING_FLAG]
        } else {
            Seq::<u8>::empty()
        }));
    }
}

} // verus!
