//! Incremental 8-bit integrity checksum shared by the serializer and the
//! deserializer.
//!
//! The accumulator folds one byte at a time into a running register. The
//! algorithm is a plain (unreflected) CRC-8 with the SAE-J1850 polynomial
//! `0x1D`, initial register `0xFF` and no output inversion. What the protocol
//! relies on is the self-verifying residue: after feeding a sequence of bytes
//! and then feeding the running value itself, the register is the sentinel
//! `0`, so the receiver validates a frame by running the same computation
//! through the trailing checksum byte and comparing with `0`.

use vstd::prelude::*;

verus! {

/// Generator polynomial (x^8 + x^4 + x^3 + x^2 + 1, top term implicit).
pub const CRC8_POLYNOMIAL: u8 = 0x1D;

/// Initial value of the running register.
pub const CRC8_INIT: u8 = 0xFF;

/// One shift-and-reduce step of the bitwise CRC computation.
pub open spec fn crc8_step(s: u8) -> u8 {
    if s & 0x80 != 0 {
        (s << 1) ^ CRC8_POLYNOMIAL
    } else {
        s << 1
    }
}

/// The eight reduction steps that one input byte causes.
pub open spec fn crc8_step8(s: u8) -> u8 {
    crc8_step(crc8_step(crc8_step(crc8_step(crc8_step(crc8_step(crc8_step(crc8_step(s))))))))
}

/// The register after folding `byte` into register value `s`.
pub open spec fn crc8_push(s: u8, byte: u8) -> u8 {
    crc8_step8(s ^ byte)
}

/// The register after folding each byte of `bytes`, in order, into `s`.
pub open spec fn crc8_fold(s: u8, bytes: Seq<u8>) -> u8
    decreases bytes.len(),
{
    if bytes.len() == 0 {
        s
    } else {
        crc8_push(crc8_fold(s, bytes.drop_last()), bytes.last())
    }
}

/// The checksum of a byte sequence, from a freshly reset register.
pub open spec fn crc8_of(bytes: Seq<u8>) -> u8 {
    crc8_fold(CRC8_INIT, bytes)
}

/// Folding a one-byte sequence is one fold step.
pub proof fn lemma_crc8_fold_singleton(s: u8, b: u8)
    ensures
        crc8_fold(s, seq![b]) == crc8_push(s, b),
{
    assert(seq![b].len() == 1);
    assert(seq![b].last() == b);
    assert(seq![b].drop_last() =~= Seq::<u8>::empty());
    assert(crc8_fold(s, Seq::<u8>::empty()) == s);
    assert(crc8_fold(s, seq![b]) == crc8_push(crc8_fold(s, seq![b].drop_last()), seq![b].last()));
}

/// Folding can also be peeled off at the front.
pub proof fn lemma_crc8_fold_cons(s: u8, bytes: Seq<u8>)
    requires
        bytes.len() > 0,
    ensures
        crc8_fold(s, bytes) == crc8_fold(crc8_push(s, bytes[0]), bytes.skip(1)),
    decreases bytes.len(),
{
    if bytes.len() == 1 {
        assert(bytes.drop_last() =~= Seq::<u8>::empty());
        assert(bytes.skip(1) =~= Seq::<u8>::empty());
        assert(bytes.last() == bytes[0]);
        assert(crc8_fold(s, Seq::<u8>::empty()) == s);
        assert(crc8_fold(crc8_push(s, bytes[0]), Seq::<u8>::empty()) == crc8_push(s, bytes[0]));
    } else {
        lemma_crc8_fold_cons(s, bytes.drop_last());
        assert(bytes.drop_last()[0] == bytes[0]);
        assert(bytes.drop_last().skip(1) =~= bytes.skip(1).drop_last());
        assert(bytes.skip(1).last() == bytes.last());
    }
}

/// Self-verifying residue: folding the current register value into the
/// register always yields the valid sentinel `0`, whatever was fed before.
pub proof fn lemma_crc8_residue(s: u8)
    ensures
        crc8_push(s, s) == 0,
{
    assert(crc8_push(s, s) == 0) by (bit_vector);
}

/// Folding two different bytes into the same register yields different
/// registers: a single corrupted byte never goes unnoticed by the next fold.
pub proof fn lemma_crc8_push_distinct_byte(s: u8, b1: u8, b2: u8)
    requires
        b1 != b2,
    ensures
        crc8_push(s, b1) != crc8_push(s, b2),
{
    assert(crc8_push(s, b1) != crc8_push(s, b2)) by (bit_vector)
        requires
            b1 != b2,
    ;
}

/// Folding the same byte into two different registers keeps them different:
/// a register difference survives any further input.
pub proof fn lemma_crc8_push_distinct_state(s1: u8, s2: u8, byte: u8)
    requires
        s1 != s2,
    ensures
        crc8_push(s1, byte) != crc8_push(s2, byte),
{
    assert(crc8_push(s1, byte) != crc8_push(s2, byte)) by (bit_vector)
        requires
            s1 != s2,
    ;
}

/// Two equally long sequences that differ in exactly one byte fold to
/// different registers: the checksum detects every single-byte corruption.
pub proof fn lemma_crc8_fold_one_change(s: u8, a: Seq<u8>, b: Seq<u8>, k: int)
    requires
        a.len() == b.len(),
        0 <= k < a.len(),
        a[k] != b[k],
        forall|i: int| 0 <= i < a.len() && i != k ==> a[i] == b[i],
    ensures
        crc8_fold(s, a) != crc8_fold(s, b),
    decreases a.len(),
{
    if k == a.len() - 1 {
        assert(a.drop_last() =~= b.drop_last());
        lemma_crc8_push_distinct_byte(crc8_fold(s, a.drop_last()), a.last(), b.last());
    } else {
        lemma_crc8_fold_one_change(s, a.drop_last(), b.drop_last(), k);
        lemma_crc8_push_distinct_state(
            crc8_fold(s, a.drop_last()),
            crc8_fold(s, b.drop_last()),
            a.last(),
        );
    }
}

/// The running checksum accumulator.
pub struct CRC8 {
    state: u8,
}

impl View for CRC8 {
    type V = u8;

    closed spec fn view(&self) -> u8 {
        self.state
    }
}

impl CRC8 {
    /// A freshly initialized accumulator.
    pub fn new() -> (r: Self)
        ensures
            r@ == CRC8_INIT,
    {
        CRC8 { state: CRC8_INIT }
    }

    /// Returns the accumulator to its initial state; idempotent.
    pub fn reset(&mut self)
        ensures
            final(self)@ == CRC8_INIT,
    {
        self.state = CRC8_INIT;
    }

    fn step(s: u8) -> (r: u8)
        ensures
            r == crc8_step(s),
    {
        if s & 0x80 != 0 {
            (s << 1) ^ CRC8_POLYNOMIAL
        } else {
            s << 1
        }
    }

    /// Folds one raw byte into the running value.
    pub fn write(&mut self, byte: u8)
        ensures
            final(self)@ == crc8_push(old(self)@, byte),
    {
        let mut s: u8 = self.state ^ byte;
        s = Self::step(s);
        s = Self::step(s);
        s = Self::step(s);
        s = Self::step(s);
        s = Self::step(s);
        s = Self::step(s);
        s = Self::step(s);
        s = Self::step(s);
        self.state = s;
    }

    /// The current running 8-bit value; does not mutate state.
    pub fn get_crc(&self) -> (r: u8)
        ensures
            r == self@,
    {
        self.state
    }
}

} // verus!
