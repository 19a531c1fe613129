//! The frame data model: one protocol message, a service identifier together
//! with a payload of at most 63 bytes.

use vstd::prelude::*;

verus! {

/// Start-of-frame synchronization byte; never escaped.
pub const LEADING_FLAG: u8 = 0x55;

/// Closing flag; the same byte as the leading flag, reused at end of frame.
pub const CLOSING_FLAG: u8 = 0x55;

/// Escape marker: announces that the next byte is an escape code.
pub const ESCAPE_FLAG: u8 = 0xAA;

/// Low six bits of the header byte: the payload length.
pub const HEADER_PAYLOAD_LENGTH_MASK: u8 = 0x3F;

/// The service identifier sits in the two bits above the length field.
pub const HEADER_SERVICE_BIT_SHIFT: u8 = 6;

/// Highest service identifier that fits the two-bit header field.
pub const MAX_SERVICE: u8 = 3;

/// Longest payload whose length fits the six-bit header field.
pub const MAX_PAYLOAD_LENGTH: usize = 63;

/// The escape codes that may follow an [`ESCAPE_FLAG`] on the wire.
pub enum EscapeCodes {
    /// Stands for a literal `0x55` in frame content.
    Byte0x55,
    /// Stands for a literal `0xAA` in frame content.
    Byte0xaa,
}

impl EscapeCodes {
    /// The one-byte code transmitted after the escape flag.
    pub open spec fn spec_code(self) -> u8 {
        match self {
            EscapeCodes::Byte0x55 => 0x05,
            EscapeCodes::Byte0xaa => 0x0A,
        }
    }

    /// The one-byte code transmitted after the escape flag.
    pub fn code(self) -> (r: u8)
        ensures
            r == self.spec_code(),
    {
        match self {
            EscapeCodes::Byte0x55 => 0x05,
            EscapeCodes::Byte0xaa => 0x0A,
        }
    }
}

/// The mathematical content of a [`Frame`]: its service identifier and the
/// sequence of payload bytes.
#[verifier::ext_equal]
pub struct FrameView {
    pub service: u8,
    pub payload: Seq<u8>,
}

impl FrameView {
    /// The structural invariant: both fields fit their header bit fields.
    pub open spec fn wf(self) -> bool {
        &&& self.service <= MAX_SERVICE
        &&& self.payload.len() <= MAX_PAYLOAD_LENGTH
    }
}

/// One protocol message: a two-bit service identifier and up to 63 payload
/// bytes. Equality is structural; the payload length invariant holds from
/// construction on.
#[derive(Debug, Clone)]
pub struct Frame {
    service: u8,
    payload: Vec<u8>,
}

impl View for Frame {
    type V = FrameView;

    closed spec fn view(&self) -> FrameView {
        FrameView { service: self.service, payload: self.payload@ }
    }
}

impl Frame {
    /// Builds a frame from a service identifier and payload bytes. Values
    /// outside the packable ranges are a caller error, not a protocol error.
    pub fn new(service: u8, payload: Vec<u8>) -> (r: Self)
        requires
            service <= MAX_SERVICE,
            payload@.len() <= MAX_PAYLOAD_LENGTH,
        ensures
            r@ == (FrameView { service, payload: payload@ }),
            r@.wf(),
    {
        Self { service, payload }
    }

    /// The number of payload bytes, as packed into the header length field.
    pub fn get_payload_length(&self) -> (r: u8)
        requires
            self@.wf(),
        ensures
            r as nat == self@.payload.len(),
    {
        self.payload.len() as u8
    }

    /// The service identifier.
    pub fn get_service(&self) -> (r: u8)
        ensures
            r == self@.service,
    {
        self.service
    }

    /// The payload bytes.
    pub fn get_payload(&self) -> (r: &Vec<u8>)
        ensures
            r@ == self@.payload,
    {
        &self.payload
    }
}

/// Byte-wise comparison of two vectors.
fn bytes_eq(a: &Vec<u8>, b: &Vec<u8>) -> (r: bool)
    ensures
        r == (a@ == b@),
{
    if a.len() != b.len() {
        return false;
    }
    let mut i: usize = 0;
    while i < a.len()
        invariant
            i <= a.len(),
            a.len() == b.len(),
            forall|j: int| 0 <= j < i ==> a@[j] == b@[j],
        decreases a.len() - i,
    {
        if a[i] != b[i] {
            return false;
        }
        i += 1;
    }
    proof {
        assert(a@ =~= b@);
    }
    true
}

impl PartialEq for Frame {
    fn eq(&self, other: &Frame) -> bool {
        self.service == other.service && bytes_eq(&self.payload, &other.payload)
    }
}

impl vstd::std_specs::cmp::PartialEqSpecImpl for Frame {
    open spec fn obeys_eq_spec() -> bool {
        true
    }

    open spec fn eq_spec(&self, other: &Frame) -> bool {
        self@ == other@
    }
}

} // verus!
