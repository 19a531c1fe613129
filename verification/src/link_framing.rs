//! Minimal link-framing message container used by the data-collector side:
//! a service identifier with a growable payload buffer, filled in place.

use vstd::prelude::*;

verus! {

/// One link-layer message under construction: a service identifier and the
/// payload bytes gathered so far.
pub struct Content {
    pub service: u8,
    pub payload: Vec<u8>,
}

/// Sets the service of `frame` and moves all bytes of `payload` to the end
/// of its buffer, leaving `payload` empty.
pub fn initialize(frame: &mut Content, service: u8, payload: &mut Vec<u8>)
    ensures
        final(frame).service == service,
        final(frame).payload@ == old(frame).payload@ + old(payload)@,
        final(payload)@ == Seq::<u8>::empty(),
{
    frame.service = service;
    frame.payload.append(payload);
}

} // verus!
