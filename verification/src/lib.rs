//! Link-layer framing protocol for small binary messages over an unreliable
//! byte-oriented serial channel: a frame data model, a byte-stuffing escape
//! scheme, a running 8-bit integrity checksum, a lazy frame-to-byte-stream
//! serializer, and a byte-at-a-time frame-reassembly state machine that
//! resynchronizes after noise, partial frames, or checksum failures.

pub mod crc;
pub mod data_manage;
pub mod frame;
pub mod hex_payload;
pub mod frame_deserializer;
pub mod frame_serializer;
pub mod laws;
pub mod link_framing;
pub mod live_json_stream;
pub mod pib_adapter;
pub mod timer;
