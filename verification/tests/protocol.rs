use ll_protocol::crc::CRC8;
use ll_protocol::frame::Frame;
use ll_protocol::frame_deserializer::FrameDeserializer;
use ll_protocol::frame_serializer::FrameSerializer;

fn collect_wire(serializer: &mut FrameSerializer) -> Vec<u8> {
    let mut out: Vec<u8> = Vec::new();
    while serializer.has_next() {
        out.push(serializer.next().unwrap());
    }
    out
}

fn feed_all(deserializer: &mut FrameDeserializer, bytes: &[u8]) -> Vec<Frame> {
    let mut frames: Vec<Frame> = Vec::new();
    for &byte in bytes {
        if let Some(frame) = deserializer.apply(byte) {
            frames.push(frame);
        }
    }
    frames
}

#[test]
fn serialize_and_deserialize() {
    let payload: Vec<u8> = vec![0x55, 0x66, 0x77, 0x88, 0x99, 0xAA];
    let frame = Frame::new(1, payload.clone());
    let mut frame_serializer = FrameSerializer::new(frame, true);

    let serialized_frame = collect_wire(&mut frame_serializer);

    println!("Serialized frame: {:?}", serialized_frame);
    let expected_serialized: Vec<u8> =
        vec![0x55, 0x46, 0xaa, 0x5, 0x66, 0x77, 0x88, 0x99, 0xaa, 0xa, 0x1b, 0x55];
    assert_eq!(serialized_frame, expected_serialized);

    let frame = Frame::new(1, payload);
    let mut frame_deserializer = FrameDeserializer::new();
    for &byte in &serialized_frame {
        if let Some(deserialized_frame) = frame_deserializer.apply(byte) {
            println!("Deserialized frame: {:?}", deserialized_frame);
            assert_eq!(deserialized_frame, frame);
        }
    }
}

#[test]
fn checksum_matches_pinned_algorithm() {
    // Header and payload of the frame above; the transmitted checksum is
    // the register value after these bytes.
    let mut crc = CRC8::new();
    for &b in &[0x46u8, 0x55, 0x66, 0x77, 0x88, 0x99, 0xAA] {
        crc.write(b);
    }
    assert_eq!(crc.get_crc(), 0x1b);
    // Continuing the same computation through the checksum byte lands on
    // the valid sentinel.
    crc.write(0x1b);
    assert_eq!(crc.get_crc(), 0x00);
    // Reset is idempotent and returns to the initial state.
    crc.reset();
    crc.reset();
    let fresh = CRC8::new();
    assert_eq!(crc.get_crc(), fresh.get_crc());
}

#[test]
fn round_trip_all_services() {
    for service in 0u8..4 {
        let payload: Vec<u8> = vec![service, 0x00, 0xFF, 0x7E];
        let frame = Frame::new(service, payload.clone());
        let mut serializer = FrameSerializer::new(frame, service % 2 == 0);
        let wire = collect_wire(&mut serializer);
        let mut deserializer = FrameDeserializer::new();
        let frames = feed_all(&mut deserializer, &wire);
        assert_eq!(frames.len(), 1);
        assert_eq!(frames[0].get_service(), service);
        assert_eq!(frames[0].get_payload().as_slice(), payload.as_slice());
    }
}

#[test]
fn round_trip_longest_payload() {
    let payload: Vec<u8> = (0u8..63).collect();
    let frame = Frame::new(0, payload.clone());
    let mut serializer = FrameSerializer::new(frame, true);
    let wire = collect_wire(&mut serializer);
    // One flag pair, 64 content bytes (none needing an escape), checksum 0x08.
    assert_eq!(wire.len(), 67);
    assert_eq!(wire[0], 0x55);
    assert_eq!(wire[1], 0x3F);
    assert_eq!(wire[65], 0x08);
    assert_eq!(wire[66], 0x55);
    let mut deserializer = FrameDeserializer::new();
    let frames = feed_all(&mut deserializer, &wire);
    assert_eq!(frames.len(), 1);
    assert_eq!(frames[0].get_payload().as_slice(), payload.as_slice());
}

#[test]
fn zero_length_payload_wire_form() {
    let frame = Frame::new(2, Vec::new());
    let mut serializer = FrameSerializer::new(frame, true);
    let wire = collect_wire(&mut serializer);
    // Exactly SOF, header, checksum, EOF.
    assert_eq!(wire, vec![0x55, 0x80, 0xE2, 0x55]);
    let mut deserializer = FrameDeserializer::new();
    let frames = feed_all(&mut deserializer, &wire);
    assert_eq!(frames.len(), 1);
    assert_eq!(frames[0].get_service(), 2);
    assert_eq!(frames[0].get_payload_length(), 0);
}

#[test]
fn zero_length_payload_without_eof() {
    let frame = Frame::new(0, Vec::new());
    let mut serializer = FrameSerializer::new(frame, false);
    let wire = collect_wire(&mut serializer);
    assert_eq!(wire, vec![0x55, 0x00, 0xC4]);
    let mut deserializer = FrameDeserializer::new();
    let frames = feed_all(&mut deserializer, &wire);
    assert_eq!(frames.len(), 1);
    assert_eq!(frames[0].get_payload_length(), 0);
}

#[test]
fn escaping_never_leaks_flags() {
    // Payload made of nothing but reserved bytes.
    let payload: Vec<u8> = vec![0x55, 0xAA, 0x55, 0xAA];
    let frame = Frame::new(1, payload);
    let mut serializer = FrameSerializer::new(frame, true);
    let wire = collect_wire(&mut serializer);
    // Between the flag bytes no literal 0x55 appears, and every 0xAA is
    // followed by an escape code.
    for i in 1..wire.len() - 1 {
        assert_ne!(wire[i], 0x55);
        if wire[i] == 0xAA {
            assert!(wire[i + 1] == 0x05 || wire[i + 1] == 0x0A);
        }
    }
}

#[test]
fn escaped_checksum_byte() {
    // This frame's checksum is 0x55 and must itself travel escaped.
    let frame = Frame::new(0, vec![0xF3]);
    let mut serializer = FrameSerializer::new(frame.clone(), true);
    let wire = collect_wire(&mut serializer);
    assert_eq!(wire, vec![0x55, 0x01, 0xF3, 0xAA, 0x05, 0x55]);
    let mut deserializer = FrameDeserializer::new();
    let frames = feed_all(&mut deserializer, &wire);
    assert_eq!(frames.len(), 1);
    assert_eq!(frames[0].get_payload().as_slice(), &[0xF3]);
}

#[test]
fn single_byte_corruption_is_rejected() {
    let payload: Vec<u8> = vec![0x10, 0x20];
    let frame = Frame::new(3, payload.clone());
    let mut serializer = FrameSerializer::new(frame, true);
    let wire = collect_wire(&mut serializer);
    assert_eq!(wire, vec![0x55, 0xC2, 0x10, 0x20, 0x9E, 0x55]);
    // Flip each non-flag byte in turn (service bits, payload, checksum).
    for position in 1..5 {
        let mut corrupted = wire.clone();
        corrupted[position] ^= 0x01;
        let mut deserializer = FrameDeserializer::new();
        let frames = feed_all(&mut deserializer, &corrupted);
        assert_eq!(frames.len(), 0, "corruption at {} produced a frame", position);
        // The very next well-formed frame still parses.
        let frames = feed_all(&mut deserializer, &wire);
        assert_eq!(frames.len(), 1);
        assert_eq!(frames[0].get_payload().as_slice(), payload.as_slice());
    }
}

#[test]
fn invalid_escape_code_discards_frame() {
    // 0xAA announces an escape, but 0x42 is no escape code.
    let bytes: Vec<u8> = vec![0x55, 0xC2, 0xAA, 0x42, 0x20, 0x9E];
    let mut deserializer = FrameDeserializer::new();
    let frames = feed_all(&mut deserializer, &bytes);
    assert_eq!(frames.len(), 0);
    // A following complete frame is still received.
    let frames = feed_all(&mut deserializer, &[0x55, 0xC2, 0x10, 0x20, 0x9E, 0x55]);
    assert_eq!(frames.len(), 1);
}

#[test]
fn resync_after_garbage() {
    let noise: Vec<u8> = vec![0x00, 0xFF, 0xAA, 0x42, 0x13, 0x37, 0x99];
    let frame = Frame::new(1, vec![0x66, 0x77]);
    let mut serializer = FrameSerializer::new(frame.clone(), true);
    let wire = collect_wire(&mut serializer);
    let mut stream = noise;
    stream.extend_from_slice(&wire);
    let mut deserializer = FrameDeserializer::new();
    let frames = feed_all(&mut deserializer, &stream);
    assert_eq!(frames.len(), 1);
    assert_eq!(frames[0], frame);
}

#[test]
fn truncated_frame_yields_nothing_and_next_frame_wins() {
    let frame = Frame::new(1, vec![0x66, 0x77]);
    let mut serializer = FrameSerializer::new(frame.clone(), true);
    let wire = collect_wire(&mut serializer);
    // Cut the first transmission short; its SOF-led remainder must not
    // confuse the complete retransmission.
    let mut stream: Vec<u8> = wire[..3].to_vec();
    stream.extend_from_slice(&wire);
    let mut deserializer = FrameDeserializer::new();
    let frames = feed_all(&mut deserializer, &stream);
    assert_eq!(frames.len(), 1);
    assert_eq!(frames[0], frame);
}

#[test]
fn serializer_reset_replays_the_wire() {
    let frame = Frame::new(1, vec![0x55, 0x66]);
    let mut serializer = FrameSerializer::new(frame.clone(), true);
    let full = collect_wire(&mut serializer);
    // Exhausted: further requests say so.
    assert!(!serializer.has_next());
    assert_eq!(serializer.next(), None);
    // Reset mid-stream behaves like a fresh serializer.
    let mut serializer = FrameSerializer::new(frame.clone(), true);
    serializer.next();
    serializer.next();
    serializer.next();
    serializer.reset();
    assert_eq!(collect_wire(&mut serializer), full);
    // Reset is idempotent.
    let mut serializer = FrameSerializer::new(frame, true);
    serializer.next();
    serializer.reset();
    serializer.reset();
    assert_eq!(collect_wire(&mut serializer), full);
}

#[test]
fn deserializer_reset_discards_progress() {
    let frame = Frame::new(2, vec![0x01, 0x02, 0x03]);
    let mut serializer = FrameSerializer::new(frame.clone(), true);
    let wire = collect_wire(&mut serializer);
    let mut deserializer = FrameDeserializer::new();
    // Feed half a frame, reset, then a full frame: only the full one counts.
    let mut count = 0;
    for &byte in &wire[..4] {
        if deserializer.apply(byte).is_some() {
            count += 1;
        }
    }
    deserializer.reset();
    deserializer.reset();
    let frames = feed_all(&mut deserializer, &wire);
    assert_eq!(count, 0);
    assert_eq!(frames.len(), 1);
    assert_eq!(frames[0], frame);
}

#[test]
fn frame_accessors_and_equality() {
    let frame = Frame::new(3, vec![0xDE, 0xAD]);
    assert_eq!(frame.get_service(), 3);
    assert_eq!(frame.get_payload_length(), 2);
    assert_eq!(frame.get_payload().as_slice(), &[0xDE, 0xAD]);
    let same = Frame::new(3, vec![0xDE, 0xAD]);
    let other_service = Frame::new(2, vec![0xDE, 0xAD]);
    let other_payload = Frame::new(3, vec![0xDE, 0xAE]);
    assert_eq!(frame, same);
    assert_ne!(frame, other_service);
    assert_ne!(frame, other_payload);
}

#[test]
fn whole_buffer_interfaces() {
    // Collecting the whole wire at once and feeding it back in one call
    // agrees with the byte-at-a-time interfaces.
    let frame = Frame::new(1, vec![0x55, 0x66, 0x77]);
    let mut serializer = FrameSerializer::new(frame.clone(), true);
    let wire = serializer.collect_remaining();
    let mut stepwise = FrameSerializer::new(frame.clone(), true);
    assert_eq!(wire, collect_wire(&mut stepwise));
    let mut deserializer = FrameDeserializer::new();
    let frames = deserializer.apply_all(&wire);
    assert_eq!(frames.len(), 1);
    assert_eq!(frames[0], frame);
}

#[test]
fn back_to_back_frames() {
    let first = Frame::new(0, vec![0x11]);
    let second = Frame::new(1, vec![0x22, 0x33]);
    let mut stream: Vec<u8> = Vec::new();
    let mut serializer = FrameSerializer::new(first.clone(), false);
    stream.extend_from_slice(&collect_wire(&mut serializer));
    let mut serializer = FrameSerializer::new(second.clone(), true);
    stream.extend_from_slice(&collect_wire(&mut serializer));
    let mut deserializer = FrameDeserializer::new();
    let frames = feed_all(&mut deserializer, &stream);
    assert_eq!(frames.len(), 2);
    assert_eq!(frames[0], first);
    assert_eq!(frames[1], second);
}
