use ll_protocol::data_manage::{DataSource, get_data_source_by_name, get_data_source_string};
use ll_protocol::frame::Frame;
use ll_protocol::hex_payload::decode_hex_string_into_payload;
use ll_protocol::link_framing::{Content, initialize};
use ll_protocol::live_json_stream::{overwrite_offset, stream_chunk, stream_setup_text};
use ll_protocol::pib_adapter::{LightMode, PibCommander, in_frame_words};
use ll_protocol::timer::Timer;

#[test]
fn data_source_names() {
    assert_eq!(get_data_source_string(&DataSource::Example), "example");
    assert_eq!(get_data_source_string(&DataSource::GoproImage), "gopro_image");
    assert_eq!(get_data_source_string(&DataSource::GlobalPosition), "global_position");
    assert_eq!(get_data_source_string(&DataSource::IrCamImage), "thermal_img");
    assert_eq!(get_data_source_string(&DataSource::Power), "power");
    assert_eq!(get_data_source_string(&DataSource::Temperature), "temperature");
    assert_eq!(get_data_source_string(&DataSource::Environmental), "environmental");
    assert_eq!(get_data_source_string(&DataSource::ObcTelemetry), "obc_telemetry");
    assert_eq!(get_data_source_string(&DataSource::PiCamImage), "picam_image");
    assert_eq!(get_data_source_string(&DataSource::Altitude), "altitude");
    assert_eq!(get_data_source_string(&DataSource::Invalid), "unsupported");
}

#[test]
fn data_source_lookup() {
    for source in DataSource::iter() {
        let name = get_data_source_string(&source);
        assert_eq!(get_data_source_by_name(name), source);
    }
    assert_eq!(get_data_source_by_name("no_such_source".to_owned()), DataSource::Invalid);
    assert_eq!(get_data_source_by_name(String::new()), DataSource::Invalid);
}

#[test]
fn data_source_table() {
    let sources = DataSource::iter();
    assert_eq!(sources.len(), 10);
    assert_eq!(sources[0], DataSource::Example);
    assert_eq!(sources[9], DataSource::Altitude);
    for (position, source) in sources.iter().enumerate() {
        assert_eq!(source.index(), position);
    }
}

#[test]
fn light_mode_values() {
    assert_eq!(LightMode::ConstantOn.value(), 0);
    assert_eq!(LightMode::SlowFlash.value(), 1);
    assert_eq!(LightMode::MediumFlash.value(), 2);
    assert_eq!(LightMode::FastFlash.value(), 3);
    assert_eq!(LightMode::SosPattern.value(), 4);
    assert_eq!(LightMode::SlowFlashAlt.value(), 5);
    assert_eq!(LightMode::MediumFlashAlt.value(), 6);
    assert_eq!(LightMode::FastFlashAlt.value(), 6);
}

#[test]
fn indicator_light_command() {
    let mut commander = PibCommander::new();
    commander.put_indicator_light_set(LightMode::FastFlash, 10);
    commander.put_indicator_light_set(LightMode::ConstantOn, 200);
    let frames = commander.take_pending();
    assert_eq!(frames.len(), 2);
    assert_eq!(frames[0].get_service(), 3);
    assert_eq!(frames[0].get_payload().as_slice(), &[0x00, (3 << 5) | 10]);
    // Brightness clamps to the maximum of 31.
    assert_eq!(frames[1].get_payload().as_slice(), &[0x00, 31]);
    // Draining empties the queue.
    assert_eq!(commander.take_pending().len(), 0);
}

#[test]
fn inbound_telemetry_words() {
    let payload: Vec<u8> = (1u8..=12).collect();
    let frame = Frame::new(0, payload);
    let words = in_frame_words(&frame).unwrap();
    assert_eq!(words, vec![0x01020304, 0x05060708, 0x090A0B0C]);
}

#[test]
fn inbound_telemetry_length_mismatch() {
    // Power telemetry must be 12 bytes; 11 is refused.
    let frame = Frame::new(0, vec![0; 11]);
    assert!(in_frame_words(&frame).is_none());
    // Environmental telemetry is 8 bytes.
    let frame = Frame::new(2, vec![0xFF; 8]);
    assert_eq!(in_frame_words(&frame).unwrap(), vec![0xFFFFFFFF, 0xFFFFFFFF]);
    // The actuator-control service carries no inbound telemetry.
    let frame = Frame::new(3, vec![0; 12]);
    assert!(in_frame_words(&frame).is_none());
}

#[test]
fn hex_decoding() {
    assert_eq!(decode_hex_string_into_payload("48656c"), vec![0x48, 0x65, 0x6c]);
    assert_eq!(decode_hex_string_into_payload("DEADBEEF"), vec![0xDE, 0xAD, 0xBE, 0xEF]);
    assert_eq!(decode_hex_string_into_payload("aA"), vec![0xAA]);
    assert_eq!(decode_hex_string_into_payload(""), Vec::<u8>::new());
    // An odd number of digits is not a byte sequence.
    assert_eq!(decode_hex_string_into_payload("123"), Vec::<u8>::new());
    // Anything outside the hex alphabet is refused whole.
    assert_eq!(decode_hex_string_into_payload("zz"), Vec::<u8>::new());
    assert_eq!(decode_hex_string_into_payload("0x55"), Vec::<u8>::new());
}

#[test]
fn timer_schedule() {
    let mut timer = Timer::new("example".to_owned(), 1000, 5000);
    assert_eq!(timer.last_update_ms, 5000);
    // Not yet due.
    assert!(!timer.update(5999));
    assert_eq!(timer.last_update_ms, 5000);
    // Due exactly at the interval; the run is recorded.
    assert!(timer.update(6000));
    assert_eq!(timer.last_update_ms, 6000);
    // A clock reading before the recorded run is not due.
    assert!(!timer.update(100));
    // Long overdue still fires once per call.
    assert!(timer.update(60000));
    assert!(!timer.update(60001));
}

#[test]
fn json_stream_text() {
    // The opening text ends in two filler bytes that the first record
    // overwrites, keeping the file valid JSON after every write.
    assert_eq!(stream_setup_text(), "{\"data_stream\": [\n&&");
    assert_eq!(stream_chunk(true, "{\"a\": 1}"), "\n{\"a\": 1}]}");
    assert_eq!(stream_chunk(false, "{\"b\": 2}"), ",\n{\"b\": 2}]}");
    assert_eq!(overwrite_offset(20), Some(18));
    assert_eq!(overwrite_offset(2), Some(0));
    assert_eq!(overwrite_offset(1), None);
}

#[test]
fn link_framing_initialize() {
    let mut frame = Content { service: 0, payload: vec![0x01] };
    let mut payload: Vec<u8> = vec![0x55, 0x66];
    initialize(&mut frame, 1, &mut payload);
    assert_eq!(frame.service, 1);
    assert_eq!(frame.payload, vec![0x01, 0x55, 0x66]);
    assert!(payload.is_empty());
}
