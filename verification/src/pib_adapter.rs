//! Peripheral interface board (PIB) messages: the service numbers spoken
//! over the link, the decoding of inbound telemetry payloads into 32-bit
//! big-endian words, and the commander that builds outbound control frames.
//!
//! The serial port itself, and the interpretation of the raw words as
//! floating-point sensor values, live with the caller; everything that
//! decides sizes, offsets and frame contents is here.

use vstd::prelude::*;

use crate::frame::{Frame, FrameView};

verus! {

/// Inbound and outbound service: power telemetry.
pub const POWER_TELEMETRY_SERVICE: u8 = 0;

/// Inbound and outbound service: temperature telemetry.
pub const TEMPERATURE_TELEMETRY_SERVICE: u8 = 1;

/// Inbound and outbound service: environmental sensor telemetry.
pub const ENVIRONMENTAL_SENSOR_SERVICE: u8 = 2;

/// Outbound service: actuator control commands.
pub const ACTUATOR_CONTROL_SERVICE: u8 = 3;

/// Payload length of an inbound power telemetry frame.
pub const PACKET_IN_POWER_TELEMETRY_LENGTH: u8 = 12;

/// Payload length of an inbound temperature telemetry frame.
pub const PACKET_IN_TEMPERATURE_TELEMETRY_LENGTH: u8 = 20;

/// Payload length of an inbound environmental sensor frame.
pub const PACKET_IN_ENVIRONMENTAL_SENSOR_LENGTH: u8 = 8;

/// Highest brightness the indicator light takes.
pub const LIGHT_BRIGHTNESS_MAX: u8 = 31;

/// The light mode sits in the three bits above the brightness field.
pub const LIGHT_MODE_SHIFT: u8 = 5;

/// The payload length an inbound frame of `service` must have, or `None`
/// for a service that carries no inbound telemetry.
pub open spec fn spec_expected_in_length(service: u8) -> Option<u8> {
    if service == POWER_TELEMETRY_SERVICE {
        Some(PACKET_IN_POWER_TELEMETRY_LENGTH)
    } else if service == TEMPERATURE_TELEMETRY_SERVICE {
        Some(PACKET_IN_TEMPERATURE_TELEMETRY_LENGTH)
    } else if service == ENVIRONMENTAL_SENSOR_SERVICE {
        Some(PACKET_IN_ENVIRONMENTAL_SENSOR_LENGTH)
    } else {
        None
    }
}

/// The payload length an inbound frame of `service` must have, or `None`
/// for a service that carries no inbound telemetry.
pub fn expected_in_length(service: u8) -> (r: Option<u8>)
    ensures
        r == spec_expected_in_length(service),
{
    if service == POWER_TELEMETRY_SERVICE {
        Some(PACKET_IN_POWER_TELEMETRY_LENGTH)
    } else if service == TEMPERATURE_TELEMETRY_SERVICE {
        Some(PACKET_IN_TEMPERATURE_TELEMETRY_LENGTH)
    } else if service == ENVIRONMENTAL_SENSOR_SERVICE {
        Some(PACKET_IN_ENVIRONMENTAL_SENSOR_LENGTH)
    } else {
        None
    }
}

/// The big-endian 32-bit word at byte offset `k` of `bytes`.
pub open spec fn spec_word_be(bytes: Seq<u8>, k: int) -> u32 {
    ((bytes[k] as u32) << 24) | ((bytes[k + 1] as u32) << 16) | ((bytes[k + 2] as u32) << 8) | (
    bytes[k + 3] as u32)
}

/// Splits the payload of an inbound telemetry frame into its big-endian
/// 32-bit words. Returns `None` exactly when the service carries no inbound
/// telemetry or the payload length does not match the service's packet
/// length; the caller interprets each word (most carry sensor readings as
/// floating-point bit patterns).
pub fn in_frame_words(frame: &Frame) -> (r: Option<Vec<u32>>)
    requires
        frame@.wf(),
    ensures
        r is Some <==> {
            &&& spec_expected_in_length(frame@.service) is Some
            &&& frame@.payload.len() == spec_expected_in_length(frame@.service).unwrap() as nat
        },
        r is Some ==> r.unwrap()@.len() * 4 == frame@.payload.len(),
        r is Some ==> forall|k: int|
            0 <= k < r.unwrap()@.len() ==> r.unwrap()@[k] == spec_word_be(frame@.payload, 4 * k),
{
    let service = frame.get_service();
    let expected = match expected_in_length(service) {
        Some(e) => e,
        None => {
            return None;
        },
    };
    let payload = frame.get_payload();
    if payload.len() != expected as usize {
        return None;
    }
    let mut words: Vec<u32> = Vec::new();
    let mut i: usize = 0;
    while i + 4 <= payload.len()
        invariant
            i % 4 == 0,
            i <= payload.len(),
            payload.len() % 4 == 0,
            payload.len() <= 63,
            payload@ == frame@.payload,
            words@.len() * 4 == i,
            forall|k: int|
                0 <= k < words@.len() ==> words@[k] == spec_word_be(frame@.payload, 4 * k),
        decreases payload.len() - i,
    {
        let w = ((payload[i] as u32) << 24) | ((payload[i + 1] as u32) << 16) | ((payload[i
            + 2] as u32) << 8) | (payload[i + 3] as u32);
        words.push(w);
        i = i + 4;
    }
    Some(words)
}

/// Blink patterns of the indicator light.
pub enum LightMode {
    ConstantOn,
    SlowFlash,
    MediumFlash,
    FastFlash,
    SosPattern,
    SlowFlashAlt,
    MediumFlashAlt,
    FastFlashAlt,
}

impl LightMode {
    /// The mode number packed into the control byte.
    pub open spec fn spec_value(self) -> u8 {
        match self {
            LightMode::ConstantOn => 0,
            LightMode::SlowFlash => 1,
            LightMode::MediumFlash => 2,
            LightMode::FastFlash => 3,
            LightMode::SosPattern => 4,
            LightMode::SlowFlashAlt => 5,
            LightMode::MediumFlashAlt => 6,
            LightMode::FastFlashAlt => 6,
        }
    }

    /// The mode number packed into the control byte.
    pub fn value(&self) -> (r: u8)
        ensures
            r == self.spec_value(),
    {
        match *self {
            LightMode::ConstantOn => 0,
            LightMode::SlowFlash => 1,
            LightMode::MediumFlash => 2,
            LightMode::FastFlash => 3,
            LightMode::SosPattern => 4,
            LightMode::SlowFlashAlt => 5,
            LightMode::MediumFlashAlt => 6,
            LightMode::FastFlashAlt => 6,
        }
    }
}

/// The payload of the indicator-light command: one byte for the wing strobe
/// lights (held off), one packing the mode above the clamped brightness.
pub open spec fn spec_light_command_payload(mode: LightMode, brightness: u8) -> Seq<u8> {
    let clamped: u8 = if brightness > LIGHT_BRIGHTNESS_MAX {
        LIGHT_BRIGHTNESS_MAX
    } else {
        brightness
    };
    seq![0u8, (mode.spec_value() << LIGHT_MODE_SHIFT) | clamped]
}

/// Builds outbound control frames for the board. Built frames queue up here
/// until the caller drains them to the serial channel.
pub struct PibCommander {
    pending: Vec<Frame>,
}

impl PibCommander {
    /// The frames built so far and not yet drained.
    pub closed spec fn spec_pending(self) -> Seq<FrameView> {
        self.pending@.map_values(|f: Frame| f@)
    }

    /// A commander with nothing pending.
    pub fn new() -> (r: Self)
        ensures
            r.spec_pending() == Seq::<FrameView>::empty(),
    {
        let r = PibCommander { pending: Vec::new() };
        proof {
            assert(r.spec_pending() =~= Seq::<FrameView>::empty());
        }
        r
    }

    /// Commands the power telemetry rate (not yet carried by the board).
    pub fn put_power_set_rate(&self, rate: u8) {
    }

    /// Requests one power telemetry packet (not yet carried by the board).
    pub fn get_power_request(&self) {
    }

    /// Commands the temperature telemetry rate (not yet carried by the
    /// board).
    pub fn put_temperature_set_rate(&self, rate: u8) {
    }

    /// Requests one temperature telemetry packet (not yet carried by the
    /// board).
    pub fn get_temperature_request(&self) {
    }

    /// Commands the environmental telemetry rate (not yet carried by the
    /// board).
    pub fn put_environmental_set_rate(&self, rate: u8) {
    }

    /// Requests one environmental sensor packet (not yet carried by the
    /// board).
    pub fn get_environmental_request(&self) {
    }

    /// Stops the payload servo (not yet carried by the board).
    pub fn put_servo_stop(&self) {
    }

    /// Sets the payload servo position (not yet carried by the board).
    pub fn put_servo_set(&self, pwm: u8) {
    }

    /// Queues an actuator-control frame that sets the indicator light to
    /// `mode`, at `brightness` clamped to the brightest supported level.
    pub fn put_indicator_light_set(&mut self, mode: LightMode, brightness: u8)
        ensures
            final(self).spec_pending() == old(self).spec_pending().push(
                FrameView {
                    service: ACTUATOR_CONTROL_SERVICE,
                    payload: spec_light_command_payload(mode, brightness),
                },
            ),
    {
        let wings_sil: u8 = 0x0;
        let mode_part = mode.value() << LIGHT_MODE_SHIFT;
        let mut brightness_corrected = brightness;
        if brightness_corrected > LIGHT_BRIGHTNESS_MAX {
            brightness_corrected = LIGHT_BRIGHTNESS_MAX;
        }
        let wing_control_full: u8 = mode_part | brightness_corrected;
        let mut payload: Vec<u8> = Vec::new();
        payload.push(wings_sil);
        payload.push(wing_control_full);
        proof {
            assert(payload@ =~= spec_light_command_payload(mode, brightness));
        }
        let frame = Frame::new(ACTUATOR_CONTROL_SERVICE, payload);
        self.pending.push(frame);
        proof {
            assert(self.spec_pending() =~= old(self).spec_pending().push(frame@));
        }
    }

    /// Hands all pending frames to the caller, oldest first, leaving the
    /// queue empty.
    pub fn take_pending(&mut self) -> (r: Vec<Frame>)
        ensures
            r@.map_values(|f: Frame| f@) == old(self).spec_pending(),
            final(self).spec_pending() == Seq::<FrameView>::empty(),
    {
        let mut drained: Vec<Frame> = Vec::new();
        core::mem::swap(&mut drained, &mut self.pending);
        proof {
            assert(self.spec_pending() =~= Seq::<FrameView>::empty());
        }
        drained
    }
}

} // verus!
