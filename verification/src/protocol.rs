//! Wire formats for the two UDP links with the phone.
//!
//! Phone -> server: `InputPacket`, 14 bytes. Server -> phone (and to the
//! optional mirror): `TelemetryPacket`, 86 bytes. Everything is little-endian.
//!
//! The telemetry gauges are 32-bit floats on the wire. This library carries
//! each one as the float's bit pattern (`f32::to_bits`), which is exactly what
//! goes on the wire, so the framing is checked byte for byte.

use vstd::prelude::*;
use crate::bytes::{
    i16_le, i8_byte, le16, le16_signed, le32, lemma_i16_roundtrip, lemma_u16_roundtrip, push_all,
    push_i16, push_u16, push_u32, read_i16, read_u16, u16_le, u32_le, write_i8,
};

verus! {

/// Magic prefix of phone -> server input packets: `"CC"`.
pub const INPUT_MAGIC: [u8; 2] = [0x43, 0x43];
/// Magic prefix of server -> phone telemetry packets: `"CT"`.
pub const TELEMETRY_MAGIC: [u8; 2] = [0x43, 0x54];
/// Version byte carried by both packet kinds.
pub const PROTO_VERSION: u8 = 7;

/// Decoded controller input coming from the phone.
#[derive(Debug, Clone, Copy, PartialEq, Eq)]
pub struct InputPacket {
    /// Steering, full range. Maps to the wheel axis / left thumbstick X.
    pub steer: i16,
    /// Throttle 0..=255.
    pub throttle: u8,
    /// Brake 0..=255.
    pub brake: u8,
    /// Clutch 0..=255.
    pub clutch: u8,
    /// Raw 16-bit XInput button mask chosen by the phone.
    pub buttons: u16,
    /// Free joystick X, full range.
    pub joy_x: i16,
    /// Free joystick Y, full range ("up is positive", like a thumbstick).
    pub joy_y: i16,
}

/// Length of an input packet on the wire.
pub const INPUT_LEN: usize = 14;

/// Whether `buf` is an input packet of this protocol version: long enough,
/// with the `"CC"` magic and the current version byte.
pub open spec fn is_input_packet(buf: Seq<u8>) -> bool {
    &&& buf.len() >= INPUT_LEN
    &&& buf[0] == 0x43u8
    &&& buf[1] == 0x43u8
    &&& buf[2] == PROTO_VERSION
}

/// The input packet a well-framed buffer carries:
/// `"CC"` + version + u16 buttons + i16 steer + u8 throttle + u8 brake +
/// u8 clutch + i16 joyX + i16 joyY.
pub open spec fn input_fields(buf: Seq<u8>) -> InputPacket {
    InputPacket {
        buttons: u16_le(buf[3], buf[4]),
        steer: i16_le(buf[5], buf[6]),
        throttle: buf[7],
        brake: buf[8],
        clutch: buf[9],
        joy_x: i16_le(buf[10], buf[11]),
        joy_y: i16_le(buf[12], buf[13]),
    }
}

/// The wire image of an input packet: `"CC"` + version + u16 buttons + i16
/// steer + u8 throttle + u8 brake + u8 clutch + i16 joyX + i16 joyY.
pub open spec fn input_bytes(p: InputPacket) -> Seq<u8> {
    seq![0x43u8, 0x43u8, PROTO_VERSION] + le16(p.buttons) + le16_signed(p.steer) + seq![
        p.throttle,
        p.brake,
        p.clutch,
    ] + le16_signed(p.joy_x) + le16_signed(p.joy_y)
}

/// What the phone sends is what the server reads: every input packet
/// survives encoding and parsing unchanged.
pub proof fn lemma_input_roundtrip(p: InputPacket)
    ensures
        is_input_packet(input_bytes(p)),
        input_fields(input_bytes(p)) == p,
{
    let b = input_bytes(p);
    assert(b.len() == 14);
    lemma_u16_roundtrip(p.buttons);
    lemma_i16_roundtrip(p.steer);
    lemma_i16_roundtrip(p.joy_x);
    lemma_i16_roundtrip(p.joy_y);
    assert(b[3] == le16(p.buttons)[0] && b[4] == le16(p.buttons)[1]);
    assert(b[5] == le16_signed(p.steer)[0] && b[6] == le16_signed(p.steer)[1]);
    assert(b[7] == p.throttle && b[8] == p.brake && b[9] == p.clutch);
    assert(b[10] == le16_signed(p.joy_x)[0] && b[11] == le16_signed(p.joy_x)[1]);
    assert(b[12] == le16_signed(p.joy_y)[0] && b[13] == le16_signed(p.joy_y)[1]);
}

/// Wheel centred, pedals up, no buttons.
pub open spec fn neutral_input() -> InputPacket {
    InputPacket { steer: 0, throttle: 0, brake: 0, clutch: 0, buttons: 0, joy_x: 0, joy_y: 0 }
}

impl InputPacket {
    /// Parse an input packet. `None` if the buffer is too short or the magic
    /// or version don't match (some other UDP traffic); trailing bytes are
    /// ignored.
    pub fn parse(buf: &[u8]) -> (r: Option<InputPacket>)
        ensures
            r == (if is_input_packet(buf@) { Some(input_fields(buf@)) } else { None }),
    {
        if buf.len() < INPUT_LEN || buf[0] != INPUT_MAGIC[0] || buf[1] != INPUT_MAGIC[1]
            || buf[2] != PROTO_VERSION {
            return None;
        }
        Some(InputPacket {
            buttons: read_u16(buf[3], buf[4]),
            steer: read_i16(buf[5], buf[6]),
            throttle: buf[7],
            brake: buf[8],
            clutch: buf[9],
            joy_x: read_i16(buf[10], buf[11]),
            joy_y: read_i16(buf[12], buf[13]),
        })
    }

    /// The wire image the phone sends for this input (the layout [parse]
    /// reads).
    pub fn encode(&self) -> (r: Vec<u8>)
        ensures
            r@ == input_bytes(*self),
    {
        let mut b: Vec<u8> = Vec::new();
        b.push(INPUT_MAGIC[0]);
        b.push(INPUT_MAGIC[1]);
        b.push(PROTO_VERSION);
        push_u16(&mut b, self.buttons);
        push_i16(&mut b, self.steer);
        b.push(self.throttle);
        b.push(self.brake);
        b.push(self.clutch);
        push_i16(&mut b, self.joy_x);
        push_i16(&mut b, self.joy_y);
        assert(b@ =~= input_bytes(*self));
        b
    }

    /// The packet the phone sends when nothing is touched: wheel centred,
    /// pedals up, no buttons.
    pub fn neutral() -> (r: InputPacket)
        ensures
            r == neutral_input(),
    {
        InputPacket { steer: 0, throttle: 0, brake: 0, clutch: 0, buttons: 0, joy_x: 0, joy_y: 0 }
    }
}

/// Telemetry forwarded to the phone (and the mirror). Every gauge is the bit
/// pattern of an `f32`.
#[derive(Debug, Clone, Copy, PartialEq, Eq)]
pub struct TelemetryPacket {
    /// Gear as BeamNG reports it: 0 = reverse, 1 = neutral, 2 = 1st, ...
    pub gear: i8,
    pub speed_kmh: u32,
    pub rpm: u32,
    /// 0..1
    pub fuel: u32,
    /// bar
    pub turbo: u32,
    pub engine_temp: u32,
    /// 0..1
    pub throttle: u32,
    /// 0..1
    pub brake: u32,
    /// 0..1 sideways slide, from MotionSim (0 if not enabled)
    pub slip: u32,
    /// 0..1 crash strength, decaying, from MotionSim
    pub impact: u32,
    /// Learned per car; 0 until learned.
    pub max_rpm: u32,
    /// Learned per car.
    pub redline: u32,
    /// OutGauge flags.
    pub flags: u16,
    /// Dashboard warning lights (OutGauge `ShowLights` bits).
    pub show_lights: u32,
    /// OutGauge display text lines.
    pub display1: [u8; 16],
    pub display2: [u8; 16],
}

/// Length of a telemetry packet on the wire (`<2sBb11fHI16s16s`).
pub const TELEMETRY_LEN: usize = 86;

/// The wire image of a telemetry packet: `"CT"` + version + i8 gear + the
/// eleven gauges + u16 flags + u32 show lights + two 16-byte display lines.
pub open spec fn telemetry_bytes(p: TelemetryPacket) -> Seq<u8> {
    seq![0x43u8, 0x54u8, PROTO_VERSION, i8_byte(p.gear)] + le32(p.speed_kmh) + le32(p.rpm) + le32(
        p.fuel,
    ) + le32(p.turbo) + le32(p.engine_temp) + le32(p.throttle) + le32(p.brake) + le32(p.slip)
        + le32(p.impact) + le32(p.max_rpm) + le32(p.redline) + le16(p.flags) + le32(p.show_lights)
        + p.display1@ + p.display2@
}

impl TelemetryPacket {
    /// An all-zero packet (every gauge 0.0, gear 0, blank displays).
    pub fn zeroed() -> (r: TelemetryPacket)
        ensures
            r.gear == 0 && r.speed_kmh == 0 && r.rpm == 0 && r.fuel == 0 && r.turbo == 0
                && r.engine_temp == 0 && r.throttle == 0 && r.brake == 0 && r.slip == 0
                && r.impact == 0 && r.max_rpm == 0 && r.redline == 0 && r.flags == 0
                && r.show_lights == 0,
            r.display1@ == Seq::new(16, |i: int| 0u8),
            r.display2@ == Seq::new(16, |i: int| 0u8),
    {
        let r = TelemetryPacket {
            gear: 0,
            speed_kmh: 0,
            rpm: 0,
            fuel: 0,
            turbo: 0,
            engine_temp: 0,
            throttle: 0,
            brake: 0,
            slip: 0,
            impact: 0,
            max_rpm: 0,
            redline: 0,
            flags: 0,
            show_lights: 0,
            display1: [0u8; 16],
            display2: [0u8; 16],
        };
        assert(r.display1@ =~= Seq::new(16, |i: int| 0u8));
        assert(r.display2@ =~= Seq::new(16, |i: int| 0u8));
        r
    }

    /// Serialize into the wire format sent to the phone and the mirror.
    pub fn encode(&self) -> (r: Vec<u8>)
        ensures
            r@ == telemetry_bytes(*self),
            r@.len() == TELEMETRY_LEN,
    {
        let mut b: Vec<u8> = Vec::new();
        b.push(TELEMETRY_MAGIC[0]);
        b.push(TELEMETRY_MAGIC[1]);
        b.push(PROTO_VERSION);
        b.push(write_i8(self.gear));
        push_u32(&mut b, self.speed_kmh);
        push_u32(&mut b, self.rpm);
        push_u32(&mut b, self.fuel);
        push_u32(&mut b, self.turbo);
        push_u32(&mut b, self.engine_temp);
        push_u32(&mut b, self.throttle);
        push_u32(&mut b, self.brake);
        push_u32(&mut b, self.slip);
        push_u32(&mut b, self.impact);
        push_u32(&mut b, self.max_rpm);
        push_u32(&mut b, self.redline);
        push_u16(&mut b, self.flags);
        push_u32(&mut b, self.show_lights);
        push_all(&mut b, self.display1.as_slice());
        push_all(&mut b, self.display2.as_slice());
        assert(b@ =~= telemetry_bytes(*self));
        b
    }
}

impl Default for TelemetryPacket {
    fn default() -> (r: TelemetryPacket)
        ensures
            r.gear == 0 && r.speed_kmh == 0 && r.rpm == 0 && r.fuel == 0 && r.turbo == 0
                && r.engine_temp == 0 && r.throttle == 0 && r.brake == 0 && r.slip == 0
                && r.impact == 0 && r.max_rpm == 0 && r.redline == 0 && r.flags == 0
                && r.show_lights == 0,
            r.display1@ == Seq::new(16, |i: int| 0u8),
            r.display2@ == Seq::new(16, |i: int| 0u8),
    {
        TelemetryPacket::zeroed()
    }
}

/// The telemetry packet's layout, byte by byte: `"CT"`, the version and the
/// gear in bytes 0..4; then the eleven gauges, four bytes each from offset 4,
/// in the order speed, rpm, fuel, turbo, engine temperature, throttle, brake,
/// slip, impact, max rpm, redline (gauge `k` at `4 + 4 * k`); the flags at
/// 48..50, the dashboard lights at 50..54, and the two display lines at
/// 54..70 and 70..86.
pub proof fn lemma_telemetry_layout(p: TelemetryPacket)
    ensures
        ({
            let b = telemetry_bytes(p);
            let gauges = seq![
                p.speed_kmh, p.rpm, p.fuel, p.turbo, p.engine_temp, p.throttle, p.brake, p.slip,
                p.impact, p.max_rpm, p.redline,
            ];
            &&& b.len() == 86
            &&& b[0] == 0x43u8 && b[1] == 0x54u8 && b[2] == 7u8
            &&& b[3] == i8_byte(p.gear)
            &&& forall|k: int|
                0 <= k < 11 ==> #[trigger] u32_le(b[4 + 4 * k], b[5 + 4 * k], b[6 + 4 * k], b[7 + 4 * k])
                    == gauges[k]
            &&& u16_le(b[48], b[49]) == p.flags
            &&& u32_le(b[50], b[51], b[52], b[53]) == p.show_lights
            &&& b.subrange(54, 70) == p.display1@
            &&& b.subrange(70, 86) == p.display2@
        }),
{
    let b = telemetry_bytes(p);
    let gauges = seq![
        p.speed_kmh, p.rpm, p.fuel, p.turbo, p.engine_temp, p.throttle, p.brake, p.slip,
        p.impact, p.max_rpm, p.redline,
    ];
    let g = Seq::new(11, |k: int| le32(gauges[k]));
    assert(b =~= seq![0x43u8, 0x54u8, PROTO_VERSION, i8_byte(p.gear)] + g[0] + g[1] + g[2] + g[3]
        + g[4] + g[5] + g[6] + g[7] + g[8] + g[9] + g[10] + le16(p.flags) + le32(p.show_lights)
        + p.display1@ + p.display2@);
    assert forall|k: int| 0 <= k < 11 implies #[trigger] u32_le(
        b[4 + 4 * k],
        b[5 + 4 * k],
        b[6 + 4 * k],
        b[7 + 4 * k],
    ) == gauges[k] by {
        assert(b[4 + 4 * k] == g[k][0]);
        assert(b[5 + 4 * k] == g[k][1]);
        assert(b[6 + 4 * k] == g[k][2]);
        assert(b[7 + 4 * k] == g[k][3]);
        crate::bytes::lemma_u32_roundtrip(gauges[k]);
    }
    lemma_u16_roundtrip(p.flags);
    crate::bytes::lemma_u32_roundtrip(p.show_lights);
    assert(b.subrange(54, 70) =~= p.display1@);
    assert(b.subrange(70, 86) =~= p.display2@);
}

} // verus!
