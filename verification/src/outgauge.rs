//! The BeamNG / Live for Speed OutGauge packet (UDP 4444): 92 bytes, or 96
//! with the optional trailing id, all little-endian.
//!
//! Gauges are 32-bit floats on the wire; they are kept as their bit patterns
//! here. The one gauge that needs arithmetic, speed (m/s on the wire, km/h on
//! the phone), is converted by the caller and handed to [OutGauge::telemetry].

use vstd::prelude::*;
use crate::bytes::{byte_i8, read_i8, read_u16, read_u32, u16_le, u32_le};
use crate::protocol::TelemetryPacket;

verus! {

/// Minimum size of an OutGauge packet (without the optional trailing id).
pub const OUTGAUGE_LEN: usize = 92;

/// The OutGauge fields the relay uses.
#[derive(Clone, Copy, PartialEq, Eq, Debug)]
pub struct OutGauge {
    /// 0 = reverse, 1 = neutral, 2 = 1st, ...
    pub gear: i8,
    /// m/s (`f32` bits)
    pub speed_ms: u32,
    pub rpm: u32,
    /// bar
    pub turbo: u32,
    /// deg C
    pub engine_temp: u32,
    /// 0..1
    pub fuel: u32,
    /// 0..1
    pub throttle: u32,
    /// 0..1
    pub brake: u32,
    pub flags: u16,
    pub show_lights: u32,
    pub display1: [u8; 16],
    pub display2: [u8; 16],
}

/// The 32-bit little-endian value at `off`.
pub open spec fn word_at(buf: Seq<u8>, off: int) -> u32 {
    u32_le(buf[off], buf[off + 1], buf[off + 2], buf[off + 3])
}

/// Whether `g` holds what the OutGauge packet `buf` carries, at the
/// offsets of the OutGauge struct: flags at 8, gear at 10, speed 12, rpm 16,
/// turbo 20, engine temperature 24, fuel 28, show lights 44, throttle 48,
/// brake 52, the two display lines at 60 and 76.
pub open spec fn carries(buf: Seq<u8>, g: OutGauge) -> bool {
    &&& g.flags == u16_le(buf[8], buf[9])
    &&& g.gear == byte_i8(buf[10])
    &&& g.speed_ms == word_at(buf, 12)
    &&& g.rpm == word_at(buf, 16)
    &&& g.turbo == word_at(buf, 20)
    &&& g.engine_temp == word_at(buf, 24)
    &&& g.fuel == word_at(buf, 28)
    &&& g.show_lights == word_at(buf, 44)
    &&& g.throttle == word_at(buf, 48)
    &&& g.brake == word_at(buf, 52)
    &&& g.display1@ == buf.subrange(60, 76)
    &&& g.display2@ == buf.subrange(76, 92)
}

fn word(buf: &[u8], off: usize) -> (r: u32)
    requires
        off + 4 <= buf@.len(),
    ensures
        r == word_at(buf@, off as int),
{
    read_u32(buf[off], buf[off + 1], buf[off + 2], buf[off + 3])
}

fn text16(buf: &[u8], off: usize) -> (r: [u8; 16])
    requires
        off + 16 <= buf@.len(),
    ensures
        r@ == buf@.subrange(off as int, off + 16),
{
    let n = buf.len();
    let mut d = [0u8; 16];
    let mut i: usize = 0;
    while i < 16
        invariant
            i <= 16,
            n == buf@.len(),
            off + 16 <= buf@.len(),
            d@.len() == 16,
            forall|k: int| 0 <= k < i ==> #[trigger] d@[k] == buf@[off + k],
        decreases 16 - i,
    {
        d[i] = buf[off + i];
        i = i + 1;
    }
    assert(d@ =~= buf@.subrange(off as int, off + 16));
    d
}

/// Parse an OutGauge packet; `None` if the buffer is too short to be one.
pub fn parse(buf: &[u8]) -> (r: Option<OutGauge>)
    ensures
        buf@.len() < OUTGAUGE_LEN ==> r.is_none(),
        buf@.len() >= OUTGAUGE_LEN ==> r.is_some() && carries(buf@, r.unwrap()),
{
    if buf.len() < OUTGAUGE_LEN {
        return None;
    }
    Some(OutGauge {
        gear: read_i8(buf[10]),
        speed_ms: word(buf, 12),
        rpm: word(buf, 16),
        turbo: word(buf, 20),
        engine_temp: word(buf, 24),
        fuel: word(buf, 28),
        throttle: word(buf, 48),
        brake: word(buf, 52),
        flags: read_u16(buf[8], buf[9]),
        show_lights: word(buf, 44),
        display1: text16(buf, 60),
        display2: text16(buf, 76),
    })
}

impl OutGauge {
    /// The telemetry packet for the phone: the dashboard fields as read,
    /// speed as given (km/h, `f32` bits), and slip, impact, max rpm and
    /// redline left at 0 for the relay to fill in.
    pub fn telemetry(&self, speed_kmh: u32) -> (r: TelemetryPacket)
        ensures
            r.gear == self.gear,
            r.speed_kmh == speed_kmh,
            r.rpm == self.rpm,
            r.turbo == self.turbo,
            r.engine_temp == self.engine_temp,
            r.fuel == self.fuel,
            r.throttle == self.throttle,
            r.brake == self.brake,
            r.flags == self.flags,
            r.show_lights == self.show_lights,
            r.display1 == self.display1,
            r.display2 == self.display2,
            r.slip == 0 && r.impact == 0 && r.max_rpm == 0 && r.redline == 0,
    {
        TelemetryPacket {
            gear: self.gear,
            speed_kmh,
            rpm: self.rpm,
            fuel: self.fuel,
            turbo: self.turbo,
            engine_temp: self.engine_temp,
            throttle: self.throttle,
            brake: self.brake,
            slip: 0,
            impact: 0,
            max_rpm: 0,
            redline: 0,
            flags: self.flags,
            show_lights: self.show_lights,
            display1: self.display1,
            display2: self.display2,
        }
    }
}

/// What a parsed OutGauge packet holds, by the offsets of the OutGauge
/// struct: flags (u16) at 8, gear at 10, then the little-endian words speed
/// at 12, rpm 16, turbo 20, engine temperature 24, fuel 28, dashboard lights
/// 44, throttle 48, brake 52, and the display lines at 60..76 and 76..92.
pub proof fn lemma_outgauge_offsets(buf: Seq<u8>, g: OutGauge)
    requires
        buf.len() >= OUTGAUGE_LEN,
        carries(buf, g),
    ensures
        g.flags == u16_le(buf[8], buf[9]),
        g.gear == byte_i8(buf[10]),
        g.speed_ms == u32_le(buf[12], buf[13], buf[14], buf[15]),
        g.rpm == u32_le(buf[16], buf[17], buf[18], buf[19]),
        g.turbo == u32_le(buf[20], buf[21], buf[22], buf[23]),
        g.engine_temp == u32_le(buf[24], buf[25], buf[26], buf[27]),
        g.fuel == u32_le(buf[28], buf[29], buf[30], buf[31]),
        g.show_lights == u32_le(buf[44], buf[45], buf[46], buf[47]),
        g.throttle == u32_le(buf[48], buf[49], buf[50], buf[51]),
        g.brake == u32_le(buf[52], buf[53], buf[54], buf[55]),
        forall|i: int| 0 <= i < 16 ==> #[trigger] g.display1@[i] == buf[60 + i],
        forall|i: int| 0 <= i < 16 ==> #[trigger] g.display2@[i] == buf[76 + i],
{
    assert forall|i: int| 0 <= i < 16 implies #[trigger] g.display1@[i] == buf[60 + i] by {
        assert(g.display1@[i] == buf.subrange(60, 76)[i]);
    }
    assert forall|i: int| 0 <= i < 16 implies #[trigger] g.display2@[i] == buf[76 + i] by {
        assert(g.display2@[i] == buf.subrange(76, 92)[i]);
    }
}

} // verus!
