//! BeamNG's MotionSim ("OutSim") packet (UDP 4445): the `"BNG1"` header and
//! eighteen little-endian floats of physics, of which the slide and crash
//! detection use the world velocity, acceleration and heading. The floats are
//! kept as their bit patterns.

use vstd::prelude::*;
use crate::bytes::{read_u32, u32_le};
use crate::outgauge::word_at;

verus! {

/// Length of a MotionSim packet: 4-byte header + 18 floats.
pub const MOTIONSIM_LEN: usize = 76;

/// The fields used out of the packet (`f32` bits).
#[derive(Clone, Copy, PartialEq, Eq, Debug)]
pub struct Motion {
    /// World velocity x, y, z (m/s).
    pub vel: [u32; 3],
    /// World acceleration x, y, z, gravity excluded (m/s^2).
    pub acc: [u32; 3],
    /// Heading angle.
    pub yaw: u32,
}

/// Whether `buf` is a MotionSim packet: long enough, header `"BNG1"`.
pub open spec fn is_motion_packet(buf: Seq<u8>) -> bool {
    &&& buf.len() >= MOTIONSIM_LEN
    &&& buf[0] == 0x42u8
    &&& buf[1] == 0x4Eu8
    &&& buf[2] == 0x47u8
    &&& buf[3] == 0x31u8
}

/// The fields a MotionSim packet carries: velocity at 16, 20, 24,
/// acceleration at 28, 32, 36, heading (yaw) at 60.
pub open spec fn motion_fields(buf: Seq<u8>) -> Motion {
    Motion {
        vel: [word_at(buf, 16), word_at(buf, 20), word_at(buf, 24)],
        acc: [word_at(buf, 28), word_at(buf, 32), word_at(buf, 36)],
        yaw: word_at(buf, 60),
    }
}

fn word(buf: &[u8], off: usize) -> (r: u32)
    requires
        off + 4 <= buf@.len(),
    ensures
        r == word_at(buf@, off as int),
{
    read_u32(buf[off], buf[off + 1], buf[off + 2], buf[off + 3])
}

/// Parse a MotionSim packet, or `None` if it isn't one.
pub fn parse(buf: &[u8]) -> (r: Option<Motion>)
    ensures
        r == (if is_motion_packet(buf@) { Some(motion_fields(buf@)) } else { None }),
{
    if buf.len() < MOTIONSIM_LEN || buf[0] != 0x42 || buf[1] != 0x4E || buf[2] != 0x47 || buf[3]
        != 0x31 {
        return None;
    }
    Some(Motion {
        vel: [word(buf, 16), word(buf, 20), word(buf, 24)],
        acc: [word(buf, 28), word(buf, 32), word(buf, 36)],
        yaw: word(buf, 60),
    })
}

/// What a MotionSim packet yields, by offset: the world velocity x, y, z as
/// the little-endian words at 16, 20 and 24, the acceleration x, y, z at 28,
/// 32 and 36, and the heading at 60.
pub proof fn lemma_motion_offsets(buf: Seq<u8>)
    requires
        is_motion_packet(buf),
    ensures
        ({
            let m = motion_fields(buf);
            &&& m.vel[0] == u32_le(buf[16], buf[17], buf[18], buf[19])
            &&& m.vel[1] == u32_le(buf[20], buf[21], buf[22], buf[23])
            &&& m.vel[2] == u32_le(buf[24], buf[25], buf[26], buf[27])
            &&& m.acc[0] == u32_le(buf[28], buf[29], buf[30], buf[31])
            &&& m.acc[1] == u32_le(buf[32], buf[33], buf[34], buf[35])
            &&& m.acc[2] == u32_le(buf[36], buf[37], buf[38], buf[39])
            &&& m.yaw == u32_le(buf[60], buf[61], buf[62], buf[63])
        }),
{
}

} // verus!
