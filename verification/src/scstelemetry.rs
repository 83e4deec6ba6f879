//! Euro / American Truck Simulator telemetry, as the scs-sdk-plugin publishes
//! it in shared memory: where the fields sit, and how the truck's gear and
//! warning lights map onto the phone's dashboard.

use vstd::prelude::*;

verus! {

/// Speed, `f32`, m/s.
pub const OFF_SPEED: usize = 948;
/// Engine rpm, `f32`.
pub const OFF_RPM: usize = 952;
/// Gear, `i32`: 1 = 1st, 0 = neutral, -1 = reverse.
pub const OFF_GEAR: usize = 504;
/// Fuel, `f32`, litres.
pub const OFF_FUEL: usize = 1000;
/// Tank capacity, `f32`, litres.
pub const OFF_FUEL_CAP: usize = 704;
/// Water temperature, `f32`, deg C.
pub const OFF_WATER_TEMP: usize = 1024;
/// Start of the truck's boolean channels, one byte each.
pub const OFF_BOOLS: usize = 1500;
/// Parking brake, among the boolean channels.
pub const B_PARK_BRAKE: usize = 0;
/// Oil pressure warning.
pub const B_OIL_WARN: usize = 6;
/// Battery voltage warning.
pub const B_BATTERY_WARN: usize = 8;
/// High beam.
pub const B_HIGH_BEAM: usize = 18;

/// Dashboard light bits (OutGauge `ShowLights`): handbrake.
pub const LIGHT_HANDBRAKE: u32 = 0x4;
/// Oil warning.
pub const LIGHT_OIL: u32 = 0x100;
/// Battery warning.
pub const LIGHT_BATTERY: u32 = 0x200;
/// High beam.
pub const LIGHT_HIGH_BEAM: u32 = 0x2;

/// The dashboard light mask for the truck's warning channels.
pub open spec fn dash_lights_of(park_brake: bool, oil: bool, battery: bool, high_beam: bool) -> u32 {
    (if park_brake { LIGHT_HANDBRAKE } else { 0u32 }) | (if oil { LIGHT_OIL } else { 0u32 }) | (
    if battery { LIGHT_BATTERY } else { 0u32 }) | (if high_beam { LIGHT_HIGH_BEAM } else { 0u32 })
}

/// The dashboard light mask for the truck's warning channels.
pub fn dash_lights(park_brake: bool, oil: bool, battery: bool, high_beam: bool) -> (r: u32)
    ensures
        r == dash_lights_of(park_brake, oil, battery, high_beam),
{
    let handbrake: u32 = if park_brake { LIGHT_HANDBRAKE } else { 0 };
    let oil_light: u32 = if oil { LIGHT_OIL } else { 0 };
    let battery_light: u32 = if battery { LIGHT_BATTERY } else { 0 };
    let beam: u32 = if high_beam { LIGHT_HIGH_BEAM } else { 0 };
    handbrake | oil_light | battery_light | beam
}

/// The truck's gear in the phone's numbering: SCS counts 1 = 1st, 0 =
/// neutral, -1 = reverse; the phone 0 = reverse, 1 = neutral, 2 = 1st. The
/// sum is cut to 8 bits, as a cast does.
pub fn truck_gear(scs_gear: i32) -> (r: i8)
    requires
        scs_gear < i32::MAX,
    ensures
        r == (scs_gear + 1) as i8,
{
    (scs_gear + 1) as i8
}

/// Each dashboard light is lit exactly when its truck channel is on.
pub proof fn lemma_dash_lights_bits(park_brake: bool, oil: bool, battery: bool, high_beam: bool)
    ensures
        (dash_lights_of(park_brake, oil, battery, high_beam) & LIGHT_HANDBRAKE != 0) == park_brake,
        (dash_lights_of(park_brake, oil, battery, high_beam) & LIGHT_OIL != 0) == oil,
        (dash_lights_of(park_brake, oil, battery, high_beam) & LIGHT_BATTERY != 0) == battery,
        (dash_lights_of(park_brake, oil, battery, high_beam) & LIGHT_HIGH_BEAM != 0) == high_beam,
        dash_lights_of(park_brake, oil, battery, high_beam) & !(LIGHT_HANDBRAKE | LIGHT_OIL
            | LIGHT_BATTERY | LIGHT_HIGH_BEAM) == 0,
{
    let a: u32 = if park_brake { 0x4 } else { 0 };
    let b: u32 = if oil { 0x100 } else { 0 };
    let c: u32 = if battery { 0x200 } else { 0 };
    let d: u32 = if high_beam { 0x2 } else { 0 };
    assert(((a | b | c | d) & 0x4u32 != 0) == (a == 0x4u32)) by (bit_vector)
        requires
            a == 0x4u32 || a == 0u32,
            b == 0x100u32 || b == 0u32,
            c == 0x200u32 || c == 0u32,
            d == 0x2u32 || d == 0u32,
    ;
    assert(((a | b | c | d) & 0x100u32 != 0) == (b == 0x100u32)) by (bit_vector)
        requires
            a == 0x4u32 || a == 0u32,
            b == 0x100u32 || b == 0u32,
            c == 0x200u32 || c == 0u32,
            d == 0x2u32 || d == 0u32,
    ;
    assert(((a | b | c | d) & 0x200u32 != 0) == (c == 0x200u32)) by (bit_vector)
        requires
            a == 0x4u32 || a == 0u32,
            b == 0x100u32 || b == 0u32,
            c == 0x200u32 || c == 0u32,
            d == 0x2u32 || d == 0u32,
    ;
    assert(((a | b | c | d) & 0x2u32 != 0) == (d == 0x2u32)) by (bit_vector)
        requires
            a == 0x4u32 || a == 0u32,
            b == 0x100u32 || b == 0u32,
            c == 0x200u32 || c == 0u32,
            d == 0x2u32 || d == 0u32,
    ;
    assert((a | b | c | d) & !(0x4u32 | 0x100u32 | 0x200u32 | 0x2u32) == 0) by (bit_vector)
        requires
            a == 0x4u32 || a == 0u32,
            b == 0x100u32 || b == 0u32,
            c == 0x200u32 || c == 0u32,
            d == 0x2u32 || d == 0u32,
    ;
}

} // verus!
