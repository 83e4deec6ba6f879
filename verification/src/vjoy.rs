//! Virtual racing wheel output through vJoy: how a device's configuration is
//! resolved into an axis layout, what the launcher says about it, and the
//! `JOYSTICK_POSITION_V2` report built from each phone input packet.
//!
//! Talking to `vJoyInterface.dll` itself happens outside this library; it
//! hands the device's answers in as [DeviceCaps] and sends the [Position]s
//! built here.

use vstd::prelude::*;
use crate::fmt::{decimal, hex, join, push_decimal, push_hex, push_signed, signed_decimal};
use crate::protocol::{neutral_input, InputPacket};
use crate::text::chars_of;

verus! {

/// vJoy device id we drive. Device 1 is the one a stock install creates.
pub const DEVICE_ID: u32 = 1;

/// HID usage ids vJoy uses to name axes.
pub const AXIS_X: u32 = 0x30;
pub const AXIS_Y: u32 = 0x31;
pub const AXIS_Z: u32 = 0x32;
pub const AXIS_RX: u32 = 0x33;
pub const AXIS_RY: u32 = 0x34;
pub const AXIS_RZ: u32 = 0x35;
pub const AXIS_SL0: u32 = 0x36;
pub const AXIS_SL1: u32 = 0x37;

/// `GetVJDStatus` results.
pub const VJD_STAT_OWN: i32 = 0;
pub const VJD_STAT_FREE: i32 = 1;
pub const VJD_STAT_BUSY: i32 = 2;
pub const VJD_STAT_MISS: i32 = 3;

/// How many buttons we drive.
pub const BUTTON_COUNT: usize = 14;

/// Full-scale value assumed for an axis whose maximum the driver won't tell.
pub const DEFAULT_AXIS_MAX: i32 = 32767;

// --------------------------------------------------------------- buttons

/// The XInput bit the phone sends for vJoy button `i + 1`.
pub open spec fn button_bit(i: int) -> u16 {
    if i == 0 { 0x1000 }
    else if i == 1 { 0x2000 }
    else if i == 2 { 0x4000 }
    else if i == 3 { 0x8000 }
    else if i == 4 { 0x0100 }
    else if i == 5 { 0x0200 }
    else if i == 6 { 0x0020 }
    else if i == 7 { 0x0010 }
    else if i == 8 { 0x0040 }
    else if i == 9 { 0x0080 }
    else if i == 10 { 0x0001 }
    else if i == 11 { 0x0002 }
    else if i == 12 { 0x0004 }
    else { 0x0008 }
}

/// The label shown for vJoy button `i + 1`.
pub open spec fn button_label(i: int) -> Seq<char> {
    if i == 0 { "A"@ }
    else if i == 1 { "B"@ }
    else if i == 2 { "X"@ }
    else if i == 3 { "Y"@ }
    else if i == 4 { "LB"@ }
    else if i == 5 { "RB"@ }
    else if i == 6 { "Back"@ }
    else if i == 7 { "Start"@ }
    else if i == 8 { "L-stick"@ }
    else if i == 9 { "R-stick"@ }
    else if i == 10 { "D-Up"@ }
    else if i == 11 { "D-Down"@ }
    else if i == 12 { "D-Left"@ }
    else { "D-Right"@ }
}

/// The buttons we drive, in vJoy button order: index 0 is vJoy button 1.
/// Each is the XInput bit the phone sends for it and its label.
pub fn button(i: usize) -> (r: (u16, &'static str))
    requires
        i < BUTTON_COUNT,
    ensures
        r.0 == button_bit(i as int),
        r.1@ == button_label(i as int),
{
    match i {
        0 => (0x1000, "A"),
        1 => (0x2000, "B"),
        2 => (0x4000, "X"),
        3 => (0x8000, "Y"),
        4 => (0x0100, "LB"),
        5 => (0x0200, "RB"),
        6 => (0x0020, "Back"),
        7 => (0x0010, "Start"),
        8 => (0x0040, "L-stick"),
        9 => (0x0080, "R-stick"),
        10 => (0x0001, "D-Up"),
        11 => (0x0002, "D-Down"),
        12 => (0x0004, "D-Left"),
        _ => (0x0008, "D-Right"),
    }
}

/// The vJoy button mask for the phone's XInput mask `buttons`, over the
/// first `n` buttons: bit `i` is set when the phone holds button `i`'s bit.
pub open spec fn button_mask(buttons: u16, n: nat) -> u32
    decreases n,
{
    if n == 0 {
        0
    } else {
        let i = (n - 1) as int;
        let rest = button_mask(buttons, (n - 1) as nat);
        if buttons & button_bit(i) != 0 {
            rest | (1u32 << (i as u32))
        } else {
            rest
        }
    }
}

// -------------------------------------------------------------- position

/// `JOYSTICK_POSITION_V2` from vJoy's `public.h`, field for field.
#[derive(Clone, Copy)]
pub struct Position {
    pub device: u8,
    pub throttle: i32,
    pub rudder: i32,
    pub aileron: i32,
    pub axis_x: i32,
    pub axis_y: i32,
    pub axis_z: i32,
    pub axis_x_rot: i32,
    pub axis_y_rot: i32,
    pub axis_z_rot: i32,
    pub slider: i32,
    pub dial: i32,
    pub wheel: i32,
    pub axis_vx: i32,
    pub axis_vy: i32,
    pub axis_vz: i32,
    pub axis_vbrx: i32,
    pub axis_vbry: i32,
    pub axis_vbrz: i32,
    pub buttons: i32,
    pub hats: u32,
    pub hats_ex1: u32,
    pub hats_ex2: u32,
    pub hats_ex3: u32,
    pub buttons_ex1: i32,
    pub buttons_ex2: i32,
    pub buttons_ex3: i32,
}

/// A report for `device` with everything else zero.
pub open spec fn blank_position(device: u8) -> Position {
    Position {
        device,
        throttle: 0,
        rudder: 0,
        aileron: 0,
        axis_x: 0,
        axis_y: 0,
        axis_z: 0,
        axis_x_rot: 0,
        axis_y_rot: 0,
        axis_z_rot: 0,
        slider: 0,
        dial: 0,
        wheel: 0,
        axis_vx: 0,
        axis_vy: 0,
        axis_vz: 0,
        axis_vbrx: 0,
        axis_vbry: 0,
        axis_vbrz: 0,
        buttons: 0,
        hats: 0,
        hats_ex1: 0,
        hats_ex2: 0,
        hats_ex3: 0,
        buttons_ex1: 0,
        buttons_ex2: 0,
        buttons_ex3: 0,
    }
}

/// `p` with the field vJoy identifies by HID usage `axis` set to `v`; other
/// usages leave `p` as it is.
pub open spec fn with_axis(p: Position, axis: u32, v: i32) -> Position {
    if axis == AXIS_X {
        Position { axis_x: v, ..p }
    } else if axis == AXIS_Y {
        Position { axis_y: v, ..p }
    } else if axis == AXIS_Z {
        Position { axis_z: v, ..p }
    } else if axis == AXIS_RX {
        Position { axis_x_rot: v, ..p }
    } else if axis == AXIS_RY {
        Position { axis_y_rot: v, ..p }
    } else if axis == AXIS_RZ {
        Position { axis_z_rot: v, ..p }
    } else if axis == AXIS_SL0 {
        Position { slider: v, ..p }
    } else if axis == AXIS_SL1 {
        Position { dial: v, ..p }
    } else {
        p
    }
}

impl Position {
    /// A report for `device` with everything else zero.
    pub fn new(device: u8) -> (r: Position)
        ensures
            r == blank_position(device),
    {
        Position {
            device,
            throttle: 0,
            rudder: 0,
            aileron: 0,
            axis_x: 0,
            axis_y: 0,
            axis_z: 0,
            axis_x_rot: 0,
            axis_y_rot: 0,
            axis_z_rot: 0,
            slider: 0,
            dial: 0,
            wheel: 0,
            axis_vx: 0,
            axis_vy: 0,
            axis_vz: 0,
            axis_vbrx: 0,
            axis_vbry: 0,
            axis_vbrz: 0,
            buttons: 0,
            hats: 0,
            hats_ex1: 0,
            hats_ex2: 0,
            hats_ex3: 0,
            buttons_ex1: 0,
            buttons_ex2: 0,
            buttons_ex3: 0,
        }
    }

    /// Write `v` into the field vJoy identifies by HID usage `axis`.
    pub fn set(&mut self, axis: u32, v: i32)
        ensures
            *final(self) == with_axis(*old(self), axis, v),
    {
        match axis {
            AXIS_X => self.axis_x = v,
            AXIS_Y => self.axis_y = v,
            AXIS_Z => self.axis_z = v,
            AXIS_RX => self.axis_x_rot = v,
            AXIS_RY => self.axis_y_rot = v,
            AXIS_RZ => self.axis_z_rot = v,
            AXIS_SL0 => self.slider = v,
            AXIS_SL1 => self.dial = v,
            _ => {},
        }
    }
}


// ---------------------------------------------------------------- layout

/// What the driver says about one axis of the device: whether it exists,
/// and the maximum `GetVJDAxisMax` reported (`None` when that call failed).
#[derive(Clone, Copy)]
pub struct AxisCaps {
    pub exists: bool,
    pub max: Option<i32>,
}

/// What the driver says about the device: the axes by usage
/// (`axes[u - AXIS_X]` for usage `u`) and `GetVJDButtonNumber`.
#[derive(Clone, Copy)]
pub struct DeviceCaps {
    pub axes: [AxisCaps; 8],
    pub buttons: i32,
}

/// One resolved axis: HID usage, its full-scale value, and a display name.
#[derive(Clone, Copy)]
pub struct Axis {
    pub usage: u32,
    pub max: i32,
    pub name: &'static str,
}

/// The axis `usage` of the device, if it has one. Its full scale is what the
/// driver reports, or [DEFAULT_AXIS_MAX] when it reports nothing positive.
pub open spec fn axis_of(caps: DeviceCaps, usage: u32, name: &'static str) -> Option<Axis> {
    let c = caps.axes[usage - AXIS_X];
    if !c.exists {
        None
    } else {
        Some(
            Axis {
                usage,
                max: match c.max {
                    Some(m) if m > 0 => m,
                    _ => DEFAULT_AXIS_MAX,
                },
                name,
            },
        )
    }
}

/// Where each control may go, best first: 0 throttle, 1 brake, 2 clutch,
/// 3 stick X, 4 stick Y.
pub open spec fn candidate_axes(control: int) -> Seq<(u32, &'static str)> {
    if control == 0 {
        seq![(AXIS_Y, "Y"), (AXIS_Z, "Z"), (AXIS_RY, "RY")]
    } else if control == 1 {
        seq![(AXIS_RZ, "RZ"), (AXIS_Z, "Z"), (AXIS_RX, "RX")]
    } else if control == 2 {
        seq![(AXIS_SL0, "Slider"), (AXIS_RX, "RX"), (AXIS_SL1, "Dial")]
    } else if control == 3 {
        seq![(AXIS_RX, "RX"), (AXIS_Z, "Z"), (AXIS_SL1, "Dial")]
    } else {
        seq![(AXIS_RY, "RY"), (AXIS_SL1, "Dial"), (AXIS_Z, "Z")]
    }
}

fn candidates(control: usize) -> (r: [(u32, &'static str); 3])
    requires
        control < 5,
    ensures
        r@ == candidate_axes(control as int),
{
    let r = match control {
        0 => [(AXIS_Y, "Y"), (AXIS_Z, "Z"), (AXIS_RY, "RY")],
        1 => [(AXIS_RZ, "RZ"), (AXIS_Z, "Z"), (AXIS_RX, "RX")],
        2 => [(AXIS_SL0, "Slider"), (AXIS_RX, "RX"), (AXIS_SL1, "Dial")],
        3 => [(AXIS_RX, "RX"), (AXIS_Z, "Z"), (AXIS_SL1, "Dial")],
        _ => [(AXIS_RY, "RY"), (AXIS_SL1, "Dial"), (AXIS_Z, "Z")],
    };
    assert(r@ =~= candidate_axes(control as int));
    r
}

/// The first axis of `list` that the device has and nothing has taken yet.
pub open spec fn claim(caps: DeviceCaps, taken: Seq<u32>, list: Seq<(u32, &'static str)>) -> Option<Axis>
    decreases list.len(),
{
    if list.len() == 0 {
        None
    } else if !taken.contains(list[0].0) && axis_of(caps, list[0].0, list[0].1) is Some {
        axis_of(caps, list[0].0, list[0].1)
    } else {
        claim(caps, taken, list.drop_first())
    }
}

/// The usages taken once `a` (if any) is claimed.
pub open spec fn taken_after(taken: Seq<u32>, a: Option<Axis>) -> Seq<u32> {
    match a {
        Some(a) => taken.push(a.usage),
        None => taken,
    }
}

/// How a vJoy device's configuration maps onto what we send.
#[derive(Clone, Copy)]
pub struct Layout {
    pub steer: Option<Axis>,
    pub throttle: Option<Axis>,
    pub brake: Option<Axis>,
    pub clutch: Option<Axis>,
    pub stick_x: Option<Axis>,
    pub stick_y: Option<Axis>,
    pub buttons: usize,
}

/// The layout of a device: steering on X, then each control in turn takes
/// the first axis on its list that exists and nothing else claimed (pedals
/// before the stick), so a device short on axes drops the last controls
/// instead of doubling two onto one axis.
pub open spec fn layout_of(caps: DeviceCaps) -> Layout {
    let steer = axis_of(caps, AXIS_X, "X");
    let t0 = taken_after(Seq::empty(), steer);
    let throttle = claim(caps, t0, candidate_axes(0));
    let t1 = taken_after(t0, throttle);
    let brake = claim(caps, t1, candidate_axes(1));
    let t2 = taken_after(t1, brake);
    let clutch = claim(caps, t2, candidate_axes(2));
    let t3 = taken_after(t2, clutch);
    let stick_x = claim(caps, t3, candidate_axes(3));
    let t4 = taken_after(t3, stick_x);
    let stick_y = claim(caps, t4, candidate_axes(4));
    Layout {
        steer,
        throttle,
        brake,
        clutch,
        stick_x,
        stick_y,
        buttons: if caps.buttons < 0 { 0 } else { caps.buttons as usize },
    }
}

fn resolve_axis(caps: &DeviceCaps, usage: u32, name: &'static str) -> (r: Option<Axis>)
    requires
        AXIS_X <= usage <= AXIS_SL1,
    ensures
        r == axis_of(*caps, usage, name),
{
    let c = caps.axes[(usage - AXIS_X) as usize];
    if !c.exists {
        return None;
    }
    let max = match c.max {
        Some(m) if m > 0 => m,
        _ => DEFAULT_AXIS_MAX,
    };
    Some(Axis { usage, max, name })
}

fn holds(v: &Vec<u32>, x: u32) -> (r: bool)
    ensures
        r == v@.contains(x),
{
    let mut i: usize = 0;
    while i < v.len()
        invariant
            i <= v@.len(),
            forall|k: int| 0 <= k < i ==> v@[k] != x,
        decreases v@.len() - i,
    {
        if v[i] == x {
            return true;
        }
        i = i + 1;
    }
    false
}

fn claim_axis(caps: &DeviceCaps, taken: &mut Vec<u32>, control: usize) -> (r: Option<Axis>)
    requires
        control < 5,
    ensures
        r == claim(*caps, old(taken)@, candidate_axes(control as int)),
        final(taken)@ == taken_after(old(taken)@, r),
{
    let list = candidates(control);
    let ghost l = list@;
    let mut i: usize = 0;
    assert(l.subrange(0, 3) =~= l);
    while i < 3
        invariant
            l == candidate_axes(control as int),
            l == list@,
            i <= 3,
            AXIS_X <= l[0].0 <= AXIS_SL1 && AXIS_X <= l[1].0 <= AXIS_SL1 && AXIS_X <= l[2].0 <= AXIS_SL1,
            taken@ == old(taken)@,
            claim(*caps, taken@, l) == claim(*caps, taken@, l.subrange(i as int, 3)),
        decreases 3 - i,
    {
        let (u, n) = list[i];
        assert(l.subrange(i as int, 3)[0] == l[i as int]);
        assert(l.subrange(i as int, 3).drop_first() =~= l.subrange(i + 1 as int, 3));
        if !holds(taken, u) {
            let a = resolve_axis(caps, u, n);
            if let Some(ax) = a {
                taken.push(ax.usage);
                return a;
            }
        }
        i = i + 1;
    }
    None
}

impl Layout {
    /// Resolve the device's answers into the layout (see [layout_of]).
    pub fn read(caps: &DeviceCaps) -> (r: Layout)
        ensures
            r == layout_of(*caps),
    {
        let steer = resolve_axis(caps, AXIS_X, "X");
        let mut taken: Vec<u32> = Vec::new();
        if let Some(a) = steer {
            taken.push(a.usage);
        }
        assert(taken@ == taken_after(Seq::empty(), steer));
        let throttle = claim_axis(caps, &mut taken, 0);
        let brake = claim_axis(caps, &mut taken, 1);
        let clutch = claim_axis(caps, &mut taken, 2);
        let stick_x = claim_axis(caps, &mut taken, 3);
        let stick_y = claim_axis(caps, &mut taken, 4);
        let buttons: usize = if caps.buttons < 0 {
            0
        } else {
            caps.buttons as usize
        };
        Layout { steer, throttle, brake, clutch, stick_x, stick_y, buttons }
    }
}


// -------------------------------------------------------------- messages

/// The texts of a list of strings.
pub open spec fn texts(v: Seq<String>) -> Seq<Seq<char>> {
    v.map_values(|s: String| s@)
}

pub proof fn lemma_join_push(parts: Seq<Seq<char>>, sep: Seq<char>, x: Seq<char>)
    ensures
        join(parts.push(x), sep) == if parts.len() == 0 {
            x
        } else {
            join(parts, sep) + sep + x
        },
{
    assert(parts.push(x).drop_last() =~= parts);
    if parts.len() == 0 {
        assert(parts.push(x) =~= seq![x]);
    }
}

/// `label = name` for a control that has an axis, nothing otherwise.
pub open spec fn control_part(label: Seq<char>, a: Option<Axis>) -> Seq<Seq<char>> {
    match a {
        Some(a) => seq![label + " = "@ + a.name@],
        None => Seq::empty(),
    }
}

/// The steering part of the summary.
pub open spec fn steer_text(a: Option<Axis>) -> Seq<char> {
    match a {
        Some(a) => "steering = "@ + a.name@ + " axis ("@ + signed_decimal(a.max + 1) + " steps)"@,
        None => "no steering axis"@,
    }
}

/// One line describing what the game will see.
pub open spec fn summary_text(l: Layout, id: u32) -> Seq<char> {
    let pedals = join(
        control_part("throttle"@, l.throttle) + control_part("brake"@, l.brake) + control_part(
            "clutch"@,
            l.clutch,
        ),
        ", "@,
    );
    let stick = match (l.stick_x, l.stick_y) {
        (Some(x), Some(y)) => ", stick = "@ + x.name@ + "/"@ + y.name@,
        _ => Seq::empty(),
    };
    "vJoy device "@ + decimal(id as nat) + ": "@ + steer_text(l.steer) + ", "@ + pedals + stick
        + ", "@ + decimal(l.buttons as nat) + " buttons."@
}

/// The message for a device without the X (steering) axis.
pub open spec fn no_steering_text(id: u32) -> Seq<char> {
    "vJoy device "@ + decimal(id as nat) + " has no X axis - enable X in vJoyConf, it's the steering axis."@
}

/// The warning for a pedal without a free axis.
pub open spec fn pedal_warning(label: Seq<char>, a: Option<Axis>, id: u32) -> Seq<Seq<char>> {
    match a {
        Some(_) => Seq::empty(),
        None => seq![label + " has no free axis on vJoy device "@ + decimal(id as nat) + " - add axes in vJoyConf."@],
    }
}

/// The labels of buttons `from..BUTTON_COUNT`.
pub open spec fn labels_from(from: int) -> Seq<Seq<char>> {
    Seq::new((BUTTON_COUNT - from) as nat, |i: int| button_label(from + i))
}

/// Everything about this configuration that needs fixing in vJoyConf.
pub open spec fn warnings_text(l: Layout, id: u32) -> Seq<Seq<char>> {
    let steer = if l.steer is None {
        seq![no_steering_text(id)]
    } else {
        Seq::empty()
    };
    let stick = if l.stick_x is None || l.stick_y is None {
        seq!["The free stick needs two spare axes on vJoy device "@ + decimal(id as nat) + " - enable RX and RY in vJoyConf."@]
    } else {
        Seq::empty()
    };
    let buttons = if l.buttons < BUTTON_COUNT {
        seq!["vJoy device "@ + decimal(id as nat) + " has "@ + decimal(l.buttons as nat) + " buttons, so "@
            + join(labels_from(l.buttons as int), "/"@) + " are dropped - set it to "@ + decimal(
            BUTTON_COUNT as nat,
        ) + " in vJoyConf."@]
    } else {
        Seq::empty()
    };
    steer + pedal_warning("Throttle"@, l.throttle, id) + pedal_warning("Brake"@, l.brake, id)
        + pedal_warning("Clutch"@, l.clutch, id) + stick + buttons
}

/// The labels of the first `n` buttons, numbered: `1=A 2=B ...`.
pub open spec fn numbered_buttons(n: int) -> Seq<Seq<char>> {
    Seq::new(n as nat, |i: int| decimal((i + 1) as nat) + "="@ + button_label(i))
}

/// The log line telling the user what to bind: `Buttons: 1=A 2=B ... .`
pub open spec fn buttons_text(l: Layout) -> Seq<char> {
    let n = if l.buttons < BUTTON_COUNT { l.buttons as int } else { BUTTON_COUNT as int };
    "Buttons: "@ + join(numbered_buttons(n), " "@) + "."@
}

fn append_control(
    out: &mut String,
    parts: Ghost<Seq<Seq<char>>>,
    nonempty: bool,
    label: &str,
    a: Option<Axis>,
) -> (r: bool)
    requires
        old(out)@ == join(parts@, ", "@),
        nonempty == (parts@.len() > 0),
    ensures
        final(out)@ == join(parts@ + control_part(label@, a), ", "@),
        r == ((parts@ + control_part(label@, a)).len() > 0),
{
    match a {
        Some(ax) => {
            if nonempty {
                out.append(", ");
            }
            out.append(label);
            out.append(" = ");
            out.append(ax.name);
            proof {
                lemma_join_push(parts@, ", "@, label@ + " = "@ + ax.name@);
                assert(parts@ + control_part(label@, a) =~= parts@.push(label@ + " = "@ + ax.name@));
            }
            true
        },
        None => {
            assert(parts@ + control_part(label@, a) =~= parts@);
            nonempty
        },
    }
}

impl Layout {
    /// One line describing what the game will see.
    pub fn summary(&self, id: u32) -> (r: String)
        requires
            self.steer matches Some(a) ==> a.max < i32::MAX,
        ensures
            r@ == summary_text(*self, id),
    {
        let mut out = String::new();
        out.append("vJoy device ");
        push_decimal(&mut out, id as u64);
        out.append(": ");
        match self.steer {
            Some(a) => {
                out.append("steering = ");
                out.append(a.name);
                out.append(" axis (");
                push_signed(&mut out, (a.max + 1) as i64);
                out.append(" steps)");
            },
            None => {
                out.append("no steering axis");
            },
        }
        out.append(", ");
        let ghost head = out@;
        let mut pedals = String::new();
        let ghost p1 = control_part("throttle"@, self.throttle);
        assert(Seq::<Seq<char>>::empty() + p1 =~= p1);
        let n1 = append_control(&mut pedals, Ghost(Seq::empty()), false, "throttle", self.throttle);
        let ghost p2 = p1 + control_part("brake"@, self.brake);
        let n2 = append_control(&mut pedals, Ghost(p1), n1, "brake", self.brake);
        append_control(&mut pedals, Ghost(p2), n2, "clutch", self.clutch);
        out.append(pedals.as_str());
        match (self.stick_x, self.stick_y) {
            (Some(x), Some(y)) => {
                out.append(", stick = ");
                out.append(x.name);
                out.append("/");
                out.append(y.name);
            },
            _ => {},
        }
        out.append(", ");
        push_decimal(&mut out, self.buttons as u64);
        out.append(" buttons.");
        out
    }

    /// Everything about this configuration that needs fixing in vJoyConf.
    pub fn warnings(&self, id: u32) -> (r: Vec<String>)
        ensures
            texts(r@) == warnings_text(*self, id),
    {
        let mut out: Vec<String> = Vec::new();
        let ghost mut want: Seq<Seq<char>> = Seq::empty();
        if self.steer.is_none() {
            out.push(no_steering(id));
        }
        proof {
            want = if self.steer is None { seq![no_steering_text(id)] } else { Seq::empty() };
            assert(texts(out@) =~= want);
        }
        self.pedal_warning(&mut out, Ghost(want), "Throttle", self.throttle, id);
        proof { want = want + pedal_warning("Throttle"@, self.throttle, id); }
        self.pedal_warning(&mut out, Ghost(want), "Brake", self.brake, id);
        proof { want = want + pedal_warning("Brake"@, self.brake, id); }
        self.pedal_warning(&mut out, Ghost(want), "Clutch", self.clutch, id);
        proof { want = want + pedal_warning("Clutch"@, self.clutch, id); }
        if self.stick_x.is_none() || self.stick_y.is_none() {
            let mut w = String::new();
            w.append("The free stick needs two spare axes on vJoy device ");
            push_decimal(&mut w, id as u64);
            w.append(" - enable RX and RY in vJoyConf.");
            out.push(w);
        }
        proof {
            let stick = if self.stick_x is None || self.stick_y is None {
                seq!["The free stick needs two spare axes on vJoy device "@ + decimal(id as nat) + " - enable RX and RY in vJoyConf."@]
            } else {
                Seq::empty()
            };
            assert(texts(out@) =~= want + stick);
            want = want + stick;
        }
        if self.buttons < BUTTON_COUNT {
            let mut w = String::new();
            w.append("vJoy device ");
            push_decimal(&mut w, id as u64);
            w.append(" has ");
            push_decimal(&mut w, self.buttons as u64);
            w.append(" buttons, so ");
            push_labels_from(&mut w, self.buttons);
            w.append(" are dropped - set it to ");
            push_decimal(&mut w, BUTTON_COUNT as u64);
            w.append(" in vJoyConf.");
            out.push(w);
        }
        assert(texts(out@) =~= warnings_text(*self, id));
        out
    }

    fn pedal_warning(&self, out: &mut Vec<String>, want: Ghost<Seq<Seq<char>>>, label: &str, a: Option<Axis>, id: u32)
        requires
            texts(old(out)@) == want@,
        ensures
            texts(final(out)@) == want@ + pedal_warning(label@, a, id),
    {
        if a.is_none() {
            let mut w = String::new();
            w.append(label);
            w.append(" has no free axis on vJoy device ");
            push_decimal(&mut w, id as u64);
            w.append(" - add axes in vJoyConf.");
            out.push(w);
        }
        assert(texts(out@) =~= want@ + pedal_warning(label@, a, id));
    }

    /// The log line telling the user which vJoy button is which.
    pub fn buttons_note(&self) -> (r: String)
        ensures
            r@ == buttons_text(*self),
    {
        let n = if self.buttons < BUTTON_COUNT {
            self.buttons
        } else {
            BUTTON_COUNT
        };
        let mut out = String::new();
        out.append("Buttons: ");
        let ghost head = out@;
        let mut i: usize = 0;
        while i < n
            invariant
                i <= n <= BUTTON_COUNT,
                head == "Buttons: "@,
                out@ == head + join(numbered_buttons(i as int), " "@),
            decreases n - i,
        {
            if i > 0 {
                out.append(" ");
            }
            push_decimal(&mut out, (i + 1) as u64);
            out.append("=");
            let (_, name) = button(i);
            out.append(name);
            proof {
                let x = decimal((i + 1) as nat) + "="@ + button_label(i as int);
                lemma_join_push(numbered_buttons(i as int), " "@, x);
                assert(numbered_buttons(i + 1 as int) =~= numbered_buttons(i as int).push(x));
            }
            i = i + 1;
        }
        out.append(".");
        out
    }
}

fn no_steering(id: u32) -> (r: String)
    ensures
        r@ == no_steering_text(id),
{
    let mut w = String::new();
    w.append("vJoy device ");
    push_decimal(&mut w, id as u64);
    w.append(" has no X axis - enable X in vJoyConf, it's the steering axis.");
    w
}

fn push_labels_from(out: &mut String, from: usize)
    requires
        from < BUTTON_COUNT,
    ensures
        final(out)@ == old(out)@ + join(labels_from(from as int), "/"@),
{
    let ghost head = out@;
    let mut i = from;
    assert(labels_from(from as int).subrange(0, 0) =~= Seq::<Seq<char>>::empty());
    while i < BUTTON_COUNT
        invariant
            from <= i <= BUTTON_COUNT,
            out@ == head + join(labels_from(from as int).subrange(0, i - from), "/"@),
        decreases BUTTON_COUNT - i,
    {
        if i > from {
            out.append("/");
        }
        let (_, name) = button(i);
        out.append(name);
        proof {
            let prev = labels_from(from as int).subrange(0, i - from);
            lemma_join_push(prev, "/"@, button_label(i as int));
            assert(labels_from(from as int).subrange(0, i + 1 - from) =~= prev.push(button_label(i as int)));
        }
        i = i + 1;
    }
    assert(labels_from(from as int).subrange(0, BUTTON_COUNT - from) =~= labels_from(from as int));
}


// ------------------------------------------------------ opening a device

/// Why device `id` can't be acquired, given its `GetVJDStatus`; `None` when
/// it is free or already ours.
pub open spec fn status_problem(id: u32, status: i32) -> Option<Seq<char>> {
    if status == VJD_STAT_FREE || status == VJD_STAT_OWN {
        None
    } else if status == VJD_STAT_BUSY {
        Some("vJoy device "@ + decimal(id as nat) + " is already used by another program - close it and Launch again."@)
    } else if status == VJD_STAT_MISS {
        Some("vJoy device "@ + decimal(id as nat) + " isn't configured - open vJoyConf, enable device "@
            + decimal(id as nat) + ", apply."@)
    } else {
        Some("vJoy device "@ + decimal(id as nat) + " is in an unknown state."@)
    }
}

/// Why device `id` can't be acquired, given its `GetVJDStatus`.
pub fn status_error(id: u32, status: i32) -> (r: Option<String>)
    ensures
        r matches Some(e) ==> status_problem(id, status) == Some(e@),
        r is None ==> status_problem(id, status) is None,
{
    if status == VJD_STAT_FREE || status == VJD_STAT_OWN {
        return None;
    }
    let mut e = String::new();
    e.append("vJoy device ");
    push_decimal(&mut e, id as u64);
    if status == VJD_STAT_BUSY {
        e.append(" is already used by another program - close it and Launch again.");
    } else if status == VJD_STAT_MISS {
        e.append(" isn't configured - open vJoyConf, enable device ");
        push_decimal(&mut e, id as u64);
        e.append(", apply.");
    } else {
        e.append(" is in an unknown state.");
    }
    Some(e)
}

/// The driver version as the launcher shows it: the two bytes of
/// `GetvJoyVersion` in hexadecimal, `major.minor`.
pub open spec fn version_text(v: i16) -> Seq<char> {
    let u = (if v < 0 { v + 0x10000 } else { v as int }) as nat;
    hex((u / 256) % 256) + "."@ + hex(u % 256)
}

/// The driver version as the launcher shows it.
pub fn version_string(v: i16) -> (r: String)
    ensures
        r@ == version_text(v),
{
    let u: u32 = if v < 0 {
        (v as i32 + 0x10000) as u32
    } else {
        v as u32
    };
    let mut out = String::new();
    push_hex(&mut out, ((u / 256) % 256) as u64);
    out.append(".");
    push_hex(&mut out, (u % 256) as u64);
    out
}

/// What the launcher shows about vJoy before anything is launched.
pub struct Probe {
    pub version: String,
    /// How the device is set up, in one line.
    pub summary: String,
    /// Anything that needs a trip to vJoyConf (missing axes, too few buttons).
    pub warnings: Vec<String>,
}

impl Probe {
    /// The probe report for device `id`, from the driver version and the
    /// device's answers.
    pub fn new(version: i16, caps: &DeviceCaps, id: u32) -> (r: Probe)
        requires
            layout_of(*caps).steer matches Some(a) ==> a.max < i32::MAX,
        ensures
            r.version@ == version_text(version),
            r.summary@ == summary_text(layout_of(*caps), id),
            texts(r.warnings@) == warnings_text(layout_of(*caps), id),
    {
        let layout = Layout::read(caps);
        Probe {
            version: version_string(version),
            summary: layout.summary(id),
            warnings: layout.warnings(id),
        }
    }
}

// ------------------------------------------------------------- the wheel

/// An axis whose scaled values fit the report: full scale 1..=32768.
pub open spec fn fits(a: Axis) -> bool {
    0 < a.max <= 32768
}

pub open spec fn fits_opt(a: Option<Axis>) -> bool {
    match a {
        Some(a) => fits(a),
        None => true,
    }
}

/// A device resolved for feeding: steering is mandatory, the rest optional.
#[derive(Clone, Copy)]
pub struct Wheel {
    pub id: u32,
    pub steer: Axis,
    pub throttle: Option<Axis>,
    pub brake: Option<Axis>,
    pub clutch: Option<Axis>,
    pub stick_x: Option<Axis>,
    pub stick_y: Option<Axis>,
    pub buttons: usize,
}

/// A centred input (`i16`, 0 = centre) on an axis of full scale `max`.
pub open spec fn centered(v: i16, max: i32) -> i32 {
    ((v + 32768) * max / 65535) as i32
}

/// A pedal (`0..=255`) on an axis of full scale `max`.
pub open spec fn pedal(v: u8, max: i32) -> i32 {
    (v * max / 255) as i32
}

/// `-v`, saturating at `i16::MAX`.
pub open spec fn neg_saturating(v: i16) -> i16 {
    if v == i16::MIN { i16::MAX } else { (-v) as i16 }
}

pub open spec fn with_optional(p: Position, a: Option<Axis>, v: i32) -> Position {
    match a {
        Some(a) => with_axis(p, a.usage, v),
        None => p,
    }
}

/// The report for one input packet: steering spans its axis (`i16` centre
/// lands mid-travel), the free stick likewise (Y inverted, since
/// DirectInput axes count downwards), each pedal scales `0..=255` onto its
/// axis, and the buttons the device has map bit by bit.
pub open spec fn wheel_position(w: Wheel, input: InputPacket) -> Position {
    let p0 = blank_position(w.id as u8);
    let p1 = with_axis(p0, w.steer.usage, centered(input.steer, w.steer.max));
    let p2 = match w.stick_x {
        Some(a) => with_axis(p1, a.usage, centered(input.joy_x, a.max)),
        None => p1,
    };
    let p3 = match w.stick_y {
        Some(a) => with_axis(p2, a.usage, centered(neg_saturating(input.joy_y), a.max)),
        None => p2,
    };
    let p4 = match w.throttle {
        Some(a) => with_axis(p3, a.usage, pedal(input.throttle, a.max)),
        None => p3,
    };
    let p5 = match w.brake {
        Some(a) => with_axis(p4, a.usage, pedal(input.brake, a.max)),
        None => p4,
    };
    let p6 = match w.clutch {
        Some(a) => with_axis(p5, a.usage, pedal(input.clutch, a.max)),
        None => p5,
    };
    let n = if w.buttons < BUTTON_COUNT { w.buttons } else { BUTTON_COUNT };
    Position { buttons: button_mask(input.buttons, n as nat) as i32, ..p6 }
}

fn scale_centered(v: i16, max: i32) -> (r: i32)
    requires
        0 < max <= 32768,
    ensures
        r == centered(v, max),
{
    let shifted: i32 = v as i32 + 32768;
    assert(0 <= shifted * max <= 65535 * 32768) by (nonlinear_arith)
        requires
            0 <= shifted <= 65535,
            0 < max <= 32768,
    ;
    shifted * max / 65535
}

fn scale_pedal(v: u8, max: i32) -> (r: i32)
    requires
        0 < max <= 32768,
    ensures
        r == pedal(v, max),
{
    let x: i32 = v as i32;
    assert(0 <= x * max <= 255 * 32768) by (nonlinear_arith)
        requires
            0 <= x <= 255,
            0 < max <= 32768,
    ;
    x * max / 255
}

fn mask_of(buttons: u16, n: usize) -> (r: u32)
    requires
        n <= BUTTON_COUNT,
    ensures
        r == button_mask(buttons, n as nat),
{
    let mut mask: u32 = 0;
    let mut i: usize = 0;
    while i < n
        invariant
            i <= n <= BUTTON_COUNT,
            mask == button_mask(buttons, i as nat),
        decreases n - i,
    {
        let (bit, _) = button(i);
        if buttons & bit != 0 {
            mask = mask | (1u32 << (i as u32));
        }
        i = i + 1;
    }
    mask
}

impl Wheel {
    /// Every axis the wheel drives fits the report (see [fits]).
    pub open spec fn wf(&self) -> bool {
        &&& fits(self.steer)
        &&& fits_opt(self.throttle)
        &&& fits_opt(self.brake)
        &&& fits_opt(self.clutch)
        &&& fits_opt(self.stick_x)
        &&& fits_opt(self.stick_y)
    }

    /// Feed device `id` with `layout`; an error when it has no steering axis.
    pub fn from_layout(id: u32, layout: &Layout) -> (r: Result<Wheel, String>)
        ensures
            match r {
                Ok(w) => {
                    &&& layout.steer == Some(w.steer)
                    &&& w.id == id
                    &&& w.throttle == layout.throttle
                    &&& w.brake == layout.brake
                    &&& w.clutch == layout.clutch
                    &&& w.stick_x == layout.stick_x
                    &&& w.stick_y == layout.stick_y
                    &&& w.buttons == layout.buttons
                },
                Err(e) => layout.steer is None && e@ == no_steering_text(id),
            },
    {
        match layout.steer {
            Some(steer) => Ok(
                Wheel {
                    id,
                    steer,
                    throttle: layout.throttle,
                    brake: layout.brake,
                    clutch: layout.clutch,
                    stick_x: layout.stick_x,
                    stick_y: layout.stick_y,
                    buttons: layout.buttons,
                },
            ),
            None => Err(no_steering(id)),
        }
    }

    /// The report for one input packet (see [wheel_position]).
    pub fn position(&self, input: &InputPacket) -> (r: Position)
        requires
            self.wf(),
        ensures
            r == wheel_position(*self, *input),
    {
        let mut pos = Position::new(self.id as u8);
        pos.set(self.steer.usage, scale_centered(input.steer, self.steer.max));
        if let Some(a) = self.stick_x {
            pos.set(a.usage, scale_centered(input.joy_x, a.max));
        }
        if let Some(a) = self.stick_y {
            let y: i16 = if input.joy_y == i16::MIN {
                i16::MAX
            } else {
                -input.joy_y
            };
            pos.set(a.usage, scale_centered(y, a.max));
        }
        if let Some(a) = self.throttle {
            pos.set(a.usage, scale_pedal(input.throttle, a.max));
        }
        if let Some(a) = self.brake {
            pos.set(a.usage, scale_pedal(input.brake, a.max));
        }
        if let Some(a) = self.clutch {
            pos.set(a.usage, scale_pedal(input.clutch, a.max));
        }
        let n = if self.buttons < BUTTON_COUNT {
            self.buttons
        } else {
            BUTTON_COUNT
        };
        pos.buttons = mask_of(input.buttons, n) as i32;
        pos
    }

    /// Wheel centred, pedals up, no buttons: what is sent when the phone
    /// goes quiet.
    pub fn center(&self) -> (r: Position)
        requires
            self.wf(),
        ensures
            r == wheel_position(*self, neutral_input()),
    {
        self.position(&InputPacket::neutral())
    }
}


// ------------------------------------------------------------------ laws

/// The usages the layout's controls ended up on, in claiming order.
pub open spec fn layout_usages(l: Layout) -> Seq<u32> {
    taken_after(
        taken_after(
            taken_after(
                taken_after(taken_after(taken_after(Seq::empty(), l.steer), l.throttle), l.brake),
                l.clutch,
            ),
            l.stick_x,
        ),
        l.stick_y,
    )
}

proof fn lemma_claim_fresh(caps: DeviceCaps, taken: Seq<u32>, list: Seq<(u32, &'static str)>)
    ensures
        claim(caps, taken, list) matches Some(a) ==> {
            &&& !taken.contains(a.usage)
            &&& axis_of(caps, a.usage, a.name) == Some(a)
        },
    decreases list.len(),
{
    if list.len() > 0 {
        lemma_claim_fresh(caps, taken, list.drop_first());
    }
}

proof fn lemma_taken_after_distinct(taken: Seq<u32>, a: Option<Axis>)
    requires
        taken.no_duplicates(),
        a matches Some(x) ==> !taken.contains(x.usage),
    ensures
        taken_after(taken, a).no_duplicates(),
        forall|u: u32| taken.contains(u) ==> taken_after(taken, a).contains(u),
{
    if let Some(x) = a {
        let t = taken.push(x.usage);
        assert forall|i: int, j: int| 0 <= i < t.len() && 0 <= j < t.len() && i != j implies t[i] != t[j] by {
            if i == taken.len() as int {
                assert(taken.contains(t[j]));
            } else if j == taken.len() as int {
                assert(taken.contains(t[i]));
            }
        }
        assert forall|u: u32| taken.contains(u) implies t.contains(u) by {
            let i = choose|i: int| 0 <= i < taken.len() && taken[i] == u;
            assert(t[i] == u);
        }
    }
}

/// No two controls ever share an axis, and every control sits on an axis the
/// device really has.
pub proof fn lemma_layout_no_shared_axis(caps: DeviceCaps)
    ensures
        layout_usages(layout_of(caps)).no_duplicates(),
        forall|i: int| 0 <= i < layout_usages(layout_of(caps)).len() ==> {
            let u = #[trigger] layout_usages(layout_of(caps))[i];
            AXIS_X <= u <= AXIS_SL1 && caps.axes[u - AXIS_X].exists
        },
{
    let l = layout_of(caps);
    let t0 = taken_after(Seq::empty(), l.steer);
    let t1 = taken_after(t0, l.throttle);
    let t2 = taken_after(t1, l.brake);
    let t3 = taken_after(t2, l.clutch);
    let t4 = taken_after(t3, l.stick_x);
    lemma_claim_fresh(caps, t0, candidate_axes(0));
    lemma_claim_fresh(caps, t1, candidate_axes(1));
    lemma_claim_fresh(caps, t2, candidate_axes(2));
    lemma_claim_fresh(caps, t3, candidate_axes(3));
    lemma_claim_fresh(caps, t4, candidate_axes(4));
    lemma_claim_usage(caps, t0, candidate_axes(0));
    lemma_claim_usage(caps, t1, candidate_axes(1));
    lemma_claim_usage(caps, t2, candidate_axes(2));
    lemma_claim_usage(caps, t3, candidate_axes(3));
    lemma_claim_usage(caps, t4, candidate_axes(4));
    lemma_taken_after_distinct(Seq::empty(), l.steer);
    lemma_taken_after_distinct(t0, l.throttle);
    lemma_taken_after_distinct(t1, l.brake);
    lemma_taken_after_distinct(t2, l.clutch);
    lemma_taken_after_distinct(t3, l.stick_x);
    lemma_taken_after_distinct(t4, l.stick_y);
    let all = layout_usages(l);
    assert forall|i: int| 0 <= i < all.len() implies {
        let u = #[trigger] all[i];
        AXIS_X <= u <= AXIS_SL1 && caps.axes[u - AXIS_X].exists
    } by {
        let u = all[i];
        if i == 0 && l.steer is Some {
            assert(u == AXIS_X);
        }
    }
}

proof fn lemma_claim_usage(caps: DeviceCaps, taken: Seq<u32>, list: Seq<(u32, &'static str)>)
    requires
        forall|k: int| 0 <= k < list.len() ==> AXIS_X <= #[trigger] list[k].0 <= AXIS_SL1,
    ensures
        claim(caps, taken, list) matches Some(a) ==> AXIS_X <= a.usage <= AXIS_SL1 && caps.axes[a.usage - AXIS_X].exists,
    decreases list.len(),
{
    if list.len() > 0 {
        lemma_claim_usage(caps, taken, list.drop_first());
    }
}

/// Whether bit `k` of `x` is set.
pub open spec fn bit_set(x: u32, k: u32) -> bool {
    (x >> k) & 1 == 1
}

proof fn lemma_or_bit(x: u32, j: u32, k: u32)
    requires
        j < 32,
        k < 32,
    ensures
        bit_set(x | (1u32 << j), k) == (k == j || bit_set(x, k)),
{
    assert(((x | (1u32 << j)) >> k) & 1 == 1 <==> (k == j || (x >> k) & 1 == 1)) by (bit_vector)
        requires
            j < 32,
            k < 32,
    ;
}

proof fn lemma_zero_bits(k: u32)
    requires
        k < 32,
    ensures
        !bit_set(0, k),
{
    assert((0u32 >> k) & 1 != 1) by (bit_vector);
}

/// vJoy button `k + 1` is down exactly when the device has that button and
/// the phone holds its XInput bit.
pub proof fn lemma_button_mask_bits(buttons: u16, n: nat, k: u32)
    requires
        n <= BUTTON_COUNT,
        k < 32,
    ensures
        bit_set(button_mask(buttons, n), k) == (k < n && buttons & button_bit(k as int) != 0),
    decreases n,
{
    if n == 0 {
        lemma_zero_bits(k);
    } else {
        let i = (n - 1) as int;
        lemma_button_mask_bits(buttons, (n - 1) as nat, k);
        if buttons & button_bit(i) != 0 {
            lemma_or_bit(button_mask(buttons, (n - 1) as nat), i as u32, k);
        }
    }
}

/// The vJoy button mask over the first `n` buttons uses only bits below `n`.
proof fn lemma_button_mask_small(buttons: u16, n: nat)
    requires
        n <= BUTTON_COUNT,
    ensures
        button_mask(buttons, n) < (1u32 << (n as u32)),
    decreases n,
{
    let nn = n as u32;
    if n == 0 {
        assert(1u32 << 0u32 == 1) by (bit_vector);
    } else {
        let i = (n - 1) as u32;
        let rest = button_mask(buttons, (n - 1) as nat);
        lemma_button_mask_small(buttons, (n - 1) as nat);
        assert(nn == i + 1);
        assert(rest < (1u32 << i) ==> rest < (1u32 << nn) && (rest | (1u32 << i)) < (1u32 << nn))
            by (bit_vector)
            requires
                i < 14,
                nn == i + 1,
        ;
    }
}

/// The wheel's buttons follow the phone's XInput buttons, vJoy button 1 to 14
/// in the order A, B, X, Y, LB, RB, Back, Start, L-stick, R-stick, D-Up,
/// D-Down, D-Left, D-Right: bit `k` of the report is set exactly when the
/// device has button `k + 1` and the phone holds that button's XInput bit;
/// bits the device has no button for stay clear.
pub proof fn lemma_wheel_buttons(w: Wheel, input: InputPacket, k: u32)
    requires
        k < 32,
    ensures
        bit_set(wheel_position(w, input).buttons as u32, k) == (
            k < 14 && (k as int) < (w.buttons as int) && input.buttons & seq![
                0x1000u16, 0x2000u16, 0x4000u16, 0x8000u16, 0x0100u16, 0x0200u16, 0x0020u16,
                0x0010u16, 0x0040u16, 0x0080u16, 0x0001u16, 0x0002u16, 0x0004u16, 0x0008u16,
            ][k as int] != 0),
{
    let n: nat = if w.buttons < BUTTON_COUNT { w.buttons as nat } else { BUTTON_COUNT as nat };
    let m = button_mask(input.buttons, n);
    lemma_button_mask_small(input.buttons, n);
    let nn = n as u32;
    assert((1u32 << nn) <= 16384) by (bit_vector)
        requires
            nn <= 14,
    ;
    assert(wheel_position(w, input).buttons == m as i32);
    assert((m as i32) as u32 == m) by (bit_vector)
        requires
            m < 16384,
    ;
    lemma_button_mask_bits(input.buttons, n, k);
    let table = seq![
        0x1000u16, 0x2000u16, 0x4000u16, 0x8000u16, 0x0100u16, 0x0200u16, 0x0020u16,
        0x0010u16, 0x0040u16, 0x0080u16, 0x0001u16, 0x0002u16, 0x0004u16, 0x0008u16,
    ];
    if k < 14 {
        assert(table[k as int] == button_bit(k as int));
    }
}

// ------------------------------------------------------------ the DLL

/// `s` without the backslashes it ends with.
pub open spec fn trim_backslashes_end(s: Seq<char>) -> Seq<char>
    decreases s.len(),
{
    if s.len() > 0 && s.last() == '\\' {
        trim_backslashes_end(s.drop_last())
    } else {
        s
    }
}

/// The DLL inside an install folder read from vJoy's uninstall entry.
pub open spec fn installed_dll_of(dir: Seq<char>) -> Seq<char> {
    trim_backslashes_end(dir) + "\\x64\\vJoyInterface.dll"@
}

/// The DLL under a Program Files folder.
pub open spec fn program_files_dll_of(dir: Seq<char>) -> Seq<char> {
    dir + "\\vJoy\\x64\\vJoyInterface.dll"@
}

/// Where to look for `vJoyInterface.dll`, best first: the bare name (the
/// loader's own search: PATH and our folder), then each install folder found
/// in the registry, then each Program Files folder.
pub open spec fn dll_candidates_of(installs: Seq<Seq<char>>, program_dirs: Seq<Seq<char>>) -> Seq<Seq<char>> {
    seq!["vJoyInterface.dll"@] + installs.map_values(|d: Seq<char>| installed_dll_of(d))
        + program_dirs.map_values(|d: Seq<char>| program_files_dll_of(d))
}

/// The DLL inside an install folder (see [installed_dll_of]).
pub fn installed_dll(dir: &str) -> (r: String)
    ensures
        r@ == installed_dll_of(dir@),
{
    let cs = chars_of(dir);
    let mut e = cs.len();
    assert(cs@.subrange(0, cs@.len() as int) =~= cs@);
    while e > 0 && cs[e - 1] == '\\'
        invariant
            e <= cs@.len(),
            cs@ == dir@,
            trim_backslashes_end(dir@) == trim_backslashes_end(cs@.subrange(0, e as int)),
        decreases e,
    {
        assert(cs@.subrange(0, e as int).drop_last() =~= cs@.subrange(0, e - 1 as int));
        e = e - 1;
    }
    assert(cs@.subrange(0, cs@.len() as int) =~= cs@);
    let mut out = dir.substring_char(0, e).to_owned();
    out.append("\\x64\\vJoyInterface.dll");
    proof {
        reveal_strlit("\\x64\\vJoyInterface.dll");
    }
    out
}

/// The DLL under a Program Files folder (see [program_files_dll_of]).
pub fn program_files_dll(dir: &str) -> (r: String)
    ensures
        r@ == program_files_dll_of(dir@),
{
    let mut out = dir.to_owned();
    out.append("\\vJoy\\x64\\vJoyInterface.dll");
    proof {
        reveal_strlit("\\vJoy\\x64\\vJoyInterface.dll");
    }
    out
}

/// Where to look for the DLL (see [dll_candidates_of]), given the install
/// folders found in the registry and the Program Files folders set.
pub fn dll_candidates(installs: &Vec<String>, program_dirs: &Vec<String>) -> (r: Vec<String>)
    ensures
        texts(r@) == dll_candidates_of(texts(installs@), texts(program_dirs@)),
{
    let mut out: Vec<String> = Vec::new();
    out.push("vJoyInterface.dll".to_owned());
    proof {
        reveal_strlit("vJoyInterface.dll");
    }
    let ghost base = texts(out@);
    let mut i: usize = 0;
    while i < installs.len()
        invariant
            i <= installs@.len(),
            base == seq!["vJoyInterface.dll"@],
            texts(out@) == base + texts(installs@).take(i as int).map_values(|d: Seq<char>| installed_dll_of(d)),
        decreases installs@.len() - i,
    {
        let p = installed_dll(installs[i].as_str());
        let ghost prev = texts(out@);
        out.push(p);
        proof {
            assert(texts(out@) =~= prev.push(p@));
            assert(texts(installs@).take(i + 1) =~= texts(installs@).take(i as int).push(installs@[i as int]@));
            assert(texts(installs@).take(i + 1).map_values(|d: Seq<char>| installed_dll_of(d)) =~= texts(installs@).take(i as int).map_values(|d: Seq<char>| installed_dll_of(d)).push(installed_dll_of(installs@[i as int]@)));
            assert(texts(out@) =~= base + texts(installs@).take(i + 1).map_values(|d: Seq<char>| installed_dll_of(d)));
        }
        i = i + 1;
    }
    assert(texts(installs@).take(installs@.len() as int) =~= texts(installs@));
    let ghost mid = texts(out@);
    let mut j: usize = 0;
    while j < program_dirs.len()
        invariant
            j <= program_dirs@.len(),
            texts(out@) == mid + texts(program_dirs@).take(j as int).map_values(|d: Seq<char>| program_files_dll_of(d)),
        decreases program_dirs@.len() - j,
    {
        let p = program_files_dll(program_dirs[j].as_str());
        let ghost prev = texts(out@);
        out.push(p);
        proof {
            assert(texts(out@) =~= prev.push(p@));
            assert(texts(program_dirs@).take(j + 1) =~= texts(program_dirs@).take(j as int).push(program_dirs@[j as int]@));
            assert(texts(program_dirs@).take(j + 1).map_values(|d: Seq<char>| program_files_dll_of(d)) =~= texts(program_dirs@).take(j as int).map_values(|d: Seq<char>| program_files_dll_of(d)).push(program_files_dll_of(program_dirs@[j as int]@)));
            assert(texts(out@) =~= mid + texts(program_dirs@).take(j + 1).map_values(|d: Seq<char>| program_files_dll_of(d)));
        }
        j = j + 1;
    }
    assert(texts(program_dirs@).take(program_dirs@.len() as int) =~= texts(program_dirs@));
    out
}

} // verus!
