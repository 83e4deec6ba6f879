//! The server's decisions: which game and virtual device, how phone input
//! becomes an Xbox 360 pad report, where the LAN beacon goes, and the bounded
//! log the launcher shows.

use vstd::prelude::*;
use std::collections::VecDeque;
use crate::protocol::InputPacket;

verus! {

/// Port the phone sends controller input to.
pub const INPUT_PORT: u16 = 5000;
/// Port BeamNG's OutGauge protocol targets.
pub const OUTGAUGE_PORT: u16 = 4444;
/// Port BeamNG's MotionSim/OutSim protocol targets.
pub const MOTIONSIM_PORT: u16 = 4445;
/// Port on the phone that listens for telemetry (and for our beacon).
pub const PHONE_TELEMETRY_PORT: u16 = 5001;
/// Most log lines kept for the launcher's log panel.
pub const LOG_CAPACITY: usize = 300;

/// The game we're feeding. The virtual controller works for every game; the
/// choice only decides where dashboard + force feedback telemetry is read
/// from.
#[derive(Clone, Copy, PartialEq, Eq, Debug, Structural)]
pub enum Game {
    BeamNg,
    /// ETS2 / ATS
    TruckSim,
    Wrc10,
}

pub open spec fn game_name(g: Game) -> Seq<char> {
    match g {
        Game::BeamNg => "BeamNG.drive"@,
        Game::TruckSim => "Euro / American Truck Sim"@,
        Game::Wrc10 => "WRC 10"@,
    }
}

pub open spec fn game_hint(g: Game) -> Seq<char> {
    match g {
        Game::BeamNg => "Options > Other > Protocols: enable OutGauge (127.0.0.1:4444) and \
                 MotionSim/OutSim (4445)."@,
        Game::TruckSim => "Drop the scs-sdk-plugin DLL into the game's bin\\win_x64\\plugins folder. \
                 (Dashboard telemetry coming soon; the wheel already works.)"@,
        Game::Wrc10 => "Dashboard telemetry coming soon; steering and pedals already work via the \
                 virtual controller."@,
    }
}

impl Game {
    /// Every game, in picker order.
    pub fn all() -> (r: [Game; 3])
        ensures
            r@ == seq![Game::BeamNg, Game::TruckSim, Game::Wrc10],
    {
        let r = [Game::BeamNg, Game::TruckSim, Game::Wrc10];
        assert(r@ =~= seq![Game::BeamNg, Game::TruckSim, Game::Wrc10]);
        r
    }

    pub fn name(self) -> (r: &'static str)
        ensures
            r@ == game_name(self),
    {
        match self {
            Game::BeamNg => "BeamNG.drive",
            Game::TruckSim => "Euro / American Truck Sim",
            Game::Wrc10 => "WRC 10",
        }
    }

    /// One-line setup hint shown under the picker.
    pub fn hint(self) -> (r: &'static str)
        ensures
            r@ == game_hint(self),
    {
        match self {
            Game::BeamNg => {
                "Options > Other > Protocols: enable OutGauge (127.0.0.1:4444) and \
                 MotionSim/OutSim (4445)."
            },
            Game::TruckSim => {
                "Drop the scs-sdk-plugin DLL into the game's bin\\win_x64\\plugins folder. \
                 (Dashboard telemetry coming soon; the wheel already works.)"
            },
            Game::Wrc10 => {
                "Dashboard telemetry coming soon; steering and pedals already work via the \
                 virtual controller."
            },
        }
    }
}

/// What the phone shows up as on the PC.
#[derive(Clone, Copy, PartialEq, Eq, Debug, Structural)]
pub enum DeviceMode {
    /// A vJoy DirectInput joystick: steering on its own 15-bit axis, a
    /// separate axis per pedal. Never collides with a real Xbox pad.
    Wheel,
    /// The classic virtual Xbox 360 pad through ViGEmBus, for games that only
    /// read XInput.
    Xbox360,
}

pub open spec fn device_name(d: DeviceMode) -> Seq<char> {
    match d {
        DeviceMode::Wheel => "Racing wheel (vJoy)"@,
        DeviceMode::Xbox360 => "Xbox 360 pad (ViGEmBus)"@,
    }
}

pub open spec fn device_dot(d: DeviceMode) -> Seq<char> {
    match d {
        DeviceMode::Wheel => "vJoy wheel"@,
        DeviceMode::Xbox360 => "ViGEmBus (virtual controller)"@,
    }
}

pub open spec fn device_hint(d: DeviceMode) -> Seq<char> {
    match d {
        DeviceMode::Wheel => "Own DirectInput device - bind it in-game as a wheel. Coexists with a real \
                 Xbox pad, so you never have to rebind. Needs the vJoy driver."@,
        DeviceMode::Xbox360 => "A second Xbox pad: works everywhere, but XInput games index pads by slot, \
                 so a real Xbox pad plugged in at the same time fights it. Needs ViGEmBus."@,
    }
}

impl DeviceMode {
    /// Every mode, in picker order.
    pub fn all() -> (r: [DeviceMode; 2])
        ensures
            r@ == seq![DeviceMode::Wheel, DeviceMode::Xbox360],
    {
        let r = [DeviceMode::Wheel, DeviceMode::Xbox360];
        assert(r@ =~= seq![DeviceMode::Wheel, DeviceMode::Xbox360]);
        r
    }

    pub fn name(self) -> (r: &'static str)
        ensures
            r@ == device_name(self),
    {
        match self {
            DeviceMode::Wheel => "Racing wheel (vJoy)",
            DeviceMode::Xbox360 => "Xbox 360 pad (ViGEmBus)",
        }
    }

    /// Label for the status dot.
    pub fn dot(self) -> (r: &'static str)
        ensures
            r@ == device_dot(self),
    {
        match self {
            DeviceMode::Wheel => "vJoy wheel",
            DeviceMode::Xbox360 => "ViGEmBus (virtual controller)",
        }
    }

    pub fn hint(self) -> (r: &'static str)
        ensures
            r@ == device_hint(self),
    {
        match self {
            DeviceMode::Wheel => {
                "Own DirectInput device - bind it in-game as a wheel. Coexists with a real \
                 Xbox pad, so you never have to rebind. Needs the vJoy driver."
            },
            DeviceMode::Xbox360 => {
                "A second Xbox pad: works everywhere, but XInput games index pads by slot, \
                 so a real Xbox pad plugged in at the same time fights it. Needs ViGEmBus."
            },
        }
    }
}

// ------------------------------------------------------------ Xbox report

/// An Xbox 360 pad report, field for field (`XINPUT_GAMEPAD`).
#[derive(Clone, Copy, PartialEq, Eq, Debug, Structural)]
pub struct PadReport {
    pub buttons: u16,
    pub left_trigger: u8,
    pub right_trigger: u8,
    pub thumb_lx: i16,
    pub thumb_ly: i16,
    pub thumb_rx: i16,
    pub thumb_ry: i16,
}

/// The pad report for one input packet: the phone's button mask as is,
/// steering on the left stick X, throttle and brake on the triggers, the
/// clutch scaled `0..=255` onto the right stick Y, and the free stick on the
/// two thumbstick axes nothing else uses (left Y, right X).
pub open spec fn pad_report_of(input: InputPacket) -> PadReport {
    PadReport {
        buttons: input.buttons,
        thumb_lx: input.steer,
        thumb_ly: input.joy_y,
        thumb_rx: input.joy_x,
        thumb_ry: (input.clutch * 32767 / 255) as i16,
        left_trigger: input.brake,
        right_trigger: input.throttle,
    }
}

/// The pad report for one input packet (see [pad_report_of]).
pub fn to_gamepad(input: &InputPacket) -> (r: PadReport)
    ensures
        r == pad_report_of(*input),
{
    let clutch_axis = (input.clutch as i32 * 32767 / 255) as i16;
    PadReport {
        buttons: input.buttons,
        thumb_lx: input.steer,
        thumb_ly: input.joy_y,
        thumb_rx: input.joy_x,
        thumb_ry: clutch_axis,
        left_trigger: input.brake,
        right_trigger: input.throttle,
    }
}

/// The report with everything released and centred.
pub fn idle_gamepad() -> (r: PadReport)
    ensures
        r == (PadReport {
            buttons: 0,
            left_trigger: 0,
            right_trigger: 0,
            thumb_lx: 0,
            thumb_ly: 0,
            thumb_rx: 0,
            thumb_ry: 0,
        }),
{
    PadReport { buttons: 0, left_trigger: 0, right_trigger: 0, thumb_lx: 0, thumb_ly: 0, thumb_rx: 0, thumb_ry: 0 }
}

// ------------------------------------------------------------------ beacon

/// Where the beacon goes: the limited broadcast, plus the directed broadcast
/// of our LAN when we know our address (the subnet is assumed to be a /24),
/// all on the phone's telemetry port.
pub open spec fn beacon_targets_of(local: Option<[u8; 4]>) -> Seq<([u8; 4], u16)> {
    match local {
        Some(ip) => seq![([255u8, 255u8, 255u8, 255u8], PHONE_TELEMETRY_PORT), ([ip[0], ip[1], ip[2], 255u8], PHONE_TELEMETRY_PORT)],
        None => seq![([255u8, 255u8, 255u8, 255u8], PHONE_TELEMETRY_PORT)],
    }
}

/// Where the beacon goes (see [beacon_targets_of]).
pub fn beacon_targets(local: Option<[u8; 4]>) -> (r: Vec<([u8; 4], u16)>)
    ensures
        r@ == beacon_targets_of(local),
{
    let mut v: Vec<([u8; 4], u16)> = Vec::new();
    v.push(([255u8, 255u8, 255u8, 255u8], PHONE_TELEMETRY_PORT));
    if let Some(ip) = local {
        v.push(([ip[0], ip[1], ip[2], 255u8], PHONE_TELEMETRY_PORT));
    }
    assert(v@ =~= beacon_targets_of(local));
    v
}

// ------------------------------------------------------------ phone link

/// How often (in beacons) the beacon targets are worked out again, since the
/// LAN address can change under us.
pub const BEACON_REFRESH: u32 = 10;

/// Count one beacon; says whether the targets are due for a refresh.
pub fn beacon_tick(ticks: u32) -> (r: (u32, bool))
    requires
        ticks < u32::MAX,
    ensures
        r.0 == ticks + 1,
        r.1 == (r.0 % BEACON_REFRESH == 0),
{
    let t = ticks + 1;
    (t, t % BEACON_REFRESH == 0)
}

/// A peer's IP address.
#[derive(Clone, Copy, PartialEq, Eq, Debug, Structural)]
pub enum PeerIp {
    V4(u32),
    V6(u128),
}

/// Where telemetry goes after an input packet from `src`, given the phone's
/// address so far: nowhere new while the packet comes from the same IP;
/// otherwise the phone's telemetry port (not the packet's source port: older
/// apps send from a random port but listen on 5001) on the new IP.
pub open spec fn phone_after(current: Option<PeerIp>, src: PeerIp) -> Option<(PeerIp, u16)> {
    if current == Some(src) {
        None
    } else {
        Some((src, PHONE_TELEMETRY_PORT))
    }
}

/// The phone's new address after an input packet from `src`, if it changed
/// (see [phone_after]).
pub fn phone_address(current: Option<PeerIp>, src: PeerIp) -> (r: Option<(PeerIp, u16)>)
    ensures
        r == phone_after(current, src),
{
    let same = match (current, src) {
        (Some(PeerIp::V4(a)), PeerIp::V4(b)) => a == b,
        (Some(PeerIp::V6(a)), PeerIp::V6(b)) => a == b,
        _ => false,
    };
    if same {
        None
    } else {
        Some((src, PHONE_TELEMETRY_PORT))
    }
}

// --------------------------------------------------------------------- log

/// The last [LOG_CAPACITY] entries of `lines`.
pub open spec fn keep_last(lines: Seq<Seq<char>>) -> Seq<Seq<char>> {
    if lines.len() > LOG_CAPACITY {
        lines.subrange(lines.len() - LOG_CAPACITY, lines.len() as int)
    } else {
        lines
    }
}

/// The launcher's log: the most recent [LOG_CAPACITY] lines, oldest first.
pub struct LogRing {
    lines: VecDeque<String>,
}

impl LogRing {
    pub closed spec fn lines(&self) -> Seq<Seq<char>> {
        self.lines@.map_values(|s: String| s@)
    }

    pub closed spec fn wf(&self) -> bool {
        self.lines@.len() <= LOG_CAPACITY
    }

    pub fn new() -> (r: LogRing)
        ensures
            r.wf(),
            r.lines() == Seq::<Seq<char>>::empty(),
    {
        let r = LogRing { lines: VecDeque::new() };
        assert(r.lines() =~= Seq::<Seq<char>>::empty());
        r
    }

    /// Add one line, dropping the oldest beyond [LOG_CAPACITY].
    pub fn log(&mut self, msg: String)
        requires
            old(self).wf(),
        ensures
            final(self).wf(),
            final(self).lines() == keep_last(old(self).lines().push(msg@)),
    {
        let ghost before = self.lines();
        self.lines.push_back(msg);
        assert(self.lines() =~= before.push(msg@));
        if self.lines.len() > LOG_CAPACITY {
            let ghost full = self.lines();
            let _ = self.lines.pop_front();
            assert(self.lines() =~= full.subrange(1, full.len() as int));
        }
    }

    /// Snapshot of the log lines for display, oldest first.
    pub fn log_lines(&self) -> (r: Vec<String>)
        ensures
            r@.map_values(|s: String| s@) == self.lines(),
    {
        let mut out: Vec<String> = Vec::new();
        let mut i: usize = 0;
        while i < self.lines.len()
            invariant
                i <= self.lines@.len(),
                out@.len() == i,
                forall|k: int| 0 <= k < i ==> #[trigger] out@[k]@ == self.lines@[k]@,
            decreases self.lines@.len() - i,
        {
            let line = self.lines[i].clone();
            out.push(line);
            i = i + 1;
        }
        assert(out@.map_values(|s: String| s@) =~= self.lines());
        out
    }
}

/// The clutch lands on the right stick's Y axis within `0..=32767`, never
/// decreasing as the pedal goes down: released is 0, fully down is 32767.
pub proof fn lemma_clutch_axis(a: InputPacket, b: InputPacket)
    ensures
        0 <= pad_report_of(a).thumb_ry <= 32767,
        a.clutch <= b.clutch ==> pad_report_of(a).thumb_ry <= pad_report_of(b).thumb_ry,
        a.clutch == 0 ==> pad_report_of(a).thumb_ry == 0,
        a.clutch == 255 ==> pad_report_of(a).thumb_ry == 32767,
{
    let ca = a.clutch as int;
    let cb = b.clutch as int;
    assert(0 <= ca * 32767 / 255 <= 32767) by (nonlinear_arith)
        requires
            0 <= ca <= 255,
    ;
    assert(0 <= cb * 32767 / 255 <= 32767) by (nonlinear_arith)
        requires
            0 <= cb <= 255,
    ;
    if ca <= cb {
        assert(ca * 32767 / 255 <= cb * 32767 / 255) by (nonlinear_arith)
            requires
                0 <= ca <= cb,
        ;
    }
}

} // verus!
