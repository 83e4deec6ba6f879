//! The launcher's decisions: which device to offer first, whether the
//! telemetry copy for PicoPanel is on at startup, what the PicoPanel card
//! remembers, and the status lines it shows.

use vstd::prelude::*;
use crate::fmt::{decimal, push_decimal};
use crate::picopanel::DEFAULT_MIRROR;
use crate::prefs::Prefs;
use crate::server::DeviceMode;
use crate::text::{chars_of, trim, trim_bounds};

verus! {

/// The setting that remembers whether the copy is on.
pub open spec fn mirror_key() -> Seq<char> {
    "picopanel.mirror"@
}

/// The setting that remembers where the copy goes, as typed.
pub open spec fn addr_key() -> Seq<char> {
    "picopanel.addr"@
}

/// The setting that remembers where PicoPanel.exe is.
pub open spec fn exe_key() -> Seq<char> {
    "picopanel.exe"@
}

/// Wheel mode when vJoy is usable, else the Xbox pad, so a fresh install
/// still works on the first Launch.
pub fn initial_device(vjoy_ok: bool) -> (r: DeviceMode)
    ensures
        r == (if vjoy_ok { DeviceMode::Wheel } else { DeviceMode::Xbox360 }),
{
    if vjoy_ok {
        DeviceMode::Wheel
    } else {
        DeviceMode::Xbox360
    }
}

/// What the saved settings say about the telemetry copy at startup.
#[derive(Clone, Copy, PartialEq, Eq, Debug, Structural)]
pub enum MirrorStart {
    /// Saved on: send to the saved address (if it parses).
    Typed,
    /// Saved off: turn the copy off, whatever the environment said.
    Off,
    /// Never saved: keep what the environment said.
    Keep,
}

/// A saved "on" wins over the environment, and so does a saved "off".
pub open spec fn mirror_start_of(m: Map<Seq<char>, Seq<char>>) -> MirrorStart {
    if m.contains_key(mirror_key()) && m[mirror_key()] == "true"@ {
        MirrorStart::Typed
    } else if m.contains_key(mirror_key()) {
        MirrorStart::Off
    } else {
        MirrorStart::Keep
    }
}

/// The telemetry copy at startup (see [mirror_start_of]).
pub fn mirror_at_start(prefs: &Prefs) -> (r: MirrorStart)
    requires
        prefs.wf(),
    ensures
        r == mirror_start_of(prefs@),
{
    proof {
        reveal_strlit("picopanel.mirror");
    }
    if prefs.bool("picopanel.mirror", false) {
        MirrorStart::Typed
    } else if prefs.get("picopanel.mirror").is_some() {
        MirrorStart::Off
    } else {
        MirrorStart::Keep
    }
}

/// The address to show in the card: the saved one, else PicoPanel's own
/// default.
pub fn mirror_address(prefs: &Prefs) -> (r: String)
    requires
        prefs.wf(),
    ensures
        r@ == (if prefs@.contains_key(addr_key()) { prefs@[addr_key()] } else { "127.0.0.1:5051"@ }),
{
    proof {
        reveal_strlit("picopanel.addr");
        reveal_strlit("127.0.0.1:5051");
    }
    match prefs.get("picopanel.addr") {
        Some(v) => v.to_owned(),
        None => DEFAULT_MIRROR.to_owned(),
    }
}

/// `s` with its surrounding white space removed.
pub fn trimmed(s: &str) -> (r: String)
    ensures
        r@ == trim(s@),
{
    let cs = chars_of(s);
    let (lo, hi) = trim_bounds(&cs, 0, cs.len());
    assert(cs@.subrange(0, cs@.len() as int) =~= s@);
    s.substring_char(lo, hi).to_owned()
}

/// The settings after the card's choices are stored: the copy on or off, the
/// typed address trimmed, and where PicoPanel.exe is, when known.
pub open spec fn pico_recorded(
    m: Map<Seq<char>, Seq<char>>,
    on: bool,
    addr: Seq<char>,
    exe: Option<Seq<char>>,
) -> Map<Seq<char>, Seq<char>> {
    let m2 = m.insert(mirror_key(), if on { "true"@ } else { "false"@ }).insert(addr_key(), trim(addr));
    match exe {
        Some(e) => m2.insert(exe_key(), e),
        None => m2,
    }
}

/// Store the card's choices (see [pico_recorded]).
pub fn record_pico(prefs: &mut Prefs, on: bool, addr: &str, exe: Option<&str>)
    requires
        old(prefs).wf(),
    ensures
        final(prefs).wf(),
        final(prefs)@ == pico_recorded(
            old(prefs)@,
            on,
            addr@,
            match exe {
                Some(e) => Some(e@),
                None => None,
            },
        ),
{
    proof {
        reveal_strlit("picopanel.mirror");
        reveal_strlit("picopanel.addr");
        reveal_strlit("picopanel.exe");
    }
    prefs.set_bool("picopanel.mirror", on);
    let a = trimmed(addr);
    prefs.set("picopanel.addr", a.as_str());
    if let Some(e) = exe {
        prefs.set("picopanel.exe", e);
    }
}

/// The PicoPanel card's line about the port, for what its settings say.
pub open spec fn yield_label_of(y: Option<bool>) -> Seq<char> {
    match y {
        Some(true) => "Leaves port 4444 to us"@,
        Some(false) => "Still binding 4444 itself"@,
        None => "Never saved a setting yet"@,
    }
}

/// The PicoPanel card's line about the port (see [yield_label_of]).
pub fn yield_label(y: Option<bool>) -> (r: &'static str)
    ensures
        r@ == yield_label_of(y),
{
    match y {
        Some(true) => "Leaves port 4444 to us",
        Some(false) => "Still binding 4444 itself",
        None => "Never saved a setting yet",
    }
}

/// The copy counter line: how many packets went out, or why none yet.
pub open spec fn copy_note_of(sent: u64, running: bool) -> Seq<char> {
    if sent > 0 {
        decimal(sent as nat) + " packets copied"@
    } else if running {
        "waiting for telemetry from the game"@
    } else {
        "starts with the server"@
    }
}

/// The copy counter line (see [copy_note_of]).
pub fn copy_note(sent: u64, running: bool) -> (r: String)
    ensures
        r@ == copy_note_of(sent, running),
{
    proof {
        reveal_strlit(" packets copied");
        reveal_strlit("waiting for telemetry from the game");
        reveal_strlit("starts with the server");
    }
    if sent > 0 {
        let mut out = String::new();
        push_decimal(&mut out, sent);
        out.append(" packets copied");
        out
    } else if running {
        "waiting for telemetry from the game".to_owned()
    } else {
        "starts with the server".to_owned()
    }
}

// ------------------------------------------------------- start / stop button

/// Whether the server still shows as running after a status poll: a fatal
/// error (an error reported while the device is not up) flips it back to
/// stopped; nothing here starts it.
pub fn server_still_running(running: bool, has_error: bool, device_ok: bool) -> (r: bool)
    ensures
        r == (running && !(has_error && !device_ok)),
{
    running && !(has_error && !device_ok)
}

/// Whether head tracking still shows as running after a status poll: it flips
/// back to stopped when its thread has ended with an error; nothing here
/// starts it.
pub fn head_still_running(running: bool, thread_running: bool, has_error: bool) -> (r: bool)
    ensures
        r == (running && !(!thread_running && has_error)),
{
    running && !(!thread_running && has_error)
}

} // verus!
