//! The head tracker's decisions that don't depend on the image itself: when
//! to look for a face again, how the camera exposure backs off in a dark
//! room, which capture device and video mode to use, and the DirectShow
//! identifiers the exposure control talks to.

use vstd::prelude::*;
use vstd::arithmetic::power2::{pow2, lemma2_to64};
use crate::fmt::{decimal, push_decimal};

verus! {

// ------------------------------------------------------------- exposure

/// The shortest shutter tried first (log2 seconds: 1/32 s, ~30 fps).
pub const EXPOSURE_FAST: i32 = -5;
/// The longest shutter fallen back to when it's too dark to see a face
/// (1/8 s, ~8 fps, no worse than auto exposure).
pub const EXPOSURE_SLOW: i32 = -3;
/// Frames without a face (~1.5 s) before the shutter is lengthened a stop.
pub const NO_FACE_STEP: u32 = 45;

/// What the tracker asks of the camera controls.
#[derive(Clone, Copy, PartialEq, Eq, Debug, Structural)]
pub enum ExposureAction {
    /// Force manual exposure at this value, with hardware gain maxed.
    Force { ev: i32 },
    /// No face at this shutter: say so, then force this longer exposure.
    LetMoreLight { ev: i32 },
    /// Put exposure and gain back on automatic.
    Restore,
}

/// The low-light exposure state: whether the boost is on, the current
/// exposure, and how many frames in a row had no face.
pub struct ExposureControl {
    pub low_light_on: bool,
    pub exposure_ev: i32,
    pub no_face_frames: u32,
}

impl ExposureControl {
    pub open spec fn wf(&self) -> bool {
        EXPOSURE_FAST <= self.exposure_ev <= EXPOSURE_SLOW
    }

    /// Start with the setting as configured: at the fast shutter, forced
    /// right away when the boost is on.
    pub fn start(low_light: bool) -> (r: (ExposureControl, Option<ExposureAction>))
        ensures
            r.0.wf(),
            r.0.low_light_on == low_light,
            r.0.exposure_ev == EXPOSURE_FAST,
            r.0.no_face_frames == 0,
            r.1 == (if low_light { Some(ExposureAction::Force { ev: EXPOSURE_FAST }) } else { None }),
    {
        let c = ExposureControl { low_light_on: low_light, exposure_ev: EXPOSURE_FAST, no_face_frames: 0 };
        if low_light {
            (c, Some(ExposureAction::Force { ev: EXPOSURE_FAST }))
        } else {
            (c, None)
        }
    }

    /// The user flipped the setting: start over at the fast shutter, and force
    /// it or restore automatic exposure. No change, no action.
    pub fn settings(&mut self, low_light: bool) -> (r: Option<ExposureAction>)
        requires
            old(self).wf(),
        ensures
            final(self).wf(),
            low_light == old(self).low_light_on ==> *final(self) == *old(self) && r.is_none(),
            low_light != old(self).low_light_on ==> {
                &&& final(self).low_light_on == low_light
                &&& final(self).exposure_ev == EXPOSURE_FAST
                &&& final(self).no_face_frames == 0
                &&& r == Some(
                    if low_light {
                        ExposureAction::Force { ev: EXPOSURE_FAST }
                    } else {
                        ExposureAction::Restore
                    },
                )
            },
    {
        if low_light == self.low_light_on {
            return None;
        }
        self.low_light_on = low_light;
        self.exposure_ev = EXPOSURE_FAST;
        self.no_face_frames = 0;
        if low_light {
            Some(ExposureAction::Force { ev: EXPOSURE_FAST })
        } else {
            Some(ExposureAction::Restore)
        }
    }

    /// One processed frame. With the boost on and no face, count it; past
    /// [NO_FACE_STEP] such frames, lengthen the exposure one stop (up to
    /// [EXPOSURE_SLOW]) and start counting again. Any other frame resets the
    /// count.
    pub fn frame(&mut self, have_pose: bool) -> (r: Option<ExposureAction>)
        requires
            old(self).wf(),
            old(self).no_face_frames < u32::MAX,
        ensures
            final(self).wf(),
            final(self).low_light_on == old(self).low_light_on,
            ({
                let counted = old(self).no_face_frames + 1;
                if old(self).low_light_on && !have_pose {
                    if counted > NO_FACE_STEP && old(self).exposure_ev < EXPOSURE_SLOW {
                        &&& final(self).exposure_ev == old(self).exposure_ev + 1
                        &&& final(self).no_face_frames == 0
                        &&& r == Some(ExposureAction::LetMoreLight { ev: final(self).exposure_ev })
                    } else {
                        &&& final(self).exposure_ev == old(self).exposure_ev
                        &&& final(self).no_face_frames == counted
                        &&& r.is_none()
                    }
                } else {
                    &&& final(self).exposure_ev == old(self).exposure_ev
                    &&& final(self).no_face_frames == 0
                    &&& r.is_none()
                }
            }),
    {
        if self.low_light_on && !have_pose {
            self.no_face_frames = self.no_face_frames + 1;
            if self.no_face_frames > NO_FACE_STEP && self.exposure_ev < EXPOSURE_SLOW {
                self.exposure_ev = self.exposure_ev + 1;
                self.no_face_frames = 0;
                return Some(ExposureAction::LetMoreLight { ev: self.exposure_ev });
            }
            None
        } else {
            self.no_face_frames = 0;
            None
        }
    }

    /// Tracking ends: give the camera its automatic exposure back if we took
    /// it.
    pub fn stop(&self) -> (r: Option<ExposureAction>)
        ensures
            r == (if self.low_light_on { Some(ExposureAction::Restore) } else { None }),
    {
        if self.low_light_on {
            Some(ExposureAction::Restore)
        } else {
            None
        }
    }
}

/// The log line for a forced exposure of `ev` (log2 seconds):
/// the shutter as `1/2^-ev` seconds.
pub open spec fn low_light_message_of(ev: i32) -> Seq<char> {
    let k: nat = if ev < 0 { (-ev) as nat } else { 0 };
    "Low light boost: manual exposure 1/"@ + decimal(pow2(k)) + " s (keeps the fps up in the dark)."@
}

/// The log line for a forced exposure (see [low_light_message_of]).
pub fn low_light_message(ev: i32) -> (r: String)
    requires
        -32 < ev,
    ensures
        r@ == low_light_message_of(ev),
{
    let k: u32 = if ev < 0 { (-ev) as u32 } else { 0 };
    proof {
        lemma2_to64();
    }
    let mut p: u64 = 1;
    let mut j: u32 = 0;
    while j < k
        invariant
            j <= k <= 31,
            p == pow2(j as nat),
        decreases k - j,
    {
        proof {
            vstd::arithmetic::power2::lemma_pow2_unfold((j + 1) as nat);
            vstd::arithmetic::power2::lemma_pow2_strictly_increases(j as nat, 31);
            lemma2_to64();
        }
        p = p * 2;
        j = j + 1;
    }
    let mut out = String::new();
    out.append("Low light boost: manual exposure 1/");
    push_decimal(&mut out, p);
    out.append(" s (keeps the fps up in the dark).");
    proof {
        reveal_strlit("Low light boost: manual exposure 1/");
        reveal_strlit(" s (keeps the fps up in the dark).");
    }
    out
}

// ---------------------------------------------------------------- face

/// Landmark frames below confidence, beyond which the face counts as lost.
pub const LOST_AFTER: u32 = 10;

/// Tracks how long the landmarks have been unconvincing.
pub struct FaceWatch {
    pub low_conf_frames: u32,
}

impl FaceWatch {
    pub fn new() -> (r: FaceWatch)
        ensures
            r.low_conf_frames == 0,
    {
        FaceWatch { low_conf_frames: 0 }
    }

    /// Whether to run the face detector this frame: no face yet, or the
    /// landmarks have been bad for more than [LOST_AFTER] frames.
    pub fn needs_detect(&self, has_face: bool) -> (r: bool)
        ensures
            r == (!has_face || self.low_conf_frames > LOST_AFTER),
    {
        !has_face || self.low_conf_frames > LOST_AFTER
    }

    /// The detector ran: start counting afresh.
    pub fn detected(&mut self)
        ensures
            final(self).low_conf_frames == 0,
    {
        self.low_conf_frames = 0;
    }

    /// One landmark result. A confident one resets the count; an
    /// unconfident one counts, and returns `true` once the count passes
    /// [LOST_AFTER]: the face is lost and the tracker state should be reset.
    pub fn landmarks(&mut self, confident: bool) -> (lost: bool)
        requires
            old(self).low_conf_frames < u32::MAX,
        ensures
            confident ==> final(self).low_conf_frames == 0 && !lost,
            !confident ==> final(self).low_conf_frames == old(self).low_conf_frames + 1 && lost == (
            final(self).low_conf_frames > LOST_AFTER),
    {
        if confident {
            self.low_conf_frames = 0;
            false
        } else {
            self.low_conf_frames = self.low_conf_frames + 1;
            self.low_conf_frames > LOST_AFTER
        }
    }
}

// --------------------------------------------------------- camera device

/// The text of each string.
pub open spec fn texts(v: Seq<String>) -> Seq<Seq<char>> {
    v.map_values(|s: String| s@)
}

/// Whether `i` is the first non-empty name equal to `wanted`.
pub open spec fn first_match(names: Seq<Seq<char>>, wanted: Seq<char>, i: int) -> bool {
    &&& 0 <= i < names.len()
    &&& names[i].len() > 0
    &&& names[i] == wanted
    &&& forall|j: int| 0 <= j < i ==> !(names[j].len() > 0 && names[j] == wanted)
}

/// Pick the capture device among the enumerated friendly names (an unknown
/// name is empty): the first matching `wanted`, falling back to the first
/// device.
pub fn choose_device(names: &Vec<String>, wanted: &String) -> (r: Option<usize>)
    ensures
        match r {
            Some(i) => if exists|m: int| #[trigger] first_match(texts(names@), wanted@, m) {
                first_match(texts(names@), wanted@, i as int)
            } else {
                i == 0 && names@.len() > 0
            },
            None => names@.len() == 0,
        },
{
    let ghost ns = texts(names@);
    let mut i: usize = 0;
    while i < names.len()
        invariant
            ns == texts(names@),
            i <= names@.len(),
            forall|j: int| 0 <= j < i ==> !(ns[j].len() > 0 && ns[j] == wanted@),
        decreases names@.len() - i,
    {
        if !names[i].as_str().is_empty() && names[i] == *wanted {
            return Some(i);
        }
        i = i + 1;
    }
    if names.len() > 0 {
        Some(0)
    } else {
        None
    }
}

// ---------------------------------------------------------- video mode

/// The pixel formats a camera can stream.
#[derive(Clone, Copy, PartialEq, Eq, Debug, Structural)]
pub enum FrameKind {
    Mjpeg,
    Yuyv,
    Nv12,
    Gray,
    RawRgb,
    RawBgr,
}

/// A video mode a camera offers.
#[derive(Clone, Copy, PartialEq, Eq, Debug, Structural)]
pub struct CameraMode {
    pub width: u32,
    pub height: u32,
    pub fps: u32,
    pub format: FrameKind,
}

/// Modes slower than this (still-photo modes) are never used.
pub const MIN_FPS: u32 = 10;
/// How many modes are tried, best first.
pub const MODES_TRIED: usize = 4;

/// How far a mode is from the ideal: 640x480 at 30 fps or more, MJPEG. Each
/// pixel off in either dimension costs 1, each frame per second short of 30
/// costs 20, another pixel format costs 8.
pub open spec fn mode_penalty(m: CameraMode) -> int {
    let dw: int = if m.width >= 640 { m.width - 640 } else { 640 - m.width };
    let dh: int = if m.height >= 480 { m.height - 480 } else { 480 - m.height };
    let short: int = if m.fps < 30 { 30 - m.fps } else { 0 };
    dw + dh + short * 20 + (if m.format == FrameKind::Mjpeg { 0int } else { 8int })
}

/// `m` placed into `sorted` after every mode that is no worse than it.
pub open spec fn insert_by_penalty(sorted: Seq<CameraMode>, m: CameraMode) -> Seq<CameraMode>
    decreases sorted.len(),
{
    if sorted.len() == 0 || mode_penalty(sorted.last()) <= mode_penalty(m) {
        sorted.push(m)
    } else {
        insert_by_penalty(sorted.drop_last(), m).push(sorted.last())
    }
}

/// The modes ordered by penalty, equal penalties keeping their order.
pub open spec fn sort_by_penalty(s: Seq<CameraMode>) -> Seq<CameraMode>
    decreases s.len(),
{
    if s.len() == 0 {
        s
    } else {
        insert_by_penalty(sort_by_penalty(s.drop_last()), s.last())
    }
}

/// `s` with each run of equal neighbours reduced to one.
pub open spec fn dedup_modes(s: Seq<CameraMode>) -> Seq<CameraMode>
    decreases s.len(),
{
    if s.len() <= 1 {
        s
    } else if s.last() == s[s.len() - 2] {
        dedup_modes(s.drop_last())
    } else {
        dedup_modes(s.drop_last()).push(s.last())
    }
}

/// The modes fast enough to use.
pub open spec fn usable_modes(s: Seq<CameraMode>) -> Seq<CameraMode> {
    s.filter(|m: CameraMode| m.fps >= MIN_FPS)
}

/// The modes to try, best first: the usable ones by penalty, duplicates
/// dropped, at most [MODES_TRIED].
pub open spec fn preferred_modes_of(s: Seq<CameraMode>) -> Seq<CameraMode> {
    let d = dedup_modes(sort_by_penalty(usable_modes(s)));
    if d.len() > MODES_TRIED { d.take(MODES_TRIED as int) } else { d }
}

/// The penalty of a mode (see [mode_penalty]).
pub fn penalty(m: &CameraMode) -> (r: i64)
    ensures
        r == mode_penalty(*m),
{
    let dw: i64 = if m.width >= 640 { (m.width - 640) as i64 } else { (640 - m.width) as i64 };
    let dh: i64 = if m.height >= 480 { (m.height - 480) as i64 } else { (480 - m.height) as i64 };
    let short: i64 = if m.fps < 30 { (30 - m.fps) as i64 } else { 0 };
    let fmt: i64 = match m.format {
        FrameKind::Mjpeg => 0,
        _ => 8,
    };
    dw + dh + short * 20 + fmt
}

/// Put `m` into an ordered list (see [insert_by_penalty]).
fn insert_mode(sorted: &mut Vec<CameraMode>, m: CameraMode)
    ensures
        final(sorted)@ == insert_by_penalty(old(sorted)@, m),
{
    let ghost orig = sorted@;
    let key = penalty(&m);
    let mut i: usize = sorted.len();
    assert(orig.take(orig.len() as int) =~= orig);
    assert(orig.skip(orig.len() as int) =~= Seq::<CameraMode>::empty());
    while i > 0 && penalty(&sorted[i - 1]) > key
        invariant
            sorted@ == orig,
            key == mode_penalty(m),
            i <= orig.len(),
            insert_by_penalty(orig, m) == insert_by_penalty(orig.take(i as int), m) + orig.skip(
                i as int,
            ),
        decreases i,
    {
        proof {
            let t = orig.take(i as int);
            assert(t.drop_last() =~= orig.take(i - 1));
            assert(t.last() == orig[i - 1]);
            assert(orig.skip(i - 1) =~= seq![orig[i - 1]] + orig.skip(i as int));
            assert(insert_by_penalty(t, m) == insert_by_penalty(orig.take(i - 1), m).push(orig[i - 1]));
            assert(insert_by_penalty(orig.take(i - 1), m).push(orig[i - 1]) + orig.skip(i as int)
                =~= insert_by_penalty(orig.take(i - 1), m) + orig.skip(i - 1));
        }
        i = i - 1;
    }
    proof {
        let t = orig.take(i as int);
        if i > 0 {
            assert(t.last() == orig[i - 1]);
        }
        assert(insert_by_penalty(t, m) == t.push(m));
        assert(orig.insert(i as int, m) =~= t.push(m) + orig.skip(i as int));
    }
    sorted.insert(i, m);
    proof {
        if orig.len() == 0 {
            assert(orig.take(0) =~= orig);
        }
        assert(orig.take(orig.len() as int) =~= orig);
    }
}

/// A non-empty list keeps its last element through [dedup_modes].
proof fn lemma_dedup_last(s: Seq<CameraMode>)
    requires
        s.len() > 0,
    ensures
        dedup_modes(s).len() > 0,
        dedup_modes(s).last() == s.last(),
    decreases s.len(),
{
    if s.len() > 1 {
        lemma_dedup_last(s.drop_last());
    }
}

/// Choose the video modes to try, best first (see [preferred_modes_of]).
pub fn preferred_modes(modes: &Vec<CameraMode>) -> (r: Vec<CameraMode>)
    ensures
        r@ == preferred_modes_of(modes@),
{
    let ghost keep = |m: CameraMode| m.fps >= MIN_FPS;
    let mut usable: Vec<CameraMode> = Vec::new();
    let mut i: usize = 0;
    while i < modes.len()
        invariant
            i <= modes@.len(),
            usable@ == modes@.take(i as int).filter(keep),
            keep == (|m: CameraMode| m.fps >= MIN_FPS),
        decreases modes@.len() - i,
    {
        let ghost t = modes@.take(i + 1);
        assert(t.drop_last() =~= modes@.take(i as int));
        assert(t.last() == modes@[i as int]);
        proof {
            reveal(Seq::filter);
        }
        if modes[i].fps >= MIN_FPS {
            usable.push(modes[i]);
        }
        assert(usable@ == t.filter(keep));
        i = i + 1;
    }
    assert(modes@.take(modes@.len() as int) =~= modes@);
    let mut sorted: Vec<CameraMode> = Vec::new();
    let mut j: usize = 0;
    while j < usable.len()
        invariant
            j <= usable@.len(),
            sorted@ == sort_by_penalty(usable@.take(j as int)),
        decreases usable@.len() - j,
    {
        assert(usable@.take(j + 1).drop_last() =~= usable@.take(j as int));
        insert_mode(&mut sorted, usable[j]);
        j = j + 1;
    }
    assert(usable@.take(usable@.len() as int) =~= usable@);
    let mut out: Vec<CameraMode> = Vec::new();
    let mut k: usize = 0;
    while k < sorted.len()
        invariant
            k <= sorted@.len(),
            out@ == dedup_modes(sorted@.take(k as int)),
        decreases sorted@.len() - k,
    {
        let ghost t = sorted@.take(k + 1);
        assert(t.drop_last() =~= sorted@.take(k as int));
        let m = sorted[k];
        if k > 0 {
            proof {
                lemma_dedup_last(sorted@.take(k as int));
            }
        }
        if out.len() == 0 || out[out.len() - 1] != m {
            out.push(m);
        }
        k = k + 1;
    }
    assert(sorted@.take(sorted@.len() as int) =~= sorted@);
    if out.len() > MODES_TRIED {
        out.truncate(MODES_TRIED);
    }
    out
}

/// Whether the modes are in order of penalty.
pub open spec fn by_penalty(s: Seq<CameraMode>) -> bool {
    forall|i: int, j: int| 0 <= i < j < s.len() ==> mode_penalty(s[i]) <= mode_penalty(s[j])
}

/// Whether no two neighbours are the same mode.
pub open spec fn no_repeats(s: Seq<CameraMode>) -> bool {
    forall|i: int, j: int| 0 <= i && j == i + 1 && j < s.len() ==> #[trigger] s[i] != #[trigger] s[j]
}

proof fn lemma_insert_by_penalty(s: Seq<CameraMode>, m: CameraMode)
    requires
        by_penalty(s),
    ensures
        by_penalty(insert_by_penalty(s, m)),
        insert_by_penalty(s, m).len() == s.len() + 1,
        forall|x: CameraMode|
            #[trigger] insert_by_penalty(s, m).contains(x) <==> (s.contains(x) || x == m),
        s.len() > 0 ==> insert_by_penalty(s, m)[0] == (if mode_penalty(m) < mode_penalty(s[0]) {
            m
        } else {
            s[0]
        }),
        s.len() == 0 ==> insert_by_penalty(s, m)[0] == m,
    decreases s.len(),
{
    let r = insert_by_penalty(s, m);
    if s.len() == 0 || mode_penalty(s.last()) <= mode_penalty(m) {
        assert forall|x: CameraMode| #[trigger] r.contains(x) <==> (s.contains(x) || x == m) by {
            if r.contains(x) {
                let k = choose|k: int| 0 <= k < r.len() && r[k] == x;
                if k < s.len() {
                    assert(s[k] == x);
                }
            }
            if s.contains(x) {
                let k = choose|k: int| 0 <= k < s.len() && s[k] == x;
                assert(r[k] == x);
            }
            if x == m {
                assert(r[s.len() as int] == x);
            }
        }
        if s.len() > 0 {
            assert(mode_penalty(s[0]) <= mode_penalty(s.last()));
        }
    } else {
        let t = s.drop_last();
        let last = s.last();
        assert(by_penalty(t));
        lemma_insert_by_penalty(t, m);
        let u = insert_by_penalty(t, m);
        assert(r == u.push(last));
        assert forall|i: int| 0 <= i < u.len() implies mode_penalty(#[trigger] u[i]) <= mode_penalty(last) by {
            assert(u.contains(u[i]));
            if u[i] != m {
                assert(t.contains(u[i]));
                let k = choose|k: int| 0 <= k < t.len() && t[k] == u[i];
                assert(s[k] == t[k]);
            }
        }
        assert(by_penalty(r)) by {
            assert forall|i: int, j: int| 0 <= i < j < r.len() implies mode_penalty(r[i]) <= mode_penalty(r[j]) by {
                if j == r.len() - 1 {
                    assert(r[i] == u[i]);
                } else {
                    assert(r[i] == u[i] && r[j] == u[j]);
                }
            }
        }
        assert forall|x: CameraMode| #[trigger] r.contains(x) <==> (s.contains(x) || x == m) by {
            if r.contains(x) {
                let k = choose|k: int| 0 <= k < r.len() && r[k] == x;
                if k < u.len() {
                    assert(u[k] == x);
                    assert(u.contains(x));
                    if x != m {
                        let q = choose|q: int| 0 <= q < t.len() && t[q] == x;
                        assert(s[q] == x);
                    }
                } else {
                    assert(s[s.len() - 1] == x);
                }
            }
            if s.contains(x) {
                let k = choose|k: int| 0 <= k < s.len() && s[k] == x;
                if k < t.len() {
                    assert(t[k] == x);
                    assert(t.contains(x));
                    assert(u.contains(x));
                    let q = choose|q: int| 0 <= q < u.len() && u[q] == x;
                    assert(r[q] == x);
                } else {
                    assert(r[r.len() - 1] == x);
                }
            }
            if x == m {
                assert(u.contains(m));
                let q = choose|q: int| 0 <= q < u.len() && u[q] == m;
                assert(r[q] == x);
            }
        }
        if t.len() > 0 {
            assert(t[0] == s[0]);
            assert(r[0] == u[0]);
        } else {
            assert(r[0] == u[0]);
            assert(mode_penalty(m) < mode_penalty(s[0]));
        }
    }
}

proof fn lemma_sort_by_penalty(s: Seq<CameraMode>)
    ensures
        by_penalty(sort_by_penalty(s)),
        sort_by_penalty(s).len() == s.len(),
        forall|x: CameraMode| #[trigger] sort_by_penalty(s).contains(x) <==> s.contains(x),
    decreases s.len(),
{
    if s.len() > 0 {
        let t = s.drop_last();
        lemma_sort_by_penalty(t);
        lemma_insert_by_penalty(sort_by_penalty(t), s.last());
        assert forall|x: CameraMode| #[trigger] sort_by_penalty(s).contains(x) <==> s.contains(x) by {
            if s.contains(x) {
                let k = choose|k: int| 0 <= k < s.len() && s[k] == x;
                if k < t.len() {
                    assert(t[k] == x);
                    assert(t.contains(x));
                }
            }
            if t.contains(x) {
                let k = choose|k: int| 0 <= k < t.len() && t[k] == x;
                assert(s[k] == x);
            }
        }
    }
}

proof fn lemma_dedup_modes(s: Seq<CameraMode>)
    requires
        by_penalty(s),
    ensures
        by_penalty(dedup_modes(s)),
        forall|x: CameraMode| #[trigger] dedup_modes(s).contains(x) <==> s.contains(x),
        no_repeats(dedup_modes(s)),
        s.len() > 0 ==> dedup_modes(s).len() > 0 && dedup_modes(s)[0] == s[0],
    decreases s.len(),
{
    if s.len() > 1 {
        let t = s.drop_last();
        let d = dedup_modes(t);
        assert(by_penalty(t));
        lemma_dedup_modes(t);
        lemma_dedup_last(t);
        assert forall|x: CameraMode| #[trigger] t.contains(x) implies s.contains(x) by {
            if t.contains(x) {
                let k = choose|k: int| 0 <= k < t.len() && t[k] == x;
                assert(s[k] == x);
            }
        }
        if s.last() == s[s.len() - 2] {
            assert forall|x: CameraMode| #[trigger] s.contains(x) implies t.contains(x) by {
                if s.contains(x) {
                    let k = choose|k: int| 0 <= k < s.len() && s[k] == x;
                    if k < t.len() {
                        assert(t[k] == x);
                    } else {
                        assert(t[t.len() - 1] == x);
                    }
                }
            }
            assert(dedup_modes(s) == d);
        } else {
            let r = d.push(s.last());
            assert(dedup_modes(s) == r);
            assert forall|i: int| 0 <= i < d.len() implies mode_penalty(#[trigger] d[i]) <= mode_penalty(s.last()) by {
                assert(d.contains(d[i]));
                let k = choose|k: int| 0 <= k < t.len() && t[k] == d[i];
                assert(s[k] == t[k]);
            }
            assert(by_penalty(r)) by {
                assert forall|i: int, j: int| 0 <= i < j < r.len() implies mode_penalty(r[i]) <= mode_penalty(r[j]) by {
                    if j == r.len() - 1 {
                        assert(r[i] == d[i]);
                    } else {
                        assert(r[i] == d[i] && r[j] == d[j]);
                    }
                }
            }
            assert forall|x: CameraMode| #[trigger] r.contains(x) <==> s.contains(x) by {
                if r.contains(x) {
                    let k = choose|k: int| 0 <= k < r.len() && r[k] == x;
                    if k < d.len() {
                        assert(d[k] == x);
                        assert(d.contains(x));
                    } else {
                        assert(s[s.len() - 1] == x);
                    }
                }
                if s.contains(x) {
                    let k = choose|k: int| 0 <= k < s.len() && s[k] == x;
                    if k < t.len() {
                        assert(t[k] == x);
                        assert(t.contains(x));
                        assert(d.contains(x));
                        let q = choose|q: int| 0 <= q < d.len() && d[q] == x;
                        assert(r[q] == x);
                    } else {
                        assert(r[r.len() - 1] == x);
                    }
                }
            }
            assert forall|i: int, j: int| 0 <= i && j == i + 1 && j < r.len() implies #[trigger] r[i] != #[trigger] r[j] by {
                if i == r.len() - 2 {
                    assert(r[i] == d.last());
                } else {
                    assert(r[i] == d[i] && r[j] == d[j]);
                }
            }
            assert(r[0] == d[0]);
            assert(t[0] == s[0]);
        }
    }
}

/// The modes tried are usable modes the camera offered, best first (the
/// first has the lowest penalty of all usable modes), never the same mode
/// twice in a row, and at most [MODES_TRIED] of them; there is one whenever
/// any usable mode was offered.
pub proof fn lemma_preferred_modes(modes: Seq<CameraMode>)
    ensures
        ({
            let r = preferred_modes_of(modes);
            &&& r.len() <= MODES_TRIED
            &&& forall|i: int| 0 <= i < r.len() ==> #[trigger] r[i].fps >= MIN_FPS && modes.contains(r[i])
            &&& by_penalty(r)
            &&& no_repeats(r)
            &&& forall|m: CameraMode| #[trigger] modes.contains(m) && m.fps >= MIN_FPS ==> r.len() > 0
                && mode_penalty(r[0]) <= mode_penalty(m)
        }),
{
    let keep = |m: CameraMode| m.fps >= MIN_FPS;
    let u = usable_modes(modes);
    let so = sort_by_penalty(u);
    let d = dedup_modes(so);
    let r = preferred_modes_of(modes);
    lemma_sort_by_penalty(u);
    lemma_dedup_modes(so);
    assert(r.len() <= d.len());
    assert forall|i: int| 0 <= i < r.len() implies #[trigger] r[i].fps >= MIN_FPS && modes.contains(r[i]) by {
        assert(r[i] == d[i]);
        assert(d.contains(d[i]));
        assert(so.contains(d[i]));
        assert(u.contains(d[i]));
        modes.lemma_filter_contains_rev(keep, d[i]);
        let k = choose|k: int| 0 <= k < u.len() && u[k] == d[i];
        modes.lemma_filter_pred(keep, k);
    }
    assert(by_penalty(r)) by {
        assert forall|i: int, j: int| 0 <= i < j < r.len() implies mode_penalty(r[i]) <= mode_penalty(r[j]) by {
            assert(r[i] == d[i] && r[j] == d[j]);
        }
    }
    assert forall|i: int, j: int| 0 <= i && j == i + 1 && j < r.len() implies #[trigger] r[i] != #[trigger] r[j] by {
        assert(r[i] == d[i] && r[j] == d[j]);
    }
    assert forall|m: CameraMode| #[trigger] modes.contains(m) && m.fps >= MIN_FPS implies r.len() > 0
        && mode_penalty(r[0]) <= mode_penalty(m) by {
        let k = choose|k: int| 0 <= k < modes.len() && modes[k] == m;
        modes.lemma_filter_contains(keep, k);
        assert(u.contains(m));
        assert(so.contains(m));
        let q = choose|q: int| 0 <= q < so.len() && so[q] == m;
        assert(so.len() > 0);
        assert(d[0] == so[0]);
        assert(r[0] == d[0]);
        if q > 0 {
            assert(mode_penalty(so[0]) <= mode_penalty(so[q]));
        }
    }
}

// ----------------------------------------------------------- brightness

/// Every this many bytes a green sample is taken (every 16th RGB pixel).
pub const GAIN_STRIDE: usize = 48;

/// How many green samples a frame of `len` bytes gives: the bytes at
/// `1, 1 + 48, 1 + 96, ...` below `len`.
pub open spec fn sample_count(len: nat) -> nat {
    if len <= 1 { 0 } else { ((len - 2) / 48 + 1) as nat }
}

/// The sum of the first `k` green samples.
pub open spec fn green_total(rgb: Seq<u8>, k: nat) -> int
    decreases k,
{
    if k == 0 { 0 } else { green_total(rgb, (k - 1) as nat) + rgb[1 + 48 * (k - 1)] }
}

proof fn lemma_green_total_bound(rgb: Seq<u8>, k: nat)
    ensures
        0 <= green_total(rgb, k) <= 255 * k,
    decreases k,
{
    if k > 0 {
        lemma_green_total_bound(rgb, (k - 1) as nat);
    }
}

/// The green channel sampled sparsely for the brightness estimate: the sum
/// of the samples and how many there are (see [sample_count]).
pub fn green_samples(rgb: &[u8]) -> (r: (u64, u64))
    requires
        rgb@.len() <= 0x1000_0000_0000_0000,
        rgb@.len() + GAIN_STRIDE <= usize::MAX,
    ensures
        r.1 == sample_count(rgb@.len()),
        r.0 == green_total(rgb@, r.1 as nat),
{
    let len = rgb.len();
    let mut sum: u64 = 0;
    let mut n: u64 = 0;
    let mut i: usize = 1;
    while i < len
        invariant
            len == rgb@.len(),
            len <= 0x1000_0000_0000_0000,
            len + GAIN_STRIDE <= usize::MAX,
            i == 1 + 48 * n,
            n <= sample_count(len as nat),
            len > 1 ==> i <= len + 47,
            len <= 1 ==> n == 0,
            (i < len) ==> n < sample_count(len as nat),
            i >= len ==> n == sample_count(len as nat),
            sum == green_total(rgb@, n as nat),
        decreases len + 48 - i,
    {
        proof {
            lemma_green_total_bound(rgb@, n as nat);
        }
        sum = sum + rgb[i] as u64;
        n = n + 1;
        i = i + GAIN_STRIDE;
    }
    (sum, n)
}

// -------------------------------------------------------------- preview

/// Where pixel `(x, y)`, channel `c`, of a `w`-wide RGB image is stored.
pub open spec fn rgb_index(w: int, x: int, y: int, c: int) -> int {
    (y * w + x) * 3 + c
}

proof fn lemma_rgb_index_bounds(w: int, h: int, x: int, y: int, c: int)
    requires
        0 <= x < w,
        0 <= y < h,
        0 <= c < 3,
    ensures
        0 <= rgb_index(w, x, y, c) < w * h * 3,
        rgb_index(w, x, y, c) == (y * w + x) * 3 + c,
{
    assert(y * w + x < w * h) by (nonlinear_arith)
        requires
            0 <= x < w,
            0 <= y < h,
    ;
    assert(0 <= y * w) by (nonlinear_arith)
        requires
            0 <= y,
            0 <= w,
    ;
}

/// The preview: every other pixel of every other row of a `fw` x `fh` RGB
/// frame, so `fw / 2` x `fh / 2`.
pub fn downscale_half(rgb: &[u8], fw: usize, fh: usize) -> (r: Vec<u8>)
    requires
        fw * fh * 3 <= rgb@.len(),
    ensures
        r@.len() == (fw / 2) * (fh / 2) * 3,
        forall|x: int, y: int, c: int|
            0 <= x < fw / 2 && 0 <= y < fh / 2 && 0 <= c < 3 ==> #[trigger] r@[rgb_index(
                (fw / 2) as int,
                x,
                y,
                c,
            )] == rgb@[rgb_index(fw as int, 2 * x, 2 * y, c)],
{
    let n = rgb.len();
    let pw = fw / 2;
    let ph = fh / 2;
    let mut out: Vec<u8> = Vec::new();
    let mut y: usize = 0;
    proof {
        assert(pw * ph <= fw * fh) by (nonlinear_arith)
            requires
                pw == fw / 2,
                ph == fh / 2,
        ;
    }
    while y < ph
        invariant
            n == rgb@.len(),
            pw == fw / 2,
            ph == fh / 2,
            fw * fh * 3 <= n,
            pw * ph <= fw * fh,
            y <= ph,
            out@.len() == y * pw * 3,
            forall|xx: int, yy: int, c: int|
                0 <= xx < pw && 0 <= yy < y && 0 <= c < 3 ==> #[trigger] out@[rgb_index(
                    pw as int,
                    xx,
                    yy,
                    c,
                )] == rgb@[rgb_index(fw as int, 2 * xx, 2 * yy, c)],
        decreases ph - y,
    {
        let mut x: usize = 0;
        while x < pw
            invariant
                n == rgb@.len(),
                pw == fw / 2,
                ph == fh / 2,
                fw * fh * 3 <= n,
                pw * ph <= fw * fh,
                y < ph,
                x <= pw,
                out@.len() == (y * pw + x) * 3,
                forall|xx: int, yy: int, c: int|
                    0 <= xx < pw && 0 <= yy < y && 0 <= c < 3 ==> #[trigger] out@[rgb_index(
                        pw as int,
                        xx,
                        yy,
                        c,
                    )] == rgb@[rgb_index(fw as int, 2 * xx, 2 * yy, c)],
                forall|xx: int, c: int|
                    0 <= xx < x && 0 <= c < 3 ==> #[trigger] out@[rgb_index(pw as int, xx, y as int, c)]
                        == rgb@[rgb_index(fw as int, 2 * xx, 2 * y, c)],
            decreases pw - x,
        {
            proof {
                lemma_rgb_index_bounds(fw as int, fh as int, 2 * x, 2 * y, 0);
                lemma_rgb_index_bounds(fw as int, fh as int, 2 * x, 2 * y, 2);
                lemma_rgb_index_bounds(pw as int, ph as int, x as int, y as int, 2);
            }
            let src = ((2 * y) * fw + 2 * x) * 3;
            let ghost before = out@;
            out.push(rgb[src]);
            out.push(rgb[src + 1]);
            out.push(rgb[src + 2]);
            proof {
                assert forall|xx: int, c: int|
                    0 <= xx < x + 1 && 0 <= c < 3 implies #[trigger] out@[rgb_index(pw as int, xx, y as int, c)]
                        == rgb@[rgb_index(fw as int, 2 * xx, 2 * y, c)] by {
                    if xx < x {
                        lemma_rgb_index_bounds(pw as int, ph as int, xx, y as int, c);
                        assert(rgb_index(pw as int, xx, y as int, c) < before.len()) by (nonlinear_arith)
                            requires
                                rgb_index(pw as int, xx, y as int, c) == (y * pw + xx) * 3 + c,
                                before.len() == (y * pw + x) * 3,
                                xx < x,
                                0 <= c < 3,
                        ;
                        assert(out@[rgb_index(pw as int, xx, y as int, c)] == before[rgb_index(pw as int, xx, y as int, c)]);
                    } else {
                        assert(rgb_index(pw as int, xx, y as int, c) == before.len() + c);
                    }
                }
                assert forall|xx: int, yy: int, c: int|
                    0 <= xx < pw && 0 <= yy < y && 0 <= c < 3 implies #[trigger] out@[rgb_index(
                        pw as int,
                        xx,
                        yy,
                        c,
                    )] == rgb@[rgb_index(fw as int, 2 * xx, 2 * yy, c)] by {
                    assert(rgb_index(pw as int, xx, yy, c) < before.len()) by (nonlinear_arith)
                        requires
                            before.len() == (y * pw + x) * 3,
                            0 <= xx < pw,
                            0 <= yy < y,
                            0 <= c < 3,
                            rgb_index(pw as int, xx, yy, c) == (yy * pw + xx) * 3 + c,
                    ;
                    assert(out@[rgb_index(pw as int, xx, yy, c)] == before[rgb_index(pw as int, xx, yy, c)]);
                }
                assert(out@.len() == (y * pw + x + 1) * 3) by (nonlinear_arith)
                    requires
                        out@.len() == before.len() + 3,
                        before.len() == (y * pw + x) * 3,
                ;
            }
            x = x + 1;
        }
        proof {
            assert forall|xx: int, yy: int, c: int|
                0 <= xx < pw && 0 <= yy < y + 1 && 0 <= c < 3 implies #[trigger] out@[rgb_index(
                    pw as int,
                    xx,
                    yy,
                    c,
                )] == rgb@[rgb_index(fw as int, 2 * xx, 2 * yy, c)] by {
                if yy == y {
                    assert(out@[rgb_index(pw as int, xx, y as int, c)] == rgb@[rgb_index(fw as int, 2 * xx, 2 * y, c)]);
                }
            }
            assert(out@.len() == (y + 1) * pw * 3) by (nonlinear_arith)
                requires
                    out@.len() == (y * pw + pw) * 3,
            ;
        }
        y = y + 1;
    }
    assert(out@.len() == pw * ph * 3) by (nonlinear_arith)
        requires
            out@.len() == y * pw * 3,
            y == ph,
    ;
    out
}

// -------------------------------------------------------- DirectShow ids

/// A COM GUID in memory order: `a`, `b`, `c` little-endian, then `d`.
pub open spec fn guid_bytes(a: u32, b: u16, c: u16, d: [u8; 8]) -> Seq<u8> {
    crate::bytes::le32(a) + crate::bytes::le16(b) + crate::bytes::le16(c) + d@
}

/// Lay out a COM GUID in memory order (see [guid_bytes]).
pub fn guid(a: u32, b: u16, c: u16, d: [u8; 8]) -> (g: [u8; 16])
    ensures
        g@ == guid_bytes(a, b, c, d),
{
    let mut g = [0u8; 16];
    g[0] = (a % 256) as u8;
    g[1] = (a / 256 % 256) as u8;
    g[2] = (a / 65536 % 256) as u8;
    g[3] = (a / 16777216) as u8;
    g[4] = (b % 256) as u8;
    g[5] = (b / 256) as u8;
    g[6] = (c % 256) as u8;
    g[7] = (c / 256) as u8;
    let mut i: usize = 0;
    while i < 8
        invariant
            i <= 8,
            g@.len() == 16,
            g@[0] == (a % 256) as u8,
            g@[1] == (a / 256 % 256) as u8,
            g@[2] == (a / 65536 % 256) as u8,
            g@[3] == (a / 16777216) as u8,
            g@[4] == (b % 256) as u8,
            g@[5] == (b / 256) as u8,
            g@[6] == (c % 256) as u8,
            g@[7] == (c / 256) as u8,
            forall|k: int| 8 <= k < 8 + i ==> #[trigger] g@[k] == d@[k - 8],
        decreases 8 - i,
    {
        g[8 + i] = d[i];
        i = i + 1;
    }
    assert(g@ =~= guid_bytes(a, b, c, d));
    g
}

/// `CLSID_SystemDeviceEnum`, {62BE5D10-60EB-11d0-BD3B-00A0C911CE86}.
pub fn clsid_system_device_enum() -> (g: [u8; 16])
    ensures
        g@ == guid_bytes(0x62BE5D10, 0x60EB, 0x11d0, [0xBD, 0x3B, 0x00, 0xA0, 0xC9, 0x11, 0xCE, 0x86]),
{
    guid(0x62BE5D10, 0x60EB, 0x11d0, [0xBD, 0x3B, 0x00, 0xA0, 0xC9, 0x11, 0xCE, 0x86])
}

/// `IID_ICreateDevEnum`, {29840822-5B84-11D0-BD3B-00A0C911CE86}.
pub fn iid_icreate_dev_enum() -> (g: [u8; 16])
    ensures
        g@ == guid_bytes(0x29840822, 0x5B84, 0x11D0, [0xBD, 0x3B, 0x00, 0xA0, 0xC9, 0x11, 0xCE, 0x86]),
{
    guid(0x29840822, 0x5B84, 0x11D0, [0xBD, 0x3B, 0x00, 0xA0, 0xC9, 0x11, 0xCE, 0x86])
}

/// `CLSID_VideoInputDeviceCategory`, {860BB310-5D01-11d0-BD3B-00A0C911CE86}.
pub fn clsid_video_input_device_category() -> (g: [u8; 16])
    ensures
        g@ == guid_bytes(0x860BB310, 0x5D01, 0x11d0, [0xBD, 0x3B, 0x00, 0xA0, 0xC9, 0x11, 0xCE, 0x86]),
{
    guid(0x860BB310, 0x5D01, 0x11d0, [0xBD, 0x3B, 0x00, 0xA0, 0xC9, 0x11, 0xCE, 0x86])
}

/// `IID_IAMCameraControl`, {C6E13370-30AC-11d0-A18C-00A0C9118956}.
pub fn iid_iam_camera_control() -> (g: [u8; 16])
    ensures
        g@ == guid_bytes(0xC6E13370, 0x30AC, 0x11d0, [0xA1, 0x8C, 0x00, 0xA0, 0xC9, 0x11, 0x89, 0x56]),
{
    guid(0xC6E13370, 0x30AC, 0x11d0, [0xA1, 0x8C, 0x00, 0xA0, 0xC9, 0x11, 0x89, 0x56])
}

/// `IID_IAMVideoProcAmp`, {C6E13360-30AC-11d0-A18C-00A0C9118956}.
pub fn iid_iam_video_proc_amp() -> (g: [u8; 16])
    ensures
        g@ == guid_bytes(0xC6E13360, 0x30AC, 0x11d0, [0xA1, 0x8C, 0x00, 0xA0, 0xC9, 0x11, 0x89, 0x56]),
{
    guid(0xC6E13360, 0x30AC, 0x11d0, [0xA1, 0x8C, 0x00, 0xA0, 0xC9, 0x11, 0x89, 0x56])
}

/// `IID_IPropertyBag`, {55272A00-42CB-11CE-8135-00AA004BB851}.
pub fn iid_iproperty_bag() -> (g: [u8; 16])
    ensures
        g@ == guid_bytes(0x55272A00, 0x42CB, 0x11CE, [0x81, 0x35, 0x00, 0xAA, 0x00, 0x4B, 0xB8, 0x51]),
{
    guid(0x55272A00, 0x42CB, 0x11CE, [0x81, 0x35, 0x00, 0xAA, 0x00, 0x4B, 0xB8, 0x51])
}

/// `CameraControl_Exposure`.
pub const CAMERA_CONTROL_EXPOSURE: i32 = 4;
/// `VideoProcAmp_Gain`.
pub const VIDEO_PROC_AMP_GAIN: i32 = 8;
/// Control flag: automatic.
pub const FLAGS_AUTO: i32 = 0x1;
/// Control flag: manual.
pub const FLAGS_MANUAL: i32 = 0x2;

/// What the low-light boost managed to change, so it can be restored.
#[derive(Clone, Copy, PartialEq, Eq, Debug, Structural)]
pub struct Applied {
    pub exposure: bool,
    pub gain: bool,
}

impl Default for Applied {
    fn default() -> (r: Applied)
        ensures
            !r.exposure && !r.gain,
    {
        Applied { exposure: false, gain: false }
    }
}

/// The exposure to set: `ev` clamped to the range the camera reports.
pub fn exposure_target(ev: i32, lo: i32, hi: i32) -> (r: i32)
    requires
        lo <= hi,
    ensures
        r == (if ev < lo { lo } else if ev > hi { hi } else { ev }),
{
    if ev < lo {
        lo
    } else if ev > hi {
        hi
    } else {
        ev
    }
}

} // verus!
