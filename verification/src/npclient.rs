//! The TrackIR client side (what `NPClient64.dll` serves to games): the data
//! frame with the TIR5 checksum games verify, the legacy per-game obfuscation,
//! and the interface signature.

use vstd::prelude::*;
use crate::bytes::{byte_i8, i16_le, le16_signed, le32, push_i16, push_u32, read_i16, read_i8, u32_le};

verus! {

/// `NP_QueryVersion` reports this interface version.
pub const NP_VERSION: u16 = 0x0500;

/// `NP_GetData` status: pose flowing.
pub const STATUS_OK: i32 = 0;
/// `NP_GetData` status: tracker disabled / no pose.
pub const STATUS_DISABLED: i32 = 1;

/// Size of the TrackIR data struct handed to games.
pub const TIR_DATA_LEN: usize = 68;

// ------------------------------------------------------------- checksum

/// One 4-byte word of the TIR5 checksum: `a0` and `a2` are the two signed
/// 16-bit halves of the word.
pub open spec fn ck_word(c: i32, a0: i32, a2: i32) -> i32 {
    let c1 = c.wrapping_add(a0);
    let x = (a2 ^ c1.wrapping_shl(5)).wrapping_shl(11);
    let c2 = c1 ^ x;
    c2.wrapping_add(c2 >> 11u32)
}

/// Checksum state after the first `k` whole words of `buf`, starting from the
/// length of the buffer.
pub open spec fn ck_words(buf: Seq<u8>, k: nat) -> i32
    decreases k,
{
    if k == 0 {
        buf.len() as i32
    } else {
        let j = 4 * (k - 1);
        ck_word(
            ck_words(buf, (k - 1) as nat),
            i16_le(buf[j], buf[j + 1]) as i32,
            i16_le(buf[j + 2], buf[j + 3]) as i32,
        )
    }
}

/// Folds in the 1..3 trailing bytes that start at `i` (`rem` of them).
pub open spec fn ck_tail(c: i32, buf: Seq<u8>, i: int, rem: int) -> i32 {
    if rem == 3 {
        let c1 = c.wrapping_add(i16_le(buf[i], buf[i + 1]) as i32);
        let a2 = (byte_i8(buf[i + 2]) as i32).wrapping_shl(2) ^ c1;
        let c2 = c1 ^ a2.wrapping_shl(16);
        c2.wrapping_add(c2 >> 11u32)
    } else if rem == 2 {
        let c1 = c.wrapping_add(i16_le(buf[i], buf[i + 1]) as i32);
        let c2 = c1 ^ c1.wrapping_shl(11);
        c2.wrapping_add(c2 >> 17u32)
    } else if rem == 1 {
        let c1 = c.wrapping_add(byte_i8(buf[i]) as i32);
        let c2 = c1 ^ c1.wrapping_shl(10);
        c2.wrapping_add(c2 >> 1u32)
    } else {
        c
    }
}

/// The final avalanche of the TIR5 checksum.
pub open spec fn ck_final(c: i32) -> i32 {
    let c1 = c ^ c.wrapping_shl(3);
    let c2 = c1.wrapping_add(c1 >> 5u32);
    let c3 = c2 ^ c2.wrapping_shl(4);
    let c4 = c3.wrapping_add(c3 >> 17u32);
    let c5 = c4 ^ c4.wrapping_shl(25);
    c5.wrapping_add(c5 >> 6u32)
}

/// The TIR5 checksum of `buf` (32-bit signed wrapping arithmetic over its
/// little-endian 16-bit halves), as games compute it.
pub open spec fn tir_checksum(buf: Seq<u8>) -> u32 {
    if buf.len() == 0 {
        0
    } else {
        let n = buf.len() as int;
        ck_final(ck_tail(ck_words(buf, (n / 4) as nat), buf, 4 * (n / 4), n % 4)) as u32
    }
}

/// TIR5 checksum over a buffer (games run it over the 68-byte data struct
/// with its checksum field zeroed).
pub fn cksum(buf: &[u8]) -> (r: u32)
    ensures
        r == tir_checksum(buf@),
{
    let size = buf.len();
    if size == 0 {
        return 0;
    }
    let mut c: i32 = size as i32;
    let mut i: usize = 0;
    let words = size / 4;
    let mut k: usize = 0;
    while k < words
        invariant
            words == buf@.len() / 4,
            size == buf@.len(),
            k <= words,
            i == 4 * k,
            c == ck_words(buf@, k as nat),
        decreases words - k,
    {
        let a0 = read_i16(buf[i], buf[i + 1]) as i32;
        let mut a2 = read_i16(buf[i + 2], buf[i + 3]) as i32;
        i = i + 4;
        c = c.wrapping_add(a0);
        a2 = a2 ^ c.wrapping_shl(5);
        a2 = a2.wrapping_shl(11);
        c = c ^ a2;
        c = c.wrapping_add(c >> 11u32);
        k = k + 1;
    }
    let rem = size % 4;
    if rem == 3 {
        let a0 = read_i16(buf[i], buf[i + 1]) as i32;
        let a2 = read_i8(buf[i + 2]) as i32;
        c = c.wrapping_add(a0);
        let a2 = a2.wrapping_shl(2) ^ c;
        c = c ^ a2.wrapping_shl(16);
        let tail = c >> 11u32;
        c = c.wrapping_add(tail);
    } else if rem == 2 {
        let a2 = read_i16(buf[i], buf[i + 1]) as i32;
        c = c.wrapping_add(a2);
        c = c ^ c.wrapping_shl(11);
        let tail = c >> 17u32;
        c = c.wrapping_add(tail);
    } else if rem == 1 {
        let a2 = read_i8(buf[i]) as i32;
        c = c.wrapping_add(a2);
        c = c ^ c.wrapping_shl(10);
        let tail = c >> 1u32;
        c = c.wrapping_add(tail);
    }
    c = c ^ c.wrapping_shl(3);
    c = c.wrapping_add(c >> 5u32);
    c = c ^ c.wrapping_shl(4);
    c = c.wrapping_add(c >> 17u32);
    c = c ^ c.wrapping_shl(25);
    c = c.wrapping_add(c >> 6u32);
    c as u32
}


// ----------------------------------------------------------- obfuscation

/// The running key byte before the `j`-th step of [enhance]. Steps walk the
/// buffer from its last byte to its first; step `j` handles index `n - 1 - j`.
pub open spec fn enhance_key(buf: Seq<u8>, j: nat) -> u8
    decreases j,
{
    if j == 0 {
        0x88u8
    } else {
        let idx = buf.len() - j;
        enhance_key(buf, (j - 1) as nat).wrapping_add((idx as u8).wrapping_add(buf[idx]))
    }
}

/// What [enhance] leaves at index `p` of a buffer that held `buf`.
pub open spec fn enhanced_byte(buf: Seq<u8>, table: Seq<u8>, p: int) -> u8 {
    let j = buf.len() - 1 - p;
    buf[p] ^ table[j % 8] ^ enhance_key(buf, j as nat)
}

/// Legacy per-game obfuscation of the data struct; only used when the game
/// hands out a non-zero table (no modern game does). Each byte, from the last
/// to the first, is XORed with the next table byte (cycling) and a running key
/// that absorbs the position and the byte it replaced.
pub fn enhance(buf: &mut [u8], table: &[u8; 8])
    ensures
        final(buf)@.len() == old(buf)@.len(),
        forall|p: int|
            0 <= p < old(buf)@.len() ==> #[trigger] final(buf)@[p] == enhanced_byte(
                old(buf)@,
                table@,
                p,
            ),
{
    let ghost orig = buf@;
    let n = buf.len();
    let mut table_ptr: usize = 0;
    let mut var: u8 = 0x88;
    let mut size = n;
    if size == 0 {
        return;
    }
    while size > 0
        invariant
            n == orig.len(),
            buf@.len() == n,
            size <= n,
            table_ptr == (n - size) % 8,
            var == enhance_key(orig, (n - size) as nat),
            forall|p: int| 0 <= p < size ==> #[trigger] buf@[p] == orig[p],
            forall|p: int| size <= p < n ==> #[trigger] buf@[p] == enhanced_byte(orig, table@, p),
        decreases size,
    {
        size = size - 1;
        let tmp = buf[size];
        buf[size] = tmp ^ table[table_ptr] ^ var;
        var = var.wrapping_add((size as u8).wrapping_add(tmp));
        table_ptr = table_ptr + 1;
        if table_ptr >= 8 {
            table_ptr = 0;
        }
    }
}

// ------------------------------------------------------------ data frame

/// The 68-byte TrackIR data struct: i16 status, i16 frame, u32 checksum, the
/// six axes (roll, pitch, yaw, tx, ty, tz: `f32` bit patterns, in TrackIR
/// units) and nine zero padding floats.
pub open spec fn tir_layout(status: i16, frame: i16, ck: u32, axes: [u32; 6]) -> Seq<u8> {
    le16_signed(status) + le16_signed(frame) + le32(ck) + le32(axes[0]) + le32(axes[1]) + le32(
        axes[2],
    ) + le32(axes[3]) + le32(axes[4]) + le32(axes[5]) + Seq::new(36, |i: int| 0u8)
}

/// The checksum stored in a data struct (bytes 4..8).
pub open spec fn stored_checksum(frame: Seq<u8>) -> u32 {
    u32_le(frame[4], frame[5], frame[6], frame[7])
}

/// The struct as the game sees it when checking: the checksum field zeroed.
pub open spec fn checksum_field_zeroed(frame: Seq<u8>) -> Seq<u8> {
    frame.update(4, 0u8).update(5, 0u8).update(6, 0u8).update(7, 0u8)
}

/// Builds the data struct for `NP_GetData` and fills in its checksum: the
/// TIR5 checksum of the struct with the checksum field zeroed.
pub fn seal_tir_data(status: i16, frame: i16, axes: [u32; 6]) -> (r: Vec<u8>)
    ensures
        r@ == tir_layout(status, frame, tir_checksum(tir_layout(status, frame, 0, axes)), axes),
        r@.len() == TIR_DATA_LEN,
{
    let mut b: Vec<u8> = Vec::new();
    push_i16(&mut b, status);
    push_i16(&mut b, frame);
    push_u32(&mut b, 0);
    let mut k: usize = 0;
    while k < 6
        invariant
            k <= 6,
            b@ == le16_signed(status) + le16_signed(frame) + le32(0) + axes_bytes(axes, k as int),
        decreases 6 - k,
    {
        push_u32(&mut b, axes[k]);
        k = k + 1;
    }
    let mut p: usize = 0;
    while p < 36
        invariant
            p <= 36,
            b@ == le16_signed(status) + le16_signed(frame) + le32(0) + axes_bytes(axes, 6)
                + Seq::new(p as nat, |i: int| 0u8),
        decreases 36 - p,
    {
        b.push(0);
        p = p + 1;
        assert(Seq::new(p as nat, |i: int| 0u8) =~= Seq::new((p - 1) as nat, |i: int| 0u8).push(0u8));
    }
    assert(axes_bytes(axes, 6) =~= le32(axes[0]) + le32(axes[1]) + le32(axes[2]) + le32(axes[3])
        + le32(axes[4]) + le32(axes[5])) by {
        reveal_with_fuel(axes_bytes, 7);
    }
    assert(b@ =~= tir_layout(status, frame, 0, axes));
    let sum = cksum(b.as_slice());
    b.set(4, (sum % 256) as u8);
    b.set(5, (sum / 256 % 256) as u8);
    b.set(6, (sum / 65536 % 256) as u8);
    b.set(7, (sum / 16777216) as u8);
    assert(b@ =~= tir_layout(status, frame, sum, axes));
    b
}

/// The little-endian bytes of the first `k` axes.
pub open spec fn axes_bytes(axes: [u32; 6], k: int) -> Seq<u8>
    decreases k,
{
    if k <= 0 {
        Seq::empty()
    } else {
        axes_bytes(axes, k - 1) + le32(axes[k - 1])
    }
}

/// What a game checks on every frame: zero the checksum field, recompute the
/// TIR5 checksum, compare with the stored one. Every sealed frame passes.
#[verifier::spinoff_prover]
#[verifier::rlimit(40)]
pub proof fn lemma_sealed_frame_verifies(status: i16, frame: i16, axes: [u32; 6])
    ensures
        ({
            let sealed = tir_layout(
                status,
                frame,
                tir_checksum(tir_layout(status, frame, 0, axes)),
                axes,
            );
            tir_checksum(checksum_field_zeroed(sealed)) == stored_checksum(sealed)
        }),
{
    let ck = tir_checksum(tir_layout(status, frame, 0, axes));
    let sealed = tir_layout(status, frame, ck, axes);
    assert(checksum_field_zeroed(sealed) =~= tir_layout(status, frame, 0, axes));
}


// --------------------------------------------------------------- session

/// Whether an obfuscation table asks for obfuscation at all (any byte set).
pub open spec fn table_in_use(table: Seq<u8>) -> bool {
    exists|i: int| 0 <= i < table.len() && table[i] != 0u8
}

/// The sealed data struct for one call (see [seal_tir_data]).
pub open spec fn sealed_frame(status: i16, frame: i16, axes: [u32; 6]) -> Seq<u8> {
    tir_layout(status, frame, tir_checksum(tir_layout(status, frame, 0, axes)), axes)
}

/// The data frame served for one call, byte by byte: the status at 0..2 and
/// the frame counter at 2..4 (little-endian `i16`), the checksum at 4..8,
/// then the six axes in the order they are passed (roll, pitch, yaw, x, y,
/// z), axis `k` as the little-endian word at `8 + 4 * k`, and zeros to the
/// end of the 68 bytes. Its checksum is the one the games compute.
pub proof fn lemma_frame_layout(status: i16, frame: i16, axes: [u32; 6])
    ensures
        ({
            let b = sealed_frame(status, frame, axes);
            &&& b.len() == 68
            &&& i16_le(b[0], b[1]) == status
            &&& i16_le(b[2], b[3]) == frame
            &&& forall|k: int|
                0 <= k < 6 ==> #[trigger] u32_le(b[8 + 4 * k], b[9 + 4 * k], b[10 + 4 * k], b[11 + 4 * k])
                    == axes[k]
            &&& forall|i: int| 32 <= i < 68 ==> #[trigger] b[i] == 0u8
            &&& tir_checksum(checksum_field_zeroed(b)) == u32_le(b[4], b[5], b[6], b[7])
        }),
{
    let ck = tir_checksum(tir_layout(status, frame, 0, axes));
    let b = sealed_frame(status, frame, axes);
    let a = Seq::new(6, |k: int| le32(axes[k]));
    assert(b =~= le16_signed(status) + le16_signed(frame) + le32(ck) + a[0] + a[1] + a[2] + a[3]
        + a[4] + a[5] + Seq::new(36, |i: int| 0u8));
    crate::bytes::lemma_i16_roundtrip(status);
    crate::bytes::lemma_i16_roundtrip(frame);
    assert forall|k: int| 0 <= k < 6 implies #[trigger] u32_le(
        b[8 + 4 * k],
        b[9 + 4 * k],
        b[10 + 4 * k],
        b[11 + 4 * k],
    ) == axes[k] by {
        assert(b[8 + 4 * k] == a[k][0]);
        assert(b[9 + 4 * k] == a[k][1]);
        assert(b[10 + 4 * k] == a[k][2]);
        assert(b[11 + 4 * k] == a[k][3]);
        crate::bytes::lemma_u32_roundtrip(axes[k]);
    }
    lemma_sealed_frame_verifies(status, frame, axes);
}

/// A buffer after [enhance] with `table`.
pub open spec fn enhanced(buf: Seq<u8>, table: Seq<u8>) -> Seq<u8> {
    Seq::new(buf.len(), |p: int| enhanced_byte(buf, table, p))
}

/// What `NP_GetData` keeps between calls: the running frame counter and the
/// per-game obfuscation table, adopted once, when the tracker has answered the
/// game's registration (`game_id2 == game_id` in the shared memory).
pub struct TirSession {
    pub frame_counter: i32,
    pub table_checked: bool,
    pub encryption: bool,
    pub table: [u8; 8],
}

impl TirSession {
    /// A fresh session: counter 0, no table adopted yet, no obfuscation.
    pub fn new() -> (r: TirSession)
        ensures
            r.frame_counter == 0,
            !r.table_checked,
            !r.encryption,
            r.table@ == Seq::new(8, |i: int| 0u8),
    {
        let r = TirSession { frame_counter: 0, table_checked: false, encryption: false, table: [0u8; 8] };
        assert(r.table@ =~= Seq::new(8, |i: int| 0u8));
        r
    }

    /// Look at the handshake fields of the shared memory. The first time the
    /// tracker has echoed the game's id, its table is adopted, and obfuscation
    /// is switched on if any table byte is set. Later calls change nothing.
    pub fn observe(&mut self, game_id: i32, game_id2: i32, table: [u8; 8])
        ensures
            (game_id == game_id2 && !old(self).table_checked) ==> {
                &&& final(self).table_checked
                &&& final(self).table == table
                &&& final(self).encryption == (old(self).encryption || table_in_use(table@))
                &&& final(self).frame_counter == old(self).frame_counter
            },
            !(game_id == game_id2 && !old(self).table_checked) ==> *final(self) == *old(self),
    {
        if game_id == game_id2 && !self.table_checked {
            self.table_checked = true;
            self.table = table;
            let mut i: usize = 0;
            while i < 8
                invariant
                    i <= 8,
                    self.table_checked,
                    self.table == table,
                    self.frame_counter == old(self).frame_counter,
                    self.encryption == (old(self).encryption || exists|k: int|
                        0 <= k < i && table@[k] != 0u8),
                decreases 8 - i,
            {
                if table[i] != 0 {
                    self.encryption = true;
                }
                i = i + 1;
            }
        }
    }

    /// Advance the frame counter (wrapping) and return it as the 16-bit frame
    /// number games see.
    pub fn next_frame(&mut self) -> (r: i16)
        ensures
            final(self).frame_counter == old(self).frame_counter.wrapping_add(1),
            r == final(self).frame_counter as i16,
            final(self).table_checked == old(self).table_checked,
            final(self).encryption == old(self).encryption,
            final(self).table == old(self).table,
    {
        self.frame_counter = self.frame_counter.wrapping_add(1);
        self.frame_counter as i16
    }

    /// One `NP_GetData` call: the next frame number, status OK when a pose is
    /// flowing (`running`) and DISABLED otherwise, the sealed data struct for
    /// `axes` (TrackIR units, `f32` bit patterns), obfuscated when the adopted
    /// table asks for it. Returns the struct and the status code.
    pub fn get_data(&mut self, running: bool, axes: [u32; 6]) -> (r: (Vec<u8>, i32))
        ensures
            final(self).frame_counter == old(self).frame_counter.wrapping_add(1),
            final(self).table_checked == old(self).table_checked,
            final(self).encryption == old(self).encryption,
            final(self).table == old(self).table,
            r.1 == (if running { STATUS_OK } else { STATUS_DISABLED }),
            ({
                let sealed = sealed_frame(
                    r.1 as i16,
                    final(self).frame_counter as i16,
                    axes,
                );
                r.0@ == (if old(self).encryption { enhanced(sealed, old(self).table@) } else { sealed })
            }),
            r.0@.len() == TIR_DATA_LEN,
    {
        let frame = self.next_frame();
        let status: i32 = if running { STATUS_OK } else { STATUS_DISABLED };
        let mut bytes = seal_tir_data(status as i16, frame, axes);
        if self.encryption {
            let ghost sealed = bytes@;
            enhance(bytes.as_mut_slice(), &self.table);
            assert(bytes@ =~= enhanced(sealed, self.table@));
        }
        (bytes, status)
    }
}

// ------------------------------------------------------------- signature

/// Length of each of the two signature blocks.
pub const SIG_LEN: usize = 200;

/// The interface signature returned by `NP_GetSignature`: the DLL's and the
/// application's text, each NUL-padded to 200 bytes.
pub struct TirSignature {
    pub dll_signature: [u8; 200],
    pub app_signature: [u8; 200],
}

/// The DLL signature text of the public NPClient interface.
pub open spec fn dll_signature_text() -> Seq<char> {
    "precise head tracking\n put your head into the game\n now go look around\n\n Copyright EyeControl Technologies"@
}

/// The application signature text of the public NPClient interface.
pub open spec fn app_signature_text() -> Seq<char> {
    "hardware camera\n software processing data\n track user movement\n\n Copyright EyeControl Technologies"@
}

/// An ASCII text as bytes, NUL-padded to [SIG_LEN].
pub open spec fn nul_padded(text: Seq<char>) -> Seq<u8> {
    Seq::new(SIG_LEN as nat, |i: int| if i < text.len() { text[i] as u8 } else { 0u8 })
}

/// Copies an ASCII text into a NUL-padded signature block.
fn pad_signature(text: &str) -> (r: [u8; 200])
    requires
        text.is_ascii(),
        text@.len() < SIG_LEN,
    ensures
        r@ == nul_padded(text@),
{
    broadcast use vstd::string::is_ascii_spec_bytes;
    let bytes = text.as_bytes();
    assert(bytes@ =~= Seq::new(text@.len(), |i| text@[i] as u8));
    let mut block = [0u8; 200];
    let mut i: usize = 0;
    while i < bytes.len()
        invariant
            bytes@ == Seq::new(text@.len(), |i| text@[i] as u8),
            text@.len() < SIG_LEN,
            i <= bytes@.len(),
            forall|k: int| 0 <= k < i ==> #[trigger] block@[k] == text@[k] as u8,
            forall|k: int| i <= k < SIG_LEN ==> #[trigger] block@[k] == 0u8,
        decreases bytes@.len() - i,
    {
        block[i] = bytes[i];
        i = i + 1;
    }
    assert(block@ =~= nul_padded(text@));
    block
}

/// The DLL signature block, NUL-padded.
pub fn sig_dll() -> (r: [u8; 200])
    ensures
        r@ == nul_padded(dll_signature_text()),
{
    let text = "precise head tracking\n put your head into the game\n now go look around\n\n Copyright EyeControl Technologies";
    proof {
        reveal_strlit("precise head tracking\n put your head into the game\n now go look around\n\n Copyright EyeControl Technologies");
    }
    pad_signature(text)
}

/// The application signature block, NUL-padded.
pub fn sig_app() -> (r: [u8; 200])
    ensures
        r@ == nul_padded(app_signature_text()),
{
    let text = "hardware camera\n software processing data\n track user movement\n\n Copyright EyeControl Technologies";
    proof {
        reveal_strlit("hardware camera\n software processing data\n track user movement\n\n Copyright EyeControl Technologies");
    }
    pad_signature(text)
}

impl TirSignature {
    /// The signature `NP_GetSignature` hands to games.
    pub fn new() -> (r: TirSignature)
        ensures
            r.dll_signature@ == nul_padded(dll_signature_text()),
            r.app_signature@ == nul_padded(app_signature_text()),
    {
        TirSignature { dll_signature: sig_dll(), app_signature: sig_app() }
    }
}

} // verus!
