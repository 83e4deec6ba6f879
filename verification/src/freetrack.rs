//! The tracker side of the FreeTrack shared memory (`FT_SharedMem`): the
//! handshake with a game that registers through `NPClient64.dll`, and where
//! the TrackIR registry key points games to the client DLL.

use vstd::prelude::*;
use crate::text::chars_of;

verus! {

/// `data_id` written when the mapping is created.
pub const INITIAL_DATA_ID: u32 = 1;
/// Camera width advertised in the mapping.
pub const CAM_WIDTH: i32 = 100;
/// Camera height advertised in the mapping.
pub const CAM_HEIGHT: i32 = 250;

/// What one pose write does besides the pose itself.
#[derive(Clone, Copy, PartialEq, Eq, Debug, Structural)]
pub struct FtWrite {
    /// Zero the obfuscation table (a game just registered).
    pub reset_table: bool,
    /// Echo this game id into `game_id2`, completing the handshake.
    pub game_id2: Option<i32>,
    /// The new `data_id`.
    pub data_id: u32,
}

/// The handshake state: the game id last seen in the mapping.
pub struct FtHandshake {
    pub seen_game_id: i32,
}

/// The effect of one write, given the game id found in the mapping, the
/// `data_id` found there, and the game id seen so far. A new game id is
/// answered (zero table, echo the id, restart `data_id` at 0); otherwise
/// `data_id` ticks on, wrapping.
pub open spec fn ft_write_of(seen: i32, game_id: i32, data_id: u32) -> FtWrite {
    if game_id != seen {
        FtWrite { reset_table: true, game_id2: Some(game_id), data_id: 0 }
    } else {
        FtWrite { reset_table: false, game_id2: None, data_id: data_id.wrapping_add(1) }
    }
}

impl FtHandshake {
    /// No game seen yet.
    pub fn new() -> (r: FtHandshake)
        ensures
            r.seen_game_id == 0,
    {
        FtHandshake { seen_game_id: 0 }
    }

    /// Decide what one pose write does (see [ft_write_of]); afterwards the
    /// game id in the mapping counts as seen.
    pub fn step(&mut self, game_id: i32, data_id: u32) -> (r: FtWrite)
        ensures
            r == ft_write_of(old(self).seen_game_id, game_id, data_id),
            final(self).seen_game_id == game_id,
    {
        if game_id != self.seen_game_id {
            self.seen_game_id = game_id;
            FtWrite { reset_table: true, game_id2: Some(game_id), data_id: 0 }
        } else {
            FtWrite { reset_table: false, game_id2: None, data_id: data_id.wrapping_add(1) }
        }
    }
}

/// The value games expect in the `NPClient Location` registry key for an
/// install folder: backslashes turned into forward slashes, with a trailing
/// slash.
pub open spec fn npclient_location_of(dir: Seq<char>) -> Seq<char> {
    let slashed = dir.map_values(|c: char| if c == '\\' { '/' } else { c });
    if slashed.len() > 0 && slashed.last() == '/' {
        slashed
    } else {
        slashed.push('/')
    }
}

/// The registry value for an install folder (see [npclient_location_of]).
pub fn npclient_location(dir: &str) -> (r: String)
    ensures
        r@ == npclient_location_of(dir@),
{
    let cs = chars_of(dir);
    let ghost slashed = dir@.map_values(|c: char| if c == '\\' { '/' } else { c });
    let mut out = String::new();
    let mut start: usize = 0;
    let mut i: usize = 0;
    while i < cs.len()
        invariant
            cs@ == dir@,
            slashed == dir@.map_values(|c: char| if c == '\\' { '/' } else { c }),
            start <= i <= cs@.len(),
            out@ == slashed.take(start as int),
            forall|k: int| start <= k < i ==> #[trigger] dir@[k] != '\\',
        decreases cs@.len() - i,
    {
        if cs[i] == '\\' {
            let run = dir.substring_char(start, i);
            out.append(run);
            out.append("/");
            proof {
                reveal_strlit("/");
                assert(dir@[i as int] == '\\');
                assert forall|k: int| start <= k < i implies #[trigger] slashed[k] == run@[k - start] by {
                    assert(dir@[k] != '\\');
                }
                assert(slashed.take(i + 1) =~= slashed.take(start as int) + run@ + seq!['/']);
            }
            start = i + 1;
        }
        i = i + 1;
    }
    let run = dir.substring_char(start, cs.len());
    out.append(run);
    assert forall|k: int| start <= k < cs@.len() implies #[trigger] slashed[k] == run@[k - start] by {
        assert(dir@[k] != '\\');
    }
    assert(out@ =~= slashed);
    let ends_with_slash = cs.len() > 0 && (cs[cs.len() - 1] == '\\' || cs[cs.len() - 1] == '/');
    if !ends_with_slash {
        out.append("/");
        proof { reveal_strlit("/"); }
    }
    out
}

/// The registry value has forward slashes only and ends with one.
pub proof fn lemma_location_shape(dir: Seq<char>)
    ensures
        npclient_location_of(dir).len() > 0,
        npclient_location_of(dir).last() == '/',
        forall|k: int| 0 <= k < npclient_location_of(dir).len() ==> #[trigger] npclient_location_of(dir)[k] != '\\',
{
    let slashed = dir.map_values(|c: char| if c == '\\' { '/' } else { c });
    assert forall|k: int| 0 <= k < slashed.len() implies #[trigger] slashed[k] != '\\' by {}
    if !(slashed.len() > 0 && slashed.last() == '/') {
        assert forall|k: int| 0 <= k < slashed.push('/').len() implies #[trigger] slashed.push('/')[k] != '\\' by {
            if k < slashed.len() {
                assert(slashed.push('/')[k] == slashed[k]);
            }
        }
    }
}

} // verus!
