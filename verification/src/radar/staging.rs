//! Staging tiles and frames on the SD card.

use vstd::prelude::*;
use vstd::string::StringExecFns;

use crate::config::RADAR_FRAME_COUNT;
use crate::radar::source::RadarError;
use crate::storage::{card_path, law_paths_stand_below_the_mount_point, path};
use crate::text::{decimal, law_decimal_reads_back, push_decimal};

verus! {

/// The file name of a staged frame.
pub open spec fn frame_file(index: nat) -> Seq<char> {
    "radar/frame_"@ + decimal(index) + ".rgb565"@
}

/// The file name of a downloaded (still encoded) radar tile.
pub open spec fn tile_file(index: nat) -> Seq<char> {
    "radar/tile_"@ + decimal(index) + ".png"@
}

/// Path of the `i`-th staged frame on the SD card.
pub fn frame_path(index: usize) -> (p: String)
    ensures
        p@ == card_path(frame_file(index as nat)),
{
    let mut name: String = "radar/frame_".to_owned();
    push_decimal(&mut name, index as u64);
    name.append(".rgb565");
    path(name.as_str())
}

/// Path of the `i`-th downloaded (still encoded) radar tile.
pub fn tile_path(index: usize) -> (p: String)
    ensures
        p@ == card_path(tile_file(index as nat)),
{
    let mut name: String = "radar/tile_".to_owned();
    push_decimal(&mut name, index as u64);
    name.append(".png");
    path(name.as_str())
}

/// Different frames are in different files.
pub proof fn law_frames_have_files_of_their_own(i: nat, j: nat)
    requires
        frame_file(i) == frame_file(j),
    ensures
        i == j,
{
    let limit = if i < j {
        j
    } else {
        i
    };
    law_decimal_reads_back(i, limit);
    law_decimal_reads_back(j, limit);
    let head = "radar/frame_"@;
    let tail = ".rgb565"@;
    assert(frame_file(i).len() == head.len() + decimal(i).len() + tail.len());
    assert(frame_file(j).len() == head.len() + decimal(j).len() + tail.len());
    let n = decimal(i).len() as int;
    assert(frame_file(i).subrange(head.len() as int, head.len() + n) =~= decimal(i));
    assert(frame_file(j).subrange(head.len() as int, head.len() + n) =~= decimal(j));
}

/// Frames and tiles are in the card's radar directory, named by their numbers; no frame is in the
/// file of a tile.
pub proof fn law_files_are_named_by_number(i: nat, j: nat)
    ensures
        card_path(frame_file(i)) == "/sdcard/radar/frame_"@ + decimal(i) + ".rgb565"@,
        card_path(tile_file(j)) == "/sdcard/radar/tile_"@ + decimal(j) + ".png"@,
        frame_file(i) != tile_file(j),
{
    reveal_strlit("radar/frame_");
    reveal_strlit("radar/tile_");
    reveal_strlit("/sdcard/");
    reveal_strlit("/sdcard/radar/frame_");
    reveal_strlit("/sdcard/radar/tile_");
    let f = frame_file(i);
    let t = tile_file(j);
    assert(f[0] == 'r' && t[0] == 'r');
    assert(f[6] == "radar/frame_"@[6] && t[6] == "radar/tile_"@[6]);
    law_paths_stand_below_the_mount_point(f);
    law_paths_stand_below_the_mount_point(t);
    assert("/sdcard/"@ + "radar/frame_"@ =~= "/sdcard/radar/frame_"@);
    assert("/sdcard/"@ + "radar/tile_"@ =~= "/sdcard/radar/tile_"@);
    assert("/sdcard/"@ + f =~= "/sdcard/radar/frame_"@ + decimal(i) + ".rgb565"@);
    assert("/sdcard/"@ + t =~= "/sdcard/radar/tile_"@ + decimal(j) + ".png"@);
}

/// The most tiles that a frame is assembled from.
pub const TILES_PER_FRAME: usize = 4;

/// The file name of the `k`-th downloaded tile of the frame number `frame`.
pub open spec fn frame_tile_file(frame: nat, k: nat) -> Seq<char> {
    tile_file(frame * TILES_PER_FRAME as nat + k)
}

/// Path of the `k`-th downloaded tile of the frame number `frame`.
pub fn frame_tile_path(frame: usize, k: usize) -> (p: String)
    requires
        k < TILES_PER_FRAME,
        frame * TILES_PER_FRAME + k <= usize::MAX,
    ensures
        p@ == card_path(frame_tile_file(frame as nat, k as nat)),
{
    tile_path(frame * TILES_PER_FRAME + k)
}

/// Different tiles, of one frame or of several, are in different files.
pub proof fn law_tiles_have_files_of_their_own(f: nat, j: nat, g: nat, k: nat)
    requires
        j < TILES_PER_FRAME,
        k < TILES_PER_FRAME,
        frame_tile_file(f, j) == frame_tile_file(g, k),
    ensures
        f == g,
        j == k,
{
    let a = (f * TILES_PER_FRAME + j) as nat;
    let b = (g * TILES_PER_FRAME + k) as nat;
    let limit = if a < b {
        b
    } else {
        a
    };
    law_decimal_reads_back(a, limit);
    law_decimal_reads_back(b, limit);
    let head = "radar/tile_"@;
    let tail = ".png"@;
    assert(tile_file(a).len() == head.len() + decimal(a).len() + tail.len());
    assert(tile_file(b).len() == head.len() + decimal(b).len() + tail.len());
    let n = decimal(a).len() as int;
    assert(tile_file(a).subrange(head.len() as int, head.len() + n) =~= decimal(a));
    assert(tile_file(b).subrange(head.len() as int, head.len() + n) =~= decimal(b));
}

/// How many of the first entries hold, up to the first that does not.
pub open spec fn leading(present: Seq<bool>) -> nat
    decreases present.len(),
{
    if present.len() > 0 && present[0] {
        1 + leading(present.skip(1))
    } else {
        0
    }
}

/// Number of frames currently staged on the SD card: those from the first on that are there
/// without a gap. `present` says of each frame whether its file is there.
pub fn staged_frames(present: &Vec<bool>) -> (n: usize)
    ensures
        n == leading(present@),
        n <= present@.len(),
{
    let mut n: usize = 0;
    assert(present@.skip(0) =~= present@);
    while n < present.len() && present[n]
        invariant
            n <= present@.len(),
            leading(present@) == n + leading(present@.skip(n as int)),
        decreases present@.len() - n,
    {
        assert(present@.skip(n as int).skip(1) =~= present@.skip(n + 1));
        n = n + 1;
    }
    n
}

/// Every frame before the number of staged frames is there, and the next one is not.
pub proof fn law_staged_frames_are_there(present: Seq<bool>, i: int)
    requires
        0 <= i < present.len(),
    ensures
        i < leading(present) ==> present[i],
        i == leading(present) ==> !present[i],
        leading(present) <= present.len(),
    decreases present.len(),
{
    if present[0] && present.len() > 1 {
        let k = if i > 0 {
            i - 1
        } else {
            0
        };
        law_staged_frames_are_there(present.skip(1), k);
        assert(present.skip(1)[k] == present[k + 1]);
    } else {
        assert(present.len() == 1 ==> leading(present.skip(1)) == 0);
    }
}

/// How many of the outcomes are successes.
pub open spec fn successes(outcomes: Seq<bool>) -> nat
    decreases outcomes.len(),
{
    if outcomes.len() == 0 {
        0
    } else {
        successes(outcomes.drop_last()) + if outcomes.last() {
            1nat
        } else {
            0
        }
    }
}

/// What comes of the downloads: none that succeeded is an error.
pub open spec fn downloaded(outcomes: Seq<bool>) -> Result<usize, RadarError> {
    if successes(outcomes) == 0 {
        Err(RadarError::NoTiles)
    } else {
        Ok(successes(outcomes) as usize)
    }
}

/// What comes of the decoding: none that succeeded is an error.
pub open spec fn decoded(outcomes: Seq<bool>) -> Result<usize, RadarError> {
    if successes(outcomes) == 0 {
        Err(RadarError::NoneDecoded)
    } else {
        Ok(successes(outcomes) as usize)
    }
}

/// A success is counted and a failure is not. Downloading or decoding as a whole fails if and only
/// if nothing succeeded, and then says which of them it was; otherwise it gives the count.
pub proof fn law_successes_are_counted(outcomes: Seq<bool>)
    requires
        outcomes.len() <= usize::MAX,
    ensures
        successes(Seq::empty()) == 0,
        successes(outcomes.push(true)) == successes(outcomes) + 1,
        successes(outcomes.push(false)) == successes(outcomes),
        downloaded(outcomes) is Err <==> forall|i: int|
            0 <= i < outcomes.len() ==> !#[trigger] outcomes[i],
        decoded(outcomes) is Err <==> forall|i: int|
            0 <= i < outcomes.len() ==> !#[trigger] outcomes[i],
        downloaded(outcomes) matches Err(e) ==> e is NoTiles,
        decoded(outcomes) matches Err(e) ==> e is NoneDecoded,
        downloaded(outcomes) matches Ok(n) ==> n == successes(outcomes),
        decoded(outcomes) matches Ok(n) ==> n == successes(outcomes),
{
    assert(outcomes.push(true).drop_last() =~= outcomes);
    assert(outcomes.push(false).drop_last() =~= outcomes);
    lemma_successes(outcomes);
    lemma_none_succeeded(outcomes);
}

proof fn lemma_none_succeeded(outcomes: Seq<bool>)
    ensures
        successes(outcomes) == 0 <==> forall|i: int|
            0 <= i < outcomes.len() ==> !#[trigger] outcomes[i],
    decreases outcomes.len(),
{
    if outcomes.len() > 0 {
        let before = outcomes.drop_last();
        lemma_none_succeeded(before);
        if successes(outcomes) == 0 {
            assert forall|i: int| 0 <= i < outcomes.len() implies !#[trigger] outcomes[i] by {
                if i < before.len() {
                    assert(!before[i]);
                }
            }
        }
        if forall|i: int| 0 <= i < outcomes.len() ==> !#[trigger] outcomes[i] {
            assert forall|i: int| 0 <= i < before.len() implies !#[trigger] before[i] by {
                assert(!outcomes[i]);
            }
            assert(!outcomes[outcomes.len() - 1]);
        }
    }
}

/// The file names of the frames from a number on, up to the most there can be.
pub open spec fn stale_files(staged: nat) -> Seq<Seq<char>> {
    Seq::new(
        if staged < RADAR_FRAME_COUNT {
            (RADAR_FRAME_COUNT - staged) as nat
        } else {
            0
        },
        |i: int| frame_file((staged + i) as nat),
    )
}

/// What is stale are the frames of a longer run from the first that was not staged now, up to the
/// eighth; and none that was staged.
pub proof fn law_only_unstaged_frames_are_stale(staged: nat, i: nat)
    ensures
        stale_files(staged).contains(frame_file(i)) <==> staged <= i < 8,
{
    let files = stale_files(staged);
    if staged <= i < 8 {
        assert(files[i - staged] == frame_file(i));
    }
    if files.contains(frame_file(i)) {
        let k = files.index_of(frame_file(i));
        law_frames_have_files_of_their_own(i, (staged + k) as nat);
    }
}

/// Counts what has been staged: each success takes the next number, a failure leaves it free.
pub struct Staging {
    staged: usize,
    outcomes: Ghost<Seq<bool>>,
}

impl Staging {
    /// How it went so far.
    pub closed spec fn outcomes(&self) -> Seq<bool> {
        self.outcomes@
    }

    /// How many have been staged.
    pub closed spec fn staged(&self) -> nat {
        self.staged as nat
    }

    /// The count is that of the successes.
    pub open spec fn valid(&self) -> bool {
        self.staged() == successes(self.outcomes()) && self.outcomes().len() <= usize::MAX
    }

    /// Nothing staged yet.
    pub fn new() -> (s: Staging)
        ensures
            s.valid(),
            s.outcomes() == Seq::<bool>::empty(),
    {
        Staging { staged: 0, outcomes: Ghost(Seq::empty()) }
    }

    /// The number that the next success takes.
    pub fn next(&self) -> (n: usize)
        requires
            self.valid(),
        ensures
            n == successes(self.outcomes()),
    {
        self.staged
    }

    /// Note how one went.
    pub fn record(&mut self, ok: bool)
        requires
            old(self).valid(),
            old(self).outcomes().len() < usize::MAX,
        ensures
            final(self).valid(),
            final(self).outcomes() == old(self).outcomes().push(ok),
    {
        proof {
            lemma_successes(self.outcomes@);
            assert(self.outcomes@.push(ok).drop_last() =~= self.outcomes@);
        }
        if ok {
            self.staged = self.staged + 1;
        }
        self.outcomes = Ghost(self.outcomes@.push(ok));
    }

    /// How many tiles were downloaded; none at all is an error.
    pub fn download_tiles(&self) -> (r: Result<usize, RadarError>)
        requires
            self.valid(),
        ensures
            r == downloaded(self.outcomes()),
    {
        if self.staged == 0 {
            Err(RadarError::NoTiles)
        } else {
            Ok(self.staged)
        }
    }

    /// How many frames were decoded; none at all is an error.
    pub fn decode_tiles(&self) -> (r: Result<usize, RadarError>)
        requires
            self.valid(),
        ensures
            r == decoded(self.outcomes()),
    {
        if self.staged == 0 {
            Err(RadarError::NoneDecoded)
        } else {
            Ok(self.staged)
        }
    }

    /// The files of stale frames left over from a longer previous run.
    pub fn stale_frames(&self) -> (paths: Vec<String>)
        requires
            self.valid(),
        ensures
            paths@.len() == stale_files(self.staged()).len(),
            forall|i: int|
                0 <= i < paths@.len() ==> (#[trigger] paths@[i])@ == card_path(
                    stale_files(self.staged())[i],
                ),
    {
        let mut paths: Vec<String> = Vec::new();
        let mut i: usize = self.staged;
        while i < RADAR_FRAME_COUNT
            invariant
                self.staged <= i,
                i > self.staged ==> i <= RADAR_FRAME_COUNT,
                paths@.len() == i - self.staged,
                forall|j: int|
                    0 <= j < paths@.len() ==> (#[trigger] paths@[j])@ == card_path(
                        frame_file((self.staged + j) as nat),
                    ),
            decreases RADAR_FRAME_COUNT - i,
        {
            paths.push(frame_path(i));
            i = i + 1;
        }
        paths
    }
}

proof fn lemma_successes(outcomes: Seq<bool>)
    ensures
        successes(outcomes) <= outcomes.len(),
    decreases outcomes.len(),
{
    if outcomes.len() > 0 {
        lemma_successes(outcomes.drop_last());
    }
}

} // verus!
