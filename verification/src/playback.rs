//! Absolute playback deadlines. Late packets are skipped, never sent in a burst.
pub mod laws;

use crate::music::{FrameCount, FRAME_MS, MAX_TRACKS};
use crate::protocol::Action;
use vstd::arithmetic::div_mod::*;
use vstd::prelude::*;

verus! {

pub const FRAME_US: u64 = 20_000;

/// The packet that a deadline asks for.
#[derive(Debug, Clone, Copy, PartialEq, Eq, Structural)]
pub struct Due {
    pub epoch: u32,
    pub track_index: u32,
    pub revision: u32,
    pub index: u32,
    pub pts_ms: u32,
    pub paused: bool,
    pub spectrum: bool,
}

/// Where playback stands: the frames of each song, the current song and the frame that comes
/// next in it, and the clock of the transport. While `pending`, the last frame of the song has
/// been handed out and the next deadline moves on to the following song.
#[verifier::ext_equal]
pub struct PlaybackView {
    pub frames: Seq<int>,
    pub track: int,
    pub index: int,
    pub revision: int,
    pub epoch: int,
    pub elapsed: int,
    pub next_us: int,
    pub paused: bool,
    pub skipped: int,
    pub pending: bool,
}

/// A count that wraps around in 32 bits.
pub open spec fn wrap32(count: int) -> int {
    count % 0x1_0000_0000
}

/// A count that wraps around in 64 bits.
pub open spec fn wrap64(count: int) -> int {
    count % 0x1_0000_0000_0000_0000
}

/// A count that stops at the largest 64-bit number.
pub open spec fn clamp64(count: int) -> int {
    if count > u64::MAX {
        u64::MAX as int
    } else {
        count
    }
}

/// The frames of the first `tracks` songs together.
pub open spec fn before(frames: Seq<int>, tracks: int) -> int
    decreases tracks,
{
    if tracks <= 0 {
        0
    } else {
        before(frames, tracks - 1) + frames[tracks - 1]
    }
}

/// The frames of one pass over the playlist.
pub open spec fn total(frames: Seq<int>) -> int {
    before(frames, frames.len() as int)
}

/// The song that holds frame `position` of a pass over the playlist.
pub open spec fn track_at(frames: Seq<int>, position: int) -> int {
    choose|track: int|
        0 <= track < frames.len() && #[trigger] before(frames, track) <= position < before(
            frames,
            track + 1,
        )
}

/// The number of frames from the first song's start to the next frame.
pub open spec fn position(state: PlaybackView) -> int {
    before(state.frames, state.track) + state.index
}

/// How many songs begin while playback moves on by `count` frames.
#[verifier::opaque]
pub open spec fn changes(state: PlaybackView, count: int) -> int {
    let reached = position(state) + count;
    let size = total(state.frames);
    (reached / size) * state.frames.len() + track_at(state.frames, reached % size) - state.track
}

/// The song, and the frame in it, that playback reaches when it moves on by `count` frames.
#[verifier::opaque]
pub open spec fn reached(state: PlaybackView, count: int) -> (int, int) {
    let place = (position(state) + count) % total(state.frames);
    let track = track_at(state.frames, place);
    (track, place - before(state.frames, track))
}

/// Playback moved on by `count` frames, around the playlist as often as that takes.
pub open spec fn moved(state: PlaybackView, count: int) -> PlaybackView {
    PlaybackView {
        track: reached(state, count).0,
        index: reached(state, count).1,
        revision: wrap32(state.revision + changes(state, count)),
        epoch: wrap32(state.epoch + changes(state, count)),
        ..state
    }
}

/// Playback at the start of the following song.
pub open spec fn following(state: PlaybackView) -> PlaybackView {
    PlaybackView {
        track: (state.track + 1) % (state.frames.len() as int),
        index: 0,
        revision: wrap32(state.revision + 1),
        epoch: wrap32(state.epoch + 1),
        pending: false,
        ..state
    }
}

/// The deadlines that passed unused before the one that `now` meets.
pub open spec fn late(state: PlaybackView, now: int) -> int {
    (now - state.next_us) / (FRAME_US as int)
}

/// Playback when it hands out the packet that is due at `now`.
pub open spec fn at_deadline(state: PlaybackView, now: int) -> PlaybackView {
    let missed = late(state, now);
    let clocked = PlaybackView {
        elapsed: wrap64(state.elapsed + missed),
        skipped: clamp64(state.skipped + missed),
        next_us: clamp64(state.next_us + (missed + 1) * FRAME_US),
        ..state
    };
    if state.paused {
        clocked
    } else if state.pending {
        moved(following(clocked), missed)
    } else {
        moved(clocked, missed)
    }
}

/// The packet that playback hands out at a deadline.
pub open spec fn packet(state: PlaybackView) -> Due {
    Due {
        epoch: state.epoch as u32,
        track_index: state.track as u32,
        revision: state.revision as u32,
        index: state.index as u32,
        pts_ms: wrap32(state.elapsed * FRAME_MS) as u32,
        paused: state.paused,
        spectrum: state.elapsed % 2 == 0,
    }
}

/// Playback once a packet is handed out: the clock runs on, and unless paused the next frame
/// of the song comes up, or the end of the song is noted.
pub open spec fn handed_out(state: PlaybackView) -> PlaybackView {
    let ended = state.index + 1 == state.frames[state.track];
    PlaybackView {
        elapsed: wrap64(state.elapsed + 1),
        index: if state.paused || ended { state.index } else { state.index + 1 },
        pending: if !state.paused && ended { true } else { state.pending },
        ..state
    }
}

/// What an action does to playback.
pub open spec fn applied(state: PlaybackView, action: Action) -> PlaybackView {
    match action {
        Action::Play => if state.paused {
            PlaybackView { paused: false, epoch: wrap32(state.epoch + 1), ..state }
        } else {
            state
        },
        Action::Pause => if state.paused {
            state
        } else {
            PlaybackView { paused: true, epoch: wrap32(state.epoch + 1), ..state }
        },
        Action::Next => following(state),
        Action::Restart => PlaybackView {
            index: 0,
            revision: wrap32(state.revision + 1),
            epoch: wrap32(state.epoch + 1),
            paused: false,
            pending: false,
            ..state
        },
    }
}

/// Playback of a playlist from its start, with the first deadline at `now`.
pub open spec fn begun(frames: Seq<int>, now: int) -> PlaybackView {
    PlaybackView {
        frames,
        track: 0,
        index: 0,
        revision: 0,
        epoch: 0,
        elapsed: 0,
        next_us: now,
        paused: false,
        skipped: 0,
        pending: false,
    }
}

/// What holds of playback at all times.
pub open spec fn valid(state: PlaybackView) -> bool {
    &&& playable(state.frames)
    &&& 0 <= state.track < state.frames.len()
    &&& 0 <= state.index < state.frames[state.track]
    &&& 0 <= state.revision <= u32::MAX
    &&& 0 <= state.epoch <= u32::MAX
    &&& 0 <= state.elapsed <= u64::MAX
    &&& 0 <= state.next_us <= u64::MAX
    &&& 0 <= state.skipped <= u64::MAX
    &&& state.pending ==> state.index + 1 == state.frames[state.track]
}

/// A playlist within the limits: one to 32 songs, each with at least one frame.
pub open spec fn playable(frames: Seq<int>) -> bool {
    &&& 0 < frames.len() <= MAX_TRACKS
    &&& forall|i: int| 0 <= i < frames.len() ==> 0 < #[trigger] frames[i] <= u32::MAX
}

/// The frames of each song as numbers.
pub open spec fn counts(frames: Seq<FrameCount>) -> Seq<int> {
    frames.map_values(|count: FrameCount| count@ as int)
}

/// Everything about playback but the playlist.
#[derive(Debug, Clone, Copy)]
struct Cursor {
    track: usize,
    revision: u32,
    index: u32,
    elapsed: u64,
    next_us: u64,
    paused: bool,
    skipped: u64,
    epoch: u32,
    transition_pending: bool,
}

impl Cursor {
    fn start(now_us: u64) -> (cursor: Self)
        ensures
            forall|frames: Seq<FrameCount>| #[trigger]
                state_of(frames, cursor) == begun(counts(frames), now_us as int),
    {
        Cursor {
            track: 0,
            revision: 0,
            index: 0,
            elapsed: 0,
            next_us: now_us,
            paused: false,
            skipped: 0,
            epoch: 0,
            transition_pending: false,
        }
    }
}

#[derive(Debug)]
pub struct Playback {
    frames: Vec<FrameCount>,
    cursor: Cursor,
}

spec fn state_of(frames: Seq<FrameCount>, cursor: Cursor) -> PlaybackView {
    PlaybackView {
        frames: counts(frames),
        track: cursor.track as int,
        index: cursor.index as int,
        revision: cursor.revision as int,
        epoch: cursor.epoch as int,
        elapsed: cursor.elapsed as int,
        next_us: cursor.next_us as int,
        paused: cursor.paused,
        skipped: cursor.skipped as int,
        pending: cursor.transition_pending,
    }
}

impl View for Playback {
    type V = PlaybackView;

    closed spec fn view(&self) -> PlaybackView {
        state_of(self.frames@, self.cursor)
    }
}

/// A longer part of the playlist holds at least one more frame for each further song.
proof fn lemma_before_grows(frames: Seq<int>, low: int, high: int)
    requires
        playable(frames),
        0 <= low <= high <= frames.len(),
    ensures
        before(frames, low) + (high - low) <= before(frames, high),
    decreases high - low,
{
    if low < high {
        lemma_before_grows(frames, low, high - 1);
    }
}

/// Every place in a pass over the playlist lies in exactly one song.
proof fn lemma_track_at(frames: Seq<int>, place: int, track: int)
    requires
        playable(frames),
        0 <= track < frames.len(),
        before(frames, track) <= place < before(frames, track + 1),
    ensures
        track_at(frames, place) == track,
{
    let found = track_at(frames, place);
    assert(0 <= found < frames.len() && before(frames, found) <= place < before(frames, found + 1));
    if found < track {
        lemma_before_grows(frames, found + 1, track);
    } else if track < found {
        lemma_before_grows(frames, track + 1, found);
    }
}

/// Some song among the first `tracks` holds each place before their end.
proof fn lemma_track_exists(frames: Seq<int>, place: int, tracks: int) -> (track: int)
    requires
        playable(frames),
        0 <= tracks <= frames.len(),
        0 <= place < before(frames, tracks),
    ensures
        0 <= track < tracks,
        before(frames, track) <= place < before(frames, track + 1),
    decreases tracks,
{
    if place >= before(frames, tracks - 1) {
        tracks - 1
    } else {
        lemma_track_exists(frames, place, tracks - 1)
    }
}

/// A place in the playlist, given by its song, the frame in it and the passes made before it,
/// is where playback gets to.
proof fn lemma_moved(state: PlaybackView, count: int, track: int, index: int, laps: int)
    requires
        playable(state.frames),
        0 <= track < state.frames.len(),
        0 <= index < state.frames[track],
        position(state) + count == laps * total(state.frames) + before(state.frames, track) + index,
    ensures
        changes(state, count) == laps * state.frames.len() + track - state.track,
        moved(state, count) == (PlaybackView {
            track,
            index,
            revision: wrap32(state.revision + changes(state, count)),
            epoch: wrap32(state.epoch + changes(state, count)),
            ..state
        }),
{
    reveal(changes);
    reveal(reached);
    let frames = state.frames;
    let place = before(frames, track) + index;
    lemma_before_grows(frames, 0, track);
    lemma_before_grows(frames, track + 1, frames.len() as int);
    lemma_fundamental_div_mod_converse(position(state) + count, total(frames), laps, place);
    lemma_track_at(frames, place, track);
}

/// The low 32 bits of a number that was cut to 64 bits are those of the number.
pub(crate) proof fn lemma_low_word(number: int, low: u64)
    requires
        low == wrap64(number),
    ensures
        low as u32 == wrap32(number),
{
    assert(low as u32 == low % 0x1_0000_0000) by (bit_vector);
    lemma_fundamental_div_mod(number, 0x1_0000_0000_0000_0000);
    lemma_mod_multiples_vanish(
        0x1_0000_0000 * (number / 0x1_0000_0000_0000_0000),
        low as int,
        0x1_0000_0000,
    );
}

/// The frames of one pass over the playlist.
fn total_frames(frames: &Vec<FrameCount>) -> (sum: u64)
    requires
        playable(counts(frames@)),
    ensures
        sum == total(counts(frames@)),
        0 < sum,
{
    let mut sum: u64 = 0;
    let mut i: usize = 0;
    while i < frames.len()
        invariant
            playable(counts(frames@)),
            i <= frames@.len(),
            sum == before(counts(frames@), i as int),
            sum <= i * u32::MAX,
        decreases frames@.len() - i,
    {
        assert(counts(frames@)[i as int] == frames@[i as int]@);
        sum = sum + frames[i].get() as u64;
        i = i + 1;
    }
    proof {
        lemma_before_grows(counts(frames@), 0, frames@.len() as int);
    }
    sum
}

fn next_track(frames: &Vec<FrameCount>, cursor: Cursor) -> (next: Cursor)
    requires
        valid(state_of(frames@, cursor)),
    ensures
        state_of(frames@, next) == following(state_of(frames@, cursor)),
        valid(state_of(frames@, next)),
{
    let next = Cursor {
        track: (cursor.track + 1) % frames.len(),
        index: 0,
        epoch: cursor.epoch.wrapping_add(1),
        revision: cursor.revision.wrapping_add(1),
        transition_pending: false,
        ..cursor
    };
    assert(counts(frames@)[next.track as int] == frames@[next.track as int]@);
    next
}

fn advance(frames: &Vec<FrameCount>, cursor: Cursor, count: u64) -> (next: Cursor)
    requires
        valid(state_of(frames@, cursor)),
        !cursor.transition_pending,
    ensures
        state_of(frames@, next) == moved(state_of(frames@, cursor), count as int),
        valid(state_of(frames@, next)),
        !next.transition_pending,
{
    let ghost start = state_of(frames@, cursor);
    let ghost lengths = counts(frames@);
    let size: u64 = total_frames(frames);
    let cycles: u64 = count / size;
    let passes: u32 = #[verifier::truncate] (cycles as u32);
    let skipped: u32 = passes.wrapping_mul(frames.len() as u32);
    proof {
        assert(passes == cycles % 0x1_0000_0000) by (bit_vector)
            requires
                passes == cycles as u32,
        ;
        lemma_mul_mod_noop_left(cycles as int, frames@.len() as int, 0x1_0000_0000);
        assert(skipped == wrap32(cycles * frames@.len()));
        lemma_fundamental_div_mod(count as int, size as int);
    }
    let mut left: u64 = count % size;
    let mut next = Cursor {
        epoch: cursor.epoch.wrapping_add(skipped),
        revision: cursor.revision.wrapping_add(skipped),
        ..cursor
    };
    let ghost mut laps: int = cycles as int;
    assert(size * cycles == laps * size) by (nonlinear_arith)
        requires
            laps == cycles,
    ;
    assert(laps * frames@.len() == cycles * frames@.len());
    proof {
        lemma_add_mod_noop_right(start.epoch, cycles * frames@.len(), 0x1_0000_0000);
        lemma_add_mod_noop_right(start.revision, cycles * frames@.len(), 0x1_0000_0000);
    }
    while left >= (frames[next.track].get() - next.index) as u64
        invariant
            start == state_of(frames@, cursor),
            lengths == counts(frames@),
            valid(start),
            size == total(lengths),
            valid(state_of(frames@, next)),
            !next.transition_pending,
            next.elapsed == cursor.elapsed,
            next.next_us == cursor.next_us,
            next.paused == cursor.paused,
            next.skipped == cursor.skipped,
            next.epoch == wrap32(start.epoch + laps * frames@.len() + next.track - start.track),
            next.revision == wrap32(
                start.revision + laps * frames@.len() + next.track - start.track,
            ),
            position(start) + count == laps * size + position(state_of(frames@, next)) + left,
        decreases left,
    {
        assert(lengths[next.track as int] == frames@[next.track as int]@);
        let ghost songs = laps * frames@.len() + next.track - start.track;
        let ghost from = state_of(frames@, next);
        left = left - (frames[next.track].get() - next.index) as u64;
        next = next_track(frames, next);
        proof {
            lemma_add_mod_noop_right(1, start.epoch + songs, 0x1_0000_0000);
            lemma_add_mod_noop_right(1, start.revision + songs, 0x1_0000_0000);
            assert(next.epoch == wrap32(start.epoch + songs + 1));
            assert(next.revision == wrap32(start.revision + songs + 1));
            if from.track + 1 < frames@.len() {
                lemma_small_mod((from.track + 1) as nat, frames@.len());
            } else {
                lemma_mod_self_0(frames@.len() as int);
                assert((laps + 1) * frames@.len() == laps * frames@.len() + frames@.len())
                    by (nonlinear_arith);
                assert((laps + 1) * size == laps * size + size) by (nonlinear_arith);
                laps = laps + 1;
            }
            assert(laps * frames@.len() + next.track - start.track == songs + 1);
        }
    }
    assert(lengths[next.track as int] == frames@[next.track as int]@);
    proof {
        lemma_moved(start, count as int, next.track as int, next.index + left, laps);
    }
    Cursor { index: next.index + left as u32, ..next }
}

impl Playback {
    #[verifier::type_invariant]
    spec fn well_formed(self) -> bool {
        valid(self@)
    }

    pub fn new(frames: FrameCount, now_us: u64) -> (playback: Self)
        ensures
            valid(playback@),
            playback@ == begun(seq![frames@ as int], now_us as int),
    {
        let mut songs: Vec<FrameCount> = Vec::new();
        songs.push(frames);
        let count: u32 = frames.get();
        assert(counts(songs@) =~= seq![count as int]);
        Playback { frames: songs, cursor: Cursor::start(now_us) }
    }

    /// Playback of a whole playlist; `None` unless it has one to 32 songs.
    pub fn playlist(frames: Vec<FrameCount>, now_us: u64) -> (playback: Option<Self>)
        ensures
            playback is Some <==> 0 < frames@.len() <= MAX_TRACKS,
            playback matches Some(playback) ==> valid(playback@) && playback@ == begun(
                counts(frames@),
                now_us as int,
            ),
    {
        if frames.len() == 0 || frames.len() > MAX_TRACKS {
            return None;
        }
        let mut i: usize = 0;
        while i < frames.len()
            invariant
                i <= frames@.len(),
                forall|j: int| 0 <= j < i ==> 0 < #[trigger] counts(frames@)[j] <= u32::MAX,
            decreases frames@.len() - i,
        {
            let count: u32 = frames[i].get();
            assert(counts(frames@)[i as int] == count);
            i = i + 1;
        }
        Some(Playback { frames, cursor: Cursor::start(now_us) })
    }

    /// Returns at most one packet per call; `now_us` comes from a monotonic clock.
    pub fn due(&mut self, now_us: u64) -> (due: Option<Due>)
        ensures
            valid(old(self)@),
            valid(final(self)@),
            due is Some <==> now_us >= old(self)@.next_us,
            due is None ==> final(self)@ == old(self)@,
            due matches Some(due) ==> {
                &&& due == packet(at_deadline(old(self)@, now_us as int))
                &&& final(self)@ == handed_out(at_deadline(old(self)@, now_us as int))
            },
    {
        proof {
            use_type_invariant(&*self);
        }
        let cursor = self.cursor;
        let ghost before_due = self@;
        if now_us < cursor.next_us {
            return None;
        }
        let missed: u64 = (now_us - cursor.next_us) / FRAME_US;
        let span: u64 = if missed + 1 > u64::MAX / FRAME_US {
            u64::MAX
        } else {
            (missed + 1) * FRAME_US
        };
        let clocked = Cursor {
            elapsed: cursor.elapsed.wrapping_add(missed),
            skipped: cursor.skipped.saturating_add(missed),
            next_us: cursor.next_us.saturating_add(span),
            ..cursor
        };
        let reached = if clocked.paused {
            clocked
        } else if clocked.transition_pending {
            advance(&self.frames, next_track(&self.frames, clocked), missed)
        } else {
            advance(&self.frames, clocked, missed)
        };
        let ghost at = state_of(self.frames@, reached);
        assert(at == at_deadline(before_due, now_us as int));
        assert(valid(at));
        let ticks: u64 = reached.elapsed.wrapping_mul(FRAME_MS as u64);
        let due = Due {
            epoch: reached.epoch,
            track_index: reached.track as u32,
            revision: reached.revision,
            index: reached.index,
            pts_ms: #[verifier::truncate] (ticks as u32),
            paused: reached.paused,
            spectrum: reached.elapsed % 2 == 0,
        };
        proof {
            lemma_low_word(at.elapsed * FRAME_MS, ticks);
        }
        assert(counts(self.frames@)[reached.track as int] == self.frames@[reached.track as int]@);
        let ended: bool = reached.index + 1 == self.frames[reached.track].get();
        self.cursor = Cursor {
            elapsed: reached.elapsed.wrapping_add(1),
            index: if reached.paused || ended { reached.index } else { reached.index + 1 },
            transition_pending: if !reached.paused && ended {
                true
            } else {
                reached.transition_pending
            },
            ..reached
        };
        Some(due)
    }

    pub fn apply(&mut self, action: Action)
        ensures
            valid(old(self)@),
            valid(final(self)@),
            final(self)@ == applied(old(self)@, action),
    {
        proof {
            use_type_invariant(&*self);
        }
        let cursor = self.cursor;
        match action {
            Action::Play | Action::Pause => {
                let paused: bool = action == Action::Pause;
                self.cursor = Cursor {
                    epoch: if paused != cursor.paused {
                        cursor.epoch.wrapping_add(1)
                    } else {
                        cursor.epoch
                    },
                    paused,
                    ..cursor
                };
            },
            Action::Next => {
                self.cursor = next_track(&self.frames, cursor);
            },
            Action::Restart => {
                assert(counts(self.frames@)[cursor.track as int] > 0);
                self.cursor = Cursor {
                    transition_pending: false,
                    epoch: cursor.epoch.wrapping_add(1),
                    revision: cursor.revision.wrapping_add(1),
                    index: 0,
                    paused: false,
                    ..cursor
                };
            },
        }
    }

    pub fn paused(&self) -> (paused: bool)
        ensures
            paused == self@.paused,
    {
        self.cursor.paused
    }

    pub fn epoch(&self) -> (epoch: u32)
        ensures
            epoch == self@.epoch,
    {
        self.cursor.epoch
    }

    pub fn skipped_frames(&self) -> (skipped: u64)
        ensures
            skipped == self@.skipped,
    {
        self.cursor.skipped
    }
}

} // verus!
