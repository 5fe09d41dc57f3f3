//! Absolute playback deadlines of one song. Late packets are skipped, never sent in a burst.
use crate::music::{FrameCount, FRAME_MS};
use crate::playback::{self, FRAME_US};
use vstd::arithmetic::div_mod::*;
use vstd::prelude::*;

verus! {

#[derive(Debug, Clone, Copy, PartialEq, Eq, Structural)]
pub enum Action {
    Play,
    Pause,
    Restart,
}

#[derive(Debug, Clone, Copy, PartialEq, Eq, Structural)]
pub struct Due {
    pub index: u32,
    pub pts_ms: u32,
    pub paused: bool,
    pub spectrum: bool,
}

#[derive(Debug)]
pub struct Playback {
    frames: FrameCount,
    index: u32,
    elapsed: u64,
    next_us: u64,
    paused: bool,
    skipped: u64,
}

/// Where playback stands: the frame that comes next, and the clock of the transport.
pub struct PlaybackView {
    pub frames: int,
    pub index: int,
    pub elapsed: int,
    pub next_us: int,
    pub paused: bool,
    pub skipped: int,
}

impl View for Playback {
    type V = PlaybackView;

    closed spec fn view(&self) -> PlaybackView {
        PlaybackView {
            frames: self.frames@ as int,
            index: self.index as int,
            elapsed: self.elapsed as int,
            next_us: self.next_us as int,
            paused: self.paused,
            skipped: self.skipped as int,
        }
    }
}

/// What holds of playback at all times.
pub open spec fn valid(state: PlaybackView) -> bool {
    &&& 0 <= state.index < state.frames <= u32::MAX
    &&& 0 <= state.elapsed <= u64::MAX
    &&& 0 <= state.next_us <= u64::MAX
    &&& 0 <= state.skipped <= u64::MAX
}

/// The deadlines that passed unused before the one that `now` meets.
pub open spec fn late(state: PlaybackView, now: int) -> int {
    (now - state.next_us) / (FRAME_US as int)
}

/// Playback when it hands out the packet that is due at `now`.
pub open spec fn at_deadline(state: PlaybackView, now: int) -> PlaybackView {
    let missed = late(state, now);
    PlaybackView {
        elapsed: playback::wrap64(state.elapsed + missed),
        skipped: playback::clamp64(state.skipped + missed),
        next_us: playback::clamp64(state.next_us + (missed + 1) * FRAME_US),
        index: if state.paused { state.index } else { (state.index + missed) % state.frames },
        ..state
    }
}

/// The packet that playback hands out at a deadline.
pub open spec fn packet(state: PlaybackView) -> Due {
    Due {
        index: state.index as u32,
        pts_ms: playback::wrap32(state.elapsed * FRAME_MS) as u32,
        paused: state.paused,
        spectrum: state.elapsed % 2 == 0,
    }
}

/// Playback once a packet is handed out.
pub open spec fn handed_out(state: PlaybackView) -> PlaybackView {
    PlaybackView {
        elapsed: playback::wrap64(state.elapsed + 1),
        index: if state.paused { state.index } else { (state.index + 1) % state.frames },
        ..state
    }
}

/// What an action does to playback.
pub open spec fn applied(state: PlaybackView, action: Action) -> PlaybackView {
    match action {
        Action::Play => PlaybackView { paused: false, ..state },
        Action::Pause => PlaybackView { paused: true, ..state },
        Action::Restart => PlaybackView { index: 0, paused: false, ..state },
    }
}

/// The frame that lies `count` frames on, around the song as often as that takes.
fn moved(index: u32, count: u64, frames: u32) -> (place: u32)
    requires
        index < frames,
    ensures
        place == (index + count) % (frames as int),
        place < frames,
{
    proof {
        lemma_add_mod_noop_right(index as int, count as int, frames as int);
    }
    ((index as u64 + count % frames as u64) % frames as u64) as u32
}

impl Playback {
    #[verifier::type_invariant]
    pub(crate) open spec fn well_formed(self) -> bool {
        valid(self@)
    }

    pub fn new(frames: FrameCount, now_us: u64) -> (playback: Self)
        ensures
            playback@ == (PlaybackView {
                frames: frames@ as int,
                index: 0,
                elapsed: 0,
                next_us: now_us as int,
                paused: false,
                skipped: 0,
            }),
    {
        let count: u32 = frames.get();
        Playback { frames, index: 0, elapsed: 0, next_us: now_us, paused: false, skipped: 0 }
    }

    /// Returns at most one packet per call; `now_us` comes from a monotonic clock.
    pub fn due(&mut self, now_us: u64) -> (due: Option<Due>)
        ensures
            valid(old(self)@),
            valid(final(self)@),
            due is Some <==> now_us >= old(self)@.next_us,
            due is None ==> final(self)@ == old(self)@,
            due matches Some(due) ==> {
                &&& due == packet(at_deadline(old(self)@, now_us as int))
                &&& final(self)@ == handed_out(at_deadline(old(self)@, now_us as int))
            },
    {
        proof {
            use_type_invariant(&*self);
        }
        if now_us < self.next_us {
            return None;
        }
        let frames: u32 = self.frames.get();
        let missed: u64 = (now_us - self.next_us) / FRAME_US;
        let span: u64 = if missed + 1 > u64::MAX / FRAME_US {
            u64::MAX
        } else {
            (missed + 1) * FRAME_US
        };
        let ghost at = at_deadline(self@, now_us as int);
        let elapsed: u64 = self.elapsed.wrapping_add(missed);
        let index: u32 = if self.paused {
            self.index
        } else {
            moved(self.index, missed, frames)
        };
        let ticks: u64 = elapsed.wrapping_mul(FRAME_MS as u64);
        let due = Due {
            index,
            pts_ms: #[verifier::truncate] (ticks as u32),
            paused: self.paused,
            spectrum: elapsed % 2 == 0,
        };
        proof {
            playback::lemma_low_word(elapsed * FRAME_MS, ticks);
        }
        let next_index: u32 = if self.paused {
            index
        } else {
            moved(index, 1, frames)
        };
        *self = Playback {
            frames: self.frames,
            index: next_index,
            elapsed: elapsed.wrapping_add(1),
            next_us: self.next_us.saturating_add(span),
            paused: self.paused,
            skipped: self.skipped.saturating_add(missed),
        };
        Some(due)
    }

    pub fn apply(&mut self, action: Action)
        ensures
            final(self)@ == applied(old(self)@, action),
    {
        proof {
            use_type_invariant(&*self);
        }
        match action {
            Action::Play => {
                self.paused = false;
            },
            Action::Pause => {
                self.paused = true;
            },
            Action::Restart => {
                self.index = 0;
                self.paused = false;
            },
        }
    }

    pub fn paused(&self) -> (paused: bool)
        ensures
            paused == self@.paused,
    {
        self.paused
    }

    /// The position of the next frame.
    pub fn position_ms(&self) -> (position: u32)
        requires
            self@.index * FRAME_MS <= u32::MAX,
        ensures
            position == self@.index * FRAME_MS,
    {
        self.index * FRAME_MS
    }

    /// The duration of the song.
    pub fn duration_ms(&self) -> (duration: u32)
        requires
            self@.frames * FRAME_MS <= u32::MAX,
        ensures
            duration == self@.frames * FRAME_MS,
    {
        self.frames.get() * FRAME_MS
    }

    pub fn skipped_frames(&self) -> (skipped: u64)
        ensures
            skipped == self@.skipped,
    {
        self.skipped
    }
}

/// Late packets are never sent in a burst: once a packet is handed out at `now`, the next
/// deadline lies after `now`, at most one frame away.
pub proof fn lemma_no_burst(state: PlaybackView, now: int)
    requires
        valid(state),
        state.next_us <= now < u64::MAX,
    ensures
        now < handed_out(at_deadline(state, now)).next_us <= now + FRAME_US,
{
    lemma_fundamental_div_mod(now - state.next_us, FRAME_US as int);
}

/// A stall loses packets and nothing else: the packet handed out late is the one that would
/// have been handed out at that time had the first deadline been met.
pub proof fn lemma_stall_only_skips(state: PlaybackView, now: int)
    requires
        valid(state),
        state.next_us + FRAME_US <= now <= u64::MAX,
    ensures
        ({
            let met = handed_out(at_deadline(state, state.next_us));
            packet(at_deadline(state, now)) == packet(at_deadline(met, now))
        }),
{
    let missed = late(state, now);
    lemma_fundamental_div_mod(now - state.next_us, FRAME_US as int);
    lemma_small_mod(state.elapsed as nat, 0x1_0000_0000_0000_0000);
    lemma_small_mod(state.index as nat, state.frames as nat);
    lemma_add_mod_noop_right(missed - 1, state.elapsed + 1, 0x1_0000_0000_0000_0000);
    lemma_add_mod_noop_right(missed - 1, state.index + 1, state.frames);
    assert(late(state, state.next_us) == 0);
    let met = handed_out(at_deadline(state, state.next_us));
    assert(late(met, now) == missed - 1);
}

/// While paused, the position holds; no action touches the transport clock.
pub proof fn lemma_pause_and_actions(state: PlaybackView, now: int, action: Action)
    ensures
        state.paused ==> handed_out(at_deadline(state, now)).index == state.index,
        applied(state, action).elapsed == state.elapsed,
        applied(state, action).next_us == state.next_us,
        applied(state, action).skipped == state.skipped,
{
}

/// A packet names the frame at which playback stands, and carries its clock: 20 ms for each frame
/// since the start, and bands every other time.
pub proof fn lemma_a_packet_names_its_frame(state: PlaybackView)
    requires
        valid(state),
    ensures
        packet(state).index == state.index,
        packet(state).paused == state.paused,
        packet(state).pts_ms == (20 * state.elapsed) % 0x1_0000_0000,
        packet(state).spectrum <==> state.elapsed % 2 == 0,
{
}

/// A late deadline counts every 20 ms that passed as one frame, on the clock, among the frames
/// that were skipped and, unless paused, in the song, around it as often as that takes.
pub proof fn lemma_every_missed_deadline_is_counted(
    state: PlaybackView,
    now: int,
    laps: int,
    index: int,
)
    requires
        valid(state),
        state.next_us <= now <= u64::MAX,
        0 <= index < state.frames,
        state.index + (now - state.next_us) / 20_000 == laps * state.frames + index,
    ensures
        ({
            let at = at_deadline(state, now);
            let missed = (now - state.next_us) / 20_000;
            &&& at.elapsed == (state.elapsed + missed) % 0x1_0000_0000_0000_0000
            &&& at.skipped == if state.skipped + missed > u64::MAX {
                u64::MAX as int
            } else {
                state.skipped + missed
            }
            &&& at.next_us == if state.next_us + 20_000 * (missed + 1) > u64::MAX {
                u64::MAX as int
            } else {
                state.next_us + 20_000 * (missed + 1)
            }
            &&& at.index == if state.paused {
                state.index
            } else {
                index
            }
            &&& at.paused == state.paused
            &&& at.frames == state.frames
        }),
{
    lemma_fundamental_div_mod_converse(
        state.index + (now - state.next_us) / 20_000,
        state.frames,
        laps,
        index,
    );
}

/// Handing out a packet moves on by exactly one frame, from the last one to the first, and by none
/// while paused; the clock moves on by one frame either way.
pub proof fn lemma_handing_out_moves_on_by_one_frame(state: PlaybackView)
    requires
        valid(state),
    ensures
        ({
            let after = handed_out(state);
            &&& after.index == if state.paused {
                state.index
            } else if state.index + 1 == state.frames {
                0
            } else {
                state.index + 1
            }
            &&& after.elapsed == (state.elapsed + 1) % 0x1_0000_0000_0000_0000
            &&& after.frames == state.frames
            &&& after.next_us == state.next_us
            &&& after.skipped == state.skipped
            &&& after.paused == state.paused
        }),
{
    if state.index + 1 < state.frames {
        lemma_small_mod((state.index + 1) as nat, state.frames as nat);
    } else {
        lemma_mod_self_0(state.frames);
    }
}

/// Play and Pause keep the frame, and leave playback playing and paused; Restart plays from the
/// first frame.
pub proof fn lemma_actions_do_what_they_say(state: PlaybackView)
    ensures
        applied(state, Action::Play).index == state.index,
        !applied(state, Action::Play).paused,
        applied(state, Action::Pause).index == state.index,
        applied(state, Action::Pause).paused,
        applied(state, Action::Restart).index == 0,
        !applied(state, Action::Restart).paused,
        forall|action: Action| (#[trigger] applied(state, action)).frames == state.frames,
{
}

} // verus!
