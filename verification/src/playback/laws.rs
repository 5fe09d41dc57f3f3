//! What holds of playback over several deadlines and actions.
use crate::music::FrameCount;
use crate::playback::{self, PlaybackView, FRAME_US};
use crate::protocol::Action;
use vstd::arithmetic::div_mod::*;
use vstd::prelude::*;

verus! {

/// The song, frame and pass that moving on by `count` frames leads to.
proof fn lemma_place(state: PlaybackView, count: int) -> (place: (int, int, int))
    requires
        playback::valid(state),
        0 <= count,
    ensures
        0 <= place.0 < state.frames.len(),
        0 <= place.1 < state.frames[place.0],
        0 <= place.2,
        playback::position(state) + count == place.2 * playback::total(state.frames)
            + playback::before(state.frames, place.0) + place.1,
        playback::changes(state, count) == place.2 * state.frames.len() + place.0 - state.track,
        playback::moved(state, count) == (PlaybackView {
            track: place.0,
            index: place.1,
            revision: playback::wrap32(state.revision + playback::changes(state, count)),
            epoch: playback::wrap32(state.epoch + playback::changes(state, count)),
            ..state
        }),
{
    let frames = state.frames;
    let reached = playback::position(state) + count;
    playback::lemma_before_grows(frames, 0, state.track);
    playback::lemma_before_grows(frames, 0, frames.len() as int);
    lemma_fundamental_div_mod(reached, playback::total(frames));
    lemma_div_pos_is_pos(reached, playback::total(frames));
    let laps = reached / playback::total(frames);
    let inside = reached % playback::total(frames);
    assert(playback::total(frames) * laps == laps * playback::total(frames)) by (nonlinear_arith);
    let track = playback::lemma_track_exists(frames, inside, frames.len() as int);
    let index = inside - playback::before(frames, track);
    playback::lemma_moved(state, count, track, index, laps);
    (track, index, laps)
}

/// Moving on leaves playback valid.
proof fn lemma_moved_is_valid(state: PlaybackView, count: int)
    requires
        playback::valid(state),
        !state.pending,
        0 <= count,
    ensures
        playback::valid(playback::moved(state, count)),
{
    let place = lemma_place(state, count);
}

/// Playback stays valid: a deadline, handing out its packet and every action keep the song
/// and the frame inside the playlist.
pub proof fn lemma_playback_stays_valid(state: PlaybackView, now: int, action: Action)
    requires
        playback::valid(state),
        state.next_us <= now <= u64::MAX,
    ensures
        playback::valid(playback::at_deadline(state, now)),
        playback::valid(playback::handed_out(playback::at_deadline(state, now))),
        playback::valid(playback::applied(state, action)),
{
    let missed = playback::late(state, now);
    let clocked = PlaybackView {
        elapsed: playback::wrap64(state.elapsed + missed),
        skipped: playback::clamp64(state.skipped + missed),
        next_us: playback::clamp64(state.next_us + (missed + 1) * FRAME_US),
        ..state
    };
    lemma_mod_bound(state.track + 1, state.frames.len() as int);
    assert(playback::valid(playback::following(clocked)));
    if !state.paused {
        if state.pending {
            lemma_moved_is_valid(playback::following(clocked), missed);
        } else {
            lemma_moved_is_valid(clocked, missed);
        }
    }
}

/// The packet of every deadline names a song of the playlist and a frame inside that song.
pub proof fn lemma_packet_lies_in_the_playlist(state: PlaybackView, now: int)
    requires
        playback::valid(state),
        state.next_us <= now <= u64::MAX,
    ensures
        ({
            let due = playback::packet(playback::at_deadline(state, now));
            &&& due.track_index < state.frames.len()
            &&& due.index < state.frames[due.track_index as int]
        }),
{
    lemma_playback_stays_valid(state, now, Action::Play);
}

/// Late packets are never sent in a burst: once a packet is handed out at `now`, the next
/// deadline lies after `now`, at most one frame away, and on the same grid of frames.
pub proof fn lemma_no_burst(state: PlaybackView, now: int)
    requires
        playback::valid(state),
        state.next_us <= now < u64::MAX,
    ensures
        ({
            let after = playback::handed_out(playback::at_deadline(state, now));
            &&& now < after.next_us <= now + FRAME_US
            &&& after.next_us < u64::MAX ==> (after.next_us - state.next_us) % (FRAME_US as int)
                == 0
        }),
{
    let missed = playback::late(state, now);
    lemma_fundamental_div_mod(now - state.next_us, FRAME_US as int);
    lemma_mod_multiples_basic(missed + 1, FRAME_US as int);
    assert(playback::handed_out(playback::at_deadline(state, now)).next_us == playback::clamp64(
        state.next_us + (missed + 1) * FRAME_US,
    ));
}

/// Moving on by some frames and then by more is moving on by all of them.
pub proof fn lemma_moving_adds_up(state: PlaybackView, first: int, second: int)
    requires
        playback::valid(state),
        !state.pending,
        0 <= first,
        0 <= second,
    ensures
        playback::moved(playback::moved(state, first), second) == playback::moved(
            state,
            first + second,
        ),
        playback::changes(state, first + second) == playback::changes(state, first)
            + playback::changes(playback::moved(state, first), second),
{
    let a = lemma_place(state, first);
    let middle = playback::moved(state, first);
    lemma_moved_is_valid(state, first);
    let b = lemma_place(middle, second);
    let size = playback::total(state.frames);
    assert((a.2 + b.2) * size == a.2 * size + b.2 * size) by (nonlinear_arith);
    assert((a.2 + b.2) * state.frames.len() == a.2 * state.frames.len() + b.2 * state.frames.len())
        by (nonlinear_arith);
    playback::lemma_moved(state, first + second, b.0, b.1, a.2 + b.2);
    let x = playback::changes(state, first);
    let y = playback::changes(middle, second);
    lemma_add_mod_noop_right(y, state.revision + x, 0x1_0000_0000);
    lemma_add_mod_noop_right(y, state.epoch + x, 0x1_0000_0000);
}

/// Moving on by no frame changes nothing.
proof fn lemma_moving_by_nothing(state: PlaybackView)
    requires
        playback::valid(state),
    ensures
        playback::moved(state, 0) == state,
        playback::changes(state, 0) == 0,
{
    assert(0 * playback::total(state.frames) == 0) by (nonlinear_arith);
    assert(0 * state.frames.len() == 0) by (nonlinear_arith);
    playback::lemma_moved(state, 0, state.track, state.index, 0);
    lemma_small_mod(state.revision as nat, 0x1_0000_0000);
    lemma_small_mod(state.epoch as nat, 0x1_0000_0000);
}

/// From the last frame of a song the next frame is the first of the following song.
proof fn lemma_moving_past_the_end(state: PlaybackView)
    requires
        playback::valid(state),
        state.index + 1 == state.frames[state.track],
        !state.pending,
    ensures
        playback::moved(state, 1) == playback::following(state),
        playback::changes(state, 1) == 1,
{
    let size = playback::total(state.frames);
    let len = state.frames.len() as int;
    if state.track + 1 < len {
        lemma_small_mod((state.track + 1) as nat, len as nat);
        assert(0 * size == 0) by (nonlinear_arith);
        assert(0 * len == 0) by (nonlinear_arith);
        playback::lemma_moved(state, 1, state.track + 1, 0, 0);
    } else {
        lemma_mod_self_0(len);
        assert(1 * size == size) by (nonlinear_arith);
        assert(1 * len == len) by (nonlinear_arith);
        assert(playback::before(state.frames, 0) == 0);
        playback::lemma_moved(state, 1, 0, 0, 1);
    }
}

/// Inside a song the next frame is the one after.
proof fn lemma_moving_inside(state: PlaybackView)
    requires
        playback::valid(state),
        state.index + 1 < state.frames[state.track],
    ensures
        playback::moved(state, 1) == (PlaybackView { index: state.index + 1, ..state }),
        playback::changes(state, 1) == 0,
{
    assert(0 * playback::total(state.frames) == 0) by (nonlinear_arith);
    assert(0 * state.frames.len() == 0) by (nonlinear_arith);
    playback::lemma_moved(state, 1, state.track, state.index + 1, 0);
    lemma_small_mod(state.revision as nat, 0x1_0000_0000);
    lemma_small_mod(state.epoch as nat, 0x1_0000_0000);
}

/// Moving on does not look at the clock.
proof fn lemma_moving_ignores_the_clock(
    state: PlaybackView,
    count: int,
    elapsed: int,
    skipped: int,
    next_us: int,
)
    ensures
        playback::moved(PlaybackView { elapsed, skipped, next_us, ..state }, count) == (
        PlaybackView { elapsed, skipped, next_us, ..playback::moved(state, count) }),
        playback::changes(PlaybackView { elapsed, skipped, next_us, ..state }, count)
            == playback::changes(state, count),
{
    reveal(playback::changes);
    reveal(playback::reached);
}

/// A stall loses packets and nothing else: the packet handed out late is the one that would
/// have been handed out at that time had the first deadline been met, and the same holds of
/// where playback then stands, but for the count of skipped frames.
pub proof fn lemma_stall_only_skips(state: PlaybackView, now: int)
    requires
        playback::valid(state),
        state.next_us + FRAME_US <= now <= u64::MAX,
    ensures
        ({
            let met = playback::handed_out(playback::at_deadline(state, state.next_us));
            let stalled = playback::at_deadline(state, now);
            &&& met.next_us <= now
            &&& playback::packet(stalled) == playback::packet(playback::at_deadline(met, now))
            &&& stalled == (PlaybackView {
                skipped: stalled.skipped,
                ..playback::at_deadline(met, now)
            })
            &&& stalled.skipped == playback::clamp64(state.skipped + playback::late(state, now))
            &&& playback::at_deadline(met, now).skipped == playback::clamp64(
                state.skipped + playback::late(state, now) - 1,
            )
        }),
{
    let missed = playback::late(state, now);
    let first = playback::at_deadline(state, state.next_us);
    let met = playback::handed_out(first);
    let stalled = playback::at_deadline(state, now);
    let later = playback::at_deadline(met, now);
    lemma_fundamental_div_mod(now - state.next_us, FRAME_US as int);
    lemma_playback_stays_valid(state, state.next_us, Action::Play);
    assert(playback::late(state, state.next_us) == 0);
    assert(met.next_us == state.next_us + FRAME_US);
    assert(playback::late(met, now) == missed - 1);
    lemma_small_mod(state.elapsed as nat, 0x1_0000_0000_0000_0000);
    lemma_add_mod_noop_right(missed - 1, state.elapsed + 1, 0x1_0000_0000_0000_0000);
    assert(later.elapsed == stalled.elapsed);
    assert(later.next_us == stalled.next_us);
    if !state.paused {
        let base = PlaybackView {
            elapsed: stalled.elapsed,
            skipped: state.skipped,
            next_us: stalled.next_us,
            ..if state.pending {
                playback::following(state)
            } else {
                state
            }
        };
        lemma_playback_stays_valid(state, now, Action::Next);
        assert(playback::valid(base));
        lemma_moving_by_nothing(base);
        lemma_moving_adds_up(base, 1, missed - 1);
        lemma_moving_ignores_the_clock(base, missed, stalled.elapsed, stalled.skipped, stalled.next_us);
        lemma_moving_ignores_the_clock(base, 0, first.elapsed, first.skipped, first.next_us);
        assert(stalled == (PlaybackView {
            skipped: stalled.skipped,
            ..playback::moved(base, missed)
        }));
        assert(first == (PlaybackView {
            elapsed: first.elapsed,
            next_us: first.next_us,
            ..base
        }));
        if base.index + 1 == base.frames[base.track] {
            lemma_moving_past_the_end(base);
            lemma_moving_ignores_the_clock(
                playback::following(base),
                missed - 1,
                later.elapsed,
                later.skipped,
                later.next_us,
            );
        } else {
            lemma_moving_inside(base);
            lemma_moving_ignores_the_clock(
                PlaybackView { index: base.index + 1, ..base },
                missed - 1,
                later.elapsed,
                later.skipped,
                later.next_us,
            );
        }
    }
}

/// While paused, deadlines hold the position, the revision and the epoch; only the clock
/// runs on, by one frame for each deadline that passed.
pub proof fn lemma_pause_holds_the_position(state: PlaybackView, now: int)
    requires
        playback::valid(state),
        state.paused,
        state.next_us <= now <= u64::MAX,
    ensures
        ({
            let after = playback::handed_out(playback::at_deadline(state, now));
            after == (PlaybackView {
                elapsed: playback::wrap64(state.elapsed + playback::late(state, now) + 1),
                skipped: after.skipped,
                next_us: after.next_us,
                ..state
            })
        }),
        playback::packet(playback::at_deadline(state, now)).paused,
{
    lemma_add_mod_noop_right(1, state.elapsed + playback::late(state, now), 0x1_0000_0000_0000_0000);
}

/// No action touches the transport clock, the deadline or the count of skipped frames.
pub proof fn lemma_actions_keep_the_clock(state: PlaybackView, action: Action)
    ensures
        ({
            let after = playback::applied(state, action);
            &&& after.elapsed == state.elapsed
            &&& after.next_us == state.next_us
            &&& after.skipped == state.skipped
            &&& after.frames == state.frames
        }),
{
}

/// Restart begins the current song and resumes playback.
pub proof fn lemma_restart_begins_the_song_and_plays(state: PlaybackView)
    requires
        playback::valid(state),
    ensures
        ({
            let after = playback::applied(state, Action::Restart);
            &&& after.track == state.track
            &&& after.index == 0
            &&& !after.paused
            &&& !after.pending
        }),
{
}

/// Next begins the following song, after the last the first, and preserves pause.
pub proof fn lemma_next_begins_the_following_song_and_keeps_pause(state: PlaybackView)
    requires
        playback::valid(state),
    ensures
        ({
            let after = playback::applied(state, Action::Next);
            &&& after.track == if state.track + 1 == state.frames.len() {
                0
            } else {
                state.track + 1
            }
            &&& after.index == 0
            &&& after.paused == state.paused
            &&& !after.pending
        }),
{
    if state.track + 1 < state.frames.len() {
        lemma_small_mod((state.track + 1) as nat, state.frames.len());
    } else {
        lemma_mod_self_0(state.frames.len() as int);
    }
}

/// To pause or to play a second time in a row changes nothing.
pub proof fn lemma_play_and_pause_repeat_without_effect(state: PlaybackView)
    ensures
        playback::applied(playback::applied(state, Action::Pause), Action::Pause)
            == playback::applied(state, Action::Pause),
        playback::applied(playback::applied(state, Action::Play), Action::Play)
            == playback::applied(state, Action::Play),
{
}

/// An action that changes anything changes the epoch.
pub proof fn lemma_actions_that_change_playback_change_the_epoch(
    state: PlaybackView,
    action: Action,
)
    requires
        playback::valid(state),
    ensures
        playback::applied(state, action) == state || playback::applied(state, action).epoch
            != state.epoch,
{
}

/// Fewer songs begin than frames are passed.
proof fn lemma_changes_are_few(state: PlaybackView, count: int)
    requires
        playback::valid(state),
        0 <= count,
    ensures
        0 <= playback::changes(state, count) <= count,
{
    let place = lemma_place(state, count);
    let (track, index, laps) = place;
    let frames = state.frames;
    let len = frames.len() as int;
    let size = playback::total(frames);
    playback::lemma_before_grows(frames, 0, len);
    playback::lemma_before_grows(frames, 0, track);
    playback::lemma_before_grows(frames, track + 1, len);
    playback::lemma_before_grows(frames, state.track + 1, len);
    playback::lemma_before_grows(frames, 0, state.track);
    assert(laps >= 1 ==> (laps - 1) * size >= (laps - 1) * len && (laps - 1) * len >= 0)
        by (nonlinear_arith)
        requires
            size >= len,
            len >= 0,
    ;
    assert((laps - 1) * size == laps * size - size) by (nonlinear_arith);
    assert((laps - 1) * len == laps * len - len) by (nonlinear_arith);
    assert(0 * size == 0 && 0 * len == 0) by (nonlinear_arith);
    if laps == 0 {
        if track < state.track {
            playback::lemma_before_grows(frames, track + 1, state.track);
        } else if state.track < track {
            playback::lemma_before_grows(frames, state.track + 1, track);
        }
    } else {
        if state.track < track {
            playback::lemma_before_grows(frames, state.track + 1, track);
        } else {
            playback::lemma_before_grows(frames, track, state.track);
        }
    }
}

/// A deadline after a stall of less than 2^32 - 1 frames keeps the epoch only where no song
/// began: the song and the revision are then the same as before.
pub proof fn lemma_an_unchanged_epoch_means_the_same_song(state: PlaybackView, now: int)
    requires
        playback::valid(state),
        state.next_us <= now <= u64::MAX,
        playback::late(state, now) < 0xffff_ffff,
        playback::at_deadline(state, now).epoch == state.epoch,
    ensures
        ({
            let after = playback::at_deadline(state, now);
            &&& after.track == state.track
            &&& after.revision == state.revision
            &&& after.paused == state.paused
            &&& state.index <= after.index
        }),
{
    let missed = playback::late(state, now);
    if !state.paused {
        let clocked = PlaybackView {
            elapsed: playback::wrap64(state.elapsed + missed),
            skipped: playback::clamp64(state.skipped + missed),
            next_us: playback::clamp64(state.next_us + (missed + 1) * FRAME_US),
            ..state
        };
        lemma_playback_stays_valid(state, now, Action::Next);
        if state.pending {
            let next = playback::following(clocked);
            lemma_mod_bound(state.track + 1, state.frames.len() as int);
            assert(playback::valid(next));
            lemma_changes_are_few(next, missed);
            let songs = playback::changes(next, missed);
            lemma_add_mod_noop_right(songs, state.epoch + 1, 0x1_0000_0000);
            lemma_wrap32_moves(state.epoch, songs + 1);
        } else {
            lemma_changes_are_few(clocked, missed);
            let songs = playback::changes(clocked, missed);
            lemma_wrap32_moves(state.epoch, songs);
            let place = lemma_place(clocked, missed);
            lemma_same_song(clocked, place.0, place.2);
            assert(0 * playback::total(state.frames) == 0) by (nonlinear_arith);
            lemma_small_mod(state.revision as nat, 0x1_0000_0000);
        }
    }
}

/// How many songs begin when playback hands out the packet that is due at `now`.
pub open spec fn songs_begun(state: PlaybackView, now: int) -> int {
    let missed = playback::late(state, now);
    if state.paused {
        0
    } else if state.pending {
        1 + playback::changes(playback::following(state), missed)
    } else {
        playback::changes(state, missed)
    }
}

/// The revision counts the songs that begin, and without one the song stays.
pub proof fn lemma_the_revision_counts_songs(state: PlaybackView, now: int)
    requires
        playback::valid(state),
        state.next_us <= now <= u64::MAX,
    ensures
        0 <= songs_begun(state, now),
        playback::at_deadline(state, now).frames == state.frames,
        playback::at_deadline(state, now).revision == playback::wrap32(
            state.revision + songs_begun(state, now),
        ),
        songs_begun(state, now) == 0 ==> playback::at_deadline(state, now).track == state.track,
{
    let missed = playback::late(state, now);
    if !state.paused {
        let clocked = PlaybackView {
            elapsed: playback::wrap64(state.elapsed + missed),
            skipped: playback::clamp64(state.skipped + missed),
            next_us: playback::clamp64(state.next_us + (missed + 1) * FRAME_US),
            ..state
        };
        lemma_moving_ignores_the_clock(
            if state.pending {
                playback::following(state)
            } else {
                state
            },
            missed,
            clocked.elapsed,
            clocked.skipped,
            clocked.next_us,
        );
        if state.pending {
            let next = playback::following(clocked);
            lemma_mod_bound(state.track + 1, state.frames.len() as int);
            assert(playback::valid(next));
            lemma_changes_are_few(next, missed);
            lemma_add_mod_noop_right(
                playback::changes(next, missed),
                state.revision + 1,
                0x1_0000_0000,
            );
        } else {
            lemma_changes_are_few(clocked, missed);
            if playback::changes(clocked, missed) == 0 {
                let place = lemma_place(clocked, missed);
                lemma_same_song(clocked, place.0, place.2);
            }
        }
    }
}

/// A wrapped count moved on by less than a full turn comes back to itself only where it did
/// not move.
proof fn lemma_wrap32_moves(count: int, step: int)
    requires
        0 <= count <= u32::MAX,
        0 <= step <= u32::MAX,
    ensures
        playback::wrap32(count + step) == count <==> step == 0,
{
}

/// Where no song begins, the song stays.
proof fn lemma_same_song(state: PlaybackView, track: int, laps: int)
    requires
        playback::valid(state),
        0 <= track < state.frames.len(),
        0 <= laps,
        laps * state.frames.len() + track - state.track == 0,
    ensures
        track == state.track,
        laps == 0,
{
    let len = state.frames.len() as int;
    assert(laps >= 1 ==> laps * len >= len) by (nonlinear_arith)
        requires
            len >= 0,
    ;
    assert(0 * len == 0) by (nonlinear_arith);
}

/// After the last frame of a song, playback that is not paused begins the following song at
/// its first frame when the next deadline is met.
pub proof fn lemma_transition_commits_at_the_next_deadline(state: PlaybackView)
    requires
        playback::valid(state),
        state.pending,
        !state.paused,
    ensures
        ({
            let after = playback::at_deadline(state, state.next_us);
            &&& after.track == (state.track + 1) % (state.frames.len() as int)
            &&& after.index == 0
            &&& after.revision == playback::wrap32(state.revision + 1)
            &&& !after.pending
        }),
{
    let clocked = PlaybackView {
        elapsed: playback::wrap64(state.elapsed),
        skipped: playback::clamp64(state.skipped),
        next_us: playback::clamp64(state.next_us + FRAME_US),
        ..state
    };
    lemma_mod_bound(state.track + 1, state.frames.len() as int);
    assert(playback::late(state, state.next_us) == 0);
    assert(playback::valid(playback::following(clocked)));
    lemma_moving_by_nothing(playback::following(clocked));
}

/// A packet names the song and the frame at which playback stands when it hands it out, and
/// carries its clock: 20 ms for each frame since the start, and a spectrum every other time.
pub proof fn lemma_a_packet_names_its_place(state: PlaybackView)
    requires
        playback::valid(state),
    ensures
        ({
            let due = playback::packet(state);
            &&& due.track_index == state.track
            &&& due.index == state.index
            &&& due.revision == state.revision
            &&& due.epoch == state.epoch
            &&& due.paused == state.paused
            &&& due.pts_ms == (20 * state.elapsed) % 0x1_0000_0000
            &&& due.spectrum <==> state.elapsed % 2 == 0
        }),
{
}

/// Playback begins with the first frame of the first song, at its first deadline, at time zero.
pub proof fn lemma_playback_begins_at_the_beginning(frames: Seq<int>, start: int)
    ensures
        ({
            let state = playback::begun(frames, start);
            &&& state.frames == frames
            &&& state.next_us == start
            &&& state.track == 0 && state.index == 0
            &&& state.revision == 0 && state.epoch == 0
            &&& state.elapsed == 0 && state.skipped == 0
            &&& !state.paused && !state.pending
        }),
{
}

/// A deadline that is met hands out the frame that playback stands at, or, once the last frame of
/// a song has been handed out, the first frame of the following song, after the last song that
/// of the first. Only a new song counts up the revision and the epoch; the clock stands still,
/// and the next deadline is 20 ms later.
pub proof fn lemma_a_met_deadline_hands_out_the_next_frame(state: PlaybackView)
    requires
        playback::valid(state),
        !state.paused,
    ensures
        ({
            let at = playback::at_deadline(state, state.next_us);
            let len = state.frames.len();
            &&& at.frames == state.frames
            &&& at.track == if !state.pending {
                state.track
            } else if state.track + 1 == len {
                0
            } else {
                state.track + 1
            }
            &&& at.index == if state.pending {
                0
            } else {
                state.index
            }
            &&& at.revision == (state.revision + if state.pending {
                1int
            } else {
                0
            }) % 0x1_0000_0000
            &&& at.epoch == (state.epoch + if state.pending {
                1int
            } else {
                0
            }) % 0x1_0000_0000
            &&& at.elapsed == state.elapsed
            &&& at.skipped == state.skipped
            &&& at.next_us == if state.next_us + 20_000 > u64::MAX {
                u64::MAX as int
            } else {
                state.next_us + 20_000
            }
            &&& !at.paused && !at.pending
        }),
{
    let clocked = PlaybackView {
        next_us: playback::clamp64(state.next_us + FRAME_US),
        ..state
    };
    assert(playback::late(state, state.next_us) == 0);
    lemma_small_mod(state.elapsed as nat, 0x1_0000_0000_0000_0000);
    lemma_small_mod(state.revision as nat, 0x1_0000_0000);
    lemma_small_mod(state.epoch as nat, 0x1_0000_0000);
    lemma_next_begins_the_following_song_and_keeps_pause(state);
    lemma_mod_bound(state.track + 1, state.frames.len() as int);
    assert(PlaybackView {
        elapsed: playback::wrap64(state.elapsed + 0),
        skipped: playback::clamp64(state.skipped + 0),
        next_us: playback::clamp64(state.next_us + (0 + 1) * FRAME_US),
        ..state
    } == clocked);
    if state.pending {
        assert(playback::valid(playback::following(clocked)));
        lemma_moving_by_nothing(playback::following(clocked));
    } else {
        lemma_moving_by_nothing(clocked);
    }
}

/// Handing out a packet moves on by exactly one frame: to the next one of the song, or, from the
/// last one, to the end of the song. While paused it moves on by none. The clock moves on by one
/// frame either way, and nothing else changes.
pub proof fn lemma_handing_out_moves_on_by_one_frame(state: PlaybackView)
    requires
        playback::valid(state),
    ensures
        ({
            let after = playback::handed_out(state);
            let more = state.index + 1 < state.frames[state.track];
            &&& after.index == if !state.paused && more {
                state.index + 1
            } else {
                state.index
            }
            &&& after.pending == (state.pending || (!state.paused && !more))
            &&& after.elapsed == (state.elapsed + 1) % 0x1_0000_0000_0000_0000
            &&& after.frames == state.frames
            &&& after.track == state.track
            &&& after.revision == state.revision
            &&& after.epoch == state.epoch
            &&& after.next_us == state.next_us
            &&& after.skipped == state.skipped
            &&& after.paused == state.paused
        }),
{
}

/// Of two deadlines met one after the other, the second packet is the one after the first: the
/// next frame of the same song, or the first frame of the following song after the last frame of
/// the one before. Its timestamp is 20 ms later, and one of the two carries a spectrum.
pub proof fn lemma_one_frame_follows_another(state: PlaybackView)
    requires
        playback::valid(state),
        !state.paused,
        state.next_us + 20_000 <= u64::MAX,
    ensures
        ({
            let at = playback::at_deadline(state, state.next_us);
            let after = playback::handed_out(at);
            let first = playback::packet(at);
            let second = playback::packet(playback::at_deadline(after, after.next_us));
            let last = first.index + 1 == state.frames[first.track_index as int];
            &&& after.next_us == state.next_us + 20_000
            &&& !last ==> {
                &&& second.track_index == first.track_index
                &&& second.index == first.index + 1
                &&& second.revision == first.revision
                &&& second.epoch == first.epoch
            }
            &&& last ==> {
                &&& second.track_index == if first.track_index + 1 == state.frames.len() {
                    0
                } else {
                    first.track_index + 1
                }
                &&& second.index == 0
                &&& second.revision == (first.revision + 1) % 0x1_0000_0000
                &&& second.epoch == (first.epoch + 1) % 0x1_0000_0000
            }
            &&& second.pts_ms == (first.pts_ms + 20) % 0x1_0000_0000
            &&& !first.paused && !second.paused
            &&& state.elapsed < u64::MAX ==> second.spectrum != first.spectrum
        }),
{
    let at = playback::at_deadline(state, state.next_us);
    let after = playback::handed_out(at);
    lemma_playback_stays_valid(state, state.next_us, Action::Play);
    lemma_a_met_deadline_hands_out_the_next_frame(state);
    lemma_handing_out_moves_on_by_one_frame(at);
    lemma_a_met_deadline_hands_out_the_next_frame(after);
    lemma_playback_stays_valid(after, after.next_us, Action::Play);
    lemma_a_packet_names_its_place(at);
    lemma_a_packet_names_its_place(playback::at_deadline(after, after.next_us));
    lemma_stamps_follow(state.elapsed);
    lemma_small_mod(at.revision as nat, 0x1_0000_0000);
    lemma_small_mod(at.epoch as nat, 0x1_0000_0000);
    if state.elapsed < u64::MAX {
        lemma_small_mod((state.elapsed + 1) as nat, 0x1_0000_0000_0000_0000);
    }
}

/// The timestamp of the next frame is 20 ms later, also where a counter turns over.
proof fn lemma_stamps_follow(elapsed: int)
    requires
        0 <= elapsed <= u64::MAX,
    ensures
        (20 * ((elapsed + 1) % 0x1_0000_0000_0000_0000)) % 0x1_0000_0000 == ((20 * elapsed)
            % 0x1_0000_0000 + 20) % 0x1_0000_0000,
{
    if elapsed == u64::MAX {
    } else {
        lemma_small_mod((elapsed + 1) as nat, 0x1_0000_0000_0000_0000);
        lemma_add_mod_noop_right(20, 20 * elapsed, 0x1_0000_0000);
    }
}

/// A late deadline counts every 20 ms that passed as one frame, on the clock and among the frames
/// that were skipped, whether or not playback is paused.
pub proof fn lemma_every_missed_deadline_is_counted(state: PlaybackView, now: int)
    requires
        playback::valid(state),
        state.next_us <= now <= u64::MAX,
    ensures
        ({
            let at = playback::at_deadline(state, now);
            let missed = (now - state.next_us) / 20_000;
            &&& at.elapsed == (state.elapsed + missed) % 0x1_0000_0000_0000_0000
            &&& at.skipped == if state.skipped + missed > u64::MAX {
                u64::MAX as int
            } else {
                state.skipped + missed
            }
            &&& at.next_us == if state.next_us + 20_000 * (missed + 1) > u64::MAX {
                u64::MAX as int
            } else {
                state.next_us + 20_000 * (missed + 1)
            }
            &&& at.paused == state.paused
            &&& at.frames == state.frames
        }),
{
}

/// The frames of some songs together.
pub open spec fn together(frames: Seq<int>) -> int
    decreases frames.len(),
{
    if frames.len() == 0 {
        0
    } else {
        together(frames.drop_last()) + frames.last()
    }
}

proof fn lemma_together(frames: Seq<int>, tracks: int)
    requires
        0 <= tracks <= frames.len(),
    ensures
        playback::before(frames, tracks) == together(frames.take(tracks)),
    decreases tracks,
{
    if tracks > 0 {
        lemma_together(frames, tracks - 1);
        assert(frames.take(tracks).drop_last() =~= frames.take(tracks - 1));
    }
}

/// Whatever was missed, the packet of a time is the frame of that time: 20 ms of playback for
/// each frame, song after song, around the playlist as often as that takes. A frame of a song
/// that comes after `laps` whole passes over the playlist and the songs before it is handed out
/// that many frames after the place at which playback stood, with a revision and an epoch for
/// each song that began on the way.
pub proof fn lemma_the_packet_of_a_time_is_the_frame_of_that_time(
    state: PlaybackView,
    now: int,
    track: int,
    index: int,
    laps: int,
)
    requires
        playback::valid(state),
        !state.paused,
        !state.pending,
        state.next_us <= now <= u64::MAX,
        0 <= track < state.frames.len(),
        0 <= index < state.frames[track],
        0 <= laps,
        together(state.frames.take(state.track)) + state.index + (now - state.next_us) / 20_000
            == laps * together(state.frames) + together(state.frames.take(track)) + index,
    ensures
        ({
            let due = playback::packet(playback::at_deadline(state, now));
            let songs = laps * state.frames.len() + track - state.track;
            &&& due.track_index == track
            &&& due.index == index
            &&& due.revision == (state.revision + songs) % 0x1_0000_0000
            &&& due.epoch == (state.epoch + songs) % 0x1_0000_0000
            &&& !due.paused
        }),
{
    let missed = (now - state.next_us) / 20_000;
    let clocked = PlaybackView {
        elapsed: playback::wrap64(state.elapsed + missed),
        skipped: playback::clamp64(state.skipped + missed),
        next_us: playback::clamp64(state.next_us + (missed + 1) * FRAME_US),
        ..state
    };
    lemma_together(state.frames, state.track);
    lemma_together(state.frames, track);
    lemma_together(state.frames, state.frames.len() as int);
    assert(state.frames.take(state.frames.len() as int) =~= state.frames);
    playback::lemma_moved(clocked, missed, track, index, laps);
    lemma_playback_stays_valid(state, now, Action::Play);
}

/// Inside one song that is the plain count: a song from its start is at frame `n` when `n` times
/// 20 ms have passed.
pub proof fn lemma_a_song_is_played_at_its_own_pace(frames: Seq<int>, start: int, now: int)
    requires
        playback::playable(frames),
        0 <= start <= now <= u64::MAX,
        (now - start) / 20_000 < frames[0],
    ensures
        ({
            let due = playback::packet(playback::at_deadline(playback::begun(frames, start), now));
            &&& due.track_index == 0
            &&& due.index == (now - start) / 20_000
            &&& due.revision == 0
            &&& due.epoch == 0
            &&& due.pts_ms == (20 * ((now - start) / 20_000)) % 0x1_0000_0000
            &&& !due.paused
        }),
{
    let state = playback::begun(frames, start);
    assert(frames.take(0) =~= Seq::empty());
    assert(0 * together(frames) == 0) by (nonlinear_arith);
    assert(0 * frames.len() == 0) by (nonlinear_arith);
    assert(state.frames[state.track] == frames[0]);
    lemma_the_packet_of_a_time_is_the_frame_of_that_time(
        state,
        now,
        0,
        (now - start) / 20_000,
        0,
    );
    lemma_small_mod(((now - start) / 20_000) as nat, 0x1_0000_0000_0000_0000);
}

/// Play and Pause keep the place: the song, the frame, the revision and whether the song has
/// ended stay, Pause leaves playback paused and Play leaves it playing. The epoch counts up
/// exactly where that is a change.
pub proof fn lemma_play_and_pause_keep_the_place(state: PlaybackView, action: Action)
    requires
        playback::valid(state),
        action == Action::Play || action == Action::Pause,
    ensures
        ({
            let after = playback::applied(state, action);
            &&& after.frames == state.frames
            &&& after.track == state.track
            &&& after.index == state.index
            &&& after.revision == state.revision
            &&& after.pending == state.pending
            &&& after.elapsed == state.elapsed
            &&& after.next_us == state.next_us
            &&& after.skipped == state.skipped
            &&& after.paused == (action == Action::Pause)
            &&& after.epoch == if after.paused == state.paused {
                state.epoch
            } else {
                (state.epoch + 1) % 0x1_0000_0000
            }
        }),
{
}

/// Next and Restart both begin a song, which counts as one more, and start it at its first frame:
/// Next the following song, paused or not as before, and Restart the same song, playing.
pub proof fn lemma_next_and_restart_begin_a_song(state: PlaybackView, action: Action)
    requires
        playback::valid(state),
        action == Action::Next || action == Action::Restart,
    ensures
        ({
            let after = playback::applied(state, action);
            &&& after.frames == state.frames
            &&& after.track == if action == Action::Restart {
                state.track
            } else if state.track + 1 == state.frames.len() {
                0
            } else {
                state.track + 1
            }
            &&& after.index == 0
            &&& !after.pending
            &&& after.revision == (state.revision + 1) % 0x1_0000_0000
            &&& after.epoch == (state.epoch + 1) % 0x1_0000_0000
            &&& after.paused == (action == Action::Next && state.paused)
            &&& after.elapsed == state.elapsed
            &&& after.next_us == state.next_us
            &&& after.skipped == state.skipped
        }),
{
    lemma_next_begins_the_following_song_and_keeps_pause(state);
}

/// A pause holds the music and nothing is lost: however many deadlines pass while playback is
/// paused, the packet after the pause is that of the frame that would have come next, as if
/// there had been no pause.
pub proof fn lemma_playback_resumes_where_it_was_paused(state: PlaybackView, now: int)
    requires
        playback::valid(state),
        !state.paused,
        state.next_us <= now,
        now + 20_000 <= u64::MAX,
    ensures
        ({
            let paused = playback::applied(state, Action::Pause);
            let held = playback::handed_out(playback::at_deadline(paused, now));
            let resumed = playback::applied(held, Action::Play);
            let without = playback::packet(playback::at_deadline(state, state.next_us));
            let with = playback::packet(playback::at_deadline(resumed, resumed.next_us));
            let silent = playback::packet(playback::at_deadline(paused, now));
            &&& silent.paused
            &&& silent.track_index == state.track
            &&& silent.index == state.index
            &&& silent.revision == state.revision
            &&& !with.paused
            &&& with.track_index == without.track_index
            &&& with.index == without.index
            &&& with.revision == without.revision
        }),
{
    let paused = playback::applied(state, Action::Pause);
    let held = playback::handed_out(playback::at_deadline(paused, now));
    let resumed = playback::applied(held, Action::Play);
    lemma_play_and_pause_keep_the_place(state, Action::Pause);
    lemma_playback_stays_valid(state, state.next_us, Action::Pause);
    lemma_playback_stays_valid(paused, now, Action::Play);
    lemma_pause_holds_the_position(paused, now);
    lemma_play_and_pause_keep_the_place(held, Action::Play);
    lemma_playback_stays_valid(held, held.next_us, Action::Play);
    lemma_a_met_deadline_hands_out_the_next_frame(state);
    lemma_a_met_deadline_hands_out_the_next_frame(resumed);
    lemma_playback_stays_valid(resumed, resumed.next_us, Action::Play);
    lemma_a_packet_names_its_place(playback::at_deadline(state, state.next_us));
    lemma_a_packet_names_its_place(playback::at_deadline(resumed, resumed.next_us));
    lemma_a_packet_names_its_place(playback::at_deadline(paused, now));
}

/// A playlist of one to 32 songs can be played if none of them is empty, and no other can; its
/// playback is valid from the start.
pub proof fn lemma_up_to_32_songs_can_be_played(frames: Seq<int>, start: int)
    ensures
        playback::playable(frames) <==> {
            &&& 1 <= frames.len() <= 32
            &&& forall|i: int| 0 <= i < frames.len() ==> 1 <= #[trigger] frames[i] <= u32::MAX
        },
        playback::playable(frames) && 0 <= start <= u64::MAX ==> playback::valid(
            playback::begun(frames, start),
        ),
{
}

/// Songs are played with as many frames as they have, in their order.
pub proof fn lemma_songs_keep_their_frames(frames: Seq<FrameCount>)
    ensures
        playback::counts(frames).len() == frames.len(),
        forall|i: int|
            0 <= i < frames.len() ==> #[trigger] playback::counts(frames)[i] == frames[i]@,
{
}

} // verus!
