//! What holds of the published state over any course of playback.
use crate::music::{Song, FRAME_MS};
use crate::now_playing::{self, Snapshot};
use crate::playback::{self, Due, PlaybackView};
use crate::protocol::Action;
use vstd::arithmetic::div_mod::*;
use vstd::prelude::*;

verus! {

/// What happens to playback: it is asked for the packet that is due at a time, or acted upon.
pub enum Step {
    Deadline(int),
    Act(Action),
}

/// Playback with the published state, the packet that was recorded last, how many songs have
/// begun since then, and the most songs that ever began between one packet and the next.
#[verifier::ext_equal]
pub struct Course {
    pub state: PlaybackView,
    pub snapshot: Snapshot,
    pub latest: Option<Due>,
    pub since: int,
    pub most: int,
}

/// The songs that an action begins: the following one, or the same one again.
pub open spec fn begun_by(action: Action) -> int {
    match action {
        Action::Next => 1,
        Action::Restart => 1,
        _ => 0,
    }
}

/// The course after a step; every packet that is handed out is recorded.
pub open spec fn stepped(songs: Seq<Song>, course: Course, step: Step) -> Course {
    match step {
        Step::Deadline(now) => if now < course.state.next_us {
            course
        } else {
            let at = playback::at_deadline(course.state, now);
            let begun = course.since + playback::laws::songs_begun(course.state, now);
            Course {
                state: playback::handed_out(at),
                snapshot: now_playing::recorded(course.snapshot, songs, playback::packet(at)),
                latest: Some(playback::packet(at)),
                since: 0,
                most: if begun > course.most { begun } else { course.most },
            }
        },
        Step::Act(action) => Course {
            state: playback::applied(course.state, action),
            since: course.since + begun_by(action),
            ..course
        },
    }
}

/// The course of playback of a catalog's songs from `start` on.
pub open spec fn course(songs: Seq<Song>, start: int, steps: Seq<Step>) -> Course
    decreases steps.len(),
{
    if steps.len() == 0 {
        Course {
            state: playback::begun(now_playing::lengths(songs), start),
            snapshot: now_playing::first(songs),
            latest: None,
            since: 0,
            most: 0,
        }
    } else {
        stepped(songs, course(songs, start, steps.drop_last()), steps.last())
    }
}

/// Every time is one that the clock can show.
pub open spec fn timely(steps: Seq<Step>) -> bool {
    forall|i: int|
        0 <= i < steps.len() ==> (#[trigger] steps[i] matches Step::Deadline(now) ==> 0 <= now
            <= u64::MAX)
}

/// The published state is that of a packet: its song, and where in the song it lies.
pub open spec fn describes(snapshot: Snapshot, songs: Seq<Song>, due: Due) -> bool {
    snapshot == (Snapshot {
        now_playing: now_playing::announced(songs, due.track_index as int, due.revision),
        position_ms: (due.index * FRAME_MS) as u32,
        duration_ms: (songs[due.track_index as int].frames@ * FRAME_MS) as u32,
    })
}

/// What every step keeps: playback has moved on from the published song by exactly the songs
/// that have begun since.
spec fn followed(songs: Seq<Song>, course: Course) -> bool {
    let playing = course.snapshot.now_playing;
    &&& playback::valid(course.state)
    &&& course.state.frames == now_playing::lengths(songs)
    &&& 0 <= course.since
    &&& course.state.revision == playback::wrap32(playing.revision + course.since)
    &&& course.since == 0 ==> course.state.track == playing.track_index
    &&& playing == now_playing::announced(songs, playing.track_index as int, playing.revision)
    &&& match course.latest {
        None => course.snapshot == now_playing::first(songs),
        Some(due) => describes(course.snapshot, songs, due),
    }
}

/// A packet is recorded by its own song, whether or not `begun` songs have begun before it.
proof fn lemma_packet_follows(
    songs: Seq<Song>,
    course: Course,
    at: PlaybackView,
    begun: int,
    after: Course,
)
    requires
        followed(songs, course),
        playback::valid(at),
        playback::valid(playback::handed_out(at)),
        at.frames == course.state.frames,
        0 <= begun,
        course.since + begun < 0x1_0000_0000,
        at.revision == playback::wrap32(course.state.revision + begun),
        begun == 0 ==> at.track == course.state.track,
        after.state == playback::handed_out(at),
        after.snapshot == now_playing::recorded(course.snapshot, songs, playback::packet(at)),
        after.latest == Some(playback::packet(at)),
        after.since == 0,
    ensures
        followed(songs, after),
{
    let revision = course.snapshot.now_playing.revision;
    lemma_add_mod_noop_right(begun, revision + course.since, 0x1_0000_0000);
    assert(at.revision == playback::wrap32(revision + course.since + begun));
}

proof fn lemma_step_follows(songs: Seq<Song>, course: Course, step: Step)
    requires
        followed(songs, course),
        step matches Step::Deadline(now) ==> 0 <= now <= u64::MAX,
        stepped(songs, course, step).most < 0x1_0000_0000,
    ensures
        followed(songs, stepped(songs, course, step)),
{
    let state = course.state;
    match step {
        Step::Deadline(now) => if now >= state.next_us {
            playback::laws::lemma_playback_stays_valid(state, now, Action::Play);
            playback::laws::lemma_the_revision_counts_songs(state, now);
            lemma_packet_follows(
                songs,
                course,
                playback::at_deadline(state, now),
                playback::laws::songs_begun(state, now),
                stepped(songs, course, step),
            );
        },
        Step::Act(action) => {
            playback::laws::lemma_playback_stays_valid(state, state.next_us, action);
            lemma_add_mod_noop_right(
                1,
                course.snapshot.now_playing.revision + course.since,
                0x1_0000_0000,
            );
        },
    }
}

proof fn lemma_course_follows(songs: Seq<Song>, start: int, steps: Seq<Step>)
    requires
        playback::playable(now_playing::lengths(songs)),
        0 <= start <= u64::MAX,
        timely(steps),
        course(songs, start, steps).most < 0x1_0000_0000,
    ensures
        followed(songs, course(songs, start, steps)),
    decreases steps.len(),
{
    if steps.len() > 0 {
        assert(timely(steps.drop_last())) by {
            assert forall|i: int| 0 <= i < steps.drop_last().len() implies (
            #[trigger] steps.drop_last()[i] matches Step::Deadline(now) ==> 0 <= now
                <= u64::MAX) by {
                assert(steps.drop_last()[i] == steps[i]);
            }
        }
        lemma_course_follows(songs, start, steps.drop_last());
        assert(steps.last() == steps[steps.len() - 1]);
        lemma_step_follows(songs, course(songs, start, steps.drop_last()), steps.last());
    }
}

/// Whatever happens to playback, the published state is that of the packet that was recorded
/// last, with its song, and before the first packet that of the start of the first song. The
/// only thing asked is that fewer than 2^32 songs begin between one packet and the next, where
/// the revision would come round to itself.
pub proof fn lemma_the_published_song_is_that_of_the_latest_packet(
    songs: Seq<Song>,
    start: int,
    steps: Seq<Step>,
)
    requires
        playback::playable(now_playing::lengths(songs)),
        0 <= start <= u64::MAX,
        timely(steps),
        course(songs, start, steps).most < 0x1_0000_0000,
    ensures
        match course(songs, start, steps).latest {
            None => course(songs, start, steps).snapshot == now_playing::first(songs),
            Some(due) => describes(course(songs, start, steps).snapshot, songs, due),
        },
{
    lemma_course_follows(songs, start, steps);
}

} // verus!
