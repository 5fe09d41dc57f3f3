//! A song instance within one publisher generation; independent of the RTP clock.
pub mod laws;

use crate::music::{self, Catalog, Error, Song, Track, FRAME_MS};
use crate::playback::{self, Due, PlaybackView};
use vstd::prelude::*;

verus! {

#[derive(Debug, PartialEq, Eq)]
pub struct NowPlaying {
    pub revision: u32,
    pub track_index: u32,
    pub track_count: u32,
    pub track: Option<Track>,
}

impl Clone for NowPlaying {
    fn clone(&self) -> (copy: Self)
        ensures
            copy == *self,
    {
        NowPlaying {
            revision: self.revision,
            track_index: self.track_index,
            track_count: self.track_count,
            track: music::copy_track(&self.track),
        }
    }
}

/// Published state describes the most recent frame returned by
/// [`Playback::due`](crate::playback::Playback::due).
/// Use the same immutable catalog for construction and subsequent updates.
#[derive(Debug)]
pub struct Snapshot {
    pub now_playing: NowPlaying,
    pub position_ms: u32,
    pub duration_ms: u32,
}

/// What is announced of a song of a catalog that plays under `revision`.
pub open spec fn announced(songs: Seq<Song>, track: int, revision: u32) -> NowPlaying {
    NowPlaying {
        revision,
        track_index: track as u32,
        track_count: songs.len() as u32,
        track: songs[track].metadata,
    }
}

/// The packet names a song of the catalog and a frame inside that song.
pub open spec fn fits(songs: Seq<Song>, due: Due) -> bool {
    due.track_index < songs.len() && due.index < songs[due.track_index as int].frames@
}

/// The published state once a packet is recorded: the announcement changes with the revision
/// alone, the position and the duration with every packet.
pub open spec fn recorded(snapshot: Snapshot, songs: Seq<Song>, due: Due) -> Snapshot {
    Snapshot {
        now_playing: if due.revision != snapshot.now_playing.revision {
            announced(songs, due.track_index as int, due.revision)
        } else {
            snapshot.now_playing
        },
        position_ms: (due.index * FRAME_MS) as u32,
        duration_ms: (songs[due.track_index as int].frames@ * FRAME_MS) as u32,
    }
}

/// The published state before the first packet: the start of the first song.
pub open spec fn first(songs: Seq<Song>) -> Snapshot {
    Snapshot {
        now_playing: announced(songs, 0, 0),
        position_ms: 0,
        duration_ms: (songs[0].frames@ * FRAME_MS) as u32,
    }
}

impl Snapshot {
    pub fn new(catalog: &Catalog) -> (snapshot: Self)
        ensures
            snapshot == first(catalog.song_list()),
    {
        let songs = catalog.songs();
        let first = &songs[0];
        Snapshot {
            now_playing: NowPlaying {
                revision: 0,
                track_index: 0,
                track_count: songs.len() as u32,
                track: music::copy_track(&first.metadata),
            },
            position_ms: 0,
            duration_ms: first.frames.get() * FRAME_MS,
        }
    }

    /// Records a due frame and reports whether its playback revision changed.
    pub fn record(&mut self, catalog: &Catalog, due: Due) -> (result: Result<bool, Error>)
        ensures
            match result {
                Ok(changed) => {
                    &&& fits(catalog.song_list(), due)
                    &&& *final(self) == recorded(*old(self), catalog.song_list(), due)
                    &&& changed == (due.revision != old(self).now_playing.revision)
                },
                Err(error) => {
                    &&& !fits(catalog.song_list(), due)
                    &&& *final(self) == *old(self)
                    &&& error == if due.track_index >= catalog.song_list().len() {
                        Error::TrackCount
                    } else {
                        Error::FrameCount
                    }
                },
            },
    {
        let songs = catalog.songs();
        if due.track_index as usize >= songs.len() {
            return Err(Error::TrackCount);
        }
        let song = &songs[due.track_index as usize];
        if due.index >= song.frames.get() {
            return Err(Error::FrameCount);
        }
        let changed = due.revision != self.now_playing.revision;
        if changed {
            self.now_playing = NowPlaying {
                revision: due.revision,
                track_index: due.track_index,
                track_count: songs.len() as u32,
                track: music::copy_track(&song.metadata),
            };
        }
        self.position_ms = due.index * FRAME_MS;
        self.duration_ms = song.frames.get() * FRAME_MS;
        Ok(changed)
    }
}

#[derive(Debug)]
pub struct Message<'a> {
    pub event: &'static str,
    pub now_playing: &'a NowPlaying,
}

/// The frames of each song of a catalog.
pub open spec fn lengths(songs: Seq<Song>) -> Seq<int> {
    songs.map_values(|song: Song| song.frames@ as int)
}

/// Playback of a catalog's songs never hands out a packet that cannot be recorded.
pub proof fn lemma_playback_of_the_catalog_is_always_recorded(
    songs: Seq<Song>,
    state: PlaybackView,
    now: int,
)
    requires
        playback::valid(state),
        state.frames == lengths(songs),
        state.next_us <= now <= u64::MAX,
    ensures
        fits(songs, playback::packet(playback::at_deadline(state, now))),
{
    playback::laws::lemma_packet_lies_in_the_playlist(state, now);
}

/// To record a packet a second time changes nothing, and nothing is announced again.
pub proof fn lemma_recording_again_changes_nothing(
    snapshot: Snapshot,
    songs: Seq<Song>,
    due: Due,
)
    ensures
        ({
            let once = recorded(snapshot, songs, due);
            &&& recorded(once, songs, due) == once
            &&& due.revision == once.now_playing.revision
        }),
{
}

/// The position that is published lies inside the song, for songs of at most ten minutes.
pub proof fn lemma_position_lies_inside_the_song(snapshot: Snapshot, songs: Seq<Song>, due: Due)
    requires
        fits(songs, due),
        songs[due.track_index as int].frames@ <= music::MAX_FRAMES,
    ensures
        recorded(snapshot, songs, due).position_ms < recorded(snapshot, songs, due).duration_ms,
{
}

/// A packet fits a catalog that has its song, where that song has its frame.
pub proof fn lemma_packets_fit_by_song_and_frame(songs: Seq<Song>, due: Due)
    ensures
        fits(songs, due) <==> (exists|track: int, index: int|
            #![trigger songs[track], due_at(due, track, index)]
            0 <= track < songs.len() && 0 <= index < songs[track].frames@ && due_at(
                due,
                track,
                index,
            )),
{
    if fits(songs, due) {
        let track = due.track_index as int;
        assert(due_at(due, track, due.index as int));
        assert(0 <= track < songs.len() && due.index < songs[track].frames@);
    }
}

/// A packet names that song and frame.
pub open spec fn due_at(due: Due, track: int, index: int) -> bool {
    due.track_index == track && due.index == index
}

/// What is published of a packet: its position and the duration of its song, 20 ms for each frame,
/// and its own revision. A new revision announces the packet's song out of all the songs; under
/// the same one the announcement stays as it is.
pub proof fn lemma_a_packet_is_published(snapshot: Snapshot, songs: Seq<Song>, due: Due)
    requires
        fits(songs, due),
        songs.len() <= 32,
        songs[due.track_index as int].frames@ <= 30_000,
    ensures
        ({
            let after = recorded(snapshot, songs, due);
            let song = songs[due.track_index as int];
            &&& after.position_ms == 20 * due.index
            &&& after.duration_ms == 20 * song.frames@
            &&& after.now_playing.revision == due.revision
            &&& due.revision == snapshot.now_playing.revision ==> after.now_playing
                == snapshot.now_playing
            &&& due.revision != snapshot.now_playing.revision ==> {
                &&& after.now_playing.track_index == due.track_index
                &&& after.now_playing.track_count == songs.len()
                &&& after.now_playing.track == song.metadata
            }
        }),
{
}

/// Before the first packet the start of the first song is published, out of all the songs.
pub proof fn lemma_the_first_song_is_published_first(songs: Seq<Song>)
    requires
        1 <= songs.len() <= 32,
        songs[0].frames@ <= 30_000,
    ensures
        first(songs).position_ms == 0,
        first(songs).duration_ms == 20 * songs[0].frames@,
        first(songs).now_playing.revision == 0,
        first(songs).now_playing.track_index == 0,
        first(songs).now_playing.track_count == songs.len(),
        first(songs).now_playing.track == songs[0].metadata,
{
}

/// Playback counts the frames of the songs as they are, in their order.
pub proof fn lemma_songs_keep_their_lengths(songs: Seq<Song>)
    ensures
        lengths(songs).len() == songs.len(),
        forall|i: int| 0 <= i < songs.len() ==> #[trigger] lengths(songs)[i] == songs[i].frames@,
{
}

} // verus!
