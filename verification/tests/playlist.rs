use radio_core::music::{
    Allocator, Catalog, Error, FrameCount, ReadAt, Reserve, MAX_FRAMES, PIECE_BYTES,
};
use radio_core::now_playing::{Message, NowPlaying, Snapshot};
use radio_core::playback::Playback;
use radio_core::protocol::Action;
use serde::ser::SerializeStruct;

// Made with Python's struct and zlib: two songs of two and three silent frames.
const FIXTURE: [u8; 259] = [
    83, 51, 77, 85, 83, 73, 67, 0, 4, 0, 0, 0, 2, 0, 0, 0,
    128, 187, 0, 0, 2, 0, 0, 0, 20, 0, 0, 0, 16, 68, 202, 197,
    3, 1, 0, 0, 0, 0, 0, 0, 0, 0, 0, 0, 0, 0, 0, 0,
    0, 0, 0, 0, 0, 0, 0, 0, 0, 0, 0, 0, 0, 0, 0, 0,
    92, 0, 0, 0, 83, 51, 77, 85, 83, 73, 67, 0, 3, 0, 0, 0,
    2, 0, 0, 0, 128, 187, 0, 0, 2, 0, 0, 0, 20, 0, 0, 0,
    168, 180, 158, 149, 0, 0, 0, 0, 0, 0, 0, 0, 0, 0, 0, 0,
    0, 0, 0, 0, 0, 0, 0, 0, 0, 0, 0, 0, 0, 0, 0, 0,
    0, 0, 0, 0, 11, 0, 3, 0, 70, 105, 114, 115, 116, 32, 99, 97,
    102, 195, 169, 79, 110, 101, 3, 0, 248, 255, 254, 3, 0, 248, 255, 254,
    95, 0, 0, 0, 83, 51, 77, 85, 83, 73, 67, 0, 3, 0, 0, 0,
    3, 0, 0, 0, 128, 187, 0, 0, 2, 0, 0, 0, 20, 0, 0, 0,
    176, 204, 236, 169, 0, 0, 0, 0, 0, 0, 0, 0, 0, 0, 0, 0,
    0, 0, 0, 0, 0, 0, 0, 0, 0, 0, 0, 0, 0, 0, 0, 0,
    0, 0, 0, 0, 9, 0, 3, 0, 231, 172, 172, 228, 186, 140, 233, 166,
    150, 84, 119, 111, 3, 0, 248, 255, 254, 3, 0, 248, 255, 254, 3, 0,
    248, 255, 254,
];

#[test]
fn catalog_preserves_order_unicode_metadata_and_individual_frames() {
    let mut source: &[u8] = &FIXTURE;
    let catalog = Catalog::parse(&mut source).unwrap();
    assert_eq!(catalog.songs().len(), 2);
    assert_eq!(catalog.songs()[0].metadata.as_ref().unwrap().title, "First café");
    assert_eq!(catalog.songs()[1].metadata.as_ref().unwrap().title, "第二首");
    assert_eq!(catalog.songs()[1].metadata.as_ref().unwrap().duration_ms, 60);
    let mut packet = [0; 1275];
    assert_eq!(catalog.read_frame(&mut source, 1, 2, &mut packet).unwrap(), 3);
    assert_eq!(&packet[..3], [0xf8, 0xff, 0xfe]);
    assert!(catalog.read_frame(&mut source, 1, 3, &mut packet).is_err());
    assert!(catalog.read_frame(&mut source, 2, 0, &mut packet).is_err());
}

#[test]
fn frames_are_refused_one_by_one() {
    let mut source: &[u8] = &FIXTURE;
    let catalog = Catalog::parse(&mut source).unwrap();
    assert_eq!(catalog.used_bytes(), FIXTURE.len());
    let mut packet = [7; 1275];
    assert_eq!(catalog.read_frame(&mut source, 2, 0, &mut packet).unwrap_err(), Error::TrackCount);
    assert_eq!(catalog.read_frame(&mut source, 0, 2, &mut packet).unwrap_err(), Error::FrameCount);
    assert_eq!(packet, [7; 1275]);
    let mut short = [0; 2];
    assert_eq!(catalog.read_frame(&mut source, 0, 0, &mut short).unwrap_err(), Error::PacketSize);
    let mut exact = [0; 3];
    assert_eq!(catalog.read_frame(&mut source, 0, 0, &mut exact).unwrap(), 3);
    let mut cut: &[u8] = &FIXTURE[..70];
    assert_eq!(catalog.read_frame(&mut cut, 0, 0, &mut packet).unwrap_err(), Error::Truncated);
}

#[test]
fn catalog_rejects_partial_corrupt_and_hostile_track_tables() {
    for end in 0..FIXTURE.len() {
        assert!(Catalog::parse(&mut &FIXTURE[..end]).is_err());
    }
    let mut bytes = FIXTURE.to_vec();
    *bytes.last_mut().unwrap() ^= 1;
    assert_eq!(Catalog::parse(&mut bytes.as_slice()).unwrap_err(), Error::Checksum);
    for count in [0u32, 33, u32::MAX] {
        let mut bytes = FIXTURE.to_vec();
        bytes[12..16].copy_from_slice(&count.to_le_bytes());
        assert!(Catalog::parse(&mut bytes.as_slice()).is_err());
    }
    let mut bytes = FIXTURE.to_vec();
    bytes[64..68].copy_from_slice(&u32::MAX.to_le_bytes());
    let crc = crc32fast::hash(&bytes[64..]);
    bytes[28..32].copy_from_slice(&crc.to_le_bytes());
    assert!(Catalog::parse(&mut bytes.as_slice()).is_err());
}

#[test]
fn catalog_reads_beyond_four_mib_without_loading_the_partition() {
    let mut song = vec![0; 64];
    song[..8].copy_from_slice(b"S3MUSIC\0");
    for (offset, value) in [(8, 2u32), (12, 7000), (16, 48000), (20, 2), (24, 20)] {
        song[offset..offset + 4].copy_from_slice(&value.to_le_bytes());
    }
    for _ in 0..7000 {
        song.extend(1275u16.to_le_bytes());
        song.extend([7; 1275]);
    }
    let crc = crc32fast::hash(&song[64..]);
    song[28..32].copy_from_slice(&crc.to_le_bytes());
    struct Storage {
        bytes: Vec<u8>,
        largest: usize,
    }
    impl ReadAt for Storage {
        fn size(&self) -> usize {
            self.bytes.len()
        }
        fn read_exact(&mut self, offset: usize, out: &mut [u8]) -> Result<(), Error> {
            self.largest = self.largest.max(out.len());
            out.copy_from_slice(
                self.bytes.get(offset..offset + out.len()).ok_or(Error::Truncated)?,
            );
            Ok(())
        }
    }
    let mut storage = Storage { bytes: song, largest: 0 };
    let catalog = Catalog::parse(&mut storage).unwrap();
    let mut frame = [0; 1275];
    catalog.read_frame(&mut storage, 0, 6999, &mut frame).unwrap();
    assert!(frame.iter().all(|&n| n == 7));
    assert!(storage.largest <= 1275);
    assert!(catalog.index_bytes() <= 7000 * 4);
}

fn player() -> Playback {
    Playback::playlist([2, 3].into_iter().map(|n| FrameCount::new(n).unwrap()).collect(), 0).unwrap()
}

struct Logged {
    bytes: Vec<u8>,
    reads: Vec<(usize, usize)>,
}

impl ReadAt for Logged {
    fn size(&self) -> usize {
        self.bytes.len()
    }
    fn read_exact(&mut self, offset: usize, out: &mut [u8]) -> Result<(), Error> {
        self.reads.push((offset, out.len()));
        self.bytes.as_slice().read_exact(offset, out)
    }
}

#[test]
fn reads_are_small_and_stay_inside_the_storage() {
    let mut storage = Logged { bytes: FIXTURE.to_vec(), reads: Vec::new() };
    let catalog = Catalog::parse(&mut storage).unwrap();
    let inside = |&(offset, length): &(usize, usize)| length <= PIECE_BYTES && offset + length <= 259;
    assert!(storage.reads.iter().all(inside));
    storage.reads.clear();
    let mut packet = [0; 1275];
    catalog.read_frame(&mut storage, 0, 1, &mut packet).unwrap();
    assert_eq!(storage.reads, [(155, 2), (157, 3)]);
}

/// Storage whose reads fail from the given one on.
struct Failing {
    bytes: Vec<u8>,
    good: usize,
    reads: usize,
}

impl ReadAt for Failing {
    fn size(&self) -> usize {
        self.bytes.len()
    }
    fn read_exact(&mut self, offset: usize, out: &mut [u8]) -> Result<(), Error> {
        self.reads += 1;
        if self.reads > self.good {
            return Err(Error::Read);
        }
        self.bytes.as_slice().read_exact(offset, out)
    }
}

#[test]
fn a_failed_read_is_the_answer_and_the_last_read() {
    let mut storage = Failing { bytes: FIXTURE.to_vec(), good: usize::MAX, reads: 0 };
    let catalog = Catalog::parse(&mut storage).unwrap();
    let reads = storage.reads;
    for good in 0..reads {
        let mut storage = Failing { bytes: FIXTURE.to_vec(), good, reads: 0 };
        assert_eq!(Catalog::parse(&mut storage).unwrap_err(), Error::Read);
        assert_eq!(storage.reads, good + 1);
    }
    for good in 0..2 {
        let mut storage = Failing { bytes: FIXTURE.to_vec(), good, reads: 0 };
        let mut packet = [0; 1275];
        assert_eq!(catalog.read_frame(&mut storage, 0, 1, &mut packet).unwrap_err(), Error::Read);
        assert_eq!(storage.reads, good + 1);
    }
}

/// Memory that grants so many requests, with more room than was asked for.
struct Limited {
    grants: usize,
    asked: Vec<usize>,
    rooms: Vec<usize>,
}

impl Reserve for Limited {
    fn reserve<T>(&mut self, index: &mut Vec<T>, additional: usize) -> Option<usize> {
        self.asked.push(additional);
        if self.grants == 0 {
            return None;
        }
        self.grants -= 1;
        index.reserve_exact(additional + 100);
        self.rooms.push(index.capacity());
        Some(index.capacity())
    }
}

fn limited(grants: usize) -> Limited {
    Limited { grants, asked: Vec::new(), rooms: Vec::new() }
}

#[test]
fn memory_is_asked_for_the_frames_of_each_song() {
    for (grants, asked) in [(0, &[2][..]), (1, &[2, 3][..])] {
        let mut memory = limited(grants);
        let refused = Catalog::parse_with(&mut &FIXTURE[..], &mut memory);
        assert_eq!(refused.unwrap_err(), Error::Memory);
        assert_eq!(memory.asked, asked);
    }
    let mut memory = limited(2);
    let catalog = Catalog::parse_with(&mut &FIXTURE[..], &mut memory).unwrap();
    assert_eq!(memory.asked, [2, 3]);
    assert_eq!((catalog.songs().len(), catalog.used_bytes()), (2, 259));
    assert_eq!(memory.rooms.len(), 2);
    assert!(memory.rooms[1] >= 5 && memory.rooms[0] >= 102);
    assert_eq!(catalog.index_bytes(), 4 * memory.rooms[1]);
    let catalog = Catalog::parse_with(&mut &FIXTURE[..], &mut Allocator::new()).unwrap();
    assert_eq!((catalog.songs().len(), catalog.used_bytes()), (2, 259));
    assert!((20..400).contains(&catalog.index_bytes()));
}

#[test]
fn the_allocator_says_how_much_room_there_is() {
    let mut memory = Allocator::new();
    let mut index: Vec<u32> = vec![1, 2];
    let room = memory.reserve(&mut index, 30).unwrap();
    assert!(room >= 32);
    assert_eq!(room, index.capacity());
    assert_eq!(index, [1, 2]);
    assert!(memory.reserve(&mut index, usize::MAX).is_none());
    assert_eq!(index, [1, 2]);
}

#[test]
fn memory_is_not_asked_before_frames_can_be_indexed() {
    for end in [0, 63, 64, 258] {
        let mut memory = limited(0);
        let cut = Catalog::parse_with(&mut &FIXTURE[..end], &mut memory);
        assert_eq!(cut.unwrap_err(), Error::Truncated);
        assert!(memory.asked.is_empty());
    }
    let mut header = FIXTURE[68..132].to_vec();
    header[8] = 2;
    header[12..16].copy_from_slice(&MAX_FRAMES.to_le_bytes());
    let mut memory = limited(1);
    let empty = Catalog::parse_with(&mut header.as_slice(), &mut memory);
    assert_eq!(empty.unwrap_err(), Error::Truncated);
    assert_eq!(memory.asked, [MAX_FRAMES as usize]);
    let refused = Catalog::parse_with(&mut header.as_slice(), &mut limited(0));
    assert_eq!(refused.unwrap_err(), Error::Memory);
    header[12..16].copy_from_slice(&(MAX_FRAMES + 1).to_le_bytes());
    let mut memory = limited(1);
    let long = Catalog::parse_with(&mut header.as_slice(), &mut memory);
    assert_eq!(long.unwrap_err(), Error::FrameCount);
    assert!(memory.asked.is_empty());
}

#[test]
fn a_failed_read_ends_the_requests_for_memory() {
    let mut asked = Vec::new();
    for good in 0..6 {
        let mut storage = Failing { bytes: FIXTURE.to_vec(), good, reads: 0 };
        let mut memory = limited(2);
        let failed = Catalog::parse_with(&mut storage, &mut memory);
        assert_eq!(failed.unwrap_err(), Error::Read);
        asked.push(memory.asked.len());
    }
    // Header, checksum, length, song header, tag lengths and title come before the first request.
    assert_eq!(asked, [0; 6]);
    let mut storage = Failing { bytes: FIXTURE.to_vec(), good: 7, reads: 0 };
    let mut memory = limited(2);
    assert_eq!(Catalog::parse_with(&mut storage, &mut memory).unwrap_err(), Error::Read);
    assert_eq!(memory.asked, [2]);
}

#[test]
fn cut_catalogs_are_refused_as_cut() {
    for end in 0..FIXTURE.len() {
        assert_eq!(Catalog::parse(&mut &FIXTURE[..end]).unwrap_err(), Error::Truncated);
    }
}

#[test]
fn each_record_of_a_playlist_is_a_catalog_of_its_own() {
    let catalog = Catalog::parse(&mut &FIXTURE[..]).unwrap();
    let mut cursor = 64;
    for song in catalog.songs() {
        let length = u32::from_le_bytes(FIXTURE[cursor..cursor + 4].try_into().unwrap()) as usize;
        let mut record = &FIXTURE[cursor + 4..cursor + 4 + length];
        let alone = Catalog::parse(&mut record).unwrap();
        assert_eq!((alone.songs().len(), alone.used_bytes()), (1, length));
        assert_eq!(alone.songs()[0].frames, song.frames);
        assert_eq!(alone.songs()[0].metadata, song.metadata);
        cursor += 4 + length;
    }
    assert_eq!(cursor, catalog.used_bytes());
}

#[test]
fn the_published_song_is_that_of_the_latest_packet() {
    let catalog = Catalog::parse(&mut &FIXTURE[..]).unwrap();
    let mut snapshot = Snapshot::new(&catalog);
    let mut player = player();
    for (step, now) in [0, 20_000, 20_001, 170_000, 400_000, 400_001, 900_000].into_iter().enumerate() {
        match step {
            2 => player.apply(Action::Next),
            4 => player.apply(Action::Restart),
            5 => player.apply(Action::Pause),
            _ => {}
        }
        if let Some(due) = player.due(now) {
            snapshot.record(&catalog, due).unwrap();
            let song = &catalog.songs()[due.track_index as usize];
            assert_eq!(snapshot.now_playing.track_index, due.track_index);
            assert_eq!(snapshot.now_playing.track, song.metadata);
            assert_eq!(snapshot.position_ms, due.index * 20);
            assert_eq!(snapshot.duration_ms, song.frames.get() * 20);
        }
    }
}

#[test]
fn playlists_have_one_to_thirty_two_songs() {
    let songs = |count: usize| vec![FrameCount::new(1).unwrap(); count];
    assert!(Playback::playlist(songs(0), 0).is_none());
    assert!(Playback::playlist(songs(32), 0).is_some());
    assert!(Playback::playlist(songs(33), 0).is_none());
    assert!(FrameCount::new(0).is_none());
    assert_eq!(FrameCount::new(9).unwrap().get(), 9);
}

#[test]
fn automatic_transitions_and_next_preserve_the_transport_clock() {
    let mut p = player();
    assert_eq!(p.due(0).unwrap().track_index, 0);
    p.due(20000);
    let next = p.due(40000).unwrap();
    assert_eq!((next.track_index, next.index, next.pts_ms, next.revision), (1, 0, 40, 1));
    p.apply(Action::Next);
    let skipped = p.due(60000).unwrap();
    assert_eq!(
        (skipped.track_index, skipped.index, skipped.pts_ms, skipped.revision),
        (0, 0, 60, 2)
    );
    p.apply(Action::Pause);
    p.apply(Action::Next);
    let paused = p.due(80000).unwrap();
    assert_eq!((paused.track_index, paused.index, paused.paused), (1, 0, true));
    p.apply(Action::Play);
    assert_eq!(p.due(100000).unwrap().pts_ms, 100);
}

#[test]
fn long_stalls_skip_across_song_boundaries_without_bursting() {
    let mut p = player();
    p.due(0);
    let due = p.due(100_060_000).unwrap();
    assert_eq!((due.track_index, due.index, due.pts_ms), (1, 1, 100060));
    assert!(due.revision > 1000);
    assert!(p.due(100_060_001).is_none());
}

#[test]
fn a_stall_hands_out_what_punctual_playback_would() {
    for late in 1..40u64 {
        let mut punctual = player();
        let mut stalled = player();
        stalled.due(0);
        let mut expected = punctual.due(0);
        for frame in 1..=late {
            expected = punctual.due(frame * 20_000);
        }
        assert_eq!(stalled.due(late * 20_000), expected);
        assert_eq!(stalled.skipped_frames(), late - 1);
        assert_eq!(punctual.skipped_frames(), 0);
        assert_eq!(stalled.due((late + 1) * 20_000), punctual.due((late + 1) * 20_000));
    }
}

#[test]
fn the_last_possible_deadline_saturates() {
    let mut p = player();
    let due = p.due(u64::MAX).unwrap();
    assert_eq!(due.pts_ms, ((u64::MAX / 20_000).wrapping_mul(20)) as u32);
    assert!(p.due(u64::MAX - 1).is_none());
    assert!(p.due(u64::MAX).is_some());
}

fn final_frame_player() -> Playback {
    let mut p =
        Playback::playlist([2, 3, 4].into_iter().map(|n| FrameCount::new(n).unwrap()).collect(), 0)
            .unwrap();
    p.due(0);
    let last = p.due(20_000).unwrap();
    assert_eq!((last.track_index, last.index), (0, 1));
    assert_eq!(p.epoch(), last.epoch);
    p
}

#[test]
fn commands_between_the_final_packet_and_next_deadline_target_the_announced_song() {
    for (action, track, revision) in [(Action::Next, 1, 1), (Action::Restart, 0, 1)] {
        let mut p = final_frame_player();
        p.apply(action);
        assert!(p.due(39_999).is_none());
        let due = p.due(40_000).unwrap();
        assert_eq!(
            (due.track_index, due.index, due.revision, due.pts_ms),
            (track, 0, revision, 40)
        );
    }
    let mut p = final_frame_player();
    p.apply(Action::Pause);
    let held = p.due(40_000).unwrap();
    assert_eq!((held.track_index, held.index, held.revision, held.paused), (0, 1, 0, true));
    p.apply(Action::Play);
    let next = p.due(60_000).unwrap();
    assert_eq!((next.track_index, next.index, next.revision, next.pts_ms), (1, 0, 1, 60));

    let mut p = final_frame_player();
    p.apply(Action::Pause);
    p.apply(Action::Next);
    let next = p.due(40_000).unwrap();
    assert_eq!((next.track_index, next.index, next.revision, next.paused), (1, 0, 1, true));
}

#[test]
fn pending_transition_and_a_stall_advance_once_then_skip_elapsed_packets() {
    let mut p = final_frame_player();
    let due = p.due(1_040_000).unwrap();
    assert_eq!((due.track_index, due.index, due.revision, due.pts_ms), (2, 2, 17, 1040));
    assert_eq!(p.skipped_frames(), 50);
    assert!(p.due(1_040_001).is_none());
}

#[test]
fn published_metadata_position_and_duration_follow_the_emitted_song() {
    let mut source: &[u8] = &FIXTURE;
    let catalog = Catalog::parse(&mut source).unwrap();
    let mut snapshot = Snapshot::new(&catalog);
    let mut p = player();
    snapshot.record(&catalog, p.due(0).unwrap()).unwrap();
    assert!(!snapshot.record(&catalog, p.due(20_000).unwrap()).unwrap());
    assert_eq!(
        (snapshot.now_playing.track_index, snapshot.position_ms, snapshot.duration_ms),
        (0, 20, 40)
    );
    let next = p.due(40_000).unwrap();
    assert!(snapshot.record(&catalog, next).unwrap());
    assert_eq!(snapshot.now_playing.track.as_ref().unwrap().title, "第二首");
    assert_eq!(
        (snapshot.now_playing.revision, snapshot.position_ms, snapshot.duration_ms),
        (1, 0, 60)
    );
    assert!(snapshot.record(&catalog, radio_core::playback::Due { index: 3, ..next }).is_err());
    assert_eq!(snapshot.position_ms, 0);
}

#[test]
fn a_packet_outside_the_catalog_is_not_recorded() {
    let mut source: &[u8] = &FIXTURE;
    let catalog = Catalog::parse(&mut source).unwrap();
    let mut snapshot = Snapshot::new(&catalog);
    assert_eq!((snapshot.position_ms, snapshot.duration_ms), (0, 40));
    assert_eq!(snapshot.now_playing.track_count, 2);
    let due = player().due(0).unwrap();
    let outside = radio_core::playback::Due { track_index: 2, revision: 5, ..due };
    assert_eq!(snapshot.record(&catalog, outside).unwrap_err(), Error::TrackCount);
    let beyond = radio_core::playback::Due { index: 2, revision: 5, ..due };
    assert_eq!(snapshot.record(&catalog, beyond).unwrap_err(), Error::FrameCount);
    assert_eq!(snapshot.now_playing.revision, 0);
    let again = radio_core::playback::Due { revision: 5, ..due };
    assert!(snapshot.record(&catalog, again).unwrap());
    assert!(!snapshot.record(&catalog, again).unwrap());
}

struct WireTrack<'a>(&'a radio_core::music::Track);

impl serde::Serialize for WireTrack<'_> {
    fn serialize<S: serde::Serializer>(&self, serializer: S) -> Result<S::Ok, S::Error> {
        let mut track = serializer.serialize_struct("Track", 3)?;
        track.serialize_field("title", &self.0.title)?;
        track.serialize_field("artist", &self.0.artist)?;
        track.serialize_field("durationMs", &self.0.duration_ms)?;
        track.end()
    }
}

struct WireState<'a>(&'a NowPlaying);

impl serde::Serialize for WireState<'_> {
    fn serialize<S: serde::Serializer>(&self, serializer: S) -> Result<S::Ok, S::Error> {
        let mut state = serializer.serialize_struct("NowPlaying", 4)?;
        state.serialize_field("revision", &self.0.revision)?;
        state.serialize_field("trackIndex", &self.0.track_index)?;
        state.serialize_field("trackCount", &self.0.track_count)?;
        state.serialize_field("track", &self.0.track.as_ref().map(WireTrack))?;
        state.end()
    }
}

struct WireMessage<'a>(&'a Message<'a>);

impl serde::Serialize for WireMessage<'_> {
    fn serialize<S: serde::Serializer>(&self, serializer: S) -> Result<S::Ok, S::Error> {
        let mut message = serializer.serialize_struct("Message", 2)?;
        message.serialize_field("event", self.0.event)?;
        message.serialize_field("nowPlaying", &WireState(self.0.now_playing))?;
        message.end()
    }
}

#[test]
fn maximal_escaped_metadata_fits_the_transport_data_limit() {
    let state = NowPlaying {
        revision: u32::MAX,
        track_index: 31,
        track_count: 32,
        track: Some(radio_core::music::Track {
            title: "\\".repeat(256),
            artist: "\"".repeat(256),
            duration_ms: 600000,
        }),
    };
    let bytes =
        serde_json::to_vec(&WireMessage(&Message { event: "nowPlaying", now_playing: &state }))
            .unwrap();
    assert!(bytes.len() <= 2048);
}
