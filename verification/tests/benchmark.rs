use radio_core::benchmark::music::{Error, Pack};
use radio_core::benchmark::playback::{Action, Playback};
use radio_core::benchmark::radio::{
    bounded_length, check_partition, offer_text, peer_state, Radio,
};
use radio_core::benchmark::signaling::{needs_recovery, retryable, Channels, Heartbeat, Started};
use radio_core::music::{FrameCount, Reserve};
use radio_core::protocol::{Color, SILENCE};
use radio_core::radio::{PeerState, Transition};

/// Memory that grants every request or none.
struct Asked {
    grants: bool,
    asked: Vec<usize>,
}

impl Reserve for Asked {
    fn reserve<T>(&mut self, index: &mut Vec<T>, additional: usize) -> Option<usize> {
        self.asked.push(additional);
        if !self.grants || index.try_reserve_exact(additional).is_err() {
            return None;
        }
        Some(index.capacity())
    }
}

// Made with Python's struct and zlib: one silent packet with spectrum bytes 0..31.
const SILENCE_V1: [u8; 101] = [
    83, 51, 77, 85, 83, 73, 67, 0, 1, 0, 0, 0, 1, 0, 0, 0,
    128, 187, 0, 0, 2, 0, 0, 0, 20, 0, 0, 0, 98, 129, 236, 117,
    0, 0, 0, 0, 0, 0, 0, 0, 0, 0, 0, 0, 0, 0, 0, 0,
    0, 0, 0, 0, 0, 0, 0, 0, 0, 0, 0, 0, 0, 0, 0, 0,
    3, 0, 0, 1, 2, 3, 4, 5, 6, 7, 8, 9, 10, 11, 12, 13,
    14, 15, 16, 17, 18, 19, 20, 21, 22, 23, 24, 25, 26, 27, 28, 29,
    30, 31, 248, 255, 254,
];


#[test]
fn packs_give_packets_with_their_spectrum() {
    let mut bytes = SILENCE_V1.to_vec();
    bytes.extend([255; 50]);
    let pack = Pack::parse(&bytes).unwrap();
    assert_eq!(pack.frame_count().get(), 1);
    let frame = pack.frame(0).unwrap();
    assert_eq!(frame.opus, [0xf8, 0xff, 0xfe]);
    assert_eq!(frame.bands, (0..32).collect::<Vec<u8>>());
    assert!(pack.frame(1).is_none());
}

#[test]
fn damaged_packs_are_refused() {
    for end in 0..SILENCE_V1.len() {
        let error = if end < 64 { Error::Header } else { Error::Truncated };
        assert_eq!(Pack::parse(&SILENCE_V1[..end]).unwrap_err(), error);
    }
    let damage = |offset: usize, bytes: &[u8]| {
        let mut pack = SILENCE_V1.to_vec();
        pack[offset..offset + bytes.len()].copy_from_slice(bytes);
        Pack::parse(&pack).unwrap_err()
    };
    assert_eq!(damage(0, b"X"), Error::Header);
    assert_eq!(damage(8, &[2]), Error::Header);
    assert_eq!(damage(16, &[0]), Error::Format);
    assert_eq!(damage(12, &[0]), Error::FrameCount);
    assert_eq!(damage(12, &30_001u32.to_le_bytes()), Error::FrameCount);
    assert_eq!(damage(12, &[2]), Error::Truncated);
    assert_eq!(damage(64, &[0, 0]), Error::PacketSize);
    assert_eq!(damage(64, &[4, 0]), Error::Truncated);
    assert_eq!(damage(100, &[0]), Error::Checksum);
    let mut memory = Asked { grants: false, asked: Vec::new() };
    assert_eq!(Pack::parse_with(&SILENCE_V1, &mut memory).unwrap_err(), Error::Memory);
    assert_eq!(memory.asked, [1]);
    memory.grants = true;
    assert_eq!(Pack::parse_with(&SILENCE_V1, &mut memory).unwrap().frame_count().get(), 1);
    assert_eq!(memory.asked, [1, 1]);
    assert_eq!(Pack::parse_with(&SILENCE_V1[..63], &mut memory).unwrap_err(), Error::Header);
    assert_eq!(memory.asked, [1, 1]);
    for (error, text) in [
        (Error::Header, "invalid music pack header"),
        (Error::Format, "music must be stereo 48 kHz Opus with 20 ms frames"),
        (Error::FrameCount, "music frame count is outside the supported range"),
        (Error::Truncated, "music pack ends inside a frame"),
        (Error::PacketSize, "invalid Opus packet size"),
        (Error::Checksum, "music pack checksum mismatch"),
        (Error::Memory, "cannot allocate music frame index"),
    ] {
        assert_eq!(error.message(), text);
    }
}

#[test]
fn one_song_loops_and_skips() {
    let mut player = Playback::new(FrameCount::new(5).unwrap(), 1_000_000);
    assert!(player.due(999_999).is_none());
    assert_eq!(player.due(1_000_000).unwrap().index, 0);
    let due = player.due(1_141_000).unwrap();
    assert_eq!((due.index, due.pts_ms, due.spectrum), (2, 140, false));
    assert_eq!(player.skipped_frames(), 6);
    assert!(player.due(1_141_001).is_none());
    player.apply(Action::Pause);
    assert_eq!(player.due(1_180_000).unwrap().index, 3);
    assert!(player.paused());
    assert_eq!((player.position_ms(), player.duration_ms()), (60, 100));
    player.apply(Action::Play);
    assert_eq!(player.due(1_200_000).unwrap().index, 3);
    player.apply(Action::Restart);
    let due = player.due(1_220_000).unwrap();
    assert_eq!((due.index, due.pts_ms, due.paused), (0, 220, false));
}

#[test]
fn a_stalled_song_hands_out_what_a_punctual_one_would() {
    for late in 1..12u64 {
        let mut punctual = Playback::new(FrameCount::new(5).unwrap(), 0);
        let mut stalled = Playback::new(FrameCount::new(5).unwrap(), 0);
        let mut expected = punctual.due(0);
        for frame in 1..=late {
            expected = punctual.due(frame * 20_000);
        }
        assert_eq!(stalled.due(late * 20_000), expected);
    }
}

#[test]
fn allocations_are_checked_by_name_and_stream() {
    let allocation = |entries: &[(&str, u16)]| {
        let mut channels = Channels::new();
        for (name, id) in entries {
            channels.push((*name).to_owned(), *id);
        }
        channels.validate(2, 4)
    };
    assert!(allocation(&[("robot", 2), ("spectrum", 4)]).is_ok());
    assert!(allocation(&[("spectrum", 4), ("robot", 2)]).is_ok());
    for entries in [
        &[("robot", 2)][..],
        &[("robot", 2), ("robot", 2)],
        &[("robot", 4), ("spectrum", 2)],
        &[("robot", 2), ("spectrum", 4), ("robot", 6)],
    ] {
        assert_eq!(allocation(entries).unwrap_err(), "unexpected data channel allocation");
    }
    assert!(retryable(500) && !needs_recovery(500, 0));
    let started = Started::new("g".to_owned(), "answer".to_owned(), "v=0".to_owned());
    assert!(started.validate().is_ok());
    let mut heartbeat = Heartbeat { last_success: 0 };
    assert!(heartbeat.answered(200, true, 9).is_ok());
    assert_eq!(heartbeat.last_success, 9);
    assert!(heartbeat.answered(503, false, 55_000_009).is_ok());
    assert!(heartbeat.answered(503, false, 55_000_010).is_err());
}

#[test]
fn peers_answer_within_bounds() {
    assert_eq!(bounded_length(0, 4).unwrap(), 0);
    assert_eq!(bounded_length(4, 4).unwrap(), 4);
    assert_eq!(bounded_length(-1, 4).unwrap_err().message(), "invalid peer response length");
    assert_eq!(bounded_length(5, 4).unwrap_err().message(), "oversized peer response");
    assert_eq!(
        [1, -1, 0, 7].map(peer_state),
        [PeerState::Connected, PeerState::Lost, PeerState::Connecting, PeerState::Connecting]
    );
    assert!(offer_text(b"").unwrap().is_none());
    assert_eq!(offer_text(b"v=0").unwrap().unwrap(), "v=0");
    assert_eq!(offer_text(b"\xff").unwrap_err().message(), "invalid local SDP");
    assert!(check_partition(4 * 1024 * 1024).is_ok());
    assert_eq!(check_partition(1).unwrap_err().message(), "unexpected music partition size");
}

#[test]
fn the_archived_radio_sends_audio_and_spectrum() {
    let pack = Pack::parse(&SILENCE_V1).unwrap();
    let mut radio = Radio::new(&pack);
    assert_eq!(radio.observe(PeerState::Connected), Transition::Announce);
    assert!(radio.admit_start().is_ok());
    radio.start(0);
    assert_eq!(radio.admit_start().unwrap_err().message(), "playback already started");
    let due = radio.due(0).unwrap();
    let sending = Radio::sending(&pack, due, &[1, 2]).unwrap();
    assert_eq!(sending.opus, [0xf8, 0xff, 0xfe]);
    let bands: Vec<u8> = (0..32).collect();
    assert_eq!(sending.bands, Some(&bands[..]));
    let ack = radio.perform(Some(Color([1, 1, 1])), false, Some(Action::Pause));
    assert_eq!(ack, (-1, Color([0, 12, 4]), true));
    let ack = radio.perform(Some(Color([1, 1, 1])), true, None);
    assert_eq!(ack, (0, Color([1, 1, 1]), true));
    let due = radio.due(20_000).unwrap();
    let sending = Radio::sending(&pack, due, &SILENCE).unwrap();
    assert_eq!((sending.opus, sending.bands.is_none()), (&SILENCE[..], true));
    let outside = radio_core::benchmark::playback::Due { index: 1, ..due };
    assert_eq!(
        Radio::sending(&pack, outside, &SILENCE).unwrap_err().message(),
        "playback index out of range"
    );
    radio.refuse();
    radio.count_failures(true, false);
    radio.count_failures(false, true);
    assert!(radio.telemetry_due(0) && !radio.telemetry_due(499_999));
    assert!(radio.telemetry_due(500_000));
    let counters = radio.session().counters;
    assert_eq!(
        (counters.audio, counters.data, counters.rejected, counters.sequence),
        (1, 1, 1, 2)
    );
    let message = radio.telemetry(500_999, 12_345, -61, 4096, 3, 800);
    assert_eq!((message.event, message.firmware), ("telemetry", "rust"));
    assert_eq!((message.sequence, message.random, message.uptime_ms), (2, 345, 500));
    assert_eq!((message.position_ms, message.duration_ms, message.paused), (0, 20, true));
    assert_eq!((message.rssi, message.heap, message.stack_free), (-61, 4096, 800));
    assert_eq!((message.audio_errors, message.data_errors, message.skipped_frames), (1, 1, 0));
    assert_eq!((message.rejected_commands, message.dropped_commands), (1, 3));
    assert_eq!(message.led, Color([1, 1, 1]));
}
