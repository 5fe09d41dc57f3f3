use radio_core::music::{
    le16, le32, tag, Catalog, Error as MusicError, FrameCount, MAX_OPUS_BYTES,
};
use radio_core::playback::Playback;
use radio_core::protocol::{self, Action, Color, Command, CommandError, SpectrumStatus};
use radio_core::signaling::{self, ChannelIds, Channels, Started};
use serde::de::{Error as _, MapAccess, Visitor};
use serde::ser::SerializeStruct;

// Made with Python's struct and zlib: one 3-byte Opus silence packet, with spectrum bytes
// 0..31 in version 1, and with tags in version 3.
const SILENCE_V1: [u8; 101] = [
    83, 51, 77, 85, 83, 73, 67, 0, 1, 0, 0, 0, 1, 0, 0, 0,
    128, 187, 0, 0, 2, 0, 0, 0, 20, 0, 0, 0, 98, 129, 236, 117,
    0, 0, 0, 0, 0, 0, 0, 0, 0, 0, 0, 0, 0, 0, 0, 0,
    0, 0, 0, 0, 0, 0, 0, 0, 0, 0, 0, 0, 0, 0, 0, 0,
    3, 0, 0, 1, 2, 3, 4, 5, 6, 7, 8, 9, 10, 11, 12, 13,
    14, 15, 16, 17, 18, 19, 20, 21, 22, 23, 24, 25, 26, 27, 28, 29,
    30, 31, 248, 255, 254,
];

const SILENCE_V2: [u8; 69] = [
    83, 51, 77, 85, 83, 73, 67, 0, 2, 0, 0, 0, 1, 0, 0, 0,
    128, 187, 0, 0, 2, 0, 0, 0, 20, 0, 0, 0, 204, 141, 116, 243,
    0, 0, 0, 0, 0, 0, 0, 0, 0, 0, 0, 0, 0, 0, 0, 0,
    0, 0, 0, 0, 0, 0, 0, 0, 0, 0, 0, 0, 0, 0, 0, 0,
    3, 0, 248, 255, 254,
];

const SILENCE_V3: [u8; 93] = [
    83, 51, 77, 85, 83, 73, 67, 0, 3, 0, 0, 0, 1, 0, 0, 0,
    128, 187, 0, 0, 2, 0, 0, 0, 20, 0, 0, 0, 89, 176, 161, 90,
    0, 0, 0, 0, 0, 0, 0, 0, 0, 0, 0, 0, 0, 0, 0, 0,
    0, 0, 0, 0, 0, 0, 0, 0, 0, 0, 0, 0, 0, 0, 0, 0,
    9, 0, 11, 0, 67, 97, 102, 195, 169, 32, 233, 159, 179, 84, 101, 115,
    116, 32, 97, 114, 116, 105, 115, 116, 3, 0, 248, 255, 254,
];

const SILENCE_V3_MAX_TAG: [u8; 329] = [
    83, 51, 77, 85, 83, 73, 67, 0, 3, 0, 0, 0, 1, 0, 0, 0,
    128, 187, 0, 0, 2, 0, 0, 0, 20, 0, 0, 0, 86, 234, 183, 145,
    0, 0, 0, 0, 0, 0, 0, 0, 0, 0, 0, 0, 0, 0, 0, 0,
    0, 0, 0, 0, 0, 0, 0, 0, 0, 0, 0, 0, 0, 0, 0, 0,
    0, 1, 0, 0, 195, 169, 195, 169, 195, 169, 195, 169, 195, 169, 195, 169,
    195, 169, 195, 169, 195, 169, 195, 169, 195, 169, 195, 169, 195, 169, 195, 169,
    195, 169, 195, 169, 195, 169, 195, 169, 195, 169, 195, 169, 195, 169, 195, 169,
    195, 169, 195, 169, 195, 169, 195, 169, 195, 169, 195, 169, 195, 169, 195, 169,
    195, 169, 195, 169, 195, 169, 195, 169, 195, 169, 195, 169, 195, 169, 195, 169,
    195, 169, 195, 169, 195, 169, 195, 169, 195, 169, 195, 169, 195, 169, 195, 169,
    195, 169, 195, 169, 195, 169, 195, 169, 195, 169, 195, 169, 195, 169, 195, 169,
    195, 169, 195, 169, 195, 169, 195, 169, 195, 169, 195, 169, 195, 169, 195, 169,
    195, 169, 195, 169, 195, 169, 195, 169, 195, 169, 195, 169, 195, 169, 195, 169,
    195, 169, 195, 169, 195, 169, 195, 169, 195, 169, 195, 169, 195, 169, 195, 169,
    195, 169, 195, 169, 195, 169, 195, 169, 195, 169, 195, 169, 195, 169, 195, 169,
    195, 169, 195, 169, 195, 169, 195, 169, 195, 169, 195, 169, 195, 169, 195, 169,
    195, 169, 195, 169, 195, 169, 195, 169, 195, 169, 195, 169, 195, 169, 195, 169,
    195, 169, 195, 169, 195, 169, 195, 169, 195, 169, 195, 169, 195, 169, 195, 169,
    195, 169, 195, 169, 195, 169, 195, 169, 195, 169, 195, 169, 195, 169, 195, 169,
    195, 169, 195, 169, 195, 169, 195, 169, 195, 169, 195, 169, 195, 169, 195, 169,
    195, 169, 195, 169, 3, 0, 248, 255, 254,
];

fn parse_music(mut bytes: &[u8]) -> Result<Catalog, MusicError> {
    Catalog::parse(&mut bytes)
}

fn packet(catalog: &Catalog, mut bytes: &[u8], index: u32) -> Result<Vec<u8>, MusicError> {
    let mut out = [0; MAX_OPUS_BYTES];
    let length = catalog.read_frame(&mut bytes, 0, index, &mut out)?;
    Ok(out[..length].to_vec())
}

fn fixture() -> Vec<u8> {
    SILENCE_V1.to_vec()
}

struct WireCommand(Command);

impl<'de> serde::Deserialize<'de> for WireCommand {
    fn deserialize<D: serde::Deserializer<'de>>(deserializer: D) -> Result<Self, D::Error> {
        deserializer.deserialize_map(CommandVisitor)
    }
}

struct CommandVisitor;

impl<'de> Visitor<'de> for CommandVisitor {
    type Value = WireCommand;

    fn expecting(&self, f: &mut std::fmt::Formatter<'_>) -> std::fmt::Result {
        f.write_str("a command")
    }

    fn visit_map<A: MapAccess<'de>>(self, mut map: A) -> Result<WireCommand, A::Error> {
        let mut led: Option<Option<[u8; 3]>> = None;
        let mut action: Option<Option<String>> = None;
        let mut command_id: Option<Option<String>> = None;
        while let Some(key) = map.next_key::<String>()? {
            match key.as_str() {
                "led" if led.is_none() => led = Some(map.next_value()?),
                "action" if action.is_none() => action = Some(map.next_value()?),
                "command_id" if command_id.is_none() => command_id = Some(map.next_value()?),
                _ => return Err(A::Error::custom("unknown or repeated field")),
            }
        }
        let action = match action.flatten().as_deref() {
            None => None,
            Some("play") => Some(Action::Play),
            Some("pause") => Some(Action::Pause),
            Some("restart") => Some(Action::Restart),
            Some("next") => Some(Action::Next),
            Some(_) => return Err(A::Error::custom("unknown action")),
        };
        Ok(WireCommand(Command {
            led: led.flatten().map(Color),
            action,
            command_id: command_id.flatten(),
        }))
    }
}

fn decode(bytes: &[u8]) -> Option<Command> {
    serde_json::from_slice::<WireCommand>(bytes).ok().map(|wire| wire.0)
}

fn parse_command(bytes: &[u8]) -> Result<Command, CommandError> {
    Command::parse(bytes, decode)
}

#[test]
fn pack_reads_known_crc_and_ignores_erased_partition_tail() {
    let mut bytes = fixture();
    bytes.extend([255; 100]);
    let pack = parse_music(&bytes).unwrap();
    assert!(pack.songs()[0].metadata.as_ref().is_none());
    assert_eq!(packet(&pack, bytes.as_ref(), 0).unwrap(), [0xf8, 0xff, 0xfe]);
    assert!(packet(&pack, bytes.as_ref(), 1).is_err());
}

#[test]
fn every_truncated_fixture_is_rejected_without_panicking() {
    let bytes = fixture();
    for end in 0..bytes.len() {
        assert!(parse_music(&bytes[..end]).is_err(), "accepted truncated length {end}");
    }
}

#[test]
fn v2_pack_needs_no_spectrum_bytes() {
    let bytes = SILENCE_V2;
    let pack = parse_music(&bytes).unwrap();
    assert!(pack.songs()[0].metadata.as_ref().is_none());
    assert_eq!(packet(&pack, bytes.as_ref(), 0).unwrap(), [0xf8, 0xff, 0xfe]);
    for end in 0..bytes.len() {
        assert!(parse_music(&bytes[..end]).is_err());
    }
    let mut corrupt = bytes.to_vec();
    *corrupt.last_mut().unwrap() ^= 1;
    assert_eq!(parse_music(&corrupt).unwrap_err(), MusicError::Checksum);
}

struct WireTrack<'a>(&'a radio_core::music::Track);

impl serde::Serialize for WireTrack<'_> {
    fn serialize<S: serde::Serializer>(&self, serializer: S) -> Result<S::Ok, S::Error> {
        let mut track = serializer.serialize_struct("Track", 3)?;
        track.serialize_field("title", &self.0.title)?;
        track.serialize_field("artist", &self.0.artist)?;
        track.serialize_field("durationMs", &self.0.duration_ms)?;
        track.end()
    }
}

#[test]
fn metadata_pack_keeps_unicode_tags_audio_and_duration_together() {
    let mut bytes = SILENCE_V3.to_vec();
    bytes.extend([255; 100]);
    let pack = parse_music(&bytes).unwrap();
    let track = pack.songs()[0].metadata.as_ref().unwrap();
    assert_eq!(track.title, "Café 音");
    assert_eq!(track.artist, "Test artist");
    assert_eq!(track.duration_ms, 20);
    assert_eq!(packet(&pack, bytes.as_ref(), 0).unwrap(), [0xf8, 0xff, 0xfe]);
    let expected: serde_json::Value = serde_json::from_str(
        r#"{"title": "Café 音", "artist": "Test artist", "durationMs": 20}"#,
    )
    .unwrap();
    assert_eq!(serde_json::to_value(WireTrack(track)).unwrap(), expected);
}

#[test]
fn metadata_lengths_encoding_and_integrity_are_validated() {
    let bytes = SILENCE_V3;
    for end in 0..bytes.len() {
        assert!(parse_music(&bytes[..end]).is_err());
    }
    for length in [0u16, 257, u16::MAX] {
        let mut invalid = bytes.to_vec();
        invalid[64..66].copy_from_slice(&length.to_le_bytes());
        assert!(parse_music(&invalid).is_err());
    }
    let mut corrupt = bytes.to_vec();
    corrupt[68] = b'D';
    assert_eq!(parse_music(&corrupt).unwrap_err(), MusicError::Checksum);
    for bad_byte in [0u8, 255] {
        let mut invalid = bytes.to_vec();
        invalid[68] = bad_byte;
        let crc = crc32fast::hash(&invalid[64..]);
        invalid[28..32].copy_from_slice(&crc.to_le_bytes());
        assert_eq!(parse_music(&invalid).unwrap_err(), MusicError::Metadata);
    }
}

#[test]
fn metadata_accepts_a_maximum_utf8_title_and_an_unknown_artist() {
    let bytes = SILENCE_V3_MAX_TAG;
    let pack = parse_music(&bytes).unwrap();
    let track = pack.songs()[0].metadata.as_ref().unwrap();
    assert_eq!(track.title.len(), 256);
    assert_eq!(track.title.chars().count(), 128);
    assert!(track.artist.is_empty());
    assert_eq!(packet(&pack, bytes.as_ref(), 0).unwrap(), [0xf8, 0xff, 0xfe]);
}

#[test]
fn corrupted_payload_and_hostile_record_lengths_are_rejected() {
    let mut bytes = fixture();
    bytes[100] ^= 1;
    assert_eq!(parse_music(&bytes).unwrap_err(), MusicError::Checksum);
    for size in [0u16, 1276, u16::MAX] {
        let mut bytes = fixture();
        bytes[64..66].copy_from_slice(&size.to_le_bytes());
        assert_eq!(parse_music(&bytes).unwrap_err(), MusicError::PacketSize);
    }
    for count in [0u32, 30_001, u32::MAX] {
        let mut bytes = fixture();
        bytes[12..16].copy_from_slice(&count.to_le_bytes());
        assert_eq!(parse_music(&bytes).unwrap_err(), MusicError::FrameCount);
    }
}

#[test]
fn arbitrary_small_inputs_do_not_panic() {
    let mut random = 123u32;
    for length in 0..1024 {
        let bytes: Vec<u8> = (0..length)
            .map(|_| {
                random ^= random << 13;
                random ^= random >> 17;
                random ^= random << 5;
                random as u8
            })
            .collect();
        let _ = parse_music(&bytes);
        let _ = parse_command(&bytes);
    }
}

fn player() -> Playback {
    Playback::new(FrameCount::new(5).unwrap(), 1_000_000)
}

#[test]
fn stall_skips_audio_without_bursting_and_wraps_track() {
    let mut player = player();
    assert_eq!(player.due(1_000_000).unwrap().index, 0);
    let due = player.due(1_141_000).unwrap();
    assert_eq!((due.index, due.pts_ms), (2, 140));
    assert_eq!(player.skipped_frames(), 6);
    assert!(player.due(1_141_001).is_none());
    assert_eq!(player.due(1_160_000).unwrap().index, 3);
}

#[test]
fn pause_holds_position_while_transport_clock_advances() {
    let mut player = player();
    player.due(1_000_000);
    player.apply(Action::Pause);
    let a = player.due(1_020_000).unwrap();
    let b = player.due(1_080_000).unwrap();
    assert_eq!((a.index, b.index, b.pts_ms), (1, 1, 80));
    assert!(a.paused && b.paused);
    player.apply(Action::Play);
    let c = player.due(1_100_000).unwrap();
    assert_eq!((c.index, c.pts_ms, c.paused), (1, 100, false));
}

#[test]
fn restart_resets_song_but_never_resets_transport_clock() {
    let mut player = player();
    player.due(1_000_000);
    player.due(1_020_000);
    player.apply(Action::Pause);
    player.apply(Action::Restart);
    let due = player.due(1_040_000).unwrap();
    assert_eq!((due.index, due.pts_ms, due.paused), (0, 40, false));
}

#[test]
fn spectrum_has_independent_little_endian_wire_oracle() {
    let due = radio_core::playback::Due {
        epoch: 0,
        track_index: 0,
        revision: 0,
        index: 17,
        pts_ms: 0x12345678,
        paused: false,
        spectrum: true,
    };
    let bytes = protocol::spectrum(due, &[42; 32]);
    assert_eq!(&bytes[..12], &[2, 0, 0, 0, 0x78, 0x56, 0x34, 0x12, 0x54, 1, 0, 0]);
    assert!(bytes[12..44].iter().all(|&v| v == 42));
    let paused = protocol::spectrum(radio_core::playback::Due { paused: true, ..due }, &[42; 32]);
    assert_eq!(paused[1], 1);
    assert!(paused[12..44].iter().all(|&v| v == 0));
}

#[test]
fn spectrum_carries_the_revision_last() {
    let due = radio_core::playback::Due {
        epoch: 0,
        track_index: 3,
        revision: 0xa1b2c3d4,
        index: 0,
        pts_ms: 0,
        paused: false,
        spectrum: true,
    };
    let mut bands = [0u8; 32];
    bands[0] = 1;
    bands[31] = 9;
    let bytes = protocol::spectrum(due, &bands);
    assert_eq!((bytes[12], bytes[43]), (1, 9));
    assert_eq!(&bytes[44..], &[0xd4, 0xc3, 0xb2, 0xa1]);
}

#[test]
fn commands_enforce_color_and_keep_maintenance_out_of_network_protocol() {
    assert!(parse_command(br#"{"led":[0,255,17],"command_id":"abc"}"#).is_ok());
    for bytes in [
        br#"{"led":[-1,0,0]}"#.as_slice(),
        br#"{"led":[256,0,0]}"#,
        br#"{"led":[1.5,0,0]}"#,
        br#"{"led":[0,0]}"#,
        br#"{"cmd":"restart_device","led":[0,0,0]}"#,
        br#"{"action":"erase"}"#,
        br#"{"action":"pause","action":"play"}"#,
        br#"{"led":[0,0,0]} trailing"#,
    ] {
        assert!(parse_command(bytes).is_err());
    }
    assert!(parse_command(&[b' '; 513]).is_err());
    let oversized_id = format!(r#"{{"action":"pause","command_id":"{}"}}"#, "x".repeat(65));
    assert!(parse_command(oversized_id.as_bytes()).is_err());
}

#[test]
fn each_command_error_has_its_input_and_its_text() {
    let cases = [
        (vec![b' '; 513], CommandError::TooLarge, "invalid control command: TooLarge"),
        (b"{".to_vec(), CommandError::Invalid, "invalid control command: Invalid"),
        (b"{\"command_id\":\"a\"}".to_vec(), CommandError::Empty, "invalid control command: Empty"),
        (
            format!(r#"{{"action":"play","command_id":"{}"}}"#, "é".repeat(33)).into_bytes(),
            CommandError::IdTooLong,
            "invalid control command: IdTooLong",
        ),
    ];
    for (bytes, error, text) in cases {
        assert_eq!(parse_command(&bytes).unwrap_err(), error);
        assert_eq!(error.message(), text);
    }
    let longest = format!(r#"{{"action":"next","command_id":"{}"}}"#, "é".repeat(32));
    let command = parse_command(longest.as_bytes()).unwrap();
    assert_eq!(command.action, Some(Action::Next));
    assert_eq!(command.command_id.unwrap().len(), 64);
    assert!(Command::check(None).is_err());
}

#[test]
fn oversized_messages_are_never_decoded() {
    let mut decoded = false;
    let result = Command::parse(&[b' '; 513], |_| {
        decoded = true;
        None
    });
    assert_eq!(result.unwrap_err(), CommandError::TooLarge);
    assert!(!decoded);
}

fn started(text: &str) -> Started {
    let value: serde_json::Value = serde_json::from_str(text).unwrap();
    let description = &value["sessionDescription"];
    Started::new(
        value["generation"].as_str().unwrap().to_owned(),
        description["type"].as_str().unwrap().to_owned(),
        description["sdp"].as_str().unwrap().to_owned(),
    )
}

#[test]
fn publisher_validation_redacts_sdp_and_rejects_wrong_response_types() {
    let raw = r#"{"generation":"g1","sessionDescription":{"type":"answer","sdp":"v=0\r\na=ice-pwd:secret"}}"#;
    let answer = started(raw);
    assert!(!answer.describe().contains("secret"));
    assert!(answer.validate().is_ok());
    let wrong = started(&raw.replace("answer", "offer"));
    assert!(wrong.validate().is_err());
}

#[test]
fn publisher_answers_have_bounds() {
    let answer = |generation: &str, sdp: &str| {
        Started::new(generation.to_owned(), "answer".to_owned(), sdp.to_owned()).validate()
    };
    let (identity, sdp) = answer("g1", "v=0").unwrap();
    assert_eq!(identity.generation(), "g1");
    assert_eq!(identity.clone().generation(), "g1");
    assert_eq!(sdp, "v=0");
    assert!(answer(&"g".repeat(64), "v=0").is_ok());
    assert!(answer("g1", &format!("v=0{}", "a".repeat(15_997))).is_ok());
    for (generation, sdp) in [
        (String::new(), "v=0".to_owned()),
        ("g".repeat(65), "v=0".to_owned()),
        ("g1".to_owned(), "v=1".to_owned()),
        ("g1".to_owned(), "v=".to_owned()),
        ("g1".to_owned(), format!("v=0{}", "a".repeat(15_998))),
        ("g1".to_owned(), "v=0\0".to_owned()),
    ] {
        assert_eq!(answer(&generation, &sdp).unwrap_err(), "invalid publisher answer");
    }
}

fn channels(text: &str) -> Channels {
    let value: serde_json::Value = serde_json::from_str(text).unwrap();
    let mut channels = Channels::new();
    for channel in value["channels"].as_array().unwrap() {
        channels.push(
            channel["dataChannelName"].as_str().unwrap().to_owned(),
            channel["id"].as_u64().unwrap() as u16,
        );
    }
    channels
}

#[test]
fn channel_allocation_is_checked_by_name_not_response_order() {
    let reversed = r#"{"channels":[{"dataChannelName":"spectrum","id":4},{"dataChannelName":"robot","id":2}]}"#;
    assert!(channels(reversed).validate().is_ok());
    let reassigned = reversed.replace("\"id\":2", "\"id\":8").replace("\"id\":4", "\"id\":12");
    let ids = channels(&reassigned).validate().unwrap();
    assert_eq!((ids.robot(), ids.spectrum()), (8, 12));
    assert!(channels(&reversed.replace("\"id\":2", "\"id\":4")).validate().is_err());
    assert!(channels(&reversed.replace("spectrum", "robot")).validate().is_err());
}

#[test]
fn channel_errors_tell_allocation_from_identifiers() {
    let mut three = Channels::new();
    for (name, id) in [("robot", 2), ("spectrum", 4), ("extra", 6)] {
        three.push(name.to_owned(), id);
    }
    assert_eq!(three.validate().unwrap_err(), "unexpected data channel allocation");
    let mut reserved = Channels::new();
    reserved.push("robot".to_owned(), 0);
    reserved.push("spectrum".to_owned(), 4);
    assert_eq!(reserved.validate().unwrap_err(), "invalid application channel IDs");
}

#[test]
fn channel_ids_reject_collisions_and_reserved_streams() {
    for (robot, spectrum) in [(0, 2), (2, 0), (4, 4), (65535, 6), (6, 65535)] {
        assert!(ChannelIds::new(robot, spectrum).is_err());
    }
    assert!(ChannelIds::new(42, 65534).is_ok());
}

#[test]
fn recovery_distinguishes_transient_failure_and_revoked_generation() {
    assert!(signaling::retryable(-1));
    assert!(signaling::retryable(429));
    assert!(signaling::retryable(503));
    assert!(!signaling::retryable(401));
    assert!(!signaling::needs_recovery(503, 5_000_000));
    assert!(signaling::needs_recovery(503, 56_000_000));
    assert!(signaling::needs_recovery(409, 1));
}

#[test]
fn too_many_requests_recover_by_time_alone() {
    assert!(!signaling::needs_recovery(429, 55_000_000));
    assert!(signaling::needs_recovery(429, 55_000_001));
    assert!(!signaling::needs_recovery(-1, 0));
    assert!(signaling::needs_recovery(499, 0));
    assert!(!signaling::needs_recovery(500, 0));
}

#[test]
fn spectrum_status_starts_from_the_fixed_configuration() {
    let status = SpectrumStatus::default();
    assert_eq!(status.source, "fft");
    assert_eq!((status.fft_size, status.sample_rate, status.core), (2048, 48_000, 1));
    assert_eq!(status.frames + status.errors + status.resets + status.stale, 0);
}

#[test]
fn tags_are_utf8_without_control_codes() {
    assert_eq!(tag("Café 音".as_bytes()).unwrap(), "Café 音");
    assert_eq!(tag(b"").unwrap(), "");
    for bytes in [b"a\x00".as_slice(), b"\x7f", b"\xff", b"\xc3", "\u{85}".as_bytes()] {
        assert_eq!(tag(bytes).unwrap_err(), MusicError::Metadata);
    }
}

#[test]
fn numbers_are_little_endian() {
    let bytes = [9, 0x34, 0x12, 0xcd, 0xab];
    assert_eq!(le16(&bytes, 1), 0x1234);
    assert_eq!(le32(&bytes, 1), 0xabcd1234);
}

#[test]
fn blank_titles_are_refused() {
    let mut bytes = SILENCE_V3.to_vec();
    for byte in &mut bytes[68..77] {
        *byte = b' ';
    }
    let crc = crc32fast::hash(&bytes[64..]);
    bytes[28..32].copy_from_slice(&crc.to_le_bytes());
    assert_eq!(parse_music(&bytes).unwrap_err(), MusicError::Metadata);
}

#[test]
fn each_music_error_has_its_text() {
    let texts = [
        (MusicError::Header, "invalid music pack header"),
        (MusicError::Format, "music must be stereo 48 kHz Opus with 20 ms frames"),
        (MusicError::FrameCount, "music frame count is outside the supported range"),
        (MusicError::Truncated, "music pack ends inside a frame"),
        (MusicError::PacketSize, "invalid Opus packet size"),
        (MusicError::Checksum, "music pack checksum mismatch"),
        (MusicError::Metadata, "invalid music title or artist"),
        (MusicError::Memory, "cannot allocate music frame index"),
        (MusicError::TrackCount, "music track count or index is outside the supported range"),
        (MusicError::Read, "music storage read failed"),
    ];
    for (error, text) in texts {
        assert_eq!(error.message(), text);
    }
}

#[test]
fn headers_of_other_formats_are_refused() {
    for (offset, error) in [
        (0, MusicError::Header),
        (8, MusicError::Header),
        (16, MusicError::Format),
        (20, MusicError::Format),
        (24, MusicError::Format),
    ] {
        let mut bytes = fixture();
        bytes[offset] ^= 0x40;
        assert_eq!(parse_music(&bytes).unwrap_err(), error);
    }
    assert_eq!(parse_music(&fixture()[..63]).unwrap_err(), MusicError::Truncated);
}
