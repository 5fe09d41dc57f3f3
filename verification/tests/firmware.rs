use radio_core::analysis::{Admission, Client, Job, Output, Queued, Worker};
use radio_core::console::{Input, Line, Maintenance};
use radio_core::error::{check, Error};
use radio_core::metrics::{Hardware, Memory, Reading};
use radio_core::music::{Catalog, Error as MusicError, ReadAt};
use radio_core::now_playing::NowPlaying;
use radio_core::platform::{certificate_lengths, clock_step, restorable, ClockStep, TaskProfile};
use radio_core::playback::Due;
use radio_core::protocol::{Action, Color, Command, MusicStatus, SpectrumStatus};
use radio_core::radio::{
    idle_spectrum, to_analyse, Audio, PeerState, Radio, SendOutcome, Transition,
};
use radio_core::recovery::{backoff_seconds, delay_ms};
use radio_core::session::{
    acknowledged, boot_id, judge, response_length, Endpoint, Heartbeat, Outcome, Step, Verdict,
};
use radio_core::spectrum::{Tag, FFT_SIZE};
use radio_core::station::Station;
use radio_core::storage::{MusicStorage, ReadStats, CACHE_BYTES};
use std::cell::{Cell, RefCell};
use std::rc::Rc;

// Made with Python's struct and zlib: two songs of two and three silent frames.
const FIXTURE: [u8; 259] = [
    83, 51, 77, 85, 83, 73, 67, 0, 4, 0, 0, 0, 2, 0, 0, 0,
    128, 187, 0, 0, 2, 0, 0, 0, 20, 0, 0, 0, 16, 68, 202, 197,
    3, 1, 0, 0, 0, 0, 0, 0, 0, 0, 0, 0, 0, 0, 0, 0,
    0, 0, 0, 0, 0, 0, 0, 0, 0, 0, 0, 0, 0, 0, 0, 0,
    92, 0, 0, 0, 83, 51, 77, 85, 83, 73, 67, 0, 3, 0, 0, 0,
    2, 0, 0, 0, 128, 187, 0, 0, 2, 0, 0, 0, 20, 0, 0, 0,
    168, 180, 158, 149, 0, 0, 0, 0, 0, 0, 0, 0, 0, 0, 0, 0,
    0, 0, 0, 0, 0, 0, 0, 0, 0, 0, 0, 0, 0, 0, 0, 0,
    0, 0, 0, 0, 11, 0, 3, 0, 70, 105, 114, 115, 116, 32, 99, 97,
    102, 195, 169, 79, 110, 101, 3, 0, 248, 255, 254, 3, 0, 248, 255, 254,
    95, 0, 0, 0, 83, 51, 77, 85, 83, 73, 67, 0, 3, 0, 0, 0,
    3, 0, 0, 0, 128, 187, 0, 0, 2, 0, 0, 0, 20, 0, 0, 0,
    176, 204, 236, 169, 0, 0, 0, 0, 0, 0, 0, 0, 0, 0, 0, 0,
    0, 0, 0, 0, 0, 0, 0, 0, 0, 0, 0, 0, 0, 0, 0, 0,
    0, 0, 0, 0, 9, 0, 3, 0, 231, 172, 172, 228, 186, 140, 233, 166,
    150, 84, 119, 111, 3, 0, 248, 255, 254, 3, 0, 248, 255, 254, 3, 0,
    248, 255, 254,
];

struct Flash {
    bytes: Vec<u8>,
    reads: Rc<RefCell<Vec<(usize, usize)>>>,
    broken: Rc<Cell<bool>>,
}

impl ReadAt for Flash {
    fn size(&self) -> usize {
        self.bytes.len()
    }
    fn read_exact(&mut self, offset: usize, out: &mut [u8]) -> Result<(), MusicError> {
        self.reads.borrow_mut().push((offset, out.len()));
        if self.broken.get() {
            out.fill(0xee);
            return Err(MusicError::Read);
        }
        out.copy_from_slice(
            self.bytes.get(offset..offset + out.len()).ok_or(MusicError::Truncated)?,
        );
        Ok(())
    }
}

fn flash(bytes: Vec<u8>) -> Flash {
    Flash { bytes, reads: Rc::default(), broken: Rc::default() }
}

#[test]
fn the_cache_reads_what_the_partition_holds() {
    let bytes: Vec<u8> = (0..3 * CACHE_BYTES + 100).map(|i| (i * 31 % 251) as u8).collect();
    let mut storage = MusicStorage::open(flash(bytes.clone())).unwrap();
    assert_eq!(storage.size(), bytes.len());
    assert_eq!(storage.cache_bytes(), 32 * 1024);
    for (offset, length) in [
        (0, 10),
        (5, 0),
        (CACHE_BYTES - 3, 7),
        (2 * CACHE_BYTES, CACHE_BYTES + 100),
        (1, 3 * CACHE_BYTES),
        (bytes.len(), 0),
    ] {
        let mut out = vec![9; length];
        storage.read_exact(offset, &mut out).unwrap();
        assert_eq!(out, bytes[offset..offset + length]);
    }
    let mut out = vec![9; 2];
    assert_eq!(storage.read_exact(bytes.len() - 1, &mut out).unwrap_err(), MusicError::Truncated);
    assert_eq!(storage.read_exact(usize::MAX, &mut out).unwrap_err(), MusicError::Truncated);
    assert_eq!(out, [9, 9]);
}

#[test]
fn partitions_must_have_a_size_and_may_fail() {
    assert_eq!(
        MusicStorage::open(flash(Vec::new())).err().unwrap().message(),
        "music partition is missing or too large"
    );
    assert!(MusicStorage::open(flash(vec![0; 16 * 1024 * 1024])).is_ok());
    assert!(MusicStorage::open(flash(vec![0; 16 * 1024 * 1024 + 1])).is_err());
    let broken = flash(vec![0; 100]);
    broken.broken.set(true);
    let mut storage = MusicStorage::open(broken).unwrap();
    assert_eq!(storage.read_exact(0, &mut [0; 4]).unwrap_err(), MusicError::Read);
}

#[test]
fn whole_blocks_are_fetched_where_the_cache_does_not_hold_them() {
    let bytes: Vec<u8> = (0..2 * CACHE_BYTES + 100).map(|i| (i * 31 % 251) as u8).collect();
    let source = flash(bytes.clone());
    let reads = Rc::clone(&source.reads);
    let mut storage = MusicStorage::open(source).unwrap();
    let mut read = |offset: usize, length: usize| {
        let mut out = vec![0; length];
        storage.read_exact(offset, &mut out).map(|()| assert_eq!(out, bytes[offset..][..length]))
    };
    read(10, 20).unwrap();
    read(0, CACHE_BYTES).unwrap();
    assert_eq!(read(bytes.len() - 3, 4).unwrap_err(), MusicError::Truncated);
    read(5, 0).unwrap();
    assert_eq!(reads.borrow().as_slice(), [(0, CACHE_BYTES)]);
    read(CACHE_BYTES - 1, CACHE_BYTES + 2).unwrap();
    assert_eq!(
        reads.borrow().as_slice(),
        [(0, CACHE_BYTES), (CACHE_BYTES, CACHE_BYTES), (2 * CACHE_BYTES, 100)]
    );
    read(2 * CACHE_BYTES, 100).unwrap();
    assert_eq!(reads.borrow().len(), 3);
}

#[test]
fn a_failed_fetch_leaves_the_cached_block() {
    let bytes: Vec<u8> = (0..2 * CACHE_BYTES).map(|i| (i * 31 % 251) as u8).collect();
    let source = flash(bytes.clone());
    let (reads, broken) = (Rc::clone(&source.reads), Rc::clone(&source.broken));
    let mut storage = MusicStorage::open(source).unwrap();
    let mut out = [0; 8];
    storage.read_exact(0, &mut out).unwrap();
    broken.set(true);
    assert_eq!(storage.read_exact(CACHE_BYTES, &mut out).unwrap_err(), MusicError::Read);
    assert_eq!(storage.read_exact(CACHE_BYTES - 4, &mut out).unwrap_err(), MusicError::Read);
    storage.read_exact(100, &mut out).unwrap();
    assert_eq!(out, bytes[100..108]);
    assert_eq!(reads.borrow().len(), 3);
    broken.set(false);
    storage.read_exact(CACHE_BYTES - 4, &mut out).unwrap();
    assert_eq!(out, bytes[CACHE_BYTES - 4..CACHE_BYTES + 4]);
}

#[test]
fn catalogs_are_read_through_the_cache() {
    let mut storage = MusicStorage::open(flash(FIXTURE.to_vec())).unwrap();
    let catalog = Catalog::parse(&mut storage).unwrap();
    assert_eq!(catalog.songs().len(), 2);
    let mut packet = [0; 1275];
    assert_eq!(catalog.read_frame(&mut storage, 1, 2, &mut packet).unwrap(), 3);
    assert_eq!(&packet[..3], [0xf8, 0xff, 0xfe]);
}

#[test]
fn reads_are_accounted_for() {
    let mut stats = ReadStats::new();
    assert!(stats.record(100, 350));
    assert!(stats.record(100, 200));
    assert_eq!((stats.reads, stats.max_read_us), (2, 250));
    assert!(stats.record(100, 50));
    assert_eq!(stats.max_read_us, 250);
    stats.finish_validation();
    assert_eq!((stats.reads, stats.max_read_us), (0, 0));
    assert!(!stats.record(0, u64::MAX));
    assert_eq!((stats.reads, stats.max_read_us), (1, u32::MAX));
}

fn radio() -> Radio {
    let mut source: &[u8] = &FIXTURE;
    Radio::new(Catalog::parse(&mut source).unwrap())
}

fn on_air() -> Radio {
    let mut radio = radio();
    assert_eq!(radio.observe(PeerState::Connected), Transition::Announce);
    radio.start(0);
    radio
}

fn command(led: Option<[u8; 3]>, action: Option<Action>) -> Command {
    Command { led: led.map(Color), action, command_id: Some("id".to_owned()) }
}

#[test]
fn playback_starts_once() {
    let mut radio = radio();
    assert!(radio.admit_start().is_ok());
    assert!(!radio.on_air());
    radio.start(0);
    assert_eq!(radio.admit_start().unwrap_err().message(), "playback already started");
    assert!(!radio.on_air());
    radio.observe(PeerState::Connected);
    assert!(radio.on_air());
}

#[test]
fn changes_of_the_peer_are_told_once() {
    let mut radio = radio();
    assert_eq!(radio.observe(PeerState::Connecting), Transition::Quiet);
    assert_eq!(radio.observe(PeerState::Connected), Transition::Announce);
    assert_eq!(radio.observe(PeerState::Connected), Transition::Quiet);
    assert_eq!(radio.observe(PeerState::Connecting), Transition::Quiet);
    assert_eq!(radio.observe(PeerState::Lost), Transition::GiveUp);
}

#[test]
fn commands_are_performed_and_answered() {
    let mut radio = on_air();
    let colored = command(Some([1, 2, 3]), Some(Action::Pause));
    let ack = radio.perform(&colored, true);
    assert_eq!((ack.event, ack.command_id, ack.result), ("ack", Some("id"), 0));
    assert_eq!((ack.led, ack.paused), (Color([1, 2, 3]), true));
    let refused = command(Some([9, 9, 9]), None);
    let ack = radio.perform(&refused, false);
    assert_eq!((ack.result, ack.led, ack.paused), (-1, Color([1, 2, 3]), true));
    let plain = Command { led: None, action: Some(Action::Play), command_id: None };
    let ack = radio.perform(&plain, false);
    assert_eq!((ack.result, ack.command_id, ack.paused), (0, None, false));
}

#[test]
fn messages_are_received_or_rejected() {
    let mut radio = on_air();
    assert!(radio.receive(b"", |_| None).is_none());
    let received = radio.receive(b"x", |bytes| {
        assert_eq!(bytes, b"x");
        Some(command(None, Some(Action::Next)))
    });
    assert_eq!(received.unwrap().action, Some(Action::Next));
    assert!(radio.receive(b"x", |_| None).is_none());
    assert!(radio.receive(&[0; 513], |_| Some(command(None, None))).is_none());
    let message = radio.telemetry(0, music(), None, 1, 0, SpectrumStatus::default());
    assert_eq!(message.rejected_commands, 2);
}

fn music() -> MusicStatus {
    MusicStatus { cache_bytes: 1, index_bytes: 2, reads: 3, max_read_us: 4 }
}

#[test]
fn due_packets_are_announced_read_and_silenced() {
    let mut radio = on_air();
    let mut source: &[u8] = &FIXTURE;
    let mut out = [0; 1275];
    let (first, changed) = radio.due(0).unwrap();
    assert!(!changed);
    assert_eq!(radio.audio(&mut source, first, &mut out).unwrap(), Audio::Frame(3));
    assert_eq!(&out[..3], [0xf8, 0xff, 0xfe]);
    assert!(to_analyse(first) && idle_spectrum(first).is_none());
    assert!(radio.due(19_999).is_none());
    radio.due(20_000).unwrap();
    let (next, changed) = radio.due(40_000).unwrap();
    assert!(changed);
    assert_eq!((next.track_index, radio.published().now_playing.revision), (1, 1));
    assert_eq!((radio.published().position_ms, radio.published().duration_ms), (0, 60));
    radio.perform(&command(None, Some(Action::Pause)), true);
    let (paused, _) = radio.due(60_000).unwrap();
    out.fill(9);
    assert_eq!(radio.audio(&mut source, paused, &mut out).unwrap(), Audio::Silence);
    assert_eq!(&out[..3], [0xf8, 0xff, 0xfe]);
    assert!(out[3..].iter().all(|&byte| byte == 9));
    assert!(!to_analyse(paused) && idle_spectrum(paused).is_none());
    let (paused, _) = radio.due(80_000).unwrap();
    let message = idle_spectrum(paused).unwrap();
    assert_eq!((message[0], message[1], message[4]), (2, 1, 80));
    assert!(message[12..44].iter().all(|&band| band == 0));
    assert_eq!(radio.epoch(), paused.epoch);
    let outside = Due { track_index: 7, ..paused };
    assert_eq!(radio.audio(&mut source, outside, &mut out).unwrap_err(), MusicError::TrackCount);
    let broken = flash(FIXTURE.to_vec());
    let reads = Rc::clone(&broken.reads);
    broken.broken.set(true);
    let mut broken = broken;
    assert_eq!(radio.audio(&mut broken, first, &mut out).unwrap_err(), MusicError::Read);
    assert_eq!(reads.borrow().len(), 1);
}

#[test]
fn telemetry_waits_for_a_packet_and_keeps_its_distance() {
    let mut radio = on_air();
    assert!(radio.telemetry_due(1_000_000).is_none());
    radio.due(0);
    assert_eq!(radio.telemetry_due(1_000_000), Some(true));
    radio.note_stack(77);
    assert!(radio.telemetry_due(1_499_999).is_none());
    assert_eq!(radio.telemetry_due(1_500_000), Some(false));
    assert_eq!(radio.telemetry_due(6_000_000), Some(true));
    let mut quiet = Radio::new(Catalog::parse(&mut &FIXTURE[..]).unwrap());
    assert!(quiet.telemetry_due(u64::MAX).is_none());
    radio.sent(SendOutcome::Backpressured);
    radio.sent(SendOutcome::Sent);
    let memory = Memory { free: 11, minimum_free: 12, largest_block: 13 };
    let reading = Reading {
        hardware: Hardware {
            sampled_at_ms: 5,
            cpu_busy_bps: [Some(1), None],
            chip_temperature_mc: Some(40_000),
            internal: memory,
            psram: memory,
            sample_cost_us: 1,
            sampler_stack_free: 2,
        },
        rssi: Some(-50),
    };
    let message =
        radio.telemetry(6_000_000, music(), Some(reading), 99, 8, SpectrumStatus::default());
    assert_eq!((message.event, message.firmware, message.sequence), ("telemetry", "rust", 3));
    assert_eq!((message.uptime_ms, message.heap, message.rssi), (6_000, 11, Some(-50)));
    assert_eq!((message.data_errors, message.stack_free, message.dropped_commands), (1, 77, 8));
    assert_eq!((message.led, message.audio_errors), (Color([0, 12, 4]), 0));
    let bare = radio.telemetry(0, music(), None, 99, 8, SpectrumStatus::default());
    assert_eq!((bare.heap, bare.rssi, bare.hardware.is_none()), (99, None, true));
}

fn due(epoch: u32, pts_ms: u32, spectrum: bool) -> Due {
    Due { epoch, track_index: 0, revision: 0, index: 0, pts_ms, paused: false, spectrum }
}

fn output(epoch: u32, queued_us: u64, frames: u64) -> Output {
    Output {
        tag: Tag { due: due(epoch, 0, true), queued_us },
        bands: [frames as u8; 32],
        stats: SpectrumStatus { frames, stale: 2, ..SpectrumStatus::default() },
    }
}

#[test]
fn jobs_carry_bounded_packets() {
    let job = Job::new(due(1, 20, true), &[5, 6, 7], 9).unwrap();
    assert_eq!((job.length, job.tag.queued_us), (3, 9));
    assert_eq!(&job.opus[..3], [5, 6, 7]);
    assert!(job.opus[3..].iter().all(|&byte| byte == 0));
    assert!(Job::new(due(0, 0, true), &[0; 1275], 0).is_ok());
    for bytes in [&[][..], &[0; 1276][..]] {
        assert_eq!(
            Job::new(due(0, 0, true), bytes, 0).unwrap_err().message(),
            "invalid analysis packet size"
        );
    }
}

#[test]
fn the_newest_fresh_analysis_is_shown() {
    let mut client = Client::new();
    assert!(client.latest(None, None, 1, 0).is_none());
    let shown = client.latest(Some(output(1, 0, 4)), Some(output(1, 5, 5)), 1, 10).unwrap();
    assert_eq!(shown.bands[0], 5);
    let shown = client.latest(Some(output(1, 0, 6)), Some(output(2, 5, 7)), 1, 10).unwrap();
    assert_eq!(shown.bands[0], 6);
    assert!(client.latest(Some(output(1, 0, 8)), None, 1, 120_001).is_none());
    assert!(client.submitted(Queued::Taken).is_ok());
    assert!(client.submitted(Queued::Full).is_ok());
    assert_eq!(
        client.submitted(Queued::Closed).unwrap_err().message(),
        "analysis task stopped"
    );
    let status = client.status();
    assert_eq!((status.frames, status.stale, status.input_dropped), (8, 4, 1));
}

#[test]
fn the_analysis_task_resets_counts_and_gives_up() {
    assert_eq!(Worker::new(vec![0; 3]).err().unwrap().message(), "invalid FFT history");
    let mut worker = Worker::new(vec![0; FFT_SIZE]).unwrap();
    let tag = |pts_ms, spectrum| Tag { due: due(0, pts_ms, spectrum), queued_us: 0 };
    assert_eq!(worker.take_up(tag(0, true), 120_001), Admission::Stale);
    assert_eq!(worker.take_up(tag(0, true), 0), Admission::Restart);
    let pcm = [3i16; 1920];
    assert!(worker.decoded(Some(&pcm)).unwrap());
    let mut input = vec![0; 2 * FFT_SIZE];
    assert!(!worker.transform_input(tag(0, true), &mut input).unwrap());
    assert!(worker.finish(100, 300, 0));
    worker.note_stack(55);
    for pts_ms in [20, 40] {
        assert_eq!(worker.take_up(tag(pts_ms, true), 0), Admission::Continue);
        assert!(worker.decoded(Some(&pcm)).unwrap());
        assert!(!worker.finish(0, 100, 1));
    }
    assert!(!worker.transform_input(tag(40, false), &mut input).unwrap());
    assert!(worker.transform_input(tag(40, true), &mut input).unwrap());
    assert_eq!((input[0], input[1]), (6, 0));
    assert_eq!(
        worker.transform_input(tag(40, true), &mut [0; 8]).unwrap_err().message(),
        "invalid FFT input"
    );
    let stats = worker.output(tag(40, true), [1; 32]).stats;
    assert_eq!((stats.frames, stats.resets, stats.stale), (3, 1, 1));
    assert_eq!((stats.mean_us, stats.max_us, stats.stack_free), (133, 200, 55));
    assert!(worker.delivered(Queued::Full).is_ok());
    assert_eq!(worker.output(tag(40, true), [1; 32]).stats.output_dropped, 1);
    assert_eq!(worker.delivered(Queued::Closed).unwrap_err().message(), "radio task stopped");
    assert_eq!(worker.decoded(Some(&[1])).unwrap_err().message(), "invalid PCM shape");
    for _ in 0..9 {
        assert!(!worker.decoded(None).unwrap());
    }
    assert_eq!(
        worker.decoded(None).unwrap_err().message(),
        "repeated Opus analysis failure"
    );
}

#[test]
fn setup_requests_are_retried_with_growing_waits() {
    assert!(matches!(judge(0, 200), Verdict::Accept));
    assert!(matches!(judge(2, 299), Verdict::Accept));
    assert!(matches!(judge(0, 503), Verdict::Retry(1)));
    assert!(matches!(judge(1, -1), Verdict::Retry(2)));
    match judge(2, 429) {
        Verdict::Fail(error) => {
            assert_eq!(error.message(), "Worker unavailable after setup retries")
        }
        _ => panic!("retried without end"),
    }
    match judge(0, 401) {
        Verdict::Fail(error) => assert_eq!(error.message(), "Worker rejected setup (code 401)"),
        _ => panic!("accepted a refusal"),
    }
}

#[test]
fn replies_acknowledge_with_a_json_object() {
    assert!(acknowledged(200, b"{\"ok\":true}"));
    assert!(acknowledged(204, b"{}"));
    assert!(!acknowledged(200, b"[]"));
    assert!(!acknowledged(200, b"{\"ok\":"));
    assert!(!acknowledged(200, b""));
    assert!(!acknowledged(300, b"{}"));
}

#[test]
fn setup_goes_step_by_step() {
    let mut step = Step::AwaitOffer;
    let mut waits = Vec::new();
    while step != Step::OnAir {
        waits.push(step.wait_seconds());
        step = step.advance(Outcome::Done).unwrap();
    }
    assert_eq!(waits, [20, 0, 15, 30, 0, 15, 0]);
    for (step, text) in [
        (Step::AwaitOffer, "local offer unavailable"),
        (Step::ApplyAnswer, "answer application timed out"),
        (Step::AwaitConnection, "WebRTC connection timed out"),
        (Step::StartPlayback, "playback start timed out"),
        (Step::OnAir, "WebRTC transport lost"),
    ] {
        assert_eq!(step.advance(Outcome::Expired).unwrap_err().message(), text);
    }
    assert_eq!(
        Step::ApplyAnswer.advance(Outcome::Unreachable).unwrap_err().message(),
        "radio task unavailable"
    );
    let failed = Outcome::Failed(Error::native("peer rejected answer", -7));
    assert_eq!(
        Step::ApplyAnswer.advance(failed).unwrap_err().message(),
        "peer rejected answer (code -7)"
    );
}

#[test]
fn heartbeats_coalesce_changes() {
    let mut heartbeat = Heartbeat::new(1_000);
    assert!(!heartbeat.due(1_000, None));
    assert!(heartbeat.due(1_000, Some(0)));
    heartbeat.answered(200, true, 0, 2_000).unwrap();
    assert!(!heartbeat.due(5_001_999, Some(0)));
    assert!(heartbeat.due(5_002_000, Some(0)));
    assert!(!heartbeat.due(251_999, Some(1)));
    assert!(heartbeat.due(252_000, Some(1)));
    heartbeat.answered(503, false, 1, 300_000).unwrap();
    assert!(!heartbeat.due(1_299_999, Some(1)));
    assert!(heartbeat.due(1_300_000, Some(1)));
    assert!(heartbeat.answered(503, false, 1, 55_002_000).is_ok());
    assert_eq!(
        heartbeat.answered(503, false, 1, 55_002_001).unwrap_err().message(),
        "signaling session needs recovery (code 503)"
    );
    assert!(Heartbeat::new(0).answered(409, false, 1, 1).is_err());
}

#[test]
fn endpoints_boot_names_and_responses_are_plain() {
    let paths: Vec<&str> =
        [Endpoint::Start, Endpoint::Channels, Endpoint::Ready, Endpoint::Heartbeat]
            .into_iter()
            .map(|endpoint| endpoint.path())
            .collect();
    assert_eq!(paths, ["start", "channels", "ready", "heartbeat"]);
    assert_eq!(boot_id([1, 0xdeadbeef, 0, u32::MAX]), "00000001deadbeef00000000ffffffff");
    assert_eq!(response_length(24_576, true).unwrap(), 24_576);
    assert_eq!(response_length(0, false).unwrap(), 0);
    for (used, present) in [(24_577, true), (1, false)] {
        assert_eq!(
            response_length(used, present).unwrap_err().message(),
            "invalid HTTPS response length"
        );
    }
}

#[test]
fn recovery_waits_longer_and_with_jitter() {
    assert_eq!([0, 1, 2, 3, 4, u32::MAX].map(backoff_seconds), [5, 10, 20, 40, 40, 40]);
    assert_eq!(delay_ms(5, 1_999), 5_999);
    assert_eq!(delay_ms(40, 0), 40_000);
    assert_eq!(delay_ms(u64::MAX / 1000, 615), u64::MAX);
}

fn lines(text: &[u8]) -> Vec<Option<Vec<u8>>> {
    let mut line = Line::new();
    let mut seen = Vec::new();
    for &byte in text {
        if let Input::Line(bytes) = line.take(i32::from(byte)) {
            seen.push(bytes);
        }
    }
    seen
}

#[test]
fn console_lines_are_whole_or_dropped() {
    let mut text = b"one\n\n".to_vec();
    text.extend([b'x'; 128]);
    text.push(b'\n');
    text.extend([b'y'; 129]);
    text.extend(b"\nlast\n");
    assert_eq!(
        lines(&text),
        [
            Some(b"one".to_vec()),
            Some(Vec::new()),
            Some(vec![b'x'; 128]),
            None,
            Some(b"last".to_vec())
        ]
    );
    let mut line = Line::new();
    assert!(matches!(line.take(-1), Input::Idle));
    assert!(matches!(line.take(0x161), Input::More));
    match line.take(10) {
        Input::Line(bytes) => assert_eq!(bytes.unwrap(), [0x61]),
        _ => panic!("a line feed ends the line"),
    }
    assert!(Maintenance::Ping.reply().unwrap().starts_with("PROBE {\"event\""));
    assert!(Maintenance::RestartDevice.reply().is_none());
}

#[test]
fn the_station_keeps_the_latest_song() {
    let mut station = Station::default();
    assert!(station.snapshot().is_none());
    for revision in [4, 5] {
        let song = NowPlaying { revision, track_index: 0, track_count: 1, track: None };
        station.publish(&song);
    }
    assert_eq!(station.snapshot().unwrap().revision, 5);
    assert_eq!(station.snapshot(), station.snapshot());
}

#[test]
fn task_profiles_and_native_results_are_checked() {
    let radio = TaskProfile::of(2).unwrap();
    assert_eq!((radio.name, radio.stack_bytes, radio.priority, radio.core), ("radio", 49_152, 5, 0));
    assert_eq!(TaskProfile::of(0).unwrap().stack_bytes, 20_480);
    assert_eq!(TaskProfile::of(1).unwrap().name, "metrics");
    assert_eq!(TaskProfile::of(3).unwrap_err().message(), "invalid task role");
    assert!(restorable(5) && !restorable(0));
    assert_eq!(clock_step(1).unwrap(), ClockStep::Ready);
    assert_eq!(clock_step(0).unwrap(), ClockStep::Wait);
    assert_eq!(clock_step(-1).unwrap_err().message(), "clock initialization failed");
    assert_eq!(certificate_lengths(0, 2048, 512).unwrap(), (2048, 512));
    assert_eq!(
        certificate_lengths(-5, 0, 0).unwrap_err().message(),
        "certificate generation failed (code -5)"
    );
    for (certificate, key) in [(2049, 0), (0, 513)] {
        assert_eq!(
            certificate_lengths(0, certificate, key).unwrap_err().message(),
            "invalid certificate output length"
        );
    }
}

#[test]
fn errors_show_their_cause() {
    assert_eq!(Error::new("cannot start").message(), "cannot start");
    assert_eq!(
        Error::music(MusicError::Checksum).message(),
        "music unavailable: music pack checksum mismatch"
    );
    assert_eq!(Error::transport("queue full").message(), "WebRTC transport: queue full");
    assert!(check(0, "LED write failed").is_ok());
    assert_eq!(check(258, "LED write failed").unwrap_err().message(), "LED write failed (code 258)");
}
