use radio_core::music::FrameCount;
use radio_core::playback::{Due, Playback};
use radio_core::protocol::Action;
use radio_core::spectrum::{
    band_bins, check_transformed, Continuity, InvalidBuffer, Tag, Window, FFT_SIZE, HISTORY_FLOATS,
};

// The window keeps sums of two samples; the caller weights them.
fn weighted(samples: &[i32]) -> Vec<f32> {
    samples
        .iter()
        .enumerate()
        .map(|(i, &sum)| {
            let angle = std::f32::consts::TAU * (i / 2) as f32 / FFT_SIZE as f32;
            sum as f32 / 65536.0 * (0.5 - 0.5 * angle.cos())
        })
        .collect()
}

#[test]
fn window_keeps_the_latest_pcm_and_applies_periodic_hann() {
    let mut window = Window::new(vec![0; HISTORY_FLOATS / 2]).unwrap();
    let mut input = vec![9; FFT_SIZE * 2];
    assert!(!window.write_complex(&mut input).unwrap());
    let pcm: Vec<i16> = (0..FFT_SIZE * 2).flat_map(|i| [i as i16, i as i16]).collect();
    for chunk in pcm.chunks(1920) {
        window.push_stereo(chunk).unwrap();
    }
    assert!(window.write_complex(&mut input).unwrap());
    let fft = weighted(&input);
    assert_eq!(fft[0], 0.0);
    assert!((fft[FFT_SIZE] - 3072.0 / 32768.0).abs() < 1e-6);
    assert!((fft[FFT_SIZE / 2] - 2560.0 / 32768.0 * 0.5).abs() < 1e-6);
    assert!(fft.chunks_exact(2).all(|pair| pair[1] == 0.0));
    window.clear();
    assert!(!window.write_complex(&mut input).unwrap());
}

#[test]
fn the_window_is_chronological_from_the_first_full_history() {
    let mut window = Window::new(vec![5; FFT_SIZE]).unwrap();
    let pcm: Vec<i16> = (0..FFT_SIZE + 3).flat_map(|i| [i as i16, -3]).collect();
    window.push_stereo(&pcm).unwrap();
    let mut input = vec![1; FFT_SIZE * 2];
    assert!(window.write_complex(&mut input).unwrap());
    for i in 0..FFT_SIZE {
        assert_eq!((input[2 * i], input[2 * i + 1]), (i as i32, 0));
    }
    let extreme: Vec<i16> = vec![i16::MIN; 2];
    window.push_stereo(&extreme).unwrap();
    assert!(window.write_complex(&mut input).unwrap());
    assert_eq!(input[2 * FFT_SIZE - 2], -65536);
    assert_eq!(input[0], 1);
}

#[test]
fn samples_may_come_in_pieces() {
    let pcm: Vec<i16> = (0..5000).map(|i| (i * 7 % 1000) as i16).collect();
    let mut whole = Window::new(vec![0; FFT_SIZE]).unwrap();
    whole.push_stereo(&pcm).unwrap();
    let mut pieces = Window::new(vec![0; FFT_SIZE]).unwrap();
    for piece in pcm.chunks(34) {
        pieces.push_stereo(piece).unwrap();
    }
    let mut a = vec![0; FFT_SIZE * 2];
    let mut b = vec![1; FFT_SIZE * 2];
    assert!(whole.write_complex(&mut a).unwrap());
    assert!(pieces.write_complex(&mut b).unwrap());
    assert_eq!(a, b);
}

#[test]
fn invalid_buffers_are_rejected_before_mutating_history() {
    assert!(Window::new(vec![0; 3]).is_err());
    let mut window = Window::new(vec![0; HISTORY_FLOATS / 2]).unwrap();
    assert!(window.push_stereo(&[1, 2, 3]).is_err());
    assert!(window.write_complex(&mut [0; 8]).is_err());
    assert!(check_transformed(8).is_err());
    assert!(check_transformed(2 * FFT_SIZE).is_ok());
    assert_eq!(InvalidBuffer.message(), "invalid analysis buffer size");
}

#[test]
fn a_window_is_described_without_its_samples() {
    let mut window = Window::new(vec![0; FFT_SIZE]).unwrap();
    assert_eq!(window.describe(), "Window { filled: 0, fft_size: 2048, .. }");
    window.push_stereo(&[12345; 46]).unwrap();
    assert_eq!(window.describe(), "Window { filled: 23, fft_size: 2048, .. }");
}

#[test]
fn bands_have_bins_inside_the_spectrum() {
    assert_eq!(band_bins(2, 5, 3), (2, 5));
    assert_eq!(band_bins(2, 5, usize::MAX), (2, 5));
    assert_eq!(band_bins(0, 5, 3), (1, 5));
    assert_eq!(band_bins(700, 4000, 3), (700, 1025));
    assert_eq!(band_bins(2, 2, 2), (2, 3));
    assert_eq!(band_bins(0, 0, 0), (1, 2));
}

fn due(epoch: u32, pts_ms: u32) -> Due {
    Due { epoch, track_index: 0, revision: 0, pts_ms, index: 0, paused: false, spectrum: true }
}

#[test]
fn missing_packets_and_epoch_changes_reset_decoder_continuity() {
    let mut cursor = Continuity::default();
    assert!(cursor.begin(due(0, 0)));
    assert!(!cursor.begin(due(0, 20)));
    assert!(cursor.begin(due(0, 60)));
    assert!(cursor.begin(due(1, 80)));
    assert!(!cursor.begin(due(1, 100)));
    cursor.clear();
    assert!(cursor.begin(due(1, 120)));
    assert!(cursor.begin(due(1, u32::MAX - 19)));
    assert!(!cursor.begin(due(1, 0)));
}

#[test]
fn punctual_packets_continue_and_skipped_ones_do_not() {
    let mut player = Playback::new(FrameCount::new(100).unwrap(), 0);
    let mut cursor = Continuity::default();
    assert!(cursor.begin(player.due(0).unwrap()));
    assert!(!cursor.begin(player.due(20_000).unwrap()));
    assert!(!cursor.begin(player.due(59_999).unwrap()));
    assert!(cursor.begin(player.due(80_000).unwrap()));
}

#[test]
fn old_analysis_cannot_cross_pause_restart_or_track_loop() {
    let mut player = Playback::new(FrameCount::new(4).unwrap(), 0);
    let first = player.due(0).unwrap();
    let tag = Tag { due: first, queued_us: 0 };
    assert!(tag.is_fresh(player.epoch(), 5000));
    player.apply(Action::Pause);
    assert!(!tag.is_fresh(player.epoch(), 5000));
    let paused_epoch = player.epoch();
    player.apply(Action::Pause);
    assert_eq!(paused_epoch, player.epoch());
    player.apply(Action::Play);
    let playing_epoch = player.epoch();
    assert_ne!(playing_epoch, paused_epoch);
    player.apply(Action::Restart);
    assert_ne!(playing_epoch, player.epoch());
    let epoch = player.epoch();
    for i in 1..=4 {
        player.due(i * 20000);
    }
    assert_eq!(player.epoch(), epoch);
    player.due(100_000);
    assert_ne!(player.epoch(), epoch);
    assert!(!Tag { due: due(epoch, 80), queued_us: 0 }.is_fresh(epoch, 120_001));
    assert!(!Tag { due: due(epoch, 80), queued_us: 100 }.is_fresh(epoch, 99));
}

#[test]
fn analysis_is_fresh_up_to_its_limit() {
    let tag = Tag { due: due(3, 0), queued_us: 50 };
    assert!(tag.is_fresh(3, 50));
    assert!(tag.is_fresh(3, 120_050));
    assert!(!tag.is_fresh(3, 120_051));
    assert!(!tag.is_fresh(4, 50));
}
