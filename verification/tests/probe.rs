use radio_core::probe::{
    channel, spectrum, telemetry, Driver, Output, Reaction, Reliability, Stats, Tick, Workload,
};

#[test]
fn channels_are_reliable_or_neither() {
    let robot = channel("robot", 4, true);
    assert_eq!((robot.label.as_str(), robot.negotiated, robot.ordered), ("robot", Some(4), true));
    assert_eq!(robot.reliability, Reliability::Reliable);
    let lossy = channel("spectrum", 6, false);
    assert_eq!((lossy.ordered, lossy.reliability), (false, Reliability::MaxRetransmits(0)));
}

#[test]
fn datagrams_are_counted_and_lost_on_purpose() {
    let mut driver = Driver::new(0);
    let record: &[u8] = &[23, 254, 253];
    assert_eq!(driver.react(Output::Transmit(record)), Reaction::Send);
    driver.set_drop_every(3);
    assert_eq!(driver.react(Output::Transmit(record)), Reaction::Send);
    assert_eq!(driver.react(Output::Transmit(record)), Reaction::Lose);
    assert_eq!(driver.react(Output::Transmit(record)), Reaction::Send);
    for packet in [&[0x80, 111][..], &[0xbf, 191], &[0x80, 224]] {
        assert_eq!(driver.react(Output::Transmit(packet)), Reaction::Send);
    }
    for packet in [&[0x80, 192][..], &[0x80, 223], &[0xc0, 0], &[0x7f, 0], &[0x80], &[]] {
        assert_eq!(driver.react(Output::Transmit(packet)), Reaction::Send);
    }
    let stats = driver.stats();
    assert_eq!(
        (stats.application_datagrams, stats.deliberately_dropped, stats.rtp_datagrams),
        (4, 1, 3)
    );
}

#[test]
fn events_find_their_channels() {
    let mut driver = Driver::new(0);
    assert_eq!(driver.react(Output::ChannelData(1)), Reaction::Ignore);
    driver.add_channel("robot", 4, 1);
    driver.add_channel("spectrum", 6, 2);
    assert_eq!(driver.react(Output::ChannelOpen(0)), Reaction::ReportOpen(Some(0)));
    assert_eq!(driver.react(Output::ChannelOpen(2)), Reaction::ReportOpen(Some(6)));
    assert_eq!(driver.react(Output::ChannelOpen(9)), Reaction::ReportOpen(None));
    assert_eq!(driver.react(Output::ChannelData(1)), Reaction::Echo);
    assert_eq!(driver.react(Output::ChannelData(2)), Reaction::Ignore);
    assert_eq!(driver.react(Output::Connected), Reaction::ReportConnected);
    assert_eq!(driver.react(Output::Timeout), Reaction::Done);
    assert_eq!(driver.react(Output::Other), Reaction::Ignore);
    assert_eq!(driver.stats().commands_received, 1);
    driver.add_channel("robot", 8, 3);
    assert_eq!((driver.handle("robot"), driver.handle("none")), (Some(3), None));
    assert_eq!(driver.react(Output::ChannelOpen(1)), Reaction::ReportOpen(None));
}

#[test]
fn sent_packets_are_counted_and_timed() {
    let mut driver = Driver::new(0);
    assert_eq!(driver.stats(), Stats::default());
    assert_eq!(driver.media_time(), 0);
    driver.audio_sent();
    driver.audio_sent();
    assert_eq!(driver.media_time(), 1920);
    driver.data_sent("robot");
    driver.data_sent("spectrum");
    driver.data_sent("other");
    assert_eq!((driver.stats().robot_sent, driver.stats().spectrum_sent), (1, 2));
    let expected: serde_json::Value =
        serde_json::from_str(r#"{"kind": "telemetry", "sequence": 4294967295}"#).unwrap();
    assert_eq!(telemetry(u32::MAX), expected.to_string());
    assert_eq!(telemetry(0), "{\"kind\":\"telemetry\",\"sequence\":0}");
    assert_eq!(spectrum(0x01020304), 0x01020304u32.to_le_bytes());
}

#[test]
fn workloads_keep_a_steady_pace() {
    let mut work = Workload::new(6, true);
    assert!(work.due(0));
    let mut ticks = Vec::new();
    for frame in 0..6u64 {
        assert!(work.due(frame * 20));
        ticks.push(work.advance());
        assert!(!work.due(frame * 20 + 19));
    }
    assert_eq!(ticks[0], Tick { robot: Some(0), spectrum: Some(0), done: false });
    assert_eq!(ticks[4], Tick { robot: None, spectrum: Some(2), done: false });
    assert_eq!(ticks[5], Tick { robot: Some(1), spectrum: None, done: true });
    assert_eq!(work.done_event(), "run_done");
    let mut quiet = Workload::new(1, false);
    assert_eq!(quiet.advance(), Tick { robot: None, spectrum: None, done: true });
    assert_eq!(quiet.done_event(), "warmup_done");
}
