//! Isolated feasibility probe: what one owner of networking, protocol timers, media and channel
//! writes decides. Not part of the maintained firmware.
use crate::protocol;
use crate::text;
use vstd::prelude::*;
use vstd::string::*;

verus! {

#[derive(Debug, Clone, Copy, PartialEq, Eq, Structural)]
pub struct Stats {
    pub audio_sent: u32,
    pub robot_sent: u32,
    pub spectrum_sent: u32,
    pub commands_received: u32,
    pub application_datagrams: u32,
    pub deliberately_dropped: u32,
    pub rtp_datagrams: u32,
}

impl Default for Stats {
    fn default() -> (stats: Self)
        ensures
            stats == (Stats {
                audio_sent: 0,
                robot_sent: 0,
                spectrum_sent: 0,
                commands_received: 0,
                application_datagrams: 0,
                deliberately_dropped: 0,
                rtp_datagrams: 0,
            }),
    {
        Stats {
            audio_sent: 0,
            robot_sent: 0,
            spectrum_sent: 0,
            commands_received: 0,
            application_datagrams: 0,
            deliberately_dropped: 0,
            rtp_datagrams: 0,
        }
    }
}

#[derive(Debug, Clone, Copy, PartialEq, Eq, Structural)]
pub enum Reliability {
    Reliable,
    MaxRetransmits(u16),
}

/// How a data channel is set up.
#[derive(Debug)]
pub struct ChannelConfig {
    pub label: String,
    pub negotiated: Option<u16>,
    pub ordered: bool,
    pub reliability: Reliability,
}

/// A channel on a stream that both sides know: in order and reliable, or neither.
pub fn channel(label: &str, id: u16, reliable: bool) -> (config: ChannelConfig)
    ensures
        config.label@ == label@,
        config.negotiated == Some(id),
        config.ordered == reliable,
        config.reliability == if reliable {
            Reliability::Reliable
        } else {
            Reliability::MaxRetransmits(0)
        },
{
    ChannelConfig {
        label: label.to_owned(),
        negotiated: Some(id),
        ordered: reliable,
        reliability: if reliable {
            Reliability::Reliable
        } else {
            Reliability::MaxRetransmits(0)
        },
    }
}

/// A channel that was made: its label, its stream, and the number by which it is known here.
#[derive(Debug)]
struct Entry {
    label: String,
    id: u16,
    handle: u64,
}

/// What the transport hands over.
#[derive(Debug, Clone, Copy)]
pub enum Output<'a> {
    Timeout,
    Transmit(&'a [u8]),
    Connected,
    ChannelOpen(u64),
    ChannelData(u64),
    Other,
}

/// What is done about it.
#[derive(Debug, Clone, Copy, PartialEq, Eq, Structural)]
pub enum Reaction {
    /// There is nothing more to hand over.
    Done,
    /// Send the datagram.
    Send,
    /// Lose the datagram on purpose.
    Lose,
    /// Report that the peer is connected.
    ReportConnected,
    /// Report that a channel is open, with its stream where it is known.
    ReportOpen(Option<u16>),
    /// Send the data back on its channel.
    Echo,
    Ignore,
}

/// The counters, the channels and the loss of a probe.
#[derive(Debug)]
pub struct Driver {
    channels: Vec<Entry>,
    stats: Stats,
    drop_every: u32,
}

pub struct DriverView {
    pub channels: Seq<(Seq<char>, u16, u64)>,
    pub stats: Stats,
    pub drop_every: u32,
}

/// The label, the stream and the handle of each channel.
spec fn known(channels: Seq<Entry>) -> Seq<(Seq<char>, u16, u64)> {
    channels.map_values(|entry: Entry| (entry.label@, entry.id, entry.handle))
}

impl View for Driver {
    type V = DriverView;

    closed spec fn view(&self) -> DriverView {
        DriverView {
            channels: known(self.channels@),
            stats: self.stats,
            drop_every: self.drop_every,
        }
    }
}

/// A datagram that carries RTP: the version bits are set, and it is not RTCP.
pub open spec fn is_rtp(packet: Seq<u8>) -> bool {
    packet.len() >= 2 && 0x80 <= packet[0] < 0xc0 && !(192 <= packet[1] <= 223)
}

/// A datagram that carries a DTLS 1.2 application record.
pub open spec fn is_application(packet: Seq<u8>) -> bool {
    packet.len() > 0 && packet[0] == 23
}

/// The counters once a datagram has been counted.
pub open spec fn counted(stats: Stats, packet: Seq<u8>, drop_every: u32) -> Stats {
    let seen = Stats {
        rtp_datagrams: if is_rtp(packet) {
            (stats.rtp_datagrams + 1) as u32
        } else {
            stats.rtp_datagrams
        },
        application_datagrams: if is_application(packet) {
            (stats.application_datagrams + 1) as u32
        } else {
            stats.application_datagrams
        },
        ..stats
    };
    Stats {
        deliberately_dropped: if loses(seen, packet, drop_every) {
            (stats.deliberately_dropped + 1) as u32
        } else {
            stats.deliberately_dropped
        },
        ..seen
    }
}

/// Every so many application records one is lost; none where the number is zero.
pub open spec fn loses(seen: Stats, packet: Seq<u8>, drop_every: u32) -> bool {
    is_application(packet) && drop_every != 0 && seen.application_datagrams % drop_every == 0
}

/// The position of the channel with a label.
pub open spec fn labelled(channels: Seq<(Seq<char>, u16, u64)>, label: Seq<char>, i: int) -> bool {
    0 <= i < channels.len() && channels[i].0 == label
}

/// The channels once one has been made: it takes the place of one with the same label.
pub open spec fn with_channel(
    channels: Seq<(Seq<char>, u16, u64)>,
    label: Seq<char>,
    id: u16,
    handle: u64,
) -> Seq<(Seq<char>, u16, u64)> {
    if exists|i: int| labelled(channels, label, i) {
        channels.update(choose|i: int| labelled(channels, label, i), (label, id, handle))
    } else {
        channels.push((label, id, handle))
    }
}

/// No label and no handle stands for two channels.
pub open spec fn distinct(channels: Seq<(Seq<char>, u16, u64)>) -> bool {
    forall|i: int, j: int|
        #![trigger channels[i], channels[j]]
        0 <= i < j < channels.len() ==> channels[i].0 != channels[j].0 && channels[i].2
            != channels[j].2
}

/// A handle that is not in use.
pub open spec fn unused(channels: Seq<(Seq<char>, u16, u64)>, handle: u64) -> bool {
    forall|i: int| 0 <= i < channels.len() ==> #[trigger] channels[i].2 != handle
}

/// The handle of the channel with a label.
pub open spec fn handle_of(channels: Seq<(Seq<char>, u16, u64)>, label: Seq<char>) -> Option<u64> {
    if exists|i: int| labelled(channels, label, i) {
        Some(channels[choose|i: int| labelled(channels, label, i)].2)
    } else {
        None
    }
}

/// The stream of a channel.
pub open spec fn stream_of(channels: Seq<(Seq<char>, u16, u64)>, handle: u64) -> Option<u16> {
    if exists|i: int| held(channels, handle, i) {
        Some(channels[choose|i: int| held(channels, handle, i)].1)
    } else {
        None
    }
}

/// The position of the channel with a handle.
pub open spec fn held(channels: Seq<(Seq<char>, u16, u64)>, handle: u64, i: int) -> bool {
    0 <= i < channels.len() && channels[i].2 == handle
}

/// No counter that a datagram is counted by is at its limit.
pub open spec fn countable(stats: Stats, packet: Seq<u8>, drop_every: u32) -> bool {
    &&& is_rtp(packet) ==> stats.rtp_datagrams < u32::MAX
    &&& is_application(packet) ==> stats.application_datagrams < u32::MAX
    &&& is_application(packet) && drop_every != 0 && (stats.application_datagrams + 1) % (
    drop_every as int) == 0 ==> stats.deliberately_dropped < u32::MAX
}

/// No counter that an output is counted by is at its limit.
pub open spec fn accountable(driver: DriverView, output: Output) -> bool {
    match output {
        Output::Transmit(packet) => countable(driver.stats, packet@, driver.drop_every),
        Output::ChannelData(handle) => handle_of(driver.channels, "robot"@) == Some(handle)
            ==> driver.stats.commands_received < u32::MAX,
        _ => true,
    }
}

/// What is done about an output, and the counters after it.
pub open spec fn reaction(driver: DriverView, output: Output) -> (Reaction, Stats) {
    match output {
        Output::Timeout => (Reaction::Done, driver.stats),
        Output::Transmit(packet) => {
            let after = counted(driver.stats, packet@, driver.drop_every);
            (
                if after.deliberately_dropped != driver.stats.deliberately_dropped {
                    Reaction::Lose
                } else {
                    Reaction::Send
                },
                after,
            )
        },
        Output::Connected => (Reaction::ReportConnected, driver.stats),
        Output::ChannelOpen(handle) => (
            Reaction::ReportOpen(stream_of(driver.channels, handle)),
            driver.stats,
        ),
        Output::ChannelData(handle) => if handle_of(driver.channels, "robot"@) == Some(handle) {
            (
                Reaction::Echo,
                Stats {
                    commands_received: (driver.stats.commands_received + 1) as u32,
                    ..driver.stats
                },
            )
        } else {
            (Reaction::Ignore, driver.stats)
        },
        Output::Other => (Reaction::Ignore, driver.stats),
    }
}

impl Driver {
    #[verifier::type_invariant]
    spec fn unambiguous(self) -> bool {
        distinct(self@.channels)
    }

    /// A probe with its bootstrap channel on stream zero.
    pub fn new(bootstrap: u64) -> (driver: Self)
        ensures
            driver@.channels == seq![("bootstrap"@, 0u16, bootstrap)],
            driver@.stats == (Stats {
                audio_sent: 0,
                robot_sent: 0,
                spectrum_sent: 0,
                commands_received: 0,
                application_datagrams: 0,
                deliberately_dropped: 0,
                rtp_datagrams: 0,
            }),
            driver@.drop_every == 0,
    {
        let mut channels: Vec<Entry> = Vec::new();
        channels.push(Entry { label: String::from_str("bootstrap"), id: 0, handle: bootstrap });
        assert(known(channels@) =~= seq![("bootstrap"@, 0u16, bootstrap)]);
        Driver { channels, stats: Stats::default(), drop_every: 0 }
    }

    pub fn stats(&self) -> (stats: Stats)
        ensures
            stats == self@.stats,
    {
        self.stats
    }

    /// Loses every so many application records from now on.
    pub fn set_drop_every(&mut self, drop_every: u32)
        ensures
            final(self)@ == (DriverView { drop_every, ..old(self)@ }),
    {
        proof {
            use_type_invariant(&*self);
        }
        self.drop_every = drop_every;
    }

    /// Where the channel with a label stands.
    fn position(&self, label: &str) -> (position: Option<usize>)
        ensures
            match position {
                Some(i) => labelled(self@.channels, label@, i as int),
                None => forall|i: int| !#[trigger] labelled(self@.channels, label@, i),
            },
    {
        let mut i: usize = 0;
        while i < self.channels.len()
            invariant
                i <= self.channels@.len(),
                self@.channels.len() == self.channels@.len(),
                forall|j: int|
                    0 <= j < i ==> !#[trigger] labelled(self@.channels, label@, j),
            decreases self.channels@.len() - i,
        {
            if text::same(self.channels[i].label.as_str(), label) {
                assert(labelled(self@.channels, label@, i as int));
                return Some(i);
            }
            i = i + 1;
        }
        None
    }

    /// Makes a channel known under a handle that is not in use.
    pub fn add_channel(&mut self, label: &str, id: u16, handle: u64)
        requires
            unused(old(self)@.channels, handle),
        ensures
            final(self)@ == (DriverView {
                channels: with_channel(old(self)@.channels, label@, id, handle),
                ..old(self)@
            }),
    {
        proof {
            use_type_invariant(&*self);
        }
        let ghost before = self@.channels;
        let entry = Entry { label: label.to_owned(), id, handle };
        let position = self.position(label);
        let mut channels: Vec<Entry> = Vec::new();
        std::mem::swap(&mut channels, &mut self.channels);
        match position {
            Some(i) => {
                channels[i] = entry;
                proof {
                    let after = known(channels@);
                    let found = choose|i: int| labelled(before, label@, i);
                    assert(labelled(before, label@, i as int));
                    assert(labelled(before, label@, found));
                    if found < i {
                        assert(before[found].0 != before[i as int].0);
                    } else if i < found {
                        assert(before[i as int].0 != before[found].0);
                    }
                    assert(after =~= before.update(i as int, (label@, id, handle)));
                    assert forall|a: int, b: int|
                        #![trigger after[a], after[b]]
                        0 <= a < b < after.len() implies after[a].0 != after[b].0 && after[a].2
                        != after[b].2 by {
                        assert(before[a].0 != before[b].0 && before[a].2 != before[b].2);
                        assert(before[a].2 != handle && before[b].2 != handle);
                    }
                }
            },
            None => {
                channels.push(entry);
                proof {
                    let after = known(channels@);
                    assert(after =~= before.push((label@, id, handle)));
                    assert forall|a: int, b: int|
                        #![trigger after[a], after[b]]
                        0 <= a < b < after.len() implies after[a].0 != after[b].0 && after[a].2
                        != after[b].2 by {
                        assert(after[a] == before[a]);
                        assert(!labelled(before, label@, a));
                        if b < before.len() {
                            assert(before[a].0 != before[b].0 && before[a].2 != before[b].2);
                        }
                    }
                }
            },
        }
        self.channels = channels;
    }

    /// The handle of the channel with a label.
    pub fn handle(&self, label: &str) -> (handle: Option<u64>)
        ensures
            handle == handle_of(self@.channels, label@),
    {
        match self.position(label) {
            None => None,
            Some(i) => {
                proof {
                    use_type_invariant(self);
                    let channels = self@.channels;
                    let found = choose|i: int| labelled(channels, label@, i);
                    assert(labelled(channels, label@, found));
                    if found < i {
                        assert(channels[found].0 != channels[i as int].0);
                    } else if i < found {
                        assert(channels[i as int].0 != channels[found].0);
                    }
                }
                Some(self.channels[i].handle)
            },
        }
    }

    /// The stream of a channel.
    fn stream(&self, handle: u64) -> (stream: Option<u16>)
        ensures
            stream == stream_of(self@.channels, handle),
    {
        proof {
            use_type_invariant(self);
        }
        let mut i: usize = 0;
        while i < self.channels.len()
            invariant
                distinct(self@.channels),
                i <= self.channels@.len(),
                self@.channels.len() == self.channels@.len(),
                forall|j: int| 0 <= j < i ==> !#[trigger] held(self@.channels, handle, j),
            decreases self.channels@.len() - i,
        {
            if self.channels[i].handle == handle {
                proof {
                    let channels = self@.channels;
                    assert(held(channels, handle, i as int));
                    let found = choose|i: int| held(channels, handle, i);
                    assert(held(channels, handle, found));
                    if found < i {
                        assert(channels[found].2 != channels[i as int].2);
                    } else if i < found {
                        assert(channels[i as int].2 != channels[found].2);
                    }
                }
                return Some(self.channels[i].id);
            }
            i = i + 1;
        }
        None
    }

    /// Counts a datagram, and says whether it is lost on purpose.
    fn transmit(&mut self, packet: &[u8]) -> (lost: bool)
        requires
            countable(old(self)@.stats, packet@, old(self)@.drop_every),
        ensures
            final(self)@ == (DriverView {
                stats: counted(old(self)@.stats, packet@, old(self)@.drop_every),
                ..old(self)@
            }),
            lost == (final(self)@.stats.deliberately_dropped
                != old(self)@.stats.deliberately_dropped),
    {
        proof {
            use_type_invariant(&*self);
        }
        if packet.len() >= 2 {
            let first: u8 = packet[0];
            assert((first & 0xc0 == 0x80) == (0x80 <= first && first < 0xc0)) by (bit_vector);
            if first & 0xc0 == 0x80 && !(192 <= packet[1] && packet[1] <= 223) {
                self.stats.rtp_datagrams = self.stats.rtp_datagrams + 1;
            }
        }
        let application = packet.len() > 0 && packet[0] == 23;
        if application {
            self.stats.application_datagrams = self.stats.application_datagrams + 1;
        }
        if application && self.drop_every != 0 && self.stats.application_datagrams
            % self.drop_every == 0 {
            self.stats.deliberately_dropped = self.stats.deliberately_dropped + 1;
            true
        } else {
            false
        }
    }

    /// Reacts to what the transport hands over.
    pub fn react(&mut self, output: Output) -> (result: Reaction)
        requires
            accountable(old(self)@, output),
        ensures
            result == reaction(old(self)@, output).0,
            final(self)@ == (DriverView {
                stats: reaction(old(self)@, output).1,
                ..old(self)@
            }),
    {
        proof {
            use_type_invariant(&*self);
        }
        match output {
            Output::Timeout => Reaction::Done,
            Output::Transmit(packet) => {
                if self.transmit(packet) {
                    Reaction::Lose
                } else {
                    Reaction::Send
                }
            },
            Output::Connected => Reaction::ReportConnected,
            Output::ChannelOpen(handle) => Reaction::ReportOpen(self.stream(handle)),
            Output::ChannelData(handle) => {
                let robot = match self.handle("robot") {
                    Some(robot) => robot == handle,
                    None => false,
                };
                if robot {
                    self.stats.commands_received = self.stats.commands_received + 1;
                    Reaction::Echo
                } else {
                    Reaction::Ignore
                }
            },
            Output::Other => Reaction::Ignore,
        }
    }

    /// The media time of the next audio packet, in samples.
    pub fn media_time(&self) -> (samples: u64)
        ensures
            samples == self@.stats.audio_sent * 960,
    {
        self.stats.audio_sent as u64 * 960
    }

    /// Counts an audio packet that was sent.
    pub fn audio_sent(&mut self)
        requires
            old(self)@.stats.audio_sent < u32::MAX,
        ensures
            final(self)@ == (DriverView {
                stats: Stats {
                    audio_sent: (old(self)@.stats.audio_sent + 1) as u32,
                    ..old(self)@.stats
                },
                ..old(self)@
            }),
    {
        proof {
            use_type_invariant(&*self);
        }
        self.stats.audio_sent = self.stats.audio_sent + 1;
    }

    /// Counts a message that was sent on the channel with a label.
    pub fn data_sent(&mut self, label: &str)
        requires
            if label@ == "robot"@ {
                old(self)@.stats.robot_sent < u32::MAX
            } else {
                old(self)@.stats.spectrum_sent < u32::MAX
            },
        ensures
            final(self)@ == (DriverView {
                stats: if label@ == "robot"@ {
                    Stats {
                        robot_sent: (old(self)@.stats.robot_sent + 1) as u32,
                        ..old(self)@.stats
                    }
                } else {
                    Stats {
                        spectrum_sent: (old(self)@.stats.spectrum_sent + 1) as u32,
                        ..old(self)@.stats
                    }
                },
                ..old(self)@
            }),
    {
        proof {
            use_type_invariant(&*self);
        }
        if text::same(label, "robot") {
            self.stats.robot_sent = self.stats.robot_sent + 1;
        } else {
            self.stats.spectrum_sent = self.stats.spectrum_sent + 1;
        }
    }
}

/// The telemetry message with a sequence number.
pub open spec fn telemetry_text(sequence: int) -> Seq<char> {
    "{\"kind\":\"telemetry\",\"sequence\":"@ + text::decimal(sequence as nat) + "}"@
}

pub fn telemetry(sequence: u32) -> (message: String)
    ensures
        message@ == telemetry_text(sequence as int),
{
    let mut message = String::from_str("{\"kind\":\"telemetry\",\"sequence\":");
    text::push_decimal(&mut message, sequence as u64);
    message.append("}");
    message
}

/// The spectrum message with a sequence number: four bytes, lowest first.
pub fn spectrum(sequence: u32) -> (bytes: [u8; 4])
    ensures
        bytes@ == protocol::le32_bytes(sequence as int),
{
    let bytes: [u8; 4] = [
        (sequence % 0x100) as u8,
        (sequence / 0x100 % 0x100) as u8,
        (sequence / 0x1_0000 % 0x100) as u8,
        (sequence / 0x100_0000 % 0x100) as u8,
    ];
    assert(bytes@ =~= protocol::le32_bytes(sequence as int));
    bytes
}

/// Packets to send at a steady pace, with or without data.
#[derive(Debug, Clone, Copy, PartialEq, Eq, Structural)]
pub struct Workload {
    pub frame: u32,
    pub count: u32,
    pub data: bool,
}

/// What comes with an audio packet.
#[derive(Debug, Clone, Copy, PartialEq, Eq, Structural)]
pub struct Tick {
    pub robot: Option<u32>,
    pub spectrum: Option<u32>,
    pub done: bool,
}

/// Every fifth packet comes with telemetry, every second with a spectrum; the last ends the work.
pub open spec fn tick(work: Workload) -> Tick {
    Tick {
        robot: if work.data && work.frame % 5 == 0 {
            Some(work.frame / 5)
        } else {
            None
        },
        spectrum: if work.data && work.frame % 2 == 0 {
            Some(work.frame / 2)
        } else {
            None
        },
        done: work.frame + 1 == work.count,
    }
}

impl Workload {
    pub fn new(count: u32, data: bool) -> (work: Self)
        ensures
            work == (Workload { frame: 0, count, data }),
    {
        Workload { frame: 0, count, data }
    }

    /// Whether the next packet is due, that long after the start.
    pub fn due(&self, elapsed_ms: u64) -> (due: bool)
        ensures
            due == (elapsed_ms >= self.frame * 20),
    {
        elapsed_ms >= self.frame as u64 * 20
    }

    /// Goes on by one packet.
    pub fn advance(&mut self) -> (result: Tick)
        requires
            old(self).frame < u32::MAX,
        ensures
            result == tick(*old(self)),
            *final(self) == (Workload { frame: (old(self).frame + 1) as u32, ..*old(self) }),
    {
        let frame: u32 = self.frame;
        self.frame = frame + 1;
        Tick {
            robot: if self.data && frame % 5 == 0 {
                Some(frame / 5)
            } else {
                None
            },
            spectrum: if self.data && frame % 2 == 0 {
                Some(frame / 2)
            } else {
                None
            },
            done: self.frame == self.count,
        }
    }

    /// The event that reports the end of the work.
    pub fn done_event(&self) -> (event: &'static str)
        ensures
            event@ == if self.data {
                "run_done"@
            } else {
                "warmup_done"@
            },
    {
        if self.data {
            "run_done"
        } else {
            "warmup_done"
        }
    }
}

/// How long the probe runs at most, in milliseconds.
pub const PROBE_MS: u64 = 60_000;

/// Only application records are lost, and none while the loss is switched off.
pub proof fn lemma_only_application_records_are_lost(
    stats: Stats,
    packet: Seq<u8>,
    drop_every: u32,
)
    requires
        counted(stats, packet, drop_every).deliberately_dropped != stats.deliberately_dropped,
    ensures
        is_application(packet),
        drop_every != 0,
        !is_rtp(packet),
{
}

/// Datagrams are told apart by their first bytes: RTP by its version and a second byte that is not
/// one of RTCP, application records by their type. None is both.
pub proof fn lemma_datagrams_are_told_apart(packet: Seq<u8>)
    ensures
        is_rtp(packet) <==> packet.len() >= 2 && 128 <= packet[0] <= 191 && (packet[1] <= 191
            || packet[1] >= 224),
        is_application(packet) <==> packet.len() >= 1 && packet[0] == 23,
        !(is_rtp(packet) && is_application(packet)),
{
}

/// A datagram is counted once by its kind. An application record is lost exactly where its number
/// is a multiple of the loss, and then counted as lost; what is lost is not sent.
pub proof fn lemma_datagrams_are_counted_and_lost(driver: DriverView, packet: &[u8])
    requires
        countable(driver.stats, packet@, driver.drop_every),
    ensures
        ({
            let (done, after) = reaction(driver, Output::Transmit(packet));
            let number = driver.stats.application_datagrams + 1;
            let lost = is_application(packet@) && driver.drop_every > 0 && number % (
            driver.drop_every as int) == 0;
            &&& done == if lost {
                Reaction::Lose
            } else {
                Reaction::Send
            }
            &&& after.rtp_datagrams == driver.stats.rtp_datagrams + if is_rtp(packet@) {
                1int
            } else {
                0
            }
            &&& after.application_datagrams == driver.stats.application_datagrams
                + if is_application(packet@) {
                1int
            } else {
                0
            }
            &&& after.deliberately_dropped == driver.stats.deliberately_dropped + if lost {
                1int
            } else {
                0
            }
            &&& after.audio_sent == driver.stats.audio_sent
            &&& after.robot_sent == driver.stats.robot_sent
            &&& after.spectrum_sent == driver.stats.spectrum_sent
            &&& after.commands_received == driver.stats.commands_received
        }),
{
}

/// A channel that is made is known by its label and by its handle, with its stream; the others
/// stay as they were.
pub proof fn lemma_a_channel_is_found_again(
    channels: Seq<(Seq<char>, u16, u64)>,
    label: Seq<char>,
    id: u16,
    handle: u64,
    other: Seq<char>,
)
    requires
        distinct(channels),
        unused(channels, handle),
        other != label,
    ensures
        ({
            let after = with_channel(channels, label, id, handle);
            &&& distinct(after)
            &&& handle_of(after, label) == Some(handle)
            &&& stream_of(after, handle) == Some(id)
            &&& handle_of(after, other) == handle_of(channels, other)
        }),
{
    let after = with_channel(channels, label, id, handle);
    let at = if exists|i: int| labelled(channels, label, i) {
        choose|i: int| labelled(channels, label, i)
    } else {
        channels.len() as int
    };
    assert(after.len() >= channels.len());
    assert(after[at] == (label, id, handle));
    assert forall|i: int| 0 <= i < after.len() && i != at implies #[trigger] after[i]
        == channels[i] by {}
    assert forall|i: int, j: int|
        #![trigger after[i], after[j]]
        0 <= i < j < after.len() implies after[i].0 != after[j].0 && after[i].2 != after[j].2 by {
        if i != at && j != at {
            assert(channels[i].0 != channels[j].0 && channels[i].2 != channels[j].2);
        } else {
            let k = if i == at {
                j
            } else {
                i
            };
            assert(after[k] == channels[k]);
            assert(channels[k].2 != handle);
            if channels[k].0 == label {
                assert(labelled(channels, label, k));
                assert(labelled(channels, label, at));
            }
        }
    }
    lemma_found(after, label, at);
    assert(held(after, handle, at));
    let by_handle = choose|i: int| held(after, handle, i);
    assert(held(after, handle, by_handle));
    if by_handle < at {
        assert(after[by_handle].2 != after[at].2);
    } else if at < by_handle {
        assert(after[at].2 != after[by_handle].2);
    }
    if exists|i: int| labelled(channels, other, i) {
        let i = choose|i: int| labelled(channels, other, i);
        assert(labelled(after, other, i));
        lemma_found(after, other, i);
        lemma_found(channels, other, i);
    } else if exists|i: int| labelled(after, other, i) {
        let i = choose|i: int| labelled(after, other, i);
        assert(labelled(channels, other, i));
    }
}

/// A label stands for the channel that has it.
proof fn lemma_found(channels: Seq<(Seq<char>, u16, u64)>, label: Seq<char>, at: int)
    requires
        distinct(channels),
        labelled(channels, label, at),
    ensures
        handle_of(channels, label) == Some(channels[at].2),
{
    let found = choose|i: int| labelled(channels, label, i);
    assert(labelled(channels, label, found));
    if found < at {
        assert(channels[found].0 != channels[at].0);
    } else if at < found {
        assert(channels[at].0 != channels[found].0);
    }
}

/// Only commands are sent back: data on the robot channel, each counted once. Other data and other
/// events are ignored, and none of them is counted.
pub proof fn lemma_only_commands_are_sent_back(driver: DriverView, handle: u64)
    requires
        driver.stats.commands_received < u32::MAX,
    ensures
        ({
            let (done, after) = reaction(driver, Output::ChannelData(handle));
            let robot = handle_of(driver.channels, "robot"@) == Some(handle);
            &&& done == if robot {
                Reaction::Echo
            } else {
                Reaction::Ignore
            }
            &&& after == (Stats {
                commands_received: (driver.stats.commands_received + if robot {
                    1int
                } else {
                    0
                }) as u32,
                ..driver.stats
            })
        }),
        reaction(driver, Output::Timeout) == (Reaction::Done, driver.stats),
        reaction(driver, Output::Connected) == (Reaction::ReportConnected, driver.stats),
        reaction(driver, Output::Other) == (Reaction::Ignore, driver.stats),
        reaction(driver, Output::ChannelOpen(handle)) == (
            Reaction::ReportOpen(stream_of(driver.channels, handle)),
            driver.stats,
        ),
{
}

/// Telemetry comes with every fifth packet and a spectrum with every second, both from the first
/// on and numbered in order; without data there is neither. The work is done with its last packet,
/// and takes at most a minute.
pub proof fn lemma_work_is_done_in_order(work: Workload, k: u32)
    ensures
        work.data ==> {
            &&& tick(work).robot == Some(k) <==> work.frame == 5 * k
            &&& tick(work).spectrum == Some(k) <==> work.frame == 2 * k
        },
        !work.data ==> tick(work).robot is None && tick(work).spectrum is None,
        tick(work).done <==> work.count == work.frame + 1,
        PROBE_MS == 60 * 1000,
{
}

/// The number of a telemetry message reads back from its text.
pub proof fn lemma_telemetry_carries_its_number(sequence: int)
    requires
        0 <= sequence,
    ensures
        ({
            let text = telemetry_text(sequence);
            let head = "{\"kind\":\"telemetry\",\"sequence\":"@;
            &&& text.take(head.len() as int) == head
            &&& text.last() == '}'
            &&& text::digits_value(text.subrange(head.len() as int, text.len() - 1), 10)
                == sequence
        }),
{
    let text = telemetry_text(sequence);
    let head = "{\"kind\":\"telemetry\",\"sequence\":"@;
    text::lemma_decimal_reads_back(sequence as nat);
    reveal_strlit("}");
    assert("}"@ =~= seq!['}']);
    assert(text.take(head.len() as int) =~= head);
    assert(text.subrange(head.len() as int, text.len() - 1) =~= text::decimal(sequence as nat));
}

} // verus!
