//! What the radio task decides between its calls to the peer, the board and the clock.
use crate::error::Error;
use crate::metrics::Reading;
use crate::music::layout::{self, CatalogView};
use crate::music::{
    self, Catalog, FrameCount, ReadAt, Song, MAX_FRAMES, MAX_OPUS_BYTES, MAX_TRACKS,
};
use crate::now_playing::{self, Snapshot};
use crate::playback::{self, Due, Playback, PlaybackView};
use crate::protocol::{
    self, Action, Ack, Color, Command, CommandError, MusicStatus, SpectrumStatus, Telemetry,
    COMMAND_LIMIT,
};
use vstd::prelude::*;

verus! {

#[derive(Debug, Clone, Copy, PartialEq, Eq, Structural)]
pub enum PeerState {
    Connecting,
    Connected,
    Lost,
}

#[derive(Debug, Clone, Copy, PartialEq, Eq, Structural)]
pub enum SendOutcome {
    Sent,
    Backpressured,
}

/// What a change of the peer's state asks for.
#[derive(Debug, Clone, Copy, PartialEq, Eq, Structural)]
pub enum Transition {
    /// Nothing to tell.
    Quiet,
    /// Tell the signaling task that media can flow.
    Announce,
    /// Tell the signaling task, and end the session.
    GiveUp,
}

/// The audio of a packet: silence, or that many bytes of the packet buffer.
#[derive(Debug, Clone, Copy, PartialEq, Eq, Structural)]
pub enum Audio {
    Silence,
    Frame(usize),
}

/// The time between telemetry messages, and between looks at the stack, in microseconds.
pub const TELEMETRY_INTERVAL_US: u64 = 500_000;

pub const STACK_INTERVAL_US: u64 = 5_000_000;

/// The color of the LED before the first command.
pub const FIRST_COLOR: [u8; 3] = [0, 12, 4];

/// Where the session stands, apart from the music.
#[derive(Debug, Clone, Copy)]
pub struct Session {
    pub led: Color,
    pub data_errors: u64,
    pub rejected: u64,
    pub sequence: u64,
    pub next_telemetry: u64,
    pub next_stack_sample: u64,
    pub stack_free: u32,
    pub previous: PeerState,
    pub emitted: bool,
}

/// One publisher session: the catalog, playback once it has started, what is published of it,
/// and the session's counters and clocks.
#[derive(Debug)]
pub struct Radio {
    deck: Deck,
    published: Snapshot,
    session: Session,
}

/// The catalog, and playback of its songs once it has started.
#[derive(Debug)]
struct Deck {
    catalog: Catalog,
    playback: Option<Playback>,
}

pub struct RadioView {
    pub catalog: CatalogView,
    pub songs: Seq<Song>,
    pub playback: Option<PlaybackView>,
    pub published: Snapshot,
    pub session: Session,
}

impl View for Radio {
    type V = RadioView;

    closed spec fn view(&self) -> RadioView {
        RadioView {
            catalog: self.deck.catalog@,
            songs: self.deck.catalog.song_list(),
            playback: self.deck.state(),
            published: self.published,
            session: self.session,
        }
    }
}

/// Playback, where it has started, is valid and plays the songs of the catalog.
pub open spec fn in_tune(radio: RadioView) -> bool {
    tuned(radio.songs, radio.catalog, radio.playback)
}

/// The songs are those of the catalog, and playback of them, where it has started, is valid.
pub open spec fn tuned(
    songs: Seq<Song>,
    catalog: CatalogView,
    playback: Option<PlaybackView>,
) -> bool {
    &&& 1 <= songs.len() <= MAX_TRACKS
    &&& songs.len() == catalog.songs.len()
    &&& forall|i: int|
        #![trigger songs[i]]
        #![trigger catalog.songs[i]]
        0 <= i < songs.len() ==> {
            &&& 1 <= songs[i].frames@ <= MAX_FRAMES
            &&& songs[i].frames@ == catalog.songs[i].frames
        }
    &&& playback matches Some(state) ==> {
        &&& playback::valid(state)
        &&& state.frames == now_playing::lengths(songs)
    }
}

impl Deck {
    spec fn state(self) -> Option<PlaybackView> {
        match self.playback {
            Some(playback) => Some(playback@),
            None => None,
        }
    }

    #[verifier::type_invariant]
    spec fn in_order(self) -> bool {
        tuned(self.catalog.song_list(), self.catalog@, self.state())
    }

    fn new(catalog: Catalog) -> (deck: Self)
        ensures
            deck.catalog == catalog,
            deck.playback is None,
    {
        // What the catalog promises of its songs.
        let _ = catalog.songs();
        Deck { catalog, playback: None }
    }

    /// Starts playback, with the first deadline now.
    fn start(&mut self, now_us: u64)
        ensures
            final(self).catalog == old(self).catalog,
            final(self).state() == Some(
                playback::begun(
                    now_playing::lengths(old(self).catalog.song_list()),
                    now_us as int,
                ),
            ),
    {
        proof {
            use_type_invariant(&*self);
        }
        let songs = self.catalog.songs();
        let mut frames: Vec<FrameCount> = Vec::new();
        let mut i: usize = 0;
        while i < songs.len()
            invariant
                songs@ == self.catalog.song_list(),
                i <= songs@.len(),
                frames@.len() == i,
                forall|j: int| 0 <= j < i ==> #[trigger] frames@[j] == songs@[j].frames,
            decreases songs@.len() - i,
        {
            frames.push(songs[i].frames);
            i = i + 1;
        }
        assert(playback::counts(frames@) =~= now_playing::lengths(songs@));
        self.playback = Playback::playlist(frames, now_us);
    }

    /// Acts on playback, and says whether it is then paused.
    fn act(&mut self, action: Option<Action>) -> (paused: bool)
        requires
            old(self).playback is Some,
        ensures
            final(self).catalog == old(self).catalog,
            final(self).state() == Some(
                match action {
                    Some(action) => playback::applied(old(self).state()->Some_0, action),
                    None => old(self).state()->Some_0,
                },
            ),
            paused == final(self).state()->Some_0.paused,
    {
        proof {
            use_type_invariant(&*self);
        }
        let mut playback: Option<Playback> = None;
        std::mem::swap(&mut playback, &mut self.playback);
        let mut paused: bool = false;
        if let Some(player) = &mut playback {
            if let Some(action) = action {
                proof {
                    playback::laws::lemma_playback_stays_valid(
                        player@,
                        player@.next_us,
                        action,
                    );
                }
                player.apply(action);
            }
            paused = player.paused();
        }
        self.playback = playback;
        paused
    }

    /// The packet that is due now.
    fn due(&mut self, now_us: u64) -> (due: Option<Due>)
        requires
            old(self).playback is Some,
        ensures
            final(self).catalog == old(self).catalog,
            ({
                let state = old(self).state()->Some_0;
                let at = playback::at_deadline(state, now_us as int);
                match due {
                    None => now_us < state.next_us && final(self).state() == old(self).state(),
                    Some(due) => {
                        &&& now_us >= state.next_us
                        &&& due == playback::packet(at)
                        &&& now_playing::fits(old(self).catalog.song_list(), due)
                        &&& final(self).state() == Some(playback::handed_out(at))
                    },
                }
            }),
    {
        proof {
            use_type_invariant(&*self);
        }
        let ghost songs = self.catalog.song_list();
        let mut playback: Option<Playback> = None;
        std::mem::swap(&mut playback, &mut self.playback);
        let mut due: Option<Due> = None;
        if let Some(player) = &mut playback {
            proof {
                if player@.next_us <= now_us {
                    playback::laws::lemma_playback_stays_valid(
                        player@,
                        now_us as int,
                        Action::Play,
                    );
                    now_playing::lemma_playback_of_the_catalog_is_always_recorded(
                        songs,
                        player@,
                        now_us as int,
                    );
                }
            }
            due = player.due(now_us);
        }
        self.playback = playback;
        due
    }
}

/// A count that stops at the largest 64-bit number.
pub open spec fn one_more(count: u64) -> u64 {
    if count == u64::MAX {
        count
    } else {
        (count + 1) as u64
    }
}

/// What a change of the peer's state asks for.
pub open spec fn transition(before: PeerState, after: PeerState) -> Transition {
    if after == before || after == PeerState::Connecting {
        Transition::Quiet
    } else if after == PeerState::Connected {
        Transition::Announce
    } else {
        Transition::GiveUp
    }
}

/// The LED after a command, which was set or refused by the board.
pub open spec fn lit(led: Color, command: Command, led_set: bool) -> Color {
    match command.led {
        Some(color) => if led_set {
            color
        } else {
            led
        },
        None => led,
    }
}

/// Playback after a command.
pub open spec fn obeyed(state: PlaybackView, command: Command) -> PlaybackView {
    match command.action {
        Some(action) => playback::applied(state, action),
        None => state,
    }
}

/// Telemetry is due: there is something to report, and the last report is long enough ago.
pub open spec fn reports(session: Session, now: int) -> bool {
    now >= session.next_telemetry && session.emitted
}

/// The session once telemetry has been reported.
pub open spec fn reported(session: Session, now: int) -> Session {
    Session {
        next_telemetry: (now + TELEMETRY_INTERVAL_US) as u64,
        sequence: playback::wrap64(session.sequence + 1) as u64,
        next_stack_sample: if now >= session.next_stack_sample {
            (now + STACK_INTERVAL_US) as u64
        } else {
            session.next_stack_sample
        },
        ..session
    }
}

impl Radio {
    /// The session before anything has been sent.
    pub fn new(catalog: Catalog) -> (radio: Self)
        ensures
            in_tune(radio@),
            radio@.catalog == catalog@,
            radio@.songs == catalog.song_list(),
            radio@.playback is None,
            radio@.published == (Snapshot {
                now_playing: now_playing::announced(catalog.song_list(), 0, 0),
                position_ms: 0,
                duration_ms: (catalog.song_list()[0].frames@ * music::FRAME_MS) as u32,
            }),
            radio@.session == (Session {
                led: Color(FIRST_COLOR),
                data_errors: 0,
                rejected: 0,
                sequence: 0,
                next_telemetry: 0,
                next_stack_sample: 0,
                stack_free: 0,
                previous: PeerState::Connecting,
                emitted: false,
            }),
    {
        let published = Snapshot::new(&catalog);
        let deck = Deck::new(catalog);
        proof {
            use_type_invariant(&deck);
        }
        Radio {
            deck,
            published,
            session: Session {
                led: Color(FIRST_COLOR),
                data_errors: 0,
                rejected: 0,
                sequence: 0,
                next_telemetry: 0,
                next_stack_sample: 0,
                stack_free: 0,
                previous: PeerState::Connecting,
                emitted: false,
            },
        }
    }

    pub fn catalog(&self) -> (catalog: &Catalog)
        ensures
            catalog@ == self@.catalog,
            catalog.song_list() == self@.songs,
            in_tune(self@),
    {
        proof {
            use_type_invariant(&self.deck);
        }
        &self.deck.catalog
    }

    pub fn published(&self) -> (published: &Snapshot)
        ensures
            *published == self@.published,
    {
        &self.published
    }

    /// Whether playback may start: it starts once.
    pub fn admit_start(&self) -> (result: Result<(), Error>)
        ensures
            result is Ok <==> self@.playback is None,
            result matches Err(error) ==> error == (Error {
                context: "playback already started",
                cause: None,
            }),
    {
        if self.deck.playback.is_some() {
            Err(Error::new("playback already started"))
        } else {
            Ok(())
        }
    }

    /// Starts playback of the catalog, with the first deadline now.
    pub fn start(&mut self, now_us: u64)
        ensures
            in_tune(final(self)@),
            final(self)@ == (RadioView {
                playback: Some(
                    playback::begun(now_playing::lengths(old(self)@.songs), now_us as int),
                ),
                ..old(self)@
            }),
    {
        self.deck.start(now_us);
        proof {
            use_type_invariant(&self.deck);
        }
    }

    /// Takes note of the peer's state.
    pub fn observe(&mut self, state: PeerState) -> (asked: Transition)
        ensures
            asked == transition(old(self)@.session.previous, state),
            final(self)@ == (RadioView {
                session: Session { previous: state, ..old(self)@.session },
                ..old(self)@
            }),
    {
        let before = self.session.previous;
        self.session.previous = state;
        if state == before || state == PeerState::Connecting {
            Transition::Quiet
        } else if state == PeerState::Connected {
            Transition::Announce
        } else {
            Transition::GiveUp
        }
    }

    /// Whether packets flow: playback has started and the peer is connected.
    pub fn on_air(&self) -> (result: bool)
        ensures
            result == (self@.playback is Some && self@.session.previous == PeerState::Connected),
    {
        self.deck.playback.is_some() && self.session.previous == PeerState::Connected
    }

    /// Takes note of a command that was decoded and checked, or refused.
    pub fn judge(&mut self, parsed: Result<Command, CommandError>) -> (command: Option<Command>)
        ensures
            match parsed {
                Ok(accepted) => command == Some(accepted) && final(self)@ == old(self)@,
                Err(_) => command is None && final(self)@ == (RadioView {
                    session: Session {
                        rejected: one_more(old(self)@.session.rejected),
                        ..old(self)@.session
                    },
                    ..old(self)@
                }),
            },
    {
        match parsed {
            Ok(command) => Some(command),
            Err(_) => {
                self.session.rejected = self.session.rejected.saturating_add(1);
                None
            },
        }
    }

    /// Takes a message from the command channel, if there is one; `decode` reads its JSON.
    pub fn receive<F: FnOnce(&[u8]) -> Option<Command>>(&mut self, bytes: &[u8], decode: F) -> (
    command: Option<Command>)
        requires
            0 < bytes@.len() <= COMMAND_LIMIT ==> decode.requires((bytes,)),
        ensures
            bytes@.len() == 0 ==> command is None && final(self)@ == old(self)@,
            bytes@.len() > COMMAND_LIMIT ==> command is None && final(self)@ == (RadioView {
                session: Session {
                    rejected: one_more(old(self)@.session.rejected),
                    ..old(self)@.session
                },
                ..old(self)@
            }),
            0 < bytes@.len() <= COMMAND_LIMIT ==> exists|decoded: Option<Command>| #[trigger]
                decode.ensures((bytes,), decoded) && match protocol::accepted(decoded) {
                    Ok(accepted) => command == Some(accepted) && final(self)@ == old(self)@,
                    Err(_) => command is None && final(self)@ == (RadioView {
                        session: Session {
                            rejected: one_more(old(self)@.session.rejected),
                            ..old(self)@.session
                        },
                        ..old(self)@
                    }),
                },
    {
        if bytes.len() == 0 {
            return None;
        }
        let parsed = Command::parse(bytes, decode);
        self.judge(parsed)
    }

    /// Carries out a command once the board has been asked for its color, and answers it.
    /// `led_set` says whether the board took the color; it does not matter without one.
    pub fn perform<'a>(&mut self, command: &'a Command, led_set: bool) -> (ack: Ack<'a>)
        requires
            old(self)@.playback is Some,
        ensures
            in_tune(final(self)@),
            final(self)@ == (RadioView {
                playback: Some(obeyed(old(self)@.playback->Some_0, *command)),
                session: Session {
                    led: lit(old(self)@.session.led, *command, led_set),
                    ..old(self)@.session
                },
                ..old(self)@
            }),
            ack.event@ == "ack"@,
            match command.command_id {
                Some(id) => ack.command_id matches Some(shown) && shown@ == id@,
                None => ack.command_id is None,
            },
            ack.result == if command.led is Some && !led_set {
                -1int
            } else {
                0
            },
            ack.led == final(self)@.session.led,
            ack.paused == final(self)@.playback->Some_0.paused,
    {
        let mut result: i32 = 0;
        if let Some(color) = command.led {
            if led_set {
                self.session.led = color;
            } else {
                result = -1;
            }
        }
        let paused = self.deck.act(command.action);
        proof {
            use_type_invariant(&self.deck);
        }
        Ack {
            event: "ack",
            command_id: match &command.command_id {
                Some(id) => Some(id.as_str()),
                None => None,
            },
            result,
            led: self.session.led,
            paused,
        }
    }

    /// The packet that is due now, and whether it begins another song that has to be announced.
    pub fn due(&mut self, now_us: u64) -> (due: Option<(Due, bool)>)
        requires
            old(self)@.playback is Some,
        ensures
            in_tune(final(self)@),
            ({
                let state = old(self)@.playback->Some_0;
                let at = playback::at_deadline(state, now_us as int);
                match due {
                    None => now_us < state.next_us && final(self)@ == old(self)@,
                    Some((due, changed)) => {
                        &&& now_us >= state.next_us
                        &&& due == playback::packet(at)
                        &&& now_playing::fits(old(self)@.songs, due)
                        &&& changed == (due.revision
                            != old(self)@.published.now_playing.revision)
                        &&& final(self)@ == (RadioView {
                            playback: Some(playback::handed_out(at)),
                            published: now_playing::recorded(
                                old(self)@.published,
                                old(self)@.songs,
                                due,
                            ),
                            session: Session { emitted: true, ..old(self)@.session },
                            ..old(self)@
                        })
                    },
                }
            }),
    {
        let due = match self.deck.due(now_us) {
            Some(due) => due,
            None => {
                proof {
                    use_type_invariant(&self.deck);
                }
                return None;
            },
        };
        proof {
            use_type_invariant(&self.deck);
        }
        self.session.emitted = true;
        let changed = match self.published.record(&self.deck.catalog, due) {
            Ok(changed) => changed,
            Err(_) => false,
        };
        Some((due, changed))
    }

    /// Reads the audio of a packet into `out`; while paused, silence is sent in its place.
    pub fn audio(&self, source: &mut impl ReadAt, due: Due, out: &mut [u8]) -> (result: Result<
        Audio,
        music::Error,
    >)
        ensures
            final(source).contents() == old(source).contents(),
            final(source).faults() == old(source).faults(),
            music::catalog::hands_on(
                old(source).failures(),
                final(source).failures(),
                old(source).faults(),
                result,
            ),
            music::catalog::modest(
                old(source).asked(),
                final(source).asked(),
                layout::song_end(self@.catalog, due.track_index as int),
                MAX_OPUS_BYTES as int,
            ),
            final(out)@.len() == old(out)@.len(),
            ({
                let packet = layout::packet_at(
                    self@.catalog,
                    old(source).contents(),
                    due.track_index as int,
                    due.index as int,
                    old(out)@.len() as int,
                );
                match result {
                    Ok(Audio::Silence) => {
                        &&& packet is Ok
                        &&& due.paused
                        &&& final(out)@ == packet->Ok_0 + old(out)@.skip(
                            packet->Ok_0.len() as int,
                        )
                    },
                    Ok(Audio::Frame(length)) => {
                        &&& packet is Ok
                        &&& !due.paused
                        &&& length == packet->Ok_0.len()
                        &&& final(out)@ == packet->Ok_0 + old(out)@.skip(length as int)
                    },
                    Err(error) => {
                        ||| packet == Err::<Seq<u8>, music::Error>(error) && final(out)@ == old(
                            out,
                        )@
                        ||| music::catalog::failed(
                            old(source).failures(),
                            final(source).failures(),
                            old(source).faults(),
                            error,
                        )
                    },
                }
            }),
    {
        match self.deck.catalog.read_frame(source, due.track_index as usize, due.index, out) {
            Err(error) => Err(error),
            Ok(length) => if due.paused {
                Ok(Audio::Silence)
            } else {
                Ok(Audio::Frame(length))
            },
        }
    }

    /// The epoch that analysis must belong to.
    pub fn epoch(&self) -> (epoch: u32)
        requires
            self@.playback is Some,
        ensures
            epoch == self@.playback->Some_0.epoch,
    {
        match &self.deck.playback {
            Some(player) => player.epoch(),
            None => 0,
        }
    }

    /// Whether telemetry is due, and if so, whether to look at the stack for it.
    pub fn telemetry_due(&mut self, now_us: u64) -> (due: Option<bool>)
        requires
            reports(old(self)@.session, now_us as int) ==> {
                &&& now_us + TELEMETRY_INTERVAL_US <= u64::MAX
                &&& now_us >= old(self)@.session.next_stack_sample ==> now_us + STACK_INTERVAL_US
                    <= u64::MAX
            },
        ensures
            due is Some <==> reports(old(self)@.session, now_us as int),
            due is None ==> final(self)@ == old(self)@,
            due matches Some(look) ==> {
                &&& look == (now_us >= old(self)@.session.next_stack_sample)
                &&& final(self)@ == (RadioView {
                    session: reported(old(self)@.session, now_us as int),
                    ..old(self)@
                })
            },
    {
        if now_us < self.session.next_telemetry || !self.session.emitted {
            return None;
        }
        self.session.next_telemetry = now_us + TELEMETRY_INTERVAL_US;
        self.session.sequence = self.session.sequence.wrapping_add(1);
        let look = now_us >= self.session.next_stack_sample;
        if look {
            self.session.next_stack_sample = now_us + STACK_INTERVAL_US;
        }
        Some(look)
    }

    /// Notes how much of the stack is free.
    pub fn note_stack(&mut self, free: u32)
        ensures
            final(self)@ == (RadioView {
                session: Session { stack_free: free, ..old(self)@.session },
                ..old(self)@
            }),
    {
        self.session.stack_free = free;
    }

    /// The telemetry message. `heap_free` counts only without a current reading.
    pub fn telemetry(
        &self,
        now_us: u64,
        music: MusicStatus,
        reading: Option<Reading>,
        heap_free: u32,
        dropped_commands: u32,
        spectrum: SpectrumStatus,
    ) -> (message: Telemetry)
        requires
            self@.playback is Some,
        ensures
            message == (Telemetry {
                event: "telemetry",
                firmware: "rust",
                sequence: self@.session.sequence,
                uptime_ms: now_us / 1000,
                position_ms: self@.published.position_ms,
                duration_ms: self@.published.duration_ms,
                playback_revision: self@.published.now_playing.revision,
                music,
                paused: self@.playback->Some_0.paused,
                rssi: match reading {
                    Some(reading) => reading.rssi,
                    None => None,
                },
                hardware: match reading {
                    Some(reading) => Some(reading.hardware),
                    None => None,
                },
                heap: match reading {
                    Some(reading) => reading.hardware.internal.free,
                    None => heap_free,
                },
                audio_errors: 0,
                data_errors: self@.session.data_errors,
                skipped_frames: self@.playback->Some_0.skipped as u64,
                rejected_commands: self@.session.rejected,
                dropped_commands,
                stack_free: self@.session.stack_free,
                spectrum,
                led: self@.session.led,
            }),
    {
        let mut paused: bool = false;
        let mut skipped: u64 = 0;
        if let Some(player) = &self.deck.playback {
            paused = player.paused();
            skipped = player.skipped_frames();
        }
        Telemetry {
            event: "telemetry",
            firmware: "rust",
            sequence: self.session.sequence,
            uptime_ms: now_us / 1000,
            position_ms: self.published.position_ms,
            duration_ms: self.published.duration_ms,
            playback_revision: self.published.now_playing.revision,
            music,
            paused,
            rssi: match reading {
                Some(reading) => reading.rssi,
                None => None,
            },
            hardware: match reading {
                Some(reading) => Some(reading.hardware),
                None => None,
            },
            heap: match reading {
                Some(reading) => reading.hardware.internal.free,
                None => heap_free,
            },
            // Audio send failures end the session.
            audio_errors: 0,
            data_errors: self.session.data_errors,
            skipped_frames: skipped,
            rejected_commands: self.session.rejected,
            dropped_commands,
            stack_free: self.session.stack_free,
            spectrum,
            led: self.session.led,
        }
    }

    /// Counts a message that the peer did not take.
    pub fn sent(&mut self, outcome: SendOutcome)
        ensures
            final(self)@ == (RadioView {
                session: Session {
                    data_errors: if outcome == SendOutcome::Backpressured {
                        one_more(old(self)@.session.data_errors)
                    } else {
                        old(self)@.session.data_errors
                    },
                    ..old(self)@.session
                },
                ..old(self)@
            }),
    {
        if outcome == SendOutcome::Backpressured {
            self.session.data_errors = self.session.data_errors.saturating_add(1);
        }
    }
}

/// Music that plays is analysed; silence is not.
pub fn to_analyse(due: Due) -> (result: bool)
    ensures
        result == !due.paused,
{
    !due.paused
}

/// While paused, every other packet comes with an empty spectrum; otherwise analysis sends it.
pub fn idle_spectrum(due: Due) -> (message: Option<[u8; 48]>)
    requires
        due.index * music::FRAME_MS <= u32::MAX,
    ensures
        message is Some <==> due.paused && due.spectrum,
        message matches Some(bytes) ==> bytes@ == protocol::spectrum_bytes(
            due,
            Seq::new(32, |i: int| 0u8),
        ),
{
    if due.paused && due.spectrum {
        let bands: [u8; 32] = [0; 32];
        assert(bands@ =~= Seq::new(32, |i: int| 0u8));
        Some(protocol::spectrum(due, &bands))
    } else {
        None
    }
}

/// Telemetry is reported at most once in half a second.
pub proof fn lemma_reports_keep_their_distance(session: Session, now: int, later: int)
    requires
        0 <= now,
        now + TELEMETRY_INTERVAL_US <= u64::MAX,
        later < now + TELEMETRY_INTERVAL_US,
    ensures
        !reports(reported(session, now), later),
{
}

/// Every packet that comes due can be read from the storage that the catalog was made from, into
/// a buffer with room for the largest packet: only the storage itself can fail.
pub proof fn lemma_every_due_packet_can_be_read(
    radio: RadioView,
    contents: Seq<u8>,
    now: int,
    room: int,
)
    requires
        in_tune(radio),
        radio.playback is Some,
        layout::catalog_of(contents) == Ok::<CatalogView, music::Error>(radio.catalog),
        radio.playback->Some_0.next_us <= now <= u64::MAX,
        room >= MAX_OPUS_BYTES,
    ensures
        ({
            let due = playback::packet(playback::at_deadline(radio.playback->Some_0, now));
            layout::packet_at(
                radio.catalog,
                contents,
                due.track_index as int,
                due.index as int,
                room,
            ) is Ok
        }),
{
    let due = playback::packet(playback::at_deadline(radio.playback->Some_0, now));
    now_playing::lemma_playback_of_the_catalog_is_always_recorded(
        radio.songs,
        radio.playback->Some_0,
        now,
    );
    assert(radio.songs[due.track_index as int].frames@
        == radio.catalog.songs[due.track_index as int].frames);
    music::laws::lemma_largest_buffer_suffices(
        contents,
        due.track_index as int,
        due.index as int,
        room,
    );
}

/// A connection is announced when it comes about, and given up when it is lost; a state that lasts
/// and one that is still coming about ask for nothing.
pub proof fn lemma_connections_are_told_of_once(before: PeerState, after: PeerState)
    ensures
        transition(before, after) == Transition::Announce <==> after is Connected && !(
        before is Connected),
        transition(before, after) == Transition::GiveUp <==> after is Lost && !(before is Lost),
        transition(before, before) == Transition::Quiet,
{
}

/// The color changes with a command that has one and that the board carries out, and with no
/// other; it is then the command's. Before any command it is a dim green.
pub proof fn lemma_the_color_is_the_last_that_was_set(led: Color, command: Command, led_set: bool)
    ensures
        command.led is None ==> lit(led, command, led_set) == led,
        !led_set ==> lit(led, command, led_set) == led,
        command.led matches Some(color) ==> lit(led, command, true) == color,
        FIRST_COLOR@ == seq![0u8, 12u8, 4u8],
{
    assert(FIRST_COLOR@ =~= seq![0u8, 12u8, 4u8]);
}

/// A command does to playback what its action does, whatever else it asks for, and nothing
/// without one.
pub proof fn lemma_commands_act_as_their_action(
    state: PlaybackView,
    command: Command,
    other: Command,
)
    requires
        playback::valid(state),
    ensures
        command.action is None ==> obeyed(state, command) == state,
        command.action == other.action ==> obeyed(state, command) == obeyed(state, other),
        ({
            let after = obeyed(state, command);
            &&& command.action == Some(Action::Play) ==> !after.paused && after.track
                == state.track && after.index == state.index
            &&& command.action == Some(Action::Pause) ==> after.paused && after.track
                == state.track && after.index == state.index
            &&& command.action == Some(Action::Restart) ==> !after.paused && after.track
                == state.track && after.index == 0
            &&& command.action == Some(Action::Next) ==> after.paused == state.paused
                && after.index == 0 && after.revision == (state.revision + 1) % 0x1_0000_0000
        }),
{
}

/// Telemetry is due once something has been sent and its time has come. A report counts up its
/// number, and puts the next one half a second later; the stack is looked at every five seconds.
/// Nothing else changes.
pub proof fn lemma_telemetry_comes_every_half_second(session: Session, now: int)
    requires
        0 <= now,
        now + 5_000_000 <= u64::MAX,
    ensures
        reports(session, now) <==> session.emitted && now >= session.next_telemetry,
        ({
            let after = reported(session, now);
            &&& after.next_telemetry == now + 500_000
            &&& after.sequence == (session.sequence + 1) % 0x1_0000_0000_0000_0000
            &&& after.next_stack_sample == if now >= session.next_stack_sample {
                now + 5_000_000
            } else {
                session.next_stack_sample as int
            }
            &&& after.led == session.led
            &&& after.data_errors == session.data_errors
            &&& after.rejected == session.rejected
            &&& after.stack_free == session.stack_free
            &&& after.previous == session.previous
            &&& after.emitted == session.emitted
        }),
{
}

/// Counters count by one and stop at the largest number.
pub proof fn lemma_counters_count_up_and_stop(count: u64)
    ensures
        count < u64::MAX ==> one_more(count) == count + 1,
        one_more(u64::MAX) == u64::MAX,
{
}

/// A radio in tune plays every song of its catalog: one to 32, each with its own frames.
pub proof fn lemma_a_radio_in_tune_plays_its_catalog(radio: RadioView, song: int)
    requires
        in_tune(radio),
        0 <= song < radio.songs.len(),
    ensures
        1 <= radio.songs.len() <= 32,
        radio.catalog.songs.len() == radio.songs.len(),
        radio.catalog.songs[song].frames == radio.songs[song].frames@,
        radio.playback matches Some(state) ==> {
            &&& playback::valid(state)
            &&& state.frames.len() == radio.songs.len()
            &&& state.frames[song] == radio.songs[song].frames@
        },
{
}

} // verus!
