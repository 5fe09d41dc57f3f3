//! What the radio task of the archived firmware decides between its calls to the peer.
use crate::benchmark::music::{self, Frame, Pack};
use crate::benchmark::playback::{self, Action, Due, Playback, PlaybackView};
use crate::error::Error;
use crate::music::{FrameCount, FRAME_MS, MAX_FRAMES};
use crate::protocol::Color;
use crate::radio::{self, PeerState, Transition, FIRST_COLOR, TELEMETRY_INTERVAL_US};
use crate::text;
use vstd::prelude::*;

verus! {

/// The size of the music partition.
pub const PARTITION_BYTES: usize = 4 * 1024 * 1024;

/// The most bytes that a local offer may have.
pub const OFFER_BYTES: usize = 16_000;

pub fn check_partition(length: usize) -> (result: Result<(), Error>)
    ensures
        result is Ok <==> length == PARTITION_BYTES,
        result matches Err(error) ==> error == (Error {
            context: "unexpected music partition size",
            cause: None,
        }),
{
    if length != PARTITION_BYTES {
        Err(Error::new("unexpected music partition size"))
    } else {
        Ok(())
    }
}

/// A length that the peer gave, inside the buffer that it had.
pub fn bounded_length(length: i32, capacity: usize) -> (result: Result<usize, Error>)
    ensures
        match result {
            Ok(bounded) => 0 <= length <= capacity && bounded == length,
            Err(error) => if length < 0 {
                error == (Error { context: "invalid peer response length", cause: None })
            } else {
                length > capacity && error == (Error {
                    context: "oversized peer response",
                    cause: None,
                })
            },
        },
{
    if length < 0 {
        return Err(Error::new("invalid peer response length"));
    }
    let bounded: usize = length as usize;
    if bounded > capacity {
        return Err(Error::new("oversized peer response"));
    }
    Ok(bounded)
}

/// The state that a code of the peer stands for.
pub fn peer_state(code: i32) -> (state: PeerState)
    ensures
        state == if code == 1 {
            PeerState::Connected
        } else if code == -1 {
            PeerState::Lost
        } else {
            PeerState::Connecting
        },
{
    match code {
        1 => PeerState::Connected,
        -1 => PeerState::Lost,
        _ => PeerState::Connecting,
    }
}

/// The text of a local offer, once the peer has one.
pub fn offer_text(bytes: &[u8]) -> (result: Result<Option<String>, Error>)
    ensures
        match result {
            Ok(None) => bytes@.len() == 0,
            Ok(Some(offer)) => {
                &&& bytes@.len() > 0
                &&& vstd::utf8::valid_utf8(bytes@)
                &&& offer@ == vstd::utf8::decode_utf8(bytes@)
            },
            Err(error) => {
                &&& bytes@.len() > 0
                &&& !vstd::utf8::valid_utf8(bytes@)
                &&& error == (Error { context: "invalid local SDP", cause: None })
            },
        },
{
    if bytes.len() == 0 {
        return Ok(None);
    }
    match text::decode(bytes) {
        Some(offer) => Ok(Some(offer)),
        None => Err(Error::new("invalid local SDP")),
    }
}

#[derive(Debug, Clone, Copy, PartialEq, Eq, Structural)]
pub struct Counters {
    pub audio: u64,
    pub data: u64,
    pub rejected: u64,
    pub sequence: u64,
}

#[derive(Debug, Clone, Copy)]
pub struct Session {
    pub led: Color,
    pub counters: Counters,
    pub next_telemetry: u64,
    pub previous: PeerState,
}

/// What the radio reports of itself.
#[derive(Debug)]
pub struct Telemetry {
    pub event: &'static str,
    pub firmware: &'static str,
    pub sequence: u64,
    pub random: u32,
    pub uptime_ms: u64,
    pub position_ms: u32,
    pub duration_ms: u32,
    pub paused: bool,
    pub rssi: i32,
    pub heap: u32,
    pub audio_errors: u64,
    pub data_errors: u64,
    pub skipped_frames: u64,
    pub rejected_commands: u64,
    pub dropped_commands: u32,
    pub stack_free: u32,
    pub led: Color,
}

/// One session: playback once it has started, and its counters and clocks.
#[derive(Debug)]
pub struct Radio {
    deck: Deck,
    session: Session,
}

/// The length of the song, and its playback once it has started.
#[derive(Debug)]
struct Deck {
    frames: FrameCount,
    playback: Option<Playback>,
}

pub struct RadioView {
    pub frames: int,
    pub playback: Option<PlaybackView>,
    pub session: Session,
}

impl View for Radio {
    type V = RadioView;

    closed spec fn view(&self) -> RadioView {
        RadioView {
            frames: self.deck.frames@ as int,
            playback: self.deck.state(),
            session: self.session,
        }
    }
}

/// Playback, where it has started, is valid and plays the pack.
pub open spec fn in_tune(radio: RadioView) -> bool {
    tuned(radio.frames, radio.playback)
}

/// The length is one that a pack can have, and playback of it, where it has started, is valid.
pub open spec fn tuned(frames: int, playback: Option<PlaybackView>) -> bool {
    &&& 1 <= frames <= MAX_FRAMES
    &&& playback matches Some(state) ==> playback::valid(state) && state.frames == frames
}

impl Deck {
    spec fn state(self) -> Option<PlaybackView> {
        match self.playback {
            Some(playback) => Some(playback@),
            None => None,
        }
    }

    #[verifier::type_invariant]
    spec fn in_order(self) -> bool {
        tuned(self.frames@ as int, self.state())
    }

    /// Starts playback, with the first deadline now.
    fn start(&mut self, now_us: u64)
        ensures
            final(self).frames == old(self).frames,
            final(self).state() == Some(
                PlaybackView {
                    frames: old(self).frames@ as int,
                    index: 0,
                    elapsed: 0,
                    next_us: now_us as int,
                    paused: false,
                    skipped: 0,
                },
            ),
    {
        proof {
            use_type_invariant(&*self);
        }
        let player = Playback::new(self.frames, now_us);
        proof {
            use_type_invariant(&player);
        }
        self.playback = Some(player);
    }

    /// Acts on playback, and says whether it is then paused.
    fn act(&mut self, action: Option<Action>) -> (paused: bool)
        requires
            old(self).playback is Some,
        ensures
            final(self).frames == old(self).frames,
            final(self).state() == Some(
                match action {
                    Some(action) => playback::applied(old(self).state()->Some_0, action),
                    None => old(self).state()->Some_0,
                },
            ),
            paused == final(self).state()->Some_0.paused,
    {
        proof {
            use_type_invariant(&*self);
        }
        let mut playback: Option<Playback> = None;
        std::mem::swap(&mut playback, &mut self.playback);
        match playback {
            Some(held) => {
                let mut player = held;
                if let Some(action) = action {
                    player.apply(action);
                }
                let paused = player.paused();
                proof {
                    use_type_invariant(&player);
                }
                self.playback = Some(player);
                paused
            },
            None => false,
        }
    }

    /// The packet that is due now.
    fn due(&mut self, now_us: u64) -> (due: Option<Due>)
        requires
            old(self).playback is Some,
        ensures
            final(self).frames == old(self).frames,
            ({
                let state = old(self).state()->Some_0;
                let at = playback::at_deadline(state, now_us as int);
                match due {
                    None => now_us < state.next_us && final(self).state() == old(self).state(),
                    Some(due) => {
                        &&& now_us >= state.next_us
                        &&& due == playback::packet(at)
                        &&& due.index < old(self).frames@
                        &&& final(self).state() == Some(playback::handed_out(at))
                    },
                }
            }),
    {
        proof {
            use_type_invariant(&*self);
        }
        let mut playback: Option<Playback> = None;
        std::mem::swap(&mut playback, &mut self.playback);
        match playback {
            Some(held) => {
                let mut player = held;
                let ghost state = player@;
                let due = player.due(now_us);
                proof {
                    use_type_invariant(&player);
                    vstd::arithmetic::div_mod::lemma_mod_bound(
                        state.index + playback::late(state, now_us as int),
                        state.frames,
                    );
                }
                self.playback = Some(player);
                due
            },
            None => None,
        }
    }
}

/// What a packet is sent with: its audio, and every other time its bands.
#[derive(Debug, Clone, Copy)]
pub struct Sending<'a> {
    pub due: Due,
    pub opus: &'a [u8],
    pub bands: Option<&'a [u8]>,
}

impl Radio {
    pub fn new(pack: &Pack) -> (radio: Self)
        ensures
            in_tune(radio@),
            radio@.frames == pack@.offsets.len(),
            radio@.playback is None,
            radio@.session == (Session {
                led: Color(FIRST_COLOR),
                counters: Counters { audio: 0, data: 0, rejected: 0, sequence: 0 },
                next_telemetry: 0,
                previous: PeerState::Connecting,
            }),
    {
        Radio {
            deck: Deck { frames: pack.frame_count(), playback: None },
            session: Session {
                led: Color(FIRST_COLOR),
                counters: Counters { audio: 0, data: 0, rejected: 0, sequence: 0 },
                next_telemetry: 0,
                previous: PeerState::Connecting,
            },
        }
    }

    /// Whether playback may start: it starts once.
    pub fn admit_start(&self) -> (result: Result<(), Error>)
        ensures
            result is Ok <==> self@.playback is None,
            result matches Err(error) ==> error == (Error {
                context: "playback already started",
                cause: None,
            }),
    {
        if self.deck.playback.is_some() {
            Err(Error::new("playback already started"))
        } else {
            Ok(())
        }
    }

    /// Starts playback, with the first deadline now.
    pub fn start(&mut self, now_us: u64)
        ensures
            in_tune(final(self)@),
            final(self)@ == (RadioView {
                playback: Some(
                    PlaybackView {
                        frames: old(self)@.frames,
                        index: 0,
                        elapsed: 0,
                        next_us: now_us as int,
                        paused: false,
                        skipped: 0,
                    },
                ),
                ..old(self)@
            }),
    {
        self.deck.start(now_us);
        proof {
            use_type_invariant(&self.deck);
        }
    }

    /// Takes note of the peer's state.
    pub fn observe(&mut self, state: PeerState) -> (asked: Transition)
        ensures
            asked == radio::transition(old(self)@.session.previous, state),
            final(self)@ == (RadioView {
                session: Session { previous: state, ..old(self)@.session },
                ..old(self)@
            }),
    {
        let before = self.session.previous;
        self.session.previous = state;
        if state == before || state == PeerState::Connecting {
            Transition::Quiet
        } else if state == PeerState::Connected {
            Transition::Announce
        } else {
            Transition::GiveUp
        }
    }

    /// Counts a command that was refused.
    pub fn refuse(&mut self)
        ensures
            final(self)@ == (RadioView {
                session: Session {
                    counters: Counters {
                        rejected: radio::one_more(old(self)@.session.counters.rejected),
                        ..old(self)@.session.counters
                    },
                    ..old(self)@.session
                },
                ..old(self)@
            }),
    {
        self.session.counters.rejected = self.session.counters.rejected.saturating_add(1);
    }

    /// Carries out a command once the board has been asked for its color: the result to
    /// acknowledge, the color that shows, and whether playback is paused.
    pub fn perform(&mut self, led: Option<Color>, led_set: bool, action: Option<Action>) -> (ack: (
        i32,
        Color,
        bool,
    ))
        requires
            old(self)@.playback is Some,
        ensures
            in_tune(final(self)@),
            final(self)@ == (RadioView {
                playback: Some(
                    match action {
                        Some(action) => playback::applied(old(self)@.playback->Some_0, action),
                        None => old(self)@.playback->Some_0,
                    },
                ),
                session: Session {
                    led: match led {
                        Some(color) => if led_set {
                            color
                        } else {
                            old(self)@.session.led
                        },
                        None => old(self)@.session.led,
                    },
                    ..old(self)@.session
                },
                ..old(self)@
            }),
            ack.0 == if led is Some && !led_set {
                -1int
            } else {
                0
            },
            ack.1 == final(self)@.session.led,
            ack.2 == final(self)@.playback->Some_0.paused,
    {
        let mut result: i32 = 0;
        if let Some(color) = led {
            if led_set {
                self.session.led = color;
            } else {
                result = -1;
            }
        }
        let paused = self.deck.act(action);
        proof {
            use_type_invariant(&self.deck);
        }
        (result, self.session.led, paused)
    }

    /// The packet that is due now.
    pub fn due(&mut self, now_us: u64) -> (due: Option<Due>)
        requires
            old(self)@.playback is Some,
        ensures
            in_tune(final(self)@),
            ({
                let state = old(self)@.playback->Some_0;
                let at = playback::at_deadline(state, now_us as int);
                match due {
                    None => now_us < state.next_us && final(self)@ == old(self)@,
                    Some(due) => {
                        &&& now_us >= state.next_us
                        &&& due == playback::packet(at)
                        &&& due.index < old(self)@.frames
                        &&& final(self)@ == (RadioView {
                            playback: Some(playback::handed_out(at)),
                            ..old(self)@
                        })
                    },
                }
            }),
    {
        let due = self.deck.due(now_us);
        proof {
            use_type_invariant(&self.deck);
        }
        due
    }

    /// What a packet is sent with: its audio or silence, and every other time its bands.
    pub fn sending<'a>(pack: &Pack<'a>, due: Due, silence: &'a [u8]) -> (result: Result<
        Sending<'a>,
        Error,
    >)
        ensures
            result is Ok <==> due.index < pack@.offsets.len(),
            match result {
                Err(error) => error == (Error {
                    context: "playback index out of range",
                    cause: None,
                }),
                Ok(sending) => {
                    let start = pack@.offsets[due.index as int];
                    let size = crate::music::le16_at(pack@.bytes, start);
                    &&& sending.due == due
                    &&& sending.opus@ == if due.paused {
                        silence@
                    } else {
                        pack@.bytes.subrange(
                            start + music::RECORD_PREFIX,
                            start + music::RECORD_PREFIX + size,
                        )
                    }
                    &&& sending.bands is Some <==> due.spectrum
                    &&& sending.bands matches Some(bands) ==> bands@ == pack@.bytes.subrange(
                        start + 2,
                        start + music::RECORD_PREFIX,
                    )
                },
            },
    {
        let frame: Frame<'a> = match pack.frame(due.index) {
            Some(frame) => frame,
            None => {
                return Err(Error::new("playback index out of range"));
            },
        };
        let opus = if due.paused {
            silence
        } else {
            frame.opus
        };
        let bands = if due.spectrum {
            Some(frame.bands)
        } else {
            None
        };
        Ok(Sending { due, opus, bands })
    }

    /// Counts audio and data that the peer did not take.
    pub fn count_failures(&mut self, audio_failed: bool, data_failed: bool)
        ensures
            final(self)@ == (RadioView {
                session: Session {
                    counters: Counters {
                        audio: if audio_failed {
                            radio::one_more(old(self)@.session.counters.audio)
                        } else {
                            old(self)@.session.counters.audio
                        },
                        data: if data_failed {
                            radio::one_more(old(self)@.session.counters.data)
                        } else {
                            old(self)@.session.counters.data
                        },
                        ..old(self)@.session.counters
                    },
                    ..old(self)@.session
                },
                ..old(self)@
            }),
    {
        if audio_failed {
            self.session.counters.audio = self.session.counters.audio.saturating_add(1);
        }
        if data_failed {
            self.session.counters.data = self.session.counters.data.saturating_add(1);
        }
    }

    /// Whether telemetry is due.
    pub fn telemetry_due(&mut self, now_us: u64) -> (due: bool)
        requires
            now_us >= old(self)@.session.next_telemetry ==> now_us + TELEMETRY_INTERVAL_US
                <= u64::MAX,
        ensures
            due == (now_us >= old(self)@.session.next_telemetry),
            !due ==> final(self)@ == old(self)@,
            due ==> final(self)@ == (RadioView {
                session: Session {
                    next_telemetry: (now_us + TELEMETRY_INTERVAL_US) as u64,
                    counters: Counters {
                        sequence: crate::playback::wrap64(
                            old(self)@.session.counters.sequence + 1,
                        ) as u64,
                        ..old(self)@.session.counters
                    },
                    ..old(self)@.session
                },
                ..old(self)@
            }),
    {
        if now_us < self.session.next_telemetry {
            return false;
        }
        self.session.next_telemetry = now_us + TELEMETRY_INTERVAL_US;
        self.session.counters.sequence = self.session.counters.sequence.wrapping_add(1);
        true
    }

    /// The telemetry message, with what the platform measured for it.
    pub fn telemetry(
        &self,
        now_us: u64,
        random: u32,
        rssi: i32,
        heap: u32,
        dropped_commands: u32,
        stack_free: u32,
    ) -> (message: Telemetry)
        requires
            self@.playback is Some,
        ensures
            message == (Telemetry {
                event: "telemetry",
                firmware: "rust",
                sequence: self@.session.counters.sequence,
                random: random % 1000,
                uptime_ms: now_us / 1000,
                position_ms: (self@.playback->Some_0.index * FRAME_MS) as u32,
                duration_ms: (self@.frames * FRAME_MS) as u32,
                paused: self@.playback->Some_0.paused,
                rssi,
                heap,
                audio_errors: self@.session.counters.audio,
                data_errors: self@.session.counters.data,
                skipped_frames: self@.playback->Some_0.skipped as u64,
                rejected_commands: self@.session.counters.rejected,
                dropped_commands,
                stack_free,
                led: self@.session.led,
            }),
    {
        let mut position_ms: u32 = 0;
        let mut duration_ms: u32 = 0;
        let mut paused: bool = false;
        let mut skipped: u64 = 0;
        if let Some(player) = &self.deck.playback {
            proof {
                use_type_invariant(&self.deck);
            }
            position_ms = player.position_ms();
            duration_ms = player.duration_ms();
            paused = player.paused();
            skipped = player.skipped_frames();
        }
        Telemetry {
            event: "telemetry",
            firmware: "rust",
            sequence: self.session.counters.sequence,
            random: random % 1000,
            uptime_ms: now_us / 1000,
            position_ms,
            duration_ms,
            paused,
            rssi,
            heap,
            audio_errors: self.session.counters.audio,
            data_errors: self.session.counters.data,
            skipped_frames: skipped,
            rejected_commands: self.session.counters.rejected,
            dropped_commands,
            stack_free,
            led: self.session.led,
        }
    }

    pub fn session(&self) -> (session: Session)
        ensures
            session == self@.session,
    {
        self.session
    }
}

/// The partition has 4 MiB, and a local offer at most 16,000 bytes.
pub proof fn lemma_limits_of_the_archived_radio()
    ensures
        PARTITION_BYTES == 4_194_304,
        OFFER_BYTES == 16_000,
{
}

} // verus!
