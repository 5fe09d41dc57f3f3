//! Browser wire contracts. Maintenance commands are deliberately a separate API.
use crate::metrics::Hardware;
use crate::music::{self, BANDS, FRAME_MS};
use crate::playback::Due;
use crate::spectrum::{FFT_SIZE, SAMPLE_RATE};
use vstd::prelude::*;
use vstd::utf8::*;

verus! {

pub const COMMAND_LIMIT: usize = 512;

/// The longest command identifier, in bytes of UTF-8.
pub const ID_LIMIT: usize = 64;

/// RFC 6716 silence packet; keep the RTP clock running during pause.
pub const SILENCE: [u8; 3] = [0xf8, 0xff, 0xfe];

#[derive(Debug, Clone, Copy, PartialEq, Eq, Structural)]
pub enum Action {
    Play,
    Pause,
    Restart,
    Next,
}

/// Red, green and blue.
#[derive(Debug, Clone, Copy, PartialEq, Eq)]
pub struct Color(pub [u8; 3]);

#[derive(Debug)]
pub struct Command {
    pub led: Option<Color>,
    pub action: Option<Action>,
    pub command_id: Option<String>,
}

#[derive(Debug, Clone, Copy, PartialEq, Eq, Structural)]
pub enum CommandError {
    TooLarge,
    Invalid,
    Empty,
    IdTooLong,
}

/// The diagnostic text of each error.
pub open spec fn command_error_text(error: CommandError) -> Seq<char> {
    match error {
        CommandError::TooLarge => "invalid control command: TooLarge"@,
        CommandError::Invalid => "invalid control command: Invalid"@,
        CommandError::Empty => "invalid control command: Empty"@,
        CommandError::IdTooLong => "invalid control command: IdTooLong"@,
    }
}

impl CommandError {
    pub fn message(self) -> (text: &'static str)
        ensures
            text@ == command_error_text(self),
    {
        match self {
            CommandError::TooLarge => "invalid control command: TooLarge",
            CommandError::Invalid => "invalid control command: Invalid",
            CommandError::Empty => "invalid control command: Empty",
            CommandError::IdTooLong => "invalid control command: IdTooLong",
        }
    }
}

/// What becomes of the outcome of decoding: a command asks for something, and its identifier
/// is short.
pub open spec fn accepted(decoded: Option<Command>) -> Result<Command, CommandError> {
    match decoded {
        None => Err(CommandError::Invalid),
        Some(command) => if command.led is None && command.action is None {
            Err(CommandError::Empty)
        } else if command.command_id matches Some(id) && encode_utf8(id@).len() > ID_LIMIT {
            Err(CommandError::IdTooLong)
        } else {
            Ok(command)
        },
    }
}

impl Command {
    /// Checks a command that was decoded, or says that it could not be.
    pub fn check(decoded: Option<Command>) -> (result: Result<Command, CommandError>)
        ensures
            result == accepted(decoded),
    {
        match decoded {
            None => Err(CommandError::Invalid),
            Some(command) => {
                if command.led.is_none() && command.action.is_none() {
                    return Err(CommandError::Empty);
                }
                let long = match &command.command_id {
                    Some(id) => id.as_str().as_bytes().len() > ID_LIMIT,
                    None => false,
                };
                if long {
                    Err(CommandError::IdTooLong)
                } else {
                    Ok(command)
                }
            },
        }
    }

    /// Decodes and checks a message from a browser. `decode` reads the JSON object; it never
    /// sees a message beyond the limit.
    pub fn parse<F: FnOnce(&[u8]) -> Option<Command>>(bytes: &[u8], decode: F) -> (result: Result<
        Command,
        CommandError,
    >)
        requires
            bytes@.len() <= COMMAND_LIMIT ==> decode.requires((bytes,)),
        ensures
            bytes@.len() > COMMAND_LIMIT ==> result == Err::<Command, CommandError>(
                CommandError::TooLarge,
            ),
            bytes@.len() <= COMMAND_LIMIT ==> exists|decoded: Option<Command>| #[trigger]
                decode.ensures((bytes,), decoded) && result == accepted(decoded),
    {
        if bytes.len() > COMMAND_LIMIT {
            return Err(CommandError::TooLarge);
        }
        let decoded = decode(bytes);
        Self::check(decoded)
    }
}

#[derive(Debug)]
pub struct Ack<'a> {
    pub event: &'static str,
    pub command_id: Option<&'a str>,
    pub result: i32,
    pub led: Color,
    pub paused: bool,
}

#[derive(Debug)]
pub struct Telemetry {
    pub event: &'static str,
    pub firmware: &'static str,
    pub sequence: u64,
    pub uptime_ms: u64,
    pub position_ms: u32,
    pub duration_ms: u32,
    pub playback_revision: u32,
    pub music: MusicStatus,
    pub paused: bool,
    pub rssi: Option<i32>,
    pub hardware: Option<Hardware>,
    pub heap: u32,
    pub audio_errors: u64,
    pub data_errors: u64,
    pub skipped_frames: u64,
    pub rejected_commands: u64,
    pub dropped_commands: u32,
    pub stack_free: u32,
    pub spectrum: SpectrumStatus,
    pub led: Color,
}

#[derive(Debug, Clone, Copy)]
pub struct MusicStatus {
    pub cache_bytes: u32,
    pub index_bytes: u32,
    pub reads: u32,
    pub max_read_us: u32,
}

#[derive(Debug, Clone, Copy)]
pub struct SpectrumStatus {
    pub source: &'static str,
    pub fft_size: u32,
    pub sample_rate: u32,
    pub core: u32,
    pub frames: u64,
    pub errors: u64,
    pub resets: u64,
    pub input_dropped: u64,
    pub output_dropped: u64,
    pub stale: u64,
    pub mean_us: u32,
    pub max_us: u32,
    pub stack_free: u32,
}

impl Default for SpectrumStatus {
    fn default() -> (status: Self)
        ensures
            status == (SpectrumStatus {
                source: "fft",
                fft_size: FFT_SIZE as u32,
                sample_rate: SAMPLE_RATE,
                core: 1,
                frames: 0,
                errors: 0,
                resets: 0,
                input_dropped: 0,
                output_dropped: 0,
                stale: 0,
                mean_us: 0,
                max_us: 0,
                stack_free: 0,
            }),
    {
        SpectrumStatus {
            source: "fft",
            fft_size: FFT_SIZE as u32,
            sample_rate: SAMPLE_RATE,
            core: 1,
            frames: 0,
            errors: 0,
            resets: 0,
            input_dropped: 0,
            output_dropped: 0,
            stale: 0,
            mean_us: 0,
            max_us: 0,
            stack_free: 0,
        }
    }
}

/// The four bytes of a 32-bit number, lowest first.
pub open spec fn le32_bytes(value: int) -> Seq<u8> {
    seq![
        (value % 0x100) as u8,
        (value / 0x100 % 0x100) as u8,
        (value / 0x1_0000 % 0x100) as u8,
        (value / 0x100_0000 % 0x100) as u8,
    ]
}

/// The bytes of a spectrum message: version, pause flag, two reserved bytes, transport time and
/// song position in milliseconds, 32 normalized bands (none while paused), and the playback
/// revision.
pub open spec fn spectrum_bytes(due: Due, bands: Seq<u8>) -> Seq<u8> {
    seq![2u8, if due.paused { 1u8 } else { 0u8 }, 0u8, 0u8] + le32_bytes(due.pts_ms as int)
        + le32_bytes(due.index * FRAME_MS) + if due.paused {
        Seq::new(BANDS as nat, |i: int| 0u8)
    } else {
        bands
    } + le32_bytes(due.revision as int)
}

fn put_le32(bytes: &mut [u8; 48], at: usize, value: u32)
    requires
        at + 4 <= 48,
    ensures
        final(bytes)@ == old(bytes)@.take(at as int) + le32_bytes(value as int) + old(bytes)@.skip(
            at + 4,
        ),
{
    bytes[at] = (value % 0x100) as u8;
    bytes[at + 1] = (value / 0x100 % 0x100) as u8;
    bytes[at + 2] = (value / 0x1_0000 % 0x100) as u8;
    bytes[at + 3] = (value / 0x100_0000 % 0x100) as u8;
}

/// V2: version, pause flag, reserved bytes, LE u32 transport time and song position
/// in milliseconds, 32 normalized bands, then the LE playback revision (48 bytes total).
pub fn spectrum(due: Due, bands: &[u8; 32]) -> (bytes: [u8; 48])
    requires
        due.index * FRAME_MS <= u32::MAX,
    ensures
        bytes@ == spectrum_bytes(due, bands@),
{
    let mut bytes: [u8; 48] = [0; 48];
    bytes[0] = 2;
    bytes[1] = if due.paused {
        1
    } else {
        0
    };
    put_le32(&mut bytes, 4, due.pts_ms);
    put_le32(&mut bytes, 8, due.index * FRAME_MS);
    if !due.paused {
        let mut i: usize = 0;
        let ghost head = bytes@;
        while i < BANDS
            invariant
                i <= BANDS,
                bytes@ == head.take(12) + bands@.take(i as int) + head.skip(12 + i),
                head.len() == 48,
            decreases BANDS - i,
        {
            bytes[12 + i] = bands[i];
            i = i + 1;
            assert(bytes@ =~= head.take(12) + bands@.take(i as int) + head.skip(12 + i));
        }
    }
    put_le32(&mut bytes, 44, due.revision);
    assert(bytes@ =~= spectrum_bytes(due, bands@));
    bytes
}

/// The little-endian number at a place that holds the four bytes of `value` is `value`.
proof fn lemma_le32_reads_back(bytes: Seq<u8>, at: int, value: int)
    requires
        0 <= value <= u32::MAX,
        0 <= at,
        at + 4 <= bytes.len(),
        bytes.subrange(at, at + 4) == le32_bytes(value),
    ensures
        music::le32_at(bytes, at) == value,
{
    let part = bytes.subrange(at, at + 4);
    assert(part[0] == bytes[at] && part[1] == bytes[at + 1]);
    assert(part[2] == bytes[at + 2] && part[3] == bytes[at + 3]);
}

/// What a spectrum message says reads back: its version, the pause flag, both clocks, the
/// revision and, unless paused, every band. A paused message carries no bands.
pub proof fn lemma_spectrum_reads_back(due: Due, bands: Seq<u8>)
    requires
        due.index * FRAME_MS <= u32::MAX,
        bands.len() == BANDS,
    ensures
        ({
            let bytes = spectrum_bytes(due, bands);
            &&& bytes.len() == 48
            &&& bytes[0] == 2
            &&& due.paused <==> bytes[1] == 1
            &&& music::le32_at(bytes, 4) == due.pts_ms
            &&& music::le32_at(bytes, 8) == due.index * FRAME_MS
            &&& !due.paused ==> bytes.subrange(12, 44) == bands
            &&& due.paused ==> forall|i: int| 12 <= i < 44 ==> #[trigger] bytes[i] == 0
            &&& music::le32_at(bytes, 44) == due.revision
        }),
{
    let bytes = spectrum_bytes(due, bands);
    assert(bytes.subrange(4, 8) =~= le32_bytes(due.pts_ms as int));
    assert(bytes.subrange(8, 12) =~= le32_bytes(due.index * FRAME_MS));
    assert(bytes.subrange(44, 48) =~= le32_bytes(due.revision as int));
    lemma_le32_reads_back(bytes, 4, due.pts_ms as int);
    lemma_le32_reads_back(bytes, 8, due.index * FRAME_MS);
    lemma_le32_reads_back(bytes, 44, due.revision as int);
    if !due.paused {
        assert(bytes.subrange(12, 44) =~= bands);
    }
}

/// A message that was decoded to a color, or to any action, is accepted just as it is, as long as
/// its identifier, where it has one, takes at most 64 bytes of UTF-8.
pub proof fn lemma_every_color_and_every_action_is_accepted(
    command: Command,
    color: Color,
    action: Action,
)
    requires
        command.command_id matches Some(id) ==> encode_utf8(id@).len() <= 64,
        command.led == Some(color) || command.action == Some(action),
    ensures
        accepted(Some(command)) == Ok::<Command, CommandError>(command),
{
}

/// A message is refused in exactly three cases, each with its own error: it could not be decoded,
/// it asks neither for a color nor for an action, or it asks for something under an identifier
/// of more than 64 bytes. Whatever is accepted is what was decoded.
pub proof fn lemma_commands_are_refused_for_a_reason(decoded: Option<Command>)
    ensures
        decoded is None <==> accepted(decoded) == Err::<Command, CommandError>(
            CommandError::Invalid,
        ),
        (decoded matches Some(command) && command.led is None && command.action is None)
            <==> accepted(decoded) == Err::<Command, CommandError>(CommandError::Empty),
        (decoded matches Some(command) && ((command.led is Some || command.action is Some) && (
        command.command_id matches Some(id) && encode_utf8(id@).len() > 64)))
            <==> accepted(decoded) == Err::<Command, CommandError>(CommandError::IdTooLong),
        accepted(decoded) != Err::<Command, CommandError>(CommandError::TooLarge),
        accepted(decoded) matches Ok(command) ==> decoded == Some(command),
{
}

/// The limits of the wire: messages of at most 512 bytes, identifiers of at most 64, and the
/// three bytes of an Opus packet of silence.
pub proof fn lemma_limits_of_the_wire()
    ensures
        COMMAND_LIMIT == 512,
        ID_LIMIT == 64,
        SILENCE@ == seq![0xf8u8, 0xffu8, 0xfeu8],
{
    assert(SILENCE@ =~= seq![0xf8u8, 0xffu8, 0xfeu8]);
}

/// Every byte of a spectrum message: the version is two, one flag says that playback is paused,
/// two bytes are reserved, and the four clocks and counters are little endian, 20 ms for each
/// frame of the song. The bands stand in between, and are zero while paused.
pub proof fn lemma_spectrum_byte_by_byte(due: Due, bands: Seq<u8>)
    requires
        due.index * 20 <= u32::MAX,
        bands.len() == 32,
    ensures
        ({
            let bytes = spectrum_bytes(due, bands);
            &&& bytes.len() == 48
            &&& bytes[0] == 2
            &&& bytes[1] == if due.paused {
                1u8
            } else {
                0u8
            }
            &&& bytes[2] == 0 && bytes[3] == 0
            &&& bytes[4] + 256 * bytes[5] + 65_536 * bytes[6] + 16_777_216 * bytes[7]
                == due.pts_ms
            &&& bytes[8] + 256 * bytes[9] + 65_536 * bytes[10] + 16_777_216 * bytes[11] == 20
                * due.index
            &&& forall|i: int|
                0 <= i < 32 ==> #[trigger] bytes[12 + i] == if due.paused {
                    0u8
                } else {
                    bands[i]
                }
            &&& bytes[44] + 256 * bytes[45] + 65_536 * bytes[46] + 16_777_216 * bytes[47]
                == due.revision
        }),
{
    lemma_spectrum_reads_back(due, bands);
    let bytes = spectrum_bytes(due, bands);
    assert forall|i: int| 0 <= i < 32 implies #[trigger] bytes[12 + i] == if due.paused {
        0u8
    } else {
        bands[i]
    } by {
        if !due.paused {
            assert(bytes.subrange(12, 44)[i] == bands[i]);
        }
    }
}

/// Every error of a command has a text of its own, and each begins alike.
pub proof fn lemma_command_errors_are_told_apart(a: CommandError, b: CommandError)
    ensures
        "invalid control command: "@.is_prefix_of(command_error_text(a)),
        command_error_text(a) == command_error_text(b) ==> a == b,
{
    reveal_strlit("invalid control command: ");
    reveal_strlit("invalid control command: TooLarge");
    reveal_strlit("invalid control command: Invalid");
    reveal_strlit("invalid control command: Empty");
    reveal_strlit("invalid control command: IdTooLong");
    assert(command_error_text(a).take(25) =~= "invalid control command: "@);
    assert(command_error_text(a)[25] == command_error_text(b)[25] ==> command_error_text(a)[26]
        == command_error_text(b)[26] ==> a == b);
}

} // verus!
