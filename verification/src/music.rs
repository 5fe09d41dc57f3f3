//! Checked reader for Opus packs: tags, byte order and error texts.
pub mod catalog;
pub mod laws;
pub mod layout;
pub mod memory;
pub mod packing;

pub use catalog::{
    Catalog, CatalogBuilder, ReadAt, Song, SongLead, MAX_MUSIC_BYTES, MAX_TOTAL_FRAMES, MAX_TRACKS,
    PIECE_BYTES,
};
pub use memory::{Allocator, Reserve};

use crate::text;
use vstd::prelude::*;
use vstd::utf8::*;

verus! {

pub const FRAME_MS: u32 = 20;

pub const BANDS: usize = 32;

pub const MAX_OPUS_BYTES: usize = 1275;

pub const MAX_TAG_BYTES: usize = 256;

pub const HEADER_BYTES: usize = 64;

pub const MAX_FRAMES: u32 = 30_000;

#[derive(Debug, Clone, Copy, PartialEq, Eq, Structural)]
pub enum Error {
    Header,
    Format,
    FrameCount,
    Truncated,
    PacketSize,
    Checksum,
    Metadata,
    Memory,
    TrackCount,
    Read,
}

/// The diagnostic text of each error.
pub open spec fn error_text(error: Error) -> Seq<char> {
    match error {
        Error::Header => "invalid music pack header"@,
        Error::Format => "music must be stereo 48 kHz Opus with 20 ms frames"@,
        Error::FrameCount => "music frame count is outside the supported range"@,
        Error::Truncated => "music pack ends inside a frame"@,
        Error::PacketSize => "invalid Opus packet size"@,
        Error::Checksum => "music pack checksum mismatch"@,
        Error::Metadata => "invalid music title or artist"@,
        Error::Memory => "cannot allocate music frame index"@,
        Error::TrackCount => "music track count or index is outside the supported range"@,
        Error::Read => "music storage read failed"@,
    }
}

impl Error {
    pub fn message(self) -> (text: &'static str)
        ensures
            text@ == error_text(self),
    {
        match self {
            Error::Header => "invalid music pack header",
            Error::Format => "music must be stereo 48 kHz Opus with 20 ms frames",
            Error::FrameCount => "music frame count is outside the supported range",
            Error::Truncated => "music pack ends inside a frame",
            Error::PacketSize => "invalid Opus packet size",
            Error::Checksum => "music pack checksum mismatch",
            Error::Metadata => "invalid music title or artist",
            Error::Memory => "cannot allocate music frame index",
            Error::TrackCount => "music track count or index is outside the supported range",
            Error::Read => "music storage read failed",
        }
    }
}

/// A number of frames, never zero.
#[derive(Debug, Clone, Copy, PartialEq, Eq, Structural)]
pub struct FrameCount {
    count: u32,
}

impl View for FrameCount {
    type V = u32;

    closed spec fn view(&self) -> u32 {
        self.count
    }
}

impl FrameCount {
    #[verifier::type_invariant]
    spec fn nonzero(self) -> bool {
        self.count > 0
    }

    pub fn new(count: u32) -> (result: Option<FrameCount>)
        ensures
            result is Some <==> count > 0,
            result matches Some(frames) ==> frames@ == count,
    {
        if count == 0 {
            None
        } else {
            Some(FrameCount { count })
        }
    }

    pub fn get(self) -> (count: u32)
        ensures
            count == self@,
            count > 0,
    {
        proof {
            use_type_invariant(self);
        }
        self.count
    }
}

/// Metadata from a validated song in the music catalog.
#[derive(Debug, PartialEq, Eq)]
pub struct Track {
    pub title: String,
    pub artist: String,
    pub duration_ms: u32,
}

/// What a track's metadata says.
pub struct TrackView {
    pub title: Seq<char>,
    pub artist: Seq<char>,
    pub duration_ms: int,
}

impl View for Track {
    type V = TrackView;

    open spec fn view(&self) -> TrackView {
        TrackView {
            title: self.title@,
            artist: self.artist@,
            duration_ms: self.duration_ms as int,
        }
    }
}

impl Clone for Track {
    fn clone(&self) -> (copy: Self)
        ensures
            copy == *self,
    {
        Track {
            title: self.title.clone(),
            artist: self.artist.clone(),
            duration_ms: self.duration_ms,
        }
    }
}

/// Metadata that may be missing, as what it says.
pub open spec fn optional_track(track: Option<Track>) -> Option<TrackView> {
    match track {
        Some(track) => Some(track@),
        None => None,
    }
}

/// Copies metadata that may be missing.
pub fn copy_track(track: &Option<Track>) -> (copy: Option<Track>)
    ensures
        copy == *track,
{
    match track {
        Some(track) => Some(track.clone()),
        None => None,
    }
}

/// The text of a tag: well-formed UTF-8 without control codes.
pub open spec fn tag_text(bytes: Seq<u8>) -> Option<Seq<char>> {
    if valid_utf8(bytes) && !text::any_control(decode_utf8(bytes)) {
        Some(decode_utf8(bytes))
    } else {
        None
    }
}

pub fn tag(bytes: &[u8]) -> (result: Result<String, Error>)
    ensures
        match result {
            Ok(tag) => tag_text(bytes@) == Some(tag@),
            Err(error) => tag_text(bytes@) is None && error == Error::Metadata,
        },
{
    match text::decode(bytes) {
        None => Err(Error::Metadata),
        Some(decoded) => {
            if text::has_control(decoded.as_str()) {
                Err(Error::Metadata)
            } else {
                Ok(decoded)
            }
        },
    }
}

/// The little-endian 16-bit number at `start`.
pub open spec fn le16_at(bytes: Seq<u8>, start: int) -> int {
    bytes[start] + 0x100 * bytes[start + 1]
}

/// The little-endian 32-bit number at `start`.
pub open spec fn le32_at(bytes: Seq<u8>, start: int) -> int {
    bytes[start] + 0x100 * bytes[start + 1] + 0x1_0000 * bytes[start + 2] + 0x100_0000 * bytes[start
        + 3]
}

pub fn le16(bytes: &[u8], start: usize) -> (value: u16)
    requires
        start + 2 <= bytes@.len(),
    ensures
        value == le16_at(bytes@, start as int),
{
    bytes[start] as u16 + 0x100 * (bytes[start + 1] as u16)
}

pub fn le32(bytes: &[u8], start: usize) -> (value: u32)
    requires
        start + 4 <= bytes@.len(),
    ensures
        value == le32_at(bytes@, start as int),
{
    bytes[start] as u32 + 0x100 * (bytes[start + 1] as u32) + 0x1_0000 * (bytes[start + 2] as u32)
        + 0x100_0000 * (bytes[start + 3] as u32)
}

/// Every error has a text of its own.
pub proof fn lemma_errors_are_told_apart(a: Error, b: Error)
    ensures
        error_text(a) == error_text(b) ==> a == b,
{
    reveal_strlit("invalid music pack header");
    reveal_strlit("music must be stereo 48 kHz Opus with 20 ms frames");
    reveal_strlit("music frame count is outside the supported range");
    reveal_strlit("music pack ends inside a frame");
    reveal_strlit("invalid Opus packet size");
    reveal_strlit("music pack checksum mismatch");
    reveal_strlit("invalid music title or artist");
    reveal_strlit("cannot allocate music frame index");
    reveal_strlit("music track count or index is outside the supported range");
    reveal_strlit("music storage read failed");
    assert(error_text(a).len() == error_text(b).len() && error_text(a)[0] == error_text(b)[0] ==> a
        == b);
}

} // verus!
