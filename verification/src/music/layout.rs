//! What a music pack means: the songs that a byte sequence holds, or why it holds none.
//!
//! Every number is little endian. A song is a 64-byte header, then (version 3 only) its
//! tags, then its frames. A frame is a 16-bit packet length, then (version 1 only) 32
//! spectrum bytes, then the Opus packet. A playlist (version 4) is a 64-byte header, then
//! songs that each follow their 32-bit length.
use crate::checksum;
use crate::music::catalog::{MAX_MUSIC_BYTES, MAX_TOTAL_FRAMES, MAX_TRACKS};
use crate::music::{
    self, Error, TrackView, BANDS, FRAME_MS, HEADER_BYTES, MAX_FRAMES, MAX_OPUS_BYTES,
    MAX_TAG_BYTES,
};
use crate::text;
use vstd::prelude::*;

verus! {

/// A song in storage: its tags, where each of its frames starts, the bytes of a frame
/// before its packet, and where the last frame ends.
#[verifier::ext_equal]
pub struct SongView {
    pub metadata: Option<TrackView>,
    pub frames: int,
    pub prefix: int,
    pub offsets: Seq<int>,
    pub end: int,
}

/// The songs in storage, and how many bytes they take.
#[verifier::ext_equal]
pub struct CatalogView {
    pub songs: Seq<SongView>,
    pub used: int,
}

/// A song up to its first frame, which starts at `cursor`. Its checksum covers the bytes
/// from `payload` to the end of its last frame, which lies at `limit` at the latest.
#[verifier::ext_equal]
pub struct LeadView {
    pub metadata: Option<TrackView>,
    pub frames: int,
    pub prefix: int,
    pub payload: int,
    pub cursor: int,
    pub limit: int,
    pub checksum: int,
}

/// "S3MUSIC" and a zero byte.
pub open spec fn magic() -> Seq<u8> {
    seq![0x53u8, 0x33u8, 0x4du8, 0x55u8, 0x53u8, 0x49u8, 0x43u8, 0u8]
}

pub open spec fn has_magic(s: Seq<u8>, start: int) -> bool {
    s.subrange(start, start + 8) == magic()
}

/// The header announces stereo Opus at 48 kHz in 20 ms frames.
pub open spec fn supported(s: Seq<u8>, start: int) -> bool {
    &&& music::le32_at(s, start + 16) == 48_000
    &&& music::le32_at(s, start + 20) == 2
    &&& music::le32_at(s, start + 24) == FRAME_MS
}

/// The bytes of a frame before its packet, for each version of a song.
pub open spec fn frame_prefix(version: int) -> Option<int> {
    if version == 1 {
        Some(2 + BANDS as int)
    } else if version == 2 || version == 3 {
        Some(2int)
    } else {
        None
    }
}

/// Reads a tag of `length` bytes.
pub open spec fn tag_at(s: Seq<u8>, cursor: int, length: int, limit: int) -> Result<
    Seq<char>,
    Error,
> {
    if cursor + length > limit {
        Err(Error::Truncated)
    } else {
        match music::tag_text(s.subrange(cursor, cursor + length)) {
            Some(text) => Ok(text),
            None => Err(Error::Metadata),
        }
    }
}

/// Reads the title and the artist of a song with that many frames, and says where its first
/// frame starts.
pub open spec fn tags_at(s: Seq<u8>, cursor: int, limit: int, frames: int) -> Result<
    (TrackView, int),
    Error,
> {
    if cursor + 4 > limit {
        Err(Error::Truncated)
    } else {
        let title_len = music::le16_at(s, cursor);
        let artist_len = music::le16_at(s, cursor + 2);
        if !(1 <= title_len <= MAX_TAG_BYTES) || artist_len > MAX_TAG_BYTES {
            Err(Error::Metadata)
        } else {
            match tag_at(s, cursor + 4, title_len, limit) {
                Err(error) => Err(error),
                Ok(title) => match tag_at(s, cursor + 4 + title_len, artist_len, limit) {
                    Err(error) => Err(error),
                    Ok(artist) => if text::blank(title) {
                        Err(Error::Metadata)
                    } else {
                        Ok(
                            (
                                TrackView { title, artist, duration_ms: frames * FRAME_MS },
                                cursor + 4 + title_len + artist_len,
                            ),
                        )
                    },
                },
            }
        }
    }
}

/// Reads a song up to its first frame, where `indexed` frames come before it.
pub open spec fn lead_at(s: Seq<u8>, start: int, limit: int, indexed: int) -> Result<
    LeadView,
    Error,
> {
    if start + HEADER_BYTES > limit {
        Err(Error::Truncated)
    } else if !has_magic(s, start) {
        Err(Error::Header)
    } else {
        let version = music::le32_at(s, start + 8);
        let frames = music::le32_at(s, start + 12);
        let checksum = music::le32_at(s, start + 28);
        let payload = start + HEADER_BYTES;
        match frame_prefix(version) {
            None => Err(Error::Header),
            Some(prefix) => if !supported(s, start) {
                Err(Error::Format)
            } else if !(1 <= frames <= MAX_FRAMES) || indexed + frames > MAX_TOTAL_FRAMES {
                Err(Error::FrameCount)
            } else if version == 3 {
                match tags_at(s, payload, limit, frames) {
                    Err(error) => Err(error),
                    Ok((track, cursor)) => Ok(
                        LeadView {
                            metadata: Some(track),
                            frames,
                            prefix,
                            payload,
                            cursor,
                            limit,
                            checksum,
                        },
                    ),
                }
            } else {
                Ok(
                    LeadView {
                        metadata: None,
                        frames,
                        prefix,
                        payload,
                        cursor: payload,
                        limit,
                        checksum,
                    },
                )
            },
        }
    }
}

/// Reads `count` frames: where each starts, and where the last ends.
pub open spec fn frames_at(s: Seq<u8>, cursor: int, limit: int, prefix: int, count: nat) -> Result<
    (Seq<int>, int),
    Error,
>
    decreases count,
{
    if count == 0 {
        Ok((Seq::empty(), cursor))
    } else if cursor + 2 > limit {
        Err(Error::Truncated)
    } else {
        let length = music::le16_at(s, cursor);
        if !(1 <= length <= MAX_OPUS_BYTES) {
            Err(Error::PacketSize)
        } else if cursor + prefix + length > limit {
            Err(Error::Truncated)
        } else {
            match frames_at(s, cursor + prefix + length, limit, prefix, (count - 1) as nat) {
                Err(error) => Err(error),
                Ok((offsets, end)) => Ok((seq![cursor] + offsets, end)),
            }
        }
    }
}

/// Reads the frames that follow a lead, and checks the song's checksum.
pub open spec fn song_after(s: Seq<u8>, lead: LeadView) -> Result<SongView, Error> {
    match frames_at(s, lead.cursor, lead.limit, lead.prefix, lead.frames as nat) {
        Err(error) => Err(error),
        Ok((offsets, end)) => if checksum::crc32(s.subrange(lead.payload, end)) != lead.checksum {
            Err(Error::Checksum)
        } else {
            Ok(
                SongView {
                    metadata: lead.metadata,
                    frames: lead.frames,
                    prefix: lead.prefix,
                    offsets,
                    end,
                },
            )
        },
    }
}

/// Reads a song.
pub open spec fn song_at(s: Seq<u8>, start: int, limit: int, indexed: int) -> Result<
    SongView,
    Error,
> {
    match lead_at(s, start, limit, indexed) {
        Err(error) => Err(error),
        Ok(lead) => song_after(s, lead),
    }
}

/// Reads `count` songs of a playlist, which end exactly at `used`.
pub open spec fn songs_at(s: Seq<u8>, cursor: int, used: int, count: nat, indexed: int) -> Result<
    Seq<SongView>,
    Error,
>
    decreases count,
{
    if count == 0 {
        if cursor == used {
            Ok(Seq::empty())
        } else {
            Err(Error::Truncated)
        }
    } else if cursor + 4 > used {
        Err(Error::Truncated)
    } else {
        let length = music::le32_at(s, cursor);
        let end = cursor + 4 + length;
        if end > used || length < HEADER_BYTES {
            Err(Error::Truncated)
        } else {
            match song_at(s, cursor + 4, end, indexed) {
                Err(error) => Err(error),
                Ok(song) => if song.end != end {
                    Err(Error::Truncated)
                } else {
                    match songs_at(s, end, used, (count - 1) as nat, indexed + song.frames) {
                        Err(error) => Err(error),
                        Ok(rest) => Ok(seq![song] + rest),
                    }
                },
            }
        }
    }
}

/// How many frames the songs have together.
pub open spec fn total_frames(songs: Seq<SongView>) -> int
    decreases songs.len(),
{
    if songs.len() == 0 {
        0
    } else {
        total_frames(songs.drop_last()) + songs.last().frames
    }
}

/// What the header of a playlist allows its songs to be read with: their number and where
/// they end.
pub open spec fn playlist_header(s: Seq<u8>) -> Result<(int, int), Error> {
    let count = music::le32_at(s, 12);
    let used = music::le32_at(s, 32);
    if !(1 <= count <= MAX_TRACKS) {
        Err(Error::TrackCount)
    } else if !supported(s, 0) {
        Err(Error::Format)
    } else if !(HEADER_BYTES <= used <= MAX_MUSIC_BYTES) || used > s.len() {
        Err(Error::Truncated)
    } else if checksum::crc32(s.subrange(HEADER_BYTES as int, used)) != music::le32_at(s, 28) {
        Err(Error::Checksum)
    } else {
        Ok((count, used))
    }
}

/// The bytes of storage that a single song can take.
pub open spec fn single_limit(s: Seq<u8>) -> int {
    if s.len() <= MAX_MUSIC_BYTES {
        s.len() as int
    } else {
        MAX_MUSIC_BYTES as int
    }
}

/// Reads the whole storage.
pub open spec fn catalog_of(s: Seq<u8>) -> Result<CatalogView, Error> {
    if s.len() < HEADER_BYTES {
        Err(Error::Truncated)
    } else if !has_magic(s, 0) {
        Err(Error::Header)
    } else if music::le32_at(s, 8) != 4 {
        match song_at(s, 0, single_limit(s), 0) {
            Err(error) => Err(error),
            Ok(song) => Ok(CatalogView { songs: seq![song], used: song.end }),
        }
    } else {
        match playlist_header(s) {
            Err(error) => Err(error),
            Ok((count, used)) => match songs_at(s, HEADER_BYTES as int, used, count as nat, 0) {
                Err(error) => Err(error),
                Ok(songs) => Ok(CatalogView { songs, used }),
            },
        }
    }
}

/// What reading a song asks of memory: nothing before its frames can be indexed, then room for
/// all of them.
pub open spec fn song_requests(s: Seq<u8>, start: int, limit: int, indexed: int) -> Seq<nat> {
    match lead_at(s, start, limit, indexed) {
        Err(_) => Seq::empty(),
        Ok(lead) => seq![lead.frames as nat],
    }
}

/// What reading `count` songs of a playlist asks of memory, song by song, up to the first that
/// cannot be read.
pub open spec fn songs_requests(
    s: Seq<u8>,
    cursor: int,
    used: int,
    count: nat,
    indexed: int,
) -> Seq<nat>
    decreases count,
{
    if count == 0 || cursor + 4 > used {
        Seq::empty()
    } else {
        let length = music::le32_at(s, cursor);
        let end = cursor + 4 + length;
        if end > used || length < HEADER_BYTES {
            Seq::empty()
        } else {
            let first = song_requests(s, cursor + 4, end, indexed);
            match song_at(s, cursor + 4, end, indexed) {
                Err(_) => first,
                Ok(song) => if song.end != end {
                    first
                } else {
                    first + songs_requests(s, end, used, (count - 1) as nat, indexed + song.frames)
                },
            }
        }
    }
}

/// What reading the whole storage asks of memory, in order: each time room for the frames of
/// one song.
pub open spec fn requests_of(s: Seq<u8>) -> Seq<nat> {
    if s.len() < HEADER_BYTES || !has_magic(s, 0) {
        Seq::empty()
    } else if music::le32_at(s, 8) != 4 {
        song_requests(s, 0, single_limit(s), 0)
    } else {
        match playlist_header(s) {
            Err(_) => Seq::empty(),
            Ok((count, used)) => songs_requests(s, HEADER_BYTES as int, used, count as nat, 0),
        }
    }
}

/// Where a song of a catalog ends; a song that is not there ends before the storage begins.
pub open spec fn song_end(catalog: CatalogView, song: int) -> int {
    if 0 <= song < catalog.songs.len() {
        catalog.songs[song].end
    } else {
        0
    }
}

/// The packet of a frame of a catalog over storage `s`, for a buffer of `room` bytes.
pub open spec fn packet_at(
    catalog: CatalogView,
    s: Seq<u8>,
    song: int,
    index: int,
    room: int,
) -> Result<Seq<u8>, Error> {
    if song >= catalog.songs.len() {
        Err(Error::TrackCount)
    } else if index >= catalog.songs[song].frames {
        Err(Error::FrameCount)
    } else {
        let song = catalog.songs[song];
        let offset = song.offsets[index];
        if offset + 2 > song.end || offset + 2 > s.len() {
            Err(Error::Truncated)
        } else {
            let length = music::le16_at(s, offset);
            let start = offset + song.prefix;
            if !(1 <= length <= MAX_OPUS_BYTES) || length > room {
                Err(Error::PacketSize)
            } else if start + length > song.end || start + length > s.len() {
                Err(Error::Truncated)
            } else {
                Ok(s.subrange(start, start + length))
            }
        }
    }
}

} // verus!
