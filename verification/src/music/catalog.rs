//! Indexed playlists over bounded random-access storage. Audio stays in storage.
use crate::checksum;
use crate::music::layout;
use crate::music::memory::{self, Reserve};
use crate::music::{
    self, le16, le32, tag, Error, FrameCount, Track, BANDS, FRAME_MS, HEADER_BYTES, MAX_FRAMES,
    MAX_OPUS_BYTES, MAX_TAG_BYTES,
};
use crate::text;
use vstd::prelude::*;

verus! {

pub const MAX_MUSIC_BYTES: usize = 16 * 1024 * 1024;

pub const MAX_TRACKS: usize = 32;

/// At most 180,000 u32 offsets (720,000 bytes of entries), even for compressible input.
pub const MAX_TOTAL_FRAMES: usize = 180_000;

/// The most bytes that validation reads at once.
pub const PIECE_BYTES: usize = 1024;

/// Random-access storage whose contents remain unchanged while its catalog is used.
pub trait ReadAt {
    /// The bytes in storage; left open for storage outside this library.
    open spec fn contents(&self) -> Seq<u8> {
        arbitrary()
    }

    /// The errors with which a read inside the storage can fail; left open likewise.
    open spec fn faults(&self) -> Set<Error> {
        arbitrary()
    }

    /// The reads that the storage takes note of, each as its offset and its length; left open
    /// likewise.
    open spec fn asked(&self) -> Set<(int, int)> {
        arbitrary()
    }

    /// The errors of the reads inside the storage that failed, in order; left open likewise.
    open spec fn failures(&self) -> Seq<Error> {
        arbitrary()
    }

    fn size(&self) -> (size: usize)
        ensures
            size == self.contents().len(),
    ;

    fn read_exact(&mut self, offset: usize, out: &mut [u8]) -> (result: Result<(), Error>)
        ensures
            final(self).contents() == old(self).contents(),
            final(self).faults() == old(self).faults(),
            final(self).asked().subset_of(
                old(self).asked().insert((offset as int, old(out)@.len() as int)),
            ),
            final(out)@.len() == old(out)@.len(),
            offset + old(out)@.len() > old(self).contents().len() ==> result == Err::<(), Error>(
                Error::Truncated,
            ) && final(out)@ == old(out)@ && final(self).failures() == old(self).failures(),
            offset + old(out)@.len() <= old(self).contents().len() ==> match result {
                Ok(()) => {
                    &&& final(out)@ == old(self).contents().subrange(
                        offset as int,
                        offset + old(out)@.len(),
                    )
                    &&& final(self).failures() == old(self).failures()
                },
                Err(error) => failed(
                    old(self).failures(),
                    final(self).failures(),
                    old(self).faults(),
                    error,
                ),
            },
    ;
}

/// One more read has failed, with an error that the storage can fail with.
pub open spec fn failed(
    before: Seq<Error>,
    after: Seq<Error>,
    faults: Set<Error>,
    error: Error,
) -> bool {
    after == before.push(error) && faults.contains(error)
}

/// A read that fails ends the work, and its error is the result.
pub open spec fn hands_on<T>(
    before: Seq<Error>,
    after: Seq<Error>,
    faults: Set<Error>,
    result: Result<T, Error>,
) -> bool {
    after == before || (result matches Err(error) && failed(before, after, faults, error))
}

/// Whatever was asked of a storage between two points, each read asked for at most `most` bytes
/// and lay before `end`.
pub open spec fn modest(
    before: Set<(int, int)>,
    after: Set<(int, int)>,
    end: int,
    most: int,
) -> bool {
    forall|read: (int, int)| #[trigger]
        after.contains(read) ==> before.contains(read) || {
            &&& 0 <= read.0
            &&& 0 <= read.1 <= most
            &&& read.0 + read.1 <= end
        }
}

impl ReadAt for &[u8] {
    open spec fn contents(&self) -> Seq<u8> {
        (*self)@
    }

    open spec fn faults(&self) -> Set<Error> {
        Set::empty()
    }

    open spec fn asked(&self) -> Set<(int, int)> {
        Set::empty()
    }

    open spec fn failures(&self) -> Seq<Error> {
        Seq::empty()
    }

    fn size(&self) -> usize {
        self.len()
    }

    fn read_exact(&mut self, offset: usize, out: &mut [u8]) -> Result<(), Error> {
        let bytes: &[u8] = *self;
        let count: usize = out.len();
        if bytes.len() < count || offset > bytes.len() - count {
            return Err(Error::Truncated);
        }
        let mut i: usize = 0;
        while i < count
            invariant
                count == out@.len(),
                offset + count <= bytes.len(),
                i <= count,
                forall|j: int| 0 <= j < i ==> out@[j] == bytes@[offset + j],
            decreases count - i,
        {
            out[i] = bytes[offset + i];
            i = i + 1;
        }
        proof {
            assert(out@ =~= bytes@.subrange(offset as int, offset + count));
        }
        Ok(())
    }
}

/// Fills `out` with bytes that lie before `limit`.
fn read(source: &mut impl ReadAt, offset: usize, out: &mut [u8], limit: usize) -> (result: Result<
    (),
    Error,
>)
    requires
        limit <= old(source).contents().len(),
    ensures
        final(source).contents() == old(source).contents(),
        final(source).faults() == old(source).faults(),
        hands_on(old(source).failures(), final(source).failures(), old(source).faults(), result),
        modest(
            old(source).asked(),
            final(source).asked(),
            limit as int,
            old(out)@.len() as int,
        ),
        final(out)@.len() == old(out)@.len(),
        match result {
            Ok(()) => {
                &&& offset + old(out)@.len() <= limit
                &&& final(out)@ == old(source).contents().subrange(
                    offset as int,
                    offset + old(out)@.len(),
                )
            },
            Err(error) => if offset + old(out)@.len() > limit {
                error == Error::Truncated
            } else {
                failed(
                    old(source).failures(),
                    final(source).failures(),
                    old(source).faults(),
                    error,
                )
            },
        },
{
    let count: usize = out.len();
    if limit < count || offset > limit - count {
        return Err(Error::Truncated);
    }
    source.read_exact(offset, out)
}

/// Reads a tag of `length` bytes that lies before `limit`.
fn read_tag(source: &mut impl ReadAt, cursor: usize, length: usize, limit: usize) -> (result:
    Result<String, Error>)
    requires
        limit <= old(source).contents().len(),
        length <= MAX_TAG_BYTES,
    ensures
        final(source).contents() == old(source).contents(),
        final(source).faults() == old(source).faults(),
        hands_on(old(source).failures(), final(source).failures(), old(source).faults(), result),
        modest(old(source).asked(), final(source).asked(), limit as int, MAX_TAG_BYTES as int),
        match result {
            Ok(text) => layout::tag_at(
                old(source).contents(),
                cursor as int,
                length as int,
                limit as int,
            ) == Ok::<Seq<char>, Error>(text@),
            Err(error) => {
                ||| layout::tag_at(
                    old(source).contents(),
                    cursor as int,
                    length as int,
                    limit as int,
                ) == Err::<Seq<char>, Error>(error)
                ||| failed(
                    old(source).failures(),
                    final(source).failures(),
                    old(source).faults(),
                    error,
                )
            },
        },
{
    let mut bytes: [u8; 256] = [0; 256];
    let room: &mut [u8] = &mut bytes;
    let (text, _rest) = room.split_at_mut(length);
    match read(source, cursor, text, limit) {
        Err(error) => Err(error),
        Ok(()) => tag(text),
    }
}

/// Checks the CRC-32 of the bytes from `start` to `end`, in pieces of at most [`PIECE_BYTES`].
fn check_sum(source: &mut impl ReadAt, start: usize, end: usize, expected: u32) -> (result: Result<
    (),
    Error,
>)
    requires
        start <= end <= old(source).contents().len(),
    ensures
        final(source).contents() == old(source).contents(),
        final(source).faults() == old(source).faults(),
        hands_on(old(source).failures(), final(source).failures(), old(source).faults(), result),
        modest(old(source).asked(), final(source).asked(), end as int, PIECE_BYTES as int),
        match result {
            Ok(()) => checksum::crc32(old(source).contents().subrange(start as int, end as int))
                == expected,
            Err(error) => {
                ||| error == Error::Checksum && checksum::crc32(
                    old(source).contents().subrange(start as int, end as int),
                ) != expected
                ||| failed(
                    old(source).failures(),
                    final(source).failures(),
                    old(source).faults(),
                    error,
                )
            },
        },
{
    let mut hasher = crc32fast::Hasher::new();
    let mut offset: usize = start;
    let mut bytes: [u8; 1024] = [0; 1024];
    let ghost s = source.contents();
    let ghost faults = source.faults();
    proof {
        assert(s.subrange(start as int, start as int) =~= Seq::empty());
    }
    while offset < end
        invariant
            start <= offset <= end <= s.len(),
            source.contents() == s,
            source.faults() == faults,
            source.failures() == old(source).failures(),
            s == old(source).contents(),
            faults == old(source).faults(),
            end <= usize::MAX,
            modest(old(source).asked(), source.asked(), end as int, PIECE_BYTES as int),
            checksum::hashed(hasher) == s.subrange(start as int, offset as int),
        decreases end - offset,
    {
        let length: usize = if end - offset < PIECE_BYTES {
            end - offset
        } else {
            PIECE_BYTES
        };
        let room: &mut [u8] = &mut bytes;
        let (piece, _rest) = room.split_at_mut(length);
        match source.read_exact(offset, piece) {
            Err(error) => {
                return Err(error);
            },
            Ok(()) => {},
        }
        hasher.update(piece);
        proof {
            assert(s.subrange(start as int, offset as int) + s.subrange(
                offset as int,
                offset + length,
            ) =~= s.subrange(start as int, offset + length));
        }
        offset = offset + length;
    }
    if hasher.finalize() != expected {
        return Err(Error::Checksum);
    }
    Ok(())
}

/// Where a song's frames lie: the index entry of the first one, the bytes of a frame before its
/// packet, and the end of the last one.
#[derive(Debug, Clone, Copy)]
pub struct Placement {
    first: usize,
    prefix: usize,
    end: usize,
}

#[derive(Debug)]
pub struct Song {
    pub metadata: Option<Track>,
    pub frames: FrameCount,
    pub placement: Placement,
}

/// A song of an index whose frames start at `offsets`.
spec fn song_view(song: Song, offsets: Seq<u32>) -> layout::SongView {
    layout::SongView {
        metadata: music::optional_track(song.metadata),
        frames: song.frames@ as int,
        prefix: song.placement.prefix as int,
        offsets: Seq::new(song.frames@ as nat, |k: int| offsets[song.placement.first + k] as int),
        end: song.placement.end as int,
    }
}

spec fn songs_view(songs: Seq<Song>, offsets: Seq<u32>) -> Seq<layout::SongView> {
    Seq::new(songs.len(), |i: int| song_view(songs[i], offsets))
}

/// A song of an index stays inside it and inside the largest storage.
spec fn song_indexed(song: Song, offsets: Seq<u32>) -> bool {
    &&& 1 <= song.frames@ <= MAX_FRAMES
    &&& song.placement.first + song.frames@ <= offsets.len()
    &&& song.placement.prefix == 2 || song.placement.prefix == 2 + BANDS
    &&& song.placement.end <= MAX_MUSIC_BYTES
    &&& song.metadata matches Some(track) ==> track.duration_ms == song.frames@ * FRAME_MS
}

spec fn songs_indexed(songs: Seq<Song>, offsets: Seq<u32>) -> bool {
    &&& forall|i: int| 0 <= i < songs.len() ==> song_indexed(#[trigger] songs[i], offsets)
    &&& forall|k: int| 0 <= k < offsets.len() ==> #[trigger] offsets[k] < MAX_MUSIC_BYTES
    &&& offsets.len() == layout::total_frames(songs_view(songs, offsets))
    &&& offsets.len() <= MAX_TOTAL_FRAMES
}

/// A song that has been read up to its first frame.
#[derive(Debug)]
pub struct SongLead {
    metadata: Option<Track>,
    frames: FrameCount,
    prefix: usize,
    payload: usize,
    cursor: usize,
    limit: usize,
    checksum: u32,
}

impl View for SongLead {
    type V = layout::LeadView;

    closed spec fn view(&self) -> layout::LeadView {
        layout::LeadView {
            metadata: music::optional_track(self.metadata),
            frames: self.frames@ as int,
            prefix: self.prefix as int,
            payload: self.payload as int,
            cursor: self.cursor as int,
            limit: self.limit as int,
            checksum: self.checksum as int,
        }
    }
}

impl SongLead {
    #[verifier::type_invariant]
    spec fn ordered(self) -> bool {
        &&& self.payload <= self.cursor <= self.limit <= MAX_MUSIC_BYTES
        &&& 1 <= self.frames@ <= MAX_FRAMES
        &&& self.prefix == 2 || self.prefix == 2 + BANDS
        &&& self.metadata matches Some(track) ==> track.duration_ms == self.frames@ * FRAME_MS
    }
}

/// Reads the tags of a song with `frames` frames, and says where its first frame starts.
fn read_tags(source: &mut impl ReadAt, start: usize, limit: usize, frames: u32) -> (result: Result<
    (Track, usize),
    Error,
>)
    requires
        limit <= old(source).contents().len(),
        start <= limit <= MAX_MUSIC_BYTES,
        1 <= frames <= MAX_FRAMES,
    ensures
        final(source).contents() == old(source).contents(),
        final(source).faults() == old(source).faults(),
        hands_on(old(source).failures(), final(source).failures(), old(source).faults(), result),
        modest(old(source).asked(), final(source).asked(), limit as int, PIECE_BYTES as int),
        match result {
            Ok((track, cursor)) => {
                &&& start <= cursor <= limit
                &&& track.duration_ms == frames * FRAME_MS
                &&& layout::tags_at(
                    old(source).contents(),
                    start as int,
                    limit as int,
                    frames as int,
                ) == Ok::<(music::TrackView, int), Error>((track@, cursor as int))
            },
            Err(error) => {
                ||| layout::tags_at(
                    old(source).contents(),
                    start as int,
                    limit as int,
                    frames as int,
                ) == Err::<(music::TrackView, int), Error>(error)
                ||| failed(
                    old(source).failures(),
                    final(source).failures(),
                    old(source).faults(),
                    error,
                )
            },
        },
{
    let ghost s = source.contents();
    let mut lengths: [u8; 4] = [0; 4];
    match read(source, start, &mut lengths, limit) {
        Err(error) => {
            return Err(error);
        },
        Ok(()) => {},
    }
    let title_len: usize = le16(&lengths, 0) as usize;
    let artist_len: usize = le16(&lengths, 2) as usize;
    proof {
        assert(lengths@[0] == s[start as int] && lengths@[1] == s[start + 1]);
        assert(lengths@[2] == s[start + 2] && lengths@[3] == s[start + 3]);
    }
    if title_len < 1 || title_len > MAX_TAG_BYTES || artist_len > MAX_TAG_BYTES {
        return Err(Error::Metadata);
    }
    let title = match read_tag(source, start + 4, title_len, limit) {
        Err(error) => {
            return Err(error);
        },
        Ok(text) => text,
    };
    let artist = match read_tag(source, start + 4 + title_len, artist_len, limit) {
        Err(error) => {
            return Err(error);
        },
        Ok(text) => text,
    };
    if text::is_blank(title.as_str()) {
        return Err(Error::Metadata);
    }
    Ok((Track { title, artist, duration_ms: frames * FRAME_MS }, start + 4 + title_len + artist_len))
}

/// The header announces stereo Opus at 48 kHz in 20 ms frames.
fn is_supported(header: &[u8]) -> (result: bool)
    requires
        header@.len() == HEADER_BYTES,
    ensures
        result == layout::supported(header@, 0),
{
    le32(header, 16) == 48_000 && le32(header, 20) == 2 && le32(header, 24) == FRAME_MS
}

/// The header starts with the magic bytes.
fn is_magic(header: &[u8]) -> (result: bool)
    requires
        header@.len() == HEADER_BYTES,
    ensures
        result == layout::has_magic(header@, 0),
{
    let result = header[0] == 0x53 && header[1] == 0x33 && header[2] == 0x4d && header[3] == 0x55
        && header[4] == 0x53 && header[5] == 0x49 && header[6] == 0x43 && header[7] == 0;
    proof {
        let start = header@.subrange(0, 8);
        if result {
            assert(start =~= layout::magic());
        } else {
            assert(forall|i: int| 0 <= i < 8 ==> start[i] == header@[i]);
        }
    }
    result
}

/// A header says the same wherever it was copied from.
proof fn lemma_header(s: Seq<u8>, start: int)
    requires
        0 <= start,
        start + HEADER_BYTES <= s.len(),
    ensures
        ({
            let header = s.subrange(start, start + HEADER_BYTES);
            &&& layout::has_magic(header, 0) == layout::has_magic(s, start)
            &&& layout::supported(header, 0) == layout::supported(s, start)
            &&& forall|k: int|
                0 <= k <= HEADER_BYTES - 4 ==> #[trigger] music::le32_at(header, k)
                    == music::le32_at(s, start + k)
        }),
{
    let header = s.subrange(start, start + HEADER_BYTES);
    assert(header.subrange(0, 8) =~= s.subrange(start, start + 8));
    assert forall|k: int| 0 <= k <= HEADER_BYTES - 4 implies #[trigger] music::le32_at(header, k)
        == music::le32_at(s, start + k) by {
        assert(header[k] == s[start + k]);
        assert(header[k + 1] == s[start + k + 1]);
        assert(header[k + 2] == s[start + k + 2]);
        assert(header[k + 3] == s[start + k + 3]);
    }
    assert(music::le32_at(header, 16) == music::le32_at(s, start + 16));
    assert(music::le32_at(header, 20) == music::le32_at(s, start + 20));
    assert(music::le32_at(header, 24) == music::le32_at(s, start + 24));
}

/// Longer indexes leave the songs they had as they were.
proof fn lemma_songs_view_extends(songs: Seq<Song>, offsets: Seq<u32>, longer: Seq<u32>)
    requires
        songs_indexed(songs, offsets),
        offsets.is_prefix_of(longer),
    ensures
        songs_view(songs, longer) == songs_view(songs, offsets),
{
    assert forall|i: int| 0 <= i < songs.len() implies song_view(#[trigger] songs[i], longer)
        == song_view(songs[i], offsets) by {
        let song = songs[i];
        assert(song_indexed(song, offsets));
        assert(offsets =~= longer.take(offsets.len() as int));
        assert forall|k: int| 0 <= k < song.frames@ implies longer[song.placement.first + k]
            == #[trigger] offsets[song.placement.first + k] by {
            assert(longer.take(offsets.len() as int)[song.placement.first + k] == longer[song.placement.first + k]);
        }
        assert(song_view(song, longer).offsets =~= song_view(song, offsets).offsets);
    }
    assert(songs_view(songs, longer) =~= songs_view(songs, offsets));
}

/// Songs read so far, with the index of their frames.
#[derive(Debug)]
pub struct CatalogBuilder {
    songs: Vec<Song>,
    offsets: Vec<u32>,
    room: usize,
}

impl View for CatalogBuilder {
    type V = Seq<layout::SongView>;

    closed spec fn view(&self) -> Seq<layout::SongView> {
        songs_view(self.songs@, self.offsets@)
    }
}

impl CatalogBuilder {
    #[verifier::type_invariant]
    spec fn indexed(self) -> bool {
        &&& songs_indexed(self.songs@, self.offsets@)
        &&& self.offsets@.len() <= self.room
        &&& self.room * 4 <= isize::MAX
    }

    /// The entries that the index has room for, as memory said when it was last asked.
    pub closed spec fn room(self) -> nat {
        self.room as nat
    }

    pub fn new() -> (builder: CatalogBuilder)
        ensures
            builder@ == Seq::<layout::SongView>::empty(),
            builder.room() == 0,
    {
        let songs: Vec<Song> = Vec::new();
        let offsets: Vec<u32> = Vec::new();
        proof {
            assert(songs_view(songs@, offsets@) =~= Seq::empty());
        }
        CatalogBuilder { songs, offsets, room: 0 }
    }

    /// Reads the song at `start` up to its first frame.
    pub fn begin_song(&self, source: &mut impl ReadAt, start: usize, limit: usize) -> (result:
        Result<SongLead, Error>)
        requires
            limit <= old(source).contents().len(),
            limit <= MAX_MUSIC_BYTES,
        ensures
            final(source).contents() == old(source).contents(),
            final(source).faults() == old(source).faults(),
            hands_on(
                old(source).failures(),
                final(source).failures(),
                old(source).faults(),
                result,
            ),
            modest(old(source).asked(), final(source).asked(), limit as int, PIECE_BYTES as int),
            match result {
                Ok(lead) => layout::lead_at(
                    old(source).contents(),
                    start as int,
                    limit as int,
                    layout::total_frames(self@),
                ) == Ok::<layout::LeadView, Error>(lead@),
                Err(error) => {
                    ||| layout::lead_at(
                        old(source).contents(),
                        start as int,
                        limit as int,
                        layout::total_frames(self@),
                    ) == Err::<layout::LeadView, Error>(error)
                    ||| failed(
                        old(source).failures(),
                        final(source).failures(),
                        old(source).faults(),
                        error,
                    )
                },
            },
    {
        proof {
            use_type_invariant(self);
        }
        let ghost s = source.contents();
        let mut header: [u8; 64] = [0; 64];
        match read(source, start, &mut header, limit) {
            Err(error) => {
                return Err(error);
            },
            Ok(()) => {},
        }
        let bytes: &[u8] = &header;
        proof {
            lemma_header(s, start as int);
        }
        if !is_magic(bytes) {
            return Err(Error::Header);
        }
        let version: u32 = le32(bytes, 8);
        let prefix: usize = match version {
            1 => 2 + BANDS,
            2 => 2,
            3 => 2,
            _ => {
                return Err(Error::Header);
            },
        };
        if !is_supported(bytes) {
            return Err(Error::Format);
        }
        let count: u32 = le32(bytes, 12);
        let checksum: u32 = le32(bytes, 28);
        let frames = match FrameCount::new(count) {
            None => {
                return Err(Error::FrameCount);
            },
            Some(frames) => frames,
        };
        if count > MAX_FRAMES || self.offsets.len() + count as usize > MAX_TOTAL_FRAMES {
            return Err(Error::FrameCount);
        }
        let payload: usize = start + HEADER_BYTES;
        if version == 3 {
            match read_tags(source, payload, limit, count) {
                Err(error) => Err(error),
                Ok((track, cursor)) => Ok(
                    SongLead {
                        metadata: Some(track),
                        frames,
                        prefix,
                        payload,
                        cursor,
                        limit,
                        checksum,
                    },
                ),
            }
        } else {
            Ok(
                SongLead {
                    metadata: None,
                    frames,
                    prefix,
                    payload,
                    cursor: payload,
                    limit,
                    checksum,
                },
            )
        }
    }

    /// Indexes the frames that follow a lead, where `room` says how many entries there is memory
    /// for, if there is enough, and says where they end.
    pub fn finish_song(
        self,
        source: &mut impl ReadAt,
        lead: SongLead,
        room: Option<usize>,
    ) -> (result: Result<(CatalogBuilder, usize), Error>)
        requires
            lead@.limit <= old(source).contents().len(),
            layout::total_frames(self@) + lead@.frames <= MAX_TOTAL_FRAMES,
            room matches Some(entries) ==> {
                &&& entries >= layout::total_frames(self@) + lead@.frames
                &&& entries * 4 <= isize::MAX
            },
        ensures
            final(source).contents() == old(source).contents(),
            final(source).faults() == old(source).faults(),
            hands_on(
                old(source).failures(),
                final(source).failures(),
                old(source).faults(),
                result,
            ),
            modest(old(source).asked(), final(source).asked(), lead@.limit, PIECE_BYTES as int),
            room is None ==> {
                &&& result == Err::<(CatalogBuilder, usize), Error>(Error::Memory)
                &&& final(source).failures() == old(source).failures()
                &&& final(source).asked() == old(source).asked()
            },
            room is Some ==> match result {
                Ok((builder, end)) => {
                    &&& builder.room() == room->Some_0
                    &&& layout::song_after(old(source).contents(), lead@) is Ok
                    &&& builder@ == self@.push(
                        layout::song_after(old(source).contents(), lead@)->Ok_0,
                    )
                    &&& end == builder@.last().end
                },
                Err(error) => {
                    ||| layout::song_after(old(source).contents(), lead@) == Err::<
                        layout::SongView,
                        Error,
                    >(error)
                    ||| failed(
                        old(source).failures(),
                        final(source).failures(),
                        old(source).faults(),
                        error,
                    )
                },
            },
    {
        proof {
            use_type_invariant(&self);
            use_type_invariant(&lead);
        }
        let entries: usize = match room {
            None => {
                return Err(Error::Memory);
            },
            Some(entries) => entries,
        };
        let ghost s = source.contents();
        let ghost faults = source.faults();
        let ghost begun = lead@;
        let ghost known = self@;
        let CatalogBuilder { songs, mut offsets, room: _ } = self;
        let SongLead { metadata, frames, prefix, payload, cursor: start, limit, checksum } = lead;
        let ghost before = offsets@;
        let mut songs = songs;
        let first: usize = offsets.len();
        let count: u32 = frames.get();
        let mut cursor: usize = start;
        let mut i: u32 = 0;
        let ghost total = layout::frames_at(
            s,
            start as int,
            limit as int,
            prefix as int,
            count as nat,
        );
        let ghost mut done: Seq<int> = Seq::empty();
        while i < count
            invariant
                i <= count,
                room is Some,
                begun == lead@,
                modest(old(source).asked(), source.asked(), limit as int, PIECE_BYTES as int),
                source.contents() == s,
                source.faults() == faults,
                source.failures() == old(source).failures(),
                s == old(source).contents(),
                faults == old(source).faults(),
                limit <= s.len(),
                limit <= MAX_MUSIC_BYTES,
                start <= cursor <= limit,
                prefix == 2 || prefix == 2 + BANDS,
                first == before.len(),
                offsets@.len() == first + i,
                before.is_prefix_of(offsets@),
                done.len() == i,
                forall|k: int| 0 <= k < i ==> done[k] == #[trigger] offsets@[first + k],
                forall|k: int| 0 <= k < offsets@.len() ==> #[trigger] offsets@[k] < MAX_MUSIC_BYTES,
                begun.cursor == start,
                begun.limit == limit,
                begun.prefix == prefix,
                begun.frames == count,
                total == layout::frames_at(
                    s,
                    start as int,
                    limit as int,
                    prefix as int,
                    count as nat,
                ),
                total == match layout::frames_at(
                    s,
                    cursor as int,
                    limit as int,
                    prefix as int,
                    (count - i) as nat,
                ) {
                    Err(error) => Err::<(Seq<int>, int), Error>(error),
                    Ok((rest, end)) => Ok::<(Seq<int>, int), Error>((done + rest, end)),
                },
            decreases count - i,
        {
            let mut bytes: [u8; 2] = [0; 2];
            match read(source, cursor, &mut bytes, limit) {
                Err(error) => {
                    return Err(error);
                },
                Ok(()) => {},
            }
            let length: usize = le16(&bytes, 0) as usize;
            proof {
                assert(bytes@[0] == s[cursor as int] && bytes@[1] == s[cursor + 1]);
            }
            if length < 1 || length > MAX_OPUS_BYTES {
                return Err(Error::PacketSize);
            }
            if cursor + prefix + length > limit {
                return Err(Error::Truncated);
            }
            let ghost earlier = offsets@;
            let ghost earlier_done = done;
            offsets.push(cursor as u32);
            proof {
                done = done.push(cursor as int);
                assert(before =~= offsets@.take(first as int));
                let rest = layout::frames_at(
                    s,
                    cursor + prefix + length,
                    limit as int,
                    prefix as int,
                    (count - i - 1) as nat,
                );
                if rest is Ok {
                    assert(earlier_done + (seq![cursor as int] + rest->Ok_0.0) =~= done
                        + rest->Ok_0.0);
                }
            }
            cursor = cursor + prefix + length;
            i = i + 1;
        }
        proof {
            assert(done + Seq::<int>::empty() =~= done);
            assert(total == Ok::<(Seq<int>, int), Error>((done, cursor as int)));
        }
        match check_sum(source, payload, cursor, checksum) {
            Err(error) => {
                return Err(error);
            },
            Ok(()) => {},
        }
        let song = Song { metadata, frames, placement: Placement { first, prefix, end: cursor } };
        let ghost old_songs = songs@;
        proof {
            lemma_songs_view_extends(old_songs, before, offsets@);
            assert(song_view(song, offsets@).offsets =~= done);
            assert(layout::song_after(s, begun) == Ok::<layout::SongView, Error>(
                song_view(song, offsets@),
            ));
        }
        songs.push(song);
        proof {
            let view = songs_view(songs@, offsets@);
            assert(view =~= known.push(song_view(song, offsets@)));
            assert(view.drop_last() =~= known);
            assert forall|j: int| 0 <= j < songs@.len() implies song_indexed(
                #[trigger] songs@[j],
                offsets@,
            ) by {
                if j < old_songs.len() {
                    assert(song_indexed(old_songs[j], before));
                }
            }
        }
        Ok((CatalogBuilder { songs, offsets, room: entries }, cursor))
    }

    /// Reads the song at `start`, and says where it ends. Memory is asked once, for room for the
    /// song's frames, when all before them could be read.
    pub fn add_song(
        self,
        source: &mut impl ReadAt,
        memory: &mut impl Reserve,
        start: usize,
        limit: usize,
    ) -> (result: Result<(CatalogBuilder, usize), Error>)
        requires
            limit <= old(source).contents().len(),
            limit <= MAX_MUSIC_BYTES,
        ensures
            final(source).contents() == old(source).contents(),
            final(source).faults() == old(source).faults(),
            final(memory).may_refuse() == old(memory).may_refuse(),
            hands_on(
                old(source).failures(),
                final(source).failures(),
                old(source).faults(),
                result,
            ),
            modest(old(source).asked(), final(source).asked(), limit as int, PIECE_BYTES as int),
            ({
                let s = old(source).contents();
                let indexed = layout::total_frames(self@);
                let song = layout::song_at(s, start as int, limit as int, indexed);
                let wanted = layout::song_requests(s, start as int, limit as int, indexed);
                let before = old(memory).requests();
                let after = final(memory).requests();
                let unharmed = final(source).failures() == old(source).failures();
                match result {
                    Ok((builder, end)) => {
                        &&& unharmed
                        &&& after == before + memory::granted(wanted)
                        &&& builder.room() == final(memory).room()
                        &&& song is Ok
                        &&& builder@ == self@.push(song->Ok_0)
                        &&& end == song->Ok_0.end
                    },
                    Err(error) => {
                        ||| {
                            &&& unharmed
                            &&& after == before + memory::granted(wanted)
                            &&& song == Err::<layout::SongView, Error>(error)
                        }
                        ||| {
                            &&& unharmed
                            &&& wanted.len() == 1
                            &&& after == before.push((wanted[0], false))
                            &&& error == Error::Memory
                            &&& old(memory).may_refuse()
                        }
                        ||| {
                            &&& failed(
                                old(source).failures(),
                                final(source).failures(),
                                old(source).faults(),
                                error,
                            )
                            &&& after == before || after == before + memory::granted(wanted)
                        }
                    },
                }
            }),
    {
        let ghost before = memory.requests();
        let ghost wanted = layout::song_requests(
            source.contents(),
            start as int,
            limit as int,
            layout::total_frames(self@),
        );
        let lead = match self.begin_song(source, start, limit) {
            Err(error) => {
                proof {
                    memory::lemma_granted_add(before, wanted, wanted, wanted);
                }
                return Err(error);
            },
            Ok(lead) => lead,
        };
        proof {
            use_type_invariant(&self);
        }
        let CatalogBuilder { songs, mut offsets, room: previous } = self;
        let frames: u32 = lead.frames.get();
        let room = memory.reserve(&mut offsets, frames as usize);
        proof {
            assert(wanted =~= seq![frames as nat]);
            assert(memory::granted(wanted) =~= seq![(frames as nat, true)]);
            assert(before.push((frames as nat, true)) =~= before + memory::granted(wanted));
        }
        let builder = CatalogBuilder { songs, offsets, room: previous };
        builder.finish_song(source, lead, room)
    }

    /// Reads the songs of a playlist, which end exactly at `used`.
    fn read_songs(
        source: &mut impl ReadAt,
        memory: &mut impl Reserve,
        count: u32,
        used: usize,
    ) -> (result: Result<CatalogBuilder, Error>)
        requires
            HEADER_BYTES <= used <= old(source).contents().len(),
            used <= MAX_MUSIC_BYTES,
        ensures
            final(source).contents() == old(source).contents(),
            final(source).faults() == old(source).faults(),
            final(memory).may_refuse() == old(memory).may_refuse(),
            hands_on(
                old(source).failures(),
                final(source).failures(),
                old(source).faults(),
                result,
            ),
            modest(old(source).asked(), final(source).asked(), used as int, PIECE_BYTES as int),
            ({
                let s = old(source).contents();
                let start = HEADER_BYTES as int;
                let songs = layout::songs_at(s, start, used as int, count as nat, 0);
                let wanted = layout::songs_requests(s, start, used as int, count as nat, 0);
                let before = old(memory).requests();
                let after = final(memory).requests();
                let unharmed = final(source).failures() == old(source).failures();
                match result {
                    Ok(builder) => {
                        &&& unharmed
                        &&& after == before + memory::granted(wanted)
                        &&& count > 0 ==> builder.room() == final(memory).room()
                        &&& songs == Ok::<Seq<layout::SongView>, Error>(builder@)
                        &&& builder@.len() == count
                    },
                    Err(error) => {
                        ||| {
                            &&& unharmed
                            &&& after == before + memory::granted(wanted)
                            &&& songs == Err::<Seq<layout::SongView>, Error>(error)
                        }
                        ||| {
                            &&& unharmed
                            &&& memory::refused_in(before, after, wanted)
                            &&& error == Error::Memory
                            &&& old(memory).may_refuse()
                        }
                        ||| {
                            &&& failed(
                                old(source).failures(),
                                final(source).failures(),
                                old(source).faults(),
                                error,
                            )
                            &&& memory::granted_up_to(before, after, wanted)
                        }
                    },
                }
            }),
    {
        let ghost s = source.contents();
        let ghost faults = source.faults();
        let ghost before = memory.requests();
        let ghost none = Seq::<nat>::empty();
        let ghost total = layout::songs_at(s, HEADER_BYTES as int, used as int, count as nat, 0);
        let ghost wanted = layout::songs_requests(
            s,
            HEADER_BYTES as int,
            used as int,
            count as nat,
            0,
        );
        let ghost mut done = none;
        let mut builder = CatalogBuilder::new();
        let mut cursor: usize = HEADER_BYTES;
        let mut i: u32 = 0;
        proof {
            memory::lemma_granted_add(before, wanted, none, none);
            if total is Ok {
                assert(builder@ + total->Ok_0 =~= total->Ok_0);
            }
        }
        while i < count
            invariant
                i <= count,
                source.contents() == s,
                source.faults() == faults,
                source.failures() == old(source).failures(),
                s == old(source).contents(),
                faults == old(source).faults(),
                modest(old(source).asked(), source.asked(), used as int, PIECE_BYTES as int),
                before == old(memory).requests(),
                memory.may_refuse() == old(memory).may_refuse(),
                memory.requests() == before + memory::granted(done),
                i > 0 ==> builder.room() == memory.room(),
                HEADER_BYTES <= cursor <= used <= s.len(),
                used <= MAX_MUSIC_BYTES,
                builder@.len() == i,
                none == Seq::<nat>::empty(),
                total == layout::songs_at(
                    s,
                    HEADER_BYTES as int,
                    used as int,
                    count as nat,
                    0,
                ),
                total == match layout::songs_at(
                    s,
                    cursor as int,
                    used as int,
                    (count - i) as nat,
                    layout::total_frames(builder@),
                ) {
                    Err(error) => Err::<Seq<layout::SongView>, Error>(error),
                    Ok(rest) => Ok::<Seq<layout::SongView>, Error>(builder@ + rest),
                },
                wanted == layout::songs_requests(
                    s,
                    HEADER_BYTES as int,
                    used as int,
                    count as nat,
                    0,
                ),
                wanted == done + layout::songs_requests(
                    s,
                    cursor as int,
                    used as int,
                    (count - i) as nat,
                    layout::total_frames(builder@),
                ),
            decreases count - i,
        {
            let ghost indexed = layout::total_frames(builder@);
            let ghost rest = layout::songs_requests(
                s,
                cursor as int,
                used as int,
                (count - i) as nat,
                indexed,
            );
            proof {
                memory::lemma_granted_up_to(before, memory.requests(), done, rest);
                memory::lemma_granted_add(before, done, none, none);
            }
            let mut prefix: [u8; 4] = [0; 4];
            match read(source, cursor, &mut prefix, used) {
                Err(error) => {
                    return Err(error);
                },
                Ok(()) => {},
            }
            let length: usize = le32(&prefix, 0) as usize;
            proof {
                assert(prefix@[0] == s[cursor as int] && prefix@[1] == s[cursor + 1]);
                assert(prefix@[2] == s[cursor + 2] && prefix@[3] == s[cursor + 3]);
            }
            let start: usize = cursor + 4;
            if length > used - start || length < HEADER_BYTES {
                return Err(Error::Truncated);
            }
            let end: usize = start + length;
            let ghost known = builder@;
            let ghost asked = layout::song_requests(s, start as int, end as int, indexed);
            let ghost song = layout::song_at(s, start as int, end as int, indexed);
            let ghost later = match song {
                Err(_) => none,
                Ok(song) => if song.end != end {
                    none
                } else {
                    layout::songs_requests(
                        s,
                        end as int,
                        used as int,
                        (count - i - 1) as nat,
                        indexed + song.frames,
                    )
                },
            };
            proof {
                assert(rest == asked + later);
                memory::lemma_granted_add(before, done, asked, later);
                assert(wanted == (done + asked) + later);
            }
            match builder.add_song(source, memory, start, end) {
                Err(error) => {
                    proof {
                        let after = memory.requests();
                        if after == before + memory::granted(done + asked) {
                            memory::lemma_granted_up_to(before, after, done + asked, later);
                        }
                        if asked.len() == 1 && after == (before + memory::granted(done)).push(
                            (asked[0], false),
                        ) {
                            assert(asked =~= seq![asked[0]]);
                            memory::lemma_refused_in(before, after, done, asked[0], later);
                        }
                    }
                    return Err(error);
                },
                Ok((longer, song_stop)) => {
                    builder = longer;
                    proof {
                        done = done + asked;
                    }
                    if song_stop != end {
                        return Err(Error::Truncated);
                    }
                },
            }
            proof {
                let song = builder@.last();
                assert(builder@.drop_last() =~= known);
                let rest = layout::songs_at(
                    s,
                    end as int,
                    used as int,
                    (count - i - 1) as nat,
                    layout::total_frames(builder@),
                );
                if rest is Ok {
                    assert(known + (seq![song] + rest->Ok_0) =~= builder@ + rest->Ok_0);
                }
            }
            cursor = end;
            i = i + 1;
        }
        proof {
            memory::lemma_granted_add(before, done, none, none);
        }
        if cursor != used {
            return Err(Error::Truncated);
        }
        proof {
            assert(builder@ + Seq::<layout::SongView>::empty() =~= builder@);
        }
        Ok(builder)
    }
}

#[derive(Debug)]
pub struct Catalog {
    songs: Vec<Song>,
    offsets: Vec<u32>,
    room: usize,
    used: usize,
}

impl View for Catalog {
    type V = layout::CatalogView;

    closed spec fn view(&self) -> layout::CatalogView {
        layout::CatalogView {
            songs: songs_view(self.songs@, self.offsets@),
            used: self.used as int,
        }
    }
}

impl Catalog {
    #[verifier::type_invariant]
    spec fn playable(self) -> bool {
        &&& songs_indexed(self.songs@, self.offsets@)
        &&& 1 <= self.songs@.len() <= MAX_TRACKS
        &&& self.used <= MAX_MUSIC_BYTES
        &&& self.offsets@.len() <= self.room
        &&& self.room * 4 <= isize::MAX
    }

    /// The entries that the index has room for, as memory said when it was last asked.
    pub closed spec fn room(self) -> nat {
        self.room as nat
    }

    /// The songs, in order.
    pub closed spec fn song_list(self) -> Seq<Song> {
        self.songs@
    }

    /// Validates all boundaries and checksums before returning a playable catalog, whose index
    /// the global allocator has room for. Every read lies inside the storage and asks for at most
    /// [`PIECE_BYTES`]. Whether the allocator refuses is left open; [`Self::parse_with`] says what
    /// follows from each of its answers.
    pub fn parse(source: &mut impl ReadAt) -> (result: Result<Catalog, Error>)
        ensures
            final(source).contents() == old(source).contents(),
            final(source).faults() == old(source).faults(),
            hands_on(
                old(source).failures(),
                final(source).failures(),
                old(source).faults(),
                result,
            ),
            modest(
                old(source).asked(),
                final(source).asked(),
                old(source).contents().len() as int,
                PIECE_BYTES as int,
            ),
            match result {
                Ok(catalog) => layout::catalog_of(old(source).contents()) == Ok::<
                    layout::CatalogView,
                    Error,
                >(catalog@),
                Err(error) => {
                    ||| layout::catalog_of(old(source).contents()) == Err::<
                        layout::CatalogView,
                        Error,
                    >(error)
                    ||| failed(
                        old(source).failures(),
                        final(source).failures(),
                        old(source).faults(),
                        error,
                    )
                    ||| error == Error::Memory && layout::requests_of(
                        old(source).contents(),
                    ).len() > 0
                },
            },
    {
        let mut memory = memory::Allocator::new();
        Catalog::parse_with(source, &mut memory)
    }

    /// Validates all boundaries and checksums before returning a playable catalog, whose index
    /// `memory` has room for. The answer is what the storage holds, unless a read fails or memory
    /// refuses a request; either ends the work with its own error. Memory is asked for the frames
    /// of each song in turn.
    pub fn parse_with(source: &mut impl ReadAt, memory: &mut impl Reserve) -> (result: Result<
        Catalog,
        Error,
    >)
        ensures
            final(source).contents() == old(source).contents(),
            final(source).faults() == old(source).faults(),
            final(memory).may_refuse() == old(memory).may_refuse(),
            hands_on(
                old(source).failures(),
                final(source).failures(),
                old(source).faults(),
                result,
            ),
            modest(
                old(source).asked(),
                final(source).asked(),
                old(source).contents().len() as int,
                PIECE_BYTES as int,
            ),
            ({
                let s = old(source).contents();
                let wanted = layout::requests_of(s);
                let before = old(memory).requests();
                let after = final(memory).requests();
                let unharmed = final(source).failures() == old(source).failures();
                match result {
                    Ok(catalog) => {
                        &&& unharmed
                        &&& after == before + memory::granted(wanted)
                        &&& catalog.room() == final(memory).room()
                        &&& layout::catalog_of(s) == Ok::<layout::CatalogView, Error>(catalog@)
                    },
                    Err(error) => {
                        ||| {
                            &&& unharmed
                            &&& after == before + memory::granted(wanted)
                            &&& layout::catalog_of(s) == Err::<layout::CatalogView, Error>(error)
                        }
                        ||| {
                            &&& unharmed
                            &&& memory::refused_in(before, after, wanted)
                            &&& error == Error::Memory
                            &&& old(memory).may_refuse()
                        }
                        ||| {
                            &&& failed(
                                old(source).failures(),
                                final(source).failures(),
                                old(source).faults(),
                                error,
                            )
                            &&& memory::granted_up_to(before, after, wanted)
                        }
                    },
                }
            }),
    {
        let size: usize = source.size();
        let ghost s = source.contents();
        let ghost before = memory.requests();
        let ghost wanted = layout::requests_of(s);
        let ghost none = Seq::<nat>::empty();
        proof {
            memory::lemma_granted_add(before, wanted, none, none);
            memory::lemma_granted_up_to(before, before, none, wanted);
        }
        let mut header: [u8; 64] = [0; 64];
        match read(source, 0, &mut header, size) {
            Err(error) => {
                return Err(error);
            },
            Ok(()) => {},
        }
        let bytes: &[u8] = &header;
        proof {
            lemma_header(s, 0);
        }
        if !is_magic(bytes) {
            return Err(Error::Header);
        }
        if le32(bytes, 8) != 4 {
            let builder = CatalogBuilder::new();
            let limit: usize = if size <= MAX_MUSIC_BYTES {
                size
            } else {
                MAX_MUSIC_BYTES
            };
            return match builder.add_song(source, memory, 0, limit) {
                Err(error) => {
                    proof {
                        let after = memory.requests();
                        if after == before + memory::granted(wanted) {
                            memory::lemma_granted_up_to(before, after, wanted, none);
                        }
                        if wanted.len() == 1 && after == before.push((wanted[0], false)) {
                            assert((none + seq![wanted[0]]) + none =~= wanted);
                            memory::lemma_refused_in(before, after, none, wanted[0], none);
                        }
                    }
                    Err(error)
                },
                Ok((builder, used)) => {
                    proof {
                        use_type_invariant(&builder);
                        assert(builder@ =~= seq![builder@[0]]);
                        assert(builder.songs@.len() == builder@.len());
                        assert(song_indexed(builder.songs@[0], builder.offsets@));
                    }
                    let CatalogBuilder { songs, offsets, room } = builder;
                    Ok(Catalog { songs, offsets, room, used })
                },
            };
        }
        let count: u32 = le32(bytes, 12);
        if count < 1 || count as usize > MAX_TRACKS {
            return Err(Error::TrackCount);
        }
        if !is_supported(bytes) {
            return Err(Error::Format);
        }
        let used: usize = le32(bytes, 32) as usize;
        if used < HEADER_BYTES || used > MAX_MUSIC_BYTES || used > size {
            return Err(Error::Truncated);
        }
        match check_sum(source, HEADER_BYTES, used, le32(bytes, 28)) {
            Err(error) => {
                return Err(error);
            },
            Ok(()) => {},
        }
        let builder = match CatalogBuilder::read_songs(source, memory, count, used) {
            Err(error) => {
                return Err(error);
            },
            Ok(builder) => builder,
        };
        proof {
            use_type_invariant(&builder);
            assert(builder.songs@.len() == builder@.len());
        }
        let CatalogBuilder { songs, offsets, room } = builder;
        Ok(Catalog { songs, offsets, room, used })
    }

    /// The songs, in order: between one and 32, none empty or longer than ten minutes.
    pub fn songs(&self) -> (songs: &[Song])
        ensures
            songs@ == self.song_list(),
            1 <= songs@.len() <= MAX_TRACKS,
            songs@.len() == self@.songs.len(),
            forall|i: int|
                #![trigger songs@[i]]
                #![trigger self@.songs[i]]
                0 <= i < songs@.len() ==> {
                    &&& 1 <= songs@[i].frames@ <= MAX_FRAMES
                    &&& songs@[i].frames@ == self@.songs[i].frames
                    &&& music::optional_track(songs@[i].metadata) == self@.songs[i].metadata
                },
    {
        proof {
            use_type_invariant(self);
            assert forall|i: int| 0 <= i < self.songs@.len() implies song_indexed(
                #[trigger] self.songs@[i],
                self.offsets@,
            ) by {}
        }
        self.songs.as_slice()
    }

    /// Frame-offset capacity in bytes, excluding allocator overhead and song metadata: four bytes
    /// for every entry that there is room for. There is one for every frame; the room beyond that
    /// is up to the memory.
    pub fn index_bytes(&self) -> (bytes: usize)
        ensures
            bytes == 4 * self.room(),
            self.room() >= layout::total_frames(self@.songs),
            bytes <= isize::MAX,
    {
        proof {
            use_type_invariant(self);
        }
        self.room * 4
    }

    pub fn used_bytes(&self) -> (bytes: usize)
        ensures
            bytes == self@.used,
            bytes <= MAX_MUSIC_BYTES,
    {
        proof {
            use_type_invariant(self);
        }
        self.used
    }

    /// Copies a packet from the unchanged storage supplied to [`Self::parse`]. Every read lies
    /// inside the song and asks for at most one packet.
    pub fn read_frame(
        &self,
        source: &mut impl ReadAt,
        song: usize,
        index: u32,
        out: &mut [u8],
    ) -> (result: Result<usize, Error>)
        ensures
            final(source).contents() == old(source).contents(),
            final(source).faults() == old(source).faults(),
            hands_on(
                old(source).failures(),
                final(source).failures(),
                old(source).faults(),
                result,
            ),
            modest(
                old(source).asked(),
                final(source).asked(),
                layout::song_end(self@, song as int),
                MAX_OPUS_BYTES as int,
            ),
            final(out)@.len() == old(out)@.len(),
            ({
                let packet = layout::packet_at(
                    self@,
                    old(source).contents(),
                    song as int,
                    index as int,
                    old(out)@.len() as int,
                );
                match result {
                    Ok(length) => {
                        &&& packet is Ok
                        &&& length == packet->Ok_0.len()
                        &&& final(out)@ == packet->Ok_0 + old(out)@.skip(length as int)
                    },
                    Err(error) => {
                        ||| packet == Err::<Seq<u8>, Error>(error) && final(out)@ == old(out)@
                        ||| failed(
                            old(source).failures(),
                            final(source).failures(),
                            old(source).faults(),
                            error,
                        )
                    },
                }
            }),
    {
        proof {
            use_type_invariant(self);
        }
        if song >= self.songs.len() {
            return Err(Error::TrackCount);
        }
        let song = &self.songs[song];
        proof {
            assert(song_indexed(*song, self.offsets@));
        }
        if index >= song.frames.get() {
            return Err(Error::FrameCount);
        }
        let ghost s = source.contents();
        let offset: usize = self.offsets[song.placement.first + index as usize] as usize;
        let ghost viewed = song_view(*song, self.offsets@);
        proof {
            assert(viewed.offsets[index as int] == offset);
        }
        if offset + 2 > song.placement.end || offset + 2 > source.size() {
            return Err(Error::Truncated);
        }
        let mut bytes: [u8; 2] = [0; 2];
        match read(source, offset, &mut bytes, offset + 2) {
            Err(error) => {
                return Err(error);
            },
            Ok(()) => {},
        }
        let length: usize = le16(&bytes, 0) as usize;
        proof {
            assert(bytes@[0] == s[offset as int] && bytes@[1] == s[offset + 1]);
        }
        let start: usize = offset + song.placement.prefix;
        if length < 1 || length > MAX_OPUS_BYTES || length > out.len() {
            return Err(Error::PacketSize);
        }
        if start + length > song.placement.end {
            return Err(Error::Truncated);
        }
        let ghost before = out@;
        let (packet, rest) = out.split_at_mut(length);
        let ghost packet_before = packet@;
        proof {
            assert(packet_before + rest@ =~= before);
            assert(rest@ =~= before.skip(length as int));
        }
        match source.read_exact(start, packet) {
            Err(error) => Err(error),
            Ok(()) => Ok(length),
        }
    }
}

} // verus!
