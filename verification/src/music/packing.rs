//! What a music pack is made of: which songs, put together in which way, a catalog is read from,
//! and what becomes of anything else.
use crate::checksum;
use crate::music::laws;
use crate::music::layout::{self, CatalogView, SongView};
use crate::music::{self, Error, TrackView};
use crate::text;
use vstd::prelude::*;
use vstd::utf8::*;

verus! {

/// The number that four bytes stand for, the lowest first.
pub open spec fn number(s: Seq<u8>, at: int) -> int {
    s[at] + 256 * s[at + 1] + 65_536 * s[at + 2] + 16_777_216 * s[at + 3]
}

/// Two bytes that stand for a number, the lowest first.
pub open spec fn half(value: int) -> Seq<u8> {
    seq![(value % 256) as u8, (value / 256) as u8]
}

/// Four bytes that stand for a number, the lowest first.
pub open spec fn word(value: int) -> Seq<u8> {
    seq![
        (value % 256) as u8,
        (value / 256 % 256) as u8,
        (value / 65_536 % 256) as u8,
        (value / 16_777_216) as u8,
    ]
}

/// Storage begins with "S3MUSIC", a zero byte, and at least a whole header.
pub open spec fn marked(s: Seq<u8>) -> bool {
    s.len() >= 64 && s.take(8) == seq![83u8, 51u8, 77u8, 85u8, 83u8, 73u8, 67u8, 0u8]
}

/// A header announces stereo at 48 kHz in frames of 20 ms.
pub open spec fn announces_stereo(s: Seq<u8>) -> bool {
    number(s, 16) == 48_000 && number(s, 20) == 2 && number(s, 24) == 20
}

/// Storage begins with a header of a version, with that count, and the body that follows it.
pub open spec fn headed(s: Seq<u8>, version: int, count: int, body: Seq<u8>) -> bool {
    &&& marked(s)
    &&& number(s, 8) == version
    &&& number(s, 12) == count
    &&& announces_stereo(s)
    &&& 64 + body.len() <= s.len()
    &&& s.subrange(64, 64int + body.len()) == body
}

/// A frame: the length of its packet, the spectrum that comes with it, and the packet.
pub open spec fn frame_bytes(frame: (Seq<u8>, Seq<u8>)) -> Seq<u8> {
    half(frame.1.len() as int) + frame.0 + frame.1
}

/// Frames one after the other.
pub open spec fn framed(frames: Seq<(Seq<u8>, Seq<u8>)>) -> Seq<u8>
    decreases frames.len(),
{
    if frames.len() == 0 {
        Seq::empty()
    } else {
        frame_bytes(frames[0]) + framed(frames.drop_first())
    }
}

/// Spectra come with the frames of version 1 alone, 32 bytes each.
pub open spec fn spectrum_size(version: int) -> int {
    if version == 1 {
        32
    } else {
        0
    }
}

/// Packets that Opus allows, each with the spectrum that the version asks for.
pub open spec fn sound(version: int, frames: Seq<(Seq<u8>, Seq<u8>)>) -> bool {
    forall|k: int|
        0 <= k < frames.len() ==> {
            &&& (#[trigger] frames[k]).0.len() == spectrum_size(version)
            &&& 1 <= frames[k].1.len() <= 1275
        }
}

/// Tags: the lengths of the title and the artist, and both texts.
pub open spec fn tag_bytes(title: Seq<u8>, artist: Seq<u8>) -> Seq<u8> {
    half(title.len() as int) + half(artist.len() as int) + title + artist
}

/// A text of at most 256 bytes of UTF-8 without control codes.
pub open spec fn readable(bytes: Seq<u8>) -> bool {
    &&& bytes.len() <= 256
    &&& valid_utf8(bytes)
    &&& !text::any_control(decode_utf8(bytes))
}

/// A title shows something, an artist may be missing; versions before 3 have neither.
pub open spec fn titled(version: int, title: Seq<u8>, artist: Seq<u8>) -> bool {
    if version == 3 {
        &&& readable(title)
        &&& readable(artist)
        &&& title.len() > 0
        &&& !text::blank(decode_utf8(title))
    } else {
        title.len() == 0 && artist.len() == 0
    }
}

/// What follows the header of a song.
pub open spec fn song_body(
    version: int,
    title: Seq<u8>,
    artist: Seq<u8>,
    frames: Seq<(Seq<u8>, Seq<u8>)>,
) -> Seq<u8> {
    if version == 3 {
        tag_bytes(title, artist) + framed(frames)
    } else {
        framed(frames)
    }
}

/// Where the first frame of a song lies.
pub open spec fn first_frame(version: int, title: Seq<u8>, artist: Seq<u8>) -> int {
    if version == 3 {
        68int + title.len() + artist.len()
    } else {
        64
    }
}

/// Storage that begins with a song of those tags and frames, under the right checksum.
pub open spec fn packed(
    s: Seq<u8>,
    version: int,
    title: Seq<u8>,
    artist: Seq<u8>,
    frames: Seq<(Seq<u8>, Seq<u8>)>,
) -> bool {
    let body = song_body(version, title, artist, frames);
    &&& 1 <= version <= 3
    &&& titled(version, title, artist)
    &&& 1 <= frames.len() <= 30_000
    &&& sound(version, frames)
    &&& 64 + body.len() <= 16 * 1024 * 1024
    &&& headed(s, version, frames.len() as int, body)
    &&& number(s, 28) == checksum::crc32(body)
}

/// The song that such storage holds.
pub open spec fn song_of(
    version: int,
    title: Seq<u8>,
    artist: Seq<u8>,
    frames: Seq<(Seq<u8>, Seq<u8>)>,
) -> SongView {
    let first = first_frame(version, title, artist);
    SongView {
        metadata: if version == 3 {
            Some(
                TrackView {
                    title: decode_utf8(title),
                    artist: decode_utf8(artist),
                    duration_ms: 20 * frames.len() as int,
                },
            )
        } else {
            None
        },
        frames: frames.len() as int,
        prefix: 2 + spectrum_size(version),
        offsets: Seq::new(frames.len(), |k: int| first + framed(frames.take(k)).len()),
        end: first + framed(frames).len(),
    }
}

proof fn lemma_half(s: Seq<u8>, at: int, value: int)
    requires
        0 <= value < 65_536,
        0 <= at,
        at + 2 <= s.len(),
        s.subrange(at, at + 2) == half(value),
    ensures
        music::le16_at(s, at) == value,
{
    assert(s.subrange(at, at + 2)[0] == s[at]);
    assert(s.subrange(at, at + 2)[1] == s[at + 1]);
}

proof fn lemma_half_back(s: Seq<u8>, at: int)
    requires
        0 <= at,
        at + 2 <= s.len(),
    ensures
        half(music::le16_at(s, at)) == s.subrange(at, at + 2),
{
    assert(half(music::le16_at(s, at)) =~= s.subrange(at, at + 2));
}

proof fn lemma_word(s: Seq<u8>, at: int, value: int)
    requires
        0 <= value <= u32::MAX,
        0 <= at,
        at + 4 <= s.len(),
        s.subrange(at, at + 4) == word(value),
    ensures
        music::le32_at(s, at) == value,
{
    let part = s.subrange(at, at + 4);
    assert(part[0] == s[at] && part[1] == s[at + 1]);
    assert(part[2] == s[at + 2] && part[3] == s[at + 3]);
}

/// The header says what it says.
pub(crate) proof fn lemma_numbers(s: Seq<u8>)
    requires
        s.len() >= 64,
    ensures
        forall|at: int| 0 <= at <= 60 ==> #[trigger] number(s, at) == music::le32_at(s, at),
        layout::has_magic(s, 0) <==> s.take(8) == seq![
            83u8,
            51u8,
            77u8,
            85u8,
            83u8,
            73u8,
            67u8,
            0u8,
        ],
        layout::supported(s, 0) <==> announces_stereo(s),
{
    assert(s.subrange(0, 8) =~= s.take(8));
    assert(layout::magic() =~= seq![83u8, 51u8, 77u8, 85u8, 83u8, 73u8, 67u8, 0u8]);
}

/// Where the frames after the first lie.
proof fn lemma_places(frames: Seq<(Seq<u8>, Seq<u8>)>, k: int)
    requires
        0 <= k < frames.len(),
    ensures
        framed(frames.take(k + 1)).len() == frame_bytes(frames[0]).len() + framed(
            frames.drop_first().take(k),
        ).len(),
{
    assert(frames.take(k + 1).drop_first() =~= frames.drop_first().take(k));
    assert(frames.take(k + 1)[0] == frames[0]);
}

/// Frames that are put together are read as they were, up to where anything else follows.
#[verifier::spinoff_prover]
#[verifier::rlimit(50)]
proof fn lemma_frames_are_read(
    s: Seq<u8>,
    cursor: int,
    limit: int,
    version: int,
    frames: Seq<(Seq<u8>, Seq<u8>)>,
    more: nat,
)
    requires
        1 <= version <= 3,
        sound(version, frames),
        0 <= cursor,
        cursor + framed(frames).len() <= limit <= s.len(),
        s.subrange(cursor, cursor + framed(frames).len()) == framed(frames),
    ensures
        ({
            let prefix = 2 + spectrum_size(version);
            let end = cursor + framed(frames).len();
            layout::frames_at(s, cursor, limit, prefix, frames.len() + more)
                == match layout::frames_at(s, end, limit, prefix, more) {
                Err(error) => Err::<(Seq<int>, int), Error>(error),
                Ok((offsets, stop)) => Ok::<(Seq<int>, int), Error>(
                    (
                        Seq::new(
                            frames.len(),
                            |k: int| cursor + framed(frames.take(k)).len(),
                        ) + offsets,
                        stop,
                    ),
                ),
            }
        }),
    decreases frames.len(),
{
    let prefix = 2 + spectrum_size(version);
    let places = Seq::new(frames.len(), |k: int| cursor + framed(frames.take(k)).len());
    let end = cursor + framed(frames).len();
    let then = layout::frames_at(s, end, limit, prefix, more);
    if frames.len() == 0 {
        assert(places =~= Seq::empty());
        if then is Ok {
            assert(places + then->Ok_0.0 =~= then->Ok_0.0);
        }
    } else {
        let rest = frames.drop_first();
        let size = frames[0].1.len() as int;
        let head = frame_bytes(frames[0]);
        let next = cursor + prefix + size;
        let all = framed(frames);
        assert(head.len() == prefix + size);
        assert(all.subrange(0, 2) =~= half(size));
        assert(s.subrange(cursor, cursor + 2) =~= all.subrange(0, 2));
        lemma_half(s, cursor, size);
        assert(all.skip(prefix + size) =~= framed(rest));
        assert(s.subrange(next, next + framed(rest).len()) =~= all.skip(prefix + size));
        assert(sound(version, rest)) by {
            assert forall|k: int| 0 <= k < rest.len() implies {
                &&& (#[trigger] rest[k]).0.len() == spectrum_size(version)
                &&& 1 <= rest[k].1.len() <= 1275
            } by {
                assert(rest[k] == frames[k + 1]);
            }
        }
        lemma_frames_are_read(s, next, limit, version, rest, more);
        let places_of_rest = Seq::new(rest.len(), |k: int| next + framed(rest.take(k)).len());
        assert(frames.take(0) =~= Seq::empty());
        assert(places =~= seq![cursor] + places_of_rest) by {
            assert forall|k: int| 0 <= k < places.len() implies places[k] == (seq![cursor]
                + places_of_rest)[k] by {
                if k > 0 {
                    lemma_places(frames, k - 1);
                }
            }
        }
        if then is Ok {
            assert(seq![cursor] + (places_of_rest + then->Ok_0.0) =~= places + then->Ok_0.0);
        }
        assert((rest.len() + more) as nat == (frames.len() + more - 1) as nat);
    }
}

/// The tags of a song are read as they were written.
proof fn lemma_tags_are_read(s: Seq<u8>, limit: int, title: Seq<u8>, artist: Seq<u8>, frames: int)
    requires
        titled(3, title, artist),
        68int + title.len() + artist.len() <= limit <= s.len(),
        s.subrange(64, 68int + title.len() + artist.len()) == tag_bytes(title, artist),
    ensures
        layout::tags_at(s, 64, limit, frames) == Ok::<(TrackView, int), Error>(
            (
                TrackView {
                    title: decode_utf8(title),
                    artist: decode_utf8(artist),
                    duration_ms: frames * 20,
                },
                68int + title.len() + artist.len(),
            ),
        ),
{
    let all = tag_bytes(title, artist);
    let m = title.len() as int;
    let n = artist.len() as int;
    assert(s.subrange(64, 66) =~= all.subrange(0, 2));
    assert(all.subrange(0, 2) =~= half(m));
    lemma_half(s, 64, m);
    assert(s.subrange(66, 68) =~= all.subrange(2, 4));
    assert(all.subrange(2, 4) =~= half(n));
    lemma_half(s, 66, n);
    assert(s.subrange(68, 68 + m) =~= all.subrange(4, 4 + m));
    assert(all.subrange(4, 4 + m) =~= title);
    assert(s.subrange(68 + m, 68 + m + n) =~= all.subrange(4 + m, 4 + m + n));
    assert(all.subrange(4 + m, 4 + m + n) =~= artist);
}

/// A song up to its first frame is read as it was written.
proof fn lemma_lead_is_read(
    s: Seq<u8>,
    version: int,
    title: Seq<u8>,
    artist: Seq<u8>,
    count: int,
    limit: int,
)
    requires
        1 <= version <= 3,
        titled(version, title, artist),
        marked(s),
        announces_stereo(s),
        number(s, 8) == version,
        number(s, 12) == count,
        1 <= count <= 30_000,
        first_frame(version, title, artist) <= limit <= s.len(),
        version == 3 ==> s.subrange(64, 68int + title.len() + artist.len()) == tag_bytes(
            title,
            artist,
        ),
    ensures
        layout::lead_at(s, 0, limit, 0) == Ok::<layout::LeadView, Error>(
            layout::LeadView {
                metadata: if version == 3 {
                    Some(
                        TrackView {
                            title: decode_utf8(title),
                            artist: decode_utf8(artist),
                            duration_ms: 20 * count,
                        },
                    )
                } else {
                    None
                },
                frames: count,
                prefix: 2 + spectrum_size(version),
                payload: 64,
                cursor: first_frame(version, title, artist),
                limit,
                checksum: number(s, 28),
            },
        ),
{
    lemma_numbers(s);
    assert(number(s, 8) == music::le32_at(s, 8));
    assert(number(s, 12) == music::le32_at(s, 12));
    assert(number(s, 28) == music::le32_at(s, 28));
    if version == 3 {
        lemma_tags_are_read(s, limit, title, artist, count);
    }
}

/// The parts of a song's body.
proof fn lemma_body_parts(
    s: Seq<u8>,
    version: int,
    title: Seq<u8>,
    artist: Seq<u8>,
    frames: Seq<(Seq<u8>, Seq<u8>)>,
)
    requires
        1 <= version <= 3,
        ({
            let body = song_body(version, title, artist, frames);
            64 + body.len() <= s.len() && s.subrange(64, 64int + body.len()) == body
        }),
        version != 3 ==> title.len() == 0 && artist.len() == 0,
    ensures
        ({
            let first = first_frame(version, title, artist);
            let end = first + framed(frames).len();
            &&& end == 64 + song_body(version, title, artist, frames).len()
            &&& s.subrange(first, end) == framed(frames)
            &&& version == 3 ==> s.subrange(64, first) == tag_bytes(title, artist)
        }),
{
    let body = song_body(version, title, artist, frames);
    let first = first_frame(version, title, artist);
    let end = first + framed(frames).len();
    assert(s.subrange(first, end) =~= body.subrange(first - 64, end - 64));
    assert(body.subrange(first - 64, end - 64) =~= framed(frames));
    if version == 3 {
        assert(s.subrange(64, first) =~= body.subrange(0, first - 64));
        assert(body.subrange(0, first - 64) =~= tag_bytes(title, artist));
    }
}

/// Every song that is put together as it should be is accepted, whatever follows it in storage:
/// with its tags, its duration and each of its frames in its place, and all its bytes in use.
pub proof fn lemma_a_packed_song_is_accepted(
    s: Seq<u8>,
    version: int,
    title: Seq<u8>,
    artist: Seq<u8>,
    frames: Seq<(Seq<u8>, Seq<u8>)>,
)
    requires
        packed(s, version, title, artist, frames),
    ensures
        layout::catalog_of(s) == Ok::<CatalogView, Error>(
            CatalogView {
                songs: seq![song_of(version, title, artist, frames)],
                used: 64int + song_body(version, title, artist, frames).len(),
            },
        ),
{
    let count = frames.len() as int;
    let limit = layout::single_limit(s);
    let first = first_frame(version, title, artist);
    let body = song_body(version, title, artist, frames);
    lemma_body_parts(s, version, title, artist, frames);
    lemma_lead_is_read(s, version, title, artist, count, limit);
    lemma_frames_are_read(s, first, limit, version, frames, 0);
    let song = song_of(version, title, artist, frames);
    assert(song.offsets + Seq::<int>::empty() =~= song.offsets);
    assert(layout::song_at(s, 0, limit, 0) == Ok::<SongView, Error>(song));
    lemma_numbers(s);
    assert(number(s, 8) == music::le32_at(s, 8));
}

/// What was packed is what is played: every packet of an accepted song reads back as it went in,
/// into any buffer that has room for it, and is refused for its size by a smaller one.
pub proof fn lemma_packets_read_back_as_they_were_packed(
    s: Seq<u8>,
    version: int,
    title: Seq<u8>,
    artist: Seq<u8>,
    frames: Seq<(Seq<u8>, Seq<u8>)>,
    index: int,
    room: int,
)
    requires
        packed(s, version, title, artist, frames),
        0 <= index < frames.len(),
    ensures
        layout::packet_at(layout::catalog_of(s)->Ok_0, s, 0, index, room)
            == if frames[index].1.len() <= room {
            Ok::<Seq<u8>, Error>(frames[index].1)
        } else {
            Err::<Seq<u8>, Error>(Error::PacketSize)
        },
{
    lemma_a_packed_song_is_accepted(s, version, title, artist, frames);
    lemma_body_parts(s, version, title, artist, frames);
    let first = first_frame(version, title, artist);
    lemma_packet_in_a_row(s, first, version, frames, index);
}

/// Where a packet of a row of frames lies.
proof fn lemma_packet_in_a_row(
    s: Seq<u8>,
    cursor: int,
    version: int,
    frames: Seq<(Seq<u8>, Seq<u8>)>,
    index: int,
)
    requires
        1 <= version <= 3,
        sound(version, frames),
        0 <= cursor,
        cursor + framed(frames).len() <= s.len(),
        s.subrange(cursor, cursor + framed(frames).len()) == framed(frames),
        0 <= index < frames.len(),
    ensures
        ({
            let at = cursor + framed(frames.take(index)).len();
            let start = at + 2 + spectrum_size(version);
            let packet = frames[index].1;
            &&& start + packet.len() <= cursor + framed(frames).len()
            &&& music::le16_at(s, at) == packet.len()
            &&& s.subrange(start, start + packet.len()) == packet
        }),
    decreases frames.len(),
{
    let prefix = 2 + spectrum_size(version);
    let all = framed(frames);
    let head = frame_bytes(frames[0]);
    let rest = frames.drop_first();
    let size = frames[0].1.len() as int;
    let next = cursor + head.len();
    assert(head.len() == prefix + size);
    if index == 0 {
        assert(frames.take(0) =~= Seq::empty());
        assert(all.subrange(0, 2) =~= half(size));
        assert(s.subrange(cursor, cursor + 2) =~= all.subrange(0, 2));
        lemma_half(s, cursor, size);
        assert(s.subrange(cursor + prefix, cursor + prefix + size) =~= all.subrange(
            prefix,
            prefix + size,
        ));
        assert(all.subrange(prefix, prefix + size) =~= frames[0].1);
    } else {
        lemma_places(frames, index - 1);
        assert(all.skip(head.len() as int) =~= framed(rest));
        assert(s.subrange(next, next + framed(rest).len()) =~= all.skip(head.len() as int));
        assert(sound(version, rest)) by {
            assert forall|k: int| 0 <= k < rest.len() implies {
                &&& (#[trigger] rest[k]).0.len() == spectrum_size(version)
                &&& 1 <= rest[k].1.len() <= 1275
            } by {
                assert(rest[k] == frames[k + 1]);
            }
        }
        assert(rest[index - 1] == frames[index]);
        lemma_packet_in_a_row(s, next, version, rest, index - 1);
    }
}

/// A song in storage that begins `by` bytes earlier.
pub open spec fn shifted(song: SongView, by: int) -> SongView {
    SongView {
        offsets: song.offsets.map_values(|offset: int| offset + by),
        end: song.end + by,
        ..song
    }
}

/// Bytes that are one song and nothing else.
#[verifier::opaque]
pub open spec fn one_song(body: Seq<u8>) -> bool {
    &&& body.len() >= 64
    &&& number(body, 8) != 4
    &&& layout::catalog_of(body) matches Ok(catalog) && catalog.used == body.len()
}

/// The song that such bytes are.
#[verifier::opaque]
pub open spec fn the_song(body: Seq<u8>) -> SongView {
    layout::catalog_of(body)->Ok_0.songs[0]
}

/// The frames of some songs together.
pub open spec fn all_frames(bodies: Seq<Seq<u8>>) -> int
    decreases bodies.len(),
{
    if bodies.len() == 0 {
        0
    } else {
        the_song(bodies[0]).frames + all_frames(bodies.drop_first())
    }
}

/// Songs one after the other, each behind its length.
pub open spec fn listed(bodies: Seq<Seq<u8>>) -> Seq<u8>
    decreases bodies.len(),
{
    if bodies.len() == 0 {
        Seq::empty()
    } else {
        word(bodies[0].len() as int) + bodies[0] + listed(bodies.drop_first())
    }
}

/// Storage that begins with a playlist of those songs, under the right checksum.
pub open spec fn playlist(s: Seq<u8>, bodies: Seq<Seq<u8>>) -> bool {
    &&& 1 <= bodies.len() <= 32
    &&& forall|i: int| 0 <= i < bodies.len() ==> one_song(#[trigger] bodies[i])
    &&& all_frames(bodies) <= 180_000
    &&& 64 + listed(bodies).len() <= 16 * 1024 * 1024
    &&& headed(s, 4, bodies.len() as int, listed(bodies))
    &&& number(s, 28) == checksum::crc32(listed(bodies))
    &&& number(s, 32) == 64 + listed(bodies).len()
}

/// Where the bytes of a song of a playlist begin.
pub open spec fn song_start(bodies: Seq<Seq<u8>>, i: int) -> int {
    68int + listed(bodies.take(i)).len()
}

/// Numbers and parts read the same from a part of the storage.
proof fn lemma_parts(s: Seq<u8>, start: int, part: Seq<u8>)
    requires
        0 <= start,
        start + part.len() <= s.len(),
        s.subrange(start, start + part.len()) == part,
    ensures
        forall|i: int| 0 <= i < part.len() ==> #[trigger] part[i] == s[start + i],
        forall|i: int, j: int|
            0 <= i <= j <= part.len() ==> #[trigger] part.subrange(i, j) == s.subrange(
                start + i,
                start + j,
            ),
{
    assert forall|i: int| 0 <= i < part.len() implies #[trigger] part[i] == s[start + i] by {
        assert(s.subrange(start, start + part.len())[i] == s[start + i]);
    }
    assert forall|i: int, j: int| 0 <= i <= j <= part.len() implies #[trigger] part.subrange(i, j)
        == s.subrange(start + i, start + j) by {
        assert(part.subrange(i, j) =~= s.subrange(start + i, start + j));
    }
}

/// Frames are read from a place as they are from there alone, or refused for the same reason.
proof fn lemma_frames_in_place(
    s: Seq<u8>,
    start: int,
    part: Seq<u8>,
    cursor: int,
    prefix: int,
    count: nat,
)
    requires
        0 <= start,
        start + part.len() <= s.len(),
        s.subrange(start, start + part.len()) == part,
        0 <= cursor <= part.len(),
        prefix >= 2,
    ensures
        layout::frames_at(s, start + cursor, start + part.len(), prefix, count)
            == match layout::frames_at(part, cursor, part.len() as int, prefix, count) {
            Err(error) => Err::<(Seq<int>, int), Error>(error),
            Ok((offsets, stop)) => Ok::<(Seq<int>, int), Error>(
                (offsets.map_values(|offset: int| offset + start), stop + start),
            ),
        },
    decreases count,
{
    lemma_parts(s, start, part);
    let alone = layout::frames_at(part, cursor, part.len() as int, prefix, count);
    if count == 0 {
        assert(alone->Ok_0.0.map_values(|offset: int| offset + start) =~= Seq::empty());
    } else if cursor + 2 <= part.len() {
        assert(part[cursor] == s[start + cursor]);
        assert(part[cursor + 1] == s[start + (cursor + 1)]);
        assert(music::le16_at(s, start + cursor) == music::le16_at(part, cursor));
        let next = cursor + prefix + music::le16_at(part, cursor);
        if next <= part.len() && 1 <= music::le16_at(part, cursor) <= 1275 {
            lemma_frames_in_place(s, start, part, next, prefix, (count - 1) as nat);
            let rest = layout::frames_at(
                part,
                next,
                part.len() as int,
                prefix,
                (count - 1) as nat,
            );
            if rest is Ok {
                assert((seq![cursor] + rest->Ok_0.0).map_values(|offset: int| offset + start)
                    =~= seq![start + cursor] + rest->Ok_0.0.map_values(
                    |offset: int| offset + start,
                ));
            }
        }
    }
}

/// Tags are read from a place as they are from there alone, or refused for the same reason.
proof fn lemma_tags_in_place(s: Seq<u8>, start: int, part: Seq<u8>, frames: int)
    requires
        0 <= start,
        start + part.len() <= s.len(),
        s.subrange(start, start + part.len()) == part,
        part.len() >= 64,
    ensures
        layout::tags_at(s, start + 64, start + part.len(), frames) == match layout::tags_at(
            part,
            64,
            part.len() as int,
            frames,
        ) {
            Err(error) => Err::<(TrackView, int), Error>(error),
            Ok((track, cursor)) => Ok::<(TrackView, int), Error>((track, cursor + start)),
        },
{
    lemma_parts(s, start, part);
    if part.len() >= 68 {
        assert(part[64] == s[start + 64] && part[65] == s[start + 65]);
        assert(part[66] == s[start + 66] && part[67] == s[start + 67]);
        assert(music::le16_at(s, start + 64) == music::le16_at(part, 64));
        assert(music::le16_at(s, start + 64 + 2) == music::le16_at(part, 66));
        let m = music::le16_at(part, 64);
        let n = music::le16_at(part, 66);
        if 68 + m <= part.len() {
            assert(part.subrange(68, 68 + m) == s.subrange(start + 68, start + (68 + m)));
        }
        if 68 + m + n <= part.len() {
            assert(part.subrange(68 + m, 68 + m + n) == s.subrange(
                start + (68 + m),
                start + (68 + m + n),
            ));
        }
    }
}

/// The header of a song reads the same in its place.
proof fn lemma_header_in_place(s: Seq<u8>, start: int, part: Seq<u8>)
    requires
        0 <= start,
        start + part.len() <= s.len(),
        s.subrange(start, start + part.len()) == part,
        part.len() >= 64,
    ensures
        layout::has_magic(s, start) == layout::has_magic(part, 0),
        layout::supported(s, start) == layout::supported(part, 0),
        music::le32_at(s, start + 8) == music::le32_at(part, 8),
        music::le32_at(s, start + 12) == music::le32_at(part, 12),
        music::le32_at(s, start + 28) == music::le32_at(part, 28),
{
    lemma_parts(s, start, part);
    assert(part.subrange(0, 8) == s.subrange(start + 0, start + 8));
    assert forall|at: int| 0 <= at <= 60 implies #[trigger] music::le32_at(part, at)
        == music::le32_at(s, start + at) by {
        assert(part[at] == s[start + at] && part[at + 1] == s[start + (at + 1)]);
        assert(part[at + 2] == s[start + (at + 2)] && part[at + 3] == s[start + (at + 3)]);
    }
    assert(music::le32_at(part, 8) == music::le32_at(s, start + 8));
    assert(music::le32_at(part, 12) == music::le32_at(s, start + 12));
    assert(music::le32_at(part, 16) == music::le32_at(s, start + 16));
    assert(music::le32_at(part, 20) == music::le32_at(s, start + 20));
    assert(music::le32_at(part, 24) == music::le32_at(s, start + 24));
    assert(music::le32_at(part, 28) == music::le32_at(s, start + 28));
}

/// A song is read from a place as it is from there alone, or refused for the same reason, as
/// long as its frames fit into the index.
#[verifier::spinoff_prover]
#[verifier::rlimit(50)]
proof fn lemma_song_in_place(s: Seq<u8>, start: int, part: Seq<u8>, indexed: int)
    requires
        0 <= start,
        start + part.len() <= s.len(),
        s.subrange(start, start + part.len()) == part,
        64 <= part.len() <= 16 * 1024 * 1024,
        number(part, 8) != 4,
        0 <= indexed,
        indexed + number(part, 12) <= 180_000,
    ensures
        layout::song_at(s, start, start + part.len(), indexed) == match layout::catalog_of(part) {
            Err(error) => Err::<SongView, Error>(error),
            Ok(catalog) => Ok::<SongView, Error>(shifted(catalog.songs[0], start)),
        },
{
    lemma_header_in_place(s, start, part);
    lemma_numbers(part);
    assert(number(part, 8) == music::le32_at(part, 8));
    assert(number(part, 12) == music::le32_at(part, 12));
    let size = part.len() as int;
    assert(layout::single_limit(part) == size);
    let frames = music::le32_at(part, 12);
    lemma_tags_in_place(s, start, part, frames);
    let alone = layout::lead_at(part, 0, size, 0);
    let there = layout::lead_at(s, start, start + size, indexed);
    match alone {
        Err(error) => {
            assert(there == Err::<layout::LeadView, Error>(error));
        },
        Ok(lead) => {
            assert(there == Ok::<layout::LeadView, Error>(
                layout::LeadView {
                    payload: lead.payload + start,
                    cursor: lead.cursor + start,
                    limit: size + start,
                    ..lead
                },
            ));
            lemma_frames_in_place(s, start, part, lead.cursor, lead.prefix, lead.frames as nat);
            let read = layout::frames_at(
                part,
                lead.cursor,
                size,
                lead.prefix,
                lead.frames as nat,
            );
            if read is Ok {
                laws::lemma_frames_whole(
                    part,
                    lead.cursor,
                    size,
                    lead.prefix,
                    lead.frames as nat,
                );
                lemma_parts(s, start, part);
                assert(part.subrange(64, read->Ok_0.1) == s.subrange(
                    start + 64,
                    start + read->Ok_0.1,
                ));
            }
        },
    }
}

/// What holds of bytes that are one song.
proof fn lemma_one_song(body: Seq<u8>)
    requires
        one_song(body),
    ensures
        64 < body.len() <= 16 * 1024 * 1024,
        number(body, 8) != 4,
        the_song(body).frames == number(body, 12),
        1 <= the_song(body).frames,
        the_song(body).end == body.len(),
        laws::song_whole(body, the_song(body)),
        layout::catalog_of(body) == Ok::<CatalogView, Error>(
            CatalogView { songs: seq![the_song(body)], used: body.len() as int },
        ),
{
    reveal(one_song);
    reveal(the_song);
    laws::lemma_catalog_limits(body);
    lemma_numbers(body);
    assert(number(body, 8) == music::le32_at(body, 8));
    assert(number(body, 12) == music::le32_at(body, 12));
    let catalog = layout::catalog_of(body)->Ok_0;
    assert(laws::song_whole(body, catalog.songs[0]));
    assert(catalog.songs =~= seq![the_song(body)]);
}

/// A song of a row is read in its place.
proof fn lemma_song_of_a_row(s: Seq<u8>, cursor: int, body: Seq<u8>, indexed: int)
    requires
        0 <= cursor,
        cursor + 4 + body.len() <= s.len(),
        s.subrange(cursor, cursor + 4) == word(body.len() as int),
        s.subrange(cursor + 4, cursor + 4 + body.len()) == body,
        one_song(body),
        0 <= indexed,
        indexed + the_song(body).frames <= 180_000,
    ensures
        music::le32_at(s, cursor) == body.len(),
        layout::song_at(s, cursor + 4, cursor + 4 + body.len(), indexed) == Ok::<
            SongView,
            Error,
        >(shifted(the_song(body), cursor + 4)),
{
    lemma_one_song(body);
    lemma_word(s, cursor, body.len() as int);
    lemma_song_in_place(s, cursor + 4, body, indexed);
}

/// The songs of a row that begins at `cursor`, each in its place.
spec fn found_at(cursor: int, bodies: Seq<Seq<u8>>) -> Seq<SongView> {
    Seq::new(
        bodies.len(),
        |i: int| shifted(the_song(bodies[i]), cursor + 4 + listed(bodies.take(i)).len()),
    )
}

/// The first song of a row, and the others.
proof fn lemma_found(cursor: int, bodies: Seq<Seq<u8>>)
    requires
        bodies.len() > 0,
    ensures
        found_at(cursor, bodies) == seq![shifted(the_song(bodies[0]), cursor + 4)] + found_at(
            cursor + 4 + bodies[0].len(),
            bodies.drop_first(),
        ),
{
    let rest = bodies.drop_first();
    let wanted = seq![shifted(the_song(bodies[0]), cursor + 4)] + found_at(
        cursor + 4 + bodies[0].len(),
        rest,
    );
    let found = found_at(cursor, bodies);
    assert(bodies.take(0) =~= Seq::empty());
    assert forall|i: int| 0 <= i < found.len() implies found[i] == wanted[i] by {
        if i > 0 {
            assert(bodies.take(i).drop_first() =~= rest.take(i - 1));
            assert(bodies.take(i)[0] == bodies[0]);
            assert(rest[i - 1] == bodies[i]);
            assert(listed(bodies.take(i)).len() == 4 + bodies[0].len() + listed(
                rest.take(i - 1),
            ).len());
        }
    }
    assert(found =~= wanted);
}

/// The bytes of a row: the length of its first song, the song, and the others.
proof fn lemma_row_parts(s: Seq<u8>, cursor: int, bodies: Seq<Seq<u8>>)
    requires
        bodies.len() > 0,
        0 <= cursor,
        cursor + listed(bodies).len() <= s.len(),
        s.subrange(cursor, cursor + listed(bodies).len()) == listed(bodies),
    ensures
        ({
            let next = cursor + 4 + bodies[0].len();
            let rest = listed(bodies.drop_first());
            &&& listed(bodies).len() == 4 + bodies[0].len() + rest.len()
            &&& s.subrange(cursor, cursor + 4) == word(bodies[0].len() as int)
            &&& s.subrange(cursor + 4, next) == bodies[0]
            &&& s.subrange(next, next + rest.len()) == rest
        }),
{
    let all = listed(bodies);
    let rest = listed(bodies.drop_first());
    let size = bodies[0].len() as int;
    let next = cursor + 4 + size;
    lemma_parts(s, cursor, all);
    assert(all.subrange(0, 4) =~= word(size));
    assert(all.subrange(4, 4 + size) =~= bodies[0]);
    assert(all.subrange(4 + size, all.len() as int) =~= rest);
}

/// The other songs of a row are songs.
proof fn lemma_rest_are_songs(bodies: Seq<Seq<u8>>)
    requires
        bodies.len() > 0,
        forall|i: int| 0 <= i < bodies.len() ==> one_song(#[trigger] bodies[i]),
    ensures
        forall|i: int|
            0 <= i < bodies.drop_first().len() ==> one_song(#[trigger] bodies.drop_first()[i]),
{
    assert forall|i: int| 0 <= i < bodies.drop_first().len() implies one_song(
        #[trigger] bodies.drop_first()[i],
    ) by {
        assert(bodies.drop_first()[i] == bodies[i + 1]);
    }
}

/// Behind a song that is read come the others.
proof fn lemma_songs_step(
    s: Seq<u8>,
    cursor: int,
    used: int,
    count: nat,
    indexed: int,
    song: SongView,
)
    requires
        count > 0,
        ({
            let length = music::le32_at(s, cursor);
            let end = cursor + 4 + length;
            &&& length >= 64
            &&& end <= used
            &&& song.end == end
            &&& layout::song_at(s, cursor + 4, end, indexed) == Ok::<SongView, Error>(song)
        }),
    ensures
        layout::songs_at(s, cursor, used, count, indexed) == match layout::songs_at(
            s,
            song.end,
            used,
            (count - 1) as nat,
            indexed + song.frames,
        ) {
            Err(error) => Err::<Seq<SongView>, Error>(error),
            Ok(rest) => Ok::<Seq<SongView>, Error>(seq![song] + rest),
        },
{
}

/// The songs of a row are read one after the other, up to where anything else follows.
#[verifier::spinoff_prover]
#[verifier::rlimit(50)]
proof fn lemma_songs_are_read(
    s: Seq<u8>,
    cursor: int,
    used: int,
    bodies: Seq<Seq<u8>>,
    indexed: int,
    more: nat,
)
    requires
        0 <= cursor,
        cursor + listed(bodies).len() <= used <= s.len(),
        used <= 16 * 1024 * 1024,
        s.subrange(cursor, cursor + listed(bodies).len()) == listed(bodies),
        forall|i: int| 0 <= i < bodies.len() ==> one_song(#[trigger] bodies[i]),
        0 <= indexed,
        indexed + all_frames(bodies) <= 180_000,
    ensures
        0 <= all_frames(bodies),
        layout::songs_at(s, cursor, used, bodies.len() + more, indexed)
            == match layout::songs_at(
            s,
            cursor + listed(bodies).len(),
            used,
            more,
            indexed + all_frames(bodies),
        ) {
            Err(error) => Err::<Seq<SongView>, Error>(error),
            Ok(songs) => Ok::<Seq<SongView>, Error>(found_at(cursor, bodies) + songs),
        },
    decreases bodies.len(),
{
    let found = found_at(cursor, bodies);
    let end = cursor + listed(bodies).len();
    let then = layout::songs_at(s, end, used, more, indexed + all_frames(bodies));
    if bodies.len() == 0 {
        assert(found =~= Seq::empty());
        if then is Ok {
            assert(found + then->Ok_0 =~= then->Ok_0);
        }
    } else {
        let body = bodies[0];
        let rest = bodies.drop_first();
        let next = cursor + 4 + body.len();
        assert(one_song(body));
        lemma_one_song(body);
        lemma_row_parts(s, cursor, bodies);
        lemma_rest_are_songs(bodies);
        lemma_frames_count_up(rest);
        lemma_song_of_a_row(s, cursor, body, indexed);
        lemma_songs_are_read(s, next, used, rest, indexed + the_song(body).frames, more);
        let song = shifted(the_song(body), cursor + 4);
        lemma_songs_step(s, cursor, used, (bodies.len() + more) as nat, indexed, song);
        assert((rest.len() + more) as nat == (bodies.len() + more - 1) as nat);
        lemma_found(cursor, bodies);
        if then is Ok {
            assert(seq![song] + (found_at(next, rest) + then->Ok_0) =~= found + then->Ok_0);
        }
    }
}

/// Songs have frames.
proof fn lemma_frames_count_up(bodies: Seq<Seq<u8>>)
    requires
        forall|i: int| 0 <= i < bodies.len() ==> one_song(#[trigger] bodies[i]),
    ensures
        bodies.len() <= all_frames(bodies),
    decreases bodies.len(),
{
    if bodies.len() > 0 {
        assert(one_song(bodies[0]));
        lemma_one_song(bodies[0]);
        assert forall|i: int| 0 <= i < bodies.drop_first().len() implies one_song(
            #[trigger] bodies.drop_first()[i],
        ) by {
            assert(bodies.drop_first()[i] == bodies[i + 1]);
        }
        lemma_frames_count_up(bodies.drop_first());
    }
}

/// Every playlist of one to 32 songs is accepted, where each of them is accepted by itself and
/// they are put together as they should be, within 180,000 frames and 16 MiB: the catalog has
/// exactly those songs in that order, each in its place, and uses all their bytes.
#[verifier::spinoff_prover]
#[verifier::rlimit(50)]
pub proof fn lemma_a_playlist_of_songs_is_accepted(s: Seq<u8>, bodies: Seq<Seq<u8>>)
    requires
        playlist(s, bodies),
    ensures
        layout::catalog_of(s) == Ok::<CatalogView, Error>(
            CatalogView {
                songs: Seq::new(
                    bodies.len(),
                    |i: int| shifted(the_song(bodies[i]), song_start(bodies, i)),
                ),
                used: 64int + listed(bodies).len(),
            },
        ),
{
    let used = 64int + listed(bodies).len();
    lemma_numbers(s);
    assert(number(s, 8) == music::le32_at(s, 8));
    assert(number(s, 12) == music::le32_at(s, 12));
    assert(number(s, 28) == music::le32_at(s, 28));
    assert(number(s, 32) == music::le32_at(s, 32));
    lemma_songs_are_read(s, 64, used, bodies, 0, 0);
    let found = Seq::new(
        bodies.len(),
        |i: int| shifted(the_song(bodies[i]), song_start(bodies, i)),
    );
    assert(found_at(64, bodies) + Seq::<SongView>::empty() =~= found);
}

/// A packet of a playlist is the packet of its song: it reads as it does from the song alone.
#[verifier::spinoff_prover]
#[verifier::rlimit(50)]
pub proof fn lemma_packets_of_a_playlist_are_those_of_its_songs(
    s: Seq<u8>,
    bodies: Seq<Seq<u8>>,
    i: int,
    index: int,
    room: int,
)
    requires
        playlist(s, bodies),
        0 <= i < bodies.len(),
        0 <= index < the_song(bodies[i]).frames,
    ensures
        layout::packet_at(layout::catalog_of(s)->Ok_0, s, i, index, room) == layout::packet_at(
            layout::catalog_of(bodies[i])->Ok_0,
            bodies[i],
            0,
            index,
            room,
        ),
{
    let body = bodies[i];
    let start = song_start(bodies, i);
    lemma_a_playlist_of_songs_is_accepted(s, bodies);
    assert(one_song(body));
    lemma_one_song(body);
    lemma_body_in_its_place(s, 64, bodies, i);
    let song = the_song(body);
    let catalog = layout::catalog_of(s)->Ok_0;
    assert(catalog.songs[i] == shifted(song, start));
    lemma_packet_in_place(
        s,
        start,
        body,
        catalog,
        layout::catalog_of(body)->Ok_0,
        i,
        index,
        room,
    );
}

/// A packet reads from a song in its place as it does from the song alone.
proof fn lemma_packet_in_place(
    s: Seq<u8>,
    start: int,
    body: Seq<u8>,
    catalog: CatalogView,
    alone: CatalogView,
    i: int,
    index: int,
    room: int,
)
    requires
        0 <= start,
        start + body.len() <= s.len(),
        s.subrange(start, start + body.len()) == body,
        alone.songs.len() == 1,
        0 <= i < catalog.songs.len(),
        catalog.songs[i] == shifted(alone.songs[0], start),
        laws::song_whole(body, alone.songs[0]),
        alone.songs[0].end == body.len(),
        0 <= index < alone.songs[0].frames,
    ensures
        layout::packet_at(catalog, s, i, index, room) == layout::packet_at(
            alone,
            body,
            0,
            index,
            room,
        ),
{
    let song = alone.songs[0];
    let offset = song.offsets[index];
    lemma_parts(s, start, body);
    assert(body[offset] == s[start + offset] && body[offset + 1] == s[start + (offset + 1)]);
    assert(music::le16_at(s, start + offset) == music::le16_at(body, offset));
    let from = offset + song.prefix;
    let to = from + music::le16_at(body, offset);
    assert(body.subrange(from, to) == s.subrange(start + from, start + to));
    assert(shifted(song, start).offsets[index] == start + offset);
}

/// Where the bytes of a song of a row lie.
proof fn lemma_body_in_its_place(s: Seq<u8>, cursor: int, bodies: Seq<Seq<u8>>, i: int)
    requires
        0 <= cursor,
        cursor + listed(bodies).len() <= s.len(),
        s.subrange(cursor, cursor + listed(bodies).len()) == listed(bodies),
        0 <= i < bodies.len(),
    ensures
        ({
            let start = cursor + 4 + listed(bodies.take(i)).len();
            &&& start + bodies[i].len() <= cursor + listed(bodies).len()
            &&& s.subrange(start, start + bodies[i].len()) == bodies[i]
        }),
    decreases bodies.len(),
{
    let all = listed(bodies);
    let body = bodies[0];
    let rest = bodies.drop_first();
    let size = body.len() as int;
    if i == 0 {
        assert(bodies.take(0) =~= Seq::empty());
        assert(all.subrange(4, 4 + size) =~= body);
        assert(s.subrange(cursor + 4, cursor + 4 + size) =~= all.subrange(4, 4 + size));
    } else {
        let next = cursor + 4 + size;
        assert(all.skip(4 + size) =~= listed(rest));
        assert(s.subrange(next, next + listed(rest).len()) =~= all.skip(4 + size));
        assert(bodies.take(i).drop_first() =~= rest.take(i - 1));
        assert(bodies.take(i)[0] == body);
        assert(rest[i - 1] == bodies[i]);
        lemma_body_in_its_place(s, next, rest, i - 1);
    }
}

/// The frames of a song in storage, each with what comes before its packet.
pub open spec fn frames_in(s: Seq<u8>, prefix: int, offsets: Seq<int>) -> Seq<(Seq<u8>, Seq<u8>)> {
    Seq::new(
        offsets.len(),
        |k: int|
            (
                s.subrange(offsets[k] + 2, offsets[k] + prefix),
                s.subrange(
                    offsets[k] + prefix,
                    offsets[k] + prefix + music::le16_at(s, offsets[k]),
                ),
            ),
    )
}

/// Frames that are read are what storage is made of.
proof fn lemma_frames_were_packed(
    s: Seq<u8>,
    cursor: int,
    limit: int,
    version: int,
    count: nat,
)
    requires
        1 <= version <= 3,
        0 <= cursor <= limit <= s.len(),
        layout::frames_at(s, cursor, limit, 2 + spectrum_size(version), count) is Ok,
    ensures
        ({
            let prefix = 2 + spectrum_size(version);
            let (offsets, end) = layout::frames_at(s, cursor, limit, prefix, count)->Ok_0;
            let frames = frames_in(s, prefix, offsets);
            &&& offsets.len() == count
            &&& cursor <= end <= limit
            &&& sound(version, frames)
            &&& s.subrange(cursor, end) == framed(frames)
        }),
    decreases count,
{
    let prefix = 2 + spectrum_size(version);
    let (offsets, end) = layout::frames_at(s, cursor, limit, prefix, count)->Ok_0;
    let frames = frames_in(s, prefix, offsets);
    if count == 0 {
        assert(s.subrange(cursor, end) =~= Seq::empty());
    } else {
        let size = music::le16_at(s, cursor);
        let next = cursor + prefix + size;
        lemma_frames_were_packed(s, next, limit, version, (count - 1) as nat);
        let rest = layout::frames_at(s, next, limit, prefix, (count - 1) as nat)->Ok_0.0;
        let later = frames_in(s, prefix, rest);
        assert(frames.drop_first() =~= later);
        assert(frames[0].1.len() == size);
        assert(frames[0].0.len() == spectrum_size(version));
        assert forall|k: int| 0 <= k < frames.len() implies {
            &&& (#[trigger] frames[k]).0.len() == spectrum_size(version)
            &&& 1 <= frames[k].1.len() <= 1275
        } by {
            if k > 0 {
                assert(frames[k] == later[k - 1]);
            }
        }
        lemma_half_back(s, cursor);
        assert(s.subrange(cursor, next) =~= frame_bytes(frames[0]));
        assert(s.subrange(cursor, end) =~= s.subrange(cursor, next) + s.subrange(next, end));
    }
}

/// Nothing else is accepted: storage that holds a single song was put together from its tags and
/// its frames as it should be, and its checksum is right. The tags and the frames are returned.
#[verifier::spinoff_prover]
#[verifier::rlimit(50)]
pub proof fn lemma_an_accepted_song_was_packed(s: Seq<u8>) -> (song: (
    Seq<u8>,
    Seq<u8>,
    Seq<(Seq<u8>, Seq<u8>)>,
))
    requires
        layout::catalog_of(s) is Ok,
        number(s, 8) != 4,
    ensures
        packed(s, number(s, 8), song.0, song.1, song.2),
{
    lemma_numbers(s);
    assert(number(s, 8) == music::le32_at(s, 8));
    assert(number(s, 12) == music::le32_at(s, 12));
    assert(number(s, 28) == music::le32_at(s, 28));
    let version = number(s, 8);
    let limit = layout::single_limit(s);
    let lead = layout::lead_at(s, 0, limit, 0)->Ok_0;
    laws::lemma_lead_bounds(s, 0, limit, 0);
    assert(lead.prefix == 2 + spectrum_size(version));
    let count = lead.frames as nat;
    lemma_frames_were_packed(s, lead.cursor, limit, version, count);
    let (offsets, end) = layout::frames_at(s, lead.cursor, limit, lead.prefix, count)->Ok_0;
    let frames = frames_in(s, lead.prefix, offsets);
    let (title, artist) = if version == 3 {
        let m = music::le16_at(s, 64);
        let n = music::le16_at(s, 66);
        (s.subrange(68, 68 + m), s.subrange(68 + m, 68 + m + n))
    } else {
        (Seq::empty(), Seq::empty())
    };
    let body = song_body(version, title, artist, frames);
    if version == 3 {
        lemma_half_back(s, 64);
        lemma_half_back(s, 66);
        assert(s.subrange(64, lead.cursor) =~= tag_bytes(title, artist));
        assert(s.subrange(64, end) =~= s.subrange(64, lead.cursor) + s.subrange(lead.cursor, end));
    }
    assert(s.subrange(64, end) == body);
    (title, artist, frames)
}

/// Songs that are read are what a row is made of; they are returned.
#[verifier::spinoff_prover]
#[verifier::rlimit(50)]
proof fn lemma_songs_were_listed(
    s: Seq<u8>,
    cursor: int,
    used: int,
    count: nat,
    indexed: int,
) -> (bodies: Seq<Seq<u8>>)
    requires
        0 <= cursor <= used <= s.len(),
        used <= 16 * 1024 * 1024,
        0 <= indexed <= 180_000,
        layout::songs_at(s, cursor, used, count, indexed) is Ok,
    ensures
        bodies.len() == count,
        forall|i: int| 0 <= i < bodies.len() ==> one_song(#[trigger] bodies[i]),
        indexed + all_frames(bodies) <= 180_000,
        s.subrange(cursor, used) == listed(bodies),
    decreases count,
{
    if count == 0 {
        assert(s.subrange(cursor, used) =~= Seq::empty());
        Seq::empty()
    } else {
        let size = music::le32_at(s, cursor);
        let start = cursor + 4;
        let end = start + size;
        let song = lemma_first_of_the_songs(s, cursor, used, count, indexed);
        let body = s.subrange(start, end);
        let rest = lemma_songs_were_listed(
            s,
            end,
            used,
            (count - 1) as nat,
            indexed + song.frames,
        );
        let bodies = seq![body] + rest;
        assert(bodies.drop_first() =~= rest);
        assert forall|i: int| 0 <= i < bodies.len() implies one_song(#[trigger] bodies[i]) by {
            if i > 0 {
                assert(bodies[i] == rest[i - 1]);
            }
        }
        assert(s.subrange(cursor, used) =~= s.subrange(cursor, start) + body + s.subrange(
            end,
            used,
        ));
        bodies
    }
}

/// The first of several songs that are read, and what is left to read behind it.
proof fn lemma_first_of_the_songs(
    s: Seq<u8>,
    cursor: int,
    used: int,
    count: nat,
    indexed: int,
) -> (song: SongView)
    requires
        count > 0,
        0 <= cursor <= used <= s.len(),
        used <= 16 * 1024 * 1024,
        0 <= indexed,
        layout::songs_at(s, cursor, used, count, indexed) is Ok,
    ensures
        ({
            let size = music::le32_at(s, cursor);
            let end = cursor + 4 + size;
            let body = s.subrange(cursor + 4, end);
            &&& 64 <= size
            &&& end <= used
            &&& one_song(body)
            &&& the_song(body).frames == song.frames
            &&& 0 <= song.frames
            &&& indexed + song.frames <= 180_000
            &&& s.subrange(cursor, cursor + 4) == word(size)
            &&& layout::songs_at(s, end, used, (count - 1) as nat, indexed + song.frames) is Ok
        }),
{
    let end = cursor + 4 + music::le32_at(s, cursor);
    let song = layout::song_at(s, cursor + 4, end, indexed)->Ok_0;
    laws::lemma_song_whole(s, cursor + 4, end, indexed);
    lemma_record_is_a_song(s, cursor + 4, end, indexed);
    lemma_word_back(s, cursor);
    song
}

/// A song that takes a part of the storage to its end is one song by itself.
proof fn lemma_record_is_a_song(s: Seq<u8>, start: int, end: int, indexed: int)
    requires
        0 <= start,
        end <= s.len(),
        end - start <= 16 * 1024 * 1024,
        0 <= indexed,
        layout::song_at(s, start, end, indexed) is Ok,
        layout::song_at(s, start, end, indexed)->Ok_0.end == end,
    ensures
        one_song(s.subrange(start, end)),
        the_song(s.subrange(start, end)).frames == layout::song_at(
            s,
            start,
            end,
            indexed,
        )->Ok_0.frames,
{
    reveal(one_song);
    reveal(the_song);
    let body = s.subrange(start, end);
    laws::lemma_song_whole(s, start, end, indexed);
    laws::lemma_song_alone(s, start, end, indexed);
    lemma_header_in_place(s, start, body);
    lemma_numbers(body);
    assert(number(body, 8) == music::le32_at(body, 8));
}

proof fn lemma_word_back(s: Seq<u8>, at: int)
    requires
        0 <= at,
        at + 4 <= s.len(),
    ensures
        word(music::le32_at(s, at)) == s.subrange(at, at + 4),
{
    laws::lemma_digits(s[at] as int, s[at + 1] as int, s[at + 2] as int, s[at + 3] as int);
    assert(word(music::le32_at(s, at)) =~= s.subrange(at, at + 4));
}

/// Nothing else is accepted: storage that holds a playlist was put together from its songs as it
/// should be, each a song by itself, and its checksum is right. The songs are returned.
#[verifier::spinoff_prover]
#[verifier::rlimit(50)]
pub proof fn lemma_an_accepted_playlist_was_listed(s: Seq<u8>) -> (bodies: Seq<Seq<u8>>)
    requires
        layout::catalog_of(s) is Ok,
        number(s, 8) == 4,
    ensures
        playlist(s, bodies),
{
    lemma_numbers(s);
    assert(number(s, 8) == music::le32_at(s, 8));
    assert(number(s, 12) == music::le32_at(s, 12));
    assert(number(s, 28) == music::le32_at(s, 28));
    assert(number(s, 32) == music::le32_at(s, 32));
    let (count, used) = layout::playlist_header(s)->Ok_0;
    let bodies = lemma_songs_were_listed(s, 64, used, count as nat, 0);
    assert(listed(bodies).len() == used - 64);
    bodies
}

/// The error that some storage is refused with.
pub open spec fn refused_as(s: Seq<u8>, error: Error) -> bool {
    layout::catalog_of(s) == Err::<CatalogView, Error>(error)
}

/// Headers are refused for what is wrong with them first: their length, their mark or version,
/// for a playlist its number of songs, the audio format, for a song its number of frames, and
/// for a playlist where its songs end and their checksum.
pub proof fn lemma_bad_headers_are_refused_for_what_they_are(s: Seq<u8>)
    ensures
        s.len() < 64 ==> refused_as(s, Error::Truncated),
        s.len() >= 64 && !marked(s) ==> refused_as(s, Error::Header),
        marked(s) && !(1 <= number(s, 8) <= 4) ==> refused_as(s, Error::Header),
        marked(s) && 1 <= number(s, 8) <= 3 ==> {
            &&& !announces_stereo(s) ==> refused_as(s, Error::Format)
            &&& announces_stereo(s) && !(1 <= number(s, 12) <= 30_000) ==> refused_as(
                s,
                Error::FrameCount,
            )
        },
        marked(s) && number(s, 8) == 4 ==> {
            let used = number(s, 32);
            &&& !(1 <= number(s, 12) <= 32) ==> refused_as(s, Error::TrackCount)
            &&& 1 <= number(s, 12) <= 32 ==> {
                &&& !announces_stereo(s) ==> refused_as(s, Error::Format)
                &&& announces_stereo(s) ==> {
                    &&& used < 64 || used > 16 * 1024 * 1024 || used > s.len() ==> refused_as(
                        s,
                        Error::Truncated,
                    )
                    &&& 64 <= used <= 16 * 1024 * 1024 && used <= s.len() && checksum::crc32(
                        s.subrange(64, used),
                    ) != number(s, 28) ==> refused_as(s, Error::Checksum)
                }
            }
        },
{
    if s.len() >= 64 {
        lemma_numbers(s);
        assert(number(s, 8) == music::le32_at(s, 8));
        assert(number(s, 12) == music::le32_at(s, 12));
        assert(number(s, 28) == music::le32_at(s, 28));
        assert(number(s, 32) == music::le32_at(s, 32));
    }
}

/// A song that is whole but for its checksum is refused for it.
pub proof fn lemma_a_damaged_song_is_refused(
    s: Seq<u8>,
    version: int,
    title: Seq<u8>,
    artist: Seq<u8>,
    frames: Seq<(Seq<u8>, Seq<u8>)>,
)
    requires
        1 <= version <= 3,
        titled(version, title, artist),
        1 <= frames.len() <= 30_000,
        sound(version, frames),
        64 + song_body(version, title, artist, frames).len() <= 16 * 1024 * 1024,
        headed(s, version, frames.len() as int, song_body(version, title, artist, frames)),
        number(s, 28) != checksum::crc32(song_body(version, title, artist, frames)),
    ensures
        refused_as(s, Error::Checksum),
{
    let limit = layout::single_limit(s);
    let first = first_frame(version, title, artist);
    lemma_body_parts(s, version, title, artist, frames);
    lemma_lead_is_read(s, version, title, artist, frames.len() as int, limit);
    lemma_frames_are_read(s, first, limit, version, frames, 0);
    lemma_numbers(s);
    assert(number(s, 8) == music::le32_at(s, 8));
}

/// A song whose frames break off is refused: for the size of the packet, where the next one has
/// a size that Opus does not allow, and as cut off where storage ends inside the next frame. Up
/// to there its frames may be as many and as long as they like.
#[verifier::spinoff_prover]
#[verifier::rlimit(50)]
pub proof fn lemma_a_song_that_breaks_off_is_refused(
    s: Seq<u8>,
    version: int,
    title: Seq<u8>,
    artist: Seq<u8>,
    frames: Seq<(Seq<u8>, Seq<u8>)>,
    count: int,
)
    requires
        1 <= version <= 3,
        titled(version, title, artist),
        frames.len() < count <= 30_000,
        sound(version, frames),
        s.len() <= 16 * 1024 * 1024,
        headed(s, version, count, song_body(version, title, artist, frames)),
    ensures
        ({
            let at = 64int + song_body(version, title, artist, frames).len();
            let size = s[at] + 256 * s[at + 1];
            &&& at + 2 > s.len() ==> refused_as(s, Error::Truncated)
            &&& at + 2 <= s.len() && !(1 <= size <= 1275) ==> refused_as(s, Error::PacketSize)
            &&& at + 2 <= s.len() && 1 <= size <= 1275 && at + 2 + spectrum_size(version) + size
                > s.len() ==> refused_as(s, Error::Truncated)
        }),
{
    let limit = layout::single_limit(s);
    let first = first_frame(version, title, artist);
    let more = (count - frames.len()) as nat;
    lemma_body_parts(s, version, title, artist, frames);
    lemma_lead_is_read(s, version, title, artist, count, limit);
    lemma_frames_are_read(s, first, limit, version, frames, more);
    assert((frames.len() + more) as nat == count as nat);
    lemma_numbers(s);
    assert(number(s, 8) == music::le32_at(s, 8));
}

/// A song of version 3 whose tags do not do is refused for them: a title that is empty, too long,
/// not text or blank, and an artist that is too long or not text. Tags that storage has no room
/// for are cut off.
#[verifier::spinoff_prover]
#[verifier::rlimit(50)]
pub proof fn lemma_bad_tags_are_refused(s: Seq<u8>)
    requires
        marked(s),
        announces_stereo(s),
        number(s, 8) == 3,
        1 <= number(s, 12) <= 30_000,
        s.len() <= 16 * 1024 * 1024,
    ensures
        s.len() < 68 ==> refused_as(s, Error::Truncated),
        s.len() >= 68 ==> {
            let m = s[64] + 256 * s[65];
            let n = s[66] + 256 * s[67];
            let title = s.subrange(68, 68 + m);
            let artist = s.subrange(68 + m, 68 + m + n);
            &&& m == 0 || m > 256 || n > 256 ==> refused_as(s, Error::Metadata)
            &&& 1 <= m <= 256 && n <= 256 ==> {
                &&& 68 + m > s.len() ==> refused_as(s, Error::Truncated)
                &&& 68 + m <= s.len() && !readable(title) ==> refused_as(s, Error::Metadata)
                &&& 68 + m <= s.len() && readable(title) && 68 + m + n > s.len() ==> refused_as(
                    s,
                    Error::Truncated,
                )
                &&& 68 + m + n <= s.len() && (!readable(artist) || text::blank(
                    decode_utf8(title),
                )) ==> refused_as(s, Error::Metadata)
            }
        },
{
    lemma_numbers(s);
    assert(number(s, 8) == music::le32_at(s, 8));
    assert(number(s, 12) == music::le32_at(s, 12));
}

/// A playlist is refused for its first song that does not do: for the same reason as the song
/// would be by itself, and for the number of frames where only the songs before it leave no room
/// for its frames. A record that is too short or too long to be a song in the playlist, a song
/// that does not fill its record, and bytes behind the last song, count as cut off; a playlist
/// inside a playlist has the wrong version.
#[verifier::spinoff_prover]
#[verifier::rlimit(50)]
pub proof fn lemma_a_playlist_is_refused_for_its_first_bad_song(
    s: Seq<u8>,
    bodies: Seq<Seq<u8>>,
    used: int,
)
    requires
        forall|i: int| 0 <= i < bodies.len() ==> one_song(#[trigger] bodies[i]),
        all_frames(bodies) <= 180_000,
        64 + listed(bodies).len() <= used <= s.len(),
        used <= 16 * 1024 * 1024,
        marked(s),
        announces_stereo(s),
        number(s, 8) == 4,
        1 <= number(s, 12) <= 32,
        bodies.len() <= number(s, 12),
        number(s, 32) == used,
        number(s, 28) == checksum::crc32(s.subrange(64, used)),
        s.subrange(64, 64int + listed(bodies).len()) == listed(bodies),
    ensures
        ({
            let at = 64int + listed(bodies).len();
            let size = number(s, at);
            let body = s.subrange(at + 4, at + 4 + size);
            let all = bodies.len() == number(s, 12);
            &&& all && at < used ==> refused_as(s, Error::Truncated)
            &&& !all && (at + 4 > used || size < 64 || at + 4 + size > used) ==> refused_as(
                s,
                Error::Truncated,
            )
            &&& !all && at + 4 <= used && size >= 64 && at + 4 + size <= used && number(body, 8)
                == 4 ==> refused_as(s, Error::Header)
            &&& !all && at + 4 <= used && size >= 64 && at + 4 + size <= used && number(body, 8)
                != 4 ==> {
                &&& all_frames(bodies) + number(body, 12) <= 180_000 ==> match layout::catalog_of(
                    body,
                ) {
                    Err(error) => refused_as(s, error),
                    Ok(catalog) => catalog.used < size ==> refused_as(s, Error::Truncated),
                }
                &&& all_frames(bodies) + number(body, 12) > 180_000 && marked(body) && (1
                    <= number(body, 8) <= 3) && announces_stereo(body) ==> refused_as(
                    s,
                    Error::FrameCount,
                )
            }
        }),
{
    let at = 64int + listed(bodies).len();
    let count = number(s, 12);
    let indexed = all_frames(bodies);
    let more = (count - bodies.len()) as nat;
    lemma_numbers(s);
    assert(number(s, 8) == music::le32_at(s, 8));
    assert(count == music::le32_at(s, 12));
    assert(number(s, 28) == music::le32_at(s, 28));
    assert(number(s, 32) == music::le32_at(s, 32));
    lemma_songs_are_read(s, 64, used, bodies, 0, more);
    assert((bodies.len() + more) as nat == count as nat);
    let size = number(s, at);
    assert(size == music::le32_at(s, at));
    if more > 0 && at + 4 <= used && size >= 64 && at + 4 + size <= used {
        lemma_next_record(s, at, size, indexed);
    }
}

/// What becomes of a record that stands behind `indexed` frames.
proof fn lemma_next_record(s: Seq<u8>, at: int, size: int, indexed: int)
    requires
        0 <= at,
        64 <= size <= 16 * 1024 * 1024,
        at + 4 + size <= s.len(),
        0 <= indexed <= 180_000,
    ensures
        ({
            let body = s.subrange(at + 4, at + 4 + size);
            let song = layout::song_at(s, at + 4, at + 4 + size, indexed);
            &&& number(body, 8) == 4 ==> song == Err::<SongView, Error>(Error::Header)
            &&& number(body, 8) != 4 && indexed + number(body, 12) <= 180_000
                ==> match layout::catalog_of(body) {
                Err(error) => song == Err::<SongView, Error>(error),
                Ok(catalog) => song matches Ok(song) && song.end == at + 4 + catalog.used,
            }
            &&& indexed + number(body, 12) > 180_000 && marked(body) && (1 <= number(body, 8)
                <= 3) && announces_stereo(body) ==> song == Err::<SongView, Error>(
                Error::FrameCount,
            )
        }),
{
    let body = s.subrange(at + 4, at + 4 + size);
    lemma_numbers(body);
    assert(number(body, 8) == music::le32_at(body, 8));
    assert(number(body, 12) == music::le32_at(body, 12));
    lemma_header_in_place(s, at + 4, body);
    if number(body, 8) != 4 && indexed + number(body, 12) <= 180_000 {
        lemma_song_in_place(s, at + 4, body, indexed);
    }
}

/// A packet is refused where there is no such song, no such frame, or no room for it; and only
/// a song of the catalog is looked at.
pub proof fn lemma_packets_that_are_not_there_are_refused(
    s: Seq<u8>,
    song: int,
    index: int,
    room: int,
)
    requires
        layout::catalog_of(s) is Ok,
        0 <= song,
        0 <= index,
    ensures
        ({
            let catalog = layout::catalog_of(s)->Ok_0;
            let packet = layout::packet_at(catalog, s, song, index, room);
            &&& song >= catalog.songs.len() <==> packet == Err::<Seq<u8>, Error>(
                Error::TrackCount,
            )
            &&& song < catalog.songs.len() && index >= catalog.songs[song].frames
                <==> packet == Err::<Seq<u8>, Error>(Error::FrameCount)
            &&& packet matches Ok(bytes) ==> 1 <= bytes.len() <= 1275 && bytes.len() <= room
            &&& packet matches Err(error) ==> error == Error::TrackCount || error
                == Error::FrameCount || error == Error::PacketSize
        }),
{
    laws::lemma_catalog_limits(s);
    let catalog = layout::catalog_of(s)->Ok_0;
    if song < catalog.songs.len() && index < catalog.songs[song].frames {
        assert(laws::song_whole(s, catalog.songs[song]));
        let offset = catalog.songs[song].offsets[index];
        assert(0 <= offset);
    }
}

} // verus!
