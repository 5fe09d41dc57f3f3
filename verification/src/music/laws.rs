//! What holds of every music pack.
use crate::checksum;
use crate::music::catalog::{MAX_MUSIC_BYTES, MAX_TOTAL_FRAMES, MAX_TRACKS};
use crate::music::layout;
use crate::music::{self, Error, HEADER_BYTES, MAX_FRAMES, MAX_OPUS_BYTES};
use crate::protocol;
use vstd::prelude::*;

verus! {

/// Two byte sequences agree before `end`.
pub open spec fn agree(s: Seq<u8>, t: Seq<u8>, end: int) -> bool {
    &&& end <= s.len()
    &&& end <= t.len()
    &&& forall|i: int| 0 <= i < end ==> #[trigger] s[i] == t[i]
}

proof fn lemma_agree_parts(s: Seq<u8>, t: Seq<u8>, end: int)
    requires
        agree(s, t, end),
    ensures
        forall|i: int, j: int|
            0 <= i <= j <= end ==> #[trigger] s.subrange(i, j) == t.subrange(i, j),
        forall|i: int| 0 <= i <= end - 2 ==> #[trigger] music::le16_at(s, i) == music::le16_at(t, i),
        forall|i: int| 0 <= i <= end - 4 ==> #[trigger] music::le32_at(s, i) == music::le32_at(t, i),
{
    assert forall|i: int, j: int| 0 <= i <= j <= end implies #[trigger] s.subrange(i, j)
        == t.subrange(i, j) by {
        assert(s.subrange(i, j) =~= t.subrange(i, j));
    }
}

/// The frames of a song follow one another from `cursor` to the end, and each is a whole
/// frame.
pub(crate) proof fn lemma_frames_whole(s: Seq<u8>, cursor: int, limit: int, prefix: int, count: nat)
    requires
        0 <= cursor <= limit,
        prefix >= 2,
        layout::frames_at(s, cursor, limit, prefix, count) is Ok,
    ensures
        ({
            let (offsets, end) = layout::frames_at(s, cursor, limit, prefix, count)->Ok_0;
            &&& offsets.len() == count
            &&& cursor <= end <= limit
            &&& forall|k: int|
                0 <= k < count ==> {
                    let offset = #[trigger] offsets[k];
                    &&& cursor <= offset
                    &&& 1 <= music::le16_at(s, offset) <= MAX_OPUS_BYTES
                    &&& offset + prefix + music::le16_at(s, offset) <= end
                }
        }),
    decreases count,
{
    if count > 0 {
        let next = cursor + prefix + music::le16_at(s, cursor);
        lemma_frames_whole(s, next, limit, prefix, (count - 1) as nat);
        let (rest, end) = layout::frames_at(s, next, limit, prefix, (count - 1) as nat)->Ok_0;
        let offsets = seq![cursor] + rest;
        assert forall|k: int| 0 <= k < count implies {
            let offset = #[trigger] offsets[k];
            &&& cursor <= offset
            &&& 1 <= music::le16_at(s, offset) <= MAX_OPUS_BYTES
            &&& offset + prefix + music::le16_at(s, offset) <= end
        } by {
            if k > 0 {
                assert(offsets[k] == rest[k - 1]);
            }
        }
    }
}

/// Frames read the same from storage that agrees with the first one up to their end.
proof fn lemma_frames_agree(
    s: Seq<u8>,
    t: Seq<u8>,
    cursor: int,
    limit: int,
    other: int,
    prefix: int,
    count: nat,
)
    requires
        0 <= cursor <= limit,
        prefix >= 2,
        layout::frames_at(s, cursor, limit, prefix, count) is Ok,
        layout::frames_at(s, cursor, limit, prefix, count)->Ok_0.1 <= other,
        agree(s, t, layout::frames_at(s, cursor, limit, prefix, count)->Ok_0.1),
    ensures
        layout::frames_at(t, cursor, other, prefix, count) == layout::frames_at(
            s,
            cursor,
            limit,
            prefix,
            count,
        ),
    decreases count,
{
    if count > 0 {
        let next = cursor + prefix + music::le16_at(s, cursor);
        let end = layout::frames_at(s, cursor, limit, prefix, count)->Ok_0.1;
        lemma_frames_whole(s, next, limit, prefix, (count - 1) as nat);
        lemma_agree_parts(s, t, end);
        assert(music::le16_at(s, cursor) == music::le16_at(t, cursor));
        lemma_frames_agree(s, t, next, limit, other, prefix, (count - 1) as nat);
    }
}

pub(crate) proof fn lemma_lead_bounds(s: Seq<u8>, start: int, limit: int, indexed: int)
    requires
        0 <= start,
        layout::lead_at(s, start, limit, indexed) is Ok,
    ensures
        ({
            let lead = layout::lead_at(s, start, limit, indexed)->Ok_0;
            &&& start + HEADER_BYTES == lead.payload <= lead.cursor <= limit
            &&& lead.limit == limit
            &&& lead.prefix >= 2
            &&& 1 <= lead.frames <= MAX_FRAMES
            &&& indexed + lead.frames <= MAX_TOTAL_FRAMES
        }),
{
}

proof fn lemma_lead_agree(s: Seq<u8>, t: Seq<u8>, start: int, limit: int, other: int, indexed: int)
    requires
        0 <= start,
        layout::lead_at(s, start, limit, indexed) is Ok,
        layout::lead_at(s, start, limit, indexed)->Ok_0.cursor <= other,
        agree(s, t, layout::lead_at(s, start, limit, indexed)->Ok_0.cursor),
    ensures
        layout::lead_at(t, start, other, indexed) == Ok::<layout::LeadView, Error>(
            layout::LeadView {
                limit: other,
                ..layout::lead_at(s, start, limit, indexed)->Ok_0
            },
        ),
{
    let lead = layout::lead_at(s, start, limit, indexed)->Ok_0;
    lemma_agree_parts(s, t, lead.cursor);
    assert(s.subrange(start, start + 8) == t.subrange(start, start + 8));
    assert(music::le32_at(s, start + 8) == music::le32_at(t, start + 8));
    assert(music::le32_at(s, start + 12) == music::le32_at(t, start + 12));
    assert(music::le32_at(s, start + 16) == music::le32_at(t, start + 16));
    assert(music::le32_at(s, start + 20) == music::le32_at(t, start + 20));
    assert(music::le32_at(s, start + 24) == music::le32_at(t, start + 24));
    assert(music::le32_at(s, start + 28) == music::le32_at(t, start + 28));
    if music::le32_at(s, start + 8) == 3 {
        let cursor = start + HEADER_BYTES;
        assert(music::le16_at(s, cursor) == music::le16_at(t, cursor));
        assert(music::le16_at(s, cursor + 2) == music::le16_at(t, cursor + 2));
        let title = music::le16_at(s, cursor);
        let artist = music::le16_at(s, cursor + 2);
        assert(s.subrange(cursor + 4, cursor + 4 + title) == t.subrange(
            cursor + 4,
            cursor + 4 + title,
        ));
        assert(s.subrange(cursor + 4 + title, cursor + 4 + title + artist) == t.subrange(
            cursor + 4 + title,
            cursor + 4 + title + artist,
        ));
    }
}

/// A song is whole: its frames are, and its checksum holds.
pub(crate) proof fn lemma_song_whole(s: Seq<u8>, start: int, limit: int, indexed: int)
    requires
        0 <= start,
        layout::song_at(s, start, limit, indexed) is Ok,
    ensures
        song_whole(s, layout::song_at(s, start, limit, indexed)->Ok_0),
        start + HEADER_BYTES < layout::song_at(s, start, limit, indexed)->Ok_0.end <= limit,
        indexed + layout::song_at(s, start, limit, indexed)->Ok_0.frames <= MAX_TOTAL_FRAMES,
{
    lemma_lead_bounds(s, start, limit, indexed);
    let lead = layout::lead_at(s, start, limit, indexed)->Ok_0;
    lemma_frames_whole(s, lead.cursor, limit, lead.prefix, lead.frames as nat);
    let song = layout::song_at(s, start, limit, indexed)->Ok_0;
    assert(lead.cursor <= song.offsets[0]);
}

proof fn lemma_song_agree(s: Seq<u8>, t: Seq<u8>, start: int, limit: int, other: int, indexed: int)
    requires
        0 <= start,
        layout::song_at(s, start, limit, indexed) is Ok,
        layout::song_at(s, start, limit, indexed)->Ok_0.end <= other,
        agree(s, t, layout::song_at(s, start, limit, indexed)->Ok_0.end),
    ensures
        layout::song_at(t, start, other, indexed) == layout::song_at(s, start, limit, indexed),
{
    lemma_lead_bounds(s, start, limit, indexed);
    let lead = layout::lead_at(s, start, limit, indexed)->Ok_0;
    lemma_frames_whole(s, lead.cursor, limit, lead.prefix, lead.frames as nat);
    lemma_lead_agree(s, t, start, limit, other, indexed);
    lemma_frames_agree(s, t, lead.cursor, limit, other, lead.prefix, lead.frames as nat);
    let end = layout::song_at(s, start, limit, indexed)->Ok_0.end;
    lemma_agree_parts(s, t, end);
    assert(s.subrange(lead.payload, end) == t.subrange(lead.payload, end));
}

proof fn lemma_songs_agree(
    s: Seq<u8>,
    t: Seq<u8>,
    cursor: int,
    used: int,
    count: nat,
    indexed: int,
)
    requires
        0 <= cursor,
        agree(s, t, used),
        layout::songs_at(s, cursor, used, count, indexed) is Ok,
    ensures
        layout::songs_at(t, cursor, used, count, indexed) == layout::songs_at(
            s,
            cursor,
            used,
            count,
            indexed,
        ),
    decreases count,
{
    if count > 0 {
        lemma_agree_parts(s, t, used);
        assert(music::le32_at(s, cursor) == music::le32_at(t, cursor));
        let end = cursor + 4 + music::le32_at(s, cursor);
        let song = layout::song_at(s, cursor + 4, end, indexed)->Ok_0;
        lemma_song_agree(s, t, cursor + 4, end, end, indexed);
        lemma_songs_agree(s, t, end, used, (count - 1) as nat, indexed + song.frames);
    }
}

/// Every frame of a song is a whole frame of the storage, with a packet of a size that Opus
/// allows, and the song has between one frame and ten minutes of them.
pub open spec fn song_whole(s: Seq<u8>, song: layout::SongView) -> bool {
    &&& 1 <= song.frames <= MAX_FRAMES
    &&& song.offsets.len() == song.frames
    &&& song.prefix >= 2
    &&& forall|k: int|
        0 <= k < song.frames ==> {
            let offset = #[trigger] song.offsets[k];
            &&& 0 <= offset
            &&& 1 <= music::le16_at(s, offset) <= MAX_OPUS_BYTES
            &&& offset + song.prefix + music::le16_at(s, offset) <= song.end
        }
}

proof fn lemma_total_frames_concat(a: Seq<layout::SongView>, b: Seq<layout::SongView>)
    ensures
        layout::total_frames(a + b) == layout::total_frames(a) + layout::total_frames(b),
    decreases b.len(),
{
    if b.len() == 0 {
        assert(a + b =~= a);
    } else {
        assert((a + b).drop_last() =~= a + b.drop_last());
        lemma_total_frames_concat(a, b.drop_last());
    }
}

proof fn lemma_songs_whole(s: Seq<u8>, cursor: int, used: int, count: nat, indexed: int)
    requires
        0 <= cursor <= used,
        0 <= indexed <= MAX_TOTAL_FRAMES,
        layout::songs_at(s, cursor, used, count, indexed) is Ok,
    ensures
        ({
            let songs = layout::songs_at(s, cursor, used, count, indexed)->Ok_0;
            &&& songs.len() == count
            &&& indexed + layout::total_frames(songs) <= MAX_TOTAL_FRAMES
            &&& forall|i: int|
                0 <= i < songs.len() ==> song_whole(s, #[trigger] songs[i]) && songs[i].end <= used
        }),
    decreases count,
{
    if count > 0 {
        let end = cursor + 4 + music::le32_at(s, cursor);
        lemma_song_whole(s, cursor + 4, end, indexed);
        let song = layout::song_at(s, cursor + 4, end, indexed)->Ok_0;
        let next = indexed + song.frames;
        lemma_songs_whole(s, end, used, (count - 1) as nat, next);
        let rest = layout::songs_at(s, end, used, (count - 1) as nat, next)->Ok_0;
        lemma_total_frames_concat(seq![song], rest);
        assert(seq![song].drop_last() =~= Seq::empty());
        assert(layout::total_frames(seq![song]) == song.frames) by {
            reveal_with_fuel(layout::total_frames, 2);
        }
        let songs = seq![song] + rest;
        assert forall|i: int| 0 <= i < songs.len() implies song_whole(s, #[trigger] songs[i])
            && songs[i].end <= used by {
            if i > 0 {
                assert(songs[i] == rest[i - 1]);
            }
        }
    }
}

/// A catalog holds between one and 32 songs of at most ten minutes each and at most an hour
/// together, in at most 16 MiB of the storage; every frame that it indexes lies wholly inside
/// the bytes that it uses.
pub proof fn lemma_catalog_limits(s: Seq<u8>)
    requires
        layout::catalog_of(s) is Ok,
    ensures
        ({
            let catalog = layout::catalog_of(s)->Ok_0;
            &&& 1 <= catalog.songs.len() <= MAX_TRACKS
            &&& layout::total_frames(catalog.songs) <= MAX_TOTAL_FRAMES
            &&& HEADER_BYTES < catalog.used <= MAX_MUSIC_BYTES
            &&& catalog.used <= s.len()
            &&& forall|i: int|
                0 <= i < catalog.songs.len() ==> {
                    &&& song_whole(s, #[trigger] catalog.songs[i])
                    &&& catalog.songs[i].end <= catalog.used
                }
        }),
{
    if music::le32_at(s, 8) != 4 {
        lemma_song_whole(s, 0, layout::single_limit(s), 0);
        let song = layout::song_at(s, 0, layout::single_limit(s), 0)->Ok_0;
        assert(seq![song].drop_last() =~= Seq::empty());
        assert(layout::total_frames(seq![song]) == song.frames) by {
            reveal_with_fuel(layout::total_frames, 2);
        }
    } else {
        let (count, used) = layout::playlist_header(s)->Ok_0;
        lemma_songs_whole(s, HEADER_BYTES as int, used, count as nat, 0);
    }
}

/// What a catalog holds depends on nothing but the bytes that it uses: whatever follows them,
/// such as the erased rest of a partition, is ignored.
pub proof fn lemma_tail_is_ignored(s: Seq<u8>, t: Seq<u8>)
    requires
        layout::catalog_of(s) is Ok,
        agree(s, t, layout::catalog_of(s)->Ok_0.used),
    ensures
        layout::catalog_of(t) == layout::catalog_of(s),
{
    lemma_catalog_limits(s);
    let catalog = layout::catalog_of(s)->Ok_0;
    lemma_agree_parts(s, t, catalog.used);
    assert(s.subrange(0, 8) == t.subrange(0, 8));
    assert(music::le32_at(s, 8) == music::le32_at(t, 8));
    if music::le32_at(s, 8) != 4 {
        lemma_song_agree(s, t, 0, layout::single_limit(s), layout::single_limit(t), 0);
    } else {
        assert(music::le32_at(s, 12) == music::le32_at(t, 12));
        assert(music::le32_at(s, 16) == music::le32_at(t, 16));
        assert(music::le32_at(s, 20) == music::le32_at(t, 20));
        assert(music::le32_at(s, 24) == music::le32_at(t, 24));
        assert(music::le32_at(s, 28) == music::le32_at(t, 28));
        assert(music::le32_at(s, 32) == music::le32_at(t, 32));
        let (count, used) = layout::playlist_header(s)->Ok_0;
        assert(s.subrange(HEADER_BYTES as int, used) == t.subrange(HEADER_BYTES as int, used));
        lemma_songs_agree(s, t, HEADER_BYTES as int, used, count as nat, 0);
    }
}

/// Frames that are cut off before their end are missed as such.
proof fn lemma_frames_cut(
    s: Seq<u8>,
    t: Seq<u8>,
    cursor: int,
    limit: int,
    other: int,
    prefix: int,
    count: nat,
)
    requires
        0 <= cursor <= other < limit,
        prefix >= 2,
        layout::frames_at(s, cursor, limit, prefix, count) is Ok,
        layout::frames_at(s, cursor, limit, prefix, count)->Ok_0.1 > other,
        agree(s, t, other),
    ensures
        layout::frames_at(t, cursor, other, prefix, count) == Err::<(Seq<int>, int), Error>(
            Error::Truncated,
        ),
    decreases count,
{
    if count > 0 && cursor + 2 <= other {
        lemma_agree_parts(s, t, other);
        assert(music::le16_at(s, cursor) == music::le16_at(t, cursor));
        let next = cursor + prefix + music::le16_at(s, cursor);
        if next <= other {
            lemma_frames_cut(s, t, next, limit, other, prefix, (count - 1) as nat);
        }
    }
}

/// A song that is cut off before its end is missed as such.
proof fn lemma_song_cut(s: Seq<u8>, t: Seq<u8>, limit: int, other: int)
    requires
        HEADER_BYTES <= other < limit,
        layout::song_at(s, 0, limit, 0) is Ok,
        layout::song_at(s, 0, limit, 0)->Ok_0.end > other,
        agree(s, t, other),
    ensures
        layout::song_at(t, 0, other, 0) == Err::<layout::SongView, Error>(Error::Truncated),
{
    lemma_lead_bounds(s, 0, limit, 0);
    lemma_agree_parts(s, t, other);
    let lead = layout::lead_at(s, 0, limit, 0)->Ok_0;
    if lead.cursor <= other {
        lemma_lead_agree(s, t, 0, limit, other, 0);
        lemma_frames_cut(s, t, lead.cursor, limit, other, lead.prefix, lead.frames as nat);
    } else {
        assert(s.subrange(0, 8) == t.subrange(0, 8));
        assert(music::le32_at(s, 8) == music::le32_at(t, 8));
        assert(music::le32_at(s, 12) == music::le32_at(t, 12));
        assert(music::le32_at(s, 16) == music::le32_at(t, 16));
        assert(music::le32_at(s, 20) == music::le32_at(t, 20));
        assert(music::le32_at(s, 24) == music::le32_at(t, 24));
        assert(music::le32_at(s, 28) == music::le32_at(t, 28));
        let cursor = HEADER_BYTES as int;
        if cursor + 4 <= other {
            assert(music::le16_at(s, cursor) == music::le16_at(t, cursor));
            assert(music::le16_at(s, cursor + 2) == music::le16_at(t, cursor + 2));
            let title = music::le16_at(s, cursor);
            if cursor + 4 + title <= other {
                assert(s.subrange(cursor + 4, cursor + 4 + title) == t.subrange(
                    cursor + 4,
                    cursor + 4 + title,
                ));
            }
        }
    }
}

/// Storage that ends before the last byte that its catalog uses is refused as cut off: no cut
/// goes unnoticed, or is taken for other damage.
pub proof fn lemma_truncation_is_rejected(s: Seq<u8>, length: int)
    requires
        layout::catalog_of(s) is Ok,
        0 <= length < layout::catalog_of(s)->Ok_0.used,
    ensures
        layout::catalog_of(s.take(length)) == Err::<layout::CatalogView, Error>(Error::Truncated),
{
    lemma_catalog_limits(s);
    let cut = s.take(length);
    if length >= HEADER_BYTES {
        lemma_agree_parts(s, cut, length);
        assert(s.subrange(0, 8) == cut.subrange(0, 8));
        assert(music::le32_at(s, 8) == music::le32_at(cut, 8));
        if music::le32_at(s, 8) != 4 {
            lemma_song_cut(s, cut, layout::single_limit(s), length);
        } else {
            assert(music::le32_at(s, 12) == music::le32_at(cut, 12));
            assert(music::le32_at(s, 16) == music::le32_at(cut, 16));
            assert(music::le32_at(s, 20) == music::le32_at(cut, 20));
            assert(music::le32_at(s, 24) == music::le32_at(cut, 24));
            assert(music::le32_at(s, 32) == music::le32_at(cut, 32));
        }
    }
}

/// A song as it stands in storage that begins `by` bytes later.
pub open spec fn relocated(song: layout::SongView, by: int) -> layout::SongView {
    layout::SongView {
        offsets: song.offsets.map_values(|offset: int| offset - by),
        end: song.end - by,
        ..song
    }
}

/// Where the record of a song begins, with its length, in a row of records from `start` on.
pub open spec fn record_at(start: int, songs: Seq<layout::SongView>, i: int) -> int {
    if i == 0 {
        start
    } else {
        songs[i - 1].end
    }
}

/// The bytes of a song in a row of records, without their length.
pub open spec fn record_body(s: Seq<u8>, start: int, songs: Seq<layout::SongView>, i: int) -> Seq<
    u8,
> {
    s.subrange(record_at(start, songs, i) + 4, songs[i].end)
}

/// A row of records: for each song the length of its bytes, and the bytes.
pub open spec fn records(s: Seq<u8>, start: int, songs: Seq<layout::SongView>) -> Seq<u8>
    decreases songs.len(),
{
    if songs.len() == 0 {
        Seq::empty()
    } else {
        let body = record_body(s, start, songs, 0);
        protocol::le32_bytes(body.len() as int) + body + records(
            s,
            songs[0].end,
            songs.drop_first(),
        )
    }
}

/// The bytes of a song in a row of records are a catalog of their own, with that song alone.
pub open spec fn stands_alone(
    s: Seq<u8>,
    start: int,
    songs: Seq<layout::SongView>,
    i: int,
) -> bool {
    let body = record_body(s, start, songs, i);
    layout::catalog_of(body) == Ok::<layout::CatalogView, Error>(
        layout::CatalogView {
            songs: seq![relocated(songs[i], record_at(start, songs, i) + 4)],
            used: body.len() as int,
        },
    )
}

/// Frames read the same from a part of the storage that holds them.
proof fn lemma_frames_relocated(
    s: Seq<u8>,
    start: int,
    end: int,
    cursor: int,
    prefix: int,
    count: nat,
)
    requires
        0 <= start <= cursor <= end <= s.len(),
        prefix >= 2,
        layout::frames_at(s, cursor, end, prefix, count) is Ok,
    ensures
        ({
            let (offsets, stop) = layout::frames_at(s, cursor, end, prefix, count)->Ok_0;
            layout::frames_at(s.subrange(start, end), cursor - start, end - start, prefix, count)
                == Ok::<(Seq<int>, int), Error>(
                (offsets.map_values(|offset: int| offset - start), stop - start),
            )
        }),
    decreases count,
{
    let part = s.subrange(start, end);
    let (offsets, stop) = layout::frames_at(s, cursor, end, prefix, count)->Ok_0;
    let moved = offsets.map_values(|offset: int| offset - start);
    if count == 0 {
        assert(moved =~= Seq::empty());
    } else {
        assert(part[cursor - start] == s[cursor]);
        assert(part[cursor - start + 1] == s[cursor + 1]);
        let next = cursor + prefix + music::le16_at(s, cursor);
        lemma_frames_relocated(s, start, end, next, prefix, (count - 1) as nat);
        let rest = layout::frames_at(s, next, end, prefix, (count - 1) as nat)->Ok_0.0;
        assert(moved =~= seq![cursor - start] + rest.map_values(|offset: int| offset - start));
    }
}

/// A song that takes a part of the storage to its end reads the same from that part alone.
pub(crate) proof fn lemma_song_alone(s: Seq<u8>, start: int, end: int, indexed: int)
    requires
        0 <= start,
        end <= s.len(),
        end - start <= MAX_MUSIC_BYTES,
        0 <= indexed,
        layout::song_at(s, start, end, indexed) is Ok,
        layout::song_at(s, start, end, indexed)->Ok_0.end == end,
    ensures
        layout::catalog_of(s.subrange(start, end)) == Ok::<layout::CatalogView, Error>(
            layout::CatalogView {
                songs: seq![relocated(layout::song_at(s, start, end, indexed)->Ok_0, start)],
                used: end - start,
            },
        ),
{
    let part = s.subrange(start, end);
    lemma_lead_bounds(s, start, end, indexed);
    let lead = layout::lead_at(s, start, end, indexed)->Ok_0;
    assert forall|i: int, j: int| 0 <= i <= j <= end - start implies #[trigger] part.subrange(i, j)
        == s.subrange(start + i, start + j) by {
        assert(part.subrange(i, j) =~= s.subrange(start + i, start + j));
    }
    assert forall|i: int| 0 <= i <= end - start - 4 implies #[trigger] music::le32_at(part, i)
        == music::le32_at(s, start + i) by {
        assert(part[i] == s[start + i] && part[i + 1] == s[start + i + 1]);
        assert(part[i + 2] == s[start + i + 2] && part[i + 3] == s[start + i + 3]);
    }
    assert forall|i: int| 0 <= i <= end - start - 2 implies #[trigger] music::le16_at(part, i)
        == music::le16_at(s, start + i) by {
        assert(part[i] == s[start + i] && part[i + 1] == s[start + i + 1]);
    }
    assert(part.subrange(0, 8) == s.subrange(start, start + 8));
    assert(music::le32_at(part, 8) == music::le32_at(s, start + 8));
    assert(music::le32_at(part, 12) == music::le32_at(s, start + 12));
    assert(music::le32_at(part, 16) == music::le32_at(s, start + 16));
    assert(music::le32_at(part, 20) == music::le32_at(s, start + 20));
    assert(music::le32_at(part, 24) == music::le32_at(s, start + 24));
    assert(music::le32_at(part, 28) == music::le32_at(s, start + 28));
    if music::le32_at(s, start + 8) == 3 {
        let cursor = HEADER_BYTES as int;
        assert(music::le16_at(part, cursor) == music::le16_at(s, start + cursor));
        assert(music::le16_at(part, cursor + 2) == music::le16_at(s, start + (cursor + 2)));
        let title = music::le16_at(part, cursor);
        let artist = music::le16_at(part, cursor + 2);
        assert(part.subrange(cursor + 4, cursor + 4 + title) == s.subrange(
            start + (cursor + 4),
            start + (cursor + 4 + title),
        ));
        assert(part.subrange(cursor + 4 + title, cursor + 4 + title + artist) == s.subrange(
            start + (cursor + 4 + title),
            start + (cursor + 4 + title + artist),
        ));
    }
    assert(layout::lead_at(part, 0, end - start, 0) == Ok::<layout::LeadView, Error>(
        layout::LeadView {
            payload: lead.payload - start,
            cursor: lead.cursor - start,
            limit: end - start,
            ..lead
        },
    ));
    lemma_frames_relocated(s, start, end, lead.cursor, lead.prefix, lead.frames as nat);
    assert(part.subrange(lead.payload - start, end - start) == s.subrange(
        start + (lead.payload - start),
        start + (end - start),
    ));
}

/// The first song of a playlist stands alone.
proof fn lemma_first_stands_alone(s: Seq<u8>, cursor: int, end: int, indexed: int)
    requires
        0 <= cursor,
        end <= s.len(),
        end <= MAX_MUSIC_BYTES,
        0 <= indexed,
        layout::song_at(s, cursor + 4, end, indexed) is Ok,
        layout::song_at(s, cursor + 4, end, indexed)->Ok_0.end == end,
    ensures
        forall|songs: Seq<layout::SongView>|
            songs.len() > 0 && songs[0] == layout::song_at(s, cursor + 4, end, indexed)->Ok_0
                ==> #[trigger] stands_alone(s, cursor, songs, 0),
{
    lemma_song_whole(s, cursor + 4, end, indexed);
    lemma_song_alone(s, cursor + 4, end, indexed);
}

/// A song that stands alone in a row of records does so behind a further record.
proof fn lemma_later_stands_alone(
    s: Seq<u8>,
    cursor: int,
    song: layout::SongView,
    rest: Seq<layout::SongView>,
    i: int,
)
    requires
        0 <= i < rest.len(),
        stands_alone(s, song.end, rest, i),
    ensures
        stands_alone(s, cursor, seq![song] + rest, i + 1),
{
    let songs = seq![song] + rest;
    assert(songs[i + 1] == rest[i]);
    assert(record_at(cursor, songs, i + 1) == record_at(song.end, rest, i)) by {
        if i > 0 {
            assert(songs[i] == rest[i - 1]);
        }
    }
}

/// The songs of a playlist stand alone.
proof fn lemma_songs_stand_alone(
    s: Seq<u8>,
    cursor: int,
    used: int,
    count: nat,
    indexed: int,
    i: int,
)
    requires
        0 <= cursor <= used <= s.len(),
        used <= MAX_MUSIC_BYTES,
        0 <= indexed,
        layout::songs_at(s, cursor, used, count, indexed) is Ok,
        0 <= i < layout::songs_at(s, cursor, used, count, indexed)->Ok_0.len(),
    ensures
        stands_alone(s, cursor, layout::songs_at(s, cursor, used, count, indexed)->Ok_0, i),
    decreases count,
{
    let end = cursor + 4 + music::le32_at(s, cursor);
    let song = layout::song_at(s, cursor + 4, end, indexed)->Ok_0;
    lemma_song_whole(s, cursor + 4, end, indexed);
    if i == 0 {
        lemma_first_stands_alone(s, cursor, end, indexed);
    } else {
        let next = indexed + song.frames;
        lemma_songs_stand_alone(s, end, used, (count - 1) as nat, next, i - 1);
        let rest = layout::songs_at(s, end, used, (count - 1) as nat, next)->Ok_0;
        lemma_later_stands_alone(s, cursor, song, rest, i - 1);
    }
}

/// The base-256 digits of a number that is made of four.
pub(crate) proof fn lemma_digits(a: int, b: int, c: int, d: int)
    requires
        0 <= a < 0x100,
        0 <= b < 0x100,
        0 <= c < 0x100,
        0 <= d < 0x100,
    ensures
        ({
            let value = a + 0x100 * b + 0x1_0000 * c + 0x100_0000 * d;
            &&& value % 0x100 == a
            &&& value / 0x100 % 0x100 == b
            &&& value / 0x1_0000 % 0x100 == c
            &&& value / 0x100_0000 % 0x100 == d
        }),
{
    let value = a + 0x100 * b + 0x1_0000 * c + 0x100_0000 * d;
    assert(value / 0x100 == b + 0x100 * c + 0x1_0000 * d);
    assert(value / 0x1_0000 == c + 0x100 * d);
    assert(value / 0x100_0000 == d);
}

/// The four bytes of a length in storage.
proof fn lemma_length_bytes(s: Seq<u8>, cursor: int)
    requires
        0 <= cursor,
        cursor + 4 <= s.len(),
    ensures
        protocol::le32_bytes(music::le32_at(s, cursor)) == s.subrange(cursor, cursor + 4),
{
    lemma_digits(
        s[cursor] as int,
        s[cursor + 1] as int,
        s[cursor + 2] as int,
        s[cursor + 3] as int,
    );
    assert(protocol::le32_bytes(music::le32_at(s, cursor)) =~= s.subrange(cursor, cursor + 4));
}

/// The songs of a playlist fill it without a gap.
proof fn lemma_records(s: Seq<u8>, cursor: int, used: int, count: nat, indexed: int)
    requires
        0 <= cursor <= used <= s.len(),
        0 <= indexed,
        layout::songs_at(s, cursor, used, count, indexed) is Ok,
    ensures
        s.subrange(cursor, used) == records(
            s,
            cursor,
            layout::songs_at(s, cursor, used, count, indexed)->Ok_0,
        ),
    decreases count,
{
    let songs = layout::songs_at(s, cursor, used, count, indexed)->Ok_0;
    if count == 0 {
        assert(s.subrange(cursor, used) =~= Seq::empty());
    } else {
        let end = cursor + 4 + music::le32_at(s, cursor);
        let song = layout::song_at(s, cursor + 4, end, indexed)->Ok_0;
        lemma_song_whole(s, cursor + 4, end, indexed);
        let next = indexed + song.frames;
        lemma_records(s, end, used, (count - 1) as nat, next);
        let rest = layout::songs_at(s, end, used, (count - 1) as nat, next)->Ok_0;
        assert(songs.drop_first() =~= rest);
        lemma_length_bytes(s, cursor);
        assert(s.subrange(cursor, used) =~= s.subrange(cursor, cursor + 4) + s.subrange(
            cursor + 4,
            end,
        ) + s.subrange(end, used));
    }
}

/// A playlist is nothing but its songs: its header gives their number and where they end, and
/// behind the header stand, without a gap, the length and the bytes of each song in order. The
/// bytes of each song alone are a catalog of that one song, and use its whole length.
pub proof fn lemma_playlist_is_its_records(s: Seq<u8>)
    requires
        layout::catalog_of(s) is Ok,
        music::le32_at(s, 8) == 4,
    ensures
        ({
            let catalog = layout::catalog_of(s)->Ok_0;
            &&& catalog.songs.len() == music::le32_at(s, 12)
            &&& catalog.used == music::le32_at(s, 32)
            &&& s.subrange(HEADER_BYTES as int, catalog.used) == records(
                s,
                HEADER_BYTES as int,
                catalog.songs,
            )
            &&& forall|i: int|
                0 <= i < catalog.songs.len() ==> #[trigger] stands_alone(
                    s,
                    HEADER_BYTES as int,
                    catalog.songs,
                    i,
                )
        }),
{
    lemma_catalog_limits(s);
    let (count, used) = layout::playlist_header(s)->Ok_0;
    lemma_songs_whole(s, HEADER_BYTES as int, used, count as nat, 0);
    lemma_records(s, HEADER_BYTES as int, used, count as nat, 0);
    let songs = layout::catalog_of(s)->Ok_0.songs;
    assert forall|i: int| 0 <= i < songs.len() implies #[trigger] stands_alone(
        s,
        HEADER_BYTES as int,
        songs,
        i,
    ) by {
        lemma_songs_stand_alone(s, HEADER_BYTES as int, used, count as nat, 0, i);
    }
}

/// Every frame of every song of a validated catalog can be read back from the unchanged
/// storage, into any buffer with room for it: its packet is exactly the bytes that the storage
/// holds behind the frame's prefix.
pub proof fn lemma_every_frame_reads_back(s: Seq<u8>, song: int, index: int, room: int)
    requires
        layout::catalog_of(s) is Ok,
        0 <= song < layout::catalog_of(s)->Ok_0.songs.len(),
        0 <= index < layout::catalog_of(s)->Ok_0.songs[song].frames,
        music::le16_at(s, layout::catalog_of(s)->Ok_0.songs[song].offsets[index]) <= room,
    ensures
        ({
            let catalog = layout::catalog_of(s)->Ok_0;
            let offset = catalog.songs[song].offsets[index];
            let start = offset + catalog.songs[song].prefix;
            let length = music::le16_at(s, offset);
            &&& 1 <= length <= MAX_OPUS_BYTES
            &&& layout::packet_at(catalog, s, song, index, room) == Ok::<Seq<u8>, Error>(
                s.subrange(start, start + length),
            )
        }),
{
    lemma_catalog_limits(s);
    let catalog = layout::catalog_of(s)->Ok_0;
    assert(song_whole(s, catalog.songs[song]));
    let offset = catalog.songs[song].offsets[index];
    assert(0 <= offset);
}

/// A buffer with room for the largest Opus packet has room for every frame: playback never
/// fails on a validated catalog and unchanged storage.
pub proof fn lemma_largest_buffer_suffices(s: Seq<u8>, song: int, index: int, room: int)
    requires
        layout::catalog_of(s) is Ok,
        0 <= song < layout::catalog_of(s)->Ok_0.songs.len(),
        0 <= index < layout::catalog_of(s)->Ok_0.songs[song].frames,
        room >= MAX_OPUS_BYTES,
    ensures
        layout::packet_at(layout::catalog_of(s)->Ok_0, s, song, index, room) is Ok,
{
    lemma_catalog_limits(s);
    let catalog = layout::catalog_of(s)->Ok_0;
    assert(song_whole(s, catalog.songs[song]));
    let offset = catalog.songs[song].offsets[index];
    lemma_every_frame_reads_back(s, song, index, room);
}

/// The songs of a playlist that can be read each ask memory for their frames.
proof fn lemma_songs_requests(s: Seq<u8>, cursor: int, used: int, count: nat, indexed: int)
    requires
        layout::songs_at(s, cursor, used, count, indexed) is Ok,
    ensures
        ({
            let songs = layout::songs_at(s, cursor, used, count, indexed)->Ok_0;
            layout::songs_requests(s, cursor, used, count, indexed) == songs.map_values(
                |song: layout::SongView| song.frames as nat,
            )
        }),
    decreases count,
{
    let songs = layout::songs_at(s, cursor, used, count, indexed)->Ok_0;
    let frames = songs.map_values(|song: layout::SongView| song.frames as nat);
    let requests = layout::songs_requests(s, cursor, used, count, indexed);
    if count > 0 {
        let end = cursor + 4 + music::le32_at(s, cursor);
        let song = layout::song_at(s, cursor + 4, end, indexed)->Ok_0;
        lemma_songs_requests(s, end, used, (count - 1) as nat, indexed + song.frames);
        let rest = layout::songs_at(s, end, used, (count - 1) as nat, indexed + song.frames)->Ok_0;
        assert(songs =~= seq![song] + rest);
        assert(frames =~= seq![song.frames as nat] + rest.map_values(
            |song: layout::SongView| song.frames as nat,
        ));
    }
    assert(requests =~= frames);
}

/// Reading a storage that holds a catalog asks memory once for each of its songs, in order, for
/// room for the frames of that song.
pub proof fn lemma_a_catalog_asks_for_its_frames(s: Seq<u8>)
    requires
        layout::catalog_of(s) is Ok,
    ensures
        layout::requests_of(s) == layout::catalog_of(s)->Ok_0.songs.map_values(
            |song: layout::SongView| song.frames as nat,
        ),
{
    let songs = layout::catalog_of(s)->Ok_0.songs;
    if music::le32_at(s, 8) != 4 {
        assert(layout::requests_of(s) =~= songs.map_values(
            |song: layout::SongView| song.frames as nat,
        ));
    } else {
        let (count, used) = layout::playlist_header(s)->Ok_0;
        lemma_songs_requests(s, HEADER_BYTES as int, used, count as nat, 0);
    }
}

/// The limits of the catalog: 32 songs of at most 30,000 frames, 180,000 frames together, 16 MiB,
/// packets of at most 1,275 bytes and tags of at most 256, in frames of 20 ms with 32 bands behind
/// headers of 64 bytes; validation reads at most 1,024 bytes at once.
pub proof fn lemma_limits_of_music()
    ensures
        MAX_TRACKS == 32,
        MAX_FRAMES == 30_000,
        MAX_TOTAL_FRAMES == 180_000,
        MAX_MUSIC_BYTES == 16_777_216,
        MAX_OPUS_BYTES == 1275,
        music::MAX_TAG_BYTES == 256,
        music::FRAME_MS == 20,
        music::BANDS == 32,
        HEADER_BYTES == 64,
        music::catalog::PIECE_BYTES == 1024,
{
}

/// Whoever hands failures on returns the first one, and at once: any read that failed since is the
/// only one, its error is the result, and it is one that the storage can fail with.
pub proof fn lemma_a_failed_read_is_the_result<T>(
    before: Seq<Error>,
    after: Seq<Error>,
    faults: Set<Error>,
    result: Result<T, Error>,
)
    requires
        music::catalog::hands_on(before, after, faults, result),
        after != before,
    ensures
        after.len() == before.len() + 1,
        after.take(before.len() as int) == before,
        result == Err::<T, Error>(after.last()),
        faults.contains(after.last()),
{
    let error = result->Err_0;
    assert(after == before.push(error));
    assert(after.take(before.len() as int) =~= before);
}

/// Modest reads are no longer than allowed and end before the end, all but those that were asked
/// for earlier.
pub proof fn lemma_modest_reads_stay_inside(
    before: Set<(int, int)>,
    after: Set<(int, int)>,
    end: int,
    most: int,
    read: (int, int),
)
    requires
        music::catalog::modest(before, after, end, most),
        after.contains(read),
        !before.contains(read),
    ensures
        0 <= read.0,
        0 <= read.1 <= most,
        read.0 + read.1 <= end,
{
}

/// Where memory refuses, it refuses the last request alone; where it grants what was asked for,
/// it grants every request in turn.
pub proof fn lemma_a_refusal_is_the_last_request(
    before: Seq<(nat, bool)>,
    after: Seq<(nat, bool)>,
    sizes: Seq<nat>,
)
    ensures
        music::memory::granted(sizes).len() == sizes.len(),
        forall|i: int|
            0 <= i < sizes.len() ==> #[trigger] music::memory::granted(sizes)[i] == (
                sizes[i],
                true,
            ),
        music::memory::refused_in(before, after, sizes) ==> {
            let made = after.len() - before.len() - 1;
            &&& 0 <= made < sizes.len()
            &&& after.last() == (sizes[made], false)
            &&& forall|i: int|
                0 <= i < made ==> #[trigger] after[before.len() + i] == (sizes[i], true)
        },
        music::memory::granted_up_to(before, after, sizes) ==> {
            let made = after.len() - before.len();
            &&& 0 <= made <= sizes.len()
            &&& forall|i: int|
                0 <= i < made ==> #[trigger] after[before.len() + i] == (sizes[i], true)
        },
{
    if music::memory::refused_in(before, after, sizes) {
        let made = choose|made: int|
            0 <= made < sizes.len() && after == (before + music::memory::granted(
                #[trigger] sizes.take(made),
            )).push((sizes[made], false));
        assert(music::memory::granted(sizes.take(made)).len() == made);
        assert forall|i: int| 0 <= i < made implies #[trigger] after[before.len() + i] == (
            sizes[i],
            true,
        ) by {
            assert(after[before.len() + i] == music::memory::granted(sizes.take(made))[i]);
        }
    }
    if music::memory::granted_up_to(before, after, sizes) {
        let made = choose|made: int|
            0 <= made <= sizes.len() && after == before + music::memory::granted(
                #[trigger] sizes.take(made),
            );
        assert(music::memory::granted(sizes.take(made)).len() == made);
        assert forall|i: int| 0 <= i < made implies #[trigger] after[before.len() + i] == (
            sizes[i],
            true,
        ) by {
            assert(after[before.len() + i] == music::memory::granted(sizes.take(made))[i]);
        }
    }
}

/// The requests for the songs of a playlist stay within the index.
proof fn lemma_songs_requests_fit(
    s: Seq<u8>,
    cursor: int,
    used: int,
    count: nat,
    indexed: int,
    i: int,
)
    requires
        0 <= cursor,
        0 <= indexed,
        0 <= i < layout::songs_requests(s, cursor, used, count, indexed).len(),
    ensures
        layout::songs_requests(s, cursor, used, count, indexed).len() <= count,
        1 <= layout::songs_requests(s, cursor, used, count, indexed)[i] <= 30_000,
    decreases count,
{
    let requests = layout::songs_requests(s, cursor, used, count, indexed);
    let end = cursor + 4 + music::le32_at(s, cursor);
    let song = layout::song_at(s, cursor + 4, end, indexed);
    let first = layout::song_requests(s, cursor + 4, end, indexed);
    if song is Ok && song->Ok_0.end == end {
        lemma_song_whole(s, cursor + 4, end, indexed);
        let rest = layout::songs_requests(
            s,
            end,
            used,
            (count - 1) as nat,
            indexed + song->Ok_0.frames,
        );
        assert(requests == first + rest);
        if rest.len() > 0 {
            lemma_songs_requests_fit(
                s,
                end,
                used,
                (count - 1) as nat,
                indexed + song->Ok_0.frames,
                if i > 0 {
                    i - 1
                } else {
                    0
                },
            );
        }
    }
}

/// Whatever storage holds, memory is asked for at most 32 songs, each of at most 30,000 frames,
/// and never before the header has been accepted.
pub proof fn lemma_requests_are_bounded(s: Seq<u8>, i: int)
    requires
        0 <= i < layout::requests_of(s).len(),
    ensures
        layout::requests_of(s).len() <= 32,
        1 <= layout::requests_of(s)[i] <= 30_000,
        s.len() >= 64,
        layout::has_magic(s, 0),
        layout::supported(s, 0),
        1 <= music::le32_at(s, 8) <= 4,
{
    if music::le32_at(s, 8) == 4 {
        let (count, used) = layout::playlist_header(s)->Ok_0;
        lemma_songs_requests_fit(s, HEADER_BYTES as int, used, count as nat, 0, i);
    }
}

/// Reads for a song end with the song; for a song that is not there none is made.
pub proof fn lemma_a_song_ends_with_its_last_frame(s: Seq<u8>, song: int)
    requires
        layout::catalog_of(s) is Ok,
    ensures
        ({
            let catalog = layout::catalog_of(s)->Ok_0;
            &&& 0 <= song < catalog.songs.len() ==> {
                &&& layout::song_end(catalog, song) == catalog.songs[song].end
                &&& layout::song_end(catalog, song) <= catalog.used
            }
            &&& !(0 <= song < catalog.songs.len()) ==> layout::song_end(catalog, song) == 0
        }),
{
    lemma_catalog_limits(s);
}

} // verus!
