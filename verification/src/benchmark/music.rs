//! Checked reader for packs of version 1.
use crate::checksum;
use crate::music::{
    self, layout, le16, le32, Allocator, FrameCount, Reserve, BANDS, FRAME_MS, HEADER_BYTES,
    MAX_FRAMES, MAX_OPUS_BYTES,
};
use vstd::prelude::*;
use vstd::slice::*;

verus! {

#[derive(Debug, Clone, Copy, PartialEq, Eq, Structural)]
pub enum Error {
    Header,
    Format,
    FrameCount,
    Truncated,
    PacketSize,
    Checksum,
    Memory,
}

/// The diagnostic text of each error.
pub open spec fn error_text(error: Error) -> Seq<char> {
    match error {
        Error::Header => "invalid music pack header"@,
        Error::Format => "music must be stereo 48 kHz Opus with 20 ms frames"@,
        Error::FrameCount => "music frame count is outside the supported range"@,
        Error::Truncated => "music pack ends inside a frame"@,
        Error::PacketSize => "invalid Opus packet size"@,
        Error::Checksum => "music pack checksum mismatch"@,
        Error::Memory => "cannot allocate music frame index"@,
    }
}

impl Error {
    pub fn message(self) -> (text: &'static str)
        ensures
            text@ == error_text(self),
    {
        match self {
            Error::Header => "invalid music pack header",
            Error::Format => "music must be stereo 48 kHz Opus with 20 ms frames",
            Error::FrameCount => "music frame count is outside the supported range",
            Error::Truncated => "music pack ends inside a frame",
            Error::PacketSize => "invalid Opus packet size",
            Error::Checksum => "music pack checksum mismatch",
            Error::Memory => "cannot allocate music frame index",
        }
    }
}

/// The bytes of a record before its packet: a length and a spectrum.
pub const RECORD_PREFIX: usize = 34;

/// The number of frames that a header announces.
pub open spec fn header_of(s: Seq<u8>) -> Result<int, Error> {
    if s.len() < HEADER_BYTES || !layout::has_magic(s, 0) || music::le32_at(s, 8) != 1 {
        Err(Error::Header)
    } else if !layout::supported(s, 0) {
        Err(Error::Format)
    } else if !(1 <= music::le32_at(s, 12) <= MAX_FRAMES) {
        Err(Error::FrameCount)
    } else {
        Ok(music::le32_at(s, 12))
    }
}

/// Where each of `count` records starts, and where the last ends.
pub open spec fn records_at(s: Seq<u8>, cursor: int, count: nat) -> Result<(Seq<int>, int), Error>
    decreases count,
{
    if count == 0 {
        Ok((Seq::empty(), cursor))
    } else if cursor + RECORD_PREFIX > s.len() {
        Err(Error::Truncated)
    } else {
        let size = music::le16_at(s, cursor);
        let end = cursor + RECORD_PREFIX + size;
        if !(1 <= size <= MAX_OPUS_BYTES) {
            Err(Error::PacketSize)
        } else if end > s.len() {
            Err(Error::Truncated)
        } else {
            match records_at(s, end, (count - 1) as nat) {
                Err(error) => Err(error),
                Ok((offsets, last)) => Ok((seq![cursor] + offsets, last)),
            }
        }
    }
}

/// A pack: its bytes up to the end of its last record, and where each record starts.
#[verifier::ext_equal]
pub struct PackView {
    pub bytes: Seq<u8>,
    pub offsets: Seq<int>,
}

/// The records that follow a header, under its checksum.
pub open spec fn body_of(s: Seq<u8>, frames: int) -> Result<PackView, Error> {
    match records_at(s, HEADER_BYTES as int, frames as nat) {
        Err(error) => Err(error),
        Ok((offsets, end)) => if checksum::crc32(s.subrange(HEADER_BYTES as int, end))
            != music::le32_at(s, 28) {
            Err(Error::Checksum)
        } else {
            Ok(PackView { bytes: s.take(end), offsets })
        },
    }
}

/// The pack that some bytes hold.
pub open spec fn pack_of(s: Seq<u8>) -> Result<PackView, Error> {
    match header_of(s) {
        Err(error) => Err(error),
        Ok(frames) => body_of(s, frames),
    }
}

/// A validated pack borrowing immutable storage, including any erased flash tail.
#[derive(Debug)]
pub struct Pack<'a> {
    bytes: &'a [u8],
    offsets: Vec<usize>,
    frames: FrameCount,
}

/// One packet with the spectrum that belongs to it.
#[derive(Debug, Clone, Copy)]
pub struct Frame<'a> {
    pub opus: &'a [u8],
    pub bands: &'a [u8],
}

impl<'a> View for Pack<'a> {
    type V = PackView;

    closed spec fn view(&self) -> PackView {
        PackView {
            bytes: self.bytes@,
            offsets: self.offsets@.map_values(|offset: usize| offset as int),
        }
    }
}

/// Every record lies inside the bytes.
pub open spec fn records_inside(s: Seq<u8>, offsets: Seq<int>) -> bool {
    forall|i: int| 0 <= i < offsets.len() ==> record_inside(s, #[trigger] offsets[i])
}

/// A record lies inside the bytes.
pub open spec fn record_inside(s: Seq<u8>, offset: int) -> bool {
    &&& 0 <= offset
    &&& offset + RECORD_PREFIX <= s.len()
    &&& 1 <= music::le16_at(s, offset) <= MAX_OPUS_BYTES
    &&& offset + RECORD_PREFIX + music::le16_at(s, offset) <= s.len()
}

impl<'a> Pack<'a> {
    #[verifier::type_invariant]
    spec fn whole(self) -> bool {
        &&& self.frames@ == self.offsets@.len()
        &&& 1 <= self.frames@ <= MAX_FRAMES
        &&& records_inside(self@.bytes, self@.offsets)
    }

    /// Reads the header of a pack.
    pub fn header(bytes: &[u8]) -> (result: Result<FrameCount, Error>)
        ensures
            match result {
                Ok(frames) => header_of(bytes@) == Ok::<int, Error>(frames@ as int),
                Err(error) => header_of(bytes@) == Err::<int, Error>(error),
            },
    {
        if bytes.len() < HEADER_BYTES {
            return Err(Error::Header);
        }
        let magic = bytes[0] == 0x53 && bytes[1] == 0x33 && bytes[2] == 0x4d && bytes[3] == 0x55
            && bytes[4] == 0x53 && bytes[5] == 0x49 && bytes[6] == 0x43 && bytes[7] == 0;
        proof {
            let start = bytes@.subrange(0, 8);
            assert(forall|i: int| 0 <= i < 8 ==> start[i] == bytes@[i]);
            if magic {
                assert(start =~= layout::magic());
            }
        }
        if !magic || le32(bytes, 8) != 1 {
            return Err(Error::Header);
        }
        if le32(bytes, 16) != 48_000 || le32(bytes, 20) != 2 || le32(bytes, 24) != FRAME_MS {
            return Err(Error::Format);
        }
        let count: u32 = le32(bytes, 12);
        if count > MAX_FRAMES {
            return Err(Error::FrameCount);
        }
        match FrameCount::new(count) {
            Some(frames) => Ok(frames),
            None => Err(Error::FrameCount),
        }
    }

    /// Indexes the records behind a header in `offsets`, where `reserved` says whether there is
    /// memory for them.
    fn index(
        bytes: &'a [u8],
        frames: FrameCount,
        offsets: Vec<usize>,
        reserved: bool,
    ) -> (result: Result<Pack<'a>, Error>)
        requires
            header_of(bytes@) == Ok::<int, Error>(frames@ as int),
            offsets@.len() == 0,
        ensures
            !reserved ==> result == Err::<Pack<'a>, Error>(Error::Memory),
            reserved ==> match result {
                Ok(pack) => body_of(bytes@, frames@ as int) == Ok::<PackView, Error>(pack@),
                Err(error) => body_of(bytes@, frames@ as int) == Err::<PackView, Error>(error),
            },
    {
        if !reserved {
            return Err(Error::Memory);
        }
        let ghost s = bytes@;
        let count: u32 = frames.get();
        let mut offsets: Vec<usize> = offsets;
        let ghost mut done: Seq<int> = Seq::empty();
        let ghost total = records_at(s, HEADER_BYTES as int, count as nat);
        let mut cursor: usize = HEADER_BYTES;
        let mut i: u32 = 0;
        while i < count
            invariant
                s == bytes@,
                count == frames@,
                reserved,
                i <= count <= MAX_FRAMES,
                HEADER_BYTES <= cursor <= s.len(),
                offsets@.len() == i,
                done == offsets@.map_values(|offset: usize| offset as int),
                forall|k: int| 0 <= k < i ==> #[trigger] done[k] + RECORD_PREFIX + music::le16_at(
                    s,
                    done[k],
                ) <= cursor && done[k] >= HEADER_BYTES && 1 <= music::le16_at(s, done[k])
                    <= MAX_OPUS_BYTES,
                total == records_at(s, HEADER_BYTES as int, count as nat),
                total == match records_at(s, cursor as int, (count - i) as nat) {
                    Err(error) => Err::<(Seq<int>, int), Error>(error),
                    Ok((rest, end)) => Ok::<(Seq<int>, int), Error>((done + rest, end)),
                },
            decreases count - i,
        {
            if bytes.len() - cursor < RECORD_PREFIX {
                return Err(Error::Truncated);
            }
            let size: usize = le16(bytes, cursor) as usize;
            if size < 1 || size > MAX_OPUS_BYTES {
                return Err(Error::PacketSize);
            }
            if bytes.len() - cursor - RECORD_PREFIX < size {
                return Err(Error::Truncated);
            }
            let ghost earlier = done;
            offsets.push(cursor);
            proof {
                done = done.push(cursor as int);
                assert(done =~= offsets@.map_values(|offset: usize| offset as int));
                let rest = records_at(
                    s,
                    cursor + RECORD_PREFIX + size,
                    (count - i - 1) as nat,
                );
                if rest is Ok {
                    assert(earlier + (seq![cursor as int] + rest->Ok_0.0) =~= done + rest->Ok_0.0);
                }
            }
            cursor = cursor + RECORD_PREFIX + size;
            i = i + 1;
        }
        proof {
            assert(done + Seq::<int>::empty() =~= done);
        }
        let body = slice_subrange(bytes, HEADER_BYTES, cursor);
        if crc32fast::hash(body) != le32(bytes, 28) {
            return Err(Error::Checksum);
        }
        let kept = slice_subrange(bytes, 0, cursor);
        proof {
            assert(kept@ =~= s.take(cursor as int));
            assert forall|k: int| 0 <= k < done.len() implies record_inside(
                kept@,
                #[trigger] done[k],
            ) by {
                assert(kept@[done[k]] == s[done[k]] && kept@[done[k] + 1] == s[done[k] + 1]);
            }
        }
        Ok(Pack { bytes: kept, offsets, frames })
    }

    /// Checks every record boundary and the CRC before exposing any frame. The index is in the
    /// global allocator's memory. Whether the allocator refuses is left open;
    /// [`Self::parse_with`] says what follows from its answer.
    pub fn parse(bytes: &'a [u8]) -> (result: Result<Pack<'a>, Error>)
        ensures
            match result {
                Ok(pack) => pack_of(bytes@) == Ok::<PackView, Error>(pack@),
                Err(error) => {
                    ||| pack_of(bytes@) == Err::<PackView, Error>(error)
                    ||| error == Error::Memory && header_of(bytes@) is Ok
                },
            },
    {
        let mut memory = Allocator::new();
        Self::parse_with(bytes, &mut memory)
    }

    /// Checks every record boundary and the CRC before exposing any frame. Behind a good header,
    /// memory is asked once, for an entry for each frame; without it there is no pack.
    pub fn parse_with(bytes: &'a [u8], memory: &mut impl Reserve) -> (result: Result<
        Pack<'a>,
        Error,
    >)
        ensures
            final(memory).may_refuse() == old(memory).may_refuse(),
            ({
                let before = old(memory).requests();
                let after = final(memory).requests();
                let exact = match result {
                    Ok(pack) => pack_of(bytes@) == Ok::<PackView, Error>(pack@),
                    Err(error) => pack_of(bytes@) == Err::<PackView, Error>(error),
                };
                match header_of(bytes@) {
                    Err(_) => exact && after == before,
                    Ok(frames) => {
                        ||| exact && after == before.push((frames as nat, true))
                        ||| {
                            &&& result == Err::<Pack<'a>, Error>(Error::Memory)
                            &&& after == before.push((frames as nat, false))
                            &&& old(memory).may_refuse()
                        }
                    },
                }
            }),
    {
        let frames = match Self::header(bytes) {
            Err(error) => {
                return Err(error);
            },
            Ok(frames) => frames,
        };
        let mut offsets: Vec<usize> = Vec::new();
        let room = memory.reserve(&mut offsets, frames.get() as usize);
        Self::index(bytes, frames, offsets, room.is_some())
    }

    pub fn frame_count(&self) -> (frames: FrameCount)
        ensures
            frames@ == self@.offsets.len(),
            1 <= frames@ <= MAX_FRAMES,
    {
        proof {
            use_type_invariant(self);
        }
        self.frames
    }

    pub fn frame(&self, index: u32) -> (frame: Option<Frame<'a>>)
        ensures
            frame is Some <==> index < self@.offsets.len(),
            frame matches Some(frame) ==> {
                let start = self@.offsets[index as int];
                let size = music::le16_at(self@.bytes, start);
                &&& frame.opus@ == self@.bytes.subrange(
                    start + RECORD_PREFIX,
                    start + RECORD_PREFIX + size,
                )
                &&& frame.bands@ == self@.bytes.subrange(start + 2, start + RECORD_PREFIX)
                &&& frame.bands@.len() == BANDS
                &&& 1 <= frame.opus@.len() <= MAX_OPUS_BYTES
            },
    {
        proof {
            use_type_invariant(self);
        }
        if index as usize >= self.offsets.len() {
            return None;
        }
        let start: usize = self.offsets[index as usize];
        proof {
            assert(self@.offsets[index as int] == start);
            assert(record_inside(self@.bytes, self@.offsets[index as int]));
            assert(self.bytes@.len() == self.bytes.len());
        }
        let size: usize = le16(self.bytes, start) as usize;
        Some(
            Frame {
                opus: slice_subrange(
                    self.bytes,
                    start + RECORD_PREFIX,
                    start + RECORD_PREFIX + size,
                ),
                bands: slice_subrange(self.bytes, start + 2, start + RECORD_PREFIX),
            },
        )
    }
}

/// A pack takes no notice of what follows its last record.
pub proof fn lemma_tail_is_ignored(s: Seq<u8>, tail: Seq<u8>)
    requires
        pack_of(s) is Ok,
    ensures
        pack_of(s + tail) == pack_of(s),
{
    let t = s + tail;
    assert(t.subrange(0, 8) =~= s.subrange(0, 8));
    let frames = music::le32_at(s, 12);
    lemma_records_agree(s, tail, HEADER_BYTES as int, frames as nat);
    let end = records_at(s, HEADER_BYTES as int, frames as nat)->Ok_0.1;
    assert(t.subrange(HEADER_BYTES as int, end) =~= s.subrange(HEADER_BYTES as int, end));
    assert(t.take(end) =~= s.take(end));
}

/// Records that lie inside some bytes stay where they are when more bytes follow.
proof fn lemma_records_agree(s: Seq<u8>, tail: Seq<u8>, cursor: int, count: nat)
    requires
        0 <= cursor <= s.len(),
        records_at(s, cursor, count) is Ok,
    ensures
        records_at(s + tail, cursor, count) == records_at(s, cursor, count),
        cursor <= records_at(s, cursor, count)->Ok_0.1 <= s.len(),
    decreases count,
{
    if count > 0 {
        let t = s + tail;
        assert(t[cursor] == s[cursor] && t[cursor + 1] == s[cursor + 1]);
        let end = cursor + RECORD_PREFIX + music::le16_at(s, cursor);
        lemma_records_agree(s, tail, end, (count - 1) as nat);
    }
}

/// Records that are cut off before their end are missed as such.
proof fn lemma_records_cut(s: Seq<u8>, length: int, cursor: int, count: nat)
    requires
        0 <= cursor <= length <= s.len(),
        records_at(s, cursor, count) is Ok,
        records_at(s, cursor, count)->Ok_0.1 > length,
    ensures
        records_at(s.take(length), cursor, count) == Err::<(Seq<int>, int), Error>(
            Error::Truncated,
        ),
    decreases count,
{
    let cut = s.take(length);
    if count > 0 && cursor + RECORD_PREFIX <= length {
        assert(cut[cursor] == s[cursor] && cut[cursor + 1] == s[cursor + 1]);
        let end = cursor + RECORD_PREFIX + music::le16_at(s, cursor);
        if end <= length {
            lemma_records_cut(s, length, end, (count - 1) as nat);
        }
    }
}

/// A pack that is cut short anywhere before the end of its last record is refused: for its
/// header where that is not whole, as cut off otherwise.
pub proof fn lemma_truncation_is_rejected(s: Seq<u8>, length: int)
    requires
        pack_of(s) is Ok,
        0 <= length < pack_of(s)->Ok_0.bytes.len(),
    ensures
        pack_of(s.take(length)) == Err::<PackView, Error>(
            if length < HEADER_BYTES {
                Error::Header
            } else {
                Error::Truncated
            },
        ),
{
    let frames = music::le32_at(s, 12);
    lemma_records_agree(s, Seq::empty(), HEADER_BYTES as int, frames as nat);
    if length >= HEADER_BYTES {
        let cut = s.take(length);
        assert(cut.subrange(0, 8) =~= s.subrange(0, 8));
        assert(forall|i: int| 0 <= i < HEADER_BYTES ==> #[trigger] cut[i] == s[i]);
        lemma_records_cut(s, length, HEADER_BYTES as int, frames as nat);
    }
}

/// Records are the frames of version 1.
proof fn lemma_records_are_frames(s: Seq<u8>, cursor: int, count: nat)
    requires
        0 <= cursor,
    ensures
        records_at(s, cursor, count) is Ok <==> layout::frames_at(
            s,
            cursor,
            s.len() as int,
            34,
            count,
        ) is Ok,
        records_at(s, cursor, count) matches Ok(found) ==> layout::frames_at(
            s,
            cursor,
            s.len() as int,
            34,
            count,
        ) == Ok::<(Seq<int>, int), music::Error>(found),
    decreases count,
{
    if count > 0 && cursor + 2 <= s.len() {
        lemma_records_are_frames(
            s,
            cursor + 34 + music::le16_at(s, cursor),
            (count - 1) as nat,
        );
    }
}

/// A pack of version 1 is a song of that version and the other way round: in storage of up to
/// 16 MiB both readers accept the same bytes, and find the same frames in the same places.
pub proof fn lemma_packs_are_songs_of_version_1(s: Seq<u8>)
    requires
        s.len() <= 16 * 1024 * 1024,
        music::packing::number(s, 8) == 1,
    ensures
        pack_of(s) is Ok <==> layout::catalog_of(s) is Ok,
        pack_of(s) matches Ok(pack) ==> {
            let catalog = layout::catalog_of(s)->Ok_0;
            &&& pack.offsets == catalog.songs[0].offsets
            &&& pack.bytes == s.take(catalog.used)
            &&& catalog.songs.len() == 1
            &&& catalog.songs[0].prefix == 34
        },
{
    if s.len() >= 64 {
        music::packing::lemma_numbers(s);
        assert(music::packing::number(s, 8) == music::le32_at(s, 8));
        lemma_records_are_frames(s, 64, music::le32_at(s, 12) as nat);
    }
}

/// Headers are refused for what is wrong with them first: their length, mark or version, the audio
/// format, or the number of frames.
pub proof fn lemma_bad_headers_are_refused_for_what_they_are(s: Seq<u8>)
    ensures
        ({
            let good = music::packing::marked(s) && music::packing::number(s, 8) == 1;
            let stereo = music::packing::announces_stereo(s);
            let frames = music::packing::number(s, 12);
            &&& !good <==> pack_of(s) == Err::<PackView, Error>(Error::Header)
            &&& good && !stereo <==> pack_of(s) == Err::<PackView, Error>(Error::Format)
            &&& good && stereo && !(1 <= frames <= 30_000) <==> pack_of(s) == Err::<
                PackView,
                Error,
            >(Error::FrameCount)
        }),
{
    if s.len() >= 64 {
        music::packing::lemma_numbers(s);
        assert(music::packing::number(s, 8) == music::le32_at(s, 8));
        assert(music::packing::number(s, 12) == music::le32_at(s, 12));
        lemma_bodies_are_refused_otherwise(s, HEADER_BYTES as int, music::le32_at(s, 12) as nat);
    }
}

/// Records are refused for the size of a packet or as cut off.
proof fn lemma_bodies_are_refused_otherwise(s: Seq<u8>, cursor: int, count: nat)
    ensures
        records_at(s, cursor, count) matches Err(error) ==> error == Error::Truncated || error
            == Error::PacketSize,
    decreases count,
{
    if count > 0 {
        lemma_bodies_are_refused_otherwise(
            s,
            cursor + RECORD_PREFIX + music::le16_at(s, cursor),
            (count - 1) as nat,
        );
    }
}

/// What is wrong with a pack is told in the words that tell it of a song.
pub proof fn lemma_errors_are_told_as_of_songs()
    ensures
        error_text(Error::Header) == music::error_text(music::Error::Header),
        error_text(Error::Format) == music::error_text(music::Error::Format),
        error_text(Error::FrameCount) == music::error_text(music::Error::FrameCount),
        error_text(Error::Truncated) == music::error_text(music::Error::Truncated),
        error_text(Error::PacketSize) == music::error_text(music::Error::PacketSize),
        error_text(Error::Checksum) == music::error_text(music::Error::Checksum),
        error_text(Error::Memory) == music::error_text(music::Error::Memory),
{
}

} // verus!
