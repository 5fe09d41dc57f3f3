//! One bounded read cache in front of slow storage, and the accounting of its reads.
use crate::error::Error;
use crate::music::catalog::{self, ReadAt, MAX_MUSIC_BYTES};
use crate::music;
use vstd::prelude::*;

verus! {

pub const CACHE_BYTES: usize = 32 * 1024;

/// Storage behind a cache of one aligned block. It holds the same bytes as the storage and
/// fails as the storage fails. Blocks are read into a spare and take the cache's place once they
/// are whole, so that a failed read leaves the cached block as it was.
pub struct MusicStorage<S: ReadAt> {
    source: Option<S>,
    cache: Vec<u8>,
    spare: Vec<u8>,
    start: usize,
    used: usize,
}

/// The bytes that an optional storage holds: none where there is none.
spec fn stored<S: ReadAt>(source: Option<S>) -> Seq<u8> {
    match source {
        Some(source) => source.contents(),
        None => Seq::empty(),
    }
}

/// The faults of an optional storage.
spec fn troubles<S: ReadAt>(source: Option<S>) -> Set<music::Error> {
    match source {
        Some(source) => source.faults(),
        None => Set::empty(),
    }
}

/// The block of storage with `size` bytes that a place lies in: its start and its end.
pub open spec fn block(size: int, place: int) -> (int, int) {
    let start = place / (CACHE_BYTES as int) * CACHE_BYTES;
    (start, if size - start < CACHE_BYTES { size } else { start + CACHE_BYTES })
}

/// The read that fetches the block of a place.
pub open spec fn fill_of(size: int, place: int) -> (int, int) {
    (block(size, place).0, block(size, place).1 - block(size, place).0)
}

/// A place lies between the start and the end of a block.
pub open spec fn holds(block: (int, int), place: int) -> bool {
    block.0 <= place < block.1
}

/// The block in the cache once the bytes from `from` up to `place` have been handed out.
pub open spec fn cached_at(cached: (int, int), size: int, from: int, place: int) -> (int, int) {
    if place == from {
        cached
    } else {
        block(size, place - 1)
    }
}

/// Handing out the bytes from `from` to `to` runs into a place that is not in the cache, and
/// fetches its block by that read.
pub open spec fn fetches(
    cached: (int, int),
    size: int,
    from: int,
    to: int,
    read: (int, int),
) -> bool {
    exists|place: int|
        from <= place < to && !holds(cached_at(cached, size, from, place), place)
            && #[trigger] fill_of(size, place) == read
}

/// Handing out the bytes from `from` to `to` stops at a place that is not in the cache.
pub open spec fn stops(cached: (int, int), size: int, from: int, to: int, left: (int, int)) -> bool {
    exists|place: int|
        from <= place < to && !holds(left, place) && left == #[trigger] cached_at(
            cached,
            size,
            from,
            place,
        )
}

impl<S: ReadAt> MusicStorage<S> {
    #[verifier::type_invariant]
    spec fn coherent(self) -> bool {
        self.source is Some ==> {
            &&& self.cache@.len() == CACHE_BYTES
            &&& self.spare@.len() == CACHE_BYTES
            &&& self.used <= CACHE_BYTES
            &&& self.used > 0 ==> (self.start as int, self.start + self.used) == block(
                stored(self.source).len() as int,
                self.start as int,
            )
            &&& self.start + self.used <= stored(self.source).len()
            &&& stored(self.source).len() <= MAX_MUSIC_BYTES
            &&& forall|i: int|
                0 <= i < self.used ==> #[trigger] self.cache@[i] == stored(self.source)[self.start
                    + i]
        }
    }

    /// The block in the cache: its start and its end, which are the same while there is none.
    pub closed spec fn cached(&self) -> (int, int) {
        (self.start as int, self.start + self.used)
    }

    /// The reads that the storage behind the cache takes note of.
    pub closed spec fn fills(&self) -> Set<(int, int)> {
        match self.source {
            Some(source) => source.asked(),
            None => Set::empty(),
        }
    }

    /// Puts a cache in front of a music partition, which must not be empty or too large.
    pub fn open(source: S) -> (result: Result<Self, Error>)
        ensures
            result is Ok <==> 0 < source.contents().len() <= MAX_MUSIC_BYTES,
            match result {
                Ok(storage) => {
                    &&& storage.contents() == source.contents()
                    &&& storage.faults() == source.faults()
                    &&& storage.fills() == source.asked()
                    &&& storage.failures() == source.failures()
                    &&& storage.cached() == (0int, 0int)
                },
                Err(error) => error == (Error {
                    context: "music partition is missing or too large",
                    cause: None,
                }),
            },
    {
        let length: usize = source.size();
        if length == 0 || length > MAX_MUSIC_BYTES {
            return Err(Error::new("music partition is missing or too large"));
        }
        Ok(
            MusicStorage {
                source: Some(source),
                cache: vec![0u8; CACHE_BYTES],
                spare: vec![0u8; CACHE_BYTES],
                start: 0,
                used: 0,
            },
        )
    }

    /// The size of the cache, without the spare. Storage that holds anything has one block of it.
    pub fn cache_bytes(&self) -> (bytes: usize)
        ensures
            self.contents().len() > 0 ==> bytes == CACHE_BYTES,
    {
        proof {
            use_type_invariant(self);
        }
        self.cache.len()
    }

    /// Reads the block that holds `cursor` into the cache.
    fn fill(&mut self, cursor: usize) -> (result: Result<(), music::Error>)
        requires
            cursor < old(self).contents().len(),
        ensures
            final(self).contents() == old(self).contents(),
            final(self).faults() == old(self).faults(),
            final(self).fills().subset_of(
                old(self).fills().insert(
                    fill_of(old(self).contents().len() as int, cursor as int),
                ),
            ),
            match result {
                Ok(()) => {
                    &&& final(self).failures() == old(self).failures()
                    &&& final(self).cached() == block(
                        old(self).contents().len() as int,
                        cursor as int,
                    )
                },
                Err(error) => {
                    &&& catalog::failed(
                        old(self).failures(),
                        final(self).failures(),
                        old(self).faults(),
                        error,
                    )
                    &&& final(self).cached() == old(self).cached()
                },
            },
    {
        proof {
            use_type_invariant(&*self);
        }
        let mut held: Option<S> = None;
        std::mem::swap(&mut held, &mut self.source);
        let mut spare: Vec<u8> = Vec::new();
        std::mem::swap(&mut spare, &mut self.spare);
        let mut source = match held {
            Some(source) => source,
            None => {
                return Ok(());
            },
        };
        let ghost s = source.contents();
        let start: usize = cursor / CACHE_BYTES * CACHE_BYTES;
        let rest: usize = source.size() - start;
        let length: usize = if rest < CACHE_BYTES {
            rest
        } else {
            CACHE_BYTES
        };
        let (block, beyond) = spare.as_mut_slice().split_at_mut(length);
        let result = source.read_exact(start, block);
        proof {
            if result is Ok {
                assert forall|i: int| 0 <= i < length implies #[trigger] spare@[i] == s[start + i] by {
                    assert(s.subrange(start as int, start + length)[i] == s[start + i]);
                }
            }
        }
        if result.is_ok() {
            std::mem::swap(&mut spare, &mut self.cache);
            self.start = start;
            self.used = length;
        }
        self.spare = spare;
        self.source = Some(source);
        result
    }
}

impl<S: ReadAt> ReadAt for MusicStorage<S> {
    closed spec fn contents(&self) -> Seq<u8> {
        stored(self.source)
    }

    closed spec fn faults(&self) -> Set<music::Error> {
        troubles(self.source)
    }

    open spec fn asked(&self) -> Set<(int, int)> {
        Set::empty()
    }

    closed spec fn failures(&self) -> Seq<music::Error> {
        match self.source {
            Some(source) => source.failures(),
            None => Seq::empty(),
        }
    }

    fn size(&self) -> usize {
        match &self.source {
            Some(source) => source.size(),
            None => 0,
        }
    }

    /// A range in the cached block takes nothing from the storage. Otherwise the blocks that are
    /// not in the cache are fetched whole, and the last one stays.
    fn read_exact(&mut self, offset: usize, out: &mut [u8]) -> (result: Result<(), music::Error>)
        ensures
            ({
                let size = old(self).contents().len() as int;
                let from = offset as int;
                let to = offset + old(out)@.len();
                let cached = old(self).cached();
                &&& to > size ==> *final(self) == *old(self)
                &&& to <= size && cached.0 <= from && to <= cached.1 ==> result is Ok
                    && *final(self) == *old(self)
                &&& result is Ok ==> final(self).cached() == cached_at(cached, size, from, to)
                &&& result is Err && to <= size ==> stops(
                    cached,
                    size,
                    from,
                    to,
                    final(self).cached(),
                )
                &&& forall|read: (int, int)| #[trigger]
                    final(self).fills().contains(read) ==> old(self).fills().contains(read)
                        || fetches(cached, size, from, to, read)
            }),
    {
        let size: usize = self.size();
        let wanted: usize = out.len();
        if wanted > size || offset > size - wanted {
            return Err(music::Error::Truncated);
        }
        let ghost s = self.contents();
        let ghost faults = self.faults();
        let ghost cached = self.cached();
        let mut copied: usize = 0;
        while copied < wanted
            invariant
                s == self.contents(),
                s == old(self).contents(),
                faults == self.faults(),
                faults == old(self).faults(),
                self.failures() == old(self).failures(),
                wanted == out@.len(),
                wanted == old(out)@.len(),
                offset + wanted <= s.len(),
                s.len() == size,
                copied <= wanted,
                cached == old(self).cached(),
                cached.0 <= offset && offset + wanted <= cached.1 ==> *self == *old(self),
                self.cached() == cached_at(cached, size as int, offset as int, offset + copied),
                forall|read: (int, int)| #[trigger]
                    self.fills().contains(read) ==> old(self).fills().contains(read) || fetches(
                        cached,
                        size as int,
                        offset as int,
                        offset + wanted,
                        read,
                    ),
                forall|i: int| 0 <= i < copied ==> #[trigger] out@[i] == s[offset + i],
            decreases wanted - copied,
        {
            let cursor: usize = offset + copied;
            proof {
                use_type_invariant(&*self);
            }
            if cursor < self.start || cursor >= self.start + self.used {
                match self.fill(cursor) {
                    Err(error) => {
                        return Err(error);
                    },
                    Ok(()) => {},
                }
            }
            proof {
                use_type_invariant(&*self);
            }
            let within: usize = cursor - self.start;
            let ready: usize = self.used - within;
            let count: usize = if ready < wanted - copied {
                ready
            } else {
                wanted - copied
            };
            let mut i: usize = 0;
            while i < count
                invariant
                    s == self.contents(),
                    s == old(self).contents(),
                    faults == self.faults(),
                    faults == old(self).faults(),
                    wanted == out@.len(),
                    wanted == old(out)@.len(),
                    offset + wanted <= s.len(),
                    copied + count <= wanted,
                    within + count <= self.used <= self.cache@.len(),
                    self.start + within == offset + copied,
                    forall|k: int|
                        0 <= k < self.used ==> #[trigger] self.cache@[k] == s[self.start + k],
                    i <= count,
                    forall|k: int| 0 <= k < copied + i ==> #[trigger] out@[k] == s[offset + k],
                decreases count - i,
            {
                assert(self.cache@[within + i] == s[self.start + (within + i)]);
                out[copied + i] = self.cache[within + i];
                i = i + 1;
            }
            copied = copied + count;
        }
        assert(out@ =~= s.subrange(offset as int, offset + wanted));
        Ok(())
    }
}

/// How often and how long the storage was read.
#[derive(Debug, Clone, Copy)]
pub struct ReadStats {
    pub validating: bool,
    pub reads: u32,
    pub max_read_us: u32,
}

impl ReadStats {
    /// Accounting starts with the validation of the whole catalog.
    pub fn new() -> (stats: Self)
        ensures
            stats == (ReadStats { validating: true, reads: 0, max_read_us: 0 }),
    {
        ReadStats { validating: true, reads: 0, max_read_us: 0 }
    }

    /// Accounts for a read, and says whether to let the idle task run: full-catalog CRC
    /// validation can keep a core busy for seconds; playback reads do not take the extra sleep.
    pub fn record(&mut self, began_us: u64, ended_us: u64) -> (rest: bool)
        ensures
            rest == old(self).validating,
            final(self).validating == old(self).validating,
            final(self).reads == if old(self).reads == u32::MAX {
                u32::MAX as int
            } else {
                old(self).reads + 1
            },
            final(self).max_read_us == longer(
                old(self).max_read_us as int,
                ended_us - began_us,
            ),
    {
        self.reads = self.reads.saturating_add(1);
        let took: u64 = ended_us.saturating_sub(began_us);
        let shown: u32 = if took > u32::MAX as u64 {
            u32::MAX
        } else {
            took as u32
        };
        if shown > self.max_read_us {
            self.max_read_us = shown;
        }
        self.validating
    }

    /// Playback is accounted for by itself.
    pub fn finish_validation(&mut self)
        ensures
            *final(self) == (ReadStats { validating: false, reads: 0, max_read_us: 0 }),
    {
        self.validating = false;
        self.reads = 0;
        self.max_read_us = 0;
    }
}

/// The longer of two times, within 32 bits.
pub open spec fn longer(known: int, took: int) -> int {
    if took <= known {
        known
    } else if took > u32::MAX {
        u32::MAX as int
    } else {
        took
    }
}

/// Every place of the storage lies in one block: it begins at a multiple of 32 KiB, has 32 KiB
/// or as many as are left, and is the same for all the places in it.
pub proof fn lemma_blocks_cover_the_storage(size: int, place: int, other: int)
    requires
        0 <= place < size,
        0 <= other < size,
    ensures
        ({
            let (start, end) = block(size, place);
            &&& start % 32_768 == 0
            &&& 0 <= start <= place < end <= size
            &&& end - start == 32_768 || (end == size && end - start < 32_768)
            &&& holds(block(size, place), place)
            &&& holds(block(size, place), other) <==> block(size, other) == block(size, place)
            &&& fill_of(size, place) == (start, end - start)
        }),
        CACHE_BYTES == 32_768,
{
    let start = place / 32_768 * 32_768;
    let again = other / 32_768 * 32_768;
    assert(start <= place < start + 32_768);
    assert(again <= other < again + 32_768);
}

/// Bytes that are in the cache are handed out without a read, and leave the cache as it is where
/// it held their block.
pub proof fn lemma_what_is_cached_is_not_fetched(
    size: int,
    at: int,
    from: int,
    to: int,
    read: (int, int),
)
    requires
        0 <= at < size,
        block(size, at).0 <= from <= to <= block(size, at).1,
    ensures
        !fetches(block(size, at), size, from, to, read),
        cached_at(block(size, at), size, from, to) == block(size, at),
{
    let held = block(size, at);
    lemma_blocks_cover_the_storage(size, at, at);
    assert forall|place: int| from <= place < to implies holds(
        #[trigger] cached_at(held, size, from, place),
        place,
    ) by {
        if place > from {
            lemma_blocks_cover_the_storage(size, at, place - 1);
        }
    }
    if fetches(held, size, from, to, read) {
        let place = choose|place: int|
            from <= place < to && !holds(cached_at(held, size, from, place), place)
                && #[trigger] fill_of(size, place) == read;
        assert(holds(cached_at(held, size, from, place), place));
    }
    if to > from {
        lemma_blocks_cover_the_storage(size, at, to - 1);
    }
}

/// What is fetched is a whole block of the storage that holds some of the bytes asked for, and the
/// last of them decide which block stays.
pub proof fn lemma_whole_blocks_are_fetched(
    cached: (int, int),
    size: int,
    from: int,
    to: int,
    read: (int, int),
)
    requires
        0 <= from,
        to <= size,
        fetches(cached, size, from, to, read),
    ensures
        exists|place: int|
            #![trigger block(size, place)]
            from <= place < to && read == (
                block(size, place).0,
                block(size, place).1 - block(size, place).0,
            ),
        read.0 % 32_768 == 0,
        0 <= read.0,
        1 <= read.1 <= 32_768,
        read.0 + read.1 <= size,
        from < to ==> cached_at(cached, size, from, to) == block(size, to - 1),
{
    let place = choose|place: int|
        from <= place < to && !holds(cached_at(cached, size, from, place), place)
            && #[trigger] fill_of(size, place) == read;
    lemma_blocks_cover_the_storage(size, place, place);
    assert(read == (block(size, place).0, block(size, place).1 - block(size, place).0));
}

/// The longest read is the longest of all, within 32 bits; a clock that ran back counts for none.
pub proof fn lemma_the_longest_read_is_kept(known: int, took: int)
    requires
        0 <= known <= u32::MAX,
    ensures
        known <= longer(known, took) <= u32::MAX,
        took <= u32::MAX ==> longer(known, took) >= took,
        took > u32::MAX ==> longer(known, took) == u32::MAX,
        longer(known, took) == known || longer(known, took) == took || took > u32::MAX,
{
}

} // verus!
