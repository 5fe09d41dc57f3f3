//! Streaming windowing and freshness of spectrum analysis. The caller weights the samples
//! and runs the transform; this module keeps the sample history.
pub mod laws;

use crate::playback::{self, Due};
use crate::text;
use vstd::prelude::*;
use vstd::string::*;

verus! {

pub const FFT_SIZE: usize = 2048;

pub const SAMPLE_RATE: u32 = 48_000;

/// 960 samples on each of two channels.
pub const STEREO_SAMPLES: usize = 1920;

/// Room for one history of samples and one window of weights.
pub const HISTORY_FLOATS: usize = 4096;

/// Maximum analysis age: 120 ms, or three nominal 25 Hz spectrum intervals.
pub const MAX_AGE_US: u64 = 120_000;

/// The packet that a piece of analysis belongs to, and when it was handed over.
#[derive(Debug, Clone, Copy)]
pub struct Tag {
    pub due: Due,
    pub queued_us: u64,
}

/// Analysis is fresh while its epoch lasts and for at most [`MAX_AGE_US`].
pub open spec fn fresh(tag: Tag, epoch: int, now: int) -> bool {
    &&& tag.due.epoch == epoch
    &&& tag.queued_us <= now <= tag.queued_us + MAX_AGE_US
}

impl Tag {
    pub fn is_fresh(self, epoch: u32, now_us: u64) -> (result: bool)
        ensures
            result == fresh(self, epoch as int, now_us as int),
    {
        self.due.epoch == epoch && now_us >= self.queued_us && now_us - self.queued_us
            <= MAX_AGE_US
    }
}

/// Decoder/window continuity follows the transport timestamp and playback epoch.
#[derive(Debug)]
pub struct Continuity {
    previous: Option<Due>,
}

/// A packet continues another if it belongs to the same epoch and comes one frame later.
pub open spec fn continues(last: Due, due: Due) -> bool {
    &&& last.epoch == due.epoch
    &&& due.pts_ms == playback::wrap32(last.pts_ms + 20)
}

impl View for Continuity {
    type V = Option<Due>;

    closed spec fn view(&self) -> Option<Due> {
        self.previous
    }
}

impl Default for Continuity {
    fn default() -> (continuity: Self)
        ensures
            continuity@ is None,
    {
        Continuity { previous: None }
    }
}

impl Continuity {
    /// Takes up a packet, and says whether decoding starts afresh with it.
    pub fn begin(&mut self, due: Due) -> (reset: bool)
        ensures
            final(self)@ == Some(due),
            reset == match old(self)@ {
                None => true,
                Some(last) => !continues(last, due),
            },
    {
        let reset = match self.previous {
            None => true,
            Some(last) => last.epoch != due.epoch || last.pts_ms.wrapping_add(20) != due.pts_ms,
        };
        self.previous = Some(due);
        reset
    }

    pub fn clear(&mut self)
        ensures
            final(self)@ is None,
    {
        self.previous = None;
    }
}

#[derive(Debug, Clone, Copy, PartialEq, Eq, Structural)]
pub struct InvalidBuffer;

impl InvalidBuffer {
    pub fn message(self) -> (text: &'static str)
        ensures
            text@ == "invalid analysis buffer size"@,
    {
        "invalid analysis buffer size"
    }
}

/// The latest mono samples, oldest first: each is the sum of a left and a right sample. There is
/// no `Debug`: it would show the audio.
pub struct Window {
    ring: Ring,
}

/// Storage of [`FFT_SIZE`] entries, in which the oldest sample makes room for the newest.
struct Ring {
    samples: Vec<i32>,
    position: usize,
    filled: usize,
}

/// The sums of the left and right samples of interleaved stereo.
pub open spec fn mono(pcm: Seq<i16>) -> Seq<int> {
    Seq::new(pcm.len() / 2, |i: int| pcm[2 * i] + pcm[2 * i + 1])
}

/// The last `count` of some samples, or all of them where there are fewer.
pub open spec fn last(samples: Seq<int>, count: int) -> Seq<int> {
    if samples.len() <= count {
        samples
    } else {
        samples.skip(samples.len() - count)
    }
}

/// Samples as complex numbers: each followed by an imaginary part of zero.
pub open spec fn complex(samples: Seq<int>) -> Seq<int> {
    Seq::new(2 * samples.len(), |i: int| if i % 2 == 0 { samples[i / 2] } else { 0 })
}

/// A text of the window without its samples.
pub open spec fn window_text(filled: int) -> Seq<char> {
    "Window { filled: "@ + text::decimal(filled as nat) + ", fft_size: 2048, .. }"@
}

impl View for Ring {
    type V = Seq<int>;

    closed spec fn view(&self) -> Seq<int> {
        Seq::new(
            self.filled as nat,
            |i: int|
                self.samples@[(self.position + FFT_SIZE - self.filled + i) % (FFT_SIZE as int)] as int,
        )
    }
}

impl Ring {
    /// The storage is complete, and what has been filled lies inside it.
    spec fn whole(&self) -> bool {
        &&& self.samples@.len() == FFT_SIZE
        &&& self.position < FFT_SIZE
        &&& self.filled <= FFT_SIZE
    }

    /// Forgets every sample.
    fn clear(&mut self)
        requires
            old(self).whole(),
        ensures
            final(self).whole(),
            final(self)@ == Seq::<int>::empty(),
        no_unwind
    {
        let mut i: usize = 0;
        while i < FFT_SIZE
            invariant
                i <= FFT_SIZE,
                self.samples@.len() == FFT_SIZE,
            decreases FFT_SIZE - i,
        {
            self.samples[i] = 0;
            i = i + 1;
        }
        self.position = 0;
        self.filled = 0;
        assert(self@ =~= Seq::<int>::empty());
    }

    /// Takes in one sample, in place of the oldest where the ring is full.
    fn push(&mut self, sample: i32)
        requires
            old(self).whole(),
        ensures
            final(self).whole(),
            final(self)@ == last(old(self)@.push(sample as int), FFT_SIZE as int),
        no_unwind
    {
        let ghost before = *self;
        self.samples[self.position] = sample;
        self.position = (self.position + 1) % FFT_SIZE;
        if self.filled < FFT_SIZE {
            self.filled = self.filled + 1;
        }
        proof {
            let wanted = last(before@.push(sample as int), FFT_SIZE as int);
            let base = before.position + FFT_SIZE - before.filled;
            assert forall|i: int| 0 <= i < wanted.len() implies self@[i] == wanted[i] by {
                if before.filled < FFT_SIZE {
                    assert(self.position + FFT_SIZE - self.filled + i == base + i || self.position
                        + FFT_SIZE - self.filled + i == base + i - FFT_SIZE);
                } else {
                    assert(self.position + FFT_SIZE - self.filled + i == base + i + 1
                        || self.position + FFT_SIZE - self.filled + i == base + i + 1 - FFT_SIZE);
                }
            }
            assert(self@ =~= wanted);
        }
    }
}

impl View for Window {
    type V = Seq<int>;

    closed spec fn view(&self) -> Seq<int> {
        self.ring@
    }
}

impl Window {
    #[verifier::type_invariant]
    spec fn complete(self) -> bool {
        self.ring.whole()
    }

    /// An empty window over the caller's storage, which must hold exactly [`FFT_SIZE`] entries.
    pub fn new(storage: Vec<i32>) -> (result: Result<Window, InvalidBuffer>)
        ensures
            result is Ok <==> storage@.len() == FFT_SIZE,
            result matches Ok(window) ==> window@ == Seq::<int>::empty(),
    {
        if storage.len() != FFT_SIZE {
            return Err(InvalidBuffer);
        }
        let mut ring = Ring { samples: storage, position: 0, filled: 0 };
        ring.clear();
        Ok(Window { ring })
    }

    /// Forgets every sample.
    pub fn clear(&mut self)
        ensures
            final(self)@ == Seq::<int>::empty(),
        no_unwind
    {
        proof {
            use_type_invariant(&*self);
        }
        self.ring.clear();
    }

    /// Takes in interleaved stereo samples; an odd number of them is refused.
    pub fn push_stereo(&mut self, pcm: &[i16]) -> (result: Result<(), InvalidBuffer>)
        ensures
            result is Ok <==> pcm@.len() % 2 == 0,
            result is Ok ==> final(self)@ == last(old(self)@ + mono(pcm@), FFT_SIZE as int),
            result is Err ==> final(self)@ == old(self)@,
    {
        if pcm.len() % 2 != 0 {
            return Err(InvalidBuffer);
        }
        proof {
            use_type_invariant(&*self);
        }
        let mut i: usize = 0;
        let ghost before = self@;
        assert(before + mono(pcm@).take(0) =~= before);
        while i < pcm.len() / 2
            invariant
                pcm@.len() % 2 == 0,
                i <= pcm@.len() / 2,
                before.len() <= FFT_SIZE,
                self@ == last(before + mono(pcm@).take(i as int), FFT_SIZE as int),
            decreases pcm@.len() / 2 - i,
        {
            let sample: i32 = pcm[2 * i] as i32 + pcm[2 * i + 1] as i32;
            let ghost so_far = before + mono(pcm@).take(i as int);
            proof {
                use_type_invariant(&*self);
            }
            self.ring.push(sample);
            i = i + 1;
            proof {
                assert(before + mono(pcm@).take(i as int) =~= so_far.push(sample as int));
                assert(self@ =~= last(so_far.push(sample as int), FFT_SIZE as int));
            }
        }
        assert(mono(pcm@).take(i as int) =~= mono(pcm@));
        Ok(())
    }

    /// Writes interleaved real/imaginary input in chronological order; `false` until the window
    /// is full.
    pub fn write_complex(&self, out: &mut [i32]) -> (result: Result<bool, InvalidBuffer>)
        ensures
            final(out)@.len() == old(out)@.len(),
            result is Ok <==> old(out)@.len() == 2 * FFT_SIZE,
            result matches Ok(written) ==> written == (self@.len() == FFT_SIZE),
            result == Ok::<bool, InvalidBuffer>(true) ==> final(out)@.map_values(
                |value: i32| value as int,
            ) == complex(self@),
            result != Ok::<bool, InvalidBuffer>(true) ==> final(out)@ == old(out)@,
    {
        if out.len() != FFT_SIZE * 2 {
            return Err(InvalidBuffer);
        }
        proof {
            use_type_invariant(self);
        }
        if self.ring.filled < FFT_SIZE {
            return Ok(false);
        }
        let mut i: usize = 0;
        while i < FFT_SIZE
            invariant
                self.ring.whole(),
                self.ring.filled == FFT_SIZE,
                i <= FFT_SIZE,
                out@.len() == 2 * FFT_SIZE,
                forall|j: int| 0 <= j < 2 * i ==> #[trigger] out@[j] == complex(self@)[j],
            decreases FFT_SIZE - i,
        {
            out[2 * i] = self.ring.samples[(self.ring.position + i) % FFT_SIZE];
            out[2 * i + 1] = 0;
            assert(self@[i as int] == self.ring.samples@[(self.ring.position + i) % (
            FFT_SIZE as int)]);
            i = i + 1;
        }
        assert(out@.map_values(|value: i32| value as int) =~= complex(self@));
        Ok(true)
    }

    /// A text of the window without its samples.
    pub fn describe(&self) -> (text: String)
        ensures
            text@ == window_text(self@.len() as int),
    {
        let mut shown = String::from_str("Window { filled: ");
        text::push_decimal(&mut shown, self.ring.filled as u64);
        shown.append(", fft_size: 2048, .. }");
        shown
    }
}

/// The first and the end of the bins of a band, from the bins that its edges round up to and
/// the bin nearest to its middle. A band without a bin of its own gets the nearest one; no band
/// reaches the constant component or beyond the spectrum.
pub open spec fn bins(first: int, end: int, nearest: int) -> (int, int) {
    if first == end {
        let bin = if nearest < 1 { 1 } else { nearest };
        (bin, bin + 1)
    } else {
        (
            if first < 1 { 1 } else { first },
            if end > FFT_SIZE / 2 + 1 { FFT_SIZE / 2 + 1 } else { end },
        )
    }
}

pub fn band_bins(first: usize, end: usize, nearest: usize) -> (range: (usize, usize))
    requires
        first == end ==> nearest < usize::MAX,
    ensures
        (range.0 as int, range.1 as int) == bins(first as int, end as int, nearest as int),
{
    if first == end {
        let bin: usize = if nearest < 1 {
            1
        } else {
            nearest
        };
        (bin, bin + 1)
    } else {
        (
            if first < 1 {
                1
            } else {
                first
            },
            if end > FFT_SIZE / 2 + 1 {
                FFT_SIZE / 2 + 1
            } else {
                end
            },
        )
    }
}

/// Checks the size of a transformed window.
pub fn check_transformed(length: usize) -> (result: Result<(), InvalidBuffer>)
    ensures
        result is Ok <==> length == 2 * FFT_SIZE,
{
    if length != FFT_SIZE * 2 {
        Err(InvalidBuffer)
    } else {
        Ok(())
    }
}

} // verus!
