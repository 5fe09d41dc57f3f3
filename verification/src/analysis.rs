//! What the analysis task and its client decide. The radio never waits for analysis: bounded
//! queues and playback epochs discard obsolete work.
use crate::error::Error;
use crate::music::MAX_OPUS_BYTES;
use crate::playback::{self, Due};
use crate::protocol::SpectrumStatus;
use crate::radio;
use crate::spectrum::{self, Continuity, Tag, Window, FFT_SIZE};
use vstd::prelude::*;

verus! {

/// A packet to analyse: the first `length` bytes of `opus`.
#[derive(Debug, Clone, Copy)]
pub struct Job {
    pub tag: Tag,
    pub length: usize,
    pub opus: [u8; 1275],
}

/// The bands of a packet, with the counters of the analysis task.
#[derive(Debug, Clone, Copy)]
pub struct Output {
    pub tag: Tag,
    pub bands: [u8; 32],
    pub stats: SpectrumStatus,
}

/// What became of an item that was handed to a bounded queue.
#[derive(Debug, Clone, Copy, PartialEq, Eq, Structural)]
pub enum Queued {
    Taken,
    Full,
    Closed,
}

impl Job {
    /// Copies a packet for analysis; it must not be empty or too large.
    pub fn new(due: Due, opus: &[u8], now_us: u64) -> (result: Result<Job, Error>)
        ensures
            result is Ok <==> 0 < opus@.len() <= MAX_OPUS_BYTES,
            match result {
                Ok(job) => {
                    &&& job.tag == (Tag { due, queued_us: now_us })
                    &&& job.length == opus@.len()
                    &&& job.opus@.take(job.length as int) == opus@
                    &&& forall|i: int| job.length <= i < MAX_OPUS_BYTES ==> job.opus@[i] == 0
                },
                Err(error) => error == (Error {
                    context: "invalid analysis packet size",
                    cause: None,
                }),
            },
    {
        if opus.len() == 0 || opus.len() > MAX_OPUS_BYTES {
            return Err(Error::new("invalid analysis packet size"));
        }
        let mut copy: [u8; 1275] = [0; 1275];
        let mut i: usize = 0;
        while i < opus.len()
            invariant
                opus@.len() <= 1275,
                i <= opus@.len(),
                forall|j: int| 0 <= j < i ==> copy@[j] == opus@[j],
                forall|j: int| i <= j < 1275 ==> copy@[j] == 0,
            decreases opus@.len() - i,
        {
            copy[i] = opus[i];
            i = i + 1;
        }
        assert(copy@.take(opus@.len() as int) =~= opus@);
        Ok(Job { tag: Tag { due, queued_us: now_us }, length: opus.len(), opus: copy })
    }
}

/// The radio's side of analysis.
#[derive(Debug)]
pub struct Client {
    pub stats: SpectrumStatus,
    pub input_dropped: u64,
    pub stale: u64,
}

/// The client once one output has come in.
pub open spec fn informed(client: Client, output: Output, epoch: int, now: int) -> Client {
    Client {
        stats: output.stats,
        stale: if spectrum::fresh(output.tag, epoch, now) {
            client.stale
        } else {
            radio::one_more(client.stale)
        },
        ..client
    }
}

/// The output to show after one has come in: the newest that is fresh.
pub open spec fn newest(shown: Option<Output>, output: Output, epoch: int, now: int) -> Option<
    Output,
> {
    if spectrum::fresh(output.tag, epoch, now) {
        Some(output)
    } else {
        shown
    }
}

impl Client {
    pub fn new() -> (client: Self)
        ensures
            client.stats == (SpectrumStatus {
                source: "fft",
                fft_size: FFT_SIZE as u32,
                sample_rate: spectrum::SAMPLE_RATE,
                core: 1,
                frames: 0,
                errors: 0,
                resets: 0,
                input_dropped: 0,
                output_dropped: 0,
                stale: 0,
                mean_us: 0,
                max_us: 0,
                stack_free: 0,
            }),
            client.input_dropped == 0,
            client.stale == 0,
    {
        Client { stats: SpectrumStatus::default(), input_dropped: 0, stale: 0 }
    }

    /// Takes note of what became of a job: a full queue drops it, a closed one is an error.
    pub fn submitted(&mut self, outcome: Queued) -> (result: Result<(), Error>)
        ensures
            result is Ok <==> outcome != Queued::Closed,
            result matches Err(error) ==> error == (Error {
                context: "analysis task stopped",
                cause: None,
            }),
            *final(self) == (Client {
                input_dropped: if outcome == Queued::Full {
                    radio::one_more(old(self).input_dropped)
                } else {
                    old(self).input_dropped
                },
                ..*old(self)
            }),
    {
        match outcome {
            Queued::Taken => Ok(()),
            Queued::Full => {
                self.input_dropped = self.input_dropped.saturating_add(1);
                Ok(())
            },
            Queued::Closed => Err(Error::new("analysis task stopped")),
        }
    }

    fn receive(&mut self, shown: Option<Output>, output: Output, epoch: u32, now_us: u64) -> (
    result: Option<Output>)
        ensures
            *final(self) == informed(*old(self), output, epoch as int, now_us as int),
            result == newest(shown, output, epoch as int, now_us as int),
    {
        self.stats = output.stats;
        if output.tag.is_fresh(epoch, now_us) {
            Some(output)
        } else {
            self.stale = self.stale.saturating_add(1);
            shown
        }
    }

    /// Takes in at most two outputs, in the order in which they came, and gives the newest fresh
    /// one.
    pub fn latest(
        &mut self,
        first: Option<Output>,
        second: Option<Output>,
        epoch: u32,
        now_us: u64,
    ) -> (latest: Option<Output>)
        ensures
            ({
                let (one, shown) = match first {
                    Some(output) => (
                        informed(*old(self), output, epoch as int, now_us as int),
                        newest(None, output, epoch as int, now_us as int),
                    ),
                    None => (*old(self), None),
                };
                match second {
                    Some(output) => {
                        &&& *final(self) == informed(one, output, epoch as int, now_us as int)
                        &&& latest == newest(shown, output, epoch as int, now_us as int)
                    },
                    None => *final(self) == one && latest == shown,
                }
            }),
            latest matches Some(output) ==> spectrum::fresh(
                output.tag,
                epoch as int,
                now_us as int,
            ),
    {
        let mut latest: Option<Output> = None;
        if let Some(output) = first {
            latest = self.receive(latest, output, epoch, now_us);
        }
        if let Some(output) = second {
            latest = self.receive(latest, output, epoch, now_us);
        }
        latest
    }

    /// The counters of both sides.
    pub fn status(&self) -> (status: SpectrumStatus)
        ensures
            status == (SpectrumStatus {
                input_dropped: self.input_dropped,
                stale: playback::clamp64(self.stale + self.stats.stale) as u64,
                ..self.stats
            }),
    {
        SpectrumStatus {
            input_dropped: self.input_dropped,
            stale: self.stale.saturating_add(self.stats.stale),
            ..self.stats
        }
    }
}

/// After this many failures in a row the task gives up.
pub const FAILURE_LIMIT: u32 = 10;

pub const STACK_INTERVAL_US: u64 = 5_000_000;

/// What to do with a job.
#[derive(Debug, Clone, Copy, PartialEq, Eq, Structural)]
pub enum Admission {
    /// It is too old: leave it.
    Stale,
    /// Decode it as it continues the packet before.
    Continue,
    /// Reset the decoder, and decode it.
    Restart,
}

/// The analysis task's own state.
pub struct Worker {
    window: Window,
    continuity: Continuity,
    stats: SpectrumStatus,
    total_us: u64,
    consecutive_errors: u32,
    next_stack_sample: u64,
}

pub struct WorkerView {
    pub window: Seq<int>,
    pub previous: Option<Due>,
    pub stats: SpectrumStatus,
    pub total_us: int,
    pub consecutive_errors: int,
    pub next_stack_sample: int,
}

impl View for Worker {
    type V = WorkerView;

    closed spec fn view(&self) -> WorkerView {
        WorkerView {
            window: self.window@,
            previous: self.continuity@,
            stats: self.stats,
            total_us: self.total_us as int,
            consecutive_errors: self.consecutive_errors as int,
            next_stack_sample: self.next_stack_sample as int,
        }
    }
}

/// Whether a job is taken up, and how.
pub open spec fn admission(worker: WorkerView, tag: Tag, now: int) -> Admission {
    if !spectrum::fresh(tag, tag.due.epoch as int, now) {
        Admission::Stale
    } else {
        match worker.previous {
            Some(last) => if spectrum::continues(last, tag.due) {
                Admission::Continue
            } else {
                Admission::Restart
            },
            None => Admission::Restart,
        }
    }
}

/// The task once it has looked at a job.
pub open spec fn admitted(worker: WorkerView, tag: Tag, now: int) -> WorkerView {
    match admission(worker, tag, now) {
        Admission::Stale => WorkerView {
            previous: None,
            stats: SpectrumStatus {
                stale: radio::one_more(worker.stats.stale),
                ..worker.stats
            },
            ..worker
        },
        Admission::Continue => WorkerView { previous: Some(tag.due), ..worker },
        Admission::Restart => WorkerView {
            previous: Some(tag.due),
            window: Seq::empty(),
            stats: SpectrumStatus {
                resets: radio::one_more(worker.stats.resets),
                ..worker.stats
            },
            ..worker
        },
    }
}

/// The task once a packet has been decoded into samples.
pub open spec fn heard(worker: WorkerView, pcm: Seq<i16>) -> WorkerView {
    WorkerView {
        window: spectrum::last(worker.window + spectrum::mono(pcm), FFT_SIZE as int),
        consecutive_errors: 0,
        stats: SpectrumStatus { frames: radio::one_more(worker.stats.frames), ..worker.stats },
        ..worker
    }
}

/// The task once a packet could not be decoded.
pub open spec fn failed(worker: WorkerView) -> WorkerView {
    WorkerView {
        window: Seq::empty(),
        previous: None,
        consecutive_errors: worker.consecutive_errors + 1,
        stats: SpectrumStatus { errors: radio::one_more(worker.stats.errors), ..worker.stats },
        ..worker
    }
}

/// A number within 32 bits.
pub open spec fn clamp32(value: int) -> int {
    if value > u32::MAX {
        u32::MAX as int
    } else {
        value
    }
}

/// The task once it has accounted for the time that a packet took.
pub open spec fn timed(worker: WorkerView, took: int, now: int) -> WorkerView {
    let total = playback::clamp64(worker.total_us + took);
    let max = worker.stats.max_us;
    WorkerView {
        total_us: total,
        stats: SpectrumStatus {
            mean_us: clamp32(total / (worker.stats.frames as int)) as u32,
            max_us: if clamp32(took) > max { clamp32(took) as u32 } else { max },
            ..worker.stats
        },
        next_stack_sample: if now >= worker.next_stack_sample {
            now + STACK_INTERVAL_US
        } else {
            worker.next_stack_sample
        },
        ..worker
    }
}

impl Worker {
    /// A task without history. The storage is the caller's and must fit the transform.
    pub fn new(history: Vec<i32>) -> (result: Result<Worker, Error>)
        ensures
            result is Ok <==> history@.len() == FFT_SIZE,
            match result {
                Ok(worker) => {
                    &&& worker@.window == Seq::<int>::empty()
                    &&& worker@.previous is None
                    &&& worker@.total_us == 0
                    &&& worker@.consecutive_errors == 0
                    &&& worker@.next_stack_sample == 0
                    &&& worker@.stats == (SpectrumStatus {
                        source: "fft",
                        fft_size: FFT_SIZE as u32,
                        sample_rate: spectrum::SAMPLE_RATE,
                        core: 1,
                        frames: 0,
                        errors: 0,
                        resets: 0,
                        input_dropped: 0,
                        output_dropped: 0,
                        stale: 0,
                        mean_us: 0,
                        max_us: 0,
                        stack_free: 0,
                    })
                },
                Err(error) => error == (Error { context: "invalid FFT history", cause: None }),
            },
    {
        match Window::new(history) {
            Err(_) => Err(Error::new("invalid FFT history")),
            Ok(window) => Ok(
                Worker {
                    window,
                    continuity: Continuity::default(),
                    stats: SpectrumStatus::default(),
                    total_us: 0,
                    consecutive_errors: 0,
                    next_stack_sample: 0,
                },
            ),
        }
    }

    /// Looks at a job.
    pub fn take_up(&mut self, tag: Tag, now_us: u64) -> (result: Admission)
        ensures
            result == admission(old(self)@, tag, now_us as int),
            final(self)@ == admitted(old(self)@, tag, now_us as int),
    {
        if !tag.is_fresh(tag.due.epoch, now_us) {
            self.stats.stale = self.stats.stale.saturating_add(1);
            self.continuity.clear();
            return Admission::Stale;
        }
        if self.continuity.begin(tag.due) {
            self.window.clear();
            self.stats.resets = self.stats.resets.saturating_add(1);
            Admission::Restart
        } else {
            Admission::Continue
        }
    }

    /// Takes in the samples of a packet, or that it could not be decoded. `true` where there are
    /// new samples.
    pub fn decoded(&mut self, pcm: Option<&[i16]>) -> (result: Result<bool, Error>)
        requires
            pcm is None ==> old(self)@.consecutive_errors < u32::MAX,
        ensures
            match pcm {
                Some(pcm) => if pcm@.len() % 2 == 0 {
                    &&& result == Ok::<bool, Error>(true)
                    &&& final(self)@ == heard(old(self)@, pcm@)
                    &&& final(self)@.stats.frames > 0
                } else {
                    &&& result == Err::<bool, Error>(
                        (Error { context: "invalid PCM shape", cause: None }),
                    )
                    &&& final(self)@ == old(self)@
                },
                None => {
                    &&& final(self)@ == failed(old(self)@)
                    &&& if final(self)@.consecutive_errors < FAILURE_LIMIT {
                        result == Ok::<bool, Error>(false)
                    } else {
                        result == Err::<bool, Error>(
                            (Error { context: "repeated Opus analysis failure", cause: None }),
                        )
                    }
                },
            },
    {
        match pcm {
            Some(pcm) => {
                match self.window.push_stereo(pcm) {
                    Err(_) => {
                        return Err(Error::new("invalid PCM shape"));
                    },
                    Ok(()) => {},
                }
                self.consecutive_errors = 0;
                self.stats.frames = self.stats.frames.saturating_add(1);
                Ok(true)
            },
            None => {
                self.stats.errors = self.stats.errors.saturating_add(1);
                self.consecutive_errors = self.consecutive_errors + 1;
                self.continuity.clear();
                self.window.clear();
                if self.consecutive_errors >= FAILURE_LIMIT {
                    Err(Error::new("repeated Opus analysis failure"))
                } else {
                    Ok(false)
                }
            },
        }
    }

    /// Writes the samples to transform, for a packet that asks for a spectrum and once the
    /// window is full.
    pub fn transform_input(&self, tag: Tag, out: &mut [i32]) -> (result: Result<bool, Error>)
        ensures
            final(out)@.len() == old(out)@.len(),
            if !tag.due.spectrum {
                result == Ok::<bool, Error>(false)
            } else if old(out)@.len() != 2 * FFT_SIZE {
                result == Err::<bool, Error>((Error { context: "invalid FFT input", cause: None }))
            } else {
                result == Ok::<bool, Error>(self@.window.len() == FFT_SIZE)
            },
            result == Ok::<bool, Error>(true) ==> final(out)@.map_values(
                |value: i32| value as int,
            ) == spectrum::complex(self@.window),
            result != Ok::<bool, Error>(true) ==> final(out)@ == old(out)@,
    {
        if !tag.due.spectrum {
            return Ok(false);
        }
        match self.window.write_complex(out) {
            Err(_) => Err(Error::new("invalid FFT input")),
            Ok(written) => Ok(written),
        }
    }

    /// Accounts for the time that a packet took; `true` where it is time to look at the stack.
    pub fn finish(&mut self, started_us: u64, ended_us: u64, now_us: u64) -> (look: bool)
        requires
            old(self)@.stats.frames > 0,
            now_us >= old(self)@.next_stack_sample ==> now_us + STACK_INTERVAL_US <= u64::MAX,
        ensures
            look == (now_us >= old(self)@.next_stack_sample),
            final(self)@ == timed(
                old(self)@,
                if ended_us < started_us {
                    0
                } else {
                    ended_us - started_us
                },
                now_us as int,
            ),
    {
        let took: u64 = ended_us.saturating_sub(started_us);
        self.total_us = self.total_us.saturating_add(took);
        let mean: u64 = self.total_us / self.stats.frames;
        self.stats.mean_us = if mean > u32::MAX as u64 {
            u32::MAX
        } else {
            mean as u32
        };
        let shown: u32 = if took > u32::MAX as u64 {
            u32::MAX
        } else {
            took as u32
        };
        if shown > self.stats.max_us {
            self.stats.max_us = shown;
        }
        let look = now_us >= self.next_stack_sample;
        if look {
            self.next_stack_sample = now_us + STACK_INTERVAL_US;
        }
        look
    }

    /// Notes how much of the stack is free.
    pub fn note_stack(&mut self, free: u32)
        ensures
            final(self)@ == (WorkerView {
                stats: SpectrumStatus { stack_free: free, ..old(self)@.stats },
                ..old(self)@
            }),
    {
        self.stats.stack_free = free;
    }

    /// The output for a packet whose bands have been computed.
    pub fn output(&self, tag: Tag, bands: [u8; 32]) -> (output: Output)
        ensures
            output == (Output { tag, bands, stats: self@.stats }),
    {
        Output { tag, bands, stats: self.stats }
    }

    /// Takes note of what became of an output: a full queue drops it, a closed one is an error.
    pub fn delivered(&mut self, outcome: Queued) -> (result: Result<(), Error>)
        ensures
            result is Ok <==> outcome != Queued::Closed,
            result matches Err(error) ==> error == (Error {
                context: "radio task stopped",
                cause: None,
            }),
            final(self)@ == (WorkerView {
                stats: SpectrumStatus {
                    output_dropped: if outcome == Queued::Full {
                        radio::one_more(old(self)@.stats.output_dropped)
                    } else {
                        old(self)@.stats.output_dropped
                    },
                    ..old(self)@.stats
                },
                ..old(self)@
            }),
    {
        match outcome {
            Queued::Taken => Ok(()),
            Queued::Full => {
                self.stats.output_dropped = self.stats.output_dropped.saturating_add(1);
                Ok(())
            },
            Queued::Closed => Err(Error::new("radio task stopped")),
        }
    }
}

/// Of what comes in, the latest that is fresh is shown, and what is not fresh is counted; the
/// counters are those that came last, fresh or not.
pub proof fn lemma_the_latest_fresh_output_is_shown(
    client: Client,
    shown: Option<Output>,
    output: Output,
    epoch: int,
    now: int,
)
    requires
        client.stale < u64::MAX,
    ensures
        ({
            let fresh = output.tag.due.epoch == epoch && 0 <= now - output.tag.queued_us
                <= 120_000;
            let after = informed(client, output, epoch, now);
            &&& newest(shown, output, epoch, now) == if fresh {
                Some(output)
            } else {
                shown
            }
            &&& after.stats == output.stats
            &&& after.stale - client.stale == if fresh {
                0int
            } else {
                1
            }
            &&& after.input_dropped == client.input_dropped
        }),
{
}

/// A job is left where it waited for more than 120 ms, or lies in the future. It goes on from the
/// packet before where it follows it by 20 ms in the same epoch, and starts afresh otherwise.
pub proof fn lemma_jobs_are_taken_up_in_order(worker: WorkerView, tag: Tag, now: int)
    ensures
        admission(worker, tag, now) is Stale <==> !(0 <= now - tag.queued_us <= 120_000),
        admission(worker, tag, now) is Continue <==> {
            &&& 0 <= now - tag.queued_us <= 120_000
            &&& worker.previous matches Some(last) && last.epoch == tag.due.epoch
                && tag.due.pts_ms == (last.pts_ms + 20) % 0x1_0000_0000
        },
{
}

/// What a job leaves behind: one that was left breaks the row of packets but keeps the samples;
/// one that goes on keeps both; one that starts afresh forgets the samples. Each is counted.
pub proof fn lemma_jobs_leave_the_right_samples(worker: WorkerView, tag: Tag, now: int)
    requires
        worker.stats.stale < u64::MAX,
        worker.stats.resets < u64::MAX,
    ensures
        ({
            let after = admitted(worker, tag, now);
            let how = admission(worker, tag, now);
            &&& after.previous == if how is Stale {
                None
            } else {
                Some(tag.due)
            }
            &&& after.window == if how is Restart {
                Seq::empty()
            } else {
                worker.window
            }
            &&& after.stats == (SpectrumStatus {
                stale: (worker.stats.stale + if how is Stale {
                    1int
                } else {
                    0
                }) as u64,
                resets: (worker.stats.resets + if how is Restart {
                    1int
                } else {
                    0
                }) as u64,
                ..worker.stats
            })
            &&& after.total_us == worker.total_us
            &&& after.consecutive_errors == worker.consecutive_errors
            &&& after.next_stack_sample == worker.next_stack_sample
        }),
{
}

/// A packet that was decoded adds the sums of its channels behind the samples before, counts as
/// one, and ends a row of failures. One that was not counts as a failure, and forgets both the
/// samples and the packet before; the tenth in a row is one too many.
pub proof fn lemma_packets_are_heard_or_counted(worker: WorkerView, pcm: Seq<i16>)
    requires
        worker.window.len() + pcm.len() / 2 <= 2048,
        pcm.len() % 2 == 0,
        worker.stats.frames < u64::MAX,
        worker.stats.errors < u64::MAX,
    ensures
        ({
            let after = heard(worker, pcm);
            &&& after.window.len() == worker.window.len() + pcm.len() / 2
            &&& after.window.take(worker.window.len() as int) == worker.window
            &&& forall|i: int|
                0 <= i < pcm.len() / 2 ==> #[trigger] after.window[worker.window.len() + i]
                    == pcm[2 * i] + pcm[2 * i + 1]
            &&& after.consecutive_errors == 0
            &&& after.stats == (SpectrumStatus {
                frames: (worker.stats.frames + 1) as u64,
                ..worker.stats
            })
            &&& after.previous == worker.previous
            &&& after.total_us == worker.total_us
        }),
        ({
            let after = failed(worker);
            &&& after.window.len() == 0
            &&& after.previous is None
            &&& after.consecutive_errors == worker.consecutive_errors + 1
            &&& after.stats == (SpectrumStatus {
                errors: (worker.stats.errors + 1) as u64,
                ..worker.stats
            })
            &&& after.total_us == worker.total_us
        }),
        FAILURE_LIMIT == 10,
{
    assert(heard(worker, pcm).window.take(worker.window.len() as int) =~= worker.window);
}

/// The time of a packet adds to the whole, the mean is the whole shared out over all packets, and
/// the longest stays the longest. The stack is looked at every five seconds.
pub proof fn lemma_times_add_up(worker: WorkerView, took: int, now: int)
    requires
        0 <= took,
        0 <= worker.total_us,
        worker.total_us + took <= u64::MAX,
        worker.stats.frames > 0,
        worker.total_us + took <= u32::MAX * worker.stats.frames,
    ensures
        ({
            let after = timed(worker, took, now);
            let total = worker.total_us + took;
            let frames = worker.stats.frames as int;
            &&& after.total_us == total
            &&& after.stats.mean_us * frames <= total < (after.stats.mean_us + 1) * frames
            &&& after.stats.max_us >= worker.stats.max_us
            &&& took <= u32::MAX ==> after.stats.max_us >= took && (after.stats.max_us
                == worker.stats.max_us || after.stats.max_us == took)
            &&& took > u32::MAX ==> after.stats.max_us == u32::MAX
            &&& after.next_stack_sample == if now >= worker.next_stack_sample {
                now + 5_000_000
            } else {
                worker.next_stack_sample
            }
            &&& after.window == worker.window
            &&& after.previous == worker.previous
            &&& after.consecutive_errors == worker.consecutive_errors
        }),
{
    let total = worker.total_us + took;
    let frames = worker.stats.frames as int;
    let mean = total / frames;
    vstd::arithmetic::div_mod::lemma_fundamental_div_mod(total, frames);
    vstd::arithmetic::div_mod::lemma_div_pos_is_pos(total, frames);
    assert(mean <= u32::MAX) by (nonlinear_arith)
        requires
            frames > 0,
            frames * mean <= total,
            total <= u32::MAX * frames,
    ;
    assert(mean * frames == frames * mean) by (nonlinear_arith);
    assert((mean + 1) * frames == mean * frames + frames) by (nonlinear_arith);
}

} // verus!
