//! Windowed scheduler accounting and measured hardware telemetry; no platform calls.
use crate::error::Error;
use vstd::arithmetic::div_mod::*;
use vstd::prelude::*;

verus! {

#[derive(Debug, Clone, Copy)]
pub struct Memory {
    pub free: u32,
    pub minimum_free: u32,
    pub largest_block: u32,
}

#[derive(Debug, Clone, Copy)]
pub struct Hardware {
    pub sampled_at_ms: u64,
    pub cpu_busy_bps: [Option<u16>; 2],
    pub chip_temperature_mc: Option<i32>,
    pub internal: Memory,
    pub psram: Memory,
    pub sample_cost_us: u32,
    pub sampler_stack_free: u32,
}

/// The shortest and the longest window that gives a sample, in microseconds.
pub const SHORTEST_WINDOW_US: u64 = 100_000;

pub const LONGEST_WINDOW_US: u64 = 5_000_000;

/// Cumulative idle times are committed on task switches, so invalid deltas are
/// unavailable samples rather than a fabricated zero or saturated percentage.
#[derive(Debug)]
pub struct CpuWindow {
    previous: Option<(u64, [u64; 2])>,
}

/// The share of a window in which a core was busy, in hundredths of a percent, where the
/// window and the core's idle time in it make sense.
pub open spec fn busy(elapsed: int, idle: int) -> Option<u16> {
    if SHORTEST_WINDOW_US <= elapsed <= LONGEST_WINDOW_US && 0 <= idle <= elapsed {
        Some(((elapsed - idle) * 10_000 / elapsed) as u16)
    } else {
        None
    }
}

impl View for CpuWindow {
    type V = Option<(u64, Seq<u64>)>;

    closed spec fn view(&self) -> Option<(u64, Seq<u64>)> {
        match self.previous {
            Some((at, idle)) => Some((at, idle@)),
            None => None,
        }
    }
}

impl Default for CpuWindow {
    fn default() -> (window: Self)
        ensures
            window@ is None,
    {
        CpuWindow { previous: None }
    }
}

fn busy_share(elapsed: u64, before: u64, now: u64) -> (share: Option<u16>)
    requires
        SHORTEST_WINDOW_US <= elapsed <= LONGEST_WINDOW_US,
    ensures
        share == busy(elapsed as int, now - before),
{
    if now < before || now - before > elapsed {
        return None;
    }
    let working: u64 = elapsed - (now - before);
    proof {
        lemma_busy_fits(elapsed as int, working as int);
    }
    Some((working * 10_000 / elapsed) as u16)
}

/// A part of a window is at most ten thousand ten-thousandths of it.
proof fn lemma_busy_fits(elapsed: int, part: int)
    requires
        0 < elapsed,
        0 <= part <= elapsed,
    ensures
        0 <= part * 10_000 / elapsed <= 10_000,
{
    lemma_div_is_ordered(part * 10_000, elapsed * 10_000, elapsed);
    lemma_div_multiples_vanish(10_000, elapsed);
    lemma_div_pos_is_pos(part * 10_000, elapsed);
}

impl CpuWindow {
    /// The busy share of each core since the last call.
    pub fn sample(&mut self, now_us: u64, idle_us: [u64; 2]) -> (shares: [Option<u16>; 2])
        ensures
            final(self)@ == Some((now_us, idle_us@)),
            match old(self)@ {
                None => shares@ == seq![None::<u16>, None::<u16>],
                Some((before_us, before_idle)) => shares@ == seq![
                    busy(now_us - before_us, idle_us@[0] - before_idle[0]),
                    busy(now_us - before_us, idle_us@[1] - before_idle[1]),
                ],
            },
    {
        let previous = self.previous;
        self.previous = Some((now_us, idle_us));
        let shares: [Option<u16>; 2] = match previous {
            None => [None, None],
            Some((before_us, before_idle)) => {
                if now_us < before_us {
                    [None, None]
                } else {
                    let elapsed: u64 = now_us - before_us;
                    if elapsed < SHORTEST_WINDOW_US || elapsed > LONGEST_WINDOW_US {
                        [None, None]
                    } else {
                        [
                            busy_share(elapsed, before_idle[0], idle_us[0]),
                            busy_share(elapsed, before_idle[1], idle_us[1]),
                        ]
                    }
                }
            },
        };
        shares
    }
}

/// A finished sample, with the signal strength of the network.
#[derive(Debug, Clone, Copy)]
pub struct Reading {
    pub hardware: Hardware,
    pub rssi: Option<i32>,
}

/// The age up to which a reading counts, in milliseconds.
pub const READING_AGE_MS: u64 = 3000;

/// A reading counts from when it was taken until it is too old.
pub open spec fn current(reading: Reading, now: int) -> bool {
    reading.hardware.sampled_at_ms <= now / 1000 <= reading.hardware.sampled_at_ms + READING_AGE_MS
}

/// The reading that arrived last.
#[derive(Debug)]
pub struct Readings {
    pub latest: Option<Reading>,
}

impl Readings {
    pub fn new() -> (readings: Self)
        ensures
            readings.latest is None,
    {
        Readings { latest: None }
    }

    /// Takes in what arrived, and gives the last reading unless it is too old.
    pub fn latest(&mut self, received: Option<Reading>, now_us: u64) -> (reading: Option<Reading>)
        ensures
            final(self).latest == match received {
                Some(_) => received,
                None => old(self).latest,
            },
            reading == match final(self).latest {
                Some(latest) => if current(latest, now_us as int) {
                    Some(latest)
                } else {
                    None
                },
                None => None,
            },
    {
        if received.is_some() {
            self.latest = received;
        }
        match self.latest {
            None => None,
            Some(latest) => {
                let now_ms: u64 = now_us / 1000;
                if now_ms >= latest.hardware.sampled_at_ms && now_ms
                    - latest.hardware.sampled_at_ms <= READING_AGE_MS {
                    Some(latest)
                } else {
                    None
                }
            },
        }
    }
}

/// What the platform measures in one go.
#[derive(Debug, Clone, Copy)]
pub struct Sample {
    pub now_us: u64,
    pub idle_us: [u64; 2],
    pub temperature_mc: Option<i32>,
    pub rssi: Option<i32>,
    pub internal: Memory,
    pub psram: Memory,
}

/// A sensor without a value reports the smallest number.
pub open spec fn measured(value: i32) -> Option<i32> {
    if value == i32::MIN {
        None
    } else {
        Some(value)
    }
}

/// Three numbers that describe a pool of memory.
pub open spec fn pool_at(memory: Seq<u32>, offset: int) -> Memory {
    Memory {
        free: memory[offset],
        minimum_free: memory[offset + 1],
        largest_block: memory[offset + 2],
    }
}

fn sensor(value: i32) -> (result: Option<i32>)
    ensures
        result == measured(value),
{
    if value == i32::MIN {
        None
    } else {
        Some(value)
    }
}

fn pool(memory: &[u32; 6], offset: usize) -> (result: Memory)
    requires
        offset <= 3,
    ensures
        result == pool_at(memory@, offset as int),
{
    Memory {
        free: memory[offset],
        minimum_free: memory[offset + 1],
        largest_block: memory[offset + 2],
    }
}

impl Sample {
    /// Takes apart the platform's arrays: the clock and the idle time of each core, two pools of
    /// memory, the temperature and the signal strength.
    pub fn from_raw(clocks: [u64; 3], memory: [u32; 6], sensors: [i32; 2]) -> (sample: Self)
        ensures
            sample.now_us == clocks@[0],
            sample.idle_us@ == seq![clocks@[1], clocks@[2]],
            sample.temperature_mc == measured(sensors@[0]),
            sample.rssi == measured(sensors@[1]),
            sample.internal == pool_at(memory@, 0),
            sample.psram == pool_at(memory@, 3),
    {
        let idle_us: [u64; 2] = [clocks[1], clocks[2]];
        assert(idle_us@ =~= seq![clocks@[1], clocks@[2]]);
        Sample {
            now_us: clocks[0],
            idle_us,
            temperature_mc: sensor(sensors[0]),
            rssi: sensor(sensors[1]),
            internal: pool(&memory, 0),
            psram: pool(&memory, 3),
        }
    }
}

/// The time between detailed samples and between any two samples, in microseconds.
pub const DETAIL_INTERVAL_US: u64 = 5_000_000;

pub const SAMPLE_INTERVAL_US: u64 = 1_000_000;

/// Decides when to sample in detail, and puts readings together.
#[derive(Debug)]
pub struct Sampler {
    cpu: CpuWindow,
    next_detailed: u64,
    stack_free: u32,
}

/// What a sampler remembers.
pub struct SamplerView {
    pub cpu: Option<(u64, Seq<u64>)>,
    pub next_detailed: int,
    pub stack_free: u32,
}

impl View for Sampler {
    type V = SamplerView;

    closed spec fn view(&self) -> SamplerView {
        SamplerView {
            cpu: self.cpu@,
            next_detailed: self.next_detailed as int,
            stack_free: self.stack_free,
        }
    }
}

/// The busy shares of both cores since the sample before.
pub open spec fn shares(before: Option<(u64, Seq<u64>)>, now: u64, idle: Seq<u64>) -> Seq<
    Option<u16>,
> {
    match before {
        None => seq![None::<u16>, None::<u16>],
        Some((before_us, before_idle)) => seq![
            busy(now - before_us, idle[0] - before_idle[0]),
            busy(now - before_us, idle[1] - before_idle[1]),
        ],
    }
}

/// A time within 32 bits, none where the clock ran back.
pub open spec fn cost(began: int, ended: int) -> int {
    if ended < began {
        0
    } else if ended - began > u32::MAX {
        u32::MAX as int
    } else {
        ended - began
    }
}

impl Sampler {
    pub fn new() -> (sampler: Self)
        ensures
            sampler@ == (SamplerView { cpu: None, next_detailed: 0, stack_free: 0 }),
    {
        Sampler { cpu: CpuWindow::default(), next_detailed: 0, stack_free: 0 }
    }

    /// Whether the sample that starts now is a detailed one.
    pub fn detailed(&self, started_us: u64) -> (detailed: bool)
        ensures
            detailed == (started_us >= self@.next_detailed),
    {
        started_us >= self.next_detailed
    }

    /// Notes the stack that a detailed sample found free.
    pub fn note_detail(&mut self, started_us: u64, stack_free: u32)
        requires
            started_us + DETAIL_INTERVAL_US <= u64::MAX,
        ensures
            final(self)@ == (SamplerView {
                cpu: old(self)@.cpu,
                next_detailed: started_us + DETAIL_INTERVAL_US,
                stack_free,
            }),
    {
        self.stack_free = stack_free;
        self.next_detailed = started_us + DETAIL_INTERVAL_US;
    }

    /// Puts a reading together; `ended_us` is the time at which it is done.
    pub fn reading(&mut self, started_us: u64, sample: Sample, ended_us: u64) -> (reading: Reading)
        ensures
            final(self)@ == (SamplerView {
                cpu: Some((sample.now_us, sample.idle_us@)),
                ..old(self)@
            }),
            reading.rssi == sample.rssi,
            reading.hardware.sampled_at_ms == sample.now_us / 1000,
            reading.hardware.cpu_busy_bps@ == shares(
                old(self)@.cpu,
                sample.now_us,
                sample.idle_us@,
            ),
            reading.hardware.chip_temperature_mc == sample.temperature_mc,
            reading.hardware.internal == sample.internal,
            reading.hardware.psram == sample.psram,
            reading.hardware.sample_cost_us == cost(started_us as int, ended_us as int),
            reading.hardware.sampler_stack_free == old(self)@.stack_free,
    {
        let took: u64 = ended_us.saturating_sub(started_us);
        let sample_cost_us: u32 = if took > u32::MAX as u64 {
            u32::MAX
        } else {
            took as u32
        };
        Reading {
            hardware: Hardware {
                sampled_at_ms: sample.now_us / 1000,
                cpu_busy_bps: self.cpu.sample(sample.now_us, sample.idle_us),
                chip_temperature_mc: sample.temperature_mc,
                internal: sample.internal,
                psram: sample.psram,
                sample_cost_us,
                sampler_stack_free: self.stack_free,
            },
            rssi: sample.rssi,
        }
    }

    /// How long to rest so that samples start one second apart.
    pub fn rest_us(started_us: u64, now_us: u64) -> (rest: u64)
        requires
            started_us + SAMPLE_INTERVAL_US <= u64::MAX,
        ensures
            rest == if now_us >= started_us + SAMPLE_INTERVAL_US {
                0
            } else {
                started_us + SAMPLE_INTERVAL_US - now_us
            },
    {
        (started_us + SAMPLE_INTERVAL_US).saturating_sub(now_us)
    }
}

/// Work on the floating-point unit stays on core 1.
pub fn require_core_one(core: i32, context: &'static str) -> (result: Result<(), Error>)
    ensures
        result is Ok <==> core == 1,
        result matches Err(error) ==> error == (Error { context, cause: None }),
{
    if core != 1 {
        Err(Error::new(context))
    } else {
        Ok(())
    }
}

/// A share is at most ten thousand hundredths of a percent, is zero for a core that idled all
/// the time and full for one that never did.
pub proof fn lemma_busy_share_is_bounded(elapsed: int, idle: int)
    ensures
        busy(elapsed, idle) matches Some(share) ==> share <= 10_000,
        SHORTEST_WINDOW_US <= elapsed <= LONGEST_WINDOW_US ==> {
            &&& busy(elapsed, elapsed) == Some(0u16)
            &&& busy(elapsed, 0) == Some(10_000u16)
        },
{
    if SHORTEST_WINDOW_US <= elapsed <= LONGEST_WINDOW_US {
        if 0 <= idle <= elapsed {
            lemma_busy_fits(elapsed, elapsed - idle);
        }
        lemma_div_multiples_vanish(10_000, elapsed);
        assert((elapsed - elapsed) * 10_000 / elapsed == 0) by (nonlinear_arith)
            requires
                elapsed > 0,
        ;
    }
}

/// A share is there exactly where the window lasted a tenth of a second to five seconds and the
/// core did not idle longer than that, nor less than nothing. It is then the part of the window
/// in which the core did not idle, in hundredths of a percent, rounded down.
pub proof fn lemma_a_share_is_the_time_not_idled(elapsed: int, idle: int)
    ensures
        busy(elapsed, idle) is Some <==> 100_000 <= elapsed <= 5_000_000 && 0 <= idle <= elapsed,
        busy(elapsed, idle) matches Some(share) ==> share * elapsed <= 10_000 * (elapsed - idle)
            < (share + 1) * elapsed,
{
    if 100_000 <= elapsed <= 5_000_000 && 0 <= idle <= elapsed {
        let part = elapsed - idle;
        lemma_busy_fits(elapsed, part);
        lemma_fundamental_div_mod(part * 10_000, elapsed);
        let share = part * 10_000 / elapsed;
        assert(busy(elapsed, idle) == Some(share as u16));
        assert(share * elapsed == elapsed * share) by (nonlinear_arith);
        assert((share + 1) * elapsed == share * elapsed + elapsed) by (nonlinear_arith);
    }
}

/// Both cores are measured over the same window, each by its own idle time; the first sample has
/// no window.
pub proof fn lemma_each_core_has_its_own_share(
    before: Option<(u64, Seq<u64>)>,
    now: u64,
    idle: Seq<u64>,
)
    requires
        idle.len() == 2,
    ensures
        shares(before, now, idle).len() == 2,
        before is None ==> forall|core: int|
            0 <= core < 2 ==> #[trigger] shares(before, now, idle)[core] is None,
        before matches Some((then, then_idle)) ==> forall|core: int|
            0 <= core < 2 ==> #[trigger] shares(before, now, idle)[core] == busy(
                now - then,
                idle[core] - then_idle[core],
            ),
{
}

/// A reading counts for three seconds from when it was taken, and not before.
pub proof fn lemma_readings_count_for_three_seconds(reading: Reading, now: int)
    requires
        0 <= now,
    ensures
        current(reading, now) <==> 0 <= now / 1000 - reading.hardware.sampled_at_ms <= 3000,
{
}

/// A sensor gives its value unless that is the smallest number, and pools of memory are read from
/// their own three numbers.
pub proof fn lemma_raw_values_are_taken_as_they_are(value: i32, memory: Seq<u32>, pool: int)
    requires
        memory.len() == 6,
        0 <= pool < 2,
    ensures
        measured(value) == if value == -0x8000_0000 {
            None
        } else {
            Some(value)
        },
        pool_at(memory, 3 * pool).free == memory[3 * pool],
        pool_at(memory, 3 * pool).minimum_free == memory[3 * pool + 1],
        pool_at(memory, 3 * pool).largest_block == memory[3 * pool + 2],
{
}

/// The cost of a sample is the time between its start and its end, within 32 bits; a clock that
/// ran back costs nothing. Samples start a second apart, detailed ones five.
pub proof fn lemma_costs_are_times(began: int, ended: int)
    ensures
        0 <= ended - began <= u32::MAX ==> cost(began, ended) == ended - began,
        ended < began ==> cost(began, ended) == 0,
        ended - began > u32::MAX ==> cost(began, ended) == u32::MAX,
        SAMPLE_INTERVAL_US == 1_000_000,
        DETAIL_INTERVAL_US == 5_000_000,
{
}

} // verus!
