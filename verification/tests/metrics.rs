use radio_core::metrics::{
    require_core_one, CpuWindow, Hardware, Memory, Reading, Readings, Sample, Sampler,
};
use radio_core::protocol::{Color, MusicStatus, SpectrumStatus, Telemetry};
use serde::ser::SerializeStruct;

#[test]
fn cpu_windows_measure_each_core_and_keep_u64_counters() {
    let mut meter = CpuWindow::default();
    let base = u32::MAX as u64 + 1_000_000;
    assert_eq!(meter.sample(base, [base - 1000, base - 2000]), [None, None]);
    assert_eq!(
        meter.sample(base + 1_000_000, [base + 799_000, base + 398_000]),
        [Some(2000), Some(6000)]
    );
    assert_eq!(
        meter.sample(base + 2_000_000, [base + 1_799_000, base + 398_000]),
        [Some(0), Some(10_000)]
    );
}

#[test]
fn invalid_or_discontinuous_accounting_is_unavailable_and_recovers() {
    let mut meter = CpuWindow::default();
    meter.sample(1_000_000, [500_000, 500_000]);
    assert_eq!(meter.sample(2_000_000, [400_000, 1_600_000]), [None, None]);
    assert_eq!(meter.sample(3_000_000, [900_000, 2_100_000]), [Some(5000), Some(5000)]);
    assert_eq!(meter.sample(10_000_000, [1_000_000, 2_200_000]), [None, None]);
    assert_eq!(meter.sample(10_000_001, [1_000_001, 2_200_001]), [None, None]);
    assert_eq!(meter.sample(11_000_001, [1_500_001, 2_700_001]), [Some(5000), Some(5000)]);
    assert_eq!(meter.sample(0, [0, 0]), [None, None]);
}

#[test]
fn windows_count_from_a_tenth_of_a_second_to_five_seconds() {
    for (elapsed, share) in
        [(99_999, None), (100_000, Some(10_000)), (5_000_000, Some(10_000)), (5_000_001, None)]
    {
        let mut meter = CpuWindow::default();
        meter.sample(7, [1, 1]);
        assert_eq!(meter.sample(7 + elapsed, [1, 1]), [share, share]);
    }
}

fn raw() -> Sample {
    Sample::from_raw([9_500, 10, 20], [1, 2, 3, 4, 5, 6], [i32::MIN, -61])
}

#[test]
fn native_samples_are_taken_apart() {
    let sample = raw();
    assert_eq!((sample.now_us, sample.idle_us), (9_500, [10, 20]));
    assert_eq!((sample.temperature_mc, sample.rssi), (None, Some(-61)));
    assert_eq!(
        (sample.internal.free, sample.internal.minimum_free, sample.internal.largest_block),
        (1, 2, 3)
    );
    assert_eq!(
        (sample.psram.free, sample.psram.minimum_free, sample.psram.largest_block),
        (4, 5, 6)
    );
}

#[test]
fn samplers_look_closer_every_five_seconds() {
    let mut sampler = Sampler::new();
    assert!(sampler.detailed(0));
    sampler.note_detail(1_000, 4096);
    assert!(!sampler.detailed(5_000_999));
    assert!(sampler.detailed(5_001_000));
    let reading = sampler.reading(9_000, raw(), 9_800);
    assert_eq!(reading.hardware.sampled_at_ms, 9);
    assert_eq!(reading.hardware.sample_cost_us, 800);
    assert_eq!(reading.hardware.sampler_stack_free, 4096);
    assert_eq!(reading.hardware.cpu_busy_bps, [None, None]);
    assert_eq!(reading.rssi, Some(-61));
    assert_eq!(sampler.reading(9_000, raw(), 8_000).hardware.sample_cost_us, 0);
    assert_eq!(sampler.reading(0, raw(), u64::MAX).hardware.sample_cost_us, u32::MAX);
    assert_eq!(Sampler::rest_us(1_000, 401_000), 600_000);
    assert_eq!(Sampler::rest_us(1_000, 2_000_000), 0);
}

fn reading(sampled_at_ms: u64) -> Reading {
    let memory = Memory { free: 1, minimum_free: 1, largest_block: 1 };
    Reading {
        hardware: Hardware {
            sampled_at_ms,
            cpu_busy_bps: [None, None],
            chip_temperature_mc: None,
            internal: memory,
            psram: memory,
            sample_cost_us: 0,
            sampler_stack_free: 0,
        },
        rssi: None,
    }
}

#[test]
fn readings_age_out_after_three_seconds() {
    let mut readings = Readings::new();
    assert!(readings.latest(None, 0).is_none());
    assert!(readings.latest(Some(reading(1_000)), 1_000_000).is_some());
    assert!(readings.latest(None, 4_000_999).is_some());
    assert!(readings.latest(None, 4_001_000).is_none());
    assert!(readings.latest(None, 999_999).is_none());
    assert_eq!(
        readings.latest(Some(reading(4_000)), 4_001_000).unwrap().hardware.sampled_at_ms,
        4_000
    );
}

#[test]
fn sampling_stays_on_core_one() {
    assert!(require_core_one(1, "metrics must run on core 1").is_ok());
    let error = require_core_one(0, "metrics must run on core 1").unwrap_err();
    assert_eq!(error.message(), "metrics must run on core 1");
}

struct WireMemory<'a>(&'a Memory);

impl serde::Serialize for WireMemory<'_> {
    fn serialize<S: serde::Serializer>(&self, serializer: S) -> Result<S::Ok, S::Error> {
        let mut object = serializer.serialize_struct("Memory", 3)?;
        object.serialize_field("free", &self.0.free)?;
        object.serialize_field("minimumFree", &self.0.minimum_free)?;
        object.serialize_field("largestBlock", &self.0.largest_block)?;
        object.end()
    }
}

struct WireHardware<'a>(&'a Hardware);

impl serde::Serialize for WireHardware<'_> {
    fn serialize<S: serde::Serializer>(&self, serializer: S) -> Result<S::Ok, S::Error> {
        let mut object = serializer.serialize_struct("Hardware", 7)?;
        object.serialize_field("sampledAtMs", &self.0.sampled_at_ms)?;
        object.serialize_field("cpuBusyBps", &self.0.cpu_busy_bps)?;
        object.serialize_field("chipTemperatureMc", &self.0.chip_temperature_mc)?;
        object.serialize_field("internal", &WireMemory(&self.0.internal))?;
        object.serialize_field("psram", &WireMemory(&self.0.psram))?;
        object.serialize_field("sampleCostUs", &self.0.sample_cost_us)?;
        object.serialize_field("samplerStackFree", &self.0.sampler_stack_free)?;
        object.end()
    }
}

struct WireMusic<'a>(&'a MusicStatus);

impl serde::Serialize for WireMusic<'_> {
    fn serialize<S: serde::Serializer>(&self, serializer: S) -> Result<S::Ok, S::Error> {
        let mut object = serializer.serialize_struct("MusicStatus", 4)?;
        object.serialize_field("cacheBytes", &self.0.cache_bytes)?;
        object.serialize_field("indexBytes", &self.0.index_bytes)?;
        object.serialize_field("reads", &self.0.reads)?;
        object.serialize_field("maxReadUs", &self.0.max_read_us)?;
        object.end()
    }
}

struct WireSpectrum<'a>(&'a SpectrumStatus);

impl serde::Serialize for WireSpectrum<'_> {
    fn serialize<S: serde::Serializer>(&self, serializer: S) -> Result<S::Ok, S::Error> {
        let mut object = serializer.serialize_struct("SpectrumStatus", 13)?;
        object.serialize_field("source", &self.0.source)?;
        object.serialize_field("fftSize", &self.0.fft_size)?;
        object.serialize_field("sampleRate", &self.0.sample_rate)?;
        object.serialize_field("core", &self.0.core)?;
        object.serialize_field("frames", &self.0.frames)?;
        object.serialize_field("errors", &self.0.errors)?;
        object.serialize_field("resets", &self.0.resets)?;
        object.serialize_field("inputDropped", &self.0.input_dropped)?;
        object.serialize_field("outputDropped", &self.0.output_dropped)?;
        object.serialize_field("stale", &self.0.stale)?;
        object.serialize_field("meanUs", &self.0.mean_us)?;
        object.serialize_field("maxUs", &self.0.max_us)?;
        object.serialize_field("stackFree", &self.0.stack_free)?;
        object.end()
    }
}

struct WireTelemetry<'a>(&'a Telemetry);

impl serde::Serialize for WireTelemetry<'_> {
    fn serialize<S: serde::Serializer>(&self, serializer: S) -> Result<S::Ok, S::Error> {
        let mut object = serializer.serialize_struct("Telemetry", 20)?;
        object.serialize_field("event", &self.0.event)?;
        object.serialize_field("firmware", &self.0.firmware)?;
        object.serialize_field("sequence", &self.0.sequence)?;
        object.serialize_field("uptimeMs", &self.0.uptime_ms)?;
        object.serialize_field("positionMs", &self.0.position_ms)?;
        object.serialize_field("durationMs", &self.0.duration_ms)?;
        object.serialize_field("playbackRevision", &self.0.playback_revision)?;
        object.serialize_field("music", &WireMusic(&self.0.music))?;
        object.serialize_field("paused", &self.0.paused)?;
        object.serialize_field("rssi", &self.0.rssi)?;
        object.serialize_field("hardware", &self.0.hardware.as_ref().map(WireHardware))?;
        object.serialize_field("heap", &self.0.heap)?;
        object.serialize_field("audioErrors", &self.0.audio_errors)?;
        object.serialize_field("dataErrors", &self.0.data_errors)?;
        object.serialize_field("skippedFrames", &self.0.skipped_frames)?;
        object.serialize_field("rejectedCommands", &self.0.rejected_commands)?;
        object.serialize_field("droppedCommands", &self.0.dropped_commands)?;
        object.serialize_field("stackFree", &self.0.stack_free)?;
        object.serialize_field("spectrum", &WireSpectrum(&self.0.spectrum))?;
        object.serialize_field("led", &self.0.led.0)?;
        object.end()
    }
}

#[test]
fn hardware_telemetry_fits_the_transport_data_limit_at_counter_limits() {
    let memory =
        Memory { free: u32::MAX, minimum_free: u32::MAX, largest_block: u32::MAX };
    let packet = Telemetry {
        event: "telemetry",
        firmware: "rust",
        sequence: u64::MAX,
        uptime_ms: u64::MAX,
        position_ms: u32::MAX,
        duration_ms: u32::MAX,
        playback_revision: u32::MAX,
        music: MusicStatus {
            cache_bytes: u32::MAX,
            index_bytes: u32::MAX,
            reads: u32::MAX,
            max_read_us: u32::MAX,
        },
        paused: false,
        rssi: Some(-127),
        heap: u32::MAX,
        led: Color([255; 3]),
        audio_errors: u64::MAX,
        data_errors: u64::MAX,
        skipped_frames: u64::MAX,
        rejected_commands: u64::MAX,
        dropped_commands: u32::MAX,
        stack_free: u32::MAX,
        spectrum: SpectrumStatus {
            frames: u64::MAX,
            errors: u64::MAX,
            resets: u64::MAX,
            input_dropped: u64::MAX,
            output_dropped: u64::MAX,
            stale: u64::MAX,
            mean_us: u32::MAX,
            max_us: u32::MAX,
            stack_free: u32::MAX,
            ..SpectrumStatus::default()
        },
        hardware: Some(Hardware {
            sampled_at_ms: u64::MAX,
            cpu_busy_bps: [Some(10000); 2],
            chip_temperature_mc: Some(-10000),
            internal: memory,
            psram: memory,
            sample_cost_us: u32::MAX,
            sampler_stack_free: u32::MAX,
        }),
    };
    let bytes = serde_json::to_vec(&WireTelemetry(&packet)).unwrap();
    assert!(bytes.len() <= 2048, "{} bytes exceed the native packet capacity", bytes.len());
    assert!(!serde_json::from_slice::<serde_json::Value>(&bytes)
        .unwrap()
        .as_object()
        .unwrap()
        .contains_key("random"));
}
