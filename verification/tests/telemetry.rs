use llama_cpp_profiler::measure::Real;
use llama_cpp_profiler::profile::RunMetrics;
use llama_cpp_profiler::telemetry::{
    collect_once, parse_gpu_sample, parse_meminfo, parse_status_rss, TelemetryAccumulator,
    TelemetrySample, TelemetrySummary,
};
use llama_cpp_profiler::time::Timestamp;

fn measure(value: f64) -> Real {
    Real { bits: value.to_bits() }
}

fn finish(acc: &TelemetryAccumulator) -> TelemetrySummary {
    let gpu = if acc.gpu_util_samples > 0 {
        Some(measure(acc.gpu_util_total as f64 / acc.gpu_util_samples as f64))
    } else {
        None
    };
    let cpu = if acc.cpu_util_values.is_empty() {
        None
    } else {
        let total: f64 = acc.cpu_util_values.iter().map(|value| f64::from_bits(value.bits)).sum();
        Some(measure(total / acc.cpu_util_values.len() as f64))
    };
    acc.finish(gpu, cpu)
}

fn sample() -> TelemetrySample {
    TelemetrySample {
        timestamp: Timestamp { seconds: 0, nanos: 0 },
        vram_used_mib: Some(100),
        vram_free_mib: Some(1000),
        gpu_util_pct: Some(10),
        ram_available_mib: Some(8000),
        swap_used_mib: Some(0),
        process_rss_mib: Some(50),
        process_cpu_pct: Some(measure(5.0)),
        gpu_index: Some(0),
    }
}

#[test]
fn accumulator_tracks_min_max_and_delta() {
    let mut acc = TelemetryAccumulator::new();
    acc.push(&sample());
    acc.push(&TelemetrySample {
        timestamp: Timestamp { seconds: 1, nanos: 0 },
        vram_used_mib: Some(300),
        vram_free_mib: Some(700),
        gpu_util_pct: Some(30),
        ram_available_mib: Some(7000),
        swap_used_mib: Some(128),
        process_rss_mib: Some(75),
        process_cpu_pct: Some(measure(15.0)),
        gpu_index: Some(0),
    });
    let summary = finish(&acc);
    assert_eq!(summary.peak_vram_mib, Some(300));
    assert_eq!(summary.min_free_vram_mib, Some(700));
    assert_eq!(summary.gpu_util_avg_pct, Some(measure(20.0)));
    assert_eq!(summary.swap_delta_mib, Some(128));
    assert_eq!(summary.process_rss_peak_mib, Some(75));
    assert_eq!(summary.cpu_util_avg_pct, Some(measure(10.0)));
    assert_eq!(summary.ram_available_min_mib, Some(7000));
    assert_eq!(summary.gpu_util_max_pct, Some(30));
    assert_eq!(summary.sample_count, 2);
    let metrics = RunMetrics::from_telemetry(&summary);
    assert_eq!(metrics.peak_vram_mib, Some(300));
    assert_eq!(metrics.swap_delta_mib, Some(128));
    assert_eq!(metrics.client_ttft_ms, None);
}

#[test]
fn nothing_is_made_of_no_samples() {
    let summary = finish(&TelemetryAccumulator::new());
    assert_eq!(summary, TelemetrySummary::default());
}

#[test]
fn swap_can_fall() {
    let mut acc = TelemetryAccumulator::new();
    let mut first = sample();
    first.swap_used_mib = Some(500);
    acc.push(&first);
    acc.push(&sample());
    assert_eq!(finish(&acc).swap_delta_mib, Some(-500));
}

#[test]
fn reads_gauges() {
    let gpu = parse_gpu_sample("1024, 23000, 45\n").unwrap();
    assert_eq!(gpu.vram_used_mib, Some(1024));
    assert_eq!(gpu.vram_free_mib, Some(23000));
    assert_eq!(gpu.gpu_util_pct, Some(45));
    let memory =
        parse_meminfo("MemAvailable: 2048 kB\nSwapTotal: 4096 kB\nSwapFree: 1024 kB\n");
    assert_eq!(memory.ram_available_mib, Some(2));
    assert_eq!(memory.swap_used_mib, Some(3));
    assert_eq!(parse_status_rss("Name: x\nVmRSS:     10240 kB\n"), Some(10));
    assert_eq!(parse_status_rss("Name: x\n"), None);
    let all = collect_once(
        Timestamp { seconds: 9, nanos: 0 },
        Some(1),
        Some(gpu),
        Some(memory),
        Some(10),
        None,
    );
    assert_eq!(all.gpu_index, Some(1));
    assert_eq!(all.vram_used_mib, Some(1024));
    assert_eq!(all.swap_used_mib, Some(3));
    let none = collect_once(Timestamp { seconds: 9, nanos: 0 }, None, None, None, None, None);
    assert_eq!(none.vram_used_mib, None);
    assert_eq!(none.ram_available_mib, None);
}
