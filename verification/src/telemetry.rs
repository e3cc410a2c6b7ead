//! Telemetry: what the machine reports while a run is under way.
use crate::environment::{keyed_number, last_keyed, opt_nat, parse_meminfo_line, parse_piece};
use crate::environment::{divided, number_piece};
use crate::measure::Real;
use crate::profile::RunMetrics;
use crate::ranking::as_signed;
use crate::text;
use crate::time::Timestamp;
use vstd::prelude::*;

verus! {

/// What the machine reports at one time.
#[derive(Clone, Copy, Debug, PartialEq)]
pub struct TelemetrySample {
    pub timestamp: Timestamp,
    pub gpu_index: Option<u32>,
    pub vram_used_mib: Option<u64>,
    pub vram_free_mib: Option<u64>,
    pub gpu_util_pct: Option<u64>,
    pub ram_available_mib: Option<u64>,
    pub swap_used_mib: Option<u64>,
    pub process_rss_mib: Option<u64>,
    pub process_cpu_pct: Option<Real>,
}

/// What the machine reported over a run.
#[derive(Clone, Copy, Debug, PartialEq)]
pub struct TelemetrySummary {
    pub peak_vram_mib: Option<u64>,
    pub min_free_vram_mib: Option<u64>,
    pub gpu_util_avg_pct: Option<Real>,
    pub gpu_util_max_pct: Option<u64>,
    pub ram_available_min_mib: Option<u64>,
    pub swap_start_mib: Option<u64>,
    pub swap_end_mib: Option<u64>,
    pub swap_delta_mib: Option<i64>,
    pub process_rss_peak_mib: Option<u64>,
    pub cpu_util_avg_pct: Option<Real>,
    pub sample_count: u64,
}

impl Default for TelemetrySummary {
    fn default() -> (r: TelemetrySummary)
        ensures
            r == (TelemetrySummary {
                peak_vram_mib: None,
                min_free_vram_mib: None,
                gpu_util_avg_pct: None,
                gpu_util_max_pct: None,
                ram_available_min_mib: None,
                swap_start_mib: None,
                swap_end_mib: None,
                swap_delta_mib: None,
                process_rss_peak_mib: None,
                cpu_util_avg_pct: None,
                sample_count: 0,
            }),
    {
        TelemetrySummary {
            peak_vram_mib: None,
            min_free_vram_mib: None,
            gpu_util_avg_pct: None,
            gpu_util_max_pct: None,
            ram_available_min_mib: None,
            swap_start_mib: None,
            swap_end_mib: None,
            swap_delta_mib: None,
            process_rss_peak_mib: None,
            cpu_util_avg_pct: None,
            sample_count: 0,
        }
    }
}

/// The metrics that telemetry gives; those of the server are missing.
pub open spec fn metrics_of(s: TelemetrySummary) -> RunMetrics {
    RunMetrics {
        server_prompt_eval_toks_per_s: None,
        server_generation_toks_per_s: None,
        client_ttft_ms: None,
        total_wall_ms: None,
        peak_vram_mib: s.peak_vram_mib,
        min_free_vram_mib: s.min_free_vram_mib,
        gpu_util_avg_pct: s.gpu_util_avg_pct,
        gpu_util_max_pct: s.gpu_util_max_pct,
        ram_available_min_mib: s.ram_available_min_mib,
        swap_delta_mib: s.swap_delta_mib,
        process_rss_peak_mib: s.process_rss_peak_mib,
        cpu_util_avg_pct: s.cpu_util_avg_pct,
    }
}

impl RunMetrics {
    /// The metrics that telemetry gives.
    pub fn from_telemetry(summary: &TelemetrySummary) -> (r: RunMetrics)
        ensures
            r == metrics_of(*summary),
    {
        RunMetrics {
            server_prompt_eval_toks_per_s: None,
            server_generation_toks_per_s: None,
            client_ttft_ms: None,
            total_wall_ms: None,
            peak_vram_mib: summary.peak_vram_mib,
            min_free_vram_mib: summary.min_free_vram_mib,
            gpu_util_avg_pct: summary.gpu_util_avg_pct,
            gpu_util_max_pct: summary.gpu_util_max_pct,
            ram_available_min_mib: summary.ram_available_min_mib,
            swap_delta_mib: summary.swap_delta_mib,
            process_rss_peak_mib: summary.process_rss_peak_mib,
            cpu_util_avg_pct: summary.cpu_util_avg_pct,
        }
    }
}

// ---------------------------------------------------------------------------
// Accumulation

/// What is measured, by kind.
#[derive(Clone, Copy, Debug, PartialEq, Eq, Structural)]
pub enum Gauge {
    VramUsed,
    VramFree,
    GpuUtil,
    RamAvailable,
    SwapUsed,
    ProcessRss,
}

/// A value of a sample.
pub open spec fn reading(s: TelemetrySample, g: Gauge) -> Option<u64> {
    match g {
        Gauge::VramUsed => s.vram_used_mib,
        Gauge::VramFree => s.vram_free_mib,
        Gauge::GpuUtil => s.gpu_util_pct,
        Gauge::RamAvailable => s.ram_available_mib,
        Gauge::SwapUsed => s.swap_used_mib,
        Gauge::ProcessRss => s.process_rss_mib,
    }
}

/// The values that were read.
pub open spec fn readings(samples: Seq<TelemetrySample>, g: Gauge) -> Seq<u64>
    decreases samples.len(),
{
    if samples.len() == 0 {
        seq![]
    } else {
        let before = readings(samples.drop_last(), g);
        match reading(samples.last(), g) {
            Some(x) => before.push(x),
            None => before,
        }
    }
}

/// `x` is the greatest of the values, absent where there are none.
pub open spec fn is_peak(x: Option<u64>, values: Seq<u64>) -> bool {
    match x {
        Some(m) => values.contains(m) && forall|i: int|
            0 <= i < values.len() ==> #[trigger] values[i] <= m,
        None => values.len() == 0,
    }
}

/// `x` is the least of the values, absent where there are none.
pub open spec fn is_least(x: Option<u64>, values: Seq<u64>) -> bool {
    match x {
        Some(m) => values.contains(m) && forall|i: int|
            0 <= i < values.len() ==> m <= #[trigger] values[i],
        None => values.len() == 0,
    }
}

/// The first of the values.
pub open spec fn first_value(values: Seq<u64>) -> Option<u64> {
    if values.len() == 0 {
        None
    } else {
        Some(values[0])
    }
}

/// The last of the values.
pub open spec fn last_value(values: Seq<u64>) -> Option<u64> {
    if values.len() == 0 {
        None
    } else {
        Some(values.last())
    }
}

/// The sum of the values.
pub open spec fn total(values: Seq<u64>) -> nat
    decreases values.len(),
{
    if values.len() == 0 {
        0
    } else {
        total(values.drop_last()) + values.last() as nat
    }
}

/// The processor loads that were read.
pub open spec fn loads(samples: Seq<TelemetrySample>) -> Seq<Real>
    decreases samples.len(),
{
    if samples.len() == 0 {
        seq![]
    } else {
        let before = loads(samples.drop_last());
        match samples.last().process_cpu_pct {
            Some(x) => before.push(x),
            None => before,
        }
    }
}

/// What was read so far.
pub struct TelemetryAccumulator {
    pub peak_vram_mib: Option<u64>,
    pub min_free_vram_mib: Option<u64>,
    pub gpu_util_total: u128,
    pub gpu_util_samples: u64,
    pub gpu_util_max_pct: Option<u64>,
    pub ram_available_min_mib: Option<u64>,
    pub swap_start_mib: Option<u64>,
    pub swap_end_mib: Option<u64>,
    pub process_rss_peak_mib: Option<u64>,
    pub cpu_util_values: Vec<Real>,
    pub sample_count: u64,
}

impl TelemetryAccumulator {
    /// The counts fit together.
    pub open spec fn wf(self) -> bool {
        &&& self.gpu_util_samples <= self.sample_count
        &&& self.gpu_util_total <= self.gpu_util_samples * 0xffff_ffff_ffff_ffff
        &&& self.swap_start_mib is Some == (self.swap_end_mib is Some)
    }

    /// This is what these samples come to.
    pub open spec fn sums_up(self, samples: Seq<TelemetrySample>) -> bool {
        &&& self.sample_count == samples.len()
        &&& is_peak(self.peak_vram_mib, readings(samples, Gauge::VramUsed))
        &&& is_least(self.min_free_vram_mib, readings(samples, Gauge::VramFree))
        &&& self.gpu_util_total == total(readings(samples, Gauge::GpuUtil))
        &&& self.gpu_util_samples == readings(samples, Gauge::GpuUtil).len()
        &&& is_peak(self.gpu_util_max_pct, readings(samples, Gauge::GpuUtil))
        &&& is_least(self.ram_available_min_mib, readings(samples, Gauge::RamAvailable))
        &&& self.swap_start_mib == first_value(readings(samples, Gauge::SwapUsed))
        &&& self.swap_end_mib == last_value(readings(samples, Gauge::SwapUsed))
        &&& is_peak(self.process_rss_peak_mib, readings(samples, Gauge::ProcessRss))
        &&& self.cpu_util_values@ == loads(samples)
    }

    /// Nothing was read.
    pub fn new() -> (r: TelemetryAccumulator)
        ensures
            r.wf(),
            r.sums_up(seq![]),
    {
        TelemetryAccumulator {
            peak_vram_mib: None,
            min_free_vram_mib: None,
            gpu_util_total: 0,
            gpu_util_samples: 0,
            gpu_util_max_pct: None,
            ram_available_min_mib: None,
            swap_start_mib: None,
            swap_end_mib: None,
            process_rss_peak_mib: None,
            cpu_util_values: Vec::new(),
            sample_count: 0,
        }
    }

    /// Takes a sample.
    pub fn push(&mut self, sample: &TelemetrySample)
        requires
            old(self).wf(),
            old(self).sample_count < u64::MAX,
        ensures
            final(self).wf(),
            final(self).sample_count == old(self).sample_count + 1,
            forall|samples: Seq<TelemetrySample>| #[trigger]
                old(self).sums_up(samples) ==> final(self).sums_up(samples.push(*sample)),
    {
        let ghost start = *self;
        self.sample_count = self.sample_count + 1;
        self.peak_vram_mib = greater(self.peak_vram_mib, sample.vram_used_mib);
        self.min_free_vram_mib = lesser(self.min_free_vram_mib, sample.vram_free_mib);
        if let Some(x) = sample.gpu_util_pct {
            self.gpu_util_total = self.gpu_util_total + x as u128;
            self.gpu_util_samples = self.gpu_util_samples + 1;
        }
        self.gpu_util_max_pct = greater(self.gpu_util_max_pct, sample.gpu_util_pct);
        self.ram_available_min_mib = lesser(self.ram_available_min_mib, sample.ram_available_mib);
        if let Some(x) = sample.swap_used_mib {
            if self.swap_start_mib.is_none() {
                self.swap_start_mib = Some(x);
            }
            self.swap_end_mib = Some(x);
        }
        self.process_rss_peak_mib = greater(self.process_rss_peak_mib, sample.process_rss_mib);
        if let Some(x) = sample.process_cpu_pct {
            self.cpu_util_values.push(x);
        }
        proof {
            assert forall|samples: Seq<TelemetrySample>| #[trigger]
                start.sums_up(samples) implies self.sums_up(samples.push(*sample)) by {
                let all = samples.push(*sample);
                assert(all.drop_last() =~= samples);
                peak_grows(
                    start.peak_vram_mib,
                    readings(samples, Gauge::VramUsed),
                    sample.vram_used_mib,
                );
                least_grows(
                    start.min_free_vram_mib,
                    readings(samples, Gauge::VramFree),
                    sample.vram_free_mib,
                );
                peak_grows(
                    start.gpu_util_max_pct,
                    readings(samples, Gauge::GpuUtil),
                    sample.gpu_util_pct,
                );
                least_grows(
                    start.ram_available_min_mib,
                    readings(samples, Gauge::RamAvailable),
                    sample.ram_available_mib,
                );
                peak_grows(
                    start.process_rss_peak_mib,
                    readings(samples, Gauge::ProcessRss),
                    sample.process_rss_mib,
                );
                if let Some(x) = sample.gpu_util_pct {
                    let values = readings(samples, Gauge::GpuUtil);
                    assert(values.push(x).drop_last() =~= values);
                }
            }
        }
    }

    /// What the samples came to, given the averages of the loads: none where
    /// nothing was read.
    pub fn finish(&self, gpu_util_avg_pct: Option<Real>, cpu_util_avg_pct: Option<Real>) -> (r:
        TelemetrySummary)
        requires
            gpu_util_avg_pct is Some == (self.gpu_util_samples > 0),
            cpu_util_avg_pct is Some == (self.cpu_util_values@.len() > 0),
            match (self.swap_start_mib, self.swap_end_mib) {
                (Some(a), Some(b)) => i64::MIN <= as_signed(b) - as_signed(a) <= i64::MAX,
                _ => true,
            },
        ensures
            r.peak_vram_mib == self.peak_vram_mib,
            r.min_free_vram_mib == self.min_free_vram_mib,
            r.gpu_util_avg_pct == gpu_util_avg_pct,
            r.gpu_util_max_pct == self.gpu_util_max_pct,
            r.ram_available_min_mib == self.ram_available_min_mib,
            r.swap_start_mib == self.swap_start_mib,
            r.swap_end_mib == self.swap_end_mib,
            match (self.swap_start_mib, self.swap_end_mib) {
                (Some(a), Some(b)) => r.swap_delta_mib matches Some(d) && d == as_signed(b)
                    - as_signed(a),
                _ => r.swap_delta_mib is None,
            },
            r.process_rss_peak_mib == self.process_rss_peak_mib,
            r.cpu_util_avg_pct == cpu_util_avg_pct,
            r.sample_count == self.sample_count,
    {
        let delta: Option<i64> = match (self.swap_start_mib, self.swap_end_mib) {
            (Some(a), Some(b)) => Some(signed_difference(b, a)),
            _ => None,
        };
        TelemetrySummary {
            peak_vram_mib: self.peak_vram_mib,
            min_free_vram_mib: self.min_free_vram_mib,
            gpu_util_avg_pct,
            gpu_util_max_pct: self.gpu_util_max_pct,
            ram_available_min_mib: self.ram_available_min_mib,
            swap_start_mib: self.swap_start_mib,
            swap_end_mib: self.swap_end_mib,
            swap_delta_mib: delta,
            process_rss_peak_mib: self.process_rss_peak_mib,
            cpu_util_avg_pct,
            sample_count: self.sample_count,
        }
    }
}

fn wide_signed(n: u64) -> (r: i128)
    ensures
        r == as_signed(n),
{
    if n <= i64::MAX as u64 {
        n as i128
    } else {
        n as i128 - 0x1_0000_0000_0000_0000
    }
}

fn signed_difference(a: u64, b: u64) -> (r: i64)
    requires
        i64::MIN <= as_signed(a) - as_signed(b) <= i64::MAX,
    ensures
        r == as_signed(a) - as_signed(b),
{
    (wide_signed(a) - wide_signed(b)) as i64
}

/// The greater of two values, as far as there are any.
pub open spec fn greater_of(held: Option<u64>, x: Option<u64>) -> Option<u64> {
    match (held, x) {
        (Some(a), Some(b)) => Some(
            if a > b {
                a
            } else {
                b
            },
        ),
        (None, b) => b,
        (a, None) => a,
    }
}

/// The lesser of two values, as far as there are any.
pub open spec fn lesser_of(held: Option<u64>, x: Option<u64>) -> Option<u64> {
    match (held, x) {
        (Some(a), Some(b)) => Some(
            if a < b {
                a
            } else {
                b
            },
        ),
        (None, b) => b,
        (a, None) => a,
    }
}

fn greater(held: Option<u64>, x: Option<u64>) -> (r: Option<u64>)
    ensures
        r == greater_of(held, x),
{
    match (held, x) {
        (Some(a), Some(b)) => if a > b {
            Some(a)
        } else {
            Some(b)
        },
        (Some(a), None) => Some(a),
        (None, b) => b,
    }
}

fn lesser(held: Option<u64>, x: Option<u64>) -> (r: Option<u64>)
    ensures
        r == lesser_of(held, x),
{
    match (held, x) {
        (Some(a), Some(b)) => if a < b {
            Some(a)
        } else {
            Some(b)
        },
        (Some(a), None) => Some(a),
        (None, b) => b,
    }
}

/// The values with another one, where there is one.
spec fn with_value(values: Seq<u64>, x: Option<u64>) -> Seq<u64> {
    match x {
        Some(v) => values.push(v),
        None => values,
    }
}

proof fn peak_grows(held: Option<u64>, values: Seq<u64>, x: Option<u64>)
    requires
        is_peak(held, values),
    ensures
        is_peak(greater_of(held, x), with_value(values, x)),
{
    if let Some(v) = x {
        let all = values.push(v);
        assert(all[values.len() as int] == v);
        if let Some(m) = held {
            let i = choose|i: int| 0 <= i < values.len() && values[i] == m;
            assert(all[i] == m);
            assert forall|j: int| 0 <= j < all.len() implies #[trigger] all[j]
                <= greater_of(held, x)->0 by {
                if j < values.len() {
                    assert(all[j] == values[j]);
                }
            }
        }
    }
}

proof fn least_grows(held: Option<u64>, values: Seq<u64>, x: Option<u64>)
    requires
        is_least(held, values),
    ensures
        is_least(lesser_of(held, x), with_value(values, x)),
{
    if let Some(v) = x {
        let all = values.push(v);
        assert(all[values.len() as int] == v);
        if let Some(m) = held {
            let i = choose|i: int| 0 <= i < values.len() && values[i] == m;
            assert(all[i] == m);
            assert forall|j: int| 0 <= j < all.len() implies lesser_of(held, x)->0
                <= #[trigger] all[j] by {
                if j < values.len() {
                    assert(all[j] == values[j]);
                }
            }
        }
    }
}

// ---------------------------------------------------------------------------
// What the system reports

/// What the graphics processor reports.
#[derive(Clone, Copy, Debug, PartialEq)]
pub struct GpuSample {
    pub vram_used_mib: Option<u64>,
    pub vram_free_mib: Option<u64>,
    pub gpu_util_pct: Option<u64>,
}

/// The memory that the system reports.
#[derive(Clone, Copy, Debug, PartialEq)]
pub struct MemorySample {
    pub ram_available_mib: Option<u64>,
    pub swap_used_mib: Option<u64>,
}

/// What the first line of a report of `nvidia-smi` tells: memory used, memory
/// free, and load.
pub fn parse_gpu_sample(report: &str) -> (r: Option<GpuSample>)
    ensures
        ({
            let lines = text::lines(report@);
            if lines.len() == 0 {
                r is None
            } else {
                let pieces = text::split(lines[0], ',');
                r matches Some(s) && opt_nat(s.vram_used_mib) == number_piece(
                    pieces,
                    0,
                    u64::MAX as nat,
                ) && opt_nat(s.vram_free_mib) == number_piece(pieces, 1, u64::MAX as nat)
                    && opt_nat(s.gpu_util_pct) == number_piece(pieces, 2, u64::MAX as nat)
            }
        }),
{
    let lines = text::split_lines(report);
    proof {
        assert(text::texts(lines@).len() == lines@.len());
    }
    if lines.len() == 0 {
        return None;
    }
    let pieces = text::split_at_char(lines[0].as_str(), ',');
    proof {
        assert(text::lines(report@)[0] == lines@[0]@);
    }
    Some(
        GpuSample {
            vram_used_mib: parse_piece(&pieces, 0, u64::MAX),
            vram_free_mib: parse_piece(&pieces, 1, u64::MAX),
            gpu_util_pct: parse_piece(&pieces, 2, u64::MAX),
        },
    )
}

/// The swap in use, in MiB.
pub open spec fn swap_used(swap_total: Option<nat>, swap_free: Option<nat>) -> Option<nat> {
    match (swap_total, swap_free) {
        (Some(a), Some(b)) => Some(
            if a < b {
                0
            } else {
                ((a - b) / 1024) as nat
            },
        ),
        _ => None,
    }
}

/// The keys that take a line of `/proc/meminfo` before the swap's.
pub open spec fn before_swap_total() -> Seq<Seq<char>> {
    seq!["MemAvailable:"@]
}

/// The keys that take a line of `/proc/meminfo` before the free swap's.
pub open spec fn before_swap_free() -> Seq<Seq<char>> {
    seq!["MemAvailable:"@, "SwapTotal:"@]
}

/// The memory that the text of `/proc/meminfo` tells.
pub fn parse_meminfo(data: &str) -> (r: MemorySample)
    ensures
        ({
            let lines = text::lines(data@);
            &&& opt_nat(r.ram_available_mib) == divided(
                last_keyed(lines, "MemAvailable:"@, seq![]),
                1024,
            )
            &&& opt_nat(r.swap_used_mib) == swap_used(
                last_keyed(lines, "SwapTotal:"@, before_swap_total()),
                last_keyed(lines, "SwapFree:"@, before_swap_free()),
            )
        }),
{
    let lines = text::split_lines(data);
    let ghost all = text::lines(data@);
    let mut available: Option<u64> = None;
    let mut swap_total: Option<u64> = None;
    let mut swap_free: Option<u64> = None;
    for i in 0..lines.len()
        invariant
            all == text::texts(lines@),
            opt_nat(available) == last_keyed(all.take(i as int), "MemAvailable:"@, seq![]),
            opt_nat(swap_total) == last_keyed(
                all.take(i as int),
                "SwapTotal:"@,
                before_swap_total(),
            ),
            opt_nat(swap_free) == last_keyed(all.take(i as int), "SwapFree:"@, before_swap_free()),
    {
        proof {
            assert(all.take(i + 1).drop_last() =~= all.take(i as int));
            assert(all.take(i + 1).last() == lines@[i as int]@);
            assert(before_swap_total()[0] == "MemAvailable:"@);
            assert(before_swap_free()[0] == "MemAvailable:"@);
            assert(before_swap_free()[1] == "SwapTotal:"@);
        }
        if let Some(n) = parse_meminfo_line(lines[i].as_str(), "MemAvailable:") {
            available = Some(n);
        } else if let Some(n) = parse_meminfo_line(lines[i].as_str(), "SwapTotal:") {
            swap_total = Some(n);
        } else if let Some(n) = parse_meminfo_line(lines[i].as_str(), "SwapFree:") {
            swap_free = Some(n);
        }
    }
    proof {
        assert(all.take(all.len() as int) =~= all);
    }
    MemorySample {
        ram_available_mib: match available {
            Some(n) => Some(n / 1024),
            None => None,
        },
        swap_used_mib: match (swap_total, swap_free) {
            (Some(a), Some(b)) => Some(a.saturating_sub(b) / 1024),
            _ => None,
        },
    }
}

/// The first number that follows a key at the start of a line.
pub open spec fn first_keyed(lines: Seq<Seq<char>>, key: Seq<char>) -> Option<nat>
    decreases lines.len(),
{
    if lines.len() == 0 {
        None
    } else {
        match keyed_number(lines[0], key) {
            Some(n) => Some(n),
            None => first_keyed(lines.drop_first(), key),
        }
    }
}

/// The memory of a process in MiB that the text of its status tells.
pub fn parse_status_rss(data: &str) -> (r: Option<u64>)
    ensures
        opt_nat(r) == divided(first_keyed(text::lines(data@), "VmRSS:"@), 1024),
{
    let lines = text::split_lines(data);
    let ghost all = text::lines(data@);
    proof {
        assert(all.skip(0) =~= all);
    }
    for i in 0..lines.len()
        invariant
            all == text::lines(data@),
            all == text::texts(lines@),
            first_keyed(all.skip(i as int), "VmRSS:"@) == first_keyed(all, "VmRSS:"@),
    {
        proof {
            assert(all.skip(i as int).drop_first() =~= all.skip(i + 1));
            assert(all.skip(i as int)[0] == lines@[i as int]@);
        }
        if let Some(n) = parse_meminfo_line(lines[i].as_str(), "VmRSS:") {
            return Some(n / 1024);
        }
    }
    proof {
        assert(all.skip(all.len() as int) =~= seq![]);
    }
    None
}

/// A sample, put together from what was reported.
pub fn collect_once(
    timestamp: Timestamp,
    gpu_index: Option<u32>,
    gpu: Option<GpuSample>,
    memory: Option<MemorySample>,
    process_rss_mib: Option<u64>,
    process_cpu_pct: Option<Real>,
) -> (r: TelemetrySample)
    ensures
        r.timestamp == timestamp,
        r.gpu_index == gpu_index,
        r.vram_used_mib == (match gpu {
            Some(g) => g.vram_used_mib,
            None => None,
        }),
        r.vram_free_mib == (match gpu {
            Some(g) => g.vram_free_mib,
            None => None,
        }),
        r.gpu_util_pct == (match gpu {
            Some(g) => g.gpu_util_pct,
            None => None,
        }),
        r.ram_available_mib == (match memory {
            Some(m) => m.ram_available_mib,
            None => None,
        }),
        r.swap_used_mib == (match memory {
            Some(m) => m.swap_used_mib,
            None => None,
        }),
        r.process_rss_mib == process_rss_mib,
        r.process_cpu_pct == process_cpu_pct,
{
    let (used, free, util) = match gpu {
        Some(g) => (g.vram_used_mib, g.vram_free_mib, g.gpu_util_pct),
        None => (None, None, None),
    };
    let (ram, swap) = match memory {
        Some(m) => (m.ram_available_mib, m.swap_used_mib),
        None => (None, None),
    };
    TelemetrySample {
        timestamp,
        gpu_index,
        vram_used_mib: used,
        vram_free_mib: free,
        gpu_util_pct: util,
        ram_available_mib: ram,
        swap_used_mib: swap,
        process_rss_mib,
        process_cpu_pct,
    }
}

/// What samples are summed up to: the most video memory used, the least of it
/// free, the highest load, the least memory available and the most that the
/// process held, each that of some sample and none exceeded by another.
pub proof fn summaries_hold_the_extremes(
    a: TelemetryAccumulator,
    samples: Seq<TelemetrySample>,
    k: int,
)
    requires
        a.sums_up(samples),
        0 <= k < samples.len(),
    ensures
        a.sample_count == samples.len(),
        samples[k].vram_used_mib is Some ==> a.peak_vram_mib is Some && a.peak_vram_mib->0
            >= samples[k].vram_used_mib->0,
        samples[k].vram_free_mib is Some ==> a.min_free_vram_mib is Some && a.min_free_vram_mib->0
            <= samples[k].vram_free_mib->0,
        samples[k].gpu_util_pct is Some ==> a.gpu_util_max_pct is Some && a.gpu_util_max_pct->0
            >= samples[k].gpu_util_pct->0,
        samples[k].ram_available_mib is Some ==> a.ram_available_min_mib is Some
            && a.ram_available_min_mib->0 <= samples[k].ram_available_mib->0,
        samples[k].process_rss_mib is Some ==> a.process_rss_peak_mib is Some
            && a.process_rss_peak_mib->0 >= samples[k].process_rss_mib->0,
        a.peak_vram_mib is Some ==> exists|i: int|
            0 <= i < samples.len() && (#[trigger] samples[i]).vram_used_mib == a.peak_vram_mib,
        a.min_free_vram_mib is Some ==> exists|i: int|
            0 <= i < samples.len() && (#[trigger] samples[i]).vram_free_mib == a.min_free_vram_mib,
        a.gpu_util_max_pct is Some ==> exists|i: int|
            0 <= i < samples.len() && (#[trigger] samples[i]).gpu_util_pct == a.gpu_util_max_pct,
        a.ram_available_min_mib is Some ==> exists|i: int|
            0 <= i < samples.len() && (#[trigger] samples[i]).ram_available_mib
                == a.ram_available_min_mib,
        a.process_rss_peak_mib is Some ==> exists|i: int|
            0 <= i < samples.len() && (#[trigger] samples[i]).process_rss_mib
                == a.process_rss_peak_mib,
{
    reading_is_listed(samples, Gauge::VramUsed, k);
    reading_is_listed(samples, Gauge::VramFree, k);
    reading_is_listed(samples, Gauge::GpuUtil, k);
    reading_is_listed(samples, Gauge::RamAvailable, k);
    reading_is_listed(samples, Gauge::ProcessRss, k);
    if let Some(x) = a.peak_vram_mib {
        let i = listed_is_read(samples, Gauge::VramUsed, x);
        assert(samples[i].vram_used_mib == a.peak_vram_mib);
    }
    if let Some(x) = a.min_free_vram_mib {
        let i = listed_is_read(samples, Gauge::VramFree, x);
        assert(samples[i].vram_free_mib == a.min_free_vram_mib);
    }
    if let Some(x) = a.gpu_util_max_pct {
        let i = listed_is_read(samples, Gauge::GpuUtil, x);
        assert(samples[i].gpu_util_pct == a.gpu_util_max_pct);
    }
    if let Some(x) = a.ram_available_min_mib {
        let i = listed_is_read(samples, Gauge::RamAvailable, x);
        assert(samples[i].ram_available_mib == a.ram_available_min_mib);
    }
    if let Some(x) = a.process_rss_peak_mib {
        let i = listed_is_read(samples, Gauge::ProcessRss, x);
        assert(samples[i].process_rss_mib == a.process_rss_peak_mib);
    }
}

proof fn reading_is_listed(samples: Seq<TelemetrySample>, g: Gauge, k: int)
    requires
        0 <= k < samples.len(),
    ensures
        reading(samples[k], g) matches Some(x) ==> readings(samples, g).contains(x),
    decreases samples.len(),
{
    let before = readings(samples.drop_last(), g);
    let all = readings(samples, g);
    if reading(samples[k], g) is Some {
        let x = reading(samples[k], g)->0;
        if k < samples.len() - 1 {
            reading_is_listed(samples.drop_last(), g, k);
            let i = choose|i: int| 0 <= i < before.len() && before[i] == x;
            assert(all[i] == x);
        } else {
            assert(all[before.len() as int] == x);
        }
    }
}

proof fn listed_is_read(samples: Seq<TelemetrySample>, g: Gauge, x: u64) -> (i: int)
    requires
        readings(samples, g).contains(x),
    ensures
        0 <= i < samples.len(),
        reading(samples[i], g) == Some(x),
    decreases samples.len(),
{
    let before = readings(samples.drop_last(), g);
    let all = readings(samples, g);
    let p = choose|p: int| 0 <= p < all.len() && all[p] == x;
    if p < before.len() {
        assert(before[p] == x);
        listed_is_read(samples.drop_last(), g, x)
    } else {
        samples.len() - 1
    }
}

/// The metrics of a run take over what was sampled, each figure as it is.
pub proof fn metrics_take_over_the_samples(s: TelemetrySummary)
    ensures
        ({
            let m = metrics_of(s);
            &&& m.peak_vram_mib == s.peak_vram_mib
            &&& m.min_free_vram_mib == s.min_free_vram_mib
            &&& m.gpu_util_avg_pct == s.gpu_util_avg_pct
            &&& m.gpu_util_max_pct == s.gpu_util_max_pct
            &&& m.ram_available_min_mib == s.ram_available_min_mib
            &&& m.swap_delta_mib == s.swap_delta_mib
            &&& m.process_rss_peak_mib == s.process_rss_peak_mib
            &&& m.cpu_util_avg_pct == s.cpu_util_avg_pct
        }),
{
}

/// The swap in use is what is missing of the total, in MiB.
pub proof fn swap_in_use_is_what_is_missing(used: nat, free: nat)
    ensures
        swap_used(Some(free + 1024 * used), Some(free)) == Some(used),
        swap_used(Some(free), Some(free + used)) == Some(0nat),
        swap_used(None, Some(free)) is None,
        swap_used(Some(free), None) is None,
{
}

} // verus!
