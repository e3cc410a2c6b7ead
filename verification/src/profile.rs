//! Runs, their measurements, and the recommendations made from them.
use crate::environment::{Compatibility, EnvironmentSnapshot, EnvironmentView};
use crate::gguf::{GgufMetadata, IdentityView, MetadataView, ModelIdentity};
use crate::measure::Real;
use crate::record::{duplicate_all, duplicate_opt, opt_view, views, Duplicate};
use crate::text;
use crate::time::Timestamp;
use vstd::prelude::*;

verus! {

/// The version of the files that the profiler writes.
pub const SCHEMA_VERSION: u32 = 6;

/// The version of the reports made for agents.
pub const AGENT_SCHEMA_VERSION: u32 = 3;

/// How broad a search is.
#[derive(Clone, Copy, Debug, PartialEq, Eq, Structural)]
pub enum Preset {
    Quick,
    Standard,
    Thorough,
}

/// The most candidates that a search of this breadth runs.
pub open spec fn preset_budget(p: Preset) -> usize {
    match p {
        Preset::Quick => 6,
        Preset::Standard => 16,
        Preset::Thorough => 48,
    }
}

/// The size in tokens of the prompt that measures ingestion.
pub open spec fn preset_ingest(p: Preset) -> u64 {
    match p {
        Preset::Quick => 16_000,
        Preset::Standard => 64_000,
        Preset::Thorough => 64_000,
    }
}

/// The preset of this name.
pub open spec fn preset_named(name: Seq<char>) -> Option<Preset> {
    if name == "quick"@ {
        Some(Preset::Quick)
    } else if name == "standard"@ {
        Some(Preset::Standard)
    } else if name == "thorough"@ {
        Some(Preset::Thorough)
    } else {
        None
    }
}

impl Preset {
    /// The most candidates that a search of this breadth runs.
    pub fn max_candidates(self) -> (r: usize)
        ensures
            r == preset_budget(self),
    {
        match self {
            Preset::Quick => 6,
            Preset::Standard => 16,
            Preset::Thorough => 48,
        }
    }

    /// The size in tokens of the prompt that measures ingestion.
    pub fn ingest_target_tokens(self) -> (r: u64)
        ensures
            r == preset_ingest(self),
    {
        match self {
            Preset::Quick => 16_000,
            Preset::Standard | Preset::Thorough => 64_000,
        }
    }

    /// The preset of this name, if there is one.
    pub fn from_name(value: &str) -> (r: Option<Preset>)
        ensures
            r == preset_named(value@),
    {
        if text::same_text(value, "quick") {
            Some(Preset::Quick)
        } else if text::same_text(value, "standard") {
            Some(Preset::Standard)
        } else if text::same_text(value, "thorough") {
            Some(Preset::Thorough)
        } else {
            None
        }
    }
}

/// What a recommendation is for.
#[derive(Clone, Copy, Debug, PartialEq, Eq, Structural)]
pub enum WorkloadGoal {
    Generation,
    Prompt,
    Balanced,
}

/// The profile that serves a goal best.
pub open spec fn goal_profile(g: WorkloadGoal) -> Seq<char> {
    match g {
        WorkloadGoal::Generation => "interactive-fast"@,
        WorkloadGoal::Prompt => "prompt-replay"@,
        WorkloadGoal::Balanced => "balanced"@,
    }
}

impl WorkloadGoal {
    /// The profile that serves this goal best.
    pub fn profile_id(self) -> (r: &'static str)
        ensures
            r@ == goal_profile(self),
    {
        match self {
            WorkloadGoal::Generation => "interactive-fast",
            WorkloadGoal::Prompt => "prompt-replay",
            WorkloadGoal::Balanced => "balanced",
        }
    }
}

/// What a run may use of the machine.
#[derive(Clone, Copy, Debug, PartialEq, Eq, Structural)]
pub struct SafetyLimits {
    pub min_vram_free_mib: u64,
    pub max_swap_delta_mib: u64,
}

impl Default for SafetyLimits {
    fn default() -> (r: SafetyLimits)
        ensures
            r.min_vram_free_mib == 512,
            r.max_swap_delta_mib == 1024,
    {
        SafetyLimits { min_vram_free_mib: 512, max_swap_delta_mib: 1024 }
    }
}

/// How likely a candidate is to exceed the machine.
#[derive(Clone, Copy, Debug, Default, PartialEq, Eq, Structural)]
pub enum CandidateRisk {
    Low,
    #[default]
    Medium,
    High,
}

/// What a run validates.
#[derive(Clone, Copy, Debug, Default, PartialEq, Eq, Structural)]
pub enum ValidationLevel {
    #[default]
    Smoke,
    StandardIngest,
    Realistic,
    Fullctx,
}

/// Whether video memory was measured.
#[derive(Clone, Copy, Debug, Default, PartialEq, Eq, Structural)]
pub enum TelemetryStatus {
    Measured,
    #[default]
    Unknown,
}

/// How a run ended.
#[derive(Clone, Copy, Debug, PartialEq, Eq, Structural)]
pub enum Outcome {
    Pass,
    Oom,
    Timeout,
    ServerCrash,
    TooTight,
    ParsePartial,
    PerformanceDegraded,
    Interrupted,
}

/// The request completed.
pub open spec fn usable(o: Outcome) -> bool {
    o == Outcome::Pass || o == Outcome::ParsePartial
}

/// The name of the variant.
pub open spec fn outcome_name(o: Outcome) -> Seq<char> {
    match o {
        Outcome::Pass => "Pass"@,
        Outcome::Oom => "Oom"@,
        Outcome::Timeout => "Timeout"@,
        Outcome::ServerCrash => "ServerCrash"@,
        Outcome::TooTight => "TooTight"@,
        Outcome::ParsePartial => "ParsePartial"@,
        Outcome::PerformanceDegraded => "PerformanceDegraded"@,
        Outcome::Interrupted => "Interrupted"@,
    }
}

impl Outcome {
    /// Whether the request completed.
    pub fn is_usable(&self) -> (r: bool)
        ensures
            r == usable(*self),
    {
        match self {
            Outcome::Pass | Outcome::ParsePartial => true,
            _ => false,
        }
    }

    /// The name of the variant.
    pub fn name(self) -> (r: &'static str)
        ensures
            r@ == outcome_name(self),
    {
        match self {
            Outcome::Pass => "Pass",
            Outcome::Oom => "Oom",
            Outcome::Timeout => "Timeout",
            Outcome::ServerCrash => "ServerCrash",
            Outcome::TooTight => "TooTight",
            Outcome::ParsePartial => "ParsePartial",
            Outcome::PerformanceDegraded => "PerformanceDegraded",
            Outcome::Interrupted => "Interrupted",
        }
    }
}

/// What was measured during a run.
#[derive(Clone, Copy, Debug, PartialEq)]
pub struct RunMetrics {
    pub server_prompt_eval_toks_per_s: Option<Real>,
    pub server_generation_toks_per_s: Option<Real>,
    pub client_ttft_ms: Option<u64>,
    pub total_wall_ms: Option<u64>,
    pub peak_vram_mib: Option<u64>,
    pub min_free_vram_mib: Option<u64>,
    pub gpu_util_avg_pct: Option<Real>,
    pub gpu_util_max_pct: Option<u64>,
    pub ram_available_min_mib: Option<u64>,
    pub swap_delta_mib: Option<i64>,
    pub process_rss_peak_mib: Option<u64>,
    pub cpu_util_avg_pct: Option<Real>,
}

/// Nothing was measured.
pub open spec fn no_metrics() -> RunMetrics {
    RunMetrics {
        server_prompt_eval_toks_per_s: None,
        server_generation_toks_per_s: None,
        client_ttft_ms: None,
        total_wall_ms: None,
        peak_vram_mib: None,
        min_free_vram_mib: None,
        gpu_util_avg_pct: None,
        gpu_util_max_pct: None,
        ram_available_min_mib: None,
        swap_delta_mib: None,
        process_rss_peak_mib: None,
        cpu_util_avg_pct: None,
    }
}

impl Default for RunMetrics {
    fn default() -> (r: RunMetrics)
        ensures
            r == no_metrics(),
    {
        RunMetrics {
            server_prompt_eval_toks_per_s: None,
            server_generation_toks_per_s: None,
            client_ttft_ms: None,
            total_wall_ms: None,
            peak_vram_mib: None,
            min_free_vram_mib: None,
            gpu_util_avg_pct: None,
            gpu_util_max_pct: None,
            ram_available_min_mib: None,
            swap_delta_mib: None,
            process_rss_peak_mib: None,
            cpu_util_avg_pct: None,
        }
    }
}

/// A server configuration to try.
#[derive(Debug, PartialEq)]
pub struct CandidateConfig {
    pub id: String,
    pub requested_context: u64,
    pub batch: Option<u64>,
    pub ubatch: Option<u64>,
    pub kv_cache: Option<String>,
    pub kv_cache_v: Option<String>,
    pub fit_target: Option<u64>,
    pub gpu_layers: Option<u64>,
    pub cpu_moe: bool,
    pub n_cpu_moe: Option<u64>,
    pub threads: Option<usize>,
    pub threads_batch: Option<usize>,
    pub expected_risk: CandidateRisk,
    pub note: String,
    pub planning_note: String,
}

/// What a candidate holds.
#[verifier::ext_equal]
pub struct CandidateView {
    pub id: Seq<char>,
    pub requested_context: u64,
    pub batch: Option<u64>,
    pub ubatch: Option<u64>,
    pub kv_cache: Option<Seq<char>>,
    pub kv_cache_v: Option<Seq<char>>,
    pub fit_target: Option<u64>,
    pub gpu_layers: Option<u64>,
    pub cpu_moe: bool,
    pub n_cpu_moe: Option<u64>,
    pub threads: Option<usize>,
    pub threads_batch: Option<usize>,
    pub expected_risk: CandidateRisk,
    pub note: Seq<char>,
    pub planning_note: Seq<char>,
}

impl View for CandidateConfig {
    type V = CandidateView;

    open spec fn view(&self) -> CandidateView {
        CandidateView {
            id: self.id@,
            requested_context: self.requested_context,
            batch: self.batch,
            ubatch: self.ubatch,
            kv_cache: text::opt_text(self.kv_cache),
            kv_cache_v: text::opt_text(self.kv_cache_v),
            fit_target: self.fit_target,
            gpu_layers: self.gpu_layers,
            cpu_moe: self.cpu_moe,
            n_cpu_moe: self.n_cpu_moe,
            threads: self.threads,
            threads_batch: self.threads_batch,
            expected_risk: self.expected_risk,
            note: self.note@,
            planning_note: self.planning_note@,
        }
    }
}

impl Duplicate for CandidateConfig {
    fn duplicate(&self) -> (r: CandidateConfig) {
        CandidateConfig {
            id: self.id.clone(),
            requested_context: self.requested_context,
            batch: self.batch,
            ubatch: self.ubatch,
            kv_cache: text::copy_opt(&self.kv_cache),
            kv_cache_v: text::copy_opt(&self.kv_cache_v),
            fit_target: self.fit_target,
            gpu_layers: self.gpu_layers,
            cpu_moe: self.cpu_moe,
            n_cpu_moe: self.n_cpu_moe,
            threads: self.threads,
            threads_batch: self.threads_batch,
            expected_risk: self.expected_risk,
            note: self.note.clone(),
            planning_note: self.planning_note.clone(),
        }
    }
}

impl CandidateConfig {
    /// Whether two candidates agree in everything.
    pub fn is_same(&self, other: &CandidateConfig) -> (r: bool)
        ensures
            r == (self@ == other@),
    {
        let same = text::same_text(self.id.as_str(), other.id.as_str()) && self.requested_context
            == other.requested_context && self.batch == other.batch && self.ubatch == other.ubatch
            && text::same_opt_text(&self.kv_cache, &other.kv_cache) && text::same_opt_text(
            &self.kv_cache_v,
            &other.kv_cache_v,
        ) && self.fit_target == other.fit_target && self.gpu_layers == other.gpu_layers
            && self.cpu_moe == other.cpu_moe && self.n_cpu_moe == other.n_cpu_moe && self.threads
            == other.threads && self.threads_batch == other.threads_batch && self.expected_risk
            == other.expected_risk && text::same_text(self.note.as_str(), other.note.as_str())
            && text::same_text(self.planning_note.as_str(), other.planning_note.as_str());
        proof {
            if same {
                assert(self@ =~= other@);
            }
        }
        same
    }
}

impl Clone for CandidateConfig {
    fn clone(&self) -> (r: CandidateConfig)
        ensures
            r@ == self@,
    {
        self.duplicate()
    }
}

/// What one request to the server came to.
#[derive(Debug, PartialEq)]
pub struct ProbeSummary {
    pub prompt_tokens: Option<u64>,
    pub completion_tokens: Option<u64>,
    pub ttft_ms: Option<u64>,
    pub wall_ms: Option<u64>,
    pub response_excerpt: Option<String>,
}

/// What the summary of a request holds.
#[verifier::ext_equal]
pub struct ProbeView {
    pub prompt_tokens: Option<u64>,
    pub completion_tokens: Option<u64>,
    pub ttft_ms: Option<u64>,
    pub wall_ms: Option<u64>,
    pub response_excerpt: Option<Seq<char>>,
}

impl View for ProbeSummary {
    type V = ProbeView;

    open spec fn view(&self) -> ProbeView {
        ProbeView {
            prompt_tokens: self.prompt_tokens,
            completion_tokens: self.completion_tokens,
            ttft_ms: self.ttft_ms,
            wall_ms: self.wall_ms,
            response_excerpt: text::opt_text(self.response_excerpt),
        }
    }
}

impl Duplicate for ProbeSummary {
    fn duplicate(&self) -> (r: ProbeSummary) {
        ProbeSummary {
            prompt_tokens: self.prompt_tokens,
            completion_tokens: self.completion_tokens,
            ttft_ms: self.ttft_ms,
            wall_ms: self.wall_ms,
            response_excerpt: text::copy_opt(&self.response_excerpt),
        }
    }
}

impl Clone for ProbeSummary {
    fn clone(&self) -> (r: ProbeSummary)
        ensures
            r@ == self@,
    {
        self.duplicate()
    }
}

/// A request by name.
#[derive(Debug, PartialEq)]
pub struct NamedProbe {
    pub name: String,
    pub summary: ProbeSummary,
}

/// What a named request holds.
#[verifier::ext_equal]
pub struct NamedProbeView {
    pub name: Seq<char>,
    pub summary: ProbeView,
}

impl View for NamedProbe {
    type V = NamedProbeView;

    open spec fn view(&self) -> NamedProbeView {
        NamedProbeView {
            name: self.name@,
            summary: self.summary@,
        }
    }
}

impl Duplicate for NamedProbe {
    fn duplicate(&self) -> (r: NamedProbe) {
        NamedProbe {
            name: self.name.clone(),
            summary: self.summary.duplicate(),
        }
    }
}

impl Clone for NamedProbe {
    fn clone(&self) -> (r: NamedProbe)
        ensures
            r@ == self@,
    {
        self.duplicate()
    }
}

/// Where the raw evidence of a run lies.
#[derive(Debug, PartialEq)]
pub struct ArtifactPaths {
    pub command: String,
    pub server_log: String,
    pub telemetry_jsonl: String,
    pub request_json: String,
    pub response_json: String,
    pub result_json: String,
}

/// Where the raw evidence of a run lies, as text.
#[verifier::ext_equal]
pub struct ArtifactView {
    pub command: Seq<char>,
    pub server_log: Seq<char>,
    pub telemetry_jsonl: Seq<char>,
    pub request_json: Seq<char>,
    pub response_json: Seq<char>,
    pub result_json: Seq<char>,
}

impl View for ArtifactPaths {
    type V = ArtifactView;

    open spec fn view(&self) -> ArtifactView {
        ArtifactView {
            command: self.command@,
            server_log: self.server_log@,
            telemetry_jsonl: self.telemetry_jsonl@,
            request_json: self.request_json@,
            response_json: self.response_json@,
            result_json: self.result_json@,
        }
    }
}

impl Duplicate for ArtifactPaths {
    fn duplicate(&self) -> (r: ArtifactPaths) {
        ArtifactPaths {
            command: self.command.clone(),
            server_log: self.server_log.clone(),
            telemetry_jsonl: self.telemetry_jsonl.clone(),
            request_json: self.request_json.clone(),
            response_json: self.response_json.clone(),
            result_json: self.result_json.clone(),
        }
    }
}

impl Clone for ArtifactPaths {
    fn clone(&self) -> (r: ArtifactPaths)
        ensures
            r@ == self@,
    {
        self.duplicate()
    }
}

/// How a long request compares with the short ones before it.
#[derive(Debug, PartialEq)]
pub struct RealisticValidation {
    pub baseline_run_id: String,
    pub target_prompt_tokens: u64,
    pub requested_output_tokens: u64,
    pub actual_prompt_tokens: Option<u64>,
    pub actual_output_tokens: Option<u64>,
    pub prompt_retained_ratio: Option<Real>,
    pub generation_retained_ratio: Option<Real>,
    pub incomplete_generation: bool,
}

/// What a final-stage validation holds.
#[verifier::ext_equal]
pub struct ValidationView {
    pub baseline_run_id: Seq<char>,
    pub target_prompt_tokens: u64,
    pub requested_output_tokens: u64,
    pub actual_prompt_tokens: Option<u64>,
    pub actual_output_tokens: Option<u64>,
    pub prompt_retained_ratio: Option<Real>,
    pub generation_retained_ratio: Option<Real>,
    pub incomplete_generation: bool,
}

impl View for RealisticValidation {
    type V = ValidationView;

    open spec fn view(&self) -> ValidationView {
        ValidationView {
            baseline_run_id: self.baseline_run_id@,
            target_prompt_tokens: self.target_prompt_tokens,
            requested_output_tokens: self.requested_output_tokens,
            actual_prompt_tokens: self.actual_prompt_tokens,
            actual_output_tokens: self.actual_output_tokens,
            prompt_retained_ratio: self.prompt_retained_ratio,
            generation_retained_ratio: self.generation_retained_ratio,
            incomplete_generation: self.incomplete_generation,
        }
    }
}

impl Duplicate for RealisticValidation {
    fn duplicate(&self) -> (r: RealisticValidation) {
        RealisticValidation {
            baseline_run_id: self.baseline_run_id.clone(),
            target_prompt_tokens: self.target_prompt_tokens,
            requested_output_tokens: self.requested_output_tokens,
            actual_prompt_tokens: self.actual_prompt_tokens,
            actual_output_tokens: self.actual_output_tokens,
            prompt_retained_ratio: self.prompt_retained_ratio,
            generation_retained_ratio: self.generation_retained_ratio,
            incomplete_generation: self.incomplete_generation,
        }
    }
}

impl Clone for RealisticValidation {
    fn clone(&self) -> (r: RealisticValidation)
        ensures
            r@ == self@,
    {
        self.duplicate()
    }
}

/// A run of one candidate.
#[derive(Debug, PartialEq)]
pub struct ProfileResult {
    pub schema_version: u32,
    pub run_id: String,
    pub started_at: Timestamp,
    pub ended_at: Timestamp,
    pub model_path: String,
    pub model_size_bytes: u64,
    pub model_identity: Option<ModelIdentity>,
    pub gguf: GgufMetadata,
    pub quant: Option<String>,
    pub command: Vec<String>,
    pub command_display: String,
    pub candidate: CandidateConfig,
    pub test_kind: String,
    pub requested_context: u64,
    pub prompt_tokens: Option<u64>,
    pub completion_tokens: Option<u64>,
    pub metrics: RunMetrics,
    pub probes: Vec<NamedProbe>,
    pub outcome: Outcome,
    pub artifacts: ArtifactPaths,
    pub note: String,
    pub environment: Option<EnvironmentSnapshot>,
    pub validation_level: ValidationLevel,
    pub compatibility: Compatibility,
    pub telemetry_status: TelemetryStatus,
    pub realistic_validation: Option<RealisticValidation>,
}

/// What a run holds.
#[verifier::ext_equal]
pub struct ResultView {
    pub schema_version: u32,
    pub run_id: Seq<char>,
    pub started_at: Timestamp,
    pub ended_at: Timestamp,
    pub model_path: Seq<char>,
    pub model_size_bytes: u64,
    pub model_identity: Option<IdentityView>,
    pub gguf: MetadataView,
    pub quant: Option<Seq<char>>,
    pub command: Seq<Seq<char>>,
    pub command_display: Seq<char>,
    pub candidate: CandidateView,
    pub test_kind: Seq<char>,
    pub requested_context: u64,
    pub prompt_tokens: Option<u64>,
    pub completion_tokens: Option<u64>,
    pub metrics: RunMetrics,
    pub probes: Seq<NamedProbeView>,
    pub outcome: Outcome,
    pub artifacts: ArtifactView,
    pub note: Seq<char>,
    pub environment: Option<EnvironmentView>,
    pub validation_level: ValidationLevel,
    pub compatibility: Compatibility,
    pub telemetry_status: TelemetryStatus,
    pub realistic_validation: Option<ValidationView>,
}

impl View for ProfileResult {
    type V = ResultView;

    open spec fn view(&self) -> ResultView {
        ResultView {
            schema_version: self.schema_version,
            run_id: self.run_id@,
            started_at: self.started_at,
            ended_at: self.ended_at,
            model_path: self.model_path@,
            model_size_bytes: self.model_size_bytes,
            model_identity: opt_view(self.model_identity),
            gguf: self.gguf@,
            quant: text::opt_text(self.quant),
            command: text::texts(self.command@),
            command_display: self.command_display@,
            candidate: self.candidate@,
            test_kind: self.test_kind@,
            requested_context: self.requested_context,
            prompt_tokens: self.prompt_tokens,
            completion_tokens: self.completion_tokens,
            metrics: self.metrics,
            probes: views(self.probes@),
            outcome: self.outcome,
            artifacts: self.artifacts@,
            note: self.note@,
            environment: opt_view(self.environment),
            validation_level: self.validation_level,
            compatibility: self.compatibility,
            telemetry_status: self.telemetry_status,
            realistic_validation: opt_view(self.realistic_validation),
        }
    }
}

impl Duplicate for ProfileResult {
    fn duplicate(&self) -> (r: ProfileResult) {
        ProfileResult {
            schema_version: self.schema_version,
            run_id: self.run_id.clone(),
            started_at: self.started_at,
            ended_at: self.ended_at,
            model_path: self.model_path.clone(),
            model_size_bytes: self.model_size_bytes,
            model_identity: duplicate_opt(&self.model_identity),
            gguf: self.gguf.duplicate(),
            quant: text::copy_opt(&self.quant),
            command: text::copy_texts(&self.command),
            command_display: self.command_display.clone(),
            candidate: self.candidate.duplicate(),
            test_kind: self.test_kind.clone(),
            requested_context: self.requested_context,
            prompt_tokens: self.prompt_tokens,
            completion_tokens: self.completion_tokens,
            metrics: self.metrics,
            probes: duplicate_all(&self.probes),
            outcome: self.outcome,
            artifacts: self.artifacts.duplicate(),
            note: self.note.clone(),
            environment: duplicate_opt(&self.environment),
            validation_level: self.validation_level,
            compatibility: self.compatibility,
            telemetry_status: self.telemetry_status,
            realistic_validation: duplicate_opt(&self.realistic_validation),
        }
    }
}

impl Clone for ProfileResult {
    fn clone(&self) -> (r: ProfileResult)
        ensures
            r@ == self@,
    {
        self.duplicate()
    }
}

/// The runs of a model.
#[derive(Debug, PartialEq)]
pub struct Manifest {
    pub schema_version: u32,
    pub generated_at: Timestamp,
    pub model_path: String,
    pub model_identity: ModelIdentity,
    pub gguf: GgufMetadata,
    pub runs: Vec<String>,
}

/// What a manifest holds.
#[verifier::ext_equal]
pub struct ManifestView {
    pub schema_version: u32,
    pub generated_at: Timestamp,
    pub model_path: Seq<char>,
    pub model_identity: IdentityView,
    pub gguf: MetadataView,
    pub runs: Seq<Seq<char>>,
}

impl View for Manifest {
    type V = ManifestView;

    open spec fn view(&self) -> ManifestView {
        ManifestView {
            schema_version: self.schema_version,
            generated_at: self.generated_at,
            model_path: self.model_path@,
            model_identity: self.model_identity@,
            gguf: self.gguf@,
            runs: text::texts(self.runs@),
        }
    }
}

impl Duplicate for Manifest {
    fn duplicate(&self) -> (r: Manifest) {
        Manifest {
            schema_version: self.schema_version,
            generated_at: self.generated_at,
            model_path: self.model_path.clone(),
            model_identity: self.model_identity.duplicate(),
            gguf: self.gguf.duplicate(),
            runs: text::copy_texts(&self.runs),
        }
    }
}

impl Clone for Manifest {
    fn clone(&self) -> (r: Manifest)
        ensures
            r@ == self@,
    {
        self.duplicate()
    }
}

/// What a search covered.
#[derive(Debug, PartialEq)]
pub struct SearchCoverage {
    pub preset: Preset,
    pub planned_candidates: usize,
    pub tested_candidates: usize,
    pub searched_dimensions: Vec<String>,
    pub not_searched_dimensions: Vec<String>,
    pub confirmation_runs: usize,
}

/// What a statement of coverage holds.
#[verifier::ext_equal]
pub struct CoverageView {
    pub preset: Preset,
    pub planned_candidates: usize,
    pub tested_candidates: usize,
    pub searched_dimensions: Seq<Seq<char>>,
    pub not_searched_dimensions: Seq<Seq<char>>,
    pub confirmation_runs: usize,
}

impl View for SearchCoverage {
    type V = CoverageView;

    open spec fn view(&self) -> CoverageView {
        CoverageView {
            preset: self.preset,
            planned_candidates: self.planned_candidates,
            tested_candidates: self.tested_candidates,
            searched_dimensions: text::texts(self.searched_dimensions@),
            not_searched_dimensions: text::texts(self.not_searched_dimensions@),
            confirmation_runs: self.confirmation_runs,
        }
    }
}

impl Duplicate for SearchCoverage {
    fn duplicate(&self) -> (r: SearchCoverage) {
        SearchCoverage {
            preset: self.preset,
            planned_candidates: self.planned_candidates,
            tested_candidates: self.tested_candidates,
            searched_dimensions: text::copy_texts(&self.searched_dimensions),
            not_searched_dimensions: text::copy_texts(&self.not_searched_dimensions),
            confirmation_runs: self.confirmation_runs,
        }
    }
}

impl Clone for SearchCoverage {
    fn clone(&self) -> (r: SearchCoverage)
        ensures
            r@ == self@,
    {
        self.duplicate()
    }
}

/// The best observed configuration for one role.
#[derive(Debug, PartialEq)]
pub struct Recommendation {
    pub id: String,
    pub role: String,
    pub source_run_id: String,
    pub source_candidate_id: String,
    pub source_test_kind: String,
    pub model_identity: Option<ModelIdentity>,
    pub requested_context: u64,
    pub validated_prompt_tokens: Option<u64>,
    pub validation_level: ValidationLevel,
    pub compatibility: Compatibility,
    pub environment_valid: bool,
    pub telemetry_status: TelemetryStatus,
    pub stale_reason: Option<String>,
    pub command: Vec<String>,
    pub command_display: String,
    pub output_toks_per_s: Option<Real>,
    pub prompt_toks_per_s: Option<Real>,
    pub ttft_ms: Option<u64>,
    pub peak_vram_mib: Option<u64>,
    pub headroom_mib: Option<u64>,
    pub confidence: String,
    pub measurement_count: usize,
    pub risk: String,
    pub note: String,
    pub realistic_validation: Option<RealisticValidation>,
}

/// What a recommendation holds.
#[verifier::ext_equal]
pub struct RecommendationView {
    pub id: Seq<char>,
    pub role: Seq<char>,
    pub source_run_id: Seq<char>,
    pub source_candidate_id: Seq<char>,
    pub source_test_kind: Seq<char>,
    pub model_identity: Option<IdentityView>,
    pub requested_context: u64,
    pub validated_prompt_tokens: Option<u64>,
    pub validation_level: ValidationLevel,
    pub compatibility: Compatibility,
    pub environment_valid: bool,
    pub telemetry_status: TelemetryStatus,
    pub stale_reason: Option<Seq<char>>,
    pub command: Seq<Seq<char>>,
    pub command_display: Seq<char>,
    pub output_toks_per_s: Option<Real>,
    pub prompt_toks_per_s: Option<Real>,
    pub ttft_ms: Option<u64>,
    pub peak_vram_mib: Option<u64>,
    pub headroom_mib: Option<u64>,
    pub confidence: Seq<char>,
    pub measurement_count: usize,
    pub risk: Seq<char>,
    pub note: Seq<char>,
    pub realistic_validation: Option<ValidationView>,
}

impl View for Recommendation {
    type V = RecommendationView;

    open spec fn view(&self) -> RecommendationView {
        RecommendationView {
            id: self.id@,
            role: self.role@,
            source_run_id: self.source_run_id@,
            source_candidate_id: self.source_candidate_id@,
            source_test_kind: self.source_test_kind@,
            model_identity: opt_view(self.model_identity),
            requested_context: self.requested_context,
            validated_prompt_tokens: self.validated_prompt_tokens,
            validation_level: self.validation_level,
            compatibility: self.compatibility,
            environment_valid: self.environment_valid,
            telemetry_status: self.telemetry_status,
            stale_reason: text::opt_text(self.stale_reason),
            command: text::texts(self.command@),
            command_display: self.command_display@,
            output_toks_per_s: self.output_toks_per_s,
            prompt_toks_per_s: self.prompt_toks_per_s,
            ttft_ms: self.ttft_ms,
            peak_vram_mib: self.peak_vram_mib,
            headroom_mib: self.headroom_mib,
            confidence: self.confidence@,
            measurement_count: self.measurement_count,
            risk: self.risk@,
            note: self.note@,
            realistic_validation: opt_view(self.realistic_validation),
        }
    }
}

impl Duplicate for Recommendation {
    fn duplicate(&self) -> (r: Recommendation) {
        Recommendation {
            id: self.id.clone(),
            role: self.role.clone(),
            source_run_id: self.source_run_id.clone(),
            source_candidate_id: self.source_candidate_id.clone(),
            source_test_kind: self.source_test_kind.clone(),
            model_identity: duplicate_opt(&self.model_identity),
            requested_context: self.requested_context,
            validated_prompt_tokens: self.validated_prompt_tokens,
            validation_level: self.validation_level,
            compatibility: self.compatibility,
            environment_valid: self.environment_valid,
            telemetry_status: self.telemetry_status,
            stale_reason: text::copy_opt(&self.stale_reason),
            command: text::copy_texts(&self.command),
            command_display: self.command_display.clone(),
            output_toks_per_s: self.output_toks_per_s,
            prompt_toks_per_s: self.prompt_toks_per_s,
            ttft_ms: self.ttft_ms,
            peak_vram_mib: self.peak_vram_mib,
            headroom_mib: self.headroom_mib,
            confidence: self.confidence.clone(),
            measurement_count: self.measurement_count,
            risk: self.risk.clone(),
            note: self.note.clone(),
            realistic_validation: duplicate_opt(&self.realistic_validation),
        }
    }
}

impl Clone for Recommendation {
    fn clone(&self) -> (r: Recommendation)
        ensures
            r@ == self@,
    {
        self.duplicate()
    }
}

/// A run that was not fit for a recommendation.
#[derive(Debug, PartialEq)]
pub struct RejectedRun {
    pub run_id: String,
    pub candidate_id: String,
    pub outcome: Outcome,
    pub reason: String,
}

/// What the note of a rejected run holds.
#[verifier::ext_equal]
pub struct RejectedView {
    pub run_id: Seq<char>,
    pub candidate_id: Seq<char>,
    pub outcome: Outcome,
    pub reason: Seq<char>,
}

impl View for RejectedRun {
    type V = RejectedView;

    open spec fn view(&self) -> RejectedView {
        RejectedView {
            run_id: self.run_id@,
            candidate_id: self.candidate_id@,
            outcome: self.outcome,
            reason: self.reason@,
        }
    }
}

impl Duplicate for RejectedRun {
    fn duplicate(&self) -> (r: RejectedRun) {
        RejectedRun {
            run_id: self.run_id.clone(),
            candidate_id: self.candidate_id.clone(),
            outcome: self.outcome,
            reason: self.reason.clone(),
        }
    }
}

impl Clone for RejectedRun {
    fn clone(&self) -> (r: RejectedRun)
        ensures
            r@ == self@,
    {
        self.duplicate()
    }
}

/// A run that does not hold any more.
#[derive(Debug, PartialEq)]
pub struct StaleRun {
    pub run_id: String,
    pub candidate_id: String,
    pub compatibility: Compatibility,
    pub reason: String,
}

/// What the note of a stale run holds.
#[verifier::ext_equal]
pub struct StaleView {
    pub run_id: Seq<char>,
    pub candidate_id: Seq<char>,
    pub compatibility: Compatibility,
    pub reason: Seq<char>,
}

impl View for StaleRun {
    type V = StaleView;

    open spec fn view(&self) -> StaleView {
        StaleView {
            run_id: self.run_id@,
            candidate_id: self.candidate_id@,
            compatibility: self.compatibility,
            reason: self.reason@,
        }
    }
}

impl Duplicate for StaleRun {
    fn duplicate(&self) -> (r: StaleRun) {
        StaleRun {
            run_id: self.run_id.clone(),
            candidate_id: self.candidate_id.clone(),
            compatibility: self.compatibility,
            reason: self.reason.clone(),
        }
    }
}

impl Clone for StaleRun {
    fn clone(&self) -> (r: StaleRun)
        ensures
            r@ == self@,
    {
        self.duplicate()
    }
}

/// The recommendations for a model.
#[derive(Debug, PartialEq)]
pub struct RecommendationFile {
    pub schema_version: u32,
    pub generated_at: Timestamp,
    pub model_path: String,
    pub model_identity: Option<ModelIdentity>,
    pub profiles: Vec<Recommendation>,
    pub rejected: Vec<RejectedRun>,
    pub stale: Vec<StaleRun>,
    pub environment: Option<EnvironmentSnapshot>,
    pub environment_valid: bool,
    pub coverage: Option<SearchCoverage>,
    pub next_suggested_test: Option<String>,
}

/// What the recommendations for a model hold.
#[verifier::ext_equal]
pub struct RecommendationsView {
    pub schema_version: u32,
    pub generated_at: Timestamp,
    pub model_path: Seq<char>,
    pub model_identity: Option<IdentityView>,
    pub profiles: Seq<RecommendationView>,
    pub rejected: Seq<RejectedView>,
    pub stale: Seq<StaleView>,
    pub environment: Option<EnvironmentView>,
    pub environment_valid: bool,
    pub coverage: Option<CoverageView>,
    pub next_suggested_test: Option<Seq<char>>,
}

impl View for RecommendationFile {
    type V = RecommendationsView;

    open spec fn view(&self) -> RecommendationsView {
        RecommendationsView {
            schema_version: self.schema_version,
            generated_at: self.generated_at,
            model_path: self.model_path@,
            model_identity: opt_view(self.model_identity),
            profiles: views(self.profiles@),
            rejected: views(self.rejected@),
            stale: views(self.stale@),
            environment: opt_view(self.environment),
            environment_valid: self.environment_valid,
            coverage: opt_view(self.coverage),
            next_suggested_test: text::opt_text(self.next_suggested_test),
        }
    }
}

impl Duplicate for RecommendationFile {
    fn duplicate(&self) -> (r: RecommendationFile) {
        RecommendationFile {
            schema_version: self.schema_version,
            generated_at: self.generated_at,
            model_path: self.model_path.clone(),
            model_identity: duplicate_opt(&self.model_identity),
            profiles: duplicate_all(&self.profiles),
            rejected: duplicate_all(&self.rejected),
            stale: duplicate_all(&self.stale),
            environment: duplicate_opt(&self.environment),
            environment_valid: self.environment_valid,
            coverage: duplicate_opt(&self.coverage),
            next_suggested_test: text::copy_opt(&self.next_suggested_test),
        }
    }
}

impl Clone for RecommendationFile {
    fn clone(&self) -> (r: RecommendationFile)
        ensures
            r@ == self@,
    {
        self.duplicate()
    }
}

/// The candidates that a search would run.
#[derive(Debug, PartialEq)]
pub struct CandidatePlan {
    pub schema_version: u32,
    pub generated_at: Timestamp,
    pub model_path: String,
    pub model_identity: ModelIdentity,
    pub requested_context: u64,
    pub preset: Preset,
    pub environment: EnvironmentSnapshot,
    pub candidates: Vec<CandidateConfig>,
}

/// What a plan holds.
#[verifier::ext_equal]
pub struct PlanView {
    pub schema_version: u32,
    pub generated_at: Timestamp,
    pub model_path: Seq<char>,
    pub model_identity: IdentityView,
    pub requested_context: u64,
    pub preset: Preset,
    pub environment: EnvironmentView,
    pub candidates: Seq<CandidateView>,
}

impl View for CandidatePlan {
    type V = PlanView;

    open spec fn view(&self) -> PlanView {
        PlanView {
            schema_version: self.schema_version,
            generated_at: self.generated_at,
            model_path: self.model_path@,
            model_identity: self.model_identity@,
            requested_context: self.requested_context,
            preset: self.preset,
            environment: self.environment@,
            candidates: views(self.candidates@),
        }
    }
}

impl Duplicate for CandidatePlan {
    fn duplicate(&self) -> (r: CandidatePlan) {
        CandidatePlan {
            schema_version: self.schema_version,
            generated_at: self.generated_at,
            model_path: self.model_path.clone(),
            model_identity: self.model_identity.duplicate(),
            requested_context: self.requested_context,
            preset: self.preset,
            environment: self.environment.duplicate(),
            candidates: duplicate_all(&self.candidates),
        }
    }
}

impl Clone for CandidatePlan {
    fn clone(&self) -> (r: CandidatePlan)
        ensures
            r@ == self@,
    {
        self.duplicate()
    }
}

// ---------------------------------------------------------------------------
// Commands

/// The characters that a shell takes as they are.
pub open spec fn plain_char(c: char) -> bool {
    text::is_alphanumeric(c) || "-_./:=,@"@.contains(c)
}

pub open spec fn plain_text(s: Seq<char>) -> bool {
    forall|i: int| 0 <= i < s.len() ==> plain_char(#[trigger] s[i])
}

/// The word for a shell that stands for `s`.
pub open spec fn escaped(s: Seq<char>) -> Seq<char> {
    if plain_text(s) {
        s
    } else {
        "'"@ + text::replaced(s, '\'', "'\\''"@) + "'"@
    }
}

/// The words for a shell that stand for a command.
pub open spec fn escaped_all(command: Seq<Seq<char>>) -> Seq<Seq<char>> {
    Seq::new(command.len(), |i: int| escaped(command[i]))
}

/// The line for a shell that stands for a command.
pub open spec fn display_of(command: Seq<Seq<char>>) -> Seq<char> {
    text::joined(escaped_all(command), " "@)
}

/// The word for a shell that stands for `value`.
pub fn shell_escape(value: &str) -> (r: String)
    ensures
        r@ == escaped(value@),
{
    let chars = text::to_chars(value);
    let allowed = text::to_chars("-_./:=,@");
    let mut plain = true;
    for i in 0..chars.len()
        invariant
            chars@ == value@,
            allowed@ == "-_./:=,@"@,
            plain == plain_text(value@.take(i as int)),
    {
        let c = chars[i];
        let mut found = text::alphanumeric(c);
        for k in 0..allowed.len()
            invariant
                allowed@ == "-_./:=,@"@,
                found == (text::is_alphanumeric(c) || allowed@.take(k as int).contains(c)),
        {
            proof {
                let s = allowed@.take(k as int);
                let t = allowed@.take(k + 1);
                assert(t[k as int] == allowed@[k as int]);
                if s.contains(c) {
                    let j = choose|j: int| 0 <= j < s.len() && s[j] == c;
                    assert(t[j] == c);
                }
                if t.contains(c) && allowed@[k as int] != c {
                    let j = choose|j: int| 0 <= j < t.len() && t[j] == c;
                    assert(s[j] == c);
                }
            }
            if allowed[k] == c {
                found = true;
            }
        }
        proof {
            assert(allowed@.take(allowed@.len() as int) =~= allowed@);
            let s = value@.take(i as int);
            let t = value@.take(i + 1);
            assert(t[i as int] == c);
            assert(forall|j: int| 0 <= j < i ==> s[j] == t[j]);
            if plain_text(s) && plain_char(c) {
                assert forall|j: int| 0 <= j < t.len() implies plain_char(#[trigger] t[j]) by {
                    if j < i {
                        assert(plain_char(s[j]));
                    }
                }
            }
            if plain_text(t) {
                assert forall|j: int| 0 <= j < s.len() implies plain_char(#[trigger] s[j]) by {
                    assert(plain_char(t[j]));
                }
            }
        }
        plain = plain && found;
    }
    proof {
        assert(value@.take(value@.len() as int) =~= value@);
    }
    if plain {
        value.to_string()
    } else {
        let mut r = "'".to_string();
        r.append(text::replace_char(value, '\'', "'\\''").as_str());
        r.append("'");
        r
    }
}

/// The line for a shell that stands for `command`.
pub fn command_display(command: &Vec<String>) -> (r: String)
    ensures
        r@ == display_of(text::texts(command@)),
{
    let mut parts: Vec<String> = Vec::new();
    for i in 0..command.len()
        invariant
            parts@.len() == i,
            forall|j: int| 0 <= j < i ==> (#[trigger] parts@[j])@ == escaped(command@[j]@),
    {
        parts.push(shell_escape(command[i].as_str()));
    }
    proof {
        assert(text::texts(parts@) =~= escaped_all(text::texts(command@)));
    }
    text::join(&parts, " ")
}

/// The words that a shell makes of a line without expansions: blanks part
/// words, a backslash takes the next character as it is, and what stands in
/// single quotes is taken as it is. `word` is what was read of the current
/// word, and `quoted` says that a quote is open.
pub open spec fn shell_words(
    line: Seq<char>,
    word: Option<Seq<char>>,
    quoted: bool,
) -> Seq<Seq<char>>
    decreases line.len(),
{
    let so_far = match word {
        Some(w) => w,
        None => seq![],
    };
    let done = match word {
        Some(w) => seq![w],
        None => seq![],
    };
    if line.len() == 0 {
        done
    } else if quoted {
        if line[0] == '\'' {
            shell_words(line.drop_first(), Some(so_far), false)
        } else {
            shell_words(line.drop_first(), Some(so_far.push(line[0])), true)
        }
    } else if line[0] == ' ' {
        done + shell_words(line.drop_first(), None, false)
    } else if line[0] == '\'' {
        shell_words(line.drop_first(), Some(so_far), true)
    } else if line[0] == '\\' && line.len() > 1 {
        shell_words(line.skip(2), Some(so_far.push(line[1])), false)
    } else {
        shell_words(line.drop_first(), Some(so_far.push(line[0])), false)
    }
}

proof fn plain_is_read(s: Seq<char>, rest: Seq<char>, before: Option<Seq<char>>)
    requires
        plain_text(s),
        s.len() > 0,
    ensures
        shell_words(s + rest, before, false) == shell_words(
            rest,
            Some(
                (match before {
                    Some(w) => w,
                    None => seq![],
                }) + s,
            ),
            false,
        ),
    decreases s.len(),
{
    reveal_strlit("-_./:=,@");
    let so_far = match before {
        Some(w) => w,
        None => seq![],
    };
    let line = s + rest;
    assert(plain_char(s[0]));
    assert(line.drop_first() =~= s.drop_first() + rest);
    if s.len() == 1 {
        assert(s.drop_first() + rest =~= rest);
        assert(so_far + s =~= so_far.push(s[0]));
    } else {
        let t = s.drop_first();
        assert forall|i: int| 0 <= i < t.len() implies plain_char(#[trigger] t[i]) by {
            assert(plain_char(s[i + 1]));
        }
        plain_is_read(t, rest, Some(so_far.push(s[0])));
        assert(so_far.push(s[0]) + t =~= so_far + s);
    }
}

proof fn replaced_from_front(s: Seq<char>, c: char, with: Seq<char>)
    requires
        s.len() > 0,
    ensures
        text::replaced(s, c, with) == (if s[0] == c {
            with
        } else {
            seq![s[0]]
        }) + text::replaced(s.drop_first(), c, with),
    decreases s.len(),
{
    let first = if s[0] == c {
        with
    } else {
        seq![s[0]]
    };
    if s.len() == 1 {
        assert(s.drop_last() =~= seq![]);
        assert(s.drop_first() =~= seq![]);
        assert(text::replaced(s.drop_last(), c, with) =~= seq![]);
        assert(text::replaced(s, c, with) =~= first + text::replaced(s.drop_first(), c, with));
    } else {
        replaced_from_front(s.drop_last(), c, with);
        assert(s.drop_last().drop_first() =~= s.drop_first().drop_last());
        assert(text::replaced(s, c, with) =~= first + text::replaced(s.drop_first(), c, with));
    }
}

proof fn quoted_is_read(s: Seq<char>, rest: Seq<char>, so_far: Seq<char>)
    ensures
        shell_words(
            text::replaced(s, '\'', "'\\''"@) + "'"@ + rest,
            Some(so_far),
            true,
        ) == shell_words(rest, Some(so_far + s), false),
    decreases s.len(),
{
    reveal_strlit("'");
    reveal_strlit("'\\''");
    let with = "'\\''"@;
    let end = "'"@ + rest;
    if s.len() == 0 {
        let line = text::replaced(s, '\'', with) + "'"@ + rest;
        assert(line =~= end);
        assert(end.drop_first() =~= rest);
        assert(so_far + s =~= so_far);
    } else {
        let t = s.drop_first();
        replaced_from_front(s, '\'', with);
        quoted_is_read(t, rest, so_far.push(s[0]));
        assert(so_far.push(s[0]) + t =~= so_far + s);
        let tail = text::replaced(t, '\'', with) + "'"@ + rest;
        let line = text::replaced(s, '\'', with) + "'"@ + rest;
        if s[0] == '\'' {
            assert(line =~= with + tail);
            let one = line.drop_first();
            assert(one[0] == '\\' && one[1] == '\'');
            let three = one.skip(2);
            assert(three[0] == '\'');
            assert(three.drop_first() =~= tail);
            reveal_with_fuel(shell_words, 4);
        } else {
            assert(line =~= seq![s[0]] + tail);
            assert(line.drop_first() =~= tail);
        }
    }
}

proof fn escaped_is_read(s: Seq<char>, rest: Seq<char>)
    requires
        s.len() > 0,
    ensures
        shell_words(escaped(s) + rest, None, false) == shell_words(rest, Some(s), false),
{
    if plain_text(s) {
        plain_is_read(s, rest, None);
        assert(Seq::<char>::empty() + s =~= s);
    } else {
        reveal_strlit("'");
        let tail = text::replaced(s, '\'', "'\\''"@) + "'"@ + rest;
        let line = escaped(s) + rest;
        assert(line =~= "'"@ + tail);
        assert(line.drop_first() =~= tail);
        quoted_is_read(s, rest, seq![]);
        assert(Seq::<char>::empty() + s =~= s);
    }
}

proof fn line_is_read(command: Seq<Seq<char>>, n: nat, rest: Seq<char>)
    requires
        0 < n <= command.len(),
        forall|i: int| 0 <= i < command.len() ==> (#[trigger] command[i]).len() > 0,
    ensures
        shell_words(
            text::joined(escaped_all(command).take(n as int), " "@) + rest,
            None,
            false,
        ) == command.take(n - 1) + shell_words(rest, Some(command[n - 1]), false),
    decreases n,
{
    reveal_strlit(" ");
    let all = escaped_all(command);
    let last = command[n - 1];
    assert(last.len() > 0);
    let none = Seq::<Seq<char>>::empty();
    if n == 1 {
        assert(all.take(1)[0] == escaped(last));
        escaped_is_read(last, rest);
        assert(command.take(0) =~= none);
        assert(none + shell_words(rest, Some(last), false) =~= shell_words(
            rest,
            Some(last),
            false,
        ));
    } else {
        assert(all.take(n as int).drop_last() =~= all.take(n - 1));
        assert(all.take(n as int).last() == escaped(last));
        let more = " "@ + escaped(last) + rest;
        let head = text::joined(all.take(n - 1), " "@);
        assert(text::joined(all.take(n as int), " "@) + rest =~= head + more);
        line_is_read(command, (n - 1) as nat, more);
        assert(more.drop_first() =~= escaped(last) + rest);
        escaped_is_read(last, rest);
        let tail = shell_words(rest, Some(last), false);
        let one = command[n - 2];
        assert(shell_words(more, Some(one), false) == seq![one] + tail);
        assert(command.take(n - 2) + (seq![one] + tail) =~= command.take(n - 1) + tail);
    }
}

/// A shell makes the command of the line that stands for it, where no
/// argument is empty.
pub proof fn displayed_commands_read_back(command: Seq<Seq<char>>)
    requires
        forall|i: int| 0 <= i < command.len() ==> (#[trigger] command[i]).len() > 0,
    ensures
        shell_words(display_of(command), None, false) == command,
{
    let none = Seq::<char>::empty();
    if command.len() == 0 {
        assert(display_of(command) =~= none);
        assert(command =~= seq![]);
    } else {
        line_is_read(command, command.len(), none);
        assert(escaped_all(command).take(command.len() as int) =~= escaped_all(command));
        assert(display_of(command) + none =~= display_of(command));
        assert(command.drop_last() + seq![command.last()] =~= command);
        assert(command.take(command.len() - 1) =~= command.drop_last());
    }
}

} // verus!
