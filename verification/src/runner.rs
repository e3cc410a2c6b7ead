//! Runs: how one is set up, what its evidence comes to, and what saved
//! recommendations are still good for.
use crate::candidates::{generate_candidates, plan_starts_at_requested_context, planned};
use crate::command::{command_with_port, with_port, ProbeMode};
use crate::environment::{
    compare_environment, compared, reason_text, Compatibility, EnvironmentSnapshot, EnvironmentView,
};
use crate::gguf::{same_identity, GgufMetadata, IdentityView, MetadataView, ModelIdentity};
use crate::measure::Real;
use crate::path;
use crate::probing::{
    classify_abort, classify_probe_error, log_indicates_oom, oom_logged, outcome_of_abort,
    outcome_of_error, widest, PromptPlan, Timing, TimingSummary,
};
use crate::profile::{
    command_display, display_of, goal_profile, preset_ingest, usable, ArtifactPaths, ArtifactView,
    CandidateConfig, CoverageView, Manifest, ManifestView, NamedProbe, NamedProbeView, Outcome,
    Preset, ProbeView, ProfileResult, Recommendation, RecommendationFile, RecommendationView,
    RecommendationsView, RejectedRun, RejectedView, ResultView, RunMetrics, SafetyLimits,
    SearchCoverage, StaleRun, StaleView, TelemetryStatus, RealisticValidation, ValidationLevel,
    ValidationView, WorkloadGoal, AGENT_SCHEMA_VERSION, SCHEMA_VERSION,
};
use crate::ranking::{violates, violates_safety};
use crate::record::{duplicate_all, duplicate_opt, opt_view, views, Duplicate};
use crate::telemetry::{metrics_of, TelemetrySummary};
use crate::text;
use crate::time::Timestamp;
use crate::tuning::{find_profile, profile_named};
use crate::validation::{near_full_ingest_target, near_full_target};
use vstd::prelude::*;

verus! {

// ---------------------------------------------------------------------------
// Options

/// How to search.
#[derive(Debug)]
pub struct TuneOptions {
    pub ctx_cap: Option<u64>,
    pub preset: Preset,
    pub max_runs: Option<usize>,
    pub safety: SafetyLimits,
    pub port_start: u16,
    pub gpu_index: Option<u32>,
    pub n_cpu_moe_values: Vec<u64>,
    pub plan_only: bool,
    pub near_full_ingest: bool,
    pub near_full_target_tokens: Option<u64>,
    pub validate_best: bool,
    pub confirm_best: bool,
    pub goal: WorkloadGoal,
    pub probe_mode: ProbeMode,
}

/// How to run a full-context probe.
#[derive(Debug)]
pub struct FullCtxOptions {
    pub profile: String,
    pub target_tokens: Option<u64>,
    pub ctx_cap: Option<u64>,
    pub safety: SafetyLimits,
    pub port_start: u16,
    pub gpu_index: Option<u32>,
    pub probe_mode: ProbeMode,
}

/// How to serve a saved profile.
#[derive(Debug)]
pub struct ServeOptions {
    pub profile: String,
    pub port: u16,
    pub print_only: bool,
    pub allow_stale: bool,
}

/// How to search and recommend.
#[derive(Debug)]
pub struct RecommendOptions {
    pub ctx_cap: Option<u64>,
    pub preset: Preset,
    pub max_runs: Option<usize>,
    pub profile: Option<String>,
    pub goal: WorkloadGoal,
    pub port: u16,
    pub safety: SafetyLimits,
    pub port_start: u16,
    pub gpu_index: Option<u32>,
    pub n_cpu_moe_values: Vec<u64>,
    pub near_full_ingest: bool,
    pub near_full_target_tokens: Option<u64>,
    pub validate_best: bool,
    pub confirm_best: bool,
    pub agent: bool,
    pub probe_mode: ProbeMode,
}

/// What a search recommends, for agents.
#[derive(Debug, PartialEq)]
pub struct RecommendOutput {
    pub agent_schema_version: u32,
    pub schema_version: u32,
    pub model_path: String,
    pub model_identity: Option<ModelIdentity>,
    pub environment_valid: bool,
    pub telemetry_status: TelemetryStatus,
    pub profile_id: String,
    pub profile_key: String,
    pub goal: WorkloadGoal,
    pub confidence: String,
    pub measurement_count: usize,
    pub coverage: Option<SearchCoverage>,
    pub command: String,
    pub exact_command: String,
    pub output_toks_per_s: Option<Real>,
    pub prompt_toks_per_s: Option<Real>,
    pub ttft_ms: Option<u64>,
    pub requested_context: u64,
    pub validated_prompt_tokens: Option<u64>,
    pub validation_level: ValidationLevel,
    pub realistic_validation: Option<RealisticValidation>,
    pub risk: String,
    pub failures: Vec<RejectedRun>,
    pub stale: Vec<StaleRun>,
    pub next_suggested_test: Option<String>,
}

/// What a recommendation for agents holds.
#[verifier::ext_equal]
pub struct RecommendView {
    pub agent_schema_version: u32,
    pub schema_version: u32,
    pub model_path: Seq<char>,
    pub model_identity: Option<IdentityView>,
    pub environment_valid: bool,
    pub telemetry_status: TelemetryStatus,
    pub profile_id: Seq<char>,
    pub profile_key: Seq<char>,
    pub goal: WorkloadGoal,
    pub confidence: Seq<char>,
    pub measurement_count: usize,
    pub coverage: Option<CoverageView>,
    pub command: Seq<char>,
    pub exact_command: Seq<char>,
    pub output_toks_per_s: Option<Real>,
    pub prompt_toks_per_s: Option<Real>,
    pub ttft_ms: Option<u64>,
    pub requested_context: u64,
    pub validated_prompt_tokens: Option<u64>,
    pub validation_level: ValidationLevel,
    pub realistic_validation: Option<ValidationView>,
    pub risk: Seq<char>,
    pub failures: Seq<RejectedView>,
    pub stale: Seq<StaleView>,
    pub next_suggested_test: Option<Seq<char>>,
}

impl View for RecommendOutput {
    type V = RecommendView;

    open spec fn view(&self) -> RecommendView {
        RecommendView {
            agent_schema_version: self.agent_schema_version,
            schema_version: self.schema_version,
            model_path: self.model_path@,
            model_identity: opt_view(self.model_identity),
            environment_valid: self.environment_valid,
            telemetry_status: self.telemetry_status,
            profile_id: self.profile_id@,
            profile_key: self.profile_key@,
            goal: self.goal,
            confidence: self.confidence@,
            measurement_count: self.measurement_count,
            coverage: opt_view(self.coverage),
            command: self.command@,
            exact_command: self.exact_command@,
            output_toks_per_s: self.output_toks_per_s,
            prompt_toks_per_s: self.prompt_toks_per_s,
            ttft_ms: self.ttft_ms,
            requested_context: self.requested_context,
            validated_prompt_tokens: self.validated_prompt_tokens,
            validation_level: self.validation_level,
            realistic_validation: opt_view(self.realistic_validation),
            risk: self.risk@,
            failures: views(self.failures@),
            stale: views(self.stale@),
            next_suggested_test: text::opt_text(self.next_suggested_test),
        }
    }
}

impl Duplicate for RecommendOutput {
    fn duplicate(&self) -> (r: RecommendOutput) {
        RecommendOutput {
            agent_schema_version: self.agent_schema_version,
            schema_version: self.schema_version,
            model_path: self.model_path.clone(),
            model_identity: duplicate_opt(&self.model_identity),
            environment_valid: self.environment_valid,
            telemetry_status: self.telemetry_status,
            profile_id: self.profile_id.clone(),
            profile_key: self.profile_key.clone(),
            goal: self.goal,
            confidence: self.confidence.clone(),
            measurement_count: self.measurement_count,
            coverage: duplicate_opt(&self.coverage),
            command: self.command.clone(),
            exact_command: self.exact_command.clone(),
            output_toks_per_s: self.output_toks_per_s,
            prompt_toks_per_s: self.prompt_toks_per_s,
            ttft_ms: self.ttft_ms,
            requested_context: self.requested_context,
            validated_prompt_tokens: self.validated_prompt_tokens,
            validation_level: self.validation_level,
            realistic_validation: duplicate_opt(&self.realistic_validation),
            risk: self.risk.clone(),
            failures: duplicate_all(&self.failures),
            stale: duplicate_all(&self.stale),
            next_suggested_test: text::copy_opt(&self.next_suggested_test),
        }
    }
}

impl Clone for RecommendOutput {
    fn clone(&self) -> (r: RecommendOutput)
        ensures
            r@ == self@,
    {
        self.duplicate()
    }
}

impl RecommendOptions {
    /// The search that a recommendation rests on: it is never only planned.
    pub fn tune_options(&self) -> (r: TuneOptions)
        ensures
            r.ctx_cap == self.ctx_cap,
            r.preset == self.preset,
            r.max_runs == self.max_runs,
            r.safety == self.safety,
            r.port_start == self.port_start,
            r.gpu_index == self.gpu_index,
            r.n_cpu_moe_values@ == self.n_cpu_moe_values@,
            !r.plan_only,
            r.near_full_ingest == self.near_full_ingest,
            r.near_full_target_tokens == self.near_full_target_tokens,
            r.validate_best == self.validate_best,
            r.confirm_best == self.confirm_best,
            r.goal == self.goal,
            r.probe_mode == self.probe_mode,
    {
        TuneOptions {
            ctx_cap: self.ctx_cap,
            preset: self.preset,
            max_runs: self.max_runs,
            safety: self.safety,
            port_start: self.port_start,
            gpu_index: self.gpu_index,
            n_cpu_moe_values: self.n_cpu_moe_values.clone(),
            plan_only: false,
            near_full_ingest: self.near_full_ingest,
            near_full_target_tokens: self.near_full_target_tokens,
            validate_best: self.validate_best,
            confirm_best: self.confirm_best,
            goal: self.goal,
            probe_mode: self.probe_mode,
        }
    }
}

// ---------------------------------------------------------------------------
// Setting up a run

/// How the time is written in the id of a run.
pub const RUN_STAMP_FORMAT: &'static str = "%Y%m%dT%H%M%SZ";

/// A point in time in UTC, in a format; `None` where it is out of range.
pub uninterp spec fn utc_text(seconds: i64, nanos: u32, format: Seq<char>) -> Option<Seq<char>>;

/// `chrono::DateTime::from_timestamp` and `chrono::DateTime::format`: a point
/// in time in UTC, in a format, by name of that result alone. A format that is
/// not valid panics.
#[verifier::external_body]
fn format_utc(seconds: i64, nanos: u32, format: &str) -> (r: Option<String>)
    requires
        format@ == RUN_STAMP_FORMAT@,
    ensures
        text::opt_text(r) == utc_text(seconds, nanos, format@),
{
    chrono::DateTime::from_timestamp(seconds, nanos).map(|t| t.format(format).to_string())
}

/// A character that may stand in the name of a run.
pub open spec fn name_char(c: char) -> char {
    if text::is_alphanumeric(c) || c == '-' || c == '_' {
        c
    } else {
        '-'
    }
}

/// The id of a run: when it started, and its candidate.
pub open spec fn run_name(stamp: Seq<char>, candidate_id: Seq<char>) -> Seq<char> {
    stamp + "-"@ + Seq::new(candidate_id.len(), |i: int| name_char(candidate_id[i]))
}

/// The id of a run, given how the time is written.
pub fn run_id_at(stamp: &str, candidate_id: &str) -> (r: String)
    ensures
        r@ == run_name(stamp@, candidate_id@),
{
    let chars = text::to_chars(candidate_id);
    let ghost clean = Seq::new(candidate_id@.len(), |i: int| name_char(candidate_id@[i]));
    let mut name = String::new();
    for i in 0..chars.len()
        invariant
            chars@ == candidate_id@,
            clean == Seq::new(candidate_id@.len(), |i: int| name_char(candidate_id@[i])),
            name@ == clean.take(i as int),
    {
        let c = chars[i];
        proof {
            assert(clean.take(i + 1) =~= clean.take(i as int).push(clean[i as int]));
        }
        if text::alphanumeric(c) || c == '-' || c == '_' {
            name.push(c);
        } else {
            name.push('-');
        }
    }
    proof {
        assert(clean.take(clean.len() as int) =~= clean);
    }
    let mut r = stamp.to_string();
    r.append("-");
    r.append(name.as_str());
    r
}

/// The id of a run that starts now, where the time can be written.
pub fn run_id(candidate_id: &str, now: Timestamp) -> (r: Option<String>)
    ensures
        text::opt_text(r) == (match utc_text(now.seconds, now.nanos, RUN_STAMP_FORMAT@) {
            Some(stamp) => Some(run_name(stamp, candidate_id@)),
            None => None,
        }),
{
    match format_utc(now.seconds, now.nanos, RUN_STAMP_FORMAT) {
        Some(stamp) => Some(run_id_at(stamp.as_str(), candidate_id)),
        None => None,
    }
}

/// The directory of a run.
pub open spec fn run_dir_of(profiler_dir: Seq<char>, run_id: Seq<char>) -> Seq<char> {
    path::child(path::child(profiler_dir, "runs"@), run_id)
}

/// Where the evidence of a run goes.
pub open spec fn artifacts_in(dir: Seq<char>) -> ArtifactView {
    ArtifactView {
        command: path::child(dir, "command.sh"@),
        server_log: path::child(dir, "server.log"@),
        telemetry_jsonl: path::child(dir, "telemetry.jsonl"@),
        request_json: path::child(dir, "request.json"@),
        response_json: path::child(dir, "response.json"@),
        result_json: path::child(dir, "result.json"@),
    }
}

/// The directory of a run.
pub fn run_dir(profiler_dir: &str, run_id: &str) -> (r: String)
    ensures
        r@ == run_dir_of(profiler_dir@, run_id@),
{
    path::join(path::join(profiler_dir, "runs").as_str(), run_id)
}

/// Where the evidence of a run goes.
pub fn artifact_paths(dir: &str) -> (r: ArtifactPaths)
    ensures
        r@ == artifacts_in(dir@),
{
    ArtifactPaths {
        command: path::join(dir, "command.sh"),
        server_log: path::join(dir, "server.log"),
        telemetry_jsonl: path::join(dir, "telemetry.jsonl"),
        request_json: path::join(dir, "request.json"),
        response_json: path::join(dir, "response.json"),
        result_json: path::join(dir, "result.json"),
    }
}

/// The script that starts a server.
pub fn shell_script(command: &str) -> (r: String)
    ensures
        r@ == "#!/usr/bin/env bash\nset -euo pipefail\nexec "@ + command@ + "\n"@,
{
    let mut r = "#!/usr/bin/env bash\nset -euo pipefail\nexec ".to_string();
    r.append(command);
    r.append("\n");
    r
}

/// Where a server listens.
pub fn base_url(port: u16) -> (r: String)
    ensures
        r@ == "http://127.0.0.1:"@ + text::decimal(port as nat) + "/v1"@,
{
    let mut r = "http://127.0.0.1:".to_string();
    r.append(text::number(port as u64).as_str());
    r.append("/v1");
    r
}

// ---------------------------------------------------------------------------
// Judging a run

/// How the requests of a run ended.
pub enum DriveEnd {
    /// They were made, up to the first that failed, of which this is said.
    Driven { probes: Vec<NamedProbe>, error: Option<String> },
    /// They were cut short.
    Aborted { note: String },
}

/// What is known of a run when it is over.
pub struct RunEvidence {
    pub end: DriveEnd,
    pub log: String,
    pub timing: TimingSummary,
    pub telemetry: TelemetrySummary,
    pub total_wall_ms: u64,
}

/// The requests that were answered.
pub open spec fn probes_of(end: DriveEnd) -> Seq<NamedProbeView> {
    match end {
        DriveEnd::Driven { probes, error } => views(probes@),
        DriveEnd::Aborted { note } => seq![],
    }
}

/// The request of this name; the last one, where there are several.
pub open spec fn probe_named(probes: Seq<NamedProbeView>, name: Seq<char>) -> Option<ProbeView>
    decreases probes.len(),
{
    if probes.len() == 0 {
        None
    } else if probes.last().name == name {
        Some(probes.last().summary)
    } else {
        probe_named(probes.drop_last(), name)
    }
}

/// The first of several names of which there is a request.
pub open spec fn first_probe(probes: Seq<NamedProbeView>, names: Seq<Seq<char>>) -> Option<ProbeView>
    decreases names.len(),
{
    if names.len() == 0 {
        None
    } else {
        match probe_named(probes, names[0]) {
            Some(p) => Some(p),
            None => first_probe(probes, names.drop_first()),
        }
    }
}

/// How the run ended by itself, and what is said of it.
pub open spec fn driven_outcome(end: DriveEnd) -> (Outcome, Seq<char>) {
    match end {
        DriveEnd::Driven { probes, error } => match error {
            Some(e) => (outcome_of_error(e@), e@),
            None => (Outcome::Pass, seq![]),
        },
        DriveEnd::Aborted { note } => (outcome_of_abort(note@), note@),
    }
}

/// The same, once the log was read: memory that could not be had explains every
/// end but an interruption.
pub open spec fn logged_outcome(end: DriveEnd, log: Seq<char>) -> (Outcome, Seq<char>) {
    let (outcome, note) = driven_outcome(end);
    if outcome != Outcome::Interrupted && oom_logged(log) {
        (Outcome::Oom, "server log contains OOM/CUDA allocation failure"@)
    } else {
        (outcome, note)
    }
}

/// When the first token came: of the request for output, or else of the long
/// ones, or else of the first one.
pub open spec fn ttft_names() -> Seq<Seq<char>> {
    seq!["output"@, "realistic"@, "fullctx"@, "sanity"@]
}

/// Whose prompt tells the number of prompt tokens.
pub open spec fn prompt_names() -> Seq<Seq<char>> {
    seq!["ingest"@, "realistic"@, "fullctx"@]
}

/// Whose answer tells the number of completion tokens.
pub open spec fn completion_names() -> Seq<Seq<char>> {
    seq!["realistic"@, "output"@, "sanity"@]
}

/// What was measured.
pub open spec fn metrics_from(e: RunEvidence) -> RunMetrics {
    RunMetrics {
        server_prompt_eval_toks_per_s: match widest(e.timing.prompt_evals@) {
            Some(t) => Some(t.toks_per_s),
            None => None,
        },
        server_generation_toks_per_s: match widest(e.timing.evals@) {
            Some(t) => Some(t.toks_per_s),
            None => None,
        },
        client_ttft_ms: match first_probe(probes_of(e.end), ttft_names()) {
            Some(p) => p.ttft_ms,
            None => None,
        },
        total_wall_ms: Some(e.total_wall_ms),
        ..metrics_of(e.telemetry)
    }
}

/// The number of prompt tokens: what the server timed, or else what a request
/// tells.
pub open spec fn prompt_tokens_of(e: RunEvidence) -> Option<u64> {
    match widest(e.timing.prompt_evals@) {
        Some(t) => Some(t.tokens),
        None => match first_probe(probes_of(e.end), prompt_names()) {
            Some(p) => p.prompt_tokens,
            None => None,
        },
    }
}

/// The number of completion tokens: what the server timed, or else what a
/// request tells.
pub open spec fn completion_tokens_of(e: RunEvidence) -> Option<u64> {
    match widest(e.timing.evals@) {
        Some(t) => Some(t.tokens),
        None => match first_probe(probes_of(e.end), completion_names()) {
            Some(p) => p.completion_tokens,
            None => None,
        },
    }
}

/// The outcome of a run, and what is said of it.
pub open spec fn judged(e: RunEvidence, safety: SafetyLimits) -> (Outcome, Seq<char>) {
    let m = metrics_from(e);
    let (outcome, note) = logged_outcome(e.end, e.log@);
    let complete = m.server_prompt_eval_toks_per_s is Some && m.server_generation_toks_per_s is Some;
    let (timed, remark) = if outcome == Outcome::Pass && !complete {
        (
            Outcome::ParsePartial,
            "request completed but llama.cpp timing lines were incomplete"@,
        )
    } else {
        (outcome, note)
    };
    if usable(timed) && violates(m, safety) {
        (Outcome::TooTight, "run passed but violated VRAM or swap safety limits"@)
    } else {
        (timed, remark)
    }
}

/// Video memory was measured.
pub open spec fn status_of(m: RunMetrics) -> TelemetryStatus {
    if m.min_free_vram_mib is Some {
        TelemetryStatus::Measured
    } else {
        TelemetryStatus::Unknown
    }
}

/// What a run came to.
pub struct RunAssessment {
    pub outcome: Outcome,
    pub note: String,
    pub metrics: RunMetrics,
    pub prompt_tokens: Option<u64>,
    pub completion_tokens: Option<u64>,
    pub telemetry_status: TelemetryStatus,
}

fn find_probe(probes: &Vec<NamedProbe>, name: &str) -> (r: Option<usize>)
    ensures
        match r {
            Some(i) => i < probes@.len() && probe_named(views(probes@), name@) == Some(
                probes@[i as int].summary@,
            ),
            None => probe_named(views(probes@), name@) is None,
        },
{
    let ghost all = views(probes@);
    let mut i: usize = probes.len();
    proof {
        assert(all.take(i as int) =~= all);
    }
    while i > 0
        invariant
            all == views(probes@),
            i <= probes@.len(),
            probe_named(all.take(i as int), name@) == probe_named(all, name@),
        decreases i,
    {
        proof {
            assert(all.take(i as int).drop_last() =~= all.take(i - 1));
            assert(all.take(i as int).last() == probes@[i - 1]@);
        }
        if text::same_text(probes[i - 1].name.as_str(), name) {
            return Some(i - 1);
        }
        i -= 1;
    }
    None
}

fn ttft_of(probes: &Vec<NamedProbe>) -> (r: Option<u64>)
    ensures
        r == (match first_probe(views(probes@), ttft_names()) {
            Some(p) => p.ttft_ms,
            None => None,
        }),
{
    proof {
        names_unfold(views(probes@));
    }
    if let Some(i) = find_probe(probes, "output") {
        return probes[i].summary.ttft_ms;
    }
    if let Some(i) = find_probe(probes, "realistic") {
        return probes[i].summary.ttft_ms;
    }
    if let Some(i) = find_probe(probes, "fullctx") {
        return probes[i].summary.ttft_ms;
    }
    if let Some(i) = find_probe(probes, "sanity") {
        return probes[i].summary.ttft_ms;
    }
    None
}

fn prompt_count(probes: &Vec<NamedProbe>) -> (r: Option<u64>)
    ensures
        r == (match first_probe(views(probes@), prompt_names()) {
            Some(p) => p.prompt_tokens,
            None => None,
        }),
{
    proof {
        names_unfold(views(probes@));
    }
    if let Some(i) = find_probe(probes, "ingest") {
        return probes[i].summary.prompt_tokens;
    }
    if let Some(i) = find_probe(probes, "realistic") {
        return probes[i].summary.prompt_tokens;
    }
    if let Some(i) = find_probe(probes, "fullctx") {
        return probes[i].summary.prompt_tokens;
    }
    None
}

fn completion_count(probes: &Vec<NamedProbe>) -> (r: Option<u64>)
    ensures
        r == (match first_probe(views(probes@), completion_names()) {
            Some(p) => p.completion_tokens,
            None => None,
        }),
{
    proof {
        names_unfold(views(probes@));
    }
    if let Some(i) = find_probe(probes, "realistic") {
        return probes[i].summary.completion_tokens;
    }
    if let Some(i) = find_probe(probes, "output") {
        return probes[i].summary.completion_tokens;
    }
    if let Some(i) = find_probe(probes, "sanity") {
        return probes[i].summary.completion_tokens;
    }
    None
}

proof fn names_unfold(probes: Seq<NamedProbeView>)
    ensures
        first_probe(probes, ttft_names()) == (match probe_named(probes, "output"@) {
            Some(p) => Some(p),
            None => match probe_named(probes, "realistic"@) {
                Some(p) => Some(p),
                None => match probe_named(probes, "fullctx"@) {
                    Some(p) => Some(p),
                    None => probe_named(probes, "sanity"@),
                },
            },
        }),
        first_probe(probes, prompt_names()) == (match probe_named(probes, "ingest"@) {
            Some(p) => Some(p),
            None => match probe_named(probes, "realistic"@) {
                Some(p) => Some(p),
                None => probe_named(probes, "fullctx"@),
            },
        }),
        first_probe(probes, completion_names()) == (match probe_named(probes, "realistic"@) {
            Some(p) => Some(p),
            None => match probe_named(probes, "output"@) {
                Some(p) => Some(p),
                None => probe_named(probes, "sanity"@),
            },
        }),
{
    reveal_with_fuel(first_probe, 5);
    let t = ttft_names();
    assert(t.drop_first() =~= seq!["realistic"@, "fullctx"@, "sanity"@]);
    assert(t.drop_first().drop_first() =~= seq!["fullctx"@, "sanity"@]);
    assert(t.drop_first().drop_first().drop_first() =~= seq!["sanity"@]);
    let p = prompt_names();
    assert(p.drop_first() =~= seq!["realistic"@, "fullctx"@]);
    assert(p.drop_first().drop_first() =~= seq!["fullctx"@]);
    let c = completion_names();
    assert(c.drop_first() =~= seq!["output"@, "sanity"@]);
    assert(c.drop_first().drop_first() =~= seq!["sanity"@]);
}

/// What a run came to: its outcome, its metrics, and what is said of it.
pub fn assess_run(evidence: &RunEvidence, safety: &SafetyLimits) -> (r: RunAssessment)
    ensures
        r.outcome == judged(*evidence, *safety).0,
        r.note@ == judged(*evidence, *safety).1,
        r.metrics == metrics_from(*evidence),
        r.prompt_tokens == prompt_tokens_of(*evidence),
        r.completion_tokens == completion_tokens_of(*evidence),
        r.telemetry_status == status_of(r.metrics),
{
    let (mut outcome, mut note) = match &evidence.end {
        DriveEnd::Driven { probes, error } => match error {
            Some(e) => (classify_probe_error(e.as_str()), e.clone()),
            None => (Outcome::Pass, String::new()),
        },
        DriveEnd::Aborted { note } => (classify_abort(note.as_str()), note.clone()),
    };
    proof {
        assert(note@ =~= driven_outcome(evidence.end).1);
    }
    if outcome != Outcome::Interrupted && log_indicates_oom(evidence.log.as_str()) {
        outcome = Outcome::Oom;
        note = "server log contains OOM/CUDA allocation failure".to_string();
    }
    let mut metrics = RunMetrics::from_telemetry(&evidence.telemetry);
    metrics.server_prompt_eval_toks_per_s = evidence.timing.best_prompt_toks_per_s();
    metrics.server_generation_toks_per_s = evidence.timing.best_generation_toks_per_s();
    metrics.total_wall_ms = Some(evidence.total_wall_ms);
    let (ttft, prompt_probe, completion_probe) = match &evidence.end {
        DriveEnd::Driven { probes, error } => (
            ttft_of(probes),
            prompt_count(probes),
            completion_count(probes),
        ),
        DriveEnd::Aborted { note } => {
            proof {
                names_unfold(seq![]);
            }
            (None, None, None)
        },
    };
    metrics.client_ttft_ms = ttft;
    if outcome == Outcome::Pass && (metrics.server_prompt_eval_toks_per_s.is_none()
        || metrics.server_generation_toks_per_s.is_none()) {
        outcome = Outcome::ParsePartial;
        note = "request completed but llama.cpp timing lines were incomplete".to_string();
    }
    if outcome.is_usable() && violates_safety(&metrics, safety) {
        outcome = Outcome::TooTight;
        note = "run passed but violated VRAM or swap safety limits".to_string();
    }
    let prompt_tokens = match evidence.timing.max_prompt_tokens() {
        Some(n) => Some(n),
        None => prompt_probe,
    };
    let completion_tokens = match evidence.timing.max_generation_tokens() {
        Some(n) => Some(n),
        None => completion_probe,
    };
    let telemetry_status = if metrics.min_free_vram_mib.is_some() {
        TelemetryStatus::Measured
    } else {
        TelemetryStatus::Unknown
    };
    RunAssessment { outcome, note, metrics, prompt_tokens, completion_tokens, telemetry_status }
}

/// A run that counts as passed kept to the limits, and one whose log speaks of
/// memory that could not be had never counts as passed.
pub proof fn passed_runs_are_safe(e: RunEvidence, safety: SafetyLimits)
    ensures
        usable(judged(e, safety).0) ==> !violates(metrics_from(e), safety) && !oom_logged(e.log@),
        judged(e, safety).0 == Outcome::Pass ==> metrics_from(
            e,
        ).server_prompt_eval_toks_per_s is Some && metrics_from(
            e,
        ).server_generation_toks_per_s is Some,
{
}

/// A run counts as completed only if every request was answered: one whose
/// requests failed or were cut short never does. It then passed only with both
/// timings, and only within the limits.
pub proof fn only_answered_runs_complete(e: RunEvidence, safety: SafetyLimits)
    ensures
        judged(e, safety).0 == Outcome::Pass || judged(e, safety).0 == Outcome::ParsePartial ==> {
            &&& e.end is Driven
            &&& e.end->error is None
            &&& !oom_logged(e.log@)
            &&& e.telemetry.min_free_vram_mib matches Some(free) ==> free
                >= safety.min_vram_free_mib
            &&& e.telemetry.swap_delta_mib is Some && safety.max_swap_delta_mib <= i64::MAX
                ==> e.telemetry.swap_delta_mib->0 <= safety.max_swap_delta_mib
        },
        judged(e, safety).0 == Outcome::Pass ==> e.timing.prompt_evals@.len() > 0
            && e.timing.evals@.len() > 0,
        judged(e, safety).0 == Outcome::ParsePartial ==> e.timing.prompt_evals@.len() == 0
            || e.timing.evals@.len() == 0,
{
    widest_exists(e.timing.prompt_evals@);
    widest_exists(e.timing.evals@);
    if let DriveEnd::Driven { probes, error } = e.end {
        if let Some(text) = error {
            crate::probing::failures_are_failures(text@);
        }
    } else if let DriveEnd::Aborted { note } = e.end {
        crate::probing::aborts_are_failures(note@);
    }
}

/// What a run whose requests were all answered comes to: too tight beyond the
/// limits, out of memory where the log says so, and otherwise passed, or passed
/// in part where a timing is missing.
pub proof fn answered_runs_are_judged(e: RunEvidence, safety: SafetyLimits)
    requires
        e.end is Driven,
        e.end->error is None,
        safety.max_swap_delta_mib <= i64::MAX,
    ensures
        oom_logged(e.log@) ==> judged(e, safety).0 == Outcome::Oom,
        ({
            let tight = (e.telemetry.min_free_vram_mib is Some
                && e.telemetry.min_free_vram_mib->0 < safety.min_vram_free_mib) || (
            e.telemetry.swap_delta_mib is Some && e.telemetry.swap_delta_mib->0
                > safety.max_swap_delta_mib);
            let timed = e.timing.prompt_evals@.len() > 0 && e.timing.evals@.len() > 0;
            !oom_logged(e.log@) ==> judged(e, safety).0 == (if tight {
                Outcome::TooTight
            } else if timed {
                Outcome::Pass
            } else {
                Outcome::ParsePartial
            })
        }),
{
    widest_exists(e.timing.prompt_evals@);
    widest_exists(e.timing.evals@);
}

/// What a run whose requests were not all answered comes to: what was said of
/// the failure stays, unless the log speaks of memory that could not be had,
/// which explains everything but an interruption.
pub proof fn failed_runs_are_judged(e: RunEvidence, safety: SafetyLimits)
    ensures
        e.end is Driven && e.end->error is Some && !oom_logged(e.log@) ==> judged(e, safety)
            == (outcome_of_error(e.end->error->0@), e.end->error->0@),
        e.end is Aborted && !oom_logged(e.log@) ==> judged(e, safety) == (
            outcome_of_abort(e.end->note@),
            e.end->note@,
        ),
        e.end is Aborted && text::occurs(e.end->note@, "interrupted"@) ==> judged(e, safety).0
            == Outcome::Interrupted,
        e.end is Aborted && !text::occurs(e.end->note@, "interrupted"@) && oom_logged(e.log@)
            ==> judged(e, safety).0 == Outcome::Oom,
{
    if let DriveEnd::Driven { probes, error } = e.end {
        if let Some(text) = error {
            crate::probing::failures_are_failures(text@);
        }
    } else if let DriveEnd::Aborted { note } = e.end {
        crate::probing::aborts_are_failures(note@);
    }
}

proof fn widest_exists(t: Seq<Timing>)
    ensures
        widest(t) is Some == (t.len() > 0),
    decreases t.len(),
{
    if t.len() > 0 {
        widest_exists(t.drop_last());
    }
}

/// What is measured of a run: the memory and swap that were sampled, the time
/// that it took, the throughput of the largest timed prompt and generation, and
/// their tokens.
pub proof fn metrics_come_from_the_evidence(e: RunEvidence, i: int, j: int)
    requires
        0 <= i < e.timing.prompt_evals@.len(),
        0 <= j < e.timing.evals@.len(),
    ensures
        ({
            let m = metrics_from(e);
            &&& m.peak_vram_mib == e.telemetry.peak_vram_mib
            &&& m.min_free_vram_mib == e.telemetry.min_free_vram_mib
            &&& m.gpu_util_max_pct == e.telemetry.gpu_util_max_pct
            &&& m.ram_available_min_mib == e.telemetry.ram_available_min_mib
            &&& m.swap_delta_mib == e.telemetry.swap_delta_mib
            &&& m.process_rss_peak_mib == e.telemetry.process_rss_peak_mib
            &&& m.total_wall_ms == Some(e.total_wall_ms)
            &&& exists|k: int|
                0 <= k < e.timing.prompt_evals@.len() && m.server_prompt_eval_toks_per_s == Some(
                    (#[trigger] e.timing.prompt_evals@[k]).toks_per_s,
                ) && prompt_tokens_of(e) == Some(e.timing.prompt_evals@[k].tokens)
                    && e.timing.prompt_evals@[k].tokens >= e.timing.prompt_evals@[i].tokens
            &&& exists|k: int|
                0 <= k < e.timing.evals@.len() && m.server_generation_toks_per_s == Some(
                    (#[trigger] e.timing.evals@[k]).toks_per_s,
                ) && completion_tokens_of(e) == Some(e.timing.evals@[k].tokens)
                    && e.timing.evals@[k].tokens >= e.timing.evals@[j].tokens
        }),
{
    let p = e.timing.prompt_evals@;
    let g = e.timing.evals@;
    let a = widest_place(p, i);
    let b = widest_place(g, j);
    assert(p[a].tokens >= p[i].tokens);
    assert(g[b].tokens >= g[j].tokens);
}

proof fn widest_place(t: Seq<Timing>, i: int) -> (k: int)
    requires
        0 <= i < t.len(),
    ensures
        0 <= k < t.len(),
        widest(t) == Some(t[k]),
        t[k].tokens >= t[i].tokens,
    decreases t.len(),
{
    let shorter = t.drop_last();
    if shorter.len() == 0 {
        0
    } else {
        let k = widest_place(shorter, if i < shorter.len() { i } else { 0 });
        if widest(t) == Some(t.last()) && t.last().tokens >= shorter[k].tokens {
            t.len() - 1
        } else {
            k
        }
    }
}

/// A run: its candidate, what it tests, and how its requests are set up.
pub struct RunSetup {
    pub run_id: String,
    pub test_kind: String,
    pub candidate: CandidateConfig,
    pub command: Vec<String>,
    pub command_display: String,
    pub artifacts: ArtifactPaths,
    pub started_at: Timestamp,
    pub validation_level: ValidationLevel,
}

/// What is kept of a run.
pub open spec fn kept_result(
    m: MetadataView,
    identity: IdentityView,
    environment: EnvironmentView,
    setup: RunSetup,
    ended_at: Timestamp,
    probes: Seq<NamedProbeView>,
    outcome: Outcome,
    note: Seq<char>,
    metrics: RunMetrics,
    prompt_tokens: Option<u64>,
    completion_tokens: Option<u64>,
    telemetry_status: TelemetryStatus,
) -> ResultView {
    ResultView {
        schema_version: SCHEMA_VERSION,
        run_id: setup.run_id@,
        started_at: setup.started_at,
        ended_at,
        model_path: m.path,
        model_size_bytes: m.file_size_bytes,
        model_identity: Some(identity),
        gguf: m,
        quant: m.quant,
        command: text::texts(setup.command@),
        command_display: setup.command_display@,
        candidate: setup.candidate@,
        test_kind: setup.test_kind@,
        requested_context: setup.candidate.requested_context,
        prompt_tokens,
        completion_tokens,
        metrics,
        probes,
        outcome,
        artifacts: setup.artifacts@,
        note,
        environment: Some(environment),
        validation_level: setup.validation_level,
        compatibility: Compatibility::Current,
        telemetry_status,
        realistic_validation: None,
    }
}

fn keep_result(
    metadata: &GgufMetadata,
    identity: &ModelIdentity,
    environment: &EnvironmentSnapshot,
    setup: RunSetup,
    ended_at: Timestamp,
    probes: Vec<NamedProbe>,
    assessment: RunAssessment,
) -> (r: ProfileResult)
    ensures
        r@ == kept_result(
            metadata@,
            identity@,
            environment@,
            setup,
            ended_at,
            views(probes@),
            assessment.outcome,
            assessment.note@,
            assessment.metrics,
            assessment.prompt_tokens,
            assessment.completion_tokens,
            assessment.telemetry_status,
        ),
{
    let requested_context = setup.candidate.requested_context;
    ProfileResult {
        schema_version: SCHEMA_VERSION,
        run_id: setup.run_id,
        started_at: setup.started_at,
        ended_at,
        model_path: metadata.path.clone(),
        model_size_bytes: metadata.file_size_bytes,
        model_identity: Some(identity.duplicate()),
        gguf: metadata.duplicate(),
        quant: text::copy_opt(&metadata.quant),
        command: setup.command,
        command_display: setup.command_display,
        candidate: setup.candidate,
        test_kind: setup.test_kind,
        requested_context,
        prompt_tokens: assessment.prompt_tokens,
        completion_tokens: assessment.completion_tokens,
        metrics: assessment.metrics,
        probes,
        outcome: assessment.outcome,
        artifacts: setup.artifacts,
        note: assessment.note,
        environment: Some(environment.duplicate()),
        validation_level: setup.validation_level,
        compatibility: compare_environment(Some(environment), environment),
        telemetry_status: assessment.telemetry_status,
        realistic_validation: None,
    }
}

/// The result of a run, from its evidence.
pub fn run_result(
    metadata: &GgufMetadata,
    identity: &ModelIdentity,
    environment: &EnvironmentSnapshot,
    setup: RunSetup,
    ended_at: Timestamp,
    evidence: &RunEvidence,
    safety: &SafetyLimits,
) -> (r: ProfileResult)
    ensures
        r@ == kept_result(
            metadata@,
            identity@,
            environment@,
            setup,
            ended_at,
            probes_of(evidence.end),
            judged(*evidence, *safety).0,
            judged(*evidence, *safety).1,
            metrics_from(*evidence),
            prompt_tokens_of(*evidence),
            completion_tokens_of(*evidence),
            status_of(metrics_from(*evidence)),
        ),
{
    let assessment = assess_run(evidence, safety);
    let probes = match &evidence.end {
        DriveEnd::Driven { probes, error } => duplicate_all(probes),
        DriveEnd::Aborted { note } => Vec::new(),
    };
    proof {
        assert(views(Seq::<NamedProbe>::empty()) =~= seq![]);
    }
    keep_result(metadata, identity, environment, setup, ended_at, probes, assessment)
}

/// The result of a run whose server did not start.
pub fn empty_result(
    metadata: &GgufMetadata,
    identity: &ModelIdentity,
    environment: &EnvironmentSnapshot,
    setup: RunSetup,
    ended_at: Timestamp,
    error: &str,
) -> (r: ProfileResult)
    ensures
        r@ == kept_result(
            metadata@,
            identity@,
            environment@,
            setup,
            ended_at,
            seq![],
            Outcome::ServerCrash,
            "failed to start llama-server: "@ + error@,
            crate::profile::no_metrics(),
            None,
            None,
            TelemetryStatus::Unknown,
        ),
{
    let mut note = "failed to start llama-server: ".to_string();
    note.append(error);
    let probes: Vec<NamedProbe> = Vec::new();
    proof {
        assert(views(probes@) =~= seq![]);
    }
    keep_result(
        metadata,
        identity,
        environment,
        setup,
        ended_at,
        probes,
        RunAssessment {
            outcome: Outcome::ServerCrash,
            note,
            metrics: RunMetrics::default(),
            prompt_tokens: None,
            completion_tokens: None,
            telemetry_status: TelemetryStatus::Unknown,
        },
    )
}

// ---------------------------------------------------------------------------
// Saved recommendations

/// The identity is that of the model.
pub open spec fn is_identity(own: Option<IdentityView>, current: IdentityView) -> bool {
    own matches Some(id) && same_identity(id, current)
}

/// Why a saved profile does not hold any more: the model of the file, the
/// environment of the file, the model of the profile, and the environment of
/// the profile, in this order.
pub open spec fn profile_staleness(
    file_identity: Option<IdentityView>,
    file_environment: Option<EnvironmentView>,
    p: RecommendationView,
    identity: IdentityView,
    environment: EnvironmentView,
) -> Compatibility {
    if file_identity is None {
        Compatibility::LegacyMissingIdentity
    } else if !is_identity(file_identity, identity) {
        Compatibility::ModelChanged
    } else if compared(file_environment, environment) != Compatibility::Current {
        compared(file_environment, environment)
    } else if p.model_identity is None {
        Compatibility::LegacyMissingIdentity
    } else if !is_identity(p.model_identity, identity) {
        Compatibility::ModelChanged
    } else {
        p.compatibility
    }
}

/// The saved profiles among the first `n` that still hold.
pub open spec fn still_valid(
    file: RecommendationsView,
    identity: IdentityView,
    environment: EnvironmentView,
    n: nat,
) -> Seq<RecommendationView>
    decreases n,
{
    if n == 0 {
        seq![]
    } else {
        let before = still_valid(file, identity, environment, (n - 1) as nat);
        let p = file.profiles[n - 1];
        if profile_staleness(file.model_identity, file.environment, p, identity, environment)
            == Compatibility::Current {
            before.push(p)
        } else {
            before
        }
    }
}

/// The notes of the saved profiles among the first `n` that do not hold any
/// more.
pub open spec fn no_longer_valid(
    file: RecommendationsView,
    identity: IdentityView,
    environment: EnvironmentView,
    n: nat,
) -> Seq<StaleView>
    decreases n,
{
    if n == 0 {
        seq![]
    } else {
        let before = no_longer_valid(file, identity, environment, (n - 1) as nat);
        let p = file.profiles[n - 1];
        let why = profile_staleness(
            file.model_identity,
            file.environment,
            p,
            identity,
            environment,
        );
        if why == Compatibility::Current {
            before
        } else {
            before.push(
                StaleView {
                    run_id: p.source_run_id,
                    candidate_id: p.source_candidate_id,
                    compatibility: why,
                    reason: reason_text(why),
                },
            )
        }
    }
}

/// Saved recommendations, held against the model and the machine: profiles
/// that do not hold any more become stale notes.
pub open spec fn validated_file(
    file: RecommendationsView,
    identity: IdentityView,
    environment: EnvironmentView,
) -> RecommendationsView {
    RecommendationsView {
        profiles: still_valid(file, identity, environment, file.profiles.len()),
        stale: file.stale + no_longer_valid(file, identity, environment, file.profiles.len()),
        environment_valid: compared(file.environment, environment) == Compatibility::Current,
        ..file
    }
}

fn has_identity(own: &Option<ModelIdentity>, current: &ModelIdentity) -> (r: bool)
    ensures
        r == is_identity(opt_view(*own), current@),
{
    match own {
        Some(id) => id.is_same(current),
        None => false,
    }
}

fn environment_state(own: &Option<EnvironmentSnapshot>, current: &EnvironmentSnapshot) -> (r:
    Compatibility)
    ensures
        r == compared(opt_view(*own), current@),
{
    match own {
        Some(e) => compare_environment(Some(e), current),
        None => compare_environment(None, current),
    }
}

fn staleness_of_profile(
    file: &RecommendationFile,
    profile: &Recommendation,
    identity: &ModelIdentity,
    environment: &EnvironmentSnapshot,
) -> (r: Compatibility)
    ensures
        r == profile_staleness(
            file@.model_identity,
            file@.environment,
            profile@,
            identity@,
            environment@,
        ),
{
    if file.model_identity.is_none() {
        return Compatibility::LegacyMissingIdentity;
    }
    if !has_identity(&file.model_identity, identity) {
        return Compatibility::ModelChanged;
    }
    let state = environment_state(&file.environment, environment);
    if !state.is_current() {
        return state;
    }
    if profile.model_identity.is_none() {
        return Compatibility::LegacyMissingIdentity;
    }
    if !has_identity(&profile.model_identity, identity) {
        return Compatibility::ModelChanged;
    }
    profile.compatibility
}

/// Holds saved recommendations against the model and the machine.
pub fn validate_recommendation_file(
    recommendations: &RecommendationFile,
    current_identity: &ModelIdentity,
    current_environment: &EnvironmentSnapshot,
) -> (r: RecommendationFile)
    ensures
        r@ == validated_file(recommendations@, current_identity@, current_environment@),
{
    let ghost file = recommendations@;
    let ghost id = current_identity@;
    let ghost env = current_environment@;
    let mut profiles: Vec<Recommendation> = Vec::new();
    let mut stale = duplicate_all(&recommendations.stale);
    proof {
        assert(views(profiles@) =~= still_valid(file, id, env, 0));
        assert(views(stale@) =~= file.stale + no_longer_valid(file, id, env, 0));
    }
    for i in 0..recommendations.profiles.len()
        invariant
            file == recommendations@,
            id == current_identity@,
            env == current_environment@,
            views(profiles@) == still_valid(file, id, env, i as nat),
            views(stale@) == file.stale + no_longer_valid(file, id, env, i as nat),
    {
        let profile = &recommendations.profiles[i];
        let ghost kept = views(profiles@);
        let ghost noted = views(stale@);
        proof {
            assert(file.profiles[i as int] == profile@);
        }
        let why = staleness_of_profile(
            recommendations,
            profile,
            current_identity,
            current_environment,
        );
        if why.is_current() {
            let copy = profile.duplicate();
            profiles.push(copy);
            proof {
                assert(views(profiles@) =~= kept.push(copy@));
            }
        } else {
            let note = StaleRun {
                run_id: profile.source_run_id.clone(),
                candidate_id: profile.source_candidate_id.clone(),
                compatibility: why,
                reason: why.reason().to_string(),
            };
            stale.push(note);
            proof {
                assert(views(stale@) =~= noted.push(note@));
                assert(file.stale + no_longer_valid(file, id, env, (i + 1) as nat) =~= noted.push(
                    note@,
                ));
            }
        }
    }
    RecommendationFile {
        schema_version: recommendations.schema_version,
        generated_at: recommendations.generated_at,
        model_path: recommendations.model_path.clone(),
        model_identity: duplicate_opt(&recommendations.model_identity),
        profiles,
        rejected: duplicate_all(&recommendations.rejected),
        stale,
        environment: duplicate_opt(&recommendations.environment),
        environment_valid: environment_state(
            &recommendations.environment,
            current_environment,
        ).is_current(),
        coverage: duplicate_opt(&recommendations.coverage),
        next_suggested_test: text::copy_opt(&recommendations.next_suggested_test),
    }
}

proof fn still_valid_facts(
    file: RecommendationsView,
    identity: IdentityView,
    environment: EnvironmentView,
    n: nat,
)
    requires
        n <= file.profiles.len(),
    ensures
        forall|i: int|
            0 <= i < still_valid(file, identity, environment, n).len() ==> is_identity(
                (#[trigger] still_valid(file, identity, environment, n)[i]).model_identity,
                identity,
            ) && still_valid(file, identity, environment, n)[i].compatibility
                == Compatibility::Current && is_identity(file.model_identity, identity) && compared(
                file.environment,
                environment,
            ) == Compatibility::Current,
        still_valid(file, identity, environment, n).len() + no_longer_valid(
            file,
            identity,
            environment,
            n,
        ).len() == n,
    decreases n,
{
    if n > 0 {
        still_valid_facts(file, identity, environment, (n - 1) as nat);
        let before = still_valid(file, identity, environment, (n - 1) as nat);
        let all = still_valid(file, identity, environment, n);
        assert forall|i: int| 0 <= i < all.len() implies is_identity(
            (#[trigger] all[i]).model_identity,
            identity,
        ) && all[i].compatibility == Compatibility::Current && is_identity(
            file.model_identity,
            identity,
        ) && compared(file.environment, environment) == Compatibility::Current by {
            if i < before.len() {
                assert(all[i] == before[i]);
            }
        }
    }
}

/// A profile that is left after validation is one of this model and of this
/// machine, and none is lost: what is not left is noted as stale.
pub proof fn only_current_profiles_stay(
    file: RecommendationsView,
    identity: IdentityView,
    environment: EnvironmentView,
)
    ensures
        ({
            let v = validated_file(file, identity, environment);
            &&& forall|i: int|
                0 <= i < v.profiles.len() ==> is_identity(
                    (#[trigger] v.profiles[i]).model_identity,
                    identity,
                ) && v.profiles[i].compatibility == Compatibility::Current && v.environment_valid
            &&& v.profiles.len() + v.stale.len() == file.profiles.len() + file.stale.len()
        }),
{
    still_valid_facts(file, identity, environment, file.profiles.len());
}

// ---------------------------------------------------------------------------
// Serving

/// Why a saved profile is not served.
#[derive(Debug)]
pub enum ServeError {
    /// There is no such profile.
    NotFound,
    /// The profile does not hold any more, for this reason.
    Stale(String),
}

/// Why a saved profile is not served, where it does not hold any more.
pub open spec fn serve_objection(
    file: RecommendationsView,
    p: RecommendationView,
    identity: IdentityView,
    environment: EnvironmentView,
) -> Option<Seq<char>> {
    let same_model = is_identity(file.model_identity, identity) && is_identity(
        p.model_identity,
        identity,
    );
    let state = compared(file.environment, environment);
    if !same_model {
        if file.model_identity is None || p.model_identity is None {
            Some(reason_text(Compatibility::LegacyMissingIdentity))
        } else {
            Some(reason_text(Compatibility::ModelChanged))
        }
    } else if state != Compatibility::Current {
        Some(reason_text(state))
    } else if p.compatibility != Compatibility::Current {
        match p.stale_reason {
            Some(reason) => Some(reason),
            None => Some(reason_text(p.compatibility)),
        }
    } else {
        None
    }
}

fn objection(
    file: &RecommendationFile,
    profile: &Recommendation,
    identity: &ModelIdentity,
    environment: &EnvironmentSnapshot,
) -> (r: Option<String>)
    ensures
        text::opt_text(r) == serve_objection(file@, profile@, identity@, environment@),
{
    if !has_identity(&file.model_identity, identity) || !has_identity(
        &profile.model_identity,
        identity,
    ) {
        let why = if file.model_identity.is_none() || profile.model_identity.is_none() {
            Compatibility::LegacyMissingIdentity
        } else {
            Compatibility::ModelChanged
        };
        return Some(why.reason().to_string());
    }
    let state = environment_state(&file.environment, environment);
    if !state.is_current() {
        return Some(state.reason().to_string());
    }
    if !profile.compatibility.is_current() {
        return match &profile.stale_reason {
            Some(reason) => Some(reason.clone()),
            None => Some(profile.compatibility.reason().to_string()),
        };
    }
    None
}

/// The command that serves a saved profile on a port. A profile that does not
/// hold any more is refused, unless that is allowed.
pub fn serve_command(
    file: &RecommendationFile,
    options: &ServeOptions,
    identity: &ModelIdentity,
    environment: &EnvironmentSnapshot,
) -> (r: Result<Vec<String>, ServeError>)
    ensures
        match profile_named(file@.profiles, options.profile@) {
            None => r matches Err(ServeError::NotFound),
            Some(i) => match serve_objection(
                file@,
                file@.profiles[i],
                identity@,
                environment@,
            ) {
                Some(reason) if !options.allow_stale => r matches Err(ServeError::Stale(s)) && s@
                    == reason,
                _ => r matches Ok(command) && text::texts(command@) == with_port(
                    file@.profiles[i].command,
                    text::decimal(options.port as nat),
                ),
            },
        },
{
    let i = match find_profile(file, options.profile.as_str()) {
        Some(i) => i,
        None => {
            return Err(ServeError::NotFound);
        },
    };
    let profile = &file.profiles[i];
    proof {
        assert(file@.profiles[i as int] == profile@);
    }
    if !options.allow_stale {
        if let Some(reason) = objection(file, profile, identity, environment) {
            return Err(ServeError::Stale(reason));
        }
    }
    Ok(command_with_port(&profile.command, options.port))
}

/// Without leave to serve stale profiles, what is served holds for the model,
/// for the machine, and by itself.
pub proof fn stale_profiles_are_refused(
    file: RecommendationsView,
    p: RecommendationView,
    identity: IdentityView,
    environment: EnvironmentView,
)
    requires
        serve_objection(file, p, identity, environment) is None,
    ensures
        is_identity(file.model_identity, identity),
        is_identity(p.model_identity, identity),
        compared(file.environment, environment) == Compatibility::Current,
        p.compatibility == Compatibility::Current,
{
}

// ---------------------------------------------------------------------------
// Recommending

/// A profile of a model, named without doubt.
pub open spec fn key_text(model_path: Seq<char>, profile_id: Seq<char>) -> Seq<char> {
    model_path + "#"@ + profile_id
}

/// A profile of a model, named without doubt.
pub fn profile_key(model_path: &str, profile: &Recommendation) -> (r: String)
    ensures
        r@ == key_text(model_path@, profile.id@),
{
    let mut r = model_path.to_string();
    r.append("#");
    r.append(profile.id.as_str());
    r
}

/// The key of a profile names its model and the profile: no other pair has the
/// same key, as long as the names of profiles hold no `#`.
pub proof fn profile_keys_are_unambiguous(
    path: Seq<char>,
    id: Seq<char>,
    other_path: Seq<char>,
    other_id: Seq<char>,
)
    requires
        !id.contains('#'),
        !other_id.contains('#'),
        key_text(path, id) == key_text(other_path, other_id),
    ensures
        path == other_path,
        id == other_id,
{
    reveal_strlit("#");
    let key = key_text(path, id);
    assert(key.len() == path.len() + 1 + id.len());
    assert(key_text(other_path, other_id).len() == other_path.len() + 1 + other_id.len());
    assert(key[path.len() as int] == '#');
    assert(key_text(other_path, other_id)[other_path.len() as int] == '#');
    if path.len() < other_path.len() {
        let at: int = other_path.len() - path.len() - 1;
        assert(key[path.len() + 1 + at] == id[at]);
        assert(id.contains('#'));
    }
    if other_path.len() < path.len() {
        let at: int = path.len() - other_path.len() - 1;
        assert(key_text(other_path, other_id)[other_path.len() + 1 + at] == other_id[at]);
        assert(other_id.contains('#'));
    }
    let n = path.len() as int;
    assert(path =~= key.take(n));
    assert(other_path =~= key.take(n));
    assert(id =~= key.skip(n + 1));
    assert(other_id =~= key.skip(n + 1));
}

/// The profile to recommend: the one asked for, or else the one for the goal,
/// or else the first.
pub open spec fn picked_profile(
    profiles: Seq<RecommendationView>,
    asked: Option<Seq<char>>,
    goal: WorkloadGoal,
) -> Option<int> {
    let id = match asked {
        Some(id) => id,
        None => goal_profile(goal),
    };
    match profile_named(profiles, id) {
        Some(i) => Some(i),
        None => if profiles.len() > 0 {
            Some(0)
        } else {
            None
        },
    }
}

/// What a search recommends.
pub open spec fn recommendation_output(
    file: RecommendationsView,
    p: RecommendationView,
    port: u16,
    goal: WorkloadGoal,
    environment_valid: bool,
) -> RecommendView {
    let command = display_of(with_port(p.command, text::decimal(port as nat)));
    RecommendView {
        agent_schema_version: AGENT_SCHEMA_VERSION,
        schema_version: SCHEMA_VERSION,
        model_path: file.model_path,
        model_identity: file.model_identity,
        environment_valid,
        telemetry_status: p.telemetry_status,
        profile_id: p.id,
        profile_key: key_text(file.model_path, p.id),
        goal,
        confidence: p.confidence,
        measurement_count: p.measurement_count,
        coverage: file.coverage,
        command,
        exact_command: command,
        output_toks_per_s: p.output_toks_per_s,
        prompt_toks_per_s: p.prompt_toks_per_s,
        ttft_ms: p.ttft_ms,
        requested_context: p.requested_context,
        validated_prompt_tokens: p.validated_prompt_tokens,
        validation_level: p.validation_level,
        realistic_validation: p.realistic_validation,
        risk: p.risk,
        failures: file.rejected,
        stale: file.stale,
        next_suggested_test: file.next_suggested_test,
    }
}

/// The recommendations still hold: they did when they were made, and neither
/// the model nor the machine changed since.
pub open spec fn holds_now(
    file: RecommendationsView,
    identity: IdentityView,
    environment: EnvironmentView,
) -> bool {
    &&& file.environment_valid
    &&& is_identity(file.model_identity, identity)
    &&& compared(file.environment, environment) == Compatibility::Current
}

/// What a search recommends, for the port to serve on; nothing where it
/// produced no profile.
pub fn recommend_output(
    file: &RecommendationFile,
    options: &RecommendOptions,
    identity: &ModelIdentity,
    environment: &EnvironmentSnapshot,
) -> (r: Option<RecommendOutput>)
    ensures
        match picked_profile(file@.profiles, text::opt_text(options.profile), options.goal) {
            Some(i) => r matches Some(o) && o@ == recommendation_output(
                file@,
                file@.profiles[i],
                options.port,
                options.goal,
                holds_now(file@, identity@, environment@),
            ),
            None => r is None,
        },
{
    let found = match &options.profile {
        Some(id) => find_profile(file, id.as_str()),
        None => find_profile(file, options.goal.profile_id()),
    };
    let i: usize = match found {
        Some(i) => i,
        None => {
            proof {
                assert(file@.profiles.len() == file.profiles@.len());
            }
            if file.profiles.len() == 0 {
                return None;
            }
            0
        },
    };
    let profile = &file.profiles[i];
    proof {
        assert(file@.profiles[i as int] == profile@);
    }
    let command = command_display(&command_with_port(&profile.command, options.port));
    Some(
        RecommendOutput {
            agent_schema_version: AGENT_SCHEMA_VERSION,
            schema_version: SCHEMA_VERSION,
            model_path: file.model_path.clone(),
            model_identity: duplicate_opt(&file.model_identity),
            environment_valid: file.environment_valid && has_identity(
                &file.model_identity,
                identity,
            ) && environment_state(&file.environment, environment).is_current(),
            telemetry_status: profile.telemetry_status,
            profile_id: profile.id.clone(),
            profile_key: profile_key(file.model_path.as_str(), profile),
            goal: options.goal,
            confidence: profile.confidence.clone(),
            measurement_count: profile.measurement_count,
            coverage: duplicate_opt(&file.coverage),
            exact_command: command.clone(),
            command,
            output_toks_per_s: profile.output_toks_per_s,
            prompt_toks_per_s: profile.prompt_toks_per_s,
            ttft_ms: profile.ttft_ms,
            requested_context: profile.requested_context,
            validated_prompt_tokens: profile.validated_prompt_tokens,
            validation_level: profile.validation_level,
            realistic_validation: duplicate_opt(&profile.realistic_validation),
            risk: profile.risk.clone(),
            failures: duplicate_all(&file.rejected),
            stale: duplicate_all(&file.stale),
            next_suggested_test: text::copy_opt(&file.next_suggested_test),
        },
    )
}

// ---------------------------------------------------------------------------
// Full-context runs

/// The run whose candidate a saved profile came from, where the saved
/// recommendations are of this model and of this machine.
pub fn saved_profile_run(
    file: &RecommendationFile,
    profile_id: &str,
    identity: &ModelIdentity,
    environment: &EnvironmentSnapshot,
) -> (r: Option<String>)
    ensures
        text::opt_text(r) == (if is_identity(file@.model_identity, identity@) && compared(
            file@.environment,
            environment@,
        ) == Compatibility::Current {
            match profile_named(file@.profiles, profile_id@) {
                Some(i) => Some(file@.profiles[i].source_run_id),
                None => None,
            }
        } else {
            None
        }),
{
    if !has_identity(&file.model_identity, identity) || !environment_state(
        &file.environment,
        environment,
    ).is_current() {
        return None;
    }
    match find_profile(file, profile_id) {
        Some(i) => {
            proof {
                assert(file@.profiles[i as int] == file.profiles@[i as int]@);
            }
            Some(file.profiles[i].source_run_id.clone())
        },
        None => None,
    }
}

/// The candidate of a full-context run without a saved profile: the first of
/// the plan.
pub fn fullctx_candidate(metadata: &GgufMetadata, requested_context: u64) -> (r: CandidateConfig)
    ensures
        r@ == planned(metadata@, requested_context, None)[0],
{
    let list = generate_candidates(metadata, Preset::Quick, requested_context, Some(1));
    proof {
        plan_starts_at_requested_context(metadata@, requested_context, None);
        assert(views(list@).len() == list@.len());
        assert(views(list@)[0] == list@[0]@);
    }
    list[0].duplicate()
}

// ---------------------------------------------------------------------------
// Saved runs

/// `a` is before `b`.
pub open spec fn earlier(a: Timestamp, b: Timestamp) -> bool {
    a.seconds < b.seconds || (a.seconds == b.seconds && a.nanos < b.nanos)
}

/// Where entry `i` goes in a list of entries by time: behind those that are not
/// later.
pub open spec fn rising_place(times: Seq<Timestamp>, list: Seq<int>, i: int) -> nat
    decreases list.len(),
{
    if list.len() > 0 && earlier(times[i], times[list.last()]) {
        rising_place(times, list.drop_last(), i)
    } else {
        list.len()
    }
}

/// The first `n` entries by time, those of the same time in their own order.
pub open spec fn rising(times: Seq<Timestamp>, n: nat) -> Seq<int>
    decreases n,
{
    if n == 0 {
        seq![]
    } else {
        let before = rising(times, (n - 1) as nat);
        before.insert(rising_place(times, before, n - 1) as int, n - 1)
    }
}

fn is_earlier(a: Timestamp, b: Timestamp) -> (r: bool)
    ensures
        r == earlier(a, b),
{
    a.seconds < b.seconds || (a.seconds == b.seconds && a.nanos < b.nanos)
}

/// The order of runs by when they started.
pub fn order_by_start(times: &Vec<Timestamp>) -> (r: Vec<usize>)
    ensures
        r@.len() == times@.len(),
        forall|j: int|
            0 <= j < r@.len() ==> (#[trigger] r@[j]) == rising(times@, times@.len())[j] && r@[j]
                < times@.len(),
{
    let mut r: Vec<usize> = Vec::new();
    for i in 0..times.len()
        invariant
            r@.len() == i,
            rising(times@, i as nat).len() == i,
            forall|j: int| 0 <= j < i ==> (#[trigger] r@[j]) == rising(times@, i as nat)[j],
            forall|j: int| 0 <= j < i ==> (#[trigger] r@[j]) < i,
    {
        let ghost before = rising(times@, i as nat);
        let ghost old_r = r@;
        let mut at: usize = r.len();
        proof {
            assert(before.take(at as int) =~= before);
        }
        while at > 0 && is_earlier(times[i], times[r[at - 1]])
            invariant
                i < times@.len(),
                r@ == old_r,
                r@.len() == i,
                at <= r@.len(),
                before.len() == i,
                forall|j: int| 0 <= j < i ==> (#[trigger] r@[j]) == before[j],
                forall|j: int| 0 <= j < i ==> (#[trigger] r@[j]) < i,
                rising_place(times@, before.take(at as int), i as int) == rising_place(
                    times@,
                    before,
                    i as int,
                ),
            decreases at,
        {
            proof {
                assert(before.take(at as int).drop_last() =~= before.take(at - 1));
                assert(before.take(at as int).last() == r@[at - 1]);
            }
            at -= 1;
        }
        proof {
            if at > 0 {
                assert(before.take(at as int).last() == r@[at - 1]);
            }
            assert(rising_place(times@, before, i as int) == at);
        }
        r.insert(at, i);
        proof {
            let after = rising(times@, (i + 1) as nat);
            assert(after == before.insert(at as int, i as int));
            assert forall|j: int| 0 <= j < i + 1 implies (#[trigger] r@[j]) == after[j] && r@[j] < i
                + 1 by {
                if j < at {
                    assert(r@[j] == old_r[j]);
                } else if j > at {
                    assert(r@[j] == old_r[j - 1]);
                }
            }
        }
    }
    r
}

/// The list of the runs of a model.
pub fn manifest(
    metadata: &GgufMetadata,
    identity: &ModelIdentity,
    results: &Vec<ProfileResult>,
    now: Timestamp,
) -> (r: Manifest)
    ensures
        r@ == (ManifestView {
            schema_version: SCHEMA_VERSION,
            generated_at: now,
            model_path: metadata.path@,
            model_identity: identity@,
            gguf: metadata@,
            runs: Seq::new(results@.len(), |i: int| views(results@)[i].artifacts.result_json),
        }),
{
    let ghost paths = Seq::new(results@.len(), |i: int| views(results@)[i].artifacts.result_json);
    let mut runs: Vec<String> = Vec::new();
    for i in 0..results.len()
        invariant
            paths == Seq::new(results@.len(), |i: int| views(results@)[i].artifacts.result_json),
            runs@.len() == i,
            forall|j: int| 0 <= j < i ==> (#[trigger] runs@[j])@ == paths[j],
    {
        runs.push(results[i].artifacts.result_json.clone());
    }
    proof {
        assert(text::texts(runs@) =~= paths);
    }
    Manifest {
        schema_version: SCHEMA_VERSION,
        generated_at: now,
        model_path: metadata.path.clone(),
        model_identity: identity.duplicate(),
        gguf: metadata.duplicate(),
        runs,
    }
}

/// The recommendations of a search that is only planned: none.
pub fn planned_only(metadata: &GgufMetadata, identity: &ModelIdentity, now: Timestamp) -> (r:
    RecommendationFile)
    ensures
        r@ == (RecommendationsView {
            schema_version: SCHEMA_VERSION,
            generated_at: now,
            model_path: metadata.path@,
            model_identity: Some(identity@),
            profiles: seq![],
            rejected: seq![],
            stale: seq![],
            environment: None,
            environment_valid: false,
            coverage: None,
            next_suggested_test: None,
        }),
{
    let r = RecommendationFile {
        schema_version: SCHEMA_VERSION,
        generated_at: now,
        model_path: metadata.path.clone(),
        model_identity: Some(identity.duplicate()),
        profiles: Vec::new(),
        rejected: Vec::new(),
        stale: Vec::new(),
        environment: None,
        environment_valid: false,
        coverage: None,
        next_suggested_test: None,
    };
    proof {
        assert(r@.profiles =~= seq![]);
        assert(r@.rejected =~= seq![]);
        assert(r@.stale =~= seq![]);
    }
    r
}

// ---------------------------------------------------------------------------
// Finding recommendations

/// The path has a component `models`.
pub open spec fn under_models(p: Seq<char>) -> bool {
    path::components(text::split(p, '/')).contains("models"@)
}

/// The paths among the first `n` that are, or are not, under `models`.
pub open spec fn part_under_models(paths: Seq<Seq<char>>, under: bool, n: nat) -> Seq<Seq<char>>
    decreases n,
{
    if n == 0 {
        seq![]
    } else {
        let before = part_under_models(paths, under, (n - 1) as nat);
        if under_models(paths[n - 1]) == under {
            before.push(paths[n - 1])
        } else {
            before
        }
    }
}

fn collect_part(found: &Vec<String>, under: bool) -> (r: Vec<String>)
    ensures
        text::texts(r@) == part_under_models(text::texts(found@), under, found@.len()),
{
    let ghost all = text::texts(found@);
    let mut r: Vec<String> = Vec::new();
    proof {
        assert(text::texts(r@) =~= part_under_models(all, under, 0));
    }
    for i in 0..found.len()
        invariant
            all == text::texts(found@),
            text::texts(r@) == part_under_models(all, under, i as nat),
    {
        let ghost before = text::texts(r@);
        if path::has_component(found[i].as_str(), "models") == under {
            r.push(found[i].clone());
            proof {
                assert(text::texts(r@) =~= before.push(found@[i as int]@));
            }
        }
    }
    r
}

/// The order in which files of recommendations are read: those of a model's
/// own directory come first, and each part in its own order.
pub fn order_recommendation_files(found: &Vec<String>) -> (r: Vec<String>)
    ensures
        text::texts(r@) == part_under_models(text::texts(found@), true, found@.len())
            + part_under_models(text::texts(found@), false, found@.len()),
{
    let mut r = collect_part(found, true);
    let mut rest = collect_part(found, false);
    let ghost a = text::texts(r@);
    let ghost b = text::texts(rest@);
    r.append(&mut rest);
    proof {
        assert(text::texts(r@) =~= a + b);
    }
    r
}

/// Whether a model was met before.
pub fn is_known_model(seen: &Vec<String>, model_path: &str) -> (r: bool)
    ensures
        r == exists|i: int|
            0 <= i < seen@.len() && path::same(#[trigger] text::texts(seen@)[i], model_path@),
{
    let ghost all = text::texts(seen@);
    for i in 0..seen.len()
        invariant
            all == text::texts(seen@),
            forall|j: int| 0 <= j < i ==> !path::same(#[trigger] all[j], model_path@),
    {
        if path::same_path(seen[i].as_str(), model_path) {
            proof {
                assert(path::same(all[i as int], model_path@));
            }
            return true;
        }
    }
    false
}

// ---------------------------------------------------------------------------
// Prompts

/// The prompts of a run of the search: near the full context too, where that
/// is asked for.
pub fn search_prompts(options: &TuneOptions, requested_context: u64) -> (r: PromptPlan)
    ensures
        r == (PromptPlan::Tune {
            ingest_target_tokens: preset_ingest(options.preset),
            near_full_ingest_tokens: if !options.near_full_ingest {
                None
            } else {
                match options.near_full_target_tokens {
                    Some(n) => Some(n),
                    None => Some(near_full_target(requested_context) as u64),
                }
            },
        }),
{
    let near_full = if !options.near_full_ingest {
        None
    } else {
        match options.near_full_target_tokens {
            Some(n) => Some(n),
            None => Some(near_full_ingest_target(requested_context)),
        }
    };
    PromptPlan::Tune {
        ingest_target_tokens: options.preset.ingest_target_tokens(),
        near_full_ingest_tokens: near_full,
    }
}

/// The prompts of a run that refines or confirms another.
pub fn repeat_prompts(preset: Preset) -> (r: PromptPlan)
    ensures
        r == (PromptPlan::Tune {
            ingest_target_tokens: preset_ingest(preset),
            near_full_ingest_tokens: None,
        }),
{
    PromptPlan::Tune {
        ingest_target_tokens: preset.ingest_target_tokens(),
        near_full_ingest_tokens: None,
    }
}

/// What is kept of a run repeats its setup: the command word by word, the
/// candidate and its context, the kind of test, and the model.
pub proof fn results_keep_the_setup(
    m: MetadataView,
    identity: IdentityView,
    environment: EnvironmentView,
    setup: RunSetup,
    ended_at: Timestamp,
    probes: Seq<NamedProbeView>,
    outcome: Outcome,
    note: Seq<char>,
    metrics: RunMetrics,
    prompt_tokens: Option<u64>,
    completion_tokens: Option<u64>,
    status: TelemetryStatus,
)
    ensures
        ({
            let r = kept_result(
                m,
                identity,
                environment,
                setup,
                ended_at,
                probes,
                outcome,
                note,
                metrics,
                prompt_tokens,
                completion_tokens,
                status,
            );
            &&& r.command.len() == setup.command@.len()
            &&& forall|i: int|
                0 <= i < r.command.len() ==> #[trigger] r.command[i] == setup.command@[i]@
            &&& r.run_id == setup.run_id@
            &&& r.command_display == setup.command_display@
            &&& r.candidate == setup.candidate@
            &&& r.requested_context == setup.candidate.requested_context
            &&& r.test_kind == setup.test_kind@
            &&& r.validation_level == setup.validation_level
            &&& r.started_at == setup.started_at
            &&& r.ended_at == ended_at
            &&& r.model_path == m.path
            &&& r.model_size_bytes == m.file_size_bytes
            &&& r.model_identity == Some(identity)
            &&& r.environment == Some(environment)
            &&& r.outcome == outcome
            &&& r.note == note
            &&& r.metrics == metrics
            &&& r.probes == probes
            &&& r.prompt_tokens == prompt_tokens
            &&& r.completion_tokens == completion_tokens
            &&& r.telemetry_status == status
            &&& r.compatibility == Compatibility::Current
            &&& r.realistic_validation is None
        }),
{
}

/// Where the time of the first token and the numbers of tokens are read, if the
/// server did not time them: each from the first of certain requests that was
/// made.
pub proof fn figures_come_from_the_requests(e: RunEvidence)
    ensures
        ({
            let probes = probes_of(e.end);
            let output = probe_named(probes, "output"@);
            let realistic = probe_named(probes, "realistic"@);
            let fullctx = probe_named(probes, "fullctx"@);
            let sanity = probe_named(probes, "sanity"@);
            let ingest = probe_named(probes, "ingest"@);
            &&& output is Some ==> metrics_from(e).client_ttft_ms == output->0.ttft_ms
            &&& output is None && realistic is Some ==> metrics_from(e).client_ttft_ms
                == realistic->0.ttft_ms
            &&& output is None && realistic is None && fullctx is Some ==> metrics_from(
                e,
            ).client_ttft_ms == fullctx->0.ttft_ms
            &&& output is None && realistic is None && fullctx is None && sanity is Some
                ==> metrics_from(e).client_ttft_ms == sanity->0.ttft_ms
            &&& e.timing.prompt_evals@.len() == 0 && ingest is Some ==> prompt_tokens_of(e)
                == ingest->0.prompt_tokens
            &&& e.timing.prompt_evals@.len() == 0 && ingest is None && realistic is Some
                ==> prompt_tokens_of(e) == realistic->0.prompt_tokens
            &&& e.timing.evals@.len() == 0 && realistic is Some ==> completion_tokens_of(e)
                == realistic->0.completion_tokens
            &&& e.timing.evals@.len() == 0 && realistic is None && output is Some
                ==> completion_tokens_of(e) == output->0.completion_tokens
            &&& e.end is Aborted ==> metrics_from(e).client_ttft_ms is None
        }),
{
    names_unfold(probes_of(e.end));
    widest_exists(e.timing.prompt_evals@);
    widest_exists(e.timing.evals@);
}

/// A request is found by its name: the last one that has it.
pub proof fn requests_are_found_by_name(probes: Seq<NamedProbeView>, name: Seq<char>, k: int)
    requires
        0 <= k < probes.len(),
    ensures
        probes[k].name == name && (forall|i: int|
            k < i < probes.len() ==> (#[trigger] probes[i]).name != name) ==> probe_named(
            probes,
            name,
        ) == Some(probes[k].summary),
        (forall|i: int| 0 <= i < probes.len() ==> (#[trigger] probes[i]).name != name)
            ==> probe_named(probes, name) is None,
    decreases probes.len(),
{
    if probes.len() > 1 {
        if k < probes.len() - 1 {
            requests_are_found_by_name(probes.drop_last(), name, k);
        } else {
            requests_are_found_by_name(probes.drop_last(), name, 0);
        }
    } else {
        assert(probe_named(probes.drop_last(), name) is None);
    }
}

/// A stored profile stays current only where the file and the profile name the
/// same model as now, the server and the machine are the same, and the profile
/// was current when it was stored; otherwise it is told what changed.
pub proof fn staleness_is_told(
    file_identity: Option<IdentityView>,
    file_environment: Option<EnvironmentView>,
    p: RecommendationView,
    identity: IdentityView,
    environment: EnvironmentView,
)
    ensures
        ({
            let why = profile_staleness(
                file_identity,
                file_environment,
                p,
                identity,
                environment,
            );
            &&& file_identity is None ==> why == Compatibility::LegacyMissingIdentity
            &&& file_identity is Some && (file_identity->0.file_size_bytes
                != identity.file_size_bytes || file_identity->0.metadata_hash
                != identity.metadata_hash || file_identity->0.modified_at != identity.modified_at
                || file_identity->0.version != identity.version) ==> why
                == Compatibility::ModelChanged
            &&& file_identity == Some(identity) && file_environment is None ==> why
                == Compatibility::LegacyMissingSnapshot
            &&& why == Compatibility::Current ==> {
                &&& p.compatibility == Compatibility::Current
                &&& p.model_identity is Some
                &&& p.model_identity->0.metadata_hash == identity.metadata_hash
                &&& p.model_identity->0.file_size_bytes == identity.file_size_bytes
                &&& file_environment is Some
                &&& file_environment->0.llama_server.help_hash == environment.llama_server.help_hash
                &&& file_environment->0.gpus == environment.gpus
            }
            &&& file_identity == Some(identity) && file_environment == Some(environment)
                && p.model_identity == Some(identity) ==> why == p.compatibility
            &&& file_identity == Some(identity) && file_environment == Some(environment)
                && p.model_identity is None ==> why == Compatibility::LegacyMissingIdentity
        }),
{
}

/// A profile is served without objection only where nothing changed since it was
/// measured, and always then.
pub proof fn unchanged_profiles_are_served(
    file: RecommendationsView,
    p: RecommendationView,
    identity: IdentityView,
    environment: EnvironmentView,
)
    ensures
        file.model_identity == Some(identity) && p.model_identity == Some(identity)
            && file.environment == Some(environment) && p.compatibility == Compatibility::Current
            ==> serve_objection(file, p, identity, environment) is None,
        serve_objection(file, p, identity, environment) is None ==> {
            &&& file.model_identity is Some
            &&& file.model_identity->0.metadata_hash == identity.metadata_hash
            &&& p.model_identity is Some
            &&& p.model_identity->0.metadata_hash == identity.metadata_hash
            &&& file.environment is Some
            &&& file.environment->0.llama_server.executable == environment.llama_server.executable
            &&& file.environment->0.llama_server.help_hash == environment.llama_server.help_hash
            &&& file.environment->0.gpus == environment.gpus
            &&& p.compatibility == Compatibility::Current
        },
        file.model_identity is None ==> serve_objection(file, p, identity, environment) == Some(
            "legacy state is missing model identity"@,
        ),
{
}

/// The profile that is shown is the one that is asked for by id, or else by the
/// goal, where there is one of that name, and otherwise the first.
pub proof fn the_asked_profile_is_picked(
    profiles: Seq<RecommendationView>,
    asked: Option<Seq<char>>,
    goal: WorkloadGoal,
    k: int,
)
    requires
        0 <= k < profiles.len(),
    ensures
        picked_profile(profiles, asked, goal) is Some,
        0 <= picked_profile(profiles, asked, goal)->0 < profiles.len(),
        asked is Some && profiles[k].id == asked->0 ==> profiles[picked_profile(
            profiles,
            asked,
            goal,
        )->0].id == asked->0,
        asked is None && goal == WorkloadGoal::Generation && profiles[k].id == "interactive-fast"@
            ==> profiles[picked_profile(profiles, asked, goal)->0].id == "interactive-fast"@,
        asked is None && goal == WorkloadGoal::Prompt && profiles[k].id == "prompt-replay"@
            ==> profiles[picked_profile(profiles, asked, goal)->0].id == "prompt-replay"@,
        asked is None && goal == WorkloadGoal::Balanced && profiles[k].id == "balanced"@
            ==> profiles[picked_profile(profiles, asked, goal)->0].id == "balanced"@,
        asked is Some && (forall|i: int|
            0 <= i < profiles.len() ==> (#[trigger] profiles[i]).id != asked->0) ==> picked_profile(
            profiles,
            asked,
            goal,
        ) == Some(0int),
{
    let id = match asked {
        Some(id) => id,
        None => goal_profile(goal),
    };
    profile_is_named(profiles, id, k);
}

proof fn profile_is_named(profiles: Seq<RecommendationView>, id: Seq<char>, k: int)
    ensures
        profile_named(profiles, id) matches Some(i) ==> 0 <= i < profiles.len() && profiles[i].id
            == id,
        0 <= k < profiles.len() && profiles[k].id == id ==> profile_named(profiles, id) is Some,
    decreases profiles.len(),
{
    if profiles.len() > 0 {
        profile_is_named(profiles.drop_last(), id, k);
    }
}

/// What is recommended repeats the profile, with its command on the port that is
/// asked for.
pub proof fn recommendations_repeat_the_profile(
    file: RecommendationsView,
    p: RecommendationView,
    port: u16,
    goal: WorkloadGoal,
    valid: bool,
)
    ensures
        ({
            let o = recommendation_output(file, p, port, goal, valid);
            &&& o.command == display_of(with_port(p.command, text::decimal(port as nat)))
            &&& o.exact_command == o.command
            &&& o.profile_id == p.id
            &&& o.profile_key == file.model_path + "#"@ + p.id
            &&& o.goal == goal
            &&& o.environment_valid == valid
            &&& o.model_path == file.model_path
            &&& o.model_identity == file.model_identity
            &&& o.confidence == p.confidence
            &&& o.measurement_count == p.measurement_count
            &&& o.output_toks_per_s == p.output_toks_per_s
            &&& o.prompt_toks_per_s == p.prompt_toks_per_s
            &&& o.ttft_ms == p.ttft_ms
            &&& o.requested_context == p.requested_context
            &&& o.validated_prompt_tokens == p.validated_prompt_tokens
            &&& o.validation_level == p.validation_level
            &&& o.realistic_validation == p.realistic_validation
            &&& o.telemetry_status == p.telemetry_status
            &&& o.risk == p.risk
            &&& o.failures == file.rejected
            &&& o.stale == file.stale
            &&& o.coverage == file.coverage
            &&& o.next_suggested_test == file.next_suggested_test
        }),
{
}

/// The name of a run is that of its start and its candidate, in characters that
/// a file name can have.
pub proof fn run_names_are_plain(stamp: Seq<char>, id: Seq<char>, i: int)
    requires
        0 <= i < id.len(),
    ensures
        run_name(stamp, id).len() == stamp.len() + 1 + id.len(),
        text::starts_with(run_name(stamp, id), stamp),
        ({
            let c = run_name(stamp, id)[stamp.len() + 1 + i];
            &&& 'a' <= c <= 'z' || 'A' <= c <= 'Z' || '0' <= c <= '9' || c == '-' || c == '_'
            &&& 'a' <= id[i] <= 'z' || 'A' <= id[i] <= 'Z' || '0' <= id[i] <= '9' || id[i] == '_'
                ==> c == id[i]
        }),
{
    reveal_strlit("-");
    assert(run_name(stamp, id).take(stamp.len() as int) =~= stamp);
}

/// A run's files have their own names in its directory.
pub proof fn artifacts_lie_in_the_directory(dir: Seq<char>)
    requires
        dir.len() > 0,
        dir.last() != '/',
    ensures
        ({
            let a = artifacts_in(dir);
            &&& a.command == dir + "/"@ + "command.sh"@
            &&& a.server_log == dir + "/"@ + "server.log"@
            &&& a.telemetry_jsonl == dir + "/"@ + "telemetry.jsonl"@
            &&& a.request_json == dir + "/"@ + "request.json"@
            &&& a.response_json == dir + "/"@ + "response.json"@
            &&& a.result_json == dir + "/"@ + "result.json"@
        }),
{
}

} // verus!
