use llama_cpp_profiler::command::{
    asks_for_thinking, build_command, command_with_port, ProbeMode, ServerCapabilities,
    THINKING_BUDGET_MESSAGE,
};
use llama_cpp_profiler::environment::{Compatibility, EnvironmentSnapshot};
use llama_cpp_profiler::gguf::{GgufMetadata, MetadataMap, ModelIdentity, ModelKind};
use llama_cpp_profiler::measure::Real;
use llama_cpp_profiler::probing::{
    classify_abort, classify_probe_error, is_countable, log_indicates_oom, parse_llama_timings,
    probe_steps,
    repeated_license_prompt, repeated_realistic_prompt, startup_action, ProbeSession, PromptPlan,
    StartupAction, StartupEvent, Timing, TimingSummary, TimingText, STARTUP_TIMEOUT_MS,
};
use llama_cpp_profiler::profile::{
    ArtifactPaths, CandidateConfig, CandidateRisk, NamedProbe, Outcome, Preset, ProbeSummary,
    ProfileResult, Recommendation, RecommendationFile, RunMetrics, SafetyLimits, TelemetryStatus,
    ValidationLevel, WorkloadGoal, AGENT_SCHEMA_VERSION, SCHEMA_VERSION,
};
use llama_cpp_profiler::ranking::{measurement_sources, Score};
use llama_cpp_profiler::refinement::{
    accept_thread_refinement, has_meaningful_cpu_participation, log_has_partial_gpu_offload,
    refinement_contest, refinement_plan, refinement_winner, thread_improvement_is_significant,
    thread_pairs, thread_refinement_candidates, RefinementSkip,
};
use llama_cpp_profiler::runner::{
    artifact_paths, assess_run, base_url, empty_result, fullctx_candidate, is_known_model, manifest,
    order_by_start, order_recommendation_files, planned_only, profile_key, recommend_output,
    repeat_prompts, run_dir, run_id, run_id_at, run_result, saved_profile_run, search_prompts,
    serve_command, shell_script,
    validate_recommendation_file, DriveEnd, RecommendOptions, RunEvidence, RunSetup, ServeError,
    ServeOptions,
};
use llama_cpp_profiler::stream::{drain_sse_events, estimate_tokens, ChatReply};
use llama_cpp_profiler::telemetry::TelemetrySummary;
use llama_cpp_profiler::time::Timestamp;
use llama_cpp_profiler::tuning::{
    apply_confidence_labels, candidate_aggressiveness, candidate_plan, confirmation_runs, find_profile, port_range,
    port_with_offset,
    prepend_explicit_n_cpu_moe_candidates, prioritize_goal, promote_adaptive_candidates, run_budget,
    search_candidates, search_coverage, stage_port, validates_best, validation_level, PortError,
    Stage, TuneSession,
};
use llama_cpp_profiler::validation::{
    apply_realistic_validation_assessment, combine_measurements, fullctx_prompt_target,
    near_full_ingest_target,
    rank_for_validation, realistic_validation_prompt_target, realistic_validation_timeout,
    retained_pair, validation_baselines, validation_candidate, ValidationSession, REALISTIC_TIMEOUT_NANOS,
    REQUEST_TIMEOUT_NANOS,
};

const LICENSE: &str = "You may copy this text freely. ";

fn measure(value: f64) -> Real {
    Real { bits: value.to_bits() }
}

fn now() -> Timestamp {
    Timestamp { seconds: 1_700_000_000, nanos: 0 }
}

fn test_metadata() -> GgufMetadata {
    GgufMetadata {
        path: "/models/test.gguf".to_string(),
        file_name: "test.gguf".to_string(),
        file_size_bytes: 1,
        gguf_version: 3,
        tensor_count: 0,
        metadata_kv_count: 0,
        name: Some("test".to_string()),
        architecture: Some("llama".to_string()),
        size_label: None,
        native_context: Some(4096),
        block_count: Some(1),
        expert_count: None,
        expert_used_count: None,
        tokenizer_has_chat_template: false,
        quant: Some("Q4_K_M".to_string()),
        file_type: None,
        model_kind: ModelKind::Dense,
        metadata: MetadataMap::new(),
    }
}

fn test_identity() -> ModelIdentity {
    test_metadata().model_identity("/models/test.gguf", None, &b"{}".to_vec())
}

fn test_candidate(id: &str, batch: u64, ubatch: u64, fit_target: u64) -> CandidateConfig {
    CandidateConfig {
        id: id.to_string(),
        requested_context: 4096,
        batch: Some(batch),
        ubatch: Some(ubatch),
        kv_cache: Some("q8_0".to_string()),
        kv_cache_v: None,
        fit_target: Some(fit_target),
        gpu_layers: None,
        cpu_moe: id.contains("cpu-moe"),
        n_cpu_moe: None,
        threads: None,
        threads_batch: None,
        expected_risk: CandidateRisk::Medium,
        note: String::new(),
        planning_note: String::new(),
    }
}

fn test_artifacts() -> ArtifactPaths {
    ArtifactPaths {
        command: "command.sh".to_string(),
        server_log: "server.log".to_string(),
        telemetry_jsonl: "telemetry.jsonl".to_string(),
        request_json: "request.json".to_string(),
        response_json: "response.json".to_string(),
        result_json: "result.json".to_string(),
    }
}

fn test_result(
    candidate: CandidateConfig,
    outcome: Outcome,
    free_vram: Option<u64>,
) -> ProfileResult {
    let gguf = test_metadata();
    ProfileResult {
        schema_version: SCHEMA_VERSION,
        run_id: "test".to_string(),
        started_at: now(),
        ended_at: now(),
        model_path: gguf.path.clone(),
        model_size_bytes: gguf.file_size_bytes,
        model_identity: Some(test_identity()),
        gguf: gguf.clone(),
        quant: gguf.quant.clone(),
        command: vec!["llama-server".to_string()],
        command_display: "llama-server".to_string(),
        candidate,
        test_kind: "tune".to_string(),
        requested_context: 4096,
        prompt_tokens: None,
        completion_tokens: None,
        metrics: RunMetrics { min_free_vram_mib: free_vram, ..RunMetrics::default() },
        probes: Vec::new(),
        outcome,
        artifacts: test_artifacts(),
        note: String::new(),
        environment: None,
        validation_level: ValidationLevel::Smoke,
        compatibility: Compatibility::Current,
        telemetry_status: TelemetryStatus::Measured,
        realistic_validation: None,
    }
}

fn measured(text: &TimingText) -> Timing {
    Timing {
        millis: measure(text.millis.parse().unwrap()),
        tokens: text.tokens,
        toks_per_s: measure(text.toks_per_s.parse().unwrap()),
    }
}

fn timings(log: &str) -> TimingSummary {
    let (prompts, evals) = parse_llama_timings(log);
    TimingSummary {
        prompt_evals: prompts.iter().map(measured).collect(),
        evals: evals.iter().map(measured).collect(),
    }
}

fn has_pair(command: &[String], flag: &str, value: &str) -> bool {
    command.windows(2).any(|pair| pair[0] == flag && pair[1] == value)
}

#[test]
fn parses_llama_cpp_timing_lines() {
    let log = r#"
llama_perf_context_print:        prompt eval time =    123.45 ms /    16 tokens (    7.72 ms per token,   129.61 tokens per second)
llama_perf_context_print:               eval time =    200.00 ms /   128 runs   (    1.56 ms per token,   640.00 tokens per second)
llama_perf_context_print:        prompt eval time =   1000.00 ms / 16000 tokens (    0.06 ms per token, 16000.00 tokens per second)
"#;
    let timing = timings(log);
    assert_eq!(timing.prompt_evals.len(), 2);
    assert_eq!(timing.evals.len(), 1);
    assert_eq!(timing.best_prompt_toks_per_s(), Some(measure(16000.0)));
    assert_eq!(timing.best_generation_toks_per_s(), Some(measure(640.0)));
}

#[test]
fn parses_llama_server_slot_timing_lines() {
    let log = r#"
0.04.579.842 I slot print_timing: id  0 | task 3 | prompt eval time =     204.20 ms /    25 tokens (    8.17 ms per token,   122.43 tokens per second)
0.04.579.845 I slot print_timing: id  0 | task 3 |        eval time =    2120.60 ms /   128 tokens (   16.57 ms per token,    60.36 tokens per second)
0.10.835.450 I slot print_timing: id  0 | task 133 | prompt eval time =    6188.84 ms / 14221 tokens (    0.44 ms per token,  2297.85 tokens per second)
0.10.835.453 I slot print_timing: id  0 | task 133 |        eval time =       0.00 ms /     1 tokens (    0.00 ms per token, 1000000.00 tokens per second)
"#;
    let timing = timings(log);
    assert_eq!(timing.prompt_evals.len(), 2);
    assert_eq!(timing.evals.len(), 2);
    assert_eq!(timing.best_prompt_toks_per_s(), Some(measure(2297.85)));
    assert_eq!(timing.best_generation_toks_per_s(), Some(measure(60.36)));
    assert_eq!(timing.max_prompt_tokens(), Some(14221));
    assert_eq!(timing.max_generation_tokens(), Some(128));
}

#[test]
fn drains_sse_data_lines() {
    let mut buffer = "data: {\"a\":1}\n\ndata: [DONE]\n".to_string();
    assert_eq!(
        drain_sse_events(&mut buffer),
        vec!["{\"a\":1}".to_string(), "[DONE]".to_string()]
    );
}

#[test]
fn chunks_of_a_stream_add_up() {
    let mut buffer = "data: {\"a\"".to_string();
    assert!(drain_sse_events(&mut buffer).is_empty());
    assert_eq!(buffer, "data: {\"a\"");
    buffer.push_str(":1}\nevent: x\ndata: last");
    assert_eq!(drain_sse_events(&mut buffer), vec!["{\"a\":1}".to_string()]);
    assert_eq!(buffer, "data: last");
}

#[test]
fn replies_are_summed_up() {
    let body = b"data: {\"choices\":[{\"delta\":{\"content\":\"K\"}}]}\n\ndata: [DONE]\n\n";
    let mut reply = ChatReply::new();
    reply.take_chunk(&body[..20].to_vec(), 3);
    assert_eq!(reply.first_token_ms, None);
    reply.take_chunk(&body[20..].to_vec(), 7);
    let summary = reply.summary("say K", 1, 9);
    assert_eq!(summary.response_excerpt.as_deref(), Some("K"));
    assert_eq!(summary.completion_tokens, Some(1));
    assert_eq!(summary.ttft_ms, Some(7));
    assert_eq!(summary.wall_ms, Some(9));
    assert_eq!(reply.text_excerpt(), "K");
    assert!(reply.raw_excerpt().starts_with("data: "));
    let mut broken = ChatReply::new();
    broken.take_chunk(&vec![0xff, b'\n'], 1);
    assert_eq!(broken.raw, "\u{fffd}\n");
    assert_eq!(estimate_tokens(""), 1);
    assert_eq!(estimate_tokens("12345678"), 2);
}

#[test]
fn replaces_saved_command_port() {
    let command =
        vec!["llama-server".to_string(), "--port".to_string(), "18180".to_string()];
    let updated = command_with_port(&command, 18080);
    assert_eq!(updated[2], "18080");
}

#[test]
fn ports_are_added_where_a_command_has_none() {
    let command = vec!["llama-server".to_string(), "-c".to_string()];
    let updated = command_with_port(&command, 7);
    assert_eq!(updated, vec!["llama-server", "-c", "--port", "7"]);
}

#[test]
fn only_thinking_requests_ask_for_thinking() {
    assert!(asks_for_thinking(ProbeMode::Thinking));
    assert!(!asks_for_thinking(ProbeMode::Generic));
}

#[test]
fn generic_command_omits_thinking_arguments() {
    let capabilities = ServerCapabilities {
        executable: "llama-server".to_string(),
        help: "--model --host --port -c --reasoning --reasoning-budget --chat-template-kwargs --reasoning-budget-message --temp --top-p".to_string(),
    };
    let mut metadata = test_metadata();
    metadata.name = None;
    metadata.tokenizer_has_chat_template = true;
    metadata.quant = None;
    let candidate = test_candidate("dense", 1024, 256, 1536);
    let generic = build_command(&capabilities, &metadata, &candidate, 18080, ProbeMode::Generic);
    let thinking = build_command(&capabilities, &metadata, &candidate, 18080, ProbeMode::Thinking);
    assert!(!generic.iter().any(|part| part == "--reasoning"));
    assert!(!generic.iter().any(|part| part == "--chat-template-kwargs"));
    assert!(thinking.iter().any(|part| part == "--reasoning"));
}

#[test]
fn thinking_commands_hold_their_defaults() {
    let capabilities = ServerCapabilities {
        executable: "llama-server".to_string(),
        help: "--model -m --host --port -c --jinja -np --fit --fit-target -fa --reasoning --reasoning-budget --reasoning-budget-message --chat-template-kwargs --temp --top-p --top-k --min-p --presence-penalty --repeat-penalty -b -ub -ctk -ctv --cpu-moe --n-cpu-moe".to_string(),
    };
    let mut candidate = test_candidate("dense", 1024, 256, 1536);
    candidate.requested_context = 8192;
    let command =
        build_command(&capabilities, &test_metadata(), &candidate, 18080, ProbeMode::Thinking);
    for (flag, value) in [
        ("--reasoning", "on"),
        ("--reasoning-budget", "4096"),
        ("--chat-template-kwargs", "{\"enable_thinking\":true}"),
        ("--temp", "0.6"),
        ("--top-p", "0.95"),
        ("--top-k", "20"),
        ("--min-p", "0.0"),
        ("--presence-penalty", "0.0"),
        ("--repeat-penalty", "1.0"),
        ("--reasoning-budget-message", THINKING_BUDGET_MESSAGE),
        ("-c", "8192"),
        ("--port", "18080"),
    ] {
        assert!(has_pair(&command, flag, value), "command missing {flag} {value}: {command:?}");
    }
}

#[test]
fn adaptive_promotes_more_aggressive_candidate_after_headroom() {
    let base = test_candidate("dense-q8_0-fit1536-b1024-ub256", 1024, 256, 1536);
    let aggressive = test_candidate("dense-q8_0-fit512-b16384-ub4096", 16384, 4096, 512);
    let unrelated = test_candidate("moe-q8_0-cpu-moe-b1024-ub256", 1024, 256, 1536);
    let mut queue = vec![unrelated, aggressive.clone()];
    let seen = vec![base.id.clone()];
    let result = test_result(base, Outcome::Pass, Some(4096));

    promote_adaptive_candidates(&mut queue, &seen, &result);

    assert_eq!(
        queue.first().map(|candidate| candidate.id.as_str()),
        Some(aggressive.id.as_str())
    );
}

#[test]
fn thread_pairs_follow_topology_and_deduplicate_small_systems() {
    assert_eq!(
        thread_pairs(16, 32),
        vec![
            (None, None, "default"),
            (Some(8), Some(16), "halfphys-phys"),
            (Some(16), Some(16), "phys-phys"),
            (Some(16), Some(32), "phys-logical"),
            (Some(32), Some(32), "logical-logical"),
        ]
    );
    assert_eq!(
        thread_pairs(1, 1),
        vec![(None, None, "default"), (Some(1), Some(1), "halfphys-phys")]
    );
}

fn significant(baseline: f64, candidate: f64) -> bool {
    thread_improvement_is_significant(measure(baseline), measure(baseline * 1.03), measure(candidate))
}

#[test]
fn thread_refinement_requires_three_percent_balanced_improvement() {
    assert!(!significant(100.0, 102.99));
    assert!(significant(100.0, 103.0));
    assert!(!significant(0.0, 100.0));
}

#[test]
fn realistic_validation_target_is_bounded_and_reserves_output_context() {
    assert_eq!(realistic_validation_prompt_target(131_072), 32_768);
    assert_eq!(realistic_validation_prompt_target(1_000_000), 64_000);
    assert_eq!(realistic_validation_prompt_target(65_536), 16_384);
    assert_eq!(realistic_validation_prompt_target(8_192), 7_168);
    let (_, estimate) = repeated_realistic_prompt(LICENSE, 32_768);
    assert_eq!(estimate, 32_768);
}

#[test]
fn fullctx_defaults_to_eighty_percent_and_caps_explicit_targets() {
    assert_eq!(fullctx_prompt_target(262_144, None), 209_715);
    assert_eq!(fullctx_prompt_target(8_192, None), 6_553);
    assert_eq!(fullctx_prompt_target(8_192, Some(4_096)), 4_096);
    assert_eq!(fullctx_prompt_target(8_192, Some(250_000)), 8_191);
}

#[test]
fn port_offsets_reject_zero_and_overflow() {
    assert!(port_with_offset(0, 0).is_err());
    assert_eq!(port_with_offset(65_535, 0).unwrap(), 65_535);
    assert!(port_with_offset(65_535, 1).is_err());
    assert_eq!(port_with_offset(18_180, 5).unwrap(), 18_185);
    assert_eq!(port_with_offset(0, 3), Err(PortError::ZeroStart));
    assert_eq!(port_with_offset(1, 70_000), Err(PortError::OffsetTooLarge));
    assert_eq!(port_with_offset(65_535, 1), Err(PortError::OutOfRange));
}

fn estimate(prompt_tokens: f64, prompt_rate: f64, generation_rate: f64) -> u128 {
    let seconds = (prompt_tokens / prompt_rate + 1024.0 / generation_rate) * 2.0 + 120.0;
    (seconds * 1e9) as u128
}

#[test]
fn realistic_validation_timeout_scales_and_is_bounded() {
    let scaled = realistic_validation_timeout(estimate(32_000.0, 100.0, 10.0));
    assert!(scaled > REQUEST_TIMEOUT_NANOS);
    assert!(scaled < REALISTIC_TIMEOUT_NANOS);
    assert_eq!(
        realistic_validation_timeout(estimate(64_000.0, 1.0, 1.0)),
        REALISTIC_TIMEOUT_NANOS
    );
    assert_eq!(realistic_validation_timeout(0), REQUEST_TIMEOUT_NANOS);
}

fn retained(measured: Option<Real>, baseline: Option<Real>) -> Option<Real> {
    retained_pair(measured, baseline)
        .map(|(a, b)| measure(f64::from_bits(a.bits) / f64::from_bits(b.bits)))
}

fn assess(result: &mut ProfileResult, baseline: &ProfileResult, target: u64) {
    let prompt = retained(
        result.metrics.server_prompt_eval_toks_per_s,
        baseline.metrics.server_prompt_eval_toks_per_s,
    );
    let generation = retained(
        result.metrics.server_generation_toks_per_s,
        baseline.metrics.server_generation_toks_per_s,
    );
    apply_realistic_validation_assessment(result, baseline, target, prompt, generation);
}

#[test]
fn realistic_validation_accepts_early_eos_but_rejects_severe_degradation() {
    let candidate = test_candidate("baseline", 1024, 256, 1536);
    let mut baseline = test_result(candidate.clone(), Outcome::Pass, Some(4096));
    baseline.run_id = "baseline-run".to_string();
    baseline.metrics.server_prompt_eval_toks_per_s = Some(measure(100.0));
    baseline.metrics.server_generation_toks_per_s = Some(measure(20.0));

    let mut early_eos = test_result(candidate.clone(), Outcome::Pass, Some(4096));
    early_eos.metrics.server_prompt_eval_toks_per_s = Some(measure(80.0));
    early_eos.metrics.server_generation_toks_per_s = Some(measure(15.0));
    early_eos.prompt_tokens = Some(32_000);
    early_eos.completion_tokens = Some(400);
    assess(&mut early_eos, &baseline, 32_000);
    assert_eq!(early_eos.outcome, Outcome::Pass);
    let validation = early_eos.realistic_validation.as_ref().unwrap();
    assert!(validation.incomplete_generation);
    assert_eq!(validation.baseline_run_id, "baseline-run");
    assert_eq!(validation.prompt_retained_ratio, Some(measure(0.8)));

    let mut degraded = test_result(candidate, Outcome::Pass, Some(4096));
    degraded.metrics.server_prompt_eval_toks_per_s = Some(measure(20.0));
    degraded.metrics.server_generation_toks_per_s = Some(measure(15.0));
    degraded.completion_tokens = Some(1024);
    assess(&mut degraded, &baseline, 32_000);
    assert_eq!(degraded.outcome, Outcome::PerformanceDegraded);
}

#[test]
fn detects_explicit_and_logged_cpu_participation() {
    let mut result = test_result(
        test_candidate("moe-q8_0-cpu-moe-b1024-ub256", 1024, 256, 1536),
        Outcome::Pass,
        Some(4096),
    );
    assert!(has_meaningful_cpu_participation(&result, &result.gguf, ""));

    result.candidate.cpu_moe = false;
    result.candidate.gpu_layers = Some(1);
    result.gguf.block_count = Some(2);
    assert!(has_meaningful_cpu_participation(&result, &result.gguf, ""));
    assert!(log_has_partial_gpu_offload("load_tensors: offloaded 40/49 layers to GPU"));
    assert!(!log_has_partial_gpu_offload("load_tensors: offloaded 49/49 layers to GPU"));
}

#[test]
fn build_command_includes_explicit_thread_pair() {
    let capabilities = ServerCapabilities {
        executable: "llama-server".to_string(),
        help: "--model --host --port -c --threads --threads-batch".to_string(),
    };
    let mut candidate = test_candidate("moe-cpu-moe", 1024, 256, 1536);
    candidate.threads = Some(16);
    candidate.threads_batch = Some(32);
    let metadata = test_result(candidate.clone(), Outcome::Pass, Some(4096)).gguf;
    let command = build_command(&capabilities, &metadata, &candidate, 18080, ProbeMode::Generic);
    assert!(command.windows(2).any(|pair| pair == ["--threads", "16"]));
    assert!(command.windows(2).any(|pair| pair == ["--threads-batch", "32"]));
}

#[test]
fn build_command_supports_mixed_k_and_v_cache_precision() {
    let capabilities = ServerCapabilities {
        executable: "llama-server".to_string(),
        help: "--model --host --port -c -ctk -ctv".to_string(),
    };
    let mut candidate = test_candidate("mixed-cache", 1024, 256, 1536);
    candidate.kv_cache_v = Some("q4_0".to_string());
    let metadata = test_result(candidate.clone(), Outcome::Pass, Some(4096)).gguf;
    let command = build_command(&capabilities, &metadata, &candidate, 18080, ProbeMode::Generic);
    assert!(command.windows(2).any(|pair| pair == ["-ctk", "q8_0"]));
    assert!(command.windows(2).any(|pair| pair == ["-ctv", "q4_0"]));
}

fn moe_metadata() -> GgufMetadata {
    let mut metadata = test_metadata();
    metadata.file_name = "moe.gguf".to_string();
    metadata.architecture = Some("qwen35moe".to_string());
    metadata.native_context = Some(262_144);
    metadata.expert_count = Some(256);
    metadata.expert_used_count = Some(8);
    metadata.tokenizer_has_chat_template = true;
    metadata.model_kind = ModelKind::Moe;
    metadata
}

#[test]
fn explicit_n_cpu_moe_candidates_are_prepended() {
    let mut candidates =
        vec![test_candidate("moe-q8_0-ncpumoe31-b16384-ub4096", 16_384, 4_096, 1_536)];

    prepend_explicit_n_cpu_moe_candidates(
        &mut candidates,
        &moe_metadata(),
        262_144,
        &vec![32, 31, 30],
    );

    let ids =
        candidates.iter().take(3).map(|candidate| candidate.id.as_str()).collect::<Vec<_>>();
    assert_eq!(
        ids,
        vec![
            "moe-q8_0-ncpumoe32-b16384-ub4096-explicit",
            "moe-q8_0-ncpumoe31-b16384-ub4096-explicit",
            "moe-q8_0-ncpumoe30-b16384-ub4096-explicit"
        ]
    );
}

#[test]
fn searches_keep_to_their_budget() {
    let environment = EnvironmentSnapshot::default();
    let candidates =
        search_candidates(&moe_metadata(), Preset::Quick, 262_144, &vec![3], &environment);
    assert!(candidates[0].id.contains("ncpumoe3-"));
    assert_eq!(run_budget(Preset::Quick, None, candidates.len()), 6);
    assert_eq!(run_budget(Preset::Quick, Some(2), candidates.len()), 2);
    let mut session = TuneSession::new(&candidates, 2);
    let mut ran = Vec::new();
    while let Some(candidate) = session.next_candidate() {
        ran.push(candidate.id.clone());
        session.record(&test_result(candidate, Outcome::Pass, Some(4096)));
    }
    assert_eq!(ran.len(), 2);
    assert_ne!(ran[0], ran[1]);
    let plan = candidate_plan(
        &moe_metadata(),
        &test_identity(),
        262_144,
        Preset::Quick,
        Some(2),
        &environment,
        &candidates,
        now(),
    );
    assert_eq!(plan.candidates.len(), 2);
    assert_eq!(plan.candidates[0], candidates[0]);
}

#[test]
fn promising_runs_are_confirmed() {
    let slow = test_result(test_candidate("a", 1, 1, 1), Outcome::Pass, Some(4096));
    let fast = test_result(test_candidate("b", 1, 1, 1), Outcome::Pass, Some(4096));
    let failed = test_result(test_candidate("c", 1, 1, 1), Outcome::Oom, None);
    let runs = vec![slow, fast, failed];
    let scores = vec![measure(1.0), measure(2.0), measure(3.0)];
    let order = confirmation_runs(&runs, &scores, &SafetyLimits::default());
    assert_eq!(order[0], 1);
    assert!(!order.contains(&2));
    assert_eq!(rank_for_validation(&runs[..2].to_vec(), &vec![measure(1.0), measure(2.0)]), vec![1, 0]);
    let mut session = ValidationSession::new(vec![1, 0]);
    assert_eq!(session.next_run(), Some(1));
    session.record(Outcome::PerformanceDegraded);
    assert_eq!(session.next_run(), Some(0));
    session.record(Outcome::Pass);
    assert_eq!(session.next_run(), None);
}

#[test]
fn validation_runs_have_their_own_candidate() {
    let base = test_candidate("a", 1, 1, 1);
    let candidate = validation_candidate(&base, 7_168);
    assert_ne!(candidate.id, base.id);
    assert_eq!(candidate.requested_context, base.requested_context);
    assert_eq!(retained_pair(None, Some(measure(1.0))), None);
    assert_eq!(retained_pair(Some(measure(1.0)), Some(measure(0.0))), None);
    assert!(near_full_ingest_target(8_192) < 8_192);
}

#[test]
fn threads_are_refined_only_where_the_processor_works() {
    let plain = ServerCapabilities { executable: "s".to_string(), help: "--port".to_string() };
    let threaded = ServerCapabilities {
        executable: "s".to_string(),
        help: "--threads --threads-batch".to_string(),
    };
    let limits = SafetyLimits::default();
    let run = test_result(test_candidate("dense", 1, 1, 1), Outcome::Pass, Some(4096));
    let runs = vec![run.clone()];
    let scores = vec![measure(1.0)];
    assert_eq!(
        refinement_winner(&plain, &runs, &scores, &limits),
        Err(RefinementSkip::NoThreadFlags)
    );
    assert_eq!(
        refinement_winner(&threaded, &Vec::new(), &Vec::new(), &limits),
        Err(RefinementSkip::NoUsableRun)
    );
    assert_eq!(refinement_winner(&threaded, &runs, &scores, &limits), Ok(0));
    assert!(matches!(
        refinement_plan(&run, &run.gguf, "", Some(8), Some(16), Some(8)),
        Err(RefinementSkip::GpuResident)
    ));
    let log = "offloaded 1/49 layers to GPU";
    let plan = refinement_plan(&run, &run.gguf, log, Some(8), Some(16), Some(8)).unwrap();
    assert_eq!(plan.len(), thread_refinement_candidates(&run.candidate, Some(8), Some(16), Some(8)).len());
    assert_eq!(plan[0].threads, None);
    let mut explicit = run.clone();
    explicit.candidate.threads = Some(8);
    explicit.candidate.threads_batch = Some(8);
    let contest = refinement_contest(
        &vec![run.clone(), explicit.clone()],
        &vec![measure(1.0), measure(2.0)],
        &limits,
    );
    assert_eq!(contest, Ok((0, 1)));
    assert_eq!(
        refinement_contest(&vec![explicit.clone()], &vec![measure(1.0)], &limits),
        Err(RefinementSkip::NoBaseline)
    );
    assert_eq!(
        refinement_contest(&vec![run], &vec![measure(1.0)], &limits),
        Err(RefinementSkip::NoExplicitRun)
    );
    assert!(accept_thread_refinement(
        &mut explicit,
        measure(1.0),
        measure(1.03),
        measure(2.0),
        "100.0"
    ));
    assert!(explicit.note.contains("100.0"));
}

#[test]
fn probes_follow_their_plan() {
    let plan = PromptPlan::Tune { ingest_target_tokens: 100, near_full_ingest_tokens: Some(200) };
    let steps = probe_steps(&plan, LICENSE);
    let names = steps.iter().map(|step| step.name).collect::<Vec<_>>();
    assert_eq!(names, vec!["sanity", "output", "ingest", "near_full_ingest"]);
    let mut session = ProbeSession::new(steps);
    let first = session.current().unwrap().name;
    session.answer(ProbeSummary {
        prompt_tokens: Some(1),
        completion_tokens: Some(2),
        ttft_ms: Some(3),
        wall_ms: Some(4),
        response_excerpt: None,
    });
    assert_eq!(session.output.probes[0].name, first);
    session.refuse("timed out");
    assert!(session.current().is_none());
    assert_eq!(session.output.error.as_deref(), Some("output probe: timed out"));
    let (prompt, estimate) = repeated_license_prompt(LICENSE, 100);
    assert!(prompt.contains(LICENSE.trim_end()));
    assert!(estimate >= 100);
}

#[test]
fn the_last_port_counts() {
    let command = vec!["llama-server".to_string(), "--port".to_string(), "1".to_string()];
    let moved = command_with_port(&command_with_port(&command, 7), 9);
    assert_eq!(moved, vec!["llama-server", "--port", "9"]);
    let bare = vec!["llama-server".to_string()];
    let moved = command_with_port(&command_with_port(&bare, 7), 9);
    assert_eq!(moved, vec!["llama-server", "--port", "9"]);
}

#[test]
fn threads_stay_within_the_processor() {
    for (physical, logical) in [(0, 0), (1, 1), (4, 8), (9, 4), (16, 32)] {
        for (threads, threads_batch, _) in thread_pairs(physical, logical) {
            assert_eq!(threads.is_some(), threads_batch.is_some());
            if let (Some(threads), Some(threads_batch)) = (threads, threads_batch) {
                assert!(1 <= threads && threads <= threads_batch);
                assert!(threads_batch <= logical.max(1));
            }
        }
    }
}

#[test]
fn fewer_kept_experts_are_more_aggressive() {
    let mut candidate = test_candidate("moe-a", 1024, 256, 1536);
    candidate.n_cpu_moe = Some(40);
    let safer = candidate_aggressiveness(&candidate);
    candidate.n_cpu_moe = Some(30);
    assert_eq!(candidate_aggressiveness(&candidate), safer + 10);
}

#[test]
fn outcomes_come_from_errors_and_logs() {
    assert_eq!(classify_probe_error("probe timed out"), Outcome::Timeout);
    assert!(log_indicates_oom("ggml: CUDA out of memory"));
    assert!(!log_indicates_oom("all good"));
    assert_eq!(classify_abort("server exited before becoming healthy"), Outcome::ServerCrash);
    assert_eq!(startup_action(StartupEvent::Healthy, 1), StartupAction::Proceed);
    assert_eq!(startup_action(StartupEvent::Exited, 1), StartupAction::ReportExit);
    assert_eq!(startup_action(StartupEvent::Silent, 1), StartupAction::AskAgain);
    assert_eq!(
        startup_action(StartupEvent::Silent, STARTUP_TIMEOUT_MS),
        StartupAction::ReportTimeout
    );
}

fn evidence(error: Option<&str>, log: &str, free: Option<u64>) -> RunEvidence {
    RunEvidence {
        end: DriveEnd::Driven {
            probes: vec![NamedProbe {
                name: "sanity".to_string(),
                summary: ProbeSummary {
                    prompt_tokens: Some(10),
                    completion_tokens: Some(20),
                    ttft_ms: Some(30),
                    wall_ms: Some(40),
                    response_excerpt: None,
                },
            }],
            error: error.map(str::to_string),
        },
        log: log.to_string(),
        timing: timings("prompt eval time = 1.00 ms / 16 tokens (x 100.00 tokens per second)\n: eval time = 2.00 ms / 8 runs (x 50.00 tokens per second)\n"),
        telemetry: TelemetrySummary {
            min_free_vram_mib: free,
            sample_count: 1,
            ..TelemetrySummary::default()
        },
        total_wall_ms: 99,
    }
}

#[test]
fn runs_are_assessed() {
    let limits = SafetyLimits::default();
    let good = assess_run(&evidence(None, "", Some(4096)), &limits);
    assert_eq!(good.outcome, Outcome::Pass);
    assert_eq!(good.metrics.server_prompt_eval_toks_per_s, Some(measure(100.0)));
    assert_eq!(good.metrics.server_generation_toks_per_s, Some(measure(50.0)));
    assert_eq!(good.metrics.total_wall_ms, Some(99));
    assert_eq!(good.metrics.client_ttft_ms, Some(30));
    let tight = assess_run(&evidence(None, "", Some(1)), &limits);
    assert_eq!(tight.outcome, Outcome::TooTight);
    let oom = assess_run(&evidence(Some("failed"), "CUDA out of memory", Some(4096)), &limits);
    assert_eq!(oom.outcome, Outcome::Oom);
    let mut aborted = evidence(None, "", None);
    aborted.end = DriveEnd::Aborted { note: "server exited".to_string() };
    let crash = assess_run(&aborted, &limits);
    assert_eq!(crash.outcome, Outcome::ServerCrash);
    assert_eq!(crash.telemetry_status, TelemetryStatus::Unknown);
}

fn setup() -> RunSetup {
    RunSetup {
        run_id: "r".to_string(),
        test_kind: "tune".to_string(),
        candidate: test_candidate("dense", 1, 1, 1),
        command: vec!["llama-server".to_string()],
        command_display: "llama-server".to_string(),
        artifacts: test_artifacts(),
        started_at: now(),
        validation_level: ValidationLevel::StandardIngest,
    }
}

#[test]
fn results_hold_what_a_run_gave() {
    let environment = EnvironmentSnapshot::default();
    let result = run_result(
        &test_metadata(),
        &test_identity(),
        &environment,
        setup(),
        now(),
        &evidence(None, "", Some(4096)),
        &SafetyLimits::default(),
    );
    assert_eq!(result.outcome, Outcome::Pass);
    assert_eq!(result.compatibility, Compatibility::Current);
    assert_eq!(result.probes.len(), 1);
    assert_eq!(result.requested_context, 4096);
    let failed = empty_result(
        &test_metadata(),
        &test_identity(),
        &environment,
        setup(),
        now(),
        "cannot start",
    );
    assert_eq!(failed.outcome, Outcome::ServerCrash);
    assert!(failed.note.contains("cannot start"));
    let list = manifest(&test_metadata(), &test_identity(), &vec![result], now());
    assert_eq!(list.runs, vec!["result.json".to_string()]);
    assert!(planned_only(&test_metadata(), &test_identity(), now()).profiles.is_empty());
}

#[test]
fn runs_have_names_and_places() {
    assert_eq!(run_id("c", now()).as_deref(), Some("20231114T221320Z-c"));
    assert_eq!(run_id_at("S", "a/b_c"), "S-a-b_c");
    assert_eq!(run_id("c", Timestamp { seconds: i64::MAX, nanos: 0 }), None);
    assert_eq!(run_dir("/p", "r"), "/p/runs/r");
    assert_eq!(artifact_paths("/p/runs/r").server_log, "/p/runs/r/server.log");
    assert_eq!(base_url(18080), "http://127.0.0.1:18080/v1");
    assert_eq!(
        shell_script("llama-server"),
        "#!/usr/bin/env bash\nset -euo pipefail\nexec llama-server\n"
    );
}

fn saved(id: &str) -> Recommendation {
    Recommendation {
        id: id.to_string(),
        role: "fast".to_string(),
        source_run_id: format!("run-{id}"),
        source_candidate_id: "candidate".to_string(),
        source_test_kind: "tune".to_string(),
        model_identity: Some(test_identity()),
        requested_context: 8192,
        validated_prompt_tokens: Some(7000),
        validation_level: ValidationLevel::Smoke,
        compatibility: Compatibility::Current,
        environment_valid: true,
        telemetry_status: TelemetryStatus::Measured,
        stale_reason: None,
        command: vec!["llama-server".to_string(), "--port".to_string(), "1".to_string()],
        command_display: "llama-server --port 1".to_string(),
        output_toks_per_s: Some(measure(1.0)),
        prompt_toks_per_s: Some(measure(1.0)),
        ttft_ms: Some(1),
        peak_vram_mib: Some(1),
        headroom_mib: Some(1),
        confidence: "provisional".to_string(),
        measurement_count: 1,
        risk: "low".to_string(),
        note: String::new(),
        realistic_validation: None,
    }
}

fn saved_file(ids: &[&str]) -> RecommendationFile {
    RecommendationFile {
        schema_version: SCHEMA_VERSION,
        generated_at: now(),
        model_path: "/models/test.gguf".to_string(),
        model_identity: Some(test_identity()),
        profiles: ids.iter().map(|id| saved(id)).collect(),
        rejected: Vec::new(),
        stale: Vec::new(),
        environment: Some(EnvironmentSnapshot::default()),
        environment_valid: true,
        coverage: None,
        next_suggested_test: None,
    }
}

fn changed_identity() -> ModelIdentity {
    let mut identity = test_identity();
    identity.file_size_bytes = 8;
    identity
}

#[test]
fn saved_profiles_are_held_against_model_and_machine() {
    let environment = EnvironmentSnapshot::default();
    let file = saved_file(&["interactive-fast", "balanced"]);
    let same = validate_recommendation_file(&file, &test_identity(), &environment);
    assert_eq!(same.profiles.len(), 2);
    assert!(same.environment_valid);
    let moved = validate_recommendation_file(&file, &changed_identity(), &environment);
    assert!(moved.profiles.is_empty());
    assert_eq!(moved.stale.len(), 2);
    assert_eq!(moved.stale[0].compatibility, Compatibility::ModelChanged);
    let mut other = environment.clone();
    other.llama_server.help_hash = Some("2".to_string());
    let changed = validate_recommendation_file(&file, &test_identity(), &other);
    assert_eq!(changed.stale[0].compatibility, Compatibility::ServerChanged);
    assert!(!changed.environment_valid);
    let mut legacy = saved_file(&["balanced"]);
    legacy.model_identity = None;
    let legacy = validate_recommendation_file(&legacy, &test_identity(), &environment);
    assert_eq!(legacy.stale[0].compatibility, Compatibility::LegacyMissingIdentity);
}

#[test]
fn stale_profiles_are_not_served() {
    let environment = EnvironmentSnapshot::default();
    let file = saved_file(&["interactive-fast"]);
    let mut options = ServeOptions {
        profile: "interactive-fast".to_string(),
        port: 28_080,
        print_only: true,
        allow_stale: false,
    };
    let command = serve_command(&file, &options, &test_identity(), &environment).unwrap();
    assert_eq!(command, vec!["llama-server", "--port", "28080"]);
    match serve_command(&file, &options, &changed_identity(), &environment) {
        Err(ServeError::Stale(reason)) => assert!(reason.contains("model at this path changed")),
        _ => panic!("a changed model is served"),
    }
    options.allow_stale = true;
    assert!(serve_command(&file, &options, &changed_identity(), &environment).is_ok());
    options.profile = "missing".to_string();
    assert!(matches!(
        serve_command(&file, &options, &test_identity(), &environment),
        Err(ServeError::NotFound)
    ));
}

fn recommend_options(profile: Option<&str>) -> RecommendOptions {
    RecommendOptions {
        ctx_cap: None,
        preset: Preset::Quick,
        max_runs: None,
        profile: profile.map(str::to_string),
        goal: WorkloadGoal::Balanced,
        port: 99,
        safety: SafetyLimits::default(),
        port_start: 18_180,
        gpu_index: None,
        n_cpu_moe_values: vec![4],
        near_full_ingest: false,
        near_full_target_tokens: None,
        validate_best: false,
        confirm_best: true,
        agent: false,
        probe_mode: ProbeMode::Generic,
    }
}

#[test]
fn recommendations_follow_the_goal() {
    let environment = EnvironmentSnapshot::default();
    let file = saved_file(&["interactive-fast", "balanced"]);
    let pick = |profile: Option<&str>| {
        recommend_output(&file, &recommend_options(profile), &test_identity(), &environment)
            .unwrap()
    };
    let output = pick(None);
    assert_eq!(output.profile_id, "balanced");
    assert_eq!(output.profile_key, "/models/test.gguf#balanced");
    assert_eq!(output.command, "llama-server --port 99");
    assert_eq!(output.agent_schema_version, AGENT_SCHEMA_VERSION);
    assert!(output.environment_valid);
    assert_eq!(pick(Some("interactive-fast")).profile_id, "interactive-fast");
    assert_eq!(pick(Some("nothing")).profile_id, "interactive-fast");
    let none = saved_file(&[]);
    assert!(
        recommend_output(&none, &recommend_options(None), &test_identity(), &environment).is_none()
    );
    let tune = recommend_options(None).tune_options();
    assert_eq!(tune.n_cpu_moe_values, vec![4]);
    assert!(tune.confirm_best && !tune.plan_only);
}

#[test]
fn goals_and_labels_are_applied() {
    let mut file = saved_file(&["interactive-fast", "balanced"]);
    prioritize_goal(&mut file, WorkloadGoal::Balanced);
    assert_eq!(file.profiles[0].id, "balanced");
    assert_eq!(find_profile(&file, "interactive-fast"), Some(1));
    assert_eq!(profile_key("/m", &file.profiles[0]), "/m#balanced");
    assert_ne!(profile_key("/m", &file.profiles[0]), profile_key("/n", &file.profiles[0]));
    assert_ne!(profile_key("/m", &file.profiles[0]), profile_key("/m", &file.profiles[1]));
    file.profiles[1].measurement_count = 3;
    apply_confidence_labels(&mut file);
    assert_eq!(file.profiles[0].confidence, "provisional");
    assert_eq!(file.profiles[1].confidence, "confirmed");
    let coverage = search_coverage(Preset::Quick, 4, 2, &Vec::new(), false, false, 1);
    assert_eq!(coverage.planned_candidates, 4);
    assert_eq!(coverage.confirmation_runs, 1);
    assert_eq!(validation_level(Preset::Quick), ValidationLevel::Smoke);
    assert!(validates_best(Preset::Thorough, false) || validates_best(Preset::Thorough, true));
    assert!(validates_best(Preset::Quick, true));
}

#[test]
fn full_context_runs_start_from_a_saved_profile() {
    let environment = EnvironmentSnapshot::default();
    let file = saved_file(&["balanced"]);
    assert_eq!(
        saved_profile_run(&file, "balanced", &test_identity(), &environment).as_deref(),
        Some("run-balanced")
    );
    assert_eq!(saved_profile_run(&file, "other", &test_identity(), &environment), None);
    assert_eq!(saved_profile_run(&file, "balanced", &changed_identity(), &environment), None);
    let candidate = fullctx_candidate(&test_metadata(), 4096);
    assert_eq!(candidate.requested_context, 4096);
}

#[test]
fn stages_use_their_own_ports() {
    assert_eq!(stage_port(18_180, Stage::Search, 0, 3), Ok(18_183));
    assert_eq!(stage_port(18_180, Stage::Refinement, 4, 1), Ok(18_185));
    assert_eq!(stage_port(18_180, Stage::Confirmation, 4, 0), Ok(18_189));
    assert_eq!(stage_port(18_180, Stage::Validation, 4, 2), Ok(18_191));
    assert_eq!(
        stage_port(1, Stage::Validation, usize::MAX, 1),
        Err(PortError::OffsetTooLarge)
    );
    assert_eq!(stage_port(0, Stage::Search, 0, 0), Err(PortError::ZeroStart));
    assert_eq!(PortError::OutOfRange.message(), "port range exceeds 65535");
    assert_eq!(port_range(18_180), Ok((18_180, 19_179)));
    assert_eq!(port_range(65_000), Ok((65_000, 65_535)));
    assert_eq!(port_range(0), Err(PortError::ZeroStart));
    assert_eq!(
        RefinementSkip::NoBaseline.message(),
        "thread refinement: default-thread baseline did not pass"
    );
}

#[test]
fn prompts_follow_the_options() {
    let mut options = recommend_options(None).tune_options();
    assert_eq!(
        search_prompts(&options, 8_192),
        PromptPlan::Tune { ingest_target_tokens: 16_000, near_full_ingest_tokens: None }
    );
    options.near_full_ingest = true;
    assert_eq!(
        search_prompts(&options, 8_192),
        PromptPlan::Tune {
            ingest_target_tokens: 16_000,
            near_full_ingest_tokens: Some(near_full_ingest_target(8_192)),
        }
    );
    options.near_full_target_tokens = Some(5);
    assert_eq!(
        search_prompts(&options, 8_192),
        PromptPlan::Tune { ingest_target_tokens: 16_000, near_full_ingest_tokens: Some(5) }
    );
    assert_eq!(
        repeat_prompts(Preset::Standard),
        PromptPlan::Tune { ingest_target_tokens: 64_000, near_full_ingest_tokens: None }
    );
    assert!(is_countable(&PromptPlan::FullCtx { target_tokens: 5 }));
    assert!(!is_countable(&PromptPlan::FullCtx { target_tokens: u64::MAX }));
}

#[test]
fn validations_start_from_combined_measurements() {
    let limits = SafetyLimits::default();
    let mut runs = Vec::new();
    for rate in [10.0, 30.0] {
        let mut run = test_result(test_candidate("same", 1, 1, 1), Outcome::Pass, Some(4096));
        run.metrics.server_generation_toks_per_s = Some(measure(rate));
        run.metrics.server_prompt_eval_toks_per_s = Some(measure(100.0));
        runs.push(run);
    }
    let failed = test_result(test_candidate("bad", 1, 1, 1), Outcome::Oom, None);
    let refined = test_result(test_candidate("threads", 1, 1, 1), Outcome::Pass, Some(4096));
    runs[1].test_kind = "confirmation".to_string();
    let confirmed = vec![runs[1].clone(), failed.clone()];
    let baselines = validation_baselines(
        &vec![runs[0].clone(), failed],
        &Some(refined),
        &confirmed,
        &limits,
    );
    let ids = baselines.iter().map(|run| run.candidate.id.as_str()).collect::<Vec<_>>();
    assert_eq!(ids, vec!["same", "threads", "same"]);
    let sources = measurement_sources(&baselines, None, &limits, None);
    let scores = sources
        .iter()
        .map(|source| Score {
            generation: source.generation.map(|(low, high)| {
                measure((f64::from_bits(low.bits) + f64::from_bits(high.bits)) / 2.0)
            }),
            prompt: source.prompt.map(|(low, _)| low),
            balanced: measure(0.0),
        })
        .collect();
    let combined = combine_measurements(&baselines, &sources, &scores);
    assert_eq!(combined.len(), 2);
    assert_eq!(combined[0].metrics.server_generation_toks_per_s, Some(measure(20.0)));
    assert_eq!(combined[1].candidate.id, "threads");
}

#[test]
fn records_are_put_in_order() {
    let at = |seconds: i64, nanos: u32| Timestamp { seconds, nanos };
    assert_eq!(order_by_start(&vec![at(5, 0), at(1, 9), at(1, 2), at(5, 0)]), vec![2, 1, 0, 3]);
    let found = vec!["/a/recommendations.json".to_string(), "/a/models/x/r.json".to_string()];
    assert_eq!(order_recommendation_files(&found)[0], "/a/models/x/r.json");
    let seen = vec!["/m/a.gguf".to_string()];
    assert!(is_known_model(&seen, "/m/a.gguf"));
    assert!(is_known_model(&seen, "/m//a.gguf"));
    assert!(!is_known_model(&seen, "/m/b.gguf"));
}
