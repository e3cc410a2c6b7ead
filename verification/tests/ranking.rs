use llama_cpp_profiler::candidates::{
    candidate_risk, generate_candidates, generate_candidates_for_environment,
};
use llama_cpp_profiler::environment::{Compatibility, EnvironmentSnapshot, GpuInfo, ServerInfo};
use llama_cpp_profiler::gguf::{GgufMetadata, MetadataMap, ModelIdentity, ModelKind};
use llama_cpp_profiler::measure::Real;
use llama_cpp_profiler::profile::{
    command_display, shell_escape, ArtifactPaths, CandidateConfig, CandidateRisk, Outcome, Preset,
    ProfileResult, RealisticValidation, RecommendationFile, RunMetrics, SafetyLimits,
    TelemetryStatus, ValidationLevel, SCHEMA_VERSION,
};
use llama_cpp_profiler::ranking::{
    build_recommendations, build_recommendations_for_model, confidence, measurement_sources,
    passes_safety, violates_safety, Score,
};
use llama_cpp_profiler::time::Timestamp;

fn measure(value: f64) -> Real {
    Real { bits: value.to_bits() }
}

fn number(value: Real) -> f64 {
    f64::from_bits(value.bits)
}

fn now() -> Timestamp {
    Timestamp { seconds: 1_700_000_000, nanos: 0 }
}

fn fake_metadata(quant: Option<&str>) -> GgufMetadata {
    GgufMetadata {
        path: "/models/test.gguf".to_string(),
        file_name: "test.gguf".to_string(),
        file_size_bytes: 1,
        gguf_version: 3,
        tensor_count: 0,
        metadata_kv_count: 0,
        name: Some("test".to_string()),
        architecture: Some("llama".to_string()),
        size_label: None,
        native_context: Some(4096),
        block_count: Some(1),
        expert_count: None,
        expert_used_count: None,
        tokenizer_has_chat_template: false,
        quant: quant.map(str::to_string),
        file_type: None,
        model_kind: ModelKind::Dense,
        metadata: MetadataMap::new(),
    }
}

fn identity(gguf: &GgufMetadata) -> ModelIdentity {
    gguf.model_identity(&gguf.path, None, &b"{}".to_vec())
}

fn fake_environment() -> EnvironmentSnapshot {
    EnvironmentSnapshot {
        llama_server: ServerInfo {
            executable: "llama-server".to_string(),
            resolved_path: Some("/usr/bin/llama-server".to_string()),
            version: Some("test".to_string()),
            help_hash: Some("help".to_string()),
            usable: true,
            error: None,
        },
        ..EnvironmentSnapshot::default()
    }
}

fn fake_result(
    run_id: &str,
    gguf: &GgufMetadata,
    generation: f64,
    prompt: f64,
    free_vram: Option<u64>,
    outcome: Outcome,
) -> ProfileResult {
    ProfileResult {
        schema_version: SCHEMA_VERSION,
        run_id: run_id.to_string(),
        started_at: now(),
        ended_at: now(),
        model_path: gguf.path.clone(),
        model_size_bytes: gguf.file_size_bytes,
        model_identity: Some(identity(gguf)),
        gguf: gguf.clone(),
        quant: gguf.quant.clone(),
        command: vec!["llama-server".to_string()],
        command_display: "llama-server".to_string(),
        candidate: CandidateConfig {
            id: run_id.to_string(),
            requested_context: 4096,
            batch: None,
            ubatch: None,
            kv_cache: None,
            kv_cache_v: None,
            fit_target: None,
            gpu_layers: None,
            cpu_moe: false,
            n_cpu_moe: None,
            threads: None,
            threads_batch: None,
            expected_risk: CandidateRisk::Medium,
            note: String::new(),
            planning_note: String::new(),
        },
        test_kind: "tune".to_string(),
        requested_context: 4096,
        prompt_tokens: Some(100),
        completion_tokens: Some(100),
        metrics: RunMetrics {
            server_generation_toks_per_s: Some(measure(generation)),
            server_prompt_eval_toks_per_s: Some(measure(prompt)),
            min_free_vram_mib: free_vram,
            ..RunMetrics::default()
        },
        probes: Vec::new(),
        outcome,
        artifacts: ArtifactPaths {
            command: "command.sh".to_string(),
            server_log: "server.log".to_string(),
            telemetry_jsonl: "telemetry.jsonl".to_string(),
            request_json: "request.json".to_string(),
            response_json: "response.json".to_string(),
            result_json: "result.json".to_string(),
        },
        note: String::new(),
        environment: Some(fake_environment()),
        validation_level: ValidationLevel::StandardIngest,
        compatibility: Compatibility::Current,
        telemetry_status: TelemetryStatus::Measured,
        realistic_validation: None,
    }
}

fn middle(pair: Option<(Real, Real)>) -> Option<f64> {
    pair.map(|(low, high)| {
        if low == high {
            number(low)
        } else {
            (number(low) + number(high)) / 2.0
        }
    })
}

fn balanced(generation: Option<f64>, prompt: Option<f64>) -> f64 {
    let generation = generation.unwrap_or(0.0);
    let prompt = prompt.unwrap_or(0.0);
    if generation <= 0.0 || prompt <= 0.0 {
        return generation.max(prompt) * 0.5;
    }
    2.0 * generation * prompt / (generation + prompt)
}

fn scores(
    results: &Vec<ProfileResult>,
    identity: Option<&ModelIdentity>,
    environment: Option<&EnvironmentSnapshot>,
) -> Vec<Score> {
    measurement_sources(results, identity, &SafetyLimits::default(), environment)
        .iter()
        .map(|source| {
            let generation = middle(source.generation);
            let prompt = middle(source.prompt);
            Score {
                generation: generation.map(measure),
                prompt: prompt.map(measure),
                balanced: measure(balanced(generation, prompt)),
            }
        })
        .collect()
}

fn recommend(
    identity: Option<&ModelIdentity>,
    results: Vec<ProfileResult>,
    environment: &EnvironmentSnapshot,
) -> RecommendationFile {
    let scores = scores(&results, identity, Some(environment));
    build_recommendations_for_model(
        "/models/test.gguf",
        identity,
        &results,
        &scores,
        &SafetyLimits::default(),
        Some(environment),
        now(),
    )
}

#[test]
fn scoring_selects_expected_profiles() {
    let gguf = fake_metadata(Some("Q4_K_M"));
    let results = vec![
        fake_result("slow-safe", &gguf, 15.0, 900.0, Some(2048), Outcome::Pass),
        fake_result("fast-tight", &gguf, 40.0, 400.0, Some(128), Outcome::Pass),
        fake_result("oom", &gguf, 0.0, 0.0, None, Outcome::Oom),
    ];
    let environment = fake_environment();
    let scores = scores(&results, None, Some(&environment));
    let recs = build_recommendations(
        "/models/test.gguf",
        &None,
        &results,
        &scores,
        &SafetyLimits::default(),
        Some(&environment),
        now(),
    );

    let fast = recs.profiles.iter().find(|profile| profile.id == "interactive-fast").unwrap();
    assert_eq!(fast.source_run_id, "slow-safe");
    assert!(recs.rejected.iter().any(|run| run.run_id == "fast-tight"));
    assert!(recs.rejected.iter().any(|run| run.run_id == "oom"));
}

#[test]
fn generates_cpu_heavy_moe_candidates_first() {
    let mut metadata = fake_metadata(Some("Q4_K_M"));
    metadata.model_kind = ModelKind::Moe;
    metadata.expert_count = Some(16);
    let candidates = generate_candidates(&metadata, Preset::Standard, 262_144, Some(8));
    assert!(candidates[0].cpu_moe);
    assert!(candidates.iter().any(|candidate| candidate.cpu_moe));
    assert!(candidates.iter().any(|candidate| candidate.n_cpu_moe == Some(16)));
}

#[test]
fn placements_move_off_the_processor() {
    let mut metadata = fake_metadata(Some("Q4_K_M"));
    metadata.model_kind = ModelKind::Moe;
    metadata.expert_count = Some(40);
    let candidates = generate_candidates(&metadata, Preset::Standard, 32_768, None);
    let values: Vec<u64> = candidates
        .iter()
        .filter(|c| c.batch == Some(16384) && c.ubatch == Some(4096))
        .filter(|c| c.kv_cache.as_deref() == Some("q8_0"))
        .filter_map(|c| c.n_cpu_moe)
        .collect();
    assert_eq!(values, vec![40, 36, 34, 33, 32, 31, 30, 28, 24, 20, 10, 0]);
}

#[test]
fn plans_hold_no_id_twice() {
    let mut metadata = fake_metadata(Some("Q4_K_M"));
    for kind in [ModelKind::Dense, ModelKind::Moe] {
        metadata.model_kind = kind;
        metadata.expert_count = Some(40);
        let candidates = generate_candidates(&metadata, Preset::Standard, 262_144, None);
        for (i, candidate) in candidates.iter().enumerate() {
            assert!(!candidates[..i].iter().any(|other| other.id == candidate.id));
        }
    }
}

#[test]
fn candidates_start_at_requested_context_and_keep_lower_fallbacks() {
    let metadata = fake_metadata(Some("Q4_K_M"));
    let candidates = generate_candidates(&metadata, Preset::Quick, 262_144, None);

    assert_eq!(candidates.first().unwrap().requested_context, 262_144);
    assert!(candidates.iter().any(|candidate| candidate.requested_context == 131_072));
    assert!(candidates.iter().any(|candidate| candidate.requested_context == 65_536));
}

#[test]
fn risks_grow_with_the_model_and_fall_with_the_memory() {
    let risk = |model_mib: u64, vram: Option<u64>| {
        let mut metadata = fake_metadata(None);
        metadata.file_size_bytes = model_mib * 1024 * 1024;
        let mut environment = fake_environment();
        environment.gpus.push(GpuInfo {
            index: 0,
            name: Some("GPU".to_string()),
            total_vram_mib: vram,
            driver_version: None,
        });
        let candidates = generate_candidates_for_environment(
            &metadata,
            Preset::Standard,
            12_800,
            None,
            Some(&environment),
        );
        candidates
            .iter()
            .find(|c| c.id == "dense-q8_0-fit1536-b1024-ub256")
            .map(|c| c.expected_risk)
    };
    assert_eq!(risk(599, Some(1000)), Some(CandidateRisk::Low));
    assert_eq!(risk(600, Some(1000)), Some(CandidateRisk::Medium));
    assert_eq!(risk(800, Some(1000)), Some(CandidateRisk::High));
    assert_eq!(risk(600, Some(1001)), Some(CandidateRisk::Low));
    assert_eq!(risk(600, Some(777)), Some(CandidateRisk::High));
    assert_eq!(risk(600, None), Some(CandidateRisk::Medium));
    let mut candidate = fake_result("a", &fake_metadata(None), 1.0, 1.0, None, Outcome::Pass).candidate;
    assert_eq!(candidate_risk(&candidate, u64::MAX, Some(u64::MAX)), CandidateRisk::High);
    assert_eq!(candidate_risk(&candidate, 0, Some(1000)), CandidateRisk::Low);
    candidate.cpu_moe = true;
    assert_eq!(candidate_risk(&candidate, u64::MAX, Some(1)), CandidateRisk::Low);
    assert_eq!(candidate_risk(&candidate, u64::MAX, None), CandidateRisk::Low);
}

#[test]
fn stale_runs_are_excluded_from_recommendations() {
    let gguf = fake_metadata(Some("Q4_K_M"));
    let current = fake_environment();
    let mut stale_environment = current.clone();
    stale_environment.llama_server.help_hash = Some("changed".to_string());
    let mut stale = fake_result("stale-fast", &gguf, 100.0, 100.0, Some(4096), Outcome::Pass);
    stale.environment = Some(stale_environment);
    let current_run = fake_result("current-slow", &gguf, 10.0, 100.0, Some(4096), Outcome::Pass);
    let recs = recommend(None, vec![stale, current_run], &current);
    let fast = recs.profiles.iter().find(|profile| profile.id == "interactive-fast").unwrap();
    assert_eq!(fast.source_run_id, "current-slow");
    assert_eq!(recs.stale.len(), 1);
    assert_eq!(recs.stale[0].run_id, "stale-fast");
}

#[test]
fn legacy_results_are_retained_as_stale_but_never_scored() {
    let gguf = fake_metadata(Some("Q4_K_M"));
    let current_identity = identity(&gguf);
    let mut legacy = fake_result("legacy-fast", &gguf, 100.0, 100.0, Some(4096), Outcome::Pass);
    legacy.model_identity = None;
    let recs = recommend(Some(&current_identity), vec![legacy], &fake_environment());
    assert!(recs.profiles.is_empty());
    assert_eq!(recs.stale[0].compatibility, Compatibility::LegacyMissingIdentity);
}

#[test]
fn missing_vram_telemetry_is_unknown_and_not_interactive_safe() {
    let gguf = fake_metadata(Some("Q4_K_M"));
    let result = fake_result("no-telemetry", &gguf, 100.0, 100.0, None, Outcome::Pass);
    let recs = recommend(Some(&identity(&gguf)), vec![result], &fake_environment());
    let fast = recs.profiles.iter().find(|profile| profile.id == "interactive-fast").unwrap();
    assert_eq!(fast.risk, "unknown");
    assert!(!recs.profiles.iter().any(|profile| profile.id == "interactive-safe"));
}

fn with_candidate(mut run: ProfileResult, id: &str, kind: &str) -> ProfileResult {
    run.candidate.id = id.to_string();
    run.test_kind = kind.to_string();
    run
}

#[test]
fn confirmed_runs_count_by_their_median() {
    let gguf = fake_metadata(None);
    let mut runs = Vec::new();
    for (run, rate, kind) in
        [("a", 10.0, "tune"), ("b", 30.0, "confirmation"), ("c", 12.0, "confirmation")]
    {
        let result = fake_result(run, &gguf, rate, 100.0, Some(4096), Outcome::Pass);
        runs.push(with_candidate(result, "same", kind));
    }
    runs.push(fake_result("d", &gguf, 13.0, 100.0, Some(4096), Outcome::Pass));
    let sources = measurement_sources(
        &runs,
        None,
        &SafetyLimits::default(),
        Some(&fake_environment()),
    );
    assert_eq!(sources.len(), 2);
    assert_eq!(sources[0].measurement_count, 3);
    assert_eq!(middle(sources[0].generation), Some(12.0));
    let recs = recommend(None, runs, &fake_environment());
    let fast = recs.profiles.iter().find(|profile| profile.id == "interactive-fast").unwrap();
    assert_eq!(fast.source_run_id, "d");
}

#[test]
fn repeated_searches_count_run_by_run() {
    let gguf = fake_metadata(None);
    let first = fake_result("first", &gguf, 10.0, 100.0, Some(600), Outcome::Pass);
    let second = fake_result("second", &gguf, 30.0, 90.0, Some(4096), Outcome::Pass);
    let runs = vec![
        with_candidate(first, "same", "tune"),
        with_candidate(second, "same", "tune"),
    ];
    let recs = recommend(None, runs, &fake_environment());
    let of = |id: &str| recs.profiles.iter().find(|profile| profile.id == id).unwrap();
    assert_eq!(of("interactive-fast").source_run_id, "second");
    assert_eq!(of("interactive-fast").output_toks_per_s, Some(measure(30.0)));
    assert_eq!(of("interactive-fast").measurement_count, 1);
    assert_eq!(of("interactive-safe").source_run_id, "second");
    assert_eq!(of("interactive-safe").headroom_mib, Some(4096));
    assert_eq!(of("prompt-replay").source_run_id, "first");
}

#[test]
fn confirmations_join_the_run_that_they_repeat() {
    let gguf = fake_metadata(None);
    let run = |id: &str, rate: f64, kind: &str, context: u64| {
        let mut result = fake_result(id, &gguf, rate, 100.0, Some(4096), Outcome::Pass);
        result.candidate.requested_context = context;
        with_candidate(result, "same", kind)
    };
    let runs = vec![
        run("early", 10.0, "tune", 4096),
        run("late", 20.0, "tune", 4096),
        run("wide", 5.0, "tune", 8192),
        run("again", 30.0, "confirmation", 4096),
        run("alone", 7.0, "confirmation", 2048),
        run("alone-too", 9.0, "confirmation", 2048),
    ];
    let sources = measurement_sources(
        &runs,
        None,
        &SafetyLimits::default(),
        Some(&fake_environment()),
    );
    let found = sources
        .iter()
        .map(|source| (source.run, middle(source.generation), source.measurement_count))
        .collect::<Vec<_>>();
    assert_eq!(
        found,
        vec![(0, Some(10.0), 1), (1, Some(25.0), 2), (2, Some(5.0), 1), (4, Some(8.0), 2)]
    );
}

#[test]
fn every_run_of_a_measurement_needs_room() {
    let gguf = fake_metadata(None);
    let tune = fake_result("a", &gguf, 10.0, 100.0, Some(4096), Outcome::Pass);
    let tight = fake_result("b", &gguf, 10.0, 100.0, Some(600), Outcome::Pass);
    let runs = vec![
        with_candidate(tune, "same", "tune"),
        with_candidate(tight, "same", "confirmation"),
    ];
    let recs = recommend(None, runs, &fake_environment());
    assert!(recs.profiles.iter().any(|profile| profile.id == "interactive-fast"));
    assert!(!recs.profiles.iter().any(|profile| profile.id == "interactive-safe"));
}

#[test]
fn the_fastest_fit_run_is_recommended() {
    let gguf = fake_metadata(None);
    let runs = vec![
        fake_result("a", &gguf, 10.0, 500.0, Some(4096), Outcome::Pass),
        fake_result("b", &gguf, 20.0, 100.0, Some(600), Outcome::Pass),
        fake_result("c", &gguf, 5.0, 900.0, Some(4096), Outcome::Pass),
    ];
    let recs = recommend(None, runs, &fake_environment());
    let run_of = |id: &str| {
        recs.profiles.iter().find(|profile| profile.id == id).map(|p| p.source_run_id.clone())
    };
    assert_eq!(run_of("interactive-fast").as_deref(), Some("b"));
    assert_eq!(run_of("interactive-safe").as_deref(), Some("a"));
    assert_eq!(run_of("prompt-replay").as_deref(), Some("c"));
}

#[test]
fn limits_decide_what_is_safe() {
    let limits = SafetyLimits::default();
    let mut metrics = RunMetrics::default();
    assert!(!violates_safety(&metrics, &limits));
    metrics.min_free_vram_mib = Some(511);
    assert!(violates_safety(&metrics, &limits));
    metrics.min_free_vram_mib = Some(512);
    assert!(!violates_safety(&metrics, &limits));
    metrics.swap_delta_mib = Some(1025);
    assert!(violates_safety(&metrics, &limits));
    let gguf = fake_metadata(None);
    let tight = fake_result("t", &gguf, 1.0, 1.0, Some(4096), Outcome::TooTight);
    assert!(!passes_safety(&tight, &limits));
}

#[test]
fn confidence_grows_with_evidence() {
    assert_eq!(confidence(ValidationLevel::Smoke, 1, false), "provisional");
    assert_eq!(confidence(ValidationLevel::StandardIngest, 1, true), "benchmarked");
    assert_eq!(confidence(ValidationLevel::Realistic, 2, false), "confirmed");
    assert_eq!(confidence(ValidationLevel::Fullctx, 1, true), "full-context-validated");
}

#[test]
fn validated_runs_keep_the_count_of_their_baseline() {
    let gguf = fake_metadata(None);
    let mut runs = Vec::new();
    for (run, kind) in [("a", "tune"), ("b", "confirmation")] {
        let result = fake_result(run, &gguf, 10.0, 100.0, Some(4096), Outcome::Pass);
        runs.push(with_candidate(result, "same", kind));
    }
    let mut validated = fake_result("v", &gguf, 9.0, 90.0, Some(4096), Outcome::Pass);
    validated.test_kind = "realistic-validation".to_string();
    validated.validation_level = ValidationLevel::Realistic;
    validated.realistic_validation = Some(RealisticValidation {
        baseline_run_id: "a".to_string(),
        target_prompt_tokens: 1000,
        requested_output_tokens: 1024,
        actual_prompt_tokens: None,
        actual_output_tokens: None,
        prompt_retained_ratio: None,
        generation_retained_ratio: None,
        incomplete_generation: true,
    });
    runs.push(validated);
    let recs = recommend(None, runs, &fake_environment());
    assert_eq!(recs.profiles[0].source_run_id, "v");
    assert_eq!(recs.profiles[0].measurement_count, 2);
}

#[test]
fn commands_are_written_for_a_shell() {
    assert_eq!(shell_escape("plain-1.0"), "plain-1.0");
    assert_eq!(shell_escape("two words"), "'two words'");
    assert_eq!(shell_escape("it's"), "'it'\\''s'");
    assert_eq!(shell_escape(""), "");
    let command = vec!["llama-server".to_string(), "-m".to_string(), "a b".to_string()];
    assert_eq!(command_display(&command), "llama-server -m 'a b'");
}

#[test]
fn presets_bound_a_search() {
    assert_eq!(Preset::Quick.max_candidates(), 6);
    assert_eq!(Preset::Standard.max_candidates(), 16);
    assert_eq!(Preset::Thorough.max_candidates(), 48);
    assert_eq!(Preset::Quick.ingest_target_tokens(), 16_000);
    assert_eq!(Preset::Thorough.ingest_target_tokens(), 64_000);
    assert!(matches!(Preset::from_name("standard"), Some(Preset::Standard)));
    assert!(Preset::from_name("other").is_none());
    assert!(Outcome::Pass.is_usable());
    assert!(!Outcome::Oom.is_usable());
}
