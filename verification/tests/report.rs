use llama_cpp_profiler::environment::{Compatibility, EnvironmentSnapshot};
use llama_cpp_profiler::gguf::{GgufMetadata, MetadataMap, ModelKind};
use llama_cpp_profiler::measure::Real;
use llama_cpp_profiler::opencode::{
    model_key_for_opencode, model_label_for_opencode, opencode_entries, update_opencode_json,
    OpencodeEntry, OpencodeError,
};
use llama_cpp_profiler::profile::{
    Outcome, Preset, RealisticValidation, Recommendation, RecommendationFile, RejectedRun,
    SearchCoverage, StaleRun, TelemetryStatus, ValidationLevel, AGENT_SCHEMA_VERSION,
    SCHEMA_VERSION,
};
use llama_cpp_profiler::report::{
    agent_report, doctor_lines, escape_md, export_steps, fmt_mib, fmt_ms, fmt_u64, inspect_lines,
    kind_label, markdown_block, markdown_for_recommendations, report_header, report_lines,
    report_rows, scan_rows, tune_summary, update_managed_block, validation_label, ExportOptions,
    Figures,
};
use llama_cpp_profiler::time::Timestamp;

const START: &str = "<!-- llama-cpp-profiler:start -->";
const END: &str = "<!-- llama-cpp-profiler:end -->";

fn measure(value: f64) -> Real {
    Real { bits: value.to_bits() }
}

fn two_decimals(value: Option<Real>) -> String {
    value.map(|value| format!("{:.2}", f64::from_bits(value.bits))).unwrap_or_default()
}

fn percent(value: Option<Real>) -> String {
    value.map(|value| format!("{:.0}", f64::from_bits(value.bits) * 100.0)).unwrap_or_default()
}

fn figures(profile: &Recommendation) -> Figures {
    let validation = profile.realistic_validation.as_ref();
    Figures {
        output: two_decimals(profile.output_toks_per_s),
        prompt: two_decimals(profile.prompt_toks_per_s),
        minutes: format!("{:.2}", profile.ttft_ms.unwrap_or(0) as f64 / 60_000.0),
        prompt_retained: percent(validation.and_then(|v| v.prompt_retained_ratio)),
        generation_retained: percent(validation.and_then(|v| v.generation_retained_ratio)),
    }
}

fn all_figures(profiled: &[(GgufMetadata, RecommendationFile)]) -> Vec<Vec<Figures>> {
    profiled.iter().map(|(_, recs)| recs.profiles.iter().map(figures).collect()).collect()
}

fn metadata() -> GgufMetadata {
    GgufMetadata {
        path: "/models/test.gguf".to_string(),
        file_name: "test.gguf".to_string(),
        file_size_bytes: 1,
        gguf_version: 3,
        tensor_count: 0,
        metadata_kv_count: 0,
        name: Some("Test".to_string()),
        architecture: Some("llama".to_string()),
        size_label: None,
        native_context: Some(262_144),
        block_count: Some(1),
        expert_count: None,
        expert_used_count: None,
        tokenizer_has_chat_template: true,
        quant: Some("Q4_K_M".to_string()),
        file_type: None,
        model_kind: ModelKind::Dense,
        metadata: MetadataMap::new(),
    }
}

fn profile() -> Recommendation {
    Recommendation {
        id: "interactive-fast".to_string(),
        role: "fast".to_string(),
        source_run_id: "run".to_string(),
        source_candidate_id: "candidate".to_string(),
        source_test_kind: "tune".to_string(),
        model_identity: None,
        requested_context: 8192,
        validated_prompt_tokens: Some(7000),
        validation_level: ValidationLevel::Smoke,
        compatibility: Compatibility::Current,
        environment_valid: true,
        telemetry_status: TelemetryStatus::Measured,
        stale_reason: None,
        command: vec!["llama-server".to_string()],
        command_display: "llama-server".to_string(),
        output_toks_per_s: Some(measure(1.0)),
        prompt_toks_per_s: Some(measure(1.0)),
        ttft_ms: Some(1),
        peak_vram_mib: Some(1),
        headroom_mib: Some(1),
        confidence: "provisional".to_string(),
        measurement_count: 1,
        risk: "low".to_string(),
        note: String::new(),
        realistic_validation: None,
    }
}

fn recommendations(profiles: Vec<Recommendation>) -> RecommendationFile {
    RecommendationFile {
        schema_version: SCHEMA_VERSION,
        generated_at: Timestamp { seconds: 0, nanos: 0 },
        model_path: "/models/test.gguf".to_string(),
        model_identity: None,
        profiles,
        rejected: Vec::new(),
        stale: Vec::new(),
        environment: None,
        environment_valid: false,
        coverage: None,
        next_suggested_test: None,
    }
}

#[test]
fn managed_block_update_preserves_surrounding_text() {
    let existing = "before\n\n<!-- llama-cpp-profiler:start -->\nold\n<!-- llama-cpp-profiler:end -->\n\nafter\n";
    let updated = update_managed_block(existing, "new");
    assert!(updated.contains("before"));
    assert!(updated.contains("new"));
    assert!(!updated.contains("\nold\n"));
    assert!(updated.contains("after"));
    assert_eq!(updated, format!("before\n\n{START}\nnew\n{END}\n\nafter\n"));
}

#[test]
fn managed_block_is_added_at_the_end() {
    assert_eq!(update_managed_block("", "body"), format!("{START}\nbody\n{END}\n"));
    assert_eq!(update_managed_block(" \n", "body"), format!("{START}\nbody\n{END}\n"));
    assert_eq!(
        update_managed_block("notes\n", "body"),
        format!("notes\n\n{START}\nbody\n{END}\n")
    );
    let reversed = format!("{END} {START}");
    assert_eq!(
        update_managed_block(&reversed, "body"),
        format!("{END} {START}\n\n{START}\nbody\n{END}\n")
    );
}

#[test]
fn managed_block_updates_replace_each_other() {
    let existing = format!("a\n{START}\nold\n{END}\nb");
    let first = update_managed_block(&existing, "one");
    assert_eq!(update_managed_block(&first, "two"), update_managed_block(&existing, "two"));
    assert_eq!(update_managed_block(&first, "one"), first);
    let marked = update_managed_block(&existing, START);
    assert_eq!(update_managed_block(&marked, "two"), update_managed_block(&existing, "two"));
}

#[test]
fn opencode_update_preserves_provider_config() {
    let existing = r#"{
  "provider": {
    "llamacpp": {
      "npm": "@ai-sdk/openai-compatible",
      "name": "llama.cpp local",
      "options": {"baseURL": "http://127.0.0.1:18080/v1", "apiKey": "local"},
      "models": {"existing": {"name": "Existing"}}
    }
  },
  "permission": {"*": "allow"}
}"#;
    let entries = vec![OpencodeEntry {
        key: "new-model".to_string(),
        label: "New Model".to_string(),
        context: 262144,
    }];
    let updated = update_opencode_json(existing, &entries).unwrap();
    let value: serde_json::Value = serde_json::from_str(&updated).unwrap();
    assert_eq!(
        value
            .pointer("/provider/llamacpp/models/existing/name")
            .and_then(serde_json::Value::as_str),
        Some("Existing")
    );
    assert_eq!(
        value
            .pointer("/provider/llamacpp/models/new-model/limit/context")
            .and_then(serde_json::Value::as_u64),
        Some(262144)
    );
    assert_eq!(value.pointer("/permission/*").and_then(serde_json::Value::as_str), Some("allow"));
}

#[test]
fn opencode_update_fills_in_a_provider() {
    let entries = vec![OpencodeEntry {
        key: "m".to_string(),
        label: "M".to_string(),
        context: 1,
    }];
    let updated = update_opencode_json("{\"provider\": 3}", &entries).unwrap();
    assert!(updated.ends_with("}\n"));
    let value: serde_json::Value = serde_json::from_str(&updated).unwrap();
    let at = |path: &str| value.pointer(path).cloned();
    assert_eq!(
        at("/provider/llamacpp/npm").unwrap().as_str(),
        Some("@ai-sdk/openai-compatible")
    );
    assert_eq!(
        at("/provider/llamacpp/options/baseURL").unwrap().as_str(),
        Some("http://127.0.0.1:18080/v1")
    );
    assert_eq!(at("/provider/llamacpp/models/m/name").unwrap().as_str(), Some("M"));
    assert_eq!(at("/provider/llamacpp/models/m/limit/output").unwrap().as_u64(), Some(8192));
    assert!(update_opencode_json("null", &entries).is_ok());
    assert!(matches!(
        update_opencode_json("{", &entries),
        Err(OpencodeError::InvalidJson(_))
    ));
    assert!(update_opencode_json("[1]", &entries).is_err());
}

#[test]
fn opencode_updates_keep_whole_numbers() {
    let text = r#"{"least": -9223372036854775808, "most": 18446744073709551615, "list": [-3, 0]}"#;
    let before: serde_json::Value = serde_json::from_str(text).unwrap();
    let entries = Vec::new();
    let updated = update_opencode_json(text, &entries).unwrap();
    let after: serde_json::Value = serde_json::from_str(&updated).unwrap();
    assert!(updated.ends_with('\n'));
    for key in ["least", "most", "list"] {
        assert_eq!(after[key], before[key]);
    }
    assert_eq!(after["least"].as_i64(), Some(i64::MIN));
    assert_eq!(after["most"].as_u64(), Some(u64::MAX));
    let deep = |n: usize| format!("{{\"deep\": {}{}}}", "[".repeat(n), "]".repeat(n));
    let updated = update_opencode_json(&deep(126), &entries).unwrap();
    let after: serde_json::Value = serde_json::from_str(&updated).unwrap();
    let before: serde_json::Value = serde_json::from_str(&deep(126)).unwrap();
    assert_eq!(after["deep"], before["deep"]);
    assert!(matches!(
        update_opencode_json(&deep(127), &entries),
        Err(OpencodeError::InvalidJson(_))
    ));
}

#[test]
fn opencode_entries_use_validated_profile_context() {
    let recommendations = recommendations(vec![profile()]);
    let summary = tune_summary(&recommendations, &vec![figures(&recommendations.profiles[0])]);
    assert!(summary.contains("Selected profile: `interactive-fast`"));
    assert!(summary.contains("Generation throughput: 1.00 tok/s"));
    assert!(summary.contains("Prompt throughput: 1.00 tok/s"));
    assert!(summary.contains("Context: 8192 tokens"));
    assert!(summary.contains("VRAM headroom: 1 MiB"));
    assert!(summary.contains(
        "llama-cpp-profiler serve /models/test.gguf --profile interactive-fast --print"
    ));
    let entries = opencode_entries(&vec![(metadata(), recommendations)]);
    assert_eq!(entries[0].context, 8192);
}

#[test]
fn opencode_names_models() {
    let mut model = metadata();
    model.name = Some("My Big Model-v1.5 x y z".to_string());
    assert_eq!(
        model_key_for_opencode(&model, "balanced"),
        "my-big-model-v1-5-x-balanced"
    );
    assert!(model_label_for_opencode(&model, "balanced").contains("Q4_K_M"));
    model.name = Some("Model q4_k_m".to_string());
    assert!(!model_label_for_opencode(&model, "balanced").contains("Q4_K_M"));
}

#[test]
fn summaries_fall_back_to_the_first_profile() {
    let mut other = profile();
    other.id = "balanced".to_string();
    other.output_toks_per_s = None;
    let file = recommendations(vec![other]);
    let summary = tune_summary(&file, &vec![figures(&file.profiles[0])]);
    assert!(summary.contains("Selected profile: `balanced`"));
    assert!(summary.contains("Generation throughput: - tok/s"));
    let none = tune_summary(&recommendations(Vec::new()), &Vec::new());
    assert_eq!(
        none,
        "## Tune summary\n\nNo usable best observed configuration was produced."
    );
}

#[test]
fn markdown_reports_hold_a_table_and_notes() {
    let mut best = profile();
    best.role = "a|b".to_string();
    best.ttft_ms = Some(90_000);
    best.realistic_validation = Some(RealisticValidation {
        baseline_run_id: "run".to_string(),
        target_prompt_tokens: 2000,
        requested_output_tokens: 1024,
        actual_prompt_tokens: Some(1900),
        actual_output_tokens: None,
        prompt_retained_ratio: Some(measure(0.5)),
        generation_retained_ratio: None,
        incomplete_generation: true,
    });
    let mut file = recommendations(vec![best]);
    file.rejected.push(RejectedRun {
        run_id: "r1".to_string(),
        candidate_id: "c1".to_string(),
        outcome: Outcome::Oom,
        reason: "out of memory".to_string(),
    });
    file.stale.push(StaleRun {
        run_id: "r2".to_string(),
        candidate_id: "c2".to_string(),
        compatibility: Compatibility::ServerChanged,
        reason: "changed".to_string(),
    });
    file.next_suggested_test = Some("more".to_string());
    let text = markdown_for_recommendations(&file, &vec![figures(&file.profiles[0])]);
    let expected = "# llama.cpp profiler best observed configurations\n\n\
        Model: `/models/test.gguf`\n\n\
        | Profile | Role | Output tok/s | Prompt tok/s | TTFT | Peak VRAM | Headroom | Risk | Validation | Command |\n\
        |---|---|---:|---:|---:|---:|---:|---|---|---|\n\
        | `interactive-fast` | a\\|b | 1.00 | 1.00 | 1.50m | 1 MiB | 1 MiB | low | smoke | `llama-server` |\n\n\
        ## Realistic validation\n\n\
        - Prompt: 1900 actual / 2000 target tokens; retained throughput: 50%\n\
        - Output: unknown actual / 1024 requested tokens; retained throughput: unknown; sustained generation: incomplete (early EOS)\n\n\
        ## Rejected\n\n\
        - `r1` / `c1`: Oom - out of memory\n\n\
        ## Stale\n\n\
        - `r2` / `c2`: ServerChanged - changed\n\n\
        Next suggested test: more\n";
    assert_eq!(text, expected);
}

fn two_models() -> Vec<(GgufMetadata, RecommendationFile)> {
    let mut slow = profile();
    slow.output_toks_per_s = None;
    let mut fast = profile();
    fast.id = "balanced".to_string();
    fast.output_toks_per_s = Some(measure(50.0));
    fast.confidence = String::new();
    fast.measurement_count = 2;
    fast.command_display = "llama-server --fast".to_string();
    let first = recommendations(vec![slow, fast]);
    let mut second_file = recommendations(vec![profile()]);
    second_file.next_suggested_test = Some("again".to_string());
    second_file.coverage = Some(SearchCoverage {
        preset: Preset::Quick,
        planned_candidates: 3,
        tested_candidates: 2,
        searched_dimensions: vec!["batch".to_string()],
        not_searched_dimensions: Vec::new(),
        confirmation_runs: 0,
    });
    for i in 0..14 {
        second_file.rejected.push(RejectedRun {
            run_id: format!("r{i}"),
            candidate_id: format!("c{i}"),
            outcome: Outcome::Timeout,
            reason: "slow".to_string(),
        });
    }
    second_file.stale.push(StaleRun {
        run_id: "s".to_string(),
        candidate_id: "old".to_string(),
        compatibility: Compatibility::HardwareChanged,
        reason: "new GPU".to_string(),
    });
    let mut second = metadata();
    second.path = "/models/other.gguf".to_string();
    second.file_name = "other.gguf".to_string();
    vec![(metadata(), first), (second, second_file)]
}

#[test]
fn agent_reports_put_the_fastest_first() {
    let profiled = two_models();
    let report = agent_report(&profiled, &all_figures(&profiled));
    assert_eq!(report.agent_schema_version, AGENT_SCHEMA_VERSION);
    assert_eq!(
        report.best_profile_ids,
        vec![
            "/models/test.gguf#balanced".to_string(),
            "/models/other.gguf#interactive-fast".to_string(),
            "/models/test.gguf#interactive-fast".to_string(),
        ]
    );
    assert_eq!(report.exact_command.as_deref(), Some("llama-server --fast"));
    assert_eq!(report.confidence.as_deref(), Some("confirmed"));
    assert_eq!(report.key_metrics[0].confidence, "confirmed");
    assert_eq!(report.key_metrics[1].confidence, "provisional");
    assert_eq!(report.key_metrics.len(), 3);
    assert_eq!(
        report.key_metrics[0].why,
        "balanced; out 50.00; prompt 1.00; headroom 1 MiB"
    );
    assert_eq!(report.failures.len(), 12);
    assert_eq!(report.failures[0], "other.gguf c0 Timeout: slow");
    assert_eq!(
        report.stale_profiles,
        vec!["other.gguf old HardwareChanged: new GPU".to_string()]
    );
    assert_eq!(report.coverage.len(), 1);
    assert_eq!(report.coverage[0].model_path, "/models/other.gguf");
    assert_eq!(report.next_suggested_test.as_deref(), Some("again"));
    let none = agent_report(&Vec::new(), &Vec::new());
    assert_eq!(none.exact_command, None);
    assert!(none.key_metrics.is_empty());
}

#[test]
fn blocks_list_all_profiles() {
    let profiled = two_models();
    let block = markdown_block(&profiled, &all_figures(&profiled));
    let lines: Vec<&str> = block.lines().collect();
    assert_eq!(lines.len(), 7);
    assert_eq!(lines[0], "## llama.cpp profiler");
    assert!(lines[4].starts_with("| `test.gguf` | `balanced` | fast | 50.00 |"));
    assert!(lines[6].contains("| - | 1.00 |"));
}

#[test]
fn printed_reports_hold_rows_and_lines() {
    let profiled = two_models();
    let figures = all_figures(&profiled);
    assert_eq!(report_header().len(), 11);
    let rows = report_rows(&profiled, &figures, false);
    assert_eq!(rows.len(), 3);
    assert_eq!(rows[1][1], "balanced");
    let rows = report_rows(&profiled, &figures, true);
    assert_eq!(rows.len(), 4);
    assert_eq!(rows[3][1], "stale:old");
    assert_eq!(rows[3][8], "hardwarechanged");
    let lines = report_lines(&profiled, &figures);
    assert_eq!(
        lines[0],
        "test.gguf native context: 262144; validated server context: 8192, 8192; validated prompt tokens: 7000, 7000; telemetry: measured"
    );
    assert_eq!(lines[2], "\nother.gguf rejected runs:");
    assert_eq!(lines[3], "  r0 / c0: Timeout - slow");
    assert_eq!(lines.len(), 3 + 12 + 1);
    assert_eq!(lines[15], "other.gguf next: again");
}

#[test]
fn validated_profiles_get_a_line() {
    let mut best = profile();
    best.validated_prompt_tokens = None;
    best.telemetry_status = TelemetryStatus::Unknown;
    best.realistic_validation = Some(RealisticValidation {
        baseline_run_id: "run".to_string(),
        target_prompt_tokens: 10,
        requested_output_tokens: 20,
        actual_prompt_tokens: Some(9),
        actual_output_tokens: Some(20),
        prompt_retained_ratio: Some(measure(0.876)),
        generation_retained_ratio: Some(measure(1.0)),
        incomplete_generation: false,
    });
    let profiled = vec![(metadata(), recommendations(vec![best]))];
    let lines = report_lines(&profiled, &all_figures(&profiled));
    assert!(lines[0].ends_with("validated prompt tokens: unknown; telemetry: unknown; safety not validated"));
    assert_eq!(
        lines[1],
        "test.gguf realistic validation: prompt 9/10 tokens (88% retained); output 20/20 tokens (100% retained; complete)"
    );
}

#[test]
fn figures_are_written() {
    assert_eq!(fmt_u64(None), "unknown");
    assert_eq!(fmt_u64(Some(12)), "12");
    assert_eq!(fmt_ms(None, ""), "-");
    assert_eq!(fmt_ms(Some(59_999), "9.99"), "59999 ms");
    assert_eq!(fmt_ms(Some(60_000), "1.00"), "1.00m");
    assert_eq!(fmt_mib(None), "-");
    assert_eq!(fmt_mib(Some(7)), "7 MiB");
    assert_eq!(escape_md("a|b"), "a\\|b");
    assert_eq!(validation_label(ValidationLevel::StandardIngest), "standard-ingest");
    assert_eq!(kind_label(ModelKind::Moe), "moe");
}

#[test]
fn models_and_machines_are_described() {
    let model = metadata();
    let rows = scan_rows(&vec![model.clone()]);
    assert_eq!(rows, vec![vec![
        "/models/test.gguf".to_string(),
        "1 B".to_string(),
        "llama".to_string(),
        "dense".to_string(),
        "Q4_K_M".to_string(),
        "262144".to_string(),
    ]]);
    let lines = inspect_lines(&model, 4);
    assert_eq!(lines[0], "path: /models/test.gguf");
    assert_eq!(lines[7], "chat template: present");
    assert_eq!(lines[8], "MoE experts: -/-");
    assert_eq!(lines[9], "prior runs: 4");
    let machine = doctor_lines(&EnvironmentSnapshot::default());
    assert_eq!(machine[2], "llama-server: unavailable");
    assert_eq!(machine[3], "gpus: 0");
}

#[test]
fn exports_write_only_when_asked() {
    let steps = export_steps(&ExportOptions {
        markdown: false,
        opencode: None,
        dry_run: false,
        write: false,
    });
    assert!(steps.dry_run && steps.print_block && !steps.markdown);
    let steps = export_steps(&ExportOptions {
        markdown: true,
        opencode: Some("/c.json".to_string()),
        dry_run: false,
        write: true,
    });
    assert!(!steps.dry_run && !steps.print_block && steps.markdown);
    assert_eq!(steps.opencode.as_deref(), Some("/c.json"));
}
