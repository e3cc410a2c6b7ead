use llama_cpp_profiler::gguf::{
    format_bytes, infer_quant_from_filename, is_model_gguf, is_skipped_directory,
    latest_recommendation_label, quant_from_file_type, quant_from_match, read_metadata, resolve_model_path, scan_entries,
    stable_hash, GgufError, GgufMetadata, GgufValue, ModelKind, PathKind, ResolveError,
};
use llama_cpp_profiler::time::Timestamp;

fn write_key(file: &mut Vec<u8>, key: &str, kind: u32) {
    file.extend_from_slice(&(key.len() as u64).to_le_bytes());
    file.extend_from_slice(key.as_bytes());
    file.extend_from_slice(&kind.to_le_bytes());
}

fn write_kv_string(file: &mut Vec<u8>, key: &str, value: &str) {
    write_key(file, key, 8);
    file.extend_from_slice(&(value.len() as u64).to_le_bytes());
    file.extend_from_slice(value.as_bytes());
}

fn write_kv_u32(file: &mut Vec<u8>, key: &str, value: u32) {
    write_key(file, key, 4);
    file.extend_from_slice(&value.to_le_bytes());
}

fn head(version: u32, entries: u64) -> Vec<u8> {
    let mut file = b"GGUF".to_vec();
    file.extend_from_slice(&version.to_le_bytes());
    file.extend_from_slice(&0u64.to_le_bytes());
    file.extend_from_slice(&entries.to_le_bytes());
    file
}

fn test_gguf(name: &str, context: u32) -> Vec<u8> {
    let mut file = head(3, 3);
    write_kv_string(&mut file, "general.architecture", name);
    write_kv_string(&mut file, "general.name", name);
    write_kv_u32(&mut file, "llama.context_length", context);
    file
}

fn read(path: &str, bytes: &Vec<u8>) -> GgufMetadata {
    read_metadata(path, bytes.len() as u64, bytes).unwrap()
}

#[test]
fn infers_quant_from_common_file_names() {
    assert_eq!(
        infer_quant_from_filename("Qwopus-35B-A3B-Q4_K_P.gguf"),
        Some("Q4_K_P".to_string())
    );
    assert_eq!(infer_quant_from_filename("model-IQ4_XS.gguf"), Some("IQ4_XS".to_string()));
    assert_eq!(infer_quant_from_filename("thing.Q5_K_M.gguf"), Some("Q5_K_M".to_string()));
    assert_eq!(infer_quant_from_filename("qwen3-model.gguf"), None);
}

#[test]
fn parses_minimal_gguf_metadata() {
    let mut file = head(3, 6);
    write_kv_string(&mut file, "general.architecture", "qwen2");
    write_kv_string(&mut file, "general.name", "Tiny Test");
    write_kv_u32(&mut file, "general.file_type", 15);
    write_kv_u32(&mut file, "qwen2.context_length", 262_144);
    write_kv_u32(&mut file, "qwen2.expert_count", 16);
    write_kv_string(&mut file, "tokenizer.chat_template", "{{ messages }}");

    let metadata = read("/tmp/tiny.gguf", &file);
    assert_eq!(metadata.gguf_version, 3);
    assert_eq!(metadata.architecture.as_deref(), Some("qwen2"));
    assert_eq!(metadata.name.as_deref(), Some("Tiny Test"));
    assert_eq!(metadata.native_context, Some(262_144));
    assert_eq!(metadata.expert_count, Some(16));
    assert_eq!(metadata.quant.as_deref(), Some("Q4_K_M"));
    assert_eq!(metadata.model_kind, ModelKind::Moe);
    assert!(metadata.tokenizer_has_chat_template);
}

#[test]
fn profiler_state_isolated_for_models_in_one_directory() {
    let first = "/home/models/first.gguf";
    let second = "/home/models/second.gguf";
    let first_metadata = read(first, &test_gguf("first", 4096));
    let second_metadata = read(second, &test_gguf("second", 8192));
    assert_ne!(first_metadata.profiler_dir(first), second_metadata.profiler_dir(second));
    let directory = first_metadata.profiler_dir(first);
    let (parent, _) = directory.rsplit_once('/').unwrap();
    assert!(parent.ends_with("/models"));
    assert_eq!(
        first_metadata.model_identity(first, None, &b"{}".to_vec()).canonical_path,
        first
    );
    assert_eq!(
        first_metadata.legacy_profiler_dir(first),
        "/home/models/.llama-cpp-profiler"
    );
}

#[test]
fn refuses_what_is_not_a_model() {
    let wrong = b"NOPE\x03\x00\x00\x00".to_vec();
    assert_eq!(read_metadata("/m.gguf", 8, &wrong).unwrap_err(), GgufError::InvalidMagic);
    let mut cut = head(3, 1);
    write_key(&mut cut, "general.name", 8);
    assert!(matches!(read_metadata("/m.gguf", 1, &cut), Err(GgufError::UnexpectedEnd)));
    let mut odd = head(3, 1);
    write_key(&mut odd, "general.name", 77);
    let error = read_metadata("/m.gguf", 1, &odd).unwrap_err();
    assert_eq!(error, GgufError::UnsupportedValueType(77));
    assert_eq!(error.message(), "unsupported GGUF value type 77");
    for (kind, length, expected) in [
        (13u32, 1u64, GgufError::UnsupportedElementType(13)),
        (4, u64::MAX, GgufError::ArraySizeOverflow),
        (0, u64::MAX, GgufError::SkipTooLarge),
        (0, i64::MAX as u64, GgufError::SeekOverflow),
    ] {
        let mut array = head(3, 1);
        write_key(&mut array, "a", 9);
        array.extend_from_slice(&kind.to_le_bytes());
        array.extend_from_slice(&length.to_le_bytes());
        assert_eq!(read_metadata("/m.gguf", 1, &array).unwrap_err(), expected);
    }
    let mut text = head(3, 1);
    write_key(&mut text, "general.name", 8);
    text.extend_from_slice(&2u64.to_le_bytes());
    text.extend_from_slice(&[0xff, 0xfe]);
    assert_eq!(read_metadata("/m.gguf", 1, &text).unwrap_err(), GgufError::NotUtf8);
}

#[test]
fn reads_every_kind_of_value() {
    let mut file = head(2, 9);
    write_key(&mut file, "a", 0);
    file.push(200);
    write_key(&mut file, "b", 1);
    file.push(0xff);
    write_key(&mut file, "c", 5);
    file.extend_from_slice(&(-7i32).to_le_bytes());
    write_key(&mut file, "d", 6);
    file.extend_from_slice(&1.5f32.to_le_bytes());
    write_key(&mut file, "e", 7);
    file.push(1);
    write_key(&mut file, "f", 9);
    file.extend_from_slice(&4u32.to_le_bytes());
    file.extend_from_slice(&2u64.to_le_bytes());
    file.extend_from_slice(&[0; 8]);
    write_key(&mut file, "g", 10);
    file.extend_from_slice(&u64::MAX.to_le_bytes());
    write_key(&mut file, "h", 11);
    file.extend_from_slice(&i64::MIN.to_le_bytes());
    write_key(&mut file, "i", 12);
    file.extend_from_slice(&2.25f64.to_le_bytes());
    let metadata = read("/m.gguf", &file);
    let get = |key: &str| metadata.metadata.get(key);
    assert!(matches!(get("a"), Some(GgufValue::U64(200))));
    assert!(matches!(get("b"), Some(GgufValue::I64(-1))));
    assert!(matches!(get("c"), Some(GgufValue::I64(-7))));
    assert!(matches!(get("d"), Some(GgufValue::F64(x)) if f64::from_bits(x.bits) == 1.5));
    assert!(matches!(get("e"), Some(GgufValue::Bool(true))));
    assert!(get("f").is_none());
    assert!(matches!(get("g"), Some(GgufValue::U64(u64::MAX))));
    assert!(matches!(get("h"), Some(GgufValue::I64(i64::MIN))));
    assert!(matches!(get("i"), Some(GgufValue::F64(x)) if f64::from_bits(x.bits) == 2.25));
}

#[test]
fn what_follows_the_metadata_does_not_count() {
    let short = test_gguf("llama", 4096);
    let mut long = short.clone();
    long.extend_from_slice(&[7; 100]);
    let a = read_metadata("/m.gguf", 5, &short).unwrap();
    let b = read_metadata("/m.gguf", 5, &long).unwrap();
    assert_eq!(a, b);
}

#[test]
fn identities_tell_changes() {
    let metadata = read("/m.gguf", &test_gguf("llama", 4096));
    let time = Timestamp { seconds: 5, nanos: 0 };
    let id = metadata.model_identity("/m.gguf", Some(time), &b"{}".to_vec());
    assert!(id.is_same(&id.clone()));
    let later = metadata.model_identity("/m.gguf", None, &b"{}".to_vec());
    assert!(!id.is_same(&later));
    let other = metadata.model_identity("/m.gguf", Some(time), &b"{ }".to_vec());
    assert!(!id.is_same(&other));
    assert_eq!(stable_hash(""), "cbf29ce484222325");
    assert_eq!(stable_hash("a"), "af63dc4c8601ec8c");
}

#[test]
fn names_and_contexts_of_models() {
    let mut metadata = read("/m/Some-Model.gguf", &test_gguf("llama", 4096));
    assert_eq!(metadata.display_name(), "llama");
    metadata.name = None;
    assert_eq!(metadata.display_name(), "Some-Model");
    assert_eq!(metadata.context_or(None), 4096);
    assert_eq!(metadata.context_or(Some(1024)), 1024);
    assert_eq!(metadata.context_or(Some(1 << 30)), 4096);
}

#[test]
fn finds_model_files() {
    assert!(is_model_gguf("/models/a.gguf"));
    assert!(is_model_gguf("/models/A.GGUF"));
    assert!(!is_model_gguf("/models/a.bin"));
    assert!(!is_model_gguf("/models/mmproj-a.gguf"));
    assert!(is_skipped_directory(".llama-cpp-profiler"));
    assert!(!is_skipped_directory("models"));
}

#[test]
fn resolves_directories_to_the_largest_model() {
    let found = vec!["/m/a.gguf".to_string(), "/m/b.gguf".to_string(), "/m/c.gguf".to_string()];
    let sizes = vec![1, 9, 9];
    let chosen = resolve_model_path("/m", PathKind::Directory, &found, &sizes).unwrap();
    assert_eq!(chosen, "/m/b.gguf");
    assert!(matches!(
        resolve_model_path("/m/x.bin", PathKind::File, &Vec::new(), &Vec::new()),
        Err(ResolveError::NotModel)
    ));
    assert_eq!(ResolveError::NoModels.message("/m"), "no model GGUF files found under /m");
    let file = resolve_model_path("/m/x.gguf", PathKind::File, &Vec::new(), &Vec::new()).unwrap();
    assert_eq!(file, "/m/x.gguf");
    assert!(matches!(
        resolve_model_path("/m", PathKind::Directory, &Vec::new(), &Vec::new()),
        Err(ResolveError::NoModels)
    ));
    assert!(matches!(
        resolve_model_path("/m", PathKind::Missing, &Vec::new(), &Vec::new()),
        Err(ResolveError::DoesNotExist)
    ));
}

#[test]
fn labels_come_from_saved_recommendations() {
    let data = r#"{"profiles": [{"id": "balanced"}, {"id": "other"}]}"#;
    assert!(latest_recommendation_label(data).unwrap().contains("balanced"));
    assert_eq!(latest_recommendation_label("not json"), None);
    assert_eq!(latest_recommendation_label("{\"profiles\": []}"), None);
    let models = vec![read("/m/a.gguf", &test_gguf("llama", 4096))];
    let entries = scan_entries(&models, &vec![Some("label".to_string())]);
    assert_eq!(entries.len(), 1);
    assert_eq!(entries[0].file_name, "a.gguf");
    assert_eq!(entries[0].latest_recommendation.as_deref(), Some("label"));
}

#[test]
fn file_types_stand_for_distinct_quants() {
    let mut seen = Vec::new();
    for file_type in 0..50u32 {
        let mut file = head(3, 1);
        write_kv_u32(&mut file, "general.file_type", file_type);
        let quant = read("/models/plain.gguf", &file).quant;
        let named = file_type <= 38 && ![4, 5, 9].contains(&file_type);
        assert_eq!(quant.is_some(), named);
        if let Some(quant) = quant {
            assert!(!seen.contains(&quant));
            seen.push(quant);
        }
    }
    assert_eq!(seen.len(), 36);
    assert_eq!(quant_from_file_type(15).as_deref(), Some("Q4_K_M"));
    assert_eq!(quant_from_file_type(39), None);
}

#[test]
fn quants_come_from_matches() {
    assert_eq!(quant_from_match(&None), None);
    let found = Some(vec![Some("-q4_k_m".to_string()), Some("q4_k_m".to_string())]);
    assert_eq!(quant_from_match(&found).as_deref(), Some("Q4_K_M"));
}

fn rounded_size(bytes: u64) -> String {
    let units = ["B", "KiB", "MiB", "GiB", "TiB"];
    let mut value = bytes as f64;
    let mut unit = 0;
    while value >= 1024.0 && unit < units.len() - 1 {
        value /= 1024.0;
        unit += 1;
    }
    if unit == 0 {
        format!("{bytes} {}", units[unit])
    } else {
        format!("{value:.1} {}", units[unit])
    }
}

#[test]
fn sizes_are_written_to_one_decimal() {
    let mut n: u64 = 1;
    for step in 0..400u64 {
        for bytes in [n, n.saturating_sub(1), n.saturating_add(step)] {
            assert_eq!(format_bytes(bytes), rounded_size(bytes), "{bytes}");
        }
        n = n.wrapping_mul(6364136223846793005).wrapping_add(step) >> (step % 60);
    }
    for bytes in [0, 1023, 1024, 1536, 1_048_575, 1_048_576, u64::MAX, 1 << 53, (1 << 53) + 1] {
        assert_eq!(format_bytes(bytes), rounded_size(bytes), "{bytes}");
    }
}
