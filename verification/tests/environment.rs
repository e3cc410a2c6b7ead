use llama_cpp_profiler::environment::{
    capture_environment, compare_environment, parse_gpu_line, parse_meminfo_line, Compatibility,
    EnvironmentSnapshot, GpuInfo, HostReport, PROFILER_VERSION,
};

fn host() -> HostReport {
    HostReport {
        os: "linux".to_string(),
        arch: "x86_64".to_string(),
        cpu_brand: "".to_string(),
        cpuinfo: Some("processor : 0\nmodel name\t: Fast CPU\n".to_string()),
        meminfo: Some("MemTotal:       2048000 kB\nSwapTotal:       1024000 kB\n".to_string()),
        total_memory: 0,
        total_swap: 0,
        cpu_cores: Some(8),
        nvidia_report: Some("0, GPU, 24576, 550.1\n".to_string()),
        resolved_path: Some("/usr/bin/llama-server".to_string()),
        version_output: Some("version: 1\n".to_string()),
    }
}

#[test]
fn compares_environment_changes() {
    let mut current = EnvironmentSnapshot::default();
    current.llama_server.help_hash = Some("a".to_string());
    let mut same = current.clone();
    assert_eq!(compare_environment(Some(&same), &current), Compatibility::Current);

    same.llama_server.help_hash = Some("b".to_string());
    assert_eq!(compare_environment(Some(&same), &current), Compatibility::ServerChanged);

    same = current.clone();
    same.gpus.push(GpuInfo {
        index: 0,
        name: Some("GPU".to_string()),
        total_vram_mib: Some(1),
        driver_version: Some("1".to_string()),
    });
    assert_eq!(compare_environment(Some(&same), &current), Compatibility::HardwareChanged);
    assert_eq!(compare_environment(None, &current), Compatibility::LegacyMissingSnapshot);
}

#[test]
fn only_one_compatibility_is_current() {
    assert!(Compatibility::Current.is_current());
    for other in [
        Compatibility::LegacyMissingSnapshot,
        Compatibility::LegacyMissingIdentity,
        Compatibility::ServerChanged,
        Compatibility::HardwareChanged,
        Compatibility::ModelChanged,
    ] {
        assert!(!other.is_current());
        assert!(!other.reason().is_empty());
        assert_eq!(other.name(), format!("{other:?}"));
    }
    assert_eq!(Compatibility::default(), Compatibility::LegacyMissingSnapshot);
    assert!(Compatibility::ModelChanged.reason().contains("model at this path changed"));
}

#[test]
fn captured_environments_are_current() {
    let snapshot = capture_environment("llama-server", Some("--model --port"), &host());
    assert_eq!(snapshot.profiler_version, PROFILER_VERSION);
    assert_eq!(snapshot.cpu_cores, Some(8));
    assert_eq!(snapshot.ram_total_mib, Some(2000));
    assert_eq!(snapshot.swap_total_mib, Some(1000));
    assert_eq!(snapshot.gpus.len(), 1);
    assert_eq!(snapshot.gpus[0].total_vram_mib, Some(24576));
    assert!(snapshot.llama_server.usable);
    assert!(snapshot.llama_server.help_hash.is_some());
    assert_eq!(compare_environment(Some(&snapshot), &snapshot), Compatibility::Current);

    let without = capture_environment("llama-server", None, &host());
    assert!(!without.llama_server.usable);
    assert_eq!(compare_environment(Some(&snapshot), &without), Compatibility::ServerChanged);
}

#[test]
fn reads_memory_lines() {
    assert_eq!(parse_meminfo_line("MemTotal:       32768000 kB", "MemTotal:"), Some(32_768_000));
    assert_eq!(parse_meminfo_line("MemFree:        1 kB", "MemTotal:"), None);
    assert_eq!(parse_meminfo_line("MemTotal: many kB", "MemTotal:"), None);
}

#[test]
fn reads_gpu_lines() {
    let gpu = parse_gpu_line("1, NVIDIA RTX, 24564, 550.54").unwrap();
    assert_eq!(gpu.index, 1);
    assert_eq!(gpu.name.as_deref(), Some("NVIDIA RTX"));
    assert_eq!(gpu.total_vram_mib, Some(24564));
    assert_eq!(gpu.driver_version.as_deref(), Some("550.54"));
    assert!(parse_gpu_line("x, NVIDIA RTX").is_none());
}
