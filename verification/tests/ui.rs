use llama_cpp_profiler::gguf::{ModelKind, ScanEntry};
use llama_cpp_profiler::ui::{
    entry_texts, filtered_indices, status_text, Key, PickerAction, PickerState,
};

fn entry(name: &str, quant: Option<&str>) -> ScanEntry {
    ScanEntry {
        path: format!("/models/{name}"),
        file_name: name.to_string(),
        file_size_bytes: 2048,
        architecture: Some("llama".to_string()),
        quant: quant.map(str::to_string),
        model_kind: ModelKind::Dense,
        native_context: Some(4096),
        latest_recommendation: None,
    }
}

fn entries() -> Vec<ScanEntry> {
    vec![entry("Alpha.gguf", Some("Q4_K_M")), entry("beta.gguf", None), entry("gamma.gguf", None)]
}

#[test]
fn searches_ignore_case() {
    let all = entries();
    assert_eq!(filtered_indices(&all, "  "), vec![0, 1, 2]);
    assert_eq!(filtered_indices(&all, "ALPHA"), vec![0]);
    assert_eq!(filtered_indices(&all, "q4_k"), vec![0]);
    assert_eq!(filtered_indices(&all, "models/"), vec![0, 1, 2]);
    assert_eq!(filtered_indices(&all, "mma"), vec![2]);
    assert!(filtered_indices(&all, "nothing").is_empty());
}

#[test]
fn longer_searches_show_less() {
    let all = entries();
    for search in ["", " ", "a", "al", "AL", "models/", "mm"] {
        for more in ["", " ", "p", "a"] {
            let longer = filtered_indices(&all, &format!("{search}{more}"));
            let shorter = filtered_indices(&all, search);
            assert!(longer.iter().all(|place| shorter.contains(place)));
        }
        assert_eq!(filtered_indices(&all, search), filtered_indices(&all, &search.to_lowercase()));
    }
}

#[test]
fn keys_move_and_choose() {
    let all = entries();
    let mut state = PickerState::new();
    let shown = filtered_indices(&all, &state.search);
    for _ in 0..5 {
        assert_eq!(state.press(Key::Down, &shown), PickerAction::Continue);
    }
    assert_eq!(state.selected, 2);
    state.press(Key::Up, &shown);
    assert_eq!(state.press(Key::Enter, &shown), PickerAction::Choose(Some(1)));
    assert_eq!(state.press(Key::Char('g'), &shown), PickerAction::Continue);
    assert_eq!(state.search, "g");
    assert_eq!(state.selected, 0);
    state.selected = 2;
    let shown = filtered_indices(&all, "gam");
    state.settle(shown.len());
    assert_eq!(state.selected, 0);
    assert_eq!(state.press(Key::Enter, &shown), PickerAction::Choose(Some(2)));
    state.press(Key::Backspace, &shown);
    assert_eq!(state.search, "");
    state.press(Key::Backspace, &shown);
    assert_eq!(state.press(Key::Other, &shown), PickerAction::Continue);
    assert_eq!(state.press(Key::Enter, &Vec::new()), PickerAction::Choose(None));
    assert_eq!(state.press(Key::Char('q'), &shown), PickerAction::Quit);
    assert_eq!(state.press(Key::Escape, &shown), PickerAction::Quit);
}

#[test]
fn entries_are_described() {
    let all = entries();
    assert_eq!(
        entry_texts(&all[0]),
        vec!["Alpha.gguf", "2.0 KiB", "Q4_K_M", "dense", "no recommendation"]
    );
    assert_eq!(
        status_text(&all, &vec![1], 0),
        "no saved recommendation\narch: llama  ctx: 4096  path: /models/beta.gguf\nEnter select  arrows move  q quit"
    );
    assert_eq!(
        status_text(&all, &Vec::new(), 0),
        "No matches\nEnter select  arrows move  q quit"
    );
}
