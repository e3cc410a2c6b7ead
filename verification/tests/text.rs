use llama_cpp_profiler::measure::{best_index, order_falling, widen, Real};
use llama_cpp_profiler::path::{file_name_of, join, parent_of, same_path};
use llama_cpp_profiler::text;

fn measure(value: f64) -> Real {
    Real { bits: value.to_bits() }
}

#[test]
fn texts_are_taken_apart() {
    assert_eq!(text::trimmed(" \t a b\u{a0}\n"), "a b");
    assert_eq!(text::trimmed_start("  a "), "a ");
    assert_eq!(text::trimmed_end("  a "), "  a");
    assert_eq!(text::split_at_char("a,,b", ','), vec!["a", "", "b"]);
    assert_eq!(text::split_lines("a\r\nb\n\nc"), vec!["a", "b", "", "c"]);
    assert_eq!(text::word("  two words").as_deref(), Some("two"));
    assert_eq!(text::strip_prefix("data: x", "data: ").as_deref(), Some("x"));
    assert_eq!(text::strip_prefix("x", "data: "), None);
    assert!(text::contains("hello", "ell"));
    assert!(!text::contains("hello", "elo"));
    assert!(text::has_suffix("a.gguf", ".gguf"));
}

#[test]
fn numbers_are_written_and_read() {
    for n in [0, 9, 10, 12345, u64::MAX] {
        assert_eq!(text::number(n), format!("{n}"));
        assert_eq!(text::parse_number(&text::number(n), u64::MAX), Some(n));
    }
    assert_eq!(text::parse_number("+7", u64::MAX), Some(7));
    assert_eq!(text::parse_number("", u64::MAX), None);
    assert_eq!(text::parse_number("256", 255), None);
    assert_eq!(text::parse_number("18446744073709551616", u64::MAX), None);
    assert_eq!(text::signed_number(i64::MIN), format!("{}", i64::MIN));
    assert_eq!(text::hex_number(0xabc, 16), "0000000000000abc");
}

#[test]
fn measurements_are_ordered() {
    assert!(measure(1.0).is_less(measure(2.0)));
    assert!(measure(-2.0).is_less(measure(-1.0)));
    assert!(!measure(0.0).is_less(measure(-0.0)));
    assert!(measure(0.0).is_at_most(measure(-0.0)));
    assert!(!measure(f64::NAN).is_less(measure(1.0)));
    assert!(measure(f64::NAN).is_nan());
    assert!(!measure(f64::INFINITY).is_finite());
    assert!(measure(0.1).is_positive() && !measure(0.0).is_positive());
    assert_eq!(best_index(&vec![measure(1.0), measure(3.0), measure(3.0)]), 2);
    assert_eq!(order_falling(&vec![measure(1.0), measure(3.0), measure(1.0)]), vec![1, 0, 2]);
    for value in [0.0f32, -0.0, 1.5, -2.75, 1e-40, f32::MAX, f32::INFINITY, 1.1] {
        assert_eq!(widen(value.to_bits()), measure(value as f64));
    }
}

#[test]
fn paths_are_taken_apart() {
    assert_eq!(parent_of("/a/b").as_deref(), Some("/a"));
    assert_eq!(parent_of("/"), None);
    assert_eq!(file_name_of("/a/b.gguf").as_deref(), Some("b.gguf"));
    assert_eq!(join("/a", "b"), "/a/b");
    assert!(same_path("/a//b/", "/a/b"));
    assert!(!same_path("/a/b", "/a/c"));
}
