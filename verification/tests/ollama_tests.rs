use jarvis_core::ollama::{chars_less, is_model_available, sorted_model_names};
use jarvis_core::text::chars_of;

#[test]
fn names_are_sorted_and_deduplicated() {
    let names = vec!["qwen3:8b", "bambucha/saiga-llama3", "qwen3:4b", "qwen3:8b", "Z"]
        .into_iter()
        .map(String::from)
        .collect::<Vec<_>>();
    let mut expected = names.clone();
    expected.sort();
    expected.dedup();
    assert_eq!(sorted_model_names(names), expected);
}

#[test]
fn empty_list_stays_empty() {
    assert!(sorted_model_names(Vec::new()).is_empty());
}

#[test]
fn order_does_not_matter() {
    let a = sorted_model_names(vec!["b".into(), "a".into(), "c".into()]);
    let b = sorted_model_names(vec!["c".into(), "b".into(), "a".into(), "a".into()]);
    assert_eq!(a, b);
    assert_eq!(a, vec!["a", "b", "c"]);
}

#[test]
fn non_ascii_names_follow_str_order() {
    let names: Vec<String> = vec!["ё".into(), "я".into(), "а".into(), "z".into(), "".into()];
    let mut expected = names.clone();
    expected.sort();
    assert_eq!(sorted_model_names(names), expected);
}

#[test]
fn prefix_comes_first() {
    assert!(chars_less(&chars_of("qwen"), &chars_of("qwen3")));
    assert!(!chars_less(&chars_of("qwen3"), &chars_of("qwen")));
    assert!(!chars_less(&chars_of("same"), &chars_of("same")));
}

#[test]
fn availability_is_exact_match() {
    let models = vec!["qwen3:8b".to_string()];
    assert!(is_model_available("qwen3:8b", &models));
    assert!(!is_model_available("qwen3", &models));
    assert!(!is_model_available("qwen3:8b", &[]));
}
