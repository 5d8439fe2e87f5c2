use jarvis_core::transcript::{clean_transcript, strip_annotations};

#[test]
fn strip_removes_bracketed_annotations() {
    assert_eq!(strip_annotations("[BLANK_AUDIO] привет (музыка) мир"), " привет  мир");
    assert_eq!(strip_annotations("a [b (c) d] e"), "a  e");
    assert_eq!(strip_annotations("unmatched ] close ) here"), "unmatched  close  here");
    assert_eq!(strip_annotations("open [never closed"), "open ");
}

#[test]
fn strip_keeps_plain_text() {
    assert_eq!(strip_annotations("plain text"), "plain text");
}

#[test]
fn clean_reflows_lines_and_drops_markers() {
    let markers = vec!["<|endoftext|>".to_string(), "[_TT_".to_string()];
    let raw = "  Привет, [BLANK_AUDIO] как дела?\r\n\n(music)\n  это <|endoftext|>тест  \n";
    assert_eq!(clean_transcript(raw, &markers), "Привет, как дела? это тест");
}

#[test]
fn clean_of_only_noise_is_empty() {
    assert_eq!(clean_transcript("[BLANK_AUDIO]\n(тишина)\n\n", &[]), "");
    assert_eq!(clean_transcript("", &[]), "");
}

#[test]
fn marker_replacement_happens_before_stripping() {
    let markers = vec!["]".to_string()];
    // the closing bracket is replaced first, so the annotation never ends
    assert_eq!(clean_transcript("a [b] c", &markers), "a");
}

#[test]
fn clean_output_is_one_line_of_words() {
    let out = clean_transcript("x\t\ty\n[z]\n  w  ", &[]);
    assert_eq!(out, "x y w");
    assert!(!out.contains("  ") && !out.contains('[') && out.trim() == out);
}

#[test]
fn cleaning_twice_changes_nothing() {
    let markers = vec!["<|endoftext|>".to_string(), "[_TT_".to_string()];
    let raw = "  Привет, [BLANK_AUDIO] как\tдела?\r\n\n(music)\n  это <|endoftext|>тест  \n";
    let once = clean_transcript(raw, &markers);
    assert_eq!(once, "Привет, как дела? это тест");
    assert_eq!(clean_transcript(&once, &markers), once);
    assert_eq!(once.split_whitespace().collect::<Vec<_>>().join(" "), once);
    assert_eq!(clean_transcript("", &markers), "");
    assert_eq!(clean_transcript(&clean_transcript("", &markers), &markers), "");
}
