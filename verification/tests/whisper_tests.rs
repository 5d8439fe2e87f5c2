use jarvis_core::whisper::{
    check_sample_count, configured_or_found, ensure_init, is_available, is_ggml_model_name, model_name_candidates,
    resolve_setup, run_outcome, setting, setup, transcript_outcome, unavailable_reason,
    whisper_args, whisper_enabled, whisper_language, whisper_prompt, WhisperError, WhisperSetup,
    WhisperState,
};

fn some(s: &str) -> Option<String> {
    Some(s.to_string())
}

#[test]
fn settings_are_trimmed_and_blank_is_absent() {
    assert_eq!(setting(some("  x ")), some("x"));
    assert_eq!(setting(some("   ")), None);
    assert_eq!(setting(None), None);
}

#[test]
fn whisper_is_enabled_by_default() {
    assert!(whisper_enabled(None));
    assert!(!whisper_enabled(Some(false)));
}

#[test]
fn language_choice() {
    assert_eq!(whisper_language(some(" de "), "ru"), "de");
    assert_eq!(whisper_language(None, "ru"), "ru");
    assert_eq!(whisper_language(some(""), "ua"), "uk");
    assert_eq!(whisper_language(None, "en"), "en");
    assert_eq!(whisper_language(None, "fr"), "auto");
}

#[test]
fn prompt_choice() {
    assert_eq!(whisper_prompt(some("Терра"), "default"), some("Терра"));
    assert_eq!(whisper_prompt(None, "  default "), some("default"));
    assert_eq!(whisper_prompt(some(" "), "  "), None);
}

#[test]
fn unavailable_reasons() {
    assert_eq!(unavailable_reason(false, "C:/w"), "Whisper выключен в настройках (whisper_enabled = false).");
    assert_eq!(
        unavailable_reason(true, "C:/w"),
        "Не найден whisper-cli или модель в 'C:/w'. Перезапусти Start-Terra.bat: он скачивает Whisper автоматически. Папка не удаляется при обновлении проекта."
    );
}

#[test]
fn setup_is_resolved_once() {
    let mut state = WhisperState::new();
    assert!(!is_available(&state));
    assert!(setup(&state).is_none());
    let found = WhisperSetup { exe: "whisper-cli".into(), model: "ggml-small.bin".into() };
    assert!(ensure_init(&mut state, move || Some(found)));
    assert!(is_available(&state));
    assert!(ensure_init(&mut state, || None));
    assert_eq!(setup(&state).unwrap().model, "ggml-small.bin");
}

#[test]
fn unavailable_setup_stays_unavailable() {
    let mut state = WhisperState::new();
    assert!(!ensure_init(&mut state, || None));
    let later = WhisperSetup { exe: "a".into(), model: "b".into() };
    assert!(!ensure_init(&mut state, move || Some(later)));
    assert!(!is_available(&state));
}

#[test]
fn configured_path_wins_when_it_is_a_file() {
    let is_file = |p: &String| p.as_str() == "/ok";
    assert_eq!(configured_or_found(some("/ok"), &is_file, || some("/found")), some("/ok"));
    assert_eq!(configured_or_found(some("/missing"), &is_file, || some("/found")), some("/found"));
    assert_eq!(configured_or_found(None, &is_file, || None), None);
}

#[test]
fn setup_resolution() {
    let is_file = |p: &String| p.ends_with(".bin") || p.ends_with(".exe");
    let s = resolve_setup(true, some("w.exe"), None, is_file, || some("x"), || some("m.bin")).unwrap();
    assert_eq!((s.exe.as_str(), s.model.as_str()), ("w.exe", "m.bin"));
    assert!(resolve_setup(false, some("w.exe"), some("m.bin"), is_file, || None, || None).is_none());
    assert!(resolve_setup(true, None, some("m.bin"), is_file, || None, || some("z")).is_none());
    assert!(resolve_setup(true, some("w.exe"), some("nope"), is_file, || None, || None).is_none());
}

#[test]
fn model_names_to_look_for() {
    let defaults = vec!["ggml-small.bin".to_string(), "ggml-base.bin".to_string()];
    assert_eq!(model_name_candidates(some(" ggml-large.bin "), &defaults), vec!["ggml-large.bin", "ggml-small.bin", "ggml-base.bin"]);
    assert_eq!(model_name_candidates(some(" "), &defaults), defaults);
    assert_eq!(model_name_candidates(None, &[]), Vec::<String>::new());
}

#[test]
fn ggml_model_names() {
    for name in ["ggml-small.bin", "GGML-Small.BIN", "ggml-.bin", "ggml-x.bin"] {
        assert!(is_ggml_model_name(name), "{name}");
        let lower = name.to_lowercase();
        assert!(lower.starts_with("ggml-") && lower.ends_with(".bin"));
    }
    for name in ["ggml.bin", "small.bin", "ggml-small.bin.part", "", "ggml-", "ggml-bin", "\u{212a}ggml-a.bin"] {
        assert!(!is_ggml_model_name(name), "{name}");
        let lower = name.to_lowercase();
        assert!(!(lower.starts_with("ggml-") && lower.ends_with(".bin")));
    }
}

#[test]
fn command_line() {
    let args = whisper_args("m.bin", "a.wav", "ru", "4", "5", some("Терра"));
    assert_eq!(args, vec!["-m", "m.bin", "-f", "a.wav", "-l", "ru", "-t", "4", "-bs", "5", "-nt", "-np", "--prompt", "Терра"]);
    assert_eq!(whisper_args("m", "w", "auto", "1", "1", None).len(), 12);
}

#[test]
fn outcome_of_a_run() {
    let markers = vec!["<|endoftext|>".to_string()];
    assert_eq!(transcript_outcome(true, "0", " [BLANK_AUDIO]\n привет<|endoftext|>\n", "", &markers).unwrap(), "привет");
    assert!(matches!(transcript_outcome(true, "0", "[BLANK_AUDIO]\n", "", &markers), Err(WhisperError::NoSpeech)));
    let err = transcript_outcome(false, "exit status: 1", "", "  bad model\n", &markers).unwrap_err();
    assert_eq!(err.message(), "whisper-cli вернул ошибку (exit status: 1): bad model");
}

#[test]
fn outcome_of_raw_output() {
    let out = run_outcome(true, "0", "ответ \u{fffd}".as_bytes(), b"", &[]).unwrap();
    assert_eq!(out, "ответ \u{fffd}");
    let out = run_outcome(true, "0", &[b'o', b'k', 0xc3], b"", &[]).unwrap();
    assert_eq!(out, "ok\u{fffd}");
    assert_eq!(WhisperError::NoSpeech.message(), "Whisper не распознал речь в этом фрагменте.");
}

#[test]
fn error_messages() {
    assert_eq!(WhisperError::TooShort.message(), "Фрагмент слишком короткий для Whisper.");
    assert_eq!(WhisperError::Launch("no".into()).message(), "Не удалось запустить whisper-cli: no");
    assert_eq!(WhisperError::WavCreate("a".into()).message(), "Не удалось создать WAV для Whisper: a");
    assert_eq!(WhisperError::WavWrite("b".into()).message(), "Не удалось записать WAV для Whisper: b");
    assert_eq!(WhisperError::WavClose("c".into()).message(), "Не удалось закрыть WAV для Whisper: c");
    assert_eq!(WhisperError::Unavailable("why".into()).message(), "why");
}

#[test]
fn too_short_audio_is_refused() {
    assert!(check_sample_count(16_000, 16_000).is_ok());
    let err = check_sample_count(100, 16_000).unwrap_err();
    assert!(matches!(err, WhisperError::TooShort));
}
