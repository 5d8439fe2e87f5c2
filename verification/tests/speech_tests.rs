use jarvis_core::speech::{
    conversation_endpointing, get_configured_model_path, model_language_code, recognize_speech,
    recognize_speech_with_vad, reset_speech_recognizer, set_conversation_endpointing,
    SpeechEndpointing, VoskModelInfo, COMMAND_END_SILENCE_FRAMES, COMMAND_MAX_UTTERANCE_FRAMES,
    CONVERSATION_END_SILENCE_FRAMES, HINT_MIN_FRAMES, MIN_SPEECH_FRAMES,
};

fn feed(state: &mut SpeechEndpointing, loud: bool, hint: Option<bool>, text: Option<&str>) -> Option<String> {
    recognize_speech_with_vad(state, loud, hint, text.map(String::from))
}

#[test]
fn frame_counts_match_the_durations() {
    let frames = |seconds: f32| (((seconds * 16_000.0) / 512.0).max(1.0)) as u32;
    assert_eq!(COMMAND_END_SILENCE_FRAMES, frames(0.9));
    assert_eq!(CONVERSATION_END_SILENCE_FRAMES, frames(2.2));
    assert_eq!(COMMAND_MAX_UTTERANCE_FRAMES, frames(8.0));
    assert_eq!(MIN_SPEECH_FRAMES, frames(0.35));
}

#[test]
fn endpointing_mode_reads_back() {
    let mut state = SpeechEndpointing::new();
    assert!(!conversation_endpointing(&state));
    set_conversation_endpointing(&mut state, true);
    assert!(conversation_endpointing(&state));
    set_conversation_endpointing(&mut state, false);
    assert!(!conversation_endpointing(&state));
}

#[test]
fn command_closes_after_silence() {
    let mut state = SpeechEndpointing::new();
    for _ in 0..5 {
        assert_eq!(feed(&mut state, true, None, None), None);
    }
    assert_eq!(feed(&mut state, false, None, Some("  открой  ")), None);
    assert_eq!(feed(&mut state, false, None, Some("[unk]")), None);
    assert_eq!(feed(&mut state, false, None, Some("браузер")), None);
    // silence frames so far: 3
    for _ in 3..COMMAND_END_SILENCE_FRAMES - 1 {
        assert_eq!(feed(&mut state, false, None, None), None);
    }
    assert_eq!(feed(&mut state, false, None, None).as_deref(), Some("открой браузер"));
    assert!(state.segments().is_empty());
    assert_eq!(state.silence_frames(), 0);
    assert_eq!(state.utterance_frames(), 0);
    assert_eq!(state.speech_frames(), 0);
}

#[test]
fn silence_without_text_never_closes_a_command() {
    let mut state = SpeechEndpointing::new();
    for _ in 0..(COMMAND_MAX_UTTERANCE_FRAMES + 50) {
        assert_eq!(feed(&mut state, true, None, None), None);
    }
    for _ in 0..100 {
        assert_eq!(recognize_speech(&mut state, false, None), None);
    }
}

#[test]
fn conversation_turn_without_text_is_handed_on_empty() {
    let mut state = SpeechEndpointing::new();
    set_conversation_endpointing(&mut state, true);
    for _ in 0..MIN_SPEECH_FRAMES {
        assert_eq!(feed(&mut state, true, None, None), None);
    }
    for _ in 0..CONVERSATION_END_SILENCE_FRAMES - 1 {
        assert_eq!(feed(&mut state, false, None, None), None);
    }
    assert_eq!(feed(&mut state, false, None, None).as_deref(), Some(""));
}

#[test]
fn short_noise_is_ignored_in_conversation() {
    let mut state = SpeechEndpointing::new();
    set_conversation_endpointing(&mut state, true);
    for _ in 0..MIN_SPEECH_FRAMES - 1 {
        feed(&mut state, true, None, None);
    }
    for _ in 0..200 {
        assert_eq!(feed(&mut state, false, None, None), None);
    }
}

#[test]
fn length_cap_closes_a_long_command() {
    let mut state = SpeechEndpointing::new();
    assert_eq!(feed(&mut state, true, None, Some("говори")), None);
    for _ in 1..COMMAND_MAX_UTTERANCE_FRAMES - 1 {
        assert_eq!(feed(&mut state, true, None, None), None);
    }
    assert_eq!(feed(&mut state, true, None, None).as_deref(), Some("говори"));
}

#[test]
fn voice_hint_counts_as_speech_while_it_discriminates() {
    let mut state = SpeechEndpointing::new();
    feed(&mut state, false, Some(true), Some("да"));
    assert_eq!(state.silence_frames(), 0);
    assert_eq!(state.speech_frames(), 1);
}

#[test]
fn always_on_voice_hint_is_ignored() {
    let mut state = SpeechEndpointing::new();
    set_conversation_endpointing(&mut state, true);
    for _ in 0..HINT_MIN_FRAMES {
        feed(&mut state, true, Some(true), None);
    }
    feed(&mut state, false, Some(true), Some("стоп"));
    // the detector said voice on every frame, so its verdict no longer counts
    assert_eq!(state.silence_frames(), 1);
}

#[test]
fn reset_forgets_the_utterance() {
    let mut state = SpeechEndpointing::new();
    set_conversation_endpointing(&mut state, true);
    feed(&mut state, true, None, Some("привет"));
    reset_speech_recognizer(&mut state);
    assert!(state.segments().is_empty());
    assert_eq!(state.speech_frames(), 0);
    assert_eq!(state.utterance_frames(), 0);
    assert!(conversation_endpointing(&state));
}

#[test]
fn counters_can_take_frames() {
    assert!(SpeechEndpointing::new().can_take_frame());
}

fn model(name: &str, language: &str) -> VoskModelInfo {
    VoskModelInfo { name: name.into(), language: language.into(), path: format!("/models/{name}") }
}

#[test]
fn language_codes_of_models() {
    assert_eq!(model_language_code("ru"), "ru");
    assert_eq!(model_language_code("en"), "us");
    assert_eq!(model_language_code("ua"), "uk");
    assert_eq!(model_language_code("de"), "de");
}

#[test]
fn model_choice_order() {
    let models = vec![model("small-en", "us"), model("small-ru", "ru")];
    assert_eq!(get_configured_model_path(Some("/cfg".into()), &models, "ru", "/legacy", true).unwrap(), "/cfg");
    assert_eq!(get_configured_model_path(None, &models, "ru", "/legacy", true).unwrap(), "/models/small-ru");
    assert_eq!(get_configured_model_path(None, &models, "en", "/legacy", true).unwrap(), "/models/small-en");
    assert_eq!(get_configured_model_path(None, &models, "ua", "/legacy", true).unwrap(), "/models/small-en");
    assert_eq!(get_configured_model_path(None, &[], "ru", "/legacy", true).unwrap(), "/legacy");
    assert_eq!(get_configured_model_path(None, &[], "ru", "/legacy", false).unwrap_err(), "No Vosk models found");
}

/// Feeds frames until one hands on an utterance; returns how many frames that
/// took and what was handed on.
fn frames_until_closed(
    state: &mut SpeechEndpointing,
    mut frame: impl FnMut(u32) -> (bool, Option<bool>),
    limit: u32,
) -> Option<(u32, String)> {
    for k in 0..limit {
        let (loud, hint) = frame(k);
        if let Some(text) = feed(state, loud, hint, None) {
            return Some((k + 1, text));
        }
    }
    None
}

#[test]
fn held_command_text_is_handed_on_within_277_frames() {
    // quiet until the silence limit is almost reached, then speech forever:
    // the length cap closes the command
    let mut state = SpeechEndpointing::new();
    assert_eq!(feed(&mut state, false, None, Some("свет")), None);
    let closed = frames_until_closed(&mut state, |k| (k >= COMMAND_END_SILENCE_FRAMES - 2, None), 400);
    let (taken, text) = closed.unwrap();
    assert!(taken <= 277);
    assert_eq!(text, "свет");

    // speech from the start: the cap closes it after 250 frames of utterance
    let mut state = SpeechEndpointing::new();
    assert_eq!(feed(&mut state, true, None, Some("музыка")), None);
    let (taken, text) = frames_until_closed(&mut state, |_| (true, None), 400).unwrap();
    assert_eq!(taken, COMMAND_MAX_UTTERANCE_FRAMES - 1);
    assert_eq!(text, "музыка");

    // alternating speech and silence: the cap still closes it
    let mut state = SpeechEndpointing::new();
    assert_eq!(feed(&mut state, true, Some(true), Some("стоп")), None);
    let (taken, text) = frames_until_closed(&mut state, |k| (k % 20 == 0, Some(false)), 400).unwrap();
    assert!(taken <= 277);
    assert_eq!(text, "стоп");
}

#[test]
fn next_utterance_holds_only_new_segments() {
    let mut state = SpeechEndpointing::new();
    assert_eq!(feed(&mut state, true, None, Some("раз")), None);
    let (_, first) = frames_until_closed(&mut state, |_| (false, None), 400).unwrap();
    assert_eq!(first, "раз");
    assert!(state.segments().is_empty());
    assert_eq!(state.utterance_frames(), 0);
    assert_eq!(feed(&mut state, true, None, Some("два")), None);
    assert_eq!(feed(&mut state, false, None, Some("три")), None);
    let (taken, second) = frames_until_closed(&mut state, |_| (false, None), 400).unwrap();
    assert_eq!(second, "два три");
    assert_eq!(taken, COMMAND_END_SILENCE_FRAMES - 1);
}
