use jarvis_core::listener::{data_callback, init, WakeWordEngine, WakeWordSelection};

#[test]
fn rustpotter_without_profile_falls_back_to_vosk() {
    let mut sel = WakeWordSelection::new();
    assert_eq!(init(&mut sel, WakeWordEngine::Rustpotter, false), Some(WakeWordEngine::Vosk));
    assert_eq!(sel.engine(), Some(WakeWordEngine::Vosk));
}

#[test]
fn rustpotter_with_profile_is_kept() {
    let mut sel = WakeWordSelection::new();
    assert_eq!(init(&mut sel, WakeWordEngine::Rustpotter, true), Some(WakeWordEngine::Rustpotter));
}

#[test]
fn porcupine_is_redirected_to_vosk() {
    let mut sel = WakeWordSelection::new();
    assert_eq!(init(&mut sel, WakeWordEngine::Porcupine, true), Some(WakeWordEngine::Vosk));
    assert_ne!(sel.engine(), Some(WakeWordEngine::Porcupine));
}

#[test]
fn second_init_changes_nothing() {
    let mut sel = WakeWordSelection::new();
    assert_eq!(init(&mut sel, WakeWordEngine::Vosk, false), Some(WakeWordEngine::Vosk));
    assert_eq!(init(&mut sel, WakeWordEngine::Rustpotter, true), None);
    assert_eq!(sel.engine(), Some(WakeWordEngine::Vosk));
}

#[test]
fn frames_go_to_the_chosen_engine() {
    let frame = [0i16; 512];
    let sel = WakeWordSelection::new();
    assert_eq!(data_callback(&sel, &frame, |_: &[i16]| Some(1), |_: &[i16]| Some(2)), None);

    let mut sel = WakeWordSelection::new();
    init(&mut sel, WakeWordEngine::Rustpotter, true);
    assert_eq!(data_callback(&sel, &frame, |_: &[i16]| Some(1), |_: &[i16]| Some(2)), Some(1));

    let mut sel = WakeWordSelection::new();
    init(&mut sel, WakeWordEngine::Vosk, true);
    assert_eq!(
        data_callback(&sel, &frame, |_: &[i16]| Some(1), |f: &[i16]| Some(f.len() as i32)),
        Some(512)
    );
}
