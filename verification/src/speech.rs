//! Endpointing of spoken commands and conversation turns: frame by frame the
//! recognizer's text segments are gathered, speech and silence are counted,
//! and the utterance is closed after enough silence or at a length cap.
//!
//! Loudness itself (the adaptive noise floor and speech level) is measured by
//! the caller, which hands each frame's verdict in as `loud`.
use vstd::prelude::*;
use vstd::string::StringExecFns;
use crate::text::{
    is_trimmed, lemma_join_trimmed_parts, lemma_trimmed_is_trimmed, lemma_trimmed_of_trimmed,
    join_with_space, join_with_spaces, string_from_chars, text_equal, trim, trim_chars,
    trimmed,
};

verus! {

/// Frames of quiet that end a command: 900 ms of 16 kHz audio in frames of
/// 512 samples.
pub const COMMAND_END_SILENCE_FRAMES: u32 = 28;

/// Frames of quiet that end a conversation turn (2200 ms): people pause while
/// thinking, so this is clearly longer than a pause inside a sentence.
pub const CONVERSATION_END_SILENCE_FRAMES: u32 = 68;

/// Longest command (8 s), closed even if silence is never detected.
pub const COMMAND_MAX_UTTERANCE_FRAMES: u32 = 250;

/// Longest conversation turn (60 s).
pub const CONVERSATION_MAX_UTTERANCE_FRAMES: u32 = 1875;

/// Fewest frames of speech (350 ms) that make a conversation turn without any
/// recognized text worth handing on.
pub const MIN_SPEECH_FRAMES: u32 = 10;

/// Frames after which the application's voice detector is judged.
pub const HINT_MIN_FRAMES: u64 = 300;

/// The detector is ignored once it reports voice for this share of frames, in
/// percent.
pub const HINT_USELESS_PERCENT: u64 = 95;

/// The recognizer output that marks an unknown word.
pub const UNKNOWN_WORD: &'static str = "[unk]";

/// The state of the speech endpointer.
pub struct SpeechEndpointing {
    conversation: bool,
    segments: Vec<String>,
    silence_frames: u32,
    utterance_frames: u32,
    speech_frames: u32,
    hint_frames: u64,
    hint_voice_frames: u64,
}

/// The abstract state of the speech endpointer: whether conversation
/// endpointing is on, the text segments of the current utterance, the frame
/// counts of the current utterance, and how often the voice detector was asked
/// and said "voice".
pub struct EndpointingView {
    pub conversation: bool,
    pub segments: Seq<Seq<char>>,
    pub silence_frames: nat,
    pub utterance_frames: nat,
    pub speech_frames: nat,
    pub hint_frames: nat,
    pub hint_voice_frames: nat,
}

impl View for SpeechEndpointing {
    type V = EndpointingView;

    closed spec fn view(&self) -> EndpointingView {
        EndpointingView {
            conversation: self.conversation,
            segments: self.segments@.map_values(|s: String| s@),
            silence_frames: self.silence_frames as nat,
            utterance_frames: self.utterance_frames as nat,
            speech_frames: self.speech_frames as nat,
            hint_frames: self.hint_frames as nat,
            hint_voice_frames: self.hint_voice_frames as nat,
        }
    }
}

/// Whether the counters can take one more frame without overflowing.
pub open spec fn can_step(v: EndpointingView) -> bool {
    &&& v.silence_frames < u32::MAX
    &&& v.utterance_frames < u32::MAX
    &&& v.speech_frames < u32::MAX
    &&& v.hint_frames < u64::MAX
    &&& v.hint_voice_frames < u64::MAX
}

/// Whether the voice detector still tells voice from silence: it is trusted
/// until it has been asked often enough and said "voice" nearly every time.
pub open spec fn hint_usable(hint_frames: nat, hint_voice_frames: nat) -> bool {
    hint_frames < HINT_MIN_FRAMES || hint_voice_frames * 100 < hint_frames * HINT_USELESS_PERCENT
}

/// The quiet that closes an utterance in the current mode.
pub open spec fn silence_limit(conversation: bool) -> nat {
    if conversation {
        CONVERSATION_END_SILENCE_FRAMES as nat
    } else {
        COMMAND_END_SILENCE_FRAMES as nat
    }
}

/// The length cap of an utterance in the current mode.
pub open spec fn utterance_cap(conversation: bool) -> nat {
    if conversation {
        CONVERSATION_MAX_UTTERANCE_FRAMES as nat
    } else {
        COMMAND_MAX_UTTERANCE_FRAMES as nat
    }
}

/// The segment a finalized recognizer result adds: its text trimmed, unless
/// that is empty or the unknown-word marker.
pub open spec fn accepted_segment(decoded: Option<Seq<char>>) -> Option<Seq<char>> {
    match decoded {
        Some(t) => {
            let s = trimmed(t);
            if s.len() > 0 && s != UNKNOWN_WORD@ {
                Some(s)
            } else {
                None
            }
        },
        None => None,
    }
}

/// The frame counts after one frame, before the end of the utterance is judged.
pub open spec fn counted(v: EndpointingView, loud: bool, voice_hint: Option<bool>) -> EndpointingView {
    let voice = voice_hint == Some(true);
    let hint_frames = v.hint_frames + 1;
    let hint_voice_frames = if voice {
        v.hint_voice_frames + 1
    } else {
        v.hint_voice_frames
    };
    let is_speech = loud || (hint_usable(hint_frames, hint_voice_frames) && voice);
    EndpointingView {
        conversation: v.conversation,
        segments: v.segments,
        silence_frames: if is_speech {
            0
        } else {
            v.silence_frames + 1
        },
        utterance_frames: if is_speech || v.speech_frames > 0 {
            v.utterance_frames + 1
        } else {
            v.utterance_frames
        },
        speech_frames: if is_speech {
            v.speech_frames + 1
        } else {
            v.speech_frames
        },
        hint_frames,
        hint_voice_frames,
    }
}

/// Whether the utterance has something to hand on: recognized text, or in
/// conversation mode enough speech for a transcriber.
pub open spec fn has_material(v: EndpointingView) -> bool {
    v.segments.len() > 0 || (v.conversation && v.speech_frames >= MIN_SPEECH_FRAMES)
}

/// Whether the utterance ends with this frame: by silence or by its length cap,
/// and only when it has material.
pub open spec fn utterance_ends(v: EndpointingView) -> bool {
    has_material(v) && (v.silence_frames >= silence_limit(v.conversation) || v.utterance_frames
        >= utterance_cap(v.conversation))
}

/// One frame of endpointing: the new state and the closed utterance, if any.
/// A closed utterance is its segments joined by spaces; in command mode an
/// empty one is dropped, in conversation mode it is handed on so that the
/// audio can be transcribed otherwise.
pub open spec fn endpoint_step(
    v: EndpointingView,
    loud: bool,
    voice_hint: Option<bool>,
    decoded: Option<Seq<char>>,
) -> (EndpointingView, Option<Seq<char>>) {
    let c = counted(v, loud, voice_hint);
    let segments = match accepted_segment(decoded) {
        Some(s) => c.segments.push(s),
        None => c.segments,
    };
    let w = EndpointingView { segments, ..c };
    if utterance_ends(w) {
        let text = trimmed(join_with_space(segments));
        (
            EndpointingView {
                segments: Seq::<Seq<char>>::empty(),
                silence_frames: 0,
                utterance_frames: 0,
                speech_frames: 0,
                ..w
            },
            if text.len() == 0 && !v.conversation {
                None
            } else {
                Some(text)
            },
        )
    } else {
        (w, None)
    }
}

/// The option's content taken by its view.
pub open spec fn text_view(o: Option<String>) -> Option<Seq<char>> {
    match o {
        Some(s) => Some(s@),
        None => None,
    }
}

impl SpeechEndpointing {
    /// Command endpointing, nothing heard yet.
    pub fn new() -> (res: SpeechEndpointing)
        ensures
            res@ == (EndpointingView {
                conversation: false,
                segments: Seq::<Seq<char>>::empty(),
                silence_frames: 0,
                utterance_frames: 0,
                speech_frames: 0,
                hint_frames: 0,
                hint_voice_frames: 0,
            }),
    {
        let res = SpeechEndpointing {
            conversation: false,
            segments: Vec::new(),
            silence_frames: 0,
            utterance_frames: 0,
            speech_frames: 0,
            hint_frames: 0,
            hint_voice_frames: 0,
        };
        proof {
            assert(res@.segments =~= Seq::<Seq<char>>::empty());
        }
        res
    }

    /// The text segments of the current utterance.
    pub fn segments(&self) -> (res: &Vec<String>)
        ensures
            res@.map_values(|s: String| s@) == self@.segments,
    {
        &self.segments
    }

    /// Frames of silence since the last speech.
    pub fn silence_frames(&self) -> (res: u32)
        ensures
            res == self@.silence_frames,
    {
        self.silence_frames
    }

    /// Frames since the current utterance started.
    pub fn utterance_frames(&self) -> (res: u32)
        ensures
            res == self@.utterance_frames,
    {
        self.utterance_frames
    }

    /// Frames of the current utterance that held speech.
    pub fn speech_frames(&self) -> (res: u32)
        ensures
            res == self@.speech_frames,
    {
        self.speech_frames
    }

    /// Whether the counters can take another frame.
    pub fn can_take_frame(&self) -> (res: bool)
        ensures
            res == can_step(self@),
    {
        self.silence_frames < u32::MAX && self.utterance_frames < u32::MAX && self.speech_frames
            < u32::MAX && self.hint_frames < u64::MAX && self.hint_voice_frames < u64::MAX
    }
}

/// Switches endpointing between short command phrases and long conversation
/// turns.
pub fn set_conversation_endpointing(state: &mut SpeechEndpointing, active: bool)
    ensures
        final(state)@ == (EndpointingView { conversation: active, ..old(state)@ }),
{
    state.conversation = active;
}

/// Whether conversation endpointing is on.
pub fn conversation_endpointing(state: &SpeechEndpointing) -> (res: bool)
    ensures
        res == state@.conversation,
{
    state.conversation
}

/// Feeds one frame into the endpointer. `loud` is whether the frame is loud
/// enough to be speech, `voice_hint` the application voice detector's verdict
/// on it (trusted only while it discriminates), and `decoded` the recognizer's
/// text when it finalized a segment on this frame. Returns the utterance when
/// this frame closes it.
pub fn recognize_speech_with_vad(
    state: &mut SpeechEndpointing,
    loud: bool,
    voice_hint: Option<bool>,
    decoded: Option<String>,
) -> (res: Option<String>)
    requires
        can_step(old(state)@),
    ensures
        (final(state)@, text_view(res)) == endpoint_step(
            old(state)@,
            loud,
            voice_hint,
            text_view(decoded),
        ),
{
    let ghost v = state@;
    let voice = match voice_hint {
        Some(h) => h,
        None => false,
    };
    state.hint_frames = state.hint_frames + 1;
    if voice {
        state.hint_voice_frames = state.hint_voice_frames + 1;
    }
    let usable = state.hint_frames < HINT_MIN_FRAMES || (state.hint_voice_frames as u128) * 100 < (
    state.hint_frames as u128) * (HINT_USELESS_PERCENT as u128);
    let is_speech = loud || (usable && voice);
    let had_speech = state.speech_frames > 0;
    if is_speech {
        state.silence_frames = 0;
        state.speech_frames = state.speech_frames + 1;
    } else {
        state.silence_frames = state.silence_frames + 1;
    }
    if is_speech || had_speech {
        state.utterance_frames = state.utterance_frames + 1;
    }
    let ghost segs_before = state@.segments;
    if let Some(text) = decoded {
        let segment = trim(text.as_str());
        if segment.as_str().unicode_len() > 0 && !text_equal(segment.as_str(), UNKNOWN_WORD) {
            state.segments.push(segment);
            proof {
                assert(state@.segments =~= segs_before.push(trimmed(text@)));
            }
        }
    }
    proof {
        assert(state@ == EndpointingView {
            segments: state@.segments,
            ..counted(v, loud, voice_hint)
        });
    }
    let silence_threshold = if state.conversation {
        CONVERSATION_END_SILENCE_FRAMES
    } else {
        COMMAND_END_SILENCE_FRAMES
    };
    let max_utterance_frames = if state.conversation {
        CONVERSATION_MAX_UTTERANCE_FRAMES
    } else {
        COMMAND_MAX_UTTERANCE_FRAMES
    };
    let heard_enough = state.speech_frames >= MIN_SPEECH_FRAMES;
    let has_text = state.segments.len() > 0;
    let material = has_text || (state.conversation && heard_enough);
    let ended_by_silence = state.silence_frames >= silence_threshold && material;
    let ended_by_cap = state.utterance_frames >= max_utterance_frames && material;
    if ended_by_silence || ended_by_cap {
        let joined = join_with_spaces(&state.segments);
        let utterance = trim_chars(&joined);
        state.segments = Vec::new();
        state.silence_frames = 0;
        state.utterance_frames = 0;
        state.speech_frames = 0;
        proof {
            assert(state@.segments =~= Seq::<Seq<char>>::empty());
        }
        if utterance.len() == 0 && !state.conversation {
            return None;
        }
        return Some(string_from_chars(&utterance));
    }
    None
}

/// Feeds one frame into the endpointer without a voice detector verdict.
pub fn recognize_speech(state: &mut SpeechEndpointing, loud: bool, decoded: Option<String>) -> (res:
    Option<String>)
    requires
        can_step(old(state)@),
    ensures
        (final(state)@, text_view(res)) == endpoint_step(old(state)@, loud, None, text_view(decoded)),
{
    recognize_speech_with_vad(state, loud, None, decoded)
}

/// Forgets the current utterance: its segments and frame counts. The mode
/// and the voice detector's record are kept.
pub fn reset_speech_recognizer(state: &mut SpeechEndpointing)
    ensures
        final(state)@ == (EndpointingView {
            segments: Seq::<Seq<char>>::empty(),
            silence_frames: 0,
            utterance_frames: 0,
            speech_frames: 0,
            ..old(state)@
        }),
{
    state.segments.clear();
    state.silence_frames = 0;
    state.utterance_frames = 0;
    state.speech_frames = 0;
    proof {
        assert(state@.segments =~= Seq::<Seq<char>>::empty());
    }
}


/// A Vosk model found on disk: its name, language code and path.
#[derive(Debug, Clone)]
pub struct VoskModelInfo {
    pub name: String,
    pub language: String,
    pub path: String,
}

/// The language code of the Vosk models for an interface language.
pub open spec fn model_language_code_spec(language: Seq<char>) -> Seq<char> {
    if language == "ru"@ {
        "ru"@
    } else if language == "en"@ {
        "us"@
    } else if language == "ua"@ {
        "uk"@
    } else {
        language
    }
}

/// The language code of the Vosk models for an interface language.
pub fn model_language_code(language: &str) -> (res: String)
    ensures
        res@ == model_language_code_spec(language@),
{
    if text_equal(language, "ru") {
        String::from_str("ru")
    } else if text_equal(language, "en") {
        String::from_str("us")
    } else if text_equal(language, "ua") {
        String::from_str("uk")
    } else {
        String::from_str(language)
    }
}

/// The index of the first model of the given language, or `-1`.
pub open spec fn first_model_of_language(models: Seq<VoskModelInfo>, code: Seq<char>) -> int
    decreases models.len(),
{
    if models.len() == 0 {
        -1
    } else if models[0].language@ == code {
        0
    } else {
        let k = first_model_of_language(models.drop_first(), code);
        if k < 0 {
            -1
        } else {
            k + 1
        }
    }
}

/// The Vosk model to load: the configured one when it was found, else the
/// first model of the interface language, else the first model at all, else
/// the legacy path when it exists.
pub open spec fn vosk_model_choice(
    configured: Option<Seq<char>>,
    available: Seq<VoskModelInfo>,
    language: Seq<char>,
    legacy_path: Seq<char>,
    legacy_exists: bool,
) -> Option<Seq<char>> {
    let k = first_model_of_language(available, model_language_code_spec(language));
    match configured {
        Some(p) => Some(p),
        None => if k >= 0 {
            Some(available[k].path@)
        } else if available.len() > 0 {
            Some(available[0].path@)
        } else if legacy_exists {
            Some(legacy_path)
        } else {
            None
        },
    }
}

/// Picks the Vosk model to load. `configured` is the path of the model named
/// in the settings when it was found, `available` the models found on disk.
pub fn get_configured_model_path(
    configured: Option<String>,
    available: &[VoskModelInfo],
    language: &str,
    legacy_path: &str,
    legacy_exists: bool,
) -> (res: Result<String, String>)
    ensures
        res matches Ok(p) ==> vosk_model_choice(
            text_view(configured),
            available@,
            language@,
            legacy_path@,
            legacy_exists,
        ) == Some(p@),
        res matches Err(e) ==> vosk_model_choice(
            text_view(configured),
            available@,
            language@,
            legacy_path@,
            legacy_exists,
        ) is None && e@ == "No Vosk models found"@,
{
    let ghost conf = text_view(configured);
    if let Some(p) = configured {
        return Ok(p);
    }
    let code = model_language_code(language);
    let mut i: usize = 0;
    proof {
        assert(available@.skip(0) == available@);
    }
    while i < available.len()
        invariant
            i <= available.len(),
            conf is None,
            conf == text_view(configured),
            code@ == model_language_code_spec(language@),
            first_model_of_language(available@, code@) == if first_model_of_language(
                available@.skip(i as int),
                code@,
            ) < 0 {
                -1
            } else {
                first_model_of_language(available@.skip(i as int), code@) + i
            },
        decreases available.len() - i,
    {
        proof {
            assert(available@.skip(i as int)[0] == available@[i as int]);
            assert(available@.skip(i as int).drop_first() == available@.skip(i + 1));
        }
        if text_equal(available[i].language.as_str(), code.as_str()) {
            return Ok(available[i].path.clone());
        }
        i = i + 1;
    }
    if available.len() > 0 {
        return Ok(available[0].path.clone());
    }
    if legacy_exists {
        return Ok(String::from_str(legacy_path));
    }
    Err(String::from_str("No Vosk models found"))
}


/// An utterance is closed only by real silence or by its length cap, never
/// because the recognizer stopped producing words; and closing it starts the
/// next one from scratch.
pub proof fn lemma_closes_only_on_silence_or_cap(
    v: EndpointingView,
    loud: bool,
    voice_hint: Option<bool>,
    decoded: Option<Seq<char>>,
)
    ensures
        ({
            let c = counted(v, loud, voice_hint);
            let (w, out) = endpoint_step(v, loud, voice_hint, decoded);
            out is Some ==> (c.silence_frames >= silence_limit(v.conversation) || c.utterance_frames
                >= utterance_cap(v.conversation)) && w.segments.len() == 0 && w.silence_frames == 0
                && w.utterance_frames == 0 && w.speech_frames == 0
        }),
{
}

/// In command mode no empty utterance is handed on.
pub proof fn lemma_command_never_empty(
    v: EndpointingView,
    loud: bool,
    voice_hint: Option<bool>,
    decoded: Option<Seq<char>>,
)
    requires
        !v.conversation,
    ensures
        endpoint_step(v, loud, voice_hint, decoded).1 matches Some(t) ==> t.len() > 0,
{
}

/// A voice detector that has said "voice" for nearly every frame is ignored:
/// its verdict on the frame changes nothing but its own record.
pub proof fn lemma_useless_hint_ignored(v: EndpointingView, loud: bool, decoded: Option<Seq<char>>)
    requires
        v.hint_frames + 1 >= HINT_MIN_FRAMES,
        (v.hint_voice_frames + 1) * 100 >= (v.hint_frames + 1) * HINT_USELESS_PERCENT,
    ensures
        ({
            let (a, out_a) = endpoint_step(v, loud, Some(true), decoded);
            let (b, out_b) = endpoint_step(v, loud, Some(false), decoded);
            out_a == out_b && a.segments == b.segments && a.silence_frames == b.silence_frames
                && a.utterance_frames == b.utterance_frames && a.speech_frames == b.speech_frames
        }),
{
}

/// Whether the segments are all non-blank, trimmed and not the unknown-word
/// marker.
pub open spec fn clean_segments(segments: Seq<Seq<char>>) -> bool {
    forall|i: int|
        0 <= i < segments.len() ==> (#[trigger] segments[i]).len() > 0 && is_trimmed(segments[i])
            && segments[i] != UNKNOWN_WORD@
}

/// The gathered segments stay non-blank, trimmed and free of the unknown-word
/// marker, and a handed-on utterance has no whitespace at either end.
pub proof fn lemma_segments_stay_clean(
    v: EndpointingView,
    loud: bool,
    voice_hint: Option<bool>,
    decoded: Option<Seq<char>>,
)
    requires
        clean_segments(v.segments),
    ensures
        clean_segments(endpoint_step(v, loud, voice_hint, decoded).0.segments),
        endpoint_step(v, loud, voice_hint, decoded).1 matches Some(t) ==> is_trimmed(t),
{
    if let Some(d) = decoded {
        lemma_trimmed_is_trimmed(d);
    }
    let segs = match accepted_segment(decoded) {
        Some(s) => v.segments.push(s),
        None => v.segments,
    };
    assert(clean_segments(segs)) by {
        assert forall|i: int| 0 <= i < segs.len() implies (#[trigger] segs[i]).len() > 0
            && is_trimmed(segs[i]) && segs[i] != UNKNOWN_WORD@ by {
            if i < v.segments.len() {
                assert(segs[i] == v.segments[i]);
            }
        }
    }
    lemma_trimmed_is_trimmed(join_with_space(segs));
    assert(Seq::<Seq<char>>::empty().len() == 0);
}


/// While the voice detector has not yet been judged useless, its "voice"
/// verdict makes the frame count as speech.
pub proof fn lemma_hint_trusted_while_discriminating(
    v: EndpointingView,
    loud: bool,
    decoded: Option<Seq<char>>,
)
    requires
        hint_usable(v.hint_frames + 1, v.hint_voice_frames + 1),
    ensures
        counted(v, loud, Some(true)).silence_frames == 0,
        counted(v, loud, Some(true)).speech_frames == v.speech_frames + 1,
{
}

/// A conversation turn without recognized text and with too little speech
/// (a door slam, a cough) is never handed on.
pub proof fn lemma_short_noise_ignored(
    v: EndpointingView,
    loud: bool,
    voice_hint: Option<bool>,
    decoded: Option<Seq<char>>,
)
    requires
        v.segments.len() == 0,
        accepted_segment(decoded) is None,
        counted(v, loud, voice_hint).speech_frames < MIN_SPEECH_FRAMES,
    ensures
        endpoint_step(v, loud, voice_hint, decoded).1 is None,
{
}


/// The state after the first `n` frames, each frame given as its loudness
/// verdict, voice detector verdict and recognizer text.
pub open spec fn run_state(
    v: EndpointingView,
    frames: Seq<(bool, Option<bool>, Option<Seq<char>>)>,
    n: nat,
) -> EndpointingView
    decreases n,
{
    if n == 0 {
        v
    } else {
        let f = frames[n - 1];
        endpoint_step(run_state(v, frames, (n - 1) as nat), f.0, f.1, f.2).0
    }
}

/// What the frame at index `k` hands on.
pub open spec fn run_output(
    v: EndpointingView,
    frames: Seq<(bool, Option<bool>, Option<Seq<char>>)>,
    k: nat,
) -> Option<Seq<char>> {
    let f = frames[k as int];
    endpoint_step(run_state(v, frames, k), f.0, f.1, f.2).1
}

/// The segments the frames add, in order.
pub open spec fn accepted_segments(frames: Seq<(bool, Option<bool>, Option<Seq<char>>)>) -> Seq<
    Seq<char>,
>
    decreases frames.len(),
{
    if frames.len() == 0 {
        Seq::<Seq<char>>::empty()
    } else {
        let rest = accepted_segments(frames.drop_last());
        match accepted_segment(frames.last().2) {
            Some(s) => rest.push(s),
            None => rest,
        }
    }
}

/// Whether the segments are all non-blank and trimmed.
pub open spec fn nonblank_trimmed(segments: Seq<Seq<char>>) -> bool {
    forall|i: int| 0 <= i < segments.len() ==> (#[trigger] segments[i]).len() > 0 && is_trimmed(segments[i])
}

proof fn lemma_accepted_segment_shape(decoded: Option<Seq<char>>)
    ensures
        accepted_segment(decoded) matches Some(s) ==> s.len() > 0 && is_trimmed(s),
{
    if let Some(d) = decoded {
        lemma_trimmed_is_trimmed(d);
    }
}

proof fn lemma_accepted_segments_shape(frames: Seq<(bool, Option<bool>, Option<Seq<char>>)>)
    ensures
        nonblank_trimmed(accepted_segments(frames)),
    decreases frames.len(),
{
    if frames.len() > 0 {
        lemma_accepted_segments_shape(frames.drop_last());
        lemma_accepted_segment_shape(frames.last().2);
        let rest = accepted_segments(frames.drop_last());
        if let Some(s) = accepted_segment(frames.last().2) {
            let all = rest.push(s);
            assert forall|i: int| 0 <= i < all.len() implies (#[trigger] all[i]).len() > 0 && is_trimmed(
                all[i],
            ) by {
                if i < rest.len() {
                    assert(all[i] == rest[i]);
                }
            }
        }
    }
}

/// Non-blank trimmed segments join to text that trimming keeps as it is and
/// that is empty only when there are no segments.
proof fn lemma_closing_text(segments: Seq<Seq<char>>)
    requires
        nonblank_trimmed(segments),
    ensures
        trimmed(join_with_space(segments)).len() == 0 <==> segments.len() == 0,
{
    if segments.len() > 0 {
        lemma_join_trimmed_parts(segments);
        lemma_trimmed_of_trimmed(join_with_space(segments));
    }
}

/// The frames a command still has to run at most before it closes, while it
/// holds text: once speech was heard every frame lengthens it towards the cap;
/// before that, quiet frames count towards the silence limit.
pub open spec fn closing_budget(v: EndpointingView) -> int {
    if v.speech_frames > 0 {
        COMMAND_MAX_UTTERANCE_FRAMES - v.utterance_frames
    } else {
        (COMMAND_END_SILENCE_FRAMES - 1 - v.silence_frames) + (COMMAND_MAX_UTTERANCE_FRAMES
            - v.utterance_frames)
    }
}

/// A command holding text that has not closed yet.
pub open spec fn open_command(v: EndpointingView) -> bool {
    &&& !v.conversation
    &&& v.segments.len() > 0
    &&& nonblank_trimmed(v.segments)
    &&& v.silence_frames < COMMAND_END_SILENCE_FRAMES
    &&& v.utterance_frames < COMMAND_MAX_UTTERANCE_FRAMES
}

proof fn lemma_open_command_step(
    v: EndpointingView,
    loud: bool,
    voice_hint: Option<bool>,
    decoded: Option<Seq<char>>,
)
    requires
        open_command(v),
    ensures
        1 <= closing_budget(v) <= 277,
        ({
            let (w, out) = endpoint_step(v, loud, voice_hint, decoded);
            match out {
                Some(t) => t.len() > 0,
                None => open_command(w) && closing_budget(w) < closing_budget(v),
            }
        }),
{
    lemma_accepted_segment_shape(decoded);
    let c = counted(v, loud, voice_hint);
    let segs = match accepted_segment(decoded) {
        Some(s) => c.segments.push(s),
        None => c.segments,
    };
    assert(nonblank_trimmed(segs)) by {
        assert forall|i: int| 0 <= i < segs.len() implies (#[trigger] segs[i]).len() > 0 && is_trimmed(
            segs[i],
        ) by {
            if i < v.segments.len() {
                assert(segs[i] == v.segments[i]);
            }
        }
    }
    lemma_closing_text(segs);
}

/// After `n` frames an open command has either handed on non-empty text at
/// one of them, or is still open with its budget lowered by at least `n`.
proof fn lemma_open_command_run(
    v: EndpointingView,
    frames: Seq<(bool, Option<bool>, Option<Seq<char>>)>,
    n: nat,
)
    requires
        open_command(v),
        n <= frames.len(),
    ensures
        (exists|k: nat| k < n && (#[trigger] run_output(v, frames, k) matches Some(t) && t.len() > 0))
            || (open_command(run_state(v, frames, n)) && closing_budget(run_state(v, frames, n)) + n
            <= closing_budget(v)),
    decreases n,
{
    if n > 0 {
        let m = (n - 1) as nat;
        lemma_open_command_run(v, frames, m);
        if !exists|k: nat| k < m && (#[trigger] run_output(v, frames, k) matches Some(t) && t.len() > 0) {
            let s = run_state(v, frames, m);
            let f = frames[m as int];
            lemma_open_command_step(s, f.0, f.1, f.2);
            if run_output(v, frames, m) is Some {
                assert(run_output(v, frames, m) matches Some(t) && t.len() > 0);
            }
        }
    }
}

/// Liveness of command endpointing: once a frame has added text to a command
/// without closing it, one of the next 277 frames closes the command and
/// hands on non-empty text, whatever those frames are (28 quiet frames close
/// it, and after any speech the 250-frame cap does). The segments held before
/// that frame are those of a reachable state: non-blank and trimmed.
pub proof fn lemma_command_closes_within(
    u: EndpointingView,
    loud: bool,
    voice_hint: Option<bool>,
    decoded: Option<Seq<char>>,
    frames: Seq<(bool, Option<bool>, Option<Seq<char>>)>,
)
    requires
        !u.conversation,
        clean_segments(u.segments),
        accepted_segment(decoded) is Some,
        endpoint_step(u, loud, voice_hint, decoded).1 is None,
        frames.len() >= 277,
    ensures
        exists|k: nat|
            k < 277 && (#[trigger] run_output(endpoint_step(u, loud, voice_hint, decoded).0, frames, k)
                matches Some(t) && t.len() > 0),
{
    let v = endpoint_step(u, loud, voice_hint, decoded).0;
    lemma_accepted_segment_shape(decoded);
    let c = counted(u, loud, voice_hint);
    let s = accepted_segment(decoded)->0;
    let segs = c.segments.push(s);
    assert(nonblank_trimmed(segs)) by {
        assert forall|i: int| 0 <= i < segs.len() implies (#[trigger] segs[i]).len() > 0 && is_trimmed(
            segs[i],
        ) by {
            if i < u.segments.len() {
                assert(segs[i] == u.segments[i]);
            }
        }
    }
    lemma_closing_text(segs);
    assert(v.segments == segs);
    assert(open_command(v));
    lemma_open_command_step(v, true, None, None);
    let b = closing_budget(v) as nat;
    lemma_open_command_run(v, frames, b);
    if !exists|k: nat| k < b && (#[trigger] run_output(v, frames, k) matches Some(t) && t.len() > 0) {
        lemma_open_command_step(run_state(v, frames, b), true, None, None);
    }
}

proof fn lemma_accepted_segments_extend(
    frames: Seq<(bool, Option<bool>, Option<Seq<char>>)>,
    a: int,
    n: int,
)
    requires
        0 <= a <= n < frames.len(),
    ensures
        accepted_segments(frames.subrange(a, n + 1)) == match accepted_segment(frames[n].2) {
            Some(s) => accepted_segments(frames.subrange(a, n)).push(s),
            None => accepted_segments(frames.subrange(a, n)),
        },
{
    let sub = frames.subrange(a, n + 1);
    assert(sub.drop_last() =~= frames.subrange(a, n));
    assert(sub.last() == frames[n]);
}

/// Between two handed-on utterances the state holds exactly the segments the
/// frames since the first one added.
proof fn lemma_segments_since_close(
    v: EndpointingView,
    frames: Seq<(bool, Option<bool>, Option<Seq<char>>)>,
    i: nat,
    n: nat,
)
    requires
        i < n <= frames.len(),
        run_output(v, frames, i) is Some,
        forall|k: nat| i < k < n ==> #[trigger] run_output(v, frames, k) is None,
    ensures
        run_state(v, frames, n).segments == accepted_segments(frames.subrange((i + 1) as int, n as int)),
    decreases n,
{
    if n == i + 1 {
        assert(frames.subrange((i + 1) as int, n as int).len() == 0);
    } else {
        let m = (n - 1) as nat;
        lemma_segments_since_close(v, frames, i, m);
        assert(run_output(v, frames, m) is None);
        lemma_accepted_segments_extend(frames, (i + 1) as int, m as int);
        lemma_accepted_segments_shape(frames.subrange((i + 1) as int, n as int));
        lemma_closing_text(accepted_segments(frames.subrange((i + 1) as int, n as int)));
    }
}

/// Nothing of a handed-on utterance is handed on again: the next utterance
/// handed on is joined only from the segments the frames after the first one
/// added, and its silence run and length are counted from after the first one.
pub proof fn lemma_next_utterance_is_fresh(
    v: EndpointingView,
    frames: Seq<(bool, Option<bool>, Option<Seq<char>>)>,
    i: nat,
    j: nat,
)
    requires
        i < j < frames.len(),
        run_output(v, frames, i) is Some,
        run_output(v, frames, j) is Some,
        forall|k: nat| i < k < j ==> #[trigger] run_output(v, frames, k) is None,
    ensures
        run_state(v, frames, i + 1).segments.len() == 0,
        run_state(v, frames, i + 1).silence_frames == 0,
        run_state(v, frames, i + 1).utterance_frames == 0,
        run_state(v, frames, i + 1).speech_frames == 0,
        run_output(v, frames, j) == Some(
            trimmed(join_with_space(accepted_segments(frames.subrange((i + 1) as int, (j + 1) as int)))),
        ),
{
    lemma_segments_since_close(v, frames, i, i + 1);
    lemma_segments_since_close(v, frames, i, j);
    lemma_accepted_segments_extend(frames, (i + 1) as int, j as int);
}

/// The segments an utterance holds after a frame: those it held, and the
/// frame's accepted recognizer text, if any.
pub open spec fn segments_after(v: EndpointingView, decoded: Option<Seq<char>>) -> Seq<Seq<char>> {
    match accepted_segment(decoded) {
        Some(s) => v.segments.push(s),
        None => v.segments,
    }
}

/// Whether the utterance has something to hand on after a frame: text, or in
/// conversation mode at least `MIN_SPEECH_FRAMES` frames of speech.
pub open spec fn holds_material(v: EndpointingView, decoded: Option<Seq<char>>) -> bool {
    segments_after(v, decoded).len() > 0 || (v.conversation && v.speech_frames
        >= MIN_SPEECH_FRAMES)
}

/// Silence ends an utterance that has material, in either mode: a quiet frame
/// that brings the silence run to 28 frames (0.9 s) in command mode, or to 68
/// frames (2.2 s) in conversation mode, hands on the segments joined by spaces
/// and starts the next utterance from scratch.
pub proof fn lemma_silence_closes_utterance(
    v: EndpointingView,
    voice_hint: Option<bool>,
    decoded: Option<Seq<char>>,
)
    requires
        clean_segments(v.segments),
        voice_hint != Some(true),
        holds_material(v, decoded),
        v.silence_frames + 1 >= if v.conversation {
            CONVERSATION_END_SILENCE_FRAMES
        } else {
            COMMAND_END_SILENCE_FRAMES
        },
    ensures
        ({
            let (w, out) = endpoint_step(v, false, voice_hint, decoded);
            &&& out == Some(trimmed(join_with_space(segments_after(v, decoded))))
            &&& w.segments.len() == 0
            &&& w.silence_frames == 0
            &&& w.utterance_frames == 0
            &&& w.speech_frames == 0
            &&& w.conversation == v.conversation
        }),
{
    lemma_accepted_segment_shape(decoded);
    let segs = segments_after(v, decoded);
    assert(nonblank_trimmed(segs)) by {
        assert forall|i: int| 0 <= i < segs.len() implies (#[trigger] segs[i]).len() > 0 && is_trimmed(
            segs[i],
        ) by {
            if i < v.segments.len() {
                assert(segs[i] == v.segments[i]);
            }
        }
    }
    lemma_closing_text(segs);
}

/// The length cap ends an utterance that has material, in either mode: once
/// speech has been heard, the frame that brings the utterance to 250 frames
/// (8 s) in command mode, or to 1875 frames (60 s) in conversation mode, hands
/// on the segments joined by spaces, however loud it is.
pub proof fn lemma_cap_closes_utterance(
    v: EndpointingView,
    loud: bool,
    voice_hint: Option<bool>,
    decoded: Option<Seq<char>>,
)
    requires
        clean_segments(v.segments),
        holds_material(v, decoded) || (v.conversation && loud && v.speech_frames + 1
            >= MIN_SPEECH_FRAMES),
        v.speech_frames > 0 || loud,
        v.utterance_frames + 1 >= if v.conversation {
            CONVERSATION_MAX_UTTERANCE_FRAMES
        } else {
            COMMAND_MAX_UTTERANCE_FRAMES
        },
    ensures
        ({
            let (w, out) = endpoint_step(v, loud, voice_hint, decoded);
            &&& out == Some(trimmed(join_with_space(segments_after(v, decoded))))
            &&& w.segments.len() == 0
            &&& w.silence_frames == 0
            &&& w.utterance_frames == 0
            &&& w.speech_frames == 0
        }),
{
    lemma_accepted_segment_shape(decoded);
    let segs = segments_after(v, decoded);
    assert(nonblank_trimmed(segs)) by {
        assert forall|i: int| 0 <= i < segs.len() implies (#[trigger] segs[i]).len() > 0 && is_trimmed(
            segs[i],
        ) by {
            if i < v.segments.len() {
                assert(segs[i] == v.segments[i]);
            }
        }
    }
    lemma_closing_text(segs);
}

/// Before either limit an utterance stays open: a quiet frame that leaves the
/// silence run under the mode's limit and the utterance under its cap hands
/// nothing on, keeps the segments with the frame's text added, and lengthens
/// the silence run by one.
pub proof fn lemma_open_until_a_limit(
    v: EndpointingView,
    voice_hint: Option<bool>,
    decoded: Option<Seq<char>>,
)
    requires
        voice_hint != Some(true),
        v.silence_frames + 1 < if v.conversation {
            CONVERSATION_END_SILENCE_FRAMES
        } else {
            COMMAND_END_SILENCE_FRAMES
        },
        v.utterance_frames + 1 < if v.conversation {
            CONVERSATION_MAX_UTTERANCE_FRAMES
        } else {
            COMMAND_MAX_UTTERANCE_FRAMES
        },
    ensures
        ({
            let (w, out) = endpoint_step(v, false, voice_hint, decoded);
            &&& out is None
            &&& w.segments == segments_after(v, decoded)
            &&& w.silence_frames == v.silence_frames + 1
        }),
{
}

} // verus!
