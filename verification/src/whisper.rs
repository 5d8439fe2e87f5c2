//! Whisper transcription for conversation mode: the settings that steer it,
//! the once-only resolution of the whisper.cpp binary and model, the command
//! line it is run with and the reading of its output.
use vstd::prelude::*;
use vstd::string::StringExecFns;
use crate::text::{chars_of, decode_utf8_lossy, trim, trimmed, utf8_lossy, text_equal};
use crate::transcript::{clean_transcript, cleaned_transcript, marker_views};

verus! {

/// Whether Whisper is used when the settings do not say.
pub const WHISPER_ENABLED_BY_DEFAULT: bool = true;

/// Where the whisper.cpp binary and model were found.
#[derive(Debug, Clone)]
pub struct WhisperSetup {
    pub exe: String,
    pub model: String,
}

/// Why a transcription failed.
#[derive(Debug)]
pub enum WhisperError {
    /// Whisper is unavailable, for the reason given.
    Unavailable(String),
    /// The audio is too short to transcribe.
    TooShort,
    /// The WAV file could not be created.
    WavCreate(String),
    /// The WAV file could not be written.
    WavWrite(String),
    /// The WAV file could not be closed.
    WavClose(String),
    /// whisper-cli could not be started.
    Launch(String),
    /// whisper-cli failed with this exit status and error output.
    Failed { status: String, stderr: String },
    /// No speech was recognized.
    NoSpeech,
}

/// The text shown to the user for each error.
pub open spec fn whisper_error_text(e: WhisperError) -> Seq<char> {
    match e {
        WhisperError::Unavailable(reason) => reason@,
        WhisperError::TooShort => "Фрагмент слишком короткий для Whisper."@,
        WhisperError::WavCreate(d) => "Не удалось создать WAV для Whisper: "@ + d@,
        WhisperError::WavWrite(d) => "Не удалось записать WAV для Whisper: "@ + d@,
        WhisperError::WavClose(d) => "Не удалось закрыть WAV для Whisper: "@ + d@,
        WhisperError::Launch(d) => "Не удалось запустить whisper-cli: "@ + d@,
        WhisperError::Failed { status, stderr } => "whisper-cli вернул ошибку ("@ + status@ + "): "@
            + stderr@,
        WhisperError::NoSpeech => "Whisper не распознал речь в этом фрагменте."@,
    }
}

impl WhisperError {
    /// The text shown to the user.
    pub fn message(&self) -> (res: String)
        ensures
            res@ == whisper_error_text(*self),
    {
        match self {
            WhisperError::Unavailable(reason) => reason.clone(),
            WhisperError::TooShort => String::from_str("Фрагмент слишком короткий для Whisper."),
            WhisperError::WavCreate(d) => String::from_str(
                "Не удалось создать WAV для Whisper: ",
            ).concat(d.as_str()),
            WhisperError::WavWrite(d) => String::from_str(
                "Не удалось записать WAV для Whisper: ",
            ).concat(d.as_str()),
            WhisperError::WavClose(d) => String::from_str(
                "Не удалось закрыть WAV для Whisper: ",
            ).concat(d.as_str()),
            WhisperError::Launch(d) => String::from_str("Не удалось запустить whisper-cli: ").concat(
                d.as_str(),
            ),
            WhisperError::Failed { status, stderr } => String::from_str(
                "whisper-cli вернул ошибку (",
            ).concat(status.as_str()).concat("): ").concat(stderr.as_str()),
            WhisperError::NoSpeech => String::from_str(
                "Whisper не распознал речь в этом фрагменте.",
            ),
        }
    }
}

/// The option's content taken by its view.
pub open spec fn string_option_view(o: Option<String>) -> Option<Seq<char>> {
    match o {
        Some(s) => Some(s@),
        None => None,
    }
}

/// A stored setting as it is used: trimmed, and absent when blank.
pub open spec fn setting_value(stored: Option<Seq<char>>) -> Option<Seq<char>> {
    match stored {
        Some(v) => if trimmed(v).len() > 0 {
            Some(trimmed(v))
        } else {
            None
        },
        None => None,
    }
}

/// A stored setting, trimmed; blank and absent settings are `None`.
pub fn setting(stored: Option<String>) -> (res: Option<String>)
    ensures
        string_option_view(res) == setting_value(string_option_view(stored)),
{
    match stored {
        Some(v) => {
            let t = trim(v.as_str());
            if t.as_str().unicode_len() == 0 {
                None
            } else {
                Some(t)
            }
        },
        None => None,
    }
}

/// Whether Whisper is enabled: the stored setting, or enabled by default.
pub fn whisper_enabled(stored: Option<bool>) -> (res: bool)
    ensures
        res == match stored {
            Some(b) => b,
            None => WHISPER_ENABLED_BY_DEFAULT,
        },
{
    match stored {
        Some(b) => b,
        None => WHISPER_ENABLED_BY_DEFAULT,
    }
}

/// The language passed to whisper.cpp: the configured one, else the one of
/// the interface (`ua` is called `uk` there), else `auto`, which lets Whisper
/// detect the language of each turn.
pub open spec fn whisper_language_spec(stored: Option<Seq<char>>, ui_language: Seq<char>) -> Seq<char> {
    match setting_value(stored) {
        Some(l) => l,
        None => if ui_language == "ru"@ {
            "ru"@
        } else if ui_language == "ua"@ {
            "uk"@
        } else if ui_language == "en"@ {
            "en"@
        } else {
            "auto"@
        },
    }
}

/// The language passed to whisper.cpp.
pub fn whisper_language(stored: Option<String>, ui_language: &str) -> (res: String)
    ensures
        res@ == whisper_language_spec(string_option_view(stored), ui_language@),
{
    if let Some(configured) = setting(stored) {
        return configured;
    }
    if text_equal(ui_language, "ru") {
        String::from_str("ru")
    } else if text_equal(ui_language, "ua") {
        String::from_str("uk")
    } else if text_equal(ui_language, "en") {
        String::from_str("en")
    } else {
        String::from_str("auto")
    }
}

/// The vocabulary hint passed to whisper.cpp: the configured prompt, else the
/// default one trimmed, unless that is blank.
pub fn whisper_prompt(stored: Option<String>, default_prompt: &str) -> (res: Option<String>)
    ensures
        string_option_view(res) == match setting_value(string_option_view(stored)) {
            Some(p) => Some(p),
            None => if trimmed(default_prompt@).len() > 0 {
                Some(trimmed(default_prompt@))
            } else {
                None
            },
        },
{
    match setting(stored) {
        Some(p) => Some(p),
        None => {
            let d = trim(default_prompt);
            if d.as_str().unicode_len() == 0 {
                None
            } else {
                Some(d)
            }
        },
    }
}

/// Why Whisper is unavailable, for logs and the window.
pub open spec fn unavailable_reason_spec(enabled: bool, default_dir: Seq<char>) -> Seq<char> {
    if !enabled {
        "Whisper выключен в настройках (whisper_enabled = false)."@
    } else {
        "Не найден whisper-cli или модель в '"@ + default_dir
            + "'. Перезапусти Start-Terra.bat: он скачивает Whisper автоматически. Папка не удаляется при обновлении проекта."@
    }
}

/// The human-readable reason why Whisper is unavailable; `default_dir` is
/// where the binary and model are expected.
pub fn unavailable_reason(enabled: bool, default_dir: &str) -> (res: String)
    ensures
        res@ == unavailable_reason_spec(enabled, default_dir@),
{
    if !enabled {
        return String::from_str("Whisper выключен в настройках (whisper_enabled = false).");
    }
    String::from_str("Не найден whisper-cli или модель в '").concat(default_dir).concat(
        "'. Перезапусти Start-Terra.bat: он скачивает Whisper автоматически. Папка не удаляется при обновлении проекта.",
    )
}

/// The Whisper setup, resolved at most once.
pub struct WhisperState {
    setup: Option<Option<WhisperSetup>>,
}

impl View for WhisperState {
    type V = Option<Option<WhisperSetup>>;

    closed spec fn view(&self) -> Option<Option<WhisperSetup>> {
        self.setup
    }
}

/// The state after a resolution that gave `resolved`: a state resolved before
/// stays as it is.
pub open spec fn resolved_once(
    state: Option<Option<WhisperSetup>>,
    resolved: Option<WhisperSetup>,
) -> Option<Option<WhisperSetup>> {
    match state {
        Some(s) => Some(s),
        None => Some(resolved),
    }
}

/// Whether the state holds a usable setup.
pub open spec fn setup_available(state: Option<Option<WhisperSetup>>) -> bool {
    state matches Some(Some(_))
}

impl WhisperState {
    /// Nothing resolved yet.
    pub fn new() -> (res: WhisperState)
        ensures
            res@ is None,
    {
        WhisperState { setup: None }
    }
}

/// Resolves the whisper binary and model once, with `resolve`; later calls
/// keep the first result. Returns whether a setup is available.
pub fn ensure_init<F>(state: &mut WhisperState, resolve: F) -> (res: bool) where
    F: FnOnce() -> Option<WhisperSetup>,

    requires
        old(state)@ is None ==> resolve.requires(()),
    ensures
        old(state)@ is Some ==> final(state)@ == old(state)@,
        old(state)@ is None ==> (final(state)@ matches Some(r) && resolve.ensures((), r)),
        res == setup_available(final(state)@),
{
    if state.setup.is_none() {
        let resolved = resolve();
        state.setup = Some(resolved);
    }
    match &state.setup {
        Some(Some(_)) => true,
        _ => false,
    }
}

/// Whether a usable setup was resolved.
pub fn is_available(state: &WhisperState) -> (res: bool)
    ensures
        res == setup_available(state@),
{
    match &state.setup {
        Some(Some(_)) => true,
        _ => false,
    }
}

/// The resolved setup, if there is one.
pub fn setup(state: &WhisperState) -> (res: Option<&WhisperSetup>)
    ensures
        match state@ {
            Some(Some(s)) => res == Some(&s),
            _ => res is None,
        },
{
    match &state.setup {
        Some(Some(s)) => Some(s),
        _ => None,
    }
}

/// Resolution happens once: after a first resolution, whatever a second one
/// would give, the state and its availability stay as the first made them.
pub proof fn lemma_resolved_once(
    state: Option<Option<WhisperSetup>>,
    first: Option<WhisperSetup>,
    second: Option<WhisperSetup>,
)
    ensures
        resolved_once(resolved_once(state, first), second) == resolved_once(state, first),
        resolved_once(state, first) is Some,
        state is None ==> (setup_available(resolved_once(state, first)) <==> first is Some),
{
}

/// Whether `r` is what the lookup of a path can give: the configured path when
/// it names a file, else the result of the search.
pub open spec fn picked_path<IF, FF>(
    configured: Option<String>,
    is_file: IF,
    find: FF,
    r: Option<String>,
) -> bool where IF: Fn(&String) -> bool, FF: FnOnce() -> Option<String> {
    match configured {
        Some(v) => (r == Some(v) && is_file.ensures((&v,), true)) || (is_file.ensures(
            (&v,),
            false,
        ) && find.ensures((), r)),
        None => find.ensures((), r),
    }
}

/// The configured path when it names a file, else what the search finds.
pub fn configured_or_found<IF, FF>(configured: Option<String>, is_file: &IF, find: FF) -> (res:
    Option<String>) where IF: Fn(&String) -> bool, FF: FnOnce() -> Option<String>
    requires
        forall|p: &String| is_file.requires((p,)),
        find.requires(()),
    ensures
        picked_path(configured, *is_file, find, res),
{
    match configured {
        Some(v) => {
            if is_file(&v) {
                Some(v)
            } else {
                find()
            }
        },
        None => find(),
    }
}

/// Resolves the whisper binary and model: nothing when Whisper is disabled;
/// otherwise each is the configured path if it names a file, else what the
/// search finds, and both must be found. The model is looked for only once
/// the binary was found.
pub fn resolve_setup<IF, FE, FM>(
    enabled: bool,
    configured_exe: Option<String>,
    configured_model: Option<String>,
    is_file: IF,
    find_exe: FE,
    find_model: FM,
) -> (res: Option<WhisperSetup>) where
    IF: Fn(&String) -> bool,
    FE: FnOnce() -> Option<String>,
    FM: FnOnce() -> Option<String>,

    requires
        forall|p: &String| is_file.requires((p,)),
        find_exe.requires(()),
        find_model.requires(()),
    ensures
        !enabled ==> res is None,
        res matches Some(s) ==> enabled && picked_path(configured_exe, is_file, find_exe, Some(s.exe))
            && picked_path(configured_model, is_file, find_model, Some(s.model)),
        enabled && res is None ==> picked_path(configured_exe, is_file, find_exe, None) || (exists|
            e: String,
        | picked_path(configured_exe, is_file, find_exe, Some(e))) && picked_path(
            configured_model,
            is_file,
            find_model,
            None,
        ),
{
    if !enabled {
        return None;
    }
    let exe = match configured_or_found(configured_exe, &is_file, find_exe) {
        Some(e) => e,
        None => {
            return None;
        },
    };
    let model = match configured_or_found(configured_model, &is_file, find_model) {
        Some(m) => m,
        None => {
            return None;
        },
    };
    Some(WhisperSetup { exe, model })
}

/// The model file names to look for, in order: the one named in the
/// environment, trimmed, when not blank, then the defaults.
pub open spec fn model_names_spec(env_model: Option<Seq<char>>, defaults: Seq<Seq<char>>) -> Seq<
    Seq<char>,
> {
    match setting_value(env_model) {
        Some(n) => seq![n] + defaults,
        None => defaults,
    }
}

/// The model file names to look for, in order.
pub fn model_name_candidates(env_model: Option<String>, defaults: &[String]) -> (res: Vec<String>)
    ensures
        res@.map_values(|s: String| s@) == model_names_spec(
            string_option_view(env_model),
            defaults@.map_values(|s: String| s@),
        ),
{
    let mut res: Vec<String> = Vec::new();
    let first = setting(env_model);
    let has_first = first.is_some();
    if let Some(n) = first {
        res.push(n);
    }
    let ghost start = res@.map_values(|s: String| s@);
    let mut i: usize = 0;
    while i < defaults.len()
        invariant
            i <= defaults.len(),
            res@.len() == start.len() + i,
            forall|k: int| 0 <= k < start.len() ==> #[trigger] res@[k]@ == start[k],
            forall|k: int| 0 <= k < i ==> #[trigger] res@[start.len() + k]@ == defaults@[k]@,
        decreases defaults.len() - i,
    {
        res.push(defaults[i].clone());
        i = i + 1;
    }
    proof {
        let r = res@.map_values(|s: String| s@);
        let e = model_names_spec(string_option_view(env_model), defaults@.map_values(|s: String| s@));
        assert(r.len() == e.len());
        assert forall|k: int| 0 <= k < r.len() implies r[k] == e[k] by {
            if k >= start.len() {
                assert(res@[start.len() + (k - start.len())]@ == defaults@[k - start.len()]@);
            }
        }
        assert(r =~= e);
    }
    res
}

/// Whether `c` is `t`, or the upper case ASCII letter of the lower case `t`.
pub open spec fn ascii_case_eq(c: char, t: char) -> bool {
    c == t || ('A' <= c && c <= 'Z' && (c as u32) + 32 == (t as u32))
}

/// Whether a file name looks like a whisper.cpp model, `ggml-*.bin`, in any
/// letter case. (Lowering the case with `to_lowercase` decides the same:
/// no character other than the ASCII letters lowers to one of these.)
pub open spec fn is_ggml_model_name_spec(name: Seq<char>) -> bool {
    let p = "ggml-"@;
    let q = ".bin"@;
    &&& name.len() >= p.len()
    &&& name.len() >= q.len()
    &&& forall|i: int| 0 <= i < p.len() ==> ascii_case_eq(#[trigger] name[i], p[i])
    &&& forall|i: int|
        0 <= i < q.len() ==> ascii_case_eq(#[trigger] name[name.len() - q.len() + i], q[i])
}

fn same_ignoring_ascii_case(c: char, t: char) -> (res: bool)
    ensures
        res == ascii_case_eq(c, t),
{
    c == t || ('A' <= c && c <= 'Z' && (c as u32) + 32 == (t as u32))
}

/// Whether a file name looks like a whisper.cpp model, `ggml-*.bin`.
pub fn is_ggml_model_name(name: &str) -> (res: bool)
    ensures
        res == is_ggml_model_name_spec(name@),
{
    let cs = chars_of(name);
    let p = chars_of("ggml-");
    let q = chars_of(".bin");
    if cs.len() < p.len() || cs.len() < q.len() {
        return false;
    }
    let mut i: usize = 0;
    while i < p.len()
        invariant
            i <= p.len() <= cs.len(),
            p@ == "ggml-"@,
            cs@ == name@,
            forall|k: int| 0 <= k < i ==> ascii_case_eq(#[trigger] cs@[k], p@[k]),
        decreases p.len() - i,
    {
        if !same_ignoring_ascii_case(cs[i], p[i]) {
            return false;
        }
        i = i + 1;
    }
    let off = cs.len() - q.len();
    let mut j: usize = 0;
    while j < q.len()
        invariant
            j <= q.len() <= cs.len(),
            off == cs.len() - q.len(),
            q@ == ".bin"@,
            cs@ == name@,
            forall|k: int| 0 <= k < j ==> ascii_case_eq(#[trigger] cs@[off + k], q@[k]),
        decreases q.len() - j,
    {
        if !same_ignoring_ascii_case(cs[off + j], q[j]) {
            return false;
        }
        j = j + 1;
    }
    proof {
        assert forall|k: int| 0 <= k < q@.len() implies ascii_case_eq(
            #[trigger] name@[name@.len() - q@.len() + k],
            q@[k],
        ) by {
            assert(cs@[off + k] == name@[name@.len() - q@.len() + k]);
        }
    }
    true
}

/// The command line of whisper.cpp, after the binary: model, audio file,
/// language, threads and beam size, no timestamps, no progress output, and
/// the vocabulary hint when there is one.
pub open spec fn whisper_args_spec(
    model: Seq<char>,
    wav: Seq<char>,
    language: Seq<char>,
    threads: Seq<char>,
    beam_size: Seq<char>,
    prompt: Option<Seq<char>>,
) -> Seq<Seq<char>> {
    let base = seq![
        "-m"@,
        model,
        "-f"@,
        wav,
        "-l"@,
        language,
        "-t"@,
        threads,
        "-bs"@,
        beam_size,
        "-nt"@,
        "-np"@,
    ];
    match prompt {
        Some(p) => base + seq!["--prompt"@, p],
        None => base,
    }
}

/// The command line of whisper.cpp, after the binary.
pub fn whisper_args(
    model: &str,
    wav: &str,
    language: &str,
    threads: &str,
    beam_size: &str,
    prompt: Option<String>,
) -> (res: Vec<String>)
    ensures
        res@.map_values(|s: String| s@) == whisper_args_spec(
            model@,
            wav@,
            language@,
            threads@,
            beam_size@,
            string_option_view(prompt),
        ),
{
    let mut res: Vec<String> = Vec::new();
    res.push(String::from_str("-m"));
    res.push(String::from_str(model));
    res.push(String::from_str("-f"));
    res.push(String::from_str(wav));
    res.push(String::from_str("-l"));
    res.push(String::from_str(language));
    res.push(String::from_str("-t"));
    res.push(String::from_str(threads));
    res.push(String::from_str("-bs"));
    res.push(String::from_str(beam_size));
    res.push(String::from_str("-nt"));
    res.push(String::from_str("-np"));
    if let Some(p) = prompt {
        res.push(String::from_str("--prompt"));
        res.push(p);
    }
    proof {
        assert(res@.map_values(|s: String| s@) =~= whisper_args_spec(
            model@,
            wav@,
            language@,
            threads@,
            beam_size@,
            string_option_view(prompt),
        ));
    }
    res
}

/// Reads the output of a finished whisper.cpp run; `status` is its exit
/// status as text, `stdout` and `stderr` its output decoded.
pub fn transcript_outcome(
    success: bool,
    status: &str,
    stdout: &str,
    stderr: &str,
    noise_markers: &[String],
) -> (res: Result<String, WhisperError>)
    ensures
        !success ==> (res matches Err(WhisperError::Failed { status: s, stderr: e }) && s@
            == status@ && e@ == trimmed(stderr@)),
        success && cleaned_transcript(stdout@, marker_views(noise_markers@)).len() == 0 ==> (res
            matches Err(WhisperError::NoSpeech)),
        success && cleaned_transcript(stdout@, marker_views(noise_markers@)).len() > 0 ==> (res
            matches Ok(t) && t@ == cleaned_transcript(stdout@, marker_views(noise_markers@))),
{
    if !success {
        return Err(WhisperError::Failed { status: String::from_str(status), stderr: trim(stderr) });
    }
    let text = clean_transcript(stdout, noise_markers);
    if text.as_str().unicode_len() == 0 {
        return Err(WhisperError::NoSpeech);
    }
    Ok(text)
}

/// Reads the raw output of a finished whisper.cpp run, decoding it as UTF-8
/// with invalid sequences replaced.
pub fn run_outcome(
    success: bool,
    status: &str,
    stdout: &[u8],
    stderr: &[u8],
    noise_markers: &[String],
) -> (res: Result<String, WhisperError>)
    ensures
        !success ==> (res matches Err(WhisperError::Failed { status: s, stderr: e }) && s@
            == status@ && e@ == trimmed(utf8_lossy(stderr@))),
        success && cleaned_transcript(utf8_lossy(stdout@), marker_views(noise_markers@)).len() == 0
            ==> (res matches Err(WhisperError::NoSpeech)),
        success && cleaned_transcript(utf8_lossy(stdout@), marker_views(noise_markers@)).len() > 0
            ==> (res matches Ok(t) && t@ == cleaned_transcript(
            utf8_lossy(stdout@),
            marker_views(noise_markers@),
        )),
{
    let out = decode_utf8_lossy(stdout);
    let err = decode_utf8_lossy(stderr);
    transcript_outcome(success, status, out.as_str(), err.as_str(), noise_markers)
}


/// Checks that an utterance holds enough samples for Whisper.
pub fn check_sample_count(sample_count: usize, min_samples: usize) -> (res: Result<(), WhisperError>)
    ensures
        res is Ok <==> sample_count >= min_samples,
        res matches Err(e) ==> e == WhisperError::TooShort,
{
    if sample_count < min_samples {
        Err(WhisperError::TooShort)
    } else {
        Ok(())
    }
}

} // verus!
