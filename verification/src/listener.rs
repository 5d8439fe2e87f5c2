//! The choice of wake-word engine, made once, and the routing of audio frames
//! to the chosen engine.
use vstd::prelude::*;

verus! {

/// The wake-word engines a user can configure.
#[derive(Clone, Copy, Debug, PartialEq, Eq, Structural)]
pub enum WakeWordEngine {
    Porcupine,
    Rustpotter,
    Vosk,
}

/// The engine actually used for a configured one: Porcupine is not supported
/// in this build and Rustpotter needs the trained Terra profile; both fall back
/// to the Vosk wake grammar.
pub open spec fn effective_engine(configured: WakeWordEngine, profile_installed: bool) -> WakeWordEngine {
    match configured {
        WakeWordEngine::Rustpotter => if profile_installed {
            WakeWordEngine::Rustpotter
        } else {
            WakeWordEngine::Vosk
        },
        WakeWordEngine::Porcupine => WakeWordEngine::Vosk,
        WakeWordEngine::Vosk => WakeWordEngine::Vosk,
    }
}

/// The wake-word engine in use, chosen once.
pub struct WakeWordSelection {
    engine: Option<WakeWordEngine>,
}

impl View for WakeWordSelection {
    type V = Option<WakeWordEngine>;

    closed spec fn view(&self) -> Option<WakeWordEngine> {
        self.engine
    }
}

impl WakeWordSelection {
    #[verifier::type_invariant]
    spec fn never_porcupine(self) -> bool {
        self.engine != Some(WakeWordEngine::Porcupine)
    }

    /// No engine chosen yet.
    pub fn new() -> (res: WakeWordSelection)
        ensures
            res@ is None,
    {
        WakeWordSelection { engine: None }
    }

    /// The engine in use, if one was chosen; it is never the unsupported
    /// Porcupine.
    pub fn engine(&self) -> (res: Option<WakeWordEngine>)
        ensures
            res == self@,
            res != Some(WakeWordEngine::Porcupine),
    {
        proof {
            use_type_invariant(self);
        }
        self.engine
    }
}

/// The selection after `init` and what `init` returns: the engine to start,
/// or nothing when an engine was chosen before.
pub open spec fn init_outcome(
    selected: Option<WakeWordEngine>,
    configured: WakeWordEngine,
    profile_installed: bool,
) -> (Option<WakeWordEngine>, Option<WakeWordEngine>) {
    match selected {
        Some(e) => (Some(e), None),
        None => {
            let e = effective_engine(configured, profile_installed);
            (Some(e), Some(e))
        },
    }
}

/// Chooses the wake-word engine from the configured one, unless one was
/// chosen before. Returns the engine that the caller has to start, or `None`
/// when the selection was already made and nothing is to be done.
pub fn init(
    selection: &mut WakeWordSelection,
    configured: WakeWordEngine,
    profile_installed: bool,
) -> (res: Option<WakeWordEngine>)
    ensures
        (final(selection)@, res) == init_outcome(old(selection)@, configured, profile_installed),
        final(selection)@ != Some(WakeWordEngine::Porcupine),
{
    proof {
        use_type_invariant(&*selection);
    }
    if selection.engine.is_some() {
        return None;
    }
    let engine = match configured {
        WakeWordEngine::Rustpotter => if profile_installed {
            WakeWordEngine::Rustpotter
        } else {
            WakeWordEngine::Vosk
        },
        WakeWordEngine::Porcupine => WakeWordEngine::Vosk,
        WakeWordEngine::Vosk => WakeWordEngine::Vosk,
    };
    selection.engine = Some(engine);
    Some(engine)
}

/// Initialization is done once: a second `init`, whatever it is given,
/// leaves the selection as the first one made it and asks for nothing.
pub proof fn lemma_init_idempotent(
    selected: Option<WakeWordEngine>,
    first: WakeWordEngine,
    first_installed: bool,
    second: WakeWordEngine,
    second_installed: bool,
)
    ensures
        ({
            let (after_first, _) = init_outcome(selected, first, first_installed);
            let (after_second, started) = init_outcome(after_first, second, second_installed);
            after_second == after_first && started is None
        }),
{
}

/// The engine `init` chooses is never Porcupine, and a configured Rustpotter
/// without its trained profile gives Vosk.
pub proof fn lemma_fallback_engine(configured: WakeWordEngine, profile_installed: bool)
    ensures
        effective_engine(configured, profile_installed) != WakeWordEngine::Porcupine,
        configured == WakeWordEngine::Rustpotter && !profile_installed ==> effective_engine(
            configured,
            profile_installed,
        ) == WakeWordEngine::Vosk,
        configured == WakeWordEngine::Rustpotter && profile_installed ==> effective_engine(
            configured,
            profile_installed,
        ) == WakeWordEngine::Rustpotter,
{
}

/// Hands one audio frame to the wake-word engine in use and returns its
/// detection (the index of the detected keyword); nothing is detected before
/// an engine is chosen.
pub fn data_callback<R, V>(
    selection: &WakeWordSelection,
    frame_buffer: &[i16],
    rustpotter: R,
    vosk: V,
) -> (res: Option<i32>) where R: FnOnce(&[i16]) -> Option<i32>, V: FnOnce(&[i16]) -> Option<i32>
    requires
        rustpotter.requires((frame_buffer,)),
        vosk.requires((frame_buffer,)),
    ensures
        match selection@ {
            Some(WakeWordEngine::Rustpotter) => rustpotter.ensures((frame_buffer,), res),
            Some(WakeWordEngine::Vosk) => vosk.ensures((frame_buffer,), res),
            _ => res is None,
        },
{
    match selection.engine {
        None => None,
        Some(WakeWordEngine::Porcupine) => None,
        Some(WakeWordEngine::Rustpotter) => rustpotter(frame_buffer),
        Some(WakeWordEngine::Vosk) => vosk(frame_buffer),
    }
}

} // verus!
