//! The messages exchanged between the assistant process and its window.
use vstd::prelude::*;

verus! {

/// Events sent from the assistant to the window.
#[derive(Clone, Debug)]
pub enum IpcEvent {
    /// The wake word was heard; listening starts.
    WakeWordDetected,
    /// Listening for a command.
    Listening,
    /// Speech was recognized.
    SpeechRecognized { text: String },
    /// Voice conversation mode was entered or left.
    ConversationModeChanged { active: bool },
    /// The current phase of the voice conversation.
    ConversationStatus { status: String },
    /// The local model started a streamed reply.
    ConversationReplyStarted { model: String },
    /// A piece of the streamed reply.
    ConversationReplyChunk { text: String },
    /// The streamed reply is complete.
    ConversationReplyFinished,
    /// A command was executed.
    CommandExecuted { id: String, success: bool },
    /// Back to idle.
    Idle,
    /// An error occurred.
    Error { message: String },
    /// The assistant started.
    Started,
    /// The assistant is shutting down.
    Stopping,
    /// The answer to a ping.
    Pong,
    /// Asks the window to show itself and take focus.
    RevealWindow,
}

/// Actions sent from the window to the assistant.
#[derive(Clone, Debug)]
pub enum IpcAction {
    /// Shut down gracefully.
    Stop,
    /// Reload the commands from disk.
    ReloadCommands,
    /// Check the connection.
    Ping,
    /// Mute or unmute listening.
    SetMuted { muted: bool },
    /// Execute a text command.
    TextCommand { text: String },
}

} // verus!
