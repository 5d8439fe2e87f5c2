//! Core decision logic of the Terra voice assistant: the checks and message
//! handling of the local-model chats, wake-word engine selection, speech
//! endpointing, and the Whisper setup and transcript cleaning.
pub mod chat;
pub mod conversation;
pub mod events;
pub mod listener;
pub mod ollama;
pub mod speech;
pub mod text;
pub mod transcript;
pub mod whisper;
