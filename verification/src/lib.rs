//! Voice control for a speech-to-text front end: recognises commands addressed
//! to an agent by name, runs the matching shell commands, chains several
//! commands, hands what no trigger matches to a language model, and plans the
//! spoken feedback. Everything here is plain computation with verified
//! contracts; the program around it performs the input and output.

pub mod text;
pub mod config;
pub mod server;
pub mod clock;
pub mod tts;
pub mod ollama;
pub mod logger;
pub mod piper;
pub mod commands;
