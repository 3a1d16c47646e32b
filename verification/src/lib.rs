//! Local dictation: hold a key, talk, let go, your words are in the box.
//!
//! What the application decides and computes stands here, verified; what it reads, sends and
//! shows stands around it.

pub mod annotations;
pub mod audio;
pub mod bench;
pub mod capitals;
pub mod chars;
pub mod commands;
pub mod dictation;
pub mod download;
pub mod engine;
pub mod history;
pub mod hotkey;
pub mod hud;
pub mod inject;
pub mod models;
pub mod numbers;
pub mod order;
pub mod paths;
pub mod settings;
pub mod sieve;
pub mod snippets;
pub mod sound;
pub mod specialkey;
pub mod text;
pub mod tray;
pub mod words;
