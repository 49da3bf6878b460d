//! Subtitle, configuration and dubbing-pipeline logic of the KrillinAI engine.
pub mod config;
pub mod deps;
pub mod emotion;
pub mod install;
pub mod media;
pub mod prompts;
pub mod provider;
pub mod srt;
pub mod srt_roundtrip;
pub mod storage;
pub mod subtitle;
pub mod text;
pub mod voice;
