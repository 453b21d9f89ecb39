//! Batch rendering of circular music visualizers: the rules, parsers and
//! decisions behind the `master-duel-bgms` program.
//!
//! The crate computes on plain values, but for two things that it takes from other
//! crates: `renderer` holds pixmaps of `tiny_skia`, and `fonts` searches a database
//! of `fontdb`. Reading files, starting `ffmpeg`, floating-point signal processing
//! and drawing are the caller's work.

pub mod arguments;
pub mod audio;
pub mod batch;
pub mod cli;
pub mod config;
pub mod discovery;
pub mod display;
pub mod encoder;
pub mod fonts;
pub mod job;
pub mod loudness;
pub mod manifest;
pub mod number;
pub mod order;
pub mod paths;
pub mod profile;
pub mod renderer;
pub mod run;
pub mod spectrum;
pub mod text;
pub mod titles;
pub mod wav;
