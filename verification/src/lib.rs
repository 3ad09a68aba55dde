//! Playback engine for rapid serial visual presentation of text tokens:
//! a token source built by ingesting text under a line-oriented-or-paragraph
//! heuristic, a bounded navigation history with backward/forward replay, and
//! a scheduler core that advances the active token under a sequential or
//! randomized-no-repeat policy.

pub mod engine;
pub mod history;
pub mod ingest;

