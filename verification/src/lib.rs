//! Adaptive profiling for local GGUF models: the logic that reads model
//! metadata, lays out candidate configurations, drives a tuning session,
//! judges measurements and turns them into recommendations.
//!
//! Every function states what it returns in its contract.
pub mod candidates;
pub mod command;
pub mod environment;
pub mod gguf;
pub mod json;
pub mod matching;
pub mod measure;
pub mod opencode;
pub mod path;
pub mod probing;
pub mod profile;
pub mod ranking;
pub mod record;
pub mod refinement;
pub mod report;
pub mod runner;
pub mod stream;
pub mod telemetry;
pub mod text;
pub mod time;
pub mod tuning;
pub mod ui;
pub mod validation;
