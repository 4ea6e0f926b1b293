//! The logic of `cx`, a local Codex launcher and slot manager.

pub mod ansi;
pub mod candidates;
pub mod chart;
pub mod cli;
pub mod commands;
pub mod completion;
pub mod control;
pub mod daemon;
pub mod dashboard;
pub mod dates;
pub mod desktop;
pub mod desktop_proxy;
pub mod doubles;
pub mod entry;
pub mod envfile;
pub mod format;
pub mod frames;
pub mod hashes;
pub mod install;
pub mod json;
pub mod keychain;
pub mod launcher;
pub mod lines;
pub mod models;
pub mod numbers;
pub mod paths;
pub mod periods;
pub mod piped;
pub mod prime;
pub mod protocol_export;
pub mod provider;
pub mod query;
pub mod ranges;
pub mod rates;
pub mod repair;
pub mod report;
pub mod resume;
pub mod router;
pub mod run;
pub mod screen;
pub mod selector;
pub mod serve;
pub mod service;
pub mod session;
pub mod session_scrub;
pub mod settings;
pub mod shared;
pub mod slot;
pub mod sorting;
pub mod stats;
pub mod target;
pub mod text;
pub mod textmap;
pub mod usage;
pub mod wrap;
