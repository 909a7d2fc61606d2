//! Playlist curation engine for an OpenSubsonic music library.
//!
//! Given a pool of track metadata and a taste profile, the engine filters
//! out non-song tracks, ranks the candidates by listener preference, and
//! assembles an ordered playlist under hard sequencing constraints.
//! Scores the heuristics treat as real numbers in [0, 1] are carried as
//! fixed-point integers in micro-units (1_000_000 = 1.0); unbounded
//! preference scores are carried in milli-units (1_000 = 1.0).

pub mod numeric;
pub mod strings;
pub mod models;
pub mod config;
pub mod filters;
pub mod genres;
pub mod recency;
pub mod metadata;
pub mod metrics;
pub mod scoring;
pub mod transitions;
pub mod naming;
pub mod generator;
