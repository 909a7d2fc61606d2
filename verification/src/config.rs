//! Taste-profile configuration.
//!
//! The reference heuristics describe weights as real numbers; here they
//! are fixed-point integers.  Quality weights are permille (1000 = 1.0,
//! each in [0, 1000]).  Preference weights are milli-units (1000 = 1.0);
//! they are unbounded in meaning but capped at a billion milli-units so
//! that 64-bit score arithmetic cannot overflow.

use vstd::prelude::*;

verus! {

/// Connection settings for the library service, loaded by the caller
/// from the environment.
#[derive(Debug)]
pub struct Config {
    pub base_url: String,
    pub username: String,
    pub password: String,
}

/// A named playlist profile: filters, weights and sequencing rules.
#[derive(Debug, Clone)]
pub struct PlaylistConfig {
    pub name: String,
    pub acceptable_genres: Option<Vec<String>>,
    pub unacceptable_genres: Option<Vec<String>>,
    pub bpm_thresholds: Option<BpmThresholds>,
    pub quality_weights: QualityWeights,
    pub transition_rules: TransitionRules,
    pub preference_weights: PreferenceWeights,
    pub target_length: Option<usize>,
}

/// Inclusive tempo range for filtering.
#[derive(Debug, Clone)]
pub struct BpmThresholds {
    pub min_bpm: u32,
    pub max_bpm: u32,
}

/// How much each quality sub-score matters, in permille of 1.0.
/// 0 = do not care about this characteristic, 1000 = maximize it.
#[derive(Debug, Clone)]
pub struct QualityWeights {
    pub artist_diversity: u32,
    pub bpm_transition_smoothness: u32,
    pub genre_coherence: u32,
    pub popularity_balance: u32,
    pub era_cohesion: u32,
}

/// Hard sequencing rules between consecutive tracks.
#[derive(Debug, Clone)]
pub struct TransitionRules {
    pub max_bpm_jump: u32,
    /// Preferred signed tempo change: negative slows down, positive
    /// speeds up.
    pub preferred_bpm_change: i32,
    /// How many of the most recent tracks may not share the artist.
    pub avoid_artist_repeats_within: usize,
    /// How many of the most recent tracks may not share the album.
    pub avoid_album_repeats_within: usize,
    /// A track played fewer than this many days ago is disqualified.
    pub min_days_since_last_play: Option<u32>,
}

/// Weights of the standalone preference score, in milli-units of 1.0.
#[derive(Debug, Clone)]
pub struct PreferenceWeights {
    pub starred_boost: i64,
    pub play_count_weight: i64,
    pub recency_penalty_weight: i64,
    pub randomness_factor: i64,
    /// In discovery mode, less-played tracks are preferred.
    pub discovery_mode: bool,
    /// Optional play-count filter applied during candidate selection.
    pub play_count_filter: Option<PlayCountFilter>,
}

/// The play-count filter modes.  `percent` is permille of the pool.
#[derive(Debug, Clone)]
pub enum PlayCountFilter {
    Unfiltered,
    Exact { count: Option<u32> },
    Range { min: Option<u32>, max: Option<u32> },
    Threshold { operator: String, count: u32 },
    Percentile { direction: String, percent: u32 },
}

/// A set of playlist profiles as loaded from one configuration file.
#[derive(Debug, Clone)]
pub struct PlaylistConfigs {
    pub playlists: Vec<PlaylistConfig>,
}

/// Settings for the iterative, quality-aware construction loop.
#[derive(Debug, Clone)]
pub struct IterativeSettings {
    /// Minimum quality score to accept a track, in micro-units.
    pub min_quality_threshold: i64,
    pub max_attempts_per_position: usize,
    pub debug_output: bool,
}

/// Cap on each preference weight: a million in real units, so that all
/// 64-bit fixed-point products stay far from overflow.
pub const MAX_PREFERENCE_WEIGHT: i64 = 1_000_000_000;

impl QualityWeights {
    /// Each weight is a permille value in [0, 1000].
    pub open spec fn valid(self) -> bool {
        &&& self.artist_diversity <= 1000
        &&& self.bpm_transition_smoothness <= 1000
        &&& self.genre_coherence <= 1000
        &&& self.popularity_balance <= 1000
        &&& self.era_cohesion <= 1000
    }
}

impl PreferenceWeights {
    /// Each weight is nonnegative and at most `MAX_PREFERENCE_WEIGHT`.
    pub open spec fn valid(self) -> bool {
        &&& 0 <= self.starred_boost <= MAX_PREFERENCE_WEIGHT
        &&& 0 <= self.play_count_weight <= MAX_PREFERENCE_WEIGHT
        &&& 0 <= self.recency_penalty_weight <= MAX_PREFERENCE_WEIGHT
        &&& 0 <= self.randomness_factor <= MAX_PREFERENCE_WEIGHT
    }
}

impl PlaylistConfig {
    /// The machine-limit bounds on the fixed-point weights.
    pub open spec fn valid(self) -> bool {
        &&& self.quality_weights.valid()
        &&& self.preference_weights.valid()
    }
}

impl Default for IterativeSettings {
    /// Accept tracks above 0.3 quality, try at most ten candidates.
    fn default() -> (r: IterativeSettings)
        ensures
            r.min_quality_threshold == 300_000,
            r.max_attempts_per_position == 10,
            r.debug_output == true,
    {
        IterativeSettings { min_quality_threshold: 300_000, max_attempts_per_position: 10, debug_output: true }
    }
}

impl Default for PlaylistConfig {
    /// The all-purpose profile: no filters, balanced weights, twenty
    /// tracks.
    fn default() -> (r: PlaylistConfig)
        ensures
            r.name@ == "Default Playlist"@,
            r.acceptable_genres is None,
            r.unacceptable_genres is None,
            r.bpm_thresholds is None,
            r.quality_weights.artist_diversity == 300,
            r.quality_weights.bpm_transition_smoothness == 250,
            r.quality_weights.genre_coherence == 200,
            r.quality_weights.popularity_balance == 250,
            r.quality_weights.era_cohesion == 200,
            r.transition_rules.max_bpm_jump == 20,
            r.transition_rules.preferred_bpm_change == 0,
            r.transition_rules.avoid_artist_repeats_within == 3,
            r.transition_rules.avoid_album_repeats_within == 0,
            r.transition_rules.min_days_since_last_play is None,
            r.preference_weights.starred_boost == 100_000,
            r.preference_weights.play_count_weight == 20_000,
            r.preference_weights.recency_penalty_weight == 5_000,
            r.preference_weights.randomness_factor == 200,
            r.preference_weights.discovery_mode == false,
            r.preference_weights.play_count_filter is None,
            r.target_length == Some(20usize),
            r.valid(),
    {
        PlaylistConfig {
            name: "Default Playlist".to_owned(),
            acceptable_genres: None,
            unacceptable_genres: None,
            bpm_thresholds: None,
            quality_weights: QualityWeights {
                artist_diversity: 300,
                bpm_transition_smoothness: 250,
                genre_coherence: 200,
                popularity_balance: 250,
                era_cohesion: 200,
            },
            transition_rules: TransitionRules {
                max_bpm_jump: 20,
                preferred_bpm_change: 0,
                avoid_artist_repeats_within: 3,
                avoid_album_repeats_within: 0,
                min_days_since_last_play: None,
            },
            preference_weights: PreferenceWeights {
                starred_boost: 100_000,
                play_count_weight: 20_000,
                recency_penalty_weight: 5_000,
                randomness_factor: 200,
                discovery_mode: false,
                play_count_filter: None,
            },
            target_length: Some(20),
        }
    }
}

} // verus!
