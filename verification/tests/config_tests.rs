use daylist::config::{BpmThresholds, PlaylistConfig, PreferenceWeights, QualityWeights, TransitionRules};
use daylist::filters::SongFilters;
use daylist::generator::PlaylistGenerator;
use daylist::models::{Genre, Song};
use daylist::scoring::PlaylistScoring;

// Unix seconds for 2025-08-05T00:00:00Z, the injected "current time".
const NOW: i64 = 1_754_352_000;

fn create_mock_song(
    id: &str,
    title: &str,
    artist: &str,
    album: &str,
    genres: Vec<&str>,
    bpm: Option<u32>,
    year: Option<u32>,
    duration: Option<u32>,
    play_count: Option<u32>,
    starred: bool,
    played: Option<&str>,
) -> Song {
    Song {
        id: id.to_string(),
        title: title.to_string(),
        artist: artist.to_string(),
        album: album.to_string(),
        genre: genres.first().map(|g| g.to_string()),
        genres: if genres.is_empty() {
            None
        } else {
            Some(genres.iter().map(|g| Genre { name: g.to_string() }).collect())
        },
        bpm,
        duration,
        year,
        track: Some(1),
        play_count,
        disc_number: None,
        album_id: None,
        artist_id: None,
        played: played.map(|p| p.to_string()),
        starred: if starred { Some("starred".to_string()) } else { None },
        bit_rate: Some(320),
        content_type: Some("audio/mpeg".to_string()),
    }
}

fn create_test_config() -> PlaylistConfig {
    PlaylistConfig {
        name: "Test Playlist".to_string(),
        acceptable_genres: None,
        unacceptable_genres: None,
        bpm_thresholds: None,
        quality_weights: QualityWeights {
            artist_diversity: 500,
            bpm_transition_smoothness: 500,
            genre_coherence: 500,
            popularity_balance: 500,
            era_cohesion: 500,
        },
        transition_rules: TransitionRules {
            max_bpm_jump: 20,
            preferred_bpm_change: 0,
            avoid_artist_repeats_within: 5,
            avoid_album_repeats_within: 0,
            min_days_since_last_play: None,
        },
        preference_weights: PreferenceWeights {
            starred_boost: 50_000,
            play_count_weight: 10_000,
            recency_penalty_weight: 5_000,
            randomness_factor: 100,
            discovery_mode: false,
            play_count_filter: None,
        },
        target_length: Some(20),
    }
}

fn create_diverse_song_collection() -> Vec<Song> {
    vec![
        create_mock_song("1", "Song 1", "Artist A", "Album 1", vec!["Rock"], Some(120), Some(2020), Some(200), Some(5), false, None),
        create_mock_song("2", "Song 2", "Artist A", "Album 2", vec!["Rock"], Some(125), Some(2021), Some(210), Some(3), false, None),
        create_mock_song("3", "Song 3", "Artist B", "Album 3", vec!["Pop"], Some(130), Some(2019), Some(180), Some(7), true, None),
        create_mock_song("4", "Song 4", "Artist C", "Album 4", vec!["Jazz"], Some(90), Some(2022), Some(240), Some(1), false, None),
        create_mock_song("5", "Slow Song", "Artist D", "Album 5", vec!["Ambient"], Some(60), Some(2020), Some(300), Some(2), false, None),
        create_mock_song("6", "Medium Song", "Artist E", "Album 6", vec!["Indie"], Some(120), Some(2021), Some(220), Some(4), false, None),
        create_mock_song("7", "Fast Song", "Artist F", "Album 7", vec!["Electronic"], Some(180), Some(2019), Some(190), Some(6), false, None),
        create_mock_song("8", "Rock Song 1", "Artist G", "Album 8", vec!["Rock"], Some(140), Some(2020), Some(200), Some(3), false, None),
        create_mock_song("9", "Rock Song 2", "Artist H", "Album 9", vec!["Rock"], Some(135), Some(2021), Some(195), Some(4), false, None),
        create_mock_song("10", "Classical", "Artist I", "Album 10", vec!["Classical"], Some(80), Some(1990), Some(400), Some(1), false, None),
        create_mock_song("11", "80s Song", "Artist J", "Album 11", vec!["Synthpop"], Some(125), Some(1985), Some(210), Some(2), false, None),
        create_mock_song("12", "90s Song", "Artist K", "Album 12", vec!["Grunge"], Some(130), Some(1995), Some(220), Some(3), false, None),
        create_mock_song("13", "2020s Song", "Artist L", "Album 13", vec!["Hyperpop"], Some(160), Some(2023), Some(150), Some(8), false, None),
        create_mock_song("14", "Hit Song", "Artist M", "Album 14", vec!["Pop"], Some(128), Some(2022), Some(200), Some(50), true, None),
        create_mock_song("15", "Deep Cut", "Artist N", "Album 15", vec!["Indie"], Some(110), Some(2021), Some(250), Some(1), false, None),
        create_mock_song("16", "Moderate Hit", "Artist O", "Album 16", vec!["Rock"], Some(140), Some(2020), Some(230), Some(10), false, None),
        create_mock_song("17", "Recent Song", "Artist P", "Album 17", vec!["Pop"], Some(120), Some(2023), Some(180), Some(5), false, Some("2025-08-01T12:00:00Z")),
        create_mock_song("18", "Old Song", "Artist Q", "Album 18", vec!["Rock"], Some(125), Some(2022), Some(200), Some(3), false, Some("2025-06-01T12:00:00Z")),
    ]
}

#[test]
fn test_bpm_threshold_filtering() {
    let mut config = create_test_config();
    config.bpm_thresholds = Some(BpmThresholds { min_bpm: 100, max_bpm: 150 });

    let songs = create_diverse_song_collection();

    let slow_song = &songs[4];
    let medium_song = &songs[5];
    let fast_song = &songs[6];

    assert!(!SongFilters::matches_bpm_thresholds(slow_song, &config));
    assert!(SongFilters::matches_bpm_thresholds(medium_song, &config));
    assert!(!SongFilters::matches_bpm_thresholds(fast_song, &config));
}

#[test]
fn test_bpm_threshold_none_accepts_all() {
    let config = create_test_config();
    let songs = create_diverse_song_collection();

    for song in &songs {
        assert!(SongFilters::matches_bpm_thresholds(song, &config));
    }
}

#[test]
fn test_genre_filtering() {
    let mut config = create_test_config();
    config.acceptable_genres = Some(vec!["Rock".to_string(), "Pop".to_string()]);

    let songs = create_diverse_song_collection();

    let rock_song = &songs[0];
    let pop_song = &songs[2];
    let jazz_song = &songs[3];

    assert!(SongFilters::matches_acceptable_genres(rock_song, &config));
    assert!(SongFilters::matches_acceptable_genres(pop_song, &config));
    assert!(!SongFilters::matches_acceptable_genres(jazz_song, &config));
}

#[test]
fn test_genre_filtering_none_accepts_all() {
    let config = create_test_config();
    let songs = create_diverse_song_collection();

    for song in &songs {
        assert!(SongFilters::matches_acceptable_genres(song, &config));
    }
}

#[test]
fn test_unacceptable_genres_filtering() {
    let mut config = create_test_config();
    config.unacceptable_genres = Some(vec!["Metal".to_string(), "Electronic".to_string()]);

    let songs = create_diverse_song_collection();

    let rock_song = &songs[0];
    let metal_song = create_mock_song("metal1", "Metal Song", "Metal Artist", "Album",
        vec!["Metal"], Some(140), Some(2020), Some(200), Some(5), false, None);
    let electronic_song = create_mock_song("elec1", "Electronic Song", "Electronic Artist", "Album",
        vec!["Electronic"], Some(128), Some(2020), Some(200), Some(5), false, None);

    assert!(SongFilters::does_not_match_unacceptable_genres(rock_song, &config));
    assert!(!SongFilters::does_not_match_unacceptable_genres(&metal_song, &config));
    assert!(!SongFilters::does_not_match_unacceptable_genres(&electronic_song, &config));
}

#[test]
fn test_unacceptable_genres_none_accepts_all() {
    let config = create_test_config();
    let songs = create_diverse_song_collection();

    for song in &songs {
        assert!(SongFilters::does_not_match_unacceptable_genres(song, &config));
    }
}

#[test]
fn test_combined_genre_filtering() {
    let mut config = create_test_config();
    config.acceptable_genres = Some(vec!["Rock".to_string(), "Pop".to_string(), "Metal".to_string()]);
    config.unacceptable_genres = Some(vec!["Metal".to_string()]);

    let rock_song = create_mock_song("rock1", "Rock Song", "Rock Artist", "Album",
        vec!["Rock"], Some(120), Some(2020), Some(200), Some(5), false, None);
    let pop_song = create_mock_song("pop1", "Pop Song", "Pop Artist", "Album",
        vec!["Pop"], Some(110), Some(2020), Some(200), Some(5), false, None);
    let metal_song = create_mock_song("metal1", "Metal Song", "Metal Artist", "Album",
        vec!["Metal"], Some(140), Some(2020), Some(200), Some(5), false, None);
    let jazz_song = create_mock_song("jazz1", "Jazz Song", "Jazz Artist", "Album",
        vec!["Jazz"], Some(100), Some(2020), Some(200), Some(5), false, None);

    assert!(SongFilters::should_include_song(&rock_song, &config));
    assert!(SongFilters::should_include_song(&pop_song, &config));
    assert!(!SongFilters::should_include_song(&metal_song, &config));
    assert!(!SongFilters::should_include_song(&jazz_song, &config));
}

#[test]
fn test_artist_diversity_calculation() {
    let diverse_songs = vec![
        create_mock_song("1", "Song 1", "Artist A", "Album", vec!["Rock"], Some(120), Some(2020), Some(200), Some(5), false, None),
        create_mock_song("2", "Song 2", "Artist B", "Album", vec!["Rock"], Some(125), Some(2020), Some(200), Some(5), false, None),
        create_mock_song("3", "Song 3", "Artist C", "Album", vec!["Rock"], Some(130), Some(2020), Some(200), Some(5), false, None),
    ];

    let diverse_metadata = PlaylistScoring::calculate_metadata(&diverse_songs);
    assert_eq!(diverse_metadata.artist_count, 3);

    let similar_songs = vec![
        create_mock_song("1", "Song 1", "Artist A", "Album", vec!["Rock"], Some(120), Some(2020), Some(200), Some(5), false, None),
        create_mock_song("2", "Song 2", "Artist A", "Album", vec!["Rock"], Some(125), Some(2020), Some(200), Some(5), false, None),
        create_mock_song("3", "Song 3", "Artist A", "Album", vec!["Rock"], Some(130), Some(2020), Some(200), Some(5), false, None),
    ];

    let similar_metadata = PlaylistScoring::calculate_metadata(&similar_songs);
    assert_eq!(similar_metadata.artist_count, 1);
}

#[test]
fn test_bpm_transition_smoothness() {
    let smooth_songs = vec![
        create_mock_song("1", "Song 1", "Artist A", "Album", vec!["Rock"], Some(120), Some(2020), Some(200), Some(5), false, None),
        create_mock_song("2", "Song 2", "Artist B", "Album", vec!["Rock"], Some(125), Some(2020), Some(200), Some(5), false, None),
        create_mock_song("3", "Song 3", "Artist C", "Album", vec!["Rock"], Some(130), Some(2020), Some(200), Some(5), false, None),
    ];

    let smooth_score = PlaylistScoring::calculate_bpm_transition_smoothness_score(&smooth_songs);

    let jarring_songs = vec![
        create_mock_song("1", "Song 1", "Artist A", "Album", vec!["Rock"], Some(60), Some(2020), Some(200), Some(5), false, None),
        create_mock_song("2", "Song 2", "Artist B", "Album", vec!["Rock"], Some(180), Some(2020), Some(200), Some(5), false, None),
        create_mock_song("3", "Song 3", "Artist C", "Album", vec!["Rock"], Some(80), Some(2020), Some(200), Some(5), false, None),
    ];

    let jarring_score = PlaylistScoring::calculate_bpm_transition_smoothness_score(&jarring_songs);

    assert!(smooth_score > jarring_score);
}

#[test]
fn test_genre_coherence_calculation() {
    let coherent_songs = vec![
        create_mock_song("1", "Song 1", "Artist A", "Album", vec!["Rock"], Some(120), Some(2020), Some(200), Some(5), false, None),
        create_mock_song("2", "Song 2", "Artist B", "Album", vec!["Rock"], Some(125), Some(2020), Some(200), Some(5), false, None),
        create_mock_song("3", "Song 3", "Artist C", "Album", vec!["Rock"], Some(130), Some(2020), Some(200), Some(5), false, None),
    ];

    let coherent_metadata = PlaylistScoring::calculate_metadata(&coherent_songs);
    let coherent_score = PlaylistScoring::calculate_genre_coherence_score(
        &coherent_metadata.genre_distribution,
        coherent_songs.len(),
    );

    let diverse_songs = vec![
        create_mock_song("1", "Song 1", "Artist A", "Album", vec!["Rock"], Some(120), Some(2020), Some(200), Some(5), false, None),
        create_mock_song("2", "Song 2", "Artist B", "Album", vec!["Jazz"], Some(125), Some(2020), Some(200), Some(5), false, None),
        create_mock_song("3", "Song 3", "Artist C", "Album", vec!["Classical"], Some(130), Some(2020), Some(200), Some(5), false, None),
    ];

    let diverse_metadata = PlaylistScoring::calculate_metadata(&diverse_songs);
    let diverse_score = PlaylistScoring::calculate_genre_coherence_score(
        &diverse_metadata.genre_distribution,
        diverse_songs.len(),
    );

    assert!(coherent_score > diverse_score);
}

#[test]
fn test_era_cohesion_calculation() {
    let cohesive_songs = vec![
        create_mock_song("1", "Song 1", "Artist A", "Album", vec!["Rock"], Some(120), Some(2020), Some(200), Some(5), false, None),
        create_mock_song("2", "Song 2", "Artist B", "Album", vec!["Rock"], Some(125), Some(2021), Some(200), Some(5), false, None),
        create_mock_song("3", "Song 3", "Artist C", "Album", vec!["Rock"], Some(130), Some(2022), Some(200), Some(5), false, None),
    ];

    let cohesive_metadata = PlaylistScoring::calculate_metadata(&cohesive_songs);
    let cohesive_score = PlaylistScoring::calculate_era_cohesion_score(&cohesive_metadata.era_span);

    let spanning_songs = vec![
        create_mock_song("1", "Song 1", "Artist A", "Album", vec!["Rock"], Some(120), Some(1980), Some(200), Some(5), false, None),
        create_mock_song("2", "Song 2", "Artist B", "Album", vec!["Rock"], Some(125), Some(2000), Some(200), Some(5), false, None),
        create_mock_song("3", "Song 3", "Artist C", "Album", vec!["Rock"], Some(130), Some(2023), Some(200), Some(5), false, None),
    ];

    let spanning_metadata = PlaylistScoring::calculate_metadata(&spanning_songs);
    let spanning_score = PlaylistScoring::calculate_era_cohesion_score(&spanning_metadata.era_span);

    assert!(cohesive_score > spanning_score);
}

#[test]
fn test_popularity_balance_calculation() {
    let balanced_songs = vec![
        create_mock_song("1", "Song 1", "Artist A", "Album", vec!["Rock"], Some(120), Some(2020), Some(200), Some(1), false, None),
        create_mock_song("2", "Song 2", "Artist B", "Album", vec!["Rock"], Some(125), Some(2020), Some(200), Some(10), false, None),
        create_mock_song("3", "Song 3", "Artist C", "Album", vec!["Rock"], Some(130), Some(2020), Some(200), Some(5), false, None),
    ];

    let balanced_score = PlaylistScoring::calculate_popularity_balance_score(&balanced_songs);

    let unbalanced_songs = vec![
        create_mock_song("1", "Song 1", "Artist A", "Album", vec!["Rock"], Some(120), Some(2020), Some(200), Some(1), false, None),
        create_mock_song("2", "Song 2", "Artist B", "Album", vec!["Rock"], Some(125), Some(2020), Some(200), Some(100), false, None),
        create_mock_song("3", "Song 3", "Artist C", "Album", vec!["Rock"], Some(130), Some(2020), Some(200), Some(1), false, None),
    ];

    let unbalanced_score = PlaylistScoring::calculate_popularity_balance_score(&unbalanced_songs);

    assert!(balanced_score > unbalanced_score);
}

#[test]
fn test_starred_boost_preference() {
    let config = create_test_config();
    let expected_difference = config.preference_weights.starred_boost;

    let starred_song = create_mock_song("1", "Starred Song", "Artist A", "Album", vec!["Rock"], Some(120), Some(2020), Some(200), Some(5), true, None);
    let unstarred_song = create_mock_song("2", "Regular Song", "Artist B", "Album", vec!["Rock"], Some(120), Some(2020), Some(200), Some(5), false, None);

    let starred_score = PlaylistScoring::calculate_preference_score(&starred_song, &config, NOW);
    let unstarred_score = PlaylistScoring::calculate_preference_score(&unstarred_song, &config, NOW);

    assert!(starred_score > unstarred_score);
    assert_eq!(starred_score - unstarred_score, expected_difference);
}

#[test]
fn test_discovery_mode_preference() {
    let mut config = create_test_config();
    config.preference_weights.discovery_mode = true;

    let unplayed_song = create_mock_song("1", "Unplayed Song", "Artist A", "Album", vec!["Rock"], Some(120), Some(2020), Some(200), Some(0), false, None);
    let popular_song = create_mock_song("2", "Popular Song", "Artist B", "Album", vec!["Rock"], Some(120), Some(2020), Some(200), Some(50), false, None);

    let unplayed_score = PlaylistScoring::calculate_preference_score(&unplayed_song, &config, NOW);
    let popular_score = PlaylistScoring::calculate_preference_score(&popular_song, &config, NOW);

    assert!(unplayed_score > popular_score);
}

#[test]
fn test_recency_penalty() {
    let config = create_test_config();

    let recent_song = create_mock_song("1", "Recent Song", "Artist A", "Album", vec!["Rock"], Some(120), Some(2020), Some(200), Some(5), false, Some("2025-08-01T12:00:00Z"));
    let old_song = create_mock_song("2", "Old Song", "Artist B", "Album", vec!["Rock"], Some(120), Some(2020), Some(200), Some(5), false, Some("2025-01-01T12:00:00Z"));

    let recent_score = PlaylistScoring::calculate_preference_score(&recent_song, &config, NOW);
    let old_score = PlaylistScoring::calculate_preference_score(&old_song, &config, NOW);

    assert!(old_score > recent_score);
}

#[test]
fn test_quality_weights_impact() {
    let mut high_diversity_config = create_test_config();
    high_diversity_config.quality_weights.artist_diversity = 1000;
    high_diversity_config.quality_weights.genre_coherence = 0;
    high_diversity_config.quality_weights.bpm_transition_smoothness = 0;
    high_diversity_config.quality_weights.popularity_balance = 0;
    high_diversity_config.quality_weights.era_cohesion = 0;

    let diverse_artists_songs = vec![
        create_mock_song("1", "Song 1", "Artist A", "Album", vec!["Rock"], Some(60), Some(1980), Some(200), Some(1), false, None),
        create_mock_song("2", "Song 2", "Artist B", "Album", vec!["Jazz"], Some(180), Some(2020), Some(200), Some(100), false, None),
        create_mock_song("3", "Song 3", "Artist C", "Album", vec!["Classical"], Some(80), Some(1990), Some(200), Some(50), false, None),
    ];

    let diverse_metadata = PlaylistScoring::calculate_metadata(&diverse_artists_songs);
    let diverse_quality = PlaylistScoring::calculate_quality_score(
        &diverse_artists_songs,
        &diverse_metadata,
        &high_diversity_config,
    );

    let mut low_diversity_config = create_test_config();
    low_diversity_config.quality_weights.artist_diversity = 0;
    low_diversity_config.quality_weights.genre_coherence = 1000;
    low_diversity_config.quality_weights.bpm_transition_smoothness = 1000;
    low_diversity_config.quality_weights.popularity_balance = 1000;
    low_diversity_config.quality_weights.era_cohesion = 1000;

    let same_artist_songs = vec![
        create_mock_song("1", "Song 1", "Artist A", "Album", vec!["Rock"], Some(120), Some(2020), Some(200), Some(5), false, None),
        create_mock_song("2", "Song 2", "Artist A", "Album", vec!["Rock"], Some(125), Some(2020), Some(200), Some(6), false, None),
        create_mock_song("3", "Song 3", "Artist A", "Album", vec!["Rock"], Some(130), Some(2020), Some(200), Some(4), false, None),
    ];

    let same_metadata = PlaylistScoring::calculate_metadata(&same_artist_songs);
    let same_quality = PlaylistScoring::calculate_quality_score(
        &same_artist_songs,
        &same_metadata,
        &low_diversity_config,
    );

    assert!(diverse_quality != same_quality, "Quality weights should produce different scores for different configurations");
}

#[test]
fn test_full_playlist_generation_respects_config() {
    let mut config = create_test_config();
    config.acceptable_genres = Some(vec!["Rock".to_string()]);
    config.bpm_thresholds = Some(BpmThresholds { min_bpm: 100, max_bpm: 150 });
    config.target_length = Some(3);

    let generator = PlaylistGenerator::new(config);
    let songs = create_diverse_song_collection();

    let playlist = generator.generate_playlist(songs, Some("Test Playlist".to_string()), Some(3), NOW);

    assert_eq!(playlist.songs.len(), 3);

    for entry in &playlist.songs {
        assert!(entry.song.get_all_genres().iter().any(|g| g == "rock"));
    }

    for entry in &playlist.songs {
        if let Some(bpm) = entry.song.bpm {
            assert!(bpm >= 100 && bpm <= 150);
        }
    }

    assert!(playlist.metadata.total_duration > 0);
    assert!(playlist.metadata.artist_count > 0);
}

#[test]
fn test_empty_songs_handled_gracefully() {
    let config = create_test_config();
    let generator = PlaylistGenerator::new(config);

    let playlist = generator.generate_playlist(vec![], Some("Empty Playlist".to_string()), Some(10), NOW);

    assert_eq!(playlist.songs.len(), 0);
    assert_eq!(playlist.metadata.total_duration, 0);
    assert_eq!(playlist.metadata.artist_count, 0);
    assert_eq!(playlist.quality_score, 0);
}

#[test]
fn test_preference_weights_boundaries() {
    let mut config = create_test_config();
    config.preference_weights.starred_boost = 1_000_000;
    config.preference_weights.randomness_factor = 1_000;

    let starred_song = create_mock_song("1", "Starred", "Artist", "Album", vec!["Rock"], Some(120), Some(2020), Some(200), Some(1), true, None);
    let unstarred_song = create_mock_song("2", "Unstarred", "Artist", "Album", vec!["Rock"], Some(120), Some(2020), Some(200), Some(10), false, None);

    let starred_score = PlaylistScoring::calculate_preference_score(&starred_song, &config, NOW);
    let unstarred_score = PlaylistScoring::calculate_preference_score(&unstarred_song, &config, NOW);

    assert!(starred_score > unstarred_score + 900_000);
}

#[test]
fn test_config_validation() {
    let config = PlaylistConfig {
        name: "Test".to_string(),
        acceptable_genres: Some(vec!["Rock".to_string(), "Pop".to_string()]),
        unacceptable_genres: None,
        bpm_thresholds: Some(BpmThresholds { min_bpm: 60, max_bpm: 180 }),
        quality_weights: QualityWeights {
            artist_diversity: 1000,
            bpm_transition_smoothness: 0,
            genre_coherence: 500,
            popularity_balance: 300,
            era_cohesion: 800,
        },
        transition_rules: TransitionRules {
            max_bpm_jump: 50,
            preferred_bpm_change: -5,
            avoid_artist_repeats_within: 3,
            avoid_album_repeats_within: 0,
            min_days_since_last_play: None,
        },
        preference_weights: PreferenceWeights {
            starred_boost: 100_000,
            play_count_weight: 25_000,
            recency_penalty_weight: 10_000,
            randomness_factor: 500,
            discovery_mode: true,
            play_count_filter: None,
        },
        target_length: Some(15),
    };

    let generator = PlaylistGenerator::new(config);

    let empty_playlist = generator.generate_playlist(vec![], Some("Empty".to_string()), Some(5), NOW);
    assert_eq!(empty_playlist.songs.len(), 0);
}

#[test]
fn test_discovery_mode_scoring() {
    let discovery_config = PlaylistConfig {
        name: "Discovery Test".to_string(),
        acceptable_genres: None,
        unacceptable_genres: None,
        bpm_thresholds: None,
        quality_weights: QualityWeights {
            artist_diversity: 500,
            bpm_transition_smoothness: 500,
            genre_coherence: 500,
            popularity_balance: 500,
            era_cohesion: 500,
        },
        transition_rules: TransitionRules {
            max_bpm_jump: 30,
            preferred_bpm_change: 0,
            avoid_artist_repeats_within: 3,
            avoid_album_repeats_within: 0,
            min_days_since_last_play: None,
        },
        preference_weights: PreferenceWeights {
            starred_boost: 0,
            play_count_weight: 1_000,
            recency_penalty_weight: 0,
            randomness_factor: 0,
            discovery_mode: true,
            play_count_filter: None,
        },
        target_length: Some(20),
    };

    let mut normal_config = discovery_config.clone();
    normal_config.preference_weights.discovery_mode = false;

    let unplayed_song = create_mock_song("u", "Unplayed Song", "Artist A", "Album", vec![], Some(120), Some(2023), Some(180), None, false, None);
    let mut low_played_song = create_mock_song("l", "Low Played Song", "Artist A", "Album", vec![], Some(120), Some(2023), Some(180), None, false, None);
    low_played_song.play_count = Some(2);
    let mut high_played_song = create_mock_song("h", "High Played Song", "Artist A", "Album", vec![], Some(120), Some(2023), Some(180), None, false, None);
    high_played_song.play_count = Some(50);

    let unplayed_discovery_score = PlaylistScoring::calculate_preference_score(&unplayed_song, &discovery_config, NOW);
    let low_discovery_score = PlaylistScoring::calculate_preference_score(&low_played_song, &discovery_config, NOW);
    let high_discovery_score = PlaylistScoring::calculate_preference_score(&high_played_song, &discovery_config, NOW);

    assert!(unplayed_discovery_score > low_discovery_score,
        "Unplayed song should score higher than low played song in discovery mode. Unplayed: {}, Low: {}",
        unplayed_discovery_score, low_discovery_score);
    assert!(low_discovery_score > high_discovery_score,
        "Low played song should score higher than high played song in discovery mode. Low: {}, High: {}",
        low_discovery_score, high_discovery_score);

    let unplayed_normal_score = PlaylistScoring::calculate_preference_score(&unplayed_song, &normal_config, NOW);
    let low_normal_score = PlaylistScoring::calculate_preference_score(&low_played_song, &normal_config, NOW);
    let high_normal_score = PlaylistScoring::calculate_preference_score(&high_played_song, &normal_config, NOW);

    assert!(high_normal_score > low_normal_score,
        "High played song should score higher than low played song in normal mode. High: {}, Low: {}",
        high_normal_score, low_normal_score);
    assert!(low_normal_score > unplayed_normal_score,
        "Low played song should score higher than unplayed song in normal mode. Low: {}, Unplayed: {}",
        low_normal_score, unplayed_normal_score);
}

#[test]
fn test_transition_rules_impact() {
    let mut config = create_test_config();
    config.transition_rules.max_bpm_jump = 5;
    config.transition_rules.avoid_artist_repeats_within = 10;

    let generator = PlaylistGenerator::new(config);

    let songs = vec![
        create_mock_song("1", "Song 1", "Artist A", "Album", vec!["Rock"], Some(120), Some(2020), Some(200), Some(5), false, None),
        create_mock_song("2", "Song 2", "Artist A", "Album", vec!["Rock"], Some(122), Some(2020), Some(200), Some(5), false, None),
    ];

    // the artist-repeat window is a hard constraint: with both tracks by
    // one artist inside the window, only one can be placed
    let playlist = generator.generate_playlist(songs, Some("Transition Test".to_string()), Some(2), NOW);
    assert_eq!(playlist.songs.len(), 1);
}
