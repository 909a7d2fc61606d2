use daylist::config::{PlayCountFilter, PlaylistConfig};
use daylist::filters::SongFilters;
use daylist::generator::PlaylistGenerator;
use daylist::metadata::SelectionReason;
use daylist::models::{Genre, Song};
use daylist::naming::{PlaylistNaming, ToTitleCase};
use daylist::numeric::{isqrt_u128, log10_milli_u64, log2_micro_u64};
use daylist::scoring::PlaylistScoring;
use daylist::transitions::PlaylistTransitions;

// Unix seconds for 2025-08-05T00:00:00Z.
const NOW: i64 = 1_754_352_000;

fn song(id: &str, title: &str, artist: &str, album: &str, genre: Option<&str>, bpm: Option<u32>) -> Song {
    Song {
        id: id.to_string(),
        title: title.to_string(),
        artist: artist.to_string(),
        album: album.to_string(),
        genre: genre.map(|g| g.to_string()),
        genres: None,
        bpm,
        duration: Some(200),
        year: Some(2020),
        track: Some(1),
        play_count: Some(3),
        disc_number: None,
        album_id: None,
        artist_id: None,
        played: None,
        starred: None,
        bit_rate: None,
        content_type: None,
    }
}

#[test]
fn test_fixed_point_logarithms() {
    assert_eq!(log2_micro_u64(0), 0);
    assert_eq!(log2_micro_u64(1), 0);
    assert_eq!(log2_micro_u64(2), 1_000_000);
    assert_eq!(log2_micro_u64(3), 1_500_000);
    assert_eq!(log2_micro_u64(8), 3_000_000);
    assert_eq!(log10_milli_u64(1), 0);
    assert_eq!(log10_milli_u64(10), 1_000);
    assert_eq!(log10_milli_u64(50), 1_444);
    assert_eq!(log10_milli_u64(1000), 3_000);
    assert_eq!(isqrt_u128(0), 0);
    assert_eq!(isqrt_u128(122), 11);
    assert_eq!(isqrt_u128(19602), 140);
}

#[test]
fn test_genre_sort_matches_byte_order() {
    let mut s = song("1", "Alpha", "A", "X", Some("Rock"), Some(120));
    s.genres = Some(vec![
        Genre { name: "rock".to_string() },
        Genre { name: "Pop".to_string() },
    ]);
    // lowercased and sorted ascending, as Rust's string order sorts them
    assert_eq!(s.get_all_genres(), vec!["pop".to_string(), "rock".to_string()]);
}

#[test]
fn test_genre_dedup_and_lowercasing() {
    let mut s = song("1", "Alpha", "A", "X", Some("Rock"), Some(120));
    s.genres = Some(vec![
        Genre { name: "ROCK".to_string() },
        Genre { name: "Indie".to_string() },
        Genre { name: "rock".to_string() },
    ]);
    let genres = s.get_all_genres();
    assert_eq!(genres, vec!["indie".to_string(), "rock".to_string()]);
}

#[test]
fn test_default_song_is_unknown() {
    let s = Song::default();
    assert_eq!(s.title, "Unknown");
    assert_eq!(s.artist, "Unknown");
    assert!(s.bpm.is_none() && s.play_count.is_none());
}

#[test]
fn test_genre_coherence_exact_values() {
    // one genre over three tracks: perfectly coherent
    let single = vec![
        song("1", "Alpha", "A", "X", Some("Rock"), Some(120)),
        song("2", "Beta", "B", "Y", Some("Rock"), Some(120)),
        song("3", "Gamma", "C", "Z", Some("Rock"), Some(120)),
    ];
    let md = PlaylistScoring::calculate_metadata(&single);
    assert_eq!(PlaylistScoring::calculate_genre_coherence_score(&md.genre_distribution, 3), 1_000_000);

    // a three-way even split: maximally diverse, exactly zero
    let split = vec![
        song("1", "Alpha", "A", "X", Some("Rock"), Some(120)),
        song("2", "Beta", "B", "Y", Some("Jazz"), Some(120)),
        song("3", "Gamma", "C", "Z", Some("Folk"), Some(120)),
    ];
    let md2 = PlaylistScoring::calculate_metadata(&split);
    assert_eq!(PlaylistScoring::calculate_genre_coherence_score(&md2.genre_distribution, 3), 0);
}

#[test]
fn test_era_cohesion_exact_values() {
    assert_eq!(PlaylistScoring::calculate_era_cohesion_score(&(Some(2000), Some(2000))), 1_000_000);
    assert_eq!(PlaylistScoring::calculate_era_cohesion_score(&(Some(2000), Some(2005))), 687_500);
    assert_eq!(PlaylistScoring::calculate_era_cohesion_score(&(Some(2000), Some(2015))), 350_000);
    assert_eq!(PlaylistScoring::calculate_era_cohesion_score(&(Some(1990), Some(2020))), 160_000);
    assert_eq!(PlaylistScoring::calculate_era_cohesion_score(&(None, None)), 500_000);
}

#[test]
fn test_popularity_balance_exact_values() {
    let mk = |counts: Vec<u32>| -> Vec<Song> {
        counts
            .into_iter()
            .enumerate()
            .map(|(i, c)| {
                let mut s = song(&format!("{}", i), "Alpha", "A", "X", Some("Rock"), Some(120));
                s.play_count = Some(c);
                s
            })
            .collect()
    };
    // all identical counts are not "balanced" at all
    assert_eq!(PlaylistScoring::calculate_popularity_balance_score(&mk(vec![5, 5, 5])), 0);
    // a moderate spread scores high
    assert_eq!(PlaylistScoring::calculate_popularity_balance_score(&mk(vec![1, 10, 5])), 776_428);
    // an extreme spread falls off again
    assert_eq!(PlaylistScoring::calculate_popularity_balance_score(&mk(vec![1, 100, 1])), 628_000);
}

#[test]
fn test_smoothness_exact_values() {
    let mk = |bpms: Vec<u32>| -> Vec<Song> {
        bpms.into_iter()
            .enumerate()
            .map(|(i, b)| song(&format!("{}", i), "Alpha", "A", "X", Some("Rock"), Some(b)))
            .collect()
    };
    assert_eq!(PlaylistScoring::calculate_bpm_transition_smoothness_score(&mk(vec![120, 125, 130])), 1_000_000);
    assert_eq!(PlaylistScoring::calculate_bpm_transition_smoothness_score(&mk(vec![60, 180, 80])), 0);
    assert_eq!(PlaylistScoring::calculate_bpm_transition_smoothness_score(&mk(vec![120])), 500_000);
}

#[test]
fn test_bpm_transition_direction_scores() {
    let mut config = PlaylistConfig::default();
    config.transition_rules.preferred_bpm_change = 0;
    config.transition_rules.max_bpm_jump = 20;
    let a = song("1", "Alpha", "A", "X", None, Some(120));
    let b = song("2", "Beta", "B", "Y", None, Some(120));
    assert_eq!(PlaylistTransitions::calculate_bpm_transition_score(&config, &a, &b), 1_000_000);

    // moving against a preferred speed-up is penalized by its size
    config.transition_rules.preferred_bpm_change = 5;
    let down = song("3", "Gamma", "C", "Z", None, Some(110));
    assert_eq!(PlaylistTransitions::calculate_bpm_transition_score(&config, &a, &down), 250_000);

    // unknown tempo is neutral
    let unknown = song("4", "Delta", "D", "W", None, None);
    assert_eq!(PlaylistTransitions::calculate_bpm_transition_score(&config, &a, &unknown), 500_000);
}

#[test]
fn test_constraint_windows() {
    let placed = vec![
        song("1", "Alpha", "A", "X", None, Some(120)),
        song("2", "Beta", "B", "Y", None, Some(120)),
        song("3", "Gamma", "C", "Z", None, Some(120)),
    ];
    let candidate = song("4", "Delta", "A", "W", None, Some(120));
    assert!(PlaylistTransitions::would_violate_artist_repetition(3, &placed, &candidate));
    assert!(!PlaylistTransitions::would_violate_artist_repetition(2, &placed, &candidate));
    let same_album = song("5", "Epsilon", "E", "Z", None, Some(120));
    assert!(PlaylistTransitions::would_violate_album_repetition(1, &placed, &same_album));
    assert!(!PlaylistTransitions::would_violate_album_repetition(1, &placed, &candidate));
}

#[test]
fn test_cooldown_constraint() {
    let mut fresh = song("1", "Alpha", "A", "X", None, Some(120));
    fresh.played = Some("2025-08-04T00:00:00Z".to_string());
    // played one day before the injected time: violates a 3-day minimum
    assert!(PlaylistTransitions::would_violate_min_days_since_last_play(3, &fresh, NOW));
    assert!(!PlaylistTransitions::would_violate_min_days_since_last_play(1, &fresh, NOW));
    let never = song("2", "Beta", "B", "Y", None, Some(120));
    assert!(!PlaylistTransitions::would_violate_min_days_since_last_play(30, &never, NOW));
}

#[test]
fn test_parse_days_since_played() {
    // exactly one day in milli-days
    assert_eq!(PlaylistScoring::parse_days_since_played("2025-08-04T00:00:00Z", NOW), 1000);
    // an unparsable stamp counts as half a day
    assert_eq!(PlaylistScoring::parse_days_since_played("not a timestamp", NOW), 500);
    // a future stamp never goes negative
    assert_eq!(PlaylistScoring::parse_days_since_played("2025-08-06T00:00:00Z", NOW), 0);
}

#[test]
fn test_play_count_threshold_filter() {
    let mut config = PlaylistConfig::default();
    let pool: Vec<Song> = Vec::new();
    let mut s = song("1", "Alpha", "A", "X", None, Some(120));
    s.play_count = Some(5);

    let cases = [("above", false), ("below", false), ("at_least", true), ("at_most", true)];
    for (op, expect) in cases {
        config.preference_weights.play_count_filter = Some(PlayCountFilter::Threshold {
            operator: op.to_string(),
            count: 5,
        });
        assert_eq!(SongFilters::matches_play_count_filter(&s, &config, &pool), expect, "operator {}", op);
    }
    // an unknown operator accepts everything
    config.preference_weights.play_count_filter = Some(PlayCountFilter::Threshold {
        operator: "sideways".to_string(),
        count: 5,
    });
    assert!(SongFilters::matches_play_count_filter(&s, &config, &pool));
}

#[test]
fn test_play_count_percentile_filter() {
    let mut pool: Vec<Song> = Vec::new();
    for i in 0..10u32 {
        let mut s = song(&format!("{}", i), "Alpha", "A", "X", None, Some(120));
        s.play_count = Some(i);
        pool.push(s);
    }
    let mut config = PlaylistConfig::default();
    // top 30%: the threshold is the sorted count at index 7
    config.preference_weights.play_count_filter = Some(PlayCountFilter::Percentile {
        direction: "top".to_string(),
        percent: 300,
    });
    assert!(SongFilters::matches_play_count_filter(&pool[9], &config, &pool));
    assert!(SongFilters::matches_play_count_filter(&pool[7], &config, &pool));
    assert!(!SongFilters::matches_play_count_filter(&pool[6], &config, &pool));
    // bottom 30%: the threshold is the sorted count at index 3
    config.preference_weights.play_count_filter = Some(PlayCountFilter::Percentile {
        direction: "bottom".to_string(),
        percent: 300,
    });
    assert!(SongFilters::matches_play_count_filter(&pool[0], &config, &pool));
    assert!(SongFilters::matches_play_count_filter(&pool[3], &config, &pool));
    assert!(!SongFilters::matches_play_count_filter(&pool[4], &config, &pool));
}

#[test]
fn test_play_count_exact_never_played_includes_zero() {
    // "never played" means an absent count or a count of zero
    let mut config = PlaylistConfig::default();
    config.preference_weights.play_count_filter = Some(PlayCountFilter::Exact { count: None });
    let pool: Vec<Song> = Vec::new();
    let mut zero = song("1", "Alpha", "A", "X", None, Some(120));
    zero.play_count = Some(0);
    let mut absent = song("2", "Beta", "B", "Y", None, Some(120));
    absent.play_count = None;
    let mut played = song("3", "Gamma", "C", "Z", None, Some(120));
    played.play_count = Some(1);
    assert!(SongFilters::matches_play_count_filter(&zero, &config, &pool));
    assert!(SongFilters::matches_play_count_filter(&absent, &config, &pool));
    assert!(!SongFilters::matches_play_count_filter(&played, &config, &pool));
}

#[test]
fn test_same_direction_tempo_band() {
    // the right direction stays in [0.5, 0.9] however far it overshoots
    let mut config = PlaylistConfig::default();
    config.transition_rules.preferred_bpm_change = 5;
    config.transition_rules.max_bpm_jump = 20;
    let a = song("1", "Alpha", "A", "X", None, Some(120));
    let up10 = song("2", "Beta", "B", "Y", None, Some(130));
    // miss of 5 against a ceiling of 20: 0.5 + 0.4 * 15/20
    assert_eq!(PlaylistTransitions::calculate_bpm_transition_score(&config, &a, &up10), 800_000);
    config.transition_rules.preferred_bpm_change = 30;
    config.transition_rules.max_bpm_jump = 10;
    let up1 = song("3", "Gamma", "C", "Z", None, Some(121));
    // a miss past the ceiling floors at 0.5 instead of leaving the band
    assert_eq!(PlaylistTransitions::calculate_bpm_transition_score(&config, &a, &up1), 500_000);
}

#[test]
fn test_tiny_recency_weight_still_penalizes() {
    // the minimal positive weight never rounds the penalty away
    let mut config = PlaylistConfig::default();
    config.preference_weights.recency_penalty_weight = 1;
    config.preference_weights.randomness_factor = 0;
    let mut recent = song("1", "Alpha", "A", "X", None, Some(120));
    recent.played = Some("2025-07-29T12:00:00Z".to_string());
    let mut old = song("2", "Alpha", "A", "X", None, Some(120));
    old.played = Some("2024-01-01T00:00:00Z".to_string());
    let r = PlaylistScoring::calculate_preference_score(&recent, &config, NOW);
    let o = PlaylistScoring::calculate_preference_score(&old, &config, NOW);
    assert!(r < o);
}

#[test]
fn test_play_count_exact_and_range_filters() {
    let mut config = PlaylistConfig::default();
    let pool: Vec<Song> = Vec::new();
    let mut played5 = song("1", "Alpha", "A", "X", None, Some(120));
    played5.play_count = Some(5);
    let mut never = song("2", "Beta", "B", "Y", None, Some(120));
    never.play_count = None;

    config.preference_weights.play_count_filter = Some(PlayCountFilter::Exact { count: Some(5) });
    assert!(SongFilters::matches_play_count_filter(&played5, &config, &pool));
    assert!(!SongFilters::matches_play_count_filter(&never, &config, &pool));

    config.preference_weights.play_count_filter = Some(PlayCountFilter::Exact { count: None });
    assert!(!SongFilters::matches_play_count_filter(&played5, &config, &pool));
    assert!(SongFilters::matches_play_count_filter(&never, &config, &pool));

    config.preference_weights.play_count_filter = Some(PlayCountFilter::Range { min: Some(2), max: Some(6) });
    assert!(SongFilters::matches_play_count_filter(&played5, &config, &pool));
    assert!(!SongFilters::matches_play_count_filter(&never, &config, &pool));
}

#[test]
fn test_artist_window_never_violated_in_large_pool() {
    // sixty tracks by six artists; the window of three must hold at every
    // position of the generated playlist
    let mut pool: Vec<Song> = Vec::new();
    let artists = ["Ann", "Ben", "Cyd", "Dee", "Eli", "Fay"];
    for i in 0..60usize {
        let mut s = song(
            &format!("{}", i + 1),
            &format!("Groove {}", i + 1),
            artists[i % 6],
            &format!("Album {}", i + 1),
            Some("Rock"),
            Some(120 + (i % 10) as u32),
        );
        s.play_count = Some((i % 7) as u32);
        pool.push(s);
    }
    let mut config = PlaylistConfig::default();
    config.transition_rules.avoid_artist_repeats_within = 3;
    config.transition_rules.max_bpm_jump = 60;
    let generator = PlaylistGenerator::new(config);
    let playlist = generator.generate_playlist(pool, Some("Rotation".to_string()), Some(60), NOW);
    assert!(playlist.songs.len() >= 4);
    let names: Vec<String> = playlist.songs.iter().map(|e| e.song.artist.clone()).collect();
    for i in 0..names.len() {
        for j in (i + 1)..names.len() {
            if j - i <= 3 {
                assert!(names[i] != names[j], "artist repeated at {} and {}", i, j);
            }
        }
    }
    for e in &playlist.songs {
        assert_eq!(e.selection_reason, SelectionReason::BestCandidate);
        assert!(e.transition_score.is_some());
        assert!(e.quality_contribution.is_some());
    }
}

#[test]
fn test_playlist_name_prefix_and_suffix() {
    // 2025-08-04 was a Monday
    let monday: i64 = 1_754_265_600;
    let md = PlaylistScoring::calculate_metadata(&vec![song("1", "Alpha", "A", "X", Some("Rock"), Some(120))]);
    let name = PlaylistNaming::generate_playlist_name("My Mix".to_string(), &md, monday);
    assert!(name.starts_with("my mix monday "), "unexpected name: {}", name);
    assert!(name.len() > "my mix monday ".len());
    let suffix = PlaylistNaming::generate_suffix(&md);
    assert!(!suffix.is_empty());
}

#[test]
fn test_generated_quality_score_is_in_unit_range() {
    let pool: Vec<Song> = (0..12u32)
        .map(|i| {
            let mut s = song(
                &format!("{}", i),
                &format!("Number {}", i),
                &format!("Artist {}", i % 4),
                &format!("Album {}", i),
                if i % 2 == 0 { Some("Rock") } else { Some("Jazz") },
                Some(100 + i),
            );
            s.play_count = Some(i);
            s.year = Some(2010 + i);
            s
        })
        .collect();
    let generator = PlaylistGenerator::new(PlaylistConfig::default());
    let playlist = generator.generate_playlist(pool, None, Some(8), NOW);
    assert!(playlist.quality_score >= 0 && playlist.quality_score <= 1_000_000);
    assert!(playlist.songs.len() <= 8);
    assert_eq!(playlist.base_name_pattern, "Default Playlist");
}

#[test]
fn test_end_to_end_tempo_band_pool() {
    // eighteen synthetic tracks with varied artists, genres, tempos,
    // years and play counts; a profile with a tempo range and a
    // three-track target, default weights otherwise
    let genres = ["Rock", "Pop", "Jazz", "Folk", "Soul", "Funk"];
    let mut pool: Vec<Song> = Vec::new();
    for i in 0..18u32 {
        let mut s = song(
            &format!("{}", i + 1),
            &format!("Cut {}", i + 1),
            &format!("Artist {}", i % 9),
            &format!("Album {}", i + 1),
            Some(genres[(i % 6) as usize]),
            Some(80 + i * 5),
        );
        s.year = Some(1990 + i * 2);
        s.play_count = Some(i % 5);
        s.duration = Some(180 + i * 7);
        pool.push(s);
    }
    let mut config = PlaylistConfig::default();
    config.bpm_thresholds = Some(daylist::config::BpmThresholds { min_bpm: 100, max_bpm: 150 });
    config.target_length = Some(3);
    let generator = PlaylistGenerator::new(config);
    let playlist = generator.generate_playlist(pool, None, Some(3), NOW);
    assert_eq!(playlist.songs.len(), 3);
    for entry in &playlist.songs {
        let bpm = entry.song.bpm.expect("synthetic tracks all carry a tempo");
        assert!((100..=150).contains(&bpm));
    }
    assert!(playlist.metadata.total_duration > 0);
    assert!(playlist.metadata.artist_count > 0);
}

#[test]
fn test_generation_drops_non_songs() {
    let mut pool = vec![
        song("1", "Interlude", "Ann", "A", Some("Rock"), Some(120)),
        song("2", "Skit Fragment", "Ben", "B", Some("Rock"), Some(121)),
        song("3", "Left of the Dial", "Cyd", "C", Some("Rock"), Some(122)),
        song("4", "Golden Hour", "Dee", "D", Some("Rock"), Some(123)),
    ];
    pool[1].duration = Some(40);
    let generator = PlaylistGenerator::new(PlaylistConfig::default());
    let playlist = generator.generate_playlist(pool, None, Some(10), NOW);
    let titles: Vec<&str> = playlist.songs.iter().map(|e| e.song.title.as_str()).collect();
    assert_eq!(playlist.songs.len(), 2);
    assert!(titles.contains(&"Left of the Dial"));
    assert!(titles.contains(&"Golden Hour"));
}

#[test]
fn test_unconstrained_profile_fills_to_target() {
    // with no repeat windows, no cooldown and an unreachable jump
    // ceiling, the playlist always reaches min(target, pool)
    let mut config = PlaylistConfig::default();
    config.transition_rules.avoid_artist_repeats_within = 0;
    config.transition_rules.avoid_album_repeats_within = 0;
    config.transition_rules.min_days_since_last_play = None;
    config.transition_rules.max_bpm_jump = u32::MAX;
    let pool: Vec<Song> = (0..5u32)
        .map(|i| song(&format!("{}", i), &format!("Groove {}", i), "Ann", "Album", Some("Rock"), Some(60 + i * 40)))
        .collect();
    let generator = PlaylistGenerator::new(config);
    let playlist = generator.generate_playlist(pool.clone(), None, Some(3), NOW);
    assert_eq!(playlist.songs.len(), 3);
    let generator2 = PlaylistGenerator::new({
        let mut c = PlaylistConfig::default();
        c.transition_rules.avoid_artist_repeats_within = 0;
        c.transition_rules.max_bpm_jump = u32::MAX;
        c
    });
    let playlist2 = generator2.generate_playlist(pool, None, Some(9), NOW);
    assert_eq!(playlist2.songs.len(), 5);
    assert_eq!(playlist2.track_ids().len(), 5);
}

#[test]
fn test_title_case() {
    assert_eq!("hello world".to_title_case(), "Hello World");
    assert_eq!("  ROCK and  rOLL ".to_title_case(), "Rock And Roll");
    assert_eq!("".to_title_case(), "");
    assert_eq!("x".to_title_case(), "X");
}

#[test]
fn test_suffix_tokens_come_from_gated_sets() {
    // a single-genre, mid-tempo, same-year set: the suffix can only hold
    // "rock", "steady|cruising|flowing|smooth", the era label and a noun
    let tracks = vec![song("1", "Alpha", "A", "X", Some("Rock"), Some(120))];
    let md = PlaylistScoring::calculate_metadata(&tracks);
    let nouns = [
        "tunes", "vibes", "jams", "melodies", "grooves", "beats", "rhythms", "sounds", "tracks",
        "set", "mix", "selection", "session", "collection", "playlist", "rotation", "queue",
        "lineup", "compilation", "showcase", "edition", "medley", "blend", "fusion",
    ];
    let descriptors = ["rock", "steady", "cruising", "flowing", "smooth", "pandemic"];
    for _ in 0..20 {
        let sfx = PlaylistNaming::generate_suffix(&md);
        let words: Vec<&str> = sfx.split(' ').collect();
        assert!(!words.is_empty() && words.len() <= 3);
        assert!(nouns.contains(words.last().unwrap()), "unexpected noun in {}", sfx);
        for w in &words[..words.len() - 1] {
            assert!(descriptors.contains(w), "unexpected descriptor {} in {}", w, sfx);
        }
    }
}
