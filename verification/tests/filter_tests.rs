use daylist::filters::SongFilters;
use daylist::models::Song;

fn create_test_song(title: &str, duration: Option<u32>) -> Song {
    Song {
        id: "test".to_string(),
        title: title.to_string(),
        artist: "Test Artist".to_string(),
        album: "Test Album".to_string(),
        genre: None,
        genres: None,
        bpm: Some(120),
        duration,
        year: Some(2023),
        track: Some(1),
        play_count: None,
        disc_number: None,
        album_id: None,
        artist_id: None,
        played: None,
        starred: None,
        bit_rate: None,
        content_type: None,
    }
}

#[test]
fn test_filters_interludes() {
    let interlude = create_test_song("Interlude", Some(60));
    let intro = create_test_song("Intro", Some(30));
    let outro = create_test_song("Outro (Extended)", Some(45));
    let actual_song = create_test_song("Beautiful Song", Some(180));

    assert!(!SongFilters::is_actual_song(&interlude));
    assert!(!SongFilters::is_actual_song(&intro));
    assert!(!SongFilters::is_actual_song(&outro));
    assert!(SongFilters::is_actual_song(&actual_song));
}

#[test]
fn test_filters_sketches() {
    let sketch = create_test_song("Comedy Sketch #3", Some(90));
    let fragment = create_test_song("Song Fragment", Some(25));
    let actual_song = create_test_song("Real Song Title", Some(210));

    assert!(!SongFilters::is_actual_song(&sketch));
    assert!(!SongFilters::is_actual_song(&fragment));
    assert!(SongFilters::is_actual_song(&actual_song));
}

#[test]
fn test_filters_by_duration() {
    let too_short = create_test_song("Short Track", Some(15));
    let too_long = create_test_song("Long Mix", Some(1200));
    let good_length = create_test_song("Normal Song", Some(240));

    assert!(!SongFilters::is_actual_song(&too_short));
    assert!(!SongFilters::is_actual_song(&too_long));
    assert!(SongFilters::is_actual_song(&good_length));
}

#[test]
fn test_filters_spoken_content() {
    let interview = create_test_song("Artist Interview", Some(300));
    let monologue = create_test_song("Opening Monologue", Some(120));
    let spoken_word_song = create_test_song("Spoken Word Piece", Some(180));
    let song_about_speech = create_test_song("Song About Speaking", Some(180));

    assert!(!SongFilters::is_actual_song(&interview));
    assert!(!SongFilters::is_actual_song(&monologue));
    assert!(!SongFilters::is_actual_song(&spoken_word_song));
    assert!(SongFilters::is_actual_song(&song_about_speech));
}

#[test]
fn test_handles_parenthetical_indicators() {
    let interlude_parens = create_test_song("Song Title (Interlude)", Some(60));
    let intro_parens = create_test_song("Album Opener (Intro)", Some(45));
    let instrumental_short = create_test_song("Brief (Instrumental)", Some(60));
    let instrumental_long = create_test_song("Epic Journey (Instrumental)", Some(420));

    assert!(!SongFilters::is_actual_song(&interlude_parens));
    assert!(!SongFilters::is_actual_song(&intro_parens));
    assert!(!SongFilters::is_actual_song(&instrumental_short));
    assert!(SongFilters::is_actual_song(&instrumental_long));
}

#[test]
fn test_uppercase_titles_are_lowercased_before_matching() {
    // the whole heuristic works on the lowercased title
    let shouted = create_test_song("INTERLUDE", Some(120));
    let mixed = create_test_song("Nature Sounds", Some(180));
    assert!(!SongFilters::is_actual_song(&shouted));
    assert!(!SongFilters::is_actual_song(&mixed));
}

#[test]
fn test_interlude_any_duration_vs_plain_song() {
    // a track titled exactly "Interlude" is out at any duration, and a
    // normally named four-minute track with no filters configured is in
    let config = daylist::config::PlaylistConfig::default();
    for d in [None, Some(30), Some(120), Some(400)] {
        let interlude = create_test_song("Interlude", d);
        assert!(!SongFilters::should_include_song(&interlude, &config));
    }
    let plain = create_test_song("Golden Hour", Some(240));
    assert!(SongFilters::should_include_song(&plain, &config));
}

#[test]
fn test_numeric_and_track_marker_titles() {
    assert!(!SongFilters::is_actual_song(&create_test_song("12", Some(180))));
    assert!(!SongFilters::is_actual_song(&create_test_song("3.14-2", Some(180))));
    assert!(!SongFilters::is_actual_song(&create_test_song("Track 07", Some(180))));
    assert!(SongFilters::is_actual_song(&create_test_song("Track Record", Some(180))));
}
