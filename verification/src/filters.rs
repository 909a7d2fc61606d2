//! The track filter: decides whether a raw metadata record is an eligible
//! candidate at all.
//!
//! A track is rejected when its title matches a known non-song keyword
//! (interludes, sketches, spoken word, ambient markers and the like), when
//! its duration is implausible for a song, when the title is a bare number
//! or a track marker, or when it fails the profile's genre, tempo or
//! play-count rules.  All checks are AND-combined.

use vstd::prelude::*;

verus! {

use vstd::relations::{sorted_by, total_ordering};
use crate::strings::{
    lower_of, lowercase, to_chars, contains_seq, contains_chars, contains_at, title_has_pattern,
    title_has_pattern_chars, trimmed, trim_bounds, is_digit_char, is_digit, is_space_char,
    starts_with_chars, str_eq_str,
};
use crate::models::{Song, views_of, matches_genre_patterns};
use crate::config::{PlaylistConfig, PlayCountFilter};

/// Song filtering as static helper functions.
pub struct SongFilters;

/// The title matches one of the non-song keywords, as a whole title,
/// a whole word, a space-separated occurrence, or a leading "keyword:".
pub open spec fn non_song_keyword_hit(t: Seq<char>) -> bool {
    ||| title_has_pattern(t, "interlude"@)
    ||| title_has_pattern(t, "intro"@)
    ||| title_has_pattern(t, "outro"@)
    ||| title_has_pattern(t, "prelude"@)
    ||| title_has_pattern(t, "postlude"@)
    ||| title_has_pattern(t, "bridge"@)
    ||| title_has_pattern(t, "transition"@)
    ||| title_has_pattern(t, "segue"@)
    ||| title_has_pattern(t, "sketch"@)
    ||| title_has_pattern(t, "fragment"@)
    ||| title_has_pattern(t, "snippet"@)
    ||| title_has_pattern(t, "bits"@)
    ||| title_has_pattern(t, "piece"@)
    ||| title_has_pattern(t, "monologue"@)
    ||| title_has_pattern(t, "dialogue"@)
    ||| title_has_pattern(t, "speech"@)
    ||| title_has_pattern(t, "interview"@)
    ||| title_has_pattern(t, "conversation"@)
    ||| title_has_pattern(t, "discussion"@)
    ||| title_has_pattern(t, "atmosphere"@)
    ||| title_has_pattern(t, "soundscape"@)
    ||| title_has_pattern(t, "field recording"@)
    ||| title_has_pattern(t, "rain"@)
    ||| title_has_pattern(t, "ocean"@)
    ||| title_has_pattern(t, "wind"@)
    ||| title_has_pattern(t, "nature sounds"@)
    ||| title_has_pattern(t, "meditation"@)
    ||| title_has_pattern(t, "mantra"@)
    ||| title_has_pattern(t, "prayer"@)
    ||| title_has_pattern(t, "chant"@)
    ||| title_has_pattern(t, "silence"@)
    ||| title_has_pattern(t, "pause"@)
    ||| title_has_pattern(t, "break"@)
    ||| title_has_pattern(t, "intermission"@)
    ||| title_has_pattern(t, "announcement"@)
    ||| title_has_pattern(t, "commercial"@)
    ||| title_has_pattern(t, "ad"@)
    ||| title_has_pattern(t, "test"@)
    ||| title_has_pattern(t, "testing"@)
    ||| title_has_pattern(t, "tuning"@)
    ||| title_has_pattern(t, "int."@)
    ||| title_has_pattern(t, "intro."@)
    ||| title_has_pattern(t, "outro."@)
    ||| title_has_pattern(t, "interl."@)
    ||| title_has_pattern(t, "untitled"@)
}

fn hit(t: &Vec<char>, p: &str) -> (b: bool)
    ensures
        b == title_has_pattern(t@, p@),
{
    let pv = to_chars(p);
    title_has_pattern_chars(t, &pv)
}

fn matches_non_song(t: &Vec<char>) -> (b: bool)
    ensures
        b == non_song_keyword_hit(t@),
{
    if hit(t, "interlude") { return true; }
    if hit(t, "intro") { return true; }
    if hit(t, "outro") { return true; }
    if hit(t, "prelude") { return true; }
    if hit(t, "postlude") { return true; }
    if hit(t, "bridge") { return true; }
    if hit(t, "transition") { return true; }
    if hit(t, "segue") { return true; }
    if hit(t, "sketch") { return true; }
    if hit(t, "fragment") { return true; }
    if hit(t, "snippet") { return true; }
    if hit(t, "bits") { return true; }
    if hit(t, "piece") { return true; }
    if hit(t, "monologue") { return true; }
    if hit(t, "dialogue") { return true; }
    if hit(t, "speech") { return true; }
    if hit(t, "interview") { return true; }
    if hit(t, "conversation") { return true; }
    if hit(t, "discussion") { return true; }
    if hit(t, "atmosphere") { return true; }
    if hit(t, "soundscape") { return true; }
    if hit(t, "field recording") { return true; }
    if hit(t, "rain") { return true; }
    if hit(t, "ocean") { return true; }
    if hit(t, "wind") { return true; }
    if hit(t, "nature sounds") { return true; }
    if hit(t, "meditation") { return true; }
    if hit(t, "mantra") { return true; }
    if hit(t, "prayer") { return true; }
    if hit(t, "chant") { return true; }
    if hit(t, "silence") { return true; }
    if hit(t, "pause") { return true; }
    if hit(t, "break") { return true; }
    if hit(t, "intermission") { return true; }
    if hit(t, "announcement") { return true; }
    if hit(t, "commercial") { return true; }
    if hit(t, "ad") { return true; }
    if hit(t, "test") { return true; }
    if hit(t, "testing") { return true; }
    if hit(t, "tuning") { return true; }
    if hit(t, "int.") { return true; }
    if hit(t, "intro.") { return true; }
    if hit(t, "outro.") { return true; }
    if hit(t, "interl.") { return true; }
    if hit(t, "untitled") { return true; }
    false
}

/// The duration is known and below the limit.
pub open spec fn duration_below(d: Option<u32>, lim: u32) -> bool {
    match d {
        Some(x) => x < lim,
        None => false,
    }
}

/// The duration is known and above the limit.
pub open spec fn duration_above(d: Option<u32>, lim: u32) -> bool {
    match d {
        Some(x) => x > lim,
        None => false,
    }
}

/// A character a bare track-number title may consist of.
pub open spec fn is_numericish_char(c: char) -> bool {
    is_digit_char(c) || c == '.' || c == '-'
}

/// Every character is a digit, a dot or a dash.
pub open spec fn all_numericish(s: Seq<char>) -> bool {
    forall|k: int| 0 <= k < s.len() ==> is_numericish_char(#[trigger] s[k])
}

/// The trimmed title is at most two characters or purely numeric.
pub open spec fn short_or_numeric_title(t: Seq<char>) -> bool {
    trimmed(t).len() <= 2 || all_numericish(trimmed(t))
}

/// A parenthetical non-song marker; "(instrumental)" only counts when the
/// track is also short, since long instrumentals are plausible songs.
pub open spec fn parenthetical_hit(t: Seq<char>, duration: Option<u32>) -> bool {
    ||| contains_seq(t, "(interlude)"@)
    ||| contains_seq(t, "(intro)"@)
    ||| contains_seq(t, "(outro)"@)
    ||| contains_seq(t, "(sketch)"@)
    ||| (contains_seq(t, "(instrumental)"@) && duration_below(duration, 90))
}

/// A title of the form "track " followed only by digits and whitespace.
pub open spec fn track_marker_title(t: Seq<char>) -> bool {
    &&& contains_at(t, "track "@, 0)
    &&& forall|k: int|
        6 <= k < t.len() ==> is_digit_char(#[trigger] t[k]) || is_space_char(t[k])
}

/// The whole non-song heuristic over the lowercased title and duration.
pub open spec fn is_actual_song_spec(song: Song) -> bool {
    let t = lower_of(song.title@);
    &&& !non_song_keyword_hit(t)
    &&& !duration_below(song.duration, 60)
    &&& !duration_above(song.duration, 600)
    &&& !short_or_numeric_title(t)
    &&& !parenthetical_hit(t, song.duration)
    &&& !track_marker_title(t)
}

/// The genre allow-list: absent means every song passes.
pub open spec fn matches_acceptable_genres_spec(song: Song, config: PlaylistConfig) -> bool {
    match config.acceptable_genres {
        None => true,
        Some(gs) => matches_genre_patterns(song, views_of(gs@)),
    }
}

/// The genre deny-list: absent means every song passes; it takes
/// precedence over the allow-list since the checks are AND-combined.
pub open spec fn no_unacceptable_genres_spec(song: Song, config: PlaylistConfig) -> bool {
    match config.unacceptable_genres {
        None => true,
        Some(gs) => !matches_genre_patterns(song, views_of(gs@)),
    }
}

/// The tempo range: songs without tempo data pass as neutral.
pub open spec fn matches_bpm_thresholds_spec(song: Song, config: PlaylistConfig) -> bool {
    match config.bpm_thresholds {
        None => true,
        Some(th) => match song.bpm {
            None => true,
            Some(b) => th.min_bpm <= b && b <= th.max_bpm,
        },
    }
}

/// The play count of a song, with "never played" as zero.
pub open spec fn play_count_or_zero(song: Song) -> u32 {
    match song.play_count {
        Some(c) => c,
        None => 0,
    }
}

/// The play counts of the whole pool, in pool order.
pub open spec fn pool_play_counts(songs: Seq<Song>) -> Seq<u32> {
    songs.map_values(|s: Song| play_count_or_zero(s))
}

/// The ascending order on play counts.
pub open spec fn u32_leq() -> spec_fn(u32, u32) -> bool {
    |a: u32, b: u32| a <= b
}

/// The pool's play counts sorted ascending.
pub open spec fn sorted_pool_counts(songs: Seq<Song>) -> Seq<u32> {
    pool_play_counts(songs).sort_by(u32_leq())
}

/// The sorted play count at `idx`, or zero when out of range.
pub open spec fn percentile_threshold(songs: Seq<Song>, idx: int) -> u32 {
    let s = sorted_pool_counts(songs);
    if 0 <= idx < s.len() {
        s[idx]
    } else {
        0
    }
}

/// The play-count filter.  Percentile thresholds are computed over the
/// whole pool, not just the filtered songs; an unknown operator or
/// direction accepts everything.
pub open spec fn matches_play_count_filter_spec(
    song: Song,
    config: PlaylistConfig,
    pool: Seq<Song>,
) -> bool {
    match config.preference_weights.play_count_filter {
        None => true,
        Some(f) => match f {
            PlayCountFilter::Unfiltered => true,
            PlayCountFilter::Exact { count } => match count {
                Some(tc) => song.play_count == Some(tc),
                // no target count means never played: absent or zero
                None => play_count_or_zero(song) == 0,
            },
            PlayCountFilter::Range { min, max } => {
                let c = play_count_or_zero(song);
                &&& (match min {
                    Some(m) => c >= m,
                    None => true,
                })
                &&& (match max {
                    Some(m) => c <= m,
                    None => true,
                })
            },
            PlayCountFilter::Threshold { operator, count } => {
                let c = play_count_or_zero(song);
                if operator@ == "above"@ {
                    c > count
                } else if operator@ == "below"@ {
                    c < count
                } else if operator@ == "at_least"@ {
                    c >= count
                } else if operator@ == "at_most"@ {
                    c <= count
                } else {
                    true
                }
            },
            PlayCountFilter::Percentile { direction, percent } => {
                let c = play_count_or_zero(song);
                let n = pool.len() as int;
                let pc = if percent > 1000 {
                    1000 as int
                } else {
                    percent as int
                };
                if direction@ == "top"@ {
                    c >= percentile_threshold(pool, (1000 - pc) * n / 1000)
                } else if direction@ == "bottom"@ {
                    c <= percentile_threshold(pool, pc * n / 1000)
                } else {
                    true
                }
            },
        },
    }
}

/// All profile filters AND-combined, except the play-count filter.
pub open spec fn should_include_song_spec(song: Song, config: PlaylistConfig) -> bool {
    &&& is_actual_song_spec(song)
    &&& matches_acceptable_genres_spec(song, config)
    &&& no_unacceptable_genres_spec(song, config)
    &&& matches_bpm_thresholds_spec(song, config)
}

/// Every filter, the play-count filter included.
pub open spec fn should_include_song_full_spec(
    song: Song,
    config: PlaylistConfig,
    pool: Seq<Song>,
) -> bool {
    should_include_song_spec(song, config) && matches_play_count_filter_spec(song, config, pool)
}

/// An ascending sort of 32-bit values, equal to the specification-level
/// `sort_by` of the input.
fn sort_u32(input: Vec<u32>) -> (r: Vec<u32>)
    ensures
        r@ == input@.sort_by(u32_leq()),
{
    let ghost orig = input@;
    let mut rem = input;
    let mut out: Vec<u32> = Vec::new();
    proof {
        broadcast use vstd::seq_lib::group_to_multiset_ensures;
        broadcast use vstd::multiset::group_multiset_axioms;

        assert(out@.to_multiset().add(rem@.to_multiset()) =~= orig.to_multiset());
    }
    while rem.len() > 0
        invariant
            sorted_by(out@, u32_leq()),
            out@.to_multiset().add(rem@.to_multiset()) == orig.to_multiset(),
            forall|i: int, j: int|
                0 <= i < out@.len() && 0 <= j < rem@.len() ==> out@[i] <= rem@[j],
        decreases rem@.len(),
    {
        let mut mi: usize = 0;
        let mut k: usize = 1;
        while k < rem.len()
            invariant
                rem@.len() > 0,
                mi < k <= rem@.len(),
                forall|j: int| 0 <= j < k ==> rem@[mi as int] <= rem@[j],
            decreases rem@.len() - k,
        {
            if rem[k] < rem[mi] {
                mi = k;
            }
            k = k + 1;
        }
        let ghost rem_before = rem@;
        let ghost out_before = out@;
        let x = rem.remove(mi);
        out.push(x);
        proof {
            broadcast use vstd::seq_lib::group_to_multiset_ensures;
            broadcast use vstd::multiset::group_multiset_axioms;

            let leq = u32_leq();
            assert(x == rem_before[mi as int]);
            assert(forall|j: int| 0 <= j < rem_before.len() ==> x <= rem_before[j]);
            assert(out@ == out_before.push(x));
            assert(rem@ == rem_before.remove(mi as int));
            assert forall|i: int, j: int| 0 <= i < j < out@.len() implies leq(
                out@[i],
                out@[j],
            ) by {
                if j < out_before.len() {
                    assert(leq(out_before[i], out_before[j]));
                } else {
                    assert(out@[j] == x);
                    assert(out_before[i] <= rem_before[mi as int]);
                }
            }
            assert forall|i: int, j: int|
                0 <= i < out@.len() && 0 <= j < rem@.len() implies out@[i] <= rem@[j] by {
                let w = if j < mi as int {
                    j
                } else {
                    j + 1
                };
                assert(rem@[j] == rem_before[w]);
                if i < out_before.len() {
                    assert(out_before[i] <= rem_before[w]);
                } else {
                    assert(out@[i] == x);
                }
            }
            assert(rem_before.to_multiset().count(x) > 0) by {
                assert(rem_before.contains(x));
            }
            assert(out@.to_multiset().add(rem@.to_multiset()) =~= orig.to_multiset()) by {
                assert(out@.to_multiset() =~= out_before.to_multiset().insert(x));
                assert(rem@.to_multiset() =~= rem_before.to_multiset().remove(x));
            }
        }
    }
    proof {
        broadcast use vstd::seq_lib::group_to_multiset_ensures;
        broadcast use vstd::multiset::group_multiset_axioms;

        let leq = u32_leq();
        assert(rem@ =~= Seq::<u32>::empty());
        assert(rem@.to_multiset() =~= vstd::multiset::Multiset::<u32>::empty());
        assert(out@.to_multiset() =~= orig.to_multiset());
        assert(total_ordering(leq)) by {
            assert forall|x: u32, y: u32| #[trigger] leq(x, y) || #[trigger] leq(y, x) by {}
        }
        orig.lemma_sort_by_ensures(leq);
        vstd::seq_lib::lemma_sorted_unique(out@, orig.sort_by(leq), leq);
        assert(out@ =~= orig.sort_by(leq));
    }
    out
}

impl SongFilters {
    /// Whether a track is an actual song rather than an interlude,
    /// sketch, spoken-word piece or other non-musical entry.
    pub fn is_actual_song(song: &Song) -> (b: bool)
        ensures
            b == is_actual_song_spec(*song),
    {
        let lt = lowercase(song.title.as_str());
        let t = to_chars(lt.as_str());
        if matches_non_song(&t) {
            return false;
        }
        match song.duration {
            Some(d) => {
                if d < 60 {
                    return false;
                }
                if d > 600 {
                    return false;
                }
            },
            None => {},
        }
        let bounds = trim_bounds(&t);
        let lo = bounds.0;
        let hi = bounds.1;
        if hi - lo <= 2 {
            return false;
        }
        let mut k: usize = lo;
        let mut numericish = true;
        while k < hi
            invariant
                lo <= k <= hi <= t@.len(),
                numericish ==> forall|m: int|
                    lo <= m < k ==> is_numericish_char(#[trigger] t@[m]),
                !numericish ==> exists|m: int|
                    lo <= m < hi && !is_numericish_char(#[trigger] t@[m]),
            decreases hi - k,
        {
            let c = t[k];
            if !(is_digit(c) || c == '.' || c == '-') {
                numericish = false;
            }
            k = k + 1;
        }
        proof {
            let tr = trimmed(t@);
            assert(tr == t@.subrange(lo as int, hi as int));
            if numericish {
                assert forall|j: int| 0 <= j < tr.len() implies is_numericish_char(
                    #[trigger] tr[j],
                ) by {
                    assert(tr[j] == t@[lo + j]);
                }
                assert(all_numericish(tr));
            } else {
                let m = choose|m: int| lo <= m < hi && !is_numericish_char(#[trigger] t@[m]);
                assert(tr[m - lo] == t@[m]);
                assert(!all_numericish(tr));
            }
        }
        if numericish {
            return false;
        }
        if contains_chars(&t, &to_chars("(interlude)")) {
            return false;
        }
        if contains_chars(&t, &to_chars("(intro)")) {
            return false;
        }
        if contains_chars(&t, &to_chars("(outro)")) {
            return false;
        }
        if contains_chars(&t, &to_chars("(sketch)")) {
            return false;
        }
        let short90 = match song.duration {
            Some(d) => d < 90,
            None => false,
        };
        if short90 && contains_chars(&t, &to_chars("(instrumental)")) {
            return false;
        }
        if starts_with_chars(&t, &to_chars("track ")) {
            let n = t.len();
            let mut k: usize = if n < 6 {
                n
            } else {
                6
            };
            let mut all_num: bool = true;
            while k < n
                invariant
                    k <= n,
                    6 <= k || k == n,
                    n == t@.len(),
                    all_num ==> forall|m: int|
                        6 <= m < k ==> is_digit_char(#[trigger] t@[m]) || is_space_char(t@[m]),
                    !all_num ==> exists|m: int|
                        6 <= m < n && !(is_digit_char(#[trigger] t@[m]) || is_space_char(t@[m])),
                decreases n - k,
            {
                let c = t[k];
                let dig = is_digit(c);
                let sp = c == ' ' || c == '\t' || c == '\n' || c == '\r';
                if !(dig || sp) {
                    all_num = false;
                }
                k = k + 1;
            }
            if all_num {
                return false;
            }
        }
        true
    }

    /// Whether the song passes the genre allow-list.
    pub fn matches_acceptable_genres(song: &Song, config: &PlaylistConfig) -> (r: bool)
        ensures
            r == matches_acceptable_genres_spec(*song, *config),
    {
        match &config.acceptable_genres {
            None => true,
            Some(gs) => song.matches_genre_patterns_string(gs.as_slice()),
        }
    }

    /// Whether the song passes the genre deny-list.
    pub fn does_not_match_unacceptable_genres(song: &Song, config: &PlaylistConfig) -> (r: bool)
        ensures
            r == no_unacceptable_genres_spec(*song, *config),
    {
        match &config.unacceptable_genres {
            None => true,
            Some(gs) => !song.matches_genre_patterns_string(gs.as_slice()),
        }
    }

    /// Whether the song's tempo lies in the configured range; songs with
    /// unknown tempo pass.
    pub fn matches_bpm_thresholds(song: &Song, config: &PlaylistConfig) -> (r: bool)
        ensures
            r == matches_bpm_thresholds_spec(*song, *config),
    {
        match &config.bpm_thresholds {
            None => true,
            Some(th) => match song.bpm {
                None => true,
                Some(b) => th.min_bpm <= b && b <= th.max_bpm,
            },
        }
    }

    /// Whether the song passes the configured play-count filter; the
    /// percentile modes rank the song against the whole pool.
    pub fn matches_play_count_filter(
        song: &Song,
        config: &PlaylistConfig,
        all_songs: &[Song],
    ) -> (r: bool)
        ensures
            r == matches_play_count_filter_spec(*song, *config, all_songs@),
    {
        let filter = match &config.preference_weights.play_count_filter {
            None => {
                return true;
            },
            Some(f) => f,
        };
        let c = match song.play_count {
            Some(pc) => pc,
            None => 0,
        };
        match filter {
            PlayCountFilter::Unfiltered => true,
            PlayCountFilter::Exact { count } => match count {
                Some(tc) => match song.play_count {
                    Some(pc) => pc == *tc,
                    None => false,
                },
                None => c == 0,
            },
            PlayCountFilter::Range { min, max } => {
                let min_ok = match min {
                    Some(m) => c >= *m,
                    None => true,
                };
                let max_ok = match max {
                    Some(m) => c <= *m,
                    None => true,
                };
                min_ok && max_ok
            },
            PlayCountFilter::Threshold { operator, count } => {
                if str_eq_str(operator.as_str(), "above") {
                    c > *count
                } else if str_eq_str(operator.as_str(), "below") {
                    c < *count
                } else if str_eq_str(operator.as_str(), "at_least") {
                    c >= *count
                } else if str_eq_str(operator.as_str(), "at_most") {
                    c <= *count
                } else {
                    true
                }
            },
            PlayCountFilter::Percentile { direction, percent } => {
                let is_top = str_eq_str(direction.as_str(), "top");
                let is_bottom = str_eq_str(direction.as_str(), "bottom");
                if !is_top && !is_bottom {
                    return true;
                }
                let n = all_songs.len();
                let mut counts: Vec<u32> = Vec::new();
                let mut i: usize = 0;
                while i < n
                    invariant
                        i <= n,
                        n == all_songs@.len(),
                        counts@.len() == i,
                        forall|j: int|
                            0 <= j < i ==> counts@[j] == play_count_or_zero(
                                #[trigger] all_songs@[j],
                            ),
                    decreases n - i,
                {
                    let pc = match all_songs[i].play_count {
                        Some(x) => x,
                        None => 0,
                    };
                    counts.push(pc);
                    i = i + 1;
                }
                proof {
                    assert(counts@ =~= pool_play_counts(all_songs@));
                }
                let ghost countsv = counts@;
                let sorted = sort_u32(counts);
                proof {
                    assert(sorted@ == countsv.sort_by(u32_leq()));
                    assert(countsv == pool_play_counts(all_songs@));
                    assert(sorted@ == sorted_pool_counts(all_songs@));
                    pool_play_counts(all_songs@).lemma_sort_by_ensures(u32_leq());
                    broadcast use vstd::seq_lib::group_to_multiset_ensures;

                    assert(sorted@.to_multiset().len() == sorted@.len());
                    assert(pool_play_counts(all_songs@).to_multiset().len() == pool_play_counts(
                        all_songs@,
                    ).len());
                    assert(sorted@.len() == all_songs@.len());
                }
                let pc: u32 = if *percent > 1000 {
                    1000
                } else {
                    *percent
                };
                proof {
                    assert(pc <= 1000);
                }
                if is_top {
                    let a: u128 = (1000 - pc) as u128;
                    let b: u128 = n as u128;
                    proof {
                        assert(a * b <= 1000 * 0xffff_ffff_ffff_ffffu128) by (nonlinear_arith)
                            requires
                                a <= 1000,
                                b <= 0xffff_ffff_ffff_ffffu128,
                        ;
                        assert(a * b / 1000 <= b) by (nonlinear_arith)
                            requires
                                a <= 1000,
                        ;
                    }
                    let idx128: u128 = a * b / 1000;
                    let idx: usize = idx128 as usize;
                    let th = if idx < sorted.len() {
                        sorted[idx]
                    } else {
                        0
                    };
                    c >= th
                } else {
                    let a: u128 = pc as u128;
                    let b: u128 = n as u128;
                    proof {
                        assert(a * b <= 1000 * 0xffff_ffff_ffff_ffffu128) by (nonlinear_arith)
                            requires
                                a <= 1000,
                                b <= 0xffff_ffff_ffff_ffffu128,
                        ;
                        assert(a * b / 1000 <= b) by (nonlinear_arith)
                            requires
                                a <= 1000,
                        ;
                    }
                    let idx128: u128 = a * b / 1000;
                    let idx: usize = idx128 as usize;
                    let th = if idx < sorted.len() {
                        sorted[idx]
                    } else {
                        0
                    };
                    c <= th
                }
            },
        }
    }

    /// All filters except the play-count filter, AND-combined.
    pub fn should_include_song(song: &Song, config: &PlaylistConfig) -> (r: bool)
        ensures
            r == should_include_song_spec(*song, *config),
    {
        Self::is_actual_song(song) && Self::matches_acceptable_genres(song, config)
            && Self::does_not_match_unacceptable_genres(song, config)
            && Self::matches_bpm_thresholds(song, config)
    }

    /// Every filter, the play-count filter included; the pool is needed
    /// for the percentile thresholds.
    pub fn should_include_song_with_play_count_filter(
        song: &Song,
        config: &PlaylistConfig,
        all_songs: &[Song],
    ) -> (r: bool)
        ensures
            r == should_include_song_full_spec(*song, *config, all_songs@),
    {
        Self::should_include_song(song, config) && Self::matches_play_count_filter(
            song,
            config,
            all_songs,
        )
    }
}

} // verus!
