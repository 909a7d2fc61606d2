//! Aggregate statistics of a track set: the pure function behind
//! `PlaylistMetadata`.
//!
//! Pool sizes are capped at 2^32 tracks and 2^32 genre occurrences; that
//! is a word-size headroom bound for the fixed-point sums, not a rule of
//! the heuristics.

use vstd::prelude::*;

verus! {

use crate::models::{
    Song, views_of, song_genres, dedup_first, lemma_dedup_first_membership,
    lemma_dedup_first_no_dups, lemma_dedup_first_len_le, vec_has_string, seq_has_string,
};
use crate::genres::{
    genres_flat, occ, songs_hist, hist_of, lemma_hist_of_pointwise, lemma_occ_push,
    lemma_occ_zero_iff, lemma_occ_additive, lemma_occ_at_most_one, lemma_occ_flat_le_songs,
    lemma_occ_nonneg,
};
use crate::metadata::PlaylistMetadata;

/// The machine-limit cap on pool size: fewer than 2^32 tracks and 2^32
/// genre occurrences, so that 64-bit fixed-point sums cannot overflow.
pub open spec fn pool_bounded(songs: Seq<Song>) -> bool {
    &&& songs.len() < 0x1_0000_0000
    &&& genres_flat(songs).len() < 0x1_0000_0000
}

/// The known duration of a song, in seconds, or zero.
pub open spec fn duration_or_zero(song: Song) -> int {
    match song.duration {
        Some(d) => d as int,
        None => 0,
    }
}

/// Summed known durations.
pub open spec fn sum_durations(songs: Seq<Song>) -> int
    decreases songs.len(),
{
    if songs.len() == 0 {
        0
    } else {
        sum_durations(songs.drop_last()) + duration_or_zero(songs.last())
    }
}

/// The known tempos of a track set, in pool order.
pub open spec fn known_bpms(songs: Seq<Song>) -> Seq<u32>
    decreases songs.len(),
{
    if songs.len() == 0 {
        Seq::<u32>::empty()
    } else {
        known_bpms(songs.drop_last()) + (match songs.last().bpm {
            Some(b) => seq![b],
            None => Seq::<u32>::empty(),
        })
    }
}

/// The known release years of a track set, in pool order.
pub open spec fn known_years(songs: Seq<Song>) -> Seq<u32>
    decreases songs.len(),
{
    if songs.len() == 0 {
        Seq::<u32>::empty()
    } else {
        known_years(songs.drop_last()) + (match songs.last().year {
            Some(y) => seq![y],
            None => Seq::<u32>::empty(),
        })
    }
}

/// The known play counts of a track set, in pool order.
pub open spec fn known_play_counts(songs: Seq<Song>) -> Seq<u32>
    decreases songs.len(),
{
    if songs.len() == 0 {
        Seq::<u32>::empty()
    } else {
        known_play_counts(songs.drop_last()) + (match songs.last().play_count {
            Some(c) => seq![c],
            None => Seq::<u32>::empty(),
        })
    }
}

/// The sum of a sequence of 32-bit values.
pub open spec fn seq_sum_u32(v: Seq<u32>) -> int
    decreases v.len(),
{
    if v.len() == 0 {
        0
    } else {
        seq_sum_u32(v.drop_last()) + v.last()
    }
}

/// The smallest element of a non-empty sequence.
pub open spec fn seq_min_u32(v: Seq<u32>) -> u32
    decreases v.len(),
{
    if v.len() <= 1 {
        v[0]
    } else if v.last() < seq_min_u32(v.drop_last()) {
        v.last()
    } else {
        seq_min_u32(v.drop_last())
    }
}

/// The largest element of a non-empty sequence.
pub open spec fn seq_max_u32(v: Seq<u32>) -> u32
    decreases v.len(),
{
    if v.len() <= 1 {
        v[0]
    } else if v.last() > seq_max_u32(v.drop_last()) {
        v.last()
    } else {
        seq_max_u32(v.drop_last())
    }
}

/// The artist names of a track set.
pub open spec fn artists_of(songs: Seq<Song>) -> Seq<Seq<char>> {
    songs.map_values(|s: Song| s.artist@)
}

/// How many distinct artist names a track set holds.
pub open spec fn distinct_artist_count(songs: Seq<Song>) -> int {
    dedup_first(artists_of(songs)).len() as int
}

/// The views of an executable histogram.
pub open spec fn hist_views(h: Seq<(String, usize)>) -> Seq<(Seq<char>, int)> {
    h.map_values(|p: (String, usize)| (p.0@, p.1 as int))
}

/// The mean known tempo in milli-BPM, or zero when no tempo is known.
pub open spec fn average_bpm_milli(songs: Seq<Song>) -> int {
    let bpms = known_bpms(songs);
    if bpms.len() == 0 {
        0
    } else {
        seq_sum_u32(bpms) * 1000 / (bpms.len() as int)
    }
}

/// The tempo range, or (0, 0) when no tempo is known.
pub open spec fn bpm_range_spec(songs: Seq<Song>) -> (u32, u32) {
    let bpms = known_bpms(songs);
    if bpms.len() == 0 {
        (0u32, 0u32)
    } else {
        (seq_min_u32(bpms), seq_max_u32(bpms))
    }
}

/// The year range, or absent when no year is known.
pub open spec fn era_span_spec(songs: Seq<Song>) -> (Option<u32>, Option<u32>) {
    let years = known_years(songs);
    if years.len() == 0 {
        (None::<u32>, None::<u32>)
    } else {
        (Some(seq_min_u32(years)), Some(seq_max_u32(years)))
    }
}

/// The mean known play count over all tracks, in milli-plays.
pub open spec fn avg_popularity_milli(songs: Seq<Song>) -> int {
    if songs.len() == 0 {
        0
    } else {
        seq_sum_u32(known_play_counts(songs)) * 1000 / (songs.len() as int)
    }
}

/// What every field of the metadata says about the track set.
pub open spec fn metadata_matches(m: PlaylistMetadata, songs: Seq<Song>) -> bool {
    &&& m.total_songs == songs.len()
    &&& m.total_duration == sum_durations(songs)
    &&& m.average_bpm == average_bpm_milli(songs)
    &&& m.bpm_range == bpm_range_spec(songs)
    &&& hist_views(m.genre_distribution@) == songs_hist(songs)
    &&& m.artist_count == distinct_artist_count(songs)
    &&& m.era_span == era_span_spec(songs)
    &&& m.avg_popularity == avg_popularity_milli(songs)
}

/// A sum of 32-bit values is bounded by the element count times the
/// largest 32-bit value.
pub proof fn lemma_seq_sum_u32_bound(v: Seq<u32>)
    ensures
        0 <= seq_sum_u32(v) <= v.len() * 0xffff_ffff,
    decreases v.len(),
{
    if v.len() > 0 {
        lemma_seq_sum_u32_bound(v.drop_last());
    }
}

/// The known tempos of the tracks, in order.
pub(crate) fn collect_bpms(songs: &Vec<Song>) -> (r: Vec<u32>)
    ensures
        r@ == known_bpms(songs@),
{
    let n = songs.len();
    let mut r: Vec<u32> = Vec::new();
    let mut i: usize = 0;
    while i < n
        invariant
            i <= n,
            n == songs@.len(),
            r@ == known_bpms(songs@.subrange(0, i as int)),
        decreases n - i,
    {
        proof {
            assert(songs@.subrange(0, i as int + 1).drop_last() =~= songs@.subrange(0, i as int));
            assert(songs@.subrange(0, i as int + 1).last() == songs@[i as int]);
        }
        match songs[i].bpm {
            Some(b) => {
                r.push(b);
                proof {
                    assert(r@ =~= known_bpms(songs@.subrange(0, i as int + 1)));
                }
            },
            None => {
                proof {
                    assert(r@ =~= known_bpms(songs@.subrange(0, i as int + 1)));
                }
            },
        }
        i = i + 1;
    }
    proof {
        assert(songs@.subrange(0, n as int) =~= songs@);
    }
    r
}

/// The known years of the tracks, in order.
fn collect_years(songs: &Vec<Song>) -> (r: Vec<u32>)
    ensures
        r@ == known_years(songs@),
{
    let n = songs.len();
    let mut r: Vec<u32> = Vec::new();
    let mut i: usize = 0;
    while i < n
        invariant
            i <= n,
            n == songs@.len(),
            r@ == known_years(songs@.subrange(0, i as int)),
        decreases n - i,
    {
        proof {
            assert(songs@.subrange(0, i as int + 1).drop_last() =~= songs@.subrange(0, i as int));
            assert(songs@.subrange(0, i as int + 1).last() == songs@[i as int]);
        }
        match songs[i].year {
            Some(y) => {
                r.push(y);
                proof {
                    assert(r@ =~= known_years(songs@.subrange(0, i as int + 1)));
                }
            },
            None => {
                proof {
                    assert(r@ =~= known_years(songs@.subrange(0, i as int + 1)));
                }
            },
        }
        i = i + 1;
    }
    proof {
        assert(songs@.subrange(0, n as int) =~= songs@);
    }
    r
}

/// The known play counts of the tracks, in order.
pub(crate) fn collect_play_counts(songs: &Vec<Song>) -> (r: Vec<u32>)
    ensures
        r@ == known_play_counts(songs@),
{
    let n = songs.len();
    let mut r: Vec<u32> = Vec::new();
    let mut i: usize = 0;
    while i < n
        invariant
            i <= n,
            n == songs@.len(),
            r@ == known_play_counts(songs@.subrange(0, i as int)),
        decreases n - i,
    {
        proof {
            assert(songs@.subrange(0, i as int + 1).drop_last() =~= songs@.subrange(0, i as int));
            assert(songs@.subrange(0, i as int + 1).last() == songs@[i as int]);
        }
        match songs[i].play_count {
            Some(c) => {
                r.push(c);
                proof {
                    assert(r@ =~= known_play_counts(songs@.subrange(0, i as int + 1)));
                }
            },
            None => {
                proof {
                    assert(r@ =~= known_play_counts(songs@.subrange(0, i as int + 1)));
                }
            },
        }
        i = i + 1;
    }
    proof {
        assert(songs@.subrange(0, n as int) =~= songs@);
    }
    r
}

/// The sum of a vector of 32-bit values; the vector must have fewer than
/// 2^32 elements.
pub(crate) fn sum_u32(v: &Vec<u32>) -> (r: u64)
    requires
        v@.len() < 0x1_0000_0000,
    ensures
        r == seq_sum_u32(v@),
{
    let n = v.len();
    let mut r: u64 = 0;
    let mut i: usize = 0;
    while i < n
        invariant
            i <= n,
            n == v@.len(),
            n < 0x1_0000_0000,
            r == seq_sum_u32(v@.subrange(0, i as int)),
            r <= i * 0xffff_ffff,
        decreases n - i,
    {
        proof {
            assert(v@.subrange(0, i as int + 1).drop_last() =~= v@.subrange(0, i as int));
            assert(v@.subrange(0, i as int + 1).last() == v@[i as int]);
        }
        r = r + v[i] as u64;
        i = i + 1;
    }
    proof {
        assert(v@.subrange(0, n as int) =~= v@);
    }
    r
}

/// The smallest element of a non-empty vector.
fn min_u32(v: &Vec<u32>) -> (r: u32)
    requires
        v@.len() > 0,
    ensures
        r == seq_min_u32(v@),
{
    let n = v.len();
    let mut r: u32 = v[0];
    let mut i: usize = 1;
    proof {
        assert(v@.subrange(0, 1) =~= seq![v@[0]]);
    }
    while i < n
        invariant
            1 <= i <= n,
            n == v@.len(),
            r == seq_min_u32(v@.subrange(0, i as int)),
        decreases n - i,
    {
        proof {
            assert(v@.subrange(0, i as int + 1).drop_last() =~= v@.subrange(0, i as int));
            assert(v@.subrange(0, i as int + 1).last() == v@[i as int]);
        }
        if v[i] < r {
            r = v[i];
        }
        i = i + 1;
    }
    proof {
        assert(v@.subrange(0, n as int) =~= v@);
    }
    r
}

/// The largest element of a non-empty vector.
fn max_u32(v: &Vec<u32>) -> (r: u32)
    requires
        v@.len() > 0,
    ensures
        r == seq_max_u32(v@),
{
    let n = v.len();
    let mut r: u32 = v[0];
    let mut i: usize = 1;
    proof {
        assert(v@.subrange(0, 1) =~= seq![v@[0]]);
    }
    while i < n
        invariant
            1 <= i <= n,
            n == v@.len(),
            r == seq_max_u32(v@.subrange(0, i as int)),
        decreases n - i,
    {
        proof {
            assert(v@.subrange(0, i as int + 1).drop_last() =~= v@.subrange(0, i as int));
            assert(v@.subrange(0, i as int + 1).last() == v@[i as int]);
        }
        if v[i] > r {
            r = v[i];
        }
        i = i + 1;
    }
    proof {
        assert(v@.subrange(0, n as int) =~= v@);
    }
    r
}

/// The distinct artist names of the tracks, first occurrences in order.
pub(crate) fn distinct_artists(songs: &Vec<Song>) -> (r: Vec<String>)
    ensures
        views_of(r@) == dedup_first(artists_of(songs@)),
{
    let n = songs.len();
    let ghost all = artists_of(songs@);
    let mut r: Vec<String> = Vec::new();
    let mut i: usize = 0;
    proof {
        assert(views_of(r@) =~= dedup_first(all.subrange(0, 0)));
    }
    while i < n
        invariant
            i <= n,
            n == songs@.len(),
            all == artists_of(songs@),
            views_of(r@) == dedup_first(all.subrange(0, i as int)),
        decreases n - i,
    {
        let ghost pre = all.subrange(0, i as int);
        let ghost post = all.subrange(0, i as int + 1);
        proof {
            assert(post.drop_last() =~= pre);
            assert(post.last() == all[i as int]);
            assert(all[i as int] == songs@[i as int].artist@);
            lemma_dedup_first_membership(pre, all[i as int]);
        }
        let hit = vec_has_string(&r, &songs[i].artist);
        let ghost r_before = r@;
        if !hit {
            let a = songs[i].artist.clone();
            r.push(a);
            proof {
                assert(!pre.contains(all[i as int])) by {
                    if pre.contains(all[i as int]) {
                        assert(dedup_first(pre).contains(all[i as int]));
                        let j = choose|j: int|
                            0 <= j < dedup_first(pre).len() && dedup_first(pre)[j] == all[i as int];
                        assert(views_of(r_before)[j] == all[i as int]);
                        assert(r_before[j]@ == all[i as int]);
                    }
                }
                assert(views_of(r@) =~= views_of(r_before).push(all[i as int]));
                assert(views_of(r@) =~= dedup_first(post));
            }
        } else {
            proof {
                assert(pre.contains(all[i as int])) by {
                    let j = choose|j: int|
                        0 <= j < r_before.len() && r_before[j]@ == all[i as int];
                    assert(dedup_first(pre)[j] == views_of(r_before)[j]);
                    assert(dedup_first(pre).contains(all[i as int]));
                }
                assert(dedup_first(post) == dedup_first(pre));
            }
        }
        i = i + 1;
    }
    proof {
        assert(all.subrange(0, n as int) =~= all);
    }
    r
}

/// The index of a key in the histogram, if present.
pub(crate) fn find_key(hist: &Vec<(String, usize)>, x: &String) -> (r: Option<usize>)
    ensures
        match r {
            Some(i) => i < hist@.len() && hist@[i as int].0@ == x@,
            None => forall|k: int| 0 <= k < hist@.len() ==> (#[trigger] hist@[k]).0@ != x@,
        },
{
    let n = hist.len();
    let mut i: usize = 0;
    while i < n
        invariant
            i <= n,
            n == hist@.len(),
            forall|k: int| 0 <= k < i ==> (#[trigger] hist@[k]).0@ != x@,
        decreases n - i,
    {
        if hist[i].0.eq(x) {
            return Some(i);
        }
        i = i + 1;
    }
    None
}

/// The genre histogram of the tracks: each lowercased genre, in order of
/// first appearance over the pool, with the number of tracks carrying it.
pub(crate) fn build_genre_histogram(songs: &Vec<Song>) -> (r: Vec<(String, usize)>)
    requires
        songs@.len() < 0x1_0000_0000,
    ensures
        hist_views(r@) == songs_hist(songs@),
{
    let n = songs.len();
    let mut hist: Vec<(String, usize)> = Vec::new();
    let ghost mut flat: Seq<Seq<char>> = Seq::<Seq<char>>::empty();
    let mut i: usize = 0;
    proof {
        assert(flat =~= genres_flat(songs@.subrange(0, 0)));
        assert(views_of(Seq::<String>::empty()) =~= Seq::<Seq<char>>::empty());
    }
    while i < n
        invariant
            i <= n,
            n == songs@.len(),
            n < 0x1_0000_0000,
            flat == genres_flat(songs@.subrange(0, i as int)),
            hist@.map_values(|p: (String, usize)| p.0@) == dedup_first(flat),
            forall|k: int|
                0 <= k < hist@.len() ==> (#[trigger] hist@[k]).1 == occ(flat, hist@[k].0@),
        decreases n - i,
    {
        let gs = songs[i].get_all_genres();
        let m = gs.len();
        let ghost flat_start = flat;
        let mut j: usize = 0;
        proof {
            assert(flat =~= flat_start + views_of(gs@).subrange(0, 0));
        }
        while j < m
            invariant
                j <= m,
                m == gs@.len(),
                i < n,
                n == songs@.len(),
                n < 0x1_0000_0000,
                flat_start == genres_flat(songs@.subrange(0, i as int)),
                views_of(gs@) == song_genres(songs@[i as int]),
                flat == flat_start + views_of(gs@).subrange(0, j as int),
                hist@.map_values(|p: (String, usize)| p.0@) == dedup_first(flat),
                forall|k: int|
                    0 <= k < hist@.len() ==> (#[trigger] hist@[k]).1 == occ(flat, hist@[k].0@),
            decreases m - j,
        {
            let ghost x = gs@[j as int]@;
            let ghost keys = hist@.map_values(|p: (String, usize)| p.0@);
            proof {
                lemma_dedup_first_membership(flat, x);
                lemma_dedup_first_no_dups(flat);
            }
            let found = find_key(&hist, &gs[j]);
            let ghost hist_before = hist@;
            match found {
                Some(idx) => {
                    // the key is already counted: one more occurrence
                    proof {
                        assert(keys[idx as int] == x);
                        assert(dedup_first(flat).contains(x));
                        assert(flat.contains(x));
                        assert(dedup_first(flat.push(x)) == dedup_first(flat)) by {
                            assert(flat.push(x).drop_last() =~= flat);
                            assert(flat.push(x).last() == x);
                        }
                        // the count stays below the number of songs seen
                        lemma_occ_flat_le_songs(songs@.subrange(0, i as int), x);
                        lemma_occ_additive(flat_start, views_of(gs@).subrange(0, j as int), x);
                        crate::models::lemma_song_genres_no_dups(songs@[i as int]);
                        assert(crate::models::no_dup_seqs(views_of(gs@)));
                        assert(crate::models::no_dup_seqs(views_of(gs@).subrange(0, j as int)))
                            by {
                            let sub = views_of(gs@).subrange(0, j as int);
                            assert(forall|a: int, b: int|
                                0 <= a < b < sub.len() ==> sub[a] == views_of(gs@)[a] && sub[b]
                                    == views_of(gs@)[b]);
                        }
                        assert(!views_of(gs@).subrange(0, j as int).contains(x)) by {
                            let sub = views_of(gs@).subrange(0, j as int);
                            if sub.contains(x) {
                                let a = choose|a: int| 0 <= a < sub.len() && sub[a] == x;
                                assert(views_of(gs@)[a] == x);
                                assert(views_of(gs@)[j as int] == x);
                            }
                        }
                        lemma_occ_zero_iff(views_of(gs@).subrange(0, j as int), x);
                        assert(occ(flat, x) <= i);
                    }
                    let c = hist[idx].1;
                    let name = hist[idx].0.clone();
                    hist.set(idx, (name, c + 1));
                    proof {
                        assert(hist@.map_values(|p: (String, usize)| p.0@) =~= keys);
                        assert forall|k: int| 0 <= k < hist@.len() implies (
                        #[trigger] hist@[k]).1 == occ(flat.push(x), hist@[k].0@) by {
                            lemma_occ_push(flat, x, hist@[k].0@);
                            if k != idx {
                                assert(hist@[k] == hist_before[k]);
                                assert(keys[k] == hist@[k].0@);
                                assert(keys[idx as int] == x);
                                lemma_dedup_first_no_dups(flat);
                                assert(hist@[k].0@ != x);
                            }
                        }
                    }
                },
                None => {
                    // a new key: first occurrence in the pool
                    proof {
                        assert(!dedup_first(flat).contains(x)) by {
                            if dedup_first(flat).contains(x) {
                                let k = choose|k: int|
                                    0 <= k < dedup_first(flat).len() && dedup_first(flat)[k] == x;
                                assert(keys[k] == x);
                                assert(hist_before[k].0@ == x);
                            }
                        }
                        assert(!flat.contains(x));
                        assert(dedup_first(flat.push(x)) == dedup_first(flat).push(x)) by {
                            assert(flat.push(x).drop_last() =~= flat);
                            assert(flat.push(x).last() == x);
                        }
                        lemma_occ_zero_iff(flat, x);
                    }
                    let g = gs[j].clone();
                    hist.push((g, 1));
                    proof {
                        assert(hist@.map_values(|p: (String, usize)| p.0@) =~= keys.push(x));
                        assert forall|k: int| 0 <= k < hist@.len() implies (
                        #[trigger] hist@[k]).1 == occ(flat.push(x), hist@[k].0@) by {
                            lemma_occ_push(flat, x, hist@[k].0@);
                            if k < hist_before.len() {
                                assert(hist@[k] == hist_before[k]);
                                assert(hist@[k].0@ != x);
                            } else {
                                assert(hist@[k].0@ == x);
                                assert(hist@[k].1 == 1);
                            }
                        }
                    }
                },
            }
            proof {
                flat = flat.push(x);
                assert(flat =~= flat_start + views_of(gs@).subrange(0, j as int + 1)) by {
                    assert(views_of(gs@).subrange(0, j as int + 1) =~= views_of(gs@).subrange(
                        0,
                        j as int,
                    ).push(x));
                }
            }
            j = j + 1;
        }
        proof {
            assert(views_of(gs@).subrange(0, m as int) =~= views_of(gs@));
            assert(songs@.subrange(0, i as int + 1).drop_last() =~= songs@.subrange(0, i as int));
            assert(songs@.subrange(0, i as int + 1).last() == songs@[i as int]);
            assert(flat =~= genres_flat(songs@.subrange(0, i as int + 1)));
        }
        i = i + 1;
    }
    proof {
        assert(songs@.subrange(0, n as int) =~= songs@);
        lemma_hist_of_pointwise(flat, dedup_first(flat));
        assert(hist_views(hist@) =~= songs_hist(songs@)) by {
            assert(forall|k: int|
                0 <= k < hist@.len() ==> hist_views(hist@)[k] == ((#[trigger] hist@[k]).0@,
                hist@[k].1 as int));
        }
    }
    hist
}

/// Playlist metrics: a pure aggregation over the track set.
pub(crate) fn compute_metadata(songs: &Vec<Song>) -> (r: PlaylistMetadata)
    requires
        songs@.len() < 0x1_0000_0000,
    ensures
        metadata_matches(r, songs@),
{
    let n = songs.len();
    // total duration
    let mut total: u64 = 0;
    let mut i: usize = 0;
    while i < n
        invariant
            i <= n,
            n == songs@.len(),
            n < 0x1_0000_0000,
            total == sum_durations(songs@.subrange(0, i as int)),
            total <= i * 0xffff_ffff,
        decreases n - i,
    {
        proof {
            assert(songs@.subrange(0, i as int + 1).drop_last() =~= songs@.subrange(0, i as int));
            assert(songs@.subrange(0, i as int + 1).last() == songs@[i as int]);
        }
        match songs[i].duration {
            Some(d) => {
                total = total + d as u64;
            },
            None => {},
        }
        i = i + 1;
    }
    proof {
        assert(songs@.subrange(0, n as int) =~= songs@);
    }
    // tempo statistics
    let bpms = collect_bpms(songs);
    proof {
        lemma_known_bpms_len(songs@);
    }
    let average_bpm: u64 = if bpms.len() == 0 {
        0
    } else {
        let s = sum_u32(&bpms);
        let nb = bpms.len() as u64;
        proof {
            lemma_seq_sum_u32_bound(bpms@);
            assert(s as int * 1000 / (nb as int) <= 0xffff_ffff * 1000int) by (nonlinear_arith)
                requires
                    s as int <= nb as int * 0xffff_ffff,
                    nb >= 1,
            ;
        }
        ((s as u128 * 1000) / nb as u128) as u64
    };
    let bpm_range: (u32, u32) = if bpms.len() == 0 {
        (0, 0)
    } else {
        (min_u32(&bpms), max_u32(&bpms))
    };
    // genre histogram
    let genre_distribution = build_genre_histogram(songs);
    // artists
    let artists = distinct_artists(songs);
    let artist_count = artists.len();
    // era span
    let years = collect_years(songs);
    let era_span: (Option<u32>, Option<u32>) = if years.len() == 0 {
        (None, None)
    } else {
        (Some(min_u32(&years)), Some(max_u32(&years)))
    };
    // popularity
    let counts = collect_play_counts(songs);
    proof {
        lemma_known_play_counts_len(songs@);
    }
    let avg_popularity: u64 = if n == 0 {
        0
    } else {
        let s = sum_u32(&counts);
        proof {
            lemma_seq_sum_u32_bound(counts@);
            assert(s as int <= n as int * 0xffff_ffff);
            assert(s as int * 1000 / (n as int) <= 0xffff_ffff * 1000int) by (nonlinear_arith)
                requires
                    s as int <= n as int * 0xffff_ffff,
                    n >= 1,
            ;
        }
        ((s as u128 * 1000) / n as u128) as u64
    };
    proof {
        assert(views_of(artists@).len() == artists@.len());
    }
    PlaylistMetadata {
        total_duration: total,
        total_songs: n,
        average_bpm,
        bpm_range,
        genre_distribution,
        artist_count,
        era_span,
        avg_popularity,
    }
}

/// There are at most as many known tempos as tracks.
pub proof fn lemma_known_bpms_len(songs: Seq<Song>)
    ensures
        known_bpms(songs).len() <= songs.len(),
    decreases songs.len(),
{
    if songs.len() > 0 {
        lemma_known_bpms_len(songs.drop_last());
    }
}

/// There are at most as many known play counts as tracks.
pub proof fn lemma_known_play_counts_len(songs: Seq<Song>)
    ensures
        known_play_counts(songs).len() <= songs.len(),
    decreases songs.len(),
{
    if songs.len() > 0 {
        lemma_known_play_counts_len(songs.drop_last());
    }
}

} // verus!
