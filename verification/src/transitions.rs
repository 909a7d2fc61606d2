//! Transition scoring between a working playlist and a candidate track,
//! and the hard sequencing constraints.
//!
//! The transition score is the unweighted mean of a tempo-direction score
//! and a genre-compatibility score, both in micro-units.  The constraint
//! checks are binary gates evaluated before any scoring is trusted.

use vstd::prelude::*;

verus! {

use crate::models::{Song, song_genres, dedup_first, lemma_dedup_first_membership};
use crate::config::PlaylistConfig;
use crate::genres::{genres_flat, occ, lemma_occ_zero_iff, lemma_occ_flat_le_songs};
use crate::metrics::{hist_views, build_genre_histogram};
use crate::recency::{days_since_played_spec, days_since_played_milli};

/// Transition scoring and sequencing rules as static helper functions.
pub struct PlaylistTransitions;

/// The tempo-direction score of following `a` with `b`: a perfect hit of
/// the preferred change scores 1.0; the right direction stays in
/// [0.5, 0.9], decaying as the miss grows relative to the jump ceiling
/// (misses past the ceiling floor at 0.5); the wrong direction lands in
/// [0.1, 0.4], shrinking with its size; missing tempo data is neutral.
/// The configured maximum jump (floored at one) is the normalization
/// span.
pub open spec fn bpm_transition_score_micro(config: PlaylistConfig, a: Song, b: Song) -> int {
    match a.bpm {
        Some(ba) => match b.bpm {
            Some(bb) => {
                let actual = bb - ba;
                let ideal = config.transition_rules.preferred_bpm_change as int;
                let mj: int = if config.transition_rules.max_bpm_jump >= 1 {
                    config.transition_rules.max_bpm_jump as int
                } else {
                    1
                };
                if actual == ideal {
                    1_000_000
                } else if (ideal > 0 && actual > 0) || (ideal < 0 && actual < 0) {
                    let gap = if actual >= ideal {
                        actual - ideal
                    } else {
                        ideal - actual
                    };
                    if gap >= mj {
                        500_000
                    } else {
                        500_000 + (mj - gap) * 400_000 / mj
                    }
                } else if (ideal > 0 && actual < 0) || (ideal < 0 && actual > 0) {
                    let wrong = if actual >= 0 {
                        actual
                    } else {
                        -actual
                    };
                    let scaled = wrong * 300_000 / mj;
                    400_000 - (if scaled > 300_000 {
                        300_000
                    } else {
                        scaled
                    })
                } else {
                    400_000
                }
            },
            None => 500_000,
        },
        None => 500_000,
    }
}

/// The best match frequency, in micro-units capped at one, of any of the
/// candidate's genres against the playlist's genre occurrences.
pub open spec fn best_match_micro(flat: Seq<Seq<char>>, cgs: Seq<Seq<char>>, n: int) -> int
    decreases cgs.len(),
{
    if cgs.len() == 0 {
        0
    } else {
        let rest = best_match_micro(flat, cgs.drop_last(), n);
        let c = occ(flat, cgs.last());
        if c > 0 {
            let f = if c * 1_000_000 / n > 1_000_000 {
                1_000_000
            } else {
                c * 1_000_000 / n
            };
            if f > rest {
                f
            } else {
                rest
            }
        } else {
            rest
        }
    }
}

/// Whether the candidate shares a genre with the playlist so far.
pub open spec fn shares_genre(flat: Seq<Seq<char>>, cgs: Seq<Seq<char>>) -> bool {
    exists|j: int| 0 <= j < cgs.len() && flat.contains(#[trigger] cgs[j])
}

/// The genre-compatibility score of a candidate against the sequence so
/// far: sharing a frequent genre pays off in proportion to the coherence
/// preference; sharing none is rewarded exactly when variety is wanted.
pub open spec fn genre_compatibility_micro(
    config: PlaylistConfig,
    playlist: Seq<Song>,
    candidate: Song,
) -> int {
    if playlist.len() == 0 {
        500_000
    } else if song_genres(candidate).len() == 0 {
        500_000
    } else if genres_flat(playlist).len() == 0 {
        500_000
    } else {
        let coher = config.quality_weights.genre_coherence as int;
        let flat = genres_flat(playlist);
        let cgs = song_genres(candidate);
        if shares_genre(flat, cgs) {
            500_000 + best_match_micro(flat, cgs, playlist.len() as int) * coher / 2000
        } else {
            900_000 - 800 * coher
        }
    }
}

/// The transition score: neutral for the first track, else the mean of
/// the tempo-direction score against the last placed track and the
/// genre-compatibility score against the whole sequence.
pub open spec fn transition_score_micro(
    config: PlaylistConfig,
    playlist: Seq<Song>,
    candidate: Song,
) -> int {
    if playlist.len() == 0 {
        500_000
    } else {
        (bpm_transition_score_micro(config, playlist.last(), candidate)
            + genre_compatibility_micro(config, playlist, candidate)) / 2
    }
}

/// The candidate's artist appears among the last `avoid_within` placed
/// tracks.
pub open spec fn violates_artist_repetition(
    avoid_within: int,
    playlist: Seq<Song>,
    candidate: Song,
) -> bool {
    exists|i: int|
        playlist.len() - avoid_within <= i < playlist.len() && 0 <= i && (
        #[trigger] playlist[i]).artist@ == candidate.artist@
}

/// The candidate's album appears among the last `avoid_within` placed
/// tracks.
pub open spec fn violates_album_repetition(
    avoid_within: int,
    playlist: Seq<Song>,
    candidate: Song,
) -> bool {
    exists|i: int|
        playlist.len() - avoid_within <= i < playlist.len() && 0 <= i && (
        #[trigger] playlist[i]).album@ == candidate.album@
}

/// The candidate was played more recently than the required minimum
/// number of days; tracks without play data never violate.
pub open spec fn violates_min_days(min_days: u32, candidate: Song, now_epoch: i64) -> bool {
    match candidate.played {
        Some(p) => days_since_played_spec(p@, now_epoch) < min_days * 1000,
        None => false,
    }
}

impl PlaylistTransitions {
    /// The tempo-direction score of following `song_a` with `song_b`.
    pub fn calculate_bpm_transition_score(
        config: &PlaylistConfig,
        song_a: &Song,
        song_b: &Song,
    ) -> (r: i64)
        ensures
            r == bpm_transition_score_micro(*config, *song_a, *song_b),
            0 <= r <= 1_000_000,
    {
        let ba = match song_a.bpm {
            Some(x) => x,
            None => {
                return 500_000;
            },
        };
        let bb = match song_b.bpm {
            Some(x) => x,
            None => {
                return 500_000;
            },
        };
        let actual: i64 = bb as i64 - ba as i64;
        let ideal: i64 = config.transition_rules.preferred_bpm_change as i64;
        let mj: i64 = if config.transition_rules.max_bpm_jump >= 1 {
            config.transition_rules.max_bpm_jump as i64
        } else {
            1
        };
        if actual == ideal {
            1_000_000
        } else if (ideal > 0 && actual > 0) || (ideal < 0 && actual < 0) {
            let gap: i64 = if actual >= ideal {
                actual - ideal
            } else {
                ideal - actual
            };
            if gap >= mj {
                500_000
            } else {
                proof {
                    assert((mj as int - gap as int) * 400_000 / (mj as int) >= 0)
                        by (nonlinear_arith)
                        requires
                            0 <= gap < mj,
                    ;
                    assert((mj as int - gap as int) * 400_000 <= (mj as int) * 400_000
                        && (mj as int) * 400_000 <= 0x1_0000_0000int * 400_000)
                        by (nonlinear_arith)
                        requires
                            0 <= gap < mj <= 0xffff_ffff,
                    ;
                    assert((mj as int - gap as int) * 400_000 / (mj as int) <= 400_000)
                        by (nonlinear_arith)
                        requires
                            0 <= gap < mj,
                    ;
                }
                500_000 + (mj - gap) * 400_000 / mj
            }
        } else if (ideal > 0 && actual < 0) || (ideal < 0 && actual > 0) {
            let wrong: i64 = if actual >= 0 {
                actual
            } else {
                -actual
            };
            proof {
                assert((wrong as int) * 300_000 / (mj as int) >= 0) by (nonlinear_arith)
                    requires
                        wrong >= 0,
                        mj >= 1,
                ;
                assert((wrong as int) * 300_000 <= 0x2_0000_0000int * 300_000)
                    by (nonlinear_arith)
                    requires
                        0 <= (wrong as int) <= 0x2_0000_0000,
                ;
            }
            let scaled: i64 = wrong * 300_000 / mj;
            400_000 - (if scaled > 300_000 {
                300_000
            } else {
                scaled
            })
        } else {
            400_000
        }
    }

    /// The genre-compatibility score of a candidate against the playlist
    /// so far.
    pub fn calculate_genre_compatibility_score(
        config: &PlaylistConfig,
        current_playlist: &Vec<Song>,
        candidate: &Song,
    ) -> (r: i64)
        requires
            current_playlist@.len() < 0x1_0000_0000,
            config.quality_weights.valid(),
        ensures
            r == genre_compatibility_micro(*config, current_playlist@, *candidate),
            0 <= r <= 1_000_000,
    {
        let n = current_playlist.len();
        if n == 0 {
            return 500_000;
        }
        let cgs = candidate.get_all_genres();
        let m = cgs.len();
        if m == 0 {
            proof {
                assert(crate::models::views_of(cgs@).len() == cgs@.len());
            }
            return 500_000;
        }
        let hist = build_genre_histogram(current_playlist);
        let ghost flat = genres_flat(current_playlist@);
        proof {
            crate::genres::lemma_hist_of_pointwise(flat, dedup_first(flat));
            assert(hist@.len() == dedup_first(flat).len());
            assert(crate::models::views_of(cgs@).len() == cgs@.len());
        }
        if hist.len() == 0 {
            proof {
                if flat.len() > 0 {
                    assert(dedup_first(flat).contains(flat.last())) by {
                        lemma_dedup_first_membership(flat, flat.last());
                        assert(flat[flat.len() - 1] == flat.last());
                        assert(flat.contains(flat.last()));
                    }
                }
            }
            return 500_000;
        }
        proof {
            assert(flat.len() > 0) by {
                if flat.len() == 0 {
                    assert(dedup_first(flat).len() == 0);
                }
            }
        }
        let coher: i64 = config.quality_weights.genre_coherence as i64;
        let ghost cgsv = crate::models::views_of(cgs@);
        let mut best: i64 = 0;
        let mut found = false;
        let mut j: usize = 0;
        proof {
            assert(best_match_micro(flat, cgsv.subrange(0, 0), n as int) == 0);
        }
        while j < m
            invariant
                j <= m,
                m == cgs@.len(),
                n == current_playlist@.len(),
                n >= 1,
                n < 0x1_0000_0000,
                cgsv == crate::models::views_of(cgs@),
                flat == genres_flat(current_playlist@),
                hist_views(hist@) == crate::genres::songs_hist(current_playlist@),
                best == best_match_micro(flat, cgsv.subrange(0, j as int), n as int),
                found == shares_genre(flat, cgsv.subrange(0, j as int)),
                0 <= best <= 1_000_000,
            decreases m - j,
        {
            let ghost x = cgs@[j as int]@;
            let ghost pre = cgsv.subrange(0, j as int);
            let ghost post = cgsv.subrange(0, j as int + 1);
            proof {
                assert(post.drop_last() =~= pre);
                assert(post.last() == cgsv[j as int]);
                assert(cgsv[j as int] == x);
                crate::genres::lemma_hist_of_pointwise(flat, dedup_first(flat));
            }
            let fk = crate::metrics::find_key(&hist, &cgs[j]);
            match fk {
                Some(idx) => {
                    let c = hist[idx].1;
                    proof {
                        assert(hist_views(hist@)[idx as int].1 == c as int);
                        assert(hist_views(hist@)[idx as int].0 == dedup_first(flat)[idx as int]);
                        assert(hist@[idx as int].0@ == x);
                        assert(c as int == occ(flat, x));
                        lemma_occ_zero_iff(flat, x);
                        lemma_occ_flat_le_songs(current_playlist@, x);
                        assert(dedup_first(flat)[idx as int] == x);
                        assert(dedup_first(flat).contains(x));
                        lemma_dedup_first_membership(flat, x);
                        assert(flat.contains(x));
                        assert(c >= 1);
                        assert((c as int) * 1_000_000 / (n as int) >= 0) by (nonlinear_arith)
                            requires
                                c >= 0,
                                n >= 1,
                        ;
                        assert((c as int) * 1_000_000 <= 0x1_0000_0000int * 1_000_000)
                            by (nonlinear_arith)
                            requires
                                0 <= (c as int) <= 0x1_0000_0000,
                        ;
                    }
                    let freq_wide: u128 = (c as u128) * 1_000_000 / (n as u128);
                    let f: i64 = if freq_wide > 1_000_000 {
                        1_000_000
                    } else {
                        freq_wide as i64
                    };
                    if f > best {
                        best = f;
                    }
                    found = true;
                },
                None => {
                    proof {
                        assert(!dedup_first(flat).contains(x)) by {
                            if dedup_first(flat).contains(x) {
                                let k = choose|k: int|
                                    0 <= k < dedup_first(flat).len() && dedup_first(flat)[k]
                                        == x;
                                assert(hist_views(hist@)[k] == (hist@[k].0@, hist@[k].1 as int));
                                assert(hist_views(hist@)[k] == crate::genres::hist_of(
                                    flat,
                                    dedup_first(flat),
                                )[k]);
                                assert(hist@[k].0@ == x);
                            }
                        }
                        lemma_dedup_first_membership(flat, x);
                        assert(!flat.contains(x));
                        lemma_occ_zero_iff(flat, x);
                        assert(occ(flat, x) == 0);
                    }
                },
            }
            proof {
                assert(shares_genre(flat, post) == (shares_genre(flat, pre) || flat.contains(x)))
                    by {
                    if shares_genre(flat, post) {
                        let k = choose|k: int| 0 <= k < post.len() && flat.contains(#[trigger] post[k]);
                        if k < pre.len() {
                            assert(pre[k] == post[k]);
                            assert(shares_genre(flat, pre));
                        } else {
                            assert(post[k] == x);
                        }
                    }
                    if shares_genre(flat, pre) {
                        let k = choose|k: int| 0 <= k < pre.len() && flat.contains(#[trigger] pre[k]);
                        assert(post[k] == pre[k]);
                        assert(shares_genre(flat, post));
                    }
                    if flat.contains(x) {
                        assert(post[j as int] == x);
                        assert(shares_genre(flat, post));
                    }
                }
            }
            j = j + 1;
        }
        proof {
            assert(cgsv.subrange(0, m as int) =~= cgsv);
            assert(cgsv == song_genres(*candidate));
        }
        if found {
            proof {
                assert(best * coher / 2000 >= 0) by (nonlinear_arith)
                    requires
                        best >= 0,
                        coher >= 0,
                ;
                assert(best * coher <= 1_000_000 * 1000int) by (nonlinear_arith)
                    requires
                        0 <= best <= 1_000_000,
                        0 <= coher <= 1000,
                ;
            }
            proof {
                assert(best * coher / 2000 <= 500_000) by (nonlinear_arith)
                    requires
                        0 <= best * coher <= 1_000_000 * 1000int,
                ;
            }
            500_000 + best * coher / 2000
        } else {
            900_000 - 800 * coher
        }
    }

    /// The transition score of a candidate against the working playlist:
    /// neutral when the playlist is empty, else the mean of the tempo and
    /// genre components.
    pub fn calculate_transition_score(
        config: &PlaylistConfig,
        current_playlist: &Vec<Song>,
        candidate: &Song,
    ) -> (r: i64)
        requires
            current_playlist@.len() < 0x1_0000_0000,
            config.quality_weights.valid(),
        ensures
            r == transition_score_micro(*config, current_playlist@, *candidate),
            0 <= r <= 1_000_000,
    {
        let n = current_playlist.len();
        if n == 0 {
            return 500_000;
        }
        let bpm_score = Self::calculate_bpm_transition_score(
            config,
            &current_playlist[n - 1],
            candidate,
        );
        let genre_score = Self::calculate_genre_compatibility_score(
            config,
            current_playlist,
            candidate,
        );
        proof {
            assert(current_playlist@[n as int - 1] == current_playlist@.last());
        }
        (bpm_score + genre_score) / 2
    }

    /// Whether the candidate's artist occurs among the last `avoid_within`
    /// placed tracks.
    pub fn would_violate_artist_repetition(
        avoid_within: usize,
        current_playlist: &Vec<Song>,
        candidate: &Song,
    ) -> (r: bool)
        ensures
            r == violates_artist_repetition(
                avoid_within as int,
                current_playlist@,
                *candidate,
            ),
    {
        let n = current_playlist.len();
        let start = if avoid_within > n {
            0
        } else {
            n - avoid_within
        };
        let mut i: usize = start;
        while i < n
            invariant
                start <= i <= n,
                n == current_playlist@.len(),
                start == (if avoid_within > n {
                    0int
                } else {
                    n - avoid_within
                }),
                forall|t: int|
                    start <= t < i ==> (#[trigger] current_playlist@[t]).artist@
                        != candidate.artist@,
            decreases n - i,
        {
            if current_playlist[i].artist.eq(&candidate.artist) {
                return true;
            }
            i = i + 1;
        }
        false
    }

    /// Whether the candidate's album occurs among the last `avoid_within`
    /// placed tracks.
    pub fn would_violate_album_repetition(
        avoid_within: usize,
        current_playlist: &Vec<Song>,
        candidate: &Song,
    ) -> (r: bool)
        ensures
            r == violates_album_repetition(avoid_within as int, current_playlist@, *candidate),
    {
        let n = current_playlist.len();
        let start = if avoid_within > n {
            0
        } else {
            n - avoid_within
        };
        let mut i: usize = start;
        while i < n
            invariant
                start <= i <= n,
                n == current_playlist@.len(),
                start == (if avoid_within > n {
                    0int
                } else {
                    n - avoid_within
                }),
                forall|t: int|
                    start <= t < i ==> (#[trigger] current_playlist@[t]).album@
                        != candidate.album@,
            decreases n - i,
        {
            if current_playlist[i].album.eq(&candidate.album) {
                return true;
            }
            i = i + 1;
        }
        false
    }

    /// Whether the candidate was played more recently than the minimum
    /// number of days requires.
    pub fn would_violate_min_days_since_last_play(
        min_days: u32,
        candidate: &Song,
        now_epoch: i64,
    ) -> (r: bool)
        ensures
            r == violates_min_days(min_days, *candidate, now_epoch),
    {
        match &candidate.played {
            Some(p) => {
                let days = days_since_played_milli(p.as_str(), now_epoch);
                days < min_days as i64 * 1000
            },
            None => false,
        }
    }
}

} // verus!
