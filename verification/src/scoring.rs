//! Scoring: standalone preference scores for single tracks, and the
//! five-part quality score of a whole track set.
//!
//! Quality sub-scores live in micro-units ([0, 1_000_000] for [0, 1]);
//! preference scores are milli-units and unbounded.  The final quality
//! score is a weighted mean of the sub-scores, so it stays in [0, 1]
//! whatever the weight magnitudes.

use vstd::prelude::*;

verus! {

use crate::models::{Song, dedup_first, lemma_dedup_first_len_le};
use crate::config::{PlaylistConfig, QualityWeights};
use crate::genres::{
    genres_flat, songs_hist, hist_of, hist_count_sum, lemma_hist_of_pointwise,
    lemma_occ_flat_le_songs, lemma_songs_hist_total,
};
use crate::metadata::PlaylistMetadata;
use crate::metrics::{
    pool_bounded, known_bpms, known_play_counts, seq_sum_u32, artists_of, hist_views,
    metadata_matches, era_span_spec, collect_bpms, collect_play_counts, distinct_artists,
    sum_u32, lemma_seq_sum_u32_bound, lemma_known_bpms_len, lemma_known_play_counts_len,
};
use crate::numeric::{
    log2_micro, log2_micro_u64, log10_milli, log10_milli_u64, log10_floor, isqrt_spec,
    isqrt_u128, lemma_log2_micro_monotone, lemma_log2_micro_range, lemma_log10_milli_range,
    lemma_isqrt_spec,
};
use crate::recency::{days_since_played_spec, days_since_played_milli};

/// Scoring as static helper functions.
pub struct PlaylistScoring;

// ---------------------------------------------------------------------
// artist diversity
// ---------------------------------------------------------------------
/// Distinct artists over track count; a set of at most one track counts
/// as fully diverse.
pub open spec fn artist_diversity_micro(songs: Seq<Song>) -> int {
    if songs.len() <= 1 {
        1_000_000
    } else {
        dedup_first(artists_of(songs)).len() as int * 1_000_000 / (songs.len() as int)
    }
}

// ---------------------------------------------------------------------
// genre coherence
// ---------------------------------------------------------------------
/// One summand of the fixed-point Shannon entropy: count times the log
/// gap to the total.
pub open spec fn entropy_term(c: int, t: int) -> int {
    if c <= 0 {
        0
    } else {
        c * (log2_micro(t as nat) - log2_micro(c as nat))
    }
}

/// The entropy sum of a histogram.
pub open spec fn hist_entropy(h: Seq<(Seq<char>, int)>, t: int) -> int
    decreases h.len(),
{
    if h.len() == 0 {
        0
    } else {
        hist_entropy(h.drop_last(), t) + entropy_term(h.last().1, t)
    }
}

/// Genre coherence of a histogram: one minus the normalized entropy,
/// clamped to [0, 1].  A single genre is perfectly coherent; an even
/// n-way split is maximally diverse.
pub open spec fn coherence_of_hist(h: Seq<(Seq<char>, int)>, t: int) -> int {
    if h.len() == 0 || t <= 0 {
        500_000
    } else if h.len() == 1 {
        1_000_000
    } else {
        let norm = hist_entropy(h, t) * 1_000_000 / (t * log2_micro(h.len() as nat));
        if norm < 0 {
            1_000_000
        } else if norm > 1_000_000 {
            0
        } else {
            1_000_000 - norm
        }
    }
}

/// Genre coherence of a track set.
pub open spec fn genre_coherence_micro(songs: Seq<Song>) -> int {
    coherence_of_hist(songs_hist(songs), songs.len() as int)
}

// ---------------------------------------------------------------------
// era cohesion
// ---------------------------------------------------------------------
/// Era cohesion from the year span: same or adjacent years are fully
/// cohesive, a decade is middling, beyond two decades the score fades to
/// zero; unknown years are neutral.
pub open spec fn era_cohesion_micro(era: (Option<u32>, Option<u32>)) -> int {
    match era.0 {
        Some(mn) => match era.1 {
            Some(mx) => {
                let span = mx - mn;
                if span <= 2 {
                    1_000_000
                } else if span <= 10 {
                    800_000 - (span - 2) * 37_500
                } else if span <= 20 {
                    500_000 - (span - 10) * 30_000
                } else {
                    if 200_000 - (span - 20) * 4_000 < 0 {
                        0
                    } else {
                        200_000 - (span - 20) * 4_000
                    }
                }
            },
            None => 500_000,
        },
        None => 500_000,
    }
}

/// Era cohesion of a track set.
pub open spec fn era_cohesion_micro_songs(songs: Seq<Song>) -> int {
    era_cohesion_micro(era_span_spec(songs))
}

// ---------------------------------------------------------------------
// popularity balance
// ---------------------------------------------------------------------
/// The sum of squares of a sequence of 32-bit values.
pub open spec fn seq_sum_sq_u32(v: Seq<u32>) -> int
    decreases v.len(),
{
    if v.len() == 0 {
        0
    } else {
        seq_sum_sq_u32(v.drop_last()) + v.last() * v.last()
    }
}

/// The coefficient of variation of the known play counts, in milli-units.
pub open spec fn play_count_cv_milli(counts: Seq<u32>) -> int {
    let n = counts.len() as int;
    let s = seq_sum_u32(counts);
    let q = seq_sum_sq_u32(counts);
    if s == 0 {
        0
    } else {
        isqrt_spec((n * q - s * s) as nat) as int * 1000 / s
    }
}

/// Maps the coefficient of variation to a balance score: identical play
/// counts score low, a moderate spread scores highest, an extreme spread
/// scores low again.
pub open spec fn balance_of_cv(cv: int) -> int {
    if cv <= 300 {
        cv * 5_000 / 3
    } else if cv <= 1000 {
        500_000 + (cv - 300) * 5_000 / 7
    } else {
        if 2_000_000 - cv * 1000 < 0 {
            0
        } else {
            2_000_000 - cv * 1000
        }
    }
}

/// Popularity balance of a track set; fewer than two known play counts
/// are neutral.
pub open spec fn popularity_balance_micro(songs: Seq<Song>) -> int {
    let counts = known_play_counts(songs);
    if counts.len() <= 1 {
        500_000
    } else {
        balance_of_cv(play_count_cv_milli(counts))
    }
}

/// Cauchy-Schwarz for sums of squares: the variance numerator is never
/// negative.
pub proof fn lemma_cauchy(v: Seq<u32>)
    ensures
        v.len() * seq_sum_sq_u32(v) >= seq_sum_u32(v) * seq_sum_u32(v),
    decreases v.len(),
{
    if v.len() == 0 {
    } else {
        let pre = v.drop_last();
        let c = v.last() as int;
        let k = pre.len() as int;
        let s = seq_sum_u32(pre);
        let q = seq_sum_sq_u32(pre);
        lemma_cauchy(pre);
        lemma_seq_sum_u32_bound(pre);
        if k == 0 {
            assert((0 + 1) * (q + c * c) >= (s + c) * (s + c)) by (nonlinear_arith)
                requires
                    q == 0,
                    s == 0,
            ;
        } else {
            assert(k * k * c * c + s * s >= 2 * k * c * s) by (nonlinear_arith);
            assert(k * (k * c * c + q) >= k * 2 * c * s) by (nonlinear_arith)
                requires
                    k * q >= s * s,
                    k * k * c * c + s * s >= 2 * k * c * s,
                    k >= 1,
            ;
            assert(k * c * c + q >= 2 * c * s) by (nonlinear_arith)
                requires
                    k * (k * c * c + q) >= k * 2 * c * s,
                    k >= 1,
            ;
            assert((k + 1) * (q + c * c) >= (s + c) * (s + c)) by (nonlinear_arith)
                requires
                    k * q >= s * s,
                    k * c * c + q >= 2 * c * s,
            ;
        }
    }
}

/// The sum of squares is bounded elementwise.
pub proof fn lemma_seq_sum_sq_u32_bound(v: Seq<u32>)
    ensures
        0 <= seq_sum_sq_u32(v),
        seq_sum_sq_u32(v) <= v.len() * (0xffff_ffff * 0xffff_ffff),
    decreases v.len(),
{
    if v.len() > 0 {
        lemma_seq_sum_sq_u32_bound(v.drop_last());
        let c = v.last() as int;
        assert(c * c <= 0xffff_ffff * 0xffff_ffff) by (nonlinear_arith)
            requires
                0 <= c <= 0xffff_ffff,
        ;
        assert(v.len() * (0xffff_ffff * 0xffff_ffff) == v.drop_last().len() * (0xffff_ffff
            * 0xffff_ffff) + 0xffff_ffff * 0xffff_ffff) by (nonlinear_arith)
            requires
                v.len() == v.drop_last().len() + 1,
        ;
    }
}

// ---------------------------------------------------------------------
// tempo-transition smoothness
// ---------------------------------------------------------------------
/// The smoothness of one tempo transition: gentle within five BPM, fading
/// piecewise to zero past thirty BPM.
pub open spec fn smooth_term(a: u32, b: u32) -> int {
    let d = if a >= b {
        a - b
    } else {
        b - a
    };
    if d <= 5 {
        1_000_000
    } else if d <= 15 {
        1_000_000 - (d - 5) * 30_000
    } else if d <= 30 {
        700_000 - (d - 15) * 400_000 / 15
    } else {
        if 300_000 - (d - 30) * 30_000 / 7 < 0 {
            0
        } else {
            300_000 - (d - 30) * 30_000 / 7
        }
    }
}

/// Summed smoothness over the consecutive pairs of known tempos.
pub open spec fn smooth_sum(v: Seq<u32>) -> int
    decreases v.len(),
{
    if v.len() < 2 {
        0
    } else {
        smooth_sum(v.drop_last()) + smooth_term(v[v.len() - 2], v.last())
    }
}

/// Mean transition smoothness; fewer than two known tempos are neutral.
pub open spec fn bpm_smoothness_micro(songs: Seq<Song>) -> int {
    let bpms = known_bpms(songs);
    if bpms.len() < 2 {
        500_000
    } else {
        smooth_sum(bpms) / (bpms.len() - 1)
    }
}

/// Each transition term lies in [0, 1].
pub proof fn lemma_smooth_term_range(a: u32, b: u32)
    ensures
        0 <= smooth_term(a, b) <= 1_000_000,
{
    let d = if a >= b {
        a - b
    } else {
        b - a
    };
    if d <= 5 {
    } else if d <= 15 {
    } else if d <= 30 {
        assert((d - 15) * 400_000 / 15 <= 400_000) by (nonlinear_arith)
            requires
                0 <= d - 15 <= 15,
        ;
        assert((d - 15) * 400_000 / 15 >= 0) by (nonlinear_arith)
            requires
                d - 15 >= 0,
        ;
    } else {
        if 300_000 - (d - 30) * 30_000 / 7 >= 0 {
            assert((d - 30) * 30_000 / 7 >= 0) by (nonlinear_arith)
                requires
                    d - 30 >= 0,
            ;
        }
    }
}

// ---------------------------------------------------------------------
// the combined quality score
// ---------------------------------------------------------------------
/// The sum of the five quality weights, in permille.
pub open spec fn quality_weight_sum(w: QualityWeights) -> int {
    w.artist_diversity + w.bpm_transition_smoothness + w.genre_coherence + w.popularity_balance
        + w.era_cohesion
}

/// The quality of a track set: the weighted mean of the five sub-scores,
/// 0 for an empty set, and neutral when every weight is zero.
pub open spec fn quality_score_micro(songs: Seq<Song>, w: QualityWeights) -> int {
    if songs.len() == 0 {
        0
    } else {
        let total = artist_diversity_micro(songs) * w.artist_diversity + bpm_smoothness_micro(
            songs,
        ) * w.bpm_transition_smoothness + genre_coherence_micro(songs) * w.genre_coherence
            + popularity_balance_micro(songs) * w.popularity_balance + era_cohesion_micro_songs(
            songs,
        ) * w.era_cohesion;
        let tw = quality_weight_sum(w);
        if tw > 0 {
            total / tw
        } else {
            500_000
        }
    }
}

impl PlaylistScoring {
    /// Artist diversity: distinct artists over track count, exactly.
    pub fn calculate_artist_diversity_score(songs: &Vec<Song>) -> (r: i64)
        requires
            songs@.len() < 0x1_0000_0000,
        ensures
            r == artist_diversity_micro(songs@),
            0 <= r <= 1_000_000,
    {
        let n = songs.len();
        if n <= 1 {
            return 1_000_000;
        }
        let artists = distinct_artists(songs);
        let d = artists.len();
        proof {
            lemma_dedup_first_len_le(artists_of(songs@));
            assert(crate::models::views_of(artists@).len() == artists@.len());
            assert(artists_of(songs@).len() == songs@.len());
            assert(d <= n);
            assert(d as int * 1_000_000 / (n as int) <= 1_000_000) by (nonlinear_arith)
                requires
                    0 <= (d as int) <= (n as int),
                    n as int >= 1,
            ;
            assert(d as int * 1_000_000 / (n as int) >= 0) by (nonlinear_arith)
                requires
                    d as int >= 0,
                    n as int >= 1,
            ;
        }
        ((d as u64 * 1_000_000) / n as u64) as i64
    }

    /// Genre coherence from a histogram whose counts are per-track
    /// deduplicated (so no count exceeds the track total, and the counts
    /// sum to fewer than 2^32 occurrences).
    pub fn calculate_genre_coherence_score(
        genre_distribution: &Vec<(String, usize)>,
        total_songs: usize,
    ) -> (r: i64)
        requires
            total_songs < 0x1_0000_0000,
            forall|k: int|
                0 <= k < genre_distribution@.len() ==> (#[trigger] genre_distribution@[k]).1
                    <= total_songs,
            hist_count_sum(hist_views(genre_distribution@)) < 0x1_0000_0000,
        ensures
            r == coherence_of_hist(hist_views(genre_distribution@), total_songs as int),
            0 <= r <= 1_000_000,
    {
        let n = genre_distribution.len();
        let t = total_songs;
        let ghost hv = hist_views(genre_distribution@);
        if n == 0 || t == 0 {
            return 500_000;
        }
        if n == 1 {
            return 1_000_000;
        }
        let l2t = log2_micro_u64(t as u64);
        let mut e: i128 = 0;
        let mut k: usize = 0;
        proof {
            lemma_hist_count_sum_nonneg_mono(hv, 0);
        }
        while k < n
            invariant
                k <= n,
                n == genre_distribution@.len(),
                hv == hist_views(genre_distribution@),
                t < 0x1_0000_0000,
                t >= 1,
                l2t as int == log2_micro(t as nat),
                l2t < 64_000_000,
                forall|j: int| 0 <= j < hv.len() ==> 0 <= (#[trigger] hv[j]).1 <= t,
                hist_count_sum(hv) < 0x1_0000_0000,
                e == hist_entropy(hv.subrange(0, k as int), t as int),
                0 <= e <= hist_count_sum(hv.subrange(0, k as int)) * 64_000_000,
            decreases n - k,
        {
            let c = genre_distribution[k].1;
            proof {
                assert(hv[k as int].1 == c as int);
            }
            let l2c = log2_micro_u64(c as u64);
            proof {
                assert((c as int) * ((l2t as int) - (l2c as int)) <= 0x1_0000_0000 * 64_000_000
                    && (c as int) * ((l2t as int) - (l2c as int)) >= -(0x1_0000_0000
                    * 64_000_000)) by (nonlinear_arith)
                    requires
                        0 <= (c as int) <= 0x1_0000_0000,
                        0 <= (l2t as int) < 64_000_000,
                        0 <= (l2c as int) < 64_000_000,
                ;
            }
            let term: i128 = (c as i128) * ((l2t as i128) - (l2c as i128));
            proof {
                lemma_log2_micro_monotone(c as nat, t as nat);
                assert(term >= 0) by (nonlinear_arith)
                    requires
                        term == (c as int) * ((l2t as int) - (l2c as int)),
                        c >= 0,
                        l2t as int >= l2c as int,
                ;
                assert(term <= (c as int) * 64_000_000) by (nonlinear_arith)
                    requires
                        term == (c as int) * ((l2t as int) - (l2c as int)),
                        c >= 0,
                        0 <= l2t < 64_000_000,
                        l2c >= 0,
                ;
                assert(term == entropy_term(c as int, t as int)) by {
                    if c > 0 {
                        assert(entropy_term(c as int, t as int) == (c as int) * (log2_micro(
                            t as nat,
                        ) - log2_micro(c as nat)));
                    }
                }
                let pre = hv.subrange(0, k as int);
                let post = hv.subrange(0, k as int + 1);
                assert(post.drop_last() =~= pre);
                assert(post.last() == hv[k as int]);
                assert(hist_entropy(post, t as int) == hist_entropy(pre, t as int) + entropy_term(
                    c as int,
                    t as int,
                ));
                assert(hist_count_sum(post) == hist_count_sum(pre) + c);
                lemma_hist_count_sum_nonneg_mono(hv, k as int + 1);
            }
            e = e + term;
            k = k + 1;
        }
        proof {
            assert(hv.subrange(0, n as int) =~= hv);
            lemma_hist_count_sum_nonneg_mono(hv, n as int);
        }
        let l2n = log2_micro_u64(n as u64);
        proof {
            assert(log2_micro(2) == 1_000_000) by {
                reveal_with_fuel(crate::numeric::log2_floor, 3);
                reveal_with_fuel(crate::numeric::pow2, 3);
            }
            lemma_log2_micro_monotone(2, n as nat);
            assert(l2n >= 1_000_000);
        }
        proof {
            assert((t as int) * (l2n as int) <= 0x1_0000_0000 * 64_000_000) by (nonlinear_arith)
                requires
                    0 <= (t as int) <= 0x1_0000_0000,
                    0 <= (l2n as int) < 64_000_000,
            ;
            assert((t as int) * (l2n as int) >= 0) by (nonlinear_arith)
                requires
                    0 <= (t as int),
                    0 <= (l2n as int),
            ;
        }
        let denom: i128 = (t as i128) * (l2n as i128);
        proof {
            assert(denom >= 1_000_000) by (nonlinear_arith)
                requires
                    denom == (t as int) * (l2n as int),
                    t >= 1,
                    l2n as int >= 1_000_000,
            ;
            assert(denom <= 0x1_0000_0000 * 64_000_000int) by (nonlinear_arith)
                requires
                    denom == (t as int) * (l2n as int),
                    1 <= (t as int) <= 0x1_0000_0000,
                    0 <= (l2n as int) <= 64_000_000,
            ;
            assert((e as int) * 1_000_000 <= 0x1_0000_0000 * 64_000_000 * 1_000_000)
                by (nonlinear_arith)
                requires
                    0 <= (e as int) <= 0x1_0000_0000 * 64_000_000,
            ;
            assert((e as int) * 1_000_000 / (denom as int) >= 0) by (nonlinear_arith)
                requires
                    e >= 0,
                    denom >= 1,
            ;
        }
        let norm: i128 = e * 1_000_000 / denom;
        if norm > 1_000_000 {
            0
        } else {
            1_000_000 - (norm as i64)
        }
    }

    /// Era cohesion from the year span.
    pub fn calculate_era_cohesion_score(era_span: &(Option<u32>, Option<u32>)) -> (r: i64)
        ensures
            r == era_cohesion_micro(*era_span),
            0 <= r <= 1_000_000,
    {
        match era_span.0 {
            Some(mn) => match era_span.1 {
                Some(mx) => {
                    let span: i64 = mx as i64 - mn as i64;
                    if span <= 2 {
                        1_000_000
                    } else if span <= 10 {
                        800_000 - (span - 2) * 37_500
                    } else if span <= 20 {
                        500_000 - (span - 10) * 30_000
                    } else {
                        let v: i64 = 200_000 - (span - 20) * 4_000;
                        proof {
                            assert((span - 20) * 4_000 >= 0) by (nonlinear_arith)
                                requires
                                    span >= 21,
                            ;
                            assert((span - 20) * 4_000 <= 0xffff_ffffi64 * 4_000)
                                by (nonlinear_arith)
                                requires
                                    21 <= span <= 0xffff_ffff,
                            ;
                        }
                        if v < 0 {
                            0
                        } else {
                            v
                        }
                    }
                },
                None => 500_000,
            },
            None => 500_000,
        }
    }

    /// Popularity balance from the coefficient of variation of the known
    /// play counts.
    pub fn calculate_popularity_balance_score(songs: &Vec<Song>) -> (r: i64)
        requires
            songs@.len() < 0x1_0000_0000,
        ensures
            r == popularity_balance_micro(songs@),
            0 <= r <= 1_000_000,
    {
        let counts = collect_play_counts(songs);
        proof {
            lemma_known_play_counts_len(songs@);
        }
        let m = counts.len();
        if m <= 1 {
            return 500_000;
        }
        let s = sum_u32(&counts);
        proof {
            lemma_seq_sum_u32_bound(counts@);
        }
        if s == 0 {
            proof {
                assert(balance_of_cv(0) == 0);
            }
            return 0;
        }
        // sum of squares
        let mut q: u128 = 0;
        let mut i: usize = 0;
        while i < m
            invariant
                i <= m,
                m == counts@.len(),
                m < 0x1_0000_0000,
                q == seq_sum_sq_u32(counts@.subrange(0, i as int)),
                q <= i as int * (0xffff_ffffu128 * 0xffff_ffff),
            decreases m - i,
        {
            proof {
                assert(counts@.subrange(0, i as int + 1).drop_last() =~= counts@.subrange(
                    0,
                    i as int,
                ));
                assert(counts@.subrange(0, i as int + 1).last() == counts@[i as int]);
                let c = counts@[i as int] as int;
                assert(c * c <= 0xffff_ffff * 0xffff_ffff) by (nonlinear_arith)
                    requires
                        0 <= c <= 0xffff_ffff,
                ;
            }
            let c = counts[i] as u128;
            q = q + c * c;
            i = i + 1;
        }
        proof {
            assert(counts@.subrange(0, m as int) =~= counts@);
        }
        // variance numerator
        proof {
            lemma_cauchy(counts@);
            lemma_seq_sum_sq_u32_bound(counts@);
            assert(m as int * seq_sum_sq_u32(counts@) <= 0x1_0000_0000 * (0x1_0000_0000 * (0xffff_ffff * 0xffff_ffff))) by (nonlinear_arith)
                requires
                    0 <= (m as int) < 0x1_0000_0000,
                    0 <= seq_sum_sq_u32(counts@) <= 0x1_0000_0000 * (0xffff_ffff * 0xffff_ffff),
            ;
            assert(s as int * s as int <= m as int * seq_sum_sq_u32(counts@)) by {
                lemma_cauchy(counts@);
            }
        }
        proof {
            assert((m as int) * (q as int) < 0x1_0000_0000_0000_0000_0000_0000_0000_0000)
                by (nonlinear_arith)
                requires
                    0 <= (m as int) < 0x1_0000_0000,
                    0 <= (q as int) <= 0x1_0000_0000 * (0xffff_ffff * 0xffff_ffff),
            ;
            assert((s as int) * (s as int) < 0x1_0000_0000_0000_0000_0000_0000_0000_0000)
                by (nonlinear_arith)
                requires
                    0 <= (s as int) <= 0x1_0000_0000 * 0xffff_ffff,
            ;
        }
        let num: u128 = (m as u128) * q - (s as u128) * (s as u128);
        let root = isqrt_u128(num);
        proof {
            lemma_isqrt_spec(num as nat);
            assert((root as int) < 0x1_0000_0000_0000_0000) by (nonlinear_arith)
                requires
                    (root as int) * (root as int) <= num as int,
                    (num as int) < 0x1_0000_0000_0000_0000_0000_0000_0000_0000,
            ;
        }
        let cv: u128 = root * 1000 / (s as u128);
        proof {
            assert(cv == play_count_cv_milli(counts@));
        }
        let r: i64 = if cv <= 300 {
            proof {
                assert((cv as int) * 5_000 / 3 <= 500_000) by (nonlinear_arith)
                    requires
                        0 <= (cv as int) <= 300,
                ;
                assert((cv as int) * 5_000 / 3 >= 0) by (nonlinear_arith)
                    requires
                        (cv as int) >= 0,
                ;
            }
            ((cv * 5_000) / 3) as i64
        } else if cv <= 1000 {
            proof {
                assert(((cv as int) - 300) * 5_000 / 7 <= 500_000) by (nonlinear_arith)
                    requires
                        300 < (cv as int) <= 1000,
                ;
                assert(((cv as int) - 300) * 5_000 / 7 >= 0) by (nonlinear_arith)
                    requires
                        (cv as int) > 300,
                ;
            }
            500_000 + (((cv - 300) * 5_000) / 7) as i64
        } else {
            if cv >= 2000 {
                proof {
                    assert(2_000_000 - (cv as int) * 1000 <= 0) by (nonlinear_arith)
                        requires
                            (cv as int) >= 2000,
                    ;
                }
                0
            } else {
                proof {
                    assert(2_000_000 - (cv as int) * 1000 >= 0) by (nonlinear_arith)
                        requires
                            (cv as int) < 2000,
                    ;
                }
                2_000_000 - (cv as i64) * 1000
            }
        };
        r
    }

    /// Mean tempo-transition smoothness over consecutive known tempos.
    pub fn calculate_bpm_transition_smoothness_score(songs: &Vec<Song>) -> (r: i64)
        requires
            songs@.len() < 0x1_0000_0000,
        ensures
            r == bpm_smoothness_micro(songs@),
            0 <= r <= 1_000_000,
    {
        let bpms = collect_bpms(songs);
        proof {
            lemma_known_bpms_len(songs@);
        }
        let m = bpms.len();
        if m < 2 {
            return 500_000;
        }
        let mut total: i64 = 0;
        let mut i: usize = 1;
        proof {
            assert(smooth_sum(bpms@.subrange(0, 1)) == 0);
        }
        while i < m
            invariant
                1 <= i <= m,
                m == bpms@.len(),
                m < 0x1_0000_0000,
                total == smooth_sum(bpms@.subrange(0, i as int)),
                0 <= total <= (i as int - 1) * 1_000_000,
            decreases m - i,
        {
            let t = smooth_term_exec(bpms[i - 1], bpms[i]);
            proof {
                let pre = bpms@.subrange(0, i as int);
                let post = bpms@.subrange(0, i as int + 1);
                assert(post.drop_last() =~= pre);
                assert(post.last() == bpms@[i as int]);
                assert(post[post.len() - 2] == bpms@[i as int - 1]);
                assert(smooth_sum(post) == smooth_sum(pre) + smooth_term(
                    bpms@[i as int - 1],
                    bpms@[i as int],
                ));
            }
            total = total + t;
            i = i + 1;
        }
        proof {
            assert(bpms@.subrange(0, m as int) =~= bpms@);
            assert((total as int) / (m as int - 1) <= 1_000_000) by (nonlinear_arith)
                requires
                    0 <= (total as int) <= (m as int - 1) * 1_000_000,
                    m as int >= 2,
            ;
            assert((total as int) / (m as int - 1) >= 0) by (nonlinear_arith)
                requires
                    total >= 0,
                    m as int >= 2,
            ;
        }
        total / (m as i64 - 1)
    }

    /// The quality of a track set under the profile's weights: the
    /// weighted mean of the five sub-scores, 0 for an empty set.
    pub fn calculate_quality_score(
        songs: &Vec<Song>,
        metadata: &PlaylistMetadata,
        config: &PlaylistConfig,
    ) -> (r: i64)
        requires
            metadata_matches(*metadata, songs@),
            pool_bounded(songs@),
            config.quality_weights.valid(),
        ensures
            r == quality_score_micro(songs@, config.quality_weights),
            0 <= r <= 1_000_000,
    {
        if songs.len() == 0 {
            return 0;
        }
        let w = &config.quality_weights;
        proof {
            lemma_songs_hist_total(songs@);
            lemma_hist_of_pointwise(genres_flat(songs@), dedup_first(genres_flat(songs@)));
            assert(forall|k: int|
                0 <= k < metadata.genre_distribution@.len() ==> (
                #[trigger] hist_views(metadata.genre_distribution@)[k]).1 == (
                metadata.genre_distribution@[k]).1 as int);
            assert forall|k: int| 0 <= k < metadata.genre_distribution@.len() implies (
            #[trigger] metadata.genre_distribution@[k]).1 <= metadata.total_songs by {
                let sh = songs_hist(songs@);
                assert(sh[k] == (dedup_first(genres_flat(songs@))[k], crate::genres::occ(
                    genres_flat(songs@),
                    dedup_first(genres_flat(songs@))[k],
                )));
                lemma_occ_flat_le_songs(songs@, dedup_first(genres_flat(songs@))[k]);
                assert(hist_views(metadata.genre_distribution@)[k] == sh[k]);
            }
        }
        let ad = Self::calculate_artist_diversity_score(songs);
        let bs = Self::calculate_bpm_transition_smoothness_score(songs);
        let gc = Self::calculate_genre_coherence_score(
            &metadata.genre_distribution,
            metadata.total_songs,
        );
        let pb = Self::calculate_popularity_balance_score(songs);
        let ec = Self::calculate_era_cohesion_score(&metadata.era_span);
        proof {
            assert(ad * (w.artist_diversity as i64) <= (w.artist_diversity as i64) * 1_000_000
                && ad * (w.artist_diversity as i64) >= 0) by (nonlinear_arith)
                requires
                    0 <= ad <= 1_000_000,
                    0 <= (w.artist_diversity as i64) <= 1000,
            ;
            assert(bs * (w.bpm_transition_smoothness as i64) <= (w.bpm_transition_smoothness
                as i64) * 1_000_000 && bs * (w.bpm_transition_smoothness as i64) >= 0)
                by (nonlinear_arith)
                requires
                    0 <= bs <= 1_000_000,
                    0 <= (w.bpm_transition_smoothness as i64) <= 1000,
            ;
            assert(gc * (w.genre_coherence as i64) <= (w.genre_coherence as i64) * 1_000_000
                && gc * (w.genre_coherence as i64) >= 0) by (nonlinear_arith)
                requires
                    0 <= gc <= 1_000_000,
                    0 <= (w.genre_coherence as i64) <= 1000,
            ;
            assert(pb * (w.popularity_balance as i64) <= (w.popularity_balance as i64)
                * 1_000_000 && pb * (w.popularity_balance as i64) >= 0) by (nonlinear_arith)
                requires
                    0 <= pb <= 1_000_000,
                    0 <= (w.popularity_balance as i64) <= 1000,
            ;
            assert(ec * (w.era_cohesion as i64) <= (w.era_cohesion as i64) * 1_000_000 && ec
                * (w.era_cohesion as i64) >= 0) by (nonlinear_arith)
                requires
                    0 <= ec <= 1_000_000,
                    0 <= (w.era_cohesion as i64) <= 1000,
            ;
        }
        let total: i64 = ad * (w.artist_diversity as i64) + bs * (w.bpm_transition_smoothness
            as i64) + gc * (w.genre_coherence as i64) + pb * (w.popularity_balance as i64) + ec
            * (w.era_cohesion as i64);
        let tw: i64 = w.artist_diversity as i64 + w.bpm_transition_smoothness as i64
            + w.genre_coherence as i64 + w.popularity_balance as i64 + w.era_cohesion as i64;
        if tw > 0 {
            proof {
                assert(total / tw <= 1_000_000) by (nonlinear_arith)
                    requires
                        0 <= total <= tw * 1_000_000,
                        tw >= 1,
                ;
                assert(total / tw >= 0) by (nonlinear_arith)
                    requires
                        total >= 0,
                        tw >= 1,
                ;
            }
            total / tw
        } else {
            500_000
        }
    }

    /// Milli-days since the track was last played, with the current time
    /// as an explicit input; an unparsable timestamp counts as half a
    /// day.
    pub fn parse_days_since_played(played_str: &str, now_epoch: i64) -> (r: i64)
        ensures
            r == days_since_played_spec(played_str@, now_epoch),
            0 <= r,
    {
        days_since_played_milli(played_str, now_epoch)
    }

    /// Playlist metrics as a pure aggregation over the track set.
    pub fn calculate_metadata(songs: &Vec<Song>) -> (r: PlaylistMetadata)
        requires
            songs@.len() < 0x1_0000_0000,
        ensures
            metadata_matches(r, songs@),
    {
        crate::metrics::compute_metadata(songs)
    }

    /// The standalone preference score of a track, in milli-units.
    pub fn calculate_preference_score(
        song: &Song,
        config: &PlaylistConfig,
        now_epoch: i64,
    ) -> (r: i64)
        requires
            config.preference_weights.valid(),
        ensures
            r == preference_score_milli(*song, *config, now_epoch),
            -8_000_000_000_000 <= r <= 41_000_000_000_000,
    {
        let w = &config.preference_weights;
        let starred: i64 = if song.starred.is_some() {
            w.starred_boost
        } else {
            0
        };
        let play: i64 = match song.play_count {
            Some(c) => {
                if w.discovery_mode {
                    if c == 0 {
                        50_000
                    } else if c <= 2 {
                        30_000 - (c as i64) * 5_000
                    } else {
                        let l = log10_milli_u64(c as u64);
                        let lc: i64 = if l > 10_000 {
                            10_000
                        } else {
                            l as i64
                        };
                        10_000 - lc * 2
                    }
                } else {
                    let l = log10_milli_u64(c as u64);
                    proof {
                        assert((l as int) * (w.play_count_weight as int) <= 20_000
                            * 1_000_000_000int && (l as int) * (w.play_count_weight as int) >= 0)
                            by (nonlinear_arith)
                            requires
                                0 <= (l as int) < 20_000,
                                0 <= (w.play_count_weight as int) <= 1_000_000_000,
                        ;
                        assert((l as int) * (w.play_count_weight as int) / 1000 >= 0)
                            by (nonlinear_arith)
                            requires
                                (l as int) * (w.play_count_weight as int) >= 0,
                        ;
                    }
                    ((l as i64) * w.play_count_weight) / 1000
                }
            },
            None => {
                if w.discovery_mode {
                    25_000
                } else {
                    0
                }
            },
        };
        let penalty: i64 = match &song.played {
            Some(p) => {
                let days = days_since_played_milli(p.as_str(), now_epoch);
                let threshold: i64 = if w.discovery_mode {
                    3000
                } else {
                    7000
                };
                if days < threshold {
                    let mult: i64 = if w.discovery_mode {
                        2000
                    } else {
                        w.recency_penalty_weight
                    };
                    proof {
                        assert((threshold - days) as int * (mult as int) <= 7000
                            * 1_000_000_000int && (threshold - days) as int * (mult as int) >= 0)
                            by (nonlinear_arith)
                            requires
                                0 < (threshold - days) as int <= 7000,
                                0 <= (mult as int) <= 1_000_000_000,
                        ;
                        assert((threshold - days) as int * (mult as int) / 1000 >= 0)
                            by (nonlinear_arith)
                            requires
                                (threshold - days) as int * (mult as int) >= 0,
                        ;
                    }
                    let p: i64 = ((threshold - days) * mult) / 1000;
                    if mult > 0 && p == 0 {
                        1
                    } else {
                        p
                    }
                } else {
                    0
                }
            },
            None => 0,
        };
        let id_len = song.id.as_str().unicode_len();
        let m: usize = if w.discovery_mode {
            20
        } else {
            10
        };
        let rm = id_len % m;
        proof {
            assert((rm as int) * (w.randomness_factor as int) <= 19 * 1_000_000_000int && (
            rm as int) * (w.randomness_factor as int) >= 0) by (nonlinear_arith)
                requires
                    0 <= (rm as int) < 20,
                    0 <= (w.randomness_factor as int) <= 1_000_000_000,
            ;
        }
        let jitter: i64 = (rm as i64) * w.randomness_factor;
        starred + play - penalty + jitter
    }
}

// ---------------------------------------------------------------------
// the standalone preference score
// ---------------------------------------------------------------------
/// The flat bonus for a favorite track.
pub open spec fn starred_component(song: Song, config: PlaylistConfig) -> int {
    if song.starred is Some {
        config.preference_weights.starred_boost as int
    } else {
        0
    }
}

/// The fixed-point log of a play count, capped at ten.
pub open spec fn capped_log10(c: u32) -> int {
    if log10_milli(c as nat) > 10_000 {
        10_000
    } else {
        log10_milli(c as nat)
    }
}

/// The play-count contribution.  Normal mode rewards often-played tracks
/// logarithmically; discovery mode inverts: unplayed tracks get the top
/// fixed bonus, rarely played ones the next, and the bonus shrinks
/// logarithmically with the count.  An absent count is a medium bonus in
/// discovery mode and nothing otherwise.
pub open spec fn play_component(song: Song, config: PlaylistConfig) -> int {
    let w = config.preference_weights;
    match song.play_count {
        Some(c) => if w.discovery_mode {
            if c == 0 {
                50_000
            } else if c <= 2 {
                30_000 - c * 5_000
            } else {
                10_000 - capped_log10(c) * 2
            }
        } else {
            log10_milli(c as nat) * (w.play_count_weight as int) / 1000
        },
        None => if w.discovery_mode {
            25_000
        } else {
            0
        },
    }
}

/// The recency penalty: tracks played within the mode's threshold lose
/// points in proportion to how recent the play was; discovery mode uses a
/// shorter threshold and a fixed stronger multiplier.
pub open spec fn recency_component(song: Song, config: PlaylistConfig, now_epoch: i64) -> int {
    let w = config.preference_weights;
    match song.played {
        Some(p) => {
            let days = days_since_played_spec(p@, now_epoch);
            let threshold: int = if w.discovery_mode {
                3000
            } else {
                7000
            };
            if days < threshold {
                let mult: int = if w.discovery_mode {
                    2000
                } else {
                    w.recency_penalty_weight as int
                };
                // a positive penalty never rounds away entirely, so a
                // recent play always scores strictly lower
                if mult > 0 && (threshold - days) * mult / 1000 == 0 {
                    1
                } else {
                    (threshold - days) * mult / 1000
                }
            } else {
                0
            }
        },
        None => 0,
    }
}

/// The deterministic tie-breaking jitter, derived from the track id
/// alone.
pub open spec fn jitter_component(song: Song, config: PlaylistConfig) -> int {
    let w = config.preference_weights;
    let m: int = if w.discovery_mode {
        20
    } else {
        10
    };
    (song.id@.len() as int % m) * (w.randomness_factor as int)
}

/// The standalone preference score of a track, in milli-units: favorite
/// boost plus play-count contribution minus recency penalty plus jitter.
pub open spec fn preference_score_milli(song: Song, config: PlaylistConfig, now_epoch: i64) -> int {
    starred_component(song, config) + play_component(song, config) - recency_component(
        song,
        config,
        now_epoch,
    ) + jitter_component(song, config)
}

// ---------------------------------------------------------------------
// laws of the quality sub-scores
// ---------------------------------------------------------------------
/// Artist diversity is exactly the distinct-artist count over the track
/// count, in micro-units, whenever at least two artists are distinct.
pub proof fn lemma_artist_diversity_exact(songs: Seq<Song>)
    requires
        dedup_first(artists_of(songs)).len() >= 2,
    ensures
        artist_diversity_micro(songs) == dedup_first(artists_of(songs)).len() as int * 1_000_000
            / (songs.len() as int),
{
    lemma_dedup_first_len_le(artists_of(songs));
    assert(artists_of(songs).len() == songs.len());
}

/// A set whose tracks all carry one single genre is perfectly coherent.
pub proof fn lemma_genre_coherence_single(songs: Seq<Song>)
    requires
        songs.len() > 0,
        dedup_first(genres_flat(songs)).len() == 1,
    ensures
        genre_coherence_micro(songs) == 1_000_000,
{
    lemma_hist_of_pointwise(genres_flat(songs), dedup_first(genres_flat(songs)));
}

/// With every count one, the entropy sum is the key count times the log
/// of the total.
proof fn lemma_entropy_all_ones(flat: Seq<Seq<char>>, keys: Seq<Seq<char>>, t: int)
    requires
        t >= 1,
        forall|k: int| 0 <= k < keys.len() ==> crate::genres::occ(flat, #[trigger] keys[k]) == 1,
    ensures
        hist_entropy(hist_of(flat, keys), t) == keys.len() * log2_micro(t as nat),
    decreases keys.len(),
{
    if keys.len() == 0 {
    } else {
        let pre = keys.drop_last();
        assert(forall|k: int|
            0 <= k < pre.len() ==> crate::genres::occ(flat, #[trigger] pre[k]) == crate::genres::occ(
                flat,
                keys[k],
            ));
        lemma_entropy_all_ones(flat, pre, t);
        assert(hist_of(flat, keys).drop_last() =~= hist_of(flat, pre));
        assert(hist_of(flat, keys).last() == (keys.last(), crate::genres::occ(flat, keys.last())));
        assert(crate::genres::occ(flat, keys.last()) == 1);
        assert(entropy_term(1, t) == 1 * (log2_micro(t as nat) - log2_micro(1)));
        assert(log2_micro(1) == 0);
        assert((keys.len() - 1) * log2_micro(t as nat) + log2_micro(t as nat) == keys.len()
            * log2_micro(t as nat)) by (nonlinear_arith);
    }
}

/// An even split, one genre occurrence per track and one track per
/// genre, is maximally diverse: coherence is exactly zero, however many
/// genres there are.
pub proof fn lemma_genre_coherence_even_split(songs: Seq<Song>)
    requires
        songs.len() >= 2,
        dedup_first(genres_flat(songs)).len() == songs.len(),
        forall|k: int|
            0 <= k < dedup_first(genres_flat(songs)).len() ==> crate::genres::occ(
                genres_flat(songs),
                #[trigger] dedup_first(genres_flat(songs))[k],
            ) == 1,
    ensures
        genre_coherence_micro(songs) == 0,
{
    let flat = genres_flat(songs);
    let keys = dedup_first(flat);
    let t = songs.len() as int;
    lemma_hist_of_pointwise(flat, keys);
    lemma_entropy_all_ones(flat, keys, t);
    assert(log2_micro(2) == 1_000_000) by {
        reveal_with_fuel(crate::numeric::log2_floor, 3);
        reveal_with_fuel(crate::numeric::pow2, 3);
    }
    lemma_log2_micro_monotone(2, t as nat);
    let l2t = log2_micro(t as nat);
    assert(l2t >= 1_000_000);
    assert(hist_entropy(hist_of(flat, keys), t) == t * l2t);
    assert(t * l2t * 1_000_000 / (t * l2t) == 1_000_000) by (nonlinear_arith)
        requires
            t >= 1,
            l2t >= 1,
    ;
    assert(coherence_of_hist(hist_of(flat, keys), t) == 0);
}

/// A same-year set is perfectly cohesive, and a span past the top
/// bracket scores strictly below any same-decade span.
pub proof fn lemma_era_cohesion_brackets(y: u32, mn1: u32, mx1: u32, mn2: u32, mx2: u32)
    requires
        mn1 <= mx1,
        mx1 - mn1 <= 10,
        mn2 <= mx2,
        mx2 - mn2 > 20,
    ensures
        era_cohesion_micro((Some(y), Some(y))) == 1_000_000,
        era_cohesion_micro((Some(mn2), Some(mx2))) < era_cohesion_micro((Some(mn1), Some(mx1))),
{
    let s1 = mx1 - mn1;
    let s2 = mx2 - mn2;
    assert(era_cohesion_micro((Some(mn1), Some(mx1))) >= 500_000) by {
        if s1 > 2 {
            assert((s1 - 2) * 37_500 <= 300_000) by (nonlinear_arith)
                requires
                    0 <= s1 - 2 <= 8,
            ;
        }
    }
    assert(era_cohesion_micro((Some(mn2), Some(mx2))) <= 200_000) by {
        assert((s2 - 20) * 4_000 >= 4_000) by (nonlinear_arith)
            requires
                s2 - 20 >= 1,
        ;
    }
}

/// All-identical play counts have zero balance.
pub proof fn lemma_popularity_identical(songs: Seq<Song>)
    requires
        known_play_counts(songs).len() >= 2,
        forall|k: int|
            0 <= k < known_play_counts(songs).len() ==> #[trigger] known_play_counts(songs)[k]
                == known_play_counts(songs)[0],
    ensures
        popularity_balance_micro(songs) == 0,
{
    let counts = known_play_counts(songs);
    let c = counts[0] as int;
    let n = counts.len() as int;
    lemma_sums_of_constant(counts, c);
    let s = seq_sum_u32(counts);
    let q = seq_sum_sq_u32(counts);
    assert(s == n * c && q == n * (c * c));
    if s == 0 {
        assert(balance_of_cv(play_count_cv_milli(counts)) == 0);
    } else {
        assert(n * q - s * s == 0) by (nonlinear_arith)
            requires
                s == n * c,
                q == n * (c * c),
        ;
        assert(isqrt_spec(0) == 0);
        assert(play_count_cv_milli(counts) == 0);
        assert(balance_of_cv(0) == 0);
    }
}

/// Sums of a constant sequence.
proof fn lemma_sums_of_constant(counts: Seq<u32>, c: int)
    requires
        forall|k: int| 0 <= k < counts.len() ==> #[trigger] counts[k] == c,
    ensures
        seq_sum_u32(counts) == counts.len() * c,
        seq_sum_sq_u32(counts) == counts.len() * (c * c),
    decreases counts.len(),
{
    if counts.len() == 0 {
    } else {
        let pre = counts.drop_last();
        assert(forall|k: int| 0 <= k < pre.len() ==> #[trigger] pre[k] == counts[k]);
        lemma_sums_of_constant(pre, c);
        assert(counts.last() == c);
        assert((counts.len() - 1) * c + c == counts.len() * c) by (nonlinear_arith);
        assert((counts.len() - 1) * (c * c) + c * c == counts.len() * (c * c))
            by (nonlinear_arith);
    }
}

/// A moderate spread of play counts scores strictly above an identical
/// spread; only a pathologically extreme spread (a coefficient of
/// variation of two or more) falls back to zero.
pub proof fn lemma_popularity_moderate_beats_identical(even: Seq<Song>, mixed: Seq<Song>)
    requires
        known_play_counts(even).len() >= 2,
        forall|k: int|
            0 <= k < known_play_counts(even).len() ==> #[trigger] known_play_counts(even)[k]
                == known_play_counts(even)[0],
        known_play_counts(mixed).len() >= 2,
        0 < play_count_cv_milli(known_play_counts(mixed)) < 2000,
    ensures
        popularity_balance_micro(even) < popularity_balance_micro(mixed),
{
    lemma_popularity_identical(even);
    let cv = play_count_cv_milli(known_play_counts(mixed));
    if cv <= 300 {
        assert(cv * 5_000 / 3 >= 1666) by (nonlinear_arith)
            requires
                1 <= cv,
        ;
    } else if cv <= 1000 {
        assert((cv - 300) * 5_000 / 7 >= 0) by (nonlinear_arith)
            requires
                cv > 300,
        ;
    } else {
        assert(2_000_000 - cv * 1000 >= 1000) by (nonlinear_arith)
            requires
                cv <= 1999,
        ;
    }
}

// ---------------------------------------------------------------------
// laws of the preference score
// ---------------------------------------------------------------------
/// In discovery mode an unplayed track outranks one played twice, which
/// outranks one played fifty times, all else equal; a track with no play
/// record at all still outranks both played ones.
pub proof fn lemma_discovery_prefers_unplayed(song: Song, config: PlaylistConfig, now_epoch: i64)
    requires
        config.preference_weights.discovery_mode,
    ensures
        preference_score_milli(Song { play_count: Some(0u32), ..song }, config, now_epoch)
            > preference_score_milli(Song { play_count: Some(2u32), ..song }, config, now_epoch),
        preference_score_milli(Song { play_count: None, ..song }, config, now_epoch)
            > preference_score_milli(Song { play_count: Some(2u32), ..song }, config, now_epoch),
        preference_score_milli(Song { play_count: Some(2u32), ..song }, config, now_epoch)
            > preference_score_milli(Song { play_count: Some(50u32), ..song }, config, now_epoch),
{
    let unplayed = Song { play_count: Some(0u32), ..song };
    let fresh = Song { play_count: None, ..song };
    let low = Song { play_count: Some(2u32), ..song };
    let high = Song { play_count: Some(50u32), ..song };
    assert(starred_component(unplayed, config) == starred_component(low, config));
    assert(recency_component(unplayed, config, now_epoch) == recency_component(
        low,
        config,
        now_epoch,
    ));
    assert(jitter_component(unplayed, config) == jitter_component(low, config));
    assert(play_component(unplayed, config) == 50_000);
    assert(play_component(fresh, config) == 25_000);
    assert(play_component(low, config) == 20_000);
    assert(log10_floor(50) == 1) by {
        reveal_with_fuel(crate::numeric::log10_floor, 3);
    }
    assert(crate::numeric::pow10(1) == 10) by {
        reveal_with_fuel(crate::numeric::pow10, 3);
    }
    assert(log10_milli(50) == 1000 + 40 * 1000 / 90);
    assert(40 * 1000 / 90 == 444) by (nonlinear_arith);
    assert(capped_log10(50) == 1444);
    assert(play_component(high, config) == 10_000 - 2888);
}

/// The preference delta between an otherwise-identical favorite and
/// non-favorite track is exactly the configured favorite boost.
pub proof fn lemma_favorite_boost_delta(
    song: Song,
    config: PlaylistConfig,
    now_epoch: i64,
    stamp: String,
)
    ensures
        preference_score_milli(Song { starred: Some(stamp), ..song }, config, now_epoch)
            - preference_score_milli(Song { starred: None, ..song }, config, now_epoch)
            == config.preference_weights.starred_boost,
{
    let fav = Song { starred: Some(stamp), ..song };
    let plain = Song { starred: None, ..song };
    assert(play_component(fav, config) == play_component(plain, config));
    assert(recency_component(fav, config, now_epoch) == recency_component(
        plain,
        config,
        now_epoch,
    ));
    assert(jitter_component(fav, config) == jitter_component(plain, config));
    assert(starred_component(fav, config) == config.preference_weights.starred_boost);
    assert(starred_component(plain, config) == 0);
}

/// A track played more recently than the mode's threshold scores
/// strictly below an otherwise-identical track played at or past it,
/// whenever the penalty multiplier is positive: the penalty never rounds
/// away entirely.
pub proof fn lemma_recent_play_scores_lower(
    song: Song,
    config: PlaylistConfig,
    now_epoch: i64,
    p1: String,
    p2: String,
)
    requires
        config.preference_weights.discovery_mode
            || config.preference_weights.recency_penalty_weight > 0,
        days_since_played_spec(p1@, now_epoch) < (if config.preference_weights.discovery_mode {
            3000int
        } else {
            7000int
        }),
        days_since_played_spec(p2@, now_epoch) >= (if config.preference_weights.discovery_mode {
            3000int
        } else {
            7000int
        }),
        days_since_played_spec(p1@, now_epoch) >= 0,
    ensures
        preference_score_milli(Song { played: Some(p1), ..song }, config, now_epoch)
            < preference_score_milli(Song { played: Some(p2), ..song }, config, now_epoch),
{
    let recent = Song { played: Some(p1), ..song };
    let stale = Song { played: Some(p2), ..song };
    assert(starred_component(recent, config) == starred_component(stale, config));
    assert(play_component(recent, config) == play_component(stale, config));
    assert(jitter_component(recent, config) == jitter_component(stale, config));
    assert(recency_component(stale, config, now_epoch) == 0);
    let threshold: int = if config.preference_weights.discovery_mode {
        3000
    } else {
        7000
    };
    let mult: int = if config.preference_weights.discovery_mode {
        2000
    } else {
        config.preference_weights.recency_penalty_weight as int
    };
    let days = days_since_played_spec(p1@, now_epoch);
    assert((threshold - days) * mult >= 1) by (nonlinear_arith)
        requires
            threshold - days >= 1,
            mult >= 1,
    ;
    assert((threshold - days) * mult / 1000 >= 0) by (nonlinear_arith)
        requires
            (threshold - days) * mult >= 0,
    ;
    assert(recency_component(recent, config, now_epoch) >= 1);
}

/// An empty track set has quality exactly zero.
pub proof fn lemma_quality_empty(w: QualityWeights)
    ensures
        quality_score_micro(Seq::<Song>::empty(), w) == 0,
{
}

/// Histogram count prefixes are nonnegative and below the full sum when
/// every count is nonnegative.
pub proof fn lemma_hist_count_sum_nonneg_mono(h: Seq<(Seq<char>, int)>, k: int)
    requires
        0 <= k <= h.len(),
        forall|j: int| 0 <= j < h.len() ==> (#[trigger] h[j]).1 >= 0,
    ensures
        0 <= hist_count_sum(h.subrange(0, k)),
        hist_count_sum(h.subrange(0, k)) <= hist_count_sum(h),
    decreases h.len() - k,
{
    if k == h.len() {
        assert(h.subrange(0, k) =~= h);
        lemma_hist_count_sum_nonneg(h);
    } else {
        lemma_hist_count_sum_nonneg_mono(h, k + 1);
        assert(h.subrange(0, k + 1).drop_last() =~= h.subrange(0, k));
        assert(h.subrange(0, k + 1).last() == h[k]);
        lemma_hist_count_sum_nonneg(h.subrange(0, k));
    }
}

pub proof fn lemma_hist_count_sum_nonneg(h: Seq<(Seq<char>, int)>)
    requires
        forall|j: int| 0 <= j < h.len() ==> (#[trigger] h[j]).1 >= 0,
    ensures
        hist_count_sum(h) >= 0,
    decreases h.len(),
{
    if h.len() > 0 {
        assert(forall|j: int|
            0 <= j < h.drop_last().len() ==> (#[trigger] h.drop_last()[j]).1 == h[j].1);
        lemma_hist_count_sum_nonneg(h.drop_last());
    }
}

/// One tempo transition scored by the smoothness curve.
fn smooth_term_exec(a: u32, b: u32) -> (r: i64)
    ensures
        r == smooth_term(a, b),
        0 <= r <= 1_000_000,
{
    proof {
        lemma_smooth_term_range(a, b);
    }
    let d: i64 = if a >= b {
        (a - b) as i64
    } else {
        (b - a) as i64
    };
    if d <= 5 {
        1_000_000
    } else if d <= 15 {
        1_000_000 - (d - 5) * 30_000
    } else if d <= 30 {
        700_000 - (d - 15) * 400_000 / 15
    } else {
        proof {
            assert((d - 30) * 30_000 >= 0) by (nonlinear_arith)
                requires
                    d >= 31,
            ;
            assert((d - 30) * 30_000 <= 0xffff_ffffi64 * 30_000) by (nonlinear_arith)
                requires
                    31 <= d <= 0xffff_ffff,
            ;
        }
        let v: i64 = 300_000 - (d - 30) * 30_000 / 7;
        if v < 0 {
            0
        } else {
            v
        }
    }
}

} // verus!
