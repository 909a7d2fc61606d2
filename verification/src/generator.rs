//! The sequence builder: filters the pool, sorts it by preference, and
//! grows the playlist greedily under the hard sequencing constraints.
//!
//! Each step scans the remaining candidates in preference order, skips
//! any that would violate a hard constraint, scores the rest by a 70/30
//! blend of hypothetical whole-playlist quality and transition score, and
//! appends the best.  When no candidate passes the constraints the build
//! stops (the strict policy: no constraint-ignoring fallback picks).

use vstd::prelude::*;

verus! {

use crate::models::Song;
use crate::config::PlaylistConfig;
use crate::filters::{SongFilters, should_include_song_spec};
use crate::genres::{
    genres_flat, lemma_genres_flat_push, lemma_genres_flat_remove,
};
use crate::metadata::{Playlist, PlaylistSong, SelectionReason, playlist_song_seq};
use crate::metrics::pool_bounded;
use crate::scoring::{PlaylistScoring, preference_score_milli, quality_score_micro};
use crate::transitions::{
    PlaylistTransitions, transition_score_micro, violates_artist_repetition,
    violates_album_repetition, violates_min_days,
};
use crate::naming::{PlaylistNaming, playlist_name_ok};

/// The main playlist generator, configured once with a taste profile.
pub struct PlaylistGenerator {
    pub config: PlaylistConfig,
}

/// The pool after filtering, in pool order.
pub open spec fn filtered_pool(songs: Seq<Song>, config: PlaylistConfig) -> Seq<Song>
    decreases songs.len(),
{
    if songs.len() == 0 {
        Seq::<Song>::empty()
    } else {
        filtered_pool(songs.drop_last(), config) + (if should_include_song_spec(
            songs.last(),
            config,
        ) {
            seq![songs.last()]
        } else {
            Seq::<Song>::empty()
        })
    }
}

/// One tempo step obeys the jump ceiling whenever both tempos are known.
pub open spec fn bpm_jump_ok(a: Song, b: Song, mj: int) -> bool {
    match a.bpm {
        Some(x) => match b.bpm {
            Some(y) => (if y >= x {
                y - x
            } else {
                x - y
            }) <= mj,
            None => true,
        },
        None => true,
    }
}

/// No two tracks within the window share an artist.
pub open spec fn respects_artist_window(songs: Seq<Song>, w: int) -> bool {
    forall|i: int, j: int|
        0 <= i < j < songs.len() && j - i <= w ==> (#[trigger] songs[i]).artist@ != (
        #[trigger] songs[j]).artist@
}

/// No two tracks within the window share an album.
pub open spec fn respects_album_window(songs: Seq<Song>, w: int) -> bool {
    forall|i: int, j: int|
        0 <= i < j < songs.len() && j - i <= w ==> (#[trigger] songs[i]).album@ != (
        #[trigger] songs[j]).album@
}

/// Every consecutive pair of known tempos obeys the jump ceiling.
pub open spec fn respects_bpm_jumps(songs: Seq<Song>, mj: int) -> bool {
    forall|j: int| 0 < j < songs.len() ==> bpm_jump_ok(#[trigger] songs[j - 1], songs[j], mj)
}

/// No placed track was played more recently than the configured minimum.
pub open spec fn respects_cooldown(songs: Seq<Song>, min_days: Option<u32>, now_epoch: i64) -> bool {
    match min_days {
        Some(d) => forall|i: int|
            0 <= i < songs.len() ==> !violates_min_days(d, #[trigger] songs[i], now_epoch),
        None => true,
    }
}

/// A profile whose hard sequencing constraints cannot disqualify any
/// candidate: no repeat windows, no cooldown, and a tempo-jump ceiling
/// no tempo pair can exceed.
pub open spec fn unconstrained_rules(config: PlaylistConfig) -> bool {
    &&& config.transition_rules.avoid_artist_repeats_within == 0
    &&& config.transition_rules.avoid_album_repeats_within == 0
    &&& config.transition_rules.min_days_since_last_play is None
    &&& config.transition_rules.max_bpm_jump == 0xffff_ffffu32
}

/// The 70/30 blend of hypothetical quality and transition score.
pub open spec fn combined_score_micro(quality: int, transition: int) -> int {
    (quality * 7 + transition * 3) / 10
}

/// All hard sequencing constraints together.
pub open spec fn sequence_constrained(songs: Seq<Song>, config: PlaylistConfig, now_epoch: i64) -> bool {
    &&& respects_artist_window(songs, config.transition_rules.avoid_artist_repeats_within as int)
    &&& respects_album_window(songs, config.transition_rules.avoid_album_repeats_within as int)
    &&& respects_bpm_jumps(songs, config.transition_rules.max_bpm_jump as int)
    &&& respects_cooldown(songs, config.transition_rules.min_days_since_last_play, now_epoch)
}

/// The candidate is disqualified for the next position after `prefix` by
/// at least one hard constraint.
pub open spec fn violates_any(
    config: PlaylistConfig,
    prefix: Seq<Song>,
    c: Song,
    now_epoch: i64,
) -> bool {
    ||| violates_artist_repetition(
        config.transition_rules.avoid_artist_repeats_within as int,
        prefix,
        c,
    )
    ||| violates_album_repetition(
        config.transition_rules.avoid_album_repeats_within as int,
        prefix,
        c,
    )
    ||| (prefix.len() > 0 && !bpm_jump_ok(
        prefix.last(),
        c,
        config.transition_rules.max_bpm_jump as int,
    ))
    ||| (match config.transition_rules.min_days_since_last_play {
        Some(d) => violates_min_days(d, c, now_epoch),
        None => false,
    })
}

/// The requested playlist length: the caller's target, or twenty.
pub open spec fn target_or_default(target_length: Option<usize>) -> int {
    match target_length {
        Some(t) => t as int,
        None => 20,
    }
}

/// The build's strict-policy account: the unplaced candidates `rest`
/// complete the placed tracks to the candidate pool exactly, and a build
/// short of the target left only candidates that violate some hard
/// constraint against the final sequence.
pub open spec fn strict_stop(
    placed: Seq<Song>,
    rest: Seq<Song>,
    pool: Seq<Song>,
    config: PlaylistConfig,
    target: int,
    now_epoch: i64,
) -> bool {
    &&& placed.to_multiset().add(rest.to_multiset()) == pool.to_multiset()
    &&& (placed.len() < target ==> forall|k: int|
        0 <= k < rest.len() ==> violates_any(config, placed, #[trigger] rest[k], now_epoch))
}

/// The per-track diagnostics are the true scores of the moment each track
/// was appended: the transition score against its prefix, and the blended
/// score minus the prefix quality.
pub open spec fn diagnostics_exact(
    entries: Seq<PlaylistSong>,
    config: PlaylistConfig,
) -> bool {
    let s = playlist_song_seq(entries);
    forall|k: int|
        0 <= k < entries.len() ==> {
            let prefix = s.subrange(0, k);
            &&& ((#[trigger] entries[k]).transition_score matches Some(t) && t
                == transition_score_micro(config, prefix, s[k]))
            &&& (entries[k].quality_contribution matches Some(q) && q == combined_score_micro(
                quality_score_micro(s.subrange(0, k + 1), config.quality_weights),
                transition_score_micro(config, prefix, s[k]),
            ) - quality_score_micro(prefix, config.quality_weights))
            &&& entries[k].selection_reason == SelectionReason::BestCandidate
        }
}

impl PlaylistGenerator {
    /// A generator for the given profile.
    pub fn new(config: PlaylistConfig) -> (r: Self)
        ensures
            r.config == config,
    {
        PlaylistGenerator { config }
    }

    /// The pool filtered by the profile, in pool order.
    fn filter_songs(&self, songs: Vec<Song>) -> (r: Vec<Song>)
        ensures
            r@ == filtered_pool(songs@, self.config),
            r@.to_multiset().subset_of(songs@.to_multiset()),
            r@.len() <= songs@.len(),
            genres_flat(r@).len() <= genres_flat(songs@).len(),
            forall|k: int|
                0 <= k < r@.len() ==> should_include_song_spec(#[trigger] r@[k], self.config),
    {
        let ghost all = songs@;
        let mut rest = songs;
        let mut out: Vec<Song> = Vec::new();
        proof {
            assert(rest@ =~= all.subrange(0, all.len() as int));
            assert(out@ =~= filtered_pool(all.subrange(0, 0), self.config));
            assert(genres_flat(out@) =~= genres_flat(all.subrange(0, 0)));
            broadcast use vstd::seq_lib::group_to_multiset_ensures;
            broadcast use vstd::multiset::group_multiset_axioms;

            assert(out@.to_multiset().subset_of(all.subrange(0, 0).to_multiset()));
        }
        while rest.len() > 0
            invariant
                rest@.len() <= all.len(),
                rest@ == all.subrange(all.len() - rest@.len(), all.len() as int),
                out@ == filtered_pool(all.subrange(0, all.len() - rest@.len()), self.config),
                out@.to_multiset().subset_of(
                    all.subrange(0, all.len() - rest@.len()).to_multiset(),
                ),
                out@.len() <= all.len() - rest@.len(),
                genres_flat(out@).len() <= genres_flat(
                    all.subrange(0, all.len() - rest@.len()),
                ).len(),
                forall|k: int|
                    0 <= k < out@.len() ==> should_include_song_spec(
                        #[trigger] out@[k],
                        self.config,
                    ),
            decreases rest@.len(),
        {
            let ghost i = all.len() - rest@.len();
            let ghost pre = all.subrange(0, i);
            let ghost post = all.subrange(0, i + 1);
            proof {
                assert(post.drop_last() =~= pre);
                assert(post.last() == all[i]);
                assert(rest@[0] == all[i]);
                lemma_genres_flat_push(pre, all[i]);
                assert(genres_flat(post) == genres_flat(pre) + crate::models::song_genres(
                    all[i],
                )) by {
                    assert(genres_flat(post) == genres_flat(post.drop_last())
                        + crate::models::song_genres(post.last()));
                }
            }
            let s = rest.remove(0);
            let keep = SongFilters::should_include_song(&s, &self.config);
            proof {
                broadcast use vstd::seq_lib::group_to_multiset_ensures;
                broadcast use vstd::multiset::group_multiset_axioms;

                assert(post =~= pre.push(all[i]));
                assert(post.to_multiset() =~= pre.to_multiset().insert(all[i]));
            }
            if keep {
                let ghost out_before = out@;
                out.push(s);
                proof {
                    broadcast use vstd::seq_lib::group_to_multiset_ensures;
                    broadcast use vstd::multiset::group_multiset_axioms;

                    assert(out@ =~= filtered_pool(pre, self.config) + seq![all[i]]);
                    assert(out@ == filtered_pool(post, self.config));
                    lemma_genres_flat_push(out_before, all[i]);
                    assert(out@.to_multiset() =~= out_before.to_multiset().insert(all[i]));
                    assert(out@.to_multiset().subset_of(post.to_multiset()));
                }
            } else {
                proof {
                    broadcast use vstd::seq_lib::group_to_multiset_ensures;
                    broadcast use vstd::multiset::group_multiset_axioms;

                    assert(filtered_pool(post, self.config) =~= filtered_pool(
                        pre,
                        self.config,
                    ));
                    assert(out@.to_multiset().subset_of(post.to_multiset()));
                }
            }
            proof {
                assert(rest@ =~= all.subrange(all.len() - rest@.len(), all.len() as int));
            }
        }
        proof {
            assert(all.subrange(0, all.len() as int) =~= all);
        }
        out
    }

    /// The pool sorted by standalone preference score, highest first.
    fn sort_by_preference(&self, input: Vec<Song>, now_epoch: i64) -> (r: Vec<Song>)
        requires
            self.config.preference_weights.valid(),
        ensures
            r@.len() == input@.len(),
            r@.to_multiset() == input@.to_multiset(),
            genres_flat(r@).len() == genres_flat(input@).len(),
            forall|k: int| 0 <= k < r@.len() ==> input@.contains(#[trigger] r@[k]),
            forall|i: int, j: int|
                0 <= i < j < r@.len() ==> preference_score_milli(
                    #[trigger] r@[i],
                    self.config,
                    now_epoch,
                ) >= preference_score_milli(#[trigger] r@[j], self.config, now_epoch),
    {
        let ghost orig = input@;
        let mut rem = input;
        let mut out: Vec<Song> = Vec::new();
        proof {
            assert(genres_flat(out@) =~= genres_flat(Seq::<Song>::empty()));
            assert(forall|k: int| 0 <= k < rem@.len() ==> orig.contains(#[trigger] rem@[k]));
            broadcast use vstd::seq_lib::group_to_multiset_ensures;
            broadcast use vstd::multiset::group_multiset_axioms;

            assert(out@.to_multiset().add(rem@.to_multiset()) =~= orig.to_multiset());
        }
        while rem.len() > 0
            invariant
                out@.len() + rem@.len() == orig.len(),
                out@.to_multiset().add(rem@.to_multiset()) == orig.to_multiset(),
                genres_flat(out@).len() + genres_flat(rem@).len() == genres_flat(orig).len(),
                forall|k: int| 0 <= k < out@.len() ==> orig.contains(#[trigger] out@[k]),
                forall|k: int| 0 <= k < rem@.len() ==> orig.contains(#[trigger] rem@[k]),
                forall|i: int, j: int|
                    0 <= i < j < out@.len() ==> preference_score_milli(
                        #[trigger] out@[i],
                        self.config,
                        now_epoch,
                    ) >= preference_score_milli(#[trigger] out@[j], self.config, now_epoch),
                forall|i: int, j: int|
                    0 <= i < out@.len() && 0 <= j < rem@.len() ==> preference_score_milli(
                        #[trigger] out@[i],
                        self.config,
                        now_epoch,
                    ) >= preference_score_milli(#[trigger] rem@[j], self.config, now_epoch),
                self.config.preference_weights.valid(),
            decreases rem@.len(),
        {
            let mut mi: usize = 0;
            let mut best = PlaylistScoring::calculate_preference_score(
                &rem[0],
                &self.config,
                now_epoch,
            );
            let mut k: usize = 1;
            while k < rem.len()
                invariant
                    rem@.len() > 0,
                    mi < k <= rem@.len(),
                    self.config.preference_weights.valid(),
                    best == preference_score_milli(rem@[mi as int], self.config, now_epoch),
                    forall|j: int|
                        0 <= j < k ==> best >= preference_score_milli(
                            #[trigger] rem@[j],
                            self.config,
                            now_epoch,
                        ),
                decreases rem@.len() - k,
            {
                let sc = PlaylistScoring::calculate_preference_score(
                    &rem[k],
                    &self.config,
                    now_epoch,
                );
                if sc > best {
                    mi = k;
                    best = sc;
                }
                k = k + 1;
            }
            let ghost rem_before = rem@;
            let ghost out_before = out@;
            let x = rem.remove(mi);
            out.push(x);
            proof {
                lemma_genres_flat_remove(rem_before, mi as int);
                lemma_genres_flat_push(out_before, x);
                broadcast use vstd::seq_lib::group_to_multiset_ensures;
                broadcast use vstd::multiset::group_multiset_axioms;

                assert(rem_before.to_multiset().count(x) > 0) by {
                    assert(rem_before[mi as int] == x);
                    assert(rem_before.contains(x));
                }
                assert(out@.to_multiset() =~= out_before.to_multiset().insert(x));
                assert(rem@.to_multiset() =~= rem_before.to_multiset().remove(x));
                assert(out@.to_multiset().add(rem@.to_multiset()) =~= orig.to_multiset());
                assert forall|a: int, b: int|
                    0 <= a < out@.len() && 0 <= b < rem@.len() implies preference_score_milli(
                    #[trigger] out@[a],
                    self.config,
                    now_epoch,
                ) >= preference_score_milli(#[trigger] rem@[b], self.config, now_epoch) by {
                    let w = if b < mi as int {
                        b
                    } else {
                        b + 1
                    };
                    assert(rem@[b] == rem_before[w]);
                    if a < out_before.len() {
                        assert(out@[a] == out_before[a]);
                    } else {
                        assert(out@[a] == x);
                    }
                }
                assert forall|a: int, b: int| 0 <= a < b < out@.len() implies
                    preference_score_milli(#[trigger] out@[a], self.config, now_epoch)
                        >= preference_score_milli(#[trigger] out@[b], self.config, now_epoch) by {
                    if b < out_before.len() {
                    } else {
                        assert(out@[b] == x);
                        assert(out@[a] == out_before[a]);
                    }
                }
            }
        }
        proof {
            broadcast use vstd::seq_lib::group_to_multiset_ensures;
            broadcast use vstd::multiset::group_multiset_axioms;

            assert(rem@ =~= Seq::<Song>::empty());
            assert(rem@.to_multiset() =~= vstd::multiset::Multiset::<Song>::empty());
            assert(out@.to_multiset() =~= orig.to_multiset());
        }
        out
    }

    /// Builds the ordered playlist greedily; stops at the target length,
    /// when the pool runs dry, or when every remaining candidate violates
    /// a hard constraint.
    fn generate_playlist_iteratively(
        &self,
        candidate_songs: Vec<Song>,
        target_length: usize,
        now_epoch: i64,
    ) -> (r: (Vec<Song>, Vec<(i64, i64)>))
        requires
            self.config.valid(),
            candidate_songs@.len() < 0x1_0000_0000,
            genres_flat(candidate_songs@).len() < 0x1_0000_0000,
        ensures
            r.0@.len() == r.1@.len(),
            r.0@.len() <= target_length,
            r.0@.len() <= candidate_songs@.len(),
            genres_flat(r.0@).len() <= genres_flat(candidate_songs@).len(),
            forall|k: int| 0 <= k < r.0@.len() ==> candidate_songs@.contains(#[trigger] r.0@[k]),
            sequence_constrained(r.0@, self.config, now_epoch),
            exists|rest: Seq<Song>|
                #[trigger] strict_stop(
                    r.0@,
                    rest,
                    candidate_songs@,
                    self.config,
                    target_length as int,
                    now_epoch,
                ),
            (self.config.transition_rules.min_days_since_last_play is None
                && candidate_songs@.len() > 0 && target_length > 0) ==> r.0@.len() >= 1,
            unconstrained_rules(self.config) ==> r.0@.len() == (if target_length
                <= candidate_songs@.len() {
                target_length as int
            } else {
                candidate_songs@.len() as int
            }),
            forall|k: int|
                0 <= k < r.0@.len() ==> (#[trigger] r.1@[k]).0 == transition_score_micro(
                    self.config,
                    r.0@.subrange(0, k),
                    r.0@[k],
                ) && r.1@[k].1 == combined_score_micro(
                    quality_score_micro(r.0@.subrange(0, k + 1), self.config.quality_weights),
                    transition_score_micro(self.config, r.0@.subrange(0, k), r.0@[k]),
                ) - quality_score_micro(r.0@.subrange(0, k), self.config.quality_weights),
    {
        let ghost cand0 = candidate_songs@;
        let w_artist = self.config.transition_rules.avoid_artist_repeats_within;
        let w_album = self.config.transition_rules.avoid_album_repeats_within;
        let max_jump = self.config.transition_rules.max_bpm_jump;
        let mut remaining = candidate_songs;
        let mut placed: Vec<Song> = Vec::new();
        let mut notes: Vec<(i64, i64)> = Vec::new();
        let mut done = false;
        proof {
            assert(genres_flat(placed@) =~= genres_flat(Seq::<Song>::empty()));
            broadcast use vstd::seq_lib::group_to_multiset_ensures;
            broadcast use vstd::multiset::group_multiset_axioms;

            assert(placed@.to_multiset().add(remaining@.to_multiset()) =~= cand0.to_multiset());
        }
        while !done && placed.len() < target_length && remaining.len() > 0
            invariant
                placed@.len() == notes@.len(),
                placed@.len() + remaining@.len() == cand0.len(),
                placed@.to_multiset().add(remaining@.to_multiset()) == cand0.to_multiset(),
                done ==> forall|k: int|
                    0 <= k < remaining@.len() ==> violates_any(
                        self.config,
                        placed@,
                        #[trigger] remaining@[k],
                        now_epoch,
                    ),
                placed@.len() <= target_length,
                genres_flat(placed@).len() + genres_flat(remaining@).len() == genres_flat(
                    cand0,
                ).len(),
                cand0.len() < 0x1_0000_0000,
                genres_flat(cand0).len() < 0x1_0000_0000,
                self.config.valid(),
                w_artist == self.config.transition_rules.avoid_artist_repeats_within,
                w_album == self.config.transition_rules.avoid_album_repeats_within,
                max_jump == self.config.transition_rules.max_bpm_jump,
                forall|k: int| 0 <= k < placed@.len() ==> cand0.contains(#[trigger] placed@[k]),
                forall|k: int|
                    0 <= k < remaining@.len() ==> cand0.contains(#[trigger] remaining@[k]),
                sequence_constrained(placed@, self.config, now_epoch),
                forall|k: int|
                    0 <= k < placed@.len() ==> (#[trigger] notes@[k]).0
                        == transition_score_micro(
                        self.config,
                        placed@.subrange(0, k),
                        placed@[k],
                    ) && notes@[k].1 == combined_score_micro(
                        quality_score_micro(
                            placed@.subrange(0, k + 1),
                            self.config.quality_weights,
                        ),
                        transition_score_micro(self.config, placed@.subrange(0, k), placed@[k]),
                    ) - quality_score_micro(placed@.subrange(0, k), self.config.quality_weights),
                unconstrained_rules(self.config) ==> !done,
            decreases remaining@.len(), (if done {
                0int
            } else {
                1int
            }),
        {
            let ghost placed0 = placed@;
            let ghost rem0 = remaining@;
            // the quality of the playlist so far
            proof {
                crate::genres::lemma_genres_flat_prefix_le(placed0, placed0.len() as int);
            }
            let current_quality: i64 = if placed.len() == 0 {
                0
            } else {
                let md = PlaylistScoring::calculate_metadata(&placed);
                PlaylistScoring::calculate_quality_score(&placed, &md, &self.config)
            };
            proof {
                assert(current_quality == quality_score_micro(
                    placed0,
                    self.config.quality_weights,
                ));
            }
            // scan the remaining candidates in preference order
            let mut best_idx: usize = 0;
            let mut have_best = false;
            let mut best_combined: i64 = 0;
            let mut best_transition: i64 = 0;
            let rn = remaining.len();
            let mut i: usize = 0;
            while i < rn
                invariant
                    i <= rn,
                    rn == remaining@.len(),
                    remaining@ == rem0,
                    placed@ == placed0,
                    placed@.len() + remaining@.len() == cand0.len(),
                    genres_flat(placed@).len() + genres_flat(remaining@).len() == genres_flat(
                        cand0,
                    ).len(),
                    cand0.len() < 0x1_0000_0000,
                    genres_flat(cand0).len() < 0x1_0000_0000,
                    self.config.valid(),
                    w_artist == self.config.transition_rules.avoid_artist_repeats_within,
                    w_album == self.config.transition_rules.avoid_album_repeats_within,
                    max_jump == self.config.transition_rules.max_bpm_jump,
                    have_best ==> {
                        &&& best_idx < rn
                        &&& !violates_artist_repetition(
                            w_artist as int,
                            placed0,
                            rem0[best_idx as int],
                        )
                        &&& !violates_album_repetition(
                            w_album as int,
                            placed0,
                            rem0[best_idx as int],
                        )
                        &&& (placed0.len() > 0 ==> bpm_jump_ok(
                            placed0.last(),
                            rem0[best_idx as int],
                            max_jump as int,
                        ))
                        &&& (match self.config.transition_rules.min_days_since_last_play {
                            Some(d) => !violates_min_days(d, rem0[best_idx as int], now_epoch),
                            None => true,
                        })
                        &&& best_transition == transition_score_micro(
                            self.config,
                            placed0,
                            rem0[best_idx as int],
                        )
                        &&& best_combined == combined_score_micro(
                            quality_score_micro(
                                placed0.push(rem0[best_idx as int]),
                                self.config.quality_weights,
                            ),
                            best_transition as int,
                        )
                        &&& 0 <= best_combined <= 1_000_000
                        &&& 0 <= best_transition <= 1_000_000
                    },
                    !have_best ==> forall|j: int|
                        0 <= j < i ==> violates_any(
                            self.config,
                            placed0,
                            #[trigger] rem0[j],
                            now_epoch,
                        ),
                    unconstrained_rules(self.config) && i > 0 ==> have_best,
                decreases rn - i,
            {
                let viol_artist = PlaylistTransitions::would_violate_artist_repetition(
                    w_artist,
                    &placed,
                    &remaining[i],
                );
                let viol_album = PlaylistTransitions::would_violate_album_repetition(
                    w_album,
                    &placed,
                    &remaining[i],
                );
                let viol_bpm: bool = if placed.len() > 0 {
                    match placed[placed.len() - 1].bpm {
                        Some(a) => match remaining[i].bpm {
                            Some(b) => {
                                let diff = if b >= a {
                                    b - a
                                } else {
                                    a - b
                                };
                                diff > max_jump
                            },
                            None => false,
                        },
                        None => false,
                    }
                } else {
                    false
                };
                let viol_cool: bool = match self.config.transition_rules.min_days_since_last_play {
                    Some(d) => PlaylistTransitions::would_violate_min_days_since_last_play(
                        d,
                        &remaining[i],
                        now_epoch,
                    ),
                    None => false,
                };
                proof {
                    if unconstrained_rules(self.config) {
                        assert(!viol_artist);
                        assert(!viol_album);
                        assert(!viol_bpm);
                        assert(!viol_cool);
                    }
                }
                if !viol_artist && !viol_album && !viol_bpm && !viol_cool {
                    let tr = PlaylistTransitions::calculate_transition_score(
                        &self.config,
                        &placed,
                        &remaining[i],
                    );
                    let cand = remaining.remove(i);
                    let ghost candg = cand;
                    placed.push(cand);
                    proof {
                        lemma_genres_flat_push(placed0, candg);
                        lemma_genres_flat_remove(rem0, i as int);
                        crate::genres::lemma_genres_flat_prefix_le(
                            placed@,
                            placed@.len() as int,
                        );
                        assert(placed@.subrange(0, placed@.len() as int) =~= placed@);
                    }
                    let md = PlaylistScoring::calculate_metadata(&placed);
                    let hyp_quality = PlaylistScoring::calculate_quality_score(
                        &placed,
                        &md,
                        &self.config,
                    );
                    let back = placed.pop();
                    match back {
                        Some(b) => {
                            remaining.insert(i, b);
                        },
                        None => {
                            proof {
                                assert(false);
                            }
                        },
                    }
                    proof {
                        assert(placed@ =~= placed0);
                        assert(remaining@ =~= rem0);
                    }
                    let combined = (hyp_quality * 7 + tr * 3) / 10;
                    if !have_best || combined > best_combined {
                        best_idx = i;
                        have_best = true;
                        best_combined = combined;
                        best_transition = tr;
                        proof {
                            assert(placed0.len() > 0 ==> placed0[placed0.len() - 1]
                                == placed0.last());
                        }
                    }
                } else {
                    proof {
                        assert(violates_any(self.config, placed0, rem0[i as int], now_epoch)) by {
                            if viol_bpm {
                                assert(placed0.len() > 0);
                                assert(placed0[placed0.len() - 1] == placed0.last());
                            }
                        }
                    }
                }
                i = i + 1;
            }
            if have_best {
                let tr = best_transition;
                let contribution = best_combined - current_quality;
                let ghost notes0 = notes@;
                let chosen = remaining.remove(best_idx);
                let ghost choseng = chosen;
                placed.push(chosen);
                notes.push((tr, contribution));
                proof {
                    assert(notes@ == notes0.push((tr, contribution)));
                    broadcast use vstd::seq_lib::group_to_multiset_ensures;
                    broadcast use vstd::multiset::group_multiset_axioms;

                    assert(rem0.to_multiset().count(choseng) > 0) by {
                        assert(rem0[best_idx as int] == choseng);
                        assert(rem0.contains(choseng));
                    }
                    assert(placed@.to_multiset() =~= placed0.to_multiset().insert(choseng));
                    assert(remaining@.to_multiset() =~= rem0.to_multiset().remove(choseng));
                    assert(placed@.to_multiset().add(remaining@.to_multiset())
                        =~= cand0.to_multiset()) by {
                        assert(placed0.to_multiset().add(rem0.to_multiset())
                            == cand0.to_multiset());
                    }
                    lemma_genres_flat_push(placed0, choseng);
                    lemma_genres_flat_remove(rem0, best_idx as int);
                    let s = placed@;
                    assert(s == placed0.push(choseng));
                    assert(s.subrange(0, s.len() - 1) =~= placed0);
                    // the hard constraints persist on the extended sequence
                    assert(respects_artist_window(
                        s,
                        self.config.transition_rules.avoid_artist_repeats_within as int,
                    )) by {
                        let w = self.config.transition_rules.avoid_artist_repeats_within as int;
                        assert forall|a: int, b: int|
                            0 <= a < b < s.len() && b - a <= w implies (
                        #[trigger] s[a]).artist@ != (#[trigger] s[b]).artist@ by {
                            if b < s.len() - 1 {
                                assert(s[a] == placed0[a] && s[b] == placed0[b]);
                            } else {
                                assert(s[b] == choseng);
                                assert(s[a] == placed0[a]);
                                assert(!violates_artist_repetition(w, placed0, choseng));
                            }
                        }
                    }
                    assert(respects_album_window(
                        s,
                        self.config.transition_rules.avoid_album_repeats_within as int,
                    )) by {
                        let w = self.config.transition_rules.avoid_album_repeats_within as int;
                        assert forall|a: int, b: int|
                            0 <= a < b < s.len() && b - a <= w implies (
                        #[trigger] s[a]).album@ != (#[trigger] s[b]).album@ by {
                            if b < s.len() - 1 {
                                assert(s[a] == placed0[a] && s[b] == placed0[b]);
                            } else {
                                assert(s[b] == choseng);
                                assert(s[a] == placed0[a]);
                                assert(!violates_album_repetition(w, placed0, choseng));
                            }
                        }
                    }
                    assert(respects_bpm_jumps(
                        s,
                        self.config.transition_rules.max_bpm_jump as int,
                    )) by {
                        let mj = self.config.transition_rules.max_bpm_jump as int;
                        assert forall|b: int| 0 < b < s.len() implies bpm_jump_ok(
                            #[trigger] s[b - 1],
                            s[b],
                            mj,
                        ) by {
                            if b < s.len() - 1 {
                                assert(s[b - 1] == placed0[b - 1] && s[b] == placed0[b]);
                            } else {
                                assert(s[b] == choseng);
                                if placed0.len() > 0 {
                                    assert(s[b - 1] == placed0[placed0.len() - 1]);
                                    assert(placed0[placed0.len() - 1] == placed0.last());
                                }
                            }
                        }
                    }
                    assert(respects_cooldown(
                        s,
                        self.config.transition_rules.min_days_since_last_play,
                        now_epoch,
                    )) by {
                        match self.config.transition_rules.min_days_since_last_play {
                            Some(d) => {
                                assert forall|k: int| 0 <= k < s.len() implies !violates_min_days(
                                    d,
                                    #[trigger] s[k],
                                    now_epoch,
                                ) by {
                                    if k < s.len() - 1 {
                                        assert(s[k] == placed0[k]);
                                    } else {
                                        assert(s[k] == choseng);
                                    }
                                }
                            },
                            None => {},
                        }
                    }
                    // membership in the candidate pool persists
                    assert forall|k: int| 0 <= k < placed@.len() implies cand0.contains(
                        #[trigger] placed@[k],
                    ) by {
                        if k < placed0.len() {
                            assert(placed@[k] == placed0[k]);
                        } else {
                            assert(placed@[k] == choseng);
                            assert(choseng == rem0[best_idx as int]);
                        }
                    }
                    assert forall|k: int| 0 <= k < remaining@.len() implies cand0.contains(
                        #[trigger] remaining@[k],
                    ) by {
                        let w = if k < best_idx as int {
                            k
                        } else {
                            k + 1
                        };
                        assert(remaining@[k] == rem0[w]);
                    }
                    // the recorded diagnostics stay exact
                    assert forall|k: int| 0 <= k < placed@.len() implies (
                    #[trigger] notes@[k]).0 == transition_score_micro(
                        self.config,
                        placed@.subrange(0, k),
                        placed@[k],
                    ) && notes@[k].1 == combined_score_micro(
                        quality_score_micro(
                            placed@.subrange(0, k + 1),
                            self.config.quality_weights,
                        ),
                        transition_score_micro(self.config, placed@.subrange(0, k), placed@[k]),
                    ) - quality_score_micro(
                        placed@.subrange(0, k),
                        self.config.quality_weights,
                    ) by {
                        assert(placed@.subrange(0, k) =~= (if k <= placed0.len() {
                            placed0.subrange(0, k)
                        } else {
                            placed0
                        }));
                        if k < placed0.len() {
                            assert(placed@.subrange(0, k + 1) =~= placed0.subrange(0, k + 1));
                            assert(placed@[k] == placed0[k]);
                            assert(notes@[k] == notes0[k]);
                        } else {
                            assert(k == placed0.len());
                            assert(placed@.subrange(0, k) =~= placed0);
                            assert(placed@.subrange(0, k + 1) =~= placed@);
                            assert(placed@[k] == choseng);
                        }
                    }
                }
            } else {
                done = true;
            }
        }
        proof {
            if unconstrained_rules(self.config) {
                assert(placed@.len() == target_length || remaining@.len() == 0);
            }
            // the final remaining pool witnesses the strict-stop clause
            let rest = remaining@;
            assert(placed@.to_multiset().add(rest.to_multiset()) == cand0.to_multiset());
            if placed@.len() < target_length {
                if !done {
                    assert(rest.len() == 0);
                }
                assert(forall|k: int|
                    0 <= k < rest.len() ==> violates_any(
                        self.config,
                        placed@,
                        #[trigger] rest[k],
                        now_epoch,
                    ));
            }
            assert(strict_stop(
                placed@,
                rest,
                cand0,
                self.config,
                target_length as int,
                now_epoch,
            ));
            // with no cooldown rule, a nonempty pool always yields a track:
            // no other constraint can fire against an empty prefix
            if self.config.transition_rules.min_days_since_last_play is None && cand0.len() > 0
                && target_length > 0 && placed@.len() == 0 {
                assert(rest.len() > 0);
                assert(violates_any(self.config, placed@, rest[0], now_epoch));
                assert(!violates_artist_repetition(
                    self.config.transition_rules.avoid_artist_repeats_within as int,
                    placed@,
                    rest[0],
                ));
                assert(!violates_album_repetition(
                    self.config.transition_rules.avoid_album_repeats_within as int,
                    placed@,
                    rest[0],
                ));
                assert(false);
            }
        }
        (placed, notes)
    }

    /// Generates a playlist: filter, preference-sort, build under the
    /// hard constraints, then aggregate, score and name the result.
    #[verifier::rlimit(30)]
    pub fn generate_playlist(
        &self,
        songs: Vec<Song>,
        playlist_name: Option<String>,
        target_length: Option<usize>,
        now_epoch: i64,
    ) -> (r: Playlist)
        requires
            self.config.valid(),
            pool_bounded(songs@),
            now_epoch >= 0,
        ensures
            r.songs@.len() <= target_or_default(target_length),
            r.songs@.len() <= filtered_pool(songs@, self.config).len(),
            playlist_song_seq(r.songs@).to_multiset().subset_of(songs@.to_multiset()),
            exists|rest: Seq<Song>|
                #[trigger] strict_stop(
                    playlist_song_seq(r.songs@),
                    rest,
                    filtered_pool(songs@, self.config),
                    self.config,
                    target_or_default(target_length),
                    now_epoch,
                ),
            (self.config.transition_rules.min_days_since_last_play is None && filtered_pool(
                songs@,
                self.config,
            ).len() > 0 && target_or_default(target_length) > 0) ==> r.songs@.len() >= 1,
            unconstrained_rules(self.config) ==> r.songs@.len() == (if target_or_default(
                target_length,
            ) <= filtered_pool(songs@, self.config).len() {
                target_or_default(target_length)
            } else {
                filtered_pool(songs@, self.config).len() as int
            }),
            forall|k: int|
                0 <= k < r.songs@.len() ==> should_include_song_spec(
                    (#[trigger] r.songs@[k]).song,
                    self.config,
                ),
            sequence_constrained(playlist_song_seq(r.songs@), self.config, now_epoch),
            crate::metrics::metadata_matches(r.metadata, playlist_song_seq(r.songs@)),
            r.quality_score == quality_score_micro(
                playlist_song_seq(r.songs@),
                self.config.quality_weights,
            ),
            0 <= r.quality_score <= 1_000_000,
            diagnostics_exact(r.songs@, self.config),
            r.base_name_pattern@ == self.config.name@,
            playlist_name_ok(
                r.name@,
                match playlist_name {
                    Some(n) => n@,
                    None => "Daylist"@,
                },
                r.metadata,
                now_epoch,
            ),
    {
        let target: usize = match target_length {
            Some(t) => t,
            None => 20,
        };
        let ghost songsg = songs@;
        let filtered = self.filter_songs(songs);
        let ghost filteredg = filtered@;
        let sorted = self.sort_by_preference(filtered, now_epoch);
        let ghost sortedg = sorted@;
        let built = self.generate_playlist_iteratively(sorted, target, now_epoch);
        let mut ordered = built.0;
        let mut notes = built.1;
        let ghost final_songs = ordered@;
        let metadata = PlaylistScoring::calculate_metadata(&ordered);
        proof {
            crate::genres::lemma_genres_flat_prefix_le(final_songs, final_songs.len() as int);
            assert(final_songs.subrange(0, final_songs.len() as int) =~= final_songs);
        }
        let quality_score = PlaylistScoring::calculate_quality_score(
            &ordered,
            &metadata,
            &self.config,
        );
        let base = match playlist_name {
            Some(n) => n,
            None => "Daylist".to_owned(),
        };
        let ghost basev = base@;
        let name = PlaylistNaming::generate_playlist_name(base, &metadata, now_epoch);
        proof {
            assert(basev == (match playlist_name {
                Some(n) => n@,
                None => "Daylist"@,
            }));
        }
        // assemble the annotated track list
        proof {
            assert(final_songs.len() <= usize::MAX) by {
                assert(ordered@.len() == final_songs.len());
            }
        }
        let mut entries: Vec<PlaylistSong> = Vec::new();
        let mut k: usize = 0;
        while ordered.len() > 0
            invariant
                final_songs.len() <= usize::MAX,
                k + ordered@.len() == final_songs.len(),
                k == entries@.len(),
                notes@.len() == final_songs.len(),
                ordered@ == final_songs.subrange(k as int, final_songs.len() as int),
                forall|t: int|
                    0 <= t < k ==> (#[trigger] entries@[t]).song == final_songs[t]
                        && entries@[t].transition_score == Some(notes@[t].0)
                        && entries@[t].quality_contribution == Some(notes@[t].1)
                        && entries@[t].selection_reason == SelectionReason::BestCandidate,
            decreases ordered@.len(),
        {
            let s = ordered.remove(0);
            proof {
                assert(final_songs.subrange(k as int, final_songs.len() as int)[0]
                    == final_songs[k as int]);
            }
            let note = notes[k];
            let e = PlaylistSong::with_metadata(
                s,
                note.0,
                note.1,
                SelectionReason::BestCandidate,
            );
            entries.push(e);
            k = k + 1;
            proof {
                assert(ordered@ =~= final_songs.subrange(k as int, final_songs.len() as int));
            }
        }
        proof {
            assert(playlist_song_seq(entries@) =~= final_songs);
            broadcast use vstd::seq_lib::group_to_multiset_ensures;
            broadcast use vstd::multiset::group_multiset_axioms;

            // the strict-stop account carries over to the filtered pool,
            // whose multiset the preference sort preserves
            let rest = choose|rest: Seq<Song>|
                #[trigger] strict_stop(
                    final_songs,
                    rest,
                    sortedg,
                    self.config,
                    target as int,
                    now_epoch,
                );
            assert(sortedg.to_multiset() == filteredg.to_multiset());
            assert(filteredg == filtered_pool(songsg, self.config));
            assert(strict_stop(
                playlist_song_seq(entries@),
                rest,
                filtered_pool(songsg, self.config),
                self.config,
                target as int,
                now_epoch,
            ));
            // placed tracks are a sub-multiset of the filtered pool, and
            // so of the input pool
            assert forall|v: Song|
                playlist_song_seq(entries@).to_multiset().count(v) <= #[trigger] songsg.to_multiset().count(
                    v,
                ) by {
                assert(final_songs.to_multiset().add(rest.to_multiset()).count(v)
                    == filteredg.to_multiset().count(v));
                assert(filteredg.to_multiset().count(v) <= songsg.to_multiset().count(v));
            }
            assert(playlist_song_seq(entries@).to_multiset().subset_of(songsg.to_multiset()));
            assert forall|k: int| 0 <= k < final_songs.len() implies should_include_song_spec(
                #[trigger] final_songs[k],
                self.config,
            ) by {
                assert(sortedg.contains(final_songs[k]));
                let a = choose|a: int| 0 <= a < sortedg.len() && sortedg[a] == final_songs[k];
                assert(filteredg.contains(sortedg[a]));
                let b = choose|b: int|
                    0 <= b < filteredg.len() && filteredg[b] == sortedg[a];
                assert(should_include_song_spec(filteredg[b], self.config));
            }
            assert(diagnostics_exact(entries@, self.config)) by {
                assert forall|k: int| 0 <= k < entries@.len() implies {
                    let sq = playlist_song_seq(entries@);
                    let prefix = sq.subrange(0, k);
                    &&& ((#[trigger] entries@[k]).transition_score matches Some(t) && t
                        == transition_score_micro(self.config, prefix, sq[k]))
                    &&& (entries@[k].quality_contribution matches Some(q) && q
                        == combined_score_micro(
                        quality_score_micro(sq.subrange(0, k + 1), self.config.quality_weights),
                        transition_score_micro(self.config, prefix, sq[k]),
                    ) - quality_score_micro(prefix, self.config.quality_weights))
                    &&& entries@[k].selection_reason == SelectionReason::BestCandidate
                } by {
                    assert(playlist_song_seq(entries@) == final_songs);
                }
            }
        }
        Playlist {
            name,
            songs: entries,
            quality_score,
            metadata,
            base_name_pattern: self.config.name.clone(),
        }
    }
}

} // verus!
