//! Genre histograms over track sets.
//!
//! The histogram counts, for each lowercased genre, how many tracks carry
//! it; a track contributing the same genre twice counts once, because the
//! per-track genre list is already deduplicated.  Keys are kept in order
//! of first appearance over the pool.

use vstd::prelude::*;

verus! {

use crate::models::{
    Song, song_genres, dedup_first, no_dup_seqs, lemma_dedup_first_no_dups,
    lemma_dedup_first_membership,
};

/// All genre occurrences of a track set, song by song.
pub open spec fn genres_flat(songs: Seq<Song>) -> Seq<Seq<char>>
    decreases songs.len(),
{
    if songs.len() == 0 {
        Seq::<Seq<char>>::empty()
    } else {
        genres_flat(songs.drop_last()) + song_genres(songs.last())
    }
}

/// How often `x` occurs in the flattened genre sequence `g`.
pub open spec fn occ(g: Seq<Seq<char>>, x: Seq<char>) -> int
    decreases g.len(),
{
    if g.len() == 0 {
        0
    } else {
        occ(g.drop_last(), x) + if g.last() == x {
            1int
        } else {
            0int
        }
    }
}

/// A sequence contains an element exactly when its front part does or its
/// last element is it.
pub proof fn lemma_contains_split(g: Seq<Seq<char>>, x: Seq<char>)
    requires
        g.len() > 0,
    ensures
        g.contains(x) <==> (g.drop_last().contains(x) || g.last() == x),
{
    if g.contains(x) {
        let i = choose|i: int| 0 <= i < g.len() && g[i] == x;
        if i < g.len() - 1 {
            assert(g.drop_last()[i] == x);
            assert(g.drop_last().contains(x));
        }
    }
    if g.drop_last().contains(x) {
        let i = choose|i: int| 0 <= i < g.drop_last().len() && g.drop_last()[i] == x;
        assert(g[i] == x);
        assert(g.contains(x));
    }
    if g.last() == x {
        assert(g[g.len() - 1] == x);
        assert(g.contains(x));
    }
}

pub proof fn lemma_occ_nonneg(g: Seq<Seq<char>>, x: Seq<char>)
    ensures
        occ(g, x) >= 0,
    decreases g.len(),
{
    if g.len() > 0 {
        lemma_occ_nonneg(g.drop_last(), x);
    }
}

/// Occurrence counts add over concatenation.
pub proof fn lemma_occ_additive(g1: Seq<Seq<char>>, g2: Seq<Seq<char>>, x: Seq<char>)
    ensures
        occ(g1 + g2, x) == occ(g1, x) + occ(g2, x),
    decreases g2.len(),
{
    if g2.len() == 0 {
        assert(g1 + g2 =~= g1);
    } else {
        assert((g1 + g2).drop_last() =~= g1 + g2.drop_last());
        assert((g1 + g2).last() == g2.last());
        lemma_occ_additive(g1, g2.drop_last(), x);
    }
}

/// Appending one element raises exactly its own count by one.
pub proof fn lemma_occ_push(g: Seq<Seq<char>>, x: Seq<char>, y: Seq<char>)
    ensures
        occ(g.push(x), y) == occ(g, y) + if x == y {
            1int
        } else {
            0int
        },
{
    assert(g.push(x).drop_last() =~= g);
    assert(g.push(x).last() == x);
}

/// An element occurs zero times exactly when the sequence lacks it.
pub proof fn lemma_occ_zero_iff(g: Seq<Seq<char>>, x: Seq<char>)
    ensures
        (occ(g, x) == 0) <==> !g.contains(x),
    decreases g.len(),
{
    if g.len() > 0 {
        lemma_occ_zero_iff(g.drop_last(), x);
        lemma_occ_nonneg(g.drop_last(), x);
        lemma_contains_split(g, x);
    } else {
        assert(!g.contains(x));
    }
}

/// In a duplicate-free sequence every element occurs at most once.
pub proof fn lemma_occ_at_most_one(g: Seq<Seq<char>>, x: Seq<char>)
    requires
        no_dup_seqs(g),
    ensures
        occ(g, x) <= 1,
    decreases g.len(),
{
    if g.len() > 0 {
        let pre = g.drop_last();
        assert(no_dup_seqs(pre)) by {
            assert(forall|i: int, j: int|
                0 <= i < j < pre.len() ==> pre[i] == g[i] && pre[j] == g[j]);
        }
        lemma_occ_at_most_one(pre, x);
        if g.last() == x {
            assert(!pre.contains(x)) by {
                if pre.contains(x) {
                    let i = choose|i: int| 0 <= i < pre.len() && pre[i] == x;
                    assert(g[i] == g[g.len() - 1]);
                }
            }
            lemma_occ_zero_iff(pre, x);
        } else {
            lemma_occ_nonneg(pre, x);
        }
    }
}

/// A genre occurs in the flattened pool at most once per song.
pub proof fn lemma_occ_flat_le_songs(songs: Seq<Song>, x: Seq<char>)
    ensures
        0 <= occ(genres_flat(songs), x) <= songs.len(),
    decreases songs.len(),
{
    if songs.len() == 0 {
    } else {
        lemma_occ_flat_le_songs(songs.drop_last(), x);
        lemma_occ_additive(genres_flat(songs.drop_last()), song_genres(songs.last()), x);
        crate::models::lemma_song_genres_no_dups(songs.last());
        lemma_occ_at_most_one(song_genres(songs.last()), x);
        lemma_occ_nonneg(song_genres(songs.last()), x);
    }
}

/// Appending a song appends its genres.
pub proof fn lemma_genres_flat_push(s: Seq<Song>, x: Song)
    ensures
        genres_flat(s.push(x)) == genres_flat(s) + song_genres(x),
{
    assert(s.push(x).drop_last() =~= s);
    assert(s.push(x).last() == x);
}

/// Removing a song removes exactly its genres from the flattened count.
pub proof fn lemma_genres_flat_remove(s: Seq<Song>, i: int)
    requires
        0 <= i < s.len(),
    ensures
        genres_flat(s.remove(i)).len() == genres_flat(s).len() - song_genres(s[i]).len(),
    decreases s.len(),
{
    if i == s.len() - 1 {
        assert(s.remove(i) =~= s.drop_last());
    } else {
        assert(s.remove(i).drop_last() =~= s.drop_last().remove(i));
        assert(s.remove(i).last() == s.last());
        lemma_genres_flat_remove(s.drop_last(), i);
        assert(s.drop_last()[i] == s[i]);
        assert(genres_flat(s.remove(i)) == genres_flat(s.drop_last().remove(i)) + song_genres(
            s.last(),
        ));
    }
}

/// A flattened genre sequence of a prefix is never longer than the whole.
pub proof fn lemma_genres_flat_prefix_le(s: Seq<Song>, k: int)
    requires
        0 <= k <= s.len(),
    ensures
        genres_flat(s.subrange(0, k)).len() <= genres_flat(s).len(),
    decreases s.len() - k,
{
    if k == s.len() {
        assert(s.subrange(0, k) =~= s);
    } else {
        lemma_genres_flat_prefix_le(s, k + 1);
        assert(s.subrange(0, k + 1).drop_last() =~= s.subrange(0, k));
    }
}

/// The histogram of a flattened genre sequence: each key of `keys` paired
/// with its count in `g`.
pub open spec fn hist_of(g: Seq<Seq<char>>, keys: Seq<Seq<char>>) -> Seq<(Seq<char>, int)>
    decreases keys.len(),
{
    if keys.len() == 0 {
        Seq::<(Seq<char>, int)>::empty()
    } else {
        hist_of(g, keys.drop_last()).push((keys.last(), occ(g, keys.last())))
    }
}

/// The histogram of a track set, keyed in order of first appearance.
pub open spec fn songs_hist(songs: Seq<Song>) -> Seq<(Seq<char>, int)> {
    hist_of(genres_flat(songs), dedup_first(genres_flat(songs)))
}

/// hist_of pairs each key with its count, position by position.
pub proof fn lemma_hist_of_pointwise(g: Seq<Seq<char>>, keys: Seq<Seq<char>>)
    ensures
        hist_of(g, keys).len() == keys.len(),
        forall|i: int|
            0 <= i < keys.len() ==> #[trigger] hist_of(g, keys)[i] == (keys[i], occ(g, keys[i])),
    decreases keys.len(),
{
    if keys.len() > 0 {
        lemma_hist_of_pointwise(g, keys.drop_last());
        assert(forall|i: int|
            0 <= i < keys.len() - 1 ==> keys.drop_last()[i] == keys[i]);
    }
}

/// The sum of the counts of a histogram.
pub open spec fn hist_count_sum(h: Seq<(Seq<char>, int)>) -> int
    decreases h.len(),
{
    if h.len() == 0 {
        0
    } else {
        hist_count_sum(h.drop_last()) + h.last().1
    }
}

/// The sum of the counts of `keys` in `g`.
pub open spec fn sum_occ(g: Seq<Seq<char>>, keys: Seq<Seq<char>>) -> int
    decreases keys.len(),
{
    if keys.len() == 0 {
        0
    } else {
        sum_occ(g, keys.drop_last()) + occ(g, keys.last())
    }
}

pub proof fn lemma_hist_count_sum_is_sum_occ(g: Seq<Seq<char>>, keys: Seq<Seq<char>>)
    ensures
        hist_count_sum(hist_of(g, keys)) == sum_occ(g, keys),
    decreases keys.len(),
{
    if keys.len() > 0 {
        lemma_hist_count_sum_is_sum_occ(g, keys.drop_last());
        assert(hist_of(g, keys).drop_last() =~= hist_of(g, keys.drop_last()));
    }
}

/// Appending one occurrence raises the key sum by the number of keys it
/// matches.
pub proof fn lemma_sum_occ_push(g: Seq<Seq<char>>, keys: Seq<Seq<char>>, x: Seq<char>)
    ensures
        sum_occ(g.push(x), keys) == sum_occ(g, keys) + occ(keys, x),
    decreases keys.len(),
{
    if keys.len() > 0 {
        lemma_sum_occ_push(g, keys.drop_last(), x);
        lemma_occ_push(g, x, keys.last());
        assert(occ(keys, x) == occ(keys.drop_last(), x) + if keys.last() == x {
            1int
        } else {
            0int
        });
    }
}

/// In a duplicate-free key list a contained key occurs exactly once.
pub proof fn lemma_occ_exactly_one(keys: Seq<Seq<char>>, x: Seq<char>)
    requires
        no_dup_seqs(keys),
        keys.contains(x),
    ensures
        occ(keys, x) == 1,
{
    lemma_occ_at_most_one(keys, x);
    lemma_occ_zero_iff(keys, x);
    lemma_occ_nonneg(keys, x);
}

/// The counts of a deduplicated key list partition the sequence: they sum
/// to its length.
pub proof fn lemma_sum_occ_partition(g: Seq<Seq<char>>)
    ensures
        sum_occ(g, dedup_first(g)) == g.len(),
    decreases g.len(),
{
    if g.len() > 0 {
        let pre = g.drop_last();
        let x = g.last();
        lemma_sum_occ_partition(pre);
        assert(g =~= pre.push(x));
        lemma_dedup_first_no_dups(pre);
        lemma_dedup_first_membership(pre, x);
        if pre.contains(x) {
            assert(dedup_first(g) == dedup_first(pre));
            lemma_sum_occ_push(pre, dedup_first(pre), x);
            lemma_occ_exactly_one(dedup_first(pre), x);
        } else {
            assert(dedup_first(g) == dedup_first(pre).push(x));
            lemma_sum_occ_push(pre, dedup_first(pre), x);
            lemma_occ_zero_iff(dedup_first(pre), x);
            lemma_occ_zero_iff(pre, x);
            assert(dedup_first(pre).push(x).drop_last() =~= dedup_first(pre));
            assert(dedup_first(pre).push(x).last() == x);
            assert(sum_occ(g, dedup_first(pre).push(x)) == sum_occ(g, dedup_first(pre)) + occ(
                g,
                x,
            ));
            lemma_occ_push(pre, x, x);
        }
    }
}

/// The counts of a track-set histogram sum to the number of genre
/// occurrences in the pool.
pub proof fn lemma_songs_hist_total(songs: Seq<Song>)
    ensures
        hist_count_sum(songs_hist(songs)) == genres_flat(songs).len(),
{
    lemma_hist_count_sum_is_sum_occ(genres_flat(songs), dedup_first(genres_flat(songs)));
    lemma_sum_occ_partition(genres_flat(songs));
}

} // verus!
