//! Track metadata as the OpenSubsonic API delivers it, and the genre
//! helpers the engine builds on.
//!
//! A `Song` is owned by the caller and never mutated by the engine.  Its
//! genres come both from the legacy single `genre` field and from the
//! `genres` array; `get_all_genres` lowercases them, removes duplicates
//! and sorts them ascending.

use vstd::prelude::*;

verus! {

use crate::strings::{lower_of, lowercase, to_chars, contains_seq, contains_chars};

/// The views of a sequence of strings.
pub open spec fn views_of(v: Seq<String>) -> Seq<Seq<char>> {
    v.map_values(|s: String| s@)
}

/// A track as fetched from the library service.
#[derive(Debug, Clone)]
pub struct Song {
    pub id: String,
    pub title: String,
    pub artist: String,
    pub album: String,
    pub genre: Option<String>,
    pub genres: Option<Vec<Genre>>,
    pub bpm: Option<u32>,
    pub duration: Option<u32>,
    pub year: Option<u32>,
    pub track: Option<u32>,
    pub play_count: Option<u32>,
    pub disc_number: Option<u32>,
    pub album_id: Option<String>,
    pub artist_id: Option<String>,
    pub played: Option<String>,
    pub starred: Option<String>,
    pub bit_rate: Option<u32>,
    pub content_type: Option<String>,
}

/// One entry of the multi-genre array.
#[derive(Debug, Clone)]
pub struct Genre {
    pub name: String,
}

/// Response envelope for the getRandomSongs call.
#[derive(Debug)]
pub struct RandomSongsResponse {
    pub subsonic_response: SubsonicResponse,
}

#[derive(Debug)]
pub struct SubsonicResponse {
    pub status: String,
    pub version: String,
    pub random_songs: Option<RandomSongs>,
}

#[derive(Debug)]
pub struct RandomSongs {
    pub song: Vec<Song>,
}

/// Response envelope for the createPlaylist call.
#[derive(Debug)]
pub struct CreatePlaylistResponse {
    pub subsonic_response: CreatePlaylistSubsonicResponse,
}

#[derive(Debug)]
pub struct CreatePlaylistSubsonicResponse {
    pub status: String,
    pub version: String,
    pub playlist: Option<CreatedPlaylist>,
}

#[derive(Debug)]
pub struct CreatedPlaylist {
    pub id: String,
    pub name: String,
    pub song_count: Option<u32>,
    pub duration: Option<u32>,
    pub public: Option<bool>,
    pub created: Option<String>,
    pub changed: Option<String>,
}

/// Response envelope for the getPlaylists call.
#[derive(Debug)]
pub struct GetPlaylistsResponse {
    pub subsonic_response: GetPlaylistsSubsonicResponse,
}

#[derive(Debug)]
pub struct GetPlaylistsSubsonicResponse {
    pub status: String,
    pub version: String,
    pub playlists: Option<PlaylistsContainer>,
}

#[derive(Debug)]
pub struct PlaylistsContainer {
    pub playlist: Vec<PlaylistInfo>,
}

#[derive(Debug)]
pub struct PlaylistInfo {
    pub id: String,
    pub name: String,
    pub song_count: Option<u32>,
    pub duration: Option<u32>,
    pub public: Option<bool>,
    pub created: Option<String>,
    pub changed: Option<String>,
}

/// The lowercased genres of a song in order of appearance, duplicates
/// included: first the legacy single field, then the array.
pub open spec fn song_raw_genres(song: Song) -> Seq<Seq<char>> {
    (match song.genre {
        Some(g) => seq![lower_of(g@)],
        None => Seq::<Seq<char>>::empty(),
    }) + (match song.genres {
        Some(gs) => Seq::new(gs@.len(), |i: int| lower_of(gs@[i].name@)),
        None => Seq::<Seq<char>>::empty(),
    })
}

/// The sequence with later repetitions of an element removed, keeping the
/// first occurrence of each.
pub open spec fn dedup_first(s: Seq<Seq<char>>) -> Seq<Seq<char>>
    decreases s.len(),
{
    if s.len() == 0 {
        Seq::<Seq<char>>::empty()
    } else if s.drop_last().contains(s.last()) {
        dedup_first(s.drop_last())
    } else {
        dedup_first(s.drop_last()).push(s.last())
    }
}

/// dedup_first keeps exactly the elements of its argument.
pub proof fn lemma_dedup_first_membership(s: Seq<Seq<char>>, x: Seq<char>)
    ensures
        dedup_first(s).contains(x) <==> s.contains(x),
    decreases s.len(),
{
    if s.len() > 0 {
        let pre = s.drop_last();
        let last = s.last();
        lemma_dedup_first_membership(pre, x);
        assert(s.contains(x) <==> (pre.contains(x) || last == x)) by {
            if s.contains(x) {
                let i = choose|i: int| 0 <= i < s.len() && s[i] == x;
                if i < s.len() - 1 {
                    assert(pre[i] == x);
                    assert(pre.contains(x));
                } else {
                    assert(last == x);
                }
            }
            if pre.contains(x) {
                let i = choose|i: int| 0 <= i < pre.len() && pre[i] == x;
                assert(s[i] == x);
                assert(s.contains(x));
            }
            if last == x {
                assert(s[s.len() - 1] == x);
                assert(s.contains(x));
            }
        }
        if pre.contains(last) {
            assert(dedup_first(s) == dedup_first(pre));
        } else {
            let d = dedup_first(pre);
            assert(dedup_first(s) == d.push(last));
            assert(d.push(last).contains(x) <==> (d.contains(x) || last == x)) by {
                if d.push(last).contains(x) {
                    let i = choose|i: int|
                        0 <= i < d.push(last).len() && d.push(last)[i] == x;
                    if i < d.len() {
                        assert(d[i] == x);
                        assert(d.contains(x));
                    } else {
                        assert(last == x);
                    }
                }
                if d.contains(x) {
                    let i = choose|i: int| 0 <= i < d.len() && d[i] == x;
                    assert(d.push(last)[i] == x);
                    assert(d.push(last).contains(x));
                }
                if last == x {
                    assert(d.push(last)[d.len() as int] == x);
                    assert(d.push(last).contains(x));
                }
            }
        }
    }
}

/// No element of a deduplicated sequence repeats.
pub open spec fn no_dup_seqs(q: Seq<Seq<char>>) -> bool {
    forall|i: int, j: int| 0 <= i < j < q.len() ==> q[i] != q[j]
}

pub proof fn lemma_dedup_first_no_dups(s: Seq<Seq<char>>)
    ensures
        no_dup_seqs(dedup_first(s)),
    decreases s.len(),
{
    if s.len() > 0 {
        lemma_dedup_first_no_dups(s.drop_last());
        if !s.drop_last().contains(s.last()) {
            lemma_dedup_first_membership(s.drop_last(), s.last());
            let d = dedup_first(s.drop_last());
            assert(!d.contains(s.last()));
            assert forall|i: int, j: int| 0 <= i < j < dedup_first(s).len() implies dedup_first(
                s,
            )[i] != dedup_first(s)[j] by {
                if j < d.len() {
                } else {
                    assert(dedup_first(s)[j] == s.last());
                    assert(dedup_first(s)[i] == d[i]);
                    assert(d.contains(d[i]));
                }
            }
        }
    }
}

/// Deduplication never lengthens a sequence.
pub proof fn lemma_dedup_first_len_le(s: Seq<Seq<char>>)
    ensures
        dedup_first(s).len() <= s.len(),
    decreases s.len(),
{
    if s.len() > 0 {
        lemma_dedup_first_len_le(s.drop_last());
    }
}

/// Lexicographic order on character sequences by scalar value.  UTF-8
/// preserves scalar order byte for byte, so this is the standard string
/// order.
pub open spec fn lex_leq(a: Seq<char>, b: Seq<char>) -> bool
    decreases a.len(),
{
    if a.len() == 0 {
        true
    } else if b.len() == 0 {
        false
    } else if (a[0] as u32) < (b[0] as u32) {
        true
    } else if (a[0] as u32) > (b[0] as u32) {
        false
    } else {
        lex_leq(a.drop_first(), b.drop_first())
    }
}

/// The lexicographic order as a function value, for sorting.
pub open spec fn lex_leq_fn() -> spec_fn(Seq<char>, Seq<char>) -> bool {
    |a: Seq<char>, b: Seq<char>| lex_leq(a, b)
}

/// Equal scalar values mean equal characters.
proof fn lemma_char_scalar_injective(a: char, b: char)
    requires
        a as u32 == b as u32,
    ensures
        a == b,
{
}

proof fn lemma_lex_refl(a: Seq<char>)
    ensures
        lex_leq(a, a),
    decreases a.len(),
{
    if a.len() > 0 {
        lemma_lex_refl(a.drop_first());
    }
}

proof fn lemma_lex_connected(a: Seq<char>, b: Seq<char>)
    ensures
        lex_leq(a, b) || lex_leq(b, a),
    decreases a.len(),
{
    if a.len() > 0 && b.len() > 0 && a[0] as u32 == b[0] as u32 {
        lemma_lex_connected(a.drop_first(), b.drop_first());
    }
}

proof fn lemma_lex_antisym(a: Seq<char>, b: Seq<char>)
    requires
        lex_leq(a, b),
        lex_leq(b, a),
    ensures
        a == b,
    decreases a.len(),
{
    if a.len() == 0 {
        assert(b.len() == 0);
        assert(a =~= b);
    } else {
        assert(b.len() > 0);
        assert(a[0] as u32 == b[0] as u32);
        lemma_char_scalar_injective(a[0], b[0]);
        lemma_lex_antisym(a.drop_first(), b.drop_first());
        assert forall|i: int| 0 <= i < a.len() implies a[i] == b[i] by {
            if i > 0 {
                assert(a.drop_first()[i - 1] == a[i]);
                assert(b.drop_first()[i - 1] == b[i]);
            }
        }
        assert(a =~= b);
    }
}

proof fn lemma_lex_trans(a: Seq<char>, b: Seq<char>, c: Seq<char>)
    requires
        lex_leq(a, b),
        lex_leq(b, c),
    ensures
        lex_leq(a, c),
    decreases a.len(),
{
    if a.len() == 0 {
    } else {
        assert(b.len() > 0);
        assert(c.len() > 0);
        if a[0] as u32 == b[0] as u32 && b[0] as u32 == c[0] as u32 {
            lemma_lex_trans(a.drop_first(), b.drop_first(), c.drop_first());
        }
    }
}

/// The lexicographic order is total: it sorts any list of genre names.
pub proof fn lemma_lex_total_ordering()
    ensures
        vstd::relations::total_ordering(lex_leq_fn()),
{
    let leq = lex_leq_fn();
    assert forall|a: Seq<char>| #[trigger] leq(a, a) by {
        lemma_lex_refl(a);
    }
    assert forall|a: Seq<char>, b: Seq<char>| #[trigger] leq(a, b) && #[trigger] leq(b, a)
        implies a == b by {
        lemma_lex_antisym(a, b);
    }
    assert forall|a: Seq<char>, b: Seq<char>, c: Seq<char>|
        #[trigger] leq(a, b) && #[trigger] leq(b, c) implies leq(a, c) by {
        lemma_lex_trans(a, b, c);
    }
    assert forall|a: Seq<char>, b: Seq<char>| #[trigger] leq(a, b) || #[trigger] leq(b, a) by {
        lemma_lex_connected(a, b);
    }
}

/// The lowercased, deduplicated genres of a song, sorted ascending.
pub open spec fn song_genres(song: Song) -> Seq<Seq<char>> {
    dedup_first(song_raw_genres(song)).sort_by(lex_leq_fn())
}

/// A song's genre list never repeats an entry: deduplication removes
/// repeats and sorting only reorders.
pub proof fn lemma_song_genres_no_dups(song: Song)
    ensures
        no_dup_seqs(song_genres(song)),
{
    broadcast use vstd::multiset::group_multiset_axioms;

    let raw = song_raw_genres(song);
    let d = dedup_first(raw);
    let s = song_genres(song);
    lemma_dedup_first_no_dups(raw);
    assert forall|i: int, j: int|
        (0 <= i < d.len() && 0 <= j < d.len() && i != j) implies d[i] != d[j] by {
        if i < j {
        } else {
            assert(d[j] != d[i]);
        }
    }
    assert(d.no_duplicates());
    d.lemma_multiset_has_no_duplicates();
    lemma_lex_total_ordering();
    d.lemma_sort_by_ensures(lex_leq_fn());
    assert(s.to_multiset() == d.to_multiset());
    s.lemma_multiset_has_no_duplicates_conv();
    assert(forall|i: int, j: int| 0 <= i < j < s.len() ==> s[i] != s[j]);
}

/// Whether `a` precedes `b` (or equals it) in lexicographic order.
fn lex_leq_strings(a: &String, b: &String) -> (r: bool)
    ensures
        r == lex_leq(a@, b@),
{
    let va = to_chars(a.as_str());
    let vb = to_chars(b.as_str());
    let na = va.len();
    let nb = vb.len();
    let mut i: usize = 0;
    proof {
        assert(va@.skip(0) =~= va@);
        assert(vb@.skip(0) =~= vb@);
    }
    while i < na && i < nb
        invariant
            i <= na,
            i <= nb,
            na == va@.len(),
            nb == vb@.len(),
            va@ == a@,
            vb@ == b@,
            lex_leq(a@, b@) == lex_leq(va@.skip(i as int), vb@.skip(i as int)),
        decreases na - i,
    {
        let ca = va[i];
        let cb = vb[i];
        proof {
            assert(va@.skip(i as int)[0] == va@[i as int]);
            assert(vb@.skip(i as int)[0] == vb@[i as int]);
        }
        if (ca as u32) < (cb as u32) {
            return true;
        }
        if (ca as u32) > (cb as u32) {
            return false;
        }
        proof {
            assert(va@.skip(i as int).drop_first() =~= va@.skip(i as int + 1));
            assert(vb@.skip(i as int).drop_first() =~= vb@.skip(i as int + 1));
        }
        i = i + 1;
    }
    proof {
        if i >= na {
            assert(va@.skip(i as int).len() == 0);
        } else {
            assert(vb@.skip(i as int).len() == 0);
            assert(va@.skip(i as int).len() > 0);
        }
    }
    i >= na
}

/// Whether a string with the given view occurs among the strings of `v`.
pub open spec fn seq_has_string(v: Seq<String>, x: Seq<char>) -> bool {
    exists|i: int| 0 <= i < v.len() && v[i]@ == x
}

/// Whether `x` equals one of the strings of `v`.
pub fn vec_has_string(v: &Vec<String>, x: &String) -> (b: bool)
    ensures
        b == seq_has_string(v@, x@),
{
    let n = v.len();
    let mut i: usize = 0;
    while i < n
        invariant
            i <= n,
            n == v@.len(),
            forall|t: int| 0 <= t < i ==> v@[t]@ != x@,
        decreases n - i,
    {
        if v[i].eq(x) {
            return true;
        }
        i = i + 1;
    }
    false
}

/// A song matches a pattern list when some genre of the song contains
/// some lowercased pattern as a substring.
pub open spec fn matches_genre_patterns(song: Song, patterns: Seq<Seq<char>>) -> bool {
    exists|i: int, j: int|
        0 <= i < patterns.len() && 0 <= j < song_genres(song).len() && contains_seq(
            #[trigger] song_genres(song)[j],
            lower_of(#[trigger] patterns[i]),
        )
}

impl Song {
    /// All genres of this song: lowercased, duplicates removed, sorted
    /// ascending.
    pub fn get_all_genres(&self) -> (r: Vec<String>)
        ensures
            views_of(r@) == song_genres(*self),
    {
        let mut raw: Vec<String> = Vec::new();
        if let Some(g) = &self.genre {
            raw.push(lowercase(g.as_str()));
        }
        let ghost head = views_of(raw@);
        proof {
            assert(head =~= (match self.genre {
                Some(g) => seq![lower_of(g@)],
                None => Seq::<Seq<char>>::empty(),
            }));
        }
        if let Some(gs) = &self.genres {
            let gn = gs.len();
            let ghost tail = Seq::new(gs@.len(), |i: int| lower_of(gs@[i].name@));
            let mut k: usize = 0;
            while k < gn
                invariant
                    k <= gn,
                    gn == gs@.len(),
                    tail == Seq::new(gs@.len(), |i: int| lower_of(gs@[i].name@)),
                    views_of(raw@) == head + tail.subrange(0, k as int),
                decreases gn - k,
            {
                let lg = lowercase(gs[k].name.as_str());
                let ghost prev = raw@;
                raw.push(lg);
                proof {
                    assert(views_of(raw@) =~= views_of(prev).push(lg@));
                    assert(tail.subrange(0, k as int + 1) =~= tail.subrange(0, k as int).push(
                        tail[k as int],
                    ));
                    assert(lg@ == tail[k as int]);
                    assert(views_of(raw@) =~= head + tail.subrange(0, k as int + 1));
                }
                k = k + 1;
            }
            proof {
                assert(tail.subrange(0, gn as int) =~= tail);
                assert(views_of(raw@) =~= song_raw_genres(*self));
            }
        } else {
            proof {
                assert(views_of(raw@) =~= song_raw_genres(*self));
            }
        }
        let ghost rawv = views_of(raw@);
        let rn = raw.len();
        let mut out: Vec<String> = Vec::new();
        let mut k: usize = 0;
        while k < rn
            invariant
                k <= rn,
                rn == raw@.len(),
                rawv == views_of(raw@),
                views_of(out@) == dedup_first(rawv.subrange(0, k as int)),
            decreases rn - k,
        {
            let ghost pre = rawv.subrange(0, k as int);
            let ghost post = rawv.subrange(0, k as int + 1);
            proof {
                assert(post.drop_last() =~= pre);
                assert(post.last() == rawv[k as int]);
                lemma_dedup_first_membership(pre, rawv[k as int]);
            }
            let hit = vec_has_string(&out, &raw[k]);
            let ghost out_before = out@;
            if !hit {
                let g = raw[k].clone();
                out.push(g);
                proof {
                    assert(!pre.contains(rawv[k as int])) by {
                        if pre.contains(rawv[k as int]) {
                            assert(dedup_first(pre).contains(rawv[k as int]));
                            let j = choose|j: int|
                                0 <= j < dedup_first(pre).len() && dedup_first(pre)[j] == rawv[k as int];
                            assert(views_of(out_before)[j] == rawv[k as int]);
                            assert(out_before[j]@ == rawv[k as int]);
                        }
                    }
                    assert(views_of(out@) =~= views_of(out_before).push(rawv[k as int]));
                    assert(views_of(out@) =~= dedup_first(post));
                }
            } else {
                proof {
                    assert(pre.contains(rawv[k as int])) by {
                        let j = choose|j: int|
                            0 <= j < out_before.len() && out_before[j]@ == rawv[k as int];
                        assert(dedup_first(pre)[j] == views_of(out_before)[j]);
                        assert(dedup_first(pre).contains(rawv[k as int]));
                        lemma_dedup_first_membership(pre, rawv[k as int]);
                    }
                    assert(dedup_first(post) == dedup_first(pre));
                }
            }
            k = k + 1;
        }
        proof {
            assert(rawv.subrange(0, rn as int) =~= rawv);
        }
        // sort ascending: repeatedly move the least remaining genre over
        let ghost deduped = views_of(out@);
        let mut rem_sorted = out;
        let mut sorted: Vec<String> = Vec::new();
        proof {
            broadcast use vstd::seq_lib::group_to_multiset_ensures;
            broadcast use vstd::multiset::group_multiset_axioms;

            assert(views_of(sorted@) =~= Seq::<Seq<char>>::empty());
            assert(views_of(sorted@).to_multiset().add(views_of(rem_sorted@).to_multiset())
                =~= deduped.to_multiset());
        }
        while rem_sorted.len() > 0
            invariant
                views_of(sorted@).to_multiset().add(views_of(rem_sorted@).to_multiset())
                    == deduped.to_multiset(),
                forall|x: int, y: int|
                    0 <= x < y < sorted@.len() ==> lex_leq(
                        (#[trigger] sorted@[x])@,
                        (#[trigger] sorted@[y])@,
                    ),
                forall|x: int, y: int|
                    0 <= x < sorted@.len() && 0 <= y < rem_sorted@.len() ==> lex_leq(
                        (#[trigger] sorted@[x])@,
                        (#[trigger] rem_sorted@[y])@,
                    ),
            decreases rem_sorted@.len(),
        {
            let mut mi: usize = 0;
            proof {
                lemma_lex_refl(rem_sorted@[0]@);
            }
            let mut t: usize = 1;
            while t < rem_sorted.len()
                invariant
                    rem_sorted@.len() > 0,
                    mi < t <= rem_sorted@.len(),
                    forall|j: int|
                        0 <= j < t ==> lex_leq(
                            rem_sorted@[mi as int]@,
                            (#[trigger] rem_sorted@[j])@,
                        ),
                decreases rem_sorted@.len() - t,
            {
                if !lex_leq_strings(&rem_sorted[mi], &rem_sorted[t]) {
                    proof {
                        lemma_lex_connected(rem_sorted@[mi as int]@, rem_sorted@[t as int]@);
                        assert forall|j: int| 0 <= j < t + 1 implies lex_leq(
                            rem_sorted@[t as int]@,
                            (#[trigger] rem_sorted@[j])@,
                        ) by {
                            if j < t {
                                lemma_lex_trans(
                                    rem_sorted@[t as int]@,
                                    rem_sorted@[mi as int]@,
                                    rem_sorted@[j]@,
                                );
                            } else {
                                lemma_lex_refl(rem_sorted@[t as int]@);
                            }
                        }
                    }
                    mi = t;
                } else {
                }
                t = t + 1;
            }
            proof {
                lemma_lex_refl(rem_sorted@[mi as int]@);
            }
            let ghost rem_before = rem_sorted@;
            let ghost sorted_before = sorted@;
            let x = rem_sorted.remove(mi);
            sorted.push(x);
            proof {
                broadcast use vstd::seq_lib::group_to_multiset_ensures;
                broadcast use vstd::multiset::group_multiset_axioms;

                assert(views_of(sorted@) =~= views_of(sorted_before).push(x@));
                assert(views_of(rem_sorted@) =~= views_of(rem_before).remove(mi as int));
                assert(views_of(rem_before).to_multiset().count(x@) > 0) by {
                    assert(views_of(rem_before)[mi as int] == x@);
                    assert(views_of(rem_before).contains(x@));
                }
                assert(views_of(sorted@).to_multiset() =~= views_of(
                    sorted_before,
                ).to_multiset().insert(x@));
                assert(views_of(rem_sorted@).to_multiset() =~= views_of(
                    rem_before,
                ).to_multiset().remove(x@));
                assert(views_of(sorted@).to_multiset().add(views_of(rem_sorted@).to_multiset())
                    =~= deduped.to_multiset());
                assert forall|a: int, b: int| 0 <= a < b < sorted@.len() implies lex_leq(
                    (#[trigger] sorted@[a])@,
                    (#[trigger] sorted@[b])@,
                ) by {
                    if b < sorted_before.len() {
                        assert(sorted@[a] == sorted_before[a] && sorted@[b] == sorted_before[b]);
                    } else {
                        assert(sorted@[b] == x);
                        assert(sorted@[a] == sorted_before[a]);
                        assert(x == rem_before[mi as int]);
                    }
                }
                assert forall|a: int, b: int|
                    0 <= a < sorted@.len() && 0 <= b < rem_sorted@.len() implies lex_leq(
                    (#[trigger] sorted@[a])@,
                    (#[trigger] rem_sorted@[b])@,
                ) by {
                    let w = if b < mi as int {
                        b
                    } else {
                        b + 1
                    };
                    assert(rem_sorted@[b] == rem_before[w]);
                    if a < sorted_before.len() {
                        assert(sorted@[a] == sorted_before[a]);
                    } else {
                        assert(sorted@[a] == x);
                        assert(x == rem_before[mi as int]);
                    }
                }
            }
        }
        proof {
            broadcast use vstd::seq_lib::group_to_multiset_ensures;
            broadcast use vstd::multiset::group_multiset_axioms;

            assert(views_of(rem_sorted@) =~= Seq::<Seq<char>>::empty());
            assert(views_of(rem_sorted@).to_multiset()
                =~= vstd::multiset::Multiset::<Seq<char>>::empty());
            assert(views_of(sorted@).to_multiset() =~= deduped.to_multiset());
            lemma_lex_total_ordering();
            deduped.lemma_sort_by_ensures(lex_leq_fn());
            assert(vstd::relations::sorted_by(views_of(sorted@), lex_leq_fn())) by {
                assert forall|a: int, b: int|
                    0 <= a < b < views_of(sorted@).len() implies #[trigger] lex_leq_fn()(
                    views_of(sorted@)[a],
                    views_of(sorted@)[b],
                ) by {
                    assert(views_of(sorted@)[a] == sorted@[a]@);
                    assert(views_of(sorted@)[b] == sorted@[b]@);
                }
            }
            vstd::seq_lib::lemma_sorted_unique(
                views_of(sorted@),
                deduped.sort_by(lex_leq_fn()),
                lex_leq_fn(),
            );
            assert(views_of(sorted@) =~= deduped.sort_by(lex_leq_fn()));
        }
        sorted
    }

    /// Whether any lowercased pattern occurs as a substring of one of
    /// this song's genres.
    pub fn matches_genre_patterns_string(&self, patterns: &[String]) -> (r: bool)
        ensures
            r == matches_genre_patterns(*self, views_of(patterns@)),
    {
        let genres = self.get_all_genres();
        let pn = patterns.len();
        let gn = genres.len();
        let mut i: usize = 0;
        while i < pn
            invariant
                i <= pn,
                pn == patterns@.len(),
                gn == genres@.len(),
                views_of(genres@) == song_genres(*self),
                forall|a: int, b: int|
                    0 <= a < i && 0 <= b < song_genres(*self).len() ==> !contains_seq(
                        #[trigger] song_genres(*self)[b],
                        lower_of(#[trigger] views_of(patterns@)[a]),
                    ),
            decreases pn - i,
        {
            let lp = lowercase(patterns[i].as_str());
            let lp_chars = to_chars(lp.as_str());
            let mut j: usize = 0;
            while j < gn
                invariant
                    j <= gn,
                    i < pn,
                    pn == patterns@.len(),
                    gn == genres@.len(),
                    views_of(genres@) == song_genres(*self),
                    lp_chars@ == lower_of(patterns@[i as int]@),
                    forall|b: int|
                        0 <= b < j ==> !contains_seq(
                            #[trigger] song_genres(*self)[b],
                            lower_of(views_of(patterns@)[i as int]),
                        ),
                decreases gn - j,
            {
                let g_chars = to_chars(genres[j].as_str());
                proof {
                    assert(g_chars@ == views_of(genres@)[j as int]);
                }
                if contains_chars(&g_chars, &lp_chars) {
                    proof {
                        assert(contains_seq(
                            song_genres(*self)[j as int],
                            lower_of(views_of(patterns@)[i as int]),
                        ));
                    }
                    return true;
                }
                j = j + 1;
            }
            i = i + 1;
        }
        false
    }
}

impl Default for Song {
    /// The placeholder track: empty id, "Unknown" names, no metadata.
    fn default() -> (r: Song)
        ensures
            r.id@ == Seq::<char>::empty(),
            r.title@ == "Unknown"@,
            r.artist@ == "Unknown"@,
            r.album@ == "Unknown"@,
            r.genre is None,
            r.genres is None,
            r.bpm is None,
            r.duration is None,
            r.year is None,
            r.track is None,
            r.play_count is None,
            r.disc_number is None,
            r.album_id is None,
            r.artist_id is None,
            r.played is None,
            r.starred is None,
            r.bit_rate is None,
            r.content_type is None,
    {
        Song {
            id: String::new(),
            title: "Unknown".to_owned(),
            artist: "Unknown".to_owned(),
            album: "Unknown".to_owned(),
            genre: None,
            genres: None,
            bpm: None,
            duration: None,
            year: None,
            track: None,
            play_count: None,
            disc_number: None,
            album_id: None,
            artist_id: None,
            played: None,
            starred: None,
            bit_rate: None,
            content_type: None,
        }
    }
}

} // verus!
