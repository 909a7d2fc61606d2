//! Deriving a human-readable playlist title from aggregate metrics.
//!
//! The name is the lowercased base name, the day of the week of the
//! given (UTC) time, and a suffix of up to two descriptors (dominant
//! genre, tempo mood, era label) and a noun.  Which descriptors survive
//! and in what order uses real randomness behind a trusted index picker,
//! but every outcome obeys the contract: descriptors come only from the
//! gated token set of the metadata, and the suffix always ends in one of
//! the fixed nouns.

use vstd::prelude::*;

verus! {

use vstd::string::StrSliceExecFns;
use crate::strings::{lower_of, lowercase, upper_of, uppercase, to_chars, is_space_char, is_space};
use crate::metadata::PlaylistMetadata;

/// Playlist naming utilities.
pub struct PlaylistNaming;

/// The whitespace-separated words of a string, in order, separators
/// dropped.
pub open spec fn words_of(s: Seq<char>) -> Seq<Seq<char>>
    decreases s.len(),
{
    if s.len() == 0 {
        Seq::<Seq<char>>::empty()
    } else if is_space_char(s[0]) {
        words_of(s.drop_first())
    } else {
        let rest = words_of(s.drop_first());
        if s.len() > 1 && !is_space_char(s[1]) {
            seq![seq![s[0]] + rest[0]] + rest.drop_first()
        } else {
            seq![seq![s[0]]] + rest
        }
    }
}

/// A word with its first character uppercased and the rest lowercased.
pub open spec fn cased_word(w: Seq<char>) -> Seq<char> {
    if w.len() == 0 {
        Seq::<char>::empty()
    } else {
        upper_of(w.subrange(0, 1)) + lower_of(w.subrange(1, w.len() as int))
    }
}

/// The words title-cased and joined by single spaces.
pub open spec fn title_cased(words: Seq<Seq<char>>) -> Seq<char>
    decreases words.len(),
{
    if words.len() == 0 {
        Seq::<char>::empty()
    } else if words.len() == 1 {
        cased_word(words[0])
    } else {
        cased_word(words[0]) + " "@ + title_cased(words.drop_first())
    }
}

/// Splitting a string at the end of its leading word splits its word
/// list the same way.
proof fn lemma_words_split(s: Seq<char>, k: int)
    requires
        0 < k <= s.len(),
        forall|t: int| 0 <= t < k ==> !is_space_char(#[trigger] s[t]),
        k == s.len() || is_space_char(s[k]),
    ensures
        words_of(s) == seq![s.subrange(0, k)] + words_of(s.subrange(k, s.len() as int)),
    decreases k,
{
    if k == 1 {
        assert(s.drop_first() =~= s.subrange(1, s.len() as int));
        assert(seq![s[0]] =~= s.subrange(0, 1));
        if s.len() == 1 {
            assert(words_of(s) =~= seq![s.subrange(0, 1)] + words_of(
                s.subrange(1, s.len() as int),
            ));
        } else {
            assert(is_space_char(s[1]));
            assert(words_of(s) =~= seq![s.subrange(0, 1)] + words_of(
                s.subrange(1, s.len() as int),
            ));
        }
    } else {
        let d = s.drop_first();
        assert(d =~= s.subrange(1, s.len() as int));
        assert(!is_space_char(s[1]));
        assert(s.len() > 1);
        assert(forall|t: int| 0 <= t < k - 1 ==> !is_space_char(#[trigger] d[t]));
        assert(k - 1 == d.len() || is_space_char(d[k - 1]));
        lemma_words_split(d, k - 1);
        let rest = words_of(d);
        assert(rest == seq![d.subrange(0, k - 1)] + words_of(d.subrange(k - 1, d.len() as int)));
        assert(rest.len() >= 1);
        assert(rest[0] == d.subrange(0, k - 1));
        assert(rest.drop_first() =~= words_of(d.subrange(k - 1, d.len() as int)));
        assert(seq![s[0]] + d.subrange(0, k - 1) =~= s.subrange(0, k));
        assert(d.subrange(k - 1, d.len() as int) =~= s.subrange(k, s.len() as int));
        assert(words_of(s) == seq![seq![s[0]] + rest[0]] + rest.drop_first());
        assert(words_of(s) =~= seq![s.subrange(0, k)] + words_of(s.subrange(k, s.len() as int)));
    }
}

/// Title-casing distributes over word-list concatenation, with a single
/// separating space when both halves are nonempty.
proof fn lemma_title_concat(w1: Seq<Seq<char>>, w2: Seq<Seq<char>>)
    ensures
        title_cased(w1 + w2) == title_cased(w1) + (if w1.len() == 0 || w2.len() == 0 {
            Seq::<char>::empty()
        } else {
            " "@
        }) + title_cased(w2),
    decreases w1.len(),
{
    if w2.len() == 0 {
        assert(w1 + w2 =~= w1);
        assert(title_cased(w1) + Seq::<char>::empty() + title_cased(w2) =~= title_cased(w1));
    } else if w1.len() == 0 {
        assert(w1 + w2 =~= w2);
        assert(title_cased(w1) + Seq::<char>::empty() + title_cased(w2) =~= title_cased(w2));
    } else if w1.len() == 1 {
        assert((w1 + w2).len() >= 2);
        assert((w1 + w2)[0] == w1[0]);
        assert((w1 + w2).drop_first() =~= w2);
        assert(title_cased(w1 + w2) == cased_word(w1[0]) + " "@ + title_cased(w2));
        assert(cased_word(w1[0]) + " "@ + title_cased(w2) =~= title_cased(w1) + " "@
            + title_cased(w2));
    } else {
        assert((w1 + w2)[0] == w1[0]);
        assert((w1 + w2).drop_first() =~= w1.drop_first() + w2);
        lemma_title_concat(w1.drop_first(), w2);
        assert(title_cased(w1 + w2) == cased_word(w1[0]) + " "@ + title_cased(
            w1.drop_first() + w2,
        ));
        assert(title_cased(w1) == cased_word(w1[0]) + " "@ + title_cased(w1.drop_first()));
        assert(title_cased(w1 + w2) =~= title_cased(w1) + " "@ + title_cased(w2));
    }
}

/// Title case: each whitespace-separated word with its first character
/// uppercased and the rest lowercased, joined by single spaces.
pub trait ToTitleCase: View<V = Seq<char>> {
    fn to_title_case(&self) -> (r: String)
        ensures
            r@ == title_cased(words_of(self@)),
    ;
}

impl ToTitleCase for str {
    fn to_title_case(&self) -> (r: String)
        ensures
            r@ == title_cased(words_of(self@)),
    {
        let v = to_chars(self);
        let n = v.len();
        let mut out = String::new();
        let mut first = true;
        let ghost mut done: Seq<Seq<char>> = Seq::<Seq<char>>::empty();
        let mut i: usize = 0;
        proof {
            assert(self@.skip(0) =~= self@);
        }
        while i < n
            invariant
                i <= n,
                n == self@.len(),
                v@ == self@,
                out@ == title_cased(done),
                words_of(self@) == done + words_of(self@.skip(i as int)),
                first == (done.len() == 0),
            decreases n - i,
        {
            if is_space(v[i]) {
                proof {
                    let suf = self@.skip(i as int);
                    assert(suf[0] == self@[i as int]);
                    assert(suf.drop_first() =~= self@.skip(i as int + 1));
                }
                i = i + 1;
            } else {
                let ws = i;
                let mut we = i + 1;
                while we < n && !is_space(v[we])
                    invariant
                        ws < we <= n,
                        n == self@.len(),
                        v@ == self@,
                        forall|t: int| ws <= t < we ==> !is_space_char(#[trigger] self@[t]),
                    decreases n - we,
                {
                    we = we + 1;
                }
                let ghost w = self@.subrange(ws as int, we as int);
                proof {
                    let suf = self@.skip(ws as int);
                    assert(forall|t: int|
                        0 <= t < we - ws ==> #[trigger] suf[t] == self@[ws + t]);
                    assert(we == n || is_space_char(suf[we - ws as int]));
                    lemma_words_split(suf, we - ws as int);
                    assert(suf.subrange(0, we - ws as int) =~= w);
                    assert(suf.subrange(we - ws as int, suf.len() as int) =~= self@.skip(
                        we as int,
                    ));
                    assert(words_of(self@.skip(ws as int)) == seq![w] + words_of(
                        self@.skip(we as int),
                    ));
                }
                let ghost out_before = out@;
                if !first {
                    out.append(" ");
                }
                let head = self.substring_char(ws, ws + 1);
                let up = uppercase(head);
                out.append(up.as_str());
                let tail = self.substring_char(ws + 1, we);
                let low = lowercase(tail);
                out.append(low.as_str());
                proof {
                    assert(head@ =~= w.subrange(0, 1));
                    assert(tail@ =~= w.subrange(1, w.len() as int));
                    assert(w.len() > 0);
                    lemma_title_concat(done, seq![w]);
                    assert(title_cased(seq![w]) == cased_word(w));
                    if first {
                        assert(out@ =~= title_cased(done.push(w))) by {
                            assert(done + seq![w] =~= done.push(w));
                            assert(out@ =~= cased_word(w));
                            assert(title_cased(done + seq![w]) =~= cased_word(w));
                        }
                    } else {
                        assert(out@ =~= title_cased(done.push(w))) by {
                            assert(done + seq![w] =~= done.push(w));
                            assert(out@ =~= out_before + " "@ + cased_word(w));
                            assert(title_cased(done + seq![w]) =~= title_cased(done) + " "@
                                + cased_word(w));
                        }
                    }
                    done = done.push(w);
                    assert(words_of(self@) =~= done + words_of(self@.skip(we as int))) by {
                        assert(done.drop_last() + (seq![w] + words_of(self@.skip(we as int)))
                            =~= done + words_of(self@.skip(we as int)));
                    }
                }
                first = false;
                i = we;
            }
        }
        proof {
            assert(self@.skip(n as int) =~= Seq::<char>::empty());
            assert(words_of(self@) =~= done);
        }
        out
    }
}

/// Relies on rand's thread_rng and Rng::gen_range: a random index below
/// `n`, uniform over the range; nothing more can be promised of a random
/// draw.
#[verifier::external_body]
fn random_below(n: usize) -> (r: usize)
    requires
        n >= 1,
    ensures
        r < n,
{
    rand::Rng::gen_range(&mut rand::thread_rng(), 0..n)
}

/// The weekday of a nonnegative Unix time, with 0 for Sunday; day zero
/// of the epoch was a Thursday.
pub open spec fn weekday_index(now_epoch: i64) -> int {
    ((now_epoch / 86400) + 4) % 7
}

/// The lowercase English weekday names.
pub open spec fn weekday_name_spec(d: int) -> Seq<char> {
    if d == 0 {
        "sunday"@
    } else if d == 1 {
        "monday"@
    } else if d == 2 {
        "tuesday"@
    } else if d == 3 {
        "wednesday"@
    } else if d == 4 {
        "thursday"@
    } else if d == 5 {
        "friday"@
    } else {
        "saturday"@
    }
}

/// The weekday name of a nonnegative Unix time.
pub fn weekday_name(now_epoch: i64) -> (r: &'static str)
    requires
        now_epoch >= 0,
    ensures
        r@ == weekday_name_spec(weekday_index(now_epoch)),
{
    let d: i64 = ((now_epoch / 86400) + 4) % 7;
    if d == 0 {
        "sunday"
    } else if d == 1 {
        "monday"
    } else if d == 2 {
        "tuesday"
    } else if d == 3 {
        "wednesday"
    } else if d == 4 {
        "thursday"
    } else if d == 5 {
        "friday"
    } else {
        "saturday"
    }
}

/// One of the fixed nouns a suffix always ends in.
pub open spec fn is_noun_word(n: Seq<char>) -> bool {
    ||| n == "tunes"@
    ||| n == "vibes"@
    ||| n == "jams"@
    ||| n == "melodies"@
    ||| n == "grooves"@
    ||| n == "beats"@
    ||| n == "rhythms"@
    ||| n == "sounds"@
    ||| n == "tracks"@
    ||| n == "set"@
    ||| n == "mix"@
    ||| n == "selection"@
    ||| n == "session"@
    ||| n == "collection"@
    ||| n == "playlist"@
    ||| n == "rotation"@
    ||| n == "queue"@
    ||| n == "lineup"@
    ||| n == "compilation"@
    ||| n == "showcase"@
    ||| n == "edition"@
    ||| n == "medley"@
    ||| n == "blend"@
    ||| n == "fusion"@
}

/// The mood words of each tempo band: high energy, mid-tempo, low tempo.
pub open spec fn tempo_word_in_band(band: int, t: Seq<char>) -> bool {
    if band == 0 {
        t == "energetic"@ || t == "upbeat"@ || t == "pumped"@ || t == "lively"@
    } else if band == 1 {
        t == "steady"@ || t == "cruising"@ || t == "flowing"@ || t == "smooth"@
    } else {
        t == "mellow"@ || t == "relaxed"@ || t == "laid-back"@ || t == "easy"@
    }
}

/// The era label of a midpoint year, from the fixed decade table.
pub open spec fn era_label_spec(mid_year: int) -> Seq<char> {
    if mid_year <= 1949 {
        "classics"@
    } else if mid_year <= 1959 {
        "50s"@
    } else if mid_year <= 1969 {
        "60s"@
    } else if mid_year <= 1979 {
        "70s"@
    } else if mid_year <= 1989 {
        "80s"@
    } else if mid_year <= 1999 {
        "90s"@
    } else if mid_year <= 2009 {
        "y2k"@
    } else if mid_year <= 2014 {
        "uni years"@
    } else if mid_year <= 2019 {
        "algo era"@
    } else if mid_year <= 2021 {
        "pandemic"@
    } else if mid_year <= 2023 {
        "post-lockdown"@
    } else if mid_year == 2024 {
        "recent"@
    } else {
        "fresh"@
    }
}

/// The widest year span an era descriptor tolerates, wider for older
/// music.
pub open spec fn era_span_cap(mid_year: int) -> int {
    if mid_year <= 1979 {
        30
    } else if mid_year <= 1999 {
        25
    } else if mid_year <= 2009 {
        20
    } else if mid_year <= 2019 {
        15
    } else {
        10
    }
}

/// A dominant-genre descriptor: a histogram key of maximal count that
/// carries at least 35% of the tracks.
pub open spec fn is_genre_token(t: Seq<char>, m: PlaylistMetadata) -> bool {
    &&& m.total_songs > 0
    &&& exists|k: int|
        {
            &&& 0 <= k < m.genre_distribution@.len()
            &&& t == (#[trigger] m.genre_distribution@[k]).0@
            &&& m.genre_distribution@[k].1 * 20 >= m.total_songs * 7
            &&& forall|j: int|
                0 <= j < m.genre_distribution@.len() ==> (
                #[trigger] m.genre_distribution@[j]).1 <= m.genre_distribution@[k].1
        }
}

/// A tempo-mood descriptor for the metadata's average tempo band.
pub open spec fn is_tempo_token(t: Seq<char>, m: PlaylistMetadata) -> bool {
    if m.average_bpm > 130_000 {
        tempo_word_in_band(0, t)
    } else if m.average_bpm >= 100_000 {
        tempo_word_in_band(1, t)
    } else if m.average_bpm > 0 {
        tempo_word_in_band(2, t)
    } else {
        false
    }
}

/// An era descriptor: the decade label of the midpoint year, allowed
/// only when the span fits its era's cap.
pub open spec fn is_era_token(t: Seq<char>, m: PlaylistMetadata) -> bool {
    match m.era_span.0 {
        Some(mn) => match m.era_span.1 {
            Some(mx) => {
                let mid = (mn + mx) / 2;
                &&& mx - mn <= era_span_cap(mid)
                &&& t == era_label_spec(mid)
            },
            None => false,
        },
        None => false,
    }
}

/// Any descriptor the suffix may carry for this metadata.
pub open spec fn is_allowed_token(t: Seq<char>, m: PlaylistMetadata) -> bool {
    is_genre_token(t, m) || is_tempo_token(t, m) || is_era_token(t, m)
}

/// What holds of every generated name: the whole composition, lowercased
/// in one pass, of the base name, the weekday and a gated suffix.
pub open spec fn playlist_name_ok(
    r: Seq<char>,
    base: Seq<char>,
    m: PlaylistMetadata,
    now_epoch: i64,
) -> bool {
    &&& exists|sfx: Seq<char>|
        sfx.len() > 0 && #[trigger] suffix_ok(sfx, m) && r == lower_of(
            base + " "@ + weekday_name_spec(weekday_index(now_epoch)) + " "@ + sfx,
        )
    &&& crate::strings::ascii_lowercase_only(r)
}

/// What holds of every suffix: up to two descriptors from the gated
/// token set, space-separated, ending in one of the fixed nouns.
pub open spec fn suffix_ok(sfx: Seq<char>, m: PlaylistMetadata) -> bool {
    exists|noun: Seq<char>|
        #[trigger] is_noun_word(noun) && {
            ||| sfx == noun
            ||| exists|d1: Seq<char>|
                #[trigger] is_allowed_token(d1, m) && sfx == d1 + " "@ + noun
            ||| exists|d1: Seq<char>, d2: Seq<char>|
                #[trigger] is_allowed_token(d1, m) && #[trigger] is_allowed_token(d2, m) && sfx
                    == d1 + " "@ + d2 + " "@ + noun
        }
}

/// One of the fixed noun words, by index.
fn noun_word(i: usize) -> (r: &'static str)
    ensures
        is_noun_word(r@),
        r@.len() > 0,
{
    if i == 0 {
        proof {
            reveal_strlit("tunes");
        }
        "tunes"
    } else if i == 1 {
        proof {
            reveal_strlit("vibes");
        }
        "vibes"
    } else if i == 2 {
        proof {
            reveal_strlit("jams");
        }
        "jams"
    } else if i == 3 {
        proof {
            reveal_strlit("melodies");
        }
        "melodies"
    } else if i == 4 {
        proof {
            reveal_strlit("grooves");
        }
        "grooves"
    } else if i == 5 {
        proof {
            reveal_strlit("beats");
        }
        "beats"
    } else if i == 6 {
        proof {
            reveal_strlit("rhythms");
        }
        "rhythms"
    } else if i == 7 {
        proof {
            reveal_strlit("sounds");
        }
        "sounds"
    } else if i == 8 {
        proof {
            reveal_strlit("tracks");
        }
        "tracks"
    } else if i == 9 {
        proof {
            reveal_strlit("set");
        }
        "set"
    } else if i == 10 {
        proof {
            reveal_strlit("mix");
        }
        "mix"
    } else if i == 11 {
        proof {
            reveal_strlit("selection");
        }
        "selection"
    } else if i == 12 {
        proof {
            reveal_strlit("session");
        }
        "session"
    } else if i == 13 {
        proof {
            reveal_strlit("collection");
        }
        "collection"
    } else if i == 14 {
        proof {
            reveal_strlit("playlist");
        }
        "playlist"
    } else if i == 15 {
        proof {
            reveal_strlit("rotation");
        }
        "rotation"
    } else if i == 16 {
        proof {
            reveal_strlit("queue");
        }
        "queue"
    } else if i == 17 {
        proof {
            reveal_strlit("lineup");
        }
        "lineup"
    } else if i == 18 {
        proof {
            reveal_strlit("compilation");
        }
        "compilation"
    } else if i == 19 {
        proof {
            reveal_strlit("showcase");
        }
        "showcase"
    } else if i == 20 {
        proof {
            reveal_strlit("edition");
        }
        "edition"
    } else if i == 21 {
        proof {
            reveal_strlit("medley");
        }
        "medley"
    } else if i == 22 {
        proof {
            reveal_strlit("blend");
        }
        "blend"
    } else {
        proof {
            reveal_strlit("fusion");
        }
        "fusion"
    }
}

/// A tempo mood word for the given energy band and random pick.
fn tempo_word(band: u8, i: usize) -> (r: &'static str)
    requires
        band < 3,
    ensures
        tempo_word_in_band(band as int, r@),
{
    if band == 0 {
        if i == 0 {
            "energetic"
        } else if i == 1 {
            "upbeat"
        } else if i == 2 {
            "pumped"
        } else {
            "lively"
        }
    } else if band == 1 {
        if i == 0 {
            "steady"
        } else if i == 1 {
            "cruising"
        } else if i == 2 {
            "flowing"
        } else {
            "smooth"
        }
    } else {
        if i == 0 {
            "mellow"
        } else if i == 1 {
            "relaxed"
        } else if i == 2 {
            "laid-back"
        } else {
            "easy"
        }
    }
}

/// The era label for a midpoint year.
fn era_label(mid_year: i64) -> (r: &'static str)
    ensures
        r@ == era_label_spec(mid_year as int),
{
    if mid_year <= 1949 {
        "classics"
    } else if mid_year <= 1959 {
        "50s"
    } else if mid_year <= 1969 {
        "60s"
    } else if mid_year <= 1979 {
        "70s"
    } else if mid_year <= 1989 {
        "80s"
    } else if mid_year <= 1999 {
        "90s"
    } else if mid_year <= 2009 {
        "y2k"
    } else if mid_year <= 2014 {
        "uni years"
    } else if mid_year <= 2019 {
        "algo era"
    } else if mid_year <= 2021 {
        "pandemic"
    } else if mid_year <= 2023 {
        "post-lockdown"
    } else if mid_year == 2024 {
        "recent"
    } else {
        "fresh"
    }
}

/// The widest year span an era descriptor tolerates.
fn max_acceptable_span(mid_year: i64) -> (r: i64)
    ensures
        r as int == era_span_cap(mid_year as int),
{
    if mid_year <= 1979 {
        30
    } else if mid_year <= 1999 {
        25
    } else if mid_year <= 2009 {
        20
    } else if mid_year <= 2019 {
        15
    } else {
        10
    }
}

impl PlaylistNaming {
    /// The playlist name: the lowercased base name, the weekday, and a
    /// non-empty suffix of gated descriptors and a noun.
    pub fn generate_playlist_name(
        name: String,
        metadata: &PlaylistMetadata,
        now_epoch: i64,
    ) -> (r: String)
        requires
            now_epoch >= 0,
        ensures
            playlist_name_ok(r@, name@, *metadata, now_epoch),
    {
        let mut composed = name;
        composed.append(" ");
        composed.append(weekday_name(now_epoch));
        composed.append(" ");
        let sfx = Self::generate_suffix(metadata);
        composed.append(sfx.as_str());
        let out = lowercase(composed.as_str());
        proof {
            let w: Seq<char> = sfx@;
            assert(w.len() > 0 && suffix_ok(w, *metadata));
        }
        out
    }

    /// A non-empty suffix: up to two randomly ordered descriptors from
    /// the gated token set (dominant genre at 35% of the tracks, a tempo
    /// mood for the average-tempo band, an era label when the span fits
    /// its era's cap) and one of the fixed nouns.
    pub fn generate_suffix(metadata: &PlaylistMetadata) -> (r: String)
        ensures
            r@.len() > 0,
            suffix_ok(r@, *metadata),
    {
        let mut tokens: Vec<String> = Vec::new();
        // dominant genre, when it carries at least 35% of the tracks
        let hn = metadata.genre_distribution.len();
        if metadata.total_songs > 0 && hn > 0 {
            let mut mi: usize = 0;
            let mut k: usize = 1;
            while k < hn
                invariant
                    hn == metadata.genre_distribution@.len(),
                    mi < k <= hn,
                    hn > 0,
                    forall|j: int|
                        0 <= j < k ==> (#[trigger] metadata.genre_distribution@[j]).1
                            <= metadata.genre_distribution@[mi as int].1,
                decreases hn - k,
            {
                if metadata.genre_distribution[k].1 > metadata.genre_distribution[mi].1 {
                    mi = k;
                }
                k = k + 1;
            }
            let count = metadata.genre_distribution[mi].1;
            if count as u128 * 20 >= metadata.total_songs as u128 * 7 {
                let g = metadata.genre_distribution[mi].0.clone();
                proof {
                    assert(is_genre_token(g@, *metadata)) by {
                        assert(0 <= mi < metadata.genre_distribution@.len() && g@ == (
                        metadata.genre_distribution@[mi as int]).0@
                            && metadata.genre_distribution@[mi as int].1 * 20
                            >= metadata.total_songs * 7);
                    }
                }
                tokens.push(g);
                proof {
                    assert(forall|t: int|
                        0 <= t < tokens@.len() ==> is_allowed_token(
                            (#[trigger] tokens@[t])@,
                            *metadata,
                        ));
                }
            }
        }
        // tempo mood from the average tempo
        if metadata.average_bpm > 130_000 {
            let i = random_below(4);
            let w = tempo_word(0, i).to_owned();
            proof {
                assert(is_tempo_token(w@, *metadata));
            }
            tokens.push(w);
        } else if metadata.average_bpm >= 100_000 {
            let i = random_below(4);
            let w = tempo_word(1, i).to_owned();
            proof {
                assert(is_tempo_token(w@, *metadata));
            }
            tokens.push(w);
        } else if metadata.average_bpm > 0 {
            let i = random_below(4);
            let w = tempo_word(2, i).to_owned();
            proof {
                assert(is_tempo_token(w@, *metadata));
            }
            tokens.push(w);
        }
        // era label, when the span is plausible for its era
        match metadata.era_span.0 {
            Some(mn) => match metadata.era_span.1 {
                Some(mx) => {
                    let span: i64 = mx as i64 - mn as i64;
                    let mid: i64 = (mn as i64 + mx as i64) / 2;
                    if span <= max_acceptable_span(mid) {
                        let e = era_label(mid).to_owned();
                        proof {
                            assert(is_era_token(e@, *metadata));
                        }
                        tokens.push(e);
                    }
                },
                None => {},
            },
            None => {},
        }
        proof {
            assert(forall|t: int|
                0 <= t < tokens@.len() ==> is_allowed_token(
                    (#[trigger] tokens@[t])@,
                    *metadata,
                ));
        }
        // pick up to two descriptors in random order
        let mut descriptors: Vec<String> = Vec::new();
        let mut rest = tokens;
        while descriptors.len() < 2 && rest.len() > 0
            invariant
                descriptors@.len() <= 2,
                forall|t: int|
                    0 <= t < rest@.len() ==> is_allowed_token((#[trigger] rest@[t])@, *metadata),
                forall|t: int|
                    0 <= t < descriptors@.len() ==> is_allowed_token(
                        (#[trigger] descriptors@[t])@,
                        *metadata,
                    ),
            decreases rest@.len(),
        {
            let j = random_below(rest.len());
            let ghost rest0 = rest@;
            let t = rest.remove(j);
            descriptors.push(t);
            proof {
                assert(forall|w: int|
                    0 <= w < rest@.len() ==> rest@[w] == (if w < j as int {
                        rest0[w]
                    } else {
                        rest0[w + 1]
                    }));
            }
        }
        // compose: descriptors, then a noun
        let ni = random_below(24);
        let noun = noun_word(ni);
        if descriptors.len() == 0 {
            let s = noun.to_owned();
            proof {
                assert(suffix_ok(s@, *metadata)) by {
                    assert(is_noun_word(noun@) && s@ == noun@);
                }
            }
            s
        } else if descriptors.len() == 1 {
            let mut s = descriptors[0].clone();
            s.append(" ");
            s.append(noun);
            proof {
                let d1 = descriptors@[0]@;
                assert(is_allowed_token(d1, *metadata) && s@ == d1 + " "@ + noun@);
                assert(is_noun_word(noun@));
                assert(suffix_ok(s@, *metadata));
                assert(s@.len() > 0) by {
                    reveal_strlit(" ");
                }
            }
            s
        } else {
            let mut s = descriptors[0].clone();
            s.append(" ");
            s.append(descriptors[1].as_str());
            s.append(" ");
            s.append(noun);
            proof {
                let d1 = descriptors@[0]@;
                let d2 = descriptors@[1]@;
                assert(is_allowed_token(d1, *metadata) && is_allowed_token(d2, *metadata) && s@
                    == d1 + " "@ + d2 + " "@ + noun@);
                assert(is_noun_word(noun@));
                assert(suffix_ok(s@, *metadata));
                assert(s@.len() > 0) by {
                    reveal_strlit(" ");
                }
            }
            s
        }
    }
}

} // verus!
