//! The result values of playlist generation.

use vstd::prelude::*;

verus! {

use crate::models::Song;

/// Why a track was chosen for its position.
#[derive(Debug, Clone, Copy, PartialEq, Eq, Structural)]
pub enum SelectionReason {
    /// The best-scoring candidate that passed every hard constraint.
    BestCandidate,
    /// A constraint-violating pick taken only when the pool was exhausted.
    Fallback,
}

/// A track in a generated playlist, with diagnostics from the moment it
/// was appended.  Scores are micro-units (1_000_000 = 1.0); the quality
/// contribution may be negative.
#[derive(Debug, Clone)]
pub struct PlaylistSong {
    pub song: Song,
    pub transition_score: Option<i64>,
    pub quality_contribution: Option<i64>,
    pub selection_reason: SelectionReason,
}

impl PlaylistSong {
    /// A playlist entry carrying its selection diagnostics.
    pub fn with_metadata(
        song: Song,
        transition_score: i64,
        quality_contribution: i64,
        selection_reason: SelectionReason,
    ) -> (r: PlaylistSong)
        ensures
            r.song == song,
            r.transition_score == Some(transition_score),
            r.quality_contribution == Some(quality_contribution),
            r.selection_reason == selection_reason,
    {
        PlaylistSong {
            song,
            transition_score: Some(transition_score),
            quality_contribution: Some(quality_contribution),
            selection_reason,
        }
    }
}

/// Aggregate statistics of a track set.  Averages are milli-units
/// (1000 = 1.0); the genre histogram maps each lowercased genre, in order
/// of first appearance, to the number of tracks carrying it.
#[derive(Debug)]
pub struct PlaylistMetadata {
    /// Summed known durations, in seconds.
    pub total_duration: u64,
    pub total_songs: usize,
    /// Mean of the known tempos, in milli-BPM; 0 when none is known.
    pub average_bpm: u64,
    /// Smallest and largest known tempo; (0, 0) when none is known.
    pub bpm_range: (u32, u32),
    pub genre_distribution: Vec<(String, usize)>,
    /// Number of distinct artist names.
    pub artist_count: usize,
    /// Smallest and largest known release year, if any track has one.
    pub era_span: (Option<u32>, Option<u32>),
    /// Mean of the known play counts over all tracks, in milli-plays.
    pub avg_popularity: u64,
}

/// A generated playlist: its name, the ordered tracks with diagnostics,
/// the overall quality score in micro-units, the aggregate metadata, and
/// the profile name it was generated for.
#[derive(Debug)]
pub struct Playlist {
    pub name: String,
    pub songs: Vec<PlaylistSong>,
    pub quality_score: i64,
    pub metadata: PlaylistMetadata,
    pub base_name_pattern: String,
}

impl Playlist {
    /// The ordered track identifiers: together with the name, the
    /// minimal contract the publishing collaborator needs.
    pub fn track_ids(&self) -> (r: Vec<String>)
        ensures
            r@.len() == self.songs@.len(),
            forall|i: int| 0 <= i < r@.len() ==> r@[i]@ == (#[trigger] self.songs@[i]).song.id@,
    {
        let n = self.songs.len();
        let mut r: Vec<String> = Vec::new();
        let mut i: usize = 0;
        while i < n
            invariant
                i <= n,
                n == self.songs@.len(),
                r@.len() == i,
                forall|t: int|
                    0 <= t < i ==> r@[t]@ == (#[trigger] self.songs@[t]).song.id@,
            decreases n - i,
        {
            let id = self.songs[i].song.id.clone();
            r.push(id);
            i = i + 1;
        }
        r
    }
}

/// The bare tracks of a playlist, in order.
pub open spec fn playlist_song_seq(songs: Seq<PlaylistSong>) -> Seq<Song> {
    songs.map_values(|ps: PlaylistSong| ps.song)
}

} // verus!
