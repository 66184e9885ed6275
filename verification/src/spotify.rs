//! Decisions of the catalog workflow: building search queries and playlist
//! titles, choosing the best candidate for a track, and planning playlist
//! assignments.  The caller owns authentication, paging and every network
//! call; it hands in fetched candidate lists and playlist contents as plain
//! values.

use crate::matcher::{track_score_of, MatchParams, TrackMatcher};
use crate::state::{contains_name, contains_str, strs_view, tracks_view, BlogPost, State, StateModel};
use crate::text::{chars_vec, string_from_chars};
use crate::types::{opt_view, Track, TrackModel};
use vstd::prelude::*;

verus! {

// ---------------------------------------------------------------------------
// Query building
// ---------------------------------------------------------------------------

/// The text with every `%` expanded to `%25`, so it survives the search
/// endpoint's query parsing.
pub open spec fn pct_escape(s: Seq<char>) -> Seq<char>
    decreases s.len(),
{
    if s.len() == 0 {
        Seq::empty()
    } else {
        pct_escape(s.drop_last()) + (if s.last() == '%' {
            seq!['%', '2', '5']
        } else {
            seq![s.last()]
        })
    }
}

fn pct_escape_exec(s: &str) -> (r: Vec<char>)
    ensures
        r@ == pct_escape(s@),
{
    let cs = chars_vec(s);
    let mut r: Vec<char> = Vec::new();
    let mut i: usize = 0;
    while i < cs.len()
        invariant
            cs@ == s@,
            i <= cs@.len(),
            r@ == pct_escape(s@.take(i as int)),
        decreases cs@.len() - i,
    {
        let c = cs[i];
        proof {
            assert(s@.take(i + 1).drop_last() =~= s@.take(i as int));
            assert(s@.take(i + 1).last() == s@[i as int]);
        }
        if c == '%' {
            r.push('%');
            r.push('2');
            r.push('5');
        } else {
            r.push(c);
        }
        proof {
            assert(r@ =~= pct_escape(s@.take(i + 1)));
        }
        i = i + 1;
    }
    proof {
        assert(s@.take(s@.len() as int) =~= s@);
    }
    r
}

/// The search query for a track: `track:<title> artist:<artist>`, with
/// percent signs escaped in both fields.
pub open spec fn search_query_spec(title: Seq<char>, artist: Seq<char>) -> Seq<char> {
    "track:"@ + pct_escape(title) + " artist:"@ + pct_escape(artist)
}

/// Build the catalog search query for a title and artist.
pub fn search_query(title: &str, artist: &str) -> (r: String)
    ensures
        r@ == search_query_spec(title@, artist@),
{
    let mut v = chars_vec("track:");
    let mut t = pct_escape_exec(title);
    v.append(&mut t);
    let mut mid = chars_vec(" artist:");
    v.append(&mut mid);
    let mut a = pct_escape_exec(artist);
    v.append(&mut a);
    proof {
        assert(v@ =~= search_query_spec(title@, artist@));
    }
    string_from_chars(&v)
}

/// The display title of a collection's playlist:
/// `Bandcamp - <published date> - <collection title>`.
pub open spec fn playlist_title_spec(info: crate::state::BlogModel) -> Seq<char> {
    "Bandcamp - "@ + info.published.ymd_spec() + seq![' ', '-', ' '] + info.title
}

/// Build the display title of a collection's playlist.
pub fn playlist_title(info: &BlogPost) -> (r: String)
    ensures
        r@ == playlist_title_spec(info@),
{
    let mut v = chars_vec("Bandcamp - ");
    let mut d = info.published.format_ymd();
    v.append(&mut d);
    v.push(' ');
    v.push('-');
    v.push(' ');
    let mut t = chars_vec(info.title.as_str());
    v.append(&mut t);
    proof {
        assert(v@ =~= playlist_title_spec(info@));
    }
    string_from_chars(&v)
}

// ---------------------------------------------------------------------------
// Choosing a candidate
// ---------------------------------------------------------------------------

/// Choose among fetched candidates for a track: a track that already
/// carries a resolved catalog id is never re-scored; otherwise the candidate
/// with the greatest gated composite score wins, ties keeping the
/// first-seen candidate.  `None` defers resolution to a future run.
pub fn select_spotify_match(track: &Track, candidates: &Vec<MatchParams>) -> (r: Option<
    (usize, u64),
>)
    requires
        track@.duration > 0,
    ensures
        track@.spotify_id is Some ==> r is None,
        r is None ==> track@.spotify_id is Some || forall|j: int|
            0 <= j < candidates@.len() ==> track_score_of(track@, #[trigger] candidates@[j]@)
                is None,
        r matches Some(best) ==> {
            &&& track@.spotify_id is None
            &&& best.0 < candidates@.len()
            &&& track_score_of(track@, candidates@[best.0 as int]@) == Some(best.1)
            &&& forall|j: int|
                0 <= j < candidates@.len() ==> (track_score_of(
                    track@,
                    #[trigger] candidates@[j]@,
                ) matches Some(v) ==> v <= best.1)
            &&& forall|j: int|
                0 <= j < best.0 ==> !(track_score_of(track@, #[trigger] candidates@[j]@)
                    matches Some(v) && v >= best.1)
        },
{
    if track.spotify_id.is_some() {
        return None;
    }
    let m = TrackMatcher::new(track);
    let mut best: Option<(usize, u64)> = None;
    let mut i: usize = 0;
    while i < candidates.len()
        invariant
            m.wf(),
            m.subject@ == track@,
            i <= candidates@.len(),
            best is None ==> forall|j: int|
                0 <= j < i ==> track_score_of(track@, #[trigger] candidates@[j]@) is None,
            best matches Some(b) ==> {
                &&& b.0 < i
                &&& track_score_of(track@, candidates@[b.0 as int]@) == Some(b.1)
                &&& forall|j: int|
                    0 <= j < i ==> (track_score_of(track@, #[trigger] candidates@[j]@)
                        matches Some(v) ==> v <= b.1)
                &&& forall|j: int|
                    0 <= j < b.0 ==> !(track_score_of(track@, #[trigger] candidates@[j]@)
                        matches Some(v) && v >= b.1)
            },
        decreases candidates@.len() - i,
    {
        let sc = m.score_params(&candidates[i]);
        match sc {
            Some(v) => {
                match best {
                    Some(b) => {
                        if v > b.1 {
                            best = Some((i, v));
                        }
                    },
                    None => {
                        best = Some((i, v));
                    },
                }
            },
            None => {},
        }
        i = i + 1;
    }
    best
}

/// Record a freshly resolved catalog id on a track.
pub fn assign_spotify_id(track: &mut Track, id: String)
    ensures
        final(track)@ == (TrackModel { spotify_id: Some(id@), ..old(track)@ }),
{
    track.spotify_id = Some(id);
    proof {
        assert(final(track)@ =~= (TrackModel { spotify_id: Some(id@), ..old(track)@ }));
    }
}

// ---------------------------------------------------------------------------
// Playlist assignment
// ---------------------------------------------------------------------------

/// Whether a track needs its playlist assignment set to this playlist: it is
/// resolved, and not already assigned to exactly this playlist.
pub open spec fn track_needs_assign(t: TrackModel, pid: Seq<char>) -> bool {
    t.spotify_id is Some && t.spotify_playlist_id != Some(pid)
}

/// The tracks with this playlist recorded on every resolved track.
pub open spec fn assigned_tracks_spec(tracks: Seq<TrackModel>, pid: Seq<char>) -> Seq<TrackModel> {
    tracks.map_values(
        |t: TrackModel|
            if track_needs_assign(t, pid) {
                TrackModel { spotify_playlist_id: Some(pid), ..t }
            } else {
                t
            },
    )
}

/// The catalog ids that must be added to the playlist: each newly assigned
/// track's id that the playlist does not already contain, in track order.
pub open spec fn additions_spec(
    tracks: Seq<TrackModel>,
    pid: Seq<char>,
    current: Seq<Seq<char>>,
) -> Seq<Seq<char>>
    decreases tracks.len(),
{
    if tracks.len() == 0 {
        seq![]
    } else {
        let rest = additions_spec(tracks.drop_last(), pid, current);
        let t = tracks.last();
        if track_needs_assign(t, pid) && (t.spotify_id matches Some(s) && !contains_name(
            current,
            s,
        )) {
            rest.push(t.spotify_id->0)
        } else {
            rest
        }
    }
}

/// Whether any track needs assignment.
pub open spec fn any_needs_assign(tracks: Seq<TrackModel>, pid: Seq<char>) -> bool {
    exists|i: int| 0 <= i < tracks.len() && track_needs_assign(#[trigger] tracks[i], pid)
}

impl State {
    /// Record the playlist on every resolved track and compute which catalog
    /// ids still have to be added to it; `current` lists the ids the
    /// playlist already holds.  Both dirty flags are set when anything
    /// changed.
    pub fn plan_playlist_additions(&mut self, playlist_id: &String, current: &Vec<String>) -> (r:
        Vec<String>)
        ensures
            final(self)@ == (StateModel {
                tracks: assigned_tracks_spec(old(self)@.tracks, playlist_id@),
                need_save: old(self)@.need_save || any_needs_assign(old(self)@.tracks, playlist_id@),
                need_save_tracks: old(self)@.need_save_tracks || any_needs_assign(
                    old(self)@.tracks,
                    playlist_id@,
                ),
                ..old(self)@
            }),
            strs_view(r@) == additions_spec(old(self)@.tracks, playlist_id@, strs_view(current@)),
    {
        let ghost tv = tracks_view(self.tracks@);
        let ghost pid = playlist_id@;
        let ghost cur = strs_view(current@);
        let mut new_tracks: Vec<Track> = Vec::new();
        let mut adds: Vec<String> = Vec::new();
        let mut updated = false;
        let mut i: usize = 0;
        proof {
            assert(tv.take(0) =~= Seq::<TrackModel>::empty());
            assert(tracks_view(new_tracks@) =~= assigned_tracks_spec(tv.take(0), pid));
            assert(strs_view(adds@) =~= additions_spec(tv.take(0), pid, cur));
        }
        while i < self.tracks.len()
            invariant
                tv == tracks_view(self.tracks@),
                pid == playlist_id@,
                cur == strs_view(current@),
                i <= self.tracks@.len(),
                tracks_view(new_tracks@) == assigned_tracks_spec(tv.take(i as int), pid),
                strs_view(adds@) == additions_spec(tv.take(i as int), pid, cur),
                updated == exists|j: int|
                    0 <= j < i && track_needs_assign(#[trigger] tv[j], pid),
            decreases self.tracks@.len() - i,
        {
            let t_ref = &self.tracks[i];
            proof {
                assert(tv[i as int] == self.tracks@[i as int]@);
                assert(tv.take(i + 1).drop_last() =~= tv.take(i as int));
                assert(tv.take(i + 1).last() == tv[i as int]);
            }
            let assigned_here = match &t_ref.spotify_playlist_id {
                Some(tp) => *tp == *playlist_id,
                None => false,
            };
            let needs = t_ref.spotify_id.is_some() && !assigned_here;
            proof {
                assert(needs == track_needs_assign(tv[i as int], pid));
            }
            let mut t = t_ref.duplicate();
            if needs {
                t.spotify_playlist_id = Some(playlist_id.clone());
                updated = true;
                match &t.spotify_id {
                    Some(spid) => {
                        if !contains_str(current, spid) {
                            adds.push(spid.clone());
                        }
                    },
                    None => {},
                }
                proof {
                    assert(t@ =~= (TrackModel { spotify_playlist_id: Some(pid), ..tv[i as int] }));
                }
            }
            let ghost t_final = t@;
            let ghost nt_old = new_tracks@;
            new_tracks.push(t);
            proof {
                assert(tracks_view(nt_old).len() == i);
                assert(new_tracks@.len() == i + 1);
                assert(new_tracks@[i as int]@ == t_final);
                assert(assigned_tracks_spec(tv.take(i + 1), pid)[i as int] == t_final) by {
                    assert(tv.take(i + 1)[i as int] == tv[i as int]);
                }
                assert forall|k: int| 0 <= k < i implies tracks_view(new_tracks@)[k]
                    == assigned_tracks_spec(tv.take(i + 1), pid)[k] by {
                    assert(new_tracks@[k] == nt_old[k]);
                    assert(tracks_view(nt_old)[k] == assigned_tracks_spec(tv.take(i as int), pid)[k]);
                    assert(tv.take(i as int)[k] == tv[k]);
                    assert(tv.take(i + 1)[k] == tv[k]);
                }
                assert(tracks_view(new_tracks@) =~= assigned_tracks_spec(tv.take(i + 1), pid));
                assert(strs_view(adds@) =~= additions_spec(tv.take(i + 1), pid, cur));
            }
            i = i + 1;
        }
        proof {
            assert(tv.take(self.tracks@.len() as int) =~= tv);
        }
        self.tracks = new_tracks;
        if updated {
            self.need_save = true;
            self.need_save_tracks = true;
        }
        proof {
            assert(final(self)@ =~= (StateModel {
                tracks: assigned_tracks_spec(old(self)@.tracks, playlist_id@),
                need_save: old(self)@.need_save || any_needs_assign(old(self)@.tracks, playlist_id@),
                need_save_tracks: old(self)@.need_save_tracks || any_needs_assign(
                    old(self)@.tracks,
                    playlist_id@,
                ),
                ..old(self)@
            }));
        }
        adds
    }

    /// Adopt an existing playlist's id when it is concrete and differs from
    /// the recorded one, marking the collection dirty on change.
    pub fn adopt_playlist_id(&mut self, id: &Option<String>) -> (changed: bool)
        ensures
            changed == (*id is Some && opt_view(old(self).spotify_playlist_id) != opt_view(*id)),
            final(self)@ == (StateModel {
                spotify_playlist_id: if changed {
                    opt_view(*id)
                } else {
                    old(self)@.spotify_playlist_id
                },
                need_save: old(self)@.need_save || changed,
                ..old(self)@
            }),
    {
        let changed = crate::types::update(&mut self.spotify_playlist_id, id);
        if changed {
            self.need_save = true;
        }
        proof {
            assert(final(self)@ =~= (StateModel {
                spotify_playlist_id: if changed {
                    opt_view(*id)
                } else {
                    old(self)@.spotify_playlist_id
                },
                need_save: old(self)@.need_save || changed,
                ..old(self)@
            }));
        }
        changed
    }

    /// Record a freshly created playlist, marking the collection dirty.
    pub fn set_new_playlist(&mut self, id: String)
        ensures
            final(self)@ == (StateModel {
                spotify_playlist_id: Some(id@),
                need_save: true,
                ..old(self)@
            }),
    {
        self.spotify_playlist_id = Some(id);
        self.need_save = true;
        proof {
            assert(final(self)@ =~= (StateModel {
                spotify_playlist_id: final(self)@.spotify_playlist_id,
                need_save: true,
                ..old(self)@
            }));
        }
    }
}

} // verus!
