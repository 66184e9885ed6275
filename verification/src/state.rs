//! The reconciliation store: one JSON-backed record per source collection,
//! with load-or-create, field-preserving merge (rehydration), dirty-tracked
//! lazy writes, and a janitor that plans the removal of orphaned or
//! duplicated on-disk files.
//!
//! All disk access stays with the caller: loads come in as `Option` values,
//! existence checks as lists of present file names, and writes go out as
//! plans naming the files to write or delete.

use crate::text::{chars_vec, string_from_chars};
use crate::types::{opt_str_eq, opt_view, rehydrate_spec, Album, Artist, DateTime, Track, TrackModel};
use vstd::prelude::*;

verus! {

/// Ghost model of a [`BlogPost`].
#[verifier::ext_equal]
pub ghost struct BlogModel {
    pub title: Seq<char>,
    pub url: Seq<char>,
    pub published: DateTime,
    pub modified: DateTime,
    pub description: Seq<char>,
    pub tracks: Seq<TrackModel>,
    pub raw: Seq<Seq<char>>,
}

/// The sequence of track models of a track vector.
pub open spec fn tracks_view(v: Seq<Track>) -> Seq<TrackModel> {
    v.map_values(|t: Track| t@)
}

/// The sequence views of a list of strings.
pub open spec fn strs_view(v: Seq<String>) -> Seq<Seq<char>> {
    v.map_values(|s: String| s@)
}

/// One scraped source collection: display metadata plus its track list.
#[derive(Debug)]
pub struct BlogPost {
    pub title: String,
    pub url: String,
    pub published: DateTime,
    pub modified: DateTime,
    pub description: String,
    pub tracks: Vec<Track>,
    /// The raw scraped player payloads, kept only for the record.
    pub raw: Vec<String>,
}

impl View for BlogPost {
    type V = BlogModel;

    open spec fn view(&self) -> BlogModel {
        BlogModel {
            title: self.title@,
            url: self.url@,
            published: self.published,
            modified: self.modified,
            description: self.description@,
            tracks: tracks_view(self.tracks@),
            raw: strs_view(self.raw@),
        }
    }
}

/// Ghost model of a [`State`].
#[verifier::ext_equal]
pub ghost struct StateModel {
    pub blog_info: BlogModel,
    pub tracks: Seq<TrackModel>,
    pub spotify_playlist_id: Option<Seq<char>>,
    pub root_dir: Seq<char>,
    pub need_save: bool,
    pub need_save_tracks: bool,
}

/// The per-collection record: collection metadata, the reconciled track
/// list, the assigned playlist, and two dirty flags that gate saving.
#[derive(Debug)]
pub struct State {
    pub blog_info: BlogPost,
    pub tracks: Vec<Track>,
    pub spotify_playlist_id: Option<String>,
    pub root_dir: String,
    /// Collection-level dirty flag; never persisted.
    pub need_save: bool,
    /// Track-level dirty flag; never persisted.
    pub need_save_tracks: bool,
}

impl View for State {
    type V = StateModel;

    open spec fn view(&self) -> StateModel {
        StateModel {
            blog_info: self.blog_info@,
            tracks: tracks_view(self.tracks@),
            spotify_playlist_id: opt_view(self.spotify_playlist_id),
            root_dir: self.root_dir@,
            need_save: self.need_save,
            need_save_tracks: self.need_save_tracks,
        }
    }
}

// ---------------------------------------------------------------------------
// Deterministic paths
// ---------------------------------------------------------------------------

/// `<root>/<published date> - <collection title>`, the collection's
/// directory.
pub open spec fn dirname_spec(info: BlogModel, dir: Seq<char>) -> Seq<char> {
    dir + seq!['/'] + info.published.ymd_spec() + seq![' ', '-', ' '] + info.title
}

/// The collection record's path inside the collection directory.
pub open spec fn filename_spec(info: BlogModel, dir: Seq<char>) -> Seq<char> {
    dirname_spec(info, dir) + seq!['/'] + "info.json"@
}

/// The collection's directory under the given root.
pub fn dirname_for(info: &BlogPost, dir: &str) -> (r: String)
    ensures
        r@ == dirname_spec(info@, dir@),
{
    let mut v = chars_vec(dir);
    v.push('/');
    let mut d = info.published.format_ymd();
    v.append(&mut d);
    v.push(' ');
    v.push('-');
    v.push(' ');
    let mut t = chars_vec(info.title.as_str());
    v.append(&mut t);
    proof {
        assert(v@ =~= dirname_spec(info@, dir@));
    }
    string_from_chars(&v)
}

/// The collection record's path under the given root.
pub fn filename_for(info: &BlogPost, dir: &str) -> (r: String)
    ensures
        r@ == filename_spec(info@, dir@),
{
    let base = dirname_for(info, dir);
    let mut v = chars_vec(base.as_str());
    v.push('/');
    let mut n = chars_vec("info.json");
    v.append(&mut n);
    proof {
        assert(v@ =~= filename_spec(info@, dir@));
    }
    string_from_chars(&v)
}

// ---------------------------------------------------------------------------
// Load or create
// ---------------------------------------------------------------------------

/// What loading-or-creating yields: a loaded record keeps its accumulated
/// tracks and playlist assignment but has its display metadata overwritten
/// by the fresh fetch and is marked dirty; otherwise a fresh empty record.
pub open spec fn get_or_create_spec(
    info: BlogModel,
    dir: Seq<char>,
    loaded: Option<StateModel>,
) -> StateModel {
    match loaded {
        Some(prev) => StateModel {
            blog_info: info,
            root_dir: dir,
            need_save: true,
            ..prev
        },
        None => StateModel {
            blog_info: info,
            tracks: seq![],
            spotify_playlist_id: None,
            root_dir: dir,
            need_save: true,
            need_save_tracks: true,
        },
    }
}

/// The model of an optional loaded state.
pub open spec fn opt_state_view(o: &Option<State>) -> Option<StateModel> {
    match *o {
        Some(ref s) => Some(s@),
        None => None,
    }
}

impl State {
    /// A fresh record for a collection never seen before.
    pub fn new(info: BlogPost, dir: &str) -> (r: State)
        ensures
            r@ == get_or_create_spec(info@, dir@, None),
    {
        let r = State {
            blog_info: info,
            tracks: Vec::new(),
            spotify_playlist_id: None,
            root_dir: dir.to_owned(),
            need_save: true,
            need_save_tracks: true,
        };
        proof {
            assert(r@ =~= get_or_create_spec(r.blog_info@, dir@, None));
        }
        r
    }

    /// Adopt a previously persisted record, if one loaded, overwriting its
    /// display metadata with the fresh fetch; start fresh otherwise.  The
    /// caller loads the record at [`filename_for`] and afterwards
    /// rehydrates the tracks and runs the janitor.
    pub fn try_get_or_create(info: BlogPost, dir: &str, loaded: Option<State>) -> (r: State)
        ensures
            r@ == get_or_create_spec(info@, dir@, opt_state_view(&loaded)),
    {
        match loaded {
            Some(prev) => {
                let r = State {
                    blog_info: info,
                    tracks: prev.tracks,
                    spotify_playlist_id: prev.spotify_playlist_id,
                    root_dir: dir.to_owned(),
                    need_save: true,
                    need_save_tracks: prev.need_save_tracks,
                };
                proof {
                    assert(r@ =~= get_or_create_spec(r.blog_info@, dir@, Some(prev@)));
                }
                r
            },
            None => State::new(info, dir),
        }
    }

    /// The collection record's path.
    pub fn filename(&self) -> (r: String)
        ensures
            r@ == filename_spec(self@.blog_info, self@.root_dir),
    {
        filename_for(&self.blog_info, self.root_dir.as_str())
    }

    /// The collection's directory.
    pub fn dirname(&self) -> (r: String)
        ensures
            r@ == dirname_spec(self@.blog_info, self@.root_dir),
    {
        dirname_for(&self.blog_info, self.root_dir.as_str())
    }

    /// Mark the collection-level half dirty.
    pub fn need_save(&mut self)
        ensures
            final(self)@ == (StateModel { need_save: true, ..old(self)@ }),
    {
        self.need_save = true;
        proof {
            assert(final(self)@ =~= StateModel { need_save: true, ..old(self)@ });
        }
    }

    /// Mark the track-level half dirty.
    pub fn need_save_tracks(&mut self)
        ensures
            final(self)@ == (StateModel { need_save_tracks: true, ..old(self)@ }),
    {
        self.need_save_tracks = true;
        proof {
            assert(final(self)@ =~= StateModel { need_save_tracks: true, ..old(self)@ });
        }
    }
}

// ---------------------------------------------------------------------------
// Rehydration
// ---------------------------------------------------------------------------

/// The model of an optional loaded track.
pub open spec fn opt_track_view(o: Option<Track>) -> Option<TrackModel> {
    match o {
        Some(t) => Some(t@),
        None => None,
    }
}

/// The models of a list of optional loaded tracks.
pub open spec fn opt_tracks_view(v: Seq<Option<Track>>) -> Seq<Option<TrackModel>> {
    v.map_values(|o: Option<Track>| opt_track_view(o))
}

/// Each fresh track merged with its prior on-disk record, where one loaded;
/// tracks without a prior record stay as scraped.
pub open spec fn rehydrate_all_spec(
    fresh: Seq<TrackModel>,
    prev: Seq<Option<TrackModel>>,
    mp3: Seq<bool>,
) -> Seq<TrackModel> {
    Seq::new(
        fresh.len(),
        |i: int|
            match prev[i] {
                Some(p) => rehydrate_spec(fresh[i], p, mp3[i]),
                None => fresh[i],
            },
    )
}

impl State {
    /// Rebuild the track list from the freshly scraped tracks, merging each
    /// with its prior on-disk record where one loaded.  `loaded[i]` is the
    /// caller's load of the fresh track's metadata file, and `mp3_exists[i]`
    /// says whether its media file is already on disk.
    pub fn rehydrate_tracks(&mut self, loaded: Vec<Option<Track>>, mp3_exists: &Vec<bool>)
        requires
            old(self)@.blog_info.tracks.len() == loaded@.len(),
            old(self)@.blog_info.tracks.len() == mp3_exists@.len(),
        ensures
            final(self)@ == (StateModel {
                tracks: rehydrate_all_spec(
                    old(self)@.blog_info.tracks,
                    opt_tracks_view(loaded@),
                    mp3_exists@,
                ),
                ..old(self)@
            }),
    {
        let ghost target = rehydrate_all_spec(
            self@.blog_info.tracks,
            opt_tracks_view(loaded@),
            mp3_exists@,
        );
        let mut loaded = loaded;
        let ghost loaded0 = loaded@;
        let mut tracks: Vec<Track> = Vec::new();
        let mut i: usize = 0;
        let n = self.blog_info.tracks.len();
        while i < n
            invariant
                n == self.blog_info.tracks@.len(),
                loaded0.len() == n,
                mp3_exists@.len() == n,
                i <= n,
                loaded@ == loaded0.skip(i as int),
                target == rehydrate_all_spec(
                    tracks_view(self.blog_info.tracks@),
                    opt_tracks_view(loaded0),
                    mp3_exists@,
                ),
                tracks_view(tracks@) == target.take(i as int),
            decreases n - i,
        {
            let mut fresh = self.blog_info.tracks[i].duplicate();
            let prev = loaded.remove(0);
            proof {
                assert(loaded0.skip(i as int)[0] == loaded0[i as int]);
                assert(loaded0.skip(i as int).remove(0) =~= loaded0.skip(i + 1));
                assert(opt_tracks_view(loaded0)[i as int] == opt_track_view(loaded0[i as int]));
            }
            let ghost fresh0 = fresh@;
            let ghost tracks_old = tracks@;
            proof {
                assert(target.len() == n);
                assert(tracks_view(tracks_old).len() == i);
                assert(tracks_old.len() == i);
            }
            match prev {
                Some(t) => {
                    let mp3 = mp3_exists[i];
                    proof {
                        assert(opt_track_view(loaded0[i as int]) == Some(t@));
                    }
                    fresh.rehydrate(t, mp3);
                    proof {
                        assert(fresh@ == rehydrate_spec(fresh0, t@, mp3_exists@[i as int]));
                        assert(target[i as int] == fresh@);
                    }
                    tracks.push(fresh);
                },
                None => {
                    proof {
                        assert(opt_track_view(loaded0[i as int]) is None);
                        assert(target[i as int] == fresh@);
                    }
                    tracks.push(fresh);
                },
            }
            proof {
                assert(tracks@.len() == i + 1);
                assert(tracks@[i as int]@ == target[i as int]);
                assert forall|k: int| 0 <= k < i implies tracks_view(tracks@)[k] == target[k] by {
                    assert(tracks@[k] == tracks_old[k]);
                    assert(tracks_view(tracks_old)[k] == target.take(i as int)[k]);
                }
                assert(tracks_view(tracks@) =~= target.take(i + 1));
            }
            i = i + 1;
        }
        self.tracks = tracks;
        proof {
            assert(target.take(n as int) =~= target);
            assert(final(self)@ =~= (StateModel { tracks: target, ..old(self)@ }));
        }
    }
}

// ---------------------------------------------------------------------------
// Structural equality of records
// ---------------------------------------------------------------------------

/// Whether two artists hold the same values.
pub fn artist_eq(a: &Artist, b: &Artist) -> (r: bool)
    ensures
        r == (a@ == b@),
{
    let r = a.name == b.name && opt_str_eq(&a.bandcamp_id, &b.bandcamp_id) && opt_str_eq(
        &a.bandcamp_url,
        &b.bandcamp_url,
    ) && opt_str_eq(&a.spotify_id, &b.spotify_id);
    proof {
        if r {
            assert(a@ =~= b@);
        }
    }
    r
}

/// Whether two albums hold the same values.
pub fn album_eq(a: &Album, b: &Album) -> (r: bool)
    ensures
        r == (a@ == b@),
{
    let r = a.title == b.title && opt_str_eq(&a.bandcamp_id, &b.bandcamp_id) && opt_str_eq(
        &a.bandcamp_url,
        &b.bandcamp_url,
    ) && opt_str_eq(&a.spotify_id, &b.spotify_id);
    proof {
        if r {
            assert(a@ =~= b@);
        }
    }
    r
}

/// Whether two tracks hold the same values, field for field.
pub fn track_eq(a: &Track, b: &Track) -> (r: bool)
    ensures
        r == (a@ == b@),
{
    let r = a.title == b.title && artist_eq(&a.artist, &b.artist) && artist_eq(
        &a.album_artist,
        &b.album_artist,
    ) && album_eq(&a.album, &b.album) && a.duration == b.duration && a.number == b.number
        && a.bandcamp_playlist_track_number == b.bandcamp_playlist_track_number && opt_str_eq(
        &a.download_url,
        &b.download_url,
    ) && opt_str_eq(&a.bandcamp_track_id, &b.bandcamp_track_id) && opt_str_eq(
        &a.spotify_id,
        &b.spotify_id,
    ) && opt_str_eq(&a.spotify_playlist_id, &b.spotify_playlist_id);
    proof {
        if r {
            assert(a@ =~= b@);
        }
    }
    r
}

fn tracks_eq(a: &Vec<Track>, b: &Vec<Track>) -> (r: bool)
    ensures
        r == (tracks_view(a@) == tracks_view(b@)),
{
    if a.len() != b.len() {
        proof {
            assert(tracks_view(a@).len() != tracks_view(b@).len());
        }
        return false;
    }
    let mut i: usize = 0;
    while i < a.len()
        invariant
            a@.len() == b@.len(),
            i <= a@.len(),
            forall|j: int| 0 <= j < i ==> tracks_view(a@)[j] == tracks_view(b@)[j],
        decreases a@.len() - i,
    {
        if !track_eq(&a[i], &b[i]) {
            proof {
                assert(tracks_view(a@)[i as int] != tracks_view(b@)[i as int]);
            }
            return false;
        }
        i = i + 1;
    }
    proof {
        assert(tracks_view(a@) =~= tracks_view(b@));
    }
    true
}

fn strs_eq(a: &Vec<String>, b: &Vec<String>) -> (r: bool)
    ensures
        r == (strs_view(a@) == strs_view(b@)),
{
    if a.len() != b.len() {
        proof {
            assert(strs_view(a@).len() != strs_view(b@).len());
        }
        return false;
    }
    let mut i: usize = 0;
    while i < a.len()
        invariant
            a@.len() == b@.len(),
            i <= a@.len(),
            forall|j: int| 0 <= j < i ==> strs_view(a@)[j] == strs_view(b@)[j],
        decreases a@.len() - i,
    {
        if !(a[i] == b[i]) {
            proof {
                assert(strs_view(a@)[i as int] != strs_view(b@)[i as int]);
            }
            return false;
        }
        i = i + 1;
    }
    proof {
        assert(strs_view(a@) =~= strs_view(b@));
    }
    true
}

/// Whether two collection descriptions hold the same values.
pub fn blog_eq(a: &BlogPost, b: &BlogPost) -> (r: bool)
    ensures
        r == (a@ == b@),
{
    let r = a.title == b.title && a.url == b.url && a.published == b.published && a.modified
        == b.modified && a.description == b.description && tracks_eq(&a.tracks, &b.tracks)
        && strs_eq(&a.raw, &b.raw);
    proof {
        if r {
            assert(a@ =~= b@);
        }
    }
    r
}

// ---------------------------------------------------------------------------
// Dirty-gated saving
// ---------------------------------------------------------------------------

/// Equality of the persisted halves: everything except the dirty flags.
pub open spec fn persist_eq(a: StateModel, b: StateModel) -> bool {
    a.blog_info == b.blog_info && a.tracks == b.tracks && a.spotify_playlist_id
        == b.spotify_playlist_id && a.root_dir == b.root_dir
}

/// Whether two records agree on everything that is persisted.
pub fn state_persist_eq(a: &State, b: &State) -> (r: bool)
    ensures
        r == persist_eq(a@, b@),
{
    blog_eq(&a.blog_info, &b.blog_info) && tracks_eq(&a.tracks, &b.tracks) && opt_str_eq(
        &a.spotify_playlist_id,
        &b.spotify_playlist_id,
    ) && a.root_dir == b.root_dir
}

/// Which halves a save would rewrite: the collection record only when its
/// dirty flag is set and the on-disk copy differs; each track record only
/// when the track-level flag is set and that on-disk copy differs.
pub struct SavePlan {
    pub write_info: bool,
    pub write_tracks: Vec<bool>,
}

/// Whether the collection record must be rewritten.
pub open spec fn write_info_spec(s: StateModel, on_disk: Option<StateModel>) -> bool {
    s.need_save && !(on_disk matches Some(d) && persist_eq(d, s))
}

/// Whether the `i`-th track record must be rewritten.
pub open spec fn write_track_spec(s: StateModel, on_disk: Option<TrackModel>, i: int) -> bool {
    s.need_save_tracks && !(on_disk matches Some(d) && d == s.tracks[i])
}

impl State {
    /// Plan a save: compare each dirty half against its on-disk copy and
    /// rewrite only what materially changed.  `on_disk_info` is the caller's
    /// load of the collection record and `on_disk_tracks[i]` its load of the
    /// `i`-th track's metadata file; the caller performs the writes and then
    /// calls [`State::mark_saved`].
    pub fn save_plan(&self, on_disk_info: &Option<State>, on_disk_tracks: &Vec<Option<Track>>) -> (p:
        SavePlan)
        requires
            on_disk_tracks@.len() == self@.tracks.len(),
        ensures
            p.write_info == write_info_spec(self@, opt_state_view(on_disk_info)),
            p.write_tracks@.len() == self@.tracks.len(),
            forall|i: int|
                0 <= i < p.write_tracks@.len() ==> p.write_tracks@[i] == write_track_spec(
                    self@,
                    opt_tracks_view(on_disk_tracks@)[i],
                    i,
                ),
    {
        let write_info = self.need_save && !(match on_disk_info {
            Some(d) => state_persist_eq(d, self),
            None => false,
        });
        let mut write_tracks: Vec<bool> = Vec::new();
        let mut i: usize = 0;
        while i < self.tracks.len()
            invariant
                on_disk_tracks@.len() == self.tracks@.len(),
                i <= self.tracks@.len(),
                write_tracks@.len() == i,
                forall|j: int|
                    0 <= j < i ==> write_tracks@[j] == write_track_spec(
                        self@,
                        opt_tracks_view(on_disk_tracks@)[j],
                        j,
                    ),
            decreases self.tracks@.len() - i,
        {
            let w = self.need_save_tracks && !(match &on_disk_tracks[i] {
                Some(d) => track_eq(d, &self.tracks[i]),
                None => false,
            });
            write_tracks.push(w);
            proof {
                assert(opt_tracks_view(on_disk_tracks@)[i as int] == opt_track_view(
                    on_disk_tracks@[i as int],
                ));
            }
            i = i + 1;
        }
        SavePlan { write_info, write_tracks }
    }

    /// Clear both dirty flags after the planned writes were performed.
    pub fn mark_saved(&mut self)
        ensures
            final(self)@ == (StateModel {
                need_save: false,
                need_save_tracks: false,
                ..old(self)@
            }),
    {
        self.need_save = false;
        self.need_save_tracks = false;
        proof {
            assert(final(self)@ =~= (StateModel {
                need_save: false,
                need_save_tracks: false,
                ..old(self)@
            }));
        }
    }
}

// ---------------------------------------------------------------------------
// Pending-work predicates
// ---------------------------------------------------------------------------

/// Whether a list of names contains the given name.
pub open spec fn contains_name(names: Seq<Seq<char>>, s: Seq<char>) -> bool {
    exists|i: int| 0 <= i < names.len() && names[i] == s
}

/// Whether the list contains the given string.
pub fn contains_str(names: &Vec<String>, s: &String) -> (r: bool)
    ensures
        r == contains_name(strs_view(names@), s@),
{
    let mut i: usize = 0;
    while i < names.len()
        invariant
            i <= names@.len(),
            forall|j: int| 0 <= j < i ==> strs_view(names@)[j] != s@,
        decreases names@.len() - i,
    {
        if names[i] == *s {
            proof {
                assert(strs_view(names@)[i as int] == s@);
            }
            return true;
        }
        proof {
            assert(strs_view(names@)[i as int] == names@[i as int]@);
        }
        i = i + 1;
    }
    false
}

/// Whether any track already carries a resolved catalog id.
pub open spec fn has_spotify_tracks_spec(s: StateModel) -> bool {
    exists|i: int| 0 <= i < s.tracks.len() && (#[trigger] s.tracks[i]).spotify_id is Some
}

/// Whether some resolved track still lacks a playlist assignment.
pub open spec fn needs_playlist_assignments_spec(s: StateModel) -> bool {
    exists|i: int|
        0 <= i < s.tracks.len() && (#[trigger] s.tracks[i]).spotify_id is Some
            && s.tracks[i].spotify_playlist_id is None
}

/// Whether the collection still needs catalog work: no playlist yet, or a
/// track without a resolved id or assignment.
pub open spec fn needs_spotify_updates_spec(s: StateModel) -> bool {
    s.spotify_playlist_id is None || exists|i: int|
        0 <= i < s.tracks.len() && ((#[trigger] s.tracks[i]).spotify_id is None
            || s.tracks[i].spotify_playlist_id is None)
}

/// Whether some track's media file is not yet on disk.
pub open spec fn needs_downloads_spec(s: StateModel, existing: Seq<Seq<char>>) -> bool {
    exists|i: int|
        0 <= i < s.tracks.len() && !contains_name(
            existing,
            (#[trigger] s.tracks[i]).filename_spec(seq!['m', 'p', '3']),
        )
}

impl State {
    /// Whether any track already carries a resolved catalog id.
    pub fn has_spotify_tracks(&self) -> (r: bool)
        ensures
            r == has_spotify_tracks_spec(self@),
    {
        let mut i: usize = 0;
        while i < self.tracks.len()
            invariant
                i <= self.tracks@.len(),
                forall|j: int|
                    0 <= j < i ==> !((#[trigger] tracks_view(self.tracks@)[j]).spotify_id
                        is Some),
            decreases self.tracks@.len() - i,
        {
            if self.tracks[i].spotify_id.is_some() {
                proof {
                    assert((tracks_view(self.tracks@)[i as int]).spotify_id is Some);
                }
                return true;
            }
            proof {
                assert(tracks_view(self.tracks@)[i as int] == self.tracks@[i as int]@);
            }
            i = i + 1;
        }
        false
    }

    /// Whether some resolved track still lacks a playlist assignment.
    pub fn needs_playlist_assignments(&self) -> (r: bool)
        ensures
            r == needs_playlist_assignments_spec(self@),
    {
        let mut i: usize = 0;
        while i < self.tracks.len()
            invariant
                i <= self.tracks@.len(),
                forall|j: int|
                    0 <= j < i ==> !((#[trigger] tracks_view(self.tracks@)[j]).spotify_id is Some
                        && tracks_view(self.tracks@)[j].spotify_playlist_id is None),
            decreases self.tracks@.len() - i,
        {
            if self.tracks[i].spotify_id.is_some() && self.tracks[i].spotify_playlist_id.is_none() {
                proof {
                    assert((tracks_view(self.tracks@)[i as int]).spotify_id is Some && (
                    tracks_view(self.tracks@)[i as int]).spotify_playlist_id is None);
                }
                return true;
            }
            proof {
                assert(tracks_view(self.tracks@)[i as int] == self.tracks@[i as int]@);
            }
            i = i + 1;
        }
        false
    }

    /// Whether the collection still needs catalog work.
    pub fn needs_spotify_updates(&self) -> (r: bool)
        ensures
            r == needs_spotify_updates_spec(self@),
    {
        if self.spotify_playlist_id.is_none() {
            return true;
        }
        let mut i: usize = 0;
        while i < self.tracks.len()
            invariant
                i <= self.tracks@.len(),
                forall|j: int|
                    0 <= j < i ==> !((#[trigger] tracks_view(self.tracks@)[j]).spotify_id is None
                        || tracks_view(self.tracks@)[j].spotify_playlist_id is None),
            decreases self.tracks@.len() - i,
        {
            if self.tracks[i].spotify_id.is_none() || self.tracks[i].spotify_playlist_id.is_none() {
                proof {
                    assert((tracks_view(self.tracks@)[i as int]).spotify_id is None || (
                    tracks_view(self.tracks@)[i as int]).spotify_playlist_id is None);
                }
                return true;
            }
            proof {
                assert(tracks_view(self.tracks@)[i as int] == self.tracks@[i as int]@);
            }
            i = i + 1;
        }
        false
    }

    /// Whether some track's media file is missing from the collection
    /// directory; `existing` lists the file names present there.
    pub fn needs_downloads(&self, existing: &Vec<String>) -> (r: bool)
        ensures
            r == needs_downloads_spec(self@, strs_view(existing@)),
    {
        let mut i: usize = 0;
        while i < self.tracks.len()
            invariant
                i <= self.tracks@.len(),
                forall|j: int|
                    0 <= j < i ==> contains_name(
                        strs_view(existing@),
                        (#[trigger] tracks_view(self.tracks@)[j]).filename_spec(
                            seq!['m', 'p', '3'],
                        ),
                    ),
            decreases self.tracks@.len() - i,
        {
            let name = self.tracks[i].mp3_filename();
            if !contains_str(existing, &name) {
                proof {
                    assert(self@.tracks[i as int] == tracks_view(self.tracks@)[i as int]);
                    assert(!contains_name(
                        strs_view(existing@),
                        self@.tracks[i as int].filename_spec(seq!['m', 'p', '3']),
                    ));
                    assert(needs_downloads_spec(self@, strs_view(existing@)));
                }
                return true;
            }
            proof {
                assert(tracks_view(self.tracks@)[i as int] == self.tracks@[i as int]@);
            }
            i = i + 1;
        }
        proof {
            assert forall|k: int| 0 <= k < self@.tracks.len() implies contains_name(
                strs_view(existing@),
                (#[trigger] self@.tracks[k]).filename_spec(seq!['m', 'p', '3']),
            ) by {
                assert(self@.tracks[k] == tracks_view(self.tracks@)[k]);
                assert(contains_name(
                    strs_view(existing@),
                    tracks_view(self.tracks@)[k].filename_spec(seq!['m', 'p', '3']),
                ));
            }
        }
        false
    }
}

/// The source URLs of the collections that still need work: catalog updates
/// (unless suppressed) or missing downloads (unless suppressed).
pub open spec fn blog_urls_spec(
    states: Seq<StateModel>,
    no_spotify: bool,
    no_download: bool,
    existing: Seq<Seq<Seq<char>>>,
) -> Seq<Seq<char>>
    decreases states.len(),
{
    if states.len() == 0 {
        seq![]
    } else {
        let rest = blog_urls_spec(states.drop_last(), no_spotify, no_download, existing.drop_last());
        let s = states.last();
        if (!no_spotify && needs_spotify_updates_spec(s)) || (!no_download && needs_downloads_spec(
            s,
            existing.last(),
        )) {
            rest.push(s.blog_info.url)
        } else {
            rest
        }
    }
}

/// The models of a list of states.
pub open spec fn states_view(v: Seq<State>) -> Seq<StateModel> {
    v.map_values(|s: State| s@)
}

/// The views of per-state file listings.
pub open spec fn listings_view(v: Seq<Vec<String>>) -> Seq<Seq<Seq<char>>> {
    v.map_values(|l: Vec<String>| strs_view(l@))
}

/// The source URLs of the collections that still need work.  `existing[i]`
/// lists the files present in the `i`-th collection's directory.
pub fn blog_urls(
    states: &Vec<State>,
    no_spotify: bool,
    no_download: bool,
    existing: &Vec<Vec<String>>,
) -> (r: Vec<String>)
    requires
        states@.len() == existing@.len(),
    ensures
        strs_view(r@) == blog_urls_spec(
            states_view(states@),
            no_spotify,
            no_download,
            listings_view(existing@),
        ),
{
    let ghost sv = states_view(states@);
    let ghost ev = listings_view(existing@);
    let mut r: Vec<String> = Vec::new();
    let mut i: usize = 0;
    proof {
        assert(sv.take(0) =~= Seq::<StateModel>::empty());
        assert(ev.take(0) =~= Seq::<Seq<Seq<char>>>::empty());
    }
    while i < states.len()
        invariant
            states@.len() == existing@.len(),
            i <= states@.len(),
            sv == states_view(states@),
            ev == listings_view(existing@),
            strs_view(r@) == blog_urls_spec(sv.take(i as int), no_spotify, no_download, ev.take(i as int)),
        decreases states@.len() - i,
    {
        let state = &states[i];
        let wants_spotify = !no_spotify && state.needs_spotify_updates();
        let wants_download = !no_download && state.needs_downloads(&existing[i]);
        proof {
            assert(sv[i as int] == states@[i as int]@);
            assert(ev[i as int] == strs_view(existing@[i as int]@));
            assert(sv.take(i + 1).drop_last() =~= sv.take(i as int));
            assert(ev.take(i + 1).drop_last() =~= ev.take(i as int));
            assert(sv.take(i + 1).last() == sv[i as int]);
            assert(ev.take(i + 1).last() == ev[i as int]);
        }
        if wants_spotify || wants_download {
            r.push(state.blog_info.url.clone());
            proof {
                assert(strs_view(r@) =~= blog_urls_spec(
                    sv.take(i + 1),
                    no_spotify,
                    no_download,
                    ev.take(i + 1),
                ));
            }
        } else {
            proof {
                assert(strs_view(r@) =~= blog_urls_spec(
                    sv.take(i + 1),
                    no_spotify,
                    no_download,
                    ev.take(i + 1),
                ));
            }
        }
        i = i + 1;
    }
    proof {
        assert(sv.take(states@.len() as int) =~= sv);
        assert(ev.take(states@.len() as int) =~= ev);
    }
    r
}

// ---------------------------------------------------------------------------
// The janitor
// ---------------------------------------------------------------------------

/// The name of a track's metadata file.
pub open spec fn meta_name(t: TrackModel) -> Seq<char> {
    t.filename_spec(seq!['j', 's', 'o', 'n'])
}

/// The name of a track's media file.
pub open spec fn mp3_name(t: TrackModel) -> Seq<char> {
    t.filename_spec(seq!['m', 'p', '3'])
}

/// Whether a current track identifies the found record as a renamed
/// duplicate: an identical title, or an identical non-empty source track id.
pub open spec fn is_dupe_match(other: TrackModel, t: TrackModel) -> bool {
    other.title == t.title || (other.bandcamp_track_id is Some && other.bandcamp_track_id
        == t.bandcamp_track_id)
}

/// Whether some current track maps to the found record's exact file name.
pub open spec fn is_referenced(tracks: Seq<TrackModel>, t: TrackModel) -> bool {
    exists|i: int| 0 <= i < tracks.len() && meta_name(#[trigger] tracks[i]) == meta_name(t)
}

/// The first current track matching the found record by title or id, or a
/// negative value when none does.
pub open spec fn match_idx(tracks: Seq<TrackModel>, t: TrackModel) -> int
    decreases tracks.len(),
{
    if tracks.len() == 0 {
        -1
    } else if is_dupe_match(tracks[0], t) {
        0
    } else {
        let r = match_idx(tracks.drop_first(), t);
        if r < 0 {
            -1
        } else {
            r + 1
        }
    }
}

proof fn lemma_match_idx_is(tracks: Seq<TrackModel>, t: TrackModel, k: int)
    requires
        0 <= k <= tracks.len(),
        forall|j: int| 0 <= j < k ==> !is_dupe_match(#[trigger] tracks[j], t),
        k < tracks.len() ==> is_dupe_match(tracks[k], t),
    ensures
        k < tracks.len() ==> match_idx(tracks, t) == k,
        k == tracks.len() ==> match_idx(tracks, t) == -1,
    decreases tracks.len(),
{
    if tracks.len() > 0 && !is_dupe_match(tracks[0], t) {
        assert(k > 0);
        assert forall|j: int| 0 <= j < k - 1 implies !is_dupe_match(
            #[trigger] tracks.drop_first()[j],
            t,
        ) by {
            assert(tracks.drop_first()[j] == tracks[j + 1]);
        }
        lemma_match_idx_is(tracks.drop_first(), t, k - 1);
    }
}

/// What the janitor deletes for a true orphan: its metadata and media files,
/// as far as they exist.
pub open spec fn remove_extraneous_spec(t: TrackModel, existing: Seq<Seq<char>>) -> Seq<Seq<char>> {
    (if contains_name(existing, meta_name(t)) {
        seq![meta_name(t)]
    } else {
        seq![]
    }) + (if contains_name(existing, mp3_name(t)) {
        seq![mp3_name(t)]
    } else {
        seq![]
    })
}

/// What the janitor deletes for a renamed duplicate: its metadata file when
/// the canonical track's own metadata file already exists, and its media
/// file only when the canonical track's media file also already exists —
/// never the sole surviving copy of undownloaded content.
pub open spec fn consolidate_spec(
    keep: TrackModel,
    dupe: TrackModel,
    existing: Seq<Seq<char>>,
) -> Seq<Seq<char>> {
    if meta_name(keep) == meta_name(dupe) || mp3_name(keep) == mp3_name(dupe) {
        seq![]
    } else if contains_name(existing, meta_name(keep)) {
        seq![meta_name(dupe)] + (if contains_name(existing, mp3_name(keep)) && contains_name(
            existing,
            mp3_name(dupe),
        ) {
            seq![mp3_name(dupe)]
        } else {
            seq![]
        })
    } else {
        seq![]
    }
}

/// What the janitor deletes for one found on-disk record.
pub open spec fn record_actions(
    tracks: Seq<TrackModel>,
    t: TrackModel,
    existing: Seq<Seq<char>>,
) -> Seq<Seq<char>> {
    if is_referenced(tracks, t) {
        seq![]
    } else if match_idx(tracks, t) >= 0 {
        consolidate_spec(tracks[match_idx(tracks, t)], t, existing)
    } else {
        remove_extraneous_spec(t, existing)
    }
}

/// Everything the janitor deletes, in the order the records were found.
pub open spec fn cleanup_spec(
    tracks: Seq<TrackModel>,
    found: Seq<TrackModel>,
    existing: Seq<Seq<char>>,
) -> Seq<Seq<char>>
    decreases found.len(),
{
    if found.len() == 0 {
        seq![]
    } else {
        cleanup_spec(tracks, found.drop_last(), existing) + record_actions(
            tracks,
            found.last(),
            existing,
        )
    }
}

/// Files removed for a record nothing references by name or id: both its
/// metadata and media file, as far as they exist.
pub fn remove_extraneous(track: &Track, existing: &Vec<String>) -> (r: Vec<String>)
    ensures
        strs_view(r@) == remove_extraneous_spec(track@, strs_view(existing@)),
{
    let mut r: Vec<String> = Vec::new();
    let meta = track.meta_filename();
    if contains_str(existing, &meta) {
        r.push(meta);
    }
    let mp3 = track.mp3_filename();
    if contains_str(existing, &mp3) {
        r.push(mp3);
    }
    proof {
        assert(strs_view(r@) =~= remove_extraneous_spec(track@, strs_view(existing@)));
    }
    r
}

/// Files removed for a renamed duplicate of a still-current track.
pub fn consolidate(keep: &Track, dupe: &Track, existing: &Vec<String>) -> (r: Vec<String>)
    ensures
        strs_view(r@) == consolidate_spec(keep@, dupe@, strs_view(existing@)),
{
    let mut r: Vec<String> = Vec::new();
    let keep_meta = keep.meta_filename();
    let keep_mp3 = keep.mp3_filename();
    let dupe_meta = dupe.meta_filename();
    let dupe_mp3 = dupe.mp3_filename();
    if keep_meta == dupe_meta || keep_mp3 == dupe_mp3 {
        proof {
            assert(strs_view(r@) =~= consolidate_spec(keep@, dupe@, strs_view(existing@)));
        }
        return r;
    }
    if contains_str(existing, &keep_meta) {
        let both = contains_str(existing, &keep_mp3) && contains_str(existing, &dupe_mp3);
        r.push(dupe_meta);
        if both {
            r.push(dupe_mp3);
        }
    }
    proof {
        assert(strs_view(r@) =~= consolidate_spec(keep@, dupe@, strs_view(existing@)));
    }
    r
}

impl State {
    fn record_plan(&self, found: &Track, existing: &Vec<String>) -> (r: Vec<String>)
        ensures
            strs_view(r@) == record_actions(self@.tracks, found@, strs_view(existing@)),
    {
        let ghost tv = tracks_view(self.tracks@);
        let found_meta = found.meta_filename();
        proof {
            assert(found_meta@ == meta_name(found@));
        }
        // still referenced by name?
        let mut i: usize = 0;
        while i < self.tracks.len()
            invariant
                tv == tracks_view(self.tracks@),
                found_meta@ == meta_name(found@),
                i <= self.tracks@.len(),
                forall|j: int| 0 <= j < i ==> meta_name(#[trigger] tv[j]) != meta_name(found@),
            decreases self.tracks@.len() - i,
        {
            let m = self.tracks[i].meta_filename();
            proof {
                assert(tv[i as int] == self.tracks@[i as int]@);
                assert(m@ == meta_name(tv[i as int]));
            }
            if m == found_meta {
                proof {
                    assert(meta_name(tv[i as int]) == meta_name(found@));
                    assert(is_referenced(self@.tracks, found@));
                    assert(strs_view(Seq::<String>::empty()) =~= record_actions(
                        self@.tracks,
                        found@,
                        strs_view(existing@),
                    ));
                }
                let r: Vec<String> = Vec::new();
                proof {
                    assert(strs_view(r@) =~= Seq::<Seq<char>>::empty());
                }
                return r;
            }
            proof {
                assert(meta_name(tv[i as int]) != meta_name(found@));
            }
            i = i + 1;
        }
        proof {
            assert(!is_referenced(self@.tracks, found@));
        }
        // renamed duplicate of a current track?
        let mut k: usize = 0;
        while k < self.tracks.len()
            invariant
                tv == tracks_view(self.tracks@),
                k <= self.tracks@.len(),
                !is_referenced(self@.tracks, found@),
                forall|j: int| 0 <= j < k ==> !is_dupe_match(#[trigger] tv[j], found@),
            decreases self.tracks@.len() - k,
        {
            let other = &self.tracks[k];
            proof {
                assert(tv[k as int] == self.tracks@[k as int]@);
            }
            let title_match = other.title == found.title;
            let id_match = other.bandcamp_track_id.is_some() && opt_str_eq(
                &other.bandcamp_track_id,
                &found.bandcamp_track_id,
            );
            if title_match || id_match {
                proof {
                    assert(is_dupe_match(tv[k as int], found@));
                    lemma_match_idx_is(tv, found@, k as int);
                    assert(match_idx(self@.tracks, found@) == k);
                }
                let r = consolidate(other, found, existing);
                proof {
                    assert(strs_view(r@) =~= record_actions(
                        self@.tracks,
                        found@,
                        strs_view(existing@),
                    ));
                }
                return r;
            }
            proof {
                assert(!is_dupe_match(tv[k as int], found@));
            }
            k = k + 1;
        }
        proof {
            lemma_match_idx_is(tv, found@, tv.len() as int);
            assert(match_idx(self@.tracks, found@) == -1);
        }
        let r = remove_extraneous(found, existing);
        proof {
            assert(strs_view(r@) =~= record_actions(self@.tracks, found@, strs_view(existing@)));
        }
        r
    }

    /// Plan the janitor pass: for each on-disk track record other than the
    /// collection record, decide whether it is still referenced (kept), a
    /// renamed duplicate (consolidated), or a true orphan (removed).
    /// `found` holds the track records the caller loaded from the collection
    /// directory and `existing` the file names present there; the result
    /// lists the files to delete, in order.
    pub fn cleanup_plan(&self, found: &Vec<Track>, existing: &Vec<String>) -> (r: Vec<String>)
        ensures
            strs_view(r@) == cleanup_spec(self@.tracks, tracks_view(found@), strs_view(existing@)),
    {
        let ghost fv = tracks_view(found@);
        let mut r: Vec<String> = Vec::new();
        let mut i: usize = 0;
        proof {
            assert(fv.take(0) =~= Seq::<TrackModel>::empty());
            assert(strs_view(r@) =~= cleanup_spec(self@.tracks, fv.take(0), strs_view(existing@)));
        }
        while i < found.len()
            invariant
                fv == tracks_view(found@),
                i <= found@.len(),
                strs_view(r@) == cleanup_spec(self@.tracks, fv.take(i as int), strs_view(existing@)),
            decreases found@.len() - i,
        {
            let mut acts = self.record_plan(&found[i], existing);
            let ghost acts_v = strs_view(acts@);
            let ghost r_old = strs_view(r@);
            r.append(&mut acts);
            proof {
                assert(fv.take(i + 1).drop_last() =~= fv.take(i as int));
                assert(fv.take(i + 1).last() == fv[i as int]);
                assert(fv[i as int] == found@[i as int]@);
                assert(strs_view(r@) =~= r_old + acts_v);
                assert(strs_view(r@) =~= cleanup_spec(
                    self@.tracks,
                    fv.take(i + 1),
                    strs_view(existing@),
                ));
            }
            i = i + 1;
        }
        proof {
            assert(fv.take(found@.len() as int) =~= fv);
        }
        r
    }
}

// ---------------------------------------------------------------------------
// Laws
// ---------------------------------------------------------------------------

proof fn lemma_meta_mp3_distinct(a: TrackModel, b: TrackModel)
    ensures
        meta_name(a) != mp3_name(b),
{
    let m = meta_name(a);
    let p = mp3_name(b);
    assert(m[m.len() - 1] == 'n');
    assert(p[p.len() - 1] == '3');
    if m == p {
        assert(m[m.len() - 1] == p[p.len() - 1]);
        assert(false);
    }
}

/// The janitor deletes a true orphan's metadata and media files outright (as
/// far as they exist), while for a renamed duplicate of a current track it
/// deletes the duplicate's media file only when the canonical track's own
/// media file already exists — never the sole surviving copy.
pub proof fn lemma_janitor_policy(tracks: Seq<TrackModel>, t: TrackModel, existing: Seq<Seq<char>>)
    requires
        !is_referenced(tracks, t),
    ensures
        (forall|j: int| 0 <= j < tracks.len() ==> !is_dupe_match(#[trigger] tracks[j], t))
            ==> record_actions(tracks, t, existing) == remove_extraneous_spec(t, existing),
        match_idx(tracks, t) >= 0 ==> (contains_name(
            record_actions(tracks, t, existing),
            mp3_name(t),
        ) ==> contains_name(existing, mp3_name(tracks[match_idx(tracks, t)]))),
{
    if forall|j: int| 0 <= j < tracks.len() ==> !is_dupe_match(#[trigger] tracks[j], t) {
        lemma_match_idx_is(tracks, t, tracks.len() as int);
        assert(match_idx(tracks, t) == -1);
    }
    if match_idx(tracks, t) >= 0 {
        let keep = tracks[match_idx(tracks, t)];
        let acts = record_actions(tracks, t, existing);
        assert(acts == consolidate_spec(keep, t, existing));
        if contains_name(acts, mp3_name(t)) {
            let w = choose|w: int| 0 <= w < acts.len() && acts[w] == mp3_name(t);
            if meta_name(keep) == meta_name(t) || mp3_name(keep) == mp3_name(t) {
                assert(acts.len() == 0);
                assert(false);
            } else if contains_name(existing, meta_name(keep)) {
                if !(contains_name(existing, mp3_name(keep)) && contains_name(
                    existing,
                    mp3_name(t),
                )) {
                    assert(acts =~= seq![meta_name(t)]);
                    assert(acts[w] == meta_name(t));
                    lemma_meta_mp3_distinct(t, t);
                    assert(false);
                }
            } else {
                assert(acts.len() == 0);
                assert(false);
            }
        }
    }
}

/// The persisted fields of `s1` with the dirty flags at their defaults, as a
/// re-load of its record would produce them.
pub open spec fn persisted(s: StateModel) -> StateModel {
    StateModel { need_save: false, need_save_tracks: false, ..s }
}

/// Reconciliation is idempotent: re-running load-or-create and rehydration
/// against the records a first run left on disk reproduces the same state,
/// so the second save rewrites nothing.
///
/// `s1` is the state after the first run's load-or-create (from any prior
/// record `prev0` and per-track loads `loaded1`); `d1` is the collection
/// record on disk after the first save (it agrees with `s1` on everything
/// persisted), and `t1` the on-disk track records (each equal to the
/// corresponding reconciled track).  The second run re-fetches the same
/// source `info` and finds those records.
pub proof fn lemma_reconciliation_idempotent(
    info: BlogModel,
    dir: Seq<char>,
    prev0: Option<StateModel>,
    loaded1: Seq<Option<TrackModel>>,
    mp3: Seq<bool>,
    s1: StateModel,
    d1: StateModel,
    t1: Seq<TrackModel>,
)
    requires
        info.tracks.len() == loaded1.len(),
        info.tracks.len() == mp3.len(),
        s1 == (StateModel {
            tracks: rehydrate_all_spec(info.tracks, loaded1, mp3),
            ..get_or_create_spec(info, dir, prev0)
        }),
        persist_eq(d1, s1),
        t1.len() == s1.tracks.len(),
        forall|i: int| 0 <= i < t1.len() ==> #[trigger] t1[i] == s1.tracks[i],
    ensures
        ({
            let s2 = StateModel {
                tracks: rehydrate_all_spec(
                    info.tracks,
                    Seq::new(t1.len(), |i: int| Some(t1[i])),
                    mp3,
                ),
                ..get_or_create_spec(info, dir, Some(d1))
            };
            &&& persist_eq(s2, s1)
            &&& !write_info_spec(s2, Some(d1))
            &&& forall|i: int| 0 <= i < t1.len() ==> !write_track_spec(s2, Some(#[trigger] t1[i]), i)
        }),
{
    let s2 = StateModel {
        tracks: rehydrate_all_spec(info.tracks, Seq::new(t1.len(), |i: int| Some(t1[i])), mp3),
        ..get_or_create_spec(info, dir, Some(d1))
    };
    assert(s1.tracks.len() == info.tracks.len());
    assert forall|i: int| 0 <= i < t1.len() implies #[trigger] s2.tracks[i] == s1.tracks[i] by {
        let f = info.tracks[i];
        assert(s2.tracks[i] == rehydrate_spec(f, t1[i], mp3[i]));
        match loaded1[i] {
            Some(p) => {
                assert(s1.tracks[i] == rehydrate_spec(f, p, mp3[i]));
                assert(rehydrate_spec(f, rehydrate_spec(f, p, mp3[i]), mp3[i]) =~~= rehydrate_spec(
                    f,
                    p,
                    mp3[i],
                ));
            },
            None => {
                assert(s1.tracks[i] == f);
                assert(rehydrate_spec(f, f, mp3[i]) =~~= f);
            },
        }
    }
    assert(s2.tracks =~= s1.tracks);
    assert(persist_eq(s2, s1));
    assert(persist_eq(d1, s2));
    assert forall|i: int| 0 <= i < t1.len() implies !write_track_spec(
        s2,
        Some(#[trigger] t1[i]),
        i,
    ) by {
        assert(t1[i] == s2.tracks[i]);
    }
}

} // verus!
