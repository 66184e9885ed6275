//! Core data model: artists, albums, tracks and timestamps.
//!
//! Each executable type has a ghost model (its view) over sequences and plain
//! values; contracts and laws are stated over those models.

use crate::numfmt::{dec2_chars, dec2_spec, dec4_chars, dec4_spec};
use crate::text::{chars_vec, string_from_chars};
use vstd::prelude::*;

verus! {

/// The view of an optional string.
pub open spec fn opt_view(o: Option<String>) -> Option<Seq<char>> {
    match o {
        Some(s) => Some(s@),
        None => None,
    }
}

/// Clone an optional string.
pub fn opt_clone(o: &Option<String>) -> (r: Option<String>)
    ensures
        opt_view(r) == opt_view(*o),
{
    match o {
        Some(s) => Some(s.clone()),
        None => None,
    }
}

/// Whether two optional strings hold the same text.
pub fn opt_str_eq(a: &Option<String>, b: &Option<String>) -> (r: bool)
    ensures
        r == (opt_view(*a) == opt_view(*b)),
{
    match a {
        Some(x) => match b {
            Some(y) => *x == *y,
            None => false,
        },
        None => b.is_none(),
    }
}

/// A moment in civil time (UTC), to second precision.
#[derive(Clone, Copy, PartialEq, Eq, Structural, Debug)]
pub struct DateTime {
    pub year: u64,
    pub month: u64,
    pub day: u64,
    pub hour: u64,
    pub minute: u64,
    pub second: u64,
}

impl DateTime {
    /// The `YYYY-MM-DD` rendering of the date part.
    pub open spec fn ymd_spec(&self) -> Seq<char> {
        dec4_spec(self.year as nat) + seq!['-'] + dec2_spec(self.month as nat) + seq!['-']
            + dec2_spec(self.day as nat)
    }

    /// Render the date part as `YYYY-MM-DD`.
    pub fn format_ymd(&self) -> (r: Vec<char>)
        ensures
            r@ == self.ymd_spec(),
    {
        let mut v = dec4_chars(self.year);
        v.push('-');
        let mut m = dec2_chars(self.month);
        v.append(&mut m);
        v.push('-');
        let mut d = dec2_chars(self.day);
        v.append(&mut d);
        proof {
            assert(v@ =~= self.ymd_spec());
        }
        v
    }
}

/// Ghost model of an [`Artist`].
#[verifier::ext_equal]
pub ghost struct ArtistModel {
    pub name: Seq<char>,
    pub bandcamp_id: Option<Seq<char>>,
    pub bandcamp_url: Option<Seq<char>>,
    pub spotify_id: Option<Seq<char>>,
}

/// A performing artist, with optional per-catalog identifiers.
#[derive(Debug)]
pub struct Artist {
    pub name: String,
    pub bandcamp_id: Option<String>,
    pub bandcamp_url: Option<String>,
    pub spotify_id: Option<String>,
}

impl View for Artist {
    type V = ArtistModel;

    open spec fn view(&self) -> ArtistModel {
        ArtistModel {
            name: self.name@,
            bandcamp_id: opt_view(self.bandcamp_id),
            bandcamp_url: opt_view(self.bandcamp_url),
            spotify_id: opt_view(self.spotify_id),
        }
    }
}

impl Artist {
    /// An artist with the given name and no catalog identifiers.
    pub fn new(name: &str) -> (r: Artist)
        ensures
            r@.name == name@,
            r@.bandcamp_id is None,
            r@.bandcamp_url is None,
            r@.spotify_id is None,
    {
        Artist { name: name.to_owned(), bandcamp_id: None, bandcamp_url: None, spotify_id: None }
    }

    /// An identical copy.
    pub fn duplicate(&self) -> (r: Artist)
        ensures
            r@ == self@,
    {
        Artist {
            name: self.name.clone(),
            bandcamp_id: opt_clone(&self.bandcamp_id),
            bandcamp_url: opt_clone(&self.bandcamp_url),
            spotify_id: opt_clone(&self.spotify_id),
        }
    }
}

/// Ghost model of an [`Album`].
#[verifier::ext_equal]
pub ghost struct AlbumModel {
    pub title: Seq<char>,
    pub bandcamp_id: Option<Seq<char>>,
    pub bandcamp_url: Option<Seq<char>>,
    pub spotify_id: Option<Seq<char>>,
}

/// An album, with optional per-catalog identifiers.
#[derive(Debug)]
pub struct Album {
    pub title: String,
    pub bandcamp_id: Option<String>,
    pub bandcamp_url: Option<String>,
    pub spotify_id: Option<String>,
}

impl View for Album {
    type V = AlbumModel;

    open spec fn view(&self) -> AlbumModel {
        AlbumModel {
            title: self.title@,
            bandcamp_id: opt_view(self.bandcamp_id),
            bandcamp_url: opt_view(self.bandcamp_url),
            spotify_id: opt_view(self.spotify_id),
        }
    }
}

impl Album {
    /// An album with the given title and no catalog identifiers.
    pub fn new(title: &str) -> (r: Album)
        ensures
            r@.title == title@,
            r@.bandcamp_id is None,
            r@.bandcamp_url is None,
            r@.spotify_id is None,
    {
        Album { title: title.to_owned(), bandcamp_id: None, bandcamp_url: None, spotify_id: None }
    }

    /// An identical copy.
    pub fn duplicate(&self) -> (r: Album)
        ensures
            r@ == self@,
    {
        Album {
            title: self.title.clone(),
            bandcamp_id: opt_clone(&self.bandcamp_id),
            bandcamp_url: opt_clone(&self.bandcamp_url),
            spotify_id: opt_clone(&self.spotify_id),
        }
    }
}

/// Ghost model of a [`Track`].
#[verifier::ext_equal]
pub ghost struct TrackModel {
    pub title: Seq<char>,
    pub artist: ArtistModel,
    pub album_artist: ArtistModel,
    pub album: AlbumModel,
    pub duration: u64,
    pub number: usize,
    pub bandcamp_playlist_track_number: usize,
    pub download_url: Option<Seq<char>>,
    pub bandcamp_track_id: Option<Seq<char>>,
    pub spotify_id: Option<Seq<char>>,
    pub spotify_playlist_id: Option<Seq<char>>,
}

/// A locally known track: fresh scrape data plus accumulated progress
/// (resolved catalog id, playlist assignment, download URL).
#[derive(Debug)]
pub struct Track {
    pub title: String,
    pub artist: Artist,
    pub album_artist: Artist,
    pub album: Album,
    /// Length in whole seconds.
    pub duration: u64,
    pub number: usize,
    pub bandcamp_playlist_track_number: usize,
    pub download_url: Option<String>,
    pub bandcamp_track_id: Option<String>,
    pub spotify_id: Option<String>,
    pub spotify_playlist_id: Option<String>,
}

impl View for Track {
    type V = TrackModel;

    open spec fn view(&self) -> TrackModel {
        TrackModel {
            title: self.title@,
            artist: self.artist@,
            album_artist: self.album_artist@,
            album: self.album@,
            duration: self.duration,
            number: self.number,
            bandcamp_playlist_track_number: self.bandcamp_playlist_track_number,
            download_url: opt_view(self.download_url),
            bandcamp_track_id: opt_view(self.bandcamp_track_id),
            spotify_id: opt_view(self.spotify_id),
            spotify_playlist_id: opt_view(self.spotify_playlist_id),
        }
    }
}

/// Merging one freshly scraped track with its prior on-disk record: the
/// resolved catalog id and playlist assignment are copied forward
/// unconditionally; the previous download URL only if the media file already
/// exists on disk; everything else stays fresh.
pub open spec fn rehydrate_spec(fresh: TrackModel, prev: TrackModel, mp3_exists: bool) -> TrackModel {
    TrackModel {
        download_url: if mp3_exists {
            prev.download_url
        } else {
            fresh.download_url
        },
        spotify_id: prev.spotify_id,
        spotify_playlist_id: prev.spotify_playlist_id,
        ..fresh
    }
}

impl Track {
    /// A track with the given display fields, the same artist as album
    /// artist, and no accumulated progress.
    pub fn new(title: &str, artist: &str, album: &str) -> (r: Track)
        ensures
            r@.title == title@,
            r@.artist.name == artist@,
            r@.album_artist.name == artist@,
            r@.album.title == album@,
            r@.duration == 0,
            r@.number == 0,
            r@.bandcamp_playlist_track_number == 0,
            r@.download_url is None,
            r@.bandcamp_track_id is None,
            r@.spotify_id is None,
            r@.spotify_playlist_id is None,
    {
        Track {
            title: title.to_owned(),
            artist: Artist::new(artist),
            album_artist: Artist::new(artist),
            album: Album::new(album),
            duration: 0,
            number: 0,
            bandcamp_playlist_track_number: 0,
            download_url: None,
            bandcamp_track_id: None,
            spotify_id: None,
            spotify_playlist_id: None,
        }
    }

    /// An identical copy.
    pub fn duplicate(&self) -> (r: Track)
        ensures
            r@ == self@,
    {
        let r = Track {
            title: self.title.clone(),
            artist: self.artist.duplicate(),
            album_artist: self.album_artist.duplicate(),
            album: self.album.duplicate(),
            duration: self.duration,
            number: self.number,
            bandcamp_playlist_track_number: self.bandcamp_playlist_track_number,
            download_url: opt_clone(&self.download_url),
            bandcamp_track_id: opt_clone(&self.bandcamp_track_id),
            spotify_id: opt_clone(&self.spotify_id),
            spotify_playlist_id: opt_clone(&self.spotify_playlist_id),
        };
        proof {
            assert(r@ =~= self@);
        }
        r
    }

    /// Merge this freshly scraped track with its prior on-disk record.
    ///
    /// Previously resolved progress survives a re-scrape — even one that
    /// corrected the title — while the fresh display fields stay
    /// authoritative.
    pub fn rehydrate(&mut self, from_disk: Track, mp3_exists: bool)
        ensures
            final(self)@ == rehydrate_spec(old(self)@, from_disk@, mp3_exists),
            final(self)@.spotify_id == from_disk@.spotify_id,
            final(self)@.spotify_playlist_id == from_disk@.spotify_playlist_id,
            final(self)@.title == old(self)@.title,
    {
        if mp3_exists {
            // the media file was already fetched successfully, so the
            // previous download URL is restored
            self.download_url = from_disk.download_url;
        }
        self.spotify_id = from_disk.spotify_id;
        self.spotify_playlist_id = from_disk.spotify_playlist_id;
        proof {
            assert(final(self)@ =~= rehydrate_spec(old(self)@, from_disk@, mp3_exists));
        }
    }
}

impl Track {
    /// The URL to fetch for this track, if anything is left to do: a track
    /// without a download URL, or whose media file already exists on disk,
    /// needs no download.
    pub fn pending_download(&self, mp3_exists: bool) -> (r: Option<String>)
        ensures
            opt_view(r) == (if mp3_exists {
                None::<Seq<char>>
            } else {
                self@.download_url
            }),
    {
        if mp3_exists {
            None
        } else {
            opt_clone(&self.download_url)
        }
    }
}

/// Overwrite `old` with `other` when `other` holds a concrete value that
/// differs; a `None` never clears previously accumulated progress.
pub fn update(cur: &mut Option<String>, other: &Option<String>) -> (changed: bool)
    ensures
        changed == (*other is Some && opt_view(*old(cur)) != opt_view(*other)),
        opt_view(*final(cur)) == if changed {
            opt_view(*other)
        } else {
            opt_view(*old(cur))
        },
{
    if other.is_some() && !opt_str_eq(cur, other) {
        *cur = opt_clone(other);
        true
    } else {
        false
    }
}

// ---------------------------------------------------------------------------
// Deterministic file names
// ---------------------------------------------------------------------------

/// Path separators replaced so a display field can be used in a file name.
pub open spec fn sanitize_spec(s: Seq<char>) -> Seq<char> {
    s.map_values(|c: char| if c == '/' { '_' } else { c })
}

fn sanitize_chars(s: &str) -> (r: Vec<char>)
    ensures
        r@ == sanitize_spec(s@),
{
    let cs = chars_vec(s);
    let mut r: Vec<char> = Vec::new();
    let mut i: usize = 0;
    while i < cs.len()
        invariant
            i <= cs@.len(),
            cs@ == s@,
            r@ == sanitize_spec(s@.take(i as int)),
        decreases cs@.len() - i,
    {
        let c = cs[i];
        if c == '/' {
            r.push('_');
        } else {
            r.push(c);
        }
        proof {
            assert(sanitize_spec(s@.take(i + 1)) =~= sanitize_spec(s@.take(i as int)).push(
                if s@[i as int] == '/' {
                    '_'
                } else {
                    s@[i as int]
                },
            ));
        }
        i = i + 1;
    }
    proof {
        assert(s@.take(s@.len() as int) =~= s@);
        assert(sanitize_spec(s@.take(s@.len() as int)) =~= sanitize_spec(s@));
    }
    r
}

impl TrackModel {
    /// `NN - artist - title.ext`, the deterministic on-disk name of the
    /// track's files; unique within its collection directory as long as
    /// positions are.
    pub open spec fn filename_spec(self, ext: Seq<char>) -> Seq<char> {
        dec2_spec(self.bandcamp_playlist_track_number as nat) + seq![' ', '-', ' ']
            + sanitize_spec(self.artist.name) + seq![' ', '-', ' '] + sanitize_spec(self.title)
            + seq!['.'] + ext
    }
}

impl Track {
    /// The deterministic file name for this track with the given extension.
    pub fn filename(&self, ext: &str) -> (r: String)
        ensures
            r@ == self@.filename_spec(ext@),
    {
        let mut v = dec2_chars(self.bandcamp_playlist_track_number as u64);
        v.push(' ');
        v.push('-');
        v.push(' ');
        let mut artist = sanitize_chars(self.artist.name.as_str());
        v.append(&mut artist);
        v.push(' ');
        v.push('-');
        v.push(' ');
        let mut title = sanitize_chars(self.title.as_str());
        v.append(&mut title);
        v.push('.');
        let mut e = chars_vec(ext);
        v.append(&mut e);
        proof {
            assert(v@ =~= self@.filename_spec(ext@));
        }
        string_from_chars(&v)
    }

    /// The deterministic name of the track's media file.
    pub fn mp3_filename(&self) -> (r: String)
        ensures
            r@ == self@.filename_spec(seq!['m', 'p', '3']),
    {
        let r = self.filename("mp3");
        proof {
            reveal_strlit("mp3");
            assert("mp3"@ =~= seq!['m', 'p', '3']);
        }
        r
    }

    /// The deterministic name of the track's metadata record.
    pub fn meta_filename(&self) -> (r: String)
        ensures
            r@ == self@.filename_spec(seq!['j', 's', 'o', 'n']),
    {
        let r = self.filename("json");
        proof {
            reveal_strlit("json");
            assert("json"@ =~= seq!['j', 's', 'o', 'n']);
        }
        r
    }
}

} // verus!
