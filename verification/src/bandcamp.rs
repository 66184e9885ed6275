//! Turning scraped player payloads into tracks.
//!
//! The caller parses the source HTML and its embedded JSON; this module
//! holds the logic that decides which entry of a player's track list is the
//! featured one and how its fields map onto a [`Track`].

use crate::numfmt::{dec_chars, dec_spec};
use crate::state::{tracks_view, BlogModel, BlogPost};
use crate::text::string_from_chars;
use crate::types::{Album, Artist, DateTime, Track, TrackModel};
use vstd::prelude::*;

verus! {

/// The decimal rendering of an optional numeric id.
pub open spec fn opt_id_spec(id: Option<u64>) -> Option<Seq<char>> {
    match id {
        Some(n) => Some(dec_spec(n as nat)),
        None => None,
    }
}

/// Render an optional numeric id in decimal.
pub fn opt_id_string(id: &Option<u64>) -> (r: Option<String>)
    ensures
        crate::types::opt_view(r) == opt_id_spec(*id),
{
    match id {
        Some(n) => {
            let v = dec_chars(*n);
            Some(string_from_chars(&v))
        },
        None => None,
    }
}

/// Ghost model of a [`TrackInfo`].
#[verifier::ext_equal]
pub ghost struct TrackInfoModel {
    pub artist: Seq<char>,
    pub audio_track_duration: u64,
    pub track_number: usize,
    pub track_title: Seq<char>,
    pub audio_url: Seq<(Seq<char>, Seq<char>)>,
    pub album_id: Option<u64>,
    pub track_id: Option<u64>,
}

/// One entry of a player's track list, as scraped: display fields plus the
/// download URLs keyed by format, in ascending key order.
#[derive(Debug)]
pub struct TrackInfo {
    pub artist: String,
    /// Length in whole seconds.
    pub audio_track_duration: u64,
    pub track_number: usize,
    pub track_title: String,
    /// Format name to URL, sorted by format name.
    pub audio_url: Vec<(String, String)>,
    pub album_id: Option<u64>,
    pub track_id: Option<u64>,
}

impl View for TrackInfo {
    type V = TrackInfoModel;

    open spec fn view(&self) -> TrackInfoModel {
        TrackInfoModel {
            artist: self.artist@,
            audio_track_duration: self.audio_track_duration,
            track_number: self.track_number,
            track_title: self.track_title@,
            audio_url: self.audio_url@.map_values(|p: (String, String)| (p.0@, p.1@)),
            album_id: self.album_id,
            track_id: self.track_id,
        }
    }
}

impl TrackInfo {
    /// The URL under the last (greatest, given the sorted order) format key,
    /// if any.
    pub fn download_url(&self) -> (r: Option<String>)
        ensures
            crate::types::opt_view(r) == (if self@.audio_url.len() == 0 {
                None::<Seq<char>>
            } else {
                Some(self@.audio_url.last().1)
            }),
    {
        if self.audio_url.len() == 0 {
            None
        } else {
            let r = Some(self.audio_url[self.audio_url.len() - 1].1.clone());
            proof {
                assert(self@.audio_url.last() == (
                    self.audio_url@.last().0@,
                    self.audio_url@.last().1@,
                ));
            }
            r
        }
    }
}

/// Ghost model of a [`PlayerData`].
#[verifier::ext_equal]
pub ghost struct PlayerModel {
    pub title: Seq<char>,
    pub tracklist: Seq<TrackInfoModel>,
    pub featured_track_number: usize,
    pub band_name: Seq<char>,
    pub band_id: Option<u64>,
    pub band_location: Option<Seq<char>>,
    pub band_url: Option<Seq<char>>,
    pub tralbum_url: Option<Seq<char>>,
}

/// One scraped player payload: an album or playlist with its track list and
/// the featured track's number.
#[derive(Debug)]
pub struct PlayerData {
    pub title: String,
    pub tracklist: Vec<TrackInfo>,
    pub featured_track_number: usize,
    pub band_name: String,
    pub band_id: Option<u64>,
    pub band_location: Option<String>,
    pub band_url: Option<String>,
    pub tralbum_url: Option<String>,
}

impl View for PlayerData {
    type V = PlayerModel;

    open spec fn view(&self) -> PlayerModel {
        PlayerModel {
            title: self.title@,
            tracklist: self.tracklist@.map_values(|t: TrackInfo| t@),
            featured_track_number: self.featured_track_number,
            band_name: self.band_name@,
            band_id: self.band_id,
            band_location: crate::types::opt_view(self.band_location),
            band_url: crate::types::opt_view(self.band_url),
            tralbum_url: crate::types::opt_view(self.tralbum_url),
        }
    }
}

/// The track a featured player entry maps to: the fresh display fields, the
/// band as album artist, band-level ids only when the track's artist is the
/// band itself, and no accumulated progress.
pub open spec fn track_of_spec(p: PlayerModel, ti: TrackInfoModel, playlist_index: usize) -> TrackModel {
    TrackModel {
        title: ti.track_title,
        artist: crate::types::ArtistModel {
            name: ti.artist,
            bandcamp_id: if ti.artist == p.band_name {
                opt_id_spec(p.band_id)
            } else {
                None
            },
            bandcamp_url: if ti.artist == p.band_name {
                p.band_url
            } else {
                None
            },
            spotify_id: None,
        },
        album_artist: crate::types::ArtistModel {
            name: p.band_name,
            bandcamp_id: opt_id_spec(p.band_id),
            bandcamp_url: p.band_url,
            spotify_id: None,
        },
        album: crate::types::AlbumModel {
            title: p.title,
            bandcamp_id: opt_id_spec(ti.album_id),
            bandcamp_url: p.tralbum_url,
            spotify_id: None,
        },
        duration: ti.audio_track_duration,
        number: ti.track_number,
        bandcamp_playlist_track_number: playlist_index,
        download_url: if ti.audio_url.len() == 0 {
            None
        } else {
            Some(ti.audio_url.last().1)
        },
        bandcamp_track_id: match ti.track_id {
            Some(n) => Some(dec_spec(n as nat)),
            None => None,
        },
        spotify_id: None,
        spotify_playlist_id: None,
    }
}

/// The first track-list entry carrying the featured track number, if any.
pub open spec fn featured_idx(p: PlayerModel) -> int
    decreases p.tracklist.len(),
{
    if p.tracklist.len() == 0 {
        -1
    } else if p.tracklist[0].track_number == p.featured_track_number {
        0
    } else {
        let r = featured_idx(PlayerModel { tracklist: p.tracklist.drop_first(), ..p });
        if r < 0 {
            -1
        } else {
            r + 1
        }
    }
}

proof fn lemma_featured_idx_is(p: PlayerModel, k: int)
    requires
        0 <= k <= p.tracklist.len(),
        forall|j: int|
            0 <= j < k ==> (#[trigger] p.tracklist[j]).track_number != p.featured_track_number,
        k < p.tracklist.len() ==> p.tracklist[k].track_number == p.featured_track_number,
    ensures
        k < p.tracklist.len() ==> featured_idx(p) == k,
        k == p.tracklist.len() ==> featured_idx(p) == -1,
    decreases p.tracklist.len(),
{
    if p.tracklist.len() > 0 && p.tracklist[0].track_number != p.featured_track_number {
        assert(k > 0);
        let q = PlayerModel { tracklist: p.tracklist.drop_first(), ..p };
        assert forall|j: int| 0 <= j < k - 1 implies (#[trigger] q.tracklist[j]).track_number
            != q.featured_track_number by {
            assert(q.tracklist[j] == p.tracklist[j + 1]);
        }
        lemma_featured_idx_is(q, k - 1);
    }
}

impl PlayerData {
    /// The featured track of this player, if its track list names one:
    /// the first entry whose number equals the featured number, mapped to a
    /// fresh [`Track`] at the given playlist position.
    pub fn get_track(&self, playlist_index: usize) -> (r: Option<Track>)
        ensures
            (r is None) <==> featured_idx(self@) < 0,
            r matches Some(t) ==> t@ == track_of_spec(
                self@,
                self@.tracklist[featured_idx(self@)],
                playlist_index,
            ),
    {
        let ghost pm = self@;
        let mut i: usize = 0;
        while i < self.tracklist.len()
            invariant
                pm == self@,
                i <= self.tracklist@.len(),
                forall|j: int|
                    0 <= j < i ==> (#[trigger] pm.tracklist[j]).track_number
                        != pm.featured_track_number,
            decreases self.tracklist@.len() - i,
        {
            let ti = &self.tracklist[i];
            proof {
                assert(pm.tracklist[i as int] == self.tracklist@[i as int]@);
            }
            if ti.track_number == self.featured_track_number {
                proof {
                    lemma_featured_idx_is(pm, i as int);
                    assert(featured_idx(pm) == i);
                }
                let band_is_artist = ti.artist == self.band_name;
                let track = Track {
                    title: ti.track_title.clone(),
                    artist: Artist {
                        name: ti.artist.clone(),
                        bandcamp_id: if band_is_artist {
                            opt_id_string(&self.band_id)
                        } else {
                            None
                        },
                        bandcamp_url: if band_is_artist {
                            crate::types::opt_clone(&self.band_url)
                        } else {
                            None
                        },
                        spotify_id: None,
                    },
                    album_artist: Artist {
                        name: self.band_name.clone(),
                        bandcamp_id: opt_id_string(&self.band_id),
                        bandcamp_url: crate::types::opt_clone(&self.band_url),
                        spotify_id: None,
                    },
                    album: Album {
                        title: self.title.clone(),
                        bandcamp_id: opt_id_string(&ti.album_id),
                        bandcamp_url: crate::types::opt_clone(&self.tralbum_url),
                        spotify_id: None,
                    },
                    duration: ti.audio_track_duration,
                    number: ti.track_number,
                    bandcamp_playlist_track_number: playlist_index,
                    download_url: ti.download_url(),
                    bandcamp_track_id: opt_id_string(&ti.track_id),
                    spotify_id: None,
                    spotify_playlist_id: None,
                };
                proof {
                    assert(track@ =~~= track_of_spec(
                        pm,
                        pm.tracklist[featured_idx(pm)],
                        playlist_index,
                    ));
                }
                return Some(track);
            }
            i = i + 1;
        }
        proof {
            lemma_featured_idx_is(pm, pm.tracklist.len() as int);
        }
        None
    }
}

/// The tracks of a sequence of players: each player's featured track in
/// order, numbered by its position among the players (starting at one);
/// players without a featured track are skipped but still counted.
pub open spec fn tracks_of_players_spec(players: Seq<PlayerModel>) -> Seq<TrackModel>
    decreases players.len(),
{
    if players.len() == 0 {
        seq![]
    } else {
        let rest = tracks_of_players_spec(players.drop_last());
        let p = players.last();
        if featured_idx(p) >= 0 {
            rest.push(
                TrackModel {
                    bandcamp_playlist_track_number: players.len() as usize,
                    ..track_of_spec(p, p.tracklist[featured_idx(p)], 0)
                },
            )
        } else {
            rest
        }
    }
}

/// The players' view sequence.
pub open spec fn players_view(v: Seq<PlayerData>) -> Seq<PlayerModel> {
    v.map_values(|p: PlayerData| p@)
}

/// Build the track list of a scraped page from its parsed players: each
/// player's featured track, numbered by the player's position (starting at
/// one).
pub fn tracks_from_players(players: &Vec<PlayerData>) -> (r: Vec<Track>)
    requires
        players@.len() < usize::MAX,
    ensures
        tracks_view(r@) == tracks_of_players_spec(players_view(players@)),
{
    let ghost pv = players_view(players@);
    let mut r: Vec<Track> = Vec::new();
    let mut idx: usize = 0;
    proof {
        assert(pv.take(0) =~= Seq::<PlayerModel>::empty());
        assert(tracks_view(r@) =~= tracks_of_players_spec(pv.take(0)));
    }
    while idx < players.len()
        invariant
            players@.len() < usize::MAX,
            pv == players_view(players@),
            idx <= players@.len(),
            tracks_view(r@) == tracks_of_players_spec(pv.take(idx as int)),
        decreases players@.len() - idx,
    {
        let next = idx + 1;
        proof {
            assert(pv[idx as int] == players@[idx as int]@);
            assert(pv.take(next as int).drop_last() =~= pv.take(idx as int));
            assert(pv.take(next as int).last() == pv[idx as int]);
            assert(pv.take(next as int).len() == next);
        }
        match players[idx].get_track(next) {
            Some(track) => {
                let ghost tv0 = track@;
                r.push(track);
                proof {
                    assert(tv0 =~~= (TrackModel {
                        bandcamp_playlist_track_number: next,
                        ..track_of_spec(
                            pv[idx as int],
                            pv[idx as int].tracklist[featured_idx(pv[idx as int])],
                            0,
                        )
                    }));
                    assert(tracks_view(r@) =~= tracks_of_players_spec(pv.take(next as int)));
                }
            },
            None => {
                proof {
                    assert(tracks_view(r@) =~= tracks_of_players_spec(pv.take(next as int)));
                }
            },
        }
        idx = next;
    }
    proof {
        assert(pv.take(players@.len() as int) =~= pv);
    }
    r
}

/// The scraped metadata of one source page.
#[derive(Debug)]
pub struct BlogMeta {
    pub title: String,
    pub url: String,
    pub published: DateTime,
    pub modified: DateTime,
    pub description: String,
}

impl BlogPost {
    /// Combine scraped page metadata with its extracted track list and the
    /// raw player payloads.
    pub fn new(meta: BlogMeta, tracks: Vec<Track>, raw: Vec<String>) -> (r: BlogPost)
        ensures
            r@ == (BlogModel {
                title: meta.title@,
                url: meta.url@,
                published: meta.published,
                modified: meta.modified,
                description: meta.description@,
                tracks: tracks_view(tracks@),
                raw: crate::state::strs_view(raw@),
            }),
    {
        let r = BlogPost {
            title: meta.title,
            url: meta.url,
            published: meta.published,
            modified: meta.modified,
            description: meta.description,
            tracks,
            raw,
        };
        proof {
            assert(r@ =~= (BlogModel {
                title: r.title@,
                url: r.url@,
                published: r.published,
                modified: r.modified,
                description: r.description@,
                tracks: tracks_view(r.tracks@),
                raw: crate::state::strs_view(r.raw@),
            }));
        }
        r
    }
}

} // verus!
