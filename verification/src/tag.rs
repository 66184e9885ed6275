//! Planning audio-tag updates.
//!
//! The caller reads a media file's current tag into plain values; this
//! module decides which standard frames to rewrite and which extended text
//! frames to add, so the file is only touched when something changed.

use crate::numfmt::{dec_chars, dec_spec};
use crate::text::string_from_chars;
use crate::types::{opt_view, Track, TrackModel};
use vstd::prelude::*;

verus! {

/// Ghost model of [`TagFields`].
#[verifier::ext_equal]
pub ghost struct TagFieldsModel {
    pub title: Option<Seq<char>>,
    pub artist: Option<Seq<char>>,
    pub album: Option<Seq<char>>,
    pub album_artist: Option<Seq<char>>,
    pub track: Option<u32>,
    pub extended: Seq<(Seq<char>, Seq<char>)>,
}

/// The current values of a media file's tag, as read by the caller:
/// standard frames plus the extended text frames in file order.
#[derive(Debug)]
pub struct TagFields {
    pub title: Option<String>,
    pub artist: Option<String>,
    pub album: Option<String>,
    pub album_artist: Option<String>,
    pub track: Option<u32>,
    pub extended: Vec<(String, String)>,
}

impl View for TagFields {
    type V = TagFieldsModel;

    open spec fn view(&self) -> TagFieldsModel {
        TagFieldsModel {
            title: opt_view(self.title),
            artist: opt_view(self.artist),
            album: opt_view(self.album),
            album_artist: opt_view(self.album_artist),
            track: self.track,
            extended: self.extended@.map_values(|p: (String, String)| (p.0@, p.1@)),
        }
    }
}

/// A missing standard frame compares as the empty string.
pub open spec fn or_empty(o: Option<Seq<char>>) -> Seq<char> {
    match o {
        Some(s) => s,
        None => Seq::empty(),
    }
}

/// A missing track frame compares as zero.
pub open spec fn or_zero(o: Option<u32>) -> u32 {
    match o {
        Some(n) => n,
        None => 0,
    }
}

/// The value of the last extended frame with this description, if any; a
/// later duplicate overrides an earlier one.
pub open spec fn lookup_last(ext: Seq<(Seq<char>, Seq<char>)>, name: Seq<char>) -> Option<
    Seq<char>,
>
    decreases ext.len(),
{
    if ext.len() == 0 {
        None
    } else if ext.last().0 == name {
        Some(ext.last().1)
    } else {
        lookup_last(ext.drop_last(), name)
    }
}

/// The extended frame written for one identifier: nothing when the value is
/// absent or the tag already carries exactly it; the (description, value)
/// pair otherwise.
pub open spec fn frame_for(
    ext: Seq<(Seq<char>, Seq<char>)>,
    name: Seq<char>,
    value: Option<Seq<char>>,
) -> Seq<(Seq<char>, Seq<char>)> {
    match value {
        None => seq![],
        Some(v) => if lookup_last(ext, name) == Some(v) {
            seq![]
        } else {
            seq![(name, v)]
        },
    }
}

/// Every extended frame to add for a track, in a fixed order.
pub open spec fn tag_frames_spec(t: TrackModel, ext: Seq<(Seq<char>, Seq<char>)>) -> Seq<
    (Seq<char>, Seq<char>),
> {
    frame_for(ext, "bandcamp_track_id"@, t.bandcamp_track_id) + frame_for(
        ext,
        "spotify_track_id"@,
        t.spotify_id,
    ) + frame_for(
        ext,
        "bandcamp_playlist_track_number"@,
        Some(dec_spec(t.bandcamp_playlist_track_number as nat)),
    ) + frame_for(ext, "bandcamp_artist_id"@, t.artist.bandcamp_id) + frame_for(
        ext,
        "bandcamp_artist_url"@,
        t.artist.bandcamp_url,
    ) + frame_for(ext, "spotify_artist_id"@, t.artist.spotify_id) + frame_for(
        ext,
        "bandcamp_album_artist_id"@,
        t.album_artist.bandcamp_id,
    ) + frame_for(ext, "bandcamp_album_artist_url"@, t.album_artist.bandcamp_url) + frame_for(
        ext,
        "spotify_album_artist_id"@,
        t.album_artist.spotify_id,
    ) + frame_for(ext, "bandcamp_album_id"@, t.album.bandcamp_id) + frame_for(
        ext,
        "bandcamp_album_url"@,
        t.album.bandcamp_url,
    ) + frame_for(ext, "spotify_album_id"@, t.album.spotify_id)
}

/// Which halves of the tag to rewrite.  Once an earlier standard frame
/// differs, every following standard frame is rewritten as well.
#[derive(Debug)]
pub struct TagPlan {
    pub set_title: bool,
    pub set_artist: bool,
    pub set_album: bool,
    pub set_album_artist: bool,
    pub set_track: bool,
    /// Extended text frames to add, as (description, value) pairs.
    pub frames: Vec<(String, String)>,
    /// Whether the file must be rewritten at all.
    pub updated: bool,
}

/// Whether the title frame is rewritten.
pub open spec fn set_title_spec(t: TrackModel, tag: TagFieldsModel) -> bool {
    or_empty(tag.title) != t.title
}

/// Whether the artist frame is rewritten.
pub open spec fn set_artist_spec(t: TrackModel, tag: TagFieldsModel) -> bool {
    set_title_spec(t, tag) || or_empty(tag.artist) != t.artist.name
}

/// Whether the album frame is rewritten.
pub open spec fn set_album_spec(t: TrackModel, tag: TagFieldsModel) -> bool {
    set_artist_spec(t, tag) || or_empty(tag.album) != t.album.title
}

/// Whether the album-artist frame is rewritten.
pub open spec fn set_album_artist_spec(t: TrackModel, tag: TagFieldsModel) -> bool {
    set_album_spec(t, tag) || or_empty(tag.album_artist) != t.album_artist.name
}

/// Whether the track-number frame is rewritten.
pub open spec fn set_track_spec(t: TrackModel, tag: TagFieldsModel) -> bool {
    set_album_artist_spec(t, tag) || or_zero(tag.track) != t.number as u32
}

fn lookup_last_exec(ext: &Vec<(String, String)>, name: &str) -> (r: Option<String>)
    ensures
        opt_view(r) == lookup_last(
            ext@.map_values(|p: (String, String)| (p.0@, p.1@)),
            name@,
        ),
{
    let ghost ev = ext@.map_values(|p: (String, String)| (p.0@, p.1@));
    let name_owned = name.to_owned();
    let mut j: usize = ext.len();
    proof {
        assert(ev.take(ext@.len() as int) =~= ev);
    }
    while j > 0
        invariant
            ev == ext@.map_values(|p: (String, String)| (p.0@, p.1@)),
            name_owned@ == name@,
            j <= ext@.len(),
            lookup_last(ev, name@) == lookup_last(ev.take(j as int), name@),
        decreases j,
    {
        proof {
            assert(ev.take(j as int).last() == ev[j - 1]);
            assert(ev[j - 1] == (ext@[j - 1].0@, ext@[j - 1].1@));
            assert(ev.take(j as int).drop_last() =~= ev.take(j - 1));
        }
        if ext[j - 1].0 == name_owned {
            proof {
                assert(ev.take(j as int).last().0 == name@);
            }
            return Some(ext[j - 1].1.clone());
        }
        proof {
            assert(ev.take(j as int).last().0 != name@);
        }
        j = j - 1;
    }
    proof {
        assert(ev.take(0) =~= Seq::<(Seq<char>, Seq<char>)>::empty());
    }
    None
}

fn push_frame_for(
    out: &mut Vec<(String, String)>,
    ext: &Vec<(String, String)>,
    name: &str,
    value: &Option<String>,
)
    ensures
        final(out)@.map_values(|p: (String, String)| (p.0@, p.1@)) == old(out)@.map_values(
            |p: (String, String)| (p.0@, p.1@),
        ) + frame_for(ext@.map_values(|p: (String, String)| (p.0@, p.1@)), name@, opt_view(*value)),
{
    let ghost before = out@.map_values(|p: (String, String)| (p.0@, p.1@));
    let ghost ev = ext@.map_values(|p: (String, String)| (p.0@, p.1@));
    match value {
        None => {
            proof {
                assert(out@.map_values(|p: (String, String)| (p.0@, p.1@)) =~= before + frame_for(
                    ev,
                    name@,
                    opt_view(*value),
                ));
            }
        },
        Some(v) => {
            let cur = lookup_last_exec(ext, name);
            let same = match &cur {
                Some(c) => *c == *v,
                None => false,
            };
            if !same {
                out.push((name.to_owned(), v.clone()));
            }
            proof {
                assert(out@.map_values(|p: (String, String)| (p.0@, p.1@)) =~= before + frame_for(
                    ev,
                    name@,
                    opt_view(*value),
                ));
            }
        },
    }
}

/// Whether a missing-or-present standard string frame differs from a value.
fn frame_differs(cur: &Option<String>, val: &String) -> (r: bool)
    ensures
        r == (or_empty(opt_view(*cur)) != val@),
{
    match cur {
        Some(s) => {
            let eq = *s == *val;
            !eq
        },
        None => {
            let r = !(val.as_str().is_empty());
            proof {
                if val@.len() == 0 {
                    assert(val@ =~= Seq::<char>::empty());
                }
            }
            r
        },
    }
}

/// Plan the tag update for one track: rewrite the standard frames from the
/// first differing one on, add the missing or stale extended identifier
/// frames, and touch the file only when anything changed.
pub fn plan_tag_updates(track: &Track, tag: &TagFields) -> (p: TagPlan)
    ensures
        p.set_title == set_title_spec(track@, tag@),
        p.set_artist == set_artist_spec(track@, tag@),
        p.set_album == set_album_spec(track@, tag@),
        p.set_album_artist == set_album_artist_spec(track@, tag@),
        p.set_track == set_track_spec(track@, tag@),
        p.frames@.map_values(|q: (String, String)| (q.0@, q.1@)) == tag_frames_spec(
            track@,
            tag@.extended,
        ),
        p.updated == (set_track_spec(track@, tag@) || tag_frames_spec(
            track@,
            tag@.extended,
        ).len() > 0),
{
    let set_title = frame_differs(&tag.title, &track.title);
    let set_artist = set_title || frame_differs(&tag.artist, &track.artist.name);
    let set_album = set_artist || frame_differs(&tag.album, &track.album.title);
    let set_album_artist = set_album || frame_differs(&tag.album_artist, &track.album_artist.name);
    let cur_track: u32 = match tag.track {
        Some(n) => n,
        None => 0,
    };
    #[verifier::truncate]
    let number_u32: u32 = track.number as u32;
    let set_track = set_album_artist || cur_track != number_u32;

    let mut frames: Vec<(String, String)> = Vec::new();
    let position = string_from_chars(&dec_chars(track.bandcamp_playlist_track_number as u64));
    push_frame_for(&mut frames, &tag.extended, "bandcamp_track_id", &track.bandcamp_track_id);
    push_frame_for(&mut frames, &tag.extended, "spotify_track_id", &track.spotify_id);
    push_frame_for(
        &mut frames,
        &tag.extended,
        "bandcamp_playlist_track_number",
        &Some(position),
    );
    push_frame_for(&mut frames, &tag.extended, "bandcamp_artist_id", &track.artist.bandcamp_id);
    push_frame_for(&mut frames, &tag.extended, "bandcamp_artist_url", &track.artist.bandcamp_url);
    push_frame_for(&mut frames, &tag.extended, "spotify_artist_id", &track.artist.spotify_id);
    push_frame_for(
        &mut frames,
        &tag.extended,
        "bandcamp_album_artist_id",
        &track.album_artist.bandcamp_id,
    );
    push_frame_for(
        &mut frames,
        &tag.extended,
        "bandcamp_album_artist_url",
        &track.album_artist.bandcamp_url,
    );
    push_frame_for(
        &mut frames,
        &tag.extended,
        "spotify_album_artist_id",
        &track.album_artist.spotify_id,
    );
    push_frame_for(&mut frames, &tag.extended, "bandcamp_album_id", &track.album.bandcamp_id);
    push_frame_for(&mut frames, &tag.extended, "bandcamp_album_url", &track.album.bandcamp_url);
    push_frame_for(&mut frames, &tag.extended, "spotify_album_id", &track.album.spotify_id);
    proof {
        assert(frames@.map_values(|q: (String, String)| (q.0@, q.1@)) =~= tag_frames_spec(
            track@,
            tag@.extended,
        ));
    }
    let updated = set_track || frames.len() > 0;
    TagPlan { set_title, set_artist, set_album, set_album_artist, set_track, frames, updated }
}

} // verus!
