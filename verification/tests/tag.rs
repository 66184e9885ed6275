use bcdf::tag::{plan_tag_updates, TagFields};
use bcdf::types::Track;

fn tagged_track() -> Track {
    let mut t = Track::new("song", "artist", "album");
    t.duration = 100;
    t.number = 4;
    t.bandcamp_playlist_track_number = 9;
    t.bandcamp_track_id = Some("12345".to_string());
    t.spotify_id = Some("spotify:track:x".to_string());
    t
}

fn matching_tag() -> TagFields {
    TagFields {
        title: Some("song".to_string()),
        artist: Some("artist".to_string()),
        album: Some("album".to_string()),
        album_artist: Some("artist".to_string()),
        track: Some(4),
        extended: vec![
            ("bandcamp_track_id".to_string(), "12345".to_string()),
            ("spotify_track_id".to_string(), "spotify:track:x".to_string()),
            ("bandcamp_playlist_track_number".to_string(), "9".to_string()),
        ],
    }
}

#[test]
fn unchanged_tag_needs_no_write() {
    let plan = plan_tag_updates(&tagged_track(), &matching_tag());
    assert!(!plan.set_title);
    assert!(!plan.set_artist);
    assert!(!plan.set_album);
    assert!(!plan.set_album_artist);
    assert!(!plan.set_track);
    assert!(plan.frames.is_empty());
    assert!(!plan.updated);
}

#[test]
fn one_changed_field_rewrites_the_rest() {
    let mut tag = matching_tag();
    tag.title = Some("old song".to_string());
    let plan = plan_tag_updates(&tagged_track(), &tag);
    // once the title differs, every following standard frame is rewritten
    assert!(plan.set_title);
    assert!(plan.set_artist);
    assert!(plan.set_album);
    assert!(plan.set_album_artist);
    assert!(plan.set_track);
    assert!(plan.updated);
}

#[test]
fn missing_frames_compare_as_empty() {
    let mut tag = matching_tag();
    tag.album = None;
    let plan = plan_tag_updates(&tagged_track(), &tag);
    assert!(!plan.set_title);
    assert!(!plan.set_artist);
    assert!(plan.set_album);
    assert!(plan.set_album_artist);
}

#[test]
fn stale_extended_frames_are_replaced() {
    let mut tag = matching_tag();
    tag.extended[1].1 = "spotify:track:outdated".to_string();
    let plan = plan_tag_updates(&tagged_track(), &tag);
    assert_eq!(
        vec![("spotify_track_id".to_string(), "spotify:track:x".to_string())],
        plan.frames
    );
    assert!(plan.updated);
    assert!(!plan.set_track);
}

#[test]
fn later_duplicate_frame_wins() {
    let mut tag = matching_tag();
    // an earlier stale duplicate is overridden by the later accurate one
    tag.extended.insert(
        0,
        ("spotify_track_id".to_string(), "spotify:track:stale".to_string()),
    );
    let plan = plan_tag_updates(&tagged_track(), &tag);
    assert!(plan.frames.is_empty());
    assert!(!plan.updated);
}

#[test]
fn absent_identifiers_write_no_frames() {
    let mut track = tagged_track();
    track.bandcamp_track_id = None;
    track.spotify_id = None;
    let mut tag = matching_tag();
    tag.extended = vec![(
        "bandcamp_playlist_track_number".to_string(),
        "9".to_string(),
    )];
    let plan = plan_tag_updates(&track, &tag);
    assert!(plan.frames.is_empty());
}
