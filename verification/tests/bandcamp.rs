use bcdf::bandcamp::{tracks_from_players, PlayerData, TrackInfo};

fn info(title: &str, number: usize) -> TrackInfo {
    TrackInfo {
        artist: "The Band".to_string(),
        audio_track_duration: 240,
        track_number: number,
        track_title: title.to_string(),
        audio_url: vec![
            ("mp3-128".to_string(), "https://example.net/low".to_string()),
            ("mp3-v0".to_string(), "https://example.net/high".to_string()),
        ],
        album_id: Some(11),
        track_id: Some(22),
    }
}

fn player(featured: usize) -> PlayerData {
    PlayerData {
        title: "The Album".to_string(),
        tracklist: vec![info("first", 1), info("second", 2)],
        featured_track_number: featured,
        band_name: "The Band".to_string(),
        band_id: Some(7),
        band_location: None,
        band_url: Some("https://theband.example.net".to_string()),
        tralbum_url: Some("https://theband.example.net/album".to_string()),
    }
}

#[test]
fn download_url_takes_greatest_format_key() {
    let ti = info("first", 1);
    assert_eq!(Some("https://example.net/high".to_string()), ti.download_url());
}

#[test]
fn get_track_picks_featured_entry() {
    let p = player(2);
    let track = p.get_track(4).expect("featured entry exists");
    assert_eq!("second", track.title);
    assert_eq!("The Band", track.artist.name);
    // the track's artist is the band itself, so band ids carry over
    assert_eq!(Some("7".to_string()), track.artist.bandcamp_id);
    assert_eq!("The Album", track.album.title);
    assert_eq!(Some("11".to_string()), track.album.bandcamp_id);
    assert_eq!(Some("22".to_string()), track.bandcamp_track_id);
    assert_eq!(240, track.duration);
    assert_eq!(2, track.number);
    assert_eq!(4, track.bandcamp_playlist_track_number);
    assert_eq!(Some("https://example.net/high".to_string()), track.download_url);
    assert_eq!(None, track.spotify_id);
}

#[test]
fn get_track_none_without_featured_entry() {
    let p = player(9);
    assert!(p.get_track(1).is_none());
}

#[test]
fn foreign_artist_gets_no_band_ids() {
    let mut p = player(1);
    p.tracklist[0].artist = "Someone Else".to_string();
    let track = p.get_track(1).expect("featured entry exists");
    assert_eq!("Someone Else", track.artist.name);
    assert_eq!(None, track.artist.bandcamp_id);
    assert_eq!(None, track.artist.bandcamp_url);
    // the album artist is still the band
    assert_eq!("The Band", track.album_artist.name);
    assert_eq!(Some("7".to_string()), track.album_artist.bandcamp_id);
}

#[test]
fn players_are_numbered_in_order() {
    let players = vec![player(1), player(9), player(2)];
    let tracks = tracks_from_players(&players);
    // the player without a featured entry is skipped but still counted
    assert_eq!(2, tracks.len());
    assert_eq!("first", tracks[0].title);
    assert_eq!(1, tracks[0].bandcamp_playlist_track_number);
    assert_eq!("second", tracks[1].title);
    assert_eq!(3, tracks[1].bandcamp_playlist_track_number);
}
