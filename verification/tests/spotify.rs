use bcdf::matcher::MatchParams;
use bcdf::spotify::{search_query, select_spotify_match};
use bcdf::state::{BlogPost, State};
use bcdf::types::{DateTime, Track};

fn subject() -> Track {
    let mut t = Track::new("my song", "my artist", "my album");
    t.duration = 200;
    t.number = 3;
    t
}

fn candidate(title: &str, artist: &str, number: usize, duration: u64) -> MatchParams {
    MatchParams {
        title: title.to_string(),
        artist: vec![artist.to_string()],
        album: "my album".to_string(),
        number,
        duration,
    }
}

#[test]
fn query_escapes_percent_signs() {
    assert_eq!(
        "track:100%25 wool artist:a%25b",
        search_query("100% wool", "a%b")
    );
    assert_eq!("track:plain artist:artist", search_query("plain", "artist"));
}

#[test]
fn playlist_title_format() {
    let info = BlogPost {
        title: "Great Finds".to_string(),
        url: "https://example.net".to_string(),
        published: DateTime { year: 2023, month: 11, day: 5, hour: 1, minute: 2, second: 3 },
        modified: DateTime { year: 2023, month: 11, day: 6, hour: 0, minute: 0, second: 0 },
        description: String::new(),
        tracks: vec![],
        raw: vec![],
    };
    assert_eq!("Bandcamp - 2023-11-05 - Great Finds", bcdf::spotify::playlist_title(&info));
}

#[test]
fn select_prefers_best_candidate_keeping_first_tie() {
    let track = subject();
    let candidates = vec![
        candidate("something unrelated", "other", 9, 10),
        candidate("my song", "my artist", 3, 190),
        candidate("my song", "my artist", 3, 200),
        candidate("my song", "my artist", 3, 200),
    ];
    let best = select_spotify_match(&track, &candidates).expect("a candidate matches");
    assert_eq!(2, best.0);
    assert_eq!(100, best.1);

    // ties keep the first-seen candidate
    let tied = vec![
        candidate("my song", "my artist", 3, 200),
        candidate("my song", "my artist", 3, 200),
    ];
    let best = select_spotify_match(&track, &tied).expect("a candidate matches");
    assert_eq!(0, best.0);
}

#[test]
fn select_none_for_resolved_or_hopeless() {
    let mut resolved = subject();
    resolved.spotify_id = Some("spotify:track:done".to_string());
    let candidates = vec![candidate("my song", "my artist", 3, 200)];
    assert!(select_spotify_match(&resolved, &candidates).is_none());

    let track = subject();
    let hopeless = vec![candidate("entirely different", "someone else", 1, 10)];
    assert!(select_spotify_match(&track, &hopeless).is_none());
    assert!(select_spotify_match(&track, &vec![]).is_none());
}

#[test]
fn playlist_assignment_plan() {
    let mut state = State {
        blog_info: BlogPost {
            title: "t".to_string(),
            url: "u".to_string(),
            published: DateTime { year: 2024, month: 1, day: 1, hour: 0, minute: 0, second: 0 },
            modified: DateTime { year: 2024, month: 1, day: 1, hour: 0, minute: 0, second: 0 },
            description: String::new(),
            tracks: vec![],
            raw: vec![],
        },
        tracks: vec![
            {
                let mut t = subject();
                t.spotify_id = Some("spotify:track:a".to_string());
                t
            },
            {
                let mut t = subject();
                t.spotify_id = Some("spotify:track:b".to_string());
                t.spotify_playlist_id = Some("spotify:playlist:p".to_string());
                t
            },
            subject(),
        ],
        spotify_playlist_id: Some("spotify:playlist:p".to_string()),
        root_dir: "./data".to_string(),
        need_save: false,
        need_save_tracks: false,
    };
    let pid = "spotify:playlist:p".to_string();
    // the playlist already holds track a
    let current = vec!["spotify:track:a".to_string()];
    let adds = state.plan_playlist_additions(&pid, &current);
    // only track a needed assignment; its id is already in the playlist, so
    // nothing is added
    assert!(adds.is_empty());
    assert_eq!(Some(pid.clone()), state.tracks[0].spotify_playlist_id);
    // the unresolved track is left alone
    assert_eq!(None, state.tracks[2].spotify_playlist_id);
    assert!(state.need_save);
    assert!(state.need_save_tracks);

    // a freshly resolved track not yet in the playlist is added
    state.tracks[2].spotify_id = Some("spotify:track:c".to_string());
    let adds = state.plan_playlist_additions(&pid, &current);
    assert_eq!(vec!["spotify:track:c".to_string()], adds);
}

#[test]
fn adopt_playlist_updates_only_concrete_values() {
    let mut state = State {
        blog_info: BlogPost {
            title: "t".to_string(),
            url: "u".to_string(),
            published: DateTime { year: 2024, month: 1, day: 1, hour: 0, minute: 0, second: 0 },
            modified: DateTime { year: 2024, month: 1, day: 1, hour: 0, minute: 0, second: 0 },
            description: String::new(),
            tracks: vec![],
            raw: vec![],
        },
        tracks: vec![],
        spotify_playlist_id: None,
        root_dir: "./data".to_string(),
        need_save: false,
        need_save_tracks: false,
    };
    assert!(!state.adopt_playlist_id(&None));
    assert!(!state.need_save);
    assert!(state.adopt_playlist_id(&Some("spotify:playlist:p".to_string())));
    assert!(state.need_save);
    assert_eq!(Some("spotify:playlist:p".to_string()), state.spotify_playlist_id);
    // re-supplying the same value changes nothing
    assert!(!state.adopt_playlist_id(&Some("spotify:playlist:p".to_string())));
}
