use bcdf::state::{BlogPost, State};
use bcdf::types::{DateTime, Track};

fn date() -> DateTime {
    DateTime { year: 2024, month: 3, day: 7, hour: 12, minute: 30, second: 5 }
}

fn scraped_track(title: &str, artist: &str, position: usize) -> Track {
    let mut t = Track::new(title, artist, "album");
    t.duration = 180;
    t.number = position;
    t.bandcamp_playlist_track_number = position;
    t.download_url = Some(format!("https://example.net/{position}"));
    t.bandcamp_track_id = Some(format!("id-{position}"));
    t
}

fn scraped_info() -> BlogPost {
    BlogPost {
        title: "A Fine Collection".to_string(),
        url: "https://example.net/post".to_string(),
        published: date(),
        modified: date(),
        description: "desc".to_string(),
        tracks: vec![scraped_track("one", "artist", 1), scraped_track("two", "artist", 2)],
        raw: vec!["{}".to_string()],
    }
}

#[test]
fn deterministic_paths() {
    let info = scraped_info();
    assert_eq!(
        "./data/2024-03-07 - A Fine Collection",
        bcdf::state::dirname_for(&info, "./data")
    );
    assert_eq!(
        "./data/2024-03-07 - A Fine Collection/info.json",
        bcdf::state::filename_for(&info, "./data")
    );
}

#[test]
fn track_filenames_are_deterministic() {
    let mut t = scraped_track("so/ng", "art/ist", 3);
    t.bandcamp_playlist_track_number = 3;
    assert_eq!("03 - art_ist - so_ng.mp3", t.mp3_filename());
    assert_eq!("03 - art_ist - so_ng.json", t.meta_filename());
}

#[test]
fn rehydrate_preserves_progress_and_adopts_fresh_title() {
    // the source re-supplied a corrected title; the prior on-disk record
    // carries the resolved catalog id
    let mut fresh = scraped_track("corrected title", "artist", 1);
    let mut prior = scraped_track("old titel", "artist", 1);
    prior.spotify_id = Some("spotify:track:abc".to_string());
    prior.spotify_playlist_id = Some("spotify:playlist:xyz".to_string());
    prior.download_url = Some("https://example.net/old".to_string());

    let mut merged = fresh.duplicate();
    merged.rehydrate(prior.duplicate(), false);
    assert_eq!("corrected title", merged.title);
    assert_eq!(Some("spotify:track:abc".to_string()), merged.spotify_id);
    assert_eq!(Some("spotify:playlist:xyz".to_string()), merged.spotify_playlist_id);
    // the media file was never fetched: the fresh URL stays
    assert_eq!(fresh.download_url, merged.download_url);

    // with the media file on disk the previous URL is restored
    fresh.rehydrate(prior, true);
    assert_eq!(Some("https://example.net/old".to_string()), fresh.download_url);
}

#[test]
fn update_never_clears_progress() {
    let mut slot = Some("old".to_string());
    assert!(!bcdf::types::update(&mut slot, &None));
    assert_eq!(Some("old".to_string()), slot);
    assert!(!bcdf::types::update(&mut slot, &Some("old".to_string())));
    assert!(bcdf::types::update(&mut slot, &Some("new".to_string())));
    assert_eq!(Some("new".to_string()), slot);
}

fn run_reconciliation(loaded: Option<State>) -> State {
    let info = scraped_info();
    let n = info.tracks.len();
    let mut state = State::try_get_or_create(info, "./data", loaded);
    // no prior track records, no media on disk
    let track_loads: Vec<Option<Track>> = (0..n).map(|_| None).collect();
    let mp3s: Vec<bool> = vec![false; n];
    state.rehydrate_tracks(track_loads, &mp3s);
    state
}

#[test]
fn reconciliation_is_idempotent() {
    // first run: nothing on disk
    let s1 = run_reconciliation(None);
    assert!(s1.need_save);

    // the first save writes everything
    let empty_loads: Vec<Option<Track>> = s1.tracks.iter().map(|_| None).collect();
    let plan1 = s1.save_plan(&None, &empty_loads);
    assert!(plan1.write_info);
    assert!(plan1.write_tracks.iter().all(|w| *w));

    // what the first run left on disk: the record with default flags, and
    // one file per track
    let on_disk = State {
        blog_info: scraped_info(),
        tracks: s1.tracks.iter().map(|t| t.duplicate()).collect(),
        spotify_playlist_id: s1.spotify_playlist_id.clone(),
        root_dir: s1.root_dir.clone(),
        need_save: false,
        need_save_tracks: false,
    };
    let disk_tracks: Vec<Option<Track>> = s1.tracks.iter().map(|t| Some(t.duplicate())).collect();

    // second run: unchanged source fetch, records loaded from disk
    let info = scraped_info();
    let mut s2 = State::try_get_or_create(info, "./data", Some(on_disk));
    let mp3s = vec![false; s2.blog_info.tracks.len()];
    let track_loads: Vec<Option<Track>> =
        s1.tracks.iter().map(|t| Some(t.duplicate())).collect();
    s2.rehydrate_tracks(track_loads, &mp3s);

    // nothing is rewritten
    let on_disk2 = State {
        blog_info: scraped_info(),
        tracks: s1.tracks.iter().map(|t| t.duplicate()).collect(),
        spotify_playlist_id: s1.spotify_playlist_id.clone(),
        root_dir: s1.root_dir.clone(),
        need_save: false,
        need_save_tracks: false,
    };
    let plan2 = s2.save_plan(&Some(on_disk2), &disk_tracks);
    assert!(!plan2.write_info);
    assert!(plan2.write_tracks.iter().all(|w| !*w));
}

#[test]
fn save_plan_rewrites_only_changed_halves() {
    let s1 = run_reconciliation(None);
    let on_disk = State {
        blog_info: scraped_info(),
        tracks: s1.tracks.iter().map(|t| t.duplicate()).collect(),
        spotify_playlist_id: None,
        root_dir: s1.root_dir.clone(),
        need_save: false,
        need_save_tracks: false,
    };
    let disk_tracks: Vec<Option<Track>> = s1.tracks.iter().map(|t| Some(t.duplicate())).collect();

    // one track gains a resolved id: only its record is rewritten
    let mut s2 = s1;
    s2.tracks[1].spotify_id = Some("spotify:track:new".to_string());
    s2.need_save = true;
    s2.need_save_tracks = true;
    let plan = s2.save_plan(&Some(on_disk), &disk_tracks);
    assert!(plan.write_info);
    assert_eq!(vec![false, true], plan.write_tracks);

    // with the dirty flags clear nothing is written at all
    s2.mark_saved();
    let empty: Option<State> = None;
    let plan = s2.save_plan(&empty, &disk_tracks);
    assert!(!plan.write_info);
    assert!(plan.write_tracks.iter().all(|w| !*w));
}

fn janitor_state() -> State {
    State {
        blog_info: scraped_info(),
        tracks: vec![scraped_track("one", "artist", 1), scraped_track("two", "artist", 2)],
        spotify_playlist_id: None,
        root_dir: "./data".to_string(),
        need_save: false,
        need_save_tracks: false,
    }
}

#[test]
fn janitor_removes_true_orphan() {
    let state = janitor_state();
    let orphan = scraped_track("something else entirely", "stranger", 9);
    let existing = vec![
        "09 - stranger - something else entirely.json".to_string(),
        "09 - stranger - something else entirely.mp3".to_string(),
    ];
    let plan = state.cleanup_plan(&vec![orphan], &existing);
    assert_eq!(
        vec![
            "09 - stranger - something else entirely.json".to_string(),
            "09 - stranger - something else entirely.mp3".to_string(),
        ],
        plan
    );
}

#[test]
fn janitor_keeps_referenced_records() {
    let state = janitor_state();
    // a record whose file name matches a current track exactly
    let same = scraped_track("one", "artist", 1);
    let existing = vec!["01 - artist - one.json".to_string()];
    let plan = state.cleanup_plan(&vec![same], &existing);
    assert!(plan.is_empty());
}

#[test]
fn janitor_consolidates_renamed_duplicate() {
    let state = janitor_state();
    // same title, different position, hence a different file name
    let dupe = scraped_track("one", "artist", 5);
    let all_present = vec![
        "01 - artist - one.json".to_string(),
        "01 - artist - one.mp3".to_string(),
        "05 - artist - one.json".to_string(),
        "05 - artist - one.mp3".to_string(),
    ];
    let plan = state.cleanup_plan(&vec![dupe.duplicate()], &all_present);
    assert_eq!(
        vec!["05 - artist - one.json".to_string(), "05 - artist - one.mp3".to_string()],
        plan
    );

    // without the canonical track's media file, the duplicate's media file
    // survives: it may be the only copy
    let no_canonical_mp3 = vec![
        "01 - artist - one.json".to_string(),
        "05 - artist - one.json".to_string(),
        "05 - artist - one.mp3".to_string(),
    ];
    let plan = state.cleanup_plan(&vec![dupe.duplicate()], &no_canonical_mp3);
    assert_eq!(vec!["05 - artist - one.json".to_string()], plan);

    // without the canonical track's metadata file nothing is deleted yet
    let nothing_canonical =
        vec!["05 - artist - one.json".to_string(), "05 - artist - one.mp3".to_string()];
    let plan = state.cleanup_plan(&vec![dupe], &nothing_canonical);
    assert!(plan.is_empty());
}

#[test]
fn janitor_matches_by_source_id() {
    let state = janitor_state();
    // different title, same source track id as track "two"
    let mut dupe = scraped_track("renamed", "artist", 7);
    dupe.bandcamp_track_id = Some("id-2".to_string());
    let existing = vec![
        "02 - artist - two.json".to_string(),
        "07 - artist - renamed.json".to_string(),
    ];
    let plan = state.cleanup_plan(&vec![dupe], &existing);
    assert_eq!(vec!["07 - artist - renamed.json".to_string()], plan);
}

#[test]
fn pending_work_predicates() {
    let mut state = janitor_state();
    assert!(!state.has_spotify_tracks());
    assert!(state.needs_spotify_updates());
    assert!(!state.needs_playlist_assignments());

    state.tracks[0].spotify_id = Some("spotify:track:abc".to_string());
    assert!(state.has_spotify_tracks());
    assert!(state.needs_playlist_assignments());

    let nothing = vec![];
    assert!(state.needs_downloads(&nothing));
    let all = vec![
        "01 - artist - one.mp3".to_string(),
        "02 - artist - two.mp3".to_string(),
    ];
    assert!(!state.needs_downloads(&all));
}

#[test]
fn blog_urls_lists_collections_needing_work() {
    let done = {
        let mut s = janitor_state();
        s.spotify_playlist_id = Some("spotify:playlist:xyz".to_string());
        for t in s.tracks.iter_mut() {
            t.spotify_id = Some("spotify:track:abc".to_string());
            t.spotify_playlist_id = Some("spotify:playlist:xyz".to_string());
        }
        s
    };
    let pending = janitor_state();
    let files = vec![
        "01 - artist - one.mp3".to_string(),
        "02 - artist - two.mp3".to_string(),
    ];
    let states = vec![done, pending];
    let listings = vec![files.clone(), files.clone()];

    let urls = bcdf::state::blog_urls(&states, false, false, &listings);
    assert_eq!(vec!["https://example.net/post".to_string()], urls);

    let none = bcdf::state::blog_urls(&states, true, false, &listings);
    assert!(none.is_empty());
}
