use bcdf::matcher::{MatchParams, TrackMatcher};
use bcdf::similarity::StringMatcher;
use bcdf::types::Track;

fn test_track(title: &str, artist: &str, album: &str) -> Track {
    let mut track = Track::new(title, artist, album);
    track.duration = 30;
    track.number = 2;
    track
}

fn params_for(track: &Track) -> MatchParams {
    MatchParams::from_track(track)
}

#[test]
fn fuzzy_search() {
    let cases = vec![
        // (search result string, scraped title)
        ("hey, ily", "Hey, ily!"),
        ("for toshiko: ii. to touch \u{2014}", "for Toshiko, ii. to touch\u{2014}"),
        ("onward! to nowhere", "DISKORD - Onward! To Nowhere"),
        ("desiree", "desir\u{e9}e"),
        (
            "you cant negotiate with zombies",
            "You Can't Negotiate With Zombies [Debut Album]",
        ),
        (
            "are there not still fireflies",
            "Are There Not Still Fireflies?",
        ),
        ("laurie anderson", "Anne Waldman, Laurie Anderson"),
        ("nativo vol. 1", "[NTV001] NATIVO VA VOL 1."),
    ];

    for (search_result, bandcamp_title) in cases {
        // technically not all of these are track titles, but that does not
        // matter here.
        let matcher = StringMatcher::new(bandcamp_title);
        let result = matcher.score(search_result);
        assert!(
            result > 0,
            "search for '{search_result}' in '{bandcamp_title}' yielded a zero score"
        );
    }
}

#[test]
fn track_matcher_exact() {
    let track = test_track("track", "artist", "album");

    let matcher = TrackMatcher::new(&track);

    let score = matcher.score_params(&params_for(&track));

    assert_eq!(Some(100), score);
}

#[test]
fn track_matcher_similar_title() {
    let track = test_track("my track name!!", "artist", "album");

    let other = {
        let mut other = track.duplicate();
        other.title = format!("{}!", other.title);
        other
    };

    let matcher = TrackMatcher::new(&track);

    let score = matcher.score_params(&params_for(&other));

    assert_eq!(Some(98), score);
}

#[test]
fn track_matcher_wrong_title() {
    let track = test_track("title", "artist", "album");

    let other = {
        let mut other = track.duplicate();
        other.title = "nope nope bad title".to_string();
        other
    };

    let matcher = TrackMatcher::new(&track);

    let score = matcher.score_params(&params_for(&other));

    assert_eq!(None, score);
}

#[test]
fn track_matcher_wrong_artist() {
    let track = test_track("title", "artist", "album");

    let other = {
        let mut other = track.duplicate();
        other.artist = bcdf::types::Artist::new("nope not the right artist");
        other
    };

    let matcher = TrackMatcher::new(&track);

    let score = matcher.score_params(&params_for(&other));

    assert_eq!(None, score);
}

#[test]
fn track_matcher_multi_artist() {
    let tests = &[
        ("a & b", vec!["a", "b"]),
        ("a and b", vec!["a", "b"]),
        ("a & b & c", vec!["a", "b", "c"]),
        ("a & b & c", vec!["b", "c", "a"]),
        ("b & c & a", vec!["a", "b", "c"]),
        ("b feat. a", vec!["b", "a"]),
        ("b feat. a", vec!["a", "b"]),
    ];

    for case in tests {
        let track = test_track("title", case.0, "album");

        let mut params = params_for(&track);
        params.artist = case.1.iter().map(|s| s.to_string()).collect();

        let matcher = TrackMatcher::new(&track);

        let score = matcher.score_params(&params);

        assert_eq!(
            Some(100),
            score,
            "track: '{}', result: '{:?}'",
            case.0,
            case.1
        );
    }
}

#[test]
fn exact_case_insensitive_match_scores_full() {
    let matcher = StringMatcher::new("Some Long Track Title");
    assert_eq!(1000, matcher.score("sOME lONG tRACK tITLE"));
}

#[test]
fn title_gate_passes_after_normalization() {
    // subject "Hey, ily!" vs candidate "hey, ily": the normalized forms are
    // identical, so the similarity clears the 95% title floor.
    let matcher = StringMatcher::new("Hey, ily!");
    let score = matcher.score("hey, ily");
    assert!(score >= 950, "score was {score}");
}

#[test]
fn multi_artist_order_and_connectors() {
    // subject "a & b" vs candidate artists ["b", "a"]: full artist score.
    let track = test_track("title", "a & b", "album");
    let mut params = params_for(&track);
    params.artist = vec!["b".to_string(), "a".to_string()];
    let matcher = TrackMatcher::new(&track);
    assert_eq!(Some(100), matcher.score_params(&params));
}

#[test]
fn track_num_matcher_binary() {
    let m = bcdf::matcher::TrackNumMatcher::new(7);
    assert_eq!(1000, m.score(7));
    assert_eq!(0, m.score(8));
    assert_eq!(0, m.score(6));
}

#[test]
fn duration_matcher_relative_deviation() {
    let m = bcdf::matcher::TrackDurationMatcher::new(180);
    assert_eq!(1000, m.score(180));
    // 180 s vs 183 s: 3/180 deviation, about 98.3%
    assert_eq!(983, m.score(183));
    assert_eq!(983, m.score(177));
    // enormous deviations clamp at zero rather than going negative
    assert_eq!(0, m.score(0));
    assert_eq!(0, m.score(100_000));
}

#[test]
fn max_possible_weighted_sum() {
    let track = test_track("t", "a", "b");
    let matcher = TrackMatcher::new(&track);
    assert_eq!(170_000, matcher.max_possible());
}
