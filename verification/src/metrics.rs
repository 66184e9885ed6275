//! Run counters, collected in an explicitly passed registry rather than in
//! process-wide state.

use vstd::prelude::*;

verus! {

/// Number of distinct metrics.
pub const METRIC_COUNT: usize = 10;

/// One counted event kind.
#[derive(Clone, Copy, PartialEq, Eq, Structural, Debug)]
pub enum Metric {
    BlogPostsSeen,
    SpotifyPlaylistsCreated,
    TracksDownloaded,
    TracksDiscoveredOnSpotify,
    TracksMissingFromSpotify,
    TracksAddedToSpotifyPlaylist,
    TracksWithUpdatedTags,
    TracksSeen,
    SpotifyTrackSearchQueries,
    SpotifyErrors,
}

impl Metric {
    /// The metric's slot in the registry.
    pub open spec fn index_spec(self) -> int {
        match self {
            Metric::BlogPostsSeen => 0,
            Metric::SpotifyPlaylistsCreated => 1,
            Metric::TracksDownloaded => 2,
            Metric::TracksDiscoveredOnSpotify => 3,
            Metric::TracksMissingFromSpotify => 4,
            Metric::TracksAddedToSpotifyPlaylist => 5,
            Metric::TracksWithUpdatedTags => 6,
            Metric::TracksSeen => 7,
            Metric::SpotifyTrackSearchQueries => 8,
            Metric::SpotifyErrors => 9,
        }
    }

    /// The metric's slot in the registry.
    pub fn index(self) -> (i: usize)
        ensures
            i == self.index_spec(),
            i < METRIC_COUNT,
    {
        match self {
            Metric::BlogPostsSeen => 0,
            Metric::SpotifyPlaylistsCreated => 1,
            Metric::TracksDownloaded => 2,
            Metric::TracksDiscoveredOnSpotify => 3,
            Metric::TracksMissingFromSpotify => 4,
            Metric::TracksAddedToSpotifyPlaylist => 5,
            Metric::TracksWithUpdatedTags => 6,
            Metric::TracksSeen => 7,
            Metric::SpotifyTrackSearchQueries => 8,
            Metric::SpotifyErrors => 9,
        }
    }

    /// The metric's display name, in snake case.
    pub open spec fn name_spec(self) -> Seq<char> {
        match self {
            Metric::BlogPostsSeen => "blog_posts_seen"@,
            Metric::SpotifyPlaylistsCreated => "spotify_playlists_created"@,
            Metric::TracksDownloaded => "tracks_downloaded"@,
            Metric::TracksDiscoveredOnSpotify => "tracks_discovered_on_spotify"@,
            Metric::TracksMissingFromSpotify => "tracks_missing_from_spotify"@,
            Metric::TracksAddedToSpotifyPlaylist => "tracks_added_to_spotify_playlist"@,
            Metric::TracksWithUpdatedTags => "tracks_with_updated_tags"@,
            Metric::TracksSeen => "tracks_seen"@,
            Metric::SpotifyTrackSearchQueries => "spotify_track_search_queries"@,
            Metric::SpotifyErrors => "spotify_errors"@,
        }
    }

    /// The metric's display name, in snake case.
    pub fn name(self) -> (r: &'static str)
        ensures
            r@ == self.name_spec(),
    {
        match self {
            Metric::BlogPostsSeen => "blog_posts_seen",
            Metric::SpotifyPlaylistsCreated => "spotify_playlists_created",
            Metric::TracksDownloaded => "tracks_downloaded",
            Metric::TracksDiscoveredOnSpotify => "tracks_discovered_on_spotify",
            Metric::TracksMissingFromSpotify => "tracks_missing_from_spotify",
            Metric::TracksAddedToSpotifyPlaylist => "tracks_added_to_spotify_playlist",
            Metric::TracksWithUpdatedTags => "tracks_with_updated_tags",
            Metric::TracksSeen => "tracks_seen",
            Metric::SpotifyTrackSearchQueries => "spotify_track_search_queries",
            Metric::SpotifyErrors => "spotify_errors",
        }
    }

    /// Every metric, in registry order.
    pub fn all() -> (v: Vec<Metric>)
        ensures
            v@.len() == METRIC_COUNT,
            forall|i: int| 0 <= i < v@.len() ==> (#[trigger] v@[i]).index_spec() == i,
    {
        let mut v: Vec<Metric> = Vec::new();
        v.push(Metric::BlogPostsSeen);
        v.push(Metric::SpotifyPlaylistsCreated);
        v.push(Metric::TracksDownloaded);
        v.push(Metric::TracksDiscoveredOnSpotify);
        v.push(Metric::TracksMissingFromSpotify);
        v.push(Metric::TracksAddedToSpotifyPlaylist);
        v.push(Metric::TracksWithUpdatedTags);
        v.push(Metric::TracksSeen);
        v.push(Metric::SpotifyTrackSearchQueries);
        v.push(Metric::SpotifyErrors);
        v
    }
}

/// A registry of counters, one per metric, all starting at zero.
#[derive(Debug)]
pub struct Metrics {
    pub counts: Vec<usize>,
}

impl Metrics {
    /// One slot for every metric.
    pub open spec fn wf(&self) -> bool {
        self.counts@.len() == METRIC_COUNT
    }
}

/// A fresh registry with every counter at zero.
pub fn metrics() -> (m: Metrics)
    ensures
        m.wf(),
        forall|i: int| 0 <= i < METRIC_COUNT ==> m.counts@[i] == 0,
{
    let mut counts: Vec<usize> = Vec::new();
    let mut i: usize = 0;
    while i < METRIC_COUNT
        invariant
            i <= METRIC_COUNT,
            counts@.len() == i,
            forall|j: int| 0 <= j < i ==> counts@[j] == 0,
        decreases METRIC_COUNT - i,
    {
        counts.push(0);
        i = i + 1;
    }
    Metrics { counts }
}

/// Add `n` to one counter.
pub fn inc(m: &mut Metrics, metric: Metric, n: usize)
    requires
        old(m).wf(),
        old(m).counts@[metric.index_spec()] + n <= usize::MAX,
    ensures
        final(m).wf(),
        final(m).counts@ == old(m).counts@.update(
            metric.index_spec(),
            (old(m).counts@[metric.index_spec()] + n) as usize,
        ),
{
    let i = metric.index();
    let cur = m.counts[i];
    let _ = m.counts.remove(i);
    m.counts.insert(i, cur + n);
    proof {
        assert(m.counts@ =~= old(m).counts@.update(
            metric.index_spec(),
            (old(m).counts@[metric.index_spec()] + n) as usize,
        ));
    }
}

/// The current value of every counter, in registry order.
pub fn summarize(m: &Metrics) -> (r: Vec<(Metric, usize)>)
    requires
        m.wf(),
    ensures
        r@.len() == METRIC_COUNT,
        forall|i: int|
            0 <= i < r@.len() ==> (#[trigger] r@[i]).0.index_spec() == i && r@[i].1
                == m.counts@[i],
{
    let all = Metric::all();
    let mut r: Vec<(Metric, usize)> = Vec::new();
    let mut i: usize = 0;
    while i < all.len()
        invariant
            m.wf(),
            all@.len() == METRIC_COUNT,
            forall|j: int| 0 <= j < all@.len() ==> (#[trigger] all@[j]).index_spec() == j,
            i <= all@.len(),
            r@.len() == i,
            forall|j: int|
                0 <= j < i ==> (#[trigger] r@[j]).0.index_spec() == j && r@[j].1 == m.counts@[j],
        decreases all@.len() - i,
    {
        let metric = all[i];
        let value = m.counts[metric.index()];
        r.push((metric, value));
        i = i + 1;
    }
    r
}

} // verus!
