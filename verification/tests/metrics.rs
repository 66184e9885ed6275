use bcdf::metrics::{inc, metrics, summarize, Metric};

#[test]
fn metric_name() {
    assert_eq!("blog_posts_seen", Metric::BlogPostsSeen.name());
}

#[test]
fn all_metrics_in_static_metrics() {
    let registry = metrics();
    for m in Metric::all() {
        assert!(m.index() < registry.counts.len());
    }
}

#[test]
fn all_metrics_in_summary() {
    let summary = summarize(&metrics());
    for m in Metric::all() {
        assert!(summary.iter().any(|(mm, _)| *mm == m));
    }
}

#[test]
fn inc_updates_only_one_counter() {
    let mut registry = metrics();
    inc(&mut registry, Metric::TracksSeen, 3);
    inc(&mut registry, Metric::TracksSeen, 2);
    inc(&mut registry, Metric::SpotifyErrors, 1);
    let summary = summarize(&registry);
    for (m, v) in summary {
        if m == Metric::TracksSeen {
            assert_eq!(5, v);
        } else if m == Metric::SpotifyErrors {
            assert_eq!(1, v);
        } else {
            assert_eq!(0, v);
        }
    }
}
