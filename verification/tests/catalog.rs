use folder_source::folder::FolderSource;
use folder_source::media::{ChannelConfig, Media, MediaProbe, SortPolicy, time_in_seconds};
use folder_source::folder::select_roots;
use rand::rngs::StdRng;
use rand::SeedableRng;

fn config(policy: SortPolicy) -> ChannelConfig {
    ChannelConfig {
        channel_id: 1,
        storage: "/media".to_string(),
        paths: Vec::new(),
        generate: false,
        extensions: vec!["mp4".to_string()],
        policy,
        tz_offset_secs: 0,
    }
}

fn rng() -> StdRng {
    StdRng::from_entropy()
}

#[test]
fn sorted_catalog_serves_in_order_and_wraps() {
    let entries = vec![
        "/media/b.mp4".to_string(),
        "/media/c.mp4".to_string(),
        "/media/a.mp4".to_string(),
    ];
    let mut src = FolderSource::new(config(SortPolicy::Sorted), entries, rng());
    assert_eq!(src.catalog.len(), 3);

    let expected = [
        ("/media/a.mp4", 0),
        ("/media/b.mp4", 1),
        ("/media/c.mp4", 2),
        ("/media/a.mp4", 0),
        ("/media/b.mp4", 1),
        ("/media/c.mp4", 2),
        ("/media/a.mp4", 0),
    ];
    for (source, index) in expected {
        let m = src.next().expect("catalog is non-empty");
        assert_eq!(m.source, source);
        assert_eq!(m.index, Some(index));
    }
}

#[test]
fn served_indices_cycle_modulo_length() {
    let entries = vec![
        "/v/one.mp4".to_string(),
        "/v/two.mp4".to_string(),
        "/v/three.mp4".to_string(),
        "/v/four.mp4".to_string(),
    ];
    let mut src = FolderSource::new(config(SortPolicy::Sorted), entries, rng());
    let len = src.catalog.len();
    assert_eq!(len, 4);
    for k in 0..25 {
        let m = src.next().expect("catalog is non-empty");
        assert_eq!(m.index, Some(k % len));
    }
}

#[test]
fn empty_catalog_serves_empty_signal_without_failing() {
    let entries = vec!["/media/readme.txt".to_string(), "/media/cover.jpg".to_string()];
    let mut src = FolderSource::new(config(SortPolicy::Sorted), entries, rng());
    assert_eq!(src.catalog.len(), 0);
    assert!(src.next().is_none());
    assert!(src.next().is_none());

    let mut empty = FolderSource::new(config(SortPolicy::Shuffle), Vec::new(), rng());
    assert!(empty.next().is_none());
}

#[test]
fn extension_filter_keeps_only_allowed_files() {
    let mut cfg = config(SortPolicy::Sorted);
    cfg.extensions = vec!["mp4".to_string(), "mkv".to_string()];
    let entries = vec![
        "/m/a.mp4".to_string(),
        "/m/b.txt".to_string(),
        "/m/c.mkv".to_string(),
        "/m/noext".to_string(),
        "/m/dir.d/plain".to_string(),
        "/m/d.MP4".to_string(),
    ];
    let src = FolderSource::new(cfg, entries, rng());
    let sources: Vec<&str> = src.catalog.iter().map(|m| m.source.as_str()).collect();
    assert_eq!(sources, vec!["/m/a.mp4", "/m/c.mkv"]);
}

#[test]
fn new_assigns_contiguous_indices_and_no_enrichment() {
    let entries = vec![
        "/x/3.mp4".to_string(),
        "/x/1.mp4".to_string(),
        "/x/2.mp4".to_string(),
    ];
    let src = FolderSource::new(config(SortPolicy::Sorted), entries, rng());
    for (i, m) in src.catalog.iter().enumerate() {
        assert_eq!(m.index, Some(i));
        assert!(m.begin.is_none());
        assert!(m.probe.is_none());
        assert!(m.filter.is_none());
    }
}

#[test]
fn plain_sort_is_lexical_not_natural() {
    let entries = vec!["/m/file10.mp4".to_string(), "/m/file2.mp4".to_string()];
    let src = FolderSource::new(config(SortPolicy::Sorted), entries, rng());
    let sources: Vec<&str> = src.catalog.iter().map(|m| m.source.as_str()).collect();
    assert_eq!(sources, vec!["/m/file10.mp4", "/m/file2.mp4"]);
}

#[test]
fn from_list_installs_catalog_unchanged() {
    let list = vec![
        Media::new(7, "/q/z.mp4".to_string()),
        Media::new(9, "/q/a.mp4".to_string()),
    ];
    let mut src = FolderSource::from_list(config(SortPolicy::Sorted), list, rng());
    assert_eq!(src.position, 0);
    let first = src.next().unwrap();
    assert_eq!(first.source, "/q/z.mp4");
    assert_eq!(first.index, Some(7));
    let second = src.next().unwrap();
    assert_eq!(second.source, "/q/a.mp4");
    assert_eq!(second.index, Some(9));

    // Exhaustion regenerates: the installed list is re-sorted and reindexed
    // contiguously in one step.
    let third = src.next().unwrap();
    assert_eq!(third.source, "/q/a.mp4");
    assert_eq!(third.index, Some(0));
    assert_eq!(src.catalog[1].source, "/q/z.mp4");
    assert_eq!(src.catalog[1].index, Some(1));
}

#[test]
fn enrich_attaches_collaborator_results() {
    let mut m = Media::new(4, "/m/a.mp4".to_string());
    let probe = MediaProbe { duration_ms: 90_000, video_streams: 1, audio_streams: 2 };
    m.enrich(Some(probe), Some("volume=0.5".to_string()), 3600, -7200);
    assert_eq!(m.index, Some(4));
    assert_eq!(m.source, "/m/a.mp4");
    assert_eq!(m.begin, Some(82800));
    assert_eq!(m.probe, Some(probe));
    assert_eq!(m.filter.as_deref(), Some("volume=0.5"));

    // A failed probe leaves the earlier metadata in place; the filter
    // collaborator's answer is taken as it came.
    m.enrich(None, None, 10, 0);
    assert_eq!(m.begin, Some(10));
    assert_eq!(m.probe, Some(probe));
    assert_eq!(m.filter, None);
}

#[test]
fn select_roots_prefers_generation_paths_when_requested() {
    let mut cfg = config(SortPolicy::Sorted);
    cfg.storage = "/srv/storage".to_string();
    cfg.paths = vec!["/srv/a".to_string(), "/srv/b".to_string()];

    cfg.generate = true;
    assert_eq!(select_roots(&cfg), vec!["/srv/a".to_string(), "/srv/b".to_string()]);

    cfg.generate = false;
    assert_eq!(select_roots(&cfg), vec!["/srv/storage".to_string()]);

    cfg.generate = true;
    cfg.paths = Vec::new();
    assert_eq!(select_roots(&cfg), vec!["/srv/storage".to_string()]);
}

#[test]
fn time_in_seconds_matches_offset_arithmetic() {
    assert_eq!(time_in_seconds(0, 0), 0);
    assert_eq!(time_in_seconds(3600, 3600), 7200);
    assert_eq!(time_in_seconds(3600, -7200), 82800);
    assert_eq!(time_in_seconds(86400 + 10, 3600), 3610);
    assert_eq!(time_in_seconds(86399, 1), 0);
}
