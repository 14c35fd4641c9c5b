use folder_source::folder::{fill_filler_list, FillerRoot};
use folder_source::media::{ChannelConfig, SortPolicy};
use folder_source::natural::{natural_sortable_sources, natural_sortable_str};
use rand::rngs::StdRng;
use rand::SeedableRng;

fn config(policy: SortPolicy) -> ChannelConfig {
    ChannelConfig {
        channel_id: 2,
        storage: "/media".to_string(),
        paths: Vec::new(),
        generate: false,
        extensions: vec!["mp4".to_string()],
        policy,
        tz_offset_secs: 0,
    }
}

#[test]
fn natural_sortable_guards_the_comparator_accumulator() {
    // 19 consecutive digits fit the comparator's accumulator; 20 do not.
    assert!(natural_sortable_str("/f/id1234567890123456789.mp4"));
    assert!(!natural_sortable_str("/f/id12345678901234567890.mp4"));
    // Non-ASCII characters are transliterated by the comparator and can
    // produce digits the text never showed, so they are excluded too.
    assert!(!natural_sortable_str("/f/naïve.mp4"));
    assert!(natural_sortable_sources(&vec![
        "/f/file2.mp4".to_string(),
        "/f/file10.mp4".to_string(),
    ]));
    assert!(!natural_sortable_sources(&vec![
        "/f/ok.mp4".to_string(),
        "/f/id99999999999999999999.mp4".to_string(),
    ]));
}

#[test]
fn single_file_root_yields_one_entry_under_either_policy() {
    for policy in [SortPolicy::Sorted, SortPolicy::Shuffle] {
        let mut rng = StdRng::from_entropy();
        let root = FillerRoot::File("/filler/break.mp4".to_string());
        let list = fill_filler_list(&config(policy), root, &mut rng);
        assert_eq!(list.len(), 1);
        assert_eq!(list[0].index, Some(0));
        assert_eq!(list[0].source, "/filler/break.mp4");
        assert!(list[0].begin.is_none());
        assert!(list[0].probe.is_none());
        assert!(list[0].filter.is_none());
    }
}

#[test]
fn missing_root_yields_empty_catalog() {
    let mut rng = StdRng::from_entropy();
    let list = fill_filler_list(&config(SortPolicy::Sorted), FillerRoot::Missing, &mut rng);
    assert!(list.is_empty());
}

#[test]
fn directory_root_sorts_naturally() {
    let mut rng = StdRng::from_entropy();
    let entries = vec![
        "/f/file10.mp4".to_string(),
        "/f/file2.mp4".to_string(),
        "/f/file1.mp4".to_string(),
        "/f/notes.txt".to_string(),
    ];
    let list = fill_filler_list(
        &config(SortPolicy::Sorted),
        FillerRoot::Directory(entries),
        &mut rng,
    );
    let sources: Vec<&str> = list.iter().map(|m| m.source.as_str()).collect();
    assert_eq!(sources, vec!["/f/file1.mp4", "/f/file2.mp4", "/f/file10.mp4"]);
    for (i, m) in list.iter().enumerate() {
        assert_eq!(m.index, Some(i));
    }
}

#[test]
fn directory_root_shuffle_keeps_every_entry_indexed() {
    let mut rng = StdRng::from_entropy();
    let entries: Vec<String> = (0..8).map(|k| format!("/f/clip{k}.mp4")).collect();
    let list = fill_filler_list(
        &config(SortPolicy::Shuffle),
        FillerRoot::Directory(entries.clone()),
        &mut rng,
    );
    assert_eq!(list.len(), 8);
    let mut sources: Vec<String> = list.iter().map(|m| m.source.clone()).collect();
    sources.sort();
    let mut expected = entries;
    expected.sort();
    assert_eq!(sources, expected);
    for (i, m) in list.iter().enumerate() {
        assert_eq!(m.index, Some(i));
    }
}
